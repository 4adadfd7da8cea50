use vstd::prelude::*;

use crate::error::DedupError;

verus! {

/// The options of one run.
#[derive(Debug, Clone)]
pub struct Args {
    /// Image to examine; standard input when absent.
    pub image: Option<String>,
    /// Output file; excludes `stdout`.
    pub output: Option<String>,
    /// Write the image to standard output; excludes `output`.
    pub stdout: bool,
    /// Smallest file size, in bytes, that is tracked.
    pub min_size: u64,
    /// Store rewritten layers uncompressed.
    pub no_compression: bool,
}

impl Args {
    /// Whether these options name a destination for the image.
    pub open spec fn has_destination(&self) -> bool {
        self.output is Some || self.stdout
    }

    /// Accepts the options exactly when they name a destination.
    pub fn validate(&self) -> (r: Result<(), DedupError>)
        ensures
            r is Ok <==> self.has_destination(),
            r is Err ==> r == Err::<(), DedupError>(DedupError::MissingOutput),
    {
        if self.output.is_none() && !self.stdout {
            return Err(DedupError::MissingOutput);
        }
        Ok(())
    }
}

} // verus!
