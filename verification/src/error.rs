use vstd::prelude::*;

verus! {

/// Why the bytes of one layer could not be read as an archive.
#[derive(Debug, Clone, Copy, PartialEq, Eq, Structural)]
pub enum LayerError {
    /// The layer is shorter than the two signature bytes.
    Truncated,
    /// The layer starts with the gzip signature but does not decompress.
    Decompress,
    /// The decoded bytes are not a well-formed tar archive.
    Archive,
}

/// Everything that can stop a run.
#[derive(Debug, Clone, Copy, PartialEq, Eq, Structural)]
pub enum DedupError {
    /// Neither an output file nor standard output was asked for.
    MissingOutput,
    /// The image name does not end in `.tar`, `.tar.gz` or `.tar.xz`.
    UnexpectedImage,
    /// The manifest file lists no image.
    NoManifest,
    /// The manifest names a different number of layers than were handed over.
    LayerCountMismatch,
    /// A layer could not be read; the layer's index comes with the cause.
    Layer { layer_index: usize, cause: LayerError },
    /// The savings of a group of duplicates do not fit in 64 bits.
    SavingsOverflow,
    /// A kept entry could not be written to the new archive.
    WriteEntry,
    /// A link entry could not be written to the new archive.
    WriteLink,
    /// The new archive could not be compressed.
    Compress,
}

} // verus!
