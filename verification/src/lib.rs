//! Deduplication of files that are stored more than once across the layers of
//! an exported container image.
//!
//! The library works on images held in memory: a layer is its bytes, an
//! archive is a sequence of entries, and every step from scanning to the
//! reassembled image is a function with a contract.

pub mod analyzer;
pub mod archive;
pub mod cli;
pub mod collect;
pub mod digest;
pub mod error;
pub mod gzip;
pub mod schemas;
pub mod sha_writer;
pub mod sink;
pub mod tee_writer;
pub mod text;

pub use analyzer::Analyzer;
pub use error::DedupError;
pub use schemas::{Manifest, ManifestFile};
