//! The deduplication engine: the files of an image's layers, the groups of
//! files with the same content, the plan that replaces duplicates by links,
//! the rewritten layers and the reassembled image.

use vstd::prelude::*;

use crate::error::LayerError;
use crate::gzip::{gzip_decode, gzip_decoding, gzip_magic};
use crate::schemas::{DockerConfig, Manifest};

pub mod assemble;
pub mod group;
pub mod load;
pub mod plan;
pub mod report;
pub mod rewrite;
pub mod scan;

verus! {

/// One file of a layer that is large enough to be tracked.
#[derive(Debug, Clone)]
pub struct FileInfo {
    /// The file's path inside the layer's archive.
    pub path: String,
    /// The size that the archive declares for the file.
    pub size: u64,
    /// The fingerprint of the file's content.
    pub hash: String,
    /// The position of the file's layer in the layer chain.
    pub layer_index: usize,
}

/// What a `FileInfo` holds.
pub struct FileInfoView {
    pub path: Seq<char>,
    pub size: u64,
    pub hash: Seq<char>,
    pub layer_index: usize,
}

impl View for FileInfo {
    type V = FileInfoView;

    open spec fn view(&self) -> FileInfoView {
        FileInfoView {
            path: self.path@,
            size: self.size,
            hash: self.hash@,
            layer_index: self.layer_index,
        }
    }
}

/// The views of a sequence of files.
pub open spec fn file_views(files: Seq<FileInfo>) -> Seq<FileInfoView> {
    files.map_values(|f: FileInfo| f@)
}

/// The files that share one content: the copy that stays, the copies that
/// become links, and the bytes that this saves.
#[derive(Debug, Clone)]
pub struct DuplicateInfo {
    pub original: FileInfo,
    pub duplicates: Vec<FileInfo>,
    pub total_savings: u64,
}

/// What a `DuplicateInfo` holds.
pub struct DuplicateInfoView {
    pub original: FileInfoView,
    pub duplicates: Seq<FileInfoView>,
    pub total_savings: u64,
}

impl View for DuplicateInfo {
    type V = DuplicateInfoView;

    open spec fn view(&self) -> DuplicateInfoView {
        DuplicateInfoView {
            original: self.original@,
            duplicates: file_views(self.duplicates@),
            total_savings: self.total_savings,
        }
    }
}

/// The views of a sequence of groups.
pub open spec fn group_views(groups: Seq<DuplicateInfo>) -> Seq<DuplicateInfoView> {
    groups.map_values(|g: DuplicateInfo| g@)
}

/// How a duplicate refers to the copy that stays: `Hard` within one layer,
/// `Sym` from one layer to another. The kind describes the replacement; in
/// the archive both are written as a symbolic link to the path of the copy
/// that stays.
#[derive(Debug, Clone, Copy, PartialEq, Eq, Structural)]
pub enum LinkType {
    Sym,
    Hard,
}

/// One planned replacement: in layer `layer`, the file at `target_path` gives
/// way to a link to `original_path`.
#[derive(Debug, Clone)]
pub struct DeDupTransaction {
    pub layer: usize,
    pub original_path: String,
    pub target_path: String,
    pub link_type: LinkType,
}

/// What a `DeDupTransaction` holds.
pub struct TransactionView {
    pub layer: usize,
    pub original_path: Seq<char>,
    pub target_path: Seq<char>,
    pub link_type: LinkType,
}

impl View for DeDupTransaction {
    type V = TransactionView;

    open spec fn view(&self) -> TransactionView {
        TransactionView {
            layer: self.layer,
            original_path: self.original_path@,
            target_path: self.target_path@,
            link_type: self.link_type,
        }
    }
}

/// The views of a sequence of transactions.
pub open spec fn transaction_views(links: Seq<DeDupTransaction>) -> Seq<TransactionView> {
    links.map_values(|t: DeDupTransaction| t@)
}

/// One layer of the chain: its name, its position, the digest of its
/// uncompressed content, and its bytes as they are stored.
#[derive(Debug, Clone)]
pub struct Layer {
    pub path: String,
    pub layer_index: usize,
    pub hash: String,
    pub data: Vec<u8>,
}

/// What a `Layer` holds.
pub struct LayerView {
    pub path: Seq<char>,
    pub layer_index: usize,
    pub hash: Seq<char>,
    pub data: Seq<u8>,
}

impl View for Layer {
    type V = LayerView;

    open spec fn view(&self) -> LayerView {
        LayerView {
            path: self.path@,
            layer_index: self.layer_index,
            hash: self.hash@,
            data: self.data@,
        }
    }
}

/// The views of a sequence of layers.
pub open spec fn layer_views(layers: Seq<Layer>) -> Seq<LayerView> {
    layers.map_values(|l: Layer| l@)
}

/// Whether stored bytes start with the gzip signature; bytes too short to
/// hold a signature are an error.
pub open spec fn gzip_signed(data: Seq<u8>) -> Result<bool, LayerError> {
    if data.len() < 2 {
        Err(LayerError::Truncated)
    } else {
        Ok(data.subrange(0, 2) == gzip_magic())
    }
}

/// The tar archive inside stored bytes: the bytes themselves, or what they
/// decompress to where they start with the gzip signature.
pub open spec fn decoded(data: Seq<u8>) -> Result<Seq<u8>, LayerError> {
    match gzip_signed(data) {
        Err(e) => Err(e),
        Ok(false) => Ok(data),
        Ok(true) => match gzip_decoding(data) {
            Some(plain) => Ok(plain),
            None => Err(LayerError::Decompress),
        },
    }
}

/// What a result with a byte vector holds.
pub open spec fn bytes_result(r: Result<Vec<u8>, LayerError>) -> Result<Seq<u8>, LayerError> {
    match r {
        Ok(b) => Ok(b@),
        Err(e) => Err(e),
    }
}

/// Tells from the first two bytes whether a layer is gzip-compressed. The
/// layer's name plays no part.
pub fn is_gzipped(data: &[u8]) -> (r: Result<bool, LayerError>)
    ensures
        r == gzip_signed(data@),
{
    if data.len() < 2 {
        return Err(LayerError::Truncated);
    }
    let signed = data[0] == 0x1f && data[1] == 0x8b;
    proof {
        let head = data@.subrange(0, 2);
        assert(head[0] == data@[0] && head[1] == data@[1]);
        if signed {
            assert(head =~= gzip_magic());
        }
    }
    Ok(signed)
}

impl Layer {
    /// The layer's tar archive, decompressed where the layer is compressed.
    pub fn open_reader(&self) -> (r: Result<Vec<u8>, LayerError>)
        ensures
            bytes_result(r) == decoded(self.data@),
    {
        if is_gzipped(self.data.as_slice())? {
            match gzip_decode(self.data.as_slice()) {
                Some(plain) => Ok(plain),
                None => Err(LayerError::Decompress),
            }
        } else {
            let plain = self.data.clone();
            proof {
                assert(plain@ =~= self.data@);
            }
            Ok(plain)
        }
    }
}

/// An image that is held in memory, with the settings of one run.
pub struct Analyzer {
    pub layers: Vec<Layer>,
    pub min_size: u64,
    pub no_compression: bool,
    pub original_manifest: Manifest,
    pub original_config: DockerConfig,
}

} // verus!
