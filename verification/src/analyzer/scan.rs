//! Scanning: every regular file of a layer that is large enough and is no
//! whiteout marker, with the fingerprint of its content.

use vstd::prelude::*;

use crate::analyzer::rewrite::{layer_entries, read_layer};
use crate::analyzer::{Analyzer, FileInfo, FileInfoView, Layer, LayerView, file_views, layer_views};
use crate::archive::{TarEntry, TarEntryView, entry_views};
use crate::digest::{rapidhash_digest, rapidhash_v3};
use crate::error::{DedupError, LayerError};
use crate::text::{contains_text, decimal, ends_with_text, str_contains, str_ends_with, u64_to_string};

verus! {

/// The seed of every fingerprint.
pub open spec fn fingerprint_seed() -> u64 {
    0
}

/// A path that marks a deletion in a lower layer: one with a component that
/// starts with `.wh.`, or one that ends in the marker of an opaque directory.
pub open spec fn is_whiteout(path: Seq<char>) -> bool {
    contains_text(path, "/.wh."@) || ends_with_text(path, ".wh..wh..opq"@)
}

/// An entry that is tracked: a regular file of at least `min_size` bytes
/// that is no whiteout marker.
pub open spec fn qualifies(entry: TarEntryView, min_size: u64) -> bool {
    &&& entry.is_file
    &&& entry.size >= min_size
    &&& !is_whiteout(entry.path)
}

/// The fingerprint of a file's content, as text.
pub open spec fn fingerprint(content: Seq<u8>) -> Seq<char> {
    decimal(rapidhash_v3(content, fingerprint_seed()) as nat)
}

/// The record of a tracked entry of the layer at `layer_index`.
pub open spec fn file_info_of(entry: TarEntryView, layer_index: usize) -> FileInfoView {
    FileInfoView {
        path: entry.path,
        size: entry.size,
        hash: fingerprint(entry.content),
        layer_index,
    }
}

/// The records of the tracked entries, in archive order.
pub open spec fn scanned(entries: Seq<TarEntryView>, layer_index: usize, min_size: u64) -> Seq<
    FileInfoView,
>
    decreases entries.len(),
{
    if entries.len() == 0 {
        Seq::empty()
    } else if qualifies(entries.last(), min_size) {
        scanned(entries.drop_last(), layer_index, min_size).push(
            file_info_of(entries.last(), layer_index),
        )
    } else {
        scanned(entries.drop_last(), layer_index, min_size)
    }
}

/// The records of a layer's tracked files, or why the layer cannot be read.
pub open spec fn scanned_layer(layer: LayerView, min_size: u64) -> Result<
    Seq<FileInfoView>,
    LayerError,
> {
    match layer_entries(layer.data) {
        Err(e) => Err(e),
        Ok(entries) => Ok(scanned(entries, layer.layer_index, min_size)),
    }
}

/// The records of all layers, layer after layer; the first layer that cannot
/// be read gives the error, with its index.
pub open spec fn scanned_layers(layers: Seq<LayerView>, min_size: u64) -> Result<
    Seq<FileInfoView>,
    DedupError,
>
    decreases layers.len(),
{
    if layers.len() == 0 {
        Ok(Seq::empty())
    } else {
        match scanned_layers(layers.drop_last(), min_size) {
            Err(e) => Err(e),
            Ok(files) => match scanned_layer(layers.last(), min_size) {
                Err(cause) => Err(
                    DedupError::Layer { layer_index: layers.last().layer_index, cause },
                ),
                Ok(more) => Ok(files + more),
            },
        }
    }
}

/// Whether a path marks a deletion in a lower layer.
pub fn is_whiteout_path(path: &str) -> (marker: bool)
    ensures
        marker == is_whiteout(path@),
{
    str_contains(path, "/.wh.") || str_ends_with(path, ".wh..wh..opq")
}

/// The fingerprint of a file's content, as text.
pub fn fingerprint_of(content: &[u8]) -> (text: String)
    ensures
        text@ == fingerprint(content@),
{
    u64_to_string(rapidhash_digest(content, 0).unwrap())
}

/// The records of the tracked entries of one layer, in archive order.
pub fn scan_entries(entries: &Vec<TarEntry>, layer_index: usize, min_size: u64) -> (files: Vec<
    FileInfo,
>)
    ensures
        file_views(files@) == scanned(entry_views(entries@), layer_index, min_size),
{
    let ghost all = entry_views(entries@);
    let mut files: Vec<FileInfo> = Vec::new();
    let mut i: usize = 0;
    proof {
        assert(file_views(files@) =~= Seq::<FileInfoView>::empty());
        assert(all.take(0).len() == 0);
    }
    while i < entries.len()
        invariant
            i <= entries@.len(),
            all == entry_views(entries@),
            file_views(files@) == scanned(all.take(i as int), layer_index, min_size),
        decreases entries@.len() - i,
    {
        let entry = &entries[i];
        proof {
            assert(all.take(i + 1).drop_last() == all.take(i as int));
            assert(all.take(i + 1).last() == entry@);
        }
        if entry.is_file && entry.size >= min_size && !is_whiteout_path(entry.path.as_str()) {
            let ghost before = file_views(files@);
            let file = FileInfo {
                path: entry.path.clone(),
                size: entry.size,
                hash: fingerprint_of(entry.content.as_slice()),
                layer_index,
            };
            files.push(file);
            proof {
                assert(file_views(files@) =~= before.push(file_info_of(entry@, layer_index)));
            }
        }
        i += 1;
    }
    proof {
        assert(all.take(entries@.len() as int) == all);
    }
    files
}

/// If a prefix of the chain cannot be scanned, the whole chain fails in the
/// same way.
proof fn lemma_scanned_layers_fail(layers: Seq<LayerView>, n: int, min_size: u64)
    requires
        0 <= n <= layers.len(),
        scanned_layers(layers.take(n), min_size) is Err,
    ensures
        scanned_layers(layers, min_size) == scanned_layers(layers.take(n), min_size),
    decreases layers.len() - n,
{
    if n < layers.len() {
        assert(layers.take(n + 1).drop_last() == layers.take(n));
        lemma_scanned_layers_fail(layers, n + 1, min_size);
    } else {
        assert(layers.take(n) == layers);
    }
}

impl Analyzer {
    /// Scans one layer: reads its entries once, in archive order, and records
    /// every tracked file.
    pub fn scan_layer(&self, layer: &Layer) -> (r: Result<Vec<FileInfo>, LayerError>)
        ensures
            match r {
                Ok(files) => scanned_layer(layer@, self.min_size) == Ok::<
                    Seq<FileInfoView>,
                    LayerError,
                >(file_views(files@)),
                Err(e) => scanned_layer(layer@, self.min_size) == Err::<
                    Seq<FileInfoView>,
                    LayerError,
                >(e),
            },
    {
        let entries = read_layer(layer)?;
        Ok(scan_entries(&entries, layer.layer_index, self.min_size))
    }

    /// Scans every layer of the image, in the order of the chain.
    pub fn scan_files(&self) -> (r: Result<Vec<FileInfo>, DedupError>)
        ensures
            match r {
                Ok(files) => scanned_layers(layer_views(self.layers@), self.min_size) == Ok::<
                    Seq<FileInfoView>,
                    DedupError,
                >(file_views(files@)),
                Err(e) => scanned_layers(layer_views(self.layers@), self.min_size) == Err::<
                    Seq<FileInfoView>,
                    DedupError,
                >(e),
            },
    {
        let ghost all = layer_views(self.layers@);
        let mut files: Vec<FileInfo> = Vec::new();
        let mut i: usize = 0;
        proof {
            assert(file_views(files@) =~= Seq::<FileInfoView>::empty());
            assert(all.take(0).len() == 0);
        }
        while i < self.layers.len()
            invariant
                i <= self.layers@.len(),
                all == layer_views(self.layers@),
                scanned_layers(all.take(i as int), self.min_size) == Ok::<
                    Seq<FileInfoView>,
                    DedupError,
                >(file_views(files@)),
            decreases self.layers@.len() - i,
        {
            let layer = &self.layers[i];
            proof {
                assert(all.take(i + 1).drop_last() == all.take(i as int));
                assert(all.take(i + 1).last() == layer@);
            }
            match self.scan_layer(layer) {
                Err(cause) => {
                    proof {
                        lemma_scanned_layers_fail(all, i + 1, self.min_size);
                    }
                    return Err(DedupError::Layer { layer_index: layer.layer_index, cause });
                },
                Ok(mut more) => {
                    let ghost before = file_views(files@);
                    let ghost added = file_views(more@);
                    files.append(&mut more);
                    proof {
                        assert(file_views(files@) =~= before + added);
                    }
                },
            }
            i += 1;
        }
        proof {
            assert(all.take(self.layers@.len() as int) == all);
        }
        Ok(files)
    }
}

/// Scanning is repeatable: what a scan records depends on the layer's stored
/// bytes, on its position in the chain and on the threshold, and on nothing
/// else.
pub proof fn lemma_scan_repeatable(first: LayerView, second: LayerView, min_size: u64)
    requires
        first.data == second.data,
        first.layer_index == second.layer_index,
    ensures
        scanned_layer(first, min_size) == scanned_layer(second, min_size),
{
}

/// A file at the threshold is tracked, a file one byte below it is not, and a
/// whiteout marker never is.
pub proof fn lemma_threshold(entry: TarEntryView, min_size: u64)
    ensures
        entry.is_file && !is_whiteout(entry.path) && entry.size == min_size ==> qualifies(
            entry,
            min_size,
        ),
        entry.size + 1 == min_size ==> !qualifies(entry, min_size),
        is_whiteout(entry.path) ==> !qualifies(entry, min_size),
{
}

/// A scan records exactly the tracked entries: every record stands for a
/// tracked entry, so it is at least as large as the threshold and no
/// whiteout marker, and every tracked entry has its record.
pub proof fn lemma_scan_exclusion(entries: Seq<TarEntryView>, layer_index: usize, min_size: u64)
    ensures
        forall|i: int|
            0 <= i < scanned(entries, layer_index, min_size).len() ==> {
                let file = #[trigger] scanned(entries, layer_index, min_size)[i];
                &&& file.size >= min_size
                &&& !is_whiteout(file.path)
                &&& file.layer_index == layer_index
                &&& exists|k: int|
                    0 <= k < entries.len() && qualifies(#[trigger] entries[k], min_size) && file
                        == file_info_of(entries[k], layer_index)
            },
        forall|k: int|
            0 <= k < entries.len() && qualifies(#[trigger] entries[k], min_size) ==> scanned(
                entries,
                layer_index,
                min_size,
            ).contains(file_info_of(entries[k], layer_index)),
    decreases entries.len(),
{
    if entries.len() > 0 {
        let rest = entries.drop_last();
        lemma_scan_exclusion(rest, layer_index, min_size);
        let now = scanned(entries, layer_index, min_size);
        let before = scanned(rest, layer_index, min_size);
        assert forall|i: int| 0 <= i < now.len() implies {
            let file = #[trigger] now[i];
            &&& file.size >= min_size
            &&& !is_whiteout(file.path)
            &&& file.layer_index == layer_index
            &&& exists|k: int|
                0 <= k < entries.len() && qualifies(#[trigger] entries[k], min_size) && file
                    == file_info_of(entries[k], layer_index)
        } by {
            if i < before.len() {
                assert(now[i] == before[i]);
                let k = choose|k: int|
                    0 <= k < rest.len() && qualifies(#[trigger] rest[k], min_size) && before[i]
                        == file_info_of(rest[k], layer_index);
                assert(entries[k] == rest[k]);
            } else {
                assert(entries[entries.len() - 1] == entries.last());
            }
        }
        assert forall|k: int|
            0 <= k < entries.len() && qualifies(#[trigger] entries[k], min_size) implies now.contains(
            file_info_of(entries[k], layer_index),
        ) by {
            if k < rest.len() {
                assert(entries[k] == rest[k]);
                let file = file_info_of(rest[k], layer_index);
                assert(before.contains(file));
                let i = choose|i: int| 0 <= i < before.len() && before[i] == file;
                assert(now[i] == file);
            } else {
                assert(now[now.len() - 1] == file_info_of(entries[k], layer_index));
            }
        }
    }
}

} // verus!
