//! Rewriting a layer: entries that a link replaces are left out, all others
//! are carried over, and the links are added at the end.

use vstd::prelude::*;

use crate::analyzer::{Analyzer, DeDupTransaction, Layer, TransactionView, transaction_views};
use crate::archive::{
    LinkHeader, TarEntry, TarEntryView, encode_entry, encode_link, encode_trailer, entry_views,
    read_entries, tar_entries, tar_entry_record, tar_link_record, tar_trailer,
};
use crate::digest::Sha256Hasher;
use crate::error::{DedupError, LayerError};
use crate::sink::ByteSink;
use crate::tee_writer::TeeWriter;

verus! {

/// The header fields of every link entry: owned by root, dated at the epoch,
/// readable and writable but not executable, typed as a symbolic link, and
/// without data.
pub open spec fn link_header() -> LinkHeader {
    LinkHeader { mode: 0o666, uid: 0, gid: 0, mtime: 0, type_flag: 0x32, size: 0 }
}

/// Some transaction replaces the entry at `path`.
pub open spec fn is_target(links: Seq<TransactionView>, path: Seq<char>) -> bool {
    exists|k: int| 0 <= k < links.len() && #[trigger] links[k].target_path == path
}

/// The bytes of one entry in the new archive: nothing for an entry that a
/// link replaces, else the entry's record.
pub open spec fn kept_record(entry: TarEntryView, links: Seq<TransactionView>) -> Option<Seq<u8>> {
    if is_target(links, entry.path) {
        Some(Seq::empty())
    } else {
        tar_entry_record(entry.header, entry.path, entry.content)
    }
}

/// The record of one link entry: named as the replaced file, pointing at the
/// copy that stays.
pub open spec fn link_record(link: TransactionView) -> Option<Seq<u8>> {
    tar_link_record(link_header(), link.target_path, link.original_path)
}

/// The records of the entries that stay, in archive order.
pub open spec fn kept_records(entries: Seq<TarEntryView>, links: Seq<TransactionView>) -> Seq<u8>
    decreases entries.len(),
{
    if entries.len() == 0 {
        Seq::empty()
    } else {
        kept_records(entries.drop_last(), links) + kept_record(entries.last(), links)->0
    }
}

/// The records of the links, in the order of the transactions.
pub open spec fn link_records(links: Seq<TransactionView>) -> Seq<u8>
    decreases links.len(),
{
    if links.len() == 0 {
        Seq::empty()
    } else {
        link_records(links.drop_last()) + link_record(links.last())->0
    }
}

/// The new archive for a layer's entries and transactions: every entry that
/// no transaction replaces, in archive order; then one link for each
/// transaction, in their order; then the end of the archive. An entry or a
/// link that cannot be written is an error.
pub open spec fn rewritten_archive(
    entries: Seq<TarEntryView>,
    links: Seq<TransactionView>,
) -> Result<Seq<u8>, DedupError> {
    if exists|k: int| 0 <= k < entries.len() && (#[trigger] kept_record(entries[k], links)) is None {
        Err(DedupError::WriteEntry)
    } else if exists|k: int| 0 <= k < links.len() && (#[trigger] link_record(links[k])) is None {
        Err(DedupError::WriteLink)
    } else {
        Ok(kept_records(entries, links) + link_records(links) + tar_trailer())
    }
}

/// The entries of a layer, read from its stored bytes.
pub open spec fn layer_entries(data: Seq<u8>) -> Result<Seq<TarEntryView>, LayerError> {
    match crate::analyzer::decoded(data) {
        Err(e) => Err(e),
        Ok(archive) => match tar_entries(archive) {
            Some(entries) => Ok(entries),
            None => Err(LayerError::Archive),
        },
    }
}

/// The new archive for a layer and its transactions.
pub open spec fn rewritten_layer(
    data: Seq<u8>,
    layer_index: usize,
    links: Seq<TransactionView>,
) -> Result<Seq<u8>, DedupError> {
    match layer_entries(data) {
        Err(cause) => Err(DedupError::Layer { layer_index, cause }),
        Ok(entries) => rewritten_archive(entries, links),
    }
}

/// The header fields of every link entry.
pub fn link_fields() -> (fields: LinkHeader)
    ensures
        fields == link_header(),
{
    LinkHeader { mode: 0o666, uid: 0, gid: 0, mtime: 0, type_flag: 0x32, size: 0 }
}

/// Whether some transaction replaces the entry at `path`.
pub fn replaces(modifications: &Vec<DeDupTransaction>, path: &String) -> (found: bool)
    ensures
        found == is_target(transaction_views(modifications@), path@),
{
    let ghost links = transaction_views(modifications@);
    let mut k: usize = 0;
    while k < modifications.len()
        invariant
            k <= modifications@.len(),
            links == transaction_views(modifications@),
            forall|j: int| 0 <= j < k ==> (#[trigger] links[j]).target_path != path@,
        decreases modifications@.len() - k,
    {
        if modifications[k].target_path == *path {
            assert(links[k as int].target_path == path@);
            return true;
        }
        k += 1;
    }
    false
}

/// Reads a layer's entries from its stored bytes.
pub fn read_layer(layer: &Layer) -> (r: Result<Vec<TarEntry>, LayerError>)
    ensures
        match r {
            Ok(entries) => layer_entries(layer.data@) == Ok::<Seq<TarEntryView>, LayerError>(
                entry_views(entries@),
            ),
            Err(e) => layer_entries(layer.data@) == Err::<Seq<TarEntryView>, LayerError>(e),
        },
{
    let archive = layer.open_reader()?;
    match read_entries(archive.as_slice()) {
        Some(entries) => Ok(entries),
        None => Err(LayerError::Archive),
    }
}

/// Writes the new archive for the given entries and transactions to `writer`
/// and, byte for byte the same, to a fresh hasher.
pub fn rewrite_entries<W: ByteSink>(
    entries: &Vec<TarEntry>,
    modifications: &Vec<DeDupTransaction>,
    writer: W,
) -> (r: Result<(W, Sha256Hasher), DedupError>)
    ensures
        match r {
            Ok((w, hasher)) => {
                let archive = rewritten_archive(
                    entry_views(entries@),
                    transaction_views(modifications@),
                );
                &&& archive is Ok
                &&& w.written() == writer.written() + archive->Ok_0
                &&& hasher.written() == archive->Ok_0
            },
            Err(e) => rewritten_archive(entry_views(entries@), transaction_views(modifications@))
                == Err::<Seq<u8>, DedupError>(e),
        },
{
    let ghost all = entry_views(entries@);
    let ghost links = transaction_views(modifications@);
    let ghost start = writer.written();
    let hasher = Sha256Hasher::new();
    let mut tee = TeeWriter::new(writer, hasher);

    let mut i: usize = 0;
    while i < entries.len()
        invariant
            i <= entries@.len(),
            all == entry_views(entries@),
            links == transaction_views(modifications@),
            forall|k: int| 0 <= k < i ==> (#[trigger] kept_record(all[k], links)) is Some,
            tee.first().written() == start + kept_records(all.take(i as int), links),
            tee.second().written() == kept_records(all.take(i as int), links),
        decreases entries@.len() - i,
    {
        let entry = &entries[i];
        proof {
            assert(all.take(i + 1).drop_last() == all.take(i as int));
            assert(all.take(i + 1).last() == entry@);
        }
        if !replaces(modifications, &entry.path) {
            match encode_entry(&entry.header, entry.path.as_str(), entry.content.as_slice()) {
                None => {
                    assert(kept_record(all[i as int], links) is None);
                    return Err(DedupError::WriteEntry);
                },
                Some(record) => {
                    tee.write(record.as_slice());
                },
            }
        }
        proof {
            let before = kept_records(all.take(i as int), links);
            let record = kept_record(all[i as int], links)->0;
            assert(start + (before + record) =~= (start + before) + record);
            assert(before + Seq::<u8>::empty() =~= before);
        }
        i += 1;
    }
    proof {
        assert(all.take(entries@.len() as int) == all);
    }
    let ghost kept = kept_records(all, links);

    let fields = link_fields();
    let mut j: usize = 0;
    while j < modifications.len()
        invariant
            j <= modifications@.len(),
            links == transaction_views(modifications@),
            fields == link_header(),
            all == entry_views(entries@),
            forall|k: int| 0 <= k < all.len() ==> (#[trigger] kept_record(all[k], links)) is Some,
            forall|k: int| 0 <= k < j ==> (#[trigger] link_record(links[k])) is Some,
            tee.first().written() == start + kept + link_records(links.take(j as int)),
            tee.second().written() == kept + link_records(links.take(j as int)),
        decreases modifications@.len() - j,
    {
        let link = &modifications[j];
        proof {
            assert(links.take(j + 1).drop_last() == links.take(j as int));
            assert(links.take(j + 1).last() == link@);
        }
        match encode_link(fields, link.target_path.as_str(), link.original_path.as_str()) {
            None => {
                assert(link_record(links[j as int]) is None);
                return Err(DedupError::WriteLink);
            },
            Some(record) => {
                tee.write(record.as_slice());
            },
        }
        proof {
            let before = link_records(links.take(j as int));
            let record = link_record(links[j as int])->0;
            assert((start + kept) + (before + record) =~= ((start + kept) + before) + record);
            assert(kept + (before + record) =~= (kept + before) + record);
        }
        j += 1;
    }
    proof {
        assert(links.take(modifications@.len() as int) == links);
    }

    let trailer = encode_trailer();
    tee.write(trailer.as_slice());
    proof {
        let body = kept + link_records(links);
        assert(((start + kept) + link_records(links)) + tar_trailer() =~= start + (body
            + tar_trailer()));
    }
    Ok(tee.into_inner())
}

/// Writes the new archive for a layer and its transactions to `writer` and,
/// byte for byte the same, to a fresh hasher.
pub fn build_archive<W: ByteSink>(
    layer: &Layer,
    modifications: &Vec<DeDupTransaction>,
    writer: W,
) -> (r: Result<(W, Sha256Hasher), DedupError>)
    ensures
        match r {
            Ok((w, hasher)) => {
                let archive = rewritten_layer(
                    layer.data@,
                    layer.layer_index,
                    transaction_views(modifications@),
                );
                &&& archive is Ok
                &&& w.written() == writer.written() + archive->Ok_0
                &&& hasher.written() == archive->Ok_0
            },
            Err(e) => rewritten_layer(
                layer.data@,
                layer.layer_index,
                transaction_views(modifications@),
            ) == Err::<Seq<u8>, DedupError>(e),
        },
{
    match read_layer(layer) {
        Err(cause) => Err(DedupError::Layer { layer_index: layer.layer_index, cause }),
        Ok(entries) => rewrite_entries(&entries, modifications, writer),
    }
}

impl Analyzer {
    /// Writes the new archive for a layer and its transactions to `writer`
    /// and, byte for byte the same, to a fresh hasher.
    pub fn build_layer_tar<W: ByteSink>(
        &self,
        layer: &Layer,
        modifications: &Vec<DeDupTransaction>,
        writer: W,
    ) -> (r: Result<(W, Sha256Hasher), DedupError>)
        ensures
            match r {
                Ok((w, hasher)) => {
                    let archive = rewritten_layer(
                        layer.data@,
                        layer.layer_index,
                        transaction_views(modifications@),
                    );
                    &&& archive is Ok
                    &&& w.written() == writer.written() + archive->Ok_0
                    &&& hasher.written() == archive->Ok_0
                },
                Err(e) => rewritten_layer(
                    layer.data@,
                    layer.layer_index,
                    transaction_views(modifications@),
                ) == Err::<Seq<u8>, DedupError>(e),
            },
    {
        build_archive(layer, modifications, writer)
    }
}

/// The entries that no transaction replaces, in archive order.
pub open spec fn kept_entries(entries: Seq<TarEntryView>, links: Seq<TransactionView>) -> Seq<
    TarEntryView,
> {
    entries.filter(|e: TarEntryView| !is_target(links, e.path))
}

/// The records of the given entries, one after the other.
pub open spec fn entry_records(entries: Seq<TarEntryView>) -> Seq<u8>
    decreases entries.len(),
{
    if entries.len() == 0 {
        Seq::empty()
    } else {
        entry_records(entries.drop_last()) + tar_entry_record(
            entries.last().header,
            entries.last().path,
            entries.last().content,
        )->0
    }
}

/// The new archive holds the record of every entry that no transaction
/// replaces, made from the entry's own header, path and data and in archive
/// order, and the record of no other entry.
pub proof fn lemma_kept_records(entries: Seq<TarEntryView>, links: Seq<TransactionView>)
    ensures
        kept_records(entries, links) == entry_records(kept_entries(entries, links)),
        forall|e: TarEntryView| #[trigger]
            kept_entries(entries, links).contains(e) <==> entries.contains(e) && !is_target(
                links,
                e.path,
            ),
    decreases entries.len(),
{
    reveal(Seq::filter);
    if entries.len() > 0 {
        let rest = entries.drop_last();
        lemma_kept_records(rest, links);
        let kept = kept_entries(entries, links);
        if is_target(links, entries.last().path) {
            assert(kept == kept_entries(rest, links));
            assert(kept_records(entries, links) =~= kept_records(rest, links));
        } else {
            assert(kept == kept_entries(rest, links).push(entries.last()));
            assert(kept.drop_last() == kept_entries(rest, links));
        }
        assert forall|e: TarEntryView| #[trigger]
            kept.contains(e) <==> entries.contains(e) && !is_target(links, e.path) by {
            if kept.contains(e) {
                let i = choose|i: int| 0 <= i < kept.len() && kept[i] == e;
                if i < kept_entries(rest, links).len() {
                    assert(kept_entries(rest, links)[i] == e);
                    assert(kept_entries(rest, links).contains(e));
                    let k = choose|k: int| 0 <= k < rest.len() && rest[k] == e;
                    assert(entries[k] == e);
                } else {
                    assert(entries[entries.len() - 1] == e);
                }
            }
            if entries.contains(e) && !is_target(links, e.path) {
                let k = choose|k: int| 0 <= k < entries.len() && entries[k] == e;
                if k < rest.len() {
                    assert(rest[k] == e);
                    assert(rest.contains(e));
                    assert(kept_entries(rest, links).contains(e));
                    let i = choose|i: int|
                        0 <= i < kept_entries(rest, links).len() && kept_entries(rest, links)[i]
                            == e;
                    assert(kept[i] == e);
                } else {
                    assert(kept[kept.len() - 1] == e);
                }
            }
        }
    } else {
        assert(kept_entries(entries, links) =~= Seq::<TarEntryView>::empty());
    }
}

/// The links follow one another in the order of the transactions: the
/// record of each is that of a link which is named as the file that the
/// transaction replaces and points at the copy that stays.
pub proof fn lemma_link_records(links: Seq<TransactionView>, k: int)
    requires
        0 <= k < links.len(),
    ensures
        link_records(links.take(k + 1)) == link_records(links.take(k)) + tar_link_record(
            link_header(),
            links[k].target_path,
            links[k].original_path,
        )->0,
{
    assert(links.take(k + 1).drop_last() == links.take(k));
    assert(links.take(k + 1).last() == links[k]);
}

} // verus!
