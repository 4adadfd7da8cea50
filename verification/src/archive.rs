//! Tar archives as sequences of entries, read and written by the `tar` crate.

use vstd::prelude::*;

verus! {

/// One entry of a tar archive, as plain values.
#[derive(Debug, Clone)]
pub struct TarEntry {
    /// The entry's header block.
    pub header: [u8; 512],
    /// The entry's path; bytes that are not UTF-8 are replaced.
    pub path: String,
    /// Whether the entry is a regular file.
    pub is_file: bool,
    /// The size that the header declares.
    pub size: u64,
    /// The entry's data.
    pub content: Vec<u8>,
}

/// What a `TarEntry` holds.
pub struct TarEntryView {
    pub header: Seq<u8>,
    pub path: Seq<char>,
    pub is_file: bool,
    pub size: u64,
    pub content: Seq<u8>,
}

impl View for TarEntry {
    type V = TarEntryView;

    open spec fn view(&self) -> TarEntryView {
        TarEntryView {
            header: self.header@,
            path: self.path@,
            is_file: self.is_file,
            size: self.size,
            content: self.content@,
        }
    }
}

/// The views of a sequence of entries.
pub open spec fn entry_views(entries: Seq<TarEntry>) -> Seq<TarEntryView> {
    entries.map_values(|e: TarEntry| e@)
}

/// What an optional byte vector holds.
pub open spec fn opt_bytes(bytes: Option<Vec<u8>>) -> Option<Seq<u8>> {
    match bytes {
        Some(b) => Some(b@),
        None => None,
    }
}

/// What the fields of a link entry's header are set to.
#[derive(Debug, Clone, Copy, PartialEq, Eq, Structural)]
pub struct LinkHeader {
    /// Permission bits.
    pub mode: u32,
    /// Owning user.
    pub uid: u64,
    /// Owning group.
    pub gid: u64,
    /// Modification time, in seconds since the epoch.
    pub mtime: u64,
    /// The type flag byte.
    pub type_flag: u8,
    /// The size of the entry's data.
    pub size: u64,
}

/// The entries that the `tar` crate reads from an archive, in archive order;
/// `None` where it reports an error before the archive ends.
pub uninterp spec fn tar_entries(archive: Seq<u8>) -> Option<Seq<TarEntryView>>;

/// The bytes that the `tar` crate appends for an entry with the given header,
/// path and data; `None` where it refuses the entry.
pub uninterp spec fn tar_entry_record(header: Seq<u8>, path: Seq<char>, content: Seq<u8>) -> Option<
    Seq<u8>,
>;

/// The bytes that the `tar` crate appends for a link entry from `path` to
/// `target` with the given header fields; `None` where it refuses the entry.
pub uninterp spec fn tar_link_record(fields: LinkHeader, path: Seq<char>, target: Seq<char>) -> Option<
    Seq<u8>,
>;

/// The bytes that end an archive: two blocks of zeros.
pub open spec fn tar_trailer() -> Seq<u8> {
    Seq::new(1024, |i: int| 0u8)
}

/// Reads every entry with `tar::Archive::entries`: for each the header block,
/// the path (`Entry::path`, lossily as text), whether `EntryType::is_file`
/// holds, `Header::size`, and the data read to its end. The result is the
/// crate's reading of these bytes, failure included.
#[verifier::external_body]
pub(crate) fn read_entries(archive: &[u8]) -> (entries: Option<Vec<TarEntry>>)
    ensures
        match entries {
            Some(e) => tar_entries(archive@) == Some(entry_views(e@)),
            None => tar_entries(archive@) is None,
        },
{
    let mut reader = tar::Archive::new(archive);
    let mut entries = Vec::new();
    for item in reader.entries().ok()? {
        let mut entry = item.ok()?;
        let header = *entry.header().as_bytes();
        let is_file = entry.header().entry_type().is_file();
        let size = entry.header().size().ok()?;
        let path = entry.path().ok()?.to_string_lossy().to_string();
        let mut content = Vec::new();
        std::io::Read::read_to_end(&mut entry, &mut content).ok()?;
        entries.push(TarEntry { header, path, is_file, size, content });
    }
    Some(entries)
}

/// Appends one entry with `tar::Builder::append_data` to an empty archive and
/// hands back what was written, without the archive's end. The result is the
/// crate's encoding of these values, refusal included.
#[verifier::external_body]
pub(crate) fn encode_entry(header: &[u8; 512], path: &str, content: &[u8]) -> (record: Option<
    Vec<u8>,
>)
    ensures
        opt_bytes(record) == tar_entry_record(header@, path@, content@),
{
    let mut header = tar::Header::from_byte_slice(header).clone();
    let mut builder = tar::Builder::new(Vec::new());
    builder.append_data(&mut header, path, content).ok()?;
    Some(std::mem::take(builder.get_mut()))
}

/// Appends one link entry with `tar::Builder::append_link` to an empty
/// archive, on a fresh GNU header with the given fields, and hands back what
/// was written, without the archive's end. The result is the crate's encoding
/// of these values, refusal included.
#[verifier::external_body]
pub(crate) fn encode_link(fields: LinkHeader, path: &str, target: &str) -> (record: Option<Vec<u8>>)
    ensures
        opt_bytes(record) == tar_link_record(fields, path@, target@),
{
    let mut header = tar::Header::new_gnu();
    header.set_mode(fields.mode);
    header.set_uid(fields.uid);
    header.set_gid(fields.gid);
    header.set_mtime(fields.mtime);
    header.set_entry_type(tar::EntryType::new(fields.type_flag));
    header.set_size(fields.size);
    let mut builder = tar::Builder::new(Vec::new());
    builder.append_link(&mut header, path, target).ok()?;
    Some(std::mem::take(builder.get_mut()))
}

/// Finishes an empty archive with `tar::Builder::into_inner`, which writes
/// the two zero blocks that end every archive; writing to a vector does not
/// fail.
#[verifier::external_body]
pub(crate) fn encode_trailer() -> (trailer: Vec<u8>)
    ensures
        trailer@ == tar_trailer(),
{
    tar::Builder::new(Vec::new()).into_inner().unwrap_or_default()
}

} // verus!
