//! Gzip streams, written and read by the `flate2` crate.

use vstd::prelude::*;

use crate::archive::opt_bytes;
use crate::sink::ByteSink;

verus! {

/// The two bytes that every gzip stream starts with.
pub open spec fn gzip_magic() -> Seq<u8> {
    seq![0x1fu8, 0x8bu8]
}

/// The gzip stream that `flate2` writes for `data` at its default level;
/// `None` where it reports an error.
pub uninterp spec fn gzip_encoding(data: Seq<u8>) -> Option<Seq<u8>>;

/// The data that `flate2` reads from the gzip stream `data`; `None` where it
/// reports an error.
pub uninterp spec fn gzip_decoding(data: Seq<u8>) -> Option<Seq<u8>>;

/// Writes `data` through `flate2::write::GzEncoder` at the default level into
/// a vector and finishes the stream. The result is the crate's encoding of
/// these bytes, failure included.
#[verifier::external_body]
pub(crate) fn gzip_encode(data: &[u8]) -> (stream: Option<Vec<u8>>)
    ensures
        opt_bytes(stream) == gzip_encoding(data@),
{
    let mut encoder = flate2::write::GzEncoder::new(Vec::new(), flate2::Compression::default());
    std::io::Write::write_all(&mut encoder, data).ok()?;
    encoder.finish().ok()
}

/// Reads `stream` through `flate2::read::GzDecoder` to its end. The result is
/// the crate's decoding of these bytes, failure included.
#[verifier::external_body]
pub(crate) fn gzip_decode(stream: &[u8]) -> (data: Option<Vec<u8>>)
    ensures
        opt_bytes(data) == gzip_decoding(stream@),
{
    let mut data = Vec::new();
    std::io::Read::read_to_end(&mut flate2::read::GzDecoder::new(stream), &mut data).ok()?;
    Some(data)
}

/// A sink that keeps what it is given and hands it out as one gzip stream.
pub struct GzipWriter {
    plain: Vec<u8>,
}

impl GzipWriter {
    /// A writer that has taken nothing yet.
    pub fn new() -> (w: Self)
        ensures
            w.written() == Seq::<u8>::empty(),
    {
        GzipWriter { plain: Vec::new() }
    }

    /// Compresses everything written; `None` exactly where the encoder fails.
    pub fn finish(self) -> (stream: Option<Vec<u8>>)
        ensures
            opt_bytes(stream) == gzip_encoding(self.written()),
    {
        gzip_encode(self.plain.as_slice())
    }
}

impl ByteSink for GzipWriter {
    closed spec fn written(&self) -> Seq<u8> {
        self.plain@
    }

    /// The writer keeps what it is given until it is finished, and holds
    /// nothing back from there.
    open spec fn flushed(&self) -> bool {
        true
    }

    fn write(&mut self, buf: &[u8]) -> (n: usize) {
        let ghost before = self.plain@;
        self.plain.extend_from_slice(buf);
        proof {
            assert(self.plain@ =~= before + buf@);
        }
        buf.len()
    }

    fn flush(&mut self) {
    }
}

} // verus!
