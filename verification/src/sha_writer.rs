//! SHA-256 behind the sink interface, computed by the `ring` crate.

use vstd::prelude::*;

use crate::sink::ByteSink;
use crate::text::{bytes_to_hex, hex};

verus! {

/// The SHA-256 digest that the `ring` crate computes of `data`.
pub uninterp spec fn ring_sha256(data: Seq<u8>) -> Seq<u8>;

/// `ring::digest::digest` with `SHA256`: the digest of the whole input.
#[verifier::external_body]
fn ring_digest(data: &[u8]) -> (digest: Vec<u8>)
    ensures
        digest@ == ring_sha256(data@),
{
    ring::digest::digest(&ring::digest::SHA256, data).as_ref().to_vec()
}

/// A sink that keeps what it is given and hands out its SHA-256 digest, so
/// that a digest can be taken wherever a sink is asked for.
pub struct Sha256Writer {
    input: Vec<u8>,
}

impl Sha256Writer {
    /// A writer that has taken nothing yet.
    pub fn new() -> (w: Self)
        ensures
            w.written() == Seq::<u8>::empty(),
    {
        Self { input: Vec::new() }
    }

    /// The digest of everything written.
    pub fn finalize(self) -> (digest: Vec<u8>)
        ensures
            digest@ == ring_sha256(self.written()),
    {
        ring_digest(self.input.as_slice())
    }

    /// The digest of everything written, in lower-case hexadecimal notation.
    pub fn finalize_hex(self) -> (text: String)
        ensures
            text@ == hex(ring_sha256(self.written())),
    {
        let digest = ring_digest(self.input.as_slice());
        Self::bytes_to_hex(digest.as_slice())
    }

    fn bytes_to_hex(bytes: &[u8]) -> (text: String)
        ensures
            text@ == hex(bytes@),
    {
        bytes_to_hex(bytes)
    }
}

impl Default for Sha256Writer {
    fn default() -> (w: Self)
        ensures
            w.written() == Seq::<u8>::empty(),
    {
        Self::new()
    }
}

impl ByteSink for Sha256Writer {
    closed spec fn written(&self) -> Seq<u8> {
        self.input@
    }

    /// The writer keeps what it is given until the digest is asked for, and
    /// holds nothing back from there.
    open spec fn flushed(&self) -> bool {
        true
    }

    fn write(&mut self, buf: &[u8]) -> (n: usize) {
        let ghost before = self.input@;
        self.input.extend_from_slice(buf);
        proof {
            assert(self.input@ =~= before + buf@);
        }
        buf.len()
    }

    fn flush(&mut self) {
    }
}

} // verus!
