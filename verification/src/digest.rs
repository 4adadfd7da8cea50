//! Content digests and fingerprints, computed by outside crates.

use vstd::prelude::*;

use crate::sink::ByteSink;

verus! {

/// The SHA-256 digest that the `sha2` crate computes of `data`.
pub uninterp spec fn sha256(data: Seq<u8>) -> Seq<u8>;

/// The 64-bit fingerprint that `rapidhash` (version 3 of the algorithm)
/// computes of `data` under `seed`.
pub uninterp spec fn rapidhash_v3(data: Seq<u8>, seed: u64) -> u64;

/// `sha2::Sha256::digest`: the digest of the whole input.
#[verifier::external_body]
pub(crate) fn sha256_digest(data: &[u8]) -> (digest: Vec<u8>)
    ensures
        digest@ == sha256(data@),
{
    <sha2::Sha256 as sha2::Digest>::digest(data).to_vec()
}

/// `rapidhash::v3::rapidhash_v3_file_seeded` on a byte slice, with the secrets
/// that `RapidSecrets::seed` derives. The function fails only where reading
/// fails, and reading from a slice does not.
#[verifier::external_body]
pub(crate) fn rapidhash_digest(data: &[u8], seed: u64) -> (fingerprint: Option<u64>)
    ensures
        fingerprint == Some(rapidhash_v3(data@, seed)),
{
    rapidhash::v3::rapidhash_v3_file_seeded(data, &rapidhash::v3::RapidSecrets::seed(seed)).ok()
}

/// A sink that keeps what it is given and hands out its SHA-256 digest.
pub struct Sha256Hasher {
    input: Vec<u8>,
}

impl Sha256Hasher {
    /// A hasher that has taken nothing yet.
    pub fn new() -> (h: Self)
        ensures
            h.written() == Seq::<u8>::empty(),
    {
        Sha256Hasher { input: Vec::new() }
    }

    /// The digest of everything written.
    pub fn finalize(self) -> (digest: Vec<u8>)
        ensures
            digest@ == sha256(self.written()),
    {
        sha256_digest(self.input.as_slice())
    }
}

impl ByteSink for Sha256Hasher {
    closed spec fn written(&self) -> Seq<u8> {
        self.input@
    }

    /// The hasher keeps what it is given until the digest is asked for, and
    /// holds nothing back from there.
    open spec fn flushed(&self) -> bool {
        true
    }

    fn write(&mut self, buf: &[u8]) -> (n: usize) {
        let ghost before = self.input@;
        self.input.extend_from_slice(buf);
        proof {
            assert(self.input@ =~= before + buf@);
        }
        buf.len()
    }

    fn flush(&mut self) {
    }
}

} // verus!
