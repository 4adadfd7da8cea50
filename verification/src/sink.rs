//! Destinations for bytes.

use vstd::prelude::*;

verus! {

/// A destination that takes bytes in order and keeps a record of them.
///
/// Nothing written is ever lost or reordered: what a sink has taken so far is
/// a sequence that only grows at its end. A sink may hold back part of what
/// it has taken on the way to where the bytes are bound; a flush passes that
/// part on.
pub trait ByteSink {
    /// Every byte written so far, in the order of writing.
    spec fn written(&self) -> Seq<u8>;

    /// Whether the sink holds nothing back: all that was written has been
    /// passed on.
    spec fn flushed(&self) -> bool;

    /// Takes the whole buffer and reports its length.
    fn write(&mut self, buf: &[u8]) -> (n: usize)
        ensures
            n == buf@.len(),
            final(self).written() == old(self).written() + buf@,
    ;

    /// Passes on whatever is held back; what was written stays as it is.
    fn flush(&mut self)
        ensures
            final(self).written() == old(self).written(),
            final(self).flushed(),
    ;
}

/// A sink that stores what it is given.
pub struct Buffer {
    bytes: Vec<u8>,
}

impl Buffer {
    /// An empty buffer.
    pub fn new() -> (b: Self)
        ensures
            b.written() == Seq::<u8>::empty(),
    {
        Buffer { bytes: Vec::new() }
    }

    /// The stored bytes.
    pub fn into_inner(self) -> (bytes: Vec<u8>)
        ensures
            bytes@ == self.written(),
    {
        self.bytes
    }
}

impl ByteSink for Buffer {
    closed spec fn written(&self) -> Seq<u8> {
        self.bytes@
    }

    /// A buffer stores at once what it is given, so it never holds anything
    /// back.
    open spec fn flushed(&self) -> bool {
        true
    }

    fn write(&mut self, buf: &[u8]) -> (n: usize) {
        let ghost before = self.bytes@;
        self.bytes.extend_from_slice(buf);
        proof {
            assert(self.bytes@ =~= before + buf@);
        }
        buf.len()
    }

    fn flush(&mut self) {
    }
}

} // verus!
