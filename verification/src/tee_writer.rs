//! A duplicating write path.

use vstd::prelude::*;

use crate::sink::ByteSink;

verus! {

/// Forwards every write to two sinks, so that both see the same bytes in the
/// same order, and every flush to both, so that neither holds anything back.
pub struct TeeWriter<W1: ByteSink, W2: ByteSink> {
    writer1: W1,
    writer2: W2,
}

impl<W1: ByteSink, W2: ByteSink> TeeWriter<W1, W2> {
    /// The first sink.
    pub closed spec fn first(&self) -> W1 {
        self.writer1
    }

    /// The second sink.
    pub closed spec fn second(&self) -> W2 {
        self.writer2
    }

    /// Joins two sinks.
    pub fn new(writer1: W1, writer2: W2) -> (tee: Self)
        ensures
            tee.first() == writer1,
            tee.second() == writer2,
    {
        Self { writer1, writer2 }
    }

    /// Gives the two sinks back, with everything that went through the tee
    /// written to each.
    pub fn into_inner(self) -> (sinks: (W1, W2))
        ensures
            sinks.0 == self.first(),
            sinks.1 == self.second(),
    {
        (self.writer1, self.writer2)
    }
}

impl<W1: ByteSink, W2: ByteSink> ByteSink for TeeWriter<W1, W2> {
    /// What went to the first sink; the second has taken the same bytes since
    /// the two were joined.
    closed spec fn written(&self) -> Seq<u8> {
        self.writer1.written()
    }

    /// The tee holds nothing of its own, so it holds nothing back exactly
    /// when neither of its sinks does.
    open spec fn flushed(&self) -> bool {
        self.first().flushed() && self.second().flushed()
    }

    fn write(&mut self, buf: &[u8]) -> (n: usize)
        ensures
            final(self).first().written() == old(self).first().written() + buf@,
            final(self).second().written() == old(self).second().written() + buf@,
    {
        self.writer1.write(buf);
        self.writer2.write(buf);
        buf.len()
    }

    fn flush(&mut self)
        ensures
            final(self).first().written() == old(self).first().written(),
            final(self).second().written() == old(self).second().written(),
            final(self).first().flushed(),
            final(self).second().flushed(),
    {
        self.writer1.flush();
        self.writer2.flush();
    }
}

} // verus!
