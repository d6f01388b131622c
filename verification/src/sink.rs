//! Byte sinks: the destinations that rendered SQL text is written into.

use vstd::prelude::*;

verus! {

/// The ways a render call can fail.
#[derive(Clone, Copy, Debug, PartialEq, Eq, Structural)]
pub enum RenderError {
    /// The byte sink rejected a write.
    SinkWrite,
    /// The accumulated bytes were not valid UTF-8 when they were converted
    /// into text.
    InvalidUtf8,
}

/// An abstract destination accepting sequences of bytes.
///
/// A write is all or nothing: a successful write appends the whole buffer to
/// the sink's contents and returns the buffer's length; a failed write
/// reports `SinkWrite` and leaves the contents unchanged. A sink never holds
/// more than `usize::MAX` bytes: an implementation must fail a write that
/// would exceed that bound.
pub trait ByteSink {
    /// The bytes the sink has accepted so far.
    spec fn contents(&self) -> Seq<u8>;

    fn write(&mut self, data: &[u8]) -> (r: Result<usize, RenderError>)
        ensures
            r matches Ok(n) ==> final(self).contents() == old(self).contents() + data@
                && n == data@.len() && final(self).contents().len() <= usize::MAX,
            r matches Err(e) ==> e is SinkWrite && final(self).contents() == old(
                self,
            ).contents(),
    ;
}

/// The in-memory sink: a plain byte vector that accepts every write.
impl ByteSink for Vec<u8> {
    open spec fn contents(&self) -> Seq<u8> {
        self@
    }

    fn write(&mut self, data: &[u8]) -> (r: Result<usize, RenderError>)
        ensures
            r is Ok,
    {
        let mut i: usize = 0;
        while i < data.len()
            invariant
                i <= data@.len(),
                self@ == old(self)@ + data@.subrange(0, i as int),
            decreases data@.len() - i,
        {
            self.push(data[i]);
            proof {
                assert(self@ =~= old(self)@ + data@.subrange(0, i + 1));
            }
            i = i + 1;
        }
        proof {
            assert(self@ =~= old(self)@ + data@);
            vstd::std_specs::vec::axiom_spec_len(self);
        }
        Ok(data.len())
    }
}

/// A sink with a fixed capacity: a write that would push the total past the
/// capacity fails with `SinkWrite` and leaves the contents unchanged.
pub struct BoundedSink {
    buf: Vec<u8>,
    cap: usize,
}

impl BoundedSink {
    /// The number of bytes this sink accepts in total.
    pub closed spec fn capacity(&self) -> nat {
        self.cap as nat
    }

    pub fn new(cap: usize) -> (r: BoundedSink)
        ensures
            r.contents() == Seq::<u8>::empty(),
            r.capacity() == cap,
    {
        BoundedSink { buf: Vec::new(), cap }
    }

    /// Hands out the bytes accepted so far.
    pub fn into_bytes(self) -> (r: Vec<u8>)
        ensures
            r@ == self.contents(),
    {
        self.buf
    }
}

impl ByteSink for BoundedSink {
    closed spec fn contents(&self) -> Seq<u8> {
        self.buf@
    }

    fn write(&mut self, data: &[u8]) -> (r: Result<usize, RenderError>)
        ensures
            r is Ok <==> old(self).contents().len() + data@.len() <= old(self).capacity(),
            final(self).capacity() == old(self).capacity(),
    {
        if self.buf.len() > self.cap || data.len() > self.cap - self.buf.len() {
            return Err(RenderError::SinkWrite);
        }
        let mut i: usize = 0;
        while i < data.len()
            invariant
                i <= data@.len(),
                self.buf@ == old(self).buf@ + data@.subrange(0, i as int),
                self.cap == old(self).cap,
                old(self).buf@.len() + data@.len() <= self.cap,
            decreases data@.len() - i,
        {
            let b = data[i];
            self.buf.push(b);
            proof {
                assert(self.buf@ =~= old(self).buf@ + data@.subrange(0, i + 1));
            }
            i = i + 1;
        }
        proof {
            assert(self.buf@ =~= old(self).buf@ + data@);
        }
        Ok(data.len())
    }
}

} // verus!
