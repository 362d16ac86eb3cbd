//! The destination a writer emits into: an append-only byte sink that can
//! refuse a write, together with two in-memory implementations.

use vstd::prelude::*;

verus! {

/// Why an operation failed: the writer was already closed, or the
/// underlying sink refused the written bytes.
#[derive(Clone, Copy, PartialEq, Eq, Structural, Debug)]
pub enum MultipartError {
    WriterClosed,
    SinkWriteFailed,
}

/// An append-only destination for bytes. A sink either accepts a whole
/// block, or fails having kept at most a truncated prefix of it; it never
/// rewrites what it already holds.
pub trait Sink {
    /// The bytes the sink has accepted so far.
    spec fn data(&self) -> Seq<u8>;

    /// Appends `buf` to the sink. On failure the sink holds its old bytes
    /// extended by some prefix of `buf`: a failed write may leave a
    /// truncated block behind, which is never rolled back.
    fn write(&mut self, buf: &[u8]) -> (r: Result<(), MultipartError>)
        ensures
            r is Ok ==> final(self).data() == old(self).data() + buf@,
            r is Err ==> r == Err::<(), MultipartError>(MultipartError::SinkWriteFailed)
                && exists|p: int|
                0 <= p <= buf@.len() && final(self).data() == old(self).data() + buf@.subrange(
                    0,
                    p,
                ),
    ;
}

/// A sink that accepts everything into a growable buffer.
pub struct BufferSink {
    buf: Vec<u8>,
}

impl BufferSink {
    /// Returns an empty buffer sink.
    pub fn new() -> (s: BufferSink)
        ensures
            s.data() == Seq::<u8>::empty(),
    {
        let s = BufferSink { buf: Vec::new() };
        s
    }

    /// The bytes accepted so far.
    pub fn bytes(&self) -> (r: &[u8])
        ensures
            r@ == self.data(),
    {
        self.buf.as_slice()
    }
}

impl Sink for BufferSink {
    closed spec fn data(&self) -> Seq<u8> {
        self.buf@
    }

    fn write(&mut self, buf: &[u8]) -> (r: Result<(), MultipartError>) {
        let len = buf.len();
        let mut i: usize = 0;
        while i < len
            invariant
                0 <= i <= len,
                len == buf@.len(),
                self.buf@ == old(self).buf@ + buf@.take(i as int),
            decreases len - i,
        {
            self.buf.push(buf[i]);
            proof {
                assert(old(self).buf@ + buf@.take(i as int) + seq![buf@[i as int]] =~= old(
                    self,
                ).buf@ + buf@.take(i + 1));
            }
            i += 1;
        }
        proof {
            assert(buf@.take(len as int) =~= buf@);
        }
        Ok(())
    }
}

/// A sink with a fixed capacity: a write that would grow its buffer past
/// the capacity is refused whole, leaving the buffer as it was.
pub struct BoundedSink {
    buf: Vec<u8>,
    cap: usize,
}

impl BoundedSink {
    /// Returns an empty sink that accepts at most `cap` bytes in all.
    pub fn new(cap: usize) -> (s: BoundedSink)
        ensures
            s.data() == Seq::<u8>::empty(),
    {
        let s = BoundedSink { buf: Vec::new(), cap };
        s
    }

    /// The bytes accepted so far.
    pub fn bytes(&self) -> (r: &[u8])
        ensures
            r@ == self.data(),
    {
        self.buf.as_slice()
    }
}

impl Sink for BoundedSink {
    closed spec fn data(&self) -> Seq<u8> {
        self.buf@
    }

    fn write(&mut self, buf: &[u8]) -> (r: Result<(), MultipartError>) {
        let have = self.buf.len();
        if have > self.cap || buf.len() > self.cap - have {
            proof {
                assert(self.buf@ =~= self.buf@ + buf@.subrange(0, 0));
            }
            return Err(MultipartError::SinkWriteFailed);
        }
        let len = buf.len();
        let mut i: usize = 0;
        while i < len
            invariant
                0 <= i <= len,
                len == buf@.len(),
                self.buf@ == old(self).buf@ + buf@.take(i as int),
            decreases len - i,
        {
            self.buf.push(buf[i]);
            proof {
                assert(old(self).buf@ + buf@.take(i as int) + seq![buf@[i as int]] =~= old(
                    self,
                ).buf@ + buf@.take(i + 1));
            }
            i += 1;
        }
        proof {
            assert(buf@.take(len as int) =~= buf@);
        }
        Ok(())
    }
}

} // verus!
