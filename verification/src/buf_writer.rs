//! A writer that collects small writes in a buffer of fixed capacity and hands them
//! to the writer inside in large batches.

use vstd::prelude::*;

use crate::error::ErrorKind;
use crate::write::WriteAllFuture;

verus! {

/// The buffer capacity of [`BufWriter::new`].
pub const DEFAULT_CAPACITY: usize = 8192;

/// What one attempt to write to the inner writer came back with.
#[derive(Debug, Clone, Copy, PartialEq, Eq, Structural)]
pub enum WriteOutcome {
    /// The writer accepted this many bytes from the front of what it was given.
    Wrote(usize),
    /// The writer failed with an error of kind `Interrupted`; the attempt may be repeated.
    Interrupted,
    /// The writer failed with another error.
    Failed,
    /// The writer cannot accept bytes yet.
    Pending,
}

/// What to do next while the buffer is being written out.
#[derive(Debug, Clone, Copy, PartialEq, Eq, Structural)]
pub enum FlushStep {
    /// Write the rest of the buffer again.
    Continue,
    /// Return `Pending`; the progress made so far is kept for the next attempt.
    Pending,
    /// Stop with this error, after `finish_flush`.
    Stop(FlushError),
}

/// Why writing out the buffer stopped short.
#[derive(Debug, Clone, Copy, PartialEq, Eq, Structural)]
pub enum FlushError {
    /// The writer accepted no bytes.
    WriteZero,
    /// The writer failed; that error is the result.
    Inner,
}

/// How a write of some length is to be carried out.
#[derive(Debug, Clone, Copy, PartialEq, Eq, Structural)]
pub enum WritePlan {
    /// Append the bytes to the buffer.
    Buffer,
    /// Hand the bytes to the inner writer directly.
    Direct,
}

/// Wraps a writer and buffers its output.
pub struct BufWriter<W> {
    inner: W,
    buf: Vec<u8>,
    written: usize,
    capacity: usize,
    sent: Ghost<Seq<u8>>,
}

impl<W> BufWriter<W> {
    /// The buffer's contents, written out or not.
    pub closed spec fn pending(&self) -> Seq<u8> {
        self.buf@
    }

    /// How many bytes from the front of the buffer a flush that has not finished has
    /// already handed to the inner writer.
    pub closed spec fn flushed(&self) -> nat {
        self.written as nat
    }

    /// The buffer's capacity.
    pub closed spec fn cap(&self) -> nat {
        self.capacity as nat
    }

    /// The bytes that the inner writer has accepted through this writer, in order.
    pub closed spec fn delivered(&self) -> Seq<u8> {
        self.sent@
    }

    /// Every byte this writer has accepted, in order: those the inner writer took,
    /// then those still buffered.
    pub open spec fn accepted(&self) -> Seq<u8> {
        self.delivered() + self.pending().skip(self.flushed() as int)
    }

    /// The inner writer.
    pub closed spec fn inner_spec(&self) -> W {
        self.inner
    }

    /// The buffer never holds more than its capacity, and a flush never gets past
    /// its end.
    pub closed spec fn wf(&self) -> bool {
        self.written <= self.buf@.len() <= self.capacity
    }

    /// A writer with a buffer of the default capacity.
    pub fn new(inner: W) -> (w: BufWriter<W>)
        ensures
            w.wf(),
            w.inner_spec() == inner,
            w.pending().len() == 0,
            w.flushed() == 0,
            w.cap() == DEFAULT_CAPACITY,
            w.delivered().len() == 0,
    {
        BufWriter::with_capacity(DEFAULT_CAPACITY, inner)
    }

    /// A writer with a buffer of `capacity` bytes.
    pub fn with_capacity(capacity: usize, inner: W) -> (w: BufWriter<W>)
        ensures
            w.wf(),
            w.inner_spec() == inner,
            w.pending().len() == 0,
            w.flushed() == 0,
            w.cap() == capacity,
            w.delivered().len() == 0,
    {
        BufWriter { inner, buf: Vec::with_capacity(capacity), written: 0, capacity, sent: Ghost(Seq::empty()) }
    }

    /// The inner writer.
    pub fn get_ref(&self) -> (r: &W)
        ensures
            *r == self.inner_spec(),
    {
        &self.inner
    }

    /// The inner writer, to be changed in place.
    pub fn get_mut(&mut self) -> (r: &mut W)
        ensures
            *r == old(self).inner_spec(),
            final(self).inner_spec() == *final(r),
            final(self).pending() == old(self).pending(),
            final(self).flushed() == old(self).flushed(),
            final(self).cap() == old(self).cap(),
            final(self).delivered() == old(self).delivered(),
    {
        &mut self.inner
    }

    /// The inner writer; whatever is still buffered is dropped, not written.
    pub fn into_inner(self) -> (inner: W)
        ensures
            inner == self.inner_spec(),
    {
        self.inner
    }

    /// The buffered bytes.
    pub fn buffer(&self) -> (b: &[u8])
        ensures
            b@ == self.pending(),
    {
        self.buf.as_slice()
    }

    /// The buffer's capacity.
    pub fn capacity(&self) -> (c: usize)
        ensures
            c == self.cap(),
    {
        self.capacity
    }

    /// Whether the buffer has to be written out before a write of `len` bytes: it
    /// has, when those bytes would not fit beside what it holds.
    pub fn must_flush_before(&self, len: usize) -> (r: bool)
        requires
            self.wf(),
        ensures
            r == (self.pending().len() + len > self.cap()),
    {
        len > self.capacity - self.buf.len()
    }

    /// How a write of `len` bytes proceeds once the buffer has room: writes at least
    /// as long as the capacity go straight to the inner writer.
    pub fn plan_write(&self, len: usize) -> (p: WritePlan)
        ensures
            p == (if len >= self.cap() {
                WritePlan::Direct
            } else {
                WritePlan::Buffer
            }),
    {
        if len >= self.capacity {
            WritePlan::Direct
        } else {
            WritePlan::Buffer
        }
    }

    /// Appends `data`, which is shorter than the capacity, to the buffer, as a write
    /// to a `Vec<u8>` does; returns its length. Writes at least as long as the
    /// capacity go to the inner writer (`record_direct_write`).
    pub fn buffer_write(&mut self, data: &[u8]) -> (n: usize)
        requires
            old(self).wf(),
            data@.len() < old(self).cap(),
            old(self).pending().len() + data@.len() <= old(self).cap(),
        ensures
            final(self).wf(),
            n == data@.len(),
            final(self).pending() == old(self).pending() + data@,
            final(self).flushed() == old(self).flushed(),
            final(self).inner_spec() == old(self).inner_spec(),
            final(self).cap() == old(self).cap(),
            final(self).delivered() == old(self).delivered(),
            final(self).accepted() == old(self).accepted() + data@,
    {
        self.buf.extend_from_slice(data);
        assert(self.buf@.skip(self.written as int) =~= old(self).buf@.skip(self.written as int) + data@);
        assert(self.buf@ =~= old(self).buf@ + data@);
        data.len()
    }

    /// Whether part of the buffer still has to be handed to the inner writer.
    pub fn flush_in_progress(&self) -> (r: bool)
        ensures
            r == (self.flushed() < self.pending().len()),
    {
        self.written < self.buf.len()
    }

    /// The part of the buffer not yet handed to the inner writer.
    pub fn unflushed(&self) -> (b: &[u8])
        requires
            self.wf(),
        ensures
            b@ == self.pending().skip(self.flushed() as int),
    {
        let b = &self.buf.as_slice()[self.written..self.buf.len()];
        assert(b@ =~= self.pending().skip(self.flushed() as int));
        b
    }

    /// Takes in what the inner writer did with the unflushed part of the buffer.
    ///
    /// Accepting `n > 0` bytes moves the flush on by `n`; accepting none stops it
    /// with `WriteZero`; an interruption is retried; another error stops it with
    /// that error; `Pending` keeps the progress for the next attempt.
    pub fn record_flush_write(&mut self, outcome: WriteOutcome) -> (step: FlushStep)
        requires
            old(self).wf(),
            old(self).flushed() < old(self).pending().len(),
            outcome matches WriteOutcome::Wrote(n) ==> n <= old(self).pending().len()
                - old(self).flushed(),
        ensures
            final(self).wf(),
            final(self).pending() == old(self).pending(),
            final(self).inner_spec() == old(self).inner_spec(),
            final(self).cap() == old(self).cap(),
            final(self).accepted() == old(self).accepted(),
            final(self).delivered() == old(self).delivered() + old(self).pending().subrange(
                old(self).flushed() as int,
                final(self).flushed() as int,
            ),
            match outcome {
                WriteOutcome::Wrote(n) => if n == 0 {
                    step == FlushStep::Stop(FlushError::WriteZero) && final(self).flushed()
                        == old(self).flushed()
                } else {
                    step == FlushStep::Continue && final(self).flushed() == old(self).flushed() + n
                },
                WriteOutcome::Interrupted => step == FlushStep::Continue && final(self).flushed()
                    == old(self).flushed(),
                WriteOutcome::Failed => step == FlushStep::Stop(FlushError::Inner)
                    && final(self).flushed() == old(self).flushed(),
                WriteOutcome::Pending => step == FlushStep::Pending && final(self).flushed()
                    == old(self).flushed(),
            },
    {
        match outcome {
            WriteOutcome::Wrote(n) => {
                if n == 0 {
                    FlushStep::Stop(FlushError::WriteZero)
                } else {
                    let ghost from = self.written as int;
                    self.written = self.written + n;
                    proof {
                        self.sent@ = self.sent@ + self.buf@.subrange(from, self.written as int);
                        assert(self.buf@.skip(from) =~= self.buf@.subrange(from, self.written as int)
                            + self.buf@.skip(self.written as int));
                    }
                    FlushStep::Continue
                }
            },
            WriteOutcome::Interrupted => FlushStep::Continue,
            WriteOutcome::Failed => FlushStep::Stop(FlushError::Inner),
            WriteOutcome::Pending => FlushStep::Pending,
        }
    }

    /// Ends a flush, successful or not: what was handed to the inner writer leaves
    /// the buffer.
    pub fn finish_flush(&mut self)
        requires
            old(self).wf(),
        ensures
            final(self).wf(),
            final(self).pending() == old(self).pending().skip(old(self).flushed() as int),
            final(self).flushed() == 0,
            final(self).inner_spec() == old(self).inner_spec(),
            final(self).cap() == old(self).cap(),
            final(self).delivered() == old(self).delivered(),
            final(self).accepted() == old(self).accepted(),
    {
        if self.written > 0 {
            let rest = self.buf.split_off(self.written);
            self.buf.clear();
            self.buf.extend_from_slice(rest.as_slice());
        }
        self.written = 0;
        assert(self.buf@ =~= old(self).buf@.skip(old(self).written as int));
        assert(self.buf@.skip(0) =~= self.buf@);
    }

    /// Takes in that the inner writer accepted the first `n` bytes of `data`, handed
    /// to it directly because the buffer is empty and `data` is at least as long as
    /// the capacity.
    pub fn record_direct_write(&mut self, data: &[u8], n: usize) -> (r: usize)
        requires
            old(self).wf(),
            n <= data@.len(),
            data@.len() >= old(self).cap(),
            old(self).pending().len() == 0,
        ensures
            final(self).wf(),
            r == n,
            final(self).pending() == old(self).pending(),
            final(self).flushed() == old(self).flushed(),
            final(self).inner_spec() == old(self).inner_spec(),
            final(self).cap() == old(self).cap(),
            final(self).delivered() == old(self).delivered() + data@.take(n as int),
            final(self).accepted() == old(self).accepted() + data@.take(n as int),
    {
        proof {
            self.sent@ = self.sent@ + data@.take(n as int);
            assert(self.buf@.skip(self.written as int) =~= Seq::<u8>::empty());
        }
        n
    }
}


/// Writes `data` to a `Vec<u8>` as its `AsyncWrite` implementation in `futures-io`
/// does: appends all of it and reports its length.
fn vec_write(v: &mut Vec<u8>, data: &[u8]) -> (n: usize)
    ensures
        n == data@.len(),
        final(v)@ == old(v)@ + data@,
{
    v.extend_from_slice(data);
    assert(v@ =~= old(v)@ + data@);
    data.len()
}

impl BufWriter<Vec<u8>> {
    /// The bytes written through this writer so far, in order: those the inner
    /// vector holds, then those still buffered.
    pub open spec fn stream(&self) -> Seq<u8> {
        self.inner_spec()@ + self.pending().skip(self.flushed() as int)
    }

    /// Hands the unflushed part of the buffer to the inner vector and empties the
    /// buffer.
    fn flush_buf(&mut self)
        requires
            old(self).wf(),
        ensures
            final(self).wf(),
            final(self).inner_spec()@ == old(self).stream(),
            final(self).pending().len() == 0,
            final(self).flushed() == 0,
            final(self).cap() == old(self).cap(),
            final(self).accepted() == old(self).accepted(),
    {
        while self.flush_in_progress()
            invariant
                self.wf(),
                self.stream() == old(self).stream(),
                self.accepted() == old(self).accepted(),
                self.cap() == old(self).cap(),
                self.pending() == old(self).pending(),
            decreases self.pending().len() - self.flushed(),
        {
            let ghost before = self.stream();
            let n = vec_write(&mut self.inner, &self.buf.as_slice()[self.written..self.buf.len()]);
            proof {
                assert(self.buf@.skip(self.written as int) =~= self.buf@.subrange(
                    self.written as int,
                    self.buf@.len() as int,
                ));
            }
            let step = self.record_flush_write(WriteOutcome::Wrote(n));
            proof {
                assert(self.pending().skip(self.flushed() as int).len() == 0);
                assert(self.stream() =~= before);
            }
        }
        self.finish_flush();
        proof {
            assert(self.stream() =~= self.inner_spec()@);
        }
    }

    /// Writes `data`: appended to the buffer when it fits, else the buffer is first
    /// written out, and data at least as long as the capacity goes straight to the
    /// inner vector. Writing to a vector never fails; the result is `Ok(data.len())`.
    pub fn write(&mut self, data: &[u8]) -> (res: Result<usize, ErrorKind>)
        requires
            old(self).wf(),
        ensures
            final(self).wf(),
            res == Ok::<usize, ErrorKind>(data@.len() as usize),
            final(self).stream() == old(self).stream() + data@,
            final(self).accepted() == old(self).accepted() + data@,
            final(self).cap() == old(self).cap(),
            ({
                let flushes = old(self).pending().len() + data@.len() > old(self).cap();
                let inner1 = if flushes {
                    old(self).stream()
                } else {
                    old(self).inner_spec()@
                };
                let buf1 = if flushes {
                    Seq::<u8>::empty()
                } else {
                    old(self).pending()
                };
                &&& final(self).flushed() == if flushes {
                    0
                } else {
                    old(self).flushed()
                }
                &&& data@.len() >= old(self).cap() ==> final(self).inner_spec()@ == inner1 + data@
                    && final(self).pending() == buf1
                &&& data@.len() < old(self).cap() ==> final(self).inner_spec()@ == inner1
                    && final(self).pending() == buf1 + data@
            }),
    {
        if self.must_flush_before(data.len()) {
            self.flush_buf();
        }
        let ghost mid = self.stream();
        let n = match self.plan_write(data.len()) {
            WritePlan::Direct => {
                let n = vec_write(&mut self.inner, data);
                self.record_direct_write(data, n)
            },
            WritePlan::Buffer => self.buffer_write(data),
        };
        proof {
            assert(self.stream() =~= mid + data@);
            assert(data@.take(data@.len() as int) =~= data@);
        }
        Ok(n)
    }

    /// Writes all of `data`, write after write, until none of it is left.
    pub fn write_all(&mut self, data: &[u8]) -> (res: Result<(), ErrorKind>)
        requires
            old(self).wf(),
        ensures
            final(self).wf(),
            res == Ok::<(), ErrorKind>(()),
            final(self).stream() == old(self).stream() + data@,
            final(self).accepted() == old(self).accepted() + data@,
            final(self).cap() == old(self).cap(),
    {
        let mut progress = WriteAllFuture::new(data.len());
        while !progress.is_done()
            invariant
                self.wf(),
                progress.total() == data@.len(),
                progress.written() <= data@.len(),
                self.stream() == old(self).stream() + data@.take(progress.written() as int),
                self.accepted() == old(self).accepted() + data@.take(progress.written() as int),
                self.cap() == old(self).cap(),
            decreases data@.len() - progress.written(),
        {
            let pos = progress.position();
            let rest = &data[pos..data.len()];
            let n = match self.write(rest) {
                Ok(n) => n,
                Err(e) => {
                    return Err(e);
                },
            };
            match progress.record_written(n) {
                Ok(()) => {},
                Err(e) => {
                    return Err(e);
                },
            }
            proof {
                assert(data@.take(progress.written() as int) =~= data@.take(pos as int) + rest@);
            }
        }
        proof {
            assert(data@.take(progress.written() as int) =~= data@);
        }
        Ok(())
    }

    /// Writes out the buffer; afterwards the inner vector holds everything written.
    pub fn flush(&mut self) -> (res: Result<(), ErrorKind>)
        requires
            old(self).wf(),
        ensures
            final(self).wf(),
            res == Ok::<(), ErrorKind>(()),
            final(self).inner_spec()@ == old(self).stream(),
            final(self).pending().len() == 0,
            final(self).flushed() == 0,
            final(self).cap() == old(self).cap(),
            final(self).accepted() == old(self).accepted(),
    {
        self.flush_buf();
        Ok(())
    }

    /// Writes out the buffer before the writer is closed; a vector needs no
    /// closing of its own.
    pub fn close(&mut self) -> (res: Result<(), ErrorKind>)
        requires
            old(self).wf(),
        ensures
            final(self).wf(),
            res == Ok::<(), ErrorKind>(()),
            final(self).inner_spec()@ == old(self).stream(),
            final(self).pending().len() == 0,
            final(self).flushed() == 0,
            final(self).cap() == old(self).cap(),
            final(self).accepted() == old(self).accepted(),
    {
        self.flush_buf();
        Ok(())
    }
}

} // verus!
