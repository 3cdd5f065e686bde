//! Writing a whole buffer through a writer that may accept only part of it at a time.

use vstd::prelude::*;

use crate::error::ErrorKind;

verus! {

/// The progress of writing a whole buffer of some length.
#[derive(Debug)]
pub struct WriteAllFuture {
    pos: usize,
    len: usize,
}

impl WriteAllFuture {
    /// How many bytes from the front of the buffer have been written.
    pub closed spec fn written(&self) -> nat {
        self.pos as nat
    }

    /// The buffer's length.
    pub closed spec fn total(&self) -> nat {
        self.len as nat
    }

    /// Nothing of a buffer of `len` bytes written yet.
    pub fn new(len: usize) -> (f: WriteAllFuture)
        ensures
            f.written() == 0,
            f.total() == len,
    {
        WriteAllFuture { pos: 0, len }
    }

    /// Where in the buffer the next write starts.
    pub fn position(&self) -> (p: usize)
        ensures
            p == self.written(),
    {
        self.pos
    }

    /// Whether all of the buffer has been written.
    pub fn is_done(&self) -> (r: bool)
        ensures
            r == (self.written() >= self.total()),
    {
        self.pos >= self.len
    }

    /// Takes in that the writer accepted `n` of the bytes still to be written:
    /// accepting none fails with `WriteZero`, else the position moves on by `n`.
    pub fn record_written(&mut self, n: usize) -> (res: Result<(), ErrorKind>)
        requires
            old(self).written() < old(self).total(),
            n <= old(self).total() - old(self).written(),
        ensures
            final(self).total() == old(self).total(),
            n == 0 ==> res == Err::<(), ErrorKind>(ErrorKind::WriteZero) && final(self).written()
                == old(self).written(),
            n > 0 ==> res == Ok::<(), ErrorKind>(()) && final(self).written() == old(self).written()
                + n,
    {
        if n == 0 {
            Err(ErrorKind::WriteZero)
        } else {
            self.pos = self.pos + n;
            Ok(())
        }
    }
}

} // verus!
