//! Copying everything a buffered reader yields into a writer.

use vstd::prelude::*;

use crate::buf_read::SliceReader;
use crate::buf_writer::WriteOutcome;
use crate::error::ErrorKind;

verus! {

/// What the copy loop does once the reader's buffer has been filled.
#[derive(Debug, Clone, Copy, PartialEq, Eq, Structural)]
pub enum CopyAction {
    /// The reader is at its end: flush the writer and return the total.
    Flush,
    /// Hand the buffer to the writer.
    Write,
}

/// The next action of the copy loop, given the length of the reader's buffer: an
/// empty buffer means the end of the input.
pub fn copy_next(buffer_len: usize) -> (a: CopyAction)
    ensures
        a == if buffer_len == 0 {
            CopyAction::Flush
        } else {
            CopyAction::Write
        },
{
    if buffer_len == 0 {
        CopyAction::Flush
    } else {
        CopyAction::Write
    }
}

/// What the copy loop does after an attempt to write the reader's buffer.
#[derive(Debug, Clone, Copy, PartialEq, Eq, Structural)]
pub enum CopyStep {
    /// Consume this many bytes from the reader; the total copied is now this.
    Advance(usize, u64),
    /// The writer was interrupted: write the same buffer again.
    Retry,
    /// The writer cannot take bytes yet: wait.
    Pending,
    /// Stop with this error of the library's own.
    Stop(ErrorKind),
    /// Stop with the writer's error.
    Failed,
}

/// Takes in what writing the reader's buffer came back with, with `amt` copied so
/// far: accepting `n > 0` bytes advances the copy by `n`; accepting none stops it
/// with `WriteZero`; an interruption is retried; another error stops it with that
/// error.
pub fn copy_advance(amt: u64, outcome: WriteOutcome) -> (step: CopyStep)
    requires
        outcome matches WriteOutcome::Wrote(n) ==> amt + n <= u64::MAX,
    ensures
        match outcome {
            WriteOutcome::Wrote(n) => if n == 0 {
                step == CopyStep::Stop(ErrorKind::WriteZero)
            } else {
                step == CopyStep::Advance(n, (amt + n) as u64)
            },
            WriteOutcome::Interrupted => step == CopyStep::Retry,
            WriteOutcome::Failed => step == CopyStep::Failed,
            WriteOutcome::Pending => step == CopyStep::Pending,
        },
{
    match outcome {
        WriteOutcome::Wrote(n) => {
            if n == 0 {
                CopyStep::Stop(ErrorKind::WriteZero)
            } else {
                CopyStep::Advance(n, amt + n as u64)
            }
        },
        WriteOutcome::Interrupted => CopyStep::Retry,
        WriteOutcome::Failed => CopyStep::Failed,
        WriteOutcome::Pending => CopyStep::Pending,
    }
}

/// Copies the rest of `reader` into `writer`, appending it as a write to a
/// `Vec<u8>` does; returns how many bytes were copied.
pub fn copy(reader: &mut SliceReader, writer: &mut Vec<u8>) -> (res: Result<u64, ErrorKind>)
    requires
        old(reader)@.len() <= u64::MAX,
    ensures
        res == Ok::<u64, ErrorKind>(old(reader)@.len() as u64),
        final(writer)@ == old(writer)@ + old(reader)@,
        final(reader)@.len() == 0,
{
    let mut amt: u64 = 0;
    loop
        invariant
            amt + reader@.len() == old(reader)@.len(),
            old(reader)@.len() <= u64::MAX,
            writer@ + reader@ == old(writer)@ + old(reader)@,
        decreases reader@.len(),
    {
        let buffer = reader.fill_buf();
        if copy_next(buffer.len()) == CopyAction::Flush {
            proof {
                assert(writer@ =~= old(writer)@ + old(reader)@);
            }
            return Ok(amt);
        }
        let ghost before_w = writer@;
        let ghost before_r = reader@;
        writer.extend_from_slice(buffer);
        let i = match copy_advance(amt, WriteOutcome::Wrote(buffer.len())) {
            CopyStep::Advance(n, total) => {
                amt = total;
                n
            },
            CopyStep::Stop(e) => {
                return Err(e);
            },
            _ => {
                return Err(ErrorKind::WriteZero);
            },
        };
        reader.consume(i);
        proof {
            assert(writer@ + reader@ =~= before_w + before_r);
        }
    }
}

} // verus!
