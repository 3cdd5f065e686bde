//! The decisions of the standard input, output and error handles, which run each
//! blocking operation on a separate thread and keep its result until it is asked for.

use vstd::prelude::*;

verus! {

/// A blocking operation that has finished, with its result.
#[derive(Debug, PartialEq, Eq)]
pub enum Operation<E> {
    /// A read into the handle's buffer.
    Read(Result<usize, E>),
    /// A line read into the handle's line buffer.
    ReadLine(Result<usize, E>),
    /// A write from the handle's buffer.
    Write(Result<usize, E>),
    /// A flush.
    Flush(Result<(), E>),
}

/// What an idle handle does when polled.
#[derive(Debug, PartialEq, Eq)]
pub enum Decision<T, E> {
    /// Return this result: the operation asked for has finished.
    Ready(Result<T, E>),
    /// Start the operation asked for on a blocking thread and wait for it.
    Start,
}

/// A poll to read into a buffer of `buf_len` bytes, given the operation that
/// finished last (which the poll takes away): a finished read's count is returned
/// when it fits the buffer, and its error is returned; in every other case a new
/// read is started.
pub fn decide_read<E>(last: Option<Operation<E>>, buf_len: usize) -> (d: Decision<usize, E>)
    ensures
        match last {
            Some(Operation::Read(Ok(n))) => if n <= buf_len {
                d == Decision::<usize, E>::Ready(Ok(n))
            } else {
                d == Decision::<usize, E>::Start
            },
            Some(Operation::Read(Err(e))) => d == Decision::<usize, E>::Ready(Err(e)),
            _ => d == Decision::<usize, E>::Start,
        },
{
    match last {
        Some(Operation::Read(Ok(n))) => {
            if n <= buf_len {
                Decision::Ready(Ok(n))
            } else {
                Decision::Start
            }
        },
        Some(Operation::Read(Err(e))) => Decision::Ready(Err(e)),
        _ => Decision::Start,
    }
}

/// A poll to read a line, given the operation that finished last: a finished line
/// read's result is returned (and on success its line is appended to the caller's
/// string); in every other case a new line read is started.
pub fn decide_read_line<E>(last: Option<Operation<E>>) -> (d: Decision<usize, E>)
    ensures
        match last {
            Some(Operation::ReadLine(r)) => d == Decision::<usize, E>::Ready(r),
            _ => d == Decision::<usize, E>::Start,
        },
{
    match last {
        Some(Operation::ReadLine(r)) => Decision::Ready(r),
        _ => Decision::Start,
    }
}

/// A poll to write a buffer of `buf_len` bytes, given the operation that finished
/// last: a finished write's count is returned when it is no more than the buffer's
/// length, and its error is returned; in every other case a new write of the buffer
/// is started.
pub fn decide_write<E>(last: Option<Operation<E>>, buf_len: usize) -> (d: Decision<usize, E>)
    ensures
        match last {
            Some(Operation::Write(Ok(n))) => if n <= buf_len {
                d == Decision::<usize, E>::Ready(Ok(n))
            } else {
                d == Decision::<usize, E>::Start
            },
            Some(Operation::Write(Err(e))) => d == Decision::<usize, E>::Ready(Err(e)),
            _ => d == Decision::<usize, E>::Start,
        },
{
    match last {
        Some(Operation::Write(Ok(n))) => {
            if n <= buf_len {
                Decision::Ready(Ok(n))
            } else {
                Decision::Start
            }
        },
        Some(Operation::Write(Err(e))) => Decision::Ready(Err(e)),
        _ => Decision::Start,
    }
}

/// A poll to flush, given the operation that finished last: a finished flush's
/// result is returned; in every other case a new flush is started.
pub fn decide_flush<E>(last: Option<Operation<E>>) -> (d: Decision<(), E>)
    ensures
        match last {
            Some(Operation::Flush(r)) => d == Decision::<(), E>::Ready(r),
            _ => d == Decision::<(), E>::Start,
        },
{
    match last {
        Some(Operation::Flush(r)) => Decision::Ready(r),
        _ => Decision::Start,
    }
}

} // verus!
