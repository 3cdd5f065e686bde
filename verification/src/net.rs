//! The decisions of the socket types: connecting to the first address that
//! accepts, and retrying an operation that would block once the reactor reports
//! readiness again.

use vstd::prelude::*;

verus! {

/// Why no connection was made.
#[derive(Debug, PartialEq, Eq)]
pub enum ConnectError<E> {
    /// The last address tried failed with this error.
    Last(E),
    /// There was no address to try.
    NoAddresses,
}

/// The failures so far of connecting to a list of addresses, tried in order.
#[derive(Debug)]
pub struct ConnectAttempts<E> {
    last_err: Option<E>,
}

impl<E> ConnectAttempts<E> {
    /// The error of the last address tried, if any was tried.
    pub closed spec fn last(&self) -> Option<E> {
        self.last_err
    }

    /// No address tried yet.
    pub fn new() -> (a: ConnectAttempts<E>)
        ensures
            a.last().is_none(),
    {
        ConnectAttempts { last_err: None }
    }

    /// Takes in how connecting to the next address went: a connection ends the
    /// search and is returned; an error is kept as the last one.
    pub fn record<S>(&mut self, r: Result<S, E>) -> (done: Option<S>)
        ensures
            match r {
                Ok(s) => done == Some(s) && final(self).last() == old(self).last(),
                Err(e) => done.is_none() && final(self).last() == Some(e),
            },
    {
        match r {
            Ok(s) => Some(s),
            Err(e) => {
                self.last_err = Some(e);
                None
            },
        }
    }

    /// The error when no address connected: the last address's error, or
    /// `NoAddresses` when there was none.
    pub fn finish(self) -> (err: ConnectError<E>)
        ensures
            match self.last() {
                Some(e) => err == ConnectError::<E>::Last(e),
                None => err == ConnectError::<E>::NoAddresses,
            },
    {
        match self.last_err {
            Some(e) => ConnectError::Last(e),
            None => ConnectError::NoAddresses,
        }
    }
}

/// What an operation on a socket comes to after it was attempted once the socket
/// was ready.
#[derive(Debug, PartialEq, Eq)]
pub enum OpStep<T, E> {
    /// The operation is over with this result.
    Done(Result<T, E>),
    /// The operation would have blocked: clear the readiness it waited for and wait
    /// for the reactor to report it again.
    ClearAndWait,
}

/// The step after attempting a socket operation that returned `r`, where
/// `would_block` says whether its error, if any, is of kind `WouldBlock`.
pub fn op_step<T, E>(r: Result<T, E>, would_block: bool) -> (s: OpStep<T, E>)
    ensures
        match r {
            Ok(v) => s == OpStep::<T, E>::Done(Ok(v)),
            Err(e) => if would_block {
                s == OpStep::<T, E>::ClearAndWait
            } else {
                s == OpStep::<T, E>::Done(Err(e))
            },
        },
{
    match r {
        Ok(v) => OpStep::Done(Ok(v)),
        Err(e) => {
            if would_block {
                OpStep::ClearAndWait
            } else {
                OpStep::Done(Err(e))
            }
        },
    }
}

/// What a connection in progress comes to when polled: pending until the socket
/// is writable, then failed with the socket's pending error if it has one, else
/// connected.
pub fn connect_progress<E>(writable: bool, socket_error: Option<E>) -> (r: Option<Result<(), E>>)
    ensures
        !writable ==> r.is_none(),
        writable ==> match socket_error {
            Some(e) => r == Some(Err::<(), E>(e)),
            None => r == Some(Ok::<(), E>(())),
        },
{
    if !writable {
        None
    } else {
        match socket_error {
            Some(e) => Some(Err(e)),
            None => Some(Ok(())),
        }
    }
}

} // verus!
