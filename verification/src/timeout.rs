//! Bounding an I/O operation by a deadline.

use vstd::prelude::*;

use crate::error::{ErrorKind, IoError};

verus! {

/// What a deadline-bounded operation yields when polled, given what the operation
/// itself yielded (`None` while it is pending) and whether the deadline has passed:
/// the operation's own result whenever it has one, else `TimedOut` once the deadline
/// has passed, else `None` (pending).
pub fn timeout_outcome<T, E>(operation: Option<Result<T, E>>, deadline_passed: bool) -> (r: Option<
    Result<T, IoError<E>>,
>)
    ensures
        match operation {
            Some(Ok(v)) => r == Some(Ok::<T, IoError<E>>(v)),
            Some(Err(e)) => r == Some(Err::<T, IoError<E>>(IoError::Inner(e))),
            None => if deadline_passed {
                r == Some(Err::<T, IoError<E>>(IoError::Kind(ErrorKind::TimedOut)))
            } else {
                r.is_none()
            },
        },
{
    match operation {
        Some(Ok(v)) => Some(Ok(v)),
        Some(Err(e)) => Some(Err(IoError::Inner(e))),
        None => {
            if deadline_passed {
                Some(Err(IoError::Kind(ErrorKind::TimedOut)))
            } else {
                None
            }
        },
    }
}

} // verus!
