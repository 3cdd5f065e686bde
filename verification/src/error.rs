//! The error kinds that the library's own logic produces.

use vstd::prelude::*;

verus! {

/// Why an operation of the library failed, where the failure is the library's own
/// finding rather than one handed up from an inner reader or writer.
#[derive(Debug, Clone, Copy, PartialEq, Eq, Structural)]
pub enum ErrorKind {
    /// The bytes read were not valid UTF-8.
    InvalidData,
    /// A writer accepted zero bytes of a non-empty buffer.
    WriteZero,
    /// A deadline passed before the operation completed.
    TimedOut,
}

/// An error that is either the library's own finding or one that an inner reader
/// or writer reported.
#[derive(Debug, PartialEq, Eq)]
pub enum IoError<E> {
    /// The library's own finding.
    Kind(ErrorKind),
    /// The error an inner reader or writer reported, passed on unchanged.
    Inner(E),
}

} // verus!
