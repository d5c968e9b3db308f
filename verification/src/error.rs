//! Error type shared by the whole library.
use vstd::prelude::*;

verus! {

/// Category of an [`Error`].
#[derive(Debug, Clone, Copy, PartialEq, Eq, Structural)]
pub enum ErrorKind {
    /// The caller handed in a value that the operation does not accept.
    InvalidInput,
    /// Bytes that were read do not follow the format.
    InvalidData,
    /// The input is well-formed but uses a feature that is not supported.
    Unsupported,
    /// A buffer ended before the value that was being read.
    InsufficientBuffer,
}

/// Error returned by the fallible functions of this library.
#[derive(Debug, Clone, Copy)]
pub struct Error {
    /// Category of the error.
    pub kind: ErrorKind,
    /// Human readable description of what went wrong.
    pub reason: &'static str,
}

impl Error {
    /// An error of kind [`ErrorKind::InvalidInput`].
    pub fn invalid_input(reason: &'static str) -> (e: Error)
        ensures
            e.kind == ErrorKind::InvalidInput,
            e.reason == reason,
    {
        Error { kind: ErrorKind::InvalidInput, reason }
    }

    /// An error of kind [`ErrorKind::InvalidData`].
    pub fn invalid_data(reason: &'static str) -> (e: Error)
        ensures
            e.kind == ErrorKind::InvalidData,
            e.reason == reason,
    {
        Error { kind: ErrorKind::InvalidData, reason }
    }

    /// An error of kind [`ErrorKind::Unsupported`].
    pub fn unsupported(reason: &'static str) -> (e: Error)
        ensures
            e.kind == ErrorKind::Unsupported,
            e.reason == reason,
    {
        Error { kind: ErrorKind::Unsupported, reason }
    }

    /// An error of kind [`ErrorKind::InsufficientBuffer`].
    pub fn insufficient_buffer(reason: &'static str) -> (e: Error)
        ensures
            e.kind == ErrorKind::InsufficientBuffer,
            e.reason == reason,
    {
        Error { kind: ErrorKind::InsufficientBuffer, reason }
    }
}

} // verus!
