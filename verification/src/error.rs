//! Error types for reading and writing archives.

use vstd::prelude::*;

verus! {

/// A failure while parsing an archive.
#[derive(Debug, Clone, Copy, PartialEq, Eq, Structural)]
pub enum ReadError {
    /// The input ended before a complete header or index record could be
    /// read.
    UnexpectedEof,
    /// The magic bytes at the start of a combined (V2) archive did not match.
    InvalidHeader,
}

/// A failure while writing an archive.
#[derive(Debug, Clone, Copy, PartialEq, Eq, Structural)]
pub enum WriteError {
    /// A combined (V2) archive was created with a fixed entry count and that
    /// many entries have already been written.
    InsufficientHeaderSize,
    /// Reserved for callers that reject a name which cannot be encoded in
    /// the 23 content bytes of the on-disk name field.
    InvalidNameLength,
}

impl ReadError {
    /// A short human-readable description of the error.
    pub fn message(&self) -> (r: &'static str)
        ensures
            *self is UnexpectedEof ==> r@ == "unexpected end of stream"@,
            *self is InvalidHeader ==> r@ == "invalid header"@,
    {
        match self {
            ReadError::UnexpectedEof => "unexpected end of stream",
            ReadError::InvalidHeader => "invalid header",
        }
    }
}

impl WriteError {
    /// A short human-readable description of the error.
    pub fn message(&self) -> (r: &'static str)
        ensures
            *self is InsufficientHeaderSize ==> r@ == "insufficient header size"@,
            *self is InvalidNameLength ==> r@ == "invalid name length"@,
    {
        match self {
            WriteError::InsufficientHeaderSize => "insufficient header size",
            WriteError::InvalidNameLength => "invalid name length",
        }
    }
}

} // verus!
