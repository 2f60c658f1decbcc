//! The failures a decode pass can end in.

use vstd::prelude::*;

verus! {

/// Why a decode pass was aborted.
#[derive(Clone, Copy, Debug, PartialEq, Eq, Structural)]
pub enum ErrorKind {
    /// The stream does not start with the protocol instruction.
    BadMagicHeader,
    /// The protocol version is outside the accepted range.
    UnsupportedVersion,
    /// A byte in instruction position encodes no instruction.
    UnknownOpcode,
    /// The instruction is part of the format but has no handler here.
    UnimplementedOpcode,
    /// An operand that the instruction needs is not on the stack.
    StackUnderflow,
    /// An operand is on the stack but has the wrong shape.
    StackTypeMismatch,
    /// A memo index refers to no entry, or lies beyond the next free one.
    MemoIndexOutOfRange,
    /// A text argument is not valid UTF-8.
    InvalidTextEncoding,
    /// A field name of an object's state is not text.
    MalformedFieldKey,
    /// There is no value to return, or only the mark sentinel.
    EmptyOrMalformedResult,
    /// The source ended before the bytes that an instruction needs.
    TruncatedRead,
    /// A length on the wire exceeds the configured read limit.
    ResourceLimitExceeded,
}

/// A failure together with the read cursor at the point where it occurred.
#[derive(Clone, Copy, Debug, PartialEq, Eq, Structural)]
pub struct DecodeError {
    pub kind: ErrorKind,
    pub offset: usize,
}

} // verus!
