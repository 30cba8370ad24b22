//! Failure values shared by every codec operation.

use vstd::prelude::*;

verus! {

/// The ways a wire-format operation can fail. All of these are local,
/// recoverable conditions reported to the immediate caller; none is retried
/// internally.
#[derive(Clone, Copy, Debug, PartialEq, Eq, Structural)]
pub enum WireError {
    /// Not enough bytes remain for the requested read.
    BufferUnderflow,
    /// A varint ran past its maximum group count without terminating.
    VarintTooLong,
    /// The final varint byte carries bits beyond the target integer width.
    VarintOverflow,
    /// The buffer ended mid-varint with the continuation bit still set.
    IncompleteVarint,
    /// A length-delimited string payload is not valid UTF-8.
    InvalidUtf8,
    /// A wire type outside 0..=5, or an unmatched end-group while skipping.
    InvalidWireType,
    /// A field number or wire type outside the allowed ranges on encode.
    InvalidTag,
    /// A commit was requested with no matching fork open.
    NoOpenFork,
}

impl WireError {
    /// A short description of the failure, for the boundary layer to
    /// surface beside the kind.
    pub fn message(&self) -> &'static str {
        match self {
            WireError::BufferUnderflow => "buffer underflow",
            WireError::VarintTooLong => "varint too long",
            WireError::VarintOverflow => "varint overflow",
            WireError::IncompleteVarint => "incomplete varint",
            WireError::InvalidUtf8 => "invalid UTF-8",
            WireError::InvalidWireType => "invalid wire type",
            WireError::InvalidTag => "invalid field number or wire type",
            WireError::NoOpenFork => "no open fork to commit",
        }
    }
}

} // verus!
