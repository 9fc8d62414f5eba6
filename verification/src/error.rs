//! The ways in which building, parsing or looking up a chunk can fail.

use vstd::prelude::*;

verus! {

/// Why an operation of this crate refused its input.
#[derive(Debug, Clone, Copy, PartialEq, Eq, Structural)]
pub enum Error {
    /// A four-byte type code holds a byte that is not an ASCII letter.
    InvalidTypeCode,
    /// A textual type code is not exactly four bytes long.
    InvalidLength,
    /// A payload was asked for as text but is not valid UTF-8.
    InvalidEncoding,
    /// The length field of a chunk disagrees with the size of its buffer.
    LengthMismatch,
    /// The checksum stored in a chunk is not the checksum of its contents.
    CrcMismatch,
    /// A stream does not begin with the PNG signature.
    BadMagic,
    /// A buffer ends before the frame it announces is complete.
    TruncatedBuffer,
    /// No chunk of the requested type is present.
    NotFound,
}

/// Where and why the decoding of a stream stopped.
#[derive(Debug, Clone, Copy, PartialEq, Eq, Structural)]
pub struct DecodeFailure {
    /// Why the stream was refused.
    pub error: Error,
    /// The number of whole chunks that were read before the one that was
    /// refused.
    pub chunk_index: usize,
    /// The place in the buffer of the first byte of the frame that was
    /// refused; 0 where the signature was.
    pub offset: usize,
}

} // verus!
