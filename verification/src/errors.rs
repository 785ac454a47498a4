//! Error taxonomy of the chunk layer. Every constraint violation is a
//! distinct, reported error; none is silently recovered.

use vstd::prelude::*;

verus! {

/// Errors of the decode direction.
#[derive(Clone, Copy, Debug, PartialEq, Eq, Structural)]
pub enum DecodeError {
    /// The buffer is shorter than a declared length implies.
    Truncated,
    /// A declared chunk length exceeds the 2^31 ceiling.
    ChunkTooLarge,
    /// The computed CRC differs from the stored CRC.
    ChecksumMismatch,
    /// A text keyword length lies outside [1, 79]; carries the length seen.
    TextSize(usize),
    /// A nonzero compression method byte (only method 0, deflate, exists).
    UnsupportedCompressionMethod,
    /// The compression transform rejected the bytes as invalid.
    CompressionFailure,
}

/// Errors of the encode direction.
#[derive(Clone, Copy, Debug, PartialEq, Eq, Structural)]
pub enum EncodeError {
    /// A text keyword length lies outside [1, 79]; carries the length seen.
    TextSize(usize),
    /// The assembled payload would exceed the 2^31 length ceiling.
    ChunkTooLarge,
}

} // verus!
