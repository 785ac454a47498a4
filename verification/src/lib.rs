//! Chunk framing and integrity layer of a PNG-style binary container format.
//!
//! A chunk is a length-prefixed, type-tagged, checksum-protected record:
//! `[length:4 BE][type:4][payload:length][crc:4 BE]`, where the CRC-32 is
//! taken over the type tag and the payload. This crate provides the
//! low-level chunk primitives, the checksum engine, a stream parser that
//! walks a whole buffer of consecutive records, and the international
//! text (iTXt) payload sub-codec with its optionally zlib-compressed
//! message field.

pub mod chunks;
pub mod crc;
pub mod errors;
pub mod itxt;
pub mod stream;
pub mod zlib;
