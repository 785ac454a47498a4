//! Compression transform: the deflate-family compressor/decompressor (zlib
//! framing) used as a black box by payload sub-codecs.

use vstd::prelude::*;

verus! {

/// The zlib stream that compressing `data` at `level` produces. The
/// compressor is a pure function of the bytes and the level, so the result
/// has a name; nothing shorter states its value.
pub uninterp spec fn deflate_of(data: Seq<u8>, level: u8) -> Seq<u8>;

/// What decompressing a zlib stream yields: the decompressed bytes, or
/// nothing where the input is not a valid zlib stream.
pub uninterp spec fn inflate_of(data: Seq<u8>) -> Option<Seq<u8>>;

/// Relies on miniz_oxide::deflate::compress_to_vec_zlib: a deterministic
/// pure function of the input bytes and the level (levels above 10 are
/// clamped, never a panic). Deflate is lossless, so decompressing its
/// output yields the input again.
#[verifier::external_body]
pub(crate) fn compress(data: &[u8], level: u8) -> (r: Vec<u8>)
    ensures
        r@ == deflate_of(data@, level),
        inflate_of(r@) == Some(data@),
{
    miniz_oxide::deflate::compress_to_vec_zlib(data, level)
}

/// Relies on miniz_oxide::inflate::decompress_to_vec_zlib: a deterministic
/// pure function of the input bytes; it returns the decompressed bytes, and
/// an error exactly where the input is not a valid zlib stream.
#[verifier::external_body]
pub(crate) fn decompress(data: &[u8]) -> (r: Option<Vec<u8>>)
    ensures
        match r {
            Some(v) => inflate_of(data@) == Some(v@),
            None => inflate_of(data@) is None,
        },
{
    match miniz_oxide::inflate::decompress_to_vec_zlib(data) {
        Ok(v) => Some(v),
        Err(_) => None,
    }
}

} // verus!
