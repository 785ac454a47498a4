//! Chunk primitives: the lowest-level view over a raw chunk record
//! `[length:4 BE][type:4][payload:length][crc:4 BE]`, each operation taking
//! a byte slice viewed as one chunk starting at offset 0.

use vstd::prelude::*;
use vstd::slice::slice_subrange;
use crate::crc::crc32;
use crate::crc::crc32_of;
use crate::errors::DecodeError;

verus! {

/// The big-endian 32-bit value held by the first four bytes of `s`.
pub open spec fn be32_of(s: Seq<u8>) -> u32
    recommends
        s.len() >= 4,
{
    ((s[0] as u32) << 24) | ((s[1] as u32) << 16) | ((s[2] as u32) << 8) | (s[3] as u32)
}

/// The four big-endian bytes of a 32-bit value.
pub open spec fn be32_bytes(v: u32) -> Seq<u8> {
    seq![
        ((v >> 24) & 0xff) as u8,
        ((v >> 16) & 0xff) as u8,
        ((v >> 8) & 0xff) as u8,
        (v & 0xff) as u8,
    ]
}

/// Serializing a 32-bit value big-endian and reading it back is the identity.
pub proof fn lemma_be32_roundtrip(v: u32)
    ensures
        be32_of(be32_bytes(v)) == v,
{
    assert((((((v >> 24) & 0xff) as u8) as u32) << 24) | (((((v >> 16) & 0xff) as u8) as u32)
        << 16) | (((((v >> 8) & 0xff) as u8) as u32) << 8) | (((v & 0xff) as u8) as u32) == v)
        by (bit_vector);
}

/// The declared payload length of the chunk: its first four bytes, big-endian.
pub open spec fn spec_chunk_length(s: Seq<u8>) -> nat
    recommends
        s.len() >= 4,
{
    be32_of(s) as nat
}

/// The declared length is within the 2^31 ceiling and the buffer holds the
/// whole record (length + 12 bytes of framing).
pub open spec fn spec_chunk_data_ok(s: Seq<u8>) -> bool {
    spec_chunk_length(s) <= 0x80000000 && s.len() >= spec_chunk_length(s) + 12
}

/// The stored trailing CRC equals the CRC-32 of type tag + payload.
pub open spec fn spec_check_crc(s: Seq<u8>) -> bool
    recommends
        s.len() >= spec_chunk_length(s) + 12,
{
    let len = spec_chunk_length(s) as int;
    be32_of(s.skip(8 + len)) == crc32_of(s.subrange(4, 8 + len))
}

/// Reads the big-endian 32-bit value at byte offset `pos` of `s`.
pub fn read_be32(s: &[u8], pos: usize) -> (r: u32)
    requires
        pos + 4 <= s@.len(),
    ensures
        r == be32_of(s@.skip(pos as int)),
{
    let b0: u8 = s[pos];
    let b1: u8 = s[pos + 1];
    let b2: u8 = s[pos + 2];
    let b3: u8 = s[pos + 3];
    ((b0 as u32) << 24) | ((b1 as u32) << 16) | ((b2 as u32) << 8) | (b3 as u32)
}

/// Reads the first 4 bytes of the chunk as its big-endian payload length.
/// No validation against the buffer size happens here; that is layered at
/// `lodepng_chunk_data`.
pub fn lodepng_chunk_length(chunk: &[u8]) -> (r: usize)
    requires
        chunk@.len() >= 4,
    ensures
        r == spec_chunk_length(chunk@),
{
    proof {
        assert(chunk@.skip(0) =~= chunk@);
    }
    read_be32(chunk, 0) as usize
}

/// Returns the 4-byte type tag, bytes 4..8 of the chunk, verbatim.
pub fn lodepng_chunk_type(chunk: &[u8]) -> (r: &[u8])
    requires
        chunk@.len() >= 8,
    ensures
        r@ == chunk@.subrange(4, 8),
{
    slice_subrange(chunk, 4, 8)
}

/// Validates the declared length against the ceiling and the buffer, then
/// returns the payload slice, bytes 8..8+length.
pub fn lodepng_chunk_data(chunk: &[u8]) -> (r: Result<&[u8], DecodeError>)
    requires
        chunk@.len() >= 4,
    ensures
        match r {
            Ok(d) => spec_chunk_data_ok(chunk@) && d@ == chunk@.subrange(
                8,
                8 + spec_chunk_length(chunk@) as int,
            ),
            Err(e) => !spec_chunk_data_ok(chunk@) && (e == DecodeError::ChunkTooLarge
                <==> spec_chunk_length(chunk@) > 0x80000000) && (e == DecodeError::Truncated
                <==> spec_chunk_length(chunk@) <= 0x80000000),
        },
{
    let len: usize = lodepng_chunk_length(chunk);
    if len > 0x80000000usize {
        return Err(DecodeError::ChunkTooLarge);
    }
    if chunk.len() < 12 || chunk.len() - 12 < len {
        return Err(DecodeError::Truncated);
    }
    Ok(slice_subrange(chunk, 8, 8 + len))
}

/// The mutable counterpart of `lodepng_chunk_data`: identical validation,
/// then overwrites payload byte `i` in place.
pub fn lodepng_chunk_data_mut(chunk: &mut Vec<u8>, i: usize, value: u8) -> (r: Result<
    (),
    DecodeError,
>)
    requires
        old(chunk)@.len() >= 4,
        spec_chunk_data_ok(old(chunk)@) ==> i < spec_chunk_length(old(chunk)@),
    ensures
        match r {
            Ok(_) => spec_chunk_data_ok(old(chunk)@) && final(chunk)@ == old(chunk)@.update(
                8 + i as int,
                value,
            ),
            Err(e) => final(chunk)@ == old(chunk)@ && !spec_chunk_data_ok(old(chunk)@) && (e
                == DecodeError::ChunkTooLarge <==> spec_chunk_length(old(chunk)@) > 0x80000000) && (
            e == DecodeError::Truncated <==> spec_chunk_length(old(chunk)@) <= 0x80000000),
        },
{
    let len: usize = lodepng_chunk_length(chunk.as_slice());
    if len > 0x80000000usize {
        return Err(DecodeError::ChunkTooLarge);
    }
    if chunk.len() < 12 || chunk.len() - 12 < len {
        return Err(DecodeError::Truncated);
    }
    chunk[8 + i] = value;
    Ok(())
}

/// Returns the subslice beginning at length + 12: the start of the following
/// chunk record. The caller must already have validated the length.
pub fn lodepng_chunk_next(chunk: &[u8]) -> (r: &[u8])
    requires
        chunk@.len() >= spec_chunk_length(chunk@) + 12,
    ensures
        r@ == chunk@.skip(spec_chunk_length(chunk@) as int + 12),
{
    let n: usize = chunk.len();
    let total_chunk_length: usize = lodepng_chunk_length(chunk) + 12;
    let r = slice_subrange(chunk, total_chunk_length, n);
    proof {
        assert(r@ =~= chunk@.skip(spec_chunk_length(chunk@) as int + 12));
    }
    r
}

/// Bit 5 of type-tag byte 0: set means ancillary (ignorable), clear critical.
pub open spec fn spec_is_ancillary(s: Seq<u8>) -> bool {
    s[4] & 32 != 0
}

/// Bit 5 of type-tag byte 2: set means private, clear public/reserved.
pub open spec fn spec_is_private(s: Seq<u8>) -> bool {
    s[6] & 32 != 0
}

/// Bit 5 of type-tag byte 3: set means safe for editors to copy unmodified.
pub open spec fn spec_is_safe_to_copy(s: Seq<u8>) -> bool {
    s[7] & 32 != 0
}

/// Tests the ancillary flag bit of the chunk's type tag.
pub fn lodepng_chunk_ancillary(chunk: &[u8]) -> (r: bool)
    requires
        chunk@.len() >= 8,
    ensures
        r == spec_is_ancillary(chunk@),
{
    (chunk[4] & 32) != 0
}

/// Tests the private flag bit of the chunk's type tag.
pub fn lodepng_chunk_private(chunk: &[u8]) -> (r: bool)
    requires
        chunk@.len() >= 8,
    ensures
        r == spec_is_private(chunk@),
{
    (chunk[6] & 32) != 0
}

/// Tests the safe-to-copy flag bit of the chunk's type tag.
pub fn lodepng_chunk_safetocopy(chunk: &[u8]) -> (r: bool)
    requires
        chunk@.len() >= 8,
    ensures
        r == spec_is_safe_to_copy(chunk@),
{
    (chunk[7] & 32) != 0
}

/// Recomputes the CRC-32 over type tag + payload and compares it to the
/// stored trailing 4 bytes. The length field itself is not covered.
pub fn lodepng_chunk_check_crc(chunk: &[u8]) -> (r: bool)
    requires
        chunk@.len() >= spec_chunk_length(chunk@) + 12,
    ensures
        r == spec_check_crc(chunk@),
{
    let n: usize = chunk.len();
    let length: usize = lodepng_chunk_length(chunk);
    let crc: u32 = read_be32(chunk, length + 8);
    let type_and_payload: &[u8] = slice_subrange(chunk, 4, length + 8);
    let checksum: u32 = crc32(type_and_payload);
    crc == checksum
}

/// Writes the big-endian bytes of `v` at offset `pos` of `dest`.
pub fn write_be32_at(dest: &mut Vec<u8>, pos: usize, v: u32)
    requires
        pos + 4 <= old(dest)@.len(),
    ensures
        final(dest)@ == old(dest)@.subrange(0, pos as int) + be32_bytes(v) + old(dest)@.skip(
            pos as int + 4,
        ),
{
    let n: usize = dest.len();
    dest[pos] = ((v >> 24) & 0xff) as u8;
    dest[pos + 1] = ((v >> 16) & 0xff) as u8;
    dest[pos + 2] = ((v >> 8) & 0xff) as u8;
    dest[pos + 3] = (v & 0xff) as u8;
    proof {
        assert(dest@ =~= old(dest)@.subrange(0, pos as int) + be32_bytes(v) + old(dest)@.skip(
            pos as int + 4,
        ));
    }
}

/// Recomputes the CRC-32 over type tag + payload and overwrites the trailing
/// 4 bytes in place; afterwards the chunk passes `lodepng_chunk_check_crc`.
pub fn lodepng_chunk_generate_crc(chunk: &mut Vec<u8>)
    requires
        old(chunk)@.len() >= spec_chunk_length(old(chunk)@) + 12,
    ensures
        ({
            let len = spec_chunk_length(old(chunk)@) as int;
            final(chunk)@ == old(chunk)@.subrange(0, 8 + len) + be32_bytes(
                crc32_of(old(chunk)@.subrange(4, 8 + len)),
            ) + old(chunk)@.skip(12 + len)
        }),
        final(chunk)@.len() == old(chunk)@.len(),
        spec_chunk_length(final(chunk)@) == spec_chunk_length(old(chunk)@),
        spec_check_crc(final(chunk)@),
{
    let ghost orig = chunk@;
    let ghost len = spec_chunk_length(old(chunk)@) as int;
    let n: usize = chunk.len();
    let length: usize = lodepng_chunk_length(chunk.as_slice());
    let type_and_payload: &[u8] = slice_subrange(chunk.as_slice(), 4, length + 8);
    let crc: u32 = crc32(type_and_payload);
    write_be32_at(chunk, 8 + length, crc);
    proof {
        assert(chunk@ =~= orig.subrange(0, 8 + len) + be32_bytes(crc32_of(orig.subrange(4, 8 + len)))
            + orig.skip(12 + len));
        assert(spec_chunk_length(chunk@) == spec_chunk_length(orig));
        assert(chunk@.subrange(4, 8 + len) =~= orig.subrange(4, 8 + len));
        assert(chunk@.skip(8 + len) =~= be32_bytes(crc) + orig.skip(12 + len));
        lemma_be32_roundtrip(crc);
        assert(be32_of(chunk@.skip(8 + len)) == be32_of(be32_bytes(crc)));
    }
}

/// Checksum integrity: flipping any single byte within a chunk's type tag
/// or payload makes the CRC check fail.
pub proof fn lemma_check_crc_detects_flip(c1: Seq<u8>, c2: Seq<u8>, i: int)
    requires
        c1.len() >= spec_chunk_length(c1) + 12,
        c2.len() == c1.len(),
        4 <= i < 8 + spec_chunk_length(c1),
        c1[i] != c2[i],
        forall|j: int| 0 <= j < c1.len() && j != i ==> c1[j] == c2[j],
        spec_check_crc(c1),
    ensures
        !spec_check_crc(c2),
{
    let len = spec_chunk_length(c1) as int;
    assert(spec_chunk_length(c2) == spec_chunk_length(c1));
    let tp1 = c1.subrange(4, 8 + len);
    let tp2 = c2.subrange(4, 8 + len);
    assert(tp1[i - 4] == c1[i] && tp2[i - 4] == c2[i]);
    assert forall|j: int| 0 <= j < tp1.len() && j != i - 4 implies tp1[j] == tp2[j] by {
        assert(tp1[j] == c1[j + 4] && tp2[j] == c2[j + 4]);
    }
    crate::crc::lemma_crc32_single_byte_flip(tp1, tp2, i - 4);
    assert(c1.skip(8 + len) =~= c2.skip(8 + len));
}

/// Appends the big-endian bytes of `v` to `out`.
pub fn push_be32(out: &mut Vec<u8>, v: u32)
    ensures
        final(out)@ == old(out)@ + be32_bytes(v),
{
    out.push(((v >> 24) & 0xff) as u8);
    out.push(((v >> 16) & 0xff) as u8);
    out.push(((v >> 8) & 0xff) as u8);
    out.push((v & 0xff) as u8);
    proof {
        assert(out@ =~= old(out)@ + be32_bytes(v));
    }
}

/// One framed chunk record: big-endian length, type tag, payload, and the
/// trailing CRC-32 of tag + payload.
pub open spec fn spec_frame(tag: Seq<u8>, payload: Seq<u8>) -> Seq<u8>
    recommends
        tag.len() == 4,
        payload.len() <= 0x80000000,
{
    be32_bytes(payload.len() as u32) + tag + payload + be32_bytes(crc32_of(tag + payload))
}

/// A record built by `spec_frame` validates: the declared length is the
/// payload length and within the ceiling, the record is whole, tag and
/// payload read back verbatim, and the CRC check passes.
pub proof fn lemma_frame_valid(tag: Seq<u8>, payload: Seq<u8>)
    requires
        tag.len() == 4,
        payload.len() <= 0x80000000,
    ensures
        ({
            let f = spec_frame(tag, payload);
            &&& f.len() == payload.len() + 12
            &&& spec_chunk_length(f) == payload.len()
            &&& spec_chunk_data_ok(f)
            &&& f.subrange(4, 8) == tag
            &&& f.subrange(8, 8 + payload.len() as int) == payload
            &&& spec_check_crc(f)
        }),
{
    let f = spec_frame(tag, payload);
    let len = payload.len() as int;
    let lenu: u32 = payload.len() as u32;
    lemma_be32_roundtrip(lenu);
    assert(f[0] == be32_bytes(lenu)[0] && f[1] == be32_bytes(lenu)[1] && f[2] == be32_bytes(
        lenu,
    )[2] && f[3] == be32_bytes(lenu)[3]);
    assert(be32_of(f) == be32_of(be32_bytes(lenu)));
    assert(spec_chunk_length(f) == payload.len());
    assert(f.subrange(4, 8) =~= tag);
    assert(f.subrange(8, 8 + len) =~= payload);
    let c: u32 = crc32_of(tag + payload);
    assert(f.skip(8 + len) =~= be32_bytes(c));
    assert(f.subrange(4, 8 + len) =~= tag + payload);
    lemma_be32_roundtrip(c);
    assert(be32_of(f.skip(8 + len)) == be32_of(be32_bytes(c)));
}

/// Copies exactly length + 12 bytes, one whole chunk record, from `chunk`
/// onto the end of `out`.
pub fn chunk_append(out: &mut Vec<u8>, chunk: &[u8])
    requires
        chunk@.len() >= spec_chunk_length(chunk@) + 12,
        old(out)@.len() + spec_chunk_length(chunk@) + 12 <= usize::MAX,
    ensures
        final(out)@ == old(out)@ + chunk@.subrange(0, spec_chunk_length(chunk@) as int + 12),
{
    let total_chunk_length: usize = lodepng_chunk_length(chunk) + 12;
    let record: &[u8] = slice_subrange(chunk, 0, total_chunk_length);
    out.extend_from_slice(record);
}

} // verus!
