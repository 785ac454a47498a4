use png_chunks::chunks::chunk_append;
use png_chunks::chunks::lodepng_chunk_ancillary;
use png_chunks::chunks::lodepng_chunk_check_crc;
use png_chunks::chunks::lodepng_chunk_data;
use png_chunks::chunks::lodepng_chunk_data_mut;
use png_chunks::chunks::lodepng_chunk_generate_crc;
use png_chunks::chunks::lodepng_chunk_length;
use png_chunks::chunks::lodepng_chunk_next;
use png_chunks::chunks::lodepng_chunk_private;
use png_chunks::chunks::lodepng_chunk_safetocopy;
use png_chunks::chunks::lodepng_chunk_type;
use png_chunks::crc::crc32;
use png_chunks::errors::DecodeError;

/// Builds one framed chunk record with the given tag and payload, with a
/// correct trailing CRC.
fn make_chunk(tag: [u8; 4], payload: &[u8]) -> Vec<u8> {
    let len = payload.len() as u32;
    let mut out = Vec::new();
    out.extend_from_slice(&len.to_be_bytes());
    out.extend_from_slice(&tag);
    out.extend_from_slice(payload);
    out.extend_from_slice(&[0, 0, 0, 0]);
    lodepng_chunk_generate_crc(&mut out);
    out
}

#[test]
fn crc32_known_check_value() {
    // The standard CRC-32 check value over the digits "123456789".
    assert_eq!(crc32(b"123456789"), 0xCBF43926);
    assert_eq!(crc32(b""), 0);
}

#[test]
fn chunk_length_reads_big_endian() {
    let chunk = [0x00, 0x00, 0x01, 0x02, 0x74, 0x45, 0x58, 0x74];
    assert_eq!(lodepng_chunk_length(&chunk), 0x0102);
}

#[test]
fn chunk_type_is_bytes_4_to_8() {
    let chunk = make_chunk(*b"tEXt", b"abc");
    assert_eq!(lodepng_chunk_type(&chunk), b"tEXt");
}

#[test]
fn flag_bits_of_text_tag() {
    // "tEXt": ancillary (lowercase first byte), public (uppercase third
    // byte), safe to copy (lowercase fourth byte).
    let chunk = make_chunk([0x74, 0x45, 0x58, 0x74], b"abc");
    assert!(lodepng_chunk_ancillary(&chunk));
    assert!(!lodepng_chunk_private(&chunk));
    assert!(lodepng_chunk_safetocopy(&chunk));
}

#[test]
fn flag_bits_of_critical_tag() {
    // "IHDR": critical, public, not safe to copy.
    let chunk = make_chunk(*b"IHDR", b"abc");
    assert!(!lodepng_chunk_ancillary(&chunk));
    assert!(!lodepng_chunk_private(&chunk));
    assert!(!lodepng_chunk_safetocopy(&chunk));
}

#[test]
fn chunk_data_exact_fit_parses() {
    let chunk = make_chunk(*b"tEXt", b"abc");
    assert_eq!(chunk.len(), 3 + 12);
    assert_eq!(lodepng_chunk_data(&chunk).unwrap(), b"abc");
}

#[test]
fn chunk_data_one_byte_short_is_truncated() {
    let mut chunk = make_chunk(*b"tEXt", b"abc");
    chunk.pop();
    assert_eq!(lodepng_chunk_data(&chunk), Err(DecodeError::Truncated));
}

#[test]
fn chunk_data_declared_length_over_ceiling_is_too_large() {
    // Declared length 2^31 + 1 with a buffer far too small either way.
    let chunk = [0x80, 0x00, 0x00, 0x01, 0x74, 0x45, 0x58, 0x74, 0, 0, 0, 0];
    assert_eq!(lodepng_chunk_data(&chunk), Err(DecodeError::ChunkTooLarge));
}

#[test]
fn check_crc_accepts_generated_crc() {
    let chunk = make_chunk(*b"tEXt", b"hello world");
    assert!(lodepng_chunk_check_crc(&chunk));
}

#[test]
fn check_crc_rejects_payload_flip() {
    let mut chunk = make_chunk(*b"tEXt", b"hello world");
    chunk[8] ^= 0x01;
    assert!(!lodepng_chunk_check_crc(&chunk));
}

#[test]
fn check_crc_rejects_type_tag_flip() {
    let mut chunk = make_chunk(*b"tEXt", b"hello world");
    chunk[4] ^= 0x20;
    assert!(!lodepng_chunk_check_crc(&chunk));
}

#[test]
fn check_crc_rejects_every_single_byte_flip() {
    let base = make_chunk(*b"tEXt", b"payload bytes");
    let len = base.len();
    for i in 4..len - 4 {
        for bit in 0..8u8 {
            let mut chunk = base.clone();
            chunk[i] ^= 1 << bit;
            assert!(!lodepng_chunk_check_crc(&chunk), "flip at {i} bit {bit}");
        }
    }
}

#[test]
fn data_mut_edits_payload_in_place() {
    let mut chunk = make_chunk(*b"tEXt", b"abc");
    lodepng_chunk_data_mut(&mut chunk, 1, b'X').unwrap();
    assert_eq!(lodepng_chunk_data(&chunk).unwrap(), b"aXc");
    // The stored CRC no longer matches until it is regenerated.
    assert!(!lodepng_chunk_check_crc(&chunk));
    lodepng_chunk_generate_crc(&mut chunk);
    assert!(lodepng_chunk_check_crc(&chunk));
}

#[test]
fn data_mut_validates_like_data() {
    let mut chunk = make_chunk(*b"tEXt", b"abc");
    chunk.pop();
    assert_eq!(
        lodepng_chunk_data_mut(&mut chunk, 0, 0),
        Err(DecodeError::Truncated)
    );
}

#[test]
fn next_and_append_walk_a_stream() {
    let first = make_chunk(*b"tEXt", b"one");
    let second = make_chunk(*b"zTXt", b"second!");
    let mut stream = first.clone();
    chunk_append(&mut stream, &second);
    assert_eq!(stream.len(), first.len() + second.len());

    let rest = lodepng_chunk_next(&stream);
    assert_eq!(rest, &second[..]);
    assert_eq!(lodepng_chunk_data(rest).unwrap(), b"second!");
}

#[test]
fn append_copies_exactly_one_record() {
    let chunk = make_chunk(*b"tEXt", b"abc");
    let mut padded = chunk.clone();
    padded.extend_from_slice(b"trailing junk");
    let mut out = Vec::new();
    chunk_append(&mut out, &padded);
    assert_eq!(out, chunk);
}

#[test]
fn stream_of_two_chunks_parses() {
    let first = make_chunk(*b"tEXt", b"one");
    let second = make_chunk(*b"zTXt", b"two!");
    let mut stream = first.clone();
    stream.extend_from_slice(&second);
    let records = png_chunks::stream::parse_chunk_stream(&stream).unwrap();
    assert_eq!(records, vec![first, second]);
}

#[test]
fn empty_stream_parses_to_no_records() {
    let records = png_chunks::stream::parse_chunk_stream(b"").unwrap();
    assert_eq!(records, Vec::<Vec<u8>>::new());
}

#[test]
fn stream_with_corrupt_second_chunk_is_fatal() {
    let first = make_chunk(*b"tEXt", b"one");
    let second = make_chunk(*b"zTXt", b"two!");
    let mut stream = first.clone();
    stream.extend_from_slice(&second);
    let flip_at = first.len() + 9;
    stream[flip_at] ^= 0x10;
    assert_eq!(
        png_chunks::stream::parse_chunk_stream(&stream),
        Err(DecodeError::ChecksumMismatch)
    );
}

#[test]
fn stream_ending_off_a_boundary_is_truncated() {
    let first = make_chunk(*b"tEXt", b"one");
    let mut stream = first.clone();
    stream.extend_from_slice(&[0, 0]);
    assert_eq!(
        png_chunks::stream::parse_chunk_stream(&stream),
        Err(DecodeError::Truncated)
    );
}
