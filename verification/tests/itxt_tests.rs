use png_chunks::errors::DecodeError;
use png_chunks::errors::EncodeError;
use png_chunks::itxt::InternationalText;

/// Builds one iTXt payload by hand from its wire fields.
fn make_payload(key: &[u8], flag: u8, method: u8, langtag: &[u8], transkey: &[u8], data: &[u8]) -> Vec<u8> {
    let mut p = Vec::new();
    p.extend_from_slice(key);
    p.push(0);
    p.push(flag);
    p.push(method);
    p.extend_from_slice(langtag);
    p.push(0);
    p.extend_from_slice(transkey);
    p.push(0);
    p.extend_from_slice(data);
    p
}

fn text_value(key: &str, langtag: &str, transkey: &str, val: &str, compressed: bool) -> InternationalText {
    InternationalText {
        key: key.to_string(),
        langtag: langtag.to_string(),
        transkey: transkey.to_string(),
        val: val.to_string(),
        compressed,
    }
}

#[test]
fn round_trip_uncompressed() {
    let v = text_value("Title", "en", "Titel", "An image worth keeping", false);
    let bytes = v.write(6).unwrap();
    let parsed = InternationalText::parse_chunk(&bytes).unwrap();
    assert_eq!(parsed, v);
}

#[test]
fn round_trip_compressed() {
    let v = text_value("Comment", "de", "Kommentar", "ein langer Text, der sich lohnt", true);
    let bytes = v.write(6).unwrap();
    let parsed = InternationalText::parse_chunk(&bytes).unwrap();
    assert_eq!(parsed, v);
}

#[test]
fn round_trip_compressed_ten_thousand_chars() {
    let msg: String = "x".repeat(10_000);
    let v = text_value("Description", "", "", &msg, true);
    let bytes = v.write(6).unwrap();
    // The repeated message really was compressed on the wire.
    assert!(bytes.len() < 10_000);
    let parsed = InternationalText::parse_chunk(&bytes).unwrap();
    assert_eq!(parsed.val, msg);
    assert_eq!(parsed, v);
}

#[test]
fn write_emits_exact_wire_layout() {
    let v = text_value("k", "", "", "A", false);
    let bytes = v.write(6).unwrap();
    // length 7, "iTXt", payload, then the CRC of tag + payload.
    let payload = make_payload(b"k", 0, 0, b"", b"", b"A");
    let mut expected = vec![0, 0, 0, 7];
    expected.extend_from_slice(b"iTXt");
    expected.extend_from_slice(&payload);
    let mut tag_and_payload = b"iTXt".to_vec();
    tag_and_payload.extend_from_slice(&payload);
    expected.extend_from_slice(&png_chunks::crc::crc32(&tag_and_payload).to_be_bytes());
    assert_eq!(bytes, expected);
}

#[test]
fn parse_key_lengths_one_and_seventy_nine_succeed() {
    let key1 = vec![b'a'; 1];
    let p1 = make_payload(&key1, 0, 0, b"", b"", b"hi");
    assert_eq!(InternationalText::parse(&p1).unwrap().key, "a");

    let key79 = vec![b'a'; 79];
    let p79 = make_payload(&key79, 0, 0, b"", b"", b"hi");
    assert_eq!(InternationalText::parse(&p79).unwrap().key.len(), 79);
}

#[test]
fn parse_key_lengths_zero_and_eighty_fail() {
    let p0 = make_payload(b"", 0, 0, b"", b"", b"hi");
    assert_eq!(InternationalText::parse(&p0), Err(DecodeError::TextSize(0)));

    let key80 = vec![b'a'; 80];
    let p80 = make_payload(&key80, 0, 0, b"", b"", b"hi");
    assert_eq!(InternationalText::parse(&p80), Err(DecodeError::TextSize(80)));
}

#[test]
fn write_key_lengths_one_and_seventy_nine_succeed() {
    let v1 = text_value("a", "", "", "m", false);
    assert!(v1.write(6).is_ok());
    let v79 = text_value(&"a".repeat(79), "", "", "m", false);
    assert!(v79.write(6).is_ok());
}

#[test]
fn write_key_lengths_zero_and_eighty_fail() {
    let v0 = text_value("", "", "", "m", false);
    assert_eq!(v0.write(6), Err(EncodeError::TextSize(0)));
    let v80 = text_value(&"a".repeat(80), "", "", "m", false);
    assert_eq!(v80.write(6), Err(EncodeError::TextSize(80)));
}

#[test]
fn nonzero_method_byte_is_rejected() {
    // Method byte 1 must fail, never be treated as uncompressed.
    let p = make_payload(b"Title", 0, 1, b"", b"", b"hi");
    assert_eq!(
        InternationalText::parse(&p),
        Err(DecodeError::UnsupportedCompressionMethod)
    );
}

#[test]
fn invalid_compressed_data_is_a_compression_failure() {
    let p = make_payload(b"Title", 1, 0, b"", b"", b"this is not a zlib stream");
    assert_eq!(
        InternationalText::parse(&p),
        Err(DecodeError::CompressionFailure)
    );
}

#[test]
fn compressed_wire_data_is_really_inflated() {
    // Build the wire payload with the real compressor; parse must hand back
    // the original message, not the compressed bytes.
    let compressed = miniz_oxide::deflate::compress_to_vec_zlib(b"hello beyond the wire", 6);
    let p = make_payload(b"Title", 1, 0, b"", b"", &compressed);
    let parsed = InternationalText::parse(&p).unwrap();
    assert!(parsed.compressed);
    assert_eq!(parsed.val, "hello beyond the wire");
}

#[test]
fn truncated_payload_variants() {
    // No NUL at all: the keyword never terminates.
    assert_eq!(
        InternationalText::parse(b"keyword"),
        Err(DecodeError::Truncated)
    );
    // Keyword terminated but the flag and method bytes are missing.
    assert_eq!(
        InternationalText::parse(b"key\0"),
        Err(DecodeError::Truncated)
    );
    // Language tag never terminates.
    assert_eq!(
        InternationalText::parse(b"key\0\0\0en"),
        Err(DecodeError::Truncated)
    );
    // Translated keyword never terminates.
    assert_eq!(
        InternationalText::parse(b"key\0\0\0en\0tk"),
        Err(DecodeError::Truncated)
    );
}

#[test]
fn invalid_utf8_text_is_decoded_lossily() {
    let p = make_payload(b"Title", 0, 0, b"", b"", &[0xFF, b'a']);
    let parsed = InternationalText::parse(&p).unwrap();
    assert_eq!(parsed.val, "\u{FFFD}a");
}

#[test]
fn empty_message_round_trips() {
    let v = text_value("Author", "", "", "", false);
    let bytes = v.write(6).unwrap();
    let parsed = InternationalText::parse_chunk(&bytes).unwrap();
    assert_eq!(parsed, v);
}

#[test]
fn parse_chunk_rejects_corrupted_frame() {
    let v = text_value("Title", "en", "", "message", false);
    let mut bytes = v.write(6).unwrap();
    // Flip one payload byte: the checksum must catch it.
    bytes[9] ^= 0x40;
    assert_eq!(
        InternationalText::parse_chunk(&bytes),
        Err(DecodeError::ChecksumMismatch)
    );
}

#[test]
fn parse_chunk_rejects_truncated_frame() {
    let v = text_value("Title", "en", "", "message", false);
    let mut bytes = v.write(6).unwrap();
    bytes.pop();
    assert_eq!(
        InternationalText::parse_chunk(&bytes),
        Err(DecodeError::Truncated)
    );
    assert_eq!(
        InternationalText::parse_chunk(&bytes[..2]),
        Err(DecodeError::Truncated)
    );
}
