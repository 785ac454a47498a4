//! International text (iTXt) payload sub-codec: a chunk payload of the form
//! `key \0 flag(u8) method(u8) langtag \0 transkey \0 message`, where the
//! message is zlib-compressed when the flag byte is nonzero and the method
//! byte must be 0.

use vstd::prelude::*;
use vstd::slice::slice_subrange;
use vstd::slice::slice_to_vec;
use vstd::utf8::decode_utf8;
use vstd::utf8::encode_utf8;
use vstd::utf8::valid_utf8;
use crate::chunks::lodepng_chunk_check_crc;
use crate::chunks::lodepng_chunk_data;
use crate::chunks::push_be32;
use crate::chunks::spec_check_crc;
use crate::chunks::spec_chunk_data_ok;
use crate::chunks::spec_chunk_length;
use crate::chunks::spec_frame;
use crate::crc::crc32;
use crate::errors::DecodeError;
use crate::errors::EncodeError;
use crate::zlib::compress;
use crate::zlib::decompress;
use crate::zlib::deflate_of;
use crate::zlib::inflate_of;

verus! {

/// International Text Chunk Data (iTXt).
#[derive(Clone, Debug, PartialEq)]
pub struct InternationalText {
    /// A keyword that gives a short description of what the text in `val`
    /// represents, e.g. Title, Author, Description. On the wire it is 1 to
    /// 79 bytes long.
    pub key: String,
    /// Additional string "langtag": the language tag, possibly empty.
    pub langtag: String,
    /// Additional string "transkey": the translated keyword, possibly empty.
    pub transkey: String,
    /// The actual message, decoded as UTF-8 with lossy replacement.
    pub val: String,
    /// Whether the message is compressed on the wire.
    pub compressed: bool,
}

/// Index of the first NUL byte of `s`; `s.len()` where none occurs.
pub open spec fn first_nul(s: Seq<u8>) -> int
    decreases s.len(),
{
    if s.len() == 0 {
        0
    } else if s[0] == 0 {
        0
    } else {
        1 + first_nul(s.drop_first())
    }
}

/// `first_nul` lies within bounds, everything before it is nonzero, and it
/// points at a NUL wherever one occurs at all.
pub proof fn lemma_first_nul(s: Seq<u8>)
    ensures
        0 <= first_nul(s) <= s.len(),
        forall|j: int| 0 <= j < first_nul(s) ==> s[j] != 0,
        first_nul(s) < s.len() ==> s[first_nul(s)] == 0,
    decreases s.len(),
{
    if s.len() != 0 && s[0] != 0 {
        lemma_first_nul(s.drop_first());
        assert forall|j: int| 0 <= j < first_nul(s) implies s[j] != 0 by {
            if j >= 1 {
                assert(s.drop_first()[j - 1] == s[j]);
            }
        }
        if first_nul(s) < s.len() {
            assert(s.drop_first()[first_nul(s) - 1] == s[first_nul(s)]);
        }
    }
}

/// The least index holding a NUL, or the length where none does, is exactly
/// `first_nul`.
pub proof fn lemma_first_nul_at(s: Seq<u8>, i: int)
    requires
        0 <= i <= s.len(),
        forall|j: int| 0 <= j < i ==> s[j] != 0,
        i < s.len() ==> s[i] == 0,
    ensures
        first_nul(s) == i,
{
    lemma_first_nul(s);
}

/// The 4-byte type tag of the international text chunk, "iTXt".
pub open spec fn spec_itxt_tag() -> Seq<u8> {
    seq![0x69u8, 0x54u8, 0x58u8, 0x74u8]
}

/// One iTXt payload assembled from its wire-level fields: the three strings
/// NUL-terminated, the flag and method bytes between keyword and language
/// tag, and the message bytes last, never terminated.
pub open spec fn spec_itxt_payload(
    key: Seq<u8>,
    compressed: bool,
    langtag: Seq<u8>,
    transkey: Seq<u8>,
    data: Seq<u8>,
) -> Seq<u8> {
    key + seq![0u8] + seq![
        if compressed {
            1u8
        } else {
            0u8
        },
    ] + seq![0u8] + langtag + seq![0u8] + transkey + seq![0u8] + data
}

/// The wire-level fields of one iTXt payload, before any string conversion
/// or decompression.
pub struct ItxtRaw {
    /// The keyword bytes, up to the first NUL.
    pub key: Seq<u8>,
    /// Whether the flag byte after the keyword's NUL was nonzero.
    pub compressed: bool,
    /// The language-tag bytes.
    pub langtag: Seq<u8>,
    /// The translated-keyword bytes.
    pub transkey: Seq<u8>,
    /// The remaining message bytes, still compressed when `compressed`.
    pub data: Seq<u8>,
}

/// The parse of an iTXt payload: splits at the three NUL terminators, checks
/// the keyword length, the method byte and (via `inflate_of`) the compressed
/// message, in exactly the order the decoder tests them.
pub open spec fn spec_itxt_parse(p: Seq<u8>) -> Result<ItxtRaw, DecodeError> {
    let k = first_nul(p);
    if k == p.len() {
        Err(DecodeError::Truncated)
    } else if k == 0 || k > 79 {
        Err(DecodeError::TextSize(k as usize))
    } else if p.len() < k + 3 {
        Err(DecodeError::Truncated)
    } else if p[k + 2] != 0 {
        Err(DecodeError::UnsupportedCompressionMethod)
    } else {
        let rest1 = p.skip(k + 3);
        let l = first_nul(rest1);
        if l == rest1.len() {
            Err(DecodeError::Truncated)
        } else {
            let rest2 = rest1.skip(l + 1);
            let t = first_nul(rest2);
            if t == rest2.len() {
                Err(DecodeError::Truncated)
            } else {
                let raw = ItxtRaw {
                    key: p.subrange(0, k),
                    compressed: p[k + 1] != 0,
                    langtag: rest1.subrange(0, l),
                    transkey: rest2.subrange(0, t),
                    data: rest2.skip(t + 1),
                };
                if raw.compressed && inflate_of(raw.data) is None {
                    Err(DecodeError::CompressionFailure)
                } else {
                    Ok(raw)
                }
            }
        }
    }
}

/// The decompressed message bytes of a parsed payload: `inflate_of` the wire
/// bytes where compressed, the wire bytes themselves otherwise.
pub open spec fn spec_itxt_message(raw: ItxtRaw) -> Seq<u8> {
    if raw.compressed {
        inflate_of(raw.data).unwrap()
    } else {
        raw.data
    }
}

/// How a decoded `InternationalText` value relates to the wire-level fields:
/// each string is the lossy UTF-8 decode of its bytes (the exact decode on
/// valid UTF-8), and the message was decompressed first where compressed.
pub open spec fn spec_itxt_decodes(raw: ItxtRaw, v: InternationalText) -> bool {
    &&& v.key@ == lossy_utf8_of(raw.key)
    &&& (valid_utf8(raw.key) ==> v.key@ == decode_utf8(raw.key))
    &&& v.compressed == raw.compressed
    &&& v.langtag@ == lossy_utf8_of(raw.langtag)
    &&& (valid_utf8(raw.langtag) ==> v.langtag@ == decode_utf8(raw.langtag))
    &&& v.transkey@ == lossy_utf8_of(raw.transkey)
    &&& (valid_utf8(raw.transkey) ==> v.transkey@ == decode_utf8(raw.transkey))
    &&& v.val@ == lossy_utf8_of(spec_itxt_message(raw))
    &&& (valid_utf8(spec_itxt_message(raw)) ==> v.val@ == decode_utf8(spec_itxt_message(raw)))
}

/// What `String::from_utf8_lossy` returns: a pure function of the bytes.
pub uninterp spec fn lossy_utf8_of(bytes: Seq<u8>) -> Seq<char>;

/// Relies on String::from_utf8_lossy: a deterministic pure function of the
/// bytes that, on valid UTF-8, returns exactly the decoded string.
#[verifier::external_body]
fn utf8_lossy(bytes: &[u8]) -> (r: String)
    ensures
        r@ == lossy_utf8_of(bytes@),
        valid_utf8(bytes@) ==> r@ == decode_utf8(bytes@),
{
    String::from_utf8_lossy(bytes).into_owned()
}

/// Scans for the first NUL byte at or after `from`; returns the slice length
/// where none occurs.
fn find_nul(s: &[u8], from: usize) -> (r: usize)
    requires
        from <= s@.len(),
    ensures
        from <= r <= s@.len(),
        forall|j: int| from <= j < r ==> s@[j] != 0,
        r < s@.len() ==> s@[r as int] == 0,
{
    let n: usize = s.len();
    let mut i: usize = from;
    while i < n
        invariant
            from <= i <= n,
            n == s@.len(),
            forall|j: int| from <= j < i ==> s@[j] != 0,
        decreases n - i,
    {
        if s[i] == 0 {
            return i;
        }
        i = i + 1;
    }
    i
}

/// Round trip of the payload layout: a payload assembled from NUL-free
/// strings, the keyword 1 to 79 bytes long, parses back to exactly those
/// fields, provided a compressed message decompresses at all.
pub proof fn lemma_itxt_payload_round_trip(
    key: Seq<u8>,
    compressed: bool,
    langtag: Seq<u8>,
    transkey: Seq<u8>,
    data: Seq<u8>,
)
    requires
        1 <= key.len() <= 79,
        forall|j: int| 0 <= j < key.len() ==> key[j] != 0,
        forall|j: int| 0 <= j < langtag.len() ==> langtag[j] != 0,
        forall|j: int| 0 <= j < transkey.len() ==> transkey[j] != 0,
    ensures
        (compressed ==> inflate_of(data) is Some) ==> spec_itxt_parse(
            spec_itxt_payload(key, compressed, langtag, transkey, data),
        ) == Ok::<ItxtRaw, DecodeError>(ItxtRaw { key, compressed, langtag, transkey, data }),
{
    let p = spec_itxt_payload(key, compressed, langtag, transkey, data);
    let k = key.len() as int;
    let l = langtag.len() as int;
    let t = transkey.len() as int;
    let flag: u8 = if compressed {
        1u8
    } else {
        0u8
    };
    assert(p.len() == k + l + t + 5 + data.len());
    assert(forall|j: int| 0 <= j < k ==> p[j] == key[j]);
    assert(p[k] == 0 && p[k + 1] == flag && p[k + 2] == 0);
    lemma_first_nul_at(p, k);
    let rest1 = p.skip(k + 3);
    assert(rest1 =~= langtag + seq![0u8] + transkey + seq![0u8] + data);
    assert(forall|j: int| 0 <= j < l ==> rest1[j] == langtag[j]);
    assert(rest1[l] == 0);
    lemma_first_nul_at(rest1, l);
    let rest2 = rest1.skip(l + 1);
    assert(rest2 =~= transkey + seq![0u8] + data);
    assert(forall|j: int| 0 <= j < t ==> rest2[j] == transkey[j]);
    assert(rest2[t] == 0);
    lemma_first_nul_at(rest2, t);
    assert(p.subrange(0, k) =~= key);
    assert(rest1.subrange(0, l) =~= langtag);
    assert(rest2.subrange(0, t) =~= transkey);
    assert(rest2.skip(t + 1) =~= data);
    assert((p[k + 1] != 0) == compressed);
}

/// Round trip: for a value whose strings hold no NUL byte and whose keyword
/// encodes to 1 to 79 bytes, the chunk that `write` emits validates (framing
/// and CRC check), its payload parses back to the same wire fields, and any
/// value decoded from those fields restores every field — provided the
/// payload fits the length ceiling (which `write` checks) and a compressed
/// message decompresses to the message bytes (which `write` guarantees).
pub proof fn lemma_itxt_round_trip(v: InternationalText, level: u8)
    requires
        1 <= encode_utf8(v.key@).len() <= 79,
        forall|j: int| 0 <= j < encode_utf8(v.key@).len() ==> encode_utf8(v.key@)[j] != 0,
        forall|j: int| 0 <= j < encode_utf8(v.langtag@).len() ==> encode_utf8(v.langtag@)[j] != 0,
        forall|j: int|
            0 <= j < encode_utf8(v.transkey@).len() ==> encode_utf8(v.transkey@)[j] != 0,
    ensures
        ({
            let payload = spec_itxt_wire_payload(v, level);
            let f = spec_frame(spec_itxt_tag(), payload);
            (payload.len() <= 0x80000000 && (v.compressed ==> inflate_of(
                spec_itxt_wire_message(v, level),
            ) == Some(encode_utf8(v.val@)))) ==> {
                &&& spec_chunk_data_ok(f)
                &&& spec_check_crc(f)
                &&& f.subrange(8, 8 + payload.len() as int) == payload
                &&& spec_itxt_parse(payload) matches Ok(raw) && spec_itxt_message(raw)
                    == encode_utf8(v.val@) && (forall|w: InternationalText|
                    spec_itxt_decodes(raw, w) ==> w.key@ == v.key@ && w.langtag@ == v.langtag@
                        && w.transkey@ == v.transkey@ && w.val@ == v.val@ && w.compressed
                        == v.compressed)
            }
        }),
{
    broadcast use vstd::utf8::encode_utf8_valid_utf8;
    broadcast use vstd::utf8::encode_utf8_decode_utf8;

    let payload = spec_itxt_wire_payload(v, level);
    let msg = spec_itxt_wire_message(v, level);
    if payload.len() <= 0x80000000 && (v.compressed ==> inflate_of(msg) == Some(
        encode_utf8(v.val@),
    )) {
        crate::chunks::lemma_frame_valid(spec_itxt_tag(), payload);
        lemma_itxt_payload_round_trip(
            encode_utf8(v.key@),
            v.compressed,
            encode_utf8(v.langtag@),
            encode_utf8(v.transkey@),
            msg,
        );
        let raw = spec_itxt_parse(payload)->Ok_0;
        assert(spec_itxt_message(raw) == encode_utf8(v.val@));
        assert forall|w: InternationalText| spec_itxt_decodes(raw, w) implies w.key@ == v.key@
            && w.langtag@ == v.langtag@ && w.transkey@ == v.transkey@ && w.val@ == v.val@
            && w.compressed == v.compressed by {
            assert(valid_utf8(raw.key) && w.key@ == decode_utf8(raw.key));
            assert(valid_utf8(raw.langtag) && w.langtag@ == decode_utf8(raw.langtag));
            assert(valid_utf8(raw.transkey) && w.transkey@ == decode_utf8(raw.transkey));
            assert(valid_utf8(spec_itxt_message(raw)) && w.val@ == decode_utf8(
                spec_itxt_message(raw),
            ));
        }
    }
}

/// The message bytes of `v` as they go on the wire: the UTF-8 bytes of the
/// message, compressed at `level` where `v.compressed`.
pub open spec fn spec_itxt_wire_message(v: InternationalText, level: u8) -> Seq<u8> {
    if v.compressed {
        deflate_of(encode_utf8(v.val@), level)
    } else {
        encode_utf8(v.val@)
    }
}

/// The whole wire payload that serializing `v` at `level` produces.
pub open spec fn spec_itxt_wire_payload(v: InternationalText, level: u8) -> Seq<u8> {
    spec_itxt_payload(
        encode_utf8(v.key@),
        v.compressed,
        encode_utf8(v.langtag@),
        encode_utf8(v.transkey@),
        spec_itxt_wire_message(v, level),
    )
}

impl InternationalText {
    /// Decodes one iTXt chunk payload: keyword, flag and method bytes,
    /// language tag, translated keyword, and the (possibly compressed)
    /// message, each failure reported as its own error.
    pub fn parse(payload: &[u8]) -> (r: Result<InternationalText, DecodeError>)
        ensures
            match r {
                Ok(v) => spec_itxt_parse(payload@) matches Ok(raw) && spec_itxt_decodes(raw, v),
                Err(e) => spec_itxt_parse(payload@) == Err::<ItxtRaw, DecodeError>(e),
            },
    {
        let n: usize = payload.len();
        let k: usize = find_nul(payload, 0);
        proof {
            lemma_first_nul_at(payload@, k as int);
        }
        if k == n {
            return Err(DecodeError::Truncated);
        }
        if k == 0 || k > 79 {
            return Err(DecodeError::TextSize(k));
        }
        if n < k + 3 {
            return Err(DecodeError::Truncated);
        }
        let compressed: bool = payload[k + 1] != 0;
        if payload[k + 2] != 0 {
            return Err(DecodeError::UnsupportedCompressionMethod);
        }
        let l_end: usize = find_nul(payload, k + 3);
        let ghost rest1 = payload@.skip(k + 3);
        proof {
            assert forall|j: int| 0 <= j < l_end - (k + 3) implies rest1[j] != 0 by {
                assert(rest1[j] == payload@[j + k + 3]);
            }
            if (l_end as int) < n {
                assert(rest1[l_end - (k + 3)] == payload@[l_end as int]);
            }
            lemma_first_nul_at(rest1, l_end - (k + 3));
        }
        if l_end == n {
            return Err(DecodeError::Truncated);
        }
        let t_end: usize = find_nul(payload, l_end + 1);
        let ghost rest2 = payload@.skip(l_end + 1);
        proof {
            assert(rest1.skip((l_end - (k + 3)) + 1) =~= rest2);
            assert forall|j: int| 0 <= j < t_end - (l_end + 1) implies rest2[j] != 0 by {
                assert(rest2[j] == payload@[j + l_end + 1]);
            }
            if (t_end as int) < n {
                assert(rest2[t_end - (l_end + 1)] == payload@[t_end as int]);
            }
            lemma_first_nul_at(rest2, t_end - (l_end + 1));
        }
        if t_end == n {
            return Err(DecodeError::Truncated);
        }
        let key_b: &[u8] = slice_subrange(payload, 0, k);
        let lang_b: &[u8] = slice_subrange(payload, k + 3, l_end);
        let trans_b: &[u8] = slice_subrange(payload, l_end + 1, t_end);
        let data_b: &[u8] = slice_subrange(payload, t_end + 1, n);
        let ghost raw = spec_itxt_parse(payload@)->Ok_0;
        proof {
            assert(lang_b@ =~= rest1.subrange(0, l_end - (k + 3)));
            assert(trans_b@ =~= rest2.subrange(0, t_end - (l_end + 1)));
            assert(data_b@ =~= rest2.skip((t_end - (l_end + 1)) + 1));
        }
        let val: String;
        if compressed {
            match decompress(data_b) {
                Some(decompressed) => {
                    val = utf8_lossy(decompressed.as_slice());
                },
                None => {
                    return Err(DecodeError::CompressionFailure);
                },
            }
        } else {
            val = utf8_lossy(data_b);
        }
        Ok(
            InternationalText {
                key: utf8_lossy(key_b),
                langtag: utf8_lossy(lang_b),
                transkey: utf8_lossy(trans_b),
                val,
                compressed,
            },
        )
    }

    /// Decodes one complete framed chunk record as an iTXt chunk: validates
    /// the framing (declared length against the ceiling and the buffer),
    /// verifies the checksum, then parses the payload. Framing and checksum
    /// failures are fatal and come before any payload error.
    pub fn parse_chunk(chunk: &[u8]) -> (r: Result<InternationalText, DecodeError>)
        ensures
            match r {
                Ok(v) => chunk@.len() >= 4 && spec_chunk_data_ok(chunk@) && spec_check_crc(chunk@)
                    && (spec_itxt_parse(
                    chunk@.subrange(8, 8 + spec_chunk_length(chunk@) as int),
                ) matches Ok(raw) && spec_itxt_decodes(raw, v)),
                Err(e) => {
                    if chunk@.len() < 4 {
                        e == DecodeError::Truncated
                    } else if !spec_chunk_data_ok(chunk@) {
                        (e == DecodeError::ChunkTooLarge <==> spec_chunk_length(chunk@)
                            > 0x80000000) && (e == DecodeError::Truncated <==> spec_chunk_length(
                            chunk@,
                        ) <= 0x80000000)
                    } else if !spec_check_crc(chunk@) {
                        e == DecodeError::ChecksumMismatch
                    } else {
                        spec_itxt_parse(chunk@.subrange(8, 8 + spec_chunk_length(chunk@) as int))
                            == Err::<ItxtRaw, DecodeError>(e)
                    }
                },
            },
    {
        if chunk.len() < 4 {
            return Err(DecodeError::Truncated);
        }
        let data: &[u8] = match lodepng_chunk_data(chunk) {
            Ok(d) => d,
            Err(e) => {
                return Err(e);
            },
        };
        if !lodepng_chunk_check_crc(chunk) {
            return Err(DecodeError::ChecksumMismatch);
        }
        InternationalText::parse(data)
    }

    /// Serializes the record as one complete framed chunk: length, "iTXt"
    /// tag, the payload with the keyword checked to 1..=79 bytes and the
    /// message compressed where asked, and the trailing CRC-32.
    #[verifier::rlimit(100)]
    pub fn write(&self, level: u8) -> (r: Result<Vec<u8>, EncodeError>)
        ensures
            match r {
                Ok(bytes) => {
                    &&& 1 <= encode_utf8(self.key@).len() <= 79
                    &&& spec_itxt_wire_payload(*self, level).len() <= 0x80000000
                    &&& bytes@ == spec_frame(spec_itxt_tag(), spec_itxt_wire_payload(*self, level))
                    &&& (self.compressed ==> inflate_of(spec_itxt_wire_message(*self, level))
                        == Some(encode_utf8(self.val@)))
                },
                Err(e) => match e {
                    EncodeError::TextSize(sz) => sz == encode_utf8(self.key@).len() && !(1 <= sz
                        <= 79),
                    EncodeError::ChunkTooLarge => 1 <= encode_utf8(self.key@).len() <= 79
                        && spec_itxt_wire_payload(*self, level).len() > 0x80000000,
                },
            },
    {
        let key_b: &[u8] = self.key.as_str().as_bytes();
        let k_len: usize = key_b.len();
        if k_len < 1 || k_len > 79 {
            return Err(EncodeError::TextSize(k_len));
        }
        let val_b: &[u8] = self.val.as_str().as_bytes();
        let msg: Vec<u8> = if self.compressed {
            compress(val_b, level)
        } else {
            slice_to_vec(val_b)
        };
        let lang_b: &[u8] = self.langtag.as_str().as_bytes();
        let trans_b: &[u8] = self.transkey.as_str().as_bytes();
        let limit: usize = 0x80000000;
        let mut total: usize = k_len + 5;
        if lang_b.len() > limit - total {
            return Err(EncodeError::ChunkTooLarge);
        }
        total = total + lang_b.len();
        if trans_b.len() > limit - total {
            return Err(EncodeError::ChunkTooLarge);
        }
        total = total + trans_b.len();
        if msg.len() > limit - total {
            return Err(EncodeError::ChunkTooLarge);
        }
        total = total + msg.len();
        let mut out: Vec<u8> = Vec::new();
        push_be32(&mut out, total as u32);
        out.push(0x69);
        out.push(0x54);
        out.push(0x58);
        out.push(0x74);
        out.extend_from_slice(key_b);
        out.push(0);
        out.push(
            if self.compressed {
                1
            } else {
                0
            },
        );
        out.push(0);
        out.extend_from_slice(lang_b);
        out.push(0);
        out.extend_from_slice(trans_b);
        out.push(0);
        out.extend_from_slice(msg.as_slice());
        let ghost payload = spec_itxt_wire_payload(*self, level);
        proof {
            assert(payload.len() == total);
            assert(out@.subrange(4, out@.len() as int) =~= spec_itxt_tag() + payload);
        }
        let type_and_payload: &[u8] = slice_subrange(out.as_slice(), 4, out.len());
        let crc: u32 = crc32(type_and_payload);
        push_be32(&mut out, crc);
        proof {
            assert(out@ =~= spec_frame(spec_itxt_tag(), payload));
        }
        Ok(out)
    }
}

} // verus!
