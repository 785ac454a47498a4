//! Stream parser: walks a complete byte buffer as consecutive chunk
//! records, validating each record's framing and checksum. Any framing or
//! checksum failure is fatal for the whole stream, since length fields
//! cannot be trusted once one is wrong.

use vstd::prelude::*;
use vstd::slice::slice_subrange;
use vstd::slice::slice_to_vec;
use crate::chunks::lodepng_chunk_check_crc;
use crate::chunks::lodepng_chunk_data;
use crate::chunks::lodepng_chunk_length;
use crate::chunks::spec_check_crc;
use crate::chunks::spec_chunk_length;
use crate::errors::DecodeError;

verus! {

/// The parse of a whole chunk stream: the sequence of complete, validated
/// records, or the first framing or checksum error met. Success requires
/// the buffer to end exactly at a record boundary.
pub open spec fn spec_parse_stream(s: Seq<u8>) -> Result<Seq<Seq<u8>>, DecodeError>
    decreases s.len(),
{
    if s.len() == 0 {
        Ok(Seq::empty())
    } else if s.len() < 4 {
        Err(DecodeError::Truncated)
    } else if spec_chunk_length(s) > 0x80000000 {
        Err(DecodeError::ChunkTooLarge)
    } else if s.len() < spec_chunk_length(s) + 12 {
        Err(DecodeError::Truncated)
    } else if !spec_check_crc(s) {
        Err(DecodeError::ChecksumMismatch)
    } else {
        let total = spec_chunk_length(s) as int + 12;
        match spec_parse_stream(s.skip(total)) {
            Ok(tail) => Ok(seq![s.subrange(0, total)] + tail),
            Err(e) => Err(e),
        }
    }
}

/// Walks the buffer from its start, returning every complete, validated
/// chunk record in order, or the first framing or checksum error.
pub fn parse_chunk_stream(buffer: &[u8]) -> (r: Result<Vec<Vec<u8>>, DecodeError>)
    ensures
        match r {
            Ok(records) => spec_parse_stream(buffer@) == Ok::<Seq<Seq<u8>>, DecodeError>(
                records.deep_view(),
            ),
            Err(e) => spec_parse_stream(buffer@) == Err::<Seq<Seq<u8>>, DecodeError>(e),
        },
{
    let n: usize = buffer.len();
    let mut records: Vec<Vec<u8>> = Vec::new();
    let mut pos: usize = 0;
    proof {
        assert(buffer@.skip(0) =~= buffer@);
        assert(records.deep_view() =~~= Seq::<Seq<u8>>::empty());
        if spec_parse_stream(buffer@) is Ok {
            assert(records.deep_view() + spec_parse_stream(buffer@)->Ok_0 =~~= spec_parse_stream(
                buffer@,
            )->Ok_0);
        }
    }
    while pos < n
        invariant
            pos <= n,
            n == buffer@.len(),
            ({
                let whole = spec_parse_stream(buffer@);
                match spec_parse_stream(buffer@.skip(pos as int)) {
                    Ok(tail) => whole == Ok::<Seq<Seq<u8>>, DecodeError>(
                        records.deep_view() + tail,
                    ),
                    Err(e) => whole == Err::<Seq<Seq<u8>>, DecodeError>(e),
                }
            }),
        decreases n - pos,
    {
        let ghost rest = buffer@.skip(pos as int);
        let rest_slice: &[u8] = slice_subrange(buffer, pos, n);
        if n - pos < 4 {
            return Err(DecodeError::Truncated);
        }
        match lodepng_chunk_data(rest_slice) {
            Ok(_) => {},
            Err(e) => {
                return Err(e);
            },
        }
        if !lodepng_chunk_check_crc(rest_slice) {
            return Err(DecodeError::ChecksumMismatch);
        }
        let total: usize = lodepng_chunk_length(rest_slice) + 12;
        let record: Vec<u8> = slice_to_vec(slice_subrange(rest_slice, 0, total));
        let ghost old_records = records.deep_view();
        records.push(record);
        proof {
            assert(records.deep_view() =~~= old_records.push(rest.subrange(0, total as int)));
            assert(buffer@.skip(pos + total as int) =~= rest.skip(total as int));
            if spec_parse_stream(rest.skip(total as int)) is Ok {
                let tail = spec_parse_stream(rest.skip(total as int))->Ok_0;
                assert(spec_parse_stream(rest) == Ok::<Seq<Seq<u8>>, DecodeError>(
                    seq![rest.subrange(0, total as int)] + tail,
                ));
                assert(old_records + (seq![rest.subrange(0, total as int)] + tail)
                    =~~= records.deep_view() + tail);
            }
        }
        pos = pos + total;
    }
    proof {
        assert(buffer@.skip(pos as int) =~= Seq::<u8>::empty());
        assert(records.deep_view() + Seq::<Seq<u8>>::empty() =~~= records.deep_view());
    }
    Ok(records)
}

} // verus!
