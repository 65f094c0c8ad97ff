//! Strict indexing of the replication packet stream.
use std::collections::BTreeSet;

use super::summary::{
    chunks_at, distinct_indices, lemma_sorted_chunks_ignore_order, same_chunks, sorted_chunk_order, sorted_chunks,
};
use super::types::DecodeError;
use crate::clients::hi::film::{le_value, lemma_le_bound, read_le, FilmPacket};
use crate::clients::hi::models::FilmChunkData;
use vstd::prelude::*;

verus! {

/// The first chunk index, in input order, that an earlier chunk (or `seen`) already has.
pub open spec fn first_duplicate(chunks: Seq<FilmChunkData>, seen: Set<i32>) -> Option<i32>
    decreases chunks.len(),
{
    if chunks.len() == 0 {
        None
    } else if seen.contains(chunks[0].metadata.index) {
        Some(chunks[0].metadata.index)
    } else {
        first_duplicate(chunks.drop_first(), seen.insert(chunks[0].metadata.index))
    }
}

/// The packet whose header starts at byte `off` of chunk `index`.
pub open spec fn strict_packet_at(data: Seq<u8>, index: i32, off: int) -> FilmPacket {
    FilmPacket {
        chunk_index: index,
        packet_type: le_value(data, off, 2) as u16,
        byte_2: data[off + 2],
        byte_3: data[off + 3],
        payload_offset: (off + 16) as usize,
        payload_size: le_value(data, off + 4, 4) as usize,
        timestamp_us: le_value(data, off + 8, 8) as u64,
    }
}

/// Packets of a chunk from byte `off` on; an incomplete header or payload is a
/// truncation error at that packet's offset.
pub open spec fn strict_packets(data: Seq<u8>, index: i32, off: int) -> Result<Seq<FilmPacket>, DecodeError>
    decreases data.len() - off,
{
    if off < 0 || off >= data.len() {
        Ok(seq![])
    } else if off + 16 > data.len() || off + 16 + le_value(data, off + 4, 4) > data.len() {
        Err(DecodeError::Truncated { chunk: index, offset: off as usize })
    } else {
        match strict_packets(data, index, off + 16 + le_value(data, off + 4, 4)) {
            Ok(rest) => Ok(seq![strict_packet_at(data, index, off)] + rest),
            Err(e) => Err(e),
        }
    }
}

/// Packets of the given chunks in order, or the first error.
pub open spec fn packets_of(chunks: Seq<FilmChunkData>) -> Result<Seq<FilmPacket>, DecodeError>
    decreases chunks.len(),
{
    if chunks.len() == 0 {
        Ok(seq![])
    } else {
        match strict_packets(chunks[0].data@, chunks[0].metadata.index, 0) {
            Err(e) => Err(e),
            Ok(first) => match packets_of(chunks.drop_first()) {
                Err(e) => Err(e),
                Ok(rest) => Ok(first + rest),
            },
        }
    }
}

/// The strict packet index: chunk indices must be distinct; replication chunks
/// (manifest type 2) are read in chunk-index order; an empty result is missing data.
pub open spec fn index_spec(chunks: Seq<FilmChunkData>) -> Result<Seq<FilmPacket>, DecodeError> {
    match first_duplicate(chunks, Set::empty()) {
        Some(i) => Err(DecodeError::DuplicateChunk(i)),
        None => match packets_of(sorted_chunks(chunks, 2)) {
            Err(e) => Err(e),
            Ok(p) => if p.len() == 0 {
                Err(DecodeError::Missing("replication packets"))
            } else {
                Ok(p)
            },
        },
    }
}

/// Appends the packets of one replication chunk.
fn push_strict_packets(data: &[u8], id: i32, result: &mut Vec<FilmPacket>) -> (r: Result<(), DecodeError>)
    ensures
        match strict_packets(data@, id, 0) {
            Ok(all) => r is Ok && final(result)@ == old(result)@ + all,
            Err(e) => r matches Err(x) && x == e,
        },
{
    let ghost base = result@;
    let len = data.len();
    let mut offset: usize = 0;
    proof {
        assert(base + Seq::<FilmPacket>::empty() =~= base);
    }
    while offset < len
        invariant
            len == data@.len(),
            offset <= len,
            base == old(result)@,
            match strict_packets(data@, id, 0) {
                Ok(all) => strict_packets(data@, id, offset as int) matches Ok(tail) && result@ + tail == base + all,
                Err(e) => strict_packets(data@, id, offset as int) == Err::<Seq<FilmPacket>, DecodeError>(e),
            },
        decreases len - offset,
    {
        if len - offset < 16 {
            return Err(DecodeError::Truncated { chunk: id, offset });
        }
        proof {
            lemma_le_bound(data@, offset + 4, 4);
            lemma_le_bound(data@, offset as int, 2);
            lemma_le_bound(data@, offset + 8, 8);
            vstd::arithmetic::power2::lemma2_to64();
        }
        let size = read_le(data, offset + 4, 4) as usize;
        let stamp = read_le(data, offset + 8, 8);
        let payload = offset + 16;
        let end = match payload.checked_add(size) {
            Some(e) => e,
            None => return Err(DecodeError::Truncated { chunk: id, offset }),
        };
        if end > len {
            return Err(DecodeError::Truncated { chunk: id, offset });
        }
        let packet = FilmPacket {
            chunk_index: id,
            packet_type: read_le(data, offset, 2) as u16,
            byte_2: data[offset + 2],
            byte_3: data[offset + 3],
            payload_offset: payload,
            payload_size: size,
            timestamp_us: stamp,
        };
        let ghost prev = result@;
        result.push(packet);
        proof {
            assert(packet == strict_packet_at(data@, id, offset as int));
            match strict_packets(data@, id, end as int) {
                Ok(tail) => {
                    assert(prev + (seq![packet] + tail) =~= result@ + tail);
                },
                Err(_) => {},
            }
        }
        offset = end;
    }
    proof {
        match strict_packets(data@, id, 0) {
            Ok(all) => {
                assert(result@ + Seq::<FilmPacket>::empty() =~= result@);
            },
            Err(_) => {},
        }
    }
    Ok(())
}

/// Indexes every replication packet, rejecting duplicate chunks and truncated packets.
pub fn index(chunks: &[FilmChunkData]) -> (r: Result<Vec<FilmPacket>, DecodeError>)
    ensures
        match index_spec(chunks@) {
            Ok(p) => r matches Ok(v) && v@ == p,
            Err(e) => r matches Err(x) && x == e,
        },
{
    let mut ids: BTreeSet<i32> = BTreeSet::new();
    let mut c: usize = 0;
    proof {
        assert(chunks@.subrange(0, chunks@.len() as int) =~= chunks@);
    }
    while c < chunks.len()
        invariant
            c <= chunks@.len(),
            first_duplicate(chunks@, Set::empty()) == first_duplicate(
                chunks@.subrange(c as int, chunks@.len() as int),
                ids@,
            ),
        decreases chunks@.len() - c,
    {
        let id = chunks[c].metadata.index;
        proof {
            let rest = chunks@.subrange(c as int, chunks@.len() as int);
            assert(rest[0] == chunks@[c as int]);
            assert(rest.drop_first() =~= chunks@.subrange(c + 1, chunks@.len() as int));
        }
        if !ids.insert(id) {
            return Err(DecodeError::DuplicateChunk(id));
        }
        c += 1;
    }
    let order = sorted_chunk_order(chunks, 2);
    let ghost sorted = sorted_chunks(chunks@, 2);
    let mut result: Vec<FilmPacket> = Vec::new();
    let mut i: usize = 0;
    proof {
        assert(sorted.subrange(0, sorted.len() as int) =~= sorted);
        match packets_of(sorted) {
            Ok(p) => {
                assert(result@ + p =~= p);
            },
            Err(_) => {},
        }
    }
    while i < order.len()
        invariant
            i <= order@.len(),
            forall|k: int| 0 <= k < order@.len() ==> #[trigger] order@[k] < chunks@.len(),
            chunks_at(chunks@, order@) == sorted,
            sorted == sorted_chunks(chunks@, 2),
            first_duplicate(chunks@, Set::empty()) is None,
            packets_of(sorted) == match packets_of(sorted.subrange(i as int, sorted.len() as int)) {
                Ok(rest) => Ok(result@ + rest),
                Err(e) => Err(e),
            },
        decreases order@.len() - i,
    {
        let chunk = &chunks[order[i]];
        let ghost rest = sorted.subrange(i as int, sorted.len() as int);
        let ghost base = result@;
        proof {
            assert(rest[0] == chunks@[order@[i as int] as int]);
            assert(rest.drop_first() =~= sorted.subrange(i + 1, sorted.len() as int));
        }
        match push_strict_packets(chunk.data.as_slice(), chunk.metadata.index, &mut result) {
            Ok(()) => {},
            Err(e) => return Err(e),
        }
        proof {
            let first = strict_packets(chunk.data@, chunk.metadata.index, 0)->Ok_0;
            assert(result@ == base + first);
            match packets_of(rest.drop_first()) {
                Ok(more) => {
                    assert(packets_of(rest) == Ok::<Seq<FilmPacket>, DecodeError>(first + more));
                    assert(base + (first + more) =~= result@ + more);
                },
                Err(e) => {
                    assert(packets_of(rest) == Err::<Seq<FilmPacket>, DecodeError>(e));
                },
            }
        }
        i += 1;
    }
    if result.len() == 0 {
        return Err(DecodeError::Missing("replication packets"));
    }
    proof {
        assert(sorted.subrange(i as int, sorted.len() as int).len() == 0);
        assert(result@ + Seq::<FilmPacket>::empty() =~= result@);
    }
    Ok(result)
}

proof fn lemma_first_duplicate_none(s: Seq<FilmChunkData>, seen: Set<i32>)
    requires
        distinct_indices(s),
        forall|k: int| 0 <= k < s.len() ==> !seen.contains(#[trigger] s[k].metadata.index),
    ensures
        first_duplicate(s, seen) is None,
    decreases s.len(),
{
    if s.len() > 0 {
        let t = s.drop_first();
        assert forall|i: int, j: int| 0 <= i < j < t.len() implies (#[trigger] t[i]).metadata.index != (#[trigger] t[j]).metadata.index by {
            assert(t[i] == s[i + 1] && t[j] == s[j + 1]);
        }
        assert forall|k: int| 0 <= k < t.len() implies !seen.insert(s[0].metadata.index).contains(#[trigger] t[k].metadata.index) by {
            assert(t[k] == s[k + 1]);
            assert(s[0].metadata.index != s[k + 1].metadata.index);
        }
        lemma_first_duplicate_none(t, seen.insert(s[0].metadata.index));
    }
}

/// The packet index depends only on which chunks are listed, with distinct manifest
/// indices, not on their order.
pub proof fn lemma_index_ignores_order(a: Seq<FilmChunkData>, b: Seq<FilmChunkData>)
    requires
        same_chunks(a, b),
        distinct_indices(a),
        distinct_indices(b),
    ensures
        index_spec(a) == index_spec(b),
{
    lemma_first_duplicate_none(a, Set::empty());
    lemma_first_duplicate_none(b, Set::empty());
    lemma_sorted_chunks_ignore_order(a, b, 2);
}

} // verus!
