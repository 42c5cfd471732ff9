//! The bundle store: a bundle file is a framed header, a framed descriptor
//! listing chunk identifiers and sizes, a four-byte checksum this reader
//! skips without verifying, and a compressed payload holding the chunks'
//! bytes back to back in descriptor order.

use vstd::prelude::*;

use crate::errors::{ErrorKind, TfError};
use crate::messages::{
    check_header, parse_chunk_records, spec_check_header, spec_chunk_records, views_of_records,
    ChunkRecord, GChunkRecord,
};
use crate::wire::{read_framed_fields, spec_framed_fields};

verus! {

/// Width of the unverified checksum that follows a bundle's descriptor.
pub const CHECKSUM_BYTES: usize = 4;

/// What the decompression codec yields for a compressed stream: the
/// decompressed bytes, or nothing when the stream is corrupt. The stream
/// format is the codec's own affair; this reader relies only on the result
/// being a function of the compressed bytes.
pub uninterp spec fn decompressed_of(s: Seq<u8>) -> Option<Seq<u8>>;

/// Relies on lzma_rs::lzma_decompress: decoding an in-memory stream writes
/// the decompressed bytes, a function of the compressed bytes alone, and
/// reports corrupt input as an error.
#[verifier::external_body]
fn lzma_decompress_bytes(data: &[u8]) -> (r: Option<Vec<u8>>)
    ensures
        match r {
            Some(v) => decompressed_of(data@) == Some(v@),
            None => decompressed_of(data@) is None,
        },
{
    let mut input: &[u8] = data;
    let mut output: Vec<u8> = Vec::new();
    match lzma_rs::lzma_decompress(&mut input, &mut output) {
        Ok(()) => Some(output),
        Err(_) => None,
    }
}

/// Mathematical reading of a bundle file's header and descriptor: the
/// descriptor's records and the position after them.
pub open spec fn spec_bundle_records(s: Seq<u8>) -> Result<(Seq<GChunkRecord>, int), ErrorKind> {
    match spec_check_header(s) {
        Err(k) => Err(k),
        Ok(p1) => match spec_framed_fields(s, p1) {
            None => Err(ErrorKind::BundleCorrupt),
            Some((fs, p2)) => match spec_chunk_records(fs) {
                None => Err(ErrorKind::BundleCorrupt),
                Some(rs) => Ok((rs, p2)),
            },
        },
    }
}

/// The sum of the sizes a descriptor declares.
pub open spec fn spec_sum_sizes(rs: Seq<GChunkRecord>) -> nat
    decreases rs.len(),
{
    if rs.len() == 0 {
        0
    } else {
        (spec_sum_sizes(rs.drop_last()) + rs.last().size) as nat
    }
}

/// Where chunk `i`'s bytes start within the decompressed payload: the sum
/// of the sizes declared before it.
pub open spec fn spec_offset(rs: Seq<GChunkRecord>, i: int) -> nat {
    spec_sum_sizes(rs.take(i))
}

/// A prefix's size sum never exceeds the whole sum.
pub proof fn lemma_sum_sizes_take_le(rs: Seq<GChunkRecord>, i: int)
    requires
        0 <= i <= rs.len(),
    ensures
        spec_sum_sizes(rs.take(i)) <= spec_sum_sizes(rs),
    decreases rs.len() - i,
{
    if i == rs.len() {
        assert(rs.take(i) =~= rs);
    } else {
        assert(rs.take(i + 1).drop_last() =~= rs.take(i));
        lemma_sum_sizes_take_le(rs, i + 1);
    }
}

/// Each chunk's start advances by the previous chunk's size.
pub proof fn lemma_offset_step(rs: Seq<GChunkRecord>, i: int)
    requires
        0 <= i < rs.len(),
    ensures
        spec_offset(rs, i + 1) == spec_offset(rs, i) + rs[i].size,
{
    assert(rs.take(i + 1).drop_last() =~= rs.take(i));
}

/// The chunks a descriptor cuts out of a payload: chunk `i`'s identifier
/// paired with its declared slice of the payload.
pub open spec fn spec_split_chunks(rs: Seq<GChunkRecord>, payload: Seq<u8>) -> Seq<
    (Seq<u8>, Seq<u8>),
> {
    Seq::new(
        rs.len(),
        |i: int|
            (
                rs[i].id,
                payload.subrange(
                    spec_offset(rs, i) as int,
                    spec_offset(rs, i) + rs[i].size as int,
                ),
            ),
    )
}

/// Mathematical reading of a whole bundle file: every chunk it stores, in
/// descriptor order, or why it cannot be read.
pub open spec fn spec_read_bundle(s: Seq<u8>) -> Result<Seq<(Seq<u8>, Seq<u8>)>, ErrorKind> {
    match spec_bundle_records(s) {
        Err(k) => Err(k),
        Ok((rs, p)) => if p + CHECKSUM_BYTES > s.len() {
            Err(ErrorKind::BundleCorrupt)
        } else {
            match decompressed_of(s.subrange(p + CHECKSUM_BYTES, s.len() as int)) {
                None => Err(ErrorKind::CodecError),
                Some(payload) => if spec_sum_sizes(rs) > payload.len() {
                    Err(ErrorKind::ChunkSizeMismatch)
                } else {
                    Ok(spec_split_chunks(rs, payload))
                },
            }
        },
    }
}

/// The pairs of a sequence, each taken to its mathematical form.
pub open spec fn views_of_pairs(s: Seq<(Vec<u8>, Vec<u8>)>) -> Seq<(Seq<u8>, Seq<u8>)> {
    s.map_values(|p: (Vec<u8>, Vec<u8>)| (p.0@, p.1@))
}

/// Read a whole bundle file held in memory: check its header, decode its
/// descriptor, skip the checksum, decompress the payload and cut it into
/// the descriptor's chunks.
pub fn read_bundle(s: &[u8]) -> (r: Result<Vec<(Vec<u8>, Vec<u8>)>, TfError>)
    ensures
        match spec_read_bundle(s@) {
            Ok(chunks) => r is Ok && views_of_pairs(r->Ok_0@) == chunks,
            Err(k) => r is Err && r->Err_0.kind == k,
        },
{
    let p1 = match check_header(s) {
        Err(k) => {
            return Err(TfError::new(k, "bundle file header"));
        },
        Ok(p) => p,
    };
    let (fields, p2) = match read_framed_fields(s, p1) {
        None => {
            return Err(TfError::new(ErrorKind::BundleCorrupt, "bundle descriptor framing"));
        },
        Some(fp) => fp,
    };
    let records = match parse_chunk_records(&fields) {
        None => {
            return Err(TfError::new(ErrorKind::BundleCorrupt, "bundle descriptor records"));
        },
        Some(rs) => rs,
    };
    let n = s.len();
    if n - p2 < CHECKSUM_BYTES {
        return Err(TfError::new(ErrorKind::BundleCorrupt, "bundle checksum truncated"));
    }
    let compressed = vstd::slice::slice_subrange(s, p2 + CHECKSUM_BYTES, n);
    let payload = match lzma_decompress_bytes(compressed) {
        None => {
            return Err(TfError::new(ErrorKind::CodecError, "bundle payload decompression"));
        },
        Some(p) => p,
    };
    let ghost rsv = views_of_records(records@);
    let payload_len = payload.len();
    let mut out: Vec<(Vec<u8>, Vec<u8>)> = Vec::new();
    let mut offset: usize = 0;
    let count = records.len();
    let mut i: usize = 0;
    while i < count
        invariant
            i <= count,
            count == records@.len(),
            rsv == views_of_records(records@),
            payload_len == payload@.len(),
            spec_bundle_records(s@) == Ok::<_, ErrorKind>((rsv, p2 as int)),
            p2 + CHECKSUM_BYTES <= s@.len(),
            decompressed_of(s@.subrange(p2 as int + CHECKSUM_BYTES, s@.len() as int)) == Some(
                payload@,
            ),
            offset == spec_offset(rsv, i as int),
            offset <= payload_len,
            out@.len() == i,
            views_of_pairs(out@) =~= spec_split_chunks(rsv, payload@).take(i as int),
        decreases count - i,
    {
        let size = records[i].size;
        proof {
            assert(rsv[i as int] == records@[i as int]@);
            lemma_offset_step(rsv, i as int);
        }
        if size > (payload_len - offset) as u64 {
            proof {
                lemma_sum_sizes_take_le(rsv, i as int + 1);
                assert(spec_sum_sizes(rsv) >= spec_offset(rsv, i as int + 1));
                assert(spec_sum_sizes(rsv) > payload@.len());
                assert(spec_bundle_records(s@) == Ok::<_, ErrorKind>((rsv, p2 as int)));
                assert(spec_read_bundle(s@) == Err::<Seq<(Seq<u8>, Seq<u8>)>, ErrorKind>(
                    ErrorKind::ChunkSizeMismatch,
                ));
            }
            return Err(TfError::new(ErrorKind::ChunkSizeMismatch, "bundle payload too short"));
        }
        let end = offset + (size as usize);
        let chunk = crate::wire::clone_bytes(
            vstd::slice::slice_subrange(payload.as_slice(), offset, end),
        );
        let id = crate::wire::clone_bytes(records[i].id.as_slice());
        proof {
            assert(views_of_pairs(out@.push((id, chunk))) =~= views_of_pairs(out@).push(
                (id@, chunk@),
            ));
            assert(spec_split_chunks(rsv, payload@).take(i as int + 1) =~= spec_split_chunks(
                rsv,
                payload@,
            ).take(i as int).push(spec_split_chunks(rsv, payload@)[i as int]));
        }
        out.push((id, chunk));
        offset = end;
        i = i + 1;
    }
    proof {
        assert(spec_offset(rsv, count as int) == spec_sum_sizes(rsv)) by {
            assert(rsv.take(count as int) =~= rsv);
        }
        assert(spec_split_chunks(rsv, payload@).take(count as int) =~= spec_split_chunks(
            rsv,
            payload@,
        ));
    }
    Ok(out)
}

/// How long a run of byte strings is in all.
pub open spec fn spec_len_sum(ss: Seq<Seq<u8>>) -> nat
    decreases ss.len(),
{
    if ss.len() == 0 {
        0
    } else {
        spec_len_sum(ss.drop_last()) + ss.last().len()
    }
}

/// Concatenating a run of byte strings yields their total length.
pub proof fn lemma_flatten_len(ss: Seq<Seq<u8>>)
    ensures
        ss.flatten().len() == spec_len_sum(ss),
    decreases ss.len(),
{
    if ss.len() == 0 {
        assert(ss.flatten() =~= Seq::<u8>::empty());
    } else {
        lemma_flatten_len(ss.drop_last());
        assert(ss.drop_last().push(ss.last()) =~= ss);
        ss.drop_last().lemma_flatten_push(ss.last());
    }
}

/// Law: the concatenation of the chunks a bundle yields, in descriptor
/// order, has total length equal to the sum of the descriptor's declared
/// sizes.
pub proof fn lemma_bundle_chunks_total_len(s: Seq<u8>)
    requires
        spec_read_bundle(s) is Ok,
    ensures
        spec_read_bundle(s)->Ok_0.map_values(|c: (Seq<u8>, Seq<u8>)| c.1).flatten().len()
            == spec_sum_sizes(spec_bundle_records(s)->Ok_0.0),
{
    let rs = spec_bundle_records(s)->Ok_0.0;
    let chunks = spec_read_bundle(s)->Ok_0;
    let contents = chunks.map_values(|c: (Seq<u8>, Seq<u8>)| c.1);
    lemma_flatten_len(contents);
    lemma_len_sum_is_sum_sizes(rs, spec_read_bundle_payload(s), rs.len() as int);
    assert(rs.take(rs.len() as int) =~= rs);
    assert(contents =~= spec_split_chunks(rs, spec_read_bundle_payload(s)).map_values(
        |c: (Seq<u8>, Seq<u8>)| c.1,
    ).take(rs.len() as int));
}

/// The decompressed payload of a readable bundle.
pub open spec fn spec_read_bundle_payload(s: Seq<u8>) -> Seq<u8> {
    decompressed_of(
        s.subrange(spec_bundle_records(s)->Ok_0.1 + CHECKSUM_BYTES, s.len() as int),
    )->Some_0
}

/// The first `i` cut chunks together are as long as the first `i` declared
/// sizes together.
proof fn lemma_len_sum_is_sum_sizes(rs: Seq<GChunkRecord>, payload: Seq<u8>, i: int)
    requires
        0 <= i <= rs.len(),
        spec_sum_sizes(rs) <= payload.len(),
    ensures
        spec_len_sum(
            spec_split_chunks(rs, payload).map_values(|c: (Seq<u8>, Seq<u8>)| c.1).take(i),
        ) == spec_offset(rs, i),
    decreases i,
{
    let contents = spec_split_chunks(rs, payload).map_values(|c: (Seq<u8>, Seq<u8>)| c.1);
    if i > 0 {
        lemma_len_sum_is_sum_sizes(rs, payload, i - 1);
        lemma_offset_step(rs, i - 1);
        lemma_sum_sizes_take_le(rs, i);
        assert(contents.take(i).drop_last() =~= contents.take(i - 1));
        assert(contents.take(i).last() == contents[i - 1]);
        assert(contents[i - 1].len() == rs[i - 1].size);
    } else {
        assert(contents.take(0) =~= Seq::<Seq<u8>>::empty());
    }
}

} // verus!
