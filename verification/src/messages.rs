//! The structured records framed inside repository files: file headers,
//! bundle descriptors, index headers, backup descriptors and instructions.

use vstd::prelude::*;

use crate::wire::{
    last_bytes, last_varint, parse_fields, spec_fields, spec_last_bytes, spec_last_varint,
    views_of_fields, Field, GField,
};

verus! {

/// The one format version this reader accepts.
pub const SUPPORTED_VERSION: u64 = 1;

/// Mathematical reading of a file's framed header: the position after it,
/// or why it is unacceptable. Every top-level repository file begins with
/// one framed header whose version must be the supported one.
pub open spec fn spec_check_header(s: Seq<u8>) -> Result<int, crate::errors::ErrorKind> {
    match crate::wire::spec_framed_fields(s, 0) {
        None => Err(crate::errors::ErrorKind::FramingError),
        Some((fs, p)) => match spec_header_version(fs) {
            None => Err(crate::errors::ErrorKind::FramingError),
            Some(v) => if v == SUPPORTED_VERSION {
                Ok(p)
            } else {
                Err(crate::errors::ErrorKind::UnsupportedVersion)
            },
        },
    }
}

/// Read a file's framed header and check its version, returning the
/// position after it.
pub fn check_header(s: &[u8]) -> (r: Result<usize, crate::errors::ErrorKind>)
    ensures
        match spec_check_header(s@) {
            Ok(p) => r is Ok && r->Ok_0 == p && 0 < p <= s@.len(),
            Err(k) => r == Err::<usize, crate::errors::ErrorKind>(k),
        },
{
    let (fields, p) = match crate::wire::read_framed_fields(s, 0) {
        None => {
            return Err(crate::errors::ErrorKind::FramingError);
        },
        Some(fp) => fp,
    };
    match header_version(&fields) {
        None => Err(crate::errors::ErrorKind::FramingError),
        Some(v) => {
            if v == SUPPORTED_VERSION {
                Ok(p)
            } else {
                Err(crate::errors::ErrorKind::UnsupportedVersion)
            }
        },
    }
}

/// One chunk listed by a bundle descriptor, at the mathematical level.
pub struct GChunkRecord {
    pub id: Seq<u8>,
    pub size: u64,
}

/// One chunk listed by a bundle descriptor: its identifier and its
/// decompressed byte size.
pub struct ChunkRecord {
    pub id: Vec<u8>,
    pub size: u64,
}

impl View for ChunkRecord {
    type V = GChunkRecord;

    open spec fn view(&self) -> GChunkRecord {
        GChunkRecord { id: self.id@, size: self.size }
    }
}

/// The records of a sequence, each taken to its mathematical form.
pub open spec fn views_of_records(s: Seq<ChunkRecord>) -> Seq<GChunkRecord> {
    s.map_values(|r: ChunkRecord| r@)
}

/// The version a file header's fields carry, if any.
pub open spec fn spec_header_version(fs: Seq<GField>) -> Option<u64> {
    spec_last_varint(fs, 1)
}

/// The version carried by a file header's fields.
pub fn header_version(fields: &Vec<Field>) -> (r: Option<u64>)
    ensures
        r == spec_header_version(views_of_fields(fields@)),
{
    last_varint(fields, 1)
}

/// Mathematical decoding of one chunk record payload: a 24-byte identifier
/// in field 1 and a size in field 2, both required.
pub open spec fn spec_chunk_record_payload(s: Seq<u8>) -> Option<GChunkRecord> {
    match spec_fields(s, 0) {
        None => None,
        Some(fs) => match (spec_last_bytes(fs, 1), spec_last_varint(fs, 2)) {
            (Some(id), Some(size)) => if id.len() == crate::ID_BYTES {
                Some(GChunkRecord { id, size })
            } else {
                None
            },
            _ => None,
        },
    }
}

/// Decode one chunk record payload.
pub fn parse_chunk_record(s: &[u8]) -> (r: Option<ChunkRecord>)
    ensures
        match spec_chunk_record_payload(s@) {
            None => r is None,
            Some(g) => r is Some && r->Some_0@ == g,
        },
{
    let fields = match parse_fields(s) {
        None => {
            return None;
        },
        Some(fs) => fs,
    };
    let id = match last_bytes(&fields, 1) {
        None => {
            return None;
        },
        Some(id) => id,
    };
    let size = match last_varint(&fields, 2) {
        None => {
            return None;
        },
        Some(size) => size,
    };
    if id.len() != crate::ID_BYTES {
        return None;
    }
    Some(ChunkRecord { id, size })
}

/// Mathematical decoding of a bundle descriptor's fields: every field must
/// be a chunk record (field 1), kept in order.
pub open spec fn spec_chunk_records(fs: Seq<GField>) -> Option<Seq<GChunkRecord>>
    decreases fs.len(),
{
    if fs.len() == 0 {
        Some(Seq::empty())
    } else {
        match spec_chunk_records(fs.drop_last()) {
            None => None,
            Some(rs) => {
                let f = fs.last();
                if f.num == 1 && f.val is Bytes {
                    match spec_chunk_record_payload(f.val->Bytes_0) {
                        None => None,
                        Some(r) => Some(rs.push(r)),
                    }
                } else {
                    Some(rs)
                }
            },
        }
    }
}

/// Decode a bundle descriptor's fields into its chunk records.
pub fn parse_chunk_records(fields: &Vec<Field>) -> (r: Option<Vec<ChunkRecord>>)
    ensures
        match spec_chunk_records(views_of_fields(fields@)) {
            None => r is None,
            Some(rs) => r is Some && views_of_records(r->Some_0@) == rs,
        },
{
    let ghost views = views_of_fields(fields@);
    let n = fields.len();
    let mut out: Vec<ChunkRecord> = Vec::new();
    let mut i: usize = 0;
    proof {
        assert(views.take(0) =~= Seq::<GField>::empty());
        assert(views_of_records(out@) =~= Seq::<GChunkRecord>::empty());
    }
    while i < n
        invariant
            i <= n,
            n == fields@.len(),
            views == views_of_fields(fields@),
            spec_chunk_records(views.take(i as int)) == Some(views_of_records(out@)),
        decreases n - i,
    {
        let f = &fields[i];
        proof {
            assert(views.take(i as int + 1).last() == views[i as int]);
            assert(views.take(i as int + 1).drop_last() =~= views.take(i as int));
        }
        match &f.val {
            crate::wire::FieldVal::Bytes(b) => {
                if f.num == 1 {
                    match parse_chunk_record(b.as_slice()) {
                        None => {
                            proof {
                                lemma_chunk_records_extend_none(views, i as int + 1);
                            }
                            return None;
                        },
                        Some(rec) => {
                            proof {
                                assert(views_of_records(out@.push(rec)) =~= views_of_records(
                                    out@,
                                ).push(rec@));
                            }
                            out.push(rec);
                        },
                    }
                }
            },
            crate::wire::FieldVal::Varint(_) => {},
        }
        i = i + 1;
    }
    proof {
        assert(views.take(n as int) =~= views);
    }
    Some(out)
}

/// Once a prefix of the fields fails to decode as chunk records, the whole
/// sequence fails.
proof fn lemma_chunk_records_extend_none(fs: Seq<GField>, i: int)
    requires
        0 <= i <= fs.len(),
        spec_chunk_records(fs.take(i)) is None,
    ensures
        spec_chunk_records(fs) is None,
    decreases fs.len() - i,
{
    if i < fs.len() {
        assert(fs.take(i + 1).drop_last() =~= fs.take(i));
        lemma_chunk_records_extend_none(fs, i + 1);
    } else {
        assert(fs.take(i) =~= fs);
    }
}

/// A backup descriptor at the mathematical level: its instruction stream and
/// how many further expansion passes it asks for.
pub struct GBackupInfo {
    pub backup_data: Seq<u8>,
    pub iterations: u32,
}

/// Mathematical decoding of a backup descriptor's fields: the instruction
/// stream in field 1, required; an iteration count in field 2, absent
/// meaning none, rejected when it does not fit 32 bits.
pub open spec fn spec_backup_info(fs: Seq<GField>) -> Option<GBackupInfo> {
    match spec_last_bytes(fs, 1) {
        None => None,
        Some(data) => {
            let its = match spec_last_varint(fs, 2) {
                None => 0u64,
                Some(v) => v,
            };
            if its < 0x1_0000_0000 {
                Some(GBackupInfo { backup_data: data, iterations: its as u32 })
            } else {
                None
            }
        },
    }
}

/// Decode a backup descriptor's fields.
pub fn parse_backup_info(fields: &Vec<Field>) -> (r: Option<(Vec<u8>, u32)>)
    ensures
        match spec_backup_info(views_of_fields(fields@)) {
            None => r is None,
            Some(g) => r is Some && r->Some_0.0@ == g.backup_data && r->Some_0.1 == g.iterations,
        },
{
    let data = match last_bytes(fields, 1) {
        None => {
            return None;
        },
        Some(d) => d,
    };
    let its64 = match last_varint(fields, 2) {
        None => 0u64,
        Some(v) => v,
    };
    if its64 >= 0x1_0000_0000 {
        return None;
    }
    Some((data, its64 as u32))
}

/// One backup instruction at the mathematical level: a chunk to emit, or
/// literal bytes to emit, or both, in that order.
pub struct GInstruction {
    pub chunk_to_emit: Option<Seq<u8>>,
    pub bytes_to_emit: Option<Seq<u8>>,
}

/// Mathematical decoding of an instruction's fields: an optional chunk
/// identifier in field 1 (24 bytes when present) and optional literal bytes
/// in field 2. One of the two must be present.
pub open spec fn spec_instruction(fs: Seq<GField>) -> Option<GInstruction> {
    let chunk = spec_last_bytes(fs, 1);
    let bytes = spec_last_bytes(fs, 2);
    if chunk is None && bytes is None {
        None
    } else if chunk is Some && chunk->0.len() != crate::ID_BYTES {
        None
    } else {
        Some(GInstruction { chunk_to_emit: chunk, bytes_to_emit: bytes })
    }
}

/// Decode an instruction's fields.
pub fn parse_instruction(fields: &Vec<Field>) -> (r: Option<(Option<Vec<u8>>, Option<Vec<u8>>)>)
    ensures
        match spec_instruction(views_of_fields(fields@)) {
            None => r is None,
            Some(g) => r is Some && match (r->Some_0.0, g.chunk_to_emit) {
                (Some(c), Some(gc)) => c@ == gc,
                (None, None) => true,
                _ => false,
            } && match (r->Some_0.1, g.bytes_to_emit) {
                (Some(b), Some(gb)) => b@ == gb,
                (None, None) => true,
                _ => false,
            },
        },
{
    let chunk = last_bytes(fields, 1);
    let bytes = last_bytes(fields, 2);
    match (&chunk, &bytes) {
        (None, None) => None,
        _ => {
            match &chunk {
                Some(c) => {
                    if c.len() != crate::ID_BYTES {
                        return None;
                    }
                },
                None => {},
            }
            Some((chunk, bytes))
        },
    }
}

/// The bundle identifier an index header's fields carry, if any; an index
/// header with none is the end-of-index sentinel.
pub open spec fn spec_index_header_id(fs: Seq<GField>) -> Option<Seq<u8>> {
    spec_last_bytes(fs, 1)
}

/// The bundle identifier carried by an index header's fields.
pub fn index_header_id(fields: &Vec<Field>) -> (r: Option<Vec<u8>>)
    ensures
        match spec_index_header_id(views_of_fields(fields@)) {
            None => r is None,
            Some(id) => r is Some && r->Some_0@ == id,
        },
{
    last_bytes(fields, 1)
}

} // verus!
