//! End-to-end tests over in-memory repositories: bundles, the master
//! index, the chunk cache, sequential restore and the random-access view.

use rzbackup::errors::ErrorKind;
use rzbackup::randaccess::{RandomAccess, SeekFrom};
use rzbackup::repo::ZBackup;

fn vint(mut v: u64) -> Vec<u8> {
    let mut out = Vec::new();
    loop {
        let b = (v & 0x7f) as u8;
        v >>= 7;
        if v == 0 {
            out.push(b);
            break;
        }
        out.push(b | 0x80);
    }
    out
}

fn framed(payload: &[u8]) -> Vec<u8> {
    let mut out = vint(payload.len() as u64);
    out.extend_from_slice(payload);
    out
}

fn field_bytes(num: u64, data: &[u8]) -> Vec<u8> {
    let mut out = vint((num << 3) | 2);
    out.extend(vint(data.len() as u64));
    out.extend_from_slice(data);
    out
}

fn field_varint(num: u64, v: u64) -> Vec<u8> {
    let mut out = vint(num << 3);
    out.extend(vint(v));
    out
}

fn file_header() -> Vec<u8> {
    framed(&field_varint(1, 1))
}

fn info_file() -> Vec<u8> {
    let mut out = file_header();
    out.extend(framed(&[]));
    out
}

fn chunk_record(id: &[u8], size: u64) -> Vec<u8> {
    let mut out = field_bytes(1, id);
    out.extend(field_varint(2, size));
    out
}

fn bundle_info(records: &[(Vec<u8>, u64)]) -> Vec<u8> {
    let mut out = Vec::new();
    for (id, size) in records {
        out.extend(field_bytes(1, &chunk_record(id, *size)));
    }
    out
}

fn compress(data: &[u8]) -> Vec<u8> {
    let mut out = Vec::new();
    lzma_rs::lzma_compress(&mut &data[..], &mut out).unwrap();
    out
}

fn bundle_file(records: &[(Vec<u8>, u64)], payload: &[u8]) -> Vec<u8> {
    let mut out = file_header();
    out.extend(framed(&bundle_info(records)));
    out.extend_from_slice(&[0u8; 4]);
    out.extend(compress(payload));
    out
}

fn index_file(entries: &[(Vec<u8>, Vec<(Vec<u8>, u64)>)]) -> Vec<u8> {
    let mut out = file_header();
    for (bundle_id, records) in entries {
        out.extend(framed(&field_bytes(1, bundle_id)));
        out.extend(framed(&bundle_info(records)));
    }
    out.extend(framed(&[]));
    out
}

fn instr_chunk(id: &[u8]) -> Vec<u8> {
    framed(&field_bytes(1, id))
}

fn instr_literal(data: &[u8]) -> Vec<u8> {
    framed(&field_bytes(2, data))
}

fn backup_file(instructions: &[u8], iterations: u32) -> Vec<u8> {
    let mut body = field_bytes(1, instructions);
    body.extend(field_varint(2, iterations as u64));
    let mut out = file_header();
    out.extend(framed(&body));
    out
}


fn open_err(
    info: &[u8],
    index_files: Vec<Vec<u8>>,
    bundle_files: Vec<(Vec<u8>, Vec<u8>)>,
    backup_files: Vec<(Vec<u8>, Vec<u8>)>,
) -> rzbackup::errors::TfError {
    match ZBackup::open(info, &index_files, &bundle_files, &backup_files) {
        Ok(_) => panic!("expected opening to fail"),
        Err(e) => e,
    }
}

fn cid(b: u8) -> Vec<u8> {
    vec![b; 24]
}

/// A repository holding bundle `B1` = chunks A ("DATA") and C ("XY"), and a
/// backup spelling chunk A, the literal "-", then chunk C.
fn sample_repo() -> ZBackup {
    let a = cid(0xaa);
    let c = cid(0xcc);
    let b1 = cid(0x11);
    let records = vec![(a.clone(), 4u64), (c.clone(), 2u64)];
    let index = index_file(&[(b1.clone(), records.clone())]);
    let bundle = bundle_file(&records, b"DATAXY");
    let mut instructions = instr_chunk(&a);
    instructions.extend(instr_literal(b"-"));
    instructions.extend(instr_chunk(&c));
    let backup = backup_file(&instructions, 0);
    ZBackup::open(
        &info_file(),
        &vec![index],
        &vec![(b1, bundle)],
        &vec![(b"main".to_vec(), backup)],
    )
    .unwrap()
}

#[test]
fn bundle_chunks_cover_declared_sizes() {
    let a = cid(0xaa);
    let c = cid(0xcc);
    let records = vec![(a.clone(), 4u64), (c.clone(), 2u64)];
    let bundle = bundle_file(&records, b"DATAXY");
    let chunks = rzbackup::bundle::read_bundle(&bundle).unwrap();
    assert_eq!(chunks.len(), 2);
    let total: usize = chunks.iter().map(|(_, data)| data.len()).sum();
    assert_eq!(total, 4 + 2);
    assert_eq!(chunks[0].0, a);
    assert_eq!(chunks[0].1, b"DATA".to_vec());
    assert_eq!(chunks[1].0, c);
    assert_eq!(chunks[1].1, b"XY".to_vec());
}

#[test]
fn get_chunk_returns_bytes_and_caches_whole_bundle() {
    let mut repo = sample_repo();
    let a = cid(0xaa);
    let c = cid(0xcc);
    assert!(!repo.is_cached(&a));
    let data = repo.get_chunk(&a).unwrap();
    assert_eq!(data, b"DATA".to_vec());
    assert!(repo.is_cached(&a));
    assert!(repo.is_cached(&c));
}

#[test]
fn unknown_chunk_is_reported_not_fatal() {
    let mut repo = sample_repo();
    let missing = cid(0x99);
    let err = repo.get_chunk(&missing).unwrap_err();
    assert_eq!(err.kind(), ErrorKind::UnknownChunk);
    let err2 = match repo.get_index_entry(&missing) {
        Ok(_) => panic!("expected an unknown chunk"),
        Err(e) => e,
    };
    assert_eq!(err2.kind(), ErrorKind::UnknownChunk);
}

#[test]
fn restore_of_literal_backup() {
    let backup = backup_file(&instr_literal(b"hello"), 0);
    let mut repo = ZBackup::open(
        &info_file(),
        &vec![index_file(&[])],
        &vec![],
        &vec![(b"lit".to_vec(), backup)],
    )
    .unwrap();
    let mut out = Vec::new();
    repo.restore("lit", &mut out).unwrap();
    assert_eq!(out, b"hello".to_vec());
}

#[test]
fn restore_resolves_chunks_and_literals() {
    let mut repo = sample_repo();
    let mut out = Vec::new();
    repo.restore("main", &mut out).unwrap();
    assert_eq!(out, b"DATA-XY".to_vec());
}

#[test]
fn restore_twice_gives_identical_output() {
    let mut repo = sample_repo();
    let mut first = Vec::new();
    repo.restore("main", &mut first).unwrap();
    // Disturb the cache between the two runs.
    repo.set_cache_threshold(1);
    let _ = repo.get_chunk(&cid(0xaa)).unwrap();
    let mut second = Vec::new();
    repo.restore("main", &mut second).unwrap();
    assert_eq!(first, second);
}

#[test]
fn restore_of_iterated_backup() {
    // The stored stream emits a literal that is itself an instruction
    // stream; one expansion pass unwraps it.
    let inner = instr_literal(b"peeled");
    let backup = backup_file(&instr_literal(&inner), 1);
    let mut repo = ZBackup::open(
        &info_file(),
        &vec![index_file(&[])],
        &vec![],
        &vec![(b"wrapped".to_vec(), backup)],
    )
    .unwrap();
    let mut out = Vec::new();
    repo.restore("wrapped", &mut out).unwrap();
    assert_eq!(out, b"peeled".to_vec());
}

#[test]
fn cache_threshold_clears_whole_cache() {
    let a = cid(0xaa);
    let b = cid(0xbb);
    let b1 = cid(0x11);
    let b2 = cid(0x22);
    let records1 = vec![(a.clone(), 3u64)];
    let records2 = vec![(b.clone(), 3u64)];
    let index = index_file(&[(b1.clone(), records1.clone()), (b2.clone(), records2.clone())]);
    let mut repo = ZBackup::open(
        &info_file(),
        &vec![index],
        &vec![
            (b1, bundle_file(&records1, b"one")),
            (b2, bundle_file(&records2, b"two")),
        ],
        &vec![],
    )
    .unwrap();
    repo.set_cache_threshold(1);
    let first = repo.get_chunk(&a).unwrap();
    assert_eq!(first, b"one".to_vec());
    assert!(repo.is_cached(&a));
    assert_eq!(repo.cache_len(), 1);
    let second = repo.get_chunk(&b).unwrap();
    assert_eq!(second, b"two".to_vec());
    assert!(!repo.is_cached(&a));
    assert!(repo.is_cached(&b));
}

#[test]
fn random_access_matches_sequential_restore() {
    let mut repo = sample_repo();
    let mut sequential = Vec::new();
    repo.restore("main", &mut sequential).unwrap();
    let mut view = RandomAccess::new(&mut repo, "main").unwrap();
    let size = view.size() as usize;
    assert_eq!(size, sequential.len());
    let streamed = view.read(&mut repo, size).unwrap();
    assert_eq!(streamed, sequential);
}

#[test]
fn seek_and_reread_yield_identical_bytes() {
    let mut repo = sample_repo();
    let mut view = RandomAccess::new(&mut repo, "main").unwrap();
    view.seek(SeekFrom::Start(2));
    let first = view.read(&mut repo, 4).unwrap();
    view.seek(SeekFrom::Start(2));
    let second = view.read(&mut repo, 4).unwrap();
    assert_eq!(first, second);
    assert_eq!(first, b"TA-X".to_vec());
}

#[test]
fn seek_forms_address_as_documented() {
    let mut repo = sample_repo();
    let mut view = RandomAccess::new(&mut repo, "main").unwrap();
    assert_eq!(view.seek(SeekFrom::Start(3)), 3);
    assert_eq!(view.seek(SeekFrom::Current(2)), 5);
    assert_eq!(view.seek(SeekFrom::Current(-4)), 1);
    assert_eq!(view.seek(SeekFrom::End(-2)), view.size() - 2);
    let tail = view.read(&mut repo, 10).unwrap();
    assert_eq!(tail, b"XY".to_vec());
}

#[test]
fn seek_past_end_reads_no_bytes() {
    let mut repo = sample_repo();
    let mut view = RandomAccess::new(&mut repo, "main").unwrap();
    let size = view.size();
    view.seek(SeekFrom::Start(size + 10));
    let bytes = view.read(&mut repo, 8).unwrap();
    assert_eq!(bytes.len(), 0);
    view.seek(SeekFrom::End(5));
    let bytes2 = view.read(&mut repo, 8).unwrap();
    assert_eq!(bytes2.len(), 0);
}

#[test]
fn missing_backup_is_an_io_error() {
    let mut repo = sample_repo();
    let mut out = Vec::new();
    let err = repo.restore("absent", &mut out).unwrap_err();
    assert_eq!(err.kind(), ErrorKind::IoError);
}

#[test]
fn wrong_header_version_is_rejected() {
    let mut bad_info = framed(&field_varint(1, 2));
    bad_info.extend(framed(&[]));
    let err = open_err(&bad_info, vec![], vec![], vec![]);
    assert_eq!(err.kind(), ErrorKind::UnsupportedVersion);
}

#[test]
fn truncated_info_is_a_framing_error() {
    let err = open_err(&[0x05, 0x08], vec![], vec![], vec![]);
    assert_eq!(err.kind(), ErrorKind::FramingError);
}

#[test]
fn bad_index_file_is_index_corrupt() {
    let mut index = file_header();
    index.extend(framed(&field_bytes(1, &cid(0x11))));
    // The bundle descriptor that must follow the header is missing.
    let err = open_err(&info_file(), vec![index], vec![], vec![]);
    assert_eq!(err.kind(), ErrorKind::IndexCorrupt);
}

#[test]
fn corrupt_bundle_descriptor_is_bundle_corrupt() {
    let a = cid(0xaa);
    let b1 = cid(0x11);
    let records = vec![(a.clone(), 4u64)];
    let index = index_file(&[(b1.clone(), records.clone())]);
    let mut bad_bundle = file_header();
    bad_bundle.extend(framed(&[0x07])); // a malformed descriptor payload
    let mut repo =
        ZBackup::open(&info_file(), &vec![index], &vec![(b1, bad_bundle)], &vec![]).unwrap();
    let err = repo.get_chunk(&a).unwrap_err();
    assert_eq!(err.kind(), ErrorKind::BundleCorrupt);
}

#[test]
fn garbage_payload_is_a_codec_error() {
    let a = cid(0xaa);
    let b1 = cid(0x11);
    let records = vec![(a.clone(), 4u64)];
    let index = index_file(&[(b1.clone(), records.clone())]);
    let mut bad_bundle = file_header();
    bad_bundle.extend(framed(&bundle_info(&records)));
    bad_bundle.extend_from_slice(&[0u8; 4]);
    bad_bundle.extend_from_slice(b"not compressed data");
    let mut repo =
        ZBackup::open(&info_file(), &vec![index], &vec![(b1, bad_bundle)], &vec![]).unwrap();
    let err = repo.get_chunk(&a).unwrap_err();
    assert_eq!(err.kind(), ErrorKind::CodecError);
}

#[test]
fn short_payload_is_a_chunk_size_mismatch() {
    let a = cid(0xaa);
    let b1 = cid(0x11);
    let records = vec![(a.clone(), 10u64)];
    let index = index_file(&[(b1.clone(), records.clone())]);
    let bundle = bundle_file(&records, b"shrt");
    let mut repo =
        ZBackup::open(&info_file(), &vec![index], &vec![(b1, bundle)], &vec![]).unwrap();
    let err = repo.get_chunk(&a).unwrap_err();
    assert_eq!(err.kind(), ErrorKind::ChunkSizeMismatch);
}

#[test]
fn empty_instruction_is_malformed() {
    let backup = backup_file(&framed(&[]), 0);
    let mut repo = ZBackup::open(
        &info_file(),
        &vec![index_file(&[])],
        &vec![],
        &vec![(b"bad".to_vec(), backup)],
    )
    .unwrap();
    let mut out = Vec::new();
    let err = repo.restore("bad", &mut out).unwrap_err();
    assert_eq!(err.kind(), ErrorKind::MalformedInstruction);
}

#[test]
fn later_index_facts_replace_earlier_ones() {
    let a = cid(0xaa);
    let b1 = cid(0x11);
    let b2 = cid(0x22);
    let records1 = vec![(a.clone(), 3u64)];
    let records2 = vec![(a.clone(), 3u64)];
    let index1 = index_file(&[(b1.clone(), records1.clone())]);
    let index2 = index_file(&[(b2.clone(), records2.clone())]);
    let mut repo = ZBackup::open(
        &info_file(),
        &vec![index1, index2],
        &vec![
            (b1, bundle_file(&records1, b"old")),
            (b2, bundle_file(&records2, b"new")),
        ],
        &vec![],
    )
    .unwrap();
    assert_eq!(repo.get_chunk(&a).unwrap(), b"new".to_vec());
}

#[test]
fn to_array_takes_the_identifier_prefix() {
    let bytes: Vec<u8> = (0..32).collect();
    let arr = rzbackup::repo::to_array(&bytes);
    assert_eq!(arr.len(), 24);
    assert_eq!(&arr[..], &bytes[..24]);
}
