//! The repository: the master index built from every index file, the
//! bounded cache of decompressed chunks, and sequential restore.

use vstd::prelude::*;

use crate::bundle::{spec_read_bundle, views_of_pairs};
use crate::bytemap::ByteMap;
use crate::errors::{ErrorKind, TfError};
use crate::messages::{
    check_header, index_header_id, parse_backup_info, parse_chunk_records, spec_backup_info,
    spec_check_header, spec_chunk_records, spec_index_header_id, spec_instruction,
    views_of_records, ChunkRecord, GChunkRecord,
};
use crate::wire::{read_framed, read_framed_fields, spec_framed, spec_framed_fields};
use vstd::string::StringSliceAdditionalSpecFns;

verus! {

/// Entries kept in the cache before a miss clears it whole, unless
/// configured otherwise.
pub const DEFAULT_CACHE_THRESHOLD: usize = 4096;

/// A master index entry: the bundle storing a chunk, and the chunk's size.
pub struct IndexEntry {
    pub bundle_id: Vec<u8>,
    pub size: u64,
}

/// A master index entry, at the mathematical level.
pub struct GIndexEntry {
    pub bundle_id: Seq<u8>,
    pub size: u64,
}

impl View for IndexEntry {
    type V = GIndexEntry;

    open spec fn view(&self) -> GIndexEntry {
        GIndexEntry { bundle_id: self.bundle_id@, size: self.size }
    }
}

/// Everything a repository holds, at the mathematical level: the union of
/// its index files' facts, its bundle files and its backup files.
pub struct RepoModel {
    pub index: Map<Seq<u8>, GIndexEntry>,
    pub bundles: Map<Seq<u8>, Seq<u8>>,
    pub backups: Map<Seq<u8>, Seq<u8>>,
}

/// Resolving one chunk: look its bundle up in the master index, read that
/// bundle, and take the chunk's bytes from it (the last occurrence, were an
/// identifier repeated within one bundle).
#[verifier::opaque]
pub open spec fn spec_get_chunk(m: RepoModel, id: Seq<u8>) -> Result<Seq<u8>, ErrorKind> {
    if !m.index.contains_key(id) {
        Err(ErrorKind::UnknownChunk)
    } else {
        let e = m.index[id];
        if !m.bundles.contains_key(e.bundle_id) {
            Err(ErrorKind::IoError)
        } else {
            match spec_read_bundle(m.bundles[e.bundle_id]) {
                Err(k) => Err(k),
                Ok(chunks) => match spec_find_last(chunks, id) {
                    None => Err(ErrorKind::BundleCorrupt),
                    Some(v) => Ok(v),
                },
            }
        }
    }
}

/// The bytes stored under `id` in a run of identifier/bytes pairs, later
/// pairs replacing earlier ones.
pub open spec fn spec_find_last(chunks: Seq<(Seq<u8>, Seq<u8>)>, id: Seq<u8>) -> Option<Seq<u8>>
    decreases chunks.len(),
{
    if chunks.len() == 0 {
        None
    } else if chunks.last().0 == id {
        Some(chunks.last().1)
    } else {
        spec_find_last(chunks.drop_last(), id)
    }
}

/// A repository whose stored facts agree with each other: every chunk held
/// by any readable bundle resolves through the master index to those same
/// bytes, and every indexed chunk resolves to bytes of the size the index
/// declares. A correctly written repository has this shape; the contracts
/// below promise exact results under it and preservation of the repository
/// without it.
#[verifier::opaque]
pub open spec fn model_consistent(m: RepoModel) -> bool {
    &&& forall|bid: Seq<u8>, i: int|
        #![auto]
        m.bundles.contains_key(bid) && spec_read_bundle(m.bundles[bid]) is Ok && 0 <= i
            < spec_read_bundle(m.bundles[bid])->Ok_0.len() ==> spec_get_chunk(
            m,
            spec_read_bundle(m.bundles[bid])->Ok_0[i].0,
        ) == Ok::<_, ErrorKind>(spec_read_bundle(m.bundles[bid])->Ok_0[i].1)
    &&& forall|id: Seq<u8>| #![auto]
        m.index.contains_key(id) ==> spec_get_chunk(m, id) is Ok && spec_get_chunk(
            m,
            id,
        )->Ok_0.len() == m.index[id].size
}

/// Mathematical reading of an index file's run of header/descriptor pairs
/// from `pos`: each pair names a bundle and lists its chunk records, until
/// a header naming no bundle ends the run.
pub open spec fn spec_index_entries(s: Seq<u8>, pos: int) -> Result<
    Seq<(Seq<u8>, Seq<GChunkRecord>)>,
    ErrorKind,
>
    decreases s.len() - pos,
{
    match spec_framed_fields(s, pos) {
        None => Err(ErrorKind::IndexCorrupt),
        Some((fs, p1)) => {
            if !(pos < p1 <= s.len()) {
                Err(ErrorKind::IndexCorrupt)
            } else {
                match spec_index_header_id(fs) {
                    None => Ok(Seq::empty()),
                    Some(id) => {
                        if id.len() != crate::ID_BYTES {
                            Err(ErrorKind::IndexCorrupt)
                        } else {
                            match spec_framed_fields(s, p1) {
                                None => Err(ErrorKind::IndexCorrupt),
                                Some((fs2, p2)) => {
                                    if !(p1 < p2 <= s.len()) {
                                        Err(ErrorKind::IndexCorrupt)
                                    } else {
                                        match spec_chunk_records(fs2) {
                                            None => Err(ErrorKind::IndexCorrupt),
                                            Some(rs) => match spec_index_entries(s, p2) {
                                                Err(k) => Err(k),
                                                Ok(rest) => Ok(seq![(id, rs)] + rest),
                                            },
                                        }
                                    }
                                },
                            }
                        }
                    },
                }
            }
        },
    }
}

/// Mathematical reading of a whole index file: its header, then its run of
/// header/descriptor pairs.
pub open spec fn spec_read_index(s: Seq<u8>) -> Result<
    Seq<(Seq<u8>, Seq<GChunkRecord>)>,
    ErrorKind,
> {
    match spec_check_header(s) {
        Err(k) => Err(k),
        Ok(p) => spec_index_entries(s, p),
    }
}

/// The pairs of a sequence of index entries, each taken to its mathematical
/// form.
pub open spec fn views_of_index_entries(s: Seq<(Vec<u8>, Vec<ChunkRecord>)>) -> Seq<
    (Seq<u8>, Seq<GChunkRecord>),
> {
    s.map_values(|e: (Vec<u8>, Vec<ChunkRecord>)| (e.0@, views_of_records(e.1@)))
}

/// Read a whole index file held in memory.
pub fn read_index(s: &[u8]) -> (r: Result<Vec<(Vec<u8>, Vec<ChunkRecord>)>, TfError>)
    ensures
        match spec_read_index(s@) {
            Ok(entries) => r is Ok && views_of_index_entries(r->Ok_0@) == entries,
            Err(k) => r is Err && r->Err_0.kind == k,
        },
{
    let start = match check_header(s) {
        Err(k) => {
            return Err(TfError::new(k, "index file header"));
        },
        Ok(p) => p,
    };
    let mut pos = start;
    let mut out: Vec<(Vec<u8>, Vec<ChunkRecord>)> = Vec::new();
    let n = s.len();
    proof {
        assert(views_of_index_entries(out@) =~= Seq::<(Seq<u8>, Seq<GChunkRecord>)>::empty());
    }
    loop
        invariant
            pos <= n,
            n == s@.len(),
            match spec_index_entries(s@, pos as int) {
                Ok(rest) => spec_index_entries(s@, start as int) == Ok::<_, ErrorKind>(
                    views_of_index_entries(out@) + rest,
                ),
                Err(k) => spec_index_entries(s@, start as int) == Err::<
                    Seq<(Seq<u8>, Seq<GChunkRecord>)>,
                    ErrorKind,
                >(k),
            },
            spec_check_header(s@) == Ok::<int, ErrorKind>(start as int),
        decreases n - pos,
    {
        let (fields, p1) = match read_framed_fields(s, pos) {
            None => {
                return Err(TfError::new(ErrorKind::IndexCorrupt, "index bundle header framing"));
            },
            Some(fp) => fp,
        };
        let id = match index_header_id(&fields) {
            None => {
                proof {
                    assert(views_of_index_entries(out@) + Seq::<
                        (Seq<u8>, Seq<GChunkRecord>),
                    >::empty() =~= views_of_index_entries(out@));
                }
                return Ok(out);
            },
            Some(id) => id,
        };
        if id.len() != crate::ID_BYTES {
            return Err(TfError::new(ErrorKind::IndexCorrupt, "index bundle identifier width"));
        }
        let (fields2, p2) = match read_framed_fields(s, p1) {
            None => {
                return Err(TfError::new(ErrorKind::IndexCorrupt, "bundle descriptor framing"));
            },
            Some(fp) => fp,
        };
        let records = match parse_chunk_records(&fields2) {
            None => {
                return Err(TfError::new(ErrorKind::IndexCorrupt, "bundle descriptor records"));
            },
            Some(rs) => rs,
        };
        let entry = (id, records);
        proof {
            let gentry = (entry.0@, views_of_records(entry.1@));
            let rest2 = spec_index_entries(s@, p2 as int);
            if rest2 is Ok {
                assert(views_of_index_entries(out@.push(entry)) + rest2->Ok_0
                    =~= views_of_index_entries(out@) + (seq![gentry] + rest2->Ok_0));
            }
        }
        out.push(entry);
        pos = p2;
    }
}

/// Fold one bundle's chunk records into a master index, later records
/// replacing earlier ones.
pub open spec fn spec_records_into(
    m: Map<Seq<u8>, GIndexEntry>,
    bundle_id: Seq<u8>,
    rs: Seq<GChunkRecord>,
) -> Map<Seq<u8>, GIndexEntry>
    decreases rs.len(),
{
    if rs.len() == 0 {
        m
    } else {
        spec_records_into(m, bundle_id, rs.drop_last()).insert(
            rs.last().id,
            GIndexEntry { bundle_id: bundle_id, size: rs.last().size },
        )
    }
}

/// Fold one index file's entries into a master index, in order.
pub open spec fn spec_entries_into(
    m: Map<Seq<u8>, GIndexEntry>,
    entries: Seq<(Seq<u8>, Seq<GChunkRecord>)>,
) -> Map<Seq<u8>, GIndexEntry>
    decreases entries.len(),
{
    if entries.len() == 0 {
        m
    } else {
        spec_records_into(
            spec_entries_into(m, entries.drop_last()),
            entries.last().0,
            entries.last().1,
        )
    }
}

/// Fold every index file into a master index, in the order given; a file
/// that cannot be read fails the whole build, earliest failure first.
pub open spec fn spec_master_index(m: Map<Seq<u8>, GIndexEntry>, files: Seq<Seq<u8>>) -> Result<
    Map<Seq<u8>, GIndexEntry>,
    ErrorKind,
>
    decreases files.len(),
{
    if files.len() == 0 {
        Ok(m)
    } else {
        match spec_master_index(m, files.drop_last()) {
            Err(k) => Err(k),
            Ok(m2) => match spec_read_index(files.last()) {
                Err(k) => Err(k),
                Ok(entries) => Ok(spec_entries_into(m2, entries)),
            },
        }
    }
}

/// Once a prefix of the files fails, the whole build fails the same way.
proof fn lemma_master_index_prefix_err(
    m: Map<Seq<u8>, GIndexEntry>,
    files: Seq<Seq<u8>>,
    i: int,
)
    requires
        0 <= i <= files.len(),
        spec_master_index(m, files.take(i)) is Err,
    ensures
        spec_master_index(m, files) == spec_master_index(m, files.take(i)),
    decreases files.len() - i,
{
    if i < files.len() {
        assert(files.take(i + 1).drop_last() =~= files.take(i));
        lemma_master_index_prefix_err(m, files, i + 1);
    } else {
        assert(files.take(i) =~= files);
    }
}

/// The storage-info file: a framed header and one framed record whose
/// contents this reader does not interpret.
pub open spec fn spec_check_info(s: Seq<u8>) -> Result<(), ErrorKind> {
    match spec_check_header(s) {
        Err(k) => Err(k),
        Ok(p) => match spec_framed(s, p) {
            None => Err(ErrorKind::FramingError),
            Some(_) => Ok(()),
        },
    }
}

/// Opening a repository: accept the storage-info file, then build the
/// master index from every index file.
pub open spec fn spec_open(info: Seq<u8>, files: Seq<Seq<u8>>) -> Result<
    Map<Seq<u8>, GIndexEntry>,
    ErrorKind,
> {
    match spec_check_info(info) {
        Err(k) => Err(k),
        Ok(_) => spec_master_index(Map::empty(), files),
    }
}

/// Fold identifier/bytes pairs into a map, later pairs replacing earlier
/// ones.
pub open spec fn spec_pairs_into(m: Map<Seq<u8>, Seq<u8>>, ps: Seq<(Seq<u8>, Seq<u8>)>) -> Map<
    Seq<u8>,
    Seq<u8>,
>
    decreases ps.len(),
{
    if ps.len() == 0 {
        m
    } else {
        spec_pairs_into(m, ps.drop_last()).insert(ps.last().0, ps.last().1)
    }
}

/// The views of a run of in-memory files.
pub open spec fn views_of_files(s: Seq<Vec<u8>>) -> Seq<Seq<u8>> {
    s.map_values(|v: Vec<u8>| v@)
}

/// The chunks stored by the bundle that the master index assigns to `id`.
pub open spec fn spec_bundle_chunks(m: RepoModel, id: Seq<u8>) -> Seq<(Seq<u8>, Seq<u8>)> {
    spec_read_bundle(m.bundles[m.index[id].bundle_id])->Ok_0
}

/// An open repository: the master index built once at open, the bundle and
/// backup files, and the bounded cache of decompressed chunks.
pub struct ZBackup {
    master_index: ByteMap<IndexEntry>,
    chunk_cache: ByteMap<Vec<u8>>,
    bundles: ByteMap<Vec<u8>>,
    backups: ByteMap<Vec<u8>>,
    cache_threshold: usize,
}

impl ZBackup {
    /// The repository's mathematical content; the chunk cache is not part
    /// of it.
    pub closed spec fn model(&self) -> RepoModel {
        RepoModel { index: self.master_index@, bundles: self.bundles@, backups: self.backups@ }
    }

    /// The decompressed chunks currently cached.
    pub closed spec fn cache(&self) -> Map<Seq<u8>, Seq<u8>> {
        self.chunk_cache@
    }

    /// How many cached entries force a wholesale clear before the next
    /// bundle load.
    pub closed spec fn threshold(&self) -> usize {
        self.cache_threshold
    }

    /// What every operation preserves: the inner maps are well formed, and,
    /// on a consistent repository, everything cached is the chunk the
    /// repository stores under that identifier.
    pub closed spec fn inv(&self) -> bool {
        &&& self.master_index.wf()
        &&& self.chunk_cache.wf()
        &&& self.bundles.wf()
        &&& self.backups.wf()
        &&& model_consistent(self.model()) ==> forall|k: Seq<u8>| #![auto]
            self.chunk_cache@.contains_key(k) ==> spec_get_chunk(self.model(), k) == Ok::<
                _,
                ErrorKind,
            >(self.chunk_cache@[k])
    }

    /// Open a repository from its files: check the storage info, build the
    /// master index from every index file in the order given, and keep the
    /// bundle and backup files for lazy chunk resolution.
    pub fn open(
        info: &[u8],
        index_files: &Vec<Vec<u8>>,
        bundle_files: &Vec<(Vec<u8>, Vec<u8>)>,
        backup_files: &Vec<(Vec<u8>, Vec<u8>)>,
    ) -> (r: Result<ZBackup, TfError>)
        ensures
            match spec_open(info@, views_of_files(index_files@)) {
                Ok(idx) => r is Ok && r->Ok_0.inv() && r->Ok_0.model().index == idx
                    && r->Ok_0.model().bundles == spec_pairs_into(
                    Map::empty(),
                    views_of_pairs(bundle_files@),
                ) && r->Ok_0.model().backups == spec_pairs_into(
                    Map::empty(),
                    views_of_pairs(backup_files@),
                ) && r->Ok_0.cache() == Map::<Seq<u8>, Seq<u8>>::empty() && r->Ok_0.threshold()
                    == DEFAULT_CACHE_THRESHOLD,
                Err(k) => r is Err && r->Err_0.kind == k,
            },
    {
        let p = match check_header(info) {
            Err(k) => {
                return Err(TfError::new(k, "storage info header"));
            },
            Ok(p) => p,
        };
        match read_framed(info, p) {
            None => {
                return Err(TfError::new(ErrorKind::FramingError, "storage info framing"));
            },
            Some(_) => {},
        }
        let ghost gfiles = views_of_files(index_files@);
        let mut master: ByteMap<IndexEntry> = ByteMap::new();
        let file_count = index_files.len();
        let mut i: usize = 0;
        proof {
            assert(gfiles.take(0) =~= Seq::<Seq<u8>>::empty());
        }
        while i < file_count
            invariant
                i <= file_count,
                file_count == index_files@.len(),
                gfiles == views_of_files(index_files@),
                master.wf(),
                spec_master_index(Map::empty(), gfiles.take(i as int)) == Ok::<_, ErrorKind>(
                    master@,
                ),
                spec_check_info(info@) is Ok,
            decreases file_count - i,
        {
            proof {
                assert(gfiles.take(i as int + 1).drop_last() =~= gfiles.take(i as int));
                assert(gfiles.take(i as int + 1).last() == gfiles[i as int]);
                assert(gfiles[i as int] == index_files@[i as int]@);
            }
            let entries = match read_index(index_files[i].as_slice()) {
                Err(e) => {
                    proof {
                        lemma_master_index_prefix_err(Map::empty(), gfiles, i as int + 1);
                    }
                    return Err(e);
                },
                Ok(es) => es,
            };
            let ghost gentries = views_of_index_entries(entries@);
            let ghost m_file = master@;
            let entry_count = entries.len();
            let mut j: usize = 0;
            proof {
                assert(gentries.take(0) =~= Seq::<(Seq<u8>, Seq<GChunkRecord>)>::empty());
            }
            while j < entry_count
                invariant
                    j <= entry_count,
                    entry_count == entries@.len(),
                    gentries == views_of_index_entries(entries@),
                    master.wf(),
                    master@ == spec_entries_into(m_file, gentries.take(j as int)),
                decreases entry_count - j,
            {
                proof {
                    assert(gentries.take(j as int + 1).drop_last() =~= gentries.take(j as int));
                    assert(gentries[j as int] == (entries@[j as int].0@, views_of_records(
                        entries@[j as int].1@,
                    )));
                }
                let ghost grecords = gentries[j as int].1;
                let ghost m_entry = master@;
                let record_count = entries[j].1.len();
                let mut t: usize = 0;
                proof {
                    assert(grecords.take(0) =~= Seq::<GChunkRecord>::empty());
                }
                while t < record_count
                    invariant
                        t <= record_count,
                        j < entries@.len(),
                        record_count == entries@[j as int].1@.len(),
                        grecords == views_of_records(entries@[j as int].1@),
                        master.wf(),
                        master@ == spec_records_into(
                            m_entry,
                            entries@[j as int].0@,
                            grecords.take(t as int),
                        ),
                    decreases record_count - t,
                {
                    proof {
                        assert(grecords.take(t as int + 1).drop_last() =~= grecords.take(t as int));
                        assert(grecords[t as int] == entries@[j as int].1@[t as int]@);
                    }
                    let id = crate::wire::clone_bytes(entries[j].1[t].id.as_slice());
                    let bundle_id = crate::wire::clone_bytes(entries[j].0.as_slice());
                    let size = entries[j].1[t].size;
                    master.insert(id, IndexEntry { bundle_id, size });
                    t = t + 1;
                }
                proof {
                    assert(grecords.take(record_count as int) =~= grecords);
                    assert(gentries.take(j as int + 1).last() == gentries[j as int]);
                }
                j = j + 1;
            }
            proof {
                assert(gentries.take(entry_count as int) =~= gentries);
            }
            i = i + 1;
        }
        proof {
            assert(gfiles.take(file_count as int) =~= gfiles);
        }
        let mut bundles: ByteMap<Vec<u8>> = ByteMap::new();
        let ghost gbundles = views_of_pairs(bundle_files@);
        let bundle_count = bundle_files.len();
        let mut b: usize = 0;
        proof {
            assert(gbundles.take(0) =~= Seq::<(Seq<u8>, Seq<u8>)>::empty());
        }
        while b < bundle_count
            invariant
                b <= bundle_count,
                bundle_count == bundle_files@.len(),
                gbundles == views_of_pairs(bundle_files@),
                bundles.wf(),
                bundles@ == spec_pairs_into(Map::empty(), gbundles.take(b as int)),
            decreases bundle_count - b,
        {
            proof {
                assert(gbundles.take(b as int + 1).drop_last() =~= gbundles.take(b as int));
                assert(gbundles[b as int] == (bundle_files@[b as int].0@, bundle_files@[b as int].1@));
            }
            let key = crate::wire::clone_bytes(bundle_files[b].0.as_slice());
            let val = crate::wire::clone_bytes(bundle_files[b].1.as_slice());
            bundles.insert(key, val);
            b = b + 1;
        }
        proof {
            assert(gbundles.take(bundle_count as int) =~= gbundles);
        }
        let mut backups: ByteMap<Vec<u8>> = ByteMap::new();
        let ghost gbackups = views_of_pairs(backup_files@);
        let backup_count = backup_files.len();
        let mut c: usize = 0;
        proof {
            assert(gbackups.take(0) =~= Seq::<(Seq<u8>, Seq<u8>)>::empty());
        }
        while c < backup_count
            invariant
                c <= backup_count,
                backup_count == backup_files@.len(),
                gbackups == views_of_pairs(backup_files@),
                backups.wf(),
                backups@ == spec_pairs_into(Map::empty(), gbackups.take(c as int)),
            decreases backup_count - c,
        {
            proof {
                assert(gbackups.take(c as int + 1).drop_last() =~= gbackups.take(c as int));
                assert(gbackups[c as int] == (backup_files@[c as int].0@, backup_files@[c as int].1@));
            }
            let key = crate::wire::clone_bytes(backup_files[c].0.as_slice());
            let val = crate::wire::clone_bytes(backup_files[c].1.as_slice());
            backups.insert(key, val);
            c = c + 1;
        }
        proof {
            assert(gbackups.take(backup_count as int) =~= gbackups);
        }
        Ok(
            ZBackup {
                master_index: master,
                chunk_cache: ByteMap::new(),
                bundles,
                backups,
                cache_threshold: DEFAULT_CACHE_THRESHOLD,
            },
        )
    }

    /// Replace the cache threshold; the cached entries stay.
    pub fn set_cache_threshold(&mut self, threshold: usize)
        requires
            old(self).inv(),
        ensures
            final(self).inv(),
            final(self).model() == old(self).model(),
            final(self).cache() == old(self).cache(),
            final(self).threshold() == threshold,
    {
        self.cache_threshold = threshold;
    }

    /// Whether the chunk's decompressed bytes are cached right now.
    pub fn is_cached(&self, chunk_id: &[u8]) -> (r: bool)
        requires
            self.inv(),
        ensures
            r <==> self.cache().contains_key(chunk_id@),
    {
        self.chunk_cache.contains(chunk_id)
    }

    /// How many chunks are cached right now.
    pub fn cache_len(&self) -> (r: usize)
        requires
            self.inv(),
        ensures
            r == self.cache().len(),
    {
        self.chunk_cache.len()
    }

    /// The master index's entry for a chunk, or `UnknownChunk`.
    pub fn get_index_entry(&self, chunk_id: &[u8]) -> (r: Result<IndexEntry, TfError>)
        requires
            self.inv(),
        ensures
            match r {
                Ok(e) => self.model().index.contains_key(chunk_id@) && e@ == self.model().index[chunk_id@],
                Err(e) => !self.model().index.contains_key(chunk_id@) && e.kind
                    == ErrorKind::UnknownChunk,
            },
    {
        match self.master_index.get(chunk_id) {
            None => Err(TfError::new(ErrorKind::UnknownChunk, "chunk absent from master index")),
            Some(e) => Ok(
                IndexEntry {
                    bundle_id: crate::wire::clone_bytes(e.bundle_id.as_slice()),
                    size: e.size,
                },
            ),
        }
    }

    /// Resolve one chunk's decompressed bytes. A cached chunk comes straight
    /// back. Otherwise: if the cache has reached its threshold it is cleared
    /// whole; the chunk is looked up in the master index (`UnknownChunk` if
    /// absent); its whole bundle is read and every chunk of it is cached;
    /// the requested bytes are returned.
    pub fn get_chunk(&mut self, chunk_id: &[u8]) -> (r: Result<Vec<u8>, TfError>)
        requires
            old(self).inv(),
        ensures
            final(self).inv(),
            final(self).model() == old(self).model(),
            final(self).threshold() == old(self).threshold(),
            old(self).cache().contains_key(chunk_id@) ==> r is Ok && r->Ok_0@ == old(self).cache()[chunk_id@]
                && final(self).cache() == old(self).cache(),
            !old(self).cache().contains_key(chunk_id@) ==> ({
                let cleared = if old(self).cache().len() >= old(self).threshold() {
                    Map::<Seq<u8>, Seq<u8>>::empty()
                } else {
                    old(self).cache()
                };
                match spec_get_chunk(old(self).model(), chunk_id@) {
                    Ok(v) => r is Ok && r->Ok_0@ == v && final(self).cache() == spec_pairs_into(
                        cleared,
                        spec_bundle_chunks(old(self).model(), chunk_id@),
                    ),
                    Err(k) => r is Err && r->Err_0.kind == k && final(self).cache() == cleared,
                }
            }),
            !old(self).cache().contains_key(chunk_id@) && !old(self).model().index.contains_key(
                chunk_id@,
            ) ==> r is Err && r->Err_0.kind == ErrorKind::UnknownChunk,
            model_consistent(old(self).model()) ==> match spec_get_chunk(
                old(self).model(),
                chunk_id@,
            ) {
                Ok(v) => r is Ok && r->Ok_0@ == v,
                Err(k) => r is Err && r->Err_0.kind == k,
            },
    {
        proof {
            reveal(spec_get_chunk);
        }
        match self.chunk_cache.get(chunk_id) {
            Some(v) => {
                return Ok(crate::wire::clone_bytes(v.as_slice()));
            },
            None => {},
        }
        if self.chunk_cache.len() >= self.cache_threshold {
            self.chunk_cache.clear();
        }
        self.resolve_miss(chunk_id)
    }

    /// Resolve an uncached chunk: look it up, read its whole bundle, cache
    /// every chunk of it, return the requested bytes.
    #[verifier::loop_isolation(false)]
    #[verifier::rlimit(100)]
    #[verifier::spinoff_prover]
    fn resolve_miss(&mut self, chunk_id: &[u8]) -> (r: Result<Vec<u8>, TfError>)
        requires
            old(self).inv(),
            !old(self).cache().contains_key(chunk_id@),
        ensures
            final(self).inv(),
            final(self).model() == old(self).model(),
            final(self).threshold() == old(self).threshold(),
            match spec_get_chunk(old(self).model(), chunk_id@) {
                Ok(v) => r is Ok && r->Ok_0@ == v && final(self).cache() == spec_pairs_into(
                    old(self).cache(),
                    spec_bundle_chunks(old(self).model(), chunk_id@),
                ),
                Err(k) => r is Err && r->Err_0.kind == k && final(self).cache() == old(
                    self,
                ).cache(),
            },
    {
        proof {
            reveal(spec_get_chunk);
            reveal(model_consistent);
        }
        let ghost cleared = self.chunk_cache@;
        let entry = match self.master_index.get(chunk_id) {
            None => {
                return Err(TfError::new(ErrorKind::UnknownChunk, "chunk absent from master index"));
            },
            Some(e) => IndexEntry {
                bundle_id: crate::wire::clone_bytes(e.bundle_id.as_slice()),
                size: e.size,
            },
        };
        let bundle_bytes = match self.bundles.get(entry.bundle_id.as_slice()) {
            None => {
                return Err(TfError::new(ErrorKind::IoError, "bundle file absent"));
            },
            Some(b) => crate::wire::clone_bytes(b.as_slice()),
        };
        let chunks = match crate::bundle::read_bundle(bundle_bytes.as_slice()) {
            Err(e) => {
                return Err(e);
            },
            Ok(cs) => cs,
        };
        let ghost gchunks = views_of_pairs(chunks@);
        let found = match find_last_chunk(&chunks, chunk_id) {
            None => {
                return Err(TfError::new(ErrorKind::BundleCorrupt, "chunk absent from its bundle"));
            },
            Some(v) => v,
        };
        proof {
            if model_consistent(old(self).model()) {
                assert forall|i: int| 0 <= i < gchunks.len() implies spec_get_chunk(
                    old(self).model(),
                    gchunks[i].0,
                ) == Ok::<_, ErrorKind>(gchunks[i].1) by {
                    assert(spec_read_bundle(old(self).model().bundles[entry.bundle_id@])
                        == Ok::<_, ErrorKind>(gchunks));
                }
            }
        }
        self.cache_all(&chunks);
        Ok(found)
    }

    /// Put every identifier/bytes pair of one loaded bundle into the cache.
    #[verifier::rlimit(60)]
    fn cache_all(&mut self, chunks: &Vec<(Vec<u8>, Vec<u8>)>)
        requires
            old(self).inv(),
            model_consistent(old(self).model()) ==> forall|i: int| #![auto]
                0 <= i < views_of_pairs(chunks@).len() ==> spec_get_chunk(
                    old(self).model(),
                    views_of_pairs(chunks@)[i].0,
                ) == Ok::<_, ErrorKind>(views_of_pairs(chunks@)[i].1),
        ensures
            final(self).inv(),
            final(self).model() == old(self).model(),
            final(self).threshold() == old(self).threshold(),
            final(self).cache() == spec_pairs_into(old(self).cache(), views_of_pairs(chunks@)),
    {
        let ghost cleared = self.chunk_cache@;
        let ghost gchunks = views_of_pairs(chunks@);
        let count = chunks.len();
        let mut i: usize = 0;
        proof {
            assert(gchunks.take(0) =~= Seq::<(Seq<u8>, Seq<u8>)>::empty());
        }
        while i < count
            invariant
                i <= count,
                count == chunks@.len(),
                gchunks == views_of_pairs(chunks@),
                old(self).inv(),
                model_consistent(old(self).model()) ==> forall|t: int| #![auto]
                    0 <= t < gchunks.len() ==> spec_get_chunk(old(self).model(), gchunks[t].0)
                        == Ok::<_, ErrorKind>(gchunks[t].1),
                self.chunk_cache.wf(),
                self.chunk_cache@ == spec_pairs_into(cleared, gchunks.take(i as int)),
                cleared == old(self).chunk_cache@,
                self.master_index == old(self).master_index,
                self.bundles == old(self).bundles,
                self.backups == old(self).backups,
                self.cache_threshold == old(self).cache_threshold,
                model_consistent(self.model()) ==> forall|k: Seq<u8>| #![auto]
                    self.chunk_cache@.contains_key(k) ==> spec_get_chunk(self.model(), k) == Ok::<
                        _,
                        ErrorKind,
                    >(self.chunk_cache@[k]),
            decreases count - i,
        {
            proof {
                assert(gchunks.take(i as int + 1).drop_last() =~= gchunks.take(i as int));
                assert(gchunks[i as int] == (chunks@[i as int].0@, chunks@[i as int].1@));
            }
            let id = crate::wire::clone_bytes(chunks[i].0.as_slice());
            let data = crate::wire::clone_bytes(chunks[i].1.as_slice());
            self.chunk_cache.insert(id, data);
            i = i + 1;
        }
        proof {
            assert(gchunks.take(count as int) =~= gchunks);
        }
    }
}

/// Running one framed instruction at `pos`: what it emits — a resolved
/// chunk, literal bytes, or both in that order — and the position after it.
pub open spec fn spec_step(m: RepoModel, s: Seq<u8>, pos: int) -> Result<
    (Seq<u8>, int),
    ErrorKind,
> {
    match spec_framed_fields(s, pos) {
        None => Err(ErrorKind::FramingError),
        Some((fs, p)) => {
            if !(pos < p <= s.len()) {
                Err(ErrorKind::FramingError)
            } else {
                match spec_instruction(fs) {
                    None => Err(ErrorKind::MalformedInstruction),
                    Some(g) => {
                        let chunk_part = match g.chunk_to_emit {
                            Some(id) => spec_get_chunk(m, id),
                            None => Ok(Seq::empty()),
                        };
                        match chunk_part {
                            Err(k) => Err(k),
                            Ok(c) => {
                                let lit = match g.bytes_to_emit {
                                    Some(b) => b,
                                    None => Seq::empty(),
                                };
                                Ok((c + lit, p))
                            },
                        }
                    },
                }
            }
        },
    }
}

/// Running an instruction stream from `pos`: each framed instruction emits
/// its bytes, until the stream is exhausted.
pub open spec fn spec_run_instructions(m: RepoModel, s: Seq<u8>, pos: int) -> Result<
    Seq<u8>,
    ErrorKind,
>
    decreases s.len() - pos,
{
    if pos == s.len() {
        Ok(Seq::empty())
    } else if !(0 <= pos < s.len()) {
        Err(ErrorKind::FramingError)
    } else {
        match spec_step(m, s, pos) {
            Err(k) => Err(k),
            Ok((e, p)) => {
                if !(pos < p <= s.len()) {
                    Err(ErrorKind::FramingError)
                } else {
                    match spec_run_instructions(m, s, p) {
                        Err(k) => Err(k),
                        Ok(rest) => Ok(e + rest),
                    }
                }
            },
        }
    }
}

impl ZBackup {
    /// Run an instruction stream, appending what it emits to `output`:
    /// each framed instruction names a chunk to resolve, carries literal
    /// bytes, or both.
    #[verifier::loop_isolation(false)]
    #[verifier::rlimit(100)]
    #[verifier::spinoff_prover]
    pub fn follow_instructions(&mut self, input: &[u8], output: &mut Vec<u8>) -> (r: Result<
        (),
        TfError,
    >)
        requires
            old(self).inv(),
        ensures
            final(self).inv(),
            final(self).model() == old(self).model(),
            final(self).threshold() == old(self).threshold(),
            old(output)@.is_prefix_of(final(output)@),
            model_consistent(old(self).model()) ==> match spec_run_instructions(
                old(self).model(),
                input@,
                0,
            ) {
                Ok(bytes) => r is Ok && final(output)@ == old(output)@ + bytes,
                Err(k) => r is Err && r->Err_0.kind == k,
            },
    {
        let n = input.len();
        let ghost m = old(self).model();
        let ghost out0 = output@;
        let mut pos: usize = 0;
        loop
            invariant
                pos <= n,
                n == input@.len(),
                self.inv(),
                self.model() == m,
                self.threshold() == old(self).threshold(),
                out0.is_prefix_of(output@),
                model_consistent(m) ==> match spec_run_instructions(m, input@, pos as int) {
                    Ok(rest) => spec_run_instructions(m, input@, 0) == Ok::<_, ErrorKind>(
                        output@.skip(out0.len() as int) + rest,
                    ),
                    Err(k) => spec_run_instructions(m, input@, 0) == Err::<Seq<u8>, ErrorKind>(k),
                },
            decreases n - pos,
        {
            if pos == n {
                proof {
                    assert(output@ =~= out0 + output@.skip(out0.len() as int));
                    assert(output@.skip(out0.len() as int) + Seq::<u8>::empty() =~= output@.skip(
                        out0.len() as int,
                    ));
                }
                return Ok(());
            }
            let ghost out_before = output@;
            let ghost emitted_before = output@.skip(out0.len() as int);
            let p = match self.step_instruction(input, pos, output) {
                Err(e) => {
                    return Err(e);
                },
                Ok(p) => p,
            };
            proof {
                assert(out0.is_prefix_of(output@));
                if model_consistent(m) {
                    let (e, _) = spec_step(m, input@, pos as int)->Ok_0;
                    assert(output@.skip(out0.len() as int) =~= emitted_before + e);
                    match spec_run_instructions(m, input@, p as int) {
                        Ok(rest) => {
                            assert(spec_run_instructions(m, input@, pos as int) == Ok::<
                                _,
                                ErrorKind,
                            >(e + rest));
                            assert(emitted_before + (e + rest) =~= (emitted_before + e) + rest);
                        },
                        Err(k) => {
                            assert(spec_run_instructions(m, input@, pos as int) == Err::<
                                Seq<u8>,
                                ErrorKind,
                            >(k));
                        },
                    }
                }
            }
            pos = p;
        }
    }

    /// Run the one framed instruction at `pos`, appending what it emits to
    /// `output` and returning the position after it.
    #[verifier::rlimit(100)]
    #[verifier::spinoff_prover]
    fn step_instruction(&mut self, input: &[u8], pos: usize, output: &mut Vec<u8>) -> (r: Result<
        usize,
        TfError,
    >)
        requires
            old(self).inv(),
            pos < input@.len(),
        ensures
            final(self).inv(),
            final(self).model() == old(self).model(),
            final(self).threshold() == old(self).threshold(),
            old(output)@.is_prefix_of(final(output)@),
            r is Ok ==> pos < r->Ok_0 <= input@.len(),
            model_consistent(old(self).model()) ==> match spec_step(
                old(self).model(),
                input@,
                pos as int,
            ) {
                Ok((e, p)) => r is Ok && r->Ok_0 == p && final(output)@ == old(output)@ + e,
                Err(k) => r is Err && r->Err_0.kind == k,
            },
    {
        let (fields, p) = match read_framed_fields(input, pos) {
            None => {
                proof {
                    assert(old(output)@.is_prefix_of(output@)) by {
                        assert(output@.take(old(output)@.len() as int) =~= output@);
                    }
                }
                return Err(TfError::new(ErrorKind::FramingError, "instruction framing"));
            },
            Some(fp) => fp,
        };
        let (chunk_opt, bytes_opt) = match crate::messages::parse_instruction(&fields) {
            None => {
                proof {
                    assert(output@.take(old(output)@.len() as int) =~= output@);
                }
                return Err(
                    TfError::new(
                        ErrorKind::MalformedInstruction,
                        "instruction names neither chunk nor bytes",
                    ),
                );
            },
            Some(cb) => cb,
        };
        let ghost chunk_bytes: Seq<u8>;
        match &chunk_opt {
            Some(cid) => {
                let data = match self.get_chunk(cid.as_slice()) {
                    Err(e) => {
                        proof {
                            assert(output@.take(old(output)@.len() as int) =~= output@);
                        }
                        return Err(e);
                    },
                    Ok(d) => d,
                };
                proof {
                    chunk_bytes = data@;
                }
                output.extend_from_slice(data.as_slice());
            },
            None => {
                proof {
                    chunk_bytes = Seq::empty();
                }
            },
        }
        let ghost lit_bytes: Seq<u8>;
        match &bytes_opt {
            Some(b) => {
                proof {
                    lit_bytes = b@;
                }
                output.extend_from_slice(b.as_slice());
            },
            None => {
                proof {
                    lit_bytes = Seq::empty();
                }
            },
        }
        proof {
            assert(output@ =~= old(output)@ + (chunk_bytes + lit_bytes));
            assert(output@.take(old(output)@.len() as int) =~= old(output)@);
        }
        Ok(p)
    }

    /// Read a backup descriptor file held in memory: its framed header,
    /// then the framed descriptor carrying the instruction stream and the
    /// expansion count.
    pub fn read_backup_file(s: &[u8]) -> (r: Result<(Vec<u8>, u32), TfError>)
        ensures
            match spec_read_backup_file(s@) {
                Ok(g) => r is Ok && r->Ok_0.0@ == g.backup_data && r->Ok_0.1 == g.iterations,
                Err(k) => r is Err && r->Err_0.kind == k,
            },
    {
        let p = match check_header(s) {
            Err(k) => {
                return Err(TfError::new(k, "backup file header"));
            },
            Ok(p) => p,
        };
        let (fields, _) = match read_framed_fields(s, p) {
            None => {
                return Err(TfError::new(ErrorKind::FramingError, "backup descriptor framing"));
            },
            Some(fp) => fp,
        };
        match parse_backup_info(&fields) {
            None => Err(TfError::new(ErrorKind::FramingError, "backup descriptor fields")),
            Some(di) => Ok(di),
        }
    }

    /// Reconstruct a backup's content and append it to `output`: read its
    /// descriptor, expand the instruction stream through the asked-for
    /// passes, and run the final stream.
    #[verifier::loop_isolation(false)]
    #[verifier::rlimit(60)]
    pub fn restore(&mut self, backup_name: &str, output: &mut Vec<u8>) -> (r: Result<(), TfError>)
        requires
            old(self).inv(),
        ensures
            final(self).inv(),
            final(self).model() == old(self).model(),
            final(self).threshold() == old(self).threshold(),
            !old(self).model().backups.contains_key(backup_name.spec_bytes()) ==> r is Err
                && r->Err_0.kind == ErrorKind::IoError,
            model_consistent(old(self).model()) ==> match spec_restore(
                old(self).model(),
                backup_name.spec_bytes(),
            ) {
                Ok(bytes) => r is Ok && final(output)@ == old(output)@ + bytes,
                Err(k) => r is Err && r->Err_0.kind == k,
            },
    {
        let ghost m = old(self).model();
        let current = match self.read_and_expand_backup(backup_name) {
            Err(e) => {
                proof {
                    lemma_restore_is_expanded_run(m, backup_name.spec_bytes());
                }
                return Err(e);
            },
            Ok(c) => c,
        };
        proof {
            lemma_restore_is_expanded_run(m, backup_name.spec_bytes());
        }
        match self.follow_instructions(current.as_slice(), output) {
            Err(e) => Err(e),
            Ok(_) => Ok(()),
        }
    }

    /// Read a backup's descriptor and run every expansion pass, leaving the
    /// final instruction stream whose own run emits the restored content.
    #[verifier::loop_isolation(false)]
    #[verifier::rlimit(60)]
    pub fn read_and_expand_backup(&mut self, backup_name: &str) -> (r: Result<Vec<u8>, TfError>)
        requires
            old(self).inv(),
        ensures
            final(self).inv(),
            final(self).model() == old(self).model(),
            final(self).threshold() == old(self).threshold(),
            !old(self).model().backups.contains_key(backup_name.spec_bytes()) ==> r is Err
                && r->Err_0.kind == ErrorKind::IoError,
            model_consistent(old(self).model()) ==> match spec_expand_stream(
                old(self).model(),
                backup_name.spec_bytes(),
            ) {
                Ok(fs) => r is Ok && r->Ok_0@ == fs,
                Err(k) => r is Err && r->Err_0.kind == k,
            },
    {
        let ghost m = old(self).model();
        let key = backup_name.as_bytes();
        let file = match self.backups.get(key) {
            None => {
                return Err(TfError::new(ErrorKind::IoError, "backup file absent"));
            },
            Some(f) => crate::wire::clone_bytes(f.as_slice()),
        };
        let (data, iterations) = match Self::read_backup_file(file.as_slice()) {
            Err(e) => {
                return Err(e);
            },
            Ok(di) => di,
        };
        let ghost data0 = data@;
        let mut current = data;
        let mut it: u32 = 0;
        while it < iterations
            invariant
                it <= iterations,
                self.inv(),
                self.model() == m,
                self.threshold() == old(self).threshold(),
                model_consistent(m) ==> spec_final_stream(m, current@, (iterations - it) as u32)
                    == spec_final_stream(m, data0, iterations),
            decreases iterations - it,
        {
            let mut temp: Vec<u8> = Vec::new();
            match self.follow_instructions(current.as_slice(), &mut temp) {
                Err(e) => {
                    return Err(e);
                },
                Ok(_) => {},
            }
            proof {
                if model_consistent(m) {
                    assert(spec_run_instructions(m, current@, 0) is Ok);
                    assert(Seq::<u8>::empty() + spec_run_instructions(m, current@, 0)->Ok_0
                        =~= spec_run_instructions(m, current@, 0)->Ok_0);
                }
            }
            current = temp;
            it = it + 1;
        }
        Ok(current)
    }
}

/// Expanding a backup to its final instruction stream, by name.
pub open spec fn spec_expand_stream(m: RepoModel, name: Seq<u8>) -> Result<Seq<u8>, ErrorKind> {
    if !m.backups.contains_key(name) {
        Err(ErrorKind::IoError)
    } else {
        match spec_read_backup_file(m.backups[name]) {
            Err(k) => Err(k),
            Ok(g) => spec_final_stream(m, g.backup_data, g.iterations),
        }
    }
}

/// A restore is the run of the backup's expanded final stream.
pub proof fn lemma_restore_is_expanded_run(m: RepoModel, name: Seq<u8>)
    ensures
        spec_restore(m, name) == match spec_expand_stream(m, name) {
            Err(k) => Err(k),
            Ok(fs) => spec_run_instructions(m, fs, 0),
        },
{
    if m.backups.contains_key(name) {
        match spec_read_backup_file(m.backups[name]) {
            Err(_) => {},
            Ok(g) => {
                lemma_expand_is_final_run(m, g.backup_data, g.iterations);
            },
        }
    }
}

/// A backup descriptor file: a framed header, then one framed descriptor.
pub open spec fn spec_read_backup_file(s: Seq<u8>) -> Result<
    crate::messages::GBackupInfo,
    ErrorKind,
> {
    match spec_check_header(s) {
        Err(k) => Err(k),
        Ok(p) => match spec_framed_fields(s, p) {
            None => Err(ErrorKind::FramingError),
            Some((fs, _)) => match spec_backup_info(fs) {
                None => Err(ErrorKind::FramingError),
                Some(g) => Ok(g),
            },
        },
    }
}

/// Expanding a backup's instruction stream: each pass runs the stream and
/// feeds what it emits to the next pass; the last pass's output is the
/// restored content.
pub open spec fn spec_expand(m: RepoModel, data: Seq<u8>, its: u32) -> Result<Seq<u8>, ErrorKind>
    decreases its,
{
    match spec_run_instructions(m, data, 0) {
        Err(k) => Err(k),
        Ok(out) => if its == 0 {
            Ok(out)
        } else {
            spec_expand(m, out, (its - 1) as u32)
        },
    }
}

/// The final instruction stream of a backup: the stream left after running
/// the expansion passes, whose own run emits the restored content.
pub open spec fn spec_final_stream(m: RepoModel, data: Seq<u8>, its: u32) -> Result<
    Seq<u8>,
    ErrorKind,
>
    decreases its,
{
    if its == 0 {
        Ok(data)
    } else {
        match spec_run_instructions(m, data, 0) {
            Err(k) => Err(k),
            Ok(out) => spec_final_stream(m, out, (its - 1) as u32),
        }
    }
}

/// Expanding a stream is running its final stream: the passes before the
/// last only rewrite the stream.
pub proof fn lemma_expand_is_final_run(m: RepoModel, data: Seq<u8>, its: u32)
    ensures
        spec_expand(m, data, its) == match spec_final_stream(m, data, its) {
            Err(k) => Err(k),
            Ok(fs) => spec_run_instructions(m, fs, 0),
        },
    decreases its,
{
    if its > 0 {
        match spec_run_instructions(m, data, 0) {
            Err(_) => {},
            Ok(out) => {
                lemma_expand_is_final_run(m, out, (its - 1) as u32);
            },
        }
    }
}

/// Restoring a backup by name: read its descriptor from the repository's
/// backup files and expand it.
pub open spec fn spec_restore(m: RepoModel, name: Seq<u8>) -> Result<Seq<u8>, ErrorKind> {
    if !m.backups.contains_key(name) {
        Err(ErrorKind::IoError)
    } else {
        match spec_read_backup_file(m.backups[name]) {
            Err(k) => Err(k),
            Ok(g) => spec_expand(m, g.backup_data, g.iterations),
        }
    }
}

/// Law: what a restore emits is a function of the repository's content and
/// the backup's name alone — never of the chunk cache's state — so
/// restoring the same backup twice yields identical bytes.
pub proof fn lemma_restore_repeatable(m: RepoModel, name: Seq<u8>, first: Seq<u8>, second: Seq<u8>)
    requires
        spec_restore(m, name) == Ok::<Seq<u8>, ErrorKind>(first),
        spec_restore(m, name) == Ok::<Seq<u8>, ErrorKind>(second),
    ensures
        first == second,
{
}

/// Law: a chunk identifier absent from the master index resolves to the
/// `UnknownChunk` error, never to bytes.
pub proof fn lemma_unknown_chunk(m: RepoModel, id: Seq<u8>)
    requires
        !m.index.contains_key(id),
    ensures
        spec_get_chunk(m, id) == Err::<Seq<u8>, ErrorKind>(ErrorKind::UnknownChunk),
{
    reveal(spec_get_chunk);
}

/// The first `ID_BYTES` bytes of a slice as a fixed-width identifier.
pub fn to_array(slice: &[u8]) -> (r: [u8; 24])
    requires
        slice@.len() >= 24,
    ensures
        r@ == slice@.take(24),
{
    let mut out: [u8; 24] = [0; 24];
    let mut i: usize = 0;
    while i < 24
        invariant
            i <= 24,
            slice@.len() >= 24,
            forall|j: int| 0 <= j < i ==> out@[j] == slice@[j],
        decreases 24 - i,
    {
        out[i] = slice[i];
        i = i + 1;
    }
    proof {
        assert(out@ =~= slice@.take(24));
    }
    out
}

/// The bytes stored under `id` in a run of identifier/bytes pairs, the last
/// occurrence winning.
fn find_last_chunk(chunks: &Vec<(Vec<u8>, Vec<u8>)>, id: &[u8]) -> (r: Option<Vec<u8>>)
    ensures
        match spec_find_last(views_of_pairs(chunks@), id@) {
            None => r is None,
            Some(v) => r is Some && r->Some_0@ == v,
        },
{
    let ghost gchunks = views_of_pairs(chunks@);
    let mut i = chunks.len();
    proof {
        assert(gchunks.take(i as int) =~= gchunks);
    }
    while i > 0
        invariant
            i <= chunks@.len(),
            gchunks == views_of_pairs(chunks@),
            spec_find_last(gchunks, id@) == spec_find_last(gchunks.take(i as int), id@),
        decreases i,
    {
        proof {
            assert(gchunks.take(i as int).last() == gchunks[i as int - 1]);
            assert(gchunks.take(i as int).drop_last() =~= gchunks.take(i as int - 1));
            assert(gchunks[i as int - 1] == (chunks@[i as int - 1].0@, chunks@[i as int - 1].1@));
        }
        if crate::bytemap::bytes_eq(chunks[i - 1].0.as_slice(), id) {
            return Some(crate::wire::clone_bytes(chunks[i - 1].1.as_slice()));
        }
        i = i - 1;
    }
    None
}

} // verus!
