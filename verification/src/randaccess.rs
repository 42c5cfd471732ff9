//! The random-access view of one backup: the final instruction stream is
//! turned once into an ordered, contiguous list of byte-range references,
//! and a cursor then supports arbitrary seeks and reads over the virtual
//! reconstructed stream, resolving chunk bytes lazily through the
//! repository's chunk cache.

use vstd::prelude::*;

use crate::errors::{ErrorKind, TfError};
use crate::messages::spec_instruction;
use crate::repo::{
    model_consistent, spec_final_stream, spec_get_chunk, spec_read_backup_file, spec_restore,
    spec_run_instructions, spec_step, RepoModel, ZBackup,
};
use crate::wire::{read_framed_fields, spec_framed_fields};
use vstd::string::StringSliceAdditionalSpecFns;

verus! {

/// What one reference stands for: a chunk resolved on demand, or literal
/// bytes owned by the view.
pub enum InstructionRefContent {
    Chunk(Vec<u8>),
    Bytes(Vec<u8>),
}

/// What one reference stands for, at the mathematical level.
pub enum GRefContent {
    Chunk(Seq<u8>),
    Bytes(Seq<u8>),
}

impl View for InstructionRefContent {
    type V = GRefContent;

    open spec fn view(&self) -> GRefContent {
        match self {
            InstructionRefContent::Chunk(id) => GRefContent::Chunk(id@),
            InstructionRefContent::Bytes(b) => GRefContent::Bytes(b@),
        }
    }
}

/// One byte range of the virtual stream and what fills it.
pub struct InstructionRef {
    pub content: InstructionRefContent,
    pub start: u64,
    pub end: u64,
}

/// One byte range, at the mathematical level.
pub struct GRef {
    pub content: GRefContent,
    pub start: u64,
    pub end: u64,
}

impl View for InstructionRef {
    type V = GRef;

    open spec fn view(&self) -> GRef {
        GRef { content: self.content@, start: self.start, end: self.end }
    }
}

/// The references of a sequence, each taken to its mathematical form.
pub open spec fn views_of_refs(s: Seq<InstructionRef>) -> Seq<GRef> {
    s.map_values(|r: InstructionRef| r@)
}

/// The references one instruction contributes from `offset`: a chunk range
/// sized by the master index, then a literal range, in that order.
pub open spec fn spec_refs_step(
    m: RepoModel,
    g: crate::messages::GInstruction,
    offset: u64,
) -> Result<(Seq<GRef>, u64), ErrorKind> {
    let first = match g.chunk_to_emit {
        Some(id) => if !m.index.contains_key(id) {
            Err(ErrorKind::UnknownChunk)
        } else if offset + m.index[id].size > u64::MAX {
            Err(ErrorKind::IndexCorrupt)
        } else {
            Ok(
                (
                    seq![
                        GRef {
                            content: GRefContent::Chunk(id),
                            start: offset,
                            end: (offset + m.index[id].size) as u64,
                        },
                    ],
                    (offset + m.index[id].size) as u64,
                ),
            )
        },
        None => Ok((Seq::empty(), offset)),
    };
    match first {
        Err(k) => Err(k),
        Ok((rs1, off1)) => match g.bytes_to_emit {
            Some(b) => if off1 + b.len() > u64::MAX {
                Err(ErrorKind::IndexCorrupt)
            } else {
                Ok(
                    (
                        rs1.push(
                            GRef {
                                content: GRefContent::Bytes(b),
                                start: off1,
                                end: (off1 + b.len()) as u64,
                            },
                        ),
                        (off1 + b.len()) as u64,
                    ),
                )
            },
            None => Ok((rs1, off1)),
        },
    }
}

/// Building the reference list of an instruction stream from `pos`, the
/// next byte range starting at `offset`: one pass, in instruction order,
/// without resolving any chunk.
pub open spec fn spec_build_refs(m: RepoModel, s: Seq<u8>, pos: int, offset: u64) -> Result<
    Seq<GRef>,
    ErrorKind,
>
    decreases s.len() - pos,
{
    if pos == s.len() {
        Ok(Seq::empty())
    } else if !(0 <= pos < s.len()) {
        Err(ErrorKind::FramingError)
    } else {
        match spec_framed_fields(s, pos) {
            None => Err(ErrorKind::FramingError),
            Some((fs, p)) => {
                if !(pos < p <= s.len()) {
                    Err(ErrorKind::FramingError)
                } else {
                    match spec_instruction(fs) {
                        None => Err(ErrorKind::MalformedInstruction),
                        Some(g) => match spec_refs_step(m, g, offset) {
                            Err(k) => Err(k),
                            Ok((rs, off2)) => match spec_build_refs(m, s, p, off2) {
                                Err(k) => Err(k),
                                Ok(rest) => Ok(rs + rest),
                            },
                        },
                    }
                }
            },
        }
    }
}

/// The reference list of a backup: read its descriptor, expand the
/// instruction stream through the asked-for passes, and build references
/// over the final stream.
pub open spec fn spec_view_refs(m: RepoModel, name: Seq<u8>) -> Result<Seq<GRef>, ErrorKind> {
    if !m.backups.contains_key(name) {
        Err(ErrorKind::IoError)
    } else {
        match spec_read_backup_file(m.backups[name]) {
            Err(k) => Err(k),
            Ok(g) => match spec_final_stream(m, g.backup_data, g.iterations) {
                Err(k) => Err(k),
                Ok(fs) => spec_build_refs(m, fs, 0, 0),
            },
        }
    }
}

/// A well-shaped reference list: the ranges partition `[0, size)`
/// contiguously and in order, and each range is as long as its content — a
/// literal's bytes, or the indexed size of its chunk.
pub open spec fn refs_wf(m: RepoModel, refs: Seq<GRef>, size: u64) -> bool {
    &&& refs.len() == 0 ==> size == 0
    &&& refs.len() > 0 ==> refs[0].start == 0 && refs[refs.len() - 1].end == size
    &&& forall|i: int| 0 <= i < refs.len() ==> (#[trigger] refs[i]).start <= refs[i].end
    &&& forall|i: int| 0 <= i < refs.len() - 1 ==> (#[trigger] refs[i]).end == refs[i + 1].start
    &&& forall|i: int|
        0 <= i < refs.len() ==> match (#[trigger] refs[i]).content {
            GRefContent::Chunk(id) => m.index.contains_key(id) && m.index[id].size == refs[i].end
                - refs[i].start,
            GRefContent::Bytes(b) => b.len() == refs[i].end - refs[i].start,
        }
}

/// What fills one reference: its chunk's resolved bytes, or its own
/// literal bytes.
pub open spec fn spec_ref_bytes(m: RepoModel, r: GRef) -> Result<Seq<u8>, ErrorKind> {
    match r.content {
        GRefContent::Chunk(id) => spec_get_chunk(m, id),
        GRefContent::Bytes(b) => Ok(b),
    }
}

/// Every reference resolves, to exactly as many bytes as its range covers.
pub open spec fn refs_resolved(m: RepoModel, refs: Seq<GRef>) -> bool {
    forall|i: int|
        0 <= i < refs.len() ==> spec_ref_bytes(m, #[trigger] refs[i]) is Ok && spec_ref_bytes(
            m,
            refs[i],
        )->Ok_0.len() == refs[i].end - refs[i].start
}

/// On a consistent repository a well-shaped reference list resolves.
pub proof fn lemma_wf_refs_resolved(m: RepoModel, refs: Seq<GRef>, size: u64)
    requires
        model_consistent(m),
        refs_wf(m, refs, size),
    ensures
        refs_resolved(m, refs),
{
    reveal(model_consistent);
}

/// The whole virtual stream: every reference's bytes, in order.
#[verifier::opaque]
pub open spec fn spec_virtual(m: RepoModel, refs: Seq<GRef>) -> Seq<u8>
    decreases refs.len(),
{
    if refs.len() == 0 {
        Seq::empty()
    } else {
        spec_virtual(m, refs.drop_last()) + spec_ref_bytes(m, refs.last())->Ok_0
    }
}

/// A well-shaped prefix is well shaped for its own end.
proof fn lemma_refs_wf_drop_last(m: RepoModel, refs: Seq<GRef>, size: u64)
    requires
        refs_wf(m, refs, size),
        refs.len() > 0,
    ensures
        refs_wf(m, refs.drop_last(), refs.last().start),
{
    let d = refs.drop_last();
    assert(forall|i: int| 0 <= i < d.len() ==> d[i] == refs[i]);
}

/// The virtual stream is exactly `size` bytes long.
pub proof fn lemma_virtual_len(m: RepoModel, refs: Seq<GRef>, size: u64)
    requires
        refs_wf(m, refs, size),
        refs_resolved(m, refs),
    ensures
        spec_virtual(m, refs).len() == size,
    decreases refs.len(),
{
    reveal(spec_virtual);
    if refs.len() > 0 {
        lemma_refs_wf_drop_last(m, refs, size);
        assert(refs_resolved(m, refs.drop_last())) by {
            assert(forall|i: int|
                0 <= i < refs.len() - 1 ==> refs.drop_last()[i] == refs[i]);
        }
        lemma_virtual_len(m, refs.drop_last(), refs.last().start);
    }
}

/// Each reference's bytes sit at its own range of the virtual stream.
#[verifier::rlimit(100)]
#[verifier::spinoff_prover]
pub proof fn lemma_virtual_slice(m: RepoModel, refs: Seq<GRef>, size: u64, j: int)
    requires
        refs_wf(m, refs, size),
        refs_resolved(m, refs),
        0 <= j < refs.len(),
    ensures
        spec_virtual(m, refs).subrange(refs[j].start as int, refs[j].end as int) == spec_ref_bytes(
            m,
            refs[j],
        )->Ok_0,
    decreases refs.len(),
{
    reveal(spec_virtual);
    lemma_refs_wf_drop_last(m, refs, size);
    assert(refs_resolved(m, refs.drop_last())) by {
        assert(forall|i: int| 0 <= i < refs.len() - 1 ==> refs.drop_last()[i] == refs[i]);
    }
    lemma_virtual_len(m, refs.drop_last(), refs.last().start);
    if j == refs.len() - 1 {
        assert(spec_virtual(m, refs).subrange(refs[j].start as int, refs[j].end as int)
            =~= spec_ref_bytes(m, refs[j])->Ok_0);
    } else {
        lemma_virtual_slice(m, refs.drop_last(), refs.last().start, j);
        assert(refs.drop_last()[j] == refs[j]);
        assert(refs[j].end <= refs.last().start) by {
            lemma_ends_bounded(m, refs.drop_last(), refs.last().start, j);
        }
        assert(spec_virtual(m, refs).subrange(refs[j].start as int, refs[j].end as int)
            =~= spec_virtual(m, refs.drop_last()).subrange(
            refs[j].start as int,
            refs[j].end as int,
        ));
    }
}

/// No range runs past the end.
proof fn lemma_ends_bounded(m: RepoModel, refs: Seq<GRef>, size: u64, j: int)
    requires
        refs_wf(m, refs, size),
        0 <= j < refs.len(),
    ensures
        refs[j].end <= size,
    decreases refs.len(),
{
    if j < refs.len() - 1 {
        lemma_refs_wf_drop_last(m, refs, size);
        lemma_ends_bounded(m, refs.drop_last(), refs.last().start, j);
    }
}

/// Some range covers every position short of the end.
proof fn lemma_covering_exists(m: RepoModel, refs: Seq<GRef>, size: u64, pos: u64)
    requires
        refs_wf(m, refs, size),
        pos < size,
    ensures
        exists|j: int|
            0 <= j < refs.len() && (#[trigger] refs[j]).start <= pos < refs[j].end,
    decreases refs.len(),
{
    if refs.len() > 0 {
        if pos >= refs.last().start {
            assert(refs[refs.len() - 1].start <= pos < refs[refs.len() - 1].end);
        } else {
            lemma_refs_wf_drop_last(m, refs, size);
            lemma_covering_exists(m, refs.drop_last(), refs.last().start, pos);
            let j = choose|j: int|
                0 <= j < refs.drop_last().len() && (#[trigger] refs.drop_last()[j]).start <= pos
                    < refs.drop_last()[j].end;
            assert(refs[j].start <= pos < refs[j].end);
        }
    }
}

/// The virtual stream of one reference is that reference's bytes.
proof fn lemma_virtual_one(m: RepoModel, r: GRef)
    ensures
        spec_virtual(m, seq![r]) == spec_ref_bytes(m, r)->Ok_0,
{
    reveal(spec_virtual);
    assert(seq![r].drop_last() =~= Seq::<GRef>::empty());
    assert(seq![r].last() == r);
    assert(spec_virtual(m, Seq::<GRef>::empty()) == Seq::<u8>::empty());
    assert(spec_virtual(m, seq![r]) == spec_virtual(m, seq![r].drop_last()) + spec_ref_bytes(
        m,
        seq![r].last(),
    )->Ok_0);
    assert(Seq::<u8>::empty() + spec_ref_bytes(m, r)->Ok_0 =~= spec_ref_bytes(m, r)->Ok_0);
}

/// Concatenating reference lists concatenates their virtual streams.
pub proof fn lemma_virtual_concat(m: RepoModel, a: Seq<GRef>, b: Seq<GRef>)
    ensures
        spec_virtual(m, a + b) == spec_virtual(m, a) + spec_virtual(m, b),
    decreases b.len(),
{
    reveal(spec_virtual);
    if b.len() == 0 {
        assert(a + b =~= a);
        assert(spec_virtual(m, a) + spec_virtual(m, b) =~= spec_virtual(m, a));
    } else {
        assert((a + b).drop_last() =~= a + b.drop_last());
        lemma_virtual_concat(m, a, b.drop_last());
        assert((a + b).last() == b.last());
        assert(spec_virtual(m, a) + (spec_virtual(m, b.drop_last()) + spec_ref_bytes(
            m,
            b.last(),
        )->Ok_0) =~= (spec_virtual(m, a) + spec_virtual(m, b.drop_last())) + spec_ref_bytes(
            m,
            b.last(),
        )->Ok_0);
    }
}

/// On a consistent repository, building references for a stream succeeds
/// exactly where running it succeeds, and the references' virtual stream
/// is byte-identical to what the run emits.
#[verifier::rlimit(100)]
#[verifier::spinoff_prover]
pub proof fn lemma_refs_match_run(m: RepoModel, s: Seq<u8>, pos: int, offset: u64)
    requires
        model_consistent(m),
        spec_build_refs(m, s, pos, offset) is Ok,
    ensures
        spec_run_instructions(m, s, pos) is Ok,
        spec_virtual(m, spec_build_refs(m, s, pos, offset)->Ok_0) == spec_run_instructions(
            m,
            s,
            pos,
        )->Ok_0,
    decreases s.len() - pos,
{
    reveal(model_consistent);
    reveal(spec_virtual);
    if pos == s.len() {
    } else {
        let (fs, p) = spec_framed_fields(s, pos)->Some_0;
        let g = spec_instruction(fs)->Some_0;
        let (rs, off2) = spec_refs_step(m, g, offset)->Ok_0;
        let rest_refs = spec_build_refs(m, s, p, off2)->Ok_0;
        lemma_refs_match_run(m, s, p, off2);
        let rest_run = spec_run_instructions(m, s, p)->Ok_0;
        let c = match g.chunk_to_emit {
            Some(id) => spec_get_chunk(m, id)->Ok_0,
            None => Seq::<u8>::empty(),
        };
        let lit = match g.bytes_to_emit {
            Some(b) => b,
            None => Seq::<u8>::empty(),
        };
        assert(spec_step(m, s, pos) == Ok::<_, crate::errors::ErrorKind>((c + lit, p)));
        assert(spec_virtual(m, rs) == c + lit) by {
            match g.chunk_to_emit {
                Some(id) => {
                    let r1 = rs[0];
                    assert(r1.content == GRefContent::Chunk(id));
                    lemma_virtual_one(m, r1);
                    match g.bytes_to_emit {
                        Some(b) => {
                            assert(rs.last().content == GRefContent::Bytes(b));
                            assert(rs.drop_last() =~= seq![r1]);
                            assert(spec_virtual(m, rs) == spec_virtual(m, seq![r1]) + lit);
                            assert(c + lit =~= spec_virtual(m, seq![r1]) + lit);
                        },
                        None => {
                            assert(rs =~= seq![r1]);
                            assert(c + lit =~= c);
                        },
                    }
                },
                None => {
                    assert(c =~= Seq::<u8>::empty());
                    match g.bytes_to_emit {
                        Some(b) => {
                            assert(rs =~= seq![rs.last()]);
                            assert(rs.last().content == GRefContent::Bytes(b));
                            lemma_virtual_one(m, rs.last());
                            assert(c + lit =~= lit);
                        },
                        None => {
                            assert(rs =~= Seq::<GRef>::empty());
                            assert(c + lit =~= Seq::<u8>::empty());
                        },
                    }
                },
            }
        }
        lemma_virtual_concat(m, rs, rest_refs);
        assert((c + lit) + rest_run =~= c + lit + rest_run);
    }
}

/// Law: a sequential restore and the random-access view of the same backup
/// present byte-identical content: reading the view from the start to its
/// end yields exactly what restore emits.
pub proof fn lemma_random_access_matches_restore(m: RepoModel, name: Seq<u8>)
    requires
        model_consistent(m),
        spec_view_refs(m, name) is Ok,
    ensures
        spec_restore(m, name) is Ok,
        spec_virtual(m, spec_view_refs(m, name)->Ok_0) == spec_restore(m, name)->Ok_0,
{
    crate::repo::lemma_restore_is_expanded_run(m, name);
    let g = spec_read_backup_file(m.backups[name])->Ok_0;
    let fs = spec_final_stream(m, g.backup_data, g.iterations)->Ok_0;
    lemma_refs_match_run(m, fs, 0, 0);
}

/// Law: what a read yields is a pure function of the repository's content,
/// the view's references and the position read from: repeating a seek and
/// a read yields the same bytes, whatever happened in between.
pub proof fn lemma_read_pure(
    m: RepoModel,
    refs: Seq<GRef>,
    pos: int,
    n: int,
    first: Seq<u8>,
    second: Seq<u8>,
)
    requires
        first == spec_virtual(m, refs).subrange(pos, pos + n),
        second == spec_virtual(m, refs).subrange(pos, pos + n),
    ensures
        first == second,
{
}

/// Where a seek lands: absolute, relative to the current position, or
/// relative to the end, the relative forms wrapping as 64-bit arithmetic
/// does.
pub enum SeekFrom {
    Start(u64),
    Current(i64),
    End(i64),
}

/// The position a seek computes, before any clamping — none is applied:
/// seeking past the end is allowed and later reads yield no bytes.
pub open spec fn spec_seek_pos(size: u64, position: u64, from: SeekFrom) -> u64 {
    match from {
        SeekFrom::Start(v) => v,
        SeekFrom::Current(d) => ((position + d) % 0x1_0000_0000_0000_0000) as u64,
        SeekFrom::End(d) => ((size + d) % 0x1_0000_0000_0000_0000) as u64,
    }
}

/// A 64-bit sum that wraps around, as seeking relative to a position does.
fn add_signed_wrap(p: u64, d: i64) -> (r: u64)
    ensures
        r == ((p + d) % 0x1_0000_0000_0000_0000) as u64,
{
    let ghost m: int = 0x1_0000_0000_0000_0000;
    if d >= 0 {
        let du = d as u64;
        if p <= u64::MAX - du {
            proof {
                vstd::arithmetic::div_mod::lemma_small_mod((p + du) as nat, m as nat);
            }
            p + du
        } else {
            let r = p - (u64::MAX - du) - 1;
            proof {
                vstd::arithmetic::div_mod::lemma_mod_multiples_vanish(1, r as int, m);
                vstd::arithmetic::div_mod::lemma_small_mod(r as nat, m as nat);
            }
            r
        }
    } else {
        let du = (-(d as i128)) as u64;
        if p >= du {
            proof {
                vstd::arithmetic::div_mod::lemma_small_mod((p - du) as nat, m as nat);
            }
            p - du
        } else {
            let r = (u64::MAX - du) + 1 + p;
            proof {
                vstd::arithmetic::div_mod::lemma_mod_multiples_vanish(-1, r as int, m);
                vstd::arithmetic::div_mod::lemma_small_mod(r as nat, m as nat);
            }
            r
        }
    }
}

/// A random-access view over one backup's reconstructed stream: an
/// immutable, contiguous, ordered list of byte-range references, and a
/// cursor position.
pub struct RandomAccess {
    instruction_refs: Vec<InstructionRef>,
    size: u64,
    position: u64,
    repo_model: Ghost<RepoModel>,
}

impl RandomAccess {
    /// The repository content this view was built against.
    pub closed spec fn model(&self) -> RepoModel {
        self.repo_model@
    }

    /// The view's byte-range references.
    pub closed spec fn refs(&self) -> Seq<GRef> {
        views_of_refs(self.instruction_refs@)
    }

    /// The virtual stream's total size in bytes.
    pub closed spec fn total_size(&self) -> u64 {
        self.size
    }

    /// The current cursor position.
    pub closed spec fn pos(&self) -> u64 {
        self.position
    }

    /// What building establishes and every operation preserves: the
    /// references partition the stream and are sized by their contents.
    pub closed spec fn wf(&self) -> bool {
        refs_wf(self.repo_model@, views_of_refs(self.instruction_refs@), self.size)
    }

    /// The total size, for callers.
    pub fn size(&self) -> (r: u64)
        ensures
            r == self.total_size(),
    {
        self.size
    }

    /// The current position, for callers.
    pub fn position(&self) -> (r: u64)
        ensures
            r == self.pos(),
    {
        self.position
    }

    /// Build the view of one backup: expand its instruction stream, then
    /// turn the final stream into byte-range references in one pass, sizing
    /// chunk ranges from the master index without loading any bundle.
    #[verifier::loop_isolation(false)]
    #[verifier::rlimit(100)]
    #[verifier::spinoff_prover]
    pub fn new(repo: &mut ZBackup, backup_name: &str) -> (r: Result<RandomAccess, TfError>)
        requires
            old(repo).inv(),
        ensures
            final(repo).inv(),
            final(repo).model() == old(repo).model(),
            final(repo).threshold() == old(repo).threshold(),
            r is Ok ==> r->Ok_0.wf() && r->Ok_0.model() == old(repo).model() && r->Ok_0.pos() == 0,
            model_consistent(old(repo).model()) ==> match spec_view_refs(
                old(repo).model(),
                backup_name.spec_bytes(),
            ) {
                Ok(refs) => r is Ok && r->Ok_0.refs() == refs,
                Err(k) => r is Err && r->Err_0.kind == k,
            },
    {
        let ghost m = old(repo).model();
        let stream = match repo.read_and_expand_backup(backup_name) {
            Err(e) => {
                return Err(e);
            },
            Ok(s) => s,
        };
        let n = stream.len();
        let mut refs: Vec<InstructionRef> = Vec::new();
        let mut offset: u64 = 0;
        let mut pos: usize = 0;
        proof {
            assert(views_of_refs(refs@) =~= Seq::<GRef>::empty());
        }
        loop
            invariant
                pos <= n,
                n == stream@.len(),
                repo.inv(),
                repo.model() == m,
                repo.threshold() == old(repo).threshold(),
                refs_wf(m, views_of_refs(refs@), offset),
                model_consistent(m) ==> match spec_build_refs(m, stream@, pos as int, offset) {
                    Ok(rest) => spec_build_refs(m, stream@, 0, 0) == Ok::<_, ErrorKind>(
                        views_of_refs(refs@) + rest,
                    ),
                    Err(k) => spec_build_refs(m, stream@, 0, 0) == Err::<Seq<GRef>, ErrorKind>(k),
                },
            decreases n - pos,
        {
            if pos == n {
                proof {
                    assert(views_of_refs(refs@) + Seq::<GRef>::empty() =~= views_of_refs(refs@));
                }
                return Ok(
                    RandomAccess {
                        instruction_refs: refs,
                        size: offset,
                        position: 0,
                        repo_model: Ghost(m),
                    },
                );
            }
            let (fields, p) = match read_framed_fields(stream.as_slice(), pos) {
                None => {
                    return Err(TfError::new(ErrorKind::FramingError, "instruction framing"));
                },
                Some(fp) => fp,
            };
            let (chunk_opt, bytes_opt) = match crate::messages::parse_instruction(&fields) {
                None => {
                    return Err(
                        TfError::new(
                            ErrorKind::MalformedInstruction,
                            "instruction names neither chunk nor bytes",
                        ),
                    );
                },
                Some(cb) => cb,
            };
            let ghost refs_before = views_of_refs(refs@);
            let ghost offset_before = offset;
            match &chunk_opt {
                Some(cid) => {
                    let entry = match repo.get_index_entry(cid.as_slice()) {
                        Err(e) => {
                            return Err(e);
                        },
                        Ok(e) => e,
                    };
                    if entry.size > u64::MAX - offset {
                        return Err(
                            TfError::new(ErrorKind::IndexCorrupt, "virtual stream size overflow"),
                        );
                    }
                    let new_ref = InstructionRef {
                        content: InstructionRefContent::Chunk(crate::wire::clone_bytes(
                            cid.as_slice(),
                        )),
                        start: offset,
                        end: offset + entry.size,
                    };
                    proof {
                        assert(views_of_refs(refs@.push(new_ref)) =~= views_of_refs(refs@).push(
                            new_ref@,
                        ));
                    }
                    refs.push(new_ref);
                    offset = offset + entry.size;
                },
                None => {},
            }
            match &bytes_opt {
                Some(b) => {
                    if (b.len() as u64) > u64::MAX - offset {
                        return Err(
                            TfError::new(ErrorKind::IndexCorrupt, "virtual stream size overflow"),
                        );
                    }
                    let new_ref = InstructionRef {
                        content: InstructionRefContent::Bytes(crate::wire::clone_bytes(
                            b.as_slice(),
                        )),
                        start: offset,
                        end: offset + (b.len() as u64),
                    };
                    proof {
                        assert(views_of_refs(refs@.push(new_ref)) =~= views_of_refs(refs@).push(
                            new_ref@,
                        ));
                    }
                    refs.push(new_ref);
                    offset = offset + (b.len() as u64);
                },
                None => {},
            }
            proof {
                let g = spec_instruction(crate::wire::views_of_fields(fields@))->Some_0;
                assert(spec_refs_step(m, g, offset_before) is Ok);
                let (rs, off2) = spec_refs_step(m, g, offset_before)->Ok_0;
                assert(off2 == offset);
                assert(views_of_refs(refs@) =~= refs_before + rs);
                if model_consistent(m) {
                    match spec_build_refs(m, stream@, p as int, offset) {
                        Ok(rest) => {
                            assert((refs_before + rs) + rest =~= refs_before + (rs + rest));
                        },
                        Err(_) => {},
                    }
                }
            }
            pos = p;
        }
    }

    /// Read up to `want` bytes at the current position, advancing it:
    /// each covered reference is materialized whole — a chunk through the
    /// repository's cache — and copied from. Past the end of the stream a
    /// read yields no bytes, and no error.
    #[verifier::rlimit(100)]
    #[verifier::spinoff_prover]
    pub fn read(&mut self, repo: &mut ZBackup, want: usize) -> (r: Result<Vec<u8>, TfError>)
        requires
            old(self).wf(),
            old(repo).inv(),
            old(repo).model() == old(self).model(),
        ensures
            final(repo).inv(),
            final(repo).model() == old(repo).model(),
            final(repo).threshold() == old(repo).threshold(),
            final(self).wf(),
            final(self).refs() == old(self).refs(),
            final(self).total_size() == old(self).total_size(),
            final(self).model() == old(self).model(),
            old(self).pos() >= old(self).total_size() ==> r is Ok && r->Ok_0@ == Seq::<u8>::empty()
                && final(self).pos() == old(self).pos(),
            model_consistent(old(self).model()) ==> r is Ok && ({
                let vs = spec_virtual(old(self).model(), old(self).refs());
                let avail = if old(self).pos() <= old(self).total_size() {
                    old(self).total_size() - old(self).pos()
                } else {
                    0
                };
                let n = if want <= avail {
                    want as int
                } else {
                    avail
                };
                let base = if old(self).pos() <= old(self).total_size() {
                    old(self).pos() as int
                } else {
                    old(self).total_size() as int
                };
                r->Ok_0@ == vs.subrange(base, base + n) && final(self).pos() == old(self).pos()
                    + n
            }),
    {
        let ghost m = self.repo_model@;
        let ghost refsv = views_of_refs(self.instruction_refs@);
        proof {
            if model_consistent(m) {
                lemma_wf_refs_resolved(m, refsv, self.size);
                lemma_virtual_len(m, refsv, self.size);
            }
        }
        if self.position >= self.size || want == 0 {
            let empty_out: Vec<u8> = Vec::new();
            proof {
                if model_consistent(m) {
                    let base: int = if self.position <= self.size {
                        self.position as int
                    } else {
                        self.size as int
                    };
                    assert(empty_out@ =~= spec_virtual(m, refsv).subrange(base, base));
                }
            }
            return Ok(empty_out);
        }
        let ghost pos0 = self.position;
        let mut out: Vec<u8> = Vec::new();
        while out.len() < want && self.position < self.size
            invariant
                self.size == old(self).size,
                m == self.repo_model@,
                m == old(self).model(),
                m == old(repo).model(),
                refsv == views_of_refs(self.instruction_refs@),
                refsv == old(self).refs(),
                refs_wf(m, refsv, self.size),
                repo.inv(),
                repo.model() == m,
                repo.threshold() == old(repo).threshold(),
                out@.len() <= want,
                pos0 == old(self).pos(),
                pos0 < self.size,
                pos0 <= self.position <= self.size,
                self.position == pos0 + out@.len(),
                model_consistent(m) ==> out@ == spec_virtual(m, refsv).subrange(
                    pos0 as int,
                    pos0 + out@.len(),
                ),
            decreases want - out@.len(),
        {
            let ghost pos_before = self.position;
            let ghost out_before = out@;
            match self.read_step(repo, want, &mut out) {
                Err(e) => {
                    return Err(e);
                },
                Ok(_) => {},
            }
            proof {
                if model_consistent(m) {
                    lemma_wf_refs_resolved(m, refsv, self.size);
                    lemma_virtual_len(m, refsv, self.size);
                    lemma_subrange_join(
                        spec_virtual(m, refsv),
                        pos0 as int,
                        pos_before as int,
                        self.position as int,
                    );
                }
            }
        }
        Ok(out)
    }

    /// Copy bytes from the one reference covering the current position,
    /// advancing the position by at least one byte.
    #[verifier::rlimit(100)]
    #[verifier::spinoff_prover]
    fn read_step(&mut self, repo: &mut ZBackup, want: usize, out: &mut Vec<u8>) -> (r: Result<
        (),
        TfError,
    >)
        requires
            old(self).wf(),
            old(repo).inv(),
            old(repo).model() == old(self).model(),
            old(out)@.len() < want,
            old(self).pos() < old(self).total_size(),
        ensures
            final(repo).inv(),
            final(repo).model() == old(repo).model(),
            final(repo).threshold() == old(repo).threshold(),
            final(self).wf(),
            final(self).refs() == old(self).refs(),
            final(self).total_size() == old(self).total_size(),
            final(self).model() == old(self).model(),
            r is Ok ==> old(self).pos() < final(self).pos() <= final(self).total_size()
                && final(out)@.len() == old(out)@.len() + (final(self).pos() - old(self).pos())
                && final(out)@.len() <= want,
            model_consistent(old(self).model()) ==> r is Ok && final(out)@ == old(out)@
                + spec_virtual(old(self).model(), old(self).refs()).subrange(
                old(self).pos() as int,
                final(self).pos() as int,
            ),
    {
        let ghost m = self.repo_model@;
        let ghost refsv = views_of_refs(self.instruction_refs@);
        proof {
            if model_consistent(m) {
                lemma_wf_refs_resolved(m, refsv, self.size);
                lemma_virtual_len(m, refsv, self.size);
            }
        }
        let j = match covering_ref(&self.instruction_refs, self.position) {
            None => {
                proof {
                    lemma_covering_exists(m, refsv, self.size, self.position);
                }
                return Err(TfError::new(ErrorKind::BundleCorrupt, "position not covered"));
            },
            Some(j) => j,
        };
        let start = self.instruction_refs[j].start;
        let end = self.instruction_refs[j].end;
        let bytes: Vec<u8> = match materialize_ref(repo, &self.instruction_refs[j]) {
            Err(e) => {
                return Err(e);
            },
            Ok(d) => d,
        };
        if (bytes.len() as u64) != end - start {
            proof {
                if model_consistent(m) {
                    assert(spec_ref_bytes(m, refsv[j as int])->Ok_0.len() == end - start);
                }
            }
            return Err(TfError::new(ErrorKind::ChunkSizeMismatch, "reference width"));
        }
        let off_in = (self.position - start) as usize;
        let avail = end - self.position;
        let need = (want - out.len()) as u64;
        let take = if need < avail {
            need
        } else {
            avail
        };
        let take_us = take as usize;
        proof {
            lemma_ends_bounded(m, refsv, self.size, j as int);
            if model_consistent(m) {
                lemma_portion_of_virtual(
                    m,
                    refsv,
                    self.size,
                    j as int,
                    self.position as int,
                    take as int,
                );
            }
        }
        out.extend_from_slice(
            vstd::slice::slice_subrange(bytes.as_slice(), off_in, off_in + take_us),
        );
        self.position = self.position + take;
        Ok(())
    }

    /// Move the cursor: to an absolute position, or relative to the current
    /// position or the end, the relative forms wrapping as 64-bit
    /// arithmetic does. Seeking past the end is permitted; the next read
    /// then yields no bytes.
    pub fn seek(&mut self, from: SeekFrom) -> (r: u64)
        requires
            old(self).wf(),
        ensures
            final(self).wf(),
            final(self).refs() == old(self).refs(),
            final(self).total_size() == old(self).total_size(),
            final(self).model() == old(self).model(),
            final(self).pos() == spec_seek_pos(
                old(self).total_size(),
                old(self).pos(),
                from,
            ),
            r == final(self).pos(),
    {
        self.position = match from {
            SeekFrom::Start(v) => v,
            SeekFrom::Current(d) => add_signed_wrap(self.position, d),
            SeekFrom::End(d) => add_signed_wrap(self.size, d),
        };
        self.position
    }
}

/// Adjacent slices of one stream join into one slice.
proof fn lemma_subrange_join(vs: Seq<u8>, a: int, b: int, c: int)
    requires
        0 <= a <= b <= c <= vs.len(),
    ensures
        vs.subrange(a, b) + vs.subrange(b, c) == vs.subrange(a, c),
{
    assert(vs.subrange(a, b) + vs.subrange(b, c) =~= vs.subrange(a, c));
}

/// A stretch of one reference's bytes is the same stretch of the virtual
/// stream.
proof fn lemma_portion_of_virtual(
    m: RepoModel,
    refs: Seq<GRef>,
    size: u64,
    j: int,
    position: int,
    take: int,
)
    requires
        refs_wf(m, refs, size),
        refs_resolved(m, refs),
        0 <= j < refs.len(),
        refs[j].start <= position,
        0 <= take,
        position + take <= refs[j].end,
    ensures
        spec_ref_bytes(m, refs[j])->Ok_0.subrange(
            position - refs[j].start,
            position - refs[j].start + take,
        ) == spec_virtual(m, refs).subrange(position, position + take),
{
    lemma_virtual_slice(m, refs, size, j);
    lemma_virtual_len(m, refs, size);
    lemma_ends_bounded(m, refs, size, j);
    assert(spec_ref_bytes(m, refs[j])->Ok_0.subrange(
        position - refs[j].start,
        position - refs[j].start + take,
    ) =~= spec_virtual(m, refs).subrange(position, position + take));
}

/// Materialize one reference whole: resolve its chunk through the
/// repository's cache, or copy its literal bytes.
fn materialize_ref(repo: &mut ZBackup, r: &InstructionRef) -> (res: Result<Vec<u8>, TfError>)
    requires
        old(repo).inv(),
        match r@.content {
            GRefContent::Chunk(id) => old(repo).model().index.contains_key(id),
            GRefContent::Bytes(_) => true,
        },
    ensures
        final(repo).inv(),
        final(repo).model() == old(repo).model(),
        final(repo).threshold() == old(repo).threshold(),
        model_consistent(old(repo).model()) ==> res is Ok && spec_ref_bytes(
            old(repo).model(),
            r@,
        ) is Ok && res->Ok_0@ == spec_ref_bytes(old(repo).model(), r@)->Ok_0,
{
    proof {
        reveal(model_consistent);
    }
    match &r.content {
        InstructionRefContent::Chunk(id) => {
            match repo.get_chunk(id.as_slice()) {
                Err(e) => Err(e),
                Ok(d) => Ok(d),
            }
        },
        InstructionRefContent::Bytes(b) => Ok(crate::wire::clone_bytes(b.as_slice())),
    }
}

/// The index of the reference covering `pos`, scanning in order.
fn covering_ref(refs: &Vec<InstructionRef>, pos: u64) -> (r: Option<usize>)
    ensures
        match r {
            Some(j) => j < refs@.len() && views_of_refs(refs@)[j as int].start <= pos
                < views_of_refs(refs@)[j as int].end,
            None => forall|j: int|
                0 <= j < refs@.len() ==> !((#[trigger] views_of_refs(refs@)[j]).start <= pos
                    < views_of_refs(refs@)[j].end),
        },
{
    let n = refs.len();
    let mut i: usize = 0;
    while i < n
        invariant
            i <= n,
            n == refs@.len(),
            forall|j: int|
                0 <= j < i ==> !((#[trigger] views_of_refs(refs@)[j]).start <= pos
                    < views_of_refs(refs@)[j].end),
        decreases n - i,
    {
        proof {
            assert(views_of_refs(refs@)[i as int] == refs@[i as int]@);
        }
        if refs[i].start <= pos && pos < refs[i].end {
            return Some(i);
        }
        i = i + 1;
    }
    None
}

} // verus!
