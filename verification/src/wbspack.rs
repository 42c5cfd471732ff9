//! The pack container: a fixed header, data blocks at caller-chosen
//! alignment, a footer listing every block's offset and size, and the
//! reader that stitches the blocks back together.

use vstd::bytes::{spec_u64_from_le_bytes, spec_u64_to_le_bytes, u64_from_le_bytes, u64_to_le_bytes};
use vstd::prelude::*;

use crate::bytemap::bytes_eq;
use crate::errors::{ErrorKind, TfError};

verus! {

/// One data block's place in the packed stream.
#[derive(Clone, Copy, Debug, PartialEq, Eq, Structural)]
pub struct BlockReference {
    pub offset: u64,
    pub size: u64,
}

/// The line opening every pack file.
pub open spec fn spec_magic_line() -> Seq<u8> {
    seq![0x57u8, 0x42, 0x53, 0x20, 0x50, 0x41, 0x43, 0x4b, 0, 0, 0, 0, 0, 0, 0, 0]
}

/// The line opening the header.
pub open spec fn spec_header_start_line() -> Seq<u8> {
    seq![0x48u8, 0x45, 0x41, 0x44, 0x45, 0x52, 0x20, 0x53, 0x54, 0x41, 0x52, 0x54, 0, 0, 0, 0]
}

/// The line naming the one supported version.
pub open spec fn spec_version_line() -> Seq<u8> {
    seq![0x56u8, 0x45, 0x52, 0x53, 0x49, 0x4f, 0x4e, 0x20, 0x30, 0, 0, 0, 0, 0, 0, 0]
}

/// The line naming the packed payload's shape.
pub open spec fn spec_tarpack_line() -> Seq<u8> {
    seq![0x54u8, 0x41, 0x52, 0x50, 0x41, 0x43, 0x4b, 0x20, 0x30, 0, 0, 0, 0, 0, 0, 0]
}

/// The line closing the header.
pub open spec fn spec_header_end_line() -> Seq<u8> {
    seq![0x48u8, 0x45, 0x41, 0x44, 0x45, 0x52, 0x20, 0x45, 0x4e, 0x44, 0, 0, 0, 0, 0, 0]
}

/// The line opening the footer's block list.
pub open spec fn spec_blocks_start_line() -> Seq<u8> {
    seq![0x42u8, 0x4c, 0x4f, 0x43, 0x4b, 0x53, 0x20, 0x53, 0x54, 0x41, 0x52, 0x54, 0, 0, 0, 0]
}

/// The line closing the footer's block list.
pub open spec fn spec_blocks_end_line() -> Seq<u8> {
    seq![0x42u8, 0x4c, 0x4f, 0x43, 0x4b, 0x53, 0x20, 0x45, 0x4e, 0x44, 0, 0, 0, 0, 0, 0]
}

/// The line closing the whole pack file.
pub open spec fn spec_end_line() -> Seq<u8> {
    seq![0x57u8, 0x42, 0x53, 0x20, 0x50, 0x41, 0x43, 0x4b, 0x20, 0x45, 0x4e, 0x44, 0, 0, 0, 0]
}

/// The five lines every pack file opens with.
pub open spec fn spec_header_bytes() -> Seq<u8> {
    spec_magic_line() + spec_header_start_line() + spec_version_line() + spec_tarpack_line()
        + spec_header_end_line()
}

/// How many padding bytes bring `offset` to a whole multiple of
/// `alignment`.
pub open spec fn spec_pad(offset: int, alignment: int) -> int {
    if offset % alignment == 0 {
        0
    } else {
        alignment - offset % alignment
    }
}

/// The footer: the block list between its marker lines, then where that
/// list starts, how many entries it has, and the closing line.
pub open spec fn spec_footer_bytes(refs: Seq<BlockReference>, blocks_offset: u64) -> Seq<u8> {
    spec_blocks_start_line() + spec_refs_bytes(refs) + spec_blocks_end_line()
        + spec_u64_to_le_bytes(blocks_offset) + spec_u64_to_le_bytes(refs.len() as u64)
        + spec_end_line()
}

/// Each block reference as sixteen bytes: offset then size, little endian.
pub open spec fn spec_refs_bytes(refs: Seq<BlockReference>) -> Seq<u8>
    decreases refs.len(),
{
    if refs.len() == 0 {
        Seq::empty()
    } else {
        spec_refs_bytes(refs.drop_last()) + spec_u64_to_le_bytes(refs.last().offset)
            + spec_u64_to_le_bytes(refs.last().size)
    }
}

/// A writer that packs blocks into a buffer, remembering where each block
/// landed so the footer can list them.
pub struct Packer {
    output: Vec<u8>,
    offset: u64,
    alignment: u64,
    block_references: Vec<BlockReference>,
}

/// A block whose place in the footer's list is reserved but whose bytes are
/// written later.
pub struct Deferred {
    content: Vec<u8>,
    index: u64,
}

impl Deferred {
    /// The bytes to write later.
    pub closed spec fn content(&self) -> Seq<u8> {
        self.content@
    }

    /// The reserved slot in the block list.
    pub closed spec fn index(&self) -> u64 {
        self.index
    }
}

impl Packer {
    /// The bytes written so far.
    pub closed spec fn out(&self) -> Seq<u8> {
        self.output@
    }

    /// The stream position after everything written so far; starts at the
    /// offset the packer was created with.
    pub closed spec fn offset(&self) -> u64 {
        self.offset
    }

    /// The block alignment the packer was created with.
    pub closed spec fn alignment(&self) -> u64 {
        self.alignment
    }

    /// The blocks recorded so far.
    pub closed spec fn refs(&self) -> Seq<BlockReference> {
        self.block_references@
    }

    /// Give up the packed bytes.
    pub fn into_bytes(self) -> (r: Vec<u8>)
        ensures
            r@ == self.out(),
    {
        self.output
    }

    /// The blocks recorded so far, for the caller.
    pub fn block_list(&self) -> (r: Vec<BlockReference>)
        ensures
            r@ == self.refs(),
    {
        let mut out: Vec<BlockReference> = Vec::new();
        let n = self.block_references.len();
        let mut i: usize = 0;
        while i < n
            invariant
                i <= n,
                n == self.block_references@.len(),
                out@ =~= self.block_references@.take(i as int),
            decreases n - i,
        {
            out.push(self.block_references[i]);
            i = i + 1;
        }
        proof {
            assert(self.block_references@.take(n as int) =~= self.block_references@);
        }
        out
    }

    /// A packer writing from stream position `offset`, aligning blocks to
    /// `alignment` bytes.
    pub fn new(offset: u64, alignment: u64) -> (r: Result<Packer, TfError>)
        ensures
            r is Ok,
            r->Ok_0.out() == Seq::<u8>::empty(),
            r->Ok_0.offset() == offset,
            r->Ok_0.alignment() == alignment,
            r->Ok_0.refs() == Seq::<BlockReference>::empty(),
    {
        Ok(Packer { output: Vec::new(), offset, alignment, block_references: Vec::new() })
    }

    /// Write one block and record where it landed.
    pub fn write(&mut self, data: &[u8]) -> (r: Result<(), TfError>)
        requires
            old(self).offset() + data@.len() <= u64::MAX,
            old(self).out().len() + data@.len() <= usize::MAX,
        ensures
            r is Ok,
            final(self).out() == old(self).out() + data@,
            final(self).offset() == old(self).offset() + data@.len(),
            final(self).alignment() == old(self).alignment(),
            final(self).refs() == old(self).refs().push(
                BlockReference { offset: old(self).offset(), size: data@.len() as u64 },
            ),
    {
        self.output.extend_from_slice(data);
        self.block_references.push(
            BlockReference { offset: self.offset, size: data.len() as u64 },
        );
        self.offset = self.offset + (data.len() as u64);
        Ok(())
    }

    /// Reserve the next slot of the block list for bytes written later.
    pub fn defer(&mut self, content: Vec<u8>) -> (r: Result<Deferred, TfError>)
        ensures
            r is Ok,
            r->Ok_0.content() == content@,
            r->Ok_0.index() == old(self).refs().len(),
            final(self).out() == old(self).out(),
            final(self).offset() == old(self).offset(),
            final(self).alignment() == old(self).alignment(),
            final(self).refs() == old(self).refs().push(BlockReference { offset: 0, size: 0 }),
    {
        let deferred = Deferred { content, index: self.block_references.len() as u64 };
        self.block_references.push(BlockReference { offset: 0, size: 0 });
        Ok(deferred)
    }

    /// Write a deferred block and fill its reserved slot.
    pub fn write_deferred(&mut self, deferred: &Deferred) -> (r: Result<(), TfError>)
        requires
            deferred.index() < old(self).refs().len(),
            old(self).offset() + deferred.content().len() <= u64::MAX,
            old(self).out().len() + deferred.content().len() <= usize::MAX,
        ensures
            r is Ok,
            final(self).out() == old(self).out() + deferred.content(),
            final(self).offset() == old(self).offset() + deferred.content().len(),
            final(self).alignment() == old(self).alignment(),
            final(self).refs() == old(self).refs().update(
                deferred.index() as int,
                BlockReference {
                    offset: old(self).offset(),
                    size: deferred.content().len() as u64,
                },
            ),
    {
        self.output.extend_from_slice(deferred.content.as_slice());
        let count = self.block_references.len();
        let slot = BlockReference { offset: self.offset, size: deferred.content.len() as u64 };
        let idx = deferred.index as usize;
        self.block_references[idx] = slot;
        self.offset = self.offset + (deferred.content.len() as u64);
        Ok(())
    }

    /// Pad with zero bytes to the next multiple of the alignment.
    pub fn align(&mut self) -> (r: Result<(), TfError>)
        requires
            old(self).alignment() > 0,
            old(self).alignment() <= usize::MAX,
            old(self).offset() + old(self).alignment() <= u64::MAX,
            old(self).out().len() + old(self).alignment() <= usize::MAX,
        ensures
            r is Ok,
            final(self).out() == old(self).out() + Seq::new(
                spec_pad(old(self).offset() as int, old(self).alignment() as int) as nat,
                |i: int| 0u8,
            ),
            final(self).offset() == old(self).offset() + spec_pad(
                old(self).offset() as int,
                old(self).alignment() as int,
            ),
            final(self).offset() % old(self).alignment() == 0,
            final(self).alignment() == old(self).alignment(),
            final(self).refs() == old(self).refs(),
    {
        let remainder = self.offset % self.alignment;
        if remainder != 0 {
            let padding = self.alignment - remainder;
            let zeroes: Vec<u8> = vec![0u8; padding as usize];
            proof {
                assert(zeroes@ =~= Seq::new(
                    spec_pad(self.offset as int, self.alignment as int) as nat,
                    |i: int| 0u8,
                ));
                let a = self.alignment as int;
                let off = self.offset as int;
                vstd::arithmetic::div_mod::lemma_fundamental_div_mod(off, a);
                assert((off + (a - off % a)) == a * (off / a + 1)) by (nonlinear_arith)
                    requires
                        off == a * (off / a) + off % a,
                ;
                vstd::arithmetic::div_mod::lemma_mod_multiples_basic(off / a + 1, a);
            }
            self.output.extend_from_slice(zeroes.as_slice());
            self.offset = self.offset + padding;
        } else {
            proof {
                assert(self.output@ + Seq::new(0, |i: int| 0u8) =~= self.output@);
            }
        }
        Ok(())
    }

    /// Write the five header lines.
    pub fn write_header(&mut self) -> (r: Result<(), TfError>)
        requires
            old(self).offset() + 80 <= u64::MAX,
            old(self).out().len() + 80 <= usize::MAX,
        ensures
            r is Ok,
            final(self).out() == old(self).out() + spec_header_bytes(),
            final(self).offset() == old(self).offset() + 80,
            final(self).alignment() == old(self).alignment(),
            final(self).refs() == old(self).refs(),
    {
        let magic: [u8; 16] = [0x57, 0x42, 0x53, 0x20, 0x50, 0x41, 0x43, 0x4b, 0, 0, 0, 0, 0, 0, 0, 0];
        let hstart: [u8; 16] = [
            0x48,
            0x45,
            0x41,
            0x44,
            0x45,
            0x52,
            0x20,
            0x53,
            0x54,
            0x41,
            0x52,
            0x54,
            0,
            0,
            0,
            0,
        ];
        let version: [u8; 16] = [
            0x56,
            0x45,
            0x52,
            0x53,
            0x49,
            0x4f,
            0x4e,
            0x20,
            0x30,
            0,
            0,
            0,
            0,
            0,
            0,
            0,
        ];
        let tarpack: [u8; 16] = [
            0x54,
            0x41,
            0x52,
            0x50,
            0x41,
            0x43,
            0x4b,
            0x20,
            0x30,
            0,
            0,
            0,
            0,
            0,
            0,
            0,
        ];
        let hend: [u8; 16] = [
            0x48,
            0x45,
            0x41,
            0x44,
            0x45,
            0x52,
            0x20,
            0x45,
            0x4e,
            0x44,
            0,
            0,
            0,
            0,
            0,
            0,
        ];
        self.output.extend_from_slice(&magic);
        self.output.extend_from_slice(&hstart);
        self.output.extend_from_slice(&version);
        self.output.extend_from_slice(&tarpack);
        self.output.extend_from_slice(&hend);
        self.offset = self.offset + 80;
        proof {
            assert(magic@ =~= spec_magic_line());
            assert(hstart@ =~= spec_header_start_line());
            assert(version@ =~= spec_version_line());
            assert(tarpack@ =~= spec_tarpack_line());
            assert(hend@ =~= spec_header_end_line());
            assert(old(self).out() + magic@ + hstart@ + version@ + tarpack@ + hend@ =~= old(
                self,
            ).out() + spec_header_bytes());
        }
        Ok(())
    }

    /// Align, then write the footer: the block list, where it starts, how
    /// many entries it has, and the closing line.
    #[verifier::loop_isolation(false)]
    pub fn write_footer(&mut self) -> (r: Result<(), TfError>)
        requires
            old(self).alignment() > 0,
            old(self).alignment() <= usize::MAX,
            old(self).offset() + old(self).alignment() + 80 + 16 * old(self).refs().len()
                <= u64::MAX,
            old(self).out().len() + old(self).alignment() + 80 + 16 * old(self).refs().len()
                <= usize::MAX,
        ensures
            r is Ok,
            final(self).out() == old(self).out() + Seq::new(
                spec_pad(old(self).offset() as int, old(self).alignment() as int) as nat,
                |i: int| 0u8,
            ) + spec_footer_bytes(
                old(self).refs(),
                (old(self).offset() + spec_pad(
                    old(self).offset() as int,
                    old(self).alignment() as int,
                )) as u64,
            ),
            final(self).refs() == old(self).refs(),
    {
        match self.align() {
            Ok(_) => {},
            Err(e) => {
                return Err(e);
            },
        }
        let blocks_offset = self.offset;
        let bstart: [u8; 16] = [
            0x42,
            0x4c,
            0x4f,
            0x43,
            0x4b,
            0x53,
            0x20,
            0x53,
            0x54,
            0x41,
            0x52,
            0x54,
            0,
            0,
            0,
            0,
        ];
        proof {
            assert(bstart@ =~= spec_blocks_start_line());
        }
        self.output.extend_from_slice(&bstart);
        self.offset = self.offset + 16;
        let ghost out_before = self.output@;
        let count = self.block_references.len();
        let mut i: usize = 0;
        proof {
            assert(spec_refs_bytes(self.block_references@.take(0)) =~= Seq::<u8>::empty());
            assert(out_before + Seq::<u8>::empty() =~= out_before);
        }
        while i < count
            invariant
                i <= count,
                self.output@ == out_before + spec_refs_bytes(
                    self.block_references@.take(i as int),
                ),
                self.output@.len() <= out_before.len() + 16 * i,
                self.block_references@ == old(self).refs(),
                self.offset == old(self).offset() + spec_pad(
                    old(self).offset() as int,
                    old(self).alignment() as int,
                ) + 16,
                self.alignment == old(self).alignment(),
            decreases count - i,
        {
            let off_bytes = u64_to_le_bytes(self.block_references[i].offset);
            let size_bytes = u64_to_le_bytes(self.block_references[i].size);
            self.output.extend_from_slice(off_bytes.as_slice());
            self.output.extend_from_slice(size_bytes.as_slice());
            proof {
                vstd::bytes::lemma_auto_spec_u64_to_from_le_bytes();
                assert(self.block_references@.take(i as int + 1).drop_last()
                    =~= self.block_references@.take(i as int));
                assert(self.block_references@.take(i as int + 1).last()
                    == self.block_references@[i as int]);
            }
            i = i + 1;
        }
        proof {
            assert(self.block_references@.take(count as int) =~= self.block_references@);
        }
        let bend: [u8; 16] = [
            0x42,
            0x4c,
            0x4f,
            0x43,
            0x4b,
            0x53,
            0x20,
            0x45,
            0x4e,
            0x44,
            0,
            0,
            0,
            0,
            0,
            0,
        ];
        proof {
            assert(bend@ =~= spec_blocks_end_line());
        }
        self.output.extend_from_slice(&bend);
        let off_loc = u64_to_le_bytes(blocks_offset);
        self.output.extend_from_slice(off_loc.as_slice());
        let count_loc = u64_to_le_bytes(count as u64);
        self.output.extend_from_slice(count_loc.as_slice());
        let endline: [u8; 16] = [
            0x57,
            0x42,
            0x53,
            0x20,
            0x50,
            0x41,
            0x43,
            0x4b,
            0x20,
            0x45,
            0x4e,
            0x44,
            0,
            0,
            0,
            0,
        ];
        proof {
            assert(endline@ =~= spec_end_line());
        }
        self.output.extend_from_slice(&endline);
        self.offset = self.offset + 48;
        proof {
            assert(final(self).out() =~= old(self).out() + Seq::new(
                spec_pad(old(self).offset() as int, old(self).alignment() as int) as nat,
                |j: int| 0u8,
            ) + spec_footer_bytes(old(self).refs(), blocks_offset));
        }
        Ok(())
    }
}

/// Scanning header lines from `pos`: the closing line ends the header,
/// which must have named the supported version by then.
pub open spec fn spec_scan_header(s: Seq<u8>, pos: int, got_version: bool) -> Result<
    int,
    ErrorKind,
>
    decreases s.len() - pos,
{
    if !(0 <= pos && pos + 16 <= s.len()) {
        Err(ErrorKind::FramingError)
    } else {
        let line = s.subrange(pos, pos + 16);
        if line == spec_header_end_line() {
            if got_version {
                Ok(pos + 16)
            } else {
                Err(ErrorKind::UnsupportedVersion)
            }
        } else {
            spec_scan_header(s, pos + 16, got_version || line == spec_version_line())
        }
    }
}

/// Reading a pack file's header: the magic line, the header-start line,
/// then lines up to the header-end line, the version line among them.
pub open spec fn spec_read_pack_header(s: Seq<u8>) -> Result<int, ErrorKind> {
    if s.len() < 32 {
        Err(ErrorKind::FramingError)
    } else if s.subrange(0, 16) != spec_magic_line() || s.subrange(16, 32)
        != spec_header_start_line() {
        Err(ErrorKind::FramingError)
    } else {
        spec_scan_header(s, 32, false)
    }
}

/// Read a pack file's header, returning the position after it.
pub fn read_header(s: &[u8]) -> (r: Result<usize, TfError>)
    ensures
        match spec_read_pack_header(s@) {
            Ok(p) => r is Ok && r->Ok_0 == p,
            Err(k) => r is Err && r->Err_0.kind == k,
        },
{
    let n = s.len();
    if n < 32 {
        return Err(TfError::new(ErrorKind::FramingError, "pack header truncated"));
    }
    let magic: [u8; 16] = [0x57, 0x42, 0x53, 0x20, 0x50, 0x41, 0x43, 0x4b, 0, 0, 0, 0, 0, 0, 0, 0];
    let hstart: [u8; 16] = [
        0x48,
        0x45,
        0x41,
        0x44,
        0x45,
        0x52,
        0x20,
        0x53,
        0x54,
        0x41,
        0x52,
        0x54,
        0,
        0,
        0,
        0,
    ];
    proof {
        assert(magic@ =~= spec_magic_line());
        assert(hstart@ =~= spec_header_start_line());
    }
    if !bytes_eq(vstd::slice::slice_subrange(s, 0, 16), &magic) {
        return Err(TfError::new(ErrorKind::FramingError, "pack magic line"));
    }
    if !bytes_eq(vstd::slice::slice_subrange(s, 16, 32), &hstart) {
        return Err(TfError::new(ErrorKind::FramingError, "pack header start line"));
    }
    let version: [u8; 16] = [
        0x56,
        0x45,
        0x52,
        0x53,
        0x49,
        0x4f,
        0x4e,
        0x20,
        0x30,
        0,
        0,
        0,
        0,
        0,
        0,
        0,
    ];
    let hend: [u8; 16] = [
        0x48,
        0x45,
        0x41,
        0x44,
        0x45,
        0x52,
        0x20,
        0x45,
        0x4e,
        0x44,
        0,
        0,
        0,
        0,
        0,
        0,
    ];
    proof {
        assert(version@ =~= spec_version_line());
        assert(hend@ =~= spec_header_end_line());
    }
    let mut pos: usize = 32;
    let mut got_version = false;
    loop
        invariant
            32 <= pos <= n,
            n == s@.len(),
            version@ == spec_version_line(),
            hend@ == spec_header_end_line(),
            spec_read_pack_header(s@) == spec_scan_header(s@, 32, false),
            spec_scan_header(s@, 32, false) == spec_scan_header(s@, pos as int, got_version),
        decreases n - pos,
    {
        if n - pos < 16 {
            return Err(TfError::new(ErrorKind::FramingError, "pack header truncated"));
        }
        let line = vstd::slice::slice_subrange(s, pos, pos + 16);
        if bytes_eq(line, &hend) {
            if got_version {
                return Ok(pos + 16);
            } else {
                return Err(TfError::new(ErrorKind::UnsupportedVersion, "pack version line"));
            }
        }
        got_version = got_version || bytes_eq(line, &version);
        pos = pos + 16;
    }
}

/// Reading a pack file's footer: the closing line last, before it the block
/// list's offset and entry count, and at that offset the list between its
/// marker lines.
pub open spec fn spec_read_pack_footer(s: Seq<u8>) -> Result<Seq<BlockReference>, ErrorKind> {
    let n = s.len() as int;
    if n < 32 {
        Err(ErrorKind::FramingError)
    } else if s.subrange(n - 16, n) != spec_end_line() {
        Err(ErrorKind::FramingError)
    } else {
        let off = spec_u64_from_le_bytes(s.subrange(n - 32, n - 24));
        let count = spec_u64_from_le_bytes(s.subrange(n - 24, n - 16));
        if off + 16 + count * 16 + 16 > n {
            Err(ErrorKind::FramingError)
        } else if s.subrange(off as int, off + 16) != spec_blocks_start_line() {
            Err(ErrorKind::FramingError)
        } else if s.subrange(
            off + 16 + count * 16,
            off + 32 + count * 16,
        ) != spec_blocks_end_line() {
            Err(ErrorKind::FramingError)
        } else {
            Ok(
                Seq::new(
                    count as nat,
                    |i: int|
                        BlockReference {
                            offset: spec_u64_from_le_bytes(
                                s.subrange(off + 16 + i * 16, off + 24 + i * 16),
                            ),
                            size: spec_u64_from_le_bytes(
                                s.subrange(off + 24 + i * 16, off + 32 + i * 16),
                            ),
                        },
                ),
            )
        }
    }
}

/// Read a pack file's footer into its block list.
#[verifier::loop_isolation(false)]
#[verifier::rlimit(60)]
pub fn read_footer(s: &[u8]) -> (r: Result<Vec<BlockReference>, TfError>)
    ensures
        match spec_read_pack_footer(s@) {
            Ok(blocks) => r is Ok && r->Ok_0@ == blocks,
            Err(k) => r is Err && r->Err_0.kind == k,
        },
{
    let n = s.len();
    if n < 32 {
        return Err(TfError::new(ErrorKind::FramingError, "pack footer truncated"));
    }
    let endline: [u8; 16] = [
        0x57,
        0x42,
        0x53,
        0x20,
        0x50,
        0x41,
        0x43,
        0x4b,
        0x20,
        0x45,
        0x4e,
        0x44,
        0,
        0,
        0,
        0,
    ];
    proof {
        assert(endline@ =~= spec_end_line());
    }
    if !bytes_eq(vstd::slice::slice_subrange(s, n - 16, n), &endline) {
        return Err(TfError::new(ErrorKind::FramingError, "pack end line"));
    }
    let off = u64_from_le_bytes(vstd::slice::slice_subrange(s, n - 32, n - 24));
    let count = u64_from_le_bytes(vstd::slice::slice_subrange(s, n - 24, n - 16));
    let need: u128 = (off as u128) + 32 + (count as u128) * 16;
    if need > (n as u128) {
        return Err(TfError::new(ErrorKind::FramingError, "pack block list truncated"));
    }
    let bstart: [u8; 16] = [
        0x42,
        0x4c,
        0x4f,
        0x43,
        0x4b,
        0x53,
        0x20,
        0x53,
        0x54,
        0x41,
        0x52,
        0x54,
        0,
        0,
        0,
        0,
    ];
    let bend: [u8; 16] = [
        0x42,
        0x4c,
        0x4f,
        0x43,
        0x4b,
        0x53,
        0x20,
        0x45,
        0x4e,
        0x44,
        0,
        0,
        0,
        0,
        0,
        0,
    ];
    proof {
        assert(bstart@ =~= spec_blocks_start_line());
        assert(bend@ =~= spec_blocks_end_line());
    }
    let off_us = off as usize;
    if !bytes_eq(vstd::slice::slice_subrange(s, off_us, off_us + 16), &bstart) {
        return Err(TfError::new(ErrorKind::FramingError, "pack block list start line"));
    }
    let count_us = count as usize;
    let list_end = off_us + 16 + count_us * 16;
    if !bytes_eq(vstd::slice::slice_subrange(s, list_end, list_end + 16), &bend) {
        return Err(TfError::new(ErrorKind::FramingError, "pack block list end line"));
    }
    let ghost blocks = spec_read_pack_footer(s@)->Ok_0;
    let mut out: Vec<BlockReference> = Vec::new();
    let mut i: usize = 0;
    while i < count_us
        invariant
            i <= count_us,
            out@.len() == i,
            forall|j: int| 0 <= j < i ==> out@[j] == blocks[j],
        decreases count_us - i,
    {
        let at = off_us + 16 + i * 16;
        let block_offset = u64_from_le_bytes(vstd::slice::slice_subrange(s, at, at + 8));
        let block_size = u64_from_le_bytes(vstd::slice::slice_subrange(s, at + 8, at + 16));
        out.push(BlockReference { offset: block_offset, size: block_size });
        i = i + 1;
    }
    proof {
        assert(out@ =~= blocks);
    }
    Ok(out)
}

/// The blocks' bytes, in list order; a block reaching past the end of the
/// input contributes only what is there.
pub open spec fn spec_copy_blocks(s: Seq<u8>, blocks: Seq<BlockReference>) -> Seq<u8>
    decreases blocks.len(),
{
    if blocks.len() == 0 {
        Seq::empty()
    } else {
        let b = blocks.last();
        let from = if b.offset > s.len() {
            s.len() as int
        } else {
            b.offset as int
        };
        let to = if b.offset + b.size > s.len() {
            s.len() as int
        } else {
            b.offset + b.size
        };
        spec_copy_blocks(s, blocks.drop_last()) + s.subrange(from, to)
    }
}

/// Copy every block's bytes out of the packed stream, in list order.
#[verifier::loop_isolation(false)]
pub fn copy_blocks(s: &[u8], blocks: &Vec<BlockReference>) -> (r: Result<Vec<u8>, TfError>)
    ensures
        r is Ok,
        r->Ok_0@ == spec_copy_blocks(s@, blocks@),
{
    let n = s.len();
    let count = blocks.len();
    let mut out: Vec<u8> = Vec::new();
    let mut i: usize = 0;
    proof {
        assert(blocks@.take(0) =~= Seq::<BlockReference>::empty());
    }
    while i < count
        invariant
            i <= count,
            out@ == spec_copy_blocks(s@, blocks@.take(i as int)),
        decreases count - i,
    {
        proof {
            assert(blocks@.take(i as int + 1).drop_last() =~= blocks@.take(i as int));
            assert(blocks@.take(i as int + 1).last() == blocks@[i as int]);
        }
        let b = blocks[i];
        let from = if b.offset > (n as u64) {
            n
        } else {
            b.offset as usize
        };
        let to = if b.size > ((n as u64) - (from as u64)) || b.offset > (n as u64) {
            n
        } else {
            from + (b.size as usize)
        };
        out.extend_from_slice(vstd::slice::slice_subrange(s, from, to));
        i = i + 1;
    }
    proof {
        assert(blocks@.take(count as int) =~= blocks@);
    }
    Ok(out)
}

/// Reading a whole pack file back: check the header, read the footer's
/// block list, and stitch the blocks together in order.
pub open spec fn spec_unpack(s: Seq<u8>) -> Result<Seq<u8>, ErrorKind> {
    match spec_read_pack_header(s) {
        Err(k) => Err(k),
        Ok(_) => match spec_read_pack_footer(s) {
            Err(k) => Err(k),
            Ok(blocks) => Ok(spec_copy_blocks(s, blocks)),
        },
    }
}

/// Unpack a whole pack file held in memory.
pub fn unpack(s: &[u8]) -> (r: Result<Vec<u8>, TfError>)
    ensures
        match spec_unpack(s@) {
            Ok(bytes) => r is Ok && r->Ok_0@ == bytes,
            Err(k) => r is Err && r->Err_0.kind == k,
        },
{
    match read_header(s) {
        Err(e) => {
            return Err(e);
        },
        Ok(_) => {},
    }
    let blocks = match read_footer(s) {
        Err(e) => {
            return Err(e);
        },
        Ok(b) => b,
    };
    copy_blocks(s, &blocks)
}

} // verus!
