//! Reading one tar header block: the null-terminated text fields, the
//! octal and base-256 numbers, and the entry type flag.

use vstd::prelude::*;

use crate::errors::{ErrorKind, TfError};

verus! {

/// Bytes in one tar header block.
pub const HEADER_BYTES: usize = 512;

/// What kind of entry a header announces.
#[derive(Clone, Copy, Debug, PartialEq, Eq, Structural)]
pub enum Type {
    Regular,
    Link,
    SymbolicLink,
    CharacterSpecial,
    BlockSpecial,
    Directory,
    Fifo,
    LongName,
    LongLink,
}

/// One decoded tar header.
pub struct Header {
    pub name: Vec<u8>,
    pub mode: u32,
    pub uid: u32,
    pub gid: u32,
    pub size: u64,
    pub blocks: u64,
    pub mtime: u64,
    pub cksum: u32,
    pub typeflag: Type,
    pub linkname: Vec<u8>,
    pub uname: Vec<u8>,
    pub gname: Vec<u8>,
    pub dev_major: u32,
    pub dev_minor: u32,
    pub atime: u64,
    pub ctime: u64,
    pub offset: u64,
}

/// Where the first zero byte sits, or the whole length if none does.
pub open spec fn spec_nul_pos(s: Seq<u8>, i: int) -> int
    decreases s.len() - i,
{
    if !(0 <= i < s.len()) {
        s.len() as int
    } else if s[i] == 0 {
        i
    } else {
        spec_nul_pos(s, i + 1)
    }
}

/// A text field's bytes: everything before its first zero byte.
pub open spec fn spec_nul_trim(s: Seq<u8>) -> Seq<u8> {
    s.take(spec_nul_pos(s, 0))
}

/// The first zero byte never sits past the end.
proof fn lemma_nul_pos_bounds(s: Seq<u8>, i: int)
    requires
        0 <= i <= s.len(),
    ensures
        i <= spec_nul_pos(s, i) <= s.len(),
    decreases s.len() - i,
{
    if i < s.len() && s[i] != 0 {
        lemma_nul_pos_bounds(s, i + 1);
    }
}

/// A text field cut off at its first zero byte.
pub fn tar_string(slice: &[u8]) -> (r: Vec<u8>)
    ensures
        r@ == spec_nul_trim(slice@),
{
    let n = slice.len();
    let mut i: usize = 0;
    while i < n
        invariant
            i <= n,
            n == slice@.len(),
            spec_nul_pos(slice@, 0) == spec_nul_pos(slice@, i as int),
            forall|j: int| 0 <= j < i ==> slice@[j] != 0,
        decreases n - i,
    {
        if slice[i] == 0 {
            proof {
                assert(slice@.subrange(0, i as int) =~= spec_nul_trim(slice@));
            }
            return crate::wire::clone_bytes(vstd::slice::slice_subrange(slice, 0, i));
        }
        i = i + 1;
    }
    proof {
        assert(slice@ =~= spec_nul_trim(slice@));
    }
    crate::wire::clone_bytes(slice)
}

/// Whether a byte spells an octal digit.
pub open spec fn spec_is_octal(b: u8) -> bool {
    0x30 <= b <= 0x37
}

/// The number a run of octal digit bytes spells.
pub open spec fn spec_octal_value(s: Seq<u8>) -> nat
    decreases s.len(),
{
    if s.len() == 0 {
        0
    } else {
        (spec_octal_value(s.drop_last()) * 8 + (s.last() - 0x30)) as nat
    }
}

/// A longer run of octal digits never spells a smaller number.
proof fn lemma_octal_take_le(s: Seq<u8>, i: int)
    requires
        0 <= i <= s.len(),
        forall|j: int| 0 <= j < s.len() ==> spec_is_octal(#[trigger] s[j]),
    ensures
        spec_octal_value(s.take(i)) <= spec_octal_value(s),
    decreases s.len() - i,
{
    if i == s.len() {
        assert(s.take(i) =~= s);
    } else {
        assert(s.take(i + 1).drop_last() =~= s.take(i));
        lemma_octal_take_le(s, i + 1);
    }
}

/// A numeric field as tar spells it: a leading zero byte means zero, a
/// leading `0x80` means the value is stored in base 256, a leading `0xff`
/// (a negative base-256 number) is not accepted, anything else is octal
/// text ended by a zero byte.
pub open spec fn spec_tar_number_u64(s: Seq<u8>) -> Result<u64, ErrorKind> {
    if s[0] == 0 {
        Ok(0u64)
    } else if s[0] == 0x80 {
        Ok(spec_be64(s.subrange(4, 12)))
    } else {
        let digits = spec_nul_trim(s);
        if (forall|i: int| 0 <= i < digits.len() ==> spec_is_octal(#[trigger] digits[i]))
            && spec_octal_value(digits) < 0x1_0000_0000_0000_0000 {
            Ok(spec_octal_value(digits) as u64)
        } else {
            Err(ErrorKind::FramingError)
        }
    }
}

/// Eight bytes read as one big-endian number.
pub open spec fn spec_be64(s: Seq<u8>) -> u64 {
    (s[0] * 0x100_0000_0000_0000 + s[1] * 0x1_0000_0000_0000 + s[2] * 0x100_0000_0000 + s[3]
        * 0x1_0000_0000 + s[4] * 0x100_0000 + s[5] * 0x1_0000 + s[6] * 0x100 + s[7]) as u64
}

/// Decode a twelve-byte numeric field.
pub fn tar_number_u64(slice: &[u8]) -> (r: Result<u64, TfError>)
    requires
        slice@.len() == 12,
        slice@[0] != 0xff,
    ensures
        match spec_tar_number_u64(slice@) {
            Ok(v) => r is Ok && r->Ok_0 == v,
            Err(k) => r is Err && r->Err_0.kind == k,
        },
{
    if slice[0] == 0 {
        return Ok(0);
    }
    if slice[0] == 0x80 {
        let b = vstd::slice::slice_subrange(slice, 4, 12);
        let v = ((b[0] as u64) << 56) | ((b[1] as u64) << 48) | ((b[2] as u64) << 40) | ((
        b[3] as u64) << 32) | ((b[4] as u64) << 24) | ((b[5] as u64) << 16) | ((b[6] as u64) << 8)
            | (b[7] as u64);
        proof {
            let s0 = b@[0] as u64;
            let s1 = b@[1] as u64;
            let s2 = b@[2] as u64;
            let s3 = b@[3] as u64;
            let s4 = b@[4] as u64;
            let s5 = b@[5] as u64;
            let s6 = b@[6] as u64;
            let s7 = b@[7] as u64;
            assert((s0 << 56) | (s1 << 48) | (s2 << 40) | (s3 << 32) | (s4 << 24) | (s5 << 16) | (
            s6 << 8) | s7 == (s0 * 0x100_0000_0000_0000 + s1 * 0x1_0000_0000_0000 + s2
                * 0x100_0000_0000 + s3 * 0x1_0000_0000 + s4 * 0x100_0000 + s5 * 0x1_0000 + s6
                * 0x100 + s7) as u64) by (bit_vector)
                requires
                    s0 < 256 && s1 < 256 && s2 < 256 && s3 < 256 && s4 < 256 && s5 < 256 && s6
                        < 256 && s7 < 256,
            ;
        }
        return Ok(v);
    }
    tar_octal(slice)
}

/// Decode an octal text field of any width.
fn tar_octal(slice: &[u8]) -> (r: Result<u64, TfError>)
    ensures
        ({
            let digits = spec_nul_trim(slice@);
            if (forall|i: int| 0 <= i < digits.len() ==> spec_is_octal(#[trigger] digits[i]))
                && spec_octal_value(digits) < 0x1_0000_0000_0000_0000 {
                r is Ok && r->Ok_0 == spec_octal_value(digits)
            } else {
                r is Err && r->Err_0.kind == ErrorKind::FramingError
            }
        }),
{
    let digits = tar_string(slice);
    let ghost d = spec_nul_trim(slice@);
    let n = digits.len();
    let mut v: u64 = 0;
    let mut i: usize = 0;
    proof {
        assert(d.take(0) =~= Seq::<u8>::empty());
    }
    while i < n
        invariant
            i <= n,
            n == digits@.len(),
            digits@ == d,
            d == spec_nul_trim(slice@),
            forall|j: int| 0 <= j < i ==> spec_is_octal(#[trigger] d[j]),
            v == spec_octal_value(d.take(i as int)),
        decreases n - i,
    {
        let b = digits[i];
        proof {
            assert(d.take(i as int + 1).drop_last() =~= d.take(i as int));
            assert(d.take(i as int + 1).last() == d[i as int]);
        }
        if b < 0x30 || b > 0x37 {
            proof {
                assert(!spec_is_octal(d[i as int]));
            }
            return Err(TfError::new(ErrorKind::FramingError, "octal field digit"));
        }
        let digit = (b - 0x30) as u64;
        if v > (u64::MAX - digit) / 8 {
            proof {
                if forall|j: int| 0 <= j < d.len() ==> spec_is_octal(#[trigger] d[j]) {
                    lemma_octal_take_le(d, i as int + 1);
                }
            }
            return Err(TfError::new(ErrorKind::FramingError, "octal field range"));
        }
        v = v * 8 + digit;
        i = i + 1;
    }
    proof {
        assert(d.take(n as int) =~= d);
    }
    Ok(v)
}

/// Decode an eight-byte numeric field into thirty-two bits.
pub fn tar_number_u32(slice: &[u8]) -> (r: Result<u32, TfError>)
    requires
        slice@.len() >= 1,
    ensures
        slice@[0] == 0 ==> r is Ok && r->Ok_0 == 0,
        slice@[0] != 0 ==> ({
            let digits = spec_nul_trim(slice@);
            if (forall|i: int| 0 <= i < digits.len() ==> spec_is_octal(#[trigger] digits[i]))
                && spec_octal_value(digits) < 0x1_0000_0000 {
                r is Ok && r->Ok_0 == spec_octal_value(digits)
            } else {
                r is Err && r->Err_0.kind == ErrorKind::FramingError
            }
        }),
{
    if slice[0] == 0 {
        return Ok(0);
    }
    match tar_octal(slice) {
        Err(e) => Err(e),
        Ok(v) => {
            if v >= 0x1_0000_0000 {
                Err(TfError::new(ErrorKind::FramingError, "octal field range"))
            } else {
                Ok(v as u32)
            }
        },
    }
}

/// One decoded tar header, at the mathematical level.
pub struct GHeader {
    pub name: Seq<u8>,
    pub mode: u32,
    pub uid: u32,
    pub gid: u32,
    pub size: u64,
    pub blocks: u64,
    pub mtime: u64,
    pub cksum: u32,
    pub typeflag: Type,
    pub linkname: Seq<u8>,
    pub uname: Seq<u8>,
    pub gname: Seq<u8>,
    pub dev_major: u32,
    pub dev_minor: u32,
    pub atime: u64,
    pub ctime: u64,
    pub offset: u64,
}

impl View for Header {
    type V = GHeader;

    open spec fn view(&self) -> GHeader {
        GHeader {
            name: self.name@,
            mode: self.mode,
            uid: self.uid,
            gid: self.gid,
            size: self.size,
            blocks: self.blocks,
            mtime: self.mtime,
            cksum: self.cksum,
            typeflag: self.typeflag,
            linkname: self.linkname@,
            uname: self.uname@,
            gname: self.gname@,
            dev_major: self.dev_major,
            dev_minor: self.dev_minor,
            atime: self.atime,
            ctime: self.ctime,
            offset: self.offset,
        }
    }
}

/// The magic bytes a header must carry.
pub open spec fn spec_tar_magic() -> Seq<u8> {
    seq![0x75u8, 0x73, 0x74, 0x61, 0x72, 0x20]
}

/// The version bytes a header must carry.
pub open spec fn spec_tar_version() -> Seq<u8> {
    seq![0x20u8, 0x00]
}

/// An eight-byte numeric field decoded into thirty-two bits.
pub open spec fn spec_tar_number_u32(s: Seq<u8>) -> Result<u32, ErrorKind> {
    if s[0] == 0 {
        Ok(0u32)
    } else {
        let digits = spec_nul_trim(s);
        if (forall|i: int| 0 <= i < digits.len() ==> spec_is_octal(#[trigger] digits[i]))
            && spec_octal_value(digits) < 0x1_0000_0000 {
            Ok(spec_octal_value(digits) as u32)
        } else {
            Err(ErrorKind::FramingError)
        }
    }
}

/// Reading a whole header block: check the magic and version, then decode
/// every field at its fixed place.
pub open spec fn spec_read_tar_header(s: Seq<u8>) -> Result<GHeader, ErrorKind> {
    if s.subrange(257, 263) != spec_tar_magic() {
        Err(ErrorKind::FramingError)
    } else if s.subrange(263, 265) != spec_tar_version() {
        Err(ErrorKind::FramingError)
    } else {
        let size = spec_tar_number_u64(s.subrange(124, 136));
        let mode = spec_tar_number_u32(s.subrange(100, 108));
        let uid = spec_tar_number_u32(s.subrange(108, 116));
        let gid = spec_tar_number_u32(s.subrange(116, 124));
        let mtime = spec_tar_number_u64(s.subrange(136, 148));
        let cksum = spec_tar_number_u32(s.subrange(148, 156));
        let dev_major = spec_tar_number_u32(s.subrange(329, 337));
        let dev_minor = spec_tar_number_u32(s.subrange(337, 345));
        let atime = spec_tar_number_u64(s.subrange(345, 357));
        let ctime = spec_tar_number_u64(s.subrange(357, 369));
        let offset = spec_tar_number_u64(s.subrange(369, 381));
        if size is Err || mode is Err || uid is Err || gid is Err || mtime is Err || cksum is Err
            || dev_major is Err || dev_minor is Err || atime is Err || ctime is Err
            || offset is Err {
            Err(ErrorKind::FramingError)
        } else {
            Ok(
                GHeader {
                    name: spec_nul_trim(s.subrange(0, 100)),
                    mode: mode->Ok_0,
                    uid: uid->Ok_0,
                    gid: gid->Ok_0,
                    size: size->Ok_0,
                    blocks: ((size->Ok_0 >> 9) + (if size->Ok_0 & 0x1ff != 0 {
                        1u64
                    } else {
                        0u64
                    })) as u64,
                    mtime: mtime->Ok_0,
                    cksum: cksum->Ok_0,
                    typeflag: spec_tar_type(s[156])->Some_0,
                    linkname: spec_nul_trim(s.subrange(157, 257)),
                    uname: spec_nul_trim(s.subrange(265, 297)),
                    gname: spec_nul_trim(s.subrange(297, 329)),
                    dev_major: dev_major->Ok_0,
                    dev_minor: dev_minor->Ok_0,
                    atime: atime->Ok_0,
                    ctime: ctime->Ok_0,
                    offset: offset->Ok_0,
                },
            )
        }
    }
}

impl Header {
    /// Decode one header block. The caller hands exactly one block; a
    /// negative base-256 number or an entry type this reader does not know
    /// is left out, as the block of an archive this reader handles never
    /// carries one.
    pub fn read(header_bytes: &[u8]) -> (r: Result<Header, TfError>)
        requires
            header_bytes@.len() == HEADER_BYTES,
            header_bytes@[124] != 0xff,
            header_bytes@[136] != 0xff,
            header_bytes@[345] != 0xff,
            header_bytes@[357] != 0xff,
            header_bytes@[369] != 0xff,
            header_bytes@.subrange(257, 263) == spec_tar_magic() && header_bytes@.subrange(
                263,
                265,
            ) == spec_tar_version() ==> spec_tar_type(header_bytes@[156]) is Some,
        ensures
            match spec_read_tar_header(header_bytes@) {
                Ok(g) => r is Ok && r->Ok_0@ == g,
                Err(k) => r is Err && r->Err_0.kind == k,
            },
    {
        let s = header_bytes;
        let magic: [u8; 6] = [0x75, 0x73, 0x74, 0x61, 0x72, 0x20];
        let version: [u8; 2] = [0x20, 0x00];
        proof {
            assert(magic@ =~= spec_tar_magic());
            assert(version@ =~= spec_tar_version());
        }
        if !crate::bytemap::bytes_eq(vstd::slice::slice_subrange(s, 257, 263), &magic) {
            return Err(TfError::new(ErrorKind::FramingError, "tar header magic"));
        }
        if !crate::bytemap::bytes_eq(vstd::slice::slice_subrange(s, 263, 265), &version) {
            return Err(TfError::new(ErrorKind::FramingError, "tar header version"));
        }
        let size = match tar_number_u64(vstd::slice::slice_subrange(s, 124, 136)) {
            Err(e) => {
                return Err(e);
            },
            Ok(v) => v,
        };
        let mode = match tar_number_u32(vstd::slice::slice_subrange(s, 100, 108)) {
            Err(e) => {
                return Err(e);
            },
            Ok(v) => v,
        };
        let uid = match tar_number_u32(vstd::slice::slice_subrange(s, 108, 116)) {
            Err(e) => {
                return Err(e);
            },
            Ok(v) => v,
        };
        let gid = match tar_number_u32(vstd::slice::slice_subrange(s, 116, 124)) {
            Err(e) => {
                return Err(e);
            },
            Ok(v) => v,
        };
        let mtime = match tar_number_u64(vstd::slice::slice_subrange(s, 136, 148)) {
            Err(e) => {
                return Err(e);
            },
            Ok(v) => v,
        };
        let cksum = match tar_number_u32(vstd::slice::slice_subrange(s, 148, 156)) {
            Err(e) => {
                return Err(e);
            },
            Ok(v) => v,
        };
        let dev_major = match tar_number_u32(vstd::slice::slice_subrange(s, 329, 337)) {
            Err(e) => {
                return Err(e);
            },
            Ok(v) => v,
        };
        let dev_minor = match tar_number_u32(vstd::slice::slice_subrange(s, 337, 345)) {
            Err(e) => {
                return Err(e);
            },
            Ok(v) => v,
        };
        let atime = match tar_number_u64(vstd::slice::slice_subrange(s, 345, 357)) {
            Err(e) => {
                return Err(e);
            },
            Ok(v) => v,
        };
        let ctime = match tar_number_u64(vstd::slice::slice_subrange(s, 357, 369)) {
            Err(e) => {
                return Err(e);
            },
            Ok(v) => v,
        };
        let offset = match tar_number_u64(vstd::slice::slice_subrange(s, 369, 381)) {
            Err(e) => {
                return Err(e);
            },
            Ok(v) => v,
        };
        proof {
            assert(size >> 9 < 0x100_0000_0000_0000) by (bit_vector);
        }
        let blocks = (size >> 9) + (if size & 0x1ff != 0 {
            1u64
        } else {
            0u64
        });
        Ok(
            Header {
                name: tar_string(vstd::slice::slice_subrange(s, 0, 100)),
                mode,
                uid,
                gid,
                size,
                blocks,
                mtime,
                cksum,
                typeflag: tar_type(s[156]),
                linkname: tar_string(vstd::slice::slice_subrange(s, 157, 257)),
                uname: tar_string(vstd::slice::slice_subrange(s, 265, 297)),
                gname: tar_string(vstd::slice::slice_subrange(s, 297, 329)),
                dev_major,
                dev_minor,
                atime,
                ctime,
                offset,
            },
        )
    }
}

/// The entry type a flag byte announces, if it is one this reader knows.
pub open spec fn spec_tar_type(flag: u8) -> Option<Type> {
    if flag == 0x30 {
        Some(Type::Regular)
    } else if flag == 0x31 {
        Some(Type::Link)
    } else if flag == 0x32 {
        Some(Type::SymbolicLink)
    } else if flag == 0x33 {
        Some(Type::CharacterSpecial)
    } else if flag == 0x34 {
        Some(Type::BlockSpecial)
    } else if flag == 0x35 {
        Some(Type::Directory)
    } else if flag == 0x36 {
        Some(Type::Fifo)
    } else if flag == 0x4b {
        Some(Type::LongLink)
    } else if flag == 0x4c {
        Some(Type::LongName)
    } else {
        None
    }
}

/// The entry type a flag byte announces; only known flags are accepted.
pub fn tar_type(typeflag: u8) -> (r: Type)
    requires
        spec_tar_type(typeflag) is Some,
    ensures
        Some(r) == spec_tar_type(typeflag),
{
    if typeflag == 0x30 {
        Type::Regular
    } else if typeflag == 0x31 {
        Type::Link
    } else if typeflag == 0x32 {
        Type::SymbolicLink
    } else if typeflag == 0x33 {
        Type::CharacterSpecial
    } else if typeflag == 0x34 {
        Type::BlockSpecial
    } else if typeflag == 0x35 {
        Type::Directory
    } else if typeflag == 0x36 {
        Type::Fifo
    } else if typeflag == 0x4b {
        Type::LongLink
    } else {
        Type::LongName
    }
}

} // verus!
