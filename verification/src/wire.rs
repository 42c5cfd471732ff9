//! The binary framing primitive: base-128 variable-length integers,
//! length-prefixed payloads, and the field structure of framed messages.

use vstd::prelude::*;

verus! {

/// Longest accepted encoding of a variable-length integer, in bytes.
pub const VARINT_MAX_BYTES: u64 = 10;

/// Mathematical decoding of a variable-length integer at `pos`:
/// low seven bits of each byte, least significant group first, a set high
/// bit meaning continuation. Yields the (unbounded) value and the position
/// after the encoding, or `None` if the input ends or `fuel` bytes are used
/// up before a terminating byte.
pub open spec fn spec_varint_rec(s: Seq<u8>, pos: int, fuel: nat) -> Option<(nat, int)>
    decreases fuel,
{
    if fuel == 0 || !(0 <= pos < s.len()) {
        None
    } else {
        let b = s[pos];
        if b < 0x80 {
            Some((b as nat, pos + 1))
        } else {
            match spec_varint_rec(s, pos + 1, (fuel - 1) as nat) {
                None => None,
                Some((v, p)) => Some((((b - 0x80) as nat + v * 0x80) as nat, p)),
            }
        }
    }
}

/// A variable-length integer is valid when it terminates within
/// `VARINT_MAX_BYTES` bytes and its value fits in 64 bits.
pub open spec fn spec_varint(s: Seq<u8>, pos: int) -> Option<(u64, int)> {
    match spec_varint_rec(s, pos, VARINT_MAX_BYTES as nat) {
        None => None,
        Some((v, p)) => if v < 0x1_0000_0000_0000_0000 {
            Some((v as u64, p))
        } else {
            None
        },
    }
}

/// A decoded integer always lies strictly inside the input.
pub proof fn lemma_varint_rec_bounds(s: Seq<u8>, pos: int, fuel: nat)
    requires
        spec_varint_rec(s, pos, fuel) is Some,
    ensures
        pos < spec_varint_rec(s, pos, fuel)->Some_0.1 <= s.len(),
    decreases fuel,
{
    let b = s[pos];
    if b >= 0x80 {
        lemma_varint_rec_bounds(s, pos + 1, (fuel - 1) as nat);
    }
}

/// As `lemma_varint_rec_bounds`, for the bounded decoder.
pub proof fn lemma_varint_bounds(s: Seq<u8>, pos: int)
    requires
        spec_varint(s, pos) is Some,
    ensures
        pos < spec_varint(s, pos)->Some_0.1 <= s.len(),
{
    lemma_varint_rec_bounds(s, pos, VARINT_MAX_BYTES as nat);
}

fn read_varint_rec(s: &[u8], pos: usize, fuel: u64) -> (r: Option<(u64, usize)>)
    requires
        pos <= s@.len(),
    ensures
        match spec_varint_rec(s@, pos as int, fuel as nat) {
            None => r is None,
            Some((v, p)) => if v < 0x1_0000_0000_0000_0000 {
                r == Some((v as u64, p as usize))
            } else {
                r is None
            },
        },
    decreases fuel,
{
    if fuel == 0 || pos >= s.len() {
        None
    } else {
        let b = s[pos];
        if b < 0x80 {
            Some((b as u64, pos + 1))
        } else {
            proof {
                if spec_varint_rec(s@, pos as int + 1, (fuel - 1) as nat) is Some {
                    lemma_varint_rec_bounds(s@, pos as int + 1, (fuel - 1) as nat);
                }
            }
            match read_varint_rec(s, pos + 1, fuel - 1) {
                None => None,
                Some((v, p)) => {
                    if v >= 0x0200_0000_0000_0000 {
                        None
                    } else {
                        Some(((b - 0x80) as u64 + v * 0x80, p))
                    }
                },
            }
        }
    }
}

/// Decode one variable-length integer at `pos`; `None` on truncated,
/// over-long or overflowing input.
pub fn read_varint(s: &[u8], pos: usize) -> (r: Option<(u64, usize)>)
    requires
        pos <= s@.len(),
    ensures
        r is Some <==> spec_varint(s@, pos as int) is Some,
        r is Some ==> spec_varint(s@, pos as int) == Some((r->Some_0.0, r->Some_0.1 as int)) && pos
            < r->Some_0.1 <= s@.len(),
{
    let n = s.len();
    proof {
        if spec_varint(s@, pos as int) is Some {
            lemma_varint_bounds(s@, pos as int);
        }
    }
    read_varint_rec(s, pos, VARINT_MAX_BYTES)
}

/// A decoded message field, at the mathematical level.
pub struct GField {
    pub num: u64,
    pub val: GFieldVal,
}

/// A field's value: an integer or a length-prefixed byte string.
pub enum GFieldVal {
    Varint(u64),
    Bytes(Seq<u8>),
}

/// A decoded message field.
pub struct Field {
    pub num: u64,
    pub val: FieldVal,
}

/// A field's value: an integer or a length-prefixed byte string.
pub enum FieldVal {
    Varint(u64),
    Bytes(Vec<u8>),
}

impl View for FieldVal {
    type V = GFieldVal;

    open spec fn view(&self) -> GFieldVal {
        match self {
            FieldVal::Varint(v) => GFieldVal::Varint(*v),
            FieldVal::Bytes(b) => GFieldVal::Bytes(b@),
        }
    }
}

impl View for Field {
    type V = GField;

    open spec fn view(&self) -> GField {
        GField { num: self.num, val: self.val@ }
    }
}

/// The fields of a sequence, each taken to its mathematical form.
pub open spec fn views_of_fields(s: Seq<Field>) -> Seq<GField> {
    s.map_values(|f: Field| f@)
}

/// Mathematical decoding of a message payload into its fields. A payload is
/// a run of fields, each a key integer (field number shifted left by three,
/// low bits the value's shape) followed by the value: shape `0` an integer,
/// shape `2` a length-prefixed byte string. Anything else is malformed.
pub open spec fn spec_fields(s: Seq<u8>, pos: int) -> Option<Seq<GField>>
    decreases s.len() - pos,
{
    if pos == s.len() {
        Some(Seq::empty())
    } else if !(0 <= pos < s.len()) {
        None
    } else {
        match spec_varint(s, pos) {
            None => None,
            Some((key, p1)) => {
                if !(pos < p1 <= s.len()) {
                    None
                } else if key % 8 == 0 {
                    match spec_varint(s, p1) {
                        None => None,
                        Some((v, p2)) => {
                            if !(p1 < p2 <= s.len()) {
                                None
                            } else {
                                match spec_fields(s, p2) {
                                    None => None,
                                    Some(rest) => Some(
                                        seq![GField { num: key / 8, val: GFieldVal::Varint(v) }]
                                            + rest,
                                    ),
                                }
                            }
                        },
                    }
                } else if key % 8 == 2 {
                    match spec_varint(s, p1) {
                        None => None,
                        Some((l, p2)) => {
                            if !(p1 < p2 <= s.len()) {
                                None
                            } else if p2 + l > s.len() {
                                None
                            } else {
                                match spec_fields(s, p2 + l) {
                                    None => None,
                                    Some(rest) => Some(
                                        seq![
                                            GField {
                                                num: key / 8,
                                                val: GFieldVal::Bytes(s.subrange(p2, p2 + l)),
                                            },
                                        ] + rest,
                                    ),
                                }
                            }
                        },
                    }
                } else {
                    None
                }
            },
        }
    }
}

/// Decode a whole message payload into its fields; `None` if any part of it
/// is malformed.
pub fn parse_fields(s: &[u8]) -> (r: Option<Vec<Field>>)
    ensures
        match spec_fields(s@, 0) {
            None => r is None,
            Some(fs) => r is Some && views_of_fields(r->Some_0@) == fs,
        },
{
    let n = s.len();
    let mut pos: usize = 0;
    let mut out: Vec<Field> = Vec::new();
    loop
        invariant
            pos <= n,
            n == s@.len(),
            match spec_fields(s@, pos as int) {
                None => spec_fields(s@, 0) is None,
                Some(rest) => spec_fields(s@, 0) == Some(views_of_fields(out@) + rest),
            },
        decreases n - pos,
    {
        if pos == n {
            proof {
                assert(views_of_fields(out@) + Seq::<GField>::empty() =~= views_of_fields(out@));
            }
            return Some(out);
        }
        let (key, p1) = match read_varint(s, pos) {
            None => {
                return None;
            },
            Some(kp) => kp,
        };
        if key % 8 == 0 {
            let (v, p2) = match read_varint(s, p1) {
                None => {
                    return None;
                },
                Some(vp) => vp,
            };
            let f = Field { num: key / 8, val: FieldVal::Varint(v) };
            proof {
                let rest0 = spec_fields(s@, pos as int)->Some_0;
                let rest1 = spec_fields(s@, p2 as int)->Some_0;
                if spec_fields(s@, p2 as int) is Some {
                    assert(views_of_fields(out@.push(f)) + rest1 =~= views_of_fields(out@) + (
                    seq![f@] + rest1));
                }
            }
            out.push(f);
            pos = p2;
        } else if key % 8 == 2 {
            let (l, p2) = match read_varint(s, p1) {
                None => {
                    return None;
                },
                Some(lp) => lp,
            };
            if l > (n - p2) as u64 {
                return None;
            }
            let end = p2 + (l as usize);
            let payload = vstd::slice::slice_to_vec(vstd::slice::slice_subrange(s, p2, end));
            let f = Field { num: key / 8, val: FieldVal::Bytes(payload) };
            proof {
                let rest1 = spec_fields(s@, end as int)->Some_0;
                if spec_fields(s@, end as int) is Some {
                    assert(views_of_fields(out@.push(f)) + rest1 =~= views_of_fields(out@) + (
                    seq![f@] + rest1));
                }
            }
            out.push(f);
            pos = end;
        } else {
            return None;
        }
    }
}

/// The latest byte-string value of field `num`, at the mathematical level.
pub open spec fn spec_last_bytes(fs: Seq<GField>, num: u64) -> Option<Seq<u8>>
    decreases fs.len(),
{
    if fs.len() == 0 {
        None
    } else {
        let f = fs.last();
        if f.num == num && f.val is Bytes {
            Some(f.val->Bytes_0)
        } else {
            spec_last_bytes(fs.drop_last(), num)
        }
    }
}

/// The latest integer value of field `num`, at the mathematical level.
pub open spec fn spec_last_varint(fs: Seq<GField>, num: u64) -> Option<u64>
    decreases fs.len(),
{
    if fs.len() == 0 {
        None
    } else {
        let f = fs.last();
        if f.num == num && f.val is Varint {
            Some(f.val->Varint_0)
        } else {
            spec_last_varint(fs.drop_last(), num)
        }
    }
}

/// The latest byte-string value of field `num`; later occurrences replace
/// earlier ones.
pub fn last_bytes(fields: &Vec<Field>, num: u64) -> (r: Option<Vec<u8>>)
    ensures
        match spec_last_bytes(views_of_fields(fields@), num) {
            None => r is None,
            Some(b) => r is Some && r->Some_0@ == b,
        },
{
    let ghost views = views_of_fields(fields@);
    let mut i = fields.len();
    proof {
        assert(views.take(i as int) =~= views);
    }
    while i > 0
        invariant
            i <= fields.len(),
            views == views_of_fields(fields@),
            spec_last_bytes(views, num) == spec_last_bytes(views.take(i as int), num),
        decreases i,
    {
        let f = &fields[i - 1];
        proof {
            assert(views.take(i as int).last() == views[i as int - 1]);
            assert(views.take(i as int).drop_last() =~= views.take(i as int - 1));
        }
        match &f.val {
            FieldVal::Bytes(b) => {
                if f.num == num {
                    return Some(clone_bytes(b));
                }
            },
            FieldVal::Varint(_) => {},
        }
        i = i - 1;
    }
    None
}

/// The latest integer value of field `num`; later occurrences replace
/// earlier ones.
pub fn last_varint(fields: &Vec<Field>, num: u64) -> (r: Option<u64>)
    ensures
        r == spec_last_varint(views_of_fields(fields@), num),
{
    let ghost views = views_of_fields(fields@);
    let mut i = fields.len();
    proof {
        assert(views.take(i as int) =~= views);
    }
    while i > 0
        invariant
            i <= fields.len(),
            views == views_of_fields(fields@),
            spec_last_varint(views, num) == spec_last_varint(views.take(i as int), num),
        decreases i,
    {
        let f = &fields[i - 1];
        proof {
            assert(views.take(i as int).last() == views[i as int - 1]);
            assert(views.take(i as int).drop_last() =~= views.take(i as int - 1));
        }
        match &f.val {
            FieldVal::Varint(v) => {
                if f.num == num {
                    return Some(*v);
                }
            },
            FieldVal::Bytes(_) => {},
        }
        i = i - 1;
    }
    None
}

/// An owned copy of a byte slice.
pub fn clone_bytes(b: &[u8]) -> (r: Vec<u8>)
    ensures
        r@ == b@,
{
    vstd::slice::slice_to_vec(b)
}

/// Mathematical reading of one framed record at `pos`: a varint byte length,
/// then exactly that many payload bytes. Yields the payload and the position
/// after it.
pub open spec fn spec_framed(s: Seq<u8>, pos: int) -> Option<(Seq<u8>, int)> {
    match spec_varint(s, pos) {
        None => None,
        Some((l, p)) => if p + l <= s.len() {
            Some((s.subrange(p, p + l), p + l))
        } else {
            None
        },
    }
}

/// Read one framed record at `pos`; `None` if the length prefix is truncated
/// or runs past the end of the input.
pub fn read_framed<'a>(s: &'a [u8], pos: usize) -> (r: Option<(&'a [u8], usize)>)
    requires
        pos <= s@.len(),
    ensures
        match spec_framed(s@, pos as int) {
            None => r is None,
            Some((payload, p)) => r is Some && r->Some_0.0@ == payload && r->Some_0.1 == p && pos
                < p <= s@.len(),
        },
{
    let n = s.len();
    let (l, p) = match read_varint(s, pos) {
        None => {
            return None;
        },
        Some(lp) => lp,
    };
    if l > (n - p) as u64 {
        return None;
    }
    let end = p + (l as usize);
    Some((vstd::slice::slice_subrange(s, p, end), end))
}

/// Mathematical reading of one framed record decoded into fields.
pub open spec fn spec_framed_fields(s: Seq<u8>, pos: int) -> Option<(Seq<GField>, int)> {
    match spec_framed(s, pos) {
        None => None,
        Some((payload, p)) => match spec_fields(payload, 0) {
            None => None,
            Some(fs) => Some((fs, p)),
        },
    }
}

/// Read one framed record at `pos` and decode its payload into fields.
pub fn read_framed_fields(s: &[u8], pos: usize) -> (r: Option<(Vec<Field>, usize)>)
    requires
        pos <= s@.len(),
    ensures
        match spec_framed_fields(s@, pos as int) {
            None => r is None,
            Some((fs, p)) => r is Some && views_of_fields(r->Some_0.0@) == fs && r->Some_0.1 == p
                && pos < p <= s@.len(),
        },
{
    let (payload, p) = match read_framed(s, pos) {
        None => {
            return None;
        },
        Some(fp) => fp,
    };
    match parse_fields(payload) {
        None => None,
        Some(fields) => Some((fields, p)),
    }
}

} // verus!
