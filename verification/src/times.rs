//! Timestamps for the backup scheduler: rounding to whole hours and days,
//! and the fixed textual forms its state files carry, all over the
//! proleptic Gregorian calendar in UTC.

use vstd::prelude::*;
use vstd::string::StringSliceAdditionalSpecFns;

verus! {

/// A moment in time: seconds since the epoch, and nanoseconds within the
/// second.
#[derive(Clone, Copy, Debug, PartialEq, Eq, Structural)]
pub struct Timespec {
    pub sec: i64,
    pub nsec: i32,
}

pub const SECONDS_PER_HOUR: i64 = 3600;

pub const SECONDS_PER_DAY: i64 = 86400;

/// The earliest second these functions accept: the first moment of the
/// first of March of year 0, the era's first day.
pub const MIN_FORMAT_SEC: i64 = -62162035200;

/// The first second these functions no longer accept: the first moment of
/// year 10000, past which a year no longer has four digits.
pub const MAX_FORMAT_SEC: i64 = 253402300800;

/// A second count rounded down to a whole multiple of `unit`.
pub open spec fn spec_floor_to(sec: int, unit: int) -> int {
    sec - sec % unit
}

/// The largest whole hour not after `now`; the nanoseconds are dropped.
pub fn round_down_hour(now: Timespec) -> (r: Timespec)
    requires
        now.sec > i64::MIN + SECONDS_PER_HOUR,
    ensures
        r.sec == spec_floor_to(now.sec as int, SECONDS_PER_HOUR as int),
        r.nsec == 0,
{
    let (q, _) = div_mod_floor(now.sec, SECONDS_PER_HOUR);
    Timespec { sec: q * SECONDS_PER_HOUR, nsec: 0 }
}

/// The largest whole day not after `now`; the nanoseconds are dropped.
pub fn round_down_day(now: Timespec) -> (r: Timespec)
    requires
        now.sec > i64::MIN + SECONDS_PER_DAY,
    ensures
        r.sec == spec_floor_to(now.sec as int, SECONDS_PER_DAY as int),
        r.nsec == 0,
{
    let (q, _) = div_mod_floor(now.sec, SECONDS_PER_DAY);
    Timespec { sec: q * SECONDS_PER_DAY, nsec: 0 }
}

/// Quotient and remainder with the remainder never negative.
fn div_mod_floor(a: i64, b: i64) -> (r: (i64, i64))
    requires
        b > 0,
        a > i64::MIN + b,
    ensures
        r.0 == a as int / b as int,
        r.1 == a as int % b as int,
        a == r.0 * b + r.1,
        0 <= r.1 < b,
{
    let (q, rem) = if a >= 0 {
        proof {
            vstd::arithmetic::div_mod::lemma_fundamental_div_mod(a as int, b as int);
            vstd::arithmetic::div_mod::lemma_div_pos_is_pos(a as int, b as int);
            vstd::arithmetic::div_mod::lemma_div_nonincreasing(a as int, b as int);
        }
        (((a as u64) / (b as u64)) as i64, ((a as u64) % (b as u64)) as i64)
    } else {
        let pos = -(a + 1);
        let qd = ((pos as u64) / (b as u64)) as i64;
        let rm = ((pos as u64) % (b as u64)) as i64;
        proof {
            vstd::arithmetic::div_mod::lemma_fundamental_div_mod(pos as int, b as int);
            vstd::arithmetic::div_mod::lemma_div_nonincreasing(pos as int, b as int);
            vstd::arithmetic::div_mod::lemma_div_pos_is_pos(pos as int, b as int);
        }
        let q = -qd - 1;
        let rem = b - 1 - rm;
        proof {
            assert(a as int == q as int * b as int + rem as int) by (nonlinear_arith)
                requires
                    pos as int == b as int * (qd as int) + rm as int,
                    q as int == -(qd as int) - 1,
                    rem as int == b as int - 1 - rm as int,
                    a as int == -(pos as int) - 1,
            ;
        }
        (q, rem)
    };
    proof {
        assert(0 <= rem < b);
        if a >= 0 {
            assert(q as int == a as int / b as int);
            assert(rem as int == a as int % b as int);
            assert(a as int == b as int * (a as int / b as int) + (a as int % b as int));
            assert(a as int == b as int * q as int + rem as int);
            assert(b as int * q as int == q as int * b as int);
        }
        assert(a as int == q as int * b as int + rem as int);
        vstd::arithmetic::div_mod::lemma_fundamental_div_mod_converse(
            a as int,
            b as int,
            q as int,
            rem as int,
        );
    }
    (q, rem)
}

/// The calendar date holding day `z` of the era (days since the epoch,
/// shifted so day 0 is the first of March of year 0): year, month and day.
pub open spec fn spec_civil_from_days(days: int) -> (int, int, int) {
    let z = days + 719468;
    let era = z / 146097;
    let doe = z % 146097;
    let yoe = (doe - doe / 1460 + doe / 36524 - doe / 146096) / 365;
    let raw_doy = doe - (365 * yoe + yoe / 4 - yoe / 100);
    let doy = if raw_doy < 0 {
        0
    } else {
        raw_doy
    };
    let mp = (5 * doy + 2) / 153;
    let raw_d = doy - (153 * mp + 2) / 5 + 1;
    let d = if raw_d < 0 {
        0
    } else {
        raw_d
    };
    let m = if mp < 10 {
        mp + 3
    } else {
        mp - 9
    };
    let y = yoe + era * 400 + (if m <= 2 {
        1int
    } else {
        0int
    });
    (y, m, d)
}

/// The calendar date holding day `days` since the epoch.
fn civil_from_days(days: i64) -> (r: (i64, i64, i64))
    requires
        days + 719468 >= 0,
        days + 719468 < 0x1000_0000,
    ensures
        (r.0 as int, r.1 as int, r.2 as int) == spec_civil_from_days(days as int),
        r.0 >= 0,
        r.1 >= 0,
        r.2 >= 0,
{
    let z = days + 719468;
    let era = z / 146097;
    let doe = z % 146097;
    proof {
        vstd::arithmetic::div_mod::lemma_div_pos_is_pos(z as int, 146097);
        vstd::arithmetic::div_mod::lemma_div_nonincreasing(doe as int, 1460);
        vstd::arithmetic::div_mod::lemma_div_nonincreasing(doe as int, 36524);
        vstd::arithmetic::div_mod::lemma_div_nonincreasing(doe as int, 146096);
        vstd::arithmetic::div_mod::lemma_div_pos_is_pos(doe as int, 1460);
        vstd::arithmetic::div_mod::lemma_div_pos_is_pos(doe as int, 36524);
        vstd::arithmetic::div_mod::lemma_div_pos_is_pos(doe as int, 146096);
        vstd::arithmetic::div_mod::lemma_div_is_ordered_by_denominator(doe as int, 36524, 146096);
    }
    let num = doe - doe / 1460 + doe / 36524 - doe / 146096;
    proof {
        vstd::arithmetic::div_mod::lemma_div_pos_is_pos(num as int, 365);
        vstd::arithmetic::div_mod::lemma_div_nonincreasing(num as int, 365);
    }
    let yoe = num / 365;
    proof {
        vstd::arithmetic::div_mod::lemma_div_pos_is_pos(yoe as int, 4);
        vstd::arithmetic::div_mod::lemma_div_pos_is_pos(yoe as int, 100);
        vstd::arithmetic::div_mod::lemma_div_nonincreasing(yoe as int, 4);
        vstd::arithmetic::div_mod::lemma_div_nonincreasing(yoe as int, 100);
    }
    let raw_doy = doe - (365 * yoe + yoe / 4 - yoe / 100);
    let doy = if raw_doy < 0 {
        0
    } else {
        raw_doy
    };
    proof {
        vstd::arithmetic::div_mod::lemma_div_pos_is_pos(5 * doy as int + 2, 153);
        vstd::arithmetic::div_mod::lemma_div_nonincreasing(5 * doy as int + 2, 153);
    }
    let mp = (5 * doy + 2) / 153;
    proof {
        vstd::arithmetic::div_mod::lemma_div_pos_is_pos(153 * mp as int + 2, 5);
        vstd::arithmetic::div_mod::lemma_div_nonincreasing(153 * mp as int + 2, 5);
    }
    let raw_d = doy - (153 * mp + 2) / 5 + 1;
    let d = if raw_d < 0 {
        0
    } else {
        raw_d
    };
    let m = if mp < 10 {
        mp + 3
    } else {
        mp - 9
    };
    let y = yoe + era * 400 + if m <= 2 {
        1
    } else {
        0
    };
    (y, m, d)
}

/// The day since the epoch on which a calendar date falls.
pub open spec fn spec_days_from_civil(y: int, m: int, d: int) -> int {
    let yy = if m <= 2 {
        y - 1
    } else {
        y
    };
    let era = yy / 400;
    let yoe = yy % 400;
    let mp = if m > 2 {
        m - 3
    } else {
        m + 9
    };
    let doy = (153 * mp + 2) / 5 + d - 1;
    let doe = yoe * 365 + yoe / 4 - yoe / 100 + doy;
    era * 146097 + doe - 719468
}

/// The day since the epoch on which a calendar date falls.
fn days_from_civil(y: i64, m: i64, d: i64) -> (r: i64)
    requires
        0 <= y <= 9999,
        1 <= m <= 12,
        1 <= d <= 31,
    ensures
        r == spec_days_from_civil(y as int, m as int, d as int),
        -719529 < r < 2932897,
{
    let yy = if m <= 2 {
        y - 1
    } else {
        y
    };
    let (era, yoe) = div_mod_floor(yy, 400);
    let mp = if m > 2 {
        m - 3
    } else {
        m + 9
    };
    let doy = (153 * mp + 2) / 5 + d - 1;
    let doe = yoe * 365 + yoe / 4 - yoe / 100 + doy;
    era * 146097 + doe - 719468
}

/// The decimal digits of `n`, `width` of them, most significant first.
pub open spec fn spec_decimal(n: int, width: nat) -> Seq<u8>
    decreases width,
{
    if width == 0 {
        Seq::empty()
    } else {
        spec_decimal(n / 10, (width - 1) as nat).push((0x30 + n % 10) as u8)
    }
}

/// Write `n` as `width` decimal digits onto `out`.
fn push_decimal(out: &mut Vec<u8>, n: i64, width: u64)
    requires
        n >= 0,
    ensures
        final(out)@ == old(out)@ + spec_decimal(n as int, width as nat),
    decreases width,
{
    if width == 0 {
        proof {
            assert(out@ + Seq::<u8>::empty() =~= out@);
        }
        return ;
    }
    push_decimal(out, n / 10, width - 1);
    let ghost before = out@;
    out.push(0x30 + ((n % 10) as u8));
    proof {
        assert(old(out)@ + spec_decimal(n as int, width as nat) =~= before.push(
            (0x30 + n as int % 10) as u8,
        ));
    }
}

/// The characters spelt by a run of plain ASCII bytes.
pub open spec fn spec_chars_of(bytes: Seq<u8>) -> Seq<char> {
    bytes.map_values(|b: u8| b as char)
}

/// Relies on String::from_utf8: bytes below 0x80 decode to one character
/// each, with the same code point.
#[verifier::external_body]
fn ascii_string(bytes: Vec<u8>) -> (r: String)
    requires
        forall|i: int| 0 <= i < bytes@.len() ==> bytes@[i] < 0x80,
    ensures
        r@ == spec_chars_of(bytes@),
{
    match String::from_utf8(bytes) {
        Ok(s) => s,
        Err(_) => String::new(),
    }
}

/// The calendar fields of a moment: year, month, day, hour, minute, second.
pub open spec fn spec_fields_of(sec: int) -> (int, int, int, int, int, int) {
    let days = sec / 86400;
    let rest = sec % 86400;
    let (y, m, d) = spec_civil_from_days(days);
    (y, m, d, rest / 3600, (rest % 3600) / 60, rest % 60)
}

/// The bytes of `when` written as date, a separator byte, then time.
pub open spec fn spec_format_bytes(sec: int, sep: Seq<u8>, with_time: bool, with_hour: bool) -> Seq<
    u8,
> {
    let (y, m, d, h, mi, s) = spec_fields_of(sec);
    let date = spec_decimal(y, 4) + seq![0x2du8] + spec_decimal(m, 2) + seq![0x2du8]
        + spec_decimal(d, 2);
    if with_time {
        date + sep + spec_decimal(h, 2) + seq![0x3au8] + spec_decimal(mi, 2) + seq![0x3au8]
            + spec_decimal(s, 2)
    } else if with_hour {
        date + sep + spec_decimal(h, 2)
    } else {
        date
    }
}

/// The exec half of the formatters: the fields of `when`, each in range.
fn fields_of(when: Timespec) -> (r: (i64, i64, i64, i64, i64, i64))
    requires
        MIN_FORMAT_SEC <= when.sec < MAX_FORMAT_SEC,
    ensures
        (r.0 as int, r.1 as int, r.2 as int, r.3 as int, r.4 as int, r.5 as int) == spec_fields_of(
            when.sec as int,
        ),
        0 <= r.0,
        0 <= r.1,
        0 <= r.2,
        0 <= r.3,
        0 <= r.4,
        0 <= r.5,
{
    let (days, rest) = div_mod_floor(when.sec, SECONDS_PER_DAY);
    let (y, m, d) = civil_from_days(days);
    (y, m, d, rest / 3600, (rest % 3600) / 60, rest % 60)
}

/// `when` as `"%Y-%m-%d %H:%M:%S"` in UTC.
pub fn time_format_pretty(when: Timespec) -> (r: String)
    requires
        MIN_FORMAT_SEC <= when.sec < MAX_FORMAT_SEC,
    ensures
        r@ == spec_chars_of(spec_format_bytes(when.sec as int, seq![0x20u8], true, false)),
{
    let (y, m, d, h, mi, s) = fields_of(when);
    let mut out: Vec<u8> = Vec::new();
    push_decimal(&mut out, y, 4);
    out.push(0x2d);
    push_decimal(&mut out, m, 2);
    out.push(0x2d);
    push_decimal(&mut out, d, 2);
    out.push(0x20);
    push_decimal(&mut out, h, 2);
    out.push(0x3a);
    push_decimal(&mut out, mi, 2);
    out.push(0x3a);
    push_decimal(&mut out, s, 2);
    proof {
        lemma_decimal_ascii();
        assert(out@ =~= spec_format_bytes(when.sec as int, seq![0x20u8], true, false));
    }
    ascii_string(out)
}

/// `when` as `"%Y-%m-%d"` in UTC.
pub fn time_format_day(when: Timespec) -> (r: String)
    requires
        MIN_FORMAT_SEC <= when.sec < MAX_FORMAT_SEC,
    ensures
        r@ == spec_chars_of(spec_format_bytes(when.sec as int, Seq::empty(), false, false)),
{
    let (y, m, d, _, _, _) = fields_of(when);
    let mut out: Vec<u8> = Vec::new();
    push_decimal(&mut out, y, 4);
    out.push(0x2d);
    push_decimal(&mut out, m, 2);
    out.push(0x2d);
    push_decimal(&mut out, d, 2);
    proof {
        lemma_decimal_ascii();
        assert(out@ =~= spec_format_bytes(when.sec as int, Seq::empty(), false, false));
    }
    ascii_string(out)
}

/// `when` as `"%Y-%m-%d-%H"` in UTC.
pub fn time_format_hour(when: Timespec) -> (r: String)
    requires
        MIN_FORMAT_SEC <= when.sec < MAX_FORMAT_SEC,
    ensures
        r@ == spec_chars_of(spec_format_bytes(when.sec as int, seq![0x2du8], false, true)),
{
    let (y, m, d, h, _, _) = fields_of(when);
    let mut out: Vec<u8> = Vec::new();
    push_decimal(&mut out, y, 4);
    out.push(0x2d);
    push_decimal(&mut out, m, 2);
    out.push(0x2d);
    push_decimal(&mut out, d, 2);
    out.push(0x2d);
    push_decimal(&mut out, h, 2);
    proof {
        lemma_decimal_ascii();
        assert(out@ =~= spec_format_bytes(when.sec as int, seq![0x2du8], false, true));
    }
    ascii_string(out)
}

/// Every digit a formatter writes is plain ASCII.
proof fn lemma_decimal_ascii()
    ensures
        forall|n: int, w: nat, i: int|
            0 <= i < spec_decimal(n, w).len() ==> (#[trigger] spec_decimal(n, w)[i]) < 0x80,
{
    assert forall|n: int, w: nat, i: int|
        0 <= i < spec_decimal(n, w).len() implies (#[trigger] spec_decimal(n, w)[i]) < 0x80 by {
        lemma_decimal_ascii_one(n, w, i);
    }
}

proof fn lemma_decimal_ascii_one(n: int, w: nat, i: int)
    requires
        0 <= i < spec_decimal(n, w).len(),
    ensures
        spec_decimal(n, w)[i] < 0x80,
    decreases w,
{
    if w > 0 && i < spec_decimal(n, w).len() - 1 {
        lemma_decimal_ascii_one(n / 10, (w - 1) as nat, i);
    }
}

/// `when` formatted prettily, or nothing.
pub fn time_format_pretty_opt(when_opt: Option<Timespec>) -> (r: Option<String>)
    requires
        match when_opt {
            Some(t) => MIN_FORMAT_SEC <= t.sec < MAX_FORMAT_SEC,
            None => true,
        },
    ensures
        match (when_opt, r) {
            (Some(t), Some(s)) => s@ == spec_chars_of(
                spec_format_bytes(t.sec as int, seq![0x20u8], true, false),
            ),
            (None, None) => true,
            _ => false,
        },
{
    match when_opt {
        None => None,
        Some(when) => Some(time_format_pretty(when)),
    }
}

/// Whether a byte spells a decimal digit.
pub open spec fn spec_is_digit(b: u8) -> bool {
    0x30 <= b <= 0x39
}

/// The number a run of digit bytes spells.
pub open spec fn spec_digits_value(s: Seq<u8>) -> int
    decreases s.len(),
{
    if s.len() == 0 {
        0
    } else {
        spec_digits_value(s.drop_last()) * 10 + (s.last() - 0x30)
    }
}

/// A well-formed `"%Y-%m-%d %H:%M:%S"` timestamp: nineteen bytes, digits
/// and separators in their places, each field in range.
pub open spec fn spec_is_datetime(s: Seq<u8>) -> bool {
    &&& s.len() == 19
    &&& spec_is_digit(s[0]) && spec_is_digit(s[1]) && spec_is_digit(s[2]) && spec_is_digit(s[3])
    &&& s[4] == 0x2d && s[7] == 0x2d && s[10] == 0x20 && s[13] == 0x3a && s[16] == 0x3a
    &&& spec_is_digit(s[5]) && spec_is_digit(s[6]) && spec_is_digit(s[8]) && spec_is_digit(s[9])
    &&& spec_is_digit(s[11]) && spec_is_digit(s[12]) && spec_is_digit(s[14]) && spec_is_digit(
        s[15],
    ) && spec_is_digit(s[17]) && spec_is_digit(s[18])
    &&& 1 <= spec_digits_value(s.subrange(5, 7)) <= 12
    &&& 1 <= spec_digits_value(s.subrange(8, 10)) <= 31
    &&& spec_digits_value(s.subrange(11, 13)) <= 23
    &&& spec_digits_value(s.subrange(14, 16)) <= 59
    &&& spec_digits_value(s.subrange(17, 19)) <= 59
}

/// The moment a well-formed timestamp names.
pub open spec fn spec_parse_datetime(s: Seq<u8>) -> int {
    let y = spec_digits_value(s.subrange(0, 4));
    let m = spec_digits_value(s.subrange(5, 7));
    let d = spec_digits_value(s.subrange(8, 10));
    let h = spec_digits_value(s.subrange(11, 13));
    let mi = spec_digits_value(s.subrange(14, 16));
    let sec = spec_digits_value(s.subrange(17, 19));
    spec_days_from_civil(y, m, d) * 86400 + h * 3600 + mi * 60 + sec
}

/// The two-digit number at `at`.
fn read2(s: &[u8], at: usize) -> (r: i64)
    requires
        at + 2 <= s@.len(),
        spec_is_digit(s@[at as int]),
        spec_is_digit(s@[at + 1]),
    ensures
        r == spec_digits_value(s@.subrange(at as int, at + 2)),
        0 <= r <= 99,
{
    proof {
        reveal_with_fuel(spec_digits_value, 3);
        let sub = s@.subrange(at as int, at + 2);
        assert(sub.drop_last() =~= s@.subrange(at as int, at + 1));
        assert(sub.last() == s@[at + 1]);
        assert(sub.drop_last().last() == s@[at as int]);
        assert(spec_digits_value(s@.subrange(at as int, at + 1).drop_last()) == 0) by {
            assert(s@.subrange(at as int, at + 1).drop_last() =~= Seq::<u8>::empty());
        }
    }
    ((s[at] - 0x30) as i64) * 10 + ((s[at + 1] - 0x30) as i64)
}

/// The four-digit number at `at`.
fn read4(s: &[u8], at: usize) -> (r: i64)
    requires
        at + 4 <= s@.len(),
        forall|j: int| at <= j < at + 4 ==> spec_is_digit(s@[j]),
    ensures
        r == spec_digits_value(s@.subrange(at as int, at + 4)),
        0 <= r <= 9999,
{
    proof {
        reveal_with_fuel(spec_digits_value, 5);
        let sub = s@.subrange(at as int, at + 4);
        assert(sub.drop_last() =~= s@.subrange(at as int, at + 3));
        assert(s@.subrange(at as int, at + 3).drop_last() =~= s@.subrange(at as int, at + 2));
        assert(s@.subrange(at as int, at + 2).drop_last() =~= s@.subrange(at as int, at + 1));
        assert(sub.last() == s@[at + 3]);
        assert(s@.subrange(at as int, at + 3).last() == s@[at + 2]);
        assert(s@.subrange(at as int, at + 2).last() == s@[at + 1]);
        assert(s@.subrange(at as int, at + 1).last() == s@[at as int]);
        assert(spec_digits_value(s@.subrange(at as int, at + 1).drop_last()) == 0) by {
            assert(s@.subrange(at as int, at + 1).drop_last() =~= Seq::<u8>::empty());
        }
    }
    (((s[at] - 0x30) as i64) * 1000) + (((s[at + 1] - 0x30) as i64) * 100) + (((s[at + 2]
        - 0x30) as i64) * 10) + ((s[at + 3] - 0x30) as i64)
}

/// Parse a `"%Y-%m-%d %H:%M:%S"` timestamp, in UTC.
pub fn time_parse(text: &str) -> (r: Timespec)
    requires
        spec_is_datetime(text.spec_bytes()),
    ensures
        r.sec == spec_parse_datetime(text.spec_bytes()),
        r.nsec == 0,
{
    let s = text.as_bytes();
    let y = read4(s, 0);
    let m = read2(s, 5);
    let d = read2(s, 8);
    let h = read2(s, 11);
    let mi = read2(s, 14);
    let sec = read2(s, 17);
    let days = days_from_civil(y, m, d);
    Timespec { sec: days * 86400 + h * 3600 + mi * 60 + sec, nsec: 0 }
}

/// Parse a timestamp, or nothing.
pub fn time_parse_opt(opt_text: &Option<String>) -> (r: Option<Timespec>)
    requires
        match opt_text {
            Some(t) => spec_is_datetime(vstd::utf8::encode_utf8(t@)),
            None => true,
        },
    ensures
        match (opt_text, r) {
            (Some(t), Some(v)) => v.sec == spec_parse_datetime(vstd::utf8::encode_utf8(t@))
                && v.nsec == 0,
            (None, None) => true,
            _ => false,
        },
{
    match opt_text {
        None => None,
        Some(text) => Some(time_parse(text.as_str())),
    }
}

} // verus!
