//! Tests of the scheduler's time handling: rounding and the fixed textual
//! forms.

use rzbackup::times::{
    round_down_day, round_down_hour, time_format_day, time_format_hour, time_format_pretty,
    time_format_pretty_opt, time_parse, time_parse_opt, Timespec,
};

#[test]
fn rounding_down_drops_partial_units() {
    let t = Timespec { sec: 3 * 86400 + 5 * 3600 + 123, nsec: 77 };
    let hour = round_down_hour(t);
    assert_eq!(hour, Timespec { sec: 3 * 86400 + 5 * 3600, nsec: 0 });
    let day = round_down_day(t);
    assert_eq!(day, Timespec { sec: 3 * 86400, nsec: 0 });
}

#[test]
fn rounding_down_before_the_epoch() {
    let t = Timespec { sec: -1, nsec: 0 };
    assert_eq!(round_down_hour(t).sec, -3600);
    assert_eq!(round_down_day(t).sec, -86400);
}

#[test]
fn formats_of_the_epoch() {
    let t = Timespec { sec: 0, nsec: 0 };
    assert_eq!(time_format_pretty(t), "1970-01-01 00:00:00");
    assert_eq!(time_format_day(t), "1970-01-01");
    assert_eq!(time_format_hour(t), "1970-01-01-00");
}

#[test]
fn format_of_an_ordinary_moment() {
    // 2016-02-29T13:05:09Z, a leap day.
    let t = Timespec { sec: 1456751109, nsec: 0 };
    assert_eq!(time_format_pretty(t), "2016-02-29 13:05:09");
    assert_eq!(time_format_hour(t), "2016-02-29-13");
}

#[test]
fn format_before_the_epoch() {
    let t = Timespec { sec: -1, nsec: 0 };
    assert_eq!(time_format_pretty(t), "1969-12-31 23:59:59");
}

#[test]
fn parse_inverts_format() {
    let t = Timespec { sec: 1456751109, nsec: 0 };
    let text = time_format_pretty(t);
    assert_eq!(time_parse(&text), t);
}

#[test]
fn parse_of_a_written_timestamp() {
    let t = time_parse("1970-01-02 00:00:01");
    assert_eq!(t, Timespec { sec: 86401, nsec: 0 });
}

#[test]
fn optional_forms_pass_nothing_through() {
    assert_eq!(time_format_pretty_opt(None), None);
    assert_eq!(time_parse_opt(&None), None);
    let text = time_format_pretty_opt(Some(Timespec { sec: 60, nsec: 0 })).unwrap();
    assert_eq!(text, "1970-01-01 00:01:00");
    let back = time_parse_opt(&Some(text)).unwrap();
    assert_eq!(back.sec, 60);
}
