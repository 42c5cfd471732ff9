//! Tests of the framing primitive: variable-length integers and framed
//! records.

use rzbackup::wire::{read_framed, read_varint};

#[test]
fn varint_single_byte() {
    assert_eq!(read_varint(&[0x00], 0), Some((0, 1)));
    assert_eq!(read_varint(&[0x7f], 0), Some((127, 1)));
}

#[test]
fn varint_multi_byte() {
    assert_eq!(read_varint(&[0x80, 0x01], 0), Some((128, 2)));
    assert_eq!(read_varint(&[0xac, 0x02], 0), Some((300, 2)));
    assert_eq!(
        read_varint(&[0xff, 0xff, 0xff, 0xff, 0xff, 0xff, 0xff, 0xff, 0xff, 0x01], 0),
        Some((u64::MAX, 10))
    );
}

#[test]
fn varint_truncated_or_overflowing() {
    assert_eq!(read_varint(&[0x80], 0), None);
    assert_eq!(read_varint(&[], 0), None);
    // An eleventh continuation byte is over-long.
    assert_eq!(
        read_varint(&[0x80, 0x80, 0x80, 0x80, 0x80, 0x80, 0x80, 0x80, 0x80, 0x80, 0x01], 0),
        None
    );
    // The value itself no longer fits sixty-four bits.
    assert_eq!(
        read_varint(&[0xff, 0xff, 0xff, 0xff, 0xff, 0xff, 0xff, 0xff, 0xff, 0x02], 0),
        None
    );
}

#[test]
fn framed_record_is_length_prefixed() {
    let data = [0x03, 0xaa, 0xbb, 0xcc, 0xdd];
    let (payload, next) = read_framed(&data, 0).unwrap();
    assert_eq!(payload, &[0xaa, 0xbb, 0xcc]);
    assert_eq!(next, 4);
}

#[test]
fn framed_record_past_end_is_rejected() {
    assert_eq!(read_framed(&[0x05, 0xaa], 0), None);
}
