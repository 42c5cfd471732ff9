//! Tests of the pack container: writing blocks, deferring, aligning, and
//! reading a packed stream back.

use rzbackup::wbspack::{read_footer, read_header, unpack, BlockReference, Packer};

#[test]
fn pack_and_unpack_round_trip() {
    let mut packer = Packer::new(0, 1).unwrap();
    packer.write_header().unwrap();
    packer.write(b"AAA").unwrap();
    let deferred = packer.defer(b"BBB".to_vec()).unwrap();
    packer.write(b"CCC").unwrap();
    packer.write_deferred(&deferred).unwrap();
    packer.write_footer().unwrap();
    let packed = packer.into_bytes();
    let unpacked = unpack(&packed).unwrap();
    assert_eq!(unpacked, b"AAABBBCCC".to_vec());
}

#[test]
fn footer_lists_blocks_in_order() {
    let mut packer = Packer::new(0, 1).unwrap();
    packer.write_header().unwrap();
    packer.write(b"xy").unwrap();
    packer.write(b"z").unwrap();
    packer.write_footer().unwrap();
    let blocks = packer.block_list();
    assert_eq!(blocks.len(), 2);
    assert_eq!(blocks[0], BlockReference { offset: 80, size: 2 });
    assert_eq!(blocks[1], BlockReference { offset: 82, size: 1 });
    let packed = packer.into_bytes();
    let read_back = read_footer(&packed).unwrap();
    assert_eq!(read_back, blocks);
}

#[test]
fn alignment_pads_with_zero_bytes() {
    let mut packer = Packer::new(0, 16).unwrap();
    packer.write(b"abc").unwrap();
    packer.align().unwrap();
    packer.write(b"d").unwrap();
    let blocks = packer.block_list();
    assert_eq!(blocks[1].offset, 16);
    let bytes = packer.into_bytes();
    assert_eq!(&bytes[..3], b"abc");
    assert_eq!(&bytes[3..16], &[0u8; 13]);
    assert_eq!(bytes[16], b'd');
}

#[test]
fn header_must_carry_the_version_line() {
    let mut packer = Packer::new(0, 1).unwrap();
    packer.write_header().unwrap();
    packer.write_footer().unwrap();
    let packed = packer.into_bytes();
    assert_eq!(read_header(&packed).unwrap(), 80);
    let mut stripped = Vec::new();
    stripped.extend_from_slice(&packed[..32]);
    // Drop the version and payload-shape lines, keeping the header end.
    stripped.extend_from_slice(&packed[64..]);
    let err = read_header(&stripped).unwrap_err();
    assert_eq!(err.kind(), rzbackup::errors::ErrorKind::UnsupportedVersion);
}

#[test]
fn truncated_pack_is_rejected() {
    let err = unpack(b"WBS PACK").unwrap_err();
    assert_eq!(err.kind(), rzbackup::errors::ErrorKind::FramingError);
}

#[test]
fn out_of_range_block_contributes_what_is_there() {
    let mut packer = Packer::new(0, 1).unwrap();
    packer.write_header().unwrap();
    packer.write(b"ok").unwrap();
    packer.write_footer().unwrap();
    let packed = packer.into_bytes();
    let blocks = vec![BlockReference { offset: 80, size: 1000 }];
    let copied = rzbackup::wbspack::copy_blocks(&packed, &blocks).unwrap();
    assert_eq!(&copied[..2], b"ok");
    assert_eq!(copied.len(), packed.len() - 80);
}
