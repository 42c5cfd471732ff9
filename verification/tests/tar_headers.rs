//! Tests of tar header decoding.

use rzbackup::tar::{tar_number_u32, tar_number_u64, tar_string, tar_type, Header, Type};

fn header_block(name: &str, size_octal: &str, typeflag: u8) -> Vec<u8> {
    let mut block = vec![0u8; 512];
    block[..name.len()].copy_from_slice(name.as_bytes());
    block[100..104].copy_from_slice(b"0644");
    block[124..124 + size_octal.len()].copy_from_slice(size_octal.as_bytes());
    block[136..140].copy_from_slice(b"7777");
    block[148..152].copy_from_slice(b"1234");
    block[156] = typeflag;
    block[257..263].copy_from_slice(b"ustar ");
    block[263..265].copy_from_slice(b" \0");
    block
}

#[test]
fn text_fields_stop_at_the_first_zero_byte() {
    assert_eq!(tar_string(b"abc\0def"), b"abc".to_vec());
    assert_eq!(tar_string(b"abc"), b"abc".to_vec());
    assert_eq!(tar_string(b"\0xyz"), Vec::<u8>::new());
}

#[test]
fn octal_fields_decode() {
    assert_eq!(tar_number_u64(b"00000000644\0").unwrap(), 0o644);
    assert_eq!(tar_number_u32(b"0000644\0").unwrap(), 0o644);
    assert_eq!(tar_number_u64(b"\0           ").unwrap(), 0);
    assert!(tar_number_u64(b"00000009000\0").is_err());
}

#[test]
fn base256_size_decodes_big_endian() {
    let mut field = [0u8; 12];
    field[0] = 0x80;
    field[10] = 0x01;
    field[11] = 0x02;
    assert_eq!(tar_number_u64(&field).unwrap(), 0x0102);
}

#[test]
fn type_flags_decode() {
    assert_eq!(tar_type(b'0'), Type::Regular);
    assert_eq!(tar_type(b'5'), Type::Directory);
    assert_eq!(tar_type(b'K'), Type::LongLink);
    assert_eq!(tar_type(b'L'), Type::LongName);
}

#[test]
fn whole_header_decodes() {
    let block = header_block("hello.txt", "00000001750\0", b'0');
    let header = Header::read(&block).unwrap();
    assert_eq!(header.name, b"hello.txt".to_vec());
    assert_eq!(header.mode, 0o644);
    assert_eq!(header.size, 0o1750);
    assert_eq!(header.blocks, (0o1750 + 511) / 512);
    assert_eq!(header.mtime, 0o7777);
    assert_eq!(header.cksum, 0o1234);
    assert_eq!(header.typeflag, Type::Regular);
}

#[test]
fn wrong_magic_is_rejected() {
    let mut block = header_block("x", "00000000000\0", b'0');
    block[257..263].copy_from_slice(b"magic!");
    let err = match Header::read(&block) {
        Ok(_) => panic!("expected the magic check to fail"),
        Err(e) => e,
    };
    assert_eq!(err.kind(), rzbackup::errors::ErrorKind::FramingError);
}
