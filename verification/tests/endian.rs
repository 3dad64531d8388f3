use netproto::endian::{
    push_u16_be, push_u32_be, push_u32_le, push_u64_le, read_u16_be, read_u32_be, read_u32_le,
    read_u64_le,
};
use netproto::scan::{find_byte, same_bytes};

#[test]
fn big_endian_numbers_are_written_most_significant_first() {
    let mut out = vec![9u8];
    push_u16_be(&mut out, 0x1234);
    push_u32_be(&mut out, 0xDEADBEEF);
    assert_eq!(out, vec![9, 0x12, 0x34, 0xDE, 0xAD, 0xBE, 0xEF]);
    assert_eq!(read_u16_be(&out, 1), 0x1234);
    assert_eq!(read_u32_be(&out, 3), 0xDEADBEEF);
}

#[test]
fn little_endian_numbers_are_written_least_significant_first() {
    let mut out = Vec::new();
    push_u32_le(&mut out, 0x01020304);
    push_u64_le(&mut out, 0x1122334455667788);
    assert_eq!(
        out,
        vec![4, 3, 2, 1, 0x88, 0x77, 0x66, 0x55, 0x44, 0x33, 0x22, 0x11]
    );
    assert_eq!(read_u32_le(&out, 0), 0x01020304);
    assert_eq!(read_u64_le(&out, 4), 0x1122334455667788);
}

#[test]
fn extreme_numbers_round_trip() {
    for x in [0u64, 1, 255, 256, u32::MAX as u64, u32::MAX as u64 + 1, u64::MAX] {
        let mut out = Vec::new();
        push_u64_le(&mut out, x);
        assert_eq!(out, x.to_le_bytes().to_vec());
        assert_eq!(read_u64_le(&out, 0), x);
    }
    for x in [0u32, 1, 0xFF, 0x100, 0xFFFF, 0x10000, u32::MAX] {
        let mut out = Vec::new();
        push_u32_be(&mut out, x);
        assert_eq!(out, x.to_be_bytes().to_vec());
        assert_eq!(read_u32_be(&out, 0), x);
        let mut out = Vec::new();
        push_u32_le(&mut out, x);
        assert_eq!(out, x.to_le_bytes().to_vec());
        assert_eq!(read_u32_le(&out, 0), x);
    }
    for x in [0u16, 1, 0xFF, 0x100, u16::MAX] {
        let mut out = Vec::new();
        push_u16_be(&mut out, x);
        assert_eq!(out, x.to_be_bytes().to_vec());
        assert_eq!(read_u16_be(&out, 0), x);
    }
}

#[test]
fn find_byte_gives_the_first_place_or_the_length() {
    let bytes = b"ab.cd.e";
    assert_eq!(find_byte(bytes, 0, b'.'), 2);
    assert_eq!(find_byte(bytes, 2, b'.'), 2);
    assert_eq!(find_byte(bytes, 3, b'.'), 5);
    assert_eq!(find_byte(bytes, 6, b'.'), 7);
    assert_eq!(find_byte(bytes, 7, b'.'), 7);
    assert_eq!(find_byte(b"", 0, b'.'), 0);
}

#[test]
fn same_bytes_compares_whole_strings() {
    assert!(same_bytes(b"", b""));
    assert!(same_bytes(b"/join", b"/join"));
    assert!(!same_bytes(b"/join", b"/joim"));
    assert!(!same_bytes(b"/join", b"/joi"));
}
