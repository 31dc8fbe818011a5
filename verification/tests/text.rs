use fastboot::bytes::{find_zero, read_u16, read_u32, starts_with};
use fastboot::text::{format_hex, parse_hex, same_text, strip_prefix};

#[test]
fn numbers_are_little_endian() {
    assert_eq!(read_u16(&[0, 0x34, 0x12], 1), 0x1234);
    assert_eq!(read_u16(&[0xff, 0xff], 0), 0xffff);
    assert_eq!(read_u32(&[0x78, 0x56, 0x34, 0x12], 0), 0x1234_5678);
    assert_eq!(read_u32(&[9, 0xff, 0xff, 0xff, 0xff], 1), 0xffff_ffff);
}

#[test]
fn zero_bytes_are_found() {
    assert_eq!(find_zero(b"ab\0c\0", 0), 2);
    assert_eq!(find_zero(b"ab\0c\0", 3), 4);
    assert_eq!(find_zero(b"ab", 0), 2);
    assert_eq!(find_zero(b"", 0), 0);
}

#[test]
fn prefixes_of_bytes() {
    assert!(starts_with(b"ANDROID!x", b"ANDROID!"));
    assert!(!starts_with(b"ANDROID", b"ANDROID!"));
    assert!(starts_with(b"a", b""));
}

#[test]
fn prefixes_of_text() {
    assert_eq!(strip_prefix("getvar:version", "getvar:"), Some("version"));
    assert_eq!(strip_prefix("getvar:", "getvar:"), Some(""));
    assert_eq!(strip_prefix("getvar", "getvar:"), None);
    assert_eq!(strip_prefix("übung", "ü"), Some("bung"));
    assert!(same_text("boot", "boot"));
    assert!(!same_text("boot", "boo"));
    assert!(!same_text("boot", "root"));
}

#[test]
fn hexadecimal_is_read() {
    assert_eq!(parse_hex("0"), Some(0));
    assert_eq!(parse_hex("00001000"), Some(4096));
    assert_eq!(parse_hex("dEadBeef"), Some(0xdead_beef));
    assert_eq!(parse_hex("+1f"), Some(31));
    assert_eq!(parse_hex("ffffffffffffffff"), Some(usize::MAX));
    assert_eq!(parse_hex("00ffffffffffffffff"), Some(usize::MAX));
}

#[test]
fn other_text_is_no_hexadecimal_number() {
    for text in ["", "+", "++1", "-1", "0x10", " 1", "1 ", "1g", "10000000000000000", "1\u{0660}"] {
        assert_eq!(parse_hex(text), None, "{}", text);
    }
}

#[test]
fn hexadecimal_reads_as_the_standard_library_does() {
    for text in ["", "+", "+0", "7f", "7F", "-0", "é", "ffffffffffffffff", "fffffffffffffffff"] {
        assert_eq!(parse_hex(text), usize::from_str_radix(text, 16).ok(), "{}", text);
    }
}

#[test]
fn hexadecimal_is_written() {
    assert_eq!(format_hex(0, 8), "00000000");
    assert_eq!(format_hex(0x1234abcd, 8), "1234abcd");
    assert_eq!(format_hex(0x1_2345_6789, 8), "123456789");
    assert_eq!(format_hex(0xaa64, 4), "aa64");
    assert_eq!(format_hex(0xf, 1), "f");
    assert_eq!(format_hex(u64::MAX, 0), "ffffffffffffffff");
}

#[test]
fn hexadecimal_is_read_back() {
    for n in [0usize, 1, 15, 16, 255, 0x1000, 0xffff_ffff, usize::MAX] {
        assert_eq!(parse_hex(&format_hex(n as u64, 8)), Some(n));
    }
}
