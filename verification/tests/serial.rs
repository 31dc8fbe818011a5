use fastboot::serial::{card_parts_in_bounds, generate_serial_number, serial_source, SerialSource};

fn units(text: &str) -> Vec<u16> {
    text.encode_utf16().chain([0]).collect()
}

#[test]
fn ufs_serials_are_checksums() {
    match serial_source(b"UFS 3.1", b"ABCDEFGH", 5) {
        SerialSource::Checksum(bytes) => assert_eq!(bytes, b"ABCDE"),
        SerialSource::Number(_) => panic!("a number"),
    }
}

#[test]
fn other_serials_are_numbers() {
    match serial_source(b"eMMC", &[0x78, 0x56, 0x34, 0x12, 0xff], 200) {
        SerialSource::Number(number) => assert_eq!(number, 0x1234_5678),
        SerialSource::Checksum(_) => panic!("a checksum"),
    }
}

#[test]
fn serial_is_eight_digits() {
    assert_eq!(generate_serial_number(Some(0xabc)), units("00000abc"));
    assert_eq!(generate_serial_number(Some(0xffff_ffff)), units("ffffffff"));
    assert_eq!(generate_serial_number(Some(0)), units("00000000"));
}

#[test]
fn serial_without_a_card() {
    assert_eq!(generate_serial_number(None), units("deadcafe"));
}

#[test]
fn cards_that_cannot_be_read() {
    assert!(card_parts_in_bounds(b"UFS", b"AB", 2));
    assert!(!card_parts_in_bounds(b"UFS", b"AB", 3));
    assert!(card_parts_in_bounds(b"MMC", b"ABCD", 9));
    assert!(!card_parts_in_bounds(b"MMC", b"ABC", 0));
    assert!(!card_parts_in_bounds(b"UF", b"ABCD", 0));
}
