use fastboot::peimage::{expected_pe_machine, is_peimage, pe_machine, pe_subsystem_in_bounds};

/// An EFI application whose PE header stands at `pe`, with room for the fields that are read.
fn image(pe: usize, machine: u16, opt_size: u16, magic: u16, subsystem: u16) -> Vec<u8> {
    let mut v = vec![0u8; pe + 4 + 90];
    v[0] = b'M';
    v[1] = b'Z';
    v[0x3c..0x40].copy_from_slice(&(pe as u32).to_le_bytes());
    v[pe..pe + 4].copy_from_slice(b"PE\0\0");
    let coff = pe + 4;
    v[coff..coff + 2].copy_from_slice(&machine.to_le_bytes());
    v[coff + 16..coff + 18].copy_from_slice(&opt_size.to_le_bytes());
    v[coff + 20..coff + 22].copy_from_slice(&magic.to_le_bytes());
    v[coff + 88..coff + 90].copy_from_slice(&subsystem.to_le_bytes());
    v
}

#[test]
fn expected_machine_is_arm64() {
    assert_eq!(expected_pe_machine(), 0xaa64);
}

#[test]
fn efi_application_is_recognised() {
    let v = image(0x80, 0xaa64, 88, 0x020b, 10);
    assert_eq!(pe_machine(&v), Some(0xaa64));
    assert!(pe_subsystem_in_bounds(&v));
    assert!(is_peimage(&v));
    assert_eq!(pe_machine(&v), Some(expected_pe_machine()));
}

#[test]
fn pe_header_right_behind_the_dos_header() {
    let v = image(0x40, 0xaa64, 240, 0x020b, 10);
    assert!(is_peimage(&v));
}

#[test]
fn other_machines_are_told_but_not_taken() {
    let v = image(0x80, 0x8664, 88, 0x020b, 10);
    assert_eq!(pe_machine(&v), Some(0x8664));
    assert!(!is_peimage(&v));
}

#[test]
fn other_images_for_arm64_are_not_taken() {
    assert!(!is_peimage(&image(0x80, 0xaa64, 87, 0x020b, 10)));
    assert!(!is_peimage(&image(0x80, 0xaa64, 88, 0x010b, 10)));
    assert!(!is_peimage(&image(0x80, 0xaa64, 88, 0x020b, 11)));
}

#[test]
fn payloads_without_a_pe_header_have_no_machine() {
    assert_eq!(pe_machine(&[]), None);
    assert_eq!(pe_machine(b"MZ"), None);
    let mut v = image(0x80, 0xaa64, 88, 0x020b, 10);
    v[1] = b'X';
    assert_eq!(pe_machine(&v), None);
    let mut v = image(0x80, 0xaa64, 88, 0x020b, 10);
    v[0x82] = 1;
    assert_eq!(pe_machine(&v), None);
    assert!(!is_peimage(&v));
}

#[test]
fn pe_header_past_the_end_has_no_machine() {
    let mut v = image(0x80, 0xaa64, 88, 0x020b, 10);
    v[0x3c..0x40].copy_from_slice(&0xffff_fffeu32.to_le_bytes());
    assert_eq!(pe_machine(&v), None);
    let v = image(0x80, 0xaa64, 88, 0x020b, 10);
    assert_eq!(pe_machine(&v[..0x80 + 6]), Some(0xaa64));
    assert_eq!(pe_machine(&v[..0x80 + 5]), None);
}

#[test]
fn cut_off_headers() {
    let v = image(0x80, 0xaa64, 88, 0x020b, 10);
    let coff = 0x80 + 4;
    assert!(pe_subsystem_in_bounds(&v[..coff + 69]));
    assert!(!is_peimage(&v[..coff + 69]));
    assert!(!pe_subsystem_in_bounds(&v[..coff + 70]));
    assert!(!pe_subsystem_in_bounds(&v[..coff + 89]));
    assert!(pe_subsystem_in_bounds(&v[..coff + 90]));
    assert!(is_peimage(&v[..coff + 90]));
}
