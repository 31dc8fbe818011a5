use fastboot::response::{data, fail, fastboot_respond, handle_getvar, okay, plain_okay};

#[test]
fn responses_carry_their_mark() {
    assert_eq!(plain_okay(), "OKAY");
    assert_eq!(okay("0.4"), "OKAY0.4");
    assert_eq!(fail("unknown command"), "FAILunknown command");
    assert_eq!(data(0x1000), "DATA00001000");
    assert_eq!(data(0), "DATA00000000");
    assert_eq!(data(0x1_0000_0000), "DATA100000000");
}

#[test]
fn packets_hold_64_bytes() {
    assert_eq!(fastboot_respond("OKAY"), b"OKAY");
    assert_eq!(fastboot_respond(""), b"");
    let long = "FAIL".to_string() + &"x".repeat(100);
    assert_eq!(fastboot_respond(&long), long.as_bytes()[..64].to_vec());
    assert_eq!(fastboot_respond(&long[..64]), long.as_bytes()[..64].to_vec());
    assert_eq!(fastboot_respond(&"é".repeat(40)).len(), 64);
}

#[test]
fn variables_are_told() {
    assert_eq!(handle_getvar("version", "v1.2"), "OKAY0.4");
    assert_eq!(handle_getvar("version-bootloader", "v1.2"), "OKAYv1.2");
    assert_eq!(handle_getvar("product", "v1.2"), "FAILunknown variable: product");
}
