use fastboot::request::{parse_command, parse_fastboot_request, Command};

#[test]
fn request_ends_at_zero_and_line_ends() {
    assert_eq!(parse_fastboot_request(b"boot"), Ok("boot"));
    assert_eq!(parse_fastboot_request(b"boot\0garbage\xff"), Ok("boot"));
    assert_eq!(parse_fastboot_request(b"boot\r\n\0"), Ok("boot"));
    assert_eq!(parse_fastboot_request(b"boot\n\r\n"), Ok("boot"));
    assert_eq!(parse_fastboot_request(b"\n boot \n"), Ok("\n boot "));
    assert_eq!(parse_fastboot_request(b"\r\n"), Ok(""));
    assert_eq!(parse_fastboot_request(b""), Ok(""));
    assert_eq!(parse_fastboot_request(b"\0boot"), Ok(""));
    assert_eq!(parse_fastboot_request("getvar:é\n".as_bytes()), Ok("getvar:é"));
    assert_eq!(parse_fastboot_request(b"boot\0reboot\n"), Ok("boot"));
    assert_eq!(parse_fastboot_request(b"boot\n\0reboot\0"), Ok("boot"));
}

#[test]
fn request_has_to_be_utf8() {
    assert_eq!(parse_fastboot_request(b"bo\xffot"), Err(()));
    assert_eq!(parse_fastboot_request(b"boot\xc3\n"), Err(()));
    assert_eq!(parse_fastboot_request(b"boot\xc3\0\xa9"), Err(()));
}

#[test]
fn commands_are_told_apart() {
    assert!(matches!(parse_command("boot"), Command::Boot));
    assert!(matches!(parse_command("reboot"), Command::Reboot));
    assert!(matches!(parse_command("continue"), Command::Continue));
    assert!(matches!(parse_command("getvar"), Command::BadGetVar));
    assert!(matches!(parse_command("getvar:"), Command::BadGetVar));
    assert!(matches!(parse_command("getvar:version"), Command::GetVar("version")));
    assert!(matches!(parse_command("download:00001000"), Command::Download(4096)));
    assert!(matches!(parse_command("download:"), Command::BadDownloadSize));
    assert!(matches!(parse_command("download:12x"), Command::BadDownloadSize));
    assert!(matches!(parse_command("download"), Command::Unknown));
    assert!(matches!(parse_command("Boot"), Command::Unknown));
    assert!(matches!(parse_command("boot "), Command::Unknown));
    assert!(matches!(parse_command("flash:boot"), Command::Unknown));
    assert!(matches!(parse_command(""), Command::Unknown));
}
