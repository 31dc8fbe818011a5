use fastboot::session::{Session, SessionAction, Step};
use fastboot::usb::UsbEvent;

fn reply(session: &Session, request: &[u8]) -> Option<String> {
    session.handle_request(request, "v7").reply()
}

#[test]
fn requests_are_answered() {
    let session = Session::new();
    for (request, text) in [
        (&b"getvar:version"[..], "OKAY0.4"),
        (b"getvar:version-bootloader\n", "OKAYv7"),
        (b"getvar:serialno", "FAILunknown variable: serialno"),
        (b"getvar", "FAILinvalid getvar"),
        (b"getvar:\r\n", "FAILinvalid getvar"),
        (b"flash:boot", "FAILunknown command"),
        (b"", "FAILunknown command"),
        (b"\xff\xfe", "FAILmalformed fastboot command"),
        (b"download:xyz", "FAILinvalid download size"),
        (b"download:00000100", "DATA00000100"),
        (b"boot", "FAILdownload something first"),
        (b"reboot", "OKAY"),
        (b"continue", "OKAY"),
    ] {
        assert_eq!(reply(&session, request).as_deref(), Some(text));
    }
}

#[test]
fn boot_takes_the_last_download() {
    let mut session = Session::new();
    session.keep(b"first");
    session.keep(b"second");
    match session.handle_request(b"boot\0", "v7") {
        Step::Boot(payload) => assert_eq!(payload, b"second"),
        _ => panic!("not a boot"),
    }
    assert_eq!(reply(&session, b"boot"), None);
}

#[test]
fn only_leaving_ends_the_service() {
    let mut session = Session::new();
    session.keep(b"payload");
    assert!(!session.handle_request(b"reboot", "").serves_on());
    assert!(!session.handle_request(b"continue", "").serves_on());
    for request in [&b"boot"[..], b"download:10", b"getvar:version", b"what"] {
        assert!(session.handle_request(request, "").serves_on());
    }
    assert!(matches!(session.handle_request(b"download:10", ""), Step::Download(16)));
}

#[test]
fn reports_are_handled() {
    let session = Session::new();
    assert!(matches!(session.handle_event(&UsbEvent::NoEvent, ""), SessionAction::Wait));
    assert!(matches!(session.handle_event(&UsbEvent::Connected, ""), SessionAction::TakeRequest));
    assert!(matches!(session.handle_event(&UsbEvent::Disconnected, ""), SessionAction::Note));
    match session.handle_event(&UsbEvent::OutData(b"continue"), "") {
        SessionAction::Serve(step) => assert!(matches!(step, Step::Continue)),
        _ => panic!("not served"),
    }
}
