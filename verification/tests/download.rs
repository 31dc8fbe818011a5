use fastboot::download::{Download, DownloadStep};
use fastboot::usb::UsbEvent;

#[test]
fn download_takes_transfers_in_order() {
    let mut memory = vec![0u8; 6];
    let mut download = Download::new(&mut memory);
    assert_eq!(download.chunk, 6);
    assert_eq!(download.handle_event(&UsbEvent::NoEvent), DownloadStep::Wait);
    assert_eq!(download.reply(), None);
    assert_eq!(download.handle_event(&UsbEvent::OutData(b"ab")), DownloadStep::Receive(4));
    assert_eq!(download.handle_event(&UsbEvent::OutData(b"")), DownloadStep::Receive(4));
    assert_eq!(download.handle_event(&UsbEvent::OutData(b"cde")), DownloadStep::Receive(1));
    assert!(!download.takes(&UsbEvent::OutData(b"fg")));
    assert!(download.takes(&UsbEvent::OutData(b"f")));
    assert_eq!(download.handle_event(&UsbEvent::OutData(b"f")), DownloadStep::Finish);
    assert_eq!(download.reply(), Some("OKAY".to_string()));
    assert_eq!(memory, b"abcdef");
}

#[test]
fn large_downloads_come_in_chunks() {
    let chunk = 16 * 1024 * 1024;
    let mut memory = vec![0u8; 2 * chunk + 5];
    let data = vec![1u8; chunk];
    let mut download = Download::new(&mut memory);
    assert_eq!(download.chunk, chunk);
    assert_eq!(download.handle_event(&UsbEvent::OutData(&data)), DownloadStep::Receive(chunk));
    assert_eq!(download.handle_event(&UsbEvent::OutData(&data)), DownloadStep::Receive(5));
    assert_eq!(download.handle_event(&UsbEvent::OutData(b"12345")), DownloadStep::Finish);
}

#[test]
fn a_lost_host_ends_the_download() {
    let mut memory = vec![0u8; 4];
    let mut download = Download::new(&mut memory);
    assert_eq!(download.handle_event(&UsbEvent::OutData(b"ab")), DownloadStep::Receive(2));
    assert_eq!(download.handle_event(&UsbEvent::Disconnected), DownloadStep::Finish);
    assert_eq!(download.reply(), None);
    assert_eq!(memory, b"ab\0\0");
}

#[test]
fn an_empty_download_waits_for_its_end() {
    let mut memory: Vec<u8> = Vec::new();
    let mut download = Download::new(&mut memory);
    assert_eq!(download.chunk, 0);
    assert_eq!(download.handle_event(&UsbEvent::NoEvent), DownloadStep::Wait);
    assert_eq!(download.handle_event(&UsbEvent::OutData(b"")), DownloadStep::Finish);
    assert_eq!(download.reply(), Some("OKAY".to_string()));
}

#[test]
fn reports_that_a_download_does_not_take() {
    let mut memory = vec![0u8; 4];
    let download = Download::new(&mut memory);
    assert!(!download.takes(&UsbEvent::Connected));
    assert!(download.takes(&UsbEvent::NoEvent));
    assert!(download.takes(&UsbEvent::Disconnected));
    assert!(download.takes(&UsbEvent::OutData(b"abcd")));
    assert!(!download.takes(&UsbEvent::OutData(b"abcde")));
}
