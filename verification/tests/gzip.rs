use fastboot::error::BootError;
use fastboot::gzip::{
    decompress_outcome, gzip_decompress, gzip_deflate_slice, gzip_parts_in_bounds, is_gzip,
    InflateStatus,
};
use miniz_oxide::deflate::compress_to_vec;

fn header(flags: u8) -> Vec<u8> {
    vec![0x1f, 0x8b, 8, flags, 0, 0, 0, 0, 0, 3]
}

fn file(flags: u8, parts: &[u8], deflate: &[u8]) -> Vec<u8> {
    let mut v = header(flags);
    v.extend_from_slice(parts);
    v.extend_from_slice(deflate);
    v.extend_from_slice(&[0xaa; 8]);
    v
}

#[test]
fn gzip_is_told_by_its_magic() {
    assert!(is_gzip(&[0x1f, 0x8b, 0]));
    assert!(!is_gzip(&[0x1f, 0x8b]));
    assert!(!is_gzip(&[0x1f, 0x8c, 8]));
    assert!(!is_gzip(&[0x1e, 0x8b, 8]));
    assert!(!is_gzip(&[]));
}

#[test]
fn deflate_behind_a_plain_header() {
    let v = file(0, &[], b"body");
    assert!(gzip_parts_in_bounds(&v));
    assert_eq!(gzip_deflate_slice(&v), Some(&b"body"[..]));
}

#[test]
fn deflate_behind_optional_parts() {
    let extra = [3, 0, 1, 0, 2];
    assert_eq!(gzip_deflate_slice(&file(4, &extra, b"body")), Some(&b"body"[..]));
    assert_eq!(gzip_deflate_slice(&file(8, b"name\0", b"body")), Some(&b"body"[..]));
    assert_eq!(gzip_deflate_slice(&file(16, b"comment\0", b"body")), Some(&b"body"[..]));
    assert_eq!(gzip_deflate_slice(&file(2, &[9, 9], b"body")), Some(&b"body"[..]));
    let mut parts = extra.to_vec();
    parts.extend_from_slice(b"name\0comment\0\x07\x07");
    assert_eq!(gzip_deflate_slice(&file(0x1e, &parts, b"body")), Some(&b"body"[..]));
    assert_eq!(gzip_deflate_slice(&file(0x18, b"\0\0", b"")), Some(&b""[..]));
}

#[test]
fn files_without_compressed_data() {
    assert_eq!(gzip_deflate_slice(&[]), None);
    assert_eq!(gzip_deflate_slice(&header(0)[..9]), None);
    let mut v = file(0, &[], b"body");
    v[2] = 7;
    assert_eq!(gzip_deflate_slice(&v), None);
    // The header takes up the whole file.
    assert_eq!(gzip_deflate_slice(&header(0)), None);
    assert_eq!(gzip_deflate_slice(&file(8, b"name", b"")[..14]), None);
    let mut v = header(4);
    v.extend_from_slice(&[0xff, 0xff, 1, 2, 3]);
    assert!(gzip_parts_in_bounds(&v));
    assert_eq!(gzip_deflate_slice(&v), None);
}

#[test]
fn parts_out_of_bounds() {
    assert!(!gzip_parts_in_bounds(&header(4)));
    let v = file(0, &[], b"");
    assert!(gzip_parts_in_bounds(&v));
    assert_eq!(gzip_deflate_slice(&v), Some(&b""[..]));
    assert!(!gzip_parts_in_bounds(&v[..17]));
    assert!(gzip_parts_in_bounds(&v[..10]));
}

#[test]
fn kernel_is_unpacked() {
    let text: Vec<u8> = (0..10_000u32).map(|i| (i * i / 7) as u8).collect();
    let v = file(8, b"Image\0", &compress_to_vec(&text, 6));
    let mut output = vec![0x55u8; 16384];
    assert_eq!(gzip_decompress(&v, &mut output), Ok(10_000));
    assert_eq!(&output[..10_000], &text[..]);
}

#[test]
fn full_output_is_unpacked() {
    let text = vec![7u8; 4096];
    let v = file(0, &[], &compress_to_vec(&text, 9));
    let mut output = vec![0u8; 4096];
    assert_eq!(gzip_decompress(&v, &mut output), Ok(4096));
    assert_eq!(output, text);
}

#[test]
fn kernels_that_cannot_be_unpacked() {
    let text: Vec<u8> = (0..10_000u32).map(|i| (i * i / 7) as u8).collect();
    let deflate = compress_to_vec(&text, 6);
    let refused = Err(BootError::DecompressKernel);
    // The output is too small.
    let mut small = vec![0u8; 4096];
    assert_eq!(gzip_decompress(&file(0, &[], &deflate), &mut small), refused);
    // The size of the output is not a power of two.
    let mut odd = vec![3u8; 12_000];
    assert_eq!(gzip_decompress(&file(0, &[], &deflate), &mut odd), refused);
    assert_eq!(odd, vec![3u8; 12_000]);
    // The stream is cut off.
    let mut output = vec![0u8; 16384];
    let cut = &deflate[..deflate.len() / 2];
    assert_eq!(gzip_decompress(&file(0, &[], cut), &mut output), refused);
    // The stream is not valid.
    assert_eq!(gzip_decompress(&file(0, &[], &[0xff; 20]), &mut output), refused);
}

#[test]
fn only_a_finished_stream_counts() {
    assert_eq!(decompress_outcome(InflateStatus::Done, 12), Ok(12));
    for status in [
        InflateStatus::CannotMakeProgress,
        InflateStatus::BadParam,
        InflateStatus::ChecksumMismatch,
        InflateStatus::Failed,
        InflateStatus::NeedsMoreInput,
        InflateStatus::HasMoreOutput,
        InflateStatus::Other,
    ] {
        assert_eq!(decompress_outcome(status, 12), Err(BootError::DecompressKernel));
    }
}
