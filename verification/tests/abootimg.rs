use fastboot::abootimg::{
    bootimg_v0_in_bounds, bootimg_v2_in_bounds, check_kernel, command_line,
    command_line_memory_size, encode_command_line, handle_bootimg_v0, handle_bootimg_v2,
    is_bootimg_v0, is_bootimg_v2, kernel_memory_size, kernel_parts_in_bounds, load_options_size,
    page_align, unpack_kernel, write_part, Extent, UNPACKED_KERNEL_SIZE,
};
use fastboot::buffer::FastbootBuffer;
use fastboot::error::BootError;
use fastboot::ucs2::Ucs2Error;
use miniz_oxide::deflate::compress_to_vec;

fn put(v: &mut [u8], at: usize, n: u32) {
    v[at..at + 4].copy_from_slice(&n.to_le_bytes());
}

/// A header of 1660 bytes with the fields that are looked at.
fn header(version: u32, page_size: u32, sizes: [u32; 4]) -> Vec<u8> {
    let mut v = vec![0u8; 1660];
    v[..8].copy_from_slice(b"ANDROID!");
    put(&mut v, 8, sizes[0]);
    put(&mut v, 16, sizes[1]);
    put(&mut v, 24, sizes[2]);
    put(&mut v, 36, page_size);
    put(&mut v, 40, version);
    put(&mut v, 1644, 1660);
    put(&mut v, 1648, sizes[3]);
    v
}

#[test]
fn boot_images_are_told_by_magic_and_version() {
    let v0 = header(0, 4096, [0; 4]);
    let v2 = header(2, 4096, [0; 4]);
    assert!(is_bootimg_v0(&v0) && !is_bootimg_v2(&v0));
    assert!(is_bootimg_v2(&v2) && !is_bootimg_v0(&v2));
    let v1 = header(1, 4096, [0; 4]);
    assert!(!is_bootimg_v0(&v1) && !is_bootimg_v2(&v1));
    let mut other = header(0, 4096, [0; 4]);
    other[7] = b'?';
    assert!(!is_bootimg_v0(&other));
    assert!(!is_bootimg_v0(&v0[..43]));
    assert!(is_bootimg_v0(&v0[..44]));
    assert!(!is_bootimg_v2(b"ANDROID!"));
    assert!(!is_bootimg_v2(&[]));
}

#[test]
fn offsets_are_rounded_up_to_pages() {
    assert_eq!(page_align(0, 4096), 0);
    assert_eq!(page_align(1, 4096), 4096);
    assert_eq!(page_align(4096, 4096), 4096);
    assert_eq!(page_align(4097, 4096), 8192);
    assert_eq!(page_align(608, 2048), 2048);
    assert_eq!(page_align(7, 1), 7);
    // Not a power of two: the bits of the mask are cleared all the same.
    assert_eq!(page_align(608, 3), 608);
    assert_eq!(page_align(610, 3), 612);
}

#[test]
fn version_0_image_holds_a_kernel() {
    let v = header(0, 2048, [1000, 0, 0, 0]);
    assert!(bootimg_v0_in_bounds(&v));
    assert_eq!(handle_bootimg_v0(&v), Ok(Extent { offset: 2048, size: 1000 }));
}

#[test]
fn version_0_image_holds_nothing_else() {
    let refused = Err(BootError::NeedsVersion2);
    assert_eq!(handle_bootimg_v0(&header(0, 2048, [1000, 1, 0, 0])), refused);
    assert_eq!(handle_bootimg_v0(&header(0, 2048, [1000, 0, 1, 0])), refused);
    assert_eq!(handle_bootimg_v0(&header(2, 2048, [1000, 0, 0, 0])), Err(BootError::NotVersion0));
}

#[test]
fn headers_that_cannot_be_read() {
    assert!(!bootimg_v0_in_bounds(&header(0, 0, [0; 4])));
    assert!(bootimg_v0_in_bounds(&header(2, 0, [0; 4])));
    assert!(!bootimg_v0_in_bounds(&header(0, 1, [0; 4])[..43]));
    assert!(!bootimg_v2_in_bounds(&header(2, 0, [0; 4])));
    assert!(bootimg_v2_in_bounds(&header(0, 0, [0; 4])));
    assert!(!bootimg_v2_in_bounds(&header(2, 1, [0; 4])[..1651]));
    assert!(bootimg_v2_in_bounds(&header(2, 1, [0; 4])[..1652]));
}

#[test]
fn version_2_parts_stand_on_pages() {
    let v = header(2, 4096, [5000, 4096, 1, 77]);
    let layout = handle_bootimg_v2(&v).unwrap();
    assert_eq!(layout.kernel, Extent { offset: 4096, size: 5000 });
    assert_eq!(layout.ramdisk, Extent { offset: 12288, size: 4096 });
    assert_eq!(layout.dtb, Extent { offset: 20480, size: 77 });
    assert_eq!(handle_bootimg_v2(&header(0, 4096, [0; 4])), Err(BootError::NotVersion2));
}

#[test]
fn version_2_parts_of_the_largest_sizes() {
    let v = header(2, 0x8000_0000, [u32::MAX; 4]);
    let layout = handle_bootimg_v2(&v).unwrap();
    assert_eq!(layout.kernel.offset, 0x8000_0000);
    assert_eq!(layout.ramdisk.offset, 0x1_8000_0000);
    assert_eq!(layout.dtb.offset, 0x3_8000_0000);
    assert!(!layout.kernel.fits(&v));
}

#[test]
fn parts_are_cut_out_of_the_payload() {
    let payload = b"0123456789";
    let part = Extent { offset: 3, size: 4 };
    assert!(part.fits(payload));
    assert_eq!(part.slice(payload), b"3456");
    assert!(Extent { offset: 10, size: 0 }.fits(payload));
    assert!(!Extent { offset: 11, size: 0 }.fits(payload));
    assert!(!Extent { offset: 3, size: 8 }.fits(payload));
    assert!(!Extent { offset: u64::MAX, size: 2 }.fits(payload));
}

#[test]
fn parts_are_written_or_refused() {
    let mut memory = [0u8; 3];
    let mut buffer = FastbootBuffer::new(&mut memory);
    assert_eq!(write_part(&mut buffer, b"abcd", BootError::WriteRamdisk), Err(BootError::WriteRamdisk));
    assert_eq!(write_part(&mut buffer, b"abc", BootError::WriteRamdisk), Ok(()));
    assert_eq!(memory, *b"abc");
}

fn gzip(text: &[u8]) -> Vec<u8> {
    let mut v = vec![0x1f, 0x8b, 8, 0, 0, 0, 0, 0, 0, 3];
    v.extend_from_slice(&compress_to_vec(text, 6));
    v.extend_from_slice(&[0; 8]);
    v
}

#[test]
fn plain_kernel_is_copied() {
    let kernel = b"MZ kernel";
    assert_eq!(kernel_memory_size(kernel), 9);
    assert!(kernel_parts_in_bounds(kernel));
    let mut memory = vec![0u8; 9];
    let mut buffer = FastbootBuffer::new(&mut memory);
    assert_eq!(unpack_kernel(kernel, &mut buffer), Ok(()));
    assert_eq!(buffer.as_slice(), kernel);
    let mut short = vec![0u8; 8];
    let mut buffer = FastbootBuffer::new(&mut short);
    assert_eq!(unpack_kernel(kernel, &mut buffer), Err(BootError::WriteKernel));
}

#[test]
fn compressed_kernel_is_unpacked() {
    let text = b"kernel kernel kernel kernel";
    let kernel = gzip(text);
    assert_eq!(kernel_memory_size(&kernel), 128 * 1024 * 1024);
    assert!(kernel_parts_in_bounds(&kernel));
    let mut memory = vec![0u8; 1024];
    let mut buffer = FastbootBuffer::new(&mut memory);
    assert_eq!(unpack_kernel(&kernel, &mut buffer), Ok(()));
    assert_eq!(buffer.len(), text.len());
    assert_eq!(buffer.as_slice(), text);
}

#[test]
fn compressed_kernel_that_is_cut_off() {
    let mut kernel = gzip(&[5; 1000]);
    kernel.truncate(kernel.len() - 3);
    let mut memory = vec![0u8; 1024];
    let mut buffer = FastbootBuffer::new(&mut memory);
    assert!(kernel_parts_in_bounds(&kernel));
    assert_eq!(unpack_kernel(&kernel, &mut buffer), Err(BootError::DecompressKernel));
    assert!(!kernel_parts_in_bounds(&kernel[..5]));
    assert!(!kernel_parts_in_bounds(&kernel[..12]));
}

#[test]
fn kernel_has_to_be_an_efi_application() {
    assert_eq!(check_kernel(b"not a PE image"), Err(BootError::NotEfiApp));
    let mut v = vec![0u8; 0x40 + 94];
    v[..2].copy_from_slice(b"MZ");
    v[0x3c] = 0x40;
    v[0x40..0x46].copy_from_slice(b"PE\0\0\x64\xaa");
    v[0x44 + 16] = 88;
    v[0x44 + 20..0x44 + 22].copy_from_slice(&[0x0b, 0x02]);
    v[0x44 + 88] = 10;
    assert_eq!(check_kernel(&v), Ok(()));
}

#[test]
fn command_line_ends_at_the_first_zero() {
    let mut v = header(2, 4096, [0; 4]);
    v[64..80].copy_from_slice(b"console=tty0\0xyz");
    assert_eq!(command_line(&v), Some("console=tty0"));
    for b in &mut v[64..576] {
        *b = b'a';
    }
    v[576] = b'b';
    assert_eq!(command_line(&v).unwrap(), "a".repeat(512));
    v[64] = 0;
    assert_eq!(command_line(&v), Some(""));
}

#[test]
fn command_line_has_to_be_utf8() {
    let mut v = header(2, 4096, [0; 4]);
    v[64] = 0xff;
    assert_eq!(command_line(&v), None);
    v[64..66].copy_from_slice("é".as_bytes());
    assert_eq!(command_line(&v), Some("é"));
}

#[test]
fn command_line_sizes_count_bytes() {
    assert_eq!(command_line_memory_size("abc"), 8);
    assert_eq!(load_options_size("abc"), 6);
    assert_eq!(command_line_memory_size("é"), 6);
    assert_eq!(load_options_size("é"), 4);
    assert_eq!(load_options_size(""), 0);
}

#[test]
fn command_line_is_written_in_ucs2() {
    let mut buffer = [7u16; 6];
    assert_eq!(encode_command_line("aé€", &mut buffer), Ok(()));
    assert_eq!(buffer, [0x61, 0xe9, 0x20ac, 0, 7, 7]);
    let mut exact = [7u16; 1];
    assert_eq!(encode_command_line("", &mut exact), Ok(()));
    assert_eq!(exact, [0]);
}

#[test]
fn command_lines_that_are_not_ucs2() {
    let mut buffer = [0u16; 8];
    assert_eq!(encode_command_line("ab😀", &mut buffer), Err(Ucs2Error::InvalidChar(2)));
    assert_eq!(encode_command_line("a\0b", &mut buffer), Err(Ucs2Error::InteriorNul(1)));
    assert_eq!(encode_command_line("\0😀", &mut buffer), Err(Ucs2Error::InteriorNul(0)));
    assert_eq!(encode_command_line("abcdefgh", &mut buffer), Err(Ucs2Error::BufferTooSmall));
    assert_eq!(encode_command_line("a\0cdefgh", &mut buffer), Err(Ucs2Error::BufferTooSmall));
    assert_eq!(encode_command_line("abcdef😀", &mut buffer), Err(Ucs2Error::BufferTooSmall));
    assert_eq!(encode_command_line("", &mut []), Err(Ucs2Error::BufferTooSmall));
}

#[test]
fn unpacked_kernel_memory_is_a_power_of_two() {
    assert!(UNPACKED_KERNEL_SIZE.is_power_of_two());
    assert_eq!(kernel_memory_size(&gzip(b"kernel")), 128 * 1024 * 1024);
}
