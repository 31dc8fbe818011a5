use fastboot::abootimg::{handle_bootimg_v0, handle_bootimg_v2, BootLayout, Extent};
use fastboot::boot::{
    advance_boot, boot_can_advance, boot_format, check_step, create_empty_rt_properties_table,
    handle_boot, header_can_be_read, part_can_be_placed, part_memory_size, part_of_step, place_part,
    read_header, BootFormat, BootStage, Outcome,
};
use fastboot::buffer::FastbootBuffer;
use fastboot::error::BootError;
use fastboot::response::fastboot_respond;
use miniz_oxide::deflate::compress_to_vec;

fn pe(machine: u16, subsystem: u8) -> Vec<u8> {
    let mut v = vec![0u8; 0x40 + 94];
    v[..2].copy_from_slice(b"MZ");
    v[0x3c] = 0x40;
    v[0x40..0x44].copy_from_slice(b"PE\0\0");
    v[0x44..0x46].copy_from_slice(&machine.to_le_bytes());
    v[0x44 + 16] = 88;
    v[0x44 + 20..0x44 + 22].copy_from_slice(&[0x0b, 0x02]);
    v[0x44 + 88] = subsystem;
    v
}

fn bootimg(version: u8) -> Vec<u8> {
    let mut v = vec![0u8; 1660];
    v[..8].copy_from_slice(b"ANDROID!");
    v[40] = version;
    v
}

fn with_dtb(mut image: Vec<u8>, size: u32) -> Vec<u8> {
    image[1648..1652].copy_from_slice(&size.to_le_bytes());
    image
}

fn failed(text: &str) -> Outcome {
    Outcome::Failed(text.to_string())
}

#[test]
fn payloads_are_told_apart() {
    assert_eq!(boot_format(&pe(0xaa64, 10)), BootFormat::PeImage);
    assert_eq!(boot_format(&pe(0x8664, 10)), BootFormat::ForeignPe(0x8664));
    assert_eq!(boot_format(&pe(0xaa64, 11)), BootFormat::ForeignPe(0xaa64));
    assert_eq!(boot_format(&bootimg(0)), BootFormat::BootImgV0);
    assert_eq!(boot_format(&bootimg(2)), BootFormat::BootImgV2);
    assert_eq!(boot_format(&bootimg(1)), BootFormat::Unknown);
    assert_eq!(boot_format(b""), BootFormat::Unknown);
}

#[test]
fn bootable_payloads_go_on_without_a_response() {
    for (payload, stage) in [
        (pe(0xaa64, 10), BootStage::LoadPe),
        (bootimg(0), BootStage::ReadV0),
        (bootimg(2), BootStage::ReadV2),
    ] {
        let first = handle_boot(&payload);
        assert_eq!(first.reply, None);
        assert_eq!(first.next, stage);
    }
}

#[test]
fn other_payloads_are_refused() {
    let foreign = handle_boot(&pe(0x14c, 10));
    assert_eq!(foreign.reply.unwrap(), "FAILunsupported EFI arch 014c, need aa64");
    assert_eq!(foreign.next, BootStage::Finished);
    let unknown = handle_boot(b"ELF");
    assert_eq!(unknown.reply.unwrap(), "FAILunsupported boot image format");
    assert_eq!(unknown.next, BootStage::Finished);
}

/// Takes every step with success, and returns the steps and the responses.
fn all_done(payload: &[u8]) -> (Vec<BootStage>, Vec<String>) {
    let mut stages = Vec::new();
    let mut replies = Vec::new();
    let mut answer = handle_boot(payload);
    loop {
        if let Some(reply) = answer.reply {
            replies.push(reply);
        }
        stages.push(answer.next);
        if answer.next == BootStage::Finished {
            return (stages, replies);
        }
        assert!(boot_can_advance(answer.next, payload, &Outcome::Done));
        answer = advance_boot(answer.next, payload, &Outcome::Done);
    }
}

#[test]
fn steps_of_an_efi_application() {
    let (stages, replies) = all_done(&pe(0xaa64, 10));
    assert_eq!(
        stages,
        [
            BootStage::LoadPe,
            BootStage::InstallRtProperties,
            BootStage::Start,
            BootStage::Finished
        ]
    );
    assert_eq!(replies, ["OKAY"]);
}

#[test]
fn steps_of_a_version_0_image() {
    let (stages, replies) = all_done(&bootimg(0));
    assert_eq!(
        stages,
        [
            BootStage::ReadV0,
            BootStage::CopyV0,
            BootStage::CheckV0,
            BootStage::LoadV0,
            BootStage::InstallRtProperties,
            BootStage::Start,
            BootStage::Finished
        ]
    );
    assert_eq!(replies, ["OKAY"]);
}

#[test]
fn steps_of_a_version_2_image() {
    let (stages, replies) = all_done(&with_dtb(bootimg(2), 1));
    assert_eq!(
        stages,
        [
            BootStage::ReadV2,
            BootStage::UnpackV2,
            BootStage::CheckV2,
            BootStage::CopyRamdisk,
            BootStage::CopyFdt,
            BootStage::InstallFdt,
            BootStage::CommandLine,
            BootStage::LoadV2,
            BootStage::Configure,
            BootStage::InstallRtProperties,
            BootStage::Start,
            BootStage::Finished
        ]
    );
    assert_eq!(replies, ["OKAY"]);
}

#[test]
fn steps_without_a_device_tree() {
    let (stages, replies) = all_done(&bootimg(2));
    assert_eq!(
        stages,
        [
            BootStage::ReadV2,
            BootStage::UnpackV2,
            BootStage::CheckV2,
            BootStage::CopyRamdisk,
            BootStage::CommandLine,
            BootStage::LoadV2,
            BootStage::Configure,
            BootStage::InstallRtProperties,
            BootStage::Start,
            BootStage::Finished
        ]
    );
    assert_eq!(replies, ["OKAY"]);
}

#[test]
fn device_tree_is_installed_if_announced() {
    for size in [1, 0x100, 0x1_0000, 0x100_0000, u32::MAX] {
        let image = with_dtb(bootimg(2), size);
        assert!(all_done(&image).0.contains(&BootStage::InstallFdt));
    }
    assert!(!all_done(&with_dtb(bootimg(2), 0)).0.contains(&BootStage::InstallFdt));
    assert!(!all_done(&with_dtb(bootimg(0), 7)).0.contains(&BootStage::InstallFdt));
}

/// A version 2 image of one-page parts: kernel, ramdisk and device tree.
fn image_of_parts(kernel: &[u8], ramdisk: &[u8], dtb: &[u8]) -> Vec<u8> {
    let mut image = with_dtb(bootimg(2), dtb.len() as u32);
    image[8..12].copy_from_slice(&(kernel.len() as u32).to_le_bytes());
    image[16..20].copy_from_slice(&(ramdisk.len() as u32).to_le_bytes());
    image[36..40].copy_from_slice(&2048u32.to_le_bytes());
    image[1644..1648].copy_from_slice(&1660u32.to_le_bytes());
    for part in [kernel, ramdisk, dtb] {
        image.resize(image.len().next_multiple_of(2048), 0);
        image.extend_from_slice(part);
    }
    image
}

#[test]
fn steps_take_their_parts() {
    let image = image_of_parts(b"the kernel", b"ramdisk", b"tree");
    let layout = handle_bootimg_v2(&image).unwrap();
    assert!(layout.has_dtb());
    for (stage, bytes, refused) in [
        (BootStage::UnpackV2, &b"the kernel"[..], BootError::WriteKernel),
        (BootStage::CopyRamdisk, b"ramdisk", BootError::WriteRamdisk),
        (BootStage::CopyFdt, b"tree", BootError::WriteFdt),
    ] {
        let (part, error) = part_of_step(stage, &layout).unwrap();
        assert_eq!(part.slice(&image), bytes);
        assert_eq!(error, refused);
        assert!(part_can_be_placed(stage, &layout, &image));
        assert_eq!(part_memory_size(stage, &layout, &image), bytes.len());
        let mut memory = vec![0u8; bytes.len()];
        let mut buffer = FastbootBuffer::new(&mut memory);
        assert_eq!(place_part(stage, &layout, &image, &mut buffer), Ok(()));
        assert_eq!(buffer.as_slice(), bytes);
        let mut short = vec![0u8; bytes.len() - 1];
        let mut buffer = FastbootBuffer::new(&mut short);
        assert_eq!(place_part(stage, &layout, &image, &mut buffer), Err(refused));
    }
    assert_eq!(part_of_step(BootStage::Configure, &layout), None);
    assert!(!part_can_be_placed(BootStage::Configure, &layout, &image));
    assert!(!part_can_be_placed(BootStage::CopyFdt, &layout, &image[..image.len() - 1]));
    let bare = handle_bootimg_v2(&image_of_parts(b"k", b"r", b"")).unwrap();
    assert!(!bare.has_dtb());
    assert_eq!(part_of_step(BootStage::CopyFdt, &bare), None);
}

#[test]
fn compressed_kernels_are_placed_unpacked() {
    let mut kernel = vec![0x1f, 0x8b, 8, 0, 0, 0, 0, 0, 0, 3];
    kernel.extend_from_slice(&compress_to_vec(b"kernel kernel kernel", 6));
    kernel.extend_from_slice(&[0; 8]);
    let image = image_of_parts(&kernel, b"r", b"");
    let layout = handle_bootimg_v2(&image).unwrap();
    assert!(part_can_be_placed(BootStage::UnpackV2, &layout, &image));
    assert_eq!(part_memory_size(BootStage::UnpackV2, &layout, &image), 128 * 1024 * 1024);
    let mut memory = vec![0u8; 64];
    let mut buffer = FastbootBuffer::new(&mut memory);
    assert_eq!(place_part(BootStage::UnpackV2, &layout, &image, &mut buffer), Ok(()));
    assert_eq!(buffer.as_slice(), b"kernel kernel kernel");
    assert_eq!(part_memory_size(BootStage::CopyV0, &layout, &image), kernel.len());
    let cut = image_of_parts(&kernel[..12], b"r", b"");
    let layout = handle_bootimg_v2(&cut).unwrap();
    assert!(!part_can_be_placed(BootStage::UnpackV2, &layout, &cut));
}

#[test]
fn version_0_kernel_is_placed() {
    let mut image = bootimg(0);
    image[8] = 6;
    image[36] = 1;
    image[608..614].copy_from_slice(b"kernel");
    let layout = BootLayout::kernel_only(handle_bootimg_v0(&image).unwrap());
    assert_eq!(layout.kernel, Extent { offset: 608, size: 6 });
    assert!(!layout.has_dtb());
    let mut memory = [0u8; 6];
    let mut buffer = FastbootBuffer::new(&mut memory);
    assert_eq!(place_part(BootStage::CopyV0, &layout, &image, &mut buffer), Ok(()));
    assert_eq!(buffer.as_slice(), b"kernel");
}

#[test]
fn outcomes_that_a_step_cannot_have() {
    let image = bootimg(2);
    let refused = Outcome::Refused(BootError::WriteRamdisk);
    assert!(boot_can_advance(BootStage::CopyRamdisk, &image, &refused));
    assert!(!boot_can_advance(BootStage::CopyRamdisk, &image[..1651], &Outcome::Done));
    assert!(!boot_can_advance(BootStage::CopyRamdisk, &image, &failed("ABORTED")));
    assert!(!boot_can_advance(BootStage::LoadPe, &image, &refused));
    assert!(boot_can_advance(BootStage::LoadPe, &image, &failed("ABORTED")));
    assert!(!boot_can_advance(BootStage::LoadV2, &image, &failed("ABORTED")));
    assert!(!boot_can_advance(BootStage::Finished, &image, &Outcome::Done));
    assert!(!boot_can_advance(BootStage::CheckV2, &image, &refused));
    assert!(!boot_can_advance(BootStage::ReadV2, &image, &refused));
    assert!(!boot_can_advance(BootStage::ReadV0, &image, &Outcome::Done));
    assert!(!boot_can_advance(BootStage::ReadV0, &with_ramdisk(), &Outcome::Done));
    assert!(!boot_can_advance(BootStage::ReadV2, &image[..43], &Outcome::Done));
}

#[test]
fn failures_end_the_boot() {
    for (stage, text) in [
        (BootStage::LoadPe, "FAILfailed: NOT_FOUND"),
        (BootStage::LoadV0, "FAILfailed: failed to load kernel image"),
        (BootStage::InstallFdt, "FAILfailed: failed to install fdt in configuration table"),
        (BootStage::CommandLine, "FAILfailed: failed to allocate memory for command line"),
        (BootStage::Configure, "FAILfailed: failed to load image"),
        (BootStage::InstallRtProperties, "FAILfailed: NOT_FOUND"),
    ] {
        let answer = advance_boot(stage, &bootimg(2), &failed("NOT_FOUND"));
        assert_eq!(answer.reply.unwrap(), text);
        assert_eq!(answer.next, BootStage::Finished);
    }
}

/// A version 0 image that announces a ramdisk.
fn with_ramdisk() -> Vec<u8> {
    let mut image = bootimg(0);
    image[16] = 1;
    image[36] = 1;
    image
}

/// A refusal with a step and a payload that it can come from.
fn refusals() -> Vec<(BootStage, Vec<u8>, BootError, &'static str)> {
    vec![
        (BootStage::ReadV0, bootimg(2), BootError::NotVersion0, "only version 0 supported"),
        (BootStage::ReadV0, with_ramdisk(), BootError::NeedsVersion2, "use header version 2"),
        (BootStage::ReadV2, bootimg(0), BootError::NotVersion2, "only version 2 supported"),
        (
            BootStage::UnpackV2,
            bootimg(2),
            BootError::DecompressKernel,
            "failed to decompress kernel",
        ),
        (BootStage::CopyV0, bootimg(0), BootError::WriteKernel, "failed to write kernel payload"),
        (BootStage::UnpackV2, bootimg(2), BootError::WriteKernel, "failed to write kernel payload"),
        (
            BootStage::CheckV0,
            bootimg(0),
            BootError::NotEfiApp,
            "kernel payload is not an EFI application",
        ),
        (
            BootStage::CheckV2,
            bootimg(2),
            BootError::NotEfiApp,
            "kernel payload is not an EFI application",
        ),
        (
            BootStage::CopyRamdisk,
            bootimg(2),
            BootError::WriteRamdisk,
            "failed to write ramdisk payload",
        ),
        (BootStage::CopyFdt, bootimg(2), BootError::WriteFdt, "failed to write fdt"),
    ]
}

#[test]
fn refusals_end_the_boot() {
    for (stage, payload, error, text) in refusals() {
        let outcome = Outcome::Refused(error);
        assert!(boot_can_advance(stage, &payload, &outcome));
        let answer = advance_boot(stage, &payload, &outcome);
        assert_eq!(answer.reply.unwrap(), "FAILfailed: ".to_string() + text);
        assert_eq!(answer.next, BootStage::Finished);
    }
}

#[test]
fn errors_have_their_message() {
    for (_, _, error, text) in refusals() {
        assert_eq!(error.message(), text);
    }
    for (error, text) in [
        (BootError::LoadKernel, "failed to load kernel image"),
        (BootError::InstallFdt, "failed to install fdt in configuration table"),
        (BootError::AllocCommandLine, "failed to allocate memory for command line"),
        (BootError::OpenImage, "failed to load image"),
    ] {
        assert_eq!(error.message(), text);
    }
}

#[test]
fn headers_are_read_to_what_they_say() {
    let mut image = bootimg(0);
    assert!(!header_can_be_read(BootStage::ReadV0, &image));
    image[36] = 1;
    assert!(header_can_be_read(BootStage::ReadV0, &image));
    assert!(!header_can_be_read(BootStage::CheckV0, &image));
    let layout = read_header(BootStage::ReadV0, &image).unwrap();
    assert_eq!(layout, BootLayout::kernel_only(Extent { offset: 608, size: 0 }));
    assert_eq!(read_header(BootStage::ReadV0, &with_ramdisk()), Err(BootError::NeedsVersion2));
    assert_eq!(read_header(BootStage::ReadV2, &image), Err(BootError::NotVersion2));
    let image = image_of_parts(b"the kernel", b"ramdisk", b"tree");
    assert_eq!(read_header(BootStage::ReadV2, &image), handle_bootimg_v2(&image));
    assert_eq!(read_header(BootStage::ReadV0, &image), Err(BootError::NotVersion0));
}

/// Boots a payload with a firmware that never fails, and returns the responses and whether the
/// image was started.
fn boot(payload: &[u8]) -> (Vec<String>, bool) {
    let mut replies = Vec::new();
    let mut started = false;
    let mut layout = None;
    let mut kernel = Vec::new();
    let mut answer = handle_boot(payload);
    loop {
        replies.extend(answer.reply);
        let stage = answer.next;
        let outcome = match stage {
            BootStage::Finished => return (replies, started),
            BootStage::ReadV0 | BootStage::ReadV2 => match read_header(stage, payload) {
                Ok(parts) => {
                    layout = Some(parts);
                    Outcome::Done
                }
                Err(error) => Outcome::Refused(error),
            },
            BootStage::CopyV0 | BootStage::UnpackV2 | BootStage::CopyRamdisk
            | BootStage::CopyFdt => {
                let layout = layout.unwrap();
                assert!(part_can_be_placed(stage, &layout, payload));
                let mut memory = vec![0u8; part_memory_size(stage, &layout, payload)];
                let mut buffer = FastbootBuffer::new(&mut memory);
                let result = place_part(stage, &layout, payload, &mut buffer);
                if stage == BootStage::CopyV0 || stage == BootStage::UnpackV2 {
                    kernel = buffer.as_slice().to_vec();
                }
                Outcome::of(result)
            }
            BootStage::CheckV0 | BootStage::CheckV2 => check_step(&kernel),
            _ => {
                started = started || stage == BootStage::Start;
                Outcome::Done
            }
        };
        assert!(boot_can_advance(stage, payload, &outcome));
        answer = advance_boot(stage, payload, &outcome);
    }
}

#[test]
fn images_are_started_or_refused() {
    let gzip = |text: &[u8]| {
        let mut file = vec![0x1f, 0x8b, 8, 0, 0, 0, 0, 0, 0, 3];
        file.extend_from_slice(&compress_to_vec(text, 6));
        file.extend_from_slice(&[0; 8]);
        file
    };
    let app = pe(0xaa64, 10);
    let okay = (vec!["OKAY".to_string()], true);
    let fail = |reason: &str| (vec![format!("FAILfailed: {reason}")], false);
    let not_efi = fail("kernel payload is not an EFI application");

    assert_eq!(boot(&app), okay);
    assert_eq!(boot(&image_of_parts(&app, b"ramdisk", b"tree")), okay);
    assert_eq!(boot(&image_of_parts(&gzip(&app), b"ramdisk", b"")), okay);
    assert_eq!(boot(&image_of_parts(b"kernel", b"ramdisk", b"tree")), not_efi);
    assert_eq!(boot(&image_of_parts(&gzip(b"kernel"), b"ramdisk", b"")), not_efi);
    let mut broken = gzip(&app);
    broken[10] = 0xff;
    assert_eq!(
        boot(&image_of_parts(&broken, b"ramdisk", b"")),
        fail("failed to decompress kernel")
    );

    let mut image = bootimg(0);
    image[8] = app.len() as u8;
    image[36] = 1;
    assert_eq!(boot(&image), not_efi);
    image[608..608 + app.len()].copy_from_slice(&app);
    assert_eq!(boot(&image), okay);
    image[24] = 1;
    assert_eq!(boot(&image), fail("use header version 2"));
    assert_eq!(boot(&with_ramdisk()), fail("use header version 2"));
}

#[test]
fn an_image_that_comes_back_is_not_answered_again() {
    let answer = advance_boot(BootStage::Start, &bootimg(2), &failed("ABORTED"));
    assert_eq!(answer.reply, None);
    assert_eq!(answer.next, BootStage::Finished);
}

#[test]
fn runtime_properties_table_offers_nothing() {
    assert_eq!(create_empty_rt_properties_table(), [1, 0, 8, 0, 0, 0, 0, 0]);
}

#[test]
fn refusals_reach_the_host_in_full() {
    for (stage, payload, error, _) in refusals() {
        let reply = advance_boot(stage, &payload, &Outcome::Refused(error)).reply.unwrap();
        assert_eq!(fastboot_respond(&reply), reply.as_bytes());
    }
    for stage in [
        BootStage::LoadV0,
        BootStage::InstallFdt,
        BootStage::CommandLine,
        BootStage::Configure,
    ] {
        let reply = advance_boot(stage, &bootimg(2), &failed("NOT_FOUND")).reply.unwrap();
        assert_eq!(fastboot_respond(&reply), reply.as_bytes());
    }
}
