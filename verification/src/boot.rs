//! Booting a payload, step by step.
//!
//! The steps that only the firmware can do are done by the caller, who reports their outcome and
//! is told what comes next.

use vstd::prelude::*;

use crate::abootimg::{
    announces_dtb, boot_magic, bootimg_v0_in_bounds, bootimg_v2_in_bounds, check_kernel,
    dtb_announced, handle_bootimg_v0, handle_bootimg_v2, has_bootimg_header, is_bootimg_v0,
    is_bootimg_v2, is_unpacking, is_v0_layout, is_v2_layout, kernel_in_bounds, kernel_memory_size,
    kernel_parts_in_bounds, unpack_kernel, v0_header_in_bounds, v2_dtb_offset, v2_header_in_bounds,
    v2_kernel_offset, v2_ramdisk_offset, write_outcome, write_part, BootLayout, Extent,
    COMMON_HEADER_END, DTB_SIZE, HEADER_VERSION, KERNEL_SIZE, RAMDISK_SIZE, SECOND_SIZE,
    UNPACKED_KERNEL_SIZE, V2_HEADER_END,
};
use crate::buffer::{BufferView, FastbootBuffer};
use crate::bytes::{read_u32, u16_at, u32_at};
use crate::error::{message_of, BootError};
use crate::gzip::has_gzip_magic;
use crate::peimage::{
    expected_pe_machine, is_efi_app, is_peimage, machine_of, pe_machine, subsystem_in_bounds,
    PE_ARM64,
};
use crate::response::{fail, fail_text, plain_okay};
use crate::text::{format_hex, padded_hex};

verus! {

/// What a payload is.
#[derive(Clone, Copy, Debug, PartialEq, Eq, Structural)]
pub enum BootFormat {
    /// An EFI application.
    PeImage,
    /// A PE image that cannot be booted, with its machine number.
    ForeignPe(u16),
    /// A boot image of header version 0.
    BootImgV0,
    /// A boot image of header version 2.
    BootImgV2,
    /// Anything else.
    Unknown,
}

/// What a payload is.
pub open spec fn format_of(payload: Seq<u8>) -> BootFormat {
    if is_efi_app(payload) {
        BootFormat::PeImage
    } else if machine_of(payload) is Some {
        BootFormat::ForeignPe(machine_of(payload).unwrap())
    } else if has_bootimg_header(payload, 0) {
        BootFormat::BootImgV0
    } else if has_bootimg_header(payload, 2) {
        BootFormat::BootImgV2
    } else {
        BootFormat::Unknown
    }
}

/// Tells what a payload is.
pub fn boot_format(payload: &[u8]) -> (format: BootFormat)
    requires
        subsystem_in_bounds(payload@),
    ensures
        format == format_of(payload@),
{
    if is_peimage(payload) {
        return BootFormat::PeImage;
    }
    match pe_machine(payload) {
        Some(machine) => BootFormat::ForeignPe(machine),
        None => if is_bootimg_v0(payload) {
            BootFormat::BootImgV0
        } else if is_bootimg_v2(payload) {
            BootFormat::BootImgV2
        } else {
            BootFormat::Unknown
        },
    }
}

/// A payload is one thing only: no boot image has a PE header, and no boot image has two header
/// versions. So the order in which the formats are tried does not matter.
pub proof fn law_formats_exclude_each_other(payload: Seq<u8>)
    ensures
        format_of(payload) is BootImgV0 <==> has_bootimg_header(payload, 0),
        format_of(payload) is BootImgV2 <==> has_bootimg_header(payload, 2),
        format_of(payload) is PeImage <==> is_efi_app(payload),
{
    if has_bootimg_header(payload, 0) || has_bootimg_header(payload, 2) {
        assert(boot_magic()[0] == payload[0]);
    }
}

/// A step of booting a payload.
#[derive(Clone, Copy, Debug, PartialEq, Eq, Structural)]
pub enum BootStage {
    /// Copy the payload to memory and load it as an EFI application.
    LoadPe,
    /// Read the header of a version 0 image.
    ReadV0,
    /// Copy the kernel of a version 0 image to memory.
    CopyV0,
    /// Check that the kernel of a version 0 image is an EFI application.
    CheckV0,
    /// Load the kernel of a version 0 image.
    LoadV0,
    /// Read the header of a version 2 image.
    ReadV2,
    /// Put the kernel of a version 2 image into memory.
    UnpackV2,
    /// Check that the kernel of a version 2 image is an EFI application.
    CheckV2,
    /// Copy the ramdisk to memory.
    CopyRamdisk,
    /// Copy the device tree to memory.
    CopyFdt,
    /// Hand the device tree to the firmware.
    InstallFdt,
    /// Get memory for the command line and write it there.
    CommandLine,
    /// Load the kernel of a version 2 image.
    LoadV2,
    /// Give the loaded kernel its command line and its ramdisk.
    Configure,
    /// Tell the loaded image that there are no runtime services.
    InstallRtProperties,
    /// Start the loaded image.
    Start,
    /// Nothing is left to do.
    Finished,
}

/// How a step went.
pub enum Outcome {
    /// It succeeded.
    Done,
    /// The image was refused.
    Refused(BootError),
    /// The firmware failed, with the status that this text names.
    Failed(String),
}

/// What an [`Outcome`] says.
pub enum OutcomeView {
    /// It succeeded.
    Done,
    /// The image was refused.
    Refused(BootError),
    /// The firmware failed, with the status that this text names.
    Failed(Seq<char>),
}

impl View for Outcome {
    type V = OutcomeView;

    open spec fn view(&self) -> OutcomeView {
        match self {
            Outcome::Done => OutcomeView::Done,
            Outcome::Refused(error) => OutcomeView::Refused(*error),
            Outcome::Failed(status) => OutcomeView::Failed(status@),
        }
    }
}

/// What comes next: a response to be sent, and then a step to be taken.
pub struct BootMove {
    /// The response to send first, if any.
    pub reply: Option<String>,
    /// The step to take then.
    pub next: BootStage,
}

/// What a [`BootMove`] says.
pub struct MoveView {
    /// The response to send first, if any.
    pub reply: Option<Seq<char>>,
    /// The step to take then.
    pub next: BootStage,
}

impl View for BootMove {
    type V = MoveView;

    open spec fn view(&self) -> MoveView {
        MoveView {
            reply: match self.reply {
                Some(text) => Some(text@),
                None => None,
            },
            next: self.next,
        }
    }
}

/// Going on without a response.
pub open spec fn go_on(next: BootStage) -> MoveView {
    MoveView { reply: None, next }
}

/// Giving up with a response.
pub open spec fn give_up(reason: Seq<char>) -> MoveView {
    MoveView { reply: Some(fail_text(reason)), next: BootStage::Finished }
}

/// The reason that is told of a payload whose machine is not the expected one.
pub open spec fn foreign_pe_text(machine: u16) -> Seq<char> {
    "unsupported EFI arch "@ + padded_hex(machine as nat, 4) + ", need "@ + padded_hex(
        PE_ARM64 as nat,
        4,
    )
}

/// The reason that is told of a failure while a payload is booted.
pub open spec fn failed_text(what: Seq<char>) -> Seq<char> {
    "failed: "@ + what
}

/// What booting a payload of this format begins with.
pub open spec fn first_move(format: BootFormat) -> MoveView {
    match format {
        BootFormat::PeImage => go_on(BootStage::LoadPe),
        BootFormat::ForeignPe(machine) => give_up(foreign_pe_text(machine)),
        BootFormat::BootImgV0 => go_on(BootStage::ReadV0),
        BootFormat::BootImgV2 => go_on(BootStage::ReadV2),
        BootFormat::Unknown => give_up("unsupported boot image format"@),
    }
}

/// What a result of the library comes to as the outcome of a step.
pub open spec fn outcome_of(result: Result<(), BootError>) -> OutcomeView {
    match result {
        Ok(()) => OutcomeView::Done,
        Err(error) => OutcomeView::Refused(error),
    }
}

/// What reading the header of an Android boot image comes to. A version 0 image may hold nothing
/// but a kernel.
pub open spec fn read_outcome(stage: BootStage, payload: Seq<u8>) -> OutcomeView {
    if stage is ReadV0 {
        if u32_at(payload, HEADER_VERSION as int) != 0 {
            OutcomeView::Refused(BootError::NotVersion0)
        } else if u32_at(payload, RAMDISK_SIZE as int) != 0 || u32_at(payload, SECOND_SIZE as int)
            != 0 {
            OutcomeView::Refused(BootError::NeedsVersion2)
        } else {
            OutcomeView::Done
        }
    } else {
        if u32_at(payload, HEADER_VERSION as int) != 2 {
            OutcomeView::Refused(BootError::NotVersion2)
        } else {
            OutcomeView::Done
        }
    }
}

/// What checking the kernel of an Android boot image comes to.
pub open spec fn check_outcome(kernel: Seq<u8>) -> OutcomeView {
    if is_efi_app(kernel) {
        OutcomeView::Done
    } else {
        OutcomeView::Refused(BootError::NotEfiApp)
    }
}

/// The step can have this outcome: a header is read to what it says, a kernel may fail to be
/// unpacked or to be an EFI application, a part may find no room, and the firmware may fail in any
/// other step. There is no going on with a version 2 kernel that the firmware does not load.
pub open spec fn can_have(stage: BootStage, payload: Seq<u8>, outcome: OutcomeView) -> bool {
    match stage {
        BootStage::ReadV0 | BootStage::ReadV2 => outcome == read_outcome(stage, payload),
        BootStage::CheckV0 | BootStage::CheckV2 => outcome is Done || outcome
            == OutcomeView::Refused(BootError::NotEfiApp),
        BootStage::CopyV0 => outcome is Done || outcome == OutcomeView::Refused(
            BootError::WriteKernel,
        ),
        BootStage::UnpackV2 => outcome is Done || outcome == OutcomeView::Refused(
            BootError::WriteKernel,
        ) || outcome == OutcomeView::Refused(BootError::DecompressKernel),
        BootStage::CopyRamdisk => outcome is Done || outcome == OutcomeView::Refused(
            BootError::WriteRamdisk,
        ),
        BootStage::CopyFdt => outcome is Done || outcome == OutcomeView::Refused(
            BootError::WriteFdt,
        ),
        BootStage::LoadV2 => outcome is Done,
        BootStage::Finished => false,
        _ => !(outcome is Refused),
    }
}

/// The step that follows a success. The device tree is dealt with exactly if the header of the
/// payload announces one.
pub open spec fn stage_after(stage: BootStage, payload: Seq<u8>) -> BootStage {
    match stage {
        BootStage::ReadV0 => BootStage::CopyV0,
        BootStage::CopyV0 => BootStage::CheckV0,
        BootStage::CheckV0 => BootStage::LoadV0,
        BootStage::ReadV2 => BootStage::UnpackV2,
        BootStage::UnpackV2 => BootStage::CheckV2,
        BootStage::CheckV2 => BootStage::CopyRamdisk,
        BootStage::CopyRamdisk => if announces_dtb(payload) {
            BootStage::CopyFdt
        } else {
            BootStage::CommandLine
        },
        BootStage::CopyFdt => BootStage::InstallFdt,
        BootStage::InstallFdt => BootStage::CommandLine,
        BootStage::CommandLine => BootStage::LoadV2,
        BootStage::LoadV2 => BootStage::Configure,
        BootStage::LoadPe => BootStage::InstallRtProperties,
        BootStage::LoadV0 => BootStage::InstallRtProperties,
        BootStage::Configure => BootStage::InstallRtProperties,
        BootStage::InstallRtProperties => BootStage::Start,
        BootStage::Start => BootStage::Finished,
        BootStage::Finished => BootStage::Finished,
    }
}

/// The header of the payload can be read where it decides how the step goes or what follows it.
pub open spec fn header_in_reach(stage: BootStage, payload: Seq<u8>) -> bool {
    &&& stage is ReadV0 || stage is ReadV2 ==> payload.len() >= COMMON_HEADER_END
    &&& stage is CopyRamdisk ==> payload.len() >= V2_HEADER_END
}

/// What the host is told when the firmware fails in a step: a fixed text in the steps of an
/// Android boot image, the firmware's status in the others.
pub open spec fn firmware_failure(stage: BootStage, status: Seq<char>) -> Seq<char> {
    match stage {
        BootStage::LoadV0 => message_of(BootError::LoadKernel),
        BootStage::InstallFdt => message_of(BootError::InstallFdt),
        BootStage::CommandLine => message_of(BootError::AllocCommandLine),
        BootStage::Configure => message_of(BootError::OpenImage),
        _ => status,
    }
}

/// What follows the outcome of a step. An image that came back after it was started is not
/// answered again.
pub open spec fn next_move(stage: BootStage, payload: Seq<u8>, outcome: OutcomeView) -> MoveView {
    if stage is Start {
        go_on(BootStage::Finished)
    } else {
        match outcome {
            OutcomeView::Refused(error) => give_up(failed_text(message_of(error))),
            OutcomeView::Failed(status) => give_up(failed_text(firmware_failure(stage, status))),
            OutcomeView::Done => MoveView {
                reply: if stage is InstallRtProperties {
                    Some("OKAY"@)
                } else {
                    None
                },
                next: stage_after(stage, payload),
            },
        }
    }
}

/// Gives up with a response.
fn reject(reason: &str) -> (answer: BootMove)
    ensures
        answer@ == give_up(reason@),
{
    BootMove { reply: Some(fail(reason)), next: BootStage::Finished }
}

/// Gives up on a payload that failed while it was booted.
fn reject_failed(what: &str) -> (answer: BootMove)
    ensures
        answer@ == give_up(failed_text(what@)),
{
    let mut reason: String = String::new();
    reason.append("failed: ");
    reason.append(what);
    proof {
        assert(reason@ =~= failed_text(what@));
    }
    reject(reason.as_str())
}

/// Begins to boot a payload.
pub fn handle_boot(payload: &[u8]) -> (answer: BootMove)
    requires
        subsystem_in_bounds(payload@),
    ensures
        answer@ == first_move(format_of(payload@)),
{
    match boot_format(payload) {
        BootFormat::PeImage => BootMove { reply: None, next: BootStage::LoadPe },
        BootFormat::ForeignPe(machine) => {
            let mut reason: String = String::new();
            reason.append("unsupported EFI arch ");
            reason.append(format_hex(machine as u64, 4).as_str());
            reason.append(", need ");
            reason.append(format_hex(expected_pe_machine() as u64, 4).as_str());
            proof {
                assert(reason@ =~= foreign_pe_text(machine));
            }
            reject(reason.as_str())
        },
        BootFormat::BootImgV0 => BootMove { reply: None, next: BootStage::ReadV0 },
        BootFormat::BootImgV2 => BootMove { reply: None, next: BootStage::ReadV2 },
        BootFormat::Unknown => reject("unsupported boot image format"),
    }
}

/// The step that follows a success.
fn next_stage(stage: BootStage, payload: &[u8]) -> (next: BootStage)
    requires
        header_in_reach(stage, payload@),
    ensures
        next == stage_after(stage, payload@),
{
    match stage {
        BootStage::ReadV0 => BootStage::CopyV0,
        BootStage::CopyV0 => BootStage::CheckV0,
        BootStage::CheckV0 => BootStage::LoadV0,
        BootStage::ReadV2 => BootStage::UnpackV2,
        BootStage::UnpackV2 => BootStage::CheckV2,
        BootStage::CheckV2 => BootStage::CopyRamdisk,
        BootStage::CopyRamdisk => if dtb_announced(payload) {
            BootStage::CopyFdt
        } else {
            BootStage::CommandLine
        },
        BootStage::CopyFdt => BootStage::InstallFdt,
        BootStage::InstallFdt => BootStage::CommandLine,
        BootStage::CommandLine => BootStage::LoadV2,
        BootStage::LoadV2 => BootStage::Configure,
        BootStage::InstallRtProperties => BootStage::Start,
        BootStage::LoadPe | BootStage::LoadV0 | BootStage::Configure => {
            BootStage::InstallRtProperties
        },
        BootStage::Start | BootStage::Finished => BootStage::Finished,
    }
}

/// Tells whether [`advance_boot`] takes this outcome of a step.
pub fn boot_can_advance(stage: BootStage, payload: &[u8], outcome: &Outcome) -> (yes: bool)
    ensures
        yes == (header_in_reach(stage, payload@) && can_have(stage, payload@, outcome@)),
{
    match stage {
        BootStage::ReadV0 => {
            if payload.len() < COMMON_HEADER_END {
                return false;
            }
            let version: u32 = read_u32(payload, HEADER_VERSION);
            let more: bool = read_u32(payload, RAMDISK_SIZE) != 0 || read_u32(payload, SECOND_SIZE)
                != 0;
            match outcome {
                Outcome::Done => version == 0 && !more,
                Outcome::Refused(error) => if version != 0 {
                    *error == BootError::NotVersion0
                } else {
                    more && *error == BootError::NeedsVersion2
                },
                Outcome::Failed(_) => false,
            }
        },
        BootStage::ReadV2 => {
            if payload.len() < COMMON_HEADER_END {
                return false;
            }
            let version: u32 = read_u32(payload, HEADER_VERSION);
            match outcome {
                Outcome::Done => version == 2,
                Outcome::Refused(error) => version != 2 && *error == BootError::NotVersion2,
                Outcome::Failed(_) => false,
            }
        },
        _ => match outcome {
            Outcome::Done => stage != BootStage::Finished && (stage != BootStage::CopyRamdisk
                || payload.len() >= V2_HEADER_END),
            Outcome::Refused(error) => match stage {
                BootStage::CheckV0 | BootStage::CheckV2 => *error == BootError::NotEfiApp,
                BootStage::CopyV0 => *error == BootError::WriteKernel,
                BootStage::UnpackV2 => *error == BootError::WriteKernel || *error
                    == BootError::DecompressKernel,
                BootStage::CopyRamdisk => payload.len() >= V2_HEADER_END && *error
                    == BootError::WriteRamdisk,
                BootStage::CopyFdt => *error == BootError::WriteFdt,
                _ => false,
            },
            Outcome::Failed(_) => match stage {
                BootStage::LoadPe | BootStage::LoadV0 | BootStage::InstallFdt => true,
                BootStage::CommandLine | BootStage::Configure => true,
                BootStage::InstallRtProperties | BootStage::Start => true,
                _ => false,
            },
        },
    }
}

/// Goes on with booting a payload after a step was taken.
///
/// [`boot_can_advance`] tests whether the step can have had this outcome.
pub fn advance_boot(stage: BootStage, payload: &[u8], outcome: &Outcome) -> (answer: BootMove)
    requires
        header_in_reach(stage, payload@),
        can_have(stage, payload@, outcome@),
    ensures
        answer@ == next_move(stage, payload@, outcome@),
{
    match outcome {
        Outcome::Refused(error) => reject_failed(error.message()),
        Outcome::Failed(status) => match stage {
            BootStage::LoadV0 => reject_failed(BootError::LoadKernel.message()),
            BootStage::InstallFdt => reject_failed(BootError::InstallFdt.message()),
            BootStage::CommandLine => reject_failed(BootError::AllocCommandLine.message()),
            BootStage::Configure => reject_failed(BootError::OpenImage.message()),
            BootStage::Start => BootMove { reply: None, next: BootStage::Finished },
            _ => reject_failed(status.as_str()),
        },
        Outcome::Done => {
            let reply: Option<String> = match stage {
                BootStage::InstallRtProperties => Some(plain_okay()),
                _ => None,
            };
            BootMove { reply, next: next_stage(stage, payload) }
        },
    }
}

impl Outcome {
    /// What a result of the library comes to as the outcome of a step.
    pub fn of(result: Result<(), BootError>) -> (outcome: Outcome)
        ensures
            outcome@ == outcome_of(result),
    {
        match result {
            Ok(()) => Outcome::Done,
            Err(error) => Outcome::Refused(error),
        }
    }
}

/// The step reads the header of the payload, which can be read.
pub open spec fn header_in_bounds(stage: BootStage, payload: Seq<u8>) -> bool {
    match stage {
        BootStage::ReadV0 => v0_header_in_bounds(payload),
        BootStage::ReadV2 => v2_header_in_bounds(payload),
        _ => false,
    }
}

/// Tells whether [`read_header`] can read the header.
pub fn header_can_be_read(stage: BootStage, payload: &[u8]) -> (yes: bool)
    ensures
        yes == header_in_bounds(stage, payload@),
{
    match stage {
        BootStage::ReadV0 => bootimg_v0_in_bounds(payload),
        BootStage::ReadV2 => bootimg_v2_in_bounds(payload),
        _ => false,
    }
}

/// Takes a step that reads the header of an Android boot image: finds the parts of the image.
///
/// [`header_can_be_read`] tests whether the header can be read.
pub fn read_header(stage: BootStage, payload: &[u8]) -> (layout: Result<BootLayout, BootError>)
    requires
        header_in_bounds(stage, payload@),
    ensures
        match layout {
            Ok(parts) => read_outcome(stage, payload@) is Done && if stage is ReadV0 {
                is_v0_layout(payload@, parts)
            } else {
                is_v2_layout(payload@, parts)
            },
            Err(error) => read_outcome(stage, payload@) == OutcomeView::Refused(error),
        },
{
    match stage {
        BootStage::ReadV0 => match handle_bootimg_v0(payload) {
            Ok(kernel) => Ok(BootLayout::kernel_only(kernel)),
            Err(error) => Err(error),
        },
        _ => handle_bootimg_v2(payload),
    }
}

/// Takes a step that checks the kernel of an Android boot image, which stands in memory.
pub fn check_step(kernel: &[u8]) -> (outcome: Outcome)
    requires
        subsystem_in_bounds(kernel@),
    ensures
        outcome@ == check_outcome(kernel@),
{
    Outcome::of(check_kernel(kernel))
}

/// The part of an image that a step puts into memory, and the reason for giving up if the memory
/// has no room for it; `None` for a step that copies nothing.
pub open spec fn part_for(stage: BootStage, layout: BootLayout) -> Option<(Extent, BootError)> {
    match stage {
        BootStage::CopyV0 => Some((layout.kernel, BootError::WriteKernel)),
        BootStage::UnpackV2 => Some((layout.kernel, BootError::WriteKernel)),
        BootStage::CopyRamdisk => Some((layout.ramdisk, BootError::WriteRamdisk)),
        BootStage::CopyFdt => if layout.dtb.size != 0 {
            Some((layout.dtb, BootError::WriteFdt))
        } else {
            None
        },
        _ => None,
    }
}

/// The part of an image that a step puts into memory, and the reason for giving up if the memory
/// has no room for it; `None` for a step that copies nothing.
pub fn part_of_step(stage: BootStage, layout: &BootLayout) -> (part: Option<(Extent, BootError)>)
    ensures
        part == part_for(stage, *layout),
{
    match stage {
        BootStage::CopyV0 => Some((layout.kernel, BootError::WriteKernel)),
        BootStage::UnpackV2 => Some((layout.kernel, BootError::WriteKernel)),
        BootStage::CopyRamdisk => Some((layout.ramdisk, BootError::WriteRamdisk)),
        BootStage::CopyFdt => if layout.has_dtb() {
            Some((layout.dtb, BootError::WriteFdt))
        } else {
            None
        },
        _ => None,
    }
}

/// The step puts a part of the image into memory, and the payload holds that part.
pub open spec fn part_in_bounds(stage: BootStage, layout: BootLayout, payload: Seq<u8>) -> bool {
    &&& part_for(stage, layout) matches Some((part, _))
    &&& part.is_in(payload)
    &&& stage is UnpackV2 ==> kernel_in_bounds(part.bytes_in(payload))
}

/// Tells whether [`place_part`] can read the part.
pub fn part_can_be_placed(stage: BootStage, layout: &BootLayout, payload: &[u8]) -> (yes: bool)
    ensures
        yes == part_in_bounds(stage, *layout, payload@),
{
    match part_of_step(stage, layout) {
        Some((part, _)) => part.fits(payload) && (stage != BootStage::UnpackV2
            || kernel_parts_in_bounds(part.slice(payload))),
        None => false,
    }
}

/// How much memory a step needs for its part: as much as the part is long, but for a compressed
/// kernel, which is unpacked.
pub open spec fn memory_needed(stage: BootStage, layout: BootLayout, payload: Seq<u8>) -> int {
    let part = part_for(stage, layout).unwrap().0;
    if stage is UnpackV2 && has_gzip_magic(part.bytes_in(payload)) {
        UNPACKED_KERNEL_SIZE as int
    } else {
        part.size as int
    }
}

/// How much memory a step needs for its part: as much as the part is long, but for a compressed
/// kernel, which is unpacked.
pub fn part_memory_size(stage: BootStage, layout: &BootLayout, payload: &[u8]) -> (size: usize)
    requires
        part_in_bounds(stage, *layout, payload@),
    ensures
        size == memory_needed(stage, *layout, payload@),
{
    let data: &[u8] = match part_of_step(stage, layout) {
        Some((part, _)) => part.slice(payload),
        None => payload,
    };
    match stage {
        BootStage::UnpackV2 => kernel_memory_size(data),
        _ => data.len(),
    }
}

/// The part of a step was put into memory, which held `before` and now holds `after`: the kernel of
/// a version 2 image unpacked if it is compressed, any other part as it is.
pub open spec fn is_placing(
    stage: BootStage,
    layout: BootLayout,
    payload: Seq<u8>,
    before: BufferView,
    after: BufferView,
    result: Result<(), BootError>,
) -> bool {
    let (part, refused) = part_for(stage, layout).unwrap();
    let data = part.bytes_in(payload);
    if stage is UnpackV2 {
        is_unpacking(data, before, after, result)
    } else {
        (after, result) == write_outcome(before, data, refused)
    }
}

/// Puts the part of a step into memory.
///
/// [`part_can_be_placed`] tests whether the part can be read.
pub fn place_part(
    stage: BootStage,
    layout: &BootLayout,
    payload: &[u8],
    memory: &mut FastbootBuffer,
) -> (result: Result<(), BootError>)
    requires
        old(memory)@.wf(),
        part_in_bounds(stage, *layout, payload@),
    ensures
        final(memory)@.wf(),
        final(final(memory).memory)@ == final(old(memory).memory)@,
        is_placing(stage, *layout, payload@, old(memory)@, final(memory)@, result),
{
    match part_of_step(stage, layout) {
        Some((part, refused)) => match stage {
            BootStage::UnpackV2 => unpack_kernel(part.slice(payload), memory),
            _ => write_part(memory, part.slice(payload), refused),
        },
        None => Ok(()),
    }
}

/// The steps of a version 2 image put exactly those parts into memory that its header announces,
/// and there is a device tree to copy exactly if the header announces one.
pub proof fn law_steps_take_the_announced_parts(payload: Seq<u8>, layout: BootLayout)
    requires
        is_v2_layout(payload, layout),
    ensures
        ({
            let at = v2_kernel_offset(payload);
            &&& part_for(BootStage::UnpackV2, layout) matches Some((part, _))
            &&& part.bytes_in(payload) == payload.subrange(
                at,
                at + u32_at(payload, KERNEL_SIZE as int),
            )
        }),
        ({
            let at = v2_ramdisk_offset(payload);
            &&& part_for(BootStage::CopyRamdisk, layout) matches Some((part, _))
            &&& part.bytes_in(payload) == payload.subrange(
                at,
                at + u32_at(payload, RAMDISK_SIZE as int),
            )
        }),
        part_for(BootStage::CopyFdt, layout) is Some <==> announces_dtb(payload),
        ({
            let at = v2_dtb_offset(payload);
            part_for(BootStage::CopyFdt, layout) matches Some((part, _)) ==> part.bytes_in(payload)
                == payload.subrange(at, at + u32_at(payload, DTB_SIZE as int))
        }),
{
}

/// The bytes of a runtime properties table that offers no runtime services: version 1, 8 bytes
/// long, no service.
pub fn create_empty_rt_properties_table() -> (table: Vec<u8>)
    ensures
        table@.len() == 8,
        u16_at(table@, 0) == 1,
        u16_at(table@, 2) == 8,
        u32_at(table@, 4) == 0,
{
    vec![1u8, 0, 8, 0, 0, 0, 0, 0]
}

/// A payload with a PE header is an EFI application or a foreign one with its machine number; any
/// other payload is a boot image of version 0 or 2, or unknown.
pub proof fn law_payload_is_what_its_headers_say(payload: Seq<u8>)
    ensures
        match format_of(payload) {
            BootFormat::PeImage => is_efi_app(payload),
            BootFormat::ForeignPe(machine) => machine_of(payload) == Some(machine) && !is_efi_app(
                payload,
            ),
            BootFormat::BootImgV0 => has_bootimg_header(payload, 0),
            BootFormat::BootImgV2 => has_bootimg_header(payload, 2),
            BootFormat::Unknown => {
                &&& machine_of(payload) is None
                &&& !has_bootimg_header(payload, 0)
                &&& !has_bootimg_header(payload, 2)
            },
        },
        is_efi_app(payload) ==> format_of(payload) is PeImage,
        has_bootimg_header(payload, 0) ==> format_of(payload) is BootImgV0,
        has_bootimg_header(payload, 2) ==> format_of(payload) is BootImgV2,
{
    law_formats_exclude_each_other(payload);
}

/// A payload that can be booted begins with its first step and no response; any other is refused at
/// once, with both machine numbers if it has one.
pub proof fn law_boot_begins_with_the_format(format: BootFormat)
    ensures
        ({
            let answer = first_move(format);
            match format {
                BootFormat::PeImage => answer.reply is None && answer.next is LoadPe,
                BootFormat::BootImgV0 => answer.reply is None && answer.next is ReadV0,
                BootFormat::BootImgV2 => answer.reply is None && answer.next is ReadV2,
                BootFormat::ForeignPe(machine) => {
                    &&& answer.next is Finished
                    &&& answer.reply == Some(
                        "FAIL"@ + ("unsupported EFI arch "@ + padded_hex(machine as nat, 4)
                            + ", need "@ + padded_hex(0xaa64, 4)),
                    )
                },
                BootFormat::Unknown => {
                    &&& answer.next is Finished
                    &&& answer.reply == Some("FAIL"@ + "unsupported boot image format"@)
                },
            }
        }),
{
}

/// A step that succeeded leads to the one behind it, without a response but for the last one before
/// the start. The device tree is copied and installed exactly if the number at 1648 is not zero,
/// whatever else the header holds.
pub proof fn law_success_leads_to_the_next_step(stage: BootStage, payload: Seq<u8>)
    ensures
        ({
            let answer = next_move(stage, payload, OutcomeView::Done);
            let next = answer.next;
            &&& stage is InstallRtProperties ==> answer.reply == Some("OKAY"@)
            &&& !(stage is InstallRtProperties) ==> answer.reply is None
            &&& stage is LoadPe ==> next is InstallRtProperties
            &&& stage is ReadV0 ==> next is CopyV0
            &&& stage is CopyV0 ==> next is CheckV0
            &&& stage is CheckV0 ==> next is LoadV0
            &&& stage is LoadV0 ==> next is InstallRtProperties
            &&& stage is ReadV2 ==> next is UnpackV2
            &&& stage is UnpackV2 ==> next is CheckV2
            &&& stage is CheckV2 ==> next is CopyRamdisk
            &&& stage is CopyRamdisk && u32_at(payload, 1648) != 0 ==> next is CopyFdt
            &&& stage is CopyRamdisk && u32_at(payload, 1648) == 0 ==> next is CommandLine
            &&& stage is CopyFdt ==> next is InstallFdt
            &&& stage is InstallFdt ==> next is CommandLine
            &&& stage is CommandLine ==> next is LoadV2
            &&& stage is LoadV2 ==> next is Configure
            &&& stage is Configure ==> next is InstallRtProperties
            &&& stage is InstallRtProperties ==> next is Start
            &&& stage is Start ==> next is Finished
        }),
{
}

/// A step that did not succeed ends the boot, and the host is told why: the reason of a refusal, a
/// fixed text for the firmware's part in an Android boot image, and its status otherwise. Only an
/// image that was started is not answered again.
pub proof fn law_failure_ends_the_boot(stage: BootStage, payload: Seq<u8>, outcome: OutcomeView)
    requires
        !(outcome is Done),
    ensures
        ({
            let answer = next_move(stage, payload, outcome);
            &&& answer.next is Finished
            &&& stage is Start ==> answer.reply is None
            &&& !(stage is Start) ==> match outcome {
                OutcomeView::Refused(error) => answer.reply == Some(
                    "FAIL"@ + ("failed: "@ + message_of(error)),
                ),
                OutcomeView::Failed(status) => {
                    let what = if stage is LoadV0 {
                        "failed to load kernel image"@
                    } else if stage is InstallFdt {
                        "failed to install fdt in configuration table"@
                    } else if stage is CommandLine {
                        "failed to allocate memory for command line"@
                    } else if stage is Configure {
                        "failed to load image"@
                    } else {
                        status
                    };
                    answer.reply == Some("FAIL"@ + ("failed: "@ + what))
                },
                OutcomeView::Done => true,
            }
        }),
{
}

/// A step of the library succeeds or is refused for its own reasons, a header exactly for what it
/// says; any other step succeeds or fails in the firmware.
pub proof fn law_steps_have_their_outcomes(
    stage: BootStage,
    payload: Seq<u8>,
    outcome: OutcomeView,
)
    ensures
        can_have(stage, payload, outcome) <==> match outcome {
            OutcomeView::Done => {
                &&& !(stage is Finished)
                &&& stage is ReadV0 ==> u32_at(payload, 40) == 0
                &&& stage is ReadV0 ==> u32_at(payload, 16) == 0 && u32_at(payload, 24) == 0
                &&& stage is ReadV2 ==> u32_at(payload, 40) == 2
            },
            OutcomeView::Refused(error) => {
                ||| stage is ReadV0 && error is NotVersion0 && u32_at(payload, 40) != 0
                ||| stage is ReadV0 && error is NeedsVersion2 && u32_at(payload, 40) == 0 && !(
                u32_at(payload, 16) == 0 && u32_at(payload, 24) == 0)
                ||| stage is ReadV2 && error is NotVersion2 && u32_at(payload, 40) != 2
                ||| (stage is CheckV0 || stage is CheckV2) && error is NotEfiApp
                ||| (stage is CopyV0 || stage is UnpackV2) && error is WriteKernel
                ||| stage is UnpackV2 && error is DecompressKernel
                ||| stage is CopyRamdisk && error is WriteRamdisk
                ||| stage is CopyFdt && error is WriteFdt
            },
            OutcomeView::Failed(_) => {
                ||| stage is LoadPe || stage is LoadV0
                ||| stage is InstallFdt || stage is CommandLine || stage is Configure
                ||| stage is InstallRtProperties || stage is Start
            },
        },
        header_in_reach(stage, payload) <==> {
            &&& stage is ReadV0 || stage is ReadV2 ==> payload.len() >= 44
            &&& stage is CopyRamdisk ==> payload.len() >= 1652
        },
        stage is ReadV0 ==> can_have(stage, payload, read_outcome(stage, payload)),
        stage is ReadV2 ==> can_have(stage, payload, read_outcome(stage, payload)),
        header_in_bounds(stage, payload) <==> stage is ReadV0 && v0_header_in_bounds(payload)
            || stage is ReadV2 && v2_header_in_bounds(payload),
{
}

/// A kernel passes its check exactly if it is an EFI application, and a result of the library is a
/// success or a refusal for the same reason.
pub proof fn law_check_is_passed_by_efi_apps(kernel: Seq<u8>, result: Result<(), BootError>)
    ensures
        is_efi_app(kernel) ==> check_outcome(kernel) is Done,
        !is_efi_app(kernel) ==> check_outcome(kernel) == OutcomeView::Refused(BootError::NotEfiApp),
        match result {
            Ok(_) => outcome_of(result) is Done,
            Err(error) => outcome_of(result) == OutcomeView::Refused(error),
        },
{
}

/// Each step that copies takes its own part, whatever the other parts are: the kernel, the ramdisk,
/// and the device tree exactly if it is not empty. No other step copies anything.
pub proof fn law_steps_copy_their_own_part(stage: BootStage, layout: BootLayout)
    ensures
        ({
            let part = part_for(stage, layout);
            &&& stage is CopyV0 || stage is UnpackV2 ==> part == Some(
                (layout.kernel, BootError::WriteKernel),
            )
            &&& stage is CopyRamdisk ==> part == Some((layout.ramdisk, BootError::WriteRamdisk))
            &&& stage is CopyFdt && layout.dtb.size != 0 ==> part == Some(
                (layout.dtb, BootError::WriteFdt),
            )
            &&& stage is CopyFdt && layout.dtb.size == 0 ==> part is None
            &&& part is Some ==> stage is CopyV0 || stage is UnpackV2 || stage is CopyRamdisk
                || stage is CopyFdt
        }),
{
}

/// A part can be placed if it ends inside the payload and, where it is unpacked, can be read. It
/// needs memory of its own size, but for a compressed kernel that is unpacked.
pub proof fn law_parts_need_their_own_size(
    stage: BootStage,
    layout: BootLayout,
    payload: Seq<u8>,
)
    ensures
        ({
            let part = part_for(stage, layout).unwrap().0;
            let data = payload.subrange(part.offset as int, part.offset + part.size);
            let compressed = data.len() >= 3 && data[0] == 0x1f && data[1] == 0x8b;
            &&& part_in_bounds(stage, layout, payload) <==> {
                &&& part_for(stage, layout) is Some
                &&& part.offset + part.size <= payload.len()
                &&& stage is UnpackV2 ==> kernel_in_bounds(data)
            }
            &&& memory_needed(stage, layout, payload) == (if stage is UnpackV2 && compressed {
                0x800_0000int
            } else {
                part.size as int
            })
        }),
{
}

/// The part of a step is put into memory as it stands in the payload, whole or not at all; only the
/// kernel of a version 2 image may be unpacked on the way.
pub proof fn law_part_is_placed_as_it_stands(
    stage: BootStage,
    layout: BootLayout,
    payload: Seq<u8>,
    before: BufferView,
    after: BufferView,
    result: Result<(), BootError>,
)
    requires
        part_for(stage, layout) is Some,
        is_placing(stage, layout, payload, before, after, result),
    ensures
        ({
            let (part, refused) = part_for(stage, layout).unwrap();
            let data = payload.subrange(part.offset as int, part.offset + part.size);
            if stage is UnpackV2 {
                is_unpacking(data, before, after, result)
            } else if before.offset + data.len() <= before.len {
                result is Ok && after == before.written(data)
            } else {
                result == Err::<(), BootError>(refused) && after == before
            }
        }),
{
}

/// An outcome and a move say what their values say.
pub proof fn law_outcome_and_move_are_their_values(outcome: Outcome, answer: BootMove)
    ensures
        match outcome {
            Outcome::Done => outcome@ is Done,
            Outcome::Refused(error) => outcome@ == OutcomeView::Refused(error),
            Outcome::Failed(status) => outcome@ == OutcomeView::Failed(status@),
        },
        answer@.next == answer.next,
        match answer.reply {
            Some(text) => answer@.reply == Some(text@),
            None => answer@.reply is None,
        },
{
}

} // verus!
