//! The course of booting a payload: what follows from the outcomes of its steps.

use vstd::prelude::*;
use vstd::utf8::{encode_utf8, is_ascii_chars, is_ascii_chars_encode_utf8};

use crate::abootimg::{
    announces_dtb, has_bootimg_header, is_v0_layout, is_v2_layout, v0_kernel_offset,
    v2_kernel_offset, BootLayout, KERNEL_SIZE, RAMDISK_SIZE, SECOND_SIZE,
};
use crate::boot::{
    can_have, check_outcome, failed_text, first_move, format_of, give_up, is_placing,
    law_formats_exclude_each_other, memory_needed,
    next_move, outcome_of, part_for, part_in_bounds, read_outcome, BootFormat, BootStage,
    MoveView, OutcomeView,
};
use crate::buffer::{law_exact_write_fills_buffer, BufferView};
use crate::bytes::u32_at;
use crate::error::{message_of, BootError};
use crate::gzip::{deflate_of, has_gzip_magic, inflated};
use crate::peimage::is_efi_app;
use crate::response::{fail_text, packet_of};

verus! {

/// How far booting a payload has come.
pub struct BootRun {
    /// The responses that were sent.
    pub replies: Seq<Seq<char>>,
    /// The steps that were taken.
    pub taken: Seq<BootStage>,
    /// The step to take next.
    pub stage: BootStage,
}

/// Carries out a move after these responses and steps.
pub open spec fn carried_out(
    replies: Seq<Seq<char>>,
    taken: Seq<BootStage>,
    answer: MoveView,
) -> BootRun {
    BootRun {
        replies: match answer.reply {
            Some(text) => replies.push(text),
            None => replies,
        },
        taken,
        stage: answer.next,
    }
}

/// Booting a payload, after steps with these outcomes.
pub open spec fn boot_run(payload: Seq<u8>, outcomes: Seq<OutcomeView>) -> BootRun
    decreases outcomes.len(),
{
    if outcomes.len() == 0 {
        carried_out(Seq::empty(), Seq::empty(), first_move(format_of(payload)))
    } else {
        let before = boot_run(payload, outcomes.drop_last());
        carried_out(
            before.replies,
            before.taken.push(before.stage),
            next_move(before.stage, payload, outcomes.last()),
        )
    }
}

/// Every outcome is one that its step can have.
pub open spec fn is_boot_history(payload: Seq<u8>, outcomes: Seq<OutcomeView>) -> bool
    decreases outcomes.len(),
{
    outcomes.len() > 0 ==> {
        &&& is_boot_history(payload, outcomes.drop_last())
        &&& can_have(boot_run(payload, outcomes.drop_last()).stage, payload, outcomes.last())
    }
}

/// A request to boot is answered once: with nothing as long as the image is being made ready,
/// with `OKAY` just before the image is started, and with a failure instead of that otherwise.
pub proof fn law_boot_is_answered_once(payload: Seq<u8>, outcomes: Seq<OutcomeView>)
    requires
        is_boot_history(payload, outcomes),
    ensures
        ({
            let run = boot_run(payload, outcomes);
            match run.stage {
                BootStage::Start => run.replies == seq!["OKAY"@],
                BootStage::Finished => {
                    &&& run.replies.len() == 1
                    &&& run.replies[0] == "OKAY"@ || "FAIL"@.is_prefix_of(run.replies[0])
                },
                _ => run.replies.len() == 0,
            }
        }),
    decreases outcomes.len(),
{
    let run = boot_run(payload, outcomes);
    if outcomes.len() == 0 {
        lemma_give_up_is_failure(first_move(format_of(payload)));
    } else {
        law_boot_is_answered_once(payload, outcomes.drop_last());
        let before = boot_run(payload, outcomes.drop_last());
        lemma_give_up_is_failure(next_move(before.stage, payload, outcomes.last()));
    }
    assert(run.stage is Start ==> run.replies =~= seq!["OKAY"@]);
}

/// A response that gives up begins with the mark of a failure.
proof fn lemma_give_up_is_failure(answer: MoveView)
    ensures
        forall|reason: Seq<char>|
            answer == #[trigger] give_up(reason) ==> "FAIL"@.is_prefix_of(answer.reply.unwrap()),
{
    assert forall|reason: Seq<char>| answer == #[trigger] give_up(reason) implies "FAIL"@
        .is_prefix_of(answer.reply.unwrap()) by {
        assert("FAIL"@ =~= fail_text(reason).take("FAIL"@.len() as int));
    }
}

/// An image is started only after every step before was a success.
pub proof fn law_image_starts_after_successes(payload: Seq<u8>, outcomes: Seq<OutcomeView>)
    requires
        is_boot_history(payload, outcomes),
        !(boot_run(payload, outcomes).stage is Finished),
    ensures
        forall|i: int| 0 <= i < outcomes.len() ==> #[trigger] outcomes[i] is Done,
    decreases outcomes.len(),
{
    if outcomes.len() > 0 {
        let before = outcomes.drop_last();
        law_image_starts_after_successes(payload, before);
        assert forall|i: int| 0 <= i < outcomes.len() implies #[trigger] outcomes[i]
            is Done by {
            if i < outcomes.len() - 1 {
                assert(before[i] == outcomes[i]);
            }
        }
    }
}

/// The steps that booting a payload takes, from the first one to the start of the image; none for a
/// payload that cannot be booted.
pub open spec fn boot_path(payload: Seq<u8>) -> Seq<BootStage> {
    match format_of(payload) {
        BootFormat::PeImage => seq![
            BootStage::LoadPe,
            BootStage::InstallRtProperties,
            BootStage::Start,
        ],
        BootFormat::BootImgV0 => seq![
            BootStage::ReadV0,
            BootStage::CopyV0,
            BootStage::CheckV0,
            BootStage::LoadV0,
            BootStage::InstallRtProperties,
            BootStage::Start,
        ],
        BootFormat::BootImgV2 => if announces_dtb(payload) {
            seq![
                BootStage::ReadV2,
                BootStage::UnpackV2,
                BootStage::CheckV2,
                BootStage::CopyRamdisk,
                BootStage::CopyFdt,
                BootStage::InstallFdt,
                BootStage::CommandLine,
                BootStage::LoadV2,
                BootStage::Configure,
                BootStage::InstallRtProperties,
                BootStage::Start,
            ]
        } else {
            seq![
                BootStage::ReadV2,
                BootStage::UnpackV2,
                BootStage::CheckV2,
                BootStage::CopyRamdisk,
                BootStage::CommandLine,
                BootStage::LoadV2,
                BootStage::Configure,
                BootStage::InstallRtProperties,
                BootStage::Start,
            ]
        },
        _ => Seq::empty(),
    }
}

/// Booting a payload takes the steps of its path in their order: the steps taken are always the
/// first ones of the path, and as long as it goes on the next step is the one that follows them.
pub proof fn law_boot_follows_its_path(payload: Seq<u8>, outcomes: Seq<OutcomeView>)
    requires
        is_boot_history(payload, outcomes),
    ensures
        ({
            let run = boot_run(payload, outcomes);
            let path = boot_path(payload);
            &&& run.taken.len() == outcomes.len() <= path.len()
            &&& run.taken == path.take(outcomes.len() as int)
            &&& !(run.stage is Finished) ==> outcomes.len() < path.len() && run.stage
                == path[outcomes.len() as int]
        }),
    decreases outcomes.len(),
{
    let run = boot_run(payload, outcomes);
    let path = boot_path(payload);
    if outcomes.len() > 0 {
        law_boot_follows_its_path(payload, outcomes.drop_last());
    }
    assert(run.taken =~= path.take(outcomes.len() as int));
}

/// A device tree is handed to the firmware exactly if the payload is a version 2 image whose header
/// announces one: never while another payload is booted, and always before such an image is
/// started.
pub proof fn law_device_tree_is_installed_if_announced(
    payload: Seq<u8>,
    outcomes: Seq<OutcomeView>,
)
    requires
        is_boot_history(payload, outcomes),
    ensures
        ({
            let run = boot_run(payload, outcomes);
            let announced = format_of(payload) is BootImgV2 && u32_at(payload, 1648) != 0;
            &&& run.taken.contains(BootStage::InstallFdt) ==> announced
            &&& run.stage is InstallRtProperties || run.stage is Start ==> (run.taken.contains(
                BootStage::InstallFdt,
            ) <==> announced)
        }),
{
    let run = boot_run(payload, outcomes);
    let path = boot_path(payload);
    law_boot_follows_its_path(payload, outcomes);
    if run.taken.contains(BootStage::InstallFdt) {
        let i = choose|i: int| 0 <= i < run.taken.len() && run.taken[i] is InstallFdt;
        assert(path[i] is InstallFdt);
    }
    if (run.stage is InstallRtProperties || run.stage is Start) && format_of(payload) is BootImgV2
        && announces_dtb(payload) {
        assert(outcomes.len() > 5);
        assert(run.taken[5] is InstallFdt);
    }
}

/// The kernel of an Android boot image as it stands in memory that held `window` before: unpacked
/// if a version 2 image has it compressed; `None` if it cannot be unpacked.
pub open spec fn kernel_of(payload: Seq<u8>, window: Seq<u8>) -> Option<Seq<u8>> {
    let size = u32_at(payload, KERNEL_SIZE as int);
    if format_of(payload) is BootImgV0 {
        Some(payload.subrange(v0_kernel_offset(payload), v0_kernel_offset(payload) + size))
    } else {
        let data = payload.subrange(v2_kernel_offset(payload), v2_kernel_offset(payload) + size);
        if has_gzip_magic(data) {
            inflated(deflate_of(data).unwrap(), window)
        } else {
            Some(data)
        }
    }
}

/// What a step that the library takes itself comes to, with each part put into fresh memory of the
/// size that it needs; `kernel` is the kernel in memory, if it can be unpacked. `None` for a step
/// that only the firmware can take.
pub open spec fn own_outcome(
    stage: BootStage,
    payload: Seq<u8>,
    kernel: Option<Seq<u8>>,
) -> Option<OutcomeView> {
    match stage {
        BootStage::ReadV0 | BootStage::ReadV2 => Some(read_outcome(stage, payload)),
        BootStage::UnpackV2 => if kernel is Some {
            Some(OutcomeView::Done)
        } else {
            Some(OutcomeView::Refused(BootError::DecompressKernel))
        },
        BootStage::CheckV0 | BootStage::CheckV2 => Some(check_outcome(kernel.unwrap())),
        BootStage::CopyV0 | BootStage::CopyRamdisk | BootStage::CopyFdt => Some(OutcomeView::Done),
        _ => None,
    }
}

/// Every outcome is one that its step can have, and the outcome of every step that the library
/// takes itself is what that step comes to.
pub open spec fn is_image_history(
    payload: Seq<u8>,
    window: Seq<u8>,
    outcomes: Seq<OutcomeView>,
) -> bool
    decreases outcomes.len(),
{
    outcomes.len() > 0 ==> {
        let stage = boot_run(payload, outcomes.drop_last()).stage;
        &&& is_image_history(payload, window, outcomes.drop_last())
        &&& can_have(stage, payload, outcomes.last())
        &&& own_outcome(stage, payload, kernel_of(payload, window)) matches Some(outcome)
            ==> outcomes.last() == outcome
    }
}

/// Why an Android boot image is refused whatever the firmware does; `None` if there is no reason
/// to.
pub open spec fn refusal_of(payload: Seq<u8>, window: Seq<u8>) -> Option<BootError> {
    let kernel = kernel_of(payload, window);
    match format_of(payload) {
        BootFormat::BootImgV0 => if u32_at(payload, RAMDISK_SIZE as int) != 0 || u32_at(
            payload,
            SECOND_SIZE as int,
        ) != 0 {
            Some(BootError::NeedsVersion2)
        } else if !is_efi_app(kernel.unwrap()) {
            Some(BootError::NotEfiApp)
        } else {
            None
        },
        BootFormat::BootImgV2 => if kernel is None {
            Some(BootError::DecompressKernel)
        } else if !is_efi_app(kernel.unwrap()) {
            Some(BootError::NotEfiApp)
        } else {
            None
        },
        _ => None,
    }
}

/// A part that is put into fresh memory of the size that it needs always fits, and a kernel put
/// there is the one that is checked afterwards.
pub proof fn law_parts_fit_their_memory(
    stage: BootStage,
    layout: BootLayout,
    payload: Seq<u8>,
    before: BufferView,
    after: BufferView,
    result: Result<(), BootError>,
)
    requires
        if stage is CopyV0 {
            format_of(payload) is BootImgV0 && is_v0_layout(payload, layout)
        } else {
            format_of(payload) is BootImgV2 && is_v2_layout(payload, layout)
        },
        part_in_bounds(stage, layout, payload),
        before.offset == 0,
        before.len == before.memory.len() == memory_needed(stage, layout, payload),
        is_placing(stage, layout, payload, before, after, result),
    ensures
        own_outcome(stage, payload, kernel_of(payload, before.memory)) == Some(outcome_of(result)),
        stage is CopyV0 || stage is UnpackV2 ==> (result is Ok ==> kernel_of(payload, before.memory)
            == Some(after.bytes())),
        stage is CopyRamdisk || stage is CopyFdt ==> after.bytes() == part_for(
            stage,
            layout,
        ).unwrap().0.bytes_in(payload),
{
    let data = part_for(stage, layout).unwrap().0.bytes_in(payload);
    assert(before.bytes() =~= before.memory);
    if !(stage is UnpackV2 && has_gzip_magic(data)) {
        law_exact_write_fills_buffer(before, data);
    }
}

/// An Android boot image that is to be refused is never started: the one answer to its request
/// names the reason. Any other image is not refused.
pub proof fn law_refused_image_is_answered_with_the_reason(
    payload: Seq<u8>,
    window: Seq<u8>,
    outcomes: Seq<OutcomeView>,
)
    requires
        is_image_history(payload, window, outcomes),
    ensures
        is_boot_history(payload, outcomes),
        match refusal_of(payload, window) {
            Some(error) => {
                &&& !(boot_run(payload, outcomes).stage is Start)
                &&& boot_run(payload, outcomes).stage is Finished ==> boot_run(
                    payload,
                    outcomes,
                ).replies == seq![fail_text(failed_text(message_of(error)))]
            },
            None => forall|i: int|
                0 <= i < outcomes.len() ==> !(#[trigger] outcomes[i] is Refused),
        },
    decreases outcomes.len(),
{
    lemma_image_history(payload, window, outcomes);
    law_boot_follows_its_path(payload, outcomes);
    if outcomes.len() > 0 {
        let before = outcomes.drop_last();
        law_refused_image_is_answered_with_the_reason(payload, window, before);
        law_boot_follows_its_path(payload, before);
        law_boot_is_answered_once(payload, before);
        lemma_refusal_step(payload, window, before);
        if refusal_of(payload, window) is None {
            assert forall|i: int| 0 <= i < outcomes.len() implies !(#[trigger] outcomes[i]
                is Refused) by {
                if i < outcomes.len() - 1 {
                    assert(before[i] == outcomes[i]);
                }
            }
        } else if boot_run(payload, outcomes).stage is Finished {
            assert(boot_run(payload, outcomes).replies =~= seq![
                fail_text(failed_text(message_of(refusal_of(payload, window).unwrap()))),
            ]);
        }
    }
    if boot_run(payload, outcomes).stage is Start {
        lemma_refusal_step(payload, window, outcomes);
    }
}

/// The history of an image is a history.
proof fn lemma_image_history(payload: Seq<u8>, window: Seq<u8>, outcomes: Seq<OutcomeView>)
    requires
        is_image_history(payload, window, outcomes),
    ensures
        is_boot_history(payload, outcomes),
    decreases outcomes.len(),
{
    if outcomes.len() > 0 {
        lemma_image_history(payload, window, outcomes.drop_last());
    }
}

/// An image that is to be refused does not get past its third step, and does not go on after a step
/// that refuses it.
proof fn lemma_refusal_step(payload: Seq<u8>, window: Seq<u8>, outcomes: Seq<OutcomeView>)
    requires
        is_image_history(payload, window, outcomes),
        !(boot_run(payload, outcomes).stage is Finished),
    ensures
        refusal_of(payload, window) matches Some(error) ==> {
            let last: int = match error {
                BootError::NeedsVersion2 => 0,
                BootError::DecompressKernel => 1,
                _ => 2,
            };
            outcomes.len() <= last
        },
    decreases outcomes.len(),
{
    lemma_image_history(payload, window, outcomes);
    law_boot_follows_its_path(payload, outcomes);
    if outcomes.len() > 0 {
        let before = outcomes.drop_last();
        lemma_refusal_step(payload, window, before);
        lemma_image_history(payload, window, before);
        law_boot_follows_its_path(payload, before);
    }
}

/// An Android boot image is started only if its kernel, as it stands in memory, is an EFI
/// application, and one of version 0 only if it announces neither a ramdisk nor a second-stage
/// loader.
pub proof fn law_started_image_was_checked(
    payload: Seq<u8>,
    window: Seq<u8>,
    outcomes: Seq<OutcomeView>,
)
    requires
        is_image_history(payload, window, outcomes),
        boot_run(payload, outcomes).stage is Start,
    ensures
        format_of(payload) is BootImgV0 || format_of(payload) is BootImgV2 ==> {
            &&& kernel_of(payload, window) matches Some(kernel)
            &&& is_efi_app(kernel)
        },
        format_of(payload) is BootImgV0 ==> u32_at(payload, RAMDISK_SIZE as int) == 0 && u32_at(
            payload,
            SECOND_SIZE as int,
        ) == 0,
{
    law_refused_image_is_answered_with_the_reason(payload, window, outcomes);
}

/// A payload of a bootable format that there is no reason to refuse is started, and its request
/// answered with `OKAY`, once all steps of its path before the start have succeeded.
pub proof fn law_successes_lead_to_start(
    payload: Seq<u8>,
    window: Seq<u8>,
    outcomes: Seq<OutcomeView>,
)
    requires
        refusal_of(payload, window) is None,
        outcomes.len() < boot_path(payload).len(),
        forall|i: int| 0 <= i < outcomes.len() ==> #[trigger] outcomes[i] is Done,
    ensures
        is_image_history(payload, window, outcomes),
        boot_run(payload, outcomes).stage == boot_path(payload)[outcomes.len() as int],
        outcomes.len() == boot_path(payload).len() - 1 <==> boot_run(payload, outcomes).stage
            is Start,
        outcomes.len() == boot_path(payload).len() - 1 ==> boot_run(payload, outcomes).replies
            == seq!["OKAY"@],
    decreases outcomes.len(),
{
    if outcomes.len() > 0 {
        let before = outcomes.drop_last();
        assert forall|i: int| 0 <= i < before.len() implies #[trigger] before[i] is Done by {
            assert(before[i] == outcomes[i]);
        }
        assert(outcomes[outcomes.len() - 1] is Done);
        law_successes_lead_to_start(payload, window, before);
    }
    lemma_image_history(payload, window, outcomes);
    law_boot_is_answered_once(payload, outcomes);
}

/// The reason for which an Android boot image is refused reaches the host in full: its response is
/// never cut off.
pub proof fn law_refusals_fit_a_packet(error: BootError)
    ensures
        packet_of(fail_text(failed_text(message_of(error)))) == encode_utf8(
            fail_text(failed_text(message_of(error))),
        ),
{
    reveal_strlit("FAIL");
    reveal_strlit("failed: ");
    reveal_strlit("only version 0 supported");
    reveal_strlit("use header version 2");
    reveal_strlit("only version 2 supported");
    reveal_strlit("failed to decompress kernel");
    reveal_strlit("failed to write kernel payload");
    reveal_strlit("kernel payload is not an EFI application");
    reveal_strlit("failed to load kernel image");
    reveal_strlit("failed to write ramdisk payload");
    reveal_strlit("failed to write fdt");
    reveal_strlit("failed to install fdt in configuration table");
    reveal_strlit("failed to allocate memory for command line");
    reveal_strlit("failed to load image");
    let text = fail_text(failed_text(message_of(error)));
    assert(is_ascii_chars("FAIL"@) && is_ascii_chars("failed: "@));
    assert(is_ascii_chars(message_of(error)));
    assert(is_ascii_chars(text));
    is_ascii_chars_encode_utf8(text);
}

/// The kernel in memory is what stands in the payload from its offset on, as long as its header
/// says; the kernel of a version 2 image is what the inflater makes of it if it is compressed.
pub proof fn law_kernel_is_taken_from_the_payload(payload: Seq<u8>, window: Seq<u8>)
    ensures
        ({
            let size = u32_at(payload, 8);
            let v0 = payload.subrange(v0_kernel_offset(payload), v0_kernel_offset(payload) + size);
            let v2 = payload.subrange(v2_kernel_offset(payload), v2_kernel_offset(payload) + size);
            &&& format_of(payload) is BootImgV0 ==> kernel_of(payload, window) == Some(v0)
            &&& format_of(payload) is BootImgV2 ==> if v2.len() >= 3 && v2[0] == 0x1f && v2[1]
                == 0x8b {
                kernel_of(payload, window) == inflated(deflate_of(v2).unwrap(), window)
            } else {
                kernel_of(payload, window) == Some(v2)
            }
        }),
{
}

/// An image that may be started and that the firmware loads is started, whatever its size and its
/// other fields; one that may not is told why. Only the header of a version 0 image, a kernel that
/// cannot be unpacked and a kernel that is no EFI application stand in the way.
pub proof fn law_only_these_images_are_refused(payload: Seq<u8>, window: Seq<u8>)
    ensures
        refusal_of(payload, window) == (if has_bootimg_header(payload, 0) {
            if u32_at(payload, 16) != 0 || u32_at(payload, 24) != 0 {
                Some(BootError::NeedsVersion2)
            } else if is_efi_app(kernel_of(payload, window).unwrap()) {
                None
            } else {
                Some(BootError::NotEfiApp)
            }
        } else if has_bootimg_header(payload, 2) {
            match kernel_of(payload, window) {
                Some(kernel) => if is_efi_app(kernel) {
                    None
                } else {
                    Some(BootError::NotEfiApp)
                },
                None => Some(BootError::DecompressKernel),
            }
        } else {
            None
        }),
{
    law_formats_exclude_each_other(payload);
}

/// The steps of a payload are those of its format, in this order. A version 2 image takes two more
/// for its device tree exactly if the number at 1648 is not zero.
pub proof fn law_path_is_that_of_the_format(payload: Seq<u8>)
    ensures
        is_efi_app(payload) ==> boot_path(payload) == seq![
            BootStage::LoadPe,
            BootStage::InstallRtProperties,
            BootStage::Start,
        ],
        has_bootimg_header(payload, 0) ==> boot_path(payload) == seq![
            BootStage::ReadV0,
            BootStage::CopyV0,
            BootStage::CheckV0,
            BootStage::LoadV0,
            BootStage::InstallRtProperties,
            BootStage::Start,
        ],
        has_bootimg_header(payload, 2) ==> boot_path(payload) == seq![
            BootStage::ReadV2,
            BootStage::UnpackV2,
            BootStage::CheckV2,
            BootStage::CopyRamdisk,
        ] + (if u32_at(payload, 1648) != 0 {
            seq![BootStage::CopyFdt, BootStage::InstallFdt]
        } else {
            Seq::empty()
        }) + seq![
            BootStage::CommandLine,
            BootStage::LoadV2,
            BootStage::Configure,
            BootStage::InstallRtProperties,
            BootStage::Start,
        ],
{
    law_formats_exclude_each_other(payload);
    if has_bootimg_header(payload, 2) {
        assert(boot_path(payload) =~= seq![
            BootStage::ReadV2,
            BootStage::UnpackV2,
            BootStage::CheckV2,
            BootStage::CopyRamdisk,
        ] + (if u32_at(payload, 1648) != 0 {
            seq![BootStage::CopyFdt, BootStage::InstallFdt]
        } else {
            Seq::empty()
        }) + seq![
            BootStage::CommandLine,
            BootStage::LoadV2,
            BootStage::Configure,
            BootStage::InstallRtProperties,
            BootStage::Start,
        ]);
    }
}

} // verus!
