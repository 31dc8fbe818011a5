//! Android boot images of header versions 0 and 2.

use vstd::arithmetic::div_mod::{
    lemma_fundamental_div_mod, lemma_mod_multiples_basic, lemma_small_mod, lemma_sub_mod_noop,
};
use vstd::arithmetic::mul::lemma_mul_is_commutative;
use vstd::arithmetic::power::pow;
use vstd::arithmetic::power2::{
    is_pow2, is_pow2_equiv, lemma2_to64, lemma_pow2, lemma_pow2_pos, lemma_pow2_strictly_increases,
};
use vstd::bits::{lemma_u64_low_bits_mask_is_mod, low_bits_mask};
use vstd::prelude::*;
use vstd::slice::slice_subrange;
use vstd::utf8::{
    decode_utf8, decode_utf8_encode_utf8, encode_utf8, is_ascii_chars, is_ascii_chars_encode_utf8,
    valid_utf8,
};

use crate::buffer::{BufferView, FastbootBuffer};
use crate::bytes::{
    find_zero, law_text_ends_at_its_zero, lemma_zero_from, read_u32, starts_with, u32_at,
    until_zero,
};
use crate::error::BootError;
use crate::gzip::{
    deflate_of, gzip_decompress, gzip_deflate_slice, gzip_in_bounds, gzip_parts_in_bounds,
    has_gzip_magic, inflated, is_gzip, is_window_size,
};
use crate::peimage::{is_efi_app, is_peimage, subsystem_in_bounds};
use crate::text::{lemma_encode_concat, text_from_utf8};
use crate::ucs2::{
    cstr16_from_str, first_unfit, lemma_first_unfit, lemma_unfit_char,
    lemma_utf16_no_longer_than_utf8, ucs2_result, ucs2_units, Ucs2Error,
};

verus! {

/// Where the header keeps the size of the kernel.
pub const KERNEL_SIZE: usize = 8;

/// Where the header keeps the size of the ramdisk.
pub const RAMDISK_SIZE: usize = 16;

/// Where the header keeps the size of the second-stage loader.
pub const SECOND_SIZE: usize = 24;

/// Where the header keeps the page size.
pub const PAGE_SIZE: usize = 36;

/// Where the header keeps its version.
pub const HEADER_VERSION: usize = 40;

/// Where the header fields that both versions share end.
pub const COMMON_HEADER_END: usize = 44;

/// Where the header keeps the command line.
pub const CMDLINE: usize = 64;

/// Where the command line ends at the latest.
pub const CMDLINE_END: usize = 576;

/// The size of a version 0 header.
pub const V0_HEADER_SIZE: u64 = 608;

/// Where a version 2 header keeps its own size.
pub const HEADER_SIZE: usize = 1644;

/// Where a version 2 header keeps the size of the device tree.
pub const DTB_SIZE: usize = 1648;

/// Where the fields of a version 2 header that are looked at end.
pub const V2_HEADER_END: usize = 1652;

/// The memory that a compressed kernel is unpacked into.
pub const UNPACKED_KERNEL_SIZE: usize = 0x800_0000;

/// The bytes that a boot image begins with.
pub open spec fn boot_magic() -> Seq<u8> {
    seq![
        'A' as u8,
        'N' as u8,
        'D' as u8,
        'R' as u8,
        'O' as u8,
        'I' as u8,
        'D' as u8,
        '!' as u8,
    ]
}

/// The payload begins with a boot image header of this version.
pub open spec fn has_bootimg_header(payload: Seq<u8>, version: int) -> bool {
    &&& boot_magic().is_prefix_of(payload)
    &&& payload.len() >= COMMON_HEADER_END
    &&& u32_at(payload, HEADER_VERSION as int) == version
}

/// A part of the payload.
#[derive(Clone, Copy, Debug, PartialEq, Eq, Structural)]
pub struct Extent {
    /// Where the part begins.
    pub offset: u64,
    /// How long the part is.
    pub size: u64,
}

impl Extent {
    /// The part lies inside the payload.
    pub open spec fn is_in(self, payload: Seq<u8>) -> bool {
        self.offset + self.size <= payload.len()
    }

    /// The bytes of the part.
    pub open spec fn bytes_in(self, payload: Seq<u8>) -> Seq<u8> {
        payload.subrange(self.offset as int, self.offset + self.size)
    }

    /// Tells whether the part lies inside the payload.
    pub fn fits(&self, payload: &[u8]) -> (yes: bool)
        ensures
            yes == self.is_in(payload@),
    {
        let len: u64 = payload.len() as u64;
        self.size <= len && self.offset <= len - self.size
    }

    /// The bytes of the part, which has to lie inside the payload.
    pub fn slice<'a>(&self, payload: &'a [u8]) -> (bytes: &'a [u8])
        requires
            self.is_in(payload@),
        ensures
            bytes@ == self.bytes_in(payload@),
    {
        assert(payload@.len() == payload.len());
        slice_subrange(payload, self.offset as usize, (self.offset + self.size) as usize)
    }
}

/// The offset rounded up to a page, for page sizes that are powers of two; what the same bit
/// operations give for any other page size.
pub open spec fn page_aligned(offset: int, page_size: int) -> int {
    let mask = (page_size - 1) as u64;
    ((offset + page_size - 1) as u64 & !mask) as int
}

/// Rounds an offset up to a page.
pub fn page_align(offset: u64, page_size: u32) -> (aligned: u64)
    requires
        page_size != 0,
        offset + page_size - 1 <= u64::MAX,
    ensures
        aligned == page_aligned(offset as int, page_size as int),
        offset <= aligned <= offset + page_size - 1,
{
    proof {
        lemma_page_aligned_bounds(offset as int, page_size as int);
    }
    let mask: u64 = (page_size - 1) as u64;
    (offset + mask) & !mask
}

/// An aligned offset lies in the page-sized range that begins at the offset itself.
proof fn lemma_page_aligned_bounds(offset: int, page_size: int)
    requires
        0 <= offset,
        0 < page_size,
        offset + page_size - 1 <= u64::MAX,
    ensures
        offset <= page_aligned(offset, page_size) <= offset + page_size - 1,
{
    let mask = (page_size - 1) as u64;
    let sum = (offset + page_size - 1) as u64;
    assert(sum & !mask <= sum) by (bit_vector);
    assert(sum & !mask >= sum - mask) by (bit_vector)
        requires
            sum >= mask,
    ;
}

/// With a page size that is a power of two, an aligned offset is the least multiple of the page
/// size that is not below the offset.
pub proof fn law_page_aligned_is_least_multiple(offset: int, page_size: int)
    requires
        0 <= offset,
        is_pow2(page_size),
        page_size <= u32::MAX,
        offset + page_size - 1 <= u64::MAX,
    ensures
        page_aligned(offset, page_size) % page_size == 0,
        offset <= page_aligned(offset, page_size),
        forall|multiple: int|
            offset <= multiple && #[trigger] (multiple % page_size) == 0 ==> page_aligned(
                offset,
                page_size,
            ) <= multiple,
{
    is_pow2_equiv(page_size);
    let k = choose|k: nat| pow(2, k) == page_size;
    lemma_pow2(k);
    lemma_pow2_pos(k);
    lemma_page_aligned_bounds(offset, page_size);
    lemma2_to64();
    if k > 32 {
        lemma_pow2_strictly_increases(32, k);
    }
    let mask = (page_size - 1) as u64;
    let sum = (offset + page_size - 1) as u64;
    lemma_u64_low_bits_mask_is_mod(sum, k);
    assert(low_bits_mask(k) as u64 == mask);
    assert(sum & !mask == sum - (sum & mask)) by (bit_vector);
    lemma_fundamental_div_mod(sum as int, page_size);
    lemma_mod_multiples_basic(sum as int / page_size, page_size);
    lemma_mul_is_commutative(sum as int / page_size, page_size);
    let aligned = page_aligned(offset, page_size);
    assert(aligned == sum as int / page_size * page_size);
    assert forall|multiple: int|
        offset <= multiple && #[trigger] (multiple % page_size) == 0 implies aligned
        <= multiple by {
        if multiple < aligned {
            lemma_sub_mod_noop(aligned, multiple, page_size);
            lemma_small_mod((aligned - multiple) as nat, page_size as nat);
        }
    }
}

/// A version 0 header can be read, and its page size is not zero where it is looked at.
pub open spec fn v0_header_in_bounds(payload: Seq<u8>) -> bool {
    &&& payload.len() >= COMMON_HEADER_END
    &&& u32_at(payload, HEADER_VERSION as int) == 0 ==> u32_at(payload, PAGE_SIZE as int) != 0
}

/// A version 2 header can be read, and its page size is not zero where it is looked at.
pub open spec fn v2_header_in_bounds(payload: Seq<u8>) -> bool {
    &&& payload.len() >= V2_HEADER_END
    &&& u32_at(payload, HEADER_VERSION as int) == 2 ==> u32_at(payload, PAGE_SIZE as int) != 0
}

/// Where the kernel of a version 0 image begins.
pub open spec fn v0_kernel_offset(payload: Seq<u8>) -> int {
    page_aligned(V0_HEADER_SIZE as int, u32_at(payload, PAGE_SIZE as int))
}

/// Where the kernel of a version 2 image begins.
pub open spec fn v2_kernel_offset(payload: Seq<u8>) -> int {
    page_aligned(u32_at(payload, HEADER_SIZE as int), u32_at(payload, PAGE_SIZE as int))
}

/// Where the ramdisk of a version 2 image begins: on the page behind the kernel.
pub open spec fn v2_ramdisk_offset(payload: Seq<u8>) -> int {
    page_aligned(
        v2_kernel_offset(payload) + u32_at(payload, KERNEL_SIZE as int),
        u32_at(payload, PAGE_SIZE as int),
    )
}

/// Where the second-stage loader of a version 2 image begins: on the page behind the ramdisk.
pub open spec fn v2_second_offset(payload: Seq<u8>) -> int {
    page_aligned(
        v2_ramdisk_offset(payload) + u32_at(payload, RAMDISK_SIZE as int),
        u32_at(payload, PAGE_SIZE as int),
    )
}

/// Where the device tree of a version 2 image begins: on the page behind the second-stage loader.
pub open spec fn v2_dtb_offset(payload: Seq<u8>) -> int {
    page_aligned(
        v2_second_offset(payload) + u32_at(payload, SECOND_SIZE as int),
        u32_at(payload, PAGE_SIZE as int),
    )
}

/// The header of a version 2 image announces a device tree.
pub open spec fn announces_dtb(payload: Seq<u8>) -> bool {
    u32_at(payload, DTB_SIZE as int) != 0
}

/// Tells whether the header of a version 2 image announces a device tree.
pub fn dtb_announced(payload: &[u8]) -> (yes: bool)
    requires
        payload@.len() >= V2_HEADER_END,
    ensures
        yes == announces_dtb(payload@),
{
    read_u32(payload, DTB_SIZE) != 0
}

/// The parts of a version 2 image follow each other in the order header, kernel, ramdisk,
/// second-stage loader, device tree, and none overlaps the one before it.
pub proof fn law_v2_parts_do_not_overlap(payload: Seq<u8>)
    requires
        v2_header_in_bounds(payload),
        u32_at(payload, HEADER_VERSION as int) == 2,
    ensures
        u32_at(payload, HEADER_SIZE as int) <= v2_kernel_offset(payload),
        v2_kernel_offset(payload) + u32_at(payload, KERNEL_SIZE as int) <= v2_ramdisk_offset(
            payload,
        ),
        v2_ramdisk_offset(payload) + u32_at(payload, RAMDISK_SIZE as int) <= v2_second_offset(
            payload,
        ),
        v2_second_offset(payload) + u32_at(payload, SECOND_SIZE as int) <= v2_dtb_offset(payload),
{
    let page_size = u32_at(payload, PAGE_SIZE as int);
    lemma_page_aligned_bounds(u32_at(payload, HEADER_SIZE as int), page_size);
    lemma_page_aligned_bounds(
        v2_kernel_offset(payload) + u32_at(payload, KERNEL_SIZE as int),
        page_size,
    );
    lemma_page_aligned_bounds(
        v2_ramdisk_offset(payload) + u32_at(payload, RAMDISK_SIZE as int),
        page_size,
    );
    lemma_page_aligned_bounds(
        v2_second_offset(payload) + u32_at(payload, SECOND_SIZE as int),
        page_size,
    );
}

/// With a page size that is a power of two, each part of a version 2 image stands on the first
/// page boundary behind the part before it.
pub proof fn law_v2_parts_stand_on_pages(payload: Seq<u8>)
    requires
        v2_header_in_bounds(payload),
        u32_at(payload, HEADER_VERSION as int) == 2,
        is_pow2(u32_at(payload, PAGE_SIZE as int)),
    ensures
        ({
            let page_size = u32_at(payload, PAGE_SIZE as int);
            &&& v2_kernel_offset(payload) % page_size == 0
            &&& v2_ramdisk_offset(payload) % page_size == 0
            &&& v2_second_offset(payload) % page_size == 0
            &&& v2_dtb_offset(payload) % page_size == 0
            &&& v2_kernel_offset(payload) < u32_at(payload, HEADER_SIZE as int) + page_size
            &&& v2_ramdisk_offset(payload) < v2_kernel_offset(payload) + u32_at(
                payload,
                KERNEL_SIZE as int,
            ) + page_size
            &&& v2_second_offset(payload) < v2_ramdisk_offset(payload) + u32_at(
                payload,
                RAMDISK_SIZE as int,
            ) + page_size
            &&& v2_dtb_offset(payload) < v2_second_offset(payload) + u32_at(
                payload,
                SECOND_SIZE as int,
            ) + page_size
        }),
{
    let page_size = u32_at(payload, PAGE_SIZE as int);
    let header_end = u32_at(payload, HEADER_SIZE as int);
    lemma_page_aligned_bounds(header_end, page_size);
    law_page_aligned_is_least_multiple(header_end, page_size);
    let kernel_end = v2_kernel_offset(payload) + u32_at(payload, KERNEL_SIZE as int);
    lemma_page_aligned_bounds(kernel_end, page_size);
    law_page_aligned_is_least_multiple(kernel_end, page_size);
    let ramdisk_end = v2_ramdisk_offset(payload) + u32_at(payload, RAMDISK_SIZE as int);
    lemma_page_aligned_bounds(ramdisk_end, page_size);
    law_page_aligned_is_least_multiple(ramdisk_end, page_size);
    let second_end = v2_second_offset(payload) + u32_at(payload, SECOND_SIZE as int);
    lemma_page_aligned_bounds(second_end, page_size);
    law_page_aligned_is_least_multiple(second_end, page_size);
}

/// Tells whether the payload begins with the bytes of a boot image.
fn has_boot_magic(payload: &[u8]) -> (yes: bool)
    ensures
        yes == boot_magic().is_prefix_of(payload@),
{
    let magic: [u8; 8] = [
        'A' as u8,
        'N' as u8,
        'D' as u8,
        'R' as u8,
        'O' as u8,
        'I' as u8,
        'D' as u8,
        '!' as u8,
    ];
    proof {
        assert(magic@ =~= boot_magic());
    }
    starts_with(payload, magic.as_slice())
}

/// Tells whether the payload is a boot image of header version 0.
pub fn is_bootimg_v0(payload: &[u8]) -> (yes: bool)
    ensures
        yes == has_bootimg_header(payload@, 0),
{
    has_boot_magic(payload) && payload.len() >= COMMON_HEADER_END && read_u32(
        payload,
        HEADER_VERSION,
    ) == 0
}

/// Tells whether the payload is a boot image of header version 2.
pub fn is_bootimg_v2(payload: &[u8]) -> (yes: bool)
    ensures
        yes == has_bootimg_header(payload@, 2),
{
    has_boot_magic(payload) && payload.len() >= COMMON_HEADER_END && read_u32(
        payload,
        HEADER_VERSION,
    ) == 2
}

/// Tells whether [`handle_bootimg_v0`] can read the header.
pub fn bootimg_v0_in_bounds(payload: &[u8]) -> (yes: bool)
    ensures
        yes == v0_header_in_bounds(payload@),
{
    payload.len() >= COMMON_HEADER_END && (read_u32(payload, HEADER_VERSION) != 0 || read_u32(
        payload,
        PAGE_SIZE,
    ) != 0)
}

/// Tells whether [`handle_bootimg_v2`] can read the header.
pub fn bootimg_v2_in_bounds(payload: &[u8]) -> (yes: bool)
    ensures
        yes == v2_header_in_bounds(payload@),
{
    payload.len() >= V2_HEADER_END && (read_u32(payload, HEADER_VERSION) != 2 || read_u32(
        payload,
        PAGE_SIZE,
    ) != 0)
}

/// Finds the kernel in a version 0 image, which may hold nothing else.
///
/// [`bootimg_v0_in_bounds`] tests whether the header can be read.
pub fn handle_bootimg_v0(payload: &[u8]) -> (kernel: Result<Extent, BootError>)
    requires
        v0_header_in_bounds(payload@),
    ensures
        if u32_at(payload@, HEADER_VERSION as int) != 0 {
            kernel == Err::<Extent, BootError>(BootError::NotVersion0)
        } else if u32_at(payload@, RAMDISK_SIZE as int) != 0 || u32_at(
            payload@,
            SECOND_SIZE as int,
        ) != 0 {
            kernel == Err::<Extent, BootError>(BootError::NeedsVersion2)
        } else {
            &&& kernel matches Ok(part)
            &&& part.offset == v0_kernel_offset(payload@)
            &&& part.size == u32_at(payload@, KERNEL_SIZE as int)
        },
{
    if read_u32(payload, HEADER_VERSION) != 0 {
        return Err(BootError::NotVersion0);
    }
    let kernel_offset: u64 = page_align(V0_HEADER_SIZE, read_u32(payload, PAGE_SIZE));
    let kernel_size: u64 = read_u32(payload, KERNEL_SIZE) as u64;
    if read_u32(payload, RAMDISK_SIZE) != 0 || read_u32(payload, SECOND_SIZE) != 0 {
        return Err(BootError::NeedsVersion2);
    }
    Ok(Extent { offset: kernel_offset, size: kernel_size })
}

/// The parts of a boot image.
#[derive(Clone, Copy, Debug, PartialEq, Eq, Structural)]
pub struct BootLayout {
    /// The kernel.
    pub kernel: Extent,
    /// The ramdisk.
    pub ramdisk: Extent,
    /// The device tree; there is none if its size is zero.
    pub dtb: Extent,
}

impl BootLayout {
    /// The parts of an image that holds nothing but a kernel.
    pub fn kernel_only(kernel: Extent) -> (layout: BootLayout)
        ensures
            layout.kernel == kernel,
            layout.ramdisk == (Extent { offset: 0, size: 0 }),
            layout.dtb == (Extent { offset: 0, size: 0 }),
    {
        BootLayout {
            kernel,
            ramdisk: Extent { offset: 0, size: 0 },
            dtb: Extent { offset: 0, size: 0 },
        }
    }

    /// Tells whether the image has a device tree.
    pub fn has_dtb(&self) -> (yes: bool)
        ensures
            yes == (self.dtb.size != 0),
    {
        self.dtb.size != 0
    }
}

/// The parts that the header of a version 0 image announces: a kernel and nothing else.
pub open spec fn is_v0_layout(payload: Seq<u8>, layout: BootLayout) -> bool {
    &&& layout.kernel.offset == v0_kernel_offset(payload)
    &&& layout.kernel.size == u32_at(payload, KERNEL_SIZE as int)
    &&& layout.ramdisk.size == 0
    &&& layout.dtb.size == 0
}

/// The parts that the header of a version 2 image announces.
pub open spec fn is_v2_layout(payload: Seq<u8>, layout: BootLayout) -> bool {
    &&& layout.kernel.offset == v2_kernel_offset(payload)
    &&& layout.kernel.size == u32_at(payload, KERNEL_SIZE as int)
    &&& layout.ramdisk.offset == v2_ramdisk_offset(payload)
    &&& layout.ramdisk.size == u32_at(payload, RAMDISK_SIZE as int)
    &&& layout.dtb.offset == v2_dtb_offset(payload)
    &&& layout.dtb.size == u32_at(payload, DTB_SIZE as int)
}

/// Finds the parts of a version 2 image.
///
/// [`bootimg_v2_in_bounds`] tests whether the header can be read.
pub fn handle_bootimg_v2(payload: &[u8]) -> (layout: Result<BootLayout, BootError>)
    requires
        v2_header_in_bounds(payload@),
    ensures
        if u32_at(payload@, HEADER_VERSION as int) != 2 {
            layout == Err::<BootLayout, BootError>(BootError::NotVersion2)
        } else {
            &&& layout matches Ok(parts)
            &&& is_v2_layout(payload@, parts)
        },
{
    if read_u32(payload, HEADER_VERSION) != 2 {
        return Err(BootError::NotVersion2);
    }
    let page_size: u32 = read_u32(payload, PAGE_SIZE);
    let kernel_offset: u64 = page_align(read_u32(payload, HEADER_SIZE) as u64, page_size);
    let kernel_size: u64 = read_u32(payload, KERNEL_SIZE) as u64;
    let ramdisk_offset: u64 = page_align(kernel_offset + kernel_size, page_size);
    let ramdisk_size: u64 = read_u32(payload, RAMDISK_SIZE) as u64;
    let second_offset: u64 = page_align(ramdisk_offset + ramdisk_size, page_size);
    let second_size: u64 = read_u32(payload, SECOND_SIZE) as u64;
    let dtb_offset: u64 = page_align(second_offset + second_size, page_size);
    let dtb_size: u64 = read_u32(payload, DTB_SIZE) as u64;
    Ok(
        BootLayout {
            kernel: Extent { offset: kernel_offset, size: kernel_size },
            ramdisk: Extent { offset: ramdisk_offset, size: ramdisk_size },
            dtb: Extent { offset: dtb_offset, size: dtb_size },
        },
    )
}

/// What writing a part of an image to memory comes to: the memory afterwards, and the result.
pub open spec fn write_outcome(before: BufferView, data: Seq<u8>, refused: BootError) -> (
    BufferView,
    Result<(), BootError>,
) {
    if before.has_room(data.len()) {
        (before.written(data), Ok(()))
    } else {
        (before, Err(refused))
    }
}

/// Writes a part of an image to memory; `refused` tells the host if it does not fit.
pub fn write_part(
    buffer: &mut FastbootBuffer,
    data: &[u8],
    refused: BootError,
) -> (result: Result<(), BootError>)
    requires
        old(buffer)@.wf(),
    ensures
        final(buffer)@.wf(),
        final(final(buffer).memory)@ == final(old(buffer).memory)@,
        (final(buffer)@, result) == write_outcome(old(buffer)@, data@, refused),
{
    match buffer.write(data) {
        Ok(()) => Ok(()),
        Err(_) => Err(refused),
    }
}

/// How much memory the kernel of a version 2 image needs; for a compressed kernel it is a size that
/// the inflater can use.
pub fn kernel_memory_size(kernel: &[u8]) -> (size: usize)
    ensures
        size == (if has_gzip_magic(kernel@) {
            UNPACKED_KERNEL_SIZE as nat
        } else {
            kernel@.len()
        }),
        has_gzip_magic(kernel@) ==> is_window_size(size as nat),
{
    if is_gzip(kernel) {
        proof {
            lemma2_to64();
            lemma_pow2(27);
            is_pow2_equiv(UNPACKED_KERNEL_SIZE as int);
        }
        UNPACKED_KERNEL_SIZE
    } else {
        kernel.len()
    }
}

/// A compressed kernel is a gzip file that can be read.
pub open spec fn kernel_in_bounds(kernel: Seq<u8>) -> bool {
    has_gzip_magic(kernel) ==> gzip_in_bounds(kernel) && deflate_of(kernel) is Some
}

/// Tells whether [`unpack_kernel`] can read the kernel.
pub fn kernel_parts_in_bounds(kernel: &[u8]) -> (yes: bool)
    ensures
        yes == kernel_in_bounds(kernel@),
{
    if !is_gzip(kernel) {
        return true;
    }
    if !gzip_parts_in_bounds(kernel) {
        return false;
    }
    match gzip_deflate_slice(kernel) {
        Some(_) => true,
        None => false,
    }
}

/// A kernel was put into memory, which held `before` and now holds `after`: a compressed kernel
/// unpacked, any other as it is. Memory that was not in use stays as it was.
pub open spec fn is_unpacking(
    kernel: Seq<u8>,
    before: BufferView,
    after: BufferView,
    result: Result<(), BootError>,
) -> bool {
    if !has_gzip_magic(kernel) {
        (after, result) == write_outcome(before, kernel, BootError::WriteKernel)
    } else {
        &&& after.memory.len() == before.memory.len()
        &&& after.memory.skip(before.len as int) == before.memory.skip(before.len as int)
        &&& after.offset == before.offset
        &&& match inflated(deflate_of(kernel).unwrap(), before.bytes()) {
            Some(text) => result is Ok && after.bytes() == text,
            None => result == Err::<(), BootError>(BootError::DecompressKernel) && after.len
                == before.len,
        }
    }
}

/// Puts the kernel of a version 2 image into memory, unpacked if it is compressed.
pub fn unpack_kernel(kernel: &[u8], memory: &mut FastbootBuffer) -> (result: Result<(), BootError>)
    requires
        old(memory)@.wf(),
        kernel_in_bounds(kernel@),
    ensures
        final(memory)@.wf(),
        final(memory)@.memory.len() == old(memory)@.memory.len(),
        final(final(memory).memory)@ == final(old(memory).memory)@,
        is_unpacking(kernel@, old(memory)@, final(memory)@, result),
{
    if is_gzip(kernel) {
        let ghost before = memory@;
        let unpacked: Result<usize, BootError> = gzip_decompress(kernel, memory.as_mut_slice());
        proof {
            let len = before.len as int;
            assert(memory@.memory.skip(len) =~= before.memory.skip(len));
        }
        match unpacked {
            Ok(length) => {
                memory.set_len(length);
                proof {
                    let text = inflated(deflate_of(kernel@).unwrap(), before.bytes()).unwrap();
                    assert(memory@.bytes() =~= text);
                }
                Ok(())
            },
            Err(error) => Err(error),
        }
    } else {
        write_part(memory, kernel, BootError::WriteKernel)
    }
}

/// Refuses a kernel that is not an EFI application.
pub fn check_kernel(kernel: &[u8]) -> (result: Result<(), BootError>)
    requires
        subsystem_in_bounds(kernel@),
    ensures
        result == (if is_efi_app(kernel@) {
            Ok::<(), BootError>(())
        } else {
            Err::<(), BootError>(BootError::NotEfiApp)
        }),
{
    if is_peimage(kernel) {
        Ok(())
    } else {
        Err(BootError::NotEfiApp)
    }
}

/// The bytes of the command line: the field in the header up to its first zero byte.
pub open spec fn command_line_bytes(payload: Seq<u8>) -> Seq<u8> {
    until_zero(payload.subrange(CMDLINE as int, CMDLINE_END as int))
}

/// The command line of a version 2 image, if it is valid UTF-8.
pub fn command_line(payload: &[u8]) -> (text: Option<&str>)
    requires
        payload@.len() >= CMDLINE_END,
    ensures
        text is Some <==> valid_utf8(command_line_bytes(payload@)),
        text matches Some(t) ==> {
            &&& t@ == decode_utf8(command_line_bytes(payload@))
            &&& encode_utf8(t@) == command_line_bytes(payload@)
            &&& encode_utf8(t@).len() <= CMDLINE_END - CMDLINE
        },
{
    let field: &[u8] = slice_subrange(payload, CMDLINE, CMDLINE_END);
    let end: usize = find_zero(field, 0);
    proof {
        if valid_utf8(command_line_bytes(payload@)) {
            decode_utf8_encode_utf8(command_line_bytes(payload@));
        }
    }
    text_from_utf8(slice_subrange(field, 0, end))
}

/// How many bytes of memory the command line takes as null-terminated UCS-2 text.
pub fn command_line_memory_size(cmdline: &str) -> (size: usize)
    requires
        encode_utf8(cmdline@).len() <= CMDLINE_END - CMDLINE,
    ensures
        size == (encode_utf8(cmdline@).len() + 1) * 2,
{
    (cmdline.as_bytes().len() + 1) * 2
}

/// How many bytes of the command line the kernel is told to take as its load options.
pub fn load_options_size(cmdline: &str) -> (size: u32)
    requires
        encode_utf8(cmdline@).len() <= CMDLINE_END - CMDLINE,
    ensures
        size == encode_utf8(cmdline@).len() * 2,
{
    (cmdline.as_bytes().len() as u32) * 2
}

/// Writes the command line to `buffer` as null-terminated UCS-2 text.
///
/// A buffer with one unit for each byte of the command line, and one more, is never too small.
pub fn encode_command_line(cmdline: &str, buffer: &mut [u16]) -> (result: Result<(), Ucs2Error>)
    ensures
        final(buffer)@.len() == old(buffer)@.len(),
        result == ucs2_result(cmdline@, old(buffer)@.len()),
        result is Ok ==> final(buffer)@ == ucs2_units(cmdline@) + old(buffer)@.skip(
            cmdline@.len() as int + 1,
        ),
        old(buffer)@.len() > encode_utf8(cmdline@).len() ==> result != Err::<(), Ucs2Error>(
            Ucs2Error::BufferTooSmall,
        ),
{
    proof {
        lemma_utf16_no_longer_than_utf8(cmdline@);
    }
    cstr16_from_str(cmdline, buffer)
}

/// A text with a null character has a zero byte in UTF-8.
proof fn lemma_nul_is_zero_byte(text: Seq<char>, i: int)
    requires
        0 <= i < text.len(),
        text[i] as int == 0,
    ensures
        encode_utf8(text).contains(0u8),
{
    let before = text.take(i);
    let nul = text.subrange(i, i + 1);
    let after = text.skip(i + 1);
    lemma_encode_concat(before, nul + after);
    lemma_encode_concat(nul, after);
    assert(text =~= before + (nul + after));
    assert(is_ascii_chars(nul));
    is_ascii_chars_encode_utf8(nul);
    let at = encode_utf8(before).len() as int;
    assert(nul[0] as u8 == encode_utf8(nul)[0]);
    assert(encode_utf8(text)[at] == 0u8);
}

/// The command line of a version 2 image is refused for the first character that does not fit in
/// 16 bits and for nothing else, in a buffer with one unit for each of its bytes and one more.
pub proof fn law_command_line_fits_its_buffer(payload: Seq<u8>)
    requires
        payload.len() >= CMDLINE_END,
        valid_utf8(command_line_bytes(payload)),
    ensures
        ({
            let text = decode_utf8(command_line_bytes(payload));
            let unfit = first_unfit(text);
            let result = ucs2_result(text, command_line_bytes(payload).len() + 1);
            if unfit == text.len() {
                result is Ok
            } else {
                &&& text[unfit] as int >= 0x1_0000
                &&& result == Err::<(), Ucs2Error>(Ucs2Error::InvalidChar(unfit as usize))
            }
        }),
{
    let field = payload.subrange(CMDLINE as int, CMDLINE_END as int);
    let bytes = command_line_bytes(payload);
    let text = decode_utf8(bytes);
    decode_utf8_encode_utf8(bytes);
    lemma_utf16_no_longer_than_utf8(text);
    lemma_first_unfit(text);
    let unfit = first_unfit(text);
    if unfit < text.len() {
        lemma_unfit_char(text[unfit]);
    }
    if unfit < text.len() && text[unfit] as int == 0 {
        lemma_nul_is_zero_byte(text, unfit);
        lemma_zero_from(field, 0);
        let i = choose|i: int| 0 <= i < bytes.len() && bytes[i] == 0u8;
        assert(field[i] == 0u8);
    }
}

/// The header fields that the format of boot images fixes.
pub proof fn law_header_fields_stand_in_their_places()
    ensures
        KERNEL_SIZE == 8,
        RAMDISK_SIZE == 16,
        SECOND_SIZE == 24,
        PAGE_SIZE == 36,
        HEADER_VERSION == 40,
        COMMON_HEADER_END == 44,
        CMDLINE == 64,
        CMDLINE_END == 576,
        V0_HEADER_SIZE == 608,
        HEADER_SIZE == 1644,
        DTB_SIZE == 1648,
        V2_HEADER_END == 1652,
        UNPACKED_KERNEL_SIZE == 128 * 1024 * 1024,
{
}

/// A payload is a boot image of a version exactly if it begins with "ANDROID!" and the number at 40
/// is the version, whatever else it holds.
pub proof fn law_bootimg_is_told_by_magic_and_version(payload: Seq<u8>, version: int)
    ensures
        has_bootimg_header(payload, version) <==> {
            &&& payload.len() >= 44
            &&& payload[0] == 0x41
            &&& payload[1] == 0x4e
            &&& payload[2] == 0x44
            &&& payload[3] == 0x52
            &&& payload[4] == 0x4f
            &&& payload[5] == 0x49
            &&& payload[6] == 0x44
            &&& payload[7] == 0x21
            &&& u32_at(payload, 40) == version
        },
{
    let magic = boot_magic();
    assert(magic.len() == 8);
    assert(magic[0] == 0x41 && magic[1] == 0x4e && magic[2] == 0x44 && magic[3] == 0x52);
    assert(magic[4] == 0x4f && magic[5] == 0x49 && magic[6] == 0x44 && magic[7] == 0x21);
    if payload.len() >= 44 {
        let start = payload.take(8);
        assert(forall|i: int| 0 <= i < 8 ==> #[trigger] start[i] == payload[i]);
        assert(start[0] == payload[0] && start[1] == payload[1] && start[2] == payload[2]);
        assert(start[3] == payload[3] && start[4] == payload[4] && start[5] == payload[5]);
        assert(start[6] == payload[6] && start[7] == payload[7]);
        if payload[0] == 0x41 && payload[1] == 0x4e && payload[2] == 0x44 && payload[3] == 0x52
            && payload[4] == 0x4f && payload[5] == 0x49 && payload[6] == 0x44 && payload[7]
            == 0x21 {
            assert(magic =~= start);
        }
    }
}

/// A part lies inside the payload exactly if it ends there, and its bytes are those of the payload
/// from its offset on.
pub proof fn law_part_is_cut_out_of_the_payload(part: Extent, payload: Seq<u8>)
    ensures
        part.is_in(payload) <==> part.offset + part.size <= payload.len(),
        part.is_in(payload) ==> part.bytes_in(payload).len() == part.size && forall|i: int|
            0 <= i < part.size ==> #[trigger] part.bytes_in(payload)[i] == payload[part.offset + i],
{
}

/// An aligned offset has no bit of the page size less one, and what was cut off the sum of the
/// offset and that number are only such bits. This holds of any page size.
pub proof fn law_page_aligned_clears_the_low_bits(offset: int, page_size: int)
    requires
        0 <= offset,
        0 < page_size <= u32::MAX,
        offset + page_size - 1 <= u64::MAX,
    ensures
        ({
            let mask = (page_size - 1) as u64;
            let sum = (offset + page_size - 1) as u64;
            let aligned = page_aligned(offset, page_size) as u64;
            &&& page_aligned(offset, page_size) == aligned
            &&& aligned & mask == 0
            &&& aligned | (sum & mask) == sum
        }),
{
    let mask = (page_size - 1) as u64;
    let sum = (offset + page_size - 1) as u64;
    assert((sum & !mask) & mask == 0) by (bit_vector);
    assert((sum & !mask) | (sum & mask) == sum) by (bit_vector);
}

/// Headers can be read if they are long enough for the fields that are looked at, and have a page
/// size where their version asks for it.
pub proof fn law_headers_need_their_fields_and_a_page_size(payload: Seq<u8>)
    ensures
        v0_header_in_bounds(payload) <==> payload.len() >= 44 && (u32_at(payload, 40) == 0
            ==> u32_at(payload, 36) != 0),
        v2_header_in_bounds(payload) <==> payload.len() >= 1652 && (u32_at(payload, 40) == 2
            ==> u32_at(payload, 36) != 0),
        announces_dtb(payload) <==> u32_at(payload, 1648) != 0,
{
}

/// The kernel of a version 0 image stands on the page behind a header of 608 bytes: for a page size
/// that is a power of two, on the first multiple of it that is not inside the header.
pub proof fn law_v0_kernel_stands_on_a_page(payload: Seq<u8>)
    requires
        u32_at(payload, 36) != 0,
    ensures
        v0_kernel_offset(payload) == page_aligned(608, u32_at(payload, 36)),
        608 <= v0_kernel_offset(payload) < 608 + u32_at(payload, 36),
        is_pow2(u32_at(payload, 36)) ==> v0_kernel_offset(payload) % u32_at(payload, 36) == 0,
        is_pow2(u32_at(payload, 36)) ==> forall|multiple: int|
            608 <= multiple && #[trigger] (multiple % u32_at(payload, 36)) == 0
                ==> v0_kernel_offset(payload) <= multiple,
{
    let page_size = u32_at(payload, 36);
    lemma_page_aligned_bounds(608, page_size);
    if is_pow2(page_size) {
        law_page_aligned_is_least_multiple(608, page_size);
    }
}

/// The parts of a version 2 image stand each on the page behind the one before, beginning behind
/// the header: the kernel, the ramdisk, the second-stage loader and the device tree, with the sizes
/// that the header holds at 8, 16 and 24. For a page size that is a power of two, each offset is
/// the first multiple of it behind the part before.
pub proof fn law_v2_parts_are_where_the_header_says(payload: Seq<u8>)
    requires
        u32_at(payload, 36) != 0,
    ensures
        ({
            let page_size = u32_at(payload, 36);
            let kernel = v2_kernel_offset(payload);
            let ramdisk = v2_ramdisk_offset(payload);
            let second = v2_second_offset(payload);
            let dtb = v2_dtb_offset(payload);
            &&& kernel == page_aligned(u32_at(payload, 1644), page_size)
            &&& ramdisk == page_aligned(kernel + u32_at(payload, 8), page_size)
            &&& second == page_aligned(ramdisk + u32_at(payload, 16), page_size)
            &&& dtb == page_aligned(second + u32_at(payload, 24), page_size)
            &&& u32_at(payload, 1644) <= kernel < u32_at(payload, 1644) + page_size
            &&& kernel + u32_at(payload, 8) <= ramdisk < kernel + u32_at(payload, 8) + page_size
            &&& ramdisk + u32_at(payload, 16) <= second < ramdisk + u32_at(payload, 16) + page_size
            &&& second + u32_at(payload, 24) <= dtb < second + u32_at(payload, 24) + page_size
            &&& is_pow2(page_size) ==> {
                &&& kernel % page_size == 0
                &&& ramdisk % page_size == 0
                &&& second % page_size == 0
                &&& dtb % page_size == 0
            }
        }),
{
    let page_size = u32_at(payload, 36);
    let kernel = v2_kernel_offset(payload);
    let ramdisk = v2_ramdisk_offset(payload);
    let second = v2_second_offset(payload);
    lemma_page_aligned_bounds(u32_at(payload, 1644), page_size);
    lemma_page_aligned_bounds(kernel + u32_at(payload, 8), page_size);
    lemma_page_aligned_bounds(ramdisk + u32_at(payload, 16), page_size);
    lemma_page_aligned_bounds(second + u32_at(payload, 24), page_size);
    if is_pow2(page_size) {
        law_page_aligned_is_least_multiple(u32_at(payload, 1644), page_size);
        law_page_aligned_is_least_multiple(kernel + u32_at(payload, 8), page_size);
        law_page_aligned_is_least_multiple(ramdisk + u32_at(payload, 16), page_size);
        law_page_aligned_is_least_multiple(second + u32_at(payload, 24), page_size);
    }
}

/// A layout is that of an image exactly if each part has the offset that follows from the header
/// and the size that stands in it.
pub proof fn law_layout_holds_the_sizes_of_the_header(payload: Seq<u8>, layout: BootLayout)
    ensures
        is_v0_layout(payload, layout) <==> {
            &&& layout.kernel.offset == v0_kernel_offset(payload)
            &&& layout.kernel.size == u32_at(payload, 8)
            &&& layout.ramdisk.size == 0
            &&& layout.dtb.size == 0
        },
        is_v2_layout(payload, layout) <==> {
            &&& layout.kernel.offset == v2_kernel_offset(payload)
            &&& layout.kernel.size == u32_at(payload, 8)
            &&& layout.ramdisk.offset == v2_ramdisk_offset(payload)
            &&& layout.ramdisk.size == u32_at(payload, 16)
            &&& layout.dtb.offset == v2_dtb_offset(payload)
            &&& layout.dtb.size == u32_at(payload, 1648)
        },
{
}

/// A part is written whole where there is room for it, and refused with nothing written otherwise.
pub proof fn law_part_is_written_whole_or_refused(
    before: BufferView,
    data: Seq<u8>,
    refused: BootError,
)
    ensures
        ({
            let (after, result) = write_outcome(before, data, refused);
            if before.offset + data.len() <= before.len {
                result is Ok && after == before.written(data)
            } else {
                result == Err::<(), BootError>(refused) && after == before
            }
        }),
{
}

/// A kernel that does not begin with the two bytes of gzip is written as it is. Any other is
/// unpacked: the memory then begins with what the inflater makes of the compressed data, and
/// exactly that is in use.
pub proof fn law_kernel_is_written_or_unpacked(
    kernel: Seq<u8>,
    before: BufferView,
    after: BufferView,
    result: Result<(), BootError>,
)
    requires
        before.wf(),
        after.wf(),
        is_unpacking(kernel, before, after, result),
    ensures
        if kernel.len() >= 3 && kernel[0] == 0x1f && kernel[1] == 0x8b {
            match inflated(deflate_of(kernel).unwrap(), before.memory.take(before.len as int)) {
                Some(text) => result is Ok && after.memory.take(after.len as int) == text,
                None => result == Err::<(), BootError>(BootError::DecompressKernel),
            }
        } else if before.offset + kernel.len() <= before.len {
            result is Ok && after == before.written(kernel)
        } else {
            result == Err::<(), BootError>(BootError::WriteKernel) && after == before
        },
{
}

/// A kernel can be read unless it begins with the two bytes of gzip and is no gzip file.
pub proof fn law_kernel_is_readable_unless_its_gzip_file_is_not(kernel: Seq<u8>)
    ensures
        kernel_in_bounds(kernel) <==> (kernel.len() >= 3 && kernel[0] == 0x1f && kernel[1] == 0x8b
            ==> gzip_in_bounds(kernel) && deflate_of(kernel) is Some),
{
}

/// The command line is what stands in the bytes 64 to 576 before the first zero byte, whole: it has
/// no zero byte, and is followed by one or by the end of the field.
pub proof fn law_command_line_ends_at_its_zero(payload: Seq<u8>)
    requires
        payload.len() >= 576,
    ensures
        ({
            let text = command_line_bytes(payload);
            &&& text.len() <= 512
            &&& text == payload.subrange(64, 64int + text.len())
            &&& forall|i: int| 0 <= i < text.len() ==> #[trigger] text[i] != 0
            &&& text.len() == 512 || payload[64int + text.len()] == 0
        }),
{
    let field = payload.subrange(64, 576);
    lemma_zero_from(field, 0);
    let text = command_line_bytes(payload);
    assert(text =~= payload.subrange(64, 64int + text.len()));
    if text.len() < 512 {
        assert(field[text.len() as int] == payload[64int + text.len()]);
    }
}

/// A command line that was written to the field is read back whole, whatever follows its zero byte.
pub proof fn law_command_line_is_read_back(payload: Seq<u8>, text: Seq<u8>)
    requires
        payload.len() >= 576,
        text.len() <= 512,
        !text.contains(0u8),
        payload.subrange(64, 64int + text.len()) == text,
        text.len() == 512 || payload[64int + text.len()] == 0,
    ensures
        command_line_bytes(payload) == text,
{
    let field = payload.subrange(64, 576);
    let rest = payload.subrange(64int + text.len(), 576);
    assert(field =~= text + rest);
    law_text_ends_at_its_zero(text, rest);
}

} // verus!
