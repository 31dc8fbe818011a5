//! Recognising EFI applications (PE32+ images).

use vstd::prelude::*;

use crate::bytes::{read_u16, read_u32, u16_at, u32_at};

verus! {

/// Where the DOS header keeps the offset of the PE header.
pub const PE_OFFSET: usize = 0x3c;

/// The COFF machine number of 64-bit ARM.
pub const PE_ARM64: u16 = 0xaa64;

/// The optional-header magic of a PE32+ image.
pub const PE_PLUS: u16 = 0x020b;

/// The optional-header subsystem of an EFI application.
pub const PE_SUBSYSTEM_EFI_APP: u16 = 10;

/// The smallest optional header that is accepted.
pub const PE_MIN_OPT_HDR_SIZE: u16 = 88;

/// How many bytes have to follow the PE magic before the optional header is looked at.
pub const PE_MIN_COFF_SIZE: usize = 70;

/// Where the subsystem ends, counted from the COFF header.
pub const PE_SUBSYSTEM_END: usize = 90;

/// The offset of the COFF header: the one of the PE header, past its four magic bytes.
pub open spec fn coff_offset(payload: Seq<u8>) -> int {
    u32_at(payload, PE_OFFSET as int) + 4
}

/// The payload has a DOS header and a PE header, far enough to hold the machine number.
pub open spec fn has_pe_header(payload: Seq<u8>) -> bool {
    &&& payload.len() >= PE_OFFSET + 4
    &&& payload[0] == 'M' as u8
    &&& payload[1] == 'Z' as u8
    &&& coff_offset(payload) + 2 <= payload.len()
    &&& payload.subrange(coff_offset(payload) - 4, coff_offset(payload)) == seq![
        'P' as u8,
        'E' as u8,
        0u8,
        0u8,
    ]
}

/// The machine number of a payload that has a PE header.
pub open spec fn machine_of(payload: Seq<u8>) -> Option<u16> {
    if has_pe_header(payload) {
        Some(u16_at(payload, coff_offset(payload)) as u16)
    } else {
        None
    }
}

/// The payload is an ARM64 PE32+ image as far as everything before the subsystem tells.
pub open spec fn is_arm64_pe_plus(payload: Seq<u8>) -> bool {
    let coff = coff_offset(payload);
    &&& machine_of(payload) == Some(PE_ARM64)
    &&& coff + PE_MIN_COFF_SIZE <= payload.len()
    &&& u16_at(payload, coff + 16) >= PE_MIN_OPT_HDR_SIZE
    &&& u16_at(payload, coff + 20) == PE_PLUS
}

/// The payload does not end between the headers and the subsystem that they announce.
pub open spec fn subsystem_in_bounds(payload: Seq<u8>) -> bool {
    is_arm64_pe_plus(payload) ==> coff_offset(payload) + PE_SUBSYSTEM_END <= payload.len()
}

/// The payload is an EFI application for ARM64.
pub open spec fn is_efi_app(payload: Seq<u8>) -> bool {
    &&& is_arm64_pe_plus(payload)
    &&& u16_at(payload, coff_offset(payload) + 88) == PE_SUBSYSTEM_EFI_APP
}

/// The machine number that an EFI application needs to have.
pub fn expected_pe_machine() -> (machine: u16)
    ensures
        machine == PE_ARM64,
{
    PE_ARM64
}

/// The machine number in the PE header, if the payload has one.
pub fn pe_machine(payload: &[u8]) -> (machine: Option<u16>)
    ensures
        machine == machine_of(payload@),
{
    if payload.len() < PE_OFFSET + 4 || payload[0] != 'M' as u8 || payload[1] != 'Z' as u8 {
        return None;
    }
    let pe_offset: u32 = read_u32(payload, PE_OFFSET);
    if payload.len() < 6 || pe_offset as u64 > (payload.len() - 6) as u64 {
        return None;
    }
    let pe: usize = pe_offset as usize;
    let ghost magic = seq!['P' as u8, 'E' as u8, 0u8, 0u8];
    let ghost found = payload@.subrange(pe as int, pe + 4);
    if payload[pe] != 'P' as u8 || payload[pe + 1] != 'E' as u8 || payload[pe + 2] != 0
        || payload[pe + 3] != 0 {
        proof {
            assert(found[0] == payload@[pe as int]);
            assert(found[1] == payload@[pe + 1]);
            assert(found[2] == payload@[pe + 2]);
            assert(found[3] == payload@[pe + 3]);
            assert(found != magic);
        }
        return None;
    }
    proof {
        assert(found =~= magic);
    }
    Some(read_u16(payload, pe + 4))
}

/// Tells whether [`is_peimage`] can read every field that it looks at.
pub fn pe_subsystem_in_bounds(payload: &[u8]) -> (yes: bool)
    ensures
        yes == subsystem_in_bounds(payload@),
{
    match arm64_pe_plus_coff(payload) {
        Some(coff) => payload.len() - coff >= PE_SUBSYSTEM_END,
        None => true,
    }
}

/// The offset of the COFF header of an ARM64 PE32+ image.
fn arm64_pe_plus_coff(payload: &[u8]) -> (coff: Option<usize>)
    ensures
        coff is Some <==> is_arm64_pe_plus(payload@),
        coff matches Some(at) ==> at == coff_offset(payload@),
{
    match pe_machine(payload) {
        Some(machine) => {
            if machine != PE_ARM64 {
                return None;
            }
        },
        None => {
            return None;
        },
    }
    assert(payload@.len() == payload.len());
    let coff: usize = read_u32(payload, PE_OFFSET) as usize + 4;
    if payload.len() - coff < PE_MIN_COFF_SIZE {
        return None;
    }
    if read_u16(payload, coff + 16) < PE_MIN_OPT_HDR_SIZE {
        return None;
    }
    if read_u16(payload, coff + 20) != PE_PLUS {
        return None;
    }
    Some(coff)
}

/// Tells whether the payload is an EFI application for the expected machine.
///
/// The payload must not end between its headers and the subsystem; [`pe_subsystem_in_bounds`]
/// tests this.
pub fn is_peimage(payload: &[u8]) -> (yes: bool)
    requires
        subsystem_in_bounds(payload@),
    ensures
        yes == is_efi_app(payload@),
{
    assert(payload@.len() == payload.len());
    match arm64_pe_plus_coff(payload) {
        Some(coff) => read_u16(payload, coff + 88) == PE_SUBSYSTEM_EFI_APP,
        None => false,
    }
}

/// An EFI application has a PE header with the expected machine number.
pub proof fn law_efi_app_has_expected_machine(payload: Seq<u8>)
    ensures
        is_efi_app(payload) ==> machine_of(payload) == Some(PE_ARM64),
{
}

/// The machine number is told exactly if "MZ" stands at the start, and "PE" with two zero bytes
/// where the number at 0x3c points; it is the number behind them, whatever else the payload holds.
pub proof fn law_machine_is_told_by_its_header(payload: Seq<u8>)
    ensures
        ({
            let pe = u32_at(payload, 0x3c);
            let machine = machine_of(payload);
            &&& machine is Some <==> {
                &&& payload.len() >= 0x40
                &&& payload[0] == 0x4d
                &&& payload[1] == 0x5a
                &&& payload.len() >= pe + 6
                &&& payload[pe] == 0x50
                &&& payload[pe + 1] == 0x45
                &&& payload[pe + 2] == 0
                &&& payload[pe + 3] == 0
            }
            &&& machine matches Some(number) ==> number as int == u16_at(payload, pe + 4)
        }),
{
    let pe = u32_at(payload, PE_OFFSET as int);
    if payload.len() >= PE_OFFSET + 4 && payload.len() >= pe + 6 {
        let found = payload.subrange(pe, pe + 4);
        let magic = seq!['P' as u8, 'E' as u8, 0u8, 0u8];
        assert(found[0] == payload[pe] && found[1] == payload[pe + 1]);
        assert(found[2] == payload[pe + 2] && found[3] == payload[pe + 3]);
        if payload[pe] == 0x50 && payload[pe + 1] == 0x45 && payload[pe + 2] == 0 && payload[pe + 3]
            == 0 {
            assert(found =~= magic);
        }
        if found == magic {
            assert(magic[0] == 0x50 && magic[1] == 0x45 && magic[2] == 0 && magic[3] == 0);
        }
    }
}

/// A payload is an EFI application exactly if its PE header names ARM64, an optional header of at
/// least 88 bytes, PE32+ and the EFI application subsystem, whatever its other fields hold. It has
/// to reach up to the subsystem, and a payload that ends before it is refused, or cannot be judged
/// if everything before the subsystem fits.
pub proof fn law_efi_app_is_told_by_its_fields(payload: Seq<u8>)
    ensures
        ({
            let pe = u32_at(payload, 0x3c);
            let is_pe_plus = {
                &&& machine_of(payload) == Some(0xaa64u16)
                &&& payload.len() >= pe + 74
                &&& u16_at(payload, pe + 20) >= 88
                &&& u16_at(payload, pe + 24) == 0x020b
            };
            &&& is_efi_app(payload) <==> is_pe_plus && u16_at(payload, pe + 92) == 10
            &&& subsystem_in_bounds(payload) <==> !is_pe_plus || payload.len() >= pe + 94
        }),
{
}

} // verus!
