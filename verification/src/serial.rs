//! The serial number under which the device shows itself.

use vstd::arithmetic::power::pow;
use vstd::prelude::*;
use vstd::slice::slice_subrange;

use crate::bytes::{read_u32, u32_at};
use crate::text::{format_hex, hex_number, hex_text, law_hex_is_read_back, padded_hex};
use crate::ucs2::{
    all_ucs2, cstr16_from_str, is_ucs2, lemma_first_unfit, lemma_utf16_len_of_ucs2, ucs2_units,
};

verus! {

/// The serial number of a device whose memory card tells none.
pub const DEFAULT_SERIAL: u32 = 0xdead_cafe;

/// Where the serial number comes from.
pub enum SerialSource<'a> {
    /// The CRC-32 of these bytes.
    Checksum(&'a [u8]),
    /// This number.
    Number(u32),
}

/// The card type names UFS storage.
pub open spec fn is_ufs(card_type: Seq<u8>) -> bool {
    card_type.take(3) == seq!['U' as u8, 'F' as u8, 'S' as u8]
}

/// The card's serial number is there as far as it is looked at.
pub open spec fn card_in_bounds(
    card_type: Seq<u8>,
    serial_number: Seq<u8>,
    serial_number_len: nat,
) -> bool {
    &&& card_type.len() >= 3
    &&& if is_ufs(card_type) {
        serial_number_len <= serial_number.len()
    } else {
        serial_number.len() >= 4
    }
}

/// Tells whether the card type names UFS storage.
fn names_ufs(card_type: &[u8]) -> (yes: bool)
    requires
        card_type@.len() >= 3,
    ensures
        yes == is_ufs(card_type@),
{
    let ghost name = card_type@.take(3);
    let yes: bool = card_type[0] == 'U' as u8 && card_type[1] == 'F' as u8 && card_type[2]
        == 'S' as u8;
    proof {
        assert(name[0] == card_type@[0] && name[1] == card_type@[1] && name[2] == card_type@[2]);
        if yes {
            assert(name =~= seq!['U' as u8, 'F' as u8, 'S' as u8]);
        }
    }
    yes
}

/// Tells whether [`serial_source`] can read what the card tells.
pub fn card_parts_in_bounds(
    card_type: &[u8],
    serial_number: &[u8],
    serial_number_len: usize,
) -> (yes: bool)
    ensures
        yes == card_in_bounds(card_type@, serial_number@, serial_number_len as nat),
{
    if card_type.len() < 3 {
        false
    } else if names_ufs(card_type) {
        serial_number_len <= serial_number.len()
    } else {
        serial_number.len() >= 4
    }
}

/// Chooses where the serial number comes from: the checksum of the card's serial number on UFS
/// storage, the number in its first four bytes on any other card.
pub fn serial_source<'a>(
    card_type: &[u8],
    serial_number: &'a [u8],
    serial_number_len: usize,
) -> (source: SerialSource<'a>)
    requires
        card_in_bounds(card_type@, serial_number@, serial_number_len as nat),
    ensures
        match source {
            SerialSource::Checksum(bytes) => is_ufs(card_type@) && bytes@ == serial_number@.take(
                serial_number_len as int,
            ),
            SerialSource::Number(number) => !is_ufs(card_type@) && number == u32_at(
                serial_number@,
                0,
            ),
        },
{
    if names_ufs(card_type) {
        SerialSource::Checksum(slice_subrange(serial_number, 0, serial_number_len))
    } else {
        SerialSource::Number(read_u32(serial_number, 0))
    }
}

/// A number below a power of sixteen has no more digits than the power.
proof fn lemma_hex_text_len(n: nat, count: nat)
    requires
        count > 0,
        n < pow(16, count),
    ensures
        hex_text(n).len() <= count,
    decreases count,
{
    reveal(pow);
    if n >= 16 {
        let p = pow(16, (count - 1) as nat);
        assert(pow(16, count) == 16 * p);
        assert(n / 16 < p);
        if count == 1 {
            assert(pow(16, 0) == 1);
        }
        lemma_hex_text_len(n / 16, (count - 1) as nat);
    }
}

/// Hexadecimal digits are fit for UCS-2.
proof fn lemma_hex_text_is_ucs2(n: nat)
    ensures
        all_ucs2(hex_text(n)),
    decreases n,
{
    let text = hex_text(n);
    if n >= 16 {
        lemma_hex_text_is_ucs2(n / 16);
        assert forall|i: int| 0 <= i < text.len() implies is_ucs2(#[trigger] text[i]) by {
            if i < text.len() - 1 {
                assert(hex_text(n / 16)[i] == text[i]);
            }
        }
    }
}

/// The serial number as null-terminated UCS-2 text: eight hexadecimal digits.
pub fn generate_serial_number(serial: Option<u32>) -> (units: Vec<u16>)
    ensures
        units@ == ucs2_units(
            padded_hex(
                (match serial {
                    Some(number) => number,
                    None => DEFAULT_SERIAL,
                }) as nat,
                8,
            ),
        ),
        units@.len() == 9,
{
    let number: u32 = match serial {
        Some(number) => number,
        None => DEFAULT_SERIAL,
    };
    let text: String = format_hex(number as u64, 8);
    let mut units: Vec<u16> = vec![0u16; 9];
    proof {
        let digits = hex_text(number as nat);
        assert(pow(16, 8) == 0x1_0000_0000) by {
            reveal_with_fuel(pow, 9);
        }
        lemma_hex_text_len(number as nat, 8);
        lemma_hex_text_is_ucs2(number as nat);
        assert(text@.len() == 8);
        assert forall|i: int| 0 <= i < 8 implies is_ucs2(#[trigger] text@[i]) by {
            if i >= 8 - digits.len() {
                assert(text@[i] == digits[i - (8 - digits.len())]);
            }
        }
        lemma_first_unfit(text@);
        lemma_utf16_len_of_ucs2(text@);
    }
    let _ = cstr16_from_str(text.as_str(), units.as_mut_slice());
    proof {
        assert(units@ =~= ucs2_units(text@));
    }
    units
}

/// A card is UFS storage exactly if its type begins with these three letters, whatever follows, and
/// its serial number can be read exactly if as many bytes are there as are looked at.
pub proof fn law_card_is_told_by_three_letters(
    card_type: Seq<u8>,
    serial_number: Seq<u8>,
    serial_number_len: nat,
)
    requires
        card_type.len() >= 3,
    ensures
        is_ufs(card_type) <==> card_type[0] == 0x55 && card_type[1] == 0x46 && card_type[2] == 0x53,
        card_in_bounds(card_type, serial_number, serial_number_len) <==> if card_type[0] == 0x55
            && card_type[1] == 0x46 && card_type[2] == 0x53 {
            serial_number_len <= serial_number.len()
        } else {
            serial_number.len() >= 4
        },
{
    let name = card_type.take(3);
    let ufs = seq!['U' as u8, 'F' as u8, 'S' as u8];
    assert(name[0] == card_type[0] && name[1] == card_type[1] && name[2] == card_type[2]);
    assert(ufs[0] == 0x55 && ufs[1] == 0x46 && ufs[2] == 0x53);
    if card_type[0] == 0x55 && card_type[1] == 0x46 && card_type[2] == 0x53 {
        assert(name =~= ufs);
    }
}

/// The serial number has eight digits, and they stand for the number.
pub proof fn law_serial_is_read_back(number: u32)
    ensures
        padded_hex(number as nat, 8).len() == 8,
        hex_number(padded_hex(number as nat, 8)) == Some(number as nat),
        DEFAULT_SERIAL == 0xdead_cafe,
{
    law_hex_is_read_back(number as nat, 8);
    assert(pow(16, 8) == 0x1_0000_0000) by {
        reveal_with_fuel(pow, 9);
    }
    lemma_hex_text_len(number as nat, 8);
}

} // verus!
