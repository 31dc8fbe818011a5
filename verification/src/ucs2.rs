//! UCS-2 text, as the firmware takes it.

use uefi::data_types::FromStrWithBufError;
use vstd::prelude::*;
use vstd::utf8::{char_is_scalar, encode_scalar, encode_utf8};

verus! {

/// Why a text cannot be written in UCS-2.
#[derive(Clone, Copy, Debug, PartialEq, Eq, Structural)]
pub enum Ucs2Error {
    /// The character at this index needs more than 16 bits.
    InvalidChar(usize),
    /// The character at this index is a null character.
    InteriorNul(usize),
    /// The buffer does not hold the text and the null character behind it.
    BufferTooSmall,
}

/// The character stands for itself in a null-terminated UCS-2 text.
pub open spec fn is_ucs2(c: char) -> bool {
    0 < c as int && (c as int) < 0x1_0000
}

/// All characters can stand in a null-terminated UCS-2 text.
pub open spec fn all_ucs2(text: Seq<char>) -> bool {
    forall|i: int| 0 <= i < text.len() ==> is_ucs2(#[trigger] text[i])
}

/// The index of the first character that cannot stand in a UCS-2 text; the length if all can.
pub open spec fn first_unfit(text: Seq<char>) -> int
    decreases text.len(),
{
    if text.len() == 0 || !is_ucs2(text[0]) {
        0
    } else {
        1 + first_unfit(text.drop_first())
    }
}

/// How many 16-bit units a text takes in UTF-16.
pub open spec fn utf16_len(text: Seq<char>) -> nat
    decreases text.len(),
{
    if text.len() == 0 {
        0
    } else {
        (if text[0] as int >= 0x1_0000 {
            2nat
        } else {
            1nat
        }) + utf16_len(text.drop_first())
    }
}

/// The units of a text of UCS-2 characters, with the null character behind them.
pub open spec fn ucs2_units(text: Seq<char>) -> Seq<u16> {
    Seq::new(text.len(), |i: int| text[i] as u16).push(0u16)
}

/// What writing a text to a buffer of `room` units comes to.
pub open spec fn ucs2_result(text: Seq<char>, room: nat) -> Result<(), Ucs2Error> {
    let unfit = first_unfit(text);
    if utf16_len(text) >= room {
        Err(Ucs2Error::BufferTooSmall)
    } else if unfit == text.len() {
        Ok(())
    } else if text[unfit] as int == 0 {
        Err(Ucs2Error::InteriorNul(unfit as usize))
    } else {
        Err(Ucs2Error::InvalidChar(unfit as usize))
    }
}

/// Calls `uefi::CStr16::from_str_with_buf`.
///
/// Trusted: the text and a null character behind it have to fit the buffer, counted in UTF-16
/// units; then the first null character or the first character past 16 bits is reported with its
/// index; a text without such characters is written to the start of the buffer, one unit for each
/// character and a null unit at the end, and the rest of the buffer stays as it was. Nothing is
/// said of what the buffer holds after an error.
#[verifier::external_body]
pub(crate) fn cstr16_from_str(text: &str, buffer: &mut [u16]) -> (result: Result<(), Ucs2Error>)
    ensures
        final(buffer)@.len() == old(buffer)@.len(),
        result == ucs2_result(text@, old(buffer)@.len()),
        result is Ok ==> final(buffer)@ == ucs2_units(text@) + old(buffer)@.skip(
            text@.len() as int + 1,
        ),
{
    match uefi::CStr16::from_str_with_buf(text, buffer) {
        Ok(_) => Ok(()),
        Err(FromStrWithBufError::InvalidChar(at)) => Err(Ucs2Error::InvalidChar(at)),
        Err(FromStrWithBufError::InteriorNul(at)) => Err(Ucs2Error::InteriorNul(at)),
        Err(FromStrWithBufError::BufferTooSmall) => Err(Ucs2Error::BufferTooSmall),
    }
}

/// A character is unfit because it is null or because it needs more than 16 bits.
pub proof fn lemma_unfit_char(c: char)
    ensures
        !is_ucs2(c) ==> c as int == 0 || c as int >= 0x1_0000,
{
}

/// The search for an unfit character passes fit characters only.
pub proof fn lemma_first_unfit(text: Seq<char>)
    ensures
        0 <= first_unfit(text) <= text.len(),
        forall|i: int| 0 <= i < first_unfit(text) ==> is_ucs2(#[trigger] text[i]),
        first_unfit(text) < text.len() ==> !is_ucs2(text[first_unfit(text)]),
        first_unfit(text) == text.len() <==> all_ucs2(text),
    decreases text.len(),
{
    if text.len() > 0 && is_ucs2(text[0]) {
        let rest = text.drop_first();
        lemma_first_unfit(rest);
        assert forall|i: int| 0 <= i < first_unfit(text) implies is_ucs2(#[trigger] text[i]) by {
            if i > 0 {
                assert(rest[i - 1] == text[i]);
            }
        }
        if all_ucs2(text) {
            assert forall|i: int| 0 <= i < rest.len() implies is_ucs2(#[trigger] rest[i]) by {
                assert(rest[i] == text[i + 1]);
            }
        }
    }
}

/// A text of UCS-2 characters takes one UTF-16 unit for each.
pub proof fn lemma_utf16_len_of_ucs2(text: Seq<char>)
    requires
        all_ucs2(text),
    ensures
        utf16_len(text) == text.len(),
    decreases text.len(),
{
    if text.len() > 0 {
        let rest = text.drop_first();
        assert forall|i: int| 0 <= i < rest.len() implies is_ucs2(#[trigger] rest[i]) by {
            assert(rest[i] == text[i + 1]);
        }
        lemma_utf16_len_of_ucs2(rest);
        assert(is_ucs2(text[0]));
    }
}

/// A character that takes two UTF-16 units takes four UTF-8 bytes.
proof fn lemma_scalar_len(c: char)
    ensures
        encode_scalar(c as u32).len() >= 1,
        c as int >= 0x1_0000 ==> encode_scalar(c as u32).len() == 4,
{
    char_is_scalar(c);
    assert(c as u32 as int == c as int);
}

/// A text never takes more UTF-16 units than UTF-8 bytes.
pub proof fn lemma_utf16_no_longer_than_utf8(text: Seq<char>)
    ensures
        utf16_len(text) <= encode_utf8(text).len(),
    decreases text.len(),
{
    if text.len() > 0 {
        lemma_utf16_no_longer_than_utf8(text.drop_first());
        lemma_scalar_len(text[0]);
        let first = encode_scalar(text[0] as u32);
        assert(encode_utf8(text).len() == first.len() + encode_utf8(text.drop_first()).len());
    }
}

/// A text is written as one unit for each character, in order, and a null unit.
pub proof fn law_units_are_the_characters(text: Seq<char>)
    ensures
        ucs2_units(text).len() == text.len() + 1,
        ucs2_units(text)[text.len() as int] == 0,
        all_ucs2(text) ==> forall|i: int|
            0 <= i < text.len() ==> #[trigger] ucs2_units(text)[i] as int == text[i] as int,
{
    if all_ucs2(text) {
        assert forall|i: int| 0 <= i < text.len() implies #[trigger] ucs2_units(text)[i] as int
            == text[i] as int by {
            assert(is_ucs2(text[i]));
            let c = text[i];
            assert((c as int) < 0x1_0000);
        }
    }
}

/// A text of characters that fit in 16 bits and are not null can be written exactly if the buffer
/// has more units than the text has characters; a text with any other character never can.
pub proof fn law_text_is_written_if_it_fits(text: Seq<char>, room: nat)
    ensures
        ucs2_result(text, room) is Ok <==> {
            &&& text.len() < room
            &&& forall|i: int|
                0 <= i < text.len() ==> 0 < (#[trigger] text[i]) as int && (text[i] as int)
                    < 0x1_0000
        },
{
    lemma_first_unfit(text);
    let fit = forall|i: int|
        0 <= i < text.len() ==> 0 < (#[trigger] text[i]) as int && (text[i] as int) < 0x1_0000;
    if all_ucs2(text) {
        lemma_utf16_len_of_ucs2(text);
        assert forall|i: int| 0 <= i < text.len() implies 0 < (#[trigger] text[i]) as int && (
        text[i] as int) < 0x1_0000 by {
            assert(is_ucs2(text[i]));
        }
    }
    if fit {
        assert forall|i: int| 0 <= i < text.len() implies is_ucs2(#[trigger] text[i]) by {
            assert(0 < text[i] as int);
        }
    }
}

/// One more character takes one more unit, or two if it does not fit in 16 bits.
pub proof fn law_utf16_len_grows_by_units(text: Seq<char>, c: char)
    ensures
        utf16_len(Seq::<char>::empty()) == 0,
        utf16_len(text.push(c)) == utf16_len(text) + (if c as int >= 0x1_0000 {
            2int
        } else {
            1
        }),
    decreases text.len(),
{
    reveal_with_fuel(utf16_len, 2);
    let longer = text.push(c);
    if text.len() == 0 {
        assert(longer.drop_first() =~= Seq::<char>::empty());
    } else {
        law_utf16_len_grows_by_units(text.drop_first(), c);
        assert(longer.drop_first() =~= text.drop_first().push(c));
    }
}

/// A text is refused because the buffer has no unit to spare for the null character, or else for
/// the first of its characters that is null or does not fit in 16 bits.
pub proof fn law_text_is_refused_for_its_first_unfit_character(text: Seq<char>, room: nat)
    ensures
        ucs2_result(text, room) == Err::<(), Ucs2Error>(Ucs2Error::BufferTooSmall) <==> utf16_len(
            text,
        ) >= room,
        utf16_len(text) < room && !(ucs2_result(text, room) is Ok) ==> exists|at: int|
            {
                &&& 0 <= at < text.len()
                &&& forall|i: int|
                    0 <= i < at ==> 0 < (#[trigger] text[i]) as int && (text[i] as int) < 0x1_0000
                &&& #[trigger] text[at] as int == 0 || text[at] as int >= 0x1_0000
                &&& ucs2_result(text, room) == Err::<(), Ucs2Error>(
                    if text[at] as int == 0 {
                        Ucs2Error::InteriorNul(at as usize)
                    } else {
                        Ucs2Error::InvalidChar(at as usize)
                    },
                )
            },
{
    lemma_first_unfit(text);
    let at = first_unfit(text);
    if at < text.len() {
        lemma_unfit_char(text[at]);
        assert forall|i: int| 0 <= i < at implies 0 < (#[trigger] text[i]) as int && (
        text[i] as int) < 0x1_0000 by {
            assert(is_ucs2(text[i]));
        }
    }
}

} // verus!
