//! Text: UTF-8 and hexadecimal numbers.

use vstd::prelude::*;
use vstd::utf8::{
    char_u32_cast, decode_first_scalar, decode_utf8, encode_utf8, encode_utf8_decode_utf8,
    encode_utf8_first_scalar, encode_utf8_valid_utf8, is_ascii_chars, is_ascii_chars_encode_utf8,
    is_char_boundary, pop_first_scalar, valid_utf8,
};

use crate::bytes::starts_with;

verus! {

/// Calls `core::str::from_utf8`.
///
/// Trusted: the call succeeds on valid UTF-8 alone, and gives the text that the bytes encode.
#[verifier::external_body]
pub(crate) fn text_from_utf8(bytes: &[u8]) -> (text: Option<&str>)
    ensures
        text is Some <==> valid_utf8(bytes@),
        text matches Some(t) ==> t@ == decode_utf8(bytes@),
{
    core::str::from_utf8(bytes).ok()
}

/// A text begins with another one exactly if its UTF-8 bytes do, and it can be split there.
proof fn lemma_prefix_bytes(text: Seq<char>, prefix: Seq<char>)
    ensures
        encode_utf8(prefix).is_prefix_of(encode_utf8(text)) <==> prefix.is_prefix_of(text),
        prefix.is_prefix_of(text) ==> {
            &&& is_char_boundary(encode_utf8(text), encode_utf8(prefix).len() as int)
            &&& encode_utf8(text) == encode_utf8(prefix) + encode_utf8(
                text.skip(prefix.len() as int),
            )
        },
    decreases prefix.len(),
{
    encode_utf8_valid_utf8(text);
    if prefix.len() == 0 {
        assert(text.skip(0) =~= text);
    } else if text.len() == 0 {
        encode_utf8_first_scalar(prefix);
    } else {
        let tb = encode_utf8(text);
        let pb = encode_utf8(prefix);
        let tr = text.drop_first();
        let pr = prefix.drop_first();
        lemma_prefix_bytes(tr, pr);
        encode_utf8_valid_utf8(prefix);
        encode_utf8_first_scalar(text);
        encode_utf8_first_scalar(prefix);
        assert(pop_first_scalar(tb) =~= encode_utf8(tr));
        assert(pop_first_scalar(pb) =~= encode_utf8(pr));
        if prefix.is_prefix_of(text) {
            assert(text[0] == prefix[0]);
            assert(pr =~= tr.take(pr.len() as int));
            assert(text.skip(prefix.len() as int) =~= tr.skip(pr.len() as int));
            assert(tb =~= pb + encode_utf8(text.skip(prefix.len() as int)));
        }
        if pb.is_prefix_of(tb) {
            assert(forall|i: int| 0 <= i < pb.len() ==> pb[i] == #[trigger] tb[i]);
            assert(decode_first_scalar(pb) == decode_first_scalar(tb));
            char_u32_cast(prefix[0], prefix[0] as u32);
            char_u32_cast(text[0], text[0] as u32);
            assert(pop_first_scalar(pb) =~= pop_first_scalar(tb).take(
                pop_first_scalar(pb).len() as int,
            ));
            assert forall|i: int| 0 <= i < prefix.len() implies prefix[i] == text[i] by {
                if i > 0 {
                    assert(pr[i - 1] == tr[i - 1]);
                }
            }
            assert(prefix =~= text.take(prefix.len() as int));
        }
    }
}

/// The bytes of two texts behind each other are those of the one and then those of the other.
pub proof fn lemma_encode_concat(first: Seq<char>, second: Seq<char>)
    ensures
        encode_utf8(first + second) == encode_utf8(first) + encode_utf8(second),
{
    lemma_prefix_bytes(first + second, first);
    assert((first + second).take(first.len() as int) =~= first);
    assert((first + second).skip(first.len() as int) =~= second);
}

/// Tells whether two texts are the same.
pub fn same_text(a: &str, b: &str) -> (yes: bool)
    ensures
        yes == (a@ == b@),
{
    proof {
        encode_utf8_decode_utf8(a@);
        encode_utf8_decode_utf8(b@);
    }
    let (a, b): (&[u8], &[u8]) = (a.as_bytes(), b.as_bytes());
    let yes: bool = a.len() == b.len() && starts_with(a, b);
    proof {
        if yes {
            assert(a@ =~= b@);
        }
    }
    yes
}

/// The text behind `prefix`, if `text` begins with it.
pub fn strip_prefix<'a>(text: &'a str, prefix: &str) -> (rest: Option<&'a str>)
    ensures
        rest is Some <==> prefix@.is_prefix_of(text@),
        rest matches Some(r) ==> r@ == text@.skip(prefix@.len() as int),
{
    proof {
        lemma_prefix_bytes(text@, prefix@);
    }
    if starts_with(text.as_bytes(), prefix.as_bytes()) {
        let n: usize = prefix.as_bytes().len();
        let (_, rest): (&str, &str) = text.split_at(n);
        proof {
            assert(encode_utf8(rest@) =~= encode_utf8(text@.skip(prefix@.len() as int)));
            encode_utf8_decode_utf8(rest@);
            encode_utf8_decode_utf8(text@.skip(prefix@.len() as int));
        }
        Some(rest)
    } else {
        None
    }
}

/// The lower-case hexadecimal digit of `d`.
pub open spec fn hex_digit(d: int) -> char {
    if d < 10 {
        ('0' as int + d) as char
    } else {
        ('a' as int + (d - 10)) as char
    }
}

/// The lower-case hexadecimal digits of `n`, without leading zeros.
pub open spec fn hex_text(n: nat) -> Seq<char>
    decreases n,
{
    if n < 16 {
        seq![hex_digit(n as int)]
    } else {
        hex_text(n / 16).push(hex_digit((n % 16) as int))
    }
}

/// The hexadecimal digits of `n`, filled up with leading zeros to `width` characters.
pub open spec fn padded_hex(n: nat, width: nat) -> Seq<char> {
    let digits = hex_text(n);
    if digits.len() < width {
        Seq::new((width - digits.len()) as nat, |i: int| '0') + digits
    } else {
        digits
    }
}

/// What a character is worth as a hexadecimal digit of either case.
pub open spec fn digit_value(c: char) -> Option<nat> {
    if '0' <= c <= '9' {
        Some((c as int - '0' as int) as nat)
    } else if 'a' <= c <= 'f' {
        Some((c as int - 'a' as int + 10) as nat)
    } else if 'A' <= c <= 'F' {
        Some((c as int - 'A' as int + 10) as nat)
    } else {
        None
    }
}

/// What a row of hexadecimal digits is worth.
pub open spec fn digits_value(digits: Seq<char>) -> Option<nat>
    decreases digits.len(),
{
    if digits.len() == 0 {
        Some(0nat)
    } else {
        match (digits_value(digits.drop_last()), digit_value(digits.last())) {
            (Some(high), Some(low)) => Some(16 * high + low),
            _ => None,
        }
    }
}

/// The digits of a number: what follows its optional plus sign.
pub open spec fn digits_of(number: Seq<char>) -> Seq<char> {
    if number.len() > 0 && number[0] == '+' {
        number.skip(1)
    } else {
        number
    }
}

/// The number that a text of an optional plus sign and at least one hexadecimal digit stands for.
pub open spec fn hex_number(number: Seq<char>) -> Option<nat> {
    if digits_of(number).len() > 0 {
        digits_value(digits_of(number))
    } else {
        None
    }
}

/// More digits make no smaller number.
proof fn lemma_digits_value_grows(digits: Seq<char>, count: int)
    requires
        0 <= count <= digits.len(),
    ensures
        digits_value(digits) is Some ==> {
            &&& digits_value(digits.take(count)) is Some
            &&& digits_value(digits.take(count)).unwrap() <= digits_value(digits).unwrap()
        },
    decreases digits.len(),
{
    if count == digits.len() {
        assert(digits.take(count) =~= digits);
    } else {
        lemma_digits_value_grows(digits.drop_last(), count);
        assert(digits.drop_last().take(count) =~= digits.take(count));
    }
}

/// What an ASCII byte is worth as a hexadecimal digit.
fn byte_digit_value(b: u8) -> (value: Option<usize>)
    requires
        b < 128,
    ensures
        match digit_value(b as char) {
            Some(v) => value == Some(v as usize) && v < 16,
            None => value is None,
        },
{
    if 48 <= b && b <= 57 {
        Some((b - 48) as usize)
    } else if 97 <= b && b <= 102 {
        Some((b - 97 + 10) as usize)
    } else if 65 <= b && b <= 70 {
        Some((b - 65 + 10) as usize)
    } else {
        None
    }
}

/// The number that a hexadecimal text stands for, if it fits.
pub fn parse_hex(number: &str) -> (value: Option<usize>)
    ensures
        match hex_number(number@) {
            Some(n) => if n <= usize::MAX {
                value == Some(n as usize)
            } else {
                value is None
            },
            None => value is None,
        },
{
    let ghost digits = digits_of(number@);
    if !number.is_ascii() {
        proof {
            lemma_hex_is_ascii(digits);
            assert(digits_value(digits) is Some ==> is_ascii_chars(number@)) by {
                assert forall|i: int| 0 <= i < number@.len() && digits_value(digits) is Some implies
                    '\0' <= #[trigger] number@[i] <= '\u{7f}' by {
                    if number@[0] == '+' && i > 0 {
                        assert(digits[i - 1] == number@[i]);
                    }
                }
            }
        }
        return None;
    }
    proof {
        is_ascii_chars_encode_utf8(number@);
    }
    let bytes: &[u8] = number.as_bytes();
    let start: usize = if bytes.len() > 0 && bytes[0] == 43 {
        1
    } else {
        0
    };
    if start >= bytes.len() {
        return None;
    }
    let mut value: usize = 0;
    let mut i: usize = start;
    while i < bytes.len()
        invariant
            start <= i <= bytes@.len(),
            bytes@.len() == start + digits.len(),
            forall|j: int|
                0 <= j < digits.len() ==> #[trigger] digits[j] == bytes@[start + j] as char,
            forall|j: int| 0 <= j < bytes@.len() ==> bytes@[j] < 128,
            digits_value(digits.take(i - start)) == Some(value as nat),
            hex_number(number@) == digits_value(digits),
        decreases bytes@.len() - i,
    {
        let ghost done = digits.take(i - start);
        let ghost next = digits.take(i - start + 1);
        proof {
            assert(next.drop_last() =~= done);
            assert(next.last() == bytes@[i as int] as char);
            lemma_digits_value_grows(digits, i - start + 1);
        }
        match byte_digit_value(bytes[i]) {
            Some(digit) => {
                if value > (usize::MAX - digit) / 16 {
                    return None;
                }
                value = 16 * value + digit;
            },
            None => {
                return None;
            },
        }
        i += 1;
    }
    proof {
        assert(digits.take(digits.len() as int) =~= digits);
    }
    Some(value)
}

/// The text of one hexadecimal digit.
fn digit_text(d: u64) -> (text: &'static str)
    requires
        d < 16,
    ensures
        text@ == seq![hex_digit(d as int)],
{
    let text: &'static str = match d {
        0 => "0",
        1 => "1",
        2 => "2",
        3 => "3",
        4 => "4",
        5 => "5",
        6 => "6",
        7 => "7",
        8 => "8",
        9 => "9",
        10 => "a",
        11 => "b",
        12 => "c",
        13 => "d",
        14 => "e",
        _ => "f",
    };
    proof {
        reveal_strlit("0");
        reveal_strlit("1");
        reveal_strlit("2");
        reveal_strlit("3");
        reveal_strlit("4");
        reveal_strlit("5");
        reveal_strlit("6");
        reveal_strlit("7");
        reveal_strlit("8");
        reveal_strlit("9");
        reveal_strlit("a");
        reveal_strlit("b");
        reveal_strlit("c");
        reveal_strlit("d");
        reveal_strlit("e");
        reveal_strlit("f");
        assert(text@ =~= seq![hex_digit(d as int)]);
    }
    text
}

/// Appends the hexadecimal digits of `n`.
fn append_hex(text: &mut String, n: u64)
    ensures
        final(text)@ == old(text)@ + hex_text(n as nat),
    decreases n,
{
    if n >= 16 {
        append_hex(text, n / 16);
    }
    text.append(digit_text(n % 16));
    proof {
        assert(text@ =~= old(text)@ + hex_text(n as nat));
    }
}

/// The hexadecimal digits of `n`, filled up with leading zeros to `width` characters.
pub fn format_hex(n: u64, width: usize) -> (text: String)
    ensures
        text@ == padded_hex(n as nat, width as nat),
{
    let mut digits: String = String::new();
    append_hex(&mut digits, n);
    let mut count: usize = digits.as_str().unicode_len();
    let mut text: String = String::new();
    proof {
        reveal_strlit("0");
    }
    let ghost first = count;
    while count < width
        invariant
            first <= count,
            count <= width || first == count,
            text@ == Seq::new((count - first) as nat, |i: int| '0'),
            "0"@ == seq!['0'],
        decreases width - count,
    {
        text.append("0");
        count += 1;
        proof {
            assert(text@ =~= Seq::new((count - first) as nat, |i: int| '0'));
        }
    }
    text.append(digits.as_str());
    proof {
        assert(text@ =~= padded_hex(n as nat, width as nat));
    }
    text
}

/// A row of hexadecimal digits is ASCII.
proof fn lemma_hex_is_ascii(digits: Seq<char>)
    ensures
        digits_value(digits) is Some ==> is_ascii_chars(digits),
    decreases digits.len(),
{
    if digits.len() > 0 && digits_value(digits) is Some {
        lemma_hex_is_ascii(digits.drop_last());
        assert forall|i: int| 0 <= i < digits.len() implies '\0' <= #[trigger] digits[i]
            <= '\u{7f}' by {
            if i < digits.len() - 1 {
                assert(digits.drop_last()[i] == digits[i]);
            }
        }
    }
}

/// The digits of a number are worth the number.
proof fn lemma_hex_text_value(n: nat)
    ensures
        hex_text(n).len() > 0,
        hex_text(n)[0] != '+',
        digits_value(hex_text(n)) == Some(n),
    decreases n,
{
    let text = hex_text(n);
    if n < 16 {
        assert(text.drop_last() =~= Seq::<char>::empty());
        assert(digits_value(text.drop_last()) == Some(0nat));
        assert(digit_value(hex_digit(n as int)) == Some(n));
    } else {
        lemma_hex_text_value(n / 16);
        assert(text.drop_last() =~= hex_text(n / 16));
        assert(digit_value(hex_digit((n % 16) as int)) == Some(n % 16));
    }
}

/// Leading zeros are worth nothing.
proof fn lemma_leading_zeros(zeros: nat, digits: Seq<char>)
    ensures
        digits_value(Seq::new(zeros, |i: int| '0') + digits) == digits_value(digits),
    decreases zeros + digits.len(),
{
    let all = Seq::new(zeros, |i: int| '0') + digits;
    if digits.len() > 0 {
        lemma_leading_zeros(zeros, digits.drop_last());
        assert(all.drop_last() =~= Seq::new(zeros, |i: int| '0') + digits.drop_last());
    } else if zeros > 0 {
        lemma_leading_zeros((zeros - 1) as nat, digits);
        assert(all.drop_last() =~= Seq::new((zeros - 1) as nat, |i: int| '0') + digits);
    }
}

/// A number that is written in hexadecimal is read back as itself, whatever its width.
pub proof fn law_hex_is_read_back(n: nat, width: nat)
    ensures
        hex_number(padded_hex(n, width)) == Some(n),
{
    let digits = hex_text(n);
    lemma_hex_text_value(n);
    if digits.len() < width {
        lemma_leading_zeros((width - digits.len()) as nat, digits);
    }
}

/// A number is read digit by digit, in either case: one more digit makes it sixteen times as large
/// and adds the digit, and one more character that is no digit makes it no number.
pub proof fn law_hex_number_grows_by_digits(number: Seq<char>, c: char)
    ensures
        ({
            let digit = if '0' <= c <= '9' {
                Some(c as int - 0x30)
            } else if 'a' <= c <= 'f' {
                Some(c as int - 0x61 + 10)
            } else if 'A' <= c <= 'F' {
                Some(c as int - 0x41 + 10)
            } else {
                None
            };
            let longer = hex_number(number.push(c));
            if number.len() == 0 || number == seq!['+'] {
                match digit {
                    Some(d) => longer matches Some(n) && n == d,
                    None => longer is None,
                }
            } else {
                match (hex_number(number), digit) {
                    (Some(high), Some(d)) => longer matches Some(n) && n == 16 * high + d,
                    _ => longer is None,
                }
            }
        }),
        hex_number(Seq::<char>::empty()) is None,
        hex_number(seq!['+']) is None,
{
    let longer = number.push(c);
    reveal_with_fuel(digits_value, 2);
    if number.len() == 0 {
        if c == '+' {
            assert(digits_of(longer).len() == 0);
        } else {
            assert(digits_of(longer) =~= seq![c]);
            assert(seq![c].drop_last() =~= Seq::<char>::empty());
        }
    } else {
        assert(longer[0] == number[0]);
        assert(digits_of(longer) =~= digits_of(number).push(c));
        assert(digits_of(number).push(c).drop_last() =~= digits_of(number));
        if number[0] == '+' && number.len() == 1 {
            assert(number =~= seq!['+']);
        } else if number[0] == '+' {
            assert(seq!['+'].len() == 1);
        } else {
            assert(seq!['+'][0] == '+');
        }
    }
    assert(digits_of(seq!['+']).len() == 0);
}

/// A number is written in lower-case digits, at least as many as `width`, with no leading zero but
/// where the width asks for it or the number is a single zero.
pub proof fn law_hex_is_written_in_lower_case(n: nat, width: nat)
    ensures
        forall|i: int|
            0 <= i < padded_hex(n, width).len() ==> {
                let c = #[trigger] padded_hex(n, width)[i];
                '0' <= c <= '9' || 'a' <= c <= 'f'
            },
        padded_hex(n, width).len() >= width,
        padded_hex(n, width).len() >= 1,
        padded_hex(n, width).len() > width && padded_hex(n, width).len() > 1 ==> padded_hex(
            n,
            width,
        )[0] != '0',
        hex_number(padded_hex(n, width)) == Some(n),
{
    law_hex_is_read_back(n, width);
    lemma_hex_text_digits(n);
    let digits = hex_text(n);
    let text = padded_hex(n, width);
    assert forall|i: int| 0 <= i < text.len() implies {
        let c = #[trigger] text[i];
        '0' <= c <= '9' || 'a' <= c <= 'f'
    } by {
        let zeros = text.len() - digits.len();
        if i >= zeros {
            assert(text[i] == digits[i - zeros]);
        }
    }
}

/// The digits of a number are lower-case, and the first is no zero but in a single digit.
proof fn lemma_hex_text_digits(n: nat)
    ensures
        hex_text(n).len() >= 1,
        forall|i: int|
            0 <= i < hex_text(n).len() ==> {
                let c = #[trigger] hex_text(n)[i];
                '0' <= c <= '9' || 'a' <= c <= 'f'
            },
        n > 0 ==> hex_text(n)[0] != '0',
        n == 0 ==> hex_text(n).len() == 1,
    decreases n,
{
    if n >= 16 {
        lemma_hex_text_digits(n / 16);
        let high = hex_text(n / 16);
        assert forall|i: int| 0 <= i < hex_text(n).len() implies {
            let c = #[trigger] hex_text(n)[i];
            '0' <= c <= '9' || 'a' <= c <= 'f'
        } by {
            if i < high.len() {
                assert(hex_text(n)[i] == high[i]);
            }
        }
    }
}

} // verus!
