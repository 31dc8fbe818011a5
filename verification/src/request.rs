//! What the host asks for.

use vstd::prelude::*;
use vstd::slice::slice_subrange;
use vstd::utf8::{
    decode_utf8, decode_utf8_encode_utf8, decode_utf8_split, encode_utf8, encode_utf8_decode_utf8,
    encode_utf8_valid_utf8, is_ascii_chars, is_ascii_chars_encode_utf8, is_char_boundary,
    is_char_boundary_iff_not_is_continuation_byte, is_char_boundary_start_end_of_seq, valid_utf8,
    valid_utf8_concat, valid_utf8_split,
};

use crate::bytes::{find_zero, lemma_zero_from, until_zero, zero_from};
use crate::text::{
    hex_number, law_hex_is_read_back, lemma_encode_concat, padded_hex, parse_hex, same_text,
    strip_prefix, text_from_utf8,
};

verus! {

/// The character ends a line.
pub open spec fn is_line_end(c: char) -> bool {
    c == '\r' || c == '\n'
}

/// The text without the line ends behind it.
pub open spec fn trim_line_ends(text: Seq<char>) -> Seq<char>
    decreases text.len(),
{
    if text.len() > 0 && is_line_end(text.last()) {
        trim_line_ends(text.drop_last())
    } else {
        text
    }
}

/// The text of a request: what stands before the first zero byte, without the line ends behind
/// it; `None` if that is not UTF-8.
pub open spec fn request_text(data: Seq<u8>) -> Option<Seq<char>> {
    if valid_utf8(until_zero(data)) {
        Some(trim_line_ends(decode_utf8(until_zero(data))))
    } else {
        None
    }
}

/// The last byte of a text that ends in an ASCII character is that character.
proof fn lemma_last_ascii(text: Seq<char>)
    requires
        text.len() > 0,
        is_ascii_chars(seq![text.last()]),
    ensures
        encode_utf8(text).len() > 0,
        encode_utf8(text).last() == text.last() as u8,
{
    let last = seq![text.last()];
    lemma_encode_concat(text.drop_last(), last);
    assert(text =~= text.drop_last() + last);
    is_ascii_chars_encode_utf8(last);
    assert(last[0] as u8 == encode_utf8(last)[0]);
}

/// The text of bytes that end in an ASCII byte ends in that byte's character.
proof fn lemma_last_ascii_byte(bytes: Seq<u8>)
    requires
        valid_utf8(bytes),
        bytes.len() > 0,
        bytes.last() < 128,
    ensures
        is_char_boundary(bytes, bytes.len() - 1),
        valid_utf8(bytes.drop_last()),
        decode_utf8(bytes) == decode_utf8(bytes.drop_last()).push(bytes.last() as char),
{
    let n = bytes.len() - 1;
    is_char_boundary_iff_not_is_continuation_byte(bytes, n);
    valid_utf8_split(bytes, n);
    decode_utf8_split(bytes, n);
    let last = bytes.subrange(n, bytes.len() as int);
    let c = bytes.last() as char;
    let text = seq![c];
    assert(bytes.subrange(0, n) =~= bytes.drop_last());
    assert(is_ascii_chars(text));
    is_ascii_chars_encode_utf8(text);
    assert(text[0] as u8 == encode_utf8(text)[0]);
    assert(encode_utf8(text) =~= last);
    encode_utf8_decode_utf8(text);
}

/// The text of a request; an error if it is not UTF-8.
pub fn parse_fastboot_request(data: &[u8]) -> (request: Result<&str, ()>)
    ensures
        request is Ok <==> request_text(data@) is Some,
        request matches Ok(text) ==> request_text(data@) == Some(text@),
{
    let end: usize = find_zero(data, 0);
    let bytes: &[u8] = slice_subrange(data, 0, end);
    let ghost b = bytes@;
    match text_from_utf8(bytes) {
        Some(text) => {
            proof {
                decode_utf8_encode_utf8(b);
                is_char_boundary_start_end_of_seq(b);
                assert(b.take(b.len() as int) =~= b);
            }
            let mut len: usize = bytes.len();
            while len > 0 && (bytes[len - 1] == 13 || bytes[len - 1] == 10)
                invariant
                    len <= bytes@.len(),
                    b == bytes@,
                    valid_utf8(b),
                    valid_utf8(b.take(len as int)),
                    is_char_boundary(b, len as int),
                    trim_line_ends(decode_utf8(b)) == trim_line_ends(
                        decode_utf8(b.take(len as int)),
                    ),
                decreases len,
            {
                proof {
                    let before = b.take(len as int);
                    lemma_last_ascii_byte(before);
                    assert(before.drop_last() =~= b.take(len - 1));
                    let t = decode_utf8(before);
                    assert(t.drop_last() =~= decode_utf8(before.drop_last()));
                    is_char_boundary_iff_not_is_continuation_byte(b, len - 1);
                }
                len -= 1;
            }
            let (request, _): (&str, &str) = text.split_at(len);
            proof {
                let kept = b.take(len as int);
                let t = decode_utf8(kept);
                decode_utf8_encode_utf8(kept);
                encode_utf8_decode_utf8(request@);
                if t.len() > 0 && is_line_end(t.last()) {
                    lemma_last_ascii(t);
                }
            }
            Ok(request)
        },
        None => Err(()),
    }
}

/// What follows data with a zero byte, or begins with one, does not change what stands before the
/// first zero byte.
proof fn lemma_until_zero_of_longer(data: Seq<u8>, rest: Seq<u8>)
    requires
        data.contains(0u8) || (rest.len() > 0 && rest[0] == 0u8),
    ensures
        until_zero(data + rest) == until_zero(data),
{
    let longer = data + rest;
    let at = zero_from(data, 0);
    let longer_at = zero_from(longer, 0);
    lemma_zero_from(data, 0);
    lemma_zero_from(longer, 0);
    if data.contains(0u8) {
        let i = choose|i: int| 0 <= i < data.len() && data[i] == 0u8;
        assert(at <= i);
    }
    assert(longer[at] == 0u8);
    assert(longer_at <= at);
    if longer_at < at {
        assert(data[longer_at] == longer[longer_at]);
    }
    assert(until_zero(longer) =~= until_zero(data));
}

/// Data without a zero byte is a request as a whole.
proof fn lemma_until_zero_of_nonzero(data: Seq<u8>)
    requires
        !data.contains(0u8),
    ensures
        until_zero(data) == data,
{
    lemma_zero_from(data, 0);
    if zero_from(data, 0) < data.len() {
        assert(data.contains(data[zero_from(data, 0)]));
    }
    assert(data.take(data.len() as int) =~= data);
}

/// A line end behind a request does not change what it says.
pub proof fn law_line_end_is_ignored(data: Seq<u8>, line_end: u8)
    requires
        is_line_end(line_end as char),
    ensures
        request_text(data.push(line_end)) == request_text(data),
{
    let longer = data.push(line_end);
    assert(longer =~= data + seq![line_end]);
    if data.contains(0u8) {
        lemma_until_zero_of_longer(data, seq![line_end]);
    } else {
        assert(!longer.contains(0u8)) by {
            if longer.contains(0u8) {
                let i = choose|i: int| 0 <= i < longer.len() && longer[i] == 0u8;
                assert(i < data.len() ==> data[i] == 0u8);
            }
        }
        lemma_until_zero_of_nonzero(data);
        lemma_until_zero_of_nonzero(longer);
        if valid_utf8(longer) {
            lemma_last_ascii_byte(longer);
            assert(longer.drop_last() =~= data);
            assert(decode_utf8(longer).drop_last() =~= decode_utf8(data));
        } else if valid_utf8(data) {
            let text = seq![line_end as char];
            is_ascii_chars_encode_utf8(text);
            assert(text[0] as u8 == encode_utf8(text)[0]);
            assert(encode_utf8(text) =~= seq![line_end]);
            encode_utf8_valid_utf8(text);
            valid_utf8_concat(data, seq![line_end]);
        }
    }
}

/// What stands behind a zero byte does not change what a request says.
pub proof fn law_rest_behind_zero_is_ignored(data: Seq<u8>, rest: Seq<u8>)
    ensures
        request_text(data.push(0u8) + rest) == request_text(data),
{
    assert(data.push(0u8) + rest =~= data + (seq![0u8] + rest));
    lemma_until_zero_of_longer(data, seq![0u8] + rest);
}

/// A request to download a number of bytes, written in hexadecimal with any number of leading
/// zeros, asks for that number.
pub proof fn law_download_size_is_read_back(size: nat, width: nat)
    requires
        size <= usize::MAX,
    ensures
        command_of("download:"@ + padded_hex(size, width)) == CommandView::Download(size),
{
    let request = "download:"@ + padded_hex(size, width);
    law_hex_is_read_back(size, width);
    assert("download:"@ =~= request.take("download:"@.len() as int));
    assert(request.skip("download:"@.len() as int) =~= padded_hex(size, width));
}

/// What a request asks for.
pub enum Command<'a> {
    /// Receive this many bytes.
    Download(usize),
    /// A download whose size is not a number.
    BadDownloadSize,
    /// Boot what was downloaded.
    Boot,
    /// Restart the machine.
    Reboot,
    /// Leave fastboot.
    Continue,
    /// Tell the value of this variable.
    GetVar(&'a str),
    /// A question for a variable without its name.
    BadGetVar,
    /// Anything else.
    Unknown,
}

/// What a [`Command`] says.
pub enum CommandView {
    /// Receive this many bytes.
    Download(nat),
    /// A download whose size is not a number.
    BadDownloadSize,
    /// Boot what was downloaded.
    Boot,
    /// Restart the machine.
    Reboot,
    /// Leave fastboot.
    Continue,
    /// Tell the value of this variable.
    GetVar(Seq<char>),
    /// A question for a variable without its name.
    BadGetVar,
    /// Anything else.
    Unknown,
}

impl<'a> View for Command<'a> {
    type V = CommandView;

    open spec fn view(&self) -> CommandView {
        match self {
            Command::Download(size) => CommandView::Download(*size as nat),
            Command::BadDownloadSize => CommandView::BadDownloadSize,
            Command::Boot => CommandView::Boot,
            Command::Reboot => CommandView::Reboot,
            Command::Continue => CommandView::Continue,
            Command::GetVar(variable) => CommandView::GetVar(variable@),
            Command::BadGetVar => CommandView::BadGetVar,
            Command::Unknown => CommandView::Unknown,
        }
    }
}

/// What the text of a request asks for.
pub open spec fn command_of(request: Seq<char>) -> CommandView {
    if "download:"@.is_prefix_of(request) {
        match hex_number(request.skip("download:"@.len() as int)) {
            Some(size) => if size <= usize::MAX {
                CommandView::Download(size)
            } else {
                CommandView::BadDownloadSize
            },
            None => CommandView::BadDownloadSize,
        }
    } else if request == "boot"@ {
        CommandView::Boot
    } else if request == "reboot"@ {
        CommandView::Reboot
    } else if request == "continue"@ {
        CommandView::Continue
    } else if request == "getvar"@ || request == "getvar:"@ {
        CommandView::BadGetVar
    } else if "getvar:"@.is_prefix_of(request) {
        CommandView::GetVar(request.skip("getvar:"@.len() as int))
    } else {
        CommandView::Unknown
    }
}

/// What the text of a request asks for.
pub fn parse_command<'a>(request: &'a str) -> (command: Command<'a>)
    ensures
        command@ == command_of(request@),
{
    match strip_prefix(request, "download:") {
        Some(size) => {
            return match parse_hex(size) {
                Some(size) => Command::Download(size),
                None => Command::BadDownloadSize,
            };
        },
        None => {},
    }
    if same_text(request, "boot") {
        return Command::Boot;
    }
    if same_text(request, "reboot") {
        return Command::Reboot;
    }
    if same_text(request, "continue") {
        return Command::Continue;
    }
    if same_text(request, "getvar") {
        return Command::BadGetVar;
    }
    match strip_prefix(request, "getvar:") {
        Some(variable) => {
            proof {
                if variable@.len() == 0 {
                    assert(request@ =~= "getvar:"@ + variable@);
                    assert(request@ =~= "getvar:"@);
                }
            }
            if variable.is_empty() {
                Command::BadGetVar
            } else {
                Command::GetVar(variable)
            }
        },
        None => Command::Unknown,
    }
}

/// A text that holds no null character and does not end a line is the request that its bytes make.
pub proof fn law_request_is_read_back(text: Seq<char>)
    requires
        !encode_utf8(text).contains(0u8),
        text.len() > 0 ==> text.last() != '\r' && text.last() != '\n',
    ensures
        request_text(encode_utf8(text)) == Some(text),
{
    lemma_until_zero_of_nonzero(encode_utf8(text));
    encode_utf8_valid_utf8(text);
    encode_utf8_decode_utf8(text);
}

/// A request is the text before the first zero byte but for the line ends behind it, and only bytes
/// that are not UTF-8 make none: what is cut off are line ends, and none is left at the end.
pub proof fn law_only_line_ends_are_cut_off(data: Seq<u8>)
    ensures
        request_text(data) is Some <==> valid_utf8(until_zero(data)),
        request_text(data) matches Some(text) ==> {
            let all = decode_utf8(until_zero(data));
            &&& text.is_prefix_of(all)
            &&& forall|i: int|
                text.len() <= i < all.len() ==> #[trigger] all[i] == '\r' || all[i] == '\n'
            &&& text.len() > 0 ==> text.last() != '\r' && text.last() != '\n'
        },
{
    lemma_trim_line_ends(decode_utf8(until_zero(data)));
}

/// What trimming cuts off are line ends, and none is left at the end.
proof fn lemma_trim_line_ends(text: Seq<char>)
    ensures
        ({
            let kept = trim_line_ends(text);
            &&& kept.is_prefix_of(text)
            &&& forall|i: int|
                kept.len() <= i < text.len() ==> #[trigger] text[i] == '\r' || text[i] == '\n'
            &&& kept.len() > 0 ==> kept.last() != '\r' && kept.last() != '\n'
        }),
    decreases text.len(),
{
    let kept = trim_line_ends(text);
    if text.len() > 0 && is_line_end(text.last()) {
        let shorter = text.drop_last();
        lemma_trim_line_ends(shorter);
        assert(shorter.take(kept.len() as int) =~= text.take(kept.len() as int));
        assert forall|i: int| kept.len() <= i < text.len() implies #[trigger] text[i] == '\r'
            || text[i] == '\n' by {
            if i < shorter.len() {
                assert(shorter[i] == text[i]);
            }
        }
    } else {
        assert(text.take(text.len() as int) =~= text);
    }
}

/// A request asks for a download exactly if it begins with "download:", and its size is the
/// hexadecimal number behind that, if it is one that fits; "boot", "reboot" and "continue" ask for
/// what they say, "getvar:" and a name for a variable, and anything else for nothing known.
pub proof fn law_requests_ask_for_what_they_say(request: Seq<char>)
    ensures
        ({
            let command = command_of(request);
            let download = request.len() >= 9 && request.take(9) == "download:"@;
            let getvar = request.len() >= 7 && request.take(7) == "getvar:"@;
            &&& command matches CommandView::Download(size) ==> hex_number(request.skip(9)) == Some(
                size,
            ) && size <= usize::MAX
            &&& command is BadDownloadSize ==> match hex_number(request.skip(9)) {
                Some(size) => size > usize::MAX,
                None => true,
            }
            &&& command is Download || command is BadDownloadSize <==> download
            &&& command is Boot <==> request == "boot"@
            &&& command is Reboot <==> request == "reboot"@
            &&& command is Continue <==> request == "continue"@
            &&& command is BadGetVar <==> request == "getvar"@ || request == "getvar:"@
            &&& command matches CommandView::GetVar(variable) ==> variable == request.skip(7)
            &&& command is GetVar <==> getvar && request.len() > 7
        }),
{
    reveal_strlit("download:");
    reveal_strlit("getvar:");
    reveal_strlit("getvar");
    reveal_strlit("boot");
    reveal_strlit("reboot");
    reveal_strlit("continue");
    if request.len() >= 9 {
        assert(request.take(9) =~= request.subrange(0, 9));
        assert(request.take(9)[0] == request[0]);
    }
    if request.len() >= 7 {
        assert(request.take(7) =~= request.subrange(0, 7));
        assert(request.take(7)[0] == request[0]);
        if request.len() == 7 && request.take(7) == "getvar:"@ {
            assert(request =~= "getvar:"@);
        }
    }
    if request == "getvar:"@ {
        assert(request.take(7) =~= request);
    }
    assert("download:"@[0] == 'd' && "getvar:"@[0] == 'g' && "getvar"@[0] == 'g');
    assert("boot"@[0] == 'b' && "reboot"@[0] == 'r' && "continue"@[0] == 'c');
}

/// A command says what its variant and its value say.
pub proof fn law_command_is_its_variant(command: Command)
    ensures
        match command {
            Command::Download(size) => command@ == CommandView::Download(size as nat),
            Command::BadDownloadSize => command@ is BadDownloadSize,
            Command::Boot => command@ is Boot,
            Command::Reboot => command@ is Reboot,
            Command::Continue => command@ is Continue,
            Command::GetVar(variable) => command@ == CommandView::GetVar(variable@),
            Command::BadGetVar => command@ is BadGetVar,
            Command::Unknown => command@ is Unknown,
        },
{
}

} // verus!
