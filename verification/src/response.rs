//! What the device answers.

use vstd::prelude::*;
use vstd::slice::{slice_subrange, slice_to_vec};
use vstd::utf8::encode_utf8;

use crate::text::{format_hex, padded_hex, same_text};

verus! {

/// The most bytes that a response packet holds.
pub const MAX_RESPONSE_SIZE: usize = 64;

/// The version of the fastboot protocol.
pub open spec fn protocol_version() -> Seq<char> {
    "0.4"@
}

/// A response that reports success.
pub open spec fn okay_text(detail: Seq<char>) -> Seq<char> {
    "OKAY"@ + detail
}

/// A response that reports a failure.
pub open spec fn fail_text(reason: Seq<char>) -> Seq<char> {
    "FAIL"@ + reason
}

/// A response that announces the transfer of `size` bytes.
pub open spec fn data_text(size: nat) -> Seq<char> {
    "DATA"@ + padded_hex(size, 8)
}

/// The response begins with the mark of a success, a failure or a transfer.
pub open spec fn is_response(text: Seq<char>) -> bool {
    ||| "OKAY"@.is_prefix_of(text)
    ||| "FAIL"@.is_prefix_of(text)
    ||| "DATA"@.is_prefix_of(text)
}

/// A response carries its mark, whatever follows it.
pub proof fn lemma_responses_are_marked()
    ensures
        is_response("OKAY"@),
        forall|text: Seq<char>| is_response(#[trigger] okay_text(text)),
        forall|text: Seq<char>| is_response(#[trigger] fail_text(text)),
        forall|size: nat| is_response(#[trigger] data_text(size)),
{
    assert("OKAY"@ =~= "OKAY"@.take("OKAY"@.len() as int));
    assert forall|text: Seq<char>| is_response(#[trigger] okay_text(text)) by {
        assert("OKAY"@ =~= okay_text(text).take("OKAY"@.len() as int));
    }
    assert forall|text: Seq<char>| is_response(#[trigger] fail_text(text)) by {
        assert("FAIL"@ =~= fail_text(text).take("FAIL"@.len() as int));
    }
    assert forall|size: nat| is_response(#[trigger] data_text(size)) by {
        assert("DATA"@ =~= data_text(size).take("DATA"@.len() as int));
    }
}

/// A response that reports success.
pub fn okay(detail: &str) -> (text: String)
    ensures
        text@ == okay_text(detail@),
{
    let mut text: String = String::new();
    text.append("OKAY");
    text.append(detail);
    proof {
        assert(text@ =~= okay_text(detail@));
    }
    text
}

/// The response that reports success and nothing more.
pub fn plain_okay() -> (text: String)
    ensures
        text@ == "OKAY"@,
{
    "OKAY".to_owned()
}

/// A response that reports a failure.
pub fn fail(reason: &str) -> (text: String)
    ensures
        text@ == fail_text(reason@),
{
    let mut text: String = String::new();
    text.append("FAIL");
    text.append(reason);
    proof {
        assert(text@ =~= fail_text(reason@));
    }
    text
}

/// A response that announces the transfer of `size` bytes.
pub fn data(size: usize) -> (text: String)
    ensures
        text@ == data_text(size as nat),
{
    let mut text: String = String::new();
    text.append("DATA");
    text.append(format_hex(size as u64, 8).as_str());
    proof {
        assert(text@ =~= data_text(size as nat));
    }
    text
}

/// The bytes of a response that fit in a packet.
pub open spec fn packet_of(response: Seq<char>) -> Seq<u8> {
    let bytes = encode_utf8(response);
    if bytes.len() < MAX_RESPONSE_SIZE {
        bytes
    } else {
        bytes.take(MAX_RESPONSE_SIZE as int)
    }
}

/// The packet that carries a response, cut off where it is too long.
pub fn fastboot_respond(response: &str) -> (packet: Vec<u8>)
    ensures
        packet@ == packet_of(response@),
        packet@.len() <= MAX_RESPONSE_SIZE,
{
    let bytes: &[u8] = response.as_bytes();
    let len: usize = if bytes.len() < MAX_RESPONSE_SIZE {
        bytes.len()
    } else {
        MAX_RESPONSE_SIZE
    };
    let packet: Vec<u8> = slice_to_vec(slice_subrange(bytes, 0, len));
    proof {
        assert(packet@ =~= packet_of(response@));
    }
    packet
}

/// What a request for a variable is answered.
pub open spec fn getvar_text(variable: Seq<char>, build_version: Seq<char>) -> Seq<char> {
    if variable == "version"@ {
        okay_text(protocol_version())
    } else if variable == "version-bootloader"@ {
        okay_text(build_version)
    } else {
        fail_text("unknown variable: "@ + variable)
    }
}

/// The answer to a request for a variable.
pub fn handle_getvar(variable: &str, build_version: &str) -> (text: String)
    ensures
        text@ == getvar_text(variable@, build_version@),
{
    if same_text(variable, "version") {
        okay("0.4")
    } else if same_text(variable, "version-bootloader") {
        okay(build_version)
    } else {
        let mut reason: String = String::new();
        reason.append("unknown variable: ");
        reason.append(variable);
        proof {
            assert(reason@ =~= "unknown variable: "@ + variable@);
        }
        fail(reason.as_str())
    }
}

/// A response is its mark of four letters, and behind it what is to be told, whole.
pub proof fn law_response_is_a_mark_and_a_text(text: Seq<char>, size: nat)
    ensures
        okay_text(text) == seq!['O', 'K', 'A', 'Y'] + text,
        fail_text(text) == seq!['F', 'A', 'I', 'L'] + text,
        data_text(size) == seq!['D', 'A', 'T', 'A'] + padded_hex(size, 8),
{
    reveal_strlit("OKAY");
    reveal_strlit("FAIL");
    reveal_strlit("DATA");
    assert("OKAY"@ =~= seq!['O', 'K', 'A', 'Y']);
    assert("FAIL"@ =~= seq!['F', 'A', 'I', 'L']);
    assert("DATA"@ =~= seq!['D', 'A', 'T', 'A']);
}

/// A packet holds the first bytes of its response, all of them if there are no more than 64, and 64
/// otherwise.
pub proof fn law_packet_is_cut_at_64_bytes(response: Seq<char>)
    ensures
        packet_of(response).is_prefix_of(encode_utf8(response)),
        encode_utf8(response).len() <= 64 ==> packet_of(response) == encode_utf8(response),
        encode_utf8(response).len() > 64 ==> packet_of(response).len() == 64,
{
    let bytes = encode_utf8(response);
    assert(bytes.take(bytes.len() as int) =~= bytes);
    assert(packet_of(response) =~= bytes.take(packet_of(response).len() as int));
}

/// Two variables are known, the version of the protocol and that of the build; the answer to any
/// other question repeats its name.
pub proof fn law_variables_are_answered(variable: Seq<char>, build_version: Seq<char>)
    ensures
        variable == "version"@ ==> getvar_text(variable, build_version) == "OKAY"@ + "0.4"@,
        variable == "version-bootloader"@ ==> getvar_text(variable, build_version) == "OKAY"@
            + build_version,
        variable != "version"@ && variable != "version-bootloader"@ ==> getvar_text(
            variable,
            build_version,
        ) == "FAIL"@ + ("unknown variable: "@ + variable),
{
    reveal_strlit("version");
    reveal_strlit("version-bootloader");
    assert("version"@.len() != "version-bootloader"@.len());
}

} // verus!
