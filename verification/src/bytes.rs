//! Little-endian integers inside a byte sequence.

use vstd::prelude::*;

verus! {

/// The unsigned 16-bit little-endian integer at index `at`.
pub open spec fn u16_at(s: Seq<u8>, at: int) -> int {
    s[at] + 0x100 * s[at + 1]
}

/// The unsigned 32-bit little-endian integer at index `at`.
pub open spec fn u32_at(s: Seq<u8>, at: int) -> int {
    s[at] + 0x100 * s[at + 1] + 0x1_0000 * s[at + 2] + 0x100_0000 * s[at + 3]
}

/// The first index from `from` on that holds a zero byte or lies past the end.
pub open spec fn zero_from(s: Seq<u8>, from: int) -> int
    decreases s.len() - from,
{
    if from >= s.len() || s[from] == 0 {
        from
    } else {
        zero_from(s, from + 1)
    }
}

/// The bytes before the first zero byte; all bytes if there is none.
pub open spec fn until_zero(s: Seq<u8>) -> Seq<u8> {
    s.take(zero_from(s, 0))
}

/// The search for a zero byte passes nonzero bytes only, and stops at the end at the latest.
pub proof fn lemma_zero_from(s: Seq<u8>, from: int)
    requires
        0 <= from,
    ensures
        from <= zero_from(s, from),
        from <= s.len() ==> zero_from(s, from) <= s.len(),
        forall|i: int| from <= i < zero_from(s, from) ==> s[i] != 0,
        zero_from(s, from) < s.len() ==> s[zero_from(s, from)] == 0,
    decreases s.len() - from,
{
    if from < s.len() && s[from] != 0 {
        lemma_zero_from(s, from + 1);
    }
}

/// The index that [`zero_from`] stands for.
pub fn find_zero(s: &[u8], from: usize) -> (at: usize)
    requires
        from <= s@.len(),
    ensures
        at == zero_from(s@, from as int),
        at <= s@.len(),
{
    let mut at: usize = from;
    while at < s.len() && s[at] != 0
        invariant
            at <= s@.len(),
            zero_from(s@, from as int) == zero_from(s@, at as int),
        decreases s@.len() - at,
    {
        at += 1;
    }
    at
}

/// Reads the 16-bit integer at index `at`.
pub fn read_u16(s: &[u8], at: usize) -> (value: u16)
    requires
        at + 2 <= s@.len(),
    ensures
        value == u16_at(s@, at as int),
{
    s[at] as u16 + 0x100 * (s[at + 1] as u16)
}

/// Reads the 32-bit integer at index `at`.
pub fn read_u32(s: &[u8], at: usize) -> (value: u32)
    requires
        at + 4 <= s@.len(),
    ensures
        value == u32_at(s@, at as int),
{
    s[at] as u32 + 0x100 * (s[at + 1] as u32) + 0x1_0000 * (s[at + 2] as u32) + 0x100_0000 * (
    s[at + 3] as u32)
}

/// Tells whether `s` begins with `prefix`.
pub fn starts_with(s: &[u8], prefix: &[u8]) -> (yes: bool)
    ensures
        yes == prefix@.is_prefix_of(s@),
{
    if s.len() < prefix.len() {
        return false;
    }
    let mut i: usize = 0;
    while i < prefix.len()
        invariant
            i <= prefix@.len() <= s@.len(),
            forall|j: int| 0 <= j < i ==> s@[j] == prefix@[j],
        decreases prefix@.len() - i,
    {
        if s[i] != prefix[i] {
            return false;
        }
        i += 1;
    }
    proof {
        assert(s@.subrange(0, prefix@.len() as int) =~= prefix@);
    }
    true
}

/// The two bytes of a number, the low one first, are read back as the number, wherever they stand.
pub proof fn law_u16_is_read_back(n: u16, s: Seq<u8>, at: int)
    requires
        s[at] == n as int % 0x100,
        s[at + 1] == n as int / 0x100,
    ensures
        u16_at(s, at) == n,
{
}

/// The four bytes of a number, the lowest first, are read back as the number, wherever they stand.
pub proof fn law_u32_is_read_back(n: u32, s: Seq<u8>, at: int)
    requires
        s[at] == n as int % 0x100,
        s[at + 1] == n as int / 0x100 % 0x100,
        s[at + 2] == n as int / 0x1_0000 % 0x100,
        s[at + 3] == n as int / 0x100_0000,
    ensures
        u32_at(s, at) == n,
{
}

/// The first zero byte ends a text: whatever stands behind it, the text before it is found whole.
pub proof fn law_text_ends_at_its_zero(text: Seq<u8>, rest: Seq<u8>)
    requires
        !text.contains(0u8),
        rest.len() == 0 || rest[0] == 0u8,
    ensures
        until_zero(text + rest) == text,
        zero_from(text + rest, 0) == text.len(),
{
    let all = text + rest;
    let at = zero_from(all, 0);
    lemma_zero_from(all, 0);
    if at < text.len() {
        assert(text.contains(text[at]));
    }
    if at > text.len() {
        assert(all[text.len() as int] == 0u8);
    }
    assert(all.take(at) =~= text);
}

} // verus!
