//! The text conventions of frame payloads: single-byte text that ends at the
//! first zero byte, and UTF-16 that opens with a byte-order mark and ends at
//! the first code unit that is zero.

use vstd::prelude::*;
use vstd::slice::slice_subrange;
use vstd::string::StringExecFns;
use crate::std_specs::utf16_unit_lossy;

verus! {

/// The index of the first zero byte of `bytes`, or their number where none
/// of them is zero.
pub open spec fn spec_terminator(bytes: Seq<u8>) -> int
    decreases bytes.len(),
{
    if bytes.len() == 0 || bytes[0] == 0 {
        0
    } else {
        1 + spec_terminator(bytes.drop_first())
    }
}

/// Each byte as the character with that code.
pub open spec fn spec_latin1(bytes: Seq<u8>) -> Seq<char> {
    Seq::new(bytes.len(), |i: int| bytes[i] as char)
}

/// The single-byte text of `bytes`: the characters before the first zero
/// byte, or all of them where there is none.
pub open spec fn spec_ascii_text(bytes: Seq<u8>) -> Seq<char> {
    spec_latin1(bytes.take(spec_terminator(bytes)))
}

/// Every byte is an ASCII code.
pub open spec fn spec_all_ascii(bytes: Seq<u8>) -> bool {
    forall|i: int| 0 <= i < bytes.len() ==> bytes[i] < 128
}

/// The terminator lies within the bytes, no byte before it is zero, and where
/// it is not the end, the byte at it is zero.
pub proof fn lemma_terminator(bytes: Seq<u8>)
    ensures
        0 <= spec_terminator(bytes) <= bytes.len(),
        forall|i: int| 0 <= i < spec_terminator(bytes) ==> bytes[i] != 0,
        spec_terminator(bytes) < bytes.len() ==> bytes[spec_terminator(bytes)] == 0,
    decreases bytes.len(),
{
    if bytes.len() == 0 || bytes[0] == 0 {
    } else {
        let rest = bytes.drop_first();
        lemma_terminator(rest);
        assert forall|i: int| 0 <= i < spec_terminator(bytes) implies bytes[i] != 0 by {
            if i > 0 {
                assert(bytes[i] == rest[i - 1]);
            }
        }
        if spec_terminator(bytes) < bytes.len() {
            assert(bytes[spec_terminator(bytes)] == rest[spec_terminator(rest)]);
        }
    }
}

/// An index with no zero byte before it, which is the end or holds a zero
/// byte, is the terminator.
pub proof fn lemma_terminator_unique(bytes: Seq<u8>, t: int)
    requires
        0 <= t <= bytes.len(),
        forall|i: int| 0 <= i < t ==> bytes[i] != 0,
        t < bytes.len() ==> bytes[t] == 0,
    ensures
        spec_terminator(bytes) == t,
{
    lemma_terminator(bytes);
    let s: int = spec_terminator(bytes);
    if s < t {
        assert(bytes[s] == 0);
    } else if t < s {
        assert(bytes[t] == 0);
    }
}

/// The text that holds each byte as the character with that code.
pub(crate) fn latin1_from_bytes(bytes: &[u8]) -> (s: String)
    ensures
        s@ == spec_latin1(bytes@),
{
    let mut string = String::new();
    let mut i: usize = 0;
    while i < bytes.len()
        invariant
            i <= bytes@.len(),
            string@ == spec_latin1(bytes@.take(i as int)),
        decreases bytes@.len() - i,
    {
        string.push(bytes[i] as char);
        i = i + 1;
        assert(string@ =~= spec_latin1(bytes@.take(i as int)));
    }
    assert(bytes@.take(i as int) =~= bytes@);
    string
}

/// Decodes single-byte text: the characters before the first zero byte.
/// Whatever follows that byte is not looked at.
pub fn ascii_from_bytes(bytes: &[u8]) -> (s: String)
    ensures
        s@ == spec_ascii_text(bytes@),
{
    let mut end: usize = 0;
    while end < bytes.len() && bytes[end] != 0
        invariant
            end <= bytes@.len(),
            forall|i: int| 0 <= i < end ==> bytes@[i] != 0,
        decreases bytes@.len() - end,
    {
        end = end + 1;
    }
    proof {
        lemma_terminator_unique(bytes@, end as int);
    }
    latin1_from_bytes(slice_subrange(bytes, 0, end))
}

/// Decodes single-byte text that must be ASCII throughout: where any byte,
/// before or after the first zero byte, is 0x80 or above, there is no text.
pub fn string_from_bytes(bytes: &[u8]) -> (r: Option<String>)
    ensures
        spec_all_ascii(bytes@) ==> r is Some && r->Some_0@ == spec_ascii_text(bytes@),
        !spec_all_ascii(bytes@) ==> r is None,
{
    let mut i: usize = 0;
    while i < bytes.len()
        invariant
            i <= bytes@.len(),
            forall|j: int| 0 <= j < i ==> bytes@[j] < 128,
        decreases bytes@.len() - i,
    {
        if bytes[i] >= 0x80 {
            return None;
        }
        i = i + 1;
    }
    Some(ascii_from_bytes(bytes))
}

/// The code unit that two bytes make up: in little-endian order the second
/// byte is the high one.
pub open spec fn spec_utf16_unit(first: u8, second: u8, little_endian: bool) -> u16 {
    if little_endian {
        (second * 256 + first) as u16
    } else {
        (first * 256 + second) as u16
    }
}

/// The character that one code unit decodes to when taken by itself: the
/// character with that code, or U+FFFD for a surrogate, which is half a pair.
pub open spec fn spec_lossy_char(unit: u16) -> char {
    if 0xD800 <= unit <= 0xDFFF {
        '\u{FFFD}'
    } else {
        unit as char
    }
}

/// The number of code units of `body`, the bytes after a byte-order mark,
/// before the first pair of zero bytes. A last byte without a partner is no
/// code unit.
pub open spec fn spec_utf16_len(body: Seq<u8>) -> int
    decreases body.len(),
{
    if body.len() < 2 || (body[0] == 0 && body[1] == 0) {
        0
    } else {
        1 + spec_utf16_len(body.skip(2))
    }
}

/// The characters of `body`, the bytes after a byte-order mark: one for each
/// code unit before the terminator, each decoded by itself.
pub open spec fn spec_utf16_chars(body: Seq<u8>, little_endian: bool) -> Seq<char> {
    Seq::new(
        spec_utf16_len(body) as nat,
        |k: int| spec_lossy_char(spec_utf16_unit(body[2 * k], body[2 * k + 1], little_endian)),
    )
}

/// The UTF-16 text of `bytes`. The first two bytes are the byte-order mark:
/// FF FE for little-endian, FE FF for big-endian. Without one of these marks
/// there is no text.
pub open spec fn spec_utf16_text(bytes: Seq<u8>) -> Seq<char> {
    if bytes.len() >= 2 && bytes[0] == 0xFF && bytes[1] == 0xFE {
        spec_utf16_chars(bytes.skip(2), true)
    } else if bytes.len() >= 2 && bytes[0] == 0xFE && bytes[1] == 0xFF {
        spec_utf16_chars(bytes.skip(2), false)
    } else {
        Seq::empty()
    }
}

/// The count of code units lies within the pairs that the bytes hold, no pair
/// before it is all zero, and where it is not the last pair, the pair at it is
/// all zero.
pub proof fn lemma_utf16_len(body: Seq<u8>)
    ensures
        0 <= spec_utf16_len(body),
        2 * spec_utf16_len(body) <= body.len(),
        forall|k: int|
            0 <= k < spec_utf16_len(body) ==> !(body[2 * k] == 0 && #[trigger] body[2 * k + 1]
                == 0),
        2 * spec_utf16_len(body) + 2 <= body.len() ==> body[2 * spec_utf16_len(body)] == 0
            && body[2 * spec_utf16_len(body) + 1] == 0,
    decreases body.len(),
{
    if body.len() < 2 || (body[0] == 0 && body[1] == 0) {
    } else {
        let rest = body.skip(2);
        lemma_utf16_len(rest);
        let n: int = spec_utf16_len(body);
        assert forall|k: int| 0 <= k < n implies !(body[2 * k] == 0 && #[trigger] body[2 * k + 1]
            == 0) by {
            if k > 0 {
                assert(body[2 * k] == rest[2 * (k - 1)]);
                assert(body[2 * k + 1] == rest[2 * (k - 1) + 1]);
            }
        }
        if 2 * n + 2 <= body.len() {
            assert(body[2 * n] == rest[2 * (n - 1)]);
            assert(body[2 * n + 1] == rest[2 * (n - 1) + 1]);
        }
    }
}

/// A count with no all-zero pair before it, which is the last pair or is
/// followed by an all-zero pair, is the count of code units.
pub proof fn lemma_utf16_len_unique(body: Seq<u8>, n: int)
    requires
        0 <= n,
        2 * n <= body.len(),
        forall|k: int| 0 <= k < n ==> !(body[2 * k] == 0 && #[trigger] body[2 * k + 1] == 0),
        2 * n + 2 <= body.len() ==> body[2 * n] == 0 && body[2 * n + 1] == 0,
    ensures
        spec_utf16_len(body) == n,
{
    lemma_utf16_len(body);
    let m: int = spec_utf16_len(body);
    if m < n {
        assert(!(body[2 * m] == 0 && body[2 * m + 1] == 0));
    } else if n < m {
        assert(!(body[2 * n] == 0 && body[2 * n + 1] == 0));
    }
}

/// Decodes UTF-16 text that opens with a byte-order mark, up to the first
/// code unit that is zero. Each code unit is decoded by itself, so a
/// character outside the Basic Multilingual Plane comes out as two U+FFFD.
pub fn utf16_from_bytes(bytes: &[u8]) -> (s: String)
    ensures
        s@ == spec_utf16_text(bytes@),
{
    if bytes.len() < 2 {
        return String::new();
    }
    let little_endian = if bytes[0] == 0xFF && bytes[1] == 0xFE {
        true
    } else if bytes[0] == 0xFE && bytes[1] == 0xFF {
        false
    } else {
        return String::new();
    };
    let ghost body = bytes@.skip(2);
    let mut string = String::new();
    let mut i: usize = 2;
    let mut n: usize = 0;
    while bytes.len() - i >= 2 && !(bytes[i] == 0 && bytes[i + 1] == 0)
        invariant
            body == bytes@.skip(2),
            2 <= i <= bytes@.len(),
            i == 2 + 2 * n,
            forall|k: int| 0 <= k < n ==> !(body[2 * k] == 0 && #[trigger] body[2 * k + 1] == 0),
            string@ == Seq::new(
                n as nat,
                |k: int|
                    spec_lossy_char(spec_utf16_unit(body[2 * k], body[2 * k + 1], little_endian)),
            ),
        decreases bytes@.len() - i,
    {
        let first: u8 = bytes[i];
        let second: u8 = bytes[i + 1];
        assert(first == body[2 * n as int] && second == body[2 * n as int + 1]);
        let unit: u16 = if little_endian {
            second as u16 * 256 + first as u16
        } else {
            first as u16 * 256 + second as u16
        };
        let decoded = utf16_unit_lossy(unit);
        string.append(decoded.as_str());
        i = i + 2;
        n = n + 1;
        assert(string@ =~= Seq::new(
            n as nat,
            |k: int| spec_lossy_char(spec_utf16_unit(body[2 * k], body[2 * k + 1], little_endian)),
        ));
    }
    proof {
        if 2 * n + 2 <= body.len() {
            assert(body[2 * n as int] == bytes@[i as int]);
            assert(body[2 * n as int + 1] == bytes@[i as int + 1]);
        }
        lemma_utf16_len_unique(body, n as int);
    }
    string
}

} // verus!
