//! Text helpers over std: the characters of a string and back, trimming,
//! the Unicode character classes that the search and capture rules use, and
//! decoding of UTF-8 and UTF-16.

use vstd::prelude::*;
use vstd::utf8::{decode_utf8, valid_utf8};

verus! {

/// Unicode `White_Space`, the 25 code points that `char::is_whitespace` accepts.
pub open spec fn unicode_white_space(c: char) -> bool {
    let u = c as u32;
    ||| 0x09 <= u <= 0x0D
    ||| u == 0x20
    ||| u == 0x85
    ||| u == 0xA0
    ||| u == 0x1680
    ||| 0x2000 <= u <= 0x200A
    ||| u == 0x2028
    ||| u == 0x2029
    ||| u == 0x202F
    ||| u == 0x205F
    ||| u == 0x3000
}

/// Unicode `Alphabetic` or `Numeric`, as `char::is_alphanumeric` tests it.
pub uninterp spec fn unicode_alphanumeric(c: char) -> bool;

/// `s` without its leading white space.
pub open spec fn trim_start_chars(s: Seq<char>) -> Seq<char>
    decreases s.len(),
{
    if s.len() > 0 && unicode_white_space(s[0]) {
        trim_start_chars(s.skip(1))
    } else {
        s
    }
}

/// `s` without its trailing white space.
pub open spec fn trim_end_chars(s: Seq<char>) -> Seq<char>
    decreases s.len(),
{
    if s.len() > 0 && unicode_white_space(s.last()) {
        trim_end_chars(s.drop_last())
    } else {
        s
    }
}

/// `s` without leading and trailing white space.
pub open spec fn trimmed(s: Seq<char>) -> Seq<char> {
    trim_end_chars(trim_start_chars(s))
}

/// UTF-16 decoding: a unit outside `0xD800..=0xDFFF` is a character of its own;
/// a high surrogate followed by a low surrogate is one character; any other
/// surrogate makes the input invalid (`None`).
pub open spec fn decode_utf16(u: Seq<u16>) -> Option<Seq<char>>
    decreases u.len(),
{
    if u.len() == 0 {
        Some(Seq::empty())
    } else if u[0] < 0xD800 || u[0] > 0xDFFF {
        match decode_utf16(u.skip(1)) {
            Some(r) => Some(seq![(u[0] as int) as char] + r),
            None => None,
        }
    } else if u[0] <= 0xDBFF && u.len() >= 2 && 0xDC00 <= u[1] <= 0xDFFF {
        let c = 0x10000 + (u[0] - 0xD800) * 0x400 + (u[1] - 0xDC00);
        match decode_utf16(u.skip(2)) {
            Some(r) => Some(seq![c as char] + r),
            None => None,
        }
    } else {
        None
    }
}

/// Whether a character is Unicode `White_Space`, as `char::is_whitespace` tells.
pub fn is_whitespace(c: char) -> (res: bool)
    ensures
        res == unicode_white_space(c),
{
    let u = c as u32;
    (0x09 <= u && u <= 0x0D) || u == 0x20 || u == 0x85 || u == 0xA0 || u == 0x1680 || (0x2000 <= u
        && u <= 0x200A) || u == 0x2028 || u == 0x2029 || u == 0x202F || u == 0x205F || u == 0x3000
}

/// `char::is_alphanumeric`.
///
/// Claimed: the result is `unicode_alphanumeric` of the character.
#[verifier::external_body]
pub(crate) fn is_alphanumeric(c: char) -> (res: bool)
    ensures
        res == unicode_alphanumeric(c),
{
    c.is_alphanumeric()
}

/// `str::trim`.
///
/// Claimed: the result is the text without leading and trailing `White_Space`.
#[verifier::external_body]
pub(crate) fn str_trim<'a>(s: &'a str) -> (res: &'a str)
    ensures
        res@ == trimmed(s@),
{
    s.trim()
}

/// The characters of a string, `s.chars().collect()`.
///
/// Claimed: the vector holds the string's characters in order.
#[verifier::external_body]
pub(crate) fn str_chars(s: &str) -> (res: Vec<char>)
    ensures
        res@ == s@,
{
    s.chars().collect()
}

/// `String::from_iter` over a slice of characters.
///
/// Claimed: the string holds exactly those characters, in order.
#[verifier::external_body]
pub(crate) fn string_from_chars(chars: &[char]) -> (res: String)
    ensures
        res@ == chars@,
{
    chars.iter().collect()
}

/// `String::from_utf8`, with the error dropped.
///
/// Claimed: it succeeds exactly on valid UTF-8 and then holds the decoded characters.
#[verifier::external_body]
pub(crate) fn string_from_utf8(bytes: Vec<u8>) -> (res: Option<String>)
    ensures
        res is Some <==> valid_utf8(bytes@),
        res matches Some(s) ==> s@ == decode_utf8(bytes@),
{
    String::from_utf8(bytes).ok()
}

/// `String::from_utf16`, with the error dropped.
///
/// Claimed: it succeeds exactly when `decode_utf16` does, with its characters.
#[verifier::external_body]
pub(crate) fn string_from_utf16(units: &[u16]) -> (res: Option<String>)
    ensures
        match decode_utf16(units@) {
            Some(c) => res matches Some(s) && s@ == c,
            None => res is None,
        },
{
    String::from_utf16(units).ok()
}

/// Whether the text holds anything but white space.
pub fn has_visible_text(s: &str) -> (res: bool)
    ensures
        res == (trimmed(s@).len() > 0),
{
    !str_trim(s).is_empty()
}

} // verus!

verus! {

proof fn lemma_trim_start(s: Seq<char>)
    ensures
        exists|i: int|
            0 <= i <= s.len() && trim_start_chars(s) == s.skip(i) && (forall|k: int|
                0 <= k < i ==> unicode_white_space(#[trigger] s[k])),
        trim_start_chars(s).len() > 0 ==> !unicode_white_space(trim_start_chars(s)[0]),
    decreases s.len(),
{
    if s.len() > 0 && unicode_white_space(s[0]) {
        let r = s.skip(1);
        lemma_trim_start(r);
        let i = choose|i: int|
            0 <= i <= r.len() && trim_start_chars(r) == r.skip(i) && (forall|k: int|
                0 <= k < i ==> unicode_white_space(#[trigger] r[k]));
        assert(r.skip(i) =~= s.skip(i + 1));
        assert forall|k: int| 0 <= k < i + 1 implies unicode_white_space(#[trigger] s[k]) by {
            if k > 0 {
                assert(s[k] == r[k - 1]);
            }
        }
    } else {
        assert(s.skip(0) =~= s);
    }
}

proof fn lemma_trim_end(s: Seq<char>)
    ensures
        exists|j: int|
            0 <= j <= s.len() && trim_end_chars(s) == s.take(j) && (forall|k: int|
                j <= k < s.len() ==> unicode_white_space(#[trigger] s[k])),
        trim_end_chars(s).len() > 0 ==> !unicode_white_space(trim_end_chars(s).last()),
    decreases s.len(),
{
    if s.len() > 0 && unicode_white_space(s.last()) {
        let r = s.drop_last();
        lemma_trim_end(r);
        let j = choose|j: int|
            0 <= j <= r.len() && trim_end_chars(r) == r.take(j) && (forall|k: int|
                j <= k < r.len() ==> unicode_white_space(#[trigger] r[k]));
        assert(r.take(j) =~= s.take(j));
        assert forall|k: int| j <= k < s.len() implies unicode_white_space(#[trigger] s[k]) by {
            if k < r.len() {
                assert(s[k] == r[k]);
            }
        }
    } else {
        assert(s.take(s.len() as int) =~= s);
    }
}

/// Trimming removes white space from both ends and nothing else: the result
/// is a stretch of the text, everything before and after it is white space,
/// and it neither starts nor ends with white space.
pub proof fn lemma_trimmed_is_inner_stretch(s: Seq<char>)
    ensures
        exists|i: int, j: int|
            0 <= i <= j <= s.len() && trimmed(s) == s.subrange(i, j) && (forall|k: int|
                0 <= k < i ==> unicode_white_space(#[trigger] s[k])) && (forall|k: int|
                j <= k < s.len() ==> unicode_white_space(#[trigger] s[k])),
        trimmed(s).len() > 0 ==> !unicode_white_space(trimmed(s)[0]) && !unicode_white_space(
            trimmed(s).last(),
        ),
{
    lemma_trim_start(s);
    let t = trim_start_chars(s);
    let i = choose|i: int|
        0 <= i <= s.len() && trim_start_chars(s) == s.skip(i) && (forall|k: int|
            0 <= k < i ==> unicode_white_space(#[trigger] s[k]));
    lemma_trim_end(t);
    let j = choose|j: int|
        0 <= j <= t.len() && trim_end_chars(t) == t.take(j) && (forall|k: int|
            j <= k < t.len() ==> unicode_white_space(#[trigger] t[k]));
    assert(t.take(j) =~= s.subrange(i, i + j));
    assert forall|k: int| i + j <= k < s.len() implies unicode_white_space(#[trigger] s[k]) by {
        assert(s[k] == t[k - i]);
    }
    if trimmed(s).len() > 0 {
        assert(trimmed(s)[0] == t[0]);
    }
}

/// UTF-16 without surrogates decodes unit by unit: each unit is the
/// character with that code point.
pub proof fn lemma_utf16_without_surrogates(u: Seq<u16>)
    requires
        forall|k: int| 0 <= k < u.len() ==> (#[trigger] u[k] < 0xD800 || u[k] > 0xDFFF),
    ensures
        decode_utf16(u) == Some(Seq::new(u.len(), |k: int| (u[k] as int) as char)),
    decreases u.len(),
{
    if u.len() > 0 {
        let r = u.skip(1);
        assert forall|k: int| 0 <= k < r.len() implies (#[trigger] r[k] < 0xD800 || r[k] > 0xDFFF) by {
            assert(r[k] == u[k + 1]);
        }
        lemma_utf16_without_surrogates(r);
        assert(u[0] < 0xD800 || u[0] > 0xDFFF);
        assert(seq![(u[0] as int) as char] + Seq::new(r.len(), |k: int| (r[k] as int) as char) =~= Seq::new(
            u.len(),
            |k: int| (u[k] as int) as char,
        ));
    } else {
        assert(Seq::new(0, |k: int| (u[k] as int) as char) =~= Seq::<char>::empty());
    }
}

} // verus!
