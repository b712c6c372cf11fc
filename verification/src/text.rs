//! Character classes and conversions between strings and character vectors.
use vstd::prelude::*;

verus! {

/// `char::is_ascii_digit`.
pub open spec fn is_digit(c: char) -> bool {
    '0' <= c && c <= '9'
}

/// `char::is_ascii_lowercase`.
pub open spec fn is_lower(c: char) -> bool {
    'a' <= c && c <= 'z'
}

/// `char::is_ascii_alphabetic`.
pub open spec fn is_ascii_letter(c: char) -> bool {
    ('a' <= c && c <= 'z') || ('A' <= c && c <= 'Z')
}

/// `char::is_ascii`.
pub open spec fn is_ascii_char(c: char) -> bool {
    (c as u32) < 128
}

/// What `char::is_alphabetic` answers beyond ASCII (the Unicode
/// `Alphabetic` property).
pub uninterp spec fn alphabetic_beyond_ascii(c: char) -> bool;

/// What `char::is_alphanumeric` answers beyond ASCII (`Alphabetic` or
/// `Numeric`).
pub uninterp spec fn alphanumeric_beyond_ascii(c: char) -> bool;

/// What `char::is_alphabetic` answers: on ASCII, the ASCII letters.
pub open spec fn alphabetic(c: char) -> bool {
    if (c as u32) < 0x80 {
        is_ascii_letter(c)
    } else {
        alphabetic_beyond_ascii(c)
    }
}

/// What `char::is_alphanumeric` answers: on ASCII, the ASCII letters and
/// digits.
pub open spec fn alphanumeric(c: char) -> bool {
    if (c as u32) < 0x80 {
        is_ascii_letter(c) || is_digit(c)
    } else {
        alphanumeric_beyond_ascii(c)
    }
}

/// What `char::is_whitespace` answers: the Unicode `White_Space` property,
/// which these code points have.
pub open spec fn whitespace(c: char) -> bool {
    let u = c as u32;
    ||| 0x9 <= u <= 0xD
    ||| u == 0x20
    ||| u == 0x85
    ||| u == 0xA0
    ||| u == 0x1680
    ||| 0x2000 <= u <= 0x200A
    ||| u == 0x2028
    ||| u == 0x2029
    ||| u == 0x202F
    ||| u == 0x205F
    ||| u == 0x3000
}

pub fn digit(c: char) -> (b: bool)
    ensures
        b == is_digit(c),
{
    '0' <= c && c <= '9'
}

pub fn lower(c: char) -> (b: bool)
    ensures
        b == is_lower(c),
{
    'a' <= c && c <= 'z'
}

pub fn ascii_letter(c: char) -> (b: bool)
    ensures
        b == is_ascii_letter(c),
{
    ('a' <= c && c <= 'z') || ('A' <= c && c <= 'Z')
}

pub fn ascii_char(c: char) -> (b: bool)
    ensures
        b == is_ascii_char(c),
{
    (c as u32) < 128
}

/// Calls `char::is_alphabetic`. The contract claims that on ASCII it is true
/// of the ASCII letters alone (as `is_ascii_alphabetic`); beyond ASCII the
/// answer is named, not listed.
#[verifier::external_body]
pub(crate) fn is_alphabetic(c: char) -> (b: bool)
    ensures
        b == alphabetic(c),
        (c as u32) >= 0x80 ==> b == alphabetic_beyond_ascii(c),
{
    c.is_alphabetic()
}

/// Calls `char::is_alphanumeric`. The contract claims that on ASCII it is
/// true of the ASCII letters and digits alone (as `is_ascii_alphanumeric`);
/// beyond ASCII the answer is named, not listed.
#[verifier::external_body]
pub(crate) fn is_alphanumeric(c: char) -> (b: bool)
    ensures
        b == alphanumeric(c),
        (c as u32) >= 0x80 ==> b == alphanumeric_beyond_ascii(c),
{
    c.is_alphanumeric()
}

/// Whether `c` has the Unicode `White_Space` property (as `char::is_whitespace`).
pub fn is_whitespace(c: char) -> (b: bool)
    ensures
        b == whitespace(c),
{
    let u = c as u32;
    (0x9 <= u && u <= 0xD) || u == 0x20 || u == 0x85 || u == 0xA0 || u == 0x1680 || (0x2000 <= u && u <= 0x200A)
        || u == 0x2028 || u == 0x2029 || u == 0x202F || u == 0x205F || u == 0x3000
}

/// Builds a `String` from its characters with `FromIterator<char>`; the
/// contract claims the string holds exactly those characters in order.
#[verifier::external_body]
pub(crate) fn string_of(v: &Vec<char>) -> (s: String)
    ensures
        s@ == v@,
{
    v.iter().collect()
}

/// The characters of a string slice, in order.
pub fn chars_of(s: &str) -> (v: Vec<char>)
    ensures
        v@ == s@,
{
    let n = s.unicode_len();
    let mut v: Vec<char> = Vec::new();
    let mut i: usize = 0;
    while i < n
        invariant
            n == s@.len(),
            i <= n,
            v@ == s@.subrange(0, i as int),
        decreases n - i,
    {
        let c = s.get_char(i);
        v.push(c);
        i = i + 1;
        assert(v@ =~= s@.subrange(0, i as int));
    }
    assert(v@ =~= s@);
    v
}

} // verus!
