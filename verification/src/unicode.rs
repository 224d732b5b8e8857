//! Character classification and character-level string building.

use vstd::prelude::*;

verus! {

/// The Unicode `Alphanumeric` property of a character (alphabetic or numeric).
pub uninterp spec fn unicode_alphanumeric(c: char) -> bool;

/// The Unicode `Uppercase` property of a character.
pub uninterp spec fn unicode_uppercase(c: char) -> bool;

/// The Unicode `Lowercase` property of a character.
pub uninterp spec fn unicode_lowercase(c: char) -> bool;

/// The Unicode numeric property (general categories Nd, Nl, No) of a character.
pub uninterp spec fn unicode_numeric(c: char) -> bool;

/// The full Unicode lowercase mapping of a character (one or more characters).
pub uninterp spec fn unicode_to_lowercase(c: char) -> Seq<char>;

/// `c` is an ASCII character.
pub open spec fn is_ascii_char(c: char) -> bool {
    (c as u32) < 0x80
}

/// `c` is an ASCII capital letter.
pub open spec fn is_ascii_upper(c: char) -> bool {
    0x41 <= (c as u32) <= 0x5a
}

/// `c` is an ASCII small letter.
pub open spec fn is_ascii_lower(c: char) -> bool {
    0x61 <= (c as u32) <= 0x7a
}

/// `c` is an ASCII digit.
pub open spec fn is_ascii_digit(c: char) -> bool {
    0x30 <= (c as u32) <= 0x39
}

/// Whether `c` is alphanumeric: among ASCII characters the letters and digits, beyond
/// ASCII the Unicode property.
pub open spec fn char_alphanumeric(c: char) -> bool {
    if is_ascii_char(c) {
        is_ascii_upper(c) || is_ascii_lower(c) || is_ascii_digit(c)
    } else {
        unicode_alphanumeric(c)
    }
}

/// Whether `c` is uppercase: among ASCII characters the capital letters.
pub open spec fn char_uppercase(c: char) -> bool {
    if is_ascii_char(c) {
        is_ascii_upper(c)
    } else {
        unicode_uppercase(c)
    }
}

/// Whether `c` is lowercase: among ASCII characters the small letters.
pub open spec fn char_lowercase(c: char) -> bool {
    if is_ascii_char(c) {
        is_ascii_lower(c)
    } else {
        unicode_lowercase(c)
    }
}

/// Whether `c` is numeric: among ASCII characters the digits.
pub open spec fn char_numeric(c: char) -> bool {
    if is_ascii_char(c) {
        is_ascii_digit(c)
    } else {
        unicode_numeric(c)
    }
}

/// The lowercase mapping of `c`: an ASCII capital letter maps to its small letter, any
/// other ASCII character to itself.
pub open spec fn char_to_lowercase(c: char) -> Seq<char> {
    if is_ascii_upper(c) {
        seq![((c as u32) + 0x20) as char]
    } else if is_ascii_char(c) {
        seq![c]
    } else {
        unicode_to_lowercase(c)
    }
}

/// Calls `char::is_alphanumeric` (alphabetic or numeric). For ASCII characters that is
/// the letters and the digits; beyond ASCII, the Unicode property.
#[verifier::external_body]
pub fn is_alphanumeric(c: char) -> (r: bool)
    ensures
        r == char_alphanumeric(c),
        !is_ascii_char(c) ==> r == unicode_alphanumeric(c),
{
    c.is_alphanumeric()
}

/// Calls `char::is_uppercase`. For ASCII characters that is the capital letters; beyond
/// ASCII, the Unicode property.
#[verifier::external_body]
pub fn is_uppercase(c: char) -> (r: bool)
    ensures
        r == char_uppercase(c),
        !is_ascii_char(c) ==> r == unicode_uppercase(c),
{
    c.is_uppercase()
}

/// Calls `char::is_lowercase`. For ASCII characters that is the small letters; beyond
/// ASCII, the Unicode property.
#[verifier::external_body]
pub fn is_lowercase(c: char) -> (r: bool)
    ensures
        r == char_lowercase(c),
        !is_ascii_char(c) ==> r == unicode_lowercase(c),
{
    c.is_lowercase()
}

/// Calls `char::is_numeric`. For ASCII characters that is the digits; beyond ASCII, the
/// general categories Nd, Nl and No.
#[verifier::external_body]
pub fn is_numeric(c: char) -> (r: bool)
    ensures
        r == char_numeric(c),
        !is_ascii_char(c) ==> r == unicode_numeric(c),
{
    c.is_numeric()
}

/// Calls `char::to_lowercase` and collects the characters it yields. Its documentation
/// promises at least one character, the character itself when it has no lowercase mapping;
/// among ASCII characters only the capital letters have one, to their small letters.
#[verifier::external_body]
pub fn to_lowercase(c: char) -> (r: Vec<char>)
    ensures
        r@ == char_to_lowercase(c),
        !is_ascii_char(c) ==> r@ == unicode_to_lowercase(c),
        r@.len() >= 1,
{
    c.to_lowercase().collect()
}

/// Calls `String::push`: appends `c` to the end of `s`.
#[verifier::external_body]
pub fn push_char(s: &mut String, c: char)
    ensures
        final(s)@ == old(s)@.push(c),
{
    s.push(c)
}

/// The characters of `s`, in order.
pub fn chars_of(s: &str) -> (r: Vec<char>)
    ensures
        r@ == s@,
{
    let mut r: Vec<char> = Vec::new();
    for c in it: s.chars()
        invariant
            it.seq() == s@,
            r@ == it.seq().take(it.index()),
    {
        proof {
            assert(it.seq().take(it.index() + 1) =~= it.seq().take(it.index()).push(c));
        }
        r.push(c);
    }
    assert(s@.take(s@.len() as int) =~= s@);
    r
}

/// The Unicode `White_Space` property, which `char::is_whitespace` reports.
pub open spec fn is_whitespace_spec(c: char) -> bool {
    let v = c as u32;
    ||| (0x09 <= v && v <= 0x0d)
    ||| v == 0x20
    ||| v == 0x85
    ||| v == 0xa0
    ||| v == 0x1680
    ||| (0x2000 <= v && v <= 0x200a)
    ||| v == 0x2028
    ||| v == 0x2029
    ||| v == 0x202f
    ||| v == 0x205f
    ||| v == 0x3000
}

/// Whether `c` is a Unicode white-space character.
pub fn is_whitespace(c: char) -> (r: bool)
    ensures
        r == is_whitespace_spec(c),
{
    let v = c as u32;
    (0x09 <= v && v <= 0x0d) || v == 0x20 || v == 0x85 || v == 0xa0 || v == 0x1680 || (0x2000
        <= v && v <= 0x200a) || v == 0x2028 || v == 0x2029 || v == 0x202f || v == 0x205f || v
        == 0x3000
}

/// Builds a `String` holding exactly the characters of `chars`.
pub fn string_from_chars(chars: &Vec<char>) -> (r: String)
    ensures
        r@ == chars@,
{
    let mut r = String::new();
    let mut i: usize = 0;
    while i < chars.len()
        invariant
            i <= chars.len(),
            r@ == chars@.take(i as int),
        decreases chars.len() - i,
    {
        push_char(&mut r, chars[i]);
        i = i + 1;
        assert(r@ =~= chars@.take(i as int));
    }
    assert(chars@.take(chars.len() as int) =~= chars@);
    r
}

} // verus!
