use vstd::prelude::*;
use vstd::utf8::encode_utf8;

verus! {

/// The characters with the Unicode `White_Space` property.
pub open spec fn white_space(c: char) -> bool {
    let u = c as u32;
    ||| 0x09 <= u <= 0x0d
    ||| u == 0x20
    ||| u == 0x85
    ||| u == 0xa0
    ||| u == 0x1680
    ||| 0x2000 <= u <= 0x200a
    ||| u == 0x2028
    ||| u == 0x2029
    ||| u == 0x202f
    ||| u == 0x205f
    ||| u == 0x3000
}

pub open spec fn ascii_letter(c: char) -> bool {
    ('a' <= c && c <= 'z') || ('A' <= c && c <= 'Z')
}

pub open spec fn ascii_digit(c: char) -> bool {
    '0' <= c && c <= '9'
}

/// Whether a character beyond ASCII has the Unicode `Alphabetic` property.
pub uninterp spec fn alphabetic_beyond_ascii(c: char) -> bool;

/// Whether a character beyond ASCII is `Alphabetic` or `Numeric`.
pub uninterp spec fn alphanumeric_beyond_ascii(c: char) -> bool;

/// Whether a character has the Unicode `Alphabetic` property: on ASCII, the
/// letters.
pub open spec fn alphabetic(c: char) -> bool {
    if (c as u32) < 0x80 {
        ascii_letter(c)
    } else {
        alphabetic_beyond_ascii(c)
    }
}

/// Whether a character is `Alphabetic` or `Numeric`: on ASCII, the letters
/// and the digits.
pub open spec fn alphanumeric(c: char) -> bool {
    if (c as u32) < 0x80 {
        ascii_letter(c) || ascii_digit(c)
    } else {
        alphanumeric_beyond_ascii(c)
    }
}

/// Relies on `char::is_whitespace`: true exactly for `White_Space` characters.
pub assume_specification[ char::is_whitespace ](c: char) -> (r: bool)
    ensures
        r == white_space(c),
;

/// Relies on `char::is_alphabetic`: on ASCII exactly the letters; beyond it
/// the answer depends on the character alone.
pub assume_specification[ char::is_alphabetic ](c: char) -> (r: bool)
    ensures
        r == alphabetic(c),
        (c as u32) >= 0x80 ==> r == alphabetic_beyond_ascii(c),
;

/// Relies on `char::is_alphanumeric`: `is_alphabetic() || is_numeric()`, so on
/// ASCII exactly the letters and digits, and true of every alphabetic
/// character; beyond ASCII the answer depends on the character alone.
pub assume_specification[ char::is_alphanumeric ](c: char) -> (r: bool)
    ensures
        r == alphanumeric(c),
        (c as u32) >= 0x80 ==> r == alphanumeric_beyond_ascii(c),
        alphabetic_beyond_ascii(c) ==> r,
;

/// Number of bytes that the UTF-8 encoding of the first `i` characters takes.
pub open spec fn byte_offset(chars: Seq<char>, i: int) -> int {
    encode_utf8(chars.take(i)).len() as int
}

/// Relies on `str::char_indices`: it yields every character of the text in
/// order, each with the byte offset at which it starts. No allocation holds
/// more than `isize::MAX` bytes.
#[verifier::external_body]
pub(crate) fn char_indices(s: &str) -> (r: Vec<(usize, char)>)
    ensures
        r@.len() == s@.len(),
        r@.len() <= isize::MAX,
        forall|i: int|
            0 <= i < r@.len() ==> (#[trigger] r@[i]).1 == s@[i] && r@[i].0 == byte_offset(s@, i),
{
    s.char_indices().collect()
}

/// Relies on `FromIterator<&char>` for `String`: the characters, in order.
#[verifier::external_body]
pub(crate) fn string_from_chars(v: &Vec<char>) -> (r: String)
    ensures
        r@ == v@,
{
    v.iter().collect()
}

/// Appends the characters of `s`.
pub(crate) fn push_str(out: &mut Vec<char>, s: &str)
    ensures
        final(out)@ == old(out)@ + s@,
{
    let n = s.unicode_len();
    let mut i: usize = 0;
    while i < n
        invariant
            n == s@.len(),
            i <= n,
            out@ == old(out)@ + s@.subrange(0, i as int),
        decreases n - i,
    {
        out.push(s.get_char(i));
        assert(out@ =~= old(out)@ + s@.subrange(0, i + 1));
        i = i + 1;
    }
    assert(s@.subrange(0, n as int) =~= s@);
}

} // verus!
