//! Character classes and text building shared by every stage.

use vstd::prelude::*;
use vstd::utf8::{encode_scalar, encode_utf8};

verus! {

/// `String::push` appends one character to the end of the string.
pub assume_specification[ String::push ](string: &mut String, ch: char)
    ensures
        final(string)@ == old(string)@.push(ch),
;

/// The character that writes the decimal digit `d`.
pub open spec fn digit_char(d: nat) -> char {
    (('0' as u32) + d) as char
}

/// The decimal numeral of a natural number, most significant digit first.
pub open spec fn decimal(n: nat) -> Seq<char>
    decreases n,
{
    if n < 10 {
        seq![digit_char(n)]
    } else {
        decimal(n / 10).push(digit_char(n % 10))
    }
}

/// The decimal numeral of an integer, with a leading '-' when negative.
pub open spec fn signed_decimal(n: int) -> Seq<char> {
    if n < 0 {
        seq!['-'] + decimal((-n) as nat)
    } else {
        decimal(n as nat)
    }
}

fn digit(d: u64) -> (c: char)
    requires
        d < 10,
    ensures
        c == digit_char(d as nat),
{
    let b: u8 = 48u8 + (d as u8);
    b as char
}

/// Appends the decimal numeral of `n`.
pub fn push_decimal(s: &mut String, n: u64)
    ensures
        final(s)@ == old(s)@ + decimal(n as nat),
    decreases n,
{
    if n >= 10 {
        push_decimal(s, n / 10);
    }
    let c = digit(n % 10);
    s.push(c);
    proof {
        if n >= 10 {
            assert(decimal(n as nat) == decimal((n / 10) as nat).push(digit_char((n % 10) as nat)));
        }
    }
    assert(final(s)@ =~= old(s)@ + decimal(n as nat));
}

/// Appends the decimal numeral of `n`, signed.
pub fn push_signed_decimal(s: &mut String, n: i64)
    ensures
        final(s)@ == old(s)@ + signed_decimal(n as int),
{
    if n < 0 {
        s.push('-');
        let m: i64 = -(n + 1);
        let magnitude: u64 = (m as u64) + 1;
        push_decimal(s, magnitude);
        assert(final(s)@ =~= old(s)@ + signed_decimal(n as int));
    } else {
        push_decimal(s, n as u64);
    }
}

/// The decimal numeral of `n` as a new string.
pub fn decimal_text(n: u64) -> (s: String)
    ensures
        s@ == decimal(n as nat),
{
    let mut s = String::new();
    push_decimal(&mut s, n);
    assert(s@ =~= decimal(n as nat));
    s
}

/// Unicode's White_Space property, which `char::is_whitespace` tests.
pub open spec fn is_whitespace(c: char) -> bool {
    let u = c as u32;
    ||| 0x9 <= u <= 0xD
    ||| u == 0x20
    ||| u == 0x85
    ||| u == 0xA0
    ||| u == 0x1680
    ||| 0x2000 <= u <= 0x200A
    ||| u == 0x2028
    ||| u == 0x2029
    ||| u == 0x202F
    ||| u == 0x205F
    ||| u == 0x3000
}

/// Tests the Unicode White_Space property.
pub fn char_is_whitespace(c: char) -> (b: bool)
    ensures
        b == is_whitespace(c),
{
    let u = c as u32;
    (0x9 <= u && u <= 0xD) || u == 0x20 || u == 0x85 || u == 0xA0 || u == 0x1680 || (0x2000
        <= u && u <= 0x200A) || u == 0x2028 || u == 0x2029 || u == 0x202F || u == 0x205F || u
        == 0x3000
}

pub open spec fn is_ascii_digit(c: char) -> bool {
    '0' <= c <= '9'
}

pub fn char_is_ascii_digit(c: char) -> (b: bool)
    ensures
        b == is_ascii_digit(c),
{
    '0' <= c && c <= '9'
}

pub open spec fn is_ascii_letter(c: char) -> bool {
    ('a' <= c <= 'z') || ('A' <= c <= 'Z')
}

/// What `char::is_alphabetic` answers for `c` (Unicode's Alphabetic property).
pub uninterp spec fn alphabetic(c: char) -> bool;

/// What `char::is_alphanumeric` answers for `c` (Alphabetic or Numeric).
pub uninterp spec fn alphanumeric(c: char) -> bool;

/// Calls `char::is_alphabetic`. Its answer is named `alphabetic(c)`; among the
/// ASCII characters exactly the letters are alphabetic.
#[verifier::external_body]
pub(crate) fn char_is_alphabetic(c: char) -> (b: bool)
    ensures
        b == alphabetic(c),
        is_ascii_letter(c) ==> b,
        (c as u32) < 128 && !is_ascii_letter(c) ==> !b,
{
    c.is_alphabetic()
}

/// Calls `char::is_alphanumeric`. Its answer is named `alphanumeric(c)`; among the
/// ASCII characters exactly the letters and the digits are alphanumeric, and no
/// white-space character is (Unicode gives none of them the Alphabetic or the
/// Numeric property).
#[verifier::external_body]
pub(crate) fn char_is_alphanumeric(c: char) -> (b: bool)
    ensures
        b == alphanumeric(c),
        is_ascii_letter(c) || is_ascii_digit(c) ==> b,
        (c as u32) < 128 && !is_ascii_letter(c) && !is_ascii_digit(c) ==> !b,
        is_whitespace(c) ==> !b,
{
    c.is_alphanumeric()
}

/// What `{:?}` writes for a character.
pub uninterp spec fn char_debug(c: char) -> Seq<char>;

/// What `{:?}` writes for a string slice.
pub uninterp spec fn str_debug(s: Seq<char>) -> Seq<char>;

pub open spec fn is_plain_ascii(c: char) -> bool {
    0x20 <= (c as u32) <= 0x7e && c != '\'' && c != '\\' && c != '"'
}

/// Formats a character with `{:?}`. Its text is named `char_debug(c)`; a printable
/// ASCII character other than a quote or a backslash is written between single quotes.
#[verifier::external_body]
pub(crate) fn char_debug_text(c: char) -> (s: String)
    ensures
        s@ == char_debug(c),
        is_plain_ascii(c) ==> s@ == seq!['\''].push(c).push('\''),
{
    format!("{:?}", c)
}

/// Formats a string slice with `{:?}`. Its text is named `str_debug(t@)`; a text of
/// printable ASCII characters other than quotes and backslashes is written between
/// double quotes.
#[verifier::external_body]
pub(crate) fn str_debug_text(t: &str) -> (s: String)
    ensures
        s@ == str_debug(t@),
        (forall|i: int| 0 <= i < t@.len() ==> is_plain_ascii(#[trigger] t@[i])) ==> s@ == seq![
            '"',
        ] + t@ + seq!['"'],
{
    format!("{:?}", t)
}

// ---------------------------------------------------------------------------
// Byte offsets of characters in UTF-8
/// The number of bytes that UTF-8 takes for `c`.
pub open spec fn width(c: char) -> int {
    encode_scalar(c as u32).len() as int
}

/// The byte offset of the `i`-th character of `s`.
pub open spec fn byte_offset(s: Seq<char>, i: int) -> int {
    encode_utf8(s.take(i)).len() as int
}

pub proof fn lemma_encode_push(a: Seq<char>, c: char)
    ensures
        encode_utf8(a.push(c)) == encode_utf8(a) + encode_scalar(c as u32),
    decreases a.len(),
{
    if a.len() == 0 {
        assert(a.push(c).drop_first() =~= Seq::<char>::empty());
        assert(encode_utf8(Seq::<char>::empty()) =~= Seq::<u8>::empty());
        assert(encode_utf8(a.push(c)) =~= encode_utf8(a) + encode_scalar(c as u32));
    } else {
        lemma_encode_push(a.drop_first(), c);
        assert(a.push(c).drop_first() =~= a.drop_first().push(c));
        assert(encode_utf8(a.push(c)) =~= encode_utf8(a) + encode_scalar(c as u32));
    }
}

pub proof fn lemma_byte_offset_step(s: Seq<char>, i: int)
    requires
        0 <= i < s.len(),
    ensures
        byte_offset(s, i + 1) == byte_offset(s, i) + width(s[i]),
{
    assert(s.take(i + 1) =~= s.take(i).push(s[i]));
    lemma_encode_push(s.take(i), s[i]);
}

pub proof fn lemma_width_bounds(c: char)
    ensures
        1 <= width(c) <= 4,
{
    vstd::utf8::char_is_scalar(c);
}

pub proof fn lemma_byte_offset_monotone(s: Seq<char>, i: int, j: int)
    requires
        0 <= i <= j <= s.len(),
    ensures
        byte_offset(s, i) + (j - i) <= byte_offset(s, j),
    decreases j - i,
{
    if i < j {
        lemma_byte_offset_monotone(s, i, j - 1);
        lemma_byte_offset_step(s, j - 1);
        lemma_width_bounds(s[j - 1]);
    }
}

pub fn char_width(c: char) -> (w: usize)
    ensures
        w == width(c),
{
    proof {
        vstd::utf8::char_is_scalar(c);
    }
    let u = c as u32;
    if u < 0x80 {
        1
    } else if u < 0x800 {
        2
    } else if u < 0x10000 {
        3
    } else {
        4
    }
}


pub proof fn lemma_offsets_bounded(s: Seq<char>, i: int)
    requires
        0 <= i <= s.len(),
    ensures
        0 <= byte_offset(s, i) <= byte_offset(s, s.len() as int),
{
    lemma_byte_offset_monotone(s, i, s.len() as int);
}


/// The characters of a string slice.
pub fn chars_of(source: &str) -> (chars: Vec<char>)
    ensures
        chars@ == source@,
{
    let mut chars: Vec<char> = Vec::new();
    for c in it: source.chars()
        invariant
            chars@ == it.seq().take(it.index() as int),
    {
        chars.push(c);
    }
    assert(chars@ =~= source@);
    chars
}

} // verus!
