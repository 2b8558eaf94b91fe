//! Character classes and small text utilities shared by the lexer and the generator.

use vstd::prelude::*;

verus! {

/// `String::push` appends one character to the end of the string and leaves the rest as it was.
pub assume_specification[ std::string::String::push ](s: &mut std::string::String, c: char)
    ensures
        final(s)@ == old(s)@.push(c),
;

/// Whether a character outside the ASCII range has the Unicode `Alphabetic` property.
pub uninterp spec fn unicode_alphabetic(c: char) -> bool;

/// `char::is_alphabetic` decides the Unicode `Alphabetic` property; the result depends on the
/// character alone. Nothing more is claimed of it here.
#[verifier::external_body]
fn has_alphabetic_property(c: char) -> (r: bool)
    ensures
        r == unicode_alphabetic(c),
{
    c.is_alphabetic()
}

/// The ASCII decimal digits.
pub open spec fn spec_is_digit(c: char) -> bool {
    '0' <= c <= '9'
}

/// The ASCII letters.
pub open spec fn spec_is_ascii_letter(c: char) -> bool {
    ('a' <= c <= 'z') || ('A' <= c <= 'Z')
}

/// A letter: an ASCII letter, or a character beyond ASCII that Unicode classes as alphabetic.
pub open spec fn spec_is_letter(c: char) -> bool {
    if c <= '\x7f' {
        spec_is_ascii_letter(c)
    } else {
        unicode_alphabetic(c)
    }
}

/// The characters that are skipped between tokens: space, tab, newline and carriage return.
pub open spec fn spec_is_whitespace(c: char) -> bool {
    c == ' ' || c == '\t' || c == '\n' || c == '\r'
}

/// The ASCII punctuation characters, in their four ranges.
pub open spec fn spec_is_punctuation(c: char) -> bool {
    ('!' <= c <= '/') || (':' <= c <= '@') || ('[' <= c <= '`') || ('{' <= c <= '~')
}

/// A character that may open an identifier.
pub open spec fn spec_starts_identifier(c: char) -> bool {
    spec_is_letter(c) || c == '_'
}

/// A character that may continue an identifier.
pub open spec fn spec_continues_identifier(c: char) -> bool {
    spec_is_digit(c) || spec_is_ascii_letter(c) || c == '_'
}

/// A character that may belong to a numeric literal.
pub open spec fn spec_continues_number(c: char) -> bool {
    spec_is_digit(c) || c == '.'
}

pub fn is_digit(c: char) -> (r: bool)
    ensures
        r == spec_is_digit(c),
{
    '0' <= c && c <= '9'
}

pub fn is_ascii_letter(c: char) -> (r: bool)
    ensures
        r == spec_is_ascii_letter(c),
{
    ('a' <= c && c <= 'z') || ('A' <= c && c <= 'Z')
}

pub fn is_letter(c: char) -> (r: bool)
    ensures
        r == spec_is_letter(c),
{
    if c <= '\x7f' {
        is_ascii_letter(c)
    } else {
        has_alphabetic_property(c)
    }
}

pub fn is_whitespace(c: char) -> (r: bool)
    ensures
        r == spec_is_whitespace(c),
{
    c == ' ' || c == '\t' || c == '\n' || c == '\r'
}

pub fn is_punctuation(c: char) -> (r: bool)
    ensures
        r == spec_is_punctuation(c),
{
    ('!' <= c && c <= '/') || (':' <= c && c <= '@') || ('[' <= c && c <= '`') || ('{' <= c && c
        <= '~')
}

pub fn starts_identifier(c: char) -> (r: bool)
    ensures
        r == spec_starts_identifier(c),
{
    is_letter(c) || c == '_'
}

pub fn continues_identifier(c: char) -> (r: bool)
    ensures
        r == spec_continues_identifier(c),
{
    is_digit(c) || is_ascii_letter(c) || c == '_'
}

pub fn continues_number(c: char) -> (r: bool)
    ensures
        r == spec_continues_number(c),
{
    is_digit(c) || c == '.'
}

/// The characters of a string slice, in order.
pub fn to_chars(s: &str) -> (v: Vec<char>)
    ensures
        v@ == s@,
{
    let mut v: Vec<char> = Vec::new();
    for c in it: s.chars()
        invariant
            v@ == it.seq().take(it.index() as int),
    {
        v.push(c);
    }
    v
}

/// The string made of the characters `chars[from..to]`.
pub fn to_text(chars: &Vec<char>, from: usize, to: usize) -> (s: String)
    requires
        from <= to <= chars.len(),
    ensures
        s@ == chars@.subrange(from as int, to as int),
{
    let mut s = String::new();
    let mut i: usize = from;
    while i < to
        invariant
            from <= i <= to <= chars.len(),
            s@ == chars@.subrange(from as int, i as int),
        decreases to - i,
    {
        s.push(chars[i]);
        i += 1;
    }
    s
}

/// Whether two pieces of text hold the same characters.
pub fn same_text(a: &str, b: &str) -> (r: bool)
    ensures
        r == (a@ == b@),
{
    let x = String::from_str(a);
    let y = String::from_str(b);
    x == y
}

} // verus!
