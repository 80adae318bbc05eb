//! Character classes and conversions between `str`, `String` and `Vec<char>`.

use vstd::prelude::*;

verus! {

/// `String::push` appends one character at the end and changes nothing else.
pub assume_specification[ std::string::String::push ](s: &mut std::string::String, c: char)
    ensures
        final(s)@ == old(s)@.push(c),
;

/// Whether `u` is a Unicode scalar value: a code point that is no surrogate.
pub open spec fn is_scalar_value(u: u32) -> bool {
    u <= 0xD7FF || (0xE000 <= u && u <= 0x10FFFF)
}

/// `char::from_u32` returns the character with the given code when the code
/// is a Unicode scalar value, and `None` for a surrogate or a code above
/// `0x10FFFF`.
pub assume_specification[ char::from_u32 ](i: u32) -> (r: Option<char>)
    ensures
        is_scalar_value(i) ==> r == Some(i as char),
        !is_scalar_value(i) ==> r is None,
;

/// The Unicode property XID_Start, as `unicode_ident` tabulates it.
pub uninterp spec fn xid_start(c: char) -> bool;

/// The Unicode property XID_Continue, as `unicode_ident` tabulates it.
pub uninterp spec fn xid_continue(c: char) -> bool;

/// The letters `a` to `z` and `A` to `Z`.
pub open spec fn is_ascii_alphabetic(c: char) -> bool {
    ('a' <= c && c <= 'z') || ('A' <= c && c <= 'Z')
}

/// The digits `0` to `9`.
pub open spec fn is_ascii_digit(c: char) -> bool {
    '0' <= c && c <= '9'
}

/// The digits `0` to `9` and the letters `a` to `f` of either case.
pub open spec fn is_ascii_hexdigit(c: char) -> bool {
    is_ascii_digit(c) || ('a' <= c && c <= 'f') || ('A' <= c && c <= 'F')
}

/// `unicode_ident::is_xid_start` is a table lookup on its argument alone. Its
/// result is named `xid_start`; for an ASCII character the table is the bit
/// mask `ASCII_START`, which holds exactly the letters.
pub assume_specification[ unicode_ident::is_xid_start ](ch: char) -> (r: bool)
    ensures
        r == xid_start(ch),
        (ch as u32) < 0x80 ==> r == is_ascii_alphabetic(ch),
;

/// `unicode_ident::is_xid_continue` is a table lookup on its argument alone.
/// Its result is named `xid_continue`; for an ASCII character the table is
/// the bit mask `ASCII_CONTINUE`, which holds exactly the letters, the digits
/// and the underscore.
pub assume_specification[ unicode_ident::is_xid_continue ](ch: char) -> (r: bool)
    ensures
        r == xid_continue(ch),
        (ch as u32) < 0x80 ==> r == (is_ascii_alphabetic(ch) || is_ascii_digit(ch) || ch == '_'),
;

/// Whether an identifier may begin with `c`: a letter among the ASCII
/// characters, and beyond them what the tables of `unicode_ident` say.
pub open spec fn is_ident_start(c: char) -> bool {
    if (c as u32) < 0x80 {
        is_ascii_alphabetic(c)
    } else {
        xid_start(c)
    }
}

/// Whether an identifier may go on with `c`: a letter, a digit or the
/// underscore among the ASCII characters, and beyond them what the tables of
/// `unicode_ident` say.
pub open spec fn is_ident_continue(c: char) -> bool {
    if (c as u32) < 0x80 {
        is_ascii_alphabetic(c) || is_ascii_digit(c) || c == '_'
    } else {
        xid_continue(c)
    }
}

/// The characters with the Unicode property White_Space.
pub open spec fn is_whitespace(c: char) -> bool {
    let u = c as u32;
    (0x09 <= u && u <= 0x0D) || u == 0x20 || u == 0x85 || u == 0xA0 || u == 0x1680 || (0x2000
        <= u && u <= 0x200A) || u == 0x2028 || u == 0x2029 || u == 0x202F || u == 0x205F || u
        == 0x3000
}

/// The classes of characters that the tokenizer scans runs of.
#[derive(Clone, Copy, Debug, PartialEq, Eq, Structural)]
pub enum CharClass {
    Whitespace,
    Digit,
    HexDigit,
    IdentContinue,
    Dot,
}

/// Whether `c` belongs to `class`.
pub open spec fn in_class(c: char, class: CharClass) -> bool {
    match class {
        CharClass::Whitespace => is_whitespace(c),
        CharClass::Digit => is_ascii_digit(c),
        CharClass::HexDigit => is_ascii_hexdigit(c),
        CharClass::IdentContinue => is_ident_continue(c),
        CharClass::Dot => c == '.',
    }
}

/// Whether `c` is whitespace.
pub fn char_is_whitespace(c: char) -> (r: bool)
    ensures
        r == is_whitespace(c),
{
    let u: u32 = c as u32;
    (0x09 <= u && u <= 0x0D) || u == 0x20 || u == 0x85 || u == 0xA0 || u == 0x1680 || (0x2000
        <= u && u <= 0x200A) || u == 0x2028 || u == 0x2029 || u == 0x202F || u == 0x205F || u
        == 0x3000
}

/// Whether `c` is a decimal digit.
pub fn char_is_ascii_digit(c: char) -> (r: bool)
    ensures
        r == is_ascii_digit(c),
{
    '0' <= c && c <= '9'
}

/// Whether `c` is a hexadecimal digit.
pub fn char_is_ascii_hexdigit(c: char) -> (r: bool)
    ensures
        r == is_ascii_hexdigit(c),
{
    ('0' <= c && c <= '9') || ('a' <= c && c <= 'f') || ('A' <= c && c <= 'F')
}

/// Whether an identifier may begin with `c`.
pub fn char_is_ident_start(c: char) -> (r: bool)
    ensures
        r == is_ident_start(c),
{
    unicode_ident::is_xid_start(c)
}

/// Whether an identifier may go on with `c`.
pub fn char_is_ident_continue(c: char) -> (r: bool)
    ensures
        r == is_ident_continue(c),
{
    unicode_ident::is_xid_continue(c)
}

/// Whether `c` belongs to `class`.
pub fn char_in_class(c: char, class: CharClass) -> (r: bool)
    ensures
        r == in_class(c, class),
{
    match class {
        CharClass::Whitespace => char_is_whitespace(c),
        CharClass::Digit => char_is_ascii_digit(c),
        CharClass::HexDigit => char_is_ascii_hexdigit(c),
        CharClass::IdentContinue => char_is_ident_continue(c),
        CharClass::Dot => c == '.',
    }
}

/// The characters of `s`, in order.
pub fn chars_of(s: &str) -> (r: Vec<char>)
    ensures
        r@ == s@,
{
    let mut out: Vec<char> = Vec::new();
    for c in it: s.chars()
        invariant
            out@ == it.seq().take(it.index() as int),
    {
        out.push(c);
    }
    out
}

/// The characters `data[start..end]` as a `String`.
pub fn string_of(data: &[char], start: usize, end: usize) -> (r: String)
    requires
        start <= end <= data@.len(),
    ensures
        r@ == data@.subrange(start as int, end as int),
{
    let mut out = String::new();
    let mut i: usize = start;
    while i < end
        invariant
            start <= i <= end <= data@.len(),
            out@ == data@.subrange(start as int, i as int),
        decreases end - i,
    {
        out.push(data[i]);
        i += 1;
    }
    out
}

/// Whether `data[start..end]` spells `lit`.
pub fn slice_is(data: &[char], start: usize, end: usize, lit: &str) -> (r: bool)
    requires
        start <= end <= data@.len(),
    ensures
        r == (data@.subrange(start as int, end as int) == lit@),
{
    let mut i: usize = start;
    let mut same: bool = true;
    for c in it: lit.chars()
        invariant
            start <= end <= data@.len(),
            it.seq() == lit@,
            same ==> i == start + it.index() && i <= end && data@.subrange(start as int, i as int)
                == lit@.take(i - start),
            !same ==> data@.subrange(start as int, end as int) != lit@,
    {
        if same {
            if i < end && data[i] == c {
                i += 1;
                assert(data@.subrange(start as int, i as int) =~= lit@.take(i - start));
            } else {
                same = false;
                assert(data@.subrange(start as int, end as int) != lit@) by {
                    if i < end {
                        assert(data@.subrange(start as int, end as int)[i - start] == data@[i as int]);
                    }
                }
            }
        }
    }
    proof {
        if same {
            assert(lit@.take(i - start) =~= lit@);
            if i < end {
                assert(data@.subrange(start as int, end as int).len() != lit@.len());
            }
        }
    }
    same && i == end
}

/// Whether `a` and `b` hold the same characters.
pub fn str_eq(a: &str, b: &str) -> (r: bool)
    ensures
        r == (a@ == b@),
{
    let chars = chars_of(a);
    assert(chars@.subrange(0, chars@.len() as int) =~= chars@);
    slice_is(chars.as_slice(), 0, chars.len(), b)
}

/// Whether `a` holds the single character `c`.
pub fn str_is_char(a: &str, c: char) -> (r: bool)
    ensures
        r == (a@ == seq![c]),
{
    let chars = chars_of(a);
    if chars.len() == 1 && chars[0] == c {
        assert(chars@ =~= seq![c]);
        true
    } else {
        false
    }
}

} // verus!
