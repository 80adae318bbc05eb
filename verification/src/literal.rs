//! The text between the quotes of a string or character literal, with its
//! escapes turned back into the characters they stand for.

use crate::error::{Error, ErrorView};
use crate::lex::{lemma_scan, scan, scan_class};
use crate::number::{parse_digits, read_digits};
use crate::text::{chars_of, is_scalar_value, CharClass};
use vstd::prelude::*;
use vstd::slice::slice_subrange;

verus! {

/// The character that a backslash and `c` stand for, where the two are an
/// escape of fixed length.
pub open spec fn simple_escape(c: char) -> Option<char> {
    if c == '0' {
        Some('\0')
    } else if c == 't' {
        Some('\t')
    } else if c == 'r' {
        Some('\r')
    } else if c == 'n' {
        Some('\n')
    } else if c == '\\' {
        Some('\\')
    } else if c == '\'' {
        Some('\'')
    } else if c == '"' {
        Some('"')
    } else {
        None
    }
}

/// The message for a backslash followed by something that is no escape.
pub open spec fn invalid_escape_message(sequence: Seq<char>) -> Seq<char> {
    "invalid escape sequence '"@ + sequence + "'"@
}

/// The escape that the backslash at `pos` begins: the character it stands
/// for and the position behind it, or the message of the error.
///
/// `\u{...}` takes one or more hexadecimal digits between its braces, and
/// they must spell a Unicode scalar value.
pub open spec fn escape_at(text: Seq<char>, pos: int) -> Result<(char, int), Seq<char>> {
    if pos + 1 >= text.len() {
        Err(invalid_escape_message(text.subrange(pos, text.len() as int)))
    } else if simple_escape(text[pos + 1]) is Some {
        Ok((simple_escape(text[pos + 1])->Some_0, pos + 2))
    } else if text[pos + 1] == 'u' {
        let close = scan(text, pos + 3, CharClass::HexDigit);
        if !(pos + 2 < text.len() && text[pos + 2] == '{') {
            Err("invalid unicode escape"@)
        } else if !(close < text.len() && text[close] == '}') {
            Err("invalid unicode escape"@)
        } else {
            match parse_digits(text.subrange(pos + 3, close), 16, u32::MAX as nat) {
                Err(_) => Err("invalid unicode escape"@),
                Ok(code) => if is_scalar_value(code as u32) {
                    Ok((code as u32 as char, close + 1))
                } else {
                    Err("unicode escape was not a valid unicode codepoint"@)
                },
            }
        }
    } else {
        Err(invalid_escape_message(text.subrange(pos, pos + 2)))
    }
}

/// `head`, then what `rest` holds.
pub open spec fn preceded_by(head: Seq<char>, rest: Result<Seq<char>, Seq<char>>) -> Result<
    Seq<char>,
    Seq<char>,
> {
    match rest {
        Ok(tail) => Ok(head + tail),
        Err(message) => Err(message),
    }
}

/// An escape ends behind the backslash that begins it, inside the text.
pub proof fn lemma_escape_at(text: Seq<char>, pos: int)
    requires
        0 <= pos < text.len(),
    ensures
        escape_at(text, pos) matches Ok((_, next)) ==> pos + 2 <= next <= text.len(),
{
    if pos + 3 <= text.len() {
        lemma_scan(text, pos + 3, CharClass::HexDigit);
    }
}

/// The characters that `text` stands for from `pos` on, or the message of
/// the first escape that cannot be decoded.
pub open spec fn unescaped_from(text: Seq<char>, pos: int) -> Result<Seq<char>, Seq<char>>
    decreases text.len() - pos,
{
    if !(0 <= pos < text.len()) {
        Ok(Seq::empty())
    } else if text[pos] != '\\' {
        preceded_by(seq![text[pos]], unescaped_from(text, pos + 1))
    } else {
        match escape_at(text, pos) {
            Err(message) => Err(message),
            Ok((c, next)) => {
                proof {
                    lemma_escape_at(text, pos);
                }
                preceded_by(seq![c], unescaped_from(text, next))
            },
        }
    }
}

/// The characters that `text` stands for.
pub open spec fn unescaped(text: Seq<char>) -> Result<Seq<char>, Seq<char>> {
    unescaped_from(text, 0)
}

/// The message for `sequence`, which begins with a backslash and is no escape.
fn invalid_escape(text: &[char], start: usize, end: usize) -> (r: Error)
    requires
        start <= end <= text@.len(),
    ensures
        r@ == (ErrorView::InvalidStringLiteral {
            message: invalid_escape_message(text@.subrange(start as int, end as int)),
        }),
{
    let mut message = String::from_str("invalid escape sequence '");
    let mut i: usize = start;
    while i < end
        invariant
            start <= i <= end <= text@.len(),
            message@ == "invalid escape sequence '"@ + text@.subrange(start as int, i as int),
        decreases end - i,
    {
        message.push(text[i]);
        assert(text@.subrange(start as int, i + 1) =~= text@.subrange(start as int, i as int).push(
            text@[i as int],
        ));
        i += 1;
    }
    message.push('\'');
    proof {
        reveal_strlit("'");
        assert("'"@ =~= seq!['\'']);
        assert(message@ =~= invalid_escape_message(text@.subrange(start as int, end as int)));
    }
    Error::invalid_string_literal(message.as_str())
}

/// Decodes the escape that the backslash at `pos` begins.
fn decode_escape(text: &[char], pos: usize) -> (r: Result<(char, usize), Error>)
    requires
        pos < text@.len(),
    ensures
        match escape_at(text@, pos as int) {
            Ok((c, next)) => r matches Ok(found) && found.0 == c && found.1 == next && pos + 2
                <= next <= text@.len(),
            Err(message) => r matches Err(e) && e@ == (ErrorView::InvalidStringLiteral {
                message,
            }),
        },
{
    let len = text.len();
    proof {
        lemma_escape_at(text@, pos as int);
    }
    if len - pos < 2 {
        return Err(invalid_escape(text, pos, len));
    }
    let c = text[pos + 1];
    if c == '0' {
        Ok(('\0', pos + 2))
    } else if c == 't' {
        Ok(('\t', pos + 2))
    } else if c == 'r' {
        Ok(('\r', pos + 2))
    } else if c == 'n' {
        Ok(('\n', pos + 2))
    } else if c == '\\' {
        Ok(('\\', pos + 2))
    } else if c == '\'' {
        Ok(('\'', pos + 2))
    } else if c == '"' {
        Ok(('"', pos + 2))
    } else if c == 'u' {
        if !(len - pos > 2 && text[pos + 2] == '{') {
            return Err(Error::invalid_string_literal("invalid unicode escape"));
        }
        let close = scan_class(text, pos + 3, CharClass::HexDigit);
        proof {
            lemma_scan(text@, pos + 3, CharClass::HexDigit);
        }
        if !(close < len && text[close] == '}') {
            return Err(Error::invalid_string_literal("invalid unicode escape"));
        }
        let digits = slice_subrange(text, pos + 3, close);
        assert(digits@.skip(0) =~= digits@);
        let code = match read_digits(digits, 0, 16, 0xFFFF_FFFF) {
            Ok(code) => code as u32,
            Err(_) => {
                return Err(Error::invalid_string_literal("invalid unicode escape"));
            },
        };
        match char::from_u32(code) {
            Some(c) => Ok((c, close + 1)),
            None => Err(
                Error::invalid_string_literal("unicode escape was not a valid unicode codepoint"),
            ),
        }
    } else {
        Err(invalid_escape(text, pos, pos + 2))
    }
}

/// Turns the escapes of `text` back into the characters they stand for.
pub fn unescape(text: &str) -> (r: Result<String, Error>)
    ensures
        match unescaped(text@) {
            Ok(decoded) => r matches Ok(s) && s@ == decoded,
            Err(message) => r matches Err(e) && e@ == (ErrorView::InvalidStringLiteral {
                message,
            }),
        },
{
    let chars = chars_of(text);
    let len = chars.len();
    let mut out = String::new();
    let mut i: usize = 0;
    while i < len
        invariant
            i <= len,
            len == chars@.len(),
            chars@ == text@,
            unescaped(text@) == preceded_by(out@, unescaped_from(text@, i as int)),
        decreases len - i,
    {
        let ghost before = out@;
        let c = chars[i];
        if c == '\\' {
            match decode_escape(chars.as_slice(), i) {
                Ok((decoded, next)) => {
                    out.push(decoded);
                    proof {
                        if let Ok(tail) = unescaped_from(text@, next as int) {
                            assert(before + (seq![decoded] + tail) =~= before.push(decoded) + tail);
                        }
                    }
                    i = next;
                },
                Err(e) => {
                    return Err(e);
                },
            }
        } else {
            out.push(c);
            proof {
                if let Ok(tail) = unescaped_from(text@, i + 1) {
                    assert(before + (seq![c] + tail) =~= before.push(c) + tail);
                }
            }
            i += 1;
        }
    }
    assert(out@ + Seq::<char>::empty() =~= out@);
    Ok(out)
}

} // verus!
