//! Round trips: what `std::fmt::Debug` writes for a number or a text is
//! read back as the value that was written.
//!
//! The writer is modelled by what it may write: for an integer its digits in
//! a radix, most significant first and without leading zeros; for a character
//! any of its spellings, plain or escaped. The laws hold of every text that
//! the model allows.

use crate::de::{char_value_step, string_step};
use crate::error::{ErrorView, IntErrorKind, LexerErrorView};
use crate::lex::{
    closing_quote, lemma_same_from, lemma_scan, lemma_scan_moved, lemma_scan_through, next_token,
    same_from, scan, Lexeme, TokenKind,
};
use crate::literal::{
    escape_at, lemma_escape_at, preceded_by, simple_escape, unescaped, unescaped_from,
};
use crate::number::{
    digit_run, digit_value, digits_of, digits_value, is_digit_of, parse_digits, radix_of,
    signed_value, trim_zeros, unsigned_value, zero_run, Sign,
};
use crate::text::{in_class, is_whitespace, CharClass};
use vstd::prelude::*;

verus! {

/// The character for the digit `d`, a lower-case letter from ten on.
pub open spec fn digit_char(d: nat) -> char {
    if d < 10 {
        ('0' as u32 + d) as char
    } else {
        ('a' as u32 + (d - 10)) as char
    }
}

/// `n` written in `radix`: most significant digit first, no leading zeros,
/// and a single `0` for zero.
pub open spec fn rendered(n: nat, radix: nat) -> Seq<char>
    decreases n,
{
    if radix < 2 || n < radix {
        seq![digit_char(n)]
    } else {
        proof {
            assert(n / radix < n) by (nonlinear_arith)
                requires
                    2 <= radix <= n,
            ;
        }
        rendered(n / radix, radix).push(digit_char(n % radix))
    }
}

/// The prefix that marks a literal of `radix`; none for decimal digits.
pub open spec fn radix_marker(radix: nat) -> Seq<char> {
    if radix == 16 {
        seq!['0', 'x']
    } else if radix == 8 {
        seq!['0', 'o']
    } else if radix == 2 {
        seq!['0', 'b']
    } else {
        Seq::empty()
    }
}

/// A digit is worth what it was written for.
pub proof fn lemma_digit_char(d: nat, radix: nat)
    requires
        d < radix <= 36,
    ensures
        digit_value(digit_char(d)) == Some(d),
        is_digit_of(digit_char(d), radix),
        digit_char(d) == '0' <==> d == 0,
{
}

/// Where every character from `pos` on is a digit, the run of digits goes
/// to the end.
proof fn lemma_digit_run_to_end(digits: Seq<char>, pos: int, radix: nat)
    requires
        0 <= pos <= digits.len(),
        forall|i: int| pos <= i < digits.len() ==> is_digit_of(#[trigger] digits[i], radix),
    ensures
        digit_run(digits, pos, radix) == digits.len(),
    decreases digits.len() - pos,
{
    if pos < digits.len() {
        lemma_digit_run_to_end(digits, pos + 1, radix);
    }
}

/// What is written for a number consists of digits of the radix, begins
/// with a zero only for zero, and spells the number.
pub proof fn lemma_rendered(n: nat, radix: nat)
    requires
        2 <= radix <= 36,
    ensures
        rendered(n, radix).len() >= 1,
        forall|i: int|
            0 <= i < rendered(n, radix).len() ==> is_digit_of(
                #[trigger] rendered(n, radix)[i],
                radix,
            ),
        rendered(n, radix)[0] == '0' <==> n == 0,
        n == 0 ==> rendered(n, radix).len() == 1,
        digits_value(rendered(n, radix), radix) == n,
    decreases n,
{
    let text = rendered(n, radix);
    if n < radix {
        lemma_digit_char(n, radix);
        assert(text.drop_last() =~= Seq::<char>::empty());
        assert(digits_value(text.drop_last(), radix) == 0);
        assert(digits_value(text, radix) == 0 * radix + n);
    } else {
        let high = n / radix;
        let low = n % radix;
        assert(0 < high < n && low < radix && high * radix + low == n) by (nonlinear_arith)
            requires
                high == n / radix,
                low == n % radix,
                2 <= radix <= n,
        ;
        lemma_rendered(high, radix);
        lemma_digit_char(low, radix);
        assert(text.drop_last() =~= rendered(high, radix));
        assert(text.last() == digit_char(low));
        assert(text[0] == rendered(high, radix)[0]);
        assert forall|i: int| 0 <= i < text.len() implies is_digit_of(
            #[trigger] text[i],
            radix,
        ) by {
            if i < text.len() - 1 {
                assert(text[i] == rendered(high, radix)[i]);
            }
        }
    }
}

/// The digits written for a number are read back as that number, provided
/// it does not exceed the limit.
pub proof fn lemma_parse_rendered(n: nat, radix: nat, max: nat)
    requires
        2 <= radix <= 36,
        n <= max,
    ensures
        parse_digits(rendered(n, radix), radix, max) == Ok::<nat, IntErrorKind>(n),
{
    let text = rendered(n, radix);
    lemma_rendered(n, radix);
    lemma_digit_run_to_end(text, 0, radix);
    assert(text.take(text.len() as int) =~= text);
}

/// What is written for a number has no zeros to trim.
proof fn lemma_rendered_trimmed(n: nat, radix: nat)
    requires
        2 <= radix <= 36,
    ensures
        trim_zeros(rendered(n, radix)) == rendered(n, radix),
{
    let text = rendered(n, radix);
    lemma_rendered(n, radix);
    if n == 0 {
        assert(zero_run(text, 1) == 1);
        assert(zero_run(text, 0) == 1);
        assert(text.skip(1) =~= Seq::<char>::empty());
        assert(text =~= seq!['0']);
    } else {
        assert(zero_run(text, 0) == 0);
        assert(text.skip(0) =~= text);
    }
}

/// A literal that is written as a radix marker and digits is taken apart
/// into that radix and those digits.
proof fn lemma_marked_literal(n: nat, radix: nat)
    requires
        radix == 2 || radix == 8 || radix == 10 || radix == 16,
    ensures
        radix_of(radix_marker(radix) + rendered(n, radix)) == radix,
        digits_of(radix_marker(radix) + rendered(n, radix)) == rendered(n, radix),
{
    let digits = rendered(n, radix);
    let literal = radix_marker(radix) + digits;
    lemma_rendered(n, radix);
    if radix == 10 {
        assert(literal =~= digits);
        if digits.len() >= 2 {
            assert(digits[0] != '0');
        }
    } else {
        assert(literal[0] == '0');
        assert(literal[1] == radix_marker(radix)[1]);
        assert(literal.skip(2) =~= digits);
    }
}

/// An unsigned number that is written in decimal digits, or in hexadecimal,
/// octal or binary digits behind the marker of their radix, is read back as
/// the number that was written. So the four ways of writing one number are
/// read as the same value.
pub proof fn lemma_unsigned_round_trip(n: nat, radix: nat, max: nat)
    requires
        radix == 2 || radix == 8 || radix == 10 || radix == 16,
        n <= max,
    ensures
        unsigned_value(Sign::Positive, radix_marker(radix) + rendered(n, radix), max) == Ok::<
            nat,
            IntErrorKind,
        >(n),
{
    lemma_marked_literal(n, radix);
    lemma_parse_rendered(n, radix, max);
}

/// The sign that is written for `value`.
pub open spec fn sign_of(value: int) -> Sign {
    if value < 0 {
        Sign::Negative
    } else {
        Sign::Positive
    }
}

/// The magnitude of `value`.
pub open spec fn magnitude(value: int) -> nat {
    if value < 0 {
        (-value) as nat
    } else {
        value as nat
    }
}

/// A signed number that is written as a sign and the decimal digits of its
/// magnitude is read back as the number that was written.
pub proof fn lemma_signed_round_trip(value: int, max: nat)
    requires
        -max - 1 <= value <= max,
    ensures
        signed_value(sign_of(value), rendered(magnitude(value), 10), max) == Ok::<
            int,
            IntErrorKind,
        >(value),
{
    let digits = rendered(magnitude(value), 10);
    lemma_marked_literal(magnitude(value), 10);
    assert(radix_marker(10) + digits =~= digits);
    lemma_rendered_trimmed(magnitude(value), 10);
    if value < 0 {
        lemma_parse_rendered(magnitude(value), 10, max + 1);
    } else {
        lemma_parse_rendered(magnitude(value), 10, max);
    }
}

/// The bits of `value` in two's complement, for a type whose largest value
/// is `max`.
pub open spec fn bits_of(value: int, max: nat) -> nat {
    if value < 0 {
        (value + 2 * (max + 1)) as nat
    } else {
        value as nat
    }
}

/// A signed number whose bits are written in hexadecimal, octal or binary
/// digits behind the marker of their radix, as `Debug` writes it when asked
/// for that radix, is read back as the number that was written.
pub proof fn lemma_signed_bits_round_trip(value: int, radix: nat, max: nat)
    requires
        radix == 2 || radix == 8 || radix == 16,
        -max - 1 <= value <= max,
    ensures
        signed_value(
            Sign::Positive,
            radix_marker(radix) + rendered(bits_of(value, max), radix),
            max,
        ) == Ok::<int, IntErrorKind>(value),
{
    let bits = bits_of(value, max);
    lemma_marked_literal(bits, radix);
    lemma_rendered_trimmed(bits, radix);
    lemma_parse_rendered(bits, radix, 2 * max + 1);
}

/// Whether `text` is a way of writing the character `c` inside a literal
/// that `quote` delimits: the character itself, unless it is a backslash or
/// the quote; a backslash and the letter of a short escape; or `\u{`, the
/// hexadecimal digits of the character's code, and `}`.
pub open spec fn spells(text: Seq<char>, c: char, quote: char) -> bool {
    ||| text == seq![c] && c != '\\' && c != quote
    ||| text.len() == 2 && text[0] == '\\' && simple_escape(text[1]) == Some(c)
    ||| text == seq!['\\', 'u', '{'] + rendered(c as nat, 16) + seq!['}']
}

/// Whether `texts` writes the characters of `s`, one text for each.
pub open spec fn spelled(texts: Seq<Seq<char>>, s: Seq<char>, quote: char) -> bool {
    &&& texts.len() == s.len()
    &&& forall|i: int| 0 <= i < texts.len() ==> spells(#[trigger] texts[i], s[i], quote)
}

/// The written form of a backslash that keeps a literal from being closed
/// where it stands last: the two backslashes.
pub open spec fn escaped_backslash() -> Seq<char> {
    seq!['\\', '\\']
}

/// An escape, moved along the text.
spec fn moved_escape(r: Result<(char, int), Seq<char>>, by: int) -> Result<
    (char, int),
    Seq<char>,
> {
    match r {
        Ok((c, next)) => Ok((c, next + by)),
        Err(message) => Err(message),
    }
}

/// An escape depends on nothing before its backslash.
proof fn lemma_escape_moved(s: Seq<char>, p: int, t: Seq<char>, q: int)
    requires
        same_from(s, p, t, q),
        p < s.len(),
    ensures
        escape_at(t, q) == moved_escape(escape_at(s, p), q - p),
{
    lemma_same_from(s, p, t, q, 0);
    lemma_same_from(s, p, t, q, s.len() - p);
    assert(s.subrange(p, s.len() as int) == t.subrange(q, t.len() as int));
    if p + 1 < s.len() {
        lemma_same_from(s, p, t, q, 1);
        lemma_same_from(s, p, t, q, 2);
        if p + 2 < s.len() {
            lemma_same_from(s, p, t, q, 3);
            lemma_scan_moved(s, p + 3, t, q + 3, CharClass::HexDigit);
            lemma_scan(s, p + 3, CharClass::HexDigit);
            let close = scan(s, p + 3, CharClass::HexDigit);
            lemma_same_from(s, p, t, q, close - p);
            lemma_same_from(s, p + 3, t, q + 3, close - (p + 3));
        }
    }
}

/// What a text stands for from a place on depends on nothing before that
/// place.
proof fn lemma_unescaped_moved(s: Seq<char>, p: int, t: Seq<char>, q: int)
    requires
        same_from(s, p, t, q),
    ensures
        unescaped_from(t, q) == unescaped_from(s, p),
    decreases s.len() - p,
{
    lemma_same_from(s, p, t, q, 0);
    if p < s.len() {
        lemma_same_from(s, p, t, q, 1);
        if s[p] != '\\' {
            lemma_unescaped_moved(s, p + 1, t, q + 1);
        } else {
            lemma_escape_moved(s, p, t, q);
            lemma_escape_at(s, p);
            match escape_at(s, p) {
                Ok((_, next)) => {
                    lemma_same_from(s, p, t, q, next - p);
                    lemma_unescaped_moved(s, next, t, next - p + q);
                },
                Err(_) => {},
            }
        }
    }
}

/// The hexadecimal digits that are written for a number are a run of
/// hexadecimal digits, whatever follows the closing brace behind them.
proof fn lemma_rendered_hex_run(text: Seq<char>, start: int, n: nat)
    requires
        0 <= start,
        start + rendered(n, 16).len() < text.len(),
        text.subrange(start, start + rendered(n, 16).len()) == rendered(n, 16),
        text[start + rendered(n, 16).len()] == '}',
    ensures
        scan(text, start, CharClass::HexDigit) == start + rendered(n, 16).len(),
{
    let digits = rendered(n, 16);
    lemma_rendered(n, 16);
    assert forall|i: int| start <= i < start + digits.len() implies in_class(
        #[trigger] text[i],
        CharClass::HexDigit,
    ) by {
        assert(text[i] == digits[i - start]);
        assert(is_digit_of(digits[i - start], 16));
    }
    lemma_scan_through(text, start, start + digits.len(), CharClass::HexDigit);
}

/// A written character at the start of a text is decoded as that character,
/// and decoding goes on behind it.
proof fn lemma_spelling_decoded(written: Seq<char>, c: char, quote: char, rest: Seq<char>)
    requires
        spells(written, c, quote),
    ensures
        unescaped(written + rest) == preceded_by(seq![c], unescaped(rest)),
{
    let text = written + rest;
    let n = written.len() as int;
    assert(text.skip(n) =~= rest.skip(0));
    lemma_unescaped_moved(rest, 0, text, n);
    if written == seq![c] && c != '\\' && c != quote {
        assert(text[0] == c);
    } else if written.len() == 2 && written[0] == '\\' && simple_escape(written[1]) == Some(c) {
        assert(text[0] == '\\');
        assert(text[1] == written[1]);
    } else {
        let digits = rendered(c as nat, 16);
        lemma_rendered(c as nat, 16);
        assert(written.len() == digits.len() + 4);
        assert(text[0] == written[0] && text[1] == written[1] && text[2] == written[2]);
        assert(text[3 + digits.len() as int] == written[3 + digits.len() as int]);
        assert(text.subrange(3, 3 + digits.len() as int) =~= digits);
        lemma_rendered_hex_run(text, 3, c as nat);
        lemma_parse_rendered(c as nat, 16, u32::MAX as nat);
        assert(simple_escape('u') is None);
    }
}

/// A text that is written character by character, each in one of its
/// spellings, is decoded as the text that was written.
pub proof fn lemma_unescape_round_trip(texts: Seq<Seq<char>>, s: Seq<char>, quote: char)
    requires
        spelled(texts, s, quote),
    ensures
        unescaped(texts.flatten()) == Ok::<Seq<char>, Seq<char>>(s),
    decreases texts.len(),
{
    if texts.len() == 0 {
        assert(s =~= Seq::<char>::empty());
    } else {
        let rest = texts.drop_first().flatten();
        assert(spelled(texts.drop_first(), s.drop_first(), quote)) by {
            assert forall|i: int| 0 <= i < texts.drop_first().len() implies spells(
                #[trigger] texts.drop_first()[i],
                s.drop_first()[i],
                quote,
            ) by {
                assert(spells(texts[i + 1], s[i + 1], quote));
            }
        }
        lemma_unescape_round_trip(texts.drop_first(), s.drop_first(), quote);
        lemma_spelling_decoded(texts[0], s[0], quote, rest);
        assert(seq![s[0]] + s.drop_first() =~= s);
    }
}

/// Whether every `quote` in `text` has a backslash directly before it.
spec fn quotes_escaped(text: Seq<char>, quote: char) -> bool {
    forall|i: int| 0 <= i < text.len() && #[trigger] text[i] == quote ==> i >= 1 && text[i - 1] == '\\'
}

/// In a written character every quote has a backslash directly before it,
/// and only the two backslashes end in a backslash.
proof fn lemma_spelling_quotes(written: Seq<char>, c: char, quote: char)
    requires
        spells(written, c, quote),
        quote == '"' || quote == '\'',
    ensures
        written.len() >= 1,
        quotes_escaped(written, quote),
        written.last() == '\\' ==> written == escaped_backslash(),
{
    if written == seq![c] && c != '\\' && c != quote {
    } else if written.len() == 2 && written[0] == '\\' && simple_escape(written[1]) == Some(c) {
        assert(written.last() == '\\' ==> written =~= escaped_backslash());
    } else {
        let digits = rendered(c as nat, 16);
        lemma_rendered(c as nat, 16);
        assert forall|i: int| 0 <= i < written.len() && #[trigger] written[i] == quote implies i
            >= 1 && written[i - 1] == '\\' by {
            if 3 <= i < 3 + digits.len() {
                assert(written[i] == digits[i - 3]);
                assert(is_digit_of(digits[i - 3], 16));
            }
        }
        assert(written.last() == '}');
    }
}

/// In a written text every quote has a backslash directly before it, and
/// the text ends in a backslash only where its last character is written as
/// two backslashes.
proof fn lemma_spelled_quotes(texts: Seq<Seq<char>>, s: Seq<char>, quote: char)
    requires
        spelled(texts, s, quote),
        quote == '"' || quote == '\'',
    ensures
        quotes_escaped(texts.flatten(), quote),
        texts.len() > 0 ==> texts.flatten().len() > 0,
        texts.len() > 0 && texts.flatten().last() == '\\' ==> texts.last() == escaped_backslash(),
    decreases texts.len(),
{
    if texts.len() > 0 {
        let first = texts[0];
        let rest = texts.drop_first().flatten();
        let all = texts.flatten();
        assert(spelled(texts.drop_first(), s.drop_first(), quote)) by {
            assert forall|i: int| 0 <= i < texts.drop_first().len() implies spells(
                #[trigger] texts.drop_first()[i],
                s.drop_first()[i],
                quote,
            ) by {
                assert(spells(texts[i + 1], s[i + 1], quote));
            }
        }
        lemma_spelled_quotes(texts.drop_first(), s.drop_first(), quote);
        lemma_spelling_quotes(first, s[0], quote);
        assert(all == first + rest);
        assert forall|i: int| 0 <= i < all.len() && #[trigger] all[i] == quote implies i >= 1
            && all[i - 1] == '\\' by {
            if i < first.len() {
                assert(all[i] == first[i]);
                assert(all[i - 1] == first[i - 1]);
            } else {
                assert(all[i] == rest[i - first.len()]);
                assert(i - first.len() >= 1);
                assert(all[i - 1] == rest[i - first.len() - 1]);
            }
        }
        if texts.len() == 1 {
            assert(texts.drop_first().len() == 0);
            assert(rest =~= Seq::<char>::empty());
            assert(all =~= first);
            assert(texts.last() == first);
        } else {
            assert(texts.drop_first().last() == texts.last());
            assert(all.last() == rest.last());
        }
    }
}

/// Where no quote before `close` can close the literal and the quote at
/// `close` can, the literal is closed there.
proof fn lemma_closed_at(text: Seq<char>, pos: int, close: int, quote: char)
    requires
        1 <= pos <= close < text.len(),
        forall|i: int| pos <= i < close && #[trigger] text[i] == quote ==> text[i - 1] == '\\',
        text[close] == quote,
        text[close - 1] != '\\',
    ensures
        closing_quote(text, pos, quote) == close,
    decreases close - pos,
{
    if pos < close {
        lemma_closed_at(text, pos + 1, close, quote);
    }
}

/// The literal that the quotes around a written text make up.
pub open spec fn quoted(written: Seq<char>, quote: char) -> Seq<char> {
    seq![quote] + written + seq![quote]
}

/// A written text between two quotes is one token, whatever follows it,
/// unless the text ends in a backslash.
proof fn lemma_quoted_literal(written: Seq<char>, quote: char, kind: TokenKind, rest: Seq<char>)
    requires
        quote == '"' && kind == TokenKind::String || quote == '\'' && kind == TokenKind::Char,
        quotes_escaped(written, quote),
        written.len() == 0 || written.last() != '\\',
    ensures
        next_token(quoted(written, quote) + rest, 0) == Ok::<Lexeme, LexerErrorView>(
            Lexeme { kind, start: 0, end: written.len() as int + 2 },
        ),
        (quoted(written, quote) + rest).subrange(1, written.len() as int + 1) == written,
        (quoted(written, quote) + rest).subrange(0, written.len() as int + 2) == quoted(
            written,
            quote,
        ),
{
    let text = quoted(written, quote) + rest;
    let n = written.len() as int;
    assert(text[0] == quote);
    assert(text[n + 1] == quote);
    assert forall|i: int| 1 <= i < n + 1 && #[trigger] text[i] == quote implies text[i - 1]
        == '\\' by {
        assert(text[i] == written[i - 1]);
        assert(i - 1 >= 1);
        assert(text[i - 1] == written[i - 2]);
    }
    if n > 0 {
        assert(text[n] == written.last());
    }
    lemma_closed_at(text, 1, n + 1, quote);
    assert(!is_whitespace(quote));
    assert(scan(text, 0, CharClass::Whitespace) == 0);
    assert(text.subrange(1, n + 1) =~= written);
    assert(text.subrange(0, n + 2) =~= quoted(written, quote));
}

/// A string that is written character by character between double quotes
/// is read back as the string that was written, whatever follows it, unless
/// its last character is a backslash written as two backslashes: the
/// closing quote behind those is taken for an escaped one.
pub proof fn lemma_string_round_trip(texts: Seq<Seq<char>>, s: Seq<char>, rest: Seq<char>)
    requires
        spelled(texts, s, '"'),
        texts.len() == 0 || texts.last() != escaped_backslash(),
    ensures
        string_step(quoted(texts.flatten(), '"') + rest, 0) == Ok::<(Seq<char>, int), ErrorView>(
            (s, texts.flatten().len() as int + 2),
        ),
{
    let written = texts.flatten();
    lemma_spelled_quotes(texts, s, '"');
    lemma_unescape_round_trip(texts, s, '"');
    lemma_quoted_literal(written, '"', TokenKind::String, rest);
}

/// A character that is written in one of its spellings between single
/// quotes is read back as the character that was written, whatever follows
/// it, unless it is a backslash written as two backslashes.
pub proof fn lemma_char_round_trip(written: Seq<char>, c: char, rest: Seq<char>)
    requires
        spells(written, c, '\''),
        written != escaped_backslash(),
    ensures
        char_value_step(quoted(written, '\'') + rest, 0) == Ok::<(char, int), ErrorView>(
            (c, written.len() as int + 2),
        ),
{
    lemma_spelling_quotes(written, c, '\'');
    lemma_spelling_decoded(written, c, '\'', Seq::empty());
    assert(written + Seq::<char>::empty() =~= written);
    assert(unescaped(Seq::<char>::empty()) == Ok::<Seq<char>, Seq<char>>(Seq::empty()));
    assert(seq![c] + Seq::<char>::empty() =~= seq![c]);
    lemma_quoted_literal(written, '\'', TokenKind::Char, rest);
}

} // verus!
