//! Whitespace between tokens does not matter.
//!
//! The first part proves that blanks put between any two tokens of an input
//! leave its tokens as they were. The second proves that every step of the
//! grammar reads from the tokens alone: two readers with the same tokens
//! ahead get the same value and still have the same tokens ahead. Together
//! they say that blanks between tokens change no value that is read.

use crate::de::{
    bool_step, char_step, char_value_step, end_item_step, end_step, float_step, ident_exact_step,
    ident_step, literal_step, named_open_step, next_item_step, option_step, punct_step,
    second_token_step, seq_step, shape_of, signed_int_step, signed_step, string_step,
    struct_key_step, token_step, unit_step, unsigned_step, Step,
};
use crate::error::{ExpectedView, LexerErrorView};
use crate::lex::{
    closing_quote, exponent_at, fraction_at, is_radix_marker, lemma_closing_quote, lemma_next_token,
    lemma_quoted_token, lemma_same_from, lemma_scan, lemma_scan_moved, lemma_scan_through,
    lemma_token_at, next_token, number_at, quoted_at, same_from, scan, stream_from, token_at,
    TokenKind,
};
use crate::text::{in_class, is_ascii_digit, is_ident_start, CharClass};
use vstd::prelude::*;

verus! {

/// A space, a tab, a line feed or a carriage return.
pub open spec fn is_blank(c: char) -> bool {
    c == ' ' || c == '\t' || c == '\n' || c == '\r'
}

/// Whether `gap` holds blanks only.
pub open spec fn all_blank(gap: Seq<char>) -> bool {
    forall|i: int| 0 <= i < gap.len() ==> is_blank(#[trigger] gap[i])
}

/// `s` with `gap` put in before the character at `at`.
pub open spec fn insert_at(s: Seq<char>, at: int, gap: Seq<char>) -> Seq<char> {
    s.subrange(0, at) + gap + s.subrange(at, s.len() as int)
}

/// Whether `at` lies between two tokens of `s` for a reader at `pos`: in the
/// whitespace before the next token, or behind that token and between two
/// tokens of what follows it.
pub open spec fn between_tokens(s: Seq<char>, pos: int, at: int) -> bool
    decreases s.len() - pos,
{
    if !(0 <= pos <= at <= s.len()) {
        false
    } else if at <= scan(s, pos, CharClass::Whitespace) {
        true
    } else {
        match next_token(s, pos) {
            Err(_) => false,
            Ok(l) => {
                proof {
                    lemma_next_token(s, pos);
                }
                l.kind != TokenKind::Eof && l.end <= at && between_tokens(s, l.end, at)
            },
        }
    }
}

/// A token or an error, moved `by` places along the input.
spec fn moved(r: Result<(TokenKind, int), LexerErrorView>, by: int) -> Result<
    (TokenKind, int),
    LexerErrorView,
> {
    match r {
        Ok((kind, end)) => Ok((kind, end + by)),
        Err(e) => Err(e),
    }
}

proof fn lemma_closing_quote_moved(s: Seq<char>, p: int, t: Seq<char>, q: int, quote: char)
    requires
        p >= 1,
        q >= 1,
        same_from(s, p - 1, t, q - 1),
        p <= s.len(),
    ensures
        closing_quote(t, q, quote) - q == closing_quote(s, p, quote) - p,
    decreases s.len() - p,
{
    lemma_same_from(s, p - 1, t, q - 1, 0);
    lemma_same_from(s, p - 1, t, q - 1, 1);
    if p < s.len() {
        if !(s[p] == quote && s[p - 1] != '\\') {
            lemma_closing_quote_moved(s, p + 1, t, q + 1, quote);
        }
    }
}

proof fn lemma_quoted_moved(
    s: Seq<char>,
    p: int,
    t: Seq<char>,
    q: int,
    quote: char,
    kind: TokenKind,
)
    requires
        same_from(s, p, t, q),
    ensures
        quoted_at(t, q, quote, kind) == moved(quoted_at(s, p, quote, kind), q - p),
{
    lemma_same_from(s, p, t, q, 0);
    if p < s.len() {
        lemma_same_from(s, p, t, q, 1);
        lemma_closing_quote_moved(s, p + 1, t, q + 1, quote);
        assert(s.subrange(p + 1, s.len() as int) =~= s.skip(p + 1));
        assert(t.subrange(q + 1, t.len() as int) =~= t.skip(q + 1));
    }
}

proof fn lemma_exponent_moved(s: Seq<char>, p: int, t: Seq<char>, q: int)
    requires
        same_from(s, p, t, q),
    ensures
        exponent_at(t, q) == moved(exponent_at(s, p), q - p),
{
    lemma_same_from(s, p, t, q, 0);
    if p + 1 <= s.len() {
        lemma_same_from(s, p, t, q, 1);
        lemma_scan_moved(s, p + 1, t, q + 1, CharClass::Digit);
    }
    if p + 2 <= s.len() {
        lemma_same_from(s, p, t, q, 2);
        lemma_scan_moved(s, p + 2, t, q + 2, CharClass::Digit);
    }
}

proof fn lemma_fraction_moved(s: Seq<char>, p: int, t: Seq<char>, q: int)
    requires
        same_from(s, p, t, q),
    ensures
        fraction_at(t, q) == moved(fraction_at(s, p), q - p),
{
    lemma_same_from(s, p, t, q, 0);
    lemma_exponent_moved(s, p, t, q);
    if p + 1 <= s.len() {
        lemma_same_from(s, p, t, q, 1);
        lemma_scan_moved(s, p + 1, t, q + 1, CharClass::Digit);
        lemma_scan(s, p + 1, CharClass::Digit);
        let f = scan(s, p + 1, CharClass::Digit);
        lemma_same_from(s, p, t, q, f - p);
        lemma_exponent_moved(s, f, t, f - p + q);
    }
}

proof fn lemma_number_moved(s: Seq<char>, p: int, t: Seq<char>, q: int)
    requires
        same_from(s, p, t, q),
    ensures
        number_at(t, q) == moved(number_at(s, p), q - p),
{
    lemma_same_from(s, p, t, q, 0);
    if p + 1 <= s.len() {
        lemma_same_from(s, p, t, q, 1);
        lemma_scan_moved(s, p + 1, t, q + 1, CharClass::Digit);
        lemma_scan(s, p + 1, CharClass::Digit);
        let d = scan(s, p + 1, CharClass::Digit);
        lemma_same_from(s, p, t, q, d - p);
        lemma_fraction_moved(s, d, t, d - p + q);
    }
    if p + 2 <= s.len() {
        lemma_same_from(s, p, t, q, 2);
        lemma_scan_moved(s, p + 2, t, q + 2, CharClass::HexDigit);
    }
}

/// The token at a place depends on nothing before that place.
proof fn lemma_token_moved(s: Seq<char>, p: int, t: Seq<char>, q: int)
    requires
        same_from(s, p, t, q),
    ensures
        token_at(t, q) == moved(token_at(s, p), q - p),
{
    lemma_same_from(s, p, t, q, 0);
    if p < s.len() {
        lemma_same_from(s, p, t, q, 1);
        lemma_quoted_moved(s, p, t, q, '"', TokenKind::String);
        lemma_quoted_moved(s, p, t, q, '\'', TokenKind::Char);
        lemma_number_moved(s, p, t, q);
        lemma_scan_moved(s, p + 1, t, q + 1, CharClass::IdentContinue);
    }
}

/// The tokens from a place on depend on nothing before that place.
proof fn lemma_tokens_moved(s: Seq<char>, p: int, t: Seq<char>, q: int)
    requires
        same_from(s, p, t, q),
    ensures
        stream_from(t, q) == stream_from(s, p),
    decreases s.len() - p,
{
    lemma_same_from(s, p, t, q, 0);
    lemma_scan_moved(s, p, t, q, CharClass::Whitespace);
    lemma_next_token(s, p);
    lemma_next_token(t, q);
    let start = scan(s, p, CharClass::Whitespace);
    lemma_same_from(s, p, t, q, start - p);
    lemma_token_moved(s, start, t, start - p + q);
    match next_token(s, p) {
        Err(_) => {},
        Ok(l) => {
            lemma_same_from(s, start, t, start - p + q, l.end - start);
            if l.kind != TokenKind::Eof {
                lemma_same_from(s, p, t, q, l.end - p);
                lemma_tokens_moved(s, l.end, t, l.end - p + q);
            }
        },
    }
}

/// The tokens are the same for a reader that has passed over the
/// whitespace ahead.
proof fn lemma_tokens_after_whitespace(s: Seq<char>, pos: int)
    requires
        0 <= pos <= s.len(),
    ensures
        stream_from(s, scan(s, pos, CharClass::Whitespace)) == stream_from(s, pos),
{
    lemma_scan(s, pos, CharClass::Whitespace);
}

/// Whether `t` holds the characters of `s` before `at`, and then ends or
/// goes on with a blank.
spec fn same_until(s: Seq<char>, t: Seq<char>, at: int) -> bool {
    &&& 0 <= at <= s.len()
    &&& at <= t.len()
    &&& s.take(at) == t.take(at)
    &&& at < t.len() ==> is_blank(t[at])
}

proof fn lemma_same_until(s: Seq<char>, t: Seq<char>, at: int, i: int)
    requires
        same_until(s, t, at),
        0 <= i < at,
    ensures
        s[i] == t[i],
{
    assert(s[i] == s.take(at)[i]);
    assert(t[i] == t.take(at)[i]);
}

/// A run that ends before `at` ends at the same place in `t`.
proof fn lemma_scan_kept(s: Seq<char>, t: Seq<char>, at: int, p: int, class: CharClass)
    requires
        same_until(s, t, at),
        0 <= p <= at,
        scan(s, p, class) < at || (scan(s, p, class) == at && class != CharClass::Whitespace),
    ensures
        scan(t, p, class) == scan(s, p, class),
    decreases at - p,
{
    lemma_scan(s, p, class);
    if p < at {
        lemma_same_until(s, t, at, p);
        if in_class(s[p], class) {
            lemma_scan_kept(s, t, at, p + 1, class);
        }
    }
}

proof fn lemma_closing_quote_kept(s: Seq<char>, t: Seq<char>, at: int, p: int, quote: char)
    requires
        same_until(s, t, at),
        1 <= p <= at,
        closing_quote(s, p, quote) < at,
    ensures
        closing_quote(t, p, quote) == closing_quote(s, p, quote),
    decreases at - p,
{
    if p < at {
        lemma_same_until(s, t, at, p);
        lemma_same_until(s, t, at, p - 1);
        if !(s[p] == quote && s[p - 1] != '\\') {
            lemma_closing_quote(s, p + 1, quote);
            lemma_closing_quote_kept(s, t, at, p + 1, quote);
        }
    } else {
        lemma_closing_quote(s, p, quote);
    }
}

proof fn lemma_exponent_kept(s: Seq<char>, t: Seq<char>, at: int, p: int)
    requires
        same_until(s, t, at),
        0 <= p <= at,
        exponent_at(s, p) matches Ok((_, end)) && end <= at,
    ensures
        exponent_at(t, p) == exponent_at(s, p),
{
    if p < at {
        lemma_same_until(s, t, at, p);
    }
    if p < s.len() && (s[p] == 'e' || s[p] == 'E') {
        let digits = if p + 1 < s.len() && (s[p + 1] == '+' || s[p + 1] == '-') {
            p + 2
        } else {
            p + 1
        };
        lemma_scan(s, digits, CharClass::Digit);
        assert(digits < at);
        if p + 1 < at {
            lemma_same_until(s, t, at, p + 1);
        }
        lemma_same_until(s, t, at, digits);
        lemma_scan_kept(s, t, at, digits, CharClass::Digit);
    }
}

proof fn lemma_fraction_kept(s: Seq<char>, t: Seq<char>, at: int, p: int)
    requires
        same_until(s, t, at),
        0 <= p <= at,
        fraction_at(s, p) matches Ok((_, end)) && end <= at,
    ensures
        fraction_at(t, p) == fraction_at(s, p),
{
    if p < at {
        lemma_same_until(s, t, at, p);
    }
    if p < s.len() && s[p] == '.' {
        lemma_scan(s, p + 1, CharClass::Digit);
        let f = scan(s, p + 1, CharClass::Digit);
        if f + 1 <= s.len() {
            lemma_scan(s, f + 1, CharClass::Digit);
        }
        if f + 2 <= s.len() {
            lemma_scan(s, f + 2, CharClass::Digit);
        }
        assert(f <= at);
        lemma_same_until(s, t, at, p + 1);
        lemma_scan_kept(s, t, at, p + 1, CharClass::Digit);
        lemma_exponent_kept(s, t, at, f);
    } else {
        lemma_exponent_kept(s, t, at, p);
    }
}

proof fn lemma_number_kept(s: Seq<char>, t: Seq<char>, at: int, p: int)
    requires
        same_until(s, t, at),
        0 <= p < at,
        number_at(s, p) matches Ok((_, end)) && end <= at,
    ensures
        number_at(t, p) == number_at(s, p),
{
    lemma_same_until(s, t, at, p);
    if p + 1 < at {
        lemma_same_until(s, t, at, p + 1);
    }
    if s[p] == '0' && p + 1 < s.len() && is_radix_marker(s[p + 1]) {
        lemma_scan(s, p + 2, CharClass::HexDigit);
        lemma_same_until(s, t, at, p + 2);
        lemma_scan_kept(s, t, at, p + 2, CharClass::HexDigit);
    } else {
        lemma_scan(s, p + 1, CharClass::Digit);
        let d = scan(s, p + 1, CharClass::Digit);
        if d < s.len() && (s[d] == '.' || s[d] == 'e' || s[d] == 'E') {
            if d + 1 <= s.len() {
                lemma_scan(s, d + 1, CharClass::Digit);
                let f = scan(s, d + 1, CharClass::Digit);
                if f + 1 <= s.len() {
                    lemma_scan(s, f + 1, CharClass::Digit);
                }
                if f + 2 <= s.len() {
                    lemma_scan(s, f + 2, CharClass::Digit);
                }
            }
            if d + 2 <= s.len() {
                lemma_scan(s, d + 2, CharClass::Digit);
            }
            assert(d < at);
            lemma_same_until(s, t, at, d);
            lemma_scan_kept(s, t, at, p + 1, CharClass::Digit);
            lemma_fraction_kept(s, t, at, d);
        } else {
            lemma_scan_kept(s, t, at, p + 1, CharClass::Digit);
            if d < at {
                lemma_same_until(s, t, at, d);
            }
        }
    }
}

/// A token that ends at or before `at` stands in `t` as it does in `s`.
proof fn lemma_token_kept(s: Seq<char>, t: Seq<char>, at: int, start: int)
    requires
        same_until(s, t, at),
        0 <= start <= s.len(),
        token_at(s, start) matches Ok((kind, end)) && kind != TokenKind::Eof && end <= at,
    ensures
        token_at(t, start) == token_at(s, start),
{
    lemma_token_at(s, start);
    lemma_same_until(s, t, at, start);
    if s[start] == '"' {
        lemma_closing_quote(s, start + 1, '"');
        lemma_closing_quote_kept(s, t, at, start + 1, '"');
    } else if s[start] == '\'' {
        lemma_closing_quote(s, start + 1, '\'');
        lemma_closing_quote_kept(s, t, at, start + 1, '\'');
    } else if is_ascii_digit(s[start]) {
        lemma_number_kept(s, t, at, start);
    } else if is_ident_start(s[start]) {
        lemma_scan(s, start + 1, CharClass::IdentContinue);
        lemma_scan_kept(s, t, at, start + 1, CharClass::IdentContinue);
    } else if s[start] == '.' {
        lemma_same_until(s, t, at, start + 1);
    } else {
    }
}

/// A token that ends at or before `at` is the next token of `t` as it is
/// of `s`, with the same text.
proof fn lemma_next_token_kept(s: Seq<char>, t: Seq<char>, at: int, pos: int)
    requires
        same_until(s, t, at),
        0 <= pos <= s.len(),
        next_token(s, pos) matches Ok(l) && l.kind != TokenKind::Eof && l.end <= at,
    ensures
        next_token(t, pos) == next_token(s, pos),
        next_token(s, pos) matches Ok(l) && l.text(t) == l.text(s),
{
    lemma_next_token(s, pos);
    let l = next_token(s, pos)->Ok_0;
    lemma_scan_kept(s, t, at, pos, CharClass::Whitespace);
    lemma_token_kept(s, t, at, l.start);
    assert(l.text(t) =~= l.text(s)) by {
        assert forall|i: int| l.start <= i < l.end implies s[i] == t[i] by {
            lemma_same_until(s, t, at, i);
        }
    }
}

/// Blanks put in between two tokens leave the tokens as they were: their
/// kinds, their texts, and the error, if there is one, that ends them.
pub proof fn lemma_blanks_between_tokens(s: Seq<char>, pos: int, at: int, gap: Seq<char>)
    requires
        between_tokens(s, pos, at),
        all_blank(gap),
    ensures
        stream_from(insert_at(s, at, gap), pos) == stream_from(s, pos),
    decreases s.len() - pos,
{
    let t = insert_at(s, at, gap);
    let g = gap.len() as int;
    let w = scan(s, pos, CharClass::Whitespace);
    lemma_scan(s, pos, CharClass::Whitespace);
    if g == 0 {
        assert(t =~= s);
    } else if at <= w {
        assert(s.skip(w) =~= t.skip(w + g));
        assert(same_from(s, w, t, w + g));
        assert forall|i: int| pos <= i < w + g implies in_class(
            #[trigger] t[i],
            CharClass::Whitespace,
        ) by {
            if i < at {
                assert(t[i] == s[i]);
            } else if i < at + g {
                assert(t[i] == gap[i - at]);
                assert(is_blank(gap[i - at]));
            } else {
                assert(t[i] == s[i - g]);
            }
        }
        lemma_scan_through(t, pos, w + g, CharClass::Whitespace);
        lemma_scan_moved(s, w, t, w + g, CharClass::Whitespace);
        lemma_tokens_after_whitespace(t, pos);
        lemma_tokens_after_whitespace(s, pos);
        lemma_tokens_moved(s, w, t, w + g);
    } else {
        lemma_next_token(s, pos);
        let l = next_token(s, pos)->Ok_0;
        assert(s.take(at) =~= t.take(at));
        assert(t[at] == gap[0]);
        assert(same_until(s, t, at));
        lemma_next_token_kept(s, t, at, pos);
        lemma_blanks_between_tokens(s, l.end, at, gap);
    }
}

/// Whether the same tokens lie ahead of a reader of `s` at `p` and of a
/// reader of `t` at `q`.
pub open spec fn same_ahead(s: Seq<char>, p: int, t: Seq<char>, q: int) -> bool {
    &&& 0 <= p <= s.len()
    &&& 0 <= q <= t.len()
    &&& stream_from(s, p) == stream_from(t, q)
}

/// Blanks put in between two tokens leave the same tokens ahead.
pub proof fn lemma_blanks_leave_same_ahead(s: Seq<char>, pos: int, at: int, gap: Seq<char>)
    requires
        between_tokens(s, pos, at),
        all_blank(gap),
    ensures
        same_ahead(s, pos, insert_at(s, at, gap), pos),
{
    lemma_blanks_between_tokens(s, pos, at, gap);
}

/// Whether two steps end alike: with the same value and the same tokens
/// ahead, or with the same error.
pub open spec fn same_outcome<V>(s: Seq<char>, a: Step<V>, t: Seq<char>, b: Step<V>) -> bool {
    match (a, b) {
        (Ok((v1, n1)), Ok((v2, n2))) => v1 == v2 && same_ahead(s, n1, t, n2),
        (Err(e1), Err(e2)) => e1 == e2,
        _ => false,
    }
}

/// Whether two steps end alike but for the text that an error shows: with
/// the same value and the same tokens ahead, or both with an error.
pub open spec fn same_value<V>(s: Seq<char>, a: Step<V>, t: Seq<char>, b: Step<V>) -> bool {
    match (a, b) {
        (Ok((v1, n1)), Ok((v2, n2))) => v1 == v2 && same_ahead(s, n1, t, n2),
        (Err(_), Err(_)) => true,
        _ => false,
    }
}

/// Two readers with the same tokens ahead read the same token next, and
/// have the same tokens ahead behind it; or both meet the same error.
pub proof fn lemma_same_ahead(s: Seq<char>, p: int, t: Seq<char>, q: int)
    requires
        same_ahead(s, p, t, q),
    ensures
        match (token_step(s, p), token_step(t, q)) {
            (Ok(a), Ok(b)) => a.kind == b.kind && a.text(s) == b.text(t) && same_ahead(
                s,
                a.end,
                t,
                b.end,
            ),
            (Err(e1), Err(e2)) => e1 == e2,
            _ => false,
        },
{
    lemma_next_token(s, p);
    lemma_next_token(t, q);
    match (next_token(s, p), next_token(t, q)) {
        (Ok(a), Ok(b)) => {
            let rest_s = stream_from(s, a.end);
            let rest_t = stream_from(t, b.end);
            lemma_next_token(s, a.end);
            lemma_next_token(t, b.end);
            let ahead_s = stream_from(s, p).tokens;
            let ahead_t = stream_from(t, q).tokens;
            assert(ahead_s[0] == a.token(s));
            assert(ahead_t[0] == b.token(t));
            if a.kind != TokenKind::Eof {
                assert(rest_s.tokens =~= ahead_s.skip(1));
                assert(rest_t.tokens =~= ahead_t.skip(1));
            } else {
                assert(a.text(s) =~= Seq::<char>::empty());
                assert(b.text(t) =~= Seq::<char>::empty());
                assert(scan(s, a.end, CharClass::Whitespace) == a.end);
                assert(scan(t, b.end, CharClass::Whitespace) == b.end);
            }
        },
        (Ok(a), Err(_)) => {
            assert(stream_from(s, p).tokens.len() >= 1);
        },
        (Err(_), Ok(b)) => {
            assert(stream_from(t, q).tokens.len() >= 1);
        },
        (Err(_), Err(_)) => {},
    }
}

/// The token after the next is the same for two readers with the same
/// tokens ahead.
pub proof fn lemma_second_token_same(s: Seq<char>, p: int, t: Seq<char>, q: int)
    requires
        same_ahead(s, p, t, q),
    ensures
        match (second_token_step(s, p), second_token_step(t, q)) {
            (Ok(a), Ok(b)) => a.kind == b.kind && a.text(s) == b.text(t),
            (Err(e1), Err(e2)) => e1 == e2,
            _ => false,
        },
{
    lemma_same_ahead(s, p, t, q);
    match (token_step(s, p), token_step(t, q)) {
        (Ok(a), Ok(b)) => {
            lemma_same_ahead(s, a.end, t, b.end);
        },
        _ => {},
    }
}

/// Punctuation is read alike by two readers with the same tokens ahead.
pub proof fn lemma_punct_same(
    s: Seq<char>,
    p: int,
    t: Seq<char>,
    q: int,
    expected: ExpectedView,
    first: Seq<char>,
    second: Seq<char>,
)
    requires
        same_ahead(s, p, t, q),
    ensures
        same_outcome(
            s,
            punct_step(s, p, expected, first, second),
            t,
            punct_step(t, q, expected, first, second),
        ),
{
    lemma_same_ahead(s, p, t, q);
}

/// A punctuation character is read alike by two readers with the same
/// tokens ahead: so are all opening and closing delimiters, and the colon
/// between a key and its value.
pub proof fn lemma_char_same(s: Seq<char>, p: int, t: Seq<char>, q: int, c: char)
    requires
        same_ahead(s, p, t, q),
    ensures
        same_outcome(s, char_step(s, p, c), t, char_step(t, q, c)),
{
    lemma_same_ahead(s, p, t, q);
}

/// An identifier is read alike by two readers with the same tokens ahead.
pub proof fn lemma_ident_same(s: Seq<char>, p: int, t: Seq<char>, q: int)
    requires
        same_ahead(s, p, t, q),
    ensures
        same_outcome(s, ident_step(s, p), t, ident_step(t, q)),
{
    lemma_same_ahead(s, p, t, q);
}

/// A name is matched alike by two readers with the same tokens ahead.
pub proof fn lemma_ident_exact_same(s: Seq<char>, p: int, t: Seq<char>, q: int, name: Seq<char>)
    requires
        same_ahead(s, p, t, q),
    ensures
        same_outcome(s, ident_exact_step(s, p, name), t, ident_exact_step(t, q, name)),
{
    lemma_ident_same(s, p, t, q);
}

/// A name and the delimiter behind it are read alike by two readers with
/// the same tokens ahead.
pub proof fn lemma_named_open_same(
    s: Seq<char>,
    p: int,
    t: Seq<char>,
    q: int,
    name: Seq<char>,
    open: char,
)
    requires
        same_ahead(s, p, t, q),
    ensures
        same_outcome(s, named_open_step(s, p, name, open), t, named_open_step(t, q, name, open)),
{
    lemma_ident_exact_same(s, p, t, q, name);
    match (ident_exact_step(s, p, name), ident_exact_step(t, q, name)) {
        (Ok((_, n1)), Ok((_, n2))) => {
            lemma_char_same(s, n1, t, n2, open);
        },
        _ => {},
    }
}

/// `true` and `false` are read alike by two readers with the same tokens
/// ahead.
pub proof fn lemma_bool_same(s: Seq<char>, p: int, t: Seq<char>, q: int)
    requires
        same_ahead(s, p, t, q),
    ensures
        same_outcome(s, bool_step(s, p), t, bool_step(t, q)),
{
    lemma_ident_same(s, p, t, q);
}

/// The text between the quotes of a literal.
proof fn lemma_inner_text(s: Seq<char>, start: int, end: int, t: Seq<char>, from: int, to: int)
    requires
        0 <= start <= end <= s.len(),
        0 <= from <= to <= t.len(),
        s.subrange(start, end) == t.subrange(from, to),
        end - start >= 2,
    ensures
        s.subrange(start + 1, end - 1) == t.subrange(from + 1, to - 1),
{
    let a = s.subrange(start, end);
    let b = t.subrange(from, to);
    assert(a.len() == b.len());
    assert(s.subrange(start + 1, end - 1) =~= a.subrange(1, a.len() - 1));
    assert(t.subrange(from + 1, to - 1) =~= b.subrange(1, b.len() - 1));
}

/// A string or character literal is read alike by two readers with the
/// same tokens ahead.
pub proof fn lemma_literal_same(s: Seq<char>, p: int, t: Seq<char>, q: int, kind: TokenKind)
    requires
        same_ahead(s, p, t, q),
        kind == TokenKind::String || kind == TokenKind::Char,
    ensures
        same_outcome(s, literal_step(s, p, kind), t, literal_step(t, q, kind)),
{
    lemma_same_ahead(s, p, t, q);
    lemma_next_token(s, p);
    lemma_next_token(t, q);
    match (token_step(s, p), token_step(t, q)) {
        (Ok(a), Ok(b)) => {
            if a.kind == kind {
                lemma_quoted_token(s, a.start);
                lemma_quoted_token(t, b.start);
                lemma_inner_text(s, a.start, a.end, t, b.start, b.end);
            }
        },
        _ => {},
    }
}

/// A string is read alike by two readers with the same tokens ahead.
pub proof fn lemma_string_same(s: Seq<char>, p: int, t: Seq<char>, q: int)
    requires
        same_ahead(s, p, t, q),
    ensures
        same_outcome(s, string_step(s, p), t, string_step(t, q)),
{
    lemma_literal_same(s, p, t, q, TokenKind::String);
}

/// A character is read alike by two readers with the same tokens ahead.
pub proof fn lemma_char_value_same(s: Seq<char>, p: int, t: Seq<char>, q: int)
    requires
        same_ahead(s, p, t, q),
    ensures
        same_outcome(s, char_value_step(s, p), t, char_value_step(t, q)),
{
    lemma_literal_same(s, p, t, q, TokenKind::Char);
}

/// A sign and the token behind it are read alike by two readers with the
/// same tokens ahead.
proof fn lemma_signed_same(s: Seq<char>, p: int, t: Seq<char>, q: int)
    requires
        same_ahead(s, p, t, q),
    ensures
        match (signed_step(s, p), signed_step(t, q)) {
            (Ok(a), Ok(b)) => a.sign == b.sign && a.token.kind == b.token.kind && a.token.text(s)
                == b.token.text(t) && same_ahead(s, a.token.end, t, b.token.end),
            (Err(e1), Err(e2)) => e1 == e2,
            _ => false,
        },
{
    lemma_same_ahead(s, p, t, q);
    match (token_step(s, p), token_step(t, q)) {
        (Ok(a), Ok(b)) => {
            lemma_same_ahead(s, a.end, t, b.end);
        },
        _ => {},
    }
}

/// An integer of an unsigned type is read alike by two readers with the
/// same tokens ahead. Where it cannot be read, both fail; the text that the
/// error shows holds the whitespace between sign and digits as it stands.
pub proof fn lemma_unsigned_same(s: Seq<char>, p: int, t: Seq<char>, q: int, max: nat)
    requires
        same_ahead(s, p, t, q),
    ensures
        same_value(s, unsigned_step(s, p, max), t, unsigned_step(t, q, max)),
{
    lemma_signed_same(s, p, t, q);
}

/// An integer of a signed type is read alike by two readers with the same
/// tokens ahead. Where it cannot be read, both fail; the text that the
/// error shows holds the whitespace between sign and digits as it stands.
pub proof fn lemma_signed_int_same(s: Seq<char>, p: int, t: Seq<char>, q: int, max: nat)
    requires
        same_ahead(s, p, t, q),
    ensures
        same_value(s, signed_int_step(s, p, max), t, signed_int_step(t, q, max)),
{
    lemma_signed_same(s, p, t, q);
}

/// A floating-point literal is read alike by two readers with the same
/// tokens ahead: the same sign, the same digits or name, and the same
/// tokens behind it.
pub proof fn lemma_float_same(s: Seq<char>, p: int, t: Seq<char>, q: int)
    requires
        same_ahead(s, p, t, q),
    ensures
        match (float_step(s, p), float_step(t, q)) {
            (Ok((a, n1)), Ok((b, n2))) => a.sign == b.sign && a.value == b.value && a.kind
                == b.kind && same_ahead(s, n1, t, n2),
            (Err(e1), Err(e2)) => e1 == e2,
            _ => false,
        },
{
    lemma_signed_same(s, p, t, q);
}

/// The start of an optional value is read alike by two readers with the
/// same tokens ahead.
pub proof fn lemma_option_same(s: Seq<char>, p: int, t: Seq<char>, q: int)
    requires
        same_ahead(s, p, t, q),
    ensures
        same_outcome(s, option_step(s, p), t, option_step(t, q)),
{
    lemma_ident_same(s, p, t, q);
    match (ident_step(s, p), ident_step(t, q)) {
        (Ok((_, n1)), Ok((_, n2))) => {
            lemma_char_same(s, n1, t, n2, '(');
        },
        _ => {},
    }
}

/// The unit value is read alike by two readers with the same tokens ahead.
pub proof fn lemma_unit_same(s: Seq<char>, p: int, t: Seq<char>, q: int)
    requires
        same_ahead(s, p, t, q),
    ensures
        same_outcome(s, unit_step(s, p), t, unit_step(t, q)),
{
    lemma_char_same(s, p, t, q, '(');
    match (char_step(s, p, '('), char_step(t, q, '(')) {
        (Ok((_, n1)), Ok((_, n2))) => {
            lemma_char_same(s, n1, t, n2, ')');
        },
        _ => {},
    }
}

/// The opening of a sequence is read alike by two readers with the same
/// tokens ahead.
pub proof fn lemma_seq_same(s: Seq<char>, p: int, t: Seq<char>, q: int)
    requires
        same_ahead(s, p, t, q),
    ensures
        same_outcome(s, seq_step(s, p), t, seq_step(t, q)),
{
    lemma_punct_same(s, p, t, q, ExpectedView::Custom("`[` or `{`"@), seq!['['], seq!['{']);
}

/// Whether another item follows is found alike by two readers with the
/// same tokens ahead, and so is what may follow an item.
pub proof fn lemma_items_same(s: Seq<char>, p: int, t: Seq<char>, q: int, first: char, second: char)
    requires
        same_ahead(s, p, t, q),
    ensures
        same_outcome(
            s,
            next_item_step(s, p, first, second),
            t,
            next_item_step(t, q, first, second),
        ),
        same_outcome(s, end_item_step(s, p, first, second), t, end_item_step(t, q, first, second)),
{
    lemma_same_ahead(s, p, t, q);
    lemma_char_same(s, p, t, q, ',');
}

/// The name of the next field is read alike by two readers with the same
/// tokens ahead.
pub proof fn lemma_struct_key_same(s: Seq<char>, p: int, t: Seq<char>, q: int)
    requires
        same_ahead(s, p, t, q),
    ensures
        same_outcome(s, struct_key_step(s, p), t, struct_key_step(t, q)),
{
    lemma_same_ahead(s, p, t, q);
    lemma_ident_same(s, p, t, q);
}

/// The end of the input is found alike by two readers with the same tokens
/// ahead.
pub proof fn lemma_end_same(s: Seq<char>, p: int, t: Seq<char>, q: int)
    requires
        same_ahead(s, p, t, q),
    ensures
        same_outcome(s, end_step(s, p), t, end_step(t, q)),
{
    lemma_same_ahead(s, p, t, q);
}

/// The shape of the value ahead is the same for two readers with the same
/// tokens ahead.
pub proof fn lemma_shape_same(s: Seq<char>, p: int, t: Seq<char>, q: int)
    requires
        same_ahead(s, p, t, q),
    ensures
        shape_of(s, p) == shape_of(t, q),
{
    lemma_same_ahead(s, p, t, q);
    lemma_second_token_same(s, p, t, q);
}

} // verus!
