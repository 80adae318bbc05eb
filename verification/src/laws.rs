//! What holds of the grammar whatever the input: laws that relate several
//! steps, each stated over the functions that the steps' contracts use.

use crate::de::{
    at_punct, bool_step, char_step, char_value_step, end_item_step, end_step, float_step,
    ident_exact_step, ident_step, integer_step, is_punct, named_open_step, next_item_step,
    option_step, punct_step, seq_step, signed_int_step, string_step, struct_key_step, token_step,
    unit_step, unsigned_step, Step,
};
use crate::error::{ErrorView, ExpectedView, IntErrorKind};
use crate::lex::{closing_quote, lemma_next_token, lemma_scan, quoted_at, scan, token_at, TokenKind};
use crate::literal::{invalid_escape_message, preceded_by, simple_escape, unescaped, unescaped_from};
use crate::number::{unsigned_value, Sign};
use crate::text::CharClass;
use vstd::prelude::*;

verus! {

/// The end of the input is found exactly where nothing but whitespace is
/// left ahead.
pub proof fn lemma_end_iff_only_whitespace(s: Seq<char>, pos: int)
    requires
        0 <= pos <= s.len(),
    ensures
        end_step(s, pos) is Ok <==> scan(s, pos, CharClass::Whitespace) >= s.len(),
        end_step(s, pos) matches Ok((_, next)) ==> next == pos,
{
    lemma_next_token(s, pos);
}

/// Where the end of the input has been found once, it is found again, and
/// from every place further on as well: the question can be asked as often
/// as one likes, whether or not a reader has meanwhile passed over the
/// whitespace that is left.
pub proof fn lemma_end_idempotent(s: Seq<char>, pos: int, later: int)
    requires
        0 <= pos <= later <= s.len(),
        end_step(s, pos) is Ok,
    ensures
        end_step(s, later) is Ok,
    decreases later - pos,
{
    lemma_end_iff_only_whitespace(s, pos);
    lemma_end_iff_only_whitespace(s, later);
    lemma_scan(s, pos, CharClass::Whitespace);
    if pos < later {
        lemma_end_iff_only_whitespace(s, pos + 1);
        lemma_end_idempotent(s, pos + 1, later);
    }
}

/// A comma directly before the closing delimiter is accepted and changes
/// nothing: behind an item the comma is consumed, and then no further item
/// is found, just as where the closing delimiter follows the item at once.
/// This holds of sequences, tuples, maps and the fields of structs, whose
/// closing delimiters are `first` and `second`.
pub proof fn lemma_trailing_comma(s: Seq<char>, pos: int, first: char, second: char)
    requires
        first != ',',
        second != ',',
        token_step(s, pos) matches Ok(comma) && is_punct(s, comma, seq![',']) && at_punct(
            s,
            comma.end,
            first,
            second,
        ) == Ok::<bool, ErrorView>(true),
    ensures
        token_step(s, pos) matches Ok(comma) && end_item_step(s, pos, first, second) == Ok::<
            ((), int),
            ErrorView,
        >(((), comma.end)) && next_item_step(s, comma.end, first, second) == Ok::<
            (bool, int),
            ErrorView,
        >((false, comma.end)) && end_item_step(s, comma.end, first, second) == Ok::<
            ((), int),
            ErrorView,
        >(((), comma.end)),
{
    assert(seq![','][0] == ',');
    assert(seq![first][0] == first);
    assert(seq![second][0] == second);
}

/// Behind a trailing comma no further field of a struct is found.
pub proof fn lemma_trailing_comma_in_struct(s: Seq<char>, pos: int)
    requires
        token_step(s, pos) matches Ok(comma) && is_punct(s, comma, seq![',']) && at_punct(
            s,
            comma.end,
            '}',
            '}',
        ) == Ok::<bool, ErrorView>(true),
    ensures
        token_step(s, pos) matches Ok(comma) && struct_key_step(s, comma.end) == Ok::<
            (Option<Seq<char>>, int),
            ErrorView,
        >((None, comma.end)),
{
}

/// A quote that is never closed is an error: where every quote character
/// behind the opening one has a backslash directly before it, there is no
/// token.
pub proof fn lemma_unterminated_literal(s: Seq<char>, start: int, quote: char, kind: TokenKind)
    requires
        0 <= start < s.len(),
        s[start] == quote,
        forall|i: int| start < i < s.len() && #[trigger] s[i] == quote ==> s[i - 1] == '\\',
    ensures
        quoted_at(s, start, quote, kind) is Err,
        (quote == '"' || quote == '\'') ==> token_at(s, start) is Err,
{
    lemma_no_closing_quote(s, start + 1, quote);
}

proof fn lemma_no_closing_quote(s: Seq<char>, pos: int, quote: char)
    requires
        1 <= pos <= s.len(),
        forall|i: int| pos <= i < s.len() && #[trigger] s[i] == quote ==> s[i - 1] == '\\',
    ensures
        closing_quote(s, pos, quote) == s.len(),
    decreases s.len() - pos,
{
    if pos < s.len() {
        lemma_no_closing_quote(s, pos + 1, quote);
    }
}

/// A minus sign is never accepted for an unsigned type, whatever digits
/// follow it.
pub proof fn lemma_negative_unsigned(literal: Seq<char>, max: nat)
    ensures
        unsigned_value(Sign::Negative, literal, max) == Err::<nat, IntErrorKind>(
            IntErrorKind::InvalidDigit,
        ),
{
}

/// A struct under another name is an error that shows the name found and
/// the name expected.
pub proof fn lemma_name_mismatch(s: Seq<char>, pos: int, name: Seq<char>, open: char)
    requires
        ident_step(s, pos) matches Ok((found, _)) && found != name,
    ensures
        ident_step(s, pos) matches Ok((found, _)) && named_open_step(s, pos, name, open) == Err::<
            ((), int),
            ErrorView,
        >(ErrorView::unexpected(found, ExpectedView::Custom(name))),
{
}

/// Between two items a comma must stand: a token behind an item that is
/// neither the closing delimiter nor a comma is an error.
pub proof fn lemma_missing_separator(s: Seq<char>, pos: int, first: char, second: char)
    requires
        token_step(s, pos) matches Ok(l) && !is_punct(s, l, seq![first]) && !is_punct(
            s,
            l,
            seq![second],
        ) && !is_punct(s, l, seq![',']),
    ensures
        token_step(s, pos) matches Ok(l) && end_item_step(s, pos, first, second) == Err::<
            ((), int),
            ErrorView,
        >(ErrorView::unexpected(l.text(s), ExpectedView::Punct(','))),
{
}

/// A delimiter closes only what its counterpart opened, and nothing may
/// follow a value but whitespace: any other token where `close` has to
/// stand is an error, and so is any token where the input has to end.
pub proof fn lemma_wrong_closing(s: Seq<char>, pos: int, close: char)
    requires
        token_step(s, pos) matches Ok(l) && !is_punct(s, l, seq![close]),
    ensures
        char_step(s, pos, close) is Err,
        token_step(s, pos) matches Ok(l) && (l.kind != TokenKind::Eof ==> end_step(s, pos) is Err),
{
}

/// A backslash that begins no escape is an error that names the backslash
/// and the character behind it.
pub proof fn lemma_invalid_escape(text: Seq<char>, pos: int)
    requires
        0 <= pos,
        pos + 1 < text.len(),
        forall|i: int| 0 <= i < pos ==> #[trigger] text[i] != '\\',
        text[pos] == '\\',
        simple_escape(text[pos + 1]) is None,
        text[pos + 1] != 'u',
    ensures
        unescaped(text) == Err::<Seq<char>, Seq<char>>(
            invalid_escape_message(text.subrange(pos, pos + 2)),
        ),
{
    lemma_plain_prefix(text, 0, pos);
}

/// Characters before the first backslash stand for themselves.
proof fn lemma_plain_prefix(text: Seq<char>, from: int, to: int)
    requires
        0 <= from <= to <= text.len(),
        forall|i: int| from <= i < to ==> #[trigger] text[i] != '\\',
    ensures
        unescaped_from(text, from) == preceded_by(
            text.subrange(from, to),
            unescaped_from(text, to),
        ),
    decreases to - from,
{
    if from < to {
        lemma_plain_prefix(text, from + 1, to);
        match unescaped_from(text, to) {
            Ok(tail) => {
                assert(seq![text[from]] + (text.subrange(from + 1, to) + tail) =~= text.subrange(
                    from,
                    to,
                ) + tail);
            },
            Err(_) => {},
        }
    } else {
        match unescaped_from(text, to) {
            Ok(tail) => {
                assert(text.subrange(from, to) + tail =~= tail);
            },
            Err(_) => {},
        }
    }
}

/// Whether a step that succeeds ends at or behind `pos`, inside `s`.
pub open spec fn moves_forward<V>(s: Seq<char>, pos: int, step: Step<V>) -> bool {
    step matches Ok((_, next)) ==> pos <= next <= s.len()
}

/// No step moves the cursor back or out of the input: reading a literal, a
/// name, a boolean, the unit value, the start of an optional value, the
/// opening of a sequence, the name of a field, or the end of the input.
pub proof fn lemma_steps_move_forward(s: Seq<char>, pos: int)
    requires
        0 <= pos <= s.len(),
    ensures
        moves_forward(s, pos, ident_step(s, pos)),
        moves_forward(s, pos, string_step(s, pos)),
        moves_forward(s, pos, char_value_step(s, pos)),
        moves_forward(s, pos, integer_step(s, pos)),
        moves_forward(s, pos, float_step(s, pos)),
        moves_forward(s, pos, bool_step(s, pos)),
        moves_forward(s, pos, unit_step(s, pos)),
        moves_forward(s, pos, option_step(s, pos)),
        moves_forward(s, pos, seq_step(s, pos)),
        moves_forward(s, pos, struct_key_step(s, pos)),
        moves_forward(s, pos, end_step(s, pos)),
{
    lemma_next_token(s, pos);
    if let Ok(first) = token_step(s, pos) {
        lemma_next_token(s, first.end);
        if let Ok(second) = token_step(s, first.end) {
            lemma_next_token(s, second.end);
        }
    }
}

/// No step that reads an integer moves the cursor back or out of the
/// input.
pub proof fn lemma_integer_moves_forward(s: Seq<char>, pos: int, max: nat)
    requires
        0 <= pos <= s.len(),
    ensures
        moves_forward(s, pos, unsigned_step(s, pos, max)),
        moves_forward(s, pos, signed_int_step(s, pos, max)),
{
    lemma_steps_move_forward(s, pos);
}

/// No step that reads punctuation moves the cursor back or out of the
/// input, nor does one that looks for the end of the items of a collection.
pub proof fn lemma_punct_moves_forward(
    s: Seq<char>,
    pos: int,
    expected: ExpectedView,
    first: Seq<char>,
    second: Seq<char>,
    c: char,
    d: char,
)
    requires
        0 <= pos <= s.len(),
    ensures
        moves_forward(s, pos, punct_step(s, pos, expected, first, second)),
        moves_forward(s, pos, char_step(s, pos, c)),
        moves_forward(s, pos, next_item_step(s, pos, c, d)),
        moves_forward(s, pos, end_item_step(s, pos, c, d)),
{
    lemma_next_token(s, pos);
}

/// No step that reads a name moves the cursor back or out of the input.
pub proof fn lemma_name_moves_forward(s: Seq<char>, pos: int, name: Seq<char>, open: char)
    requires
        0 <= pos <= s.len(),
    ensures
        moves_forward(s, pos, ident_exact_step(s, pos, name)),
        moves_forward(s, pos, named_open_step(s, pos, name, open)),
{
    lemma_next_token(s, pos);
    if let Ok(first) = token_step(s, pos) {
        lemma_next_token(s, first.end);
    }
}

} // verus!
