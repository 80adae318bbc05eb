//! The grammar of the debug format, one step at a time.
//!
//! A `Deserializer` reads a value piece by piece: the caller, who knows the
//! shape of the value it wants, asks for the opening of a struct, then for a
//! field name, then for the field's value, and so on. Each step either
//! succeeds and moves the cursor behind what it read, or fails with an error
//! and consumes nothing.

use crate::error::{Error, ErrorView, Expected, ExpectedView};
use crate::lex::{
    lemma_next_token, lemma_quoted_token, lemma_scan, next_token, scan, Lexeme, Lexer, Token,
    TokenKind,
};
use crate::literal::{unescape, unescaped};
use crate::number::{parse_signed, parse_unsigned, signed_value, unsigned_value, Sign};
use crate::text::{chars_of, str_eq, str_is_char, CharClass};
use vstd::prelude::*;

verus! {

/// A string or character literal: the token as it stands in the input, and
/// the characters it stands for.
#[derive(Clone, Debug)]
pub struct Str {
    pub span: String,
    pub value: String,
}

/// What a `Str` holds, as text.
pub struct StrView {
    pub span: Seq<char>,
    pub value: Seq<char>,
}

impl View for Str {
    type V = StrView;

    open spec fn view(&self) -> StrView {
        StrView { span: self.span@, value: self.value@ }
    }
}

/// A number with its sign: the digits as they stand in the input, and the
/// text from the sign to the last digit.
#[derive(Clone, Debug)]
pub struct Integer {
    pub sign: Sign,
    pub value: String,
    pub span: String,
}

/// What an `Integer` holds, as text.
pub struct IntegerView {
    pub sign: Sign,
    pub value: Seq<char>,
    pub span: Seq<char>,
}

impl View for Integer {
    type V = IntegerView;

    open spec fn view(&self) -> IntegerView {
        IntegerView { sign: self.sign, value: self.value@, span: self.span@ }
    }
}

/// A floating-point literal with its sign. Its kind is `Float` for digits
/// and `Ident` for the name `NaN`.
#[derive(Clone, Debug)]
pub struct Float {
    pub sign: Sign,
    pub value: String,
    pub span: String,
    pub kind: TokenKind,
}

/// What a `Float` holds, as text.
pub struct FloatView {
    pub sign: Sign,
    pub value: Seq<char>,
    pub span: Seq<char>,
    pub kind: TokenKind,
}

impl View for Float {
    type V = FloatView;

    open spec fn view(&self) -> FloatView {
        FloatView { sign: self.sign, value: self.value@, span: self.span@, kind: self.kind }
    }
}

/// The delimiter that opened a sequence.
#[derive(Copy, Clone, Debug, PartialEq, Eq, Structural)]
pub enum Bracket {
    /// `[`, which `]` closes: a list.
    Square,
    /// `{`, which `}` closes: a set.
    Curly,
}

impl View for Bracket {
    type V = Bracket;

    open spec fn view(&self) -> Bracket {
        *self
    }
}

impl Bracket {
    /// The delimiter that closes what this one opened.
    pub open spec fn closer(self) -> char {
        match self {
            Bracket::Square => ']',
            Bracket::Curly => '}',
        }
    }
}

/// What stands next in the input, as far as two tokens tell: the production
/// by which a value is read where its type is not known.
#[derive(Clone, Debug)]
pub enum Shape {
    /// A string literal.
    Str,
    /// A character literal.
    Char,
    /// An integer without a minus sign: read as a `u64`.
    Unsigned,
    /// An integer with a minus sign: read as an `i64`.
    Signed,
    /// A floating-point number: read as an `f64`.
    Float,
    /// `true` or `false`.
    Bool,
    /// A name and `{`: a struct with named fields.
    Struct(String),
    /// A name and `(`: a tuple struct of unknown length.
    TupleStruct(String),
    /// A name alone: a struct without fields.
    UnitStruct(String),
    /// `(`: a tuple.
    Tuple,
    /// `{`: a map. A set looks the same and is read as a map.
    Mapping,
    /// `[`: a sequence.
    Sequence,
}

/// A `Shape`, with the name it holds as text.
pub enum ShapeView {
    Str,
    Char,
    Unsigned,
    Signed,
    Float,
    Bool,
    Struct(Seq<char>),
    TupleStruct(Seq<char>),
    UnitStruct(Seq<char>),
    Tuple,
    Mapping,
    Sequence,
}

impl View for Shape {
    type V = ShapeView;

    open spec fn view(&self) -> ShapeView {
        match self {
            Shape::Str => ShapeView::Str,
            Shape::Char => ShapeView::Char,
            Shape::Unsigned => ShapeView::Unsigned,
            Shape::Signed => ShapeView::Signed,
            Shape::Float => ShapeView::Float,
            Shape::Bool => ShapeView::Bool,
            Shape::Struct(name) => ShapeView::Struct(name@),
            Shape::TupleStruct(name) => ShapeView::TupleStruct(name@),
            Shape::UnitStruct(name) => ShapeView::UnitStruct(name@),
            Shape::Tuple => ShapeView::Tuple,
            Shape::Mapping => ShapeView::Mapping,
            Shape::Sequence => ShapeView::Sequence,
        }
    }
}

/// The outcome of a step: what it read and the cursor behind it, or why it
/// could not be read.
pub type Step<T> = Result<(T, int), ErrorView>;

/// The next token of `s` for a cursor at `pos`.
pub open spec fn token_step(s: Seq<char>, pos: int) -> Result<Lexeme, ErrorView> {
    match next_token(s, pos) {
        Ok(l) => Ok(l),
        Err(e) => Err(ErrorView::Lexer(e)),
    }
}

/// The token after the next.
pub open spec fn second_token_step(s: Seq<char>, pos: int) -> Result<Lexeme, ErrorView> {
    match token_step(s, pos) {
        Ok(l) => token_step(s, l.end),
        Err(e) => Err(e),
    }
}

/// Whether `l` is the punctuation `text`.
pub open spec fn is_punct(s: Seq<char>, l: Lexeme, text: Seq<char>) -> bool {
    l.kind == TokenKind::Punct && l.text(s) == text
}

/// Reads a punctuation token that spells `first` or `second`.
pub open spec fn punct_step(
    s: Seq<char>,
    pos: int,
    expected: ExpectedView,
    first: Seq<char>,
    second: Seq<char>,
) -> Step<Seq<char>> {
    match token_step(s, pos) {
        Err(e) => Err(e),
        Ok(l) => if is_punct(s, l, first) || is_punct(s, l, second) {
            Ok((l.text(s), l.end))
        } else {
            Err(ErrorView::unexpected(l.text(s), expected))
        },
    }
}

/// Reads the punctuation character `c`.
pub open spec fn char_step(s: Seq<char>, pos: int, c: char) -> Step<()> {
    match punct_step(s, pos, ExpectedView::Punct(c), seq![c], seq![c]) {
        Ok((_, next)) => Ok(((), next)),
        Err(e) => Err(e),
    }
}

/// Reads an identifier.
pub open spec fn ident_step(s: Seq<char>, pos: int) -> Step<Seq<char>> {
    match token_step(s, pos) {
        Err(e) => Err(e),
        Ok(l) => if l.kind == TokenKind::Ident {
            Ok((l.text(s), l.end))
        } else {
            Err(ErrorView::unexpected(l.text(s), ExpectedView::Token(TokenKind::Ident)))
        },
    }
}

/// Reads the identifier `name`, character for character.
pub open spec fn ident_exact_step(s: Seq<char>, pos: int, name: Seq<char>) -> Step<()> {
    match ident_step(s, pos) {
        Err(e) => Err(e),
        Ok((found, next)) => if found == name {
            Ok(((), next))
        } else {
            Err(ErrorView::unexpected(found, ExpectedView::Custom(name)))
        },
    }
}

/// Reads the name `name` and the opening delimiter `open` behind it.
pub open spec fn named_open_step(s: Seq<char>, pos: int, name: Seq<char>, open: char) -> Step<()> {
    match ident_exact_step(s, pos, name) {
        Err(e) => Err(e),
        Ok((_, next)) => char_step(s, next, open),
    }
}

/// Finds the end of the input: nothing is left to read but whitespace.
pub open spec fn end_step(s: Seq<char>, pos: int) -> Step<()> {
    match token_step(s, pos) {
        Err(e) => Err(e),
        Ok(l) => if l.kind == TokenKind::Eof {
            Ok(((), pos))
        } else {
            Err(ErrorView::unexpected(l.text(s), ExpectedView::Token(TokenKind::Eof)))
        },
    }
}

/// Reads a literal of `kind`, a string or a character, and decodes what
/// stands between its quotes.
pub open spec fn literal_step(s: Seq<char>, pos: int, kind: TokenKind) -> Step<StrView> {
    match token_step(s, pos) {
        Err(e) => Err(e),
        Ok(l) => if l.kind != kind {
            Err(ErrorView::unexpected(l.text(s), ExpectedView::Token(kind)))
        } else {
            match unescaped(s.subrange(l.start + 1, l.end - 1)) {
                Ok(value) => Ok((StrView { span: l.text(s), value }, l.end)),
                Err(message) => Err(ErrorView::InvalidStringLiteral { message }),
            }
        },
    }
}

/// Reads a string literal and returns the characters it stands for.
pub open spec fn string_step(s: Seq<char>, pos: int) -> Step<Seq<char>> {
    match literal_step(s, pos, TokenKind::String) {
        Err(e) => Err(e),
        Ok((literal, next)) => Ok((literal.value, next)),
    }
}

/// Reads a character literal that stands for exactly one character.
pub open spec fn char_value_step(s: Seq<char>, pos: int) -> Step<char> {
    match literal_step(s, pos, TokenKind::Char) {
        Err(e) => Err(e),
        Ok((literal, next)) => if literal.value.len() == 0 {
            Err(ErrorView::InvalidStringLiteral { message: "character literal was empty"@ })
        } else if literal.value.len() > 1 {
            Err(
                ErrorView::InvalidStringLiteral {
                    message: "character literal contained multiple characters"@,
                },
            )
        } else {
            Ok((literal.value[0], next))
        },
    }
}

/// A token with the sign that may stand before it.
pub struct Signed {
    pub sign: Sign,
    /// Where the sign begins, or the token where there is no sign.
    pub start: int,
    pub token: Lexeme,
}

/// Reads an optional `+` or `-` and the token behind it.
pub open spec fn signed_step(s: Seq<char>, pos: int) -> Result<Signed, ErrorView> {
    match token_step(s, pos) {
        Err(e) => Err(e),
        Ok(first) => if is_punct(s, first, seq!['+']) || is_punct(s, first, seq!['-']) {
            match token_step(s, first.end) {
                Err(e) => Err(e),
                Ok(token) => Ok(
                    Signed {
                        sign: if is_punct(s, first, seq!['-']) {
                            Sign::Negative
                        } else {
                            Sign::Positive
                        },
                        start: first.start,
                        token,
                    },
                ),
            }
        } else {
            Ok(Signed { sign: Sign::Positive, start: first.start, token: first })
        },
    }
}

/// Reads an integer literal with its optional sign.
pub open spec fn integer_step(s: Seq<char>, pos: int) -> Step<IntegerView> {
    match signed_step(s, pos) {
        Err(e) => Err(e),
        Ok(signed) => if signed.token.kind == TokenKind::Integer {
            Ok(
                (
                    IntegerView {
                        sign: signed.sign,
                        value: signed.token.text(s),
                        span: s.subrange(signed.start, signed.token.end),
                    },
                    signed.token.end,
                ),
            )
        } else {
            Err(
                ErrorView::unexpected(
                    signed.token.text(s),
                    ExpectedView::Token(TokenKind::Integer),
                ),
            )
        },
    }
}

/// Reads an integer literal as a value of an unsigned type whose largest
/// value is `max`.
pub open spec fn unsigned_step(s: Seq<char>, pos: int, max: nat) -> Step<nat> {
    match integer_step(s, pos) {
        Err(e) => Err(e),
        Ok((literal, next)) => match unsigned_value(literal.sign, literal.value, max) {
            Ok(value) => Ok((value, next)),
            Err(error) => Err(ErrorView::ParseInt { value: literal.span, error }),
        },
    }
}

/// Reads an integer literal as a value of a signed type whose largest value
/// is `max`.
pub open spec fn signed_int_step(s: Seq<char>, pos: int, max: nat) -> Step<int> {
    match integer_step(s, pos) {
        Err(e) => Err(e),
        Ok((literal, next)) => match signed_value(literal.sign, literal.value, max) {
            Ok(value) => Ok((value, next)),
            Err(error) => Err(ErrorView::ParseInt { value: literal.span, error }),
        },
    }
}

/// Whether `text` spells `NaN` in any mix of upper and lower case.
pub open spec fn is_nan(text: Seq<char>) -> bool {
    text.len() == 3 && (text[0] == 'n' || text[0] == 'N') && (text[1] == 'a' || text[1] == 'A')
        && (text[2] == 'n' || text[2] == 'N')
}

/// Reads a floating-point literal with its optional sign: digits, or the
/// name `NaN`.
pub open spec fn float_step(s: Seq<char>, pos: int) -> Step<FloatView> {
    match signed_step(s, pos) {
        Err(e) => Err(e),
        Ok(signed) => if signed.token.kind == TokenKind::Float || (signed.token.kind
            == TokenKind::Ident && is_nan(signed.token.text(s))) {
            Ok(
                (
                    FloatView {
                        sign: signed.sign,
                        value: signed.token.text(s),
                        span: s.subrange(signed.start, signed.token.end),
                        kind: signed.token.kind,
                    },
                    signed.token.end,
                ),
            )
        } else {
            Err(
                ErrorView::unexpected(signed.token.text(s), ExpectedView::Token(TokenKind::Float)),
            )
        },
    }
}

/// Reads `true` or `false`.
pub open spec fn bool_step(s: Seq<char>, pos: int) -> Step<bool> {
    match ident_step(s, pos) {
        Err(e) => Err(e),
        Ok((name, next)) => if name == "true"@ {
            Ok((true, next))
        } else if name == "false"@ {
            Ok((false, next))
        } else {
            Err(ErrorView::unexpected(name, ExpectedView::Custom("a boolean"@)))
        },
    }
}

/// Reads the unit value `()`.
pub open spec fn unit_step(s: Seq<char>, pos: int) -> Step<()> {
    match char_step(s, pos, '(') {
        Err(e) => Err(e),
        Ok((_, next)) => char_step(s, next, ')'),
    }
}

/// Reads the start of an optional value: `Some` and its opening
/// parenthesis, or `None`. Any other identifier is an unknown variant.
pub open spec fn option_step(s: Seq<char>, pos: int) -> Step<bool> {
    match ident_step(s, pos) {
        Err(e) => Err(e),
        Ok((name, next)) => if name == "Some"@ {
            match char_step(s, next, '(') {
                Ok((_, inner)) => Ok((true, inner)),
                Err(e) => Err(e),
            }
        } else if name == "None"@ {
            Ok((false, next))
        } else {
            Err(ErrorView::UnknownVariant { found: name })
        },
    }
}

/// Reads the opening delimiter of a sequence.
pub open spec fn seq_step(s: Seq<char>, pos: int) -> Step<Bracket> {
    match punct_step(s, pos, ExpectedView::Custom("`[` or `{`"@), seq!['['], seq!['{']) {
        Err(e) => Err(e),
        Ok((text, next)) => Ok(
            (
                if text == seq!['['] {
                    Bracket::Square
                } else {
                    Bracket::Curly
                },
                next,
            ),
        ),
    }
}

/// Whether the next token is the punctuation character `first` or `second`.
pub open spec fn at_punct(s: Seq<char>, pos: int, first: char, second: char) -> Result<
    bool,
    ErrorView,
> {
    match token_step(s, pos) {
        Err(e) => Err(e),
        Ok(l) => Ok(is_punct(s, l, seq![first]) || is_punct(s, l, seq![second])),
    }
}

/// Whether another item stands before the closing `first` or `second`.
/// Nothing is consumed.
pub open spec fn next_item_step(s: Seq<char>, pos: int, first: char, second: char) -> Step<bool> {
    match at_punct(s, pos, first, second) {
        Err(e) => Err(e),
        Ok(closed) => Ok((!closed, pos)),
    }
}

/// What may follow an item: the closing `first` or `second`, which stays
/// unread, or else a comma, which is consumed. So a comma may stand before
/// the closing delimiter, and between two items it must.
pub open spec fn end_item_step(s: Seq<char>, pos: int, first: char, second: char) -> Step<()> {
    match at_punct(s, pos, first, second) {
        Err(e) => Err(e),
        Ok(closed) => if closed {
            Ok(((), pos))
        } else {
            char_step(s, pos, ',')
        },
    }
}

/// Reads the name of the next field of a struct, `None` where the closing
/// brace follows. Two dots before the brace stand for fields that are not
/// shown: they are consumed, and no field follows them.
pub open spec fn struct_key_step(s: Seq<char>, pos: int) -> Step<Option<Seq<char>>> {
    match token_step(s, pos) {
        Err(e) => Err(e),
        Ok(l) => if is_punct(s, l, seq!['}']) {
            Ok((None, pos))
        } else if is_punct(s, l, seq!['.', '.']) {
            Ok((None, l.end))
        } else {
            match ident_step(s, pos) {
                Ok((name, next)) => Ok((Some(name), next)),
                Err(e) => Err(e),
            }
        },
    }
}

/// The shape that a sign and the token behind it announce.
pub open spec fn signed_shape(s: Seq<char>, negative: bool, second: Lexeme) -> Result<
    ShapeView,
    ErrorView,
> {
    if second.kind == TokenKind::Integer {
        Ok(
            if negative {
                ShapeView::Signed
            } else {
                ShapeView::Unsigned
            },
        )
    } else if second.kind == TokenKind::Float {
        Ok(ShapeView::Float)
    } else {
        Err(ErrorView::unexpected(second.text(s), ExpectedView::Custom("an integer or a float"@)))
    }
}

/// The shape that the identifier `name` and the token behind it announce.
pub open spec fn named_shape(s: Seq<char>, name: Seq<char>, second: Lexeme) -> ShapeView {
    if is_punct(s, second, seq!['{']) {
        ShapeView::Struct(name)
    } else if is_punct(s, second, seq!['(']) {
        ShapeView::TupleStruct(name)
    } else if name == "true"@ || name == "false"@ {
        ShapeView::Bool
    } else {
        ShapeView::UnitStruct(name)
    }
}

/// The shape of the value that begins at the next token. A token that
/// begins no value is reported as found where a value was expected.
pub open spec fn shape_of(s: Seq<char>, pos: int) -> Result<ShapeView, ErrorView> {
    match token_step(s, pos) {
        Err(e) => Err(e),
        Ok(l) => match l.kind {
            TokenKind::String => Ok(ShapeView::Str),
            TokenKind::Char => Ok(ShapeView::Char),
            TokenKind::Integer => Ok(ShapeView::Unsigned),
            TokenKind::Float => Ok(ShapeView::Float),
            TokenKind::Ident => match token_step(s, l.end) {
                Err(e) => Err(e),
                Ok(second) => Ok(named_shape(s, l.text(s), second)),
            },
            TokenKind::Punct => if l.text(s) == seq!['+'] || l.text(s) == seq!['-'] {
                match token_step(s, l.end) {
                    Err(e) => Err(e),
                    Ok(second) => signed_shape(s, l.text(s) == seq!['-'], second),
                }
            } else if l.text(s) == seq!['('] {
                Ok(ShapeView::Tuple)
            } else if l.text(s) == seq!['{'] {
                Ok(ShapeView::Mapping)
            } else if l.text(s) == seq!['['] {
                Ok(ShapeView::Sequence)
            } else {
                Err(ErrorView::unexpected(l.text(s), ExpectedView::Custom("a value"@)))
            },
            TokenKind::Eof => Err(
                ErrorView::unexpected(l.text(s), ExpectedView::Custom("a value"@)),
            ),
        },
    }
}

/// Whitespace that has been passed over is not met again.
pub proof fn lemma_skip_whitespace_twice(s: Seq<char>, pos: int)
    requires
        0 <= pos <= s.len(),
    ensures
        scan(s, scan(s, pos, CharClass::Whitespace), CharClass::Whitespace) == scan(
            s,
            pos,
            CharClass::Whitespace,
        ),
        next_token(s, scan(s, pos, CharClass::Whitespace)) == next_token(s, pos),
{
    lemma_scan(s, pos, CharClass::Whitespace);
}

/// Whether `text` spells `NaN` in any mix of upper and lower case.
pub fn text_is_nan(text: &str) -> (r: bool)
    ensures
        r == is_nan(text@),
{
    let chars = chars_of(text);
    chars.len() == 3 && (chars[0] == 'n' || chars[0] == 'N') && (chars[1] == 'a' || chars[1]
        == 'A') && (chars[2] == 'n' || chars[2] == 'N')
}

/// Reads the values of the debug format from a text, step by step.
#[derive(Debug)]
pub struct Deserializer {
    lexer: Lexer,
}

/// What a step of a `Deserializer` does, given the outcome that the input
/// determines: on success it returns what was read and stops behind it, on
/// failure it returns the error and consumes nothing.
pub open spec fn stepped<T: View>(
    before: &Deserializer,
    after: &Deserializer,
    r: Result<T, Error>,
    outcome: Step<T::V>,
) -> bool {
    &&& after.text() == before.text()
    &&& match outcome {
        Ok((value, next)) => r matches Ok(v) && v@ == value && after.cursor() == next,
        Err(e) => r matches Err(err) && err@ == e && after.cursor() == before.cursor(),
    }
}

impl Deserializer {
    /// The whole input.
    pub closed spec fn text(&self) -> Seq<char> {
        self.lexer.text()
    }

    /// How many characters of the input have been consumed.
    pub closed spec fn cursor(&self) -> int {
        self.lexer.cursor()
    }

    /// Whether nothing but whitespace is left ahead of the cursor.
    pub open spec fn at_end(&self) -> bool {
        scan(self.text(), self.cursor(), CharClass::Whitespace) >= self.text().len()
    }

    /// A deserializer at the start of `data`.
    pub fn new(data: &str) -> (r: Deserializer)
        ensures
            r.text() == data@,
            r.cursor() == 0,
    {
        Deserializer { lexer: Lexer::new(data) }
    }

    /// How many characters of the input have been consumed.
    pub fn position(&self) -> (r: usize)
        ensures
            r == self.cursor(),
            r <= self.text().len(),
    {
        self.lexer.position()
    }

    /// The next token, which stays unread.
    pub fn peek(&mut self) -> (r: Result<Token, Error>)
        ensures
            final(self).text() == old(self).text(),
            final(self).cursor() == old(self).cursor(),
            match token_step(old(self).text(), old(self).cursor()) {
                Ok(l) => r matches Ok(t) && t@ == l.token(old(self).text()),
                Err(e) => r matches Err(err) && err@ == e,
            },
    {
        let start = self.lexer.position();
        let r = self.lexer.parse_token();
        self.lexer.seek(start);
        match r {
            Ok(token) => Ok(token),
            Err(e) => Err(Error::from_lexer(e)),
        }
    }

    /// The token after the next; both stay unread.
    pub fn peek2(&mut self) -> (r: Result<Token, Error>)
        ensures
            final(self).text() == old(self).text(),
            final(self).cursor() == old(self).cursor(),
            match second_token_step(old(self).text(), old(self).cursor()) {
                Ok(l) => r matches Ok(t) && t@ == l.token(old(self).text()),
                Err(e) => r matches Err(err) && err@ == e,
            },
    {
        let start = self.lexer.position();
        let r = match self.lexer.parse_token() {
            Ok(_) => self.lexer.parse_token(),
            Err(e) => Err(e),
        };
        self.lexer.seek(start);
        match r {
            Ok(token) => Ok(token),
            Err(e) => Err(Error::from_lexer(e)),
        }
    }

    /// Succeeds where nothing but whitespace is left ahead of the cursor,
    /// which does not move.
    pub fn end(&mut self) -> (r: Result<(), Error>)
        ensures
            stepped(old(self), final(self), r, end_step(old(self).text(), old(self).cursor())),
            r is Ok <==> old(self).at_end(),
    {
        let start = self.lexer.position();
        proof {
            lemma_next_token(self.text(), start as int);
        }
        match self.peek() {
            Ok(token) => match token.kind {
                TokenKind::Eof => Ok(()),
                _ => Err(Error::unexpected_token(token, Expected::Token(TokenKind::Eof))),
            },
            Err(e) => Err(e),
        }
    }

    /// The text of the input from `start` to `end`, which covers every
    /// token that lies between the two.
    pub fn join_spans(&self, start: usize, end: usize) -> (r: String)
        requires
            start <= end <= self.text().len(),
        ensures
            r@ == self.text().subrange(start as int, end as int),
    {
        self.lexer.slice(start, end)
    }

    /// Reads one token.
    fn next(&mut self) -> (r: Result<Token, Error>)
        ensures
            final(self).text() == old(self).text(),
            match token_step(old(self).text(), old(self).cursor()) {
                Ok(l) => r matches Ok(t) && t@ == l.token(old(self).text()) && final(self).cursor()
                    == l.end,
                Err(e) => r matches Err(err) && err@ == e && final(self).cursor() == old(
                    self,
                ).cursor(),
            },
    {
        let start = self.lexer.position();
        match self.lexer.parse_token() {
            Ok(token) => Ok(token),
            Err(e) => {
                self.lexer.seek(start);
                Err(Error::from_lexer(e))
            },
        }
    }

    /// Reads a punctuation token that spells `first` or `second`, and
    /// returns its text.
    pub fn parse_punct_ex(&mut self, expected: Expected, first: &str, second: &str) -> (r: Result<
        String,
        Error,
    >)
        ensures
            stepped(
                old(self),
                final(self),
                r,
                punct_step(old(self).text(), old(self).cursor(), expected@, first@, second@),
            ),
    {
        let start = self.lexer.position();
        match self.next() {
            Err(e) => Err(e),
            Ok(token) => {
                if token.is_punct(first) || token.is_punct(second) {
                    Ok(token.value)
                } else {
                    self.lexer.seek(start);
                    Err(Error::unexpected_token(token, expected))
                }
            },
        }
    }

    /// Reads the punctuation character `punct`.
    pub fn parse_punct(&mut self, punct: char) -> (r: Result<(), Error>)
        ensures
            stepped(old(self), final(self), r, char_step(old(self).text(), old(self).cursor(), punct)),
    {
        let start = self.lexer.position();
        match self.next() {
            Err(e) => Err(e),
            Ok(token) => {
                let fits = match token.kind {
                    TokenKind::Punct => str_is_char(token.value.as_str(), punct),
                    _ => false,
                };
                if fits {
                    Ok(())
                } else {
                    self.lexer.seek(start);
                    Err(Error::unexpected_token(token, Expected::Punct(punct)))
                }
            },
        }
    }

    /// Reads an identifier and returns it.
    pub fn parse_ident(&mut self) -> (r: Result<String, Error>)
        ensures
            stepped(old(self), final(self), r, ident_step(old(self).text(), old(self).cursor())),
    {
        let start = self.lexer.position();
        match self.next() {
            Err(e) => Err(e),
            Ok(token) => match token.kind {
                TokenKind::Ident => Ok(token.value),
                _ => {
                    self.lexer.seek(start);
                    Err(Error::unexpected_token(token, Expected::Token(TokenKind::Ident)))
                },
            },
        }
    }

    /// Reads the identifier `expected`, character for character.
    pub fn parse_ident_exact(&mut self, expected: &str) -> (r: Result<(), Error>)
        ensures
            stepped(
                old(self),
                final(self),
                r,
                ident_exact_step(old(self).text(), old(self).cursor(), expected@),
            ),
    {
        let start = self.lexer.position();
        match self.next() {
            Err(e) => Err(e),
            Ok(token) => match token.kind {
                TokenKind::Ident => {
                    if str_eq(token.value.as_str(), expected) {
                        Ok(())
                    } else {
                        self.lexer.seek(start);
                        Err(Error::unexpected_token(token, Expected::custom(expected)))
                    }
                },
                _ => {
                    self.lexer.seek(start);
                    Err(Error::unexpected_token(token, Expected::Token(TokenKind::Ident)))
                },
            },
        }
    }

    /// Reads a literal of `kind`, a string or a character, and decodes it.
    fn parse_literal(&mut self, kind: TokenKind) -> (r: Result<Str, Error>)
        requires
            kind == TokenKind::String || kind == TokenKind::Char,
        ensures
            stepped(
                old(self),
                final(self),
                r,
                literal_step(old(self).text(), old(self).cursor(), kind),
            ),
    {
        let origin = self.lexer.position();
        self.lexer.skip_whitespace();
        let start = self.lexer.position();
        proof {
            lemma_skip_whitespace_twice(self.text(), origin as int);
            lemma_next_token(self.text(), origin as int);
            lemma_quoted_token(self.text(), start as int);
        }
        match self.next() {
            Err(e) => {
                self.lexer.seek(origin);
                Err(e)
            },
            Ok(token) => {
                if token.kind == kind {
                    let end = self.lexer.position();
                    let inner = self.lexer.slice(start + 1, end - 1);
                    match unescape(inner.as_str()) {
                        Ok(value) => Ok(Str { span: token.value, value }),
                        Err(e) => {
                            self.lexer.seek(origin);
                            Err(e)
                        },
                    }
                } else {
                    self.lexer.seek(origin);
                    Err(Error::unexpected_token(token, Expected::Token(kind)))
                }
            },
        }
    }

    /// Reads a string literal and decodes it.
    pub fn parse_string(&mut self) -> (r: Result<Str, Error>)
        ensures
            stepped(
                old(self),
                final(self),
                r,
                literal_step(old(self).text(), old(self).cursor(), TokenKind::String),
            ),
    {
        self.parse_literal(TokenKind::String)
    }

    /// Reads a character literal and decodes it.
    pub fn parse_char(&mut self) -> (r: Result<Str, Error>)
        ensures
            stepped(
                old(self),
                final(self),
                r,
                literal_step(old(self).text(), old(self).cursor(), TokenKind::Char),
            ),
    {
        self.parse_literal(TokenKind::Char)
    }

    /// Reads an optional sign and the token behind it. Returns the sign,
    /// the position where the sign or else the token begins, and the token.
    fn parse_signed(&mut self) -> (r: Result<(Sign, usize, Token), Error>)
        ensures
            final(self).text() == old(self).text(),
            match signed_step(old(self).text(), old(self).cursor()) {
                Ok(signed) => r matches Ok(found) && found.0 == signed.sign && found.1
                    == signed.start && found.2@ == signed.token.token(old(self).text())
                    && final(self).cursor() == signed.token.end && 0 <= signed.start
                    <= signed.token.end <= old(self).text().len(),
                Err(e) => r matches Err(err) && err@ == e && final(self).cursor() == old(
                    self,
                ).cursor(),
            },
    {
        let origin = self.lexer.position();
        self.lexer.skip_whitespace();
        let start = self.lexer.position();
        proof {
            lemma_skip_whitespace_twice(self.text(), origin as int);
            lemma_next_token(self.text(), origin as int);
        }
        let first = match self.next() {
            Ok(token) => token,
            Err(e) => {
                self.lexer.seek(origin);
                return Err(e);
            },
        };
        let sign = match first.kind {
            TokenKind::Punct => {
                if str_is_char(first.value.as_str(), '+') {
                    Some(Sign::Positive)
                } else if str_is_char(first.value.as_str(), '-') {
                    Some(Sign::Negative)
                } else {
                    None
                }
            },
            _ => None,
        };
        proof {
            assert(seq!['+'][0] == '+' && seq!['-'][0] == '-');
        }
        match sign {
            None => Ok((Sign::Positive, start, first)),
            Some(sign) => {
                let middle = self.lexer.position();
                proof {
                    lemma_next_token(self.text(), middle as int);
                }
                match self.next() {
                    Ok(token) => Ok((sign, start, token)),
                    Err(e) => {
                        self.lexer.seek(origin);
                        Err(e)
                    },
                }
            },
        }
    }

    /// Reads an integer literal with its optional sign.
    pub fn parse_integer(&mut self) -> (r: Result<Integer, Error>)
        ensures
            stepped(old(self), final(self), r, integer_step(old(self).text(), old(self).cursor())),
    {
        let origin = self.lexer.position();
        match self.parse_signed() {
            Err(e) => Err(e),
            Ok((sign, start, token)) => match token.kind {
                TokenKind::Integer => {
                    let end = self.lexer.position();
                    Ok(Integer { sign, value: token.value, span: self.join_spans(start, end) })
                },
                _ => {
                    self.lexer.seek(origin);
                    Err(Error::unexpected_token(token, Expected::Token(TokenKind::Integer)))
                },
            },
        }
    }

    /// Reads a floating-point literal with its optional sign.
    pub fn parse_float(&mut self) -> (r: Result<Float, Error>)
        ensures
            stepped(old(self), final(self), r, float_step(old(self).text(), old(self).cursor())),
    {
        let origin = self.lexer.position();
        match self.parse_signed() {
            Err(e) => Err(e),
            Ok((sign, start, token)) => {
                let fits = match token.kind {
                    TokenKind::Float => true,
                    TokenKind::Ident => text_is_nan(token.value.as_str()),
                    _ => false,
                };
                if fits {
                    let end = self.lexer.position();
                    Ok(
                        Float {
                            sign,
                            kind: token.kind,
                            value: token.value,
                            span: self.join_spans(start, end),
                        },
                    )
                } else {
                    self.lexer.seek(origin);
                    Err(Error::unexpected_token(token, Expected::Token(TokenKind::Float)))
                }
            },
        }
    }

    /// Reads `true` or `false`.
    pub fn deserialize_bool(&mut self) -> (r: Result<bool, Error>)
        ensures
            stepped(old(self), final(self), r, bool_step(old(self).text(), old(self).cursor())),
    {
        let start = self.lexer.position();
        match self.parse_ident() {
            Err(e) => Err(e),
            Ok(name) => {
                if str_eq(name.as_str(), "true") {
                    Ok(true)
                } else if str_eq(name.as_str(), "false") {
                    Ok(false)
                } else {
                    self.lexer.seek(start);
                    Err(
                        Error::unexpected_token(
                            Token { kind: TokenKind::Ident, value: name },
                            Expected::custom("a boolean"),
                        ),
                    )
                }
            },
        }
    }

    /// Reads an integer literal for an unsigned type whose largest value is
    /// `max`.
    fn unsigned(&mut self, max: u128) -> (r: Result<u128, Error>)
        ensures
            final(self).text() == old(self).text(),
            match unsigned_step(old(self).text(), old(self).cursor(), max as nat) {
                Ok((value, next)) => r matches Ok(v) && v == value && v <= max
                    && final(self).cursor() == next,
                Err(e) => r matches Err(err) && err@ == e && final(self).cursor() == old(
                    self,
                ).cursor(),
            },
    {
        let start = self.lexer.position();
        match self.parse_integer() {
            Err(e) => Err(e),
            Ok(literal) => match parse_unsigned(literal.sign, literal.value.as_str(), max) {
                Ok(value) => Ok(value),
                Err(kind) => {
                    self.lexer.seek(start);
                    Err(Error::parse_int(literal.span.as_str(), kind))
                },
            },
        }
    }

    /// Reads an integer literal for a signed type whose largest value is
    /// `max`.
    fn signed(&mut self, max: i128) -> (r: Result<i128, Error>)
        requires
            max >= 0,
        ensures
            final(self).text() == old(self).text(),
            match signed_int_step(old(self).text(), old(self).cursor(), max as nat) {
                Ok((value, next)) => r matches Ok(v) && v == value && -max - 1 <= v <= max
                    && final(self).cursor() == next,
                Err(e) => r matches Err(err) && err@ == e && final(self).cursor() == old(
                    self,
                ).cursor(),
            },
    {
        let start = self.lexer.position();
        match self.parse_integer() {
            Err(e) => Err(e),
            Ok(literal) => match parse_signed(literal.sign, literal.value.as_str(), max) {
                Ok(value) => Ok(value),
                Err(kind) => {
                    self.lexer.seek(start);
                    Err(Error::parse_int(literal.span.as_str(), kind))
                },
            },
        }
    }

    /// Reads an integer literal as a `u8`.
    pub fn deserialize_u8(&mut self) -> (r: Result<u8, Error>)
        ensures
            final(self).text() == old(self).text(),
            match unsigned_step(old(self).text(), old(self).cursor(), u8::MAX as nat) {
                Ok((value, next)) => r matches Ok(v) && v == value && final(self).cursor() == next,
                Err(e) => r matches Err(err) && err@ == e && final(self).cursor() == old(
                    self,
                ).cursor(),
            },
    {
        match self.unsigned(u8::MAX as u128) {
            Ok(value) => Ok(value as u8),
            Err(e) => Err(e),
        }
    }

    /// Reads an integer literal as a `u16`.
    pub fn deserialize_u16(&mut self) -> (r: Result<u16, Error>)
        ensures
            final(self).text() == old(self).text(),
            match unsigned_step(old(self).text(), old(self).cursor(), u16::MAX as nat) {
                Ok((value, next)) => r matches Ok(v) && v == value && final(self).cursor() == next,
                Err(e) => r matches Err(err) && err@ == e && final(self).cursor() == old(
                    self,
                ).cursor(),
            },
    {
        match self.unsigned(u16::MAX as u128) {
            Ok(value) => Ok(value as u16),
            Err(e) => Err(e),
        }
    }

    /// Reads an integer literal as a `u32`.
    pub fn deserialize_u32(&mut self) -> (r: Result<u32, Error>)
        ensures
            final(self).text() == old(self).text(),
            match unsigned_step(old(self).text(), old(self).cursor(), u32::MAX as nat) {
                Ok((value, next)) => r matches Ok(v) && v == value && final(self).cursor() == next,
                Err(e) => r matches Err(err) && err@ == e && final(self).cursor() == old(
                    self,
                ).cursor(),
            },
    {
        match self.unsigned(u32::MAX as u128) {
            Ok(value) => Ok(value as u32),
            Err(e) => Err(e),
        }
    }

    /// Reads an integer literal as a `u64`.
    pub fn deserialize_u64(&mut self) -> (r: Result<u64, Error>)
        ensures
            final(self).text() == old(self).text(),
            match unsigned_step(old(self).text(), old(self).cursor(), u64::MAX as nat) {
                Ok((value, next)) => r matches Ok(v) && v == value && final(self).cursor() == next,
                Err(e) => r matches Err(err) && err@ == e && final(self).cursor() == old(
                    self,
                ).cursor(),
            },
    {
        match self.unsigned(u64::MAX as u128) {
            Ok(value) => Ok(value as u64),
            Err(e) => Err(e),
        }
    }

    /// Reads an integer literal as a `u128`.
    pub fn deserialize_u128(&mut self) -> (r: Result<u128, Error>)
        ensures
            final(self).text() == old(self).text(),
            match unsigned_step(old(self).text(), old(self).cursor(), u128::MAX as nat) {
                Ok((value, next)) => r matches Ok(v) && v == value && final(self).cursor() == next,
                Err(e) => r matches Err(err) && err@ == e && final(self).cursor() == old(
                    self,
                ).cursor(),
            },
    {
        self.unsigned(u128::MAX)
    }

    /// Reads an integer literal as an `i8`.
    pub fn deserialize_i8(&mut self) -> (r: Result<i8, Error>)
        ensures
            final(self).text() == old(self).text(),
            match signed_int_step(old(self).text(), old(self).cursor(), i8::MAX as nat) {
                Ok((value, next)) => r matches Ok(v) && v == value && final(self).cursor() == next,
                Err(e) => r matches Err(err) && err@ == e && final(self).cursor() == old(
                    self,
                ).cursor(),
            },
    {
        match self.signed(i8::MAX as i128) {
            Ok(value) => Ok(value as i8),
            Err(e) => Err(e),
        }
    }

    /// Reads an integer literal as an `i16`.
    pub fn deserialize_i16(&mut self) -> (r: Result<i16, Error>)
        ensures
            final(self).text() == old(self).text(),
            match signed_int_step(old(self).text(), old(self).cursor(), i16::MAX as nat) {
                Ok((value, next)) => r matches Ok(v) && v == value && final(self).cursor() == next,
                Err(e) => r matches Err(err) && err@ == e && final(self).cursor() == old(
                    self,
                ).cursor(),
            },
    {
        match self.signed(i16::MAX as i128) {
            Ok(value) => Ok(value as i16),
            Err(e) => Err(e),
        }
    }

    /// Reads an integer literal as an `i32`.
    pub fn deserialize_i32(&mut self) -> (r: Result<i32, Error>)
        ensures
            final(self).text() == old(self).text(),
            match signed_int_step(old(self).text(), old(self).cursor(), i32::MAX as nat) {
                Ok((value, next)) => r matches Ok(v) && v == value && final(self).cursor() == next,
                Err(e) => r matches Err(err) && err@ == e && final(self).cursor() == old(
                    self,
                ).cursor(),
            },
    {
        match self.signed(i32::MAX as i128) {
            Ok(value) => Ok(value as i32),
            Err(e) => Err(e),
        }
    }

    /// Reads an integer literal as an `i64`.
    pub fn deserialize_i64(&mut self) -> (r: Result<i64, Error>)
        ensures
            final(self).text() == old(self).text(),
            match signed_int_step(old(self).text(), old(self).cursor(), i64::MAX as nat) {
                Ok((value, next)) => r matches Ok(v) && v == value && final(self).cursor() == next,
                Err(e) => r matches Err(err) && err@ == e && final(self).cursor() == old(
                    self,
                ).cursor(),
            },
    {
        match self.signed(i64::MAX as i128) {
            Ok(value) => Ok(value as i64),
            Err(e) => Err(e),
        }
    }

    /// Reads an integer literal as an `i128`.
    pub fn deserialize_i128(&mut self) -> (r: Result<i128, Error>)
        ensures
            final(self).text() == old(self).text(),
            match signed_int_step(old(self).text(), old(self).cursor(), i128::MAX as nat) {
                Ok((value, next)) => r matches Ok(v) && v == value && final(self).cursor() == next,
                Err(e) => r matches Err(err) && err@ == e && final(self).cursor() == old(
                    self,
                ).cursor(),
            },
    {
        self.signed(i128::MAX)
    }

    /// Reads a character literal that stands for exactly one character.
    pub fn deserialize_char(&mut self) -> (r: Result<char, Error>)
        ensures
            stepped(
                old(self),
                final(self),
                r,
                char_value_step(old(self).text(), old(self).cursor()),
            ),
    {
        let start = self.lexer.position();
        match self.parse_char() {
            Err(e) => Err(e),
            Ok(literal) => {
                let chars = chars_of(literal.value.as_str());
                if chars.len() == 0 {
                    self.lexer.seek(start);
                    Err(Error::invalid_string_literal("character literal was empty"))
                } else if chars.len() > 1 {
                    self.lexer.seek(start);
                    Err(
                        Error::invalid_string_literal(
                            "character literal contained multiple characters",
                        ),
                    )
                } else {
                    Ok(chars[0])
                }
            },
        }
    }

    /// Reads a string literal and returns the characters it stands for.
    pub fn deserialize_str(&mut self) -> (r: Result<String, Error>)
        ensures
            stepped(old(self), final(self), r, string_step(old(self).text(), old(self).cursor())),
    {
        match self.parse_string() {
            Err(e) => Err(e),
            Ok(literal) => Ok(literal.value),
        }
    }

    /// Reads an identifier: the name of a field or of a variant.
    pub fn deserialize_identifier(&mut self) -> (r: Result<String, Error>)
        ensures
            stepped(old(self), final(self), r, ident_step(old(self).text(), old(self).cursor())),
    {
        self.parse_ident()
    }

    /// Reads the unit value `()`.
    pub fn deserialize_unit(&mut self) -> (r: Result<(), Error>)
        ensures
            stepped(old(self), final(self), r, unit_step(old(self).text(), old(self).cursor())),
    {
        let start = self.lexer.position();
        match self.parse_punct('(') {
            Err(e) => Err(e),
            Ok(_) => match self.parse_punct(')') {
                Ok(_) => Ok(()),
                Err(e) => {
                    self.lexer.seek(start);
                    Err(e)
                },
            },
        }
    }

    /// Reads a struct without fields: its name and nothing else.
    pub fn deserialize_unit_struct(&mut self, name: &str) -> (r: Result<(), Error>)
        ensures
            stepped(
                old(self),
                final(self),
                r,
                ident_exact_step(old(self).text(), old(self).cursor(), name@),
            ),
    {
        self.parse_ident_exact(name)
    }

    /// Whether the next token is the punctuation character `first` or
    /// `second`. Nothing is consumed.
    fn at_close(&mut self, first: char, second: char) -> (r: Result<bool, Error>)
        ensures
            final(self).text() == old(self).text(),
            final(self).cursor() == old(self).cursor(),
            match at_punct(old(self).text(), old(self).cursor(), first, second) {
                Ok(closed) => r matches Ok(c) && c == closed,
                Err(e) => r matches Err(err) && err@ == e,
            },
    {
        match self.peek() {
            Err(e) => Err(e),
            Ok(token) => match token.kind {
                TokenKind::Punct => Ok(
                    str_is_char(token.value.as_str(), first) || str_is_char(
                        token.value.as_str(),
                        second,
                    ),
                ),
                _ => Ok(false),
            },
        }
    }

    /// Whether another item stands before the closing `first` or `second`.
    fn next_item(&mut self, first: char, second: char) -> (r: Result<bool, Error>)
        ensures
            stepped(
                old(self),
                final(self),
                r,
                next_item_step(old(self).text(), old(self).cursor(), first, second),
            ),
    {
        match self.at_close(first, second) {
            Ok(closed) => Ok(!closed),
            Err(e) => Err(e),
        }
    }

    /// Reads what may follow an item: nothing where the closing `first` or
    /// `second` stands next, a comma otherwise.
    fn end_item(&mut self, first: char, second: char) -> (r: Result<(), Error>)
        ensures
            stepped(
                old(self),
                final(self),
                r,
                end_item_step(old(self).text(), old(self).cursor(), first, second),
            ),
    {
        match self.at_close(first, second) {
            Err(e) => Err(e),
            Ok(closed) => {
                if closed {
                    Ok(())
                } else {
                    self.parse_punct(',')
                }
            },
        }
    }

    /// Reads the name `name` and the opening delimiter `open` behind it.
    fn named_open(&mut self, name: &str, open: char) -> (r: Result<(), Error>)
        ensures
            stepped(
                old(self),
                final(self),
                r,
                named_open_step(old(self).text(), old(self).cursor(), name@, open),
            ),
    {
        let start = self.lexer.position();
        match self.parse_ident_exact(name) {
            Err(e) => Err(e),
            Ok(_) => match self.parse_punct(open) {
                Ok(_) => Ok(()),
                Err(e) => {
                    self.lexer.seek(start);
                    Err(e)
                },
            },
        }
    }

    /// Reads the start of an optional value. Returns whether a value
    /// follows, which `end_option` then closes.
    pub fn deserialize_option(&mut self) -> (r: Result<bool, Error>)
        ensures
            stepped(old(self), final(self), r, option_step(old(self).text(), old(self).cursor())),
    {
        let start = self.lexer.position();
        match self.parse_ident() {
            Err(e) => Err(e),
            Ok(name) => {
                if str_eq(name.as_str(), "Some") {
                    match self.parse_punct('(') {
                        Ok(_) => Ok(true),
                        Err(e) => {
                            self.lexer.seek(start);
                            Err(e)
                        },
                    }
                } else if str_eq(name.as_str(), "None") {
                    Ok(false)
                } else {
                    self.lexer.seek(start);
                    Err(Error::unknown_variant(name.as_str()))
                }
            },
        }
    }

    /// Reads the parenthesis that closes `Some(`.
    pub fn end_option(&mut self) -> (r: Result<(), Error>)
        ensures
            stepped(old(self), final(self), r, char_step(old(self).text(), old(self).cursor(), ')')),
    {
        self.parse_punct(')')
    }

    /// Reads the name of a struct with one unnamed field and the
    /// parenthesis that opens it.
    pub fn deserialize_newtype_struct(&mut self, name: &str) -> (r: Result<(), Error>)
        ensures
            stepped(
                old(self),
                final(self),
                r,
                named_open_step(old(self).text(), old(self).cursor(), name@, '('),
            ),
    {
        self.named_open(name, '(')
    }

    /// Reads the parenthesis that closes a struct with one unnamed field.
    pub fn end_newtype_struct(&mut self) -> (r: Result<(), Error>)
        ensures
            stepped(old(self), final(self), r, char_step(old(self).text(), old(self).cursor(), ')')),
    {
        self.parse_punct(')')
    }

    /// Reads the delimiter that opens a sequence, `[` or `{`.
    pub fn deserialize_seq(&mut self) -> (r: Result<Bracket, Error>)
        ensures
            stepped(old(self), final(self), r, seq_step(old(self).text(), old(self).cursor())),
    {
        proof {
            reveal_strlit("[");
            reveal_strlit("{");
            assert("["@ =~= seq!['[']);
            assert("{"@ =~= seq!['{']);
        }
        match self.parse_punct_ex(Expected::custom("`[` or `{`"), "[", "{") {
            Err(e) => Err(e),
            Ok(text) => {
                if str_is_char(text.as_str(), '[') {
                    Ok(Bracket::Square)
                } else {
                    Ok(Bracket::Curly)
                }
            },
        }
    }

    /// Reads the delimiter that closes a sequence which `opened` opened.
    pub fn end_seq(&mut self, opened: Bracket) -> (r: Result<(), Error>)
        ensures
            stepped(
                old(self),
                final(self),
                r,
                char_step(old(self).text(), old(self).cursor(), opened.closer()),
            ),
    {
        match opened {
            Bracket::Square => self.parse_punct(']'),
            Bracket::Curly => self.parse_punct('}'),
        }
    }

    /// Whether another element of a sequence follows: not where `]` or `}`
    /// stands next.
    pub fn seq_next_element(&mut self) -> (r: Result<bool, Error>)
        ensures
            stepped(
                old(self),
                final(self),
                r,
                next_item_step(old(self).text(), old(self).cursor(), ']', '}'),
            ),
    {
        self.next_item(']', '}')
    }

    /// Reads what follows an element of a sequence: a comma, unless `]` or
    /// `}` stands next.
    pub fn seq_end_element(&mut self) -> (r: Result<(), Error>)
        ensures
            stepped(
                old(self),
                final(self),
                r,
                end_item_step(old(self).text(), old(self).cursor(), ']', '}'),
            ),
    {
        self.end_item(']', '}')
    }

    /// Reads the parenthesis that opens a tuple.
    pub fn deserialize_tuple(&mut self) -> (r: Result<(), Error>)
        ensures
            stepped(old(self), final(self), r, char_step(old(self).text(), old(self).cursor(), '(')),
    {
        self.parse_punct('(')
    }

    /// Reads the parenthesis that closes a tuple.
    pub fn end_tuple(&mut self) -> (r: Result<(), Error>)
        ensures
            stepped(old(self), final(self), r, char_step(old(self).text(), old(self).cursor(), ')')),
    {
        self.parse_punct(')')
    }

    /// Whether another element of a tuple follows: not where `)` stands
    /// next.
    pub fn tuple_next_element(&mut self) -> (r: Result<bool, Error>)
        ensures
            stepped(
                old(self),
                final(self),
                r,
                next_item_step(old(self).text(), old(self).cursor(), ')', ')'),
            ),
    {
        self.next_item(')', ')')
    }

    /// Reads what follows an element of a tuple: a comma, unless `)` stands
    /// next.
    pub fn tuple_end_element(&mut self) -> (r: Result<(), Error>)
        ensures
            stepped(
                old(self),
                final(self),
                r,
                end_item_step(old(self).text(), old(self).cursor(), ')', ')'),
            ),
    {
        self.end_item(')', ')')
    }

    /// Reads the name of a tuple struct and the parenthesis that opens it.
    pub fn deserialize_tuple_struct(&mut self, name: &str) -> (r: Result<(), Error>)
        ensures
            stepped(
                old(self),
                final(self),
                r,
                named_open_step(old(self).text(), old(self).cursor(), name@, '('),
            ),
    {
        self.named_open(name, '(')
    }

    /// Reads the brace that opens a map.
    pub fn deserialize_map(&mut self) -> (r: Result<(), Error>)
        ensures
            stepped(old(self), final(self), r, char_step(old(self).text(), old(self).cursor(), '{')),
    {
        self.parse_punct('{')
    }

    /// Reads the brace that closes a map.
    pub fn end_map(&mut self) -> (r: Result<(), Error>)
        ensures
            stepped(old(self), final(self), r, char_step(old(self).text(), old(self).cursor(), '}')),
    {
        self.parse_punct('}')
    }

    /// Whether another key of a map follows: not where `}` stands next.
    pub fn map_next_key(&mut self) -> (r: Result<bool, Error>)
        ensures
            stepped(
                old(self),
                final(self),
                r,
                next_item_step(old(self).text(), old(self).cursor(), '}', '}'),
            ),
    {
        self.next_item('}', '}')
    }

    /// Reads the colon between a key and its value.
    pub fn map_begin_value(&mut self) -> (r: Result<(), Error>)
        ensures
            stepped(old(self), final(self), r, char_step(old(self).text(), old(self).cursor(), ':')),
    {
        self.parse_punct(':')
    }

    /// Reads what follows a value of a map: a comma, unless `}` stands
    /// next.
    pub fn map_end_value(&mut self) -> (r: Result<(), Error>)
        ensures
            stepped(
                old(self),
                final(self),
                r,
                end_item_step(old(self).text(), old(self).cursor(), '}', '}'),
            ),
    {
        self.end_item('}', '}')
    }

    /// Reads the name of a struct and the brace that opens its fields.
    pub fn deserialize_struct(&mut self, name: &str) -> (r: Result<(), Error>)
        ensures
            stepped(
                old(self),
                final(self),
                r,
                named_open_step(old(self).text(), old(self).cursor(), name@, '{'),
            ),
    {
        self.named_open(name, '{')
    }

    /// Reads the brace that closes the fields of a struct.
    pub fn end_struct(&mut self) -> (r: Result<(), Error>)
        ensures
            stepped(old(self), final(self), r, char_step(old(self).text(), old(self).cursor(), '}')),
    {
        self.parse_punct('}')
    }

    /// Reads the name of the next field of a struct; `None` where no field
    /// follows.
    pub fn struct_next_key(&mut self) -> (r: Result<Option<String>, Error>)
        ensures
            final(self).text() == old(self).text(),
            match struct_key_step(old(self).text(), old(self).cursor()) {
                Ok((Some(name), next)) => r matches Ok(Some(found)) && found@ == name
                    && final(self).cursor() == next,
                Ok((None, next)) => r matches Ok(None) && final(self).cursor() == next,
                Err(e) => r matches Err(err) && err@ == e && final(self).cursor() == old(
                    self,
                ).cursor(),
            },
    {
        proof {
            reveal_strlit("..");
            assert(".."@ =~= seq!['.', '.']);
        }
        let token = match self.peek() {
            Ok(token) => token,
            Err(e) => {
                return Err(e);
            },
        };
        if token.is_punct("..") {
            match self.next() {
                Ok(_) => Ok(None),
                Err(e) => Err(e),
            }
        } else {
            let closed = match token.kind {
                TokenKind::Punct => str_is_char(token.value.as_str(), '}'),
                _ => false,
            };
            if closed {
                Ok(None)
            } else {
                match self.parse_ident() {
                    Ok(name) => Ok(Some(name)),
                    Err(e) => Err(e),
                }
            }
        }
    }

    /// Reads the colon between the name of a field and its value.
    pub fn struct_begin_value(&mut self) -> (r: Result<(), Error>)
        ensures
            stepped(old(self), final(self), r, char_step(old(self).text(), old(self).cursor(), ':')),
    {
        self.parse_punct(':')
    }

    /// Reads what follows the value of a field: a comma, unless `}` stands
    /// next.
    pub fn struct_end_value(&mut self) -> (r: Result<(), Error>)
        ensures
            stepped(
                old(self),
                final(self),
                r,
                end_item_step(old(self).text(), old(self).cursor(), '}', '}'),
            ),
    {
        self.end_item('}', '}')
    }

    /// Reads the name of the variant of an enum. What follows depends on
    /// the kind of the variant: nothing, one value or a tuple in
    /// parentheses, or fields in braces.
    pub fn deserialize_enum(&mut self) -> (r: Result<String, Error>)
        ensures
            stepped(old(self), final(self), r, ident_step(old(self).text(), old(self).cursor())),
    {
        self.parse_ident()
    }

    /// Reads the parenthesis that opens the value of a variant with one
    /// unnamed field.
    pub fn newtype_variant(&mut self) -> (r: Result<(), Error>)
        ensures
            stepped(old(self), final(self), r, char_step(old(self).text(), old(self).cursor(), '(')),
    {
        self.parse_punct('(')
    }

    /// Reads the parenthesis that closes the value of a variant with one
    /// unnamed field.
    pub fn end_newtype_variant(&mut self) -> (r: Result<(), Error>)
        ensures
            stepped(old(self), final(self), r, char_step(old(self).text(), old(self).cursor(), ')')),
    {
        self.parse_punct(')')
    }

    /// Reads the parenthesis that opens the fields of a tuple variant.
    pub fn tuple_variant(&mut self) -> (r: Result<(), Error>)
        ensures
            stepped(old(self), final(self), r, char_step(old(self).text(), old(self).cursor(), '(')),
    {
        self.deserialize_tuple()
    }

    /// Reads the brace that opens the fields of a struct variant.
    pub fn struct_variant(&mut self) -> (r: Result<(), Error>)
        ensures
            stepped(old(self), final(self), r, char_step(old(self).text(), old(self).cursor(), '{')),
    {
        self.parse_punct('{')
    }

    /// Tells the shape of the value that stands next, for a caller that
    /// does not know its type. Nothing is consumed.
    pub fn deserialize_any(&mut self) -> (r: Result<Shape, Error>)
        ensures
            final(self).text() == old(self).text(),
            final(self).cursor() == old(self).cursor(),
            match shape_of(old(self).text(), old(self).cursor()) {
                Ok(shape) => r matches Ok(found) && found@ == shape,
                Err(e) => r matches Err(err) && err@ == e,
            },
    {
        let token = match self.peek() {
            Ok(token) => token,
            Err(e) => {
                return Err(e);
            },
        };
        match token.kind {
            TokenKind::String => Ok(Shape::Str),
            TokenKind::Char => Ok(Shape::Char),
            TokenKind::Integer => Ok(Shape::Unsigned),
            TokenKind::Float => Ok(Shape::Float),
            TokenKind::Ident => {
                let second = match self.peek2() {
                    Ok(second) => second,
                    Err(e) => {
                        return Err(e);
                    },
                };
                let opens_fields = match second.kind {
                    TokenKind::Punct => str_is_char(second.value.as_str(), '{'),
                    _ => false,
                };
                let opens_tuple = match second.kind {
                    TokenKind::Punct => str_is_char(second.value.as_str(), '('),
                    _ => false,
                };
                if opens_fields {
                    Ok(Shape::Struct(token.value))
                } else if opens_tuple {
                    Ok(Shape::TupleStruct(token.value))
                } else if str_eq(token.value.as_str(), "true") || str_eq(
                    token.value.as_str(),
                    "false",
                ) {
                    Ok(Shape::Bool)
                } else {
                    Ok(Shape::UnitStruct(token.value))
                }
            },
            TokenKind::Punct => {
                let plus = str_is_char(token.value.as_str(), '+');
                let minus = str_is_char(token.value.as_str(), '-');
                if plus || minus {
                    let second = match self.peek2() {
                        Ok(second) => second,
                        Err(e) => {
                            return Err(e);
                        },
                    };
                    match second.kind {
                        TokenKind::Integer => {
                            if minus {
                                Ok(Shape::Signed)
                            } else {
                                Ok(Shape::Unsigned)
                            }
                        },
                        TokenKind::Float => Ok(Shape::Float),
                        _ => Err(
                            Error::unexpected_token(
                                second,
                                Expected::custom("an integer or a float"),
                            ),
                        ),
                    }
                } else if str_is_char(token.value.as_str(), '(') {
                    Ok(Shape::Tuple)
                } else if str_is_char(token.value.as_str(), '{') {
                    Ok(Shape::Mapping)
                } else if str_is_char(token.value.as_str(), '[') {
                    Ok(Shape::Sequence)
                } else {
                    Err(Error::unexpected_token(token, Expected::custom("a value")))
                }
            },
            TokenKind::Eof => Err(Error::unexpected_token(token, Expected::custom("a value"))),
        }
    }
}

} // verus!
