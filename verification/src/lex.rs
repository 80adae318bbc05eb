//! The tokenizer: a cursor over the characters of the input that hands out one
//! token at a time.

use crate::error::{Expected, ExpectedView, LexerError, LexerErrorView};
use crate::text::{
    char_in_class, char_is_ident_start, chars_of, in_class, is_ascii_digit, is_ascii_hexdigit,
    is_ident_start, str_eq, string_of, CharClass,
};
use vstd::prelude::*;

verus! {

/// The kinds of token.
#[derive(Copy, Clone, Debug, PartialEq, Eq, Structural)]
pub enum TokenKind {
    /// An identifier: `TokenKind`, `true`, `false`.
    Ident,
    /// One of `{ } [ ] : , ( ) + -`, or the two dots `..`.
    Punct,
    /// An integer, with or without a radix prefix: `0`, `0x000`, `0o1234`, `0b011011`.
    Integer,
    /// A floating-point number: `0.0`, `42.0`, `5e+3`, `99.1212e-22`.
    Float,
    /// A string in double quotes, escapes not yet decoded.
    String,
    /// A character in single quotes, escapes not yet decoded.
    Char,
    /// The end of the input.
    Eof,
}

impl TokenKind {
    /// The kind in words, as an error message names it.
    pub open spec fn describe(self) -> Seq<char> {
        match self {
            TokenKind::String => "a string"@,
            TokenKind::Char => "a character literal"@,
            TokenKind::Integer => "an integer"@,
            TokenKind::Float => "a floating-point number"@,
            TokenKind::Punct => "a punctuation token"@,
            TokenKind::Ident => "an identifier"@,
            TokenKind::Eof => "end-of-file"@,
        }
    }

    /// The kind in words.
    pub fn to_string(&self) -> (r: String)
        ensures
            r@ == self.describe(),
    {
        match self {
            TokenKind::String => String::from_str("a string"),
            TokenKind::Char => String::from_str("a character literal"),
            TokenKind::Integer => String::from_str("an integer"),
            TokenKind::Float => String::from_str("a floating-point number"),
            TokenKind::Punct => String::from_str("a punctuation token"),
            TokenKind::Ident => String::from_str("an identifier"),
            TokenKind::Eof => String::from_str("end-of-file"),
        }
    }
}

/// A token: its kind and the exact text it was read from.
#[derive(Clone, Debug)]
pub struct Token {
    pub kind: TokenKind,
    pub value: String,
}

/// A `Token`, with its text as a sequence of characters.
pub struct TokenView {
    pub kind: TokenKind,
    pub value: Seq<char>,
}

impl View for Token {
    type V = TokenView;

    open spec fn view(&self) -> TokenView {
        TokenView { kind: self.kind, value: self.value@ }
    }
}

impl Token {
    /// Whether this token is the punctuation `punct`.
    pub fn is_punct(&self, punct: &str) -> (r: bool)
        ensures
            r == (self.kind == TokenKind::Punct && self.value@ == punct@),
    {
        match self.kind {
            TokenKind::Punct => str_eq(self.value.as_str(), punct),
            _ => false,
        }
    }
}

/// The first position at or after `pos` whose character is not in `class`,
/// or the end of `s`.
pub open spec fn scan(s: Seq<char>, pos: int, class: CharClass) -> int
    decreases s.len() - pos,
{
    if 0 <= pos < s.len() && in_class(s[pos], class) {
        scan(s, pos + 1, class)
    } else {
        pos
    }
}

/// The text that an error at `pos` shows: the character there, or nothing at
/// the end of the input.
pub open spec fn found_at(s: Seq<char>, pos: int) -> Seq<char> {
    if 0 <= pos < s.len() {
        seq![s[pos]]
    } else {
        Seq::empty()
    }
}

/// The error for the character at `pos`, found where `expected` had to
/// stand.
pub open spec fn fail_at(s: Seq<char>, pos: int, expected: ExpectedView) -> LexerErrorView {
    LexerErrorView { found: found_at(s, pos), expected }
}

/// The position of the first `quote` at or after `pos` that no backslash
/// stands directly before, or the end of `s` where there is none.
pub open spec fn closing_quote(s: Seq<char>, pos: int, quote: char) -> int
    decreases s.len() - pos,
{
    if pos < 1 || pos >= s.len() {
        s.len() as int
    } else if s[pos] == quote && s[pos - 1] != '\\' {
        pos
    } else {
        closing_quote(s, pos + 1, quote)
    }
}

/// A quoted literal that opens at `start`: where it ends, or why there is none.
pub open spec fn quoted_at(s: Seq<char>, start: int, quote: char, kind: TokenKind) -> Result<
    (TokenKind, int),
    LexerErrorView,
> {
    if 0 <= start < s.len() && s[start] == quote {
        let close = closing_quote(s, start + 1, quote);
        if close < s.len() {
            Ok((kind, close + 1))
        } else {
            Err(
                LexerErrorView {
                    found: s.subrange(start + 1, s.len() as int),
                    expected: ExpectedView::Token(kind),
                },
            )
        }
    } else {
        Err(fail_at(s, start, ExpectedView::Token(kind)))
    }
}

/// The letters that mark a radix behind a leading zero.
pub open spec fn is_radix_marker(c: char) -> bool {
    c == 'x' || c == 'X' || c == 'o' || c == 'O' || c == 'b' || c == 'B'
}

/// The exponent of a number, if one begins at `pos`; the number is a float
/// either way.
pub open spec fn exponent_at(s: Seq<char>, pos: int) -> Result<(TokenKind, int), LexerErrorView> {
    if 0 <= pos < s.len() && (s[pos] == 'e' || s[pos] == 'E') {
        let digits = if pos + 1 < s.len() && (s[pos + 1] == '+' || s[pos + 1] == '-') {
            pos + 2
        } else {
            pos + 1
        };
        if digits < s.len() && is_ascii_digit(s[digits]) {
            Ok((TokenKind::Float, scan(s, digits, CharClass::Digit)))
        } else {
            Err(fail_at(s, digits, ExpectedView::Token(TokenKind::Float)))
        }
    } else {
        Ok((TokenKind::Float, pos))
    }
}

/// What follows the integer part of a number that ends at `pos` before a dot
/// or an exponent marker.
pub open spec fn fraction_at(s: Seq<char>, pos: int) -> Result<(TokenKind, int), LexerErrorView> {
    if 0 <= pos < s.len() && s[pos] == '.' {
        if pos + 1 < s.len() && is_ascii_digit(s[pos + 1]) {
            exponent_at(s, scan(s, pos + 1, CharClass::Digit))
        } else {
            Err(fail_at(s, pos + 1, ExpectedView::Token(TokenKind::Float)))
        }
    } else {
        exponent_at(s, pos)
    }
}

/// A number that begins at `start`: its kind and where it ends, or why there
/// is none.
pub open spec fn number_at(s: Seq<char>, start: int) -> Result<(TokenKind, int), LexerErrorView> {
    if !(0 <= start < s.len() && is_ascii_digit(s[start])) {
        Err(fail_at(s, start, ExpectedView::Custom("a number"@)))
    } else if s[start] == '0' && start + 1 < s.len() && is_radix_marker(s[start + 1]) {
        if start + 2 < s.len() && is_ascii_hexdigit(s[start + 2]) {
            Ok((TokenKind::Integer, scan(s, start + 2, CharClass::HexDigit)))
        } else {
            Err(fail_at(s, start + 2, ExpectedView::Token(TokenKind::Integer)))
        }
    } else {
        let end = scan(s, start + 1, CharClass::Digit);
        if end < s.len() && (s[end] == '.' || s[end] == 'e' || s[end] == 'E') {
            fraction_at(s, end)
        } else {
            Ok((TokenKind::Integer, end))
        }
    }
}

/// An identifier that begins at `start`.
pub open spec fn ident_at(s: Seq<char>, start: int) -> Result<(TokenKind, int), LexerErrorView> {
    if 0 <= start < s.len() && is_ident_start(s[start]) {
        Ok((TokenKind::Ident, scan(s, start + 1, CharClass::IdentContinue)))
    } else {
        Err(fail_at(s, start, ExpectedView::Token(TokenKind::Ident)))
    }
}

/// The two dots `..` at `start`.
pub open spec fn dotdot_at(s: Seq<char>, start: int) -> Result<(TokenKind, int), LexerErrorView> {
    if !(0 <= start < s.len() && s[start] == '.') {
        Err(fail_at(s, start, ExpectedView::Custom(".."@)))
    } else if !(start + 1 < s.len() && s[start + 1] == '.') {
        Err(fail_at(s, start + 1, ExpectedView::Custom(".."@)))
    } else {
        Ok((TokenKind::Punct, start + 2))
    }
}

/// The characters that are a punctuation token each.
pub open spec fn is_single_punct(c: char) -> bool {
    c == '{' || c == '}' || c == '[' || c == ']' || c == ':' || c == ',' || c == '(' || c == ')'
        || c == '+' || c == '-'
}

/// The token that begins exactly at `start`: its kind and where it ends.
pub open spec fn token_at(s: Seq<char>, start: int) -> Result<(TokenKind, int), LexerErrorView> {
    if !(0 <= start < s.len()) {
        Ok((TokenKind::Eof, start))
    } else if s[start] == '"' {
        quoted_at(s, start, '"', TokenKind::String)
    } else if s[start] == '\'' {
        quoted_at(s, start, '\'', TokenKind::Char)
    } else if is_ascii_digit(s[start]) {
        number_at(s, start)
    } else if is_ident_start(s[start]) {
        ident_at(s, start)
    } else if s[start] == '.' {
        dotdot_at(s, start)
    } else if is_single_punct(s[start]) {
        Ok((TokenKind::Punct, start + 1))
    } else {
        Err(fail_at(s, start, ExpectedView::Custom("a valid token"@)))
    }
}

/// A token as a place in the input.
pub struct Lexeme {
    pub kind: TokenKind,
    pub start: int,
    pub end: int,
}

impl Lexeme {
    /// The text of the token.
    pub open spec fn text(self, s: Seq<char>) -> Seq<char> {
        s.subrange(self.start, self.end)
    }

    /// The token that stands at this place of `s`.
    pub open spec fn token(self, s: Seq<char>) -> TokenView {
        TokenView { kind: self.kind, value: self.text(s) }
    }
}

/// The next token of `s` for a cursor at `pos`: whitespace is passed over,
/// then one token is read.
pub open spec fn next_token(s: Seq<char>, pos: int) -> Result<Lexeme, LexerErrorView> {
    let start = scan(s, pos, CharClass::Whitespace);
    match token_at(s, start) {
        Ok((kind, end)) => Ok(Lexeme { kind, start, end }),
        Err(e) => Err(e),
    }
}

/// The tokens of an input as far as they can be read, and the error that
/// ends them where one of them cannot.
pub struct TokenStream {
    pub tokens: Seq<TokenView>,
    pub error: Option<LexerErrorView>,
}

impl TokenStream {
    /// This stream with `tokens` before it.
    pub open spec fn after(self, tokens: Seq<TokenView>) -> TokenStream {
        TokenStream { tokens: tokens + self.tokens, error: self.error }
    }

    /// The tokens, or the error where there is one.
    pub open spec fn outcome(self) -> Result<Seq<TokenView>, LexerErrorView> {
        match self.error {
            Some(e) => Err(e),
            None => Ok(self.tokens),
        }
    }
}

/// All tokens of `s` from `pos` on, the end of input last. Where a token
/// cannot be read, the tokens before it and the error.
pub open spec fn stream_from(s: Seq<char>, pos: int) -> TokenStream
    decreases s.len() - pos,
{
    if !(0 <= pos <= s.len()) {
        TokenStream { tokens: Seq::empty(), error: None }
    } else {
        match next_token(s, pos) {
            Err(e) => TokenStream { tokens: Seq::empty(), error: Some(e) },
            Ok(l) => if l.kind == TokenKind::Eof {
                TokenStream { tokens: seq![l.token(s)], error: None }
            } else {
                proof {
                    lemma_next_token(s, pos);
                }
                stream_from(s, l.end).after(seq![l.token(s)])
            },
        }
    }
}

/// All tokens of `s` from `pos` on, the end of input last, or the first
/// error.
pub open spec fn tokens_from(s: Seq<char>, pos: int) -> Result<Seq<TokenView>, LexerErrorView> {
    stream_from(s, pos).outcome()
}

/// The views of `tokens`, in order.
pub open spec fn views_of(tokens: Seq<Token>) -> Seq<TokenView> {
    tokens.map_values(|t: Token| t@)
}

/// A run that `scan` passes over stays inside the input, and every character
/// of it is in the class; the character at its end is not.
pub proof fn lemma_scan(s: Seq<char>, pos: int, class: CharClass)
    requires
        0 <= pos <= s.len(),
    ensures
        pos <= scan(s, pos, class) <= s.len(),
        forall|i: int| pos <= i < scan(s, pos, class) ==> in_class(#[trigger] s[i], class),
        scan(s, pos, class) < s.len() ==> !in_class(s[scan(s, pos, class)], class),
    decreases s.len() - pos,
{
    if pos < s.len() && in_class(s[pos], class) {
        lemma_scan(s, pos + 1, class);
    }
}

/// A run of characters of one class is passed over as a whole.
pub proof fn lemma_scan_through(s: Seq<char>, from: int, to: int, class: CharClass)
    requires
        0 <= from <= to <= s.len(),
        forall|i: int| from <= i < to ==> in_class(#[trigger] s[i], class),
    ensures
        scan(s, from, class) == scan(s, to, class),
    decreases to - from,
{
    if from < to {
        lemma_scan_through(s, from + 1, to, class);
    }
}

/// Whether `s` from `p` on and `t` from `q` on hold the same characters.
pub open spec fn same_from(s: Seq<char>, p: int, t: Seq<char>, q: int) -> bool {
    &&& 0 <= p <= s.len()
    &&& 0 <= q <= t.len()
    &&& s.skip(p) == t.skip(q)
}

/// What two inputs that agree from a place on have in common: as much is
/// left of both, they agree from every later place on, and so do their
/// characters and their texts.
pub proof fn lemma_same_from(s: Seq<char>, p: int, t: Seq<char>, q: int, i: int)
    requires
        same_from(s, p, t, q),
        0 <= i <= s.len() - p,
    ensures
        s.len() - p == t.len() - q,
        same_from(s, p + i, t, q + i),
        i < s.len() - p ==> s[p + i] == t[q + i],
        s.subrange(p, p + i) == t.subrange(q, q + i),
{
    assert(s.skip(p).len() == t.skip(q).len());
    assert(s.skip(p + i) =~= s.skip(p).skip(i));
    assert(t.skip(q + i) =~= t.skip(q).skip(i));
    if i < s.len() - p {
        assert(s[p + i] == s.skip(p)[i]);
        assert(t[q + i] == t.skip(q)[i]);
    }
    assert(s.subrange(p, p + i) =~= s.skip(p).take(i));
    assert(t.subrange(q, q + i) =~= t.skip(q).take(i));
}

/// A run of characters depends on nothing before the place where it
/// begins.
pub proof fn lemma_scan_moved(s: Seq<char>, p: int, t: Seq<char>, q: int, class: CharClass)
    requires
        same_from(s, p, t, q),
    ensures
        scan(t, q, class) - q == scan(s, p, class) - p,
    decreases s.len() - p,
{
    lemma_same_from(s, p, t, q, 0);
    if p < s.len() && in_class(s[p], class) {
        lemma_same_from(s, p, t, q, 1);
        lemma_scan_moved(s, p + 1, t, q + 1, class);
    }
}

/// `closing_quote` stays inside the input.
pub proof fn lemma_closing_quote(s: Seq<char>, pos: int, quote: char)
    requires
        1 <= pos <= s.len(),
    ensures
        pos <= closing_quote(s, pos, quote) <= s.len(),
        closing_quote(s, pos, quote) < s.len() ==> s[closing_quote(s, pos, quote)] == quote,
    decreases s.len() - pos,
{
    if pos < s.len() && !(s[pos] == quote && s[pos - 1] != '\\') {
        lemma_closing_quote(s, pos + 1, quote);
    }
}

/// A token lies inside the input, and every token but the end of input is
/// at least one character long.
pub proof fn lemma_token_at(s: Seq<char>, start: int)
    requires
        0 <= start <= s.len(),
    ensures
        match token_at(s, start) {
            Ok((kind, end)) => start <= end <= s.len() && (kind == TokenKind::Eof <==> start
                == s.len()) && (kind != TokenKind::Eof ==> start < end),
            Err(_) => start < s.len(),
        },
{
    if start < s.len() {
        lemma_closing_quote(s, start + 1, '"');
        lemma_closing_quote(s, start + 1, '\'');
        lemma_scan(s, start + 1, CharClass::IdentContinue);
        lemma_scan(s, start + 1, CharClass::Digit);
        if start + 2 <= s.len() {
            lemma_scan(s, start + 2, CharClass::HexDigit);
        }
        let d = scan(s, start + 1, CharClass::Digit);
        if d + 1 <= s.len() {
            lemma_scan(s, d + 1, CharClass::Digit);
            let f = scan(s, d + 1, CharClass::Digit);
            if f + 1 <= s.len() {
                lemma_scan(s, f + 1, CharClass::Digit);
            }
            if f + 2 <= s.len() {
                lemma_scan(s, f + 2, CharClass::Digit);
            }
        }
        if d + 2 <= s.len() {
            lemma_scan(s, d + 2, CharClass::Digit);
        }
    }
}

/// The kind of a token follows from its first character.
pub proof fn lemma_token_kinds(s: Seq<char>, start: int)
    requires
        0 <= start < s.len(),
    ensures
        token_at(s, start) matches Ok((kind, end)) ==> {
            &&& kind == TokenKind::String <==> s[start] == '"'
            &&& kind == TokenKind::Char <==> s[start] == '\''
            &&& kind == TokenKind::Integer || kind == TokenKind::Float <==> is_ascii_digit(s[start])
                && s[start] != '"' && s[start] != '\''
            &&& kind != TokenKind::Eof
        },
{
}

/// A string or character literal holds at least its two quotes.
pub proof fn lemma_quoted_token(s: Seq<char>, start: int)
    requires
        0 <= start <= s.len(),
    ensures
        token_at(s, start) matches Ok((kind, end)) ==> (kind == TokenKind::String || kind
            == TokenKind::Char) ==> start + 2 <= end,
{
    if start < s.len() {
        lemma_closing_quote(s, start + 1, '"');
        lemma_closing_quote(s, start + 1, '\'');
        lemma_token_kinds(s, start);
    }
}

/// The next token lies between the cursor and the end of the input.
pub proof fn lemma_next_token(s: Seq<char>, pos: int)
    requires
        0 <= pos <= s.len(),
    ensures
        pos <= scan(s, pos, CharClass::Whitespace) <= s.len(),
        match next_token(s, pos) {
            Ok(l) => pos <= l.start <= l.end <= s.len() && l.start == scan(
                s,
                pos,
                CharClass::Whitespace,
            ) && (l.kind == TokenKind::Eof <==> l.start == s.len()) && (l.kind != TokenKind::Eof
                ==> l.start < l.end),
            Err(_) => true,
        },
{
    lemma_scan(s, pos, CharClass::Whitespace);
    lemma_token_at(s, scan(s, pos, CharClass::Whitespace));
}

/// The first position at or after `pos` whose character is not in `class`.
pub fn scan_class(data: &[char], pos: usize, class: CharClass) -> (r: usize)
    requires
        pos <= data@.len(),
    ensures
        r == scan(data@, pos as int, class),
        pos <= r <= data@.len(),
{
    let mut i: usize = pos;
    while i < data.len() && char_in_class(data[i], class)
        invariant
            pos <= i <= data@.len(),
            scan(data@, pos as int, class) == scan(data@, i as int, class),
        decreases data@.len() - i,
    {
        i += 1;
    }
    i
}

/// The tokenizer's state: the whole input and a cursor into it.
#[derive(Debug)]
pub struct Lexer {
    data: Vec<char>,
    pos: usize,
}

/// What a reading function of the tokenizer does, given what the input
/// holds at the cursor: on success it returns the kind and stops behind the
/// token, on failure it returns the error and consumes nothing.
pub open spec fn reads(
    before: &Lexer,
    after: &Lexer,
    r: Result<TokenKind, LexerError>,
    outcome: Result<(TokenKind, int), LexerErrorView>,
) -> bool {
    &&& after.text() == before.text()
    &&& match outcome {
        Ok((kind, end)) => r matches Ok(k) && k == kind && after.cursor() == end,
        Err(e) => r matches Err(err) && err@ == e && after.cursor() == before.cursor(),
    }
}

impl Lexer {
    #[verifier::type_invariant]
    spec fn cursor_in_bounds(&self) -> bool {
        self.pos <= self.data@.len()
    }

    /// The whole input.
    pub closed spec fn text(&self) -> Seq<char> {
        self.data@
    }

    /// How many characters of the input have been consumed.
    pub closed spec fn cursor(&self) -> int {
        self.pos as int
    }

    /// The token that the next call of `parse_token` reads.
    pub open spec fn upcoming(&self) -> Result<Lexeme, LexerErrorView> {
        next_token(self.text(), self.cursor())
    }

    /// A tokenizer at the start of `data`.
    pub fn new(data: &str) -> (r: Lexer)
        ensures
            r.text() == data@,
            r.cursor() == 0,
    {
        Lexer { data: chars_of(data), pos: 0 }
    }

    /// How many characters of the input have been consumed.
    pub fn position(&self) -> (r: usize)
        ensures
            r == self.cursor(),
            r <= self.text().len(),
    {
        proof {
            use_type_invariant(self);
        }
        self.pos
    }

    /// Moves the cursor back or forth to a position inside the input.
    pub fn seek(&mut self, pos: usize)
        requires
            pos <= old(self).text().len(),
        ensures
            final(self).text() == old(self).text(),
            final(self).cursor() == pos,
    {
        self.pos = pos;
    }

    /// The characters from `start` to `end` of the input.
    pub fn slice(&self, start: usize, end: usize) -> (r: String)
        requires
            start <= end <= self.text().len(),
        ensures
            r@ == self.text().subrange(start as int, end as int),
    {
        string_of(self.data.as_slice(), start, end)
    }

    /// Passes over the whitespace at the cursor.
    pub fn skip_whitespace(&mut self)
        ensures
            final(self).text() == old(self).text(),
            final(self).cursor() == scan(old(self).text(), old(self).cursor(), CharClass::Whitespace),
    {
        self.parse_repeated(CharClass::Whitespace);
    }

    /// Moves the cursor `chars` characters on.
    pub fn advance(&mut self, chars: usize)
        requires
            old(self).cursor() + chars <= old(self).text().len(),
        ensures
            final(self).text() == old(self).text(),
            final(self).cursor() == old(self).cursor() + chars,
    {
        proof {
            use_type_invariant(&*self);
            vstd::std_specs::vec::axiom_spec_len(&self.data);
        }
        self.pos = self.pos + chars;
    }

    /// The character at the cursor, which moves past it.
    pub fn take_char(&mut self) -> (r: Option<char>)
        ensures
            final(self).text() == old(self).text(),
            old(self).cursor() < old(self).text().len() ==> r == Some(
                old(self).text()[old(self).cursor()],
            ) && final(self).cursor() == old(self).cursor() + 1,
            old(self).cursor() >= old(self).text().len() ==> r is None && final(self).cursor()
                == old(self).cursor(),
    {
        proof {
            use_type_invariant(&*self);
        }
        if self.pos < self.data.len() {
            let c = self.data[self.pos];
            self.pos = self.pos + 1;
            Some(c)
        } else {
            None
        }
    }

    /// The character at the cursor.
    pub fn peek_char(&self) -> (r: Option<char>)
        ensures
            self.cursor() < self.text().len() ==> r == Some(self.text()[self.cursor()]),
            self.cursor() >= self.text().len() ==> r is None,
    {
        proof {
            use_type_invariant(self);
        }
        if self.pos < self.data.len() {
            Some(self.data[self.pos])
        } else {
            None
        }
    }

    /// The character at the cursor as text, empty at the end of the input.
    pub fn first_char(&self) -> (r: String)
        ensures
            r@ == found_at(self.text(), self.cursor()),
    {
        proof {
            use_type_invariant(self);
        }
        let mut out = String::new();
        if self.pos < self.data.len() {
            out.push(self.data[self.pos]);
            assert(out@ =~= seq![self.data@[self.pos as int]]);
        }
        out
    }

    /// The error for the character at the cursor.
    pub fn unexpected_token(&self, expected: Expected) -> (r: LexerError)
        ensures
            r@ == fail_at(self.text(), self.cursor(), expected@),
    {
        LexerError { found: self.first_char(), expected }
    }

    /// The error for an input that ends too early.
    pub fn unexpected_eof(&self, expected: Expected) -> (r: LexerError)
        ensures
            r@ == (LexerErrorView { found: Seq::empty(), expected: expected@ }),
    {
        LexerError::unexpected_eof(expected)
    }

    /// Consumes one character of `class`, or fails and consumes nothing.
    pub fn parse_once(&mut self, expected: Expected, class: CharClass) -> (r: Result<
        (),
        LexerError,
    >)
        ensures
            final(self).text() == old(self).text(),
            match r {
                Ok(_) => old(self).cursor() < old(self).text().len() && in_class(
                    old(self).text()[old(self).cursor()],
                    class,
                ) && final(self).cursor() == old(self).cursor() + 1,
                Err(e) => !(old(self).cursor() < old(self).text().len() && in_class(
                    old(self).text()[old(self).cursor()],
                    class,
                )) && e@ == fail_at(old(self).text(), old(self).cursor(), expected@)
                    && final(self).cursor() == old(self).cursor(),
            },
    {
        match self.peek_char() {
            Some(c) => {
                if char_in_class(c, class) {
                    self.advance(1);
                    Ok(())
                } else {
                    Err(self.unexpected_token(expected))
                }
            },
            None => Err(self.unexpected_token(expected)),
        }
    }

    /// Consumes characters for as long as they are of `class`.
    pub fn parse_repeated(&mut self, class: CharClass)
        ensures
            final(self).text() == old(self).text(),
            final(self).cursor() == scan(old(self).text(), old(self).cursor(), class),
    {
        proof {
            use_type_invariant(&*self);
        }
        self.pos = scan_class(self.data.as_slice(), self.pos, class);
    }

    /// Reads a literal between two `quote` characters.
    fn parse_quoted(&mut self, quote: char, kind: TokenKind) -> (r: Result<TokenKind, LexerError>)
        ensures
            reads(
                old(self),
                final(self),
                r,
                quoted_at(old(self).text(), old(self).cursor(), quote, kind),
            ),
    {
        proof {
            use_type_invariant(&*self);
        }
        let len = self.data.len();
        let start = self.pos;
        if !(start < len && self.data[start] == quote) {
            return Err(self.unexpected_token(Expected::Token(kind)));
        }
        let mut i: usize = start + 1;
        while i < len && !(self.data[i] == quote && self.data[i - 1] != '\\')
            invariant
                start + 1 <= i <= len,
                len == self.data@.len(),
                closing_quote(self.data@, start + 1, quote) == closing_quote(
                    self.data@,
                    i as int,
                    quote,
                ),
            decreases len - i,
        {
            i += 1;
        }
        if i < len {
            self.pos = i + 1;
            Ok(kind)
        } else {
            Err(
                LexerError {
                    found: string_of(self.data.as_slice(), start + 1, len),
                    expected: Expected::Token(kind),
                },
            )
        }
    }

    /// Reads a string literal, quotes included.
    pub fn parse_string(&mut self) -> (r: Result<TokenKind, LexerError>)
        ensures
            reads(
                old(self),
                final(self),
                r,
                quoted_at(old(self).text(), old(self).cursor(), '"', TokenKind::String),
            ),
    {
        self.parse_quoted('"', TokenKind::String)
    }

    /// Reads a character literal, quotes included.
    pub fn parse_char(&mut self) -> (r: Result<TokenKind, LexerError>)
        ensures
            reads(
                old(self),
                final(self),
                r,
                quoted_at(old(self).text(), old(self).cursor(), '\'', TokenKind::Char),
            ),
    {
        self.parse_quoted('\'', TokenKind::Char)
    }

    /// Reads an identifier.
    pub fn parse_ident(&mut self) -> (r: Result<TokenKind, LexerError>)
        ensures
            reads(old(self), final(self), r, ident_at(old(self).text(), old(self).cursor())),
    {
        match self.peek_char() {
            Some(c) => {
                if char_is_ident_start(c) {
                    self.advance(1);
                    self.parse_repeated(CharClass::IdentContinue);
                    Ok(TokenKind::Ident)
                } else {
                    Err(self.unexpected_token(Expected::Token(TokenKind::Ident)))
                }
            },
            None => Err(self.unexpected_eof(Expected::Token(TokenKind::Ident))),
        }
    }

    /// Reads the exponent of a number, if there is one.
    fn parse_exponent(&mut self) -> (r: Result<TokenKind, LexerError>)
        ensures
            reads(old(self), final(self), r, exponent_at(old(self).text(), old(self).cursor())),
    {
        let start = self.position();
        match self.peek_char() {
            Some(c) => {
                if c == 'e' || c == 'E' {
                    self.advance(1);
                    match self.peek_char() {
                        Some(sign) => {
                            if sign == '+' || sign == '-' {
                                self.advance(1);
                            }
                        },
                        None => {},
                    }
                    match self.parse_once(Expected::Token(TokenKind::Float), CharClass::Digit) {
                        Ok(_) => {
                            self.parse_repeated(CharClass::Digit);
                            Ok(TokenKind::Float)
                        },
                        Err(e) => {
                            self.seek(start);
                            Err(e)
                        },
                    }
                } else {
                    Ok(TokenKind::Float)
                }
            },
            None => Ok(TokenKind::Float),
        }
    }

    /// Reads what follows the integer part of a number before a dot or an
    /// exponent marker.
    fn parse_fraction(&mut self) -> (r: Result<TokenKind, LexerError>)
        ensures
            reads(old(self), final(self), r, fraction_at(old(self).text(), old(self).cursor())),
    {
        let start = self.position();
        match self.peek_char() {
            Some(c) => {
                if c == '.' {
                    self.advance(1);
                    match self.parse_once(Expected::Token(TokenKind::Float), CharClass::Digit) {
                        Ok(_) => {
                            self.parse_repeated(CharClass::Digit);
                        },
                        Err(e) => {
                            self.seek(start);
                            return Err(e);
                        },
                    }
                }
            },
            None => {},
        }
        match self.parse_exponent() {
            Ok(kind) => Ok(kind),
            Err(e) => {
                self.seek(start);
                Err(e)
            },
        }
    }

    /// Reads an integer or a floating-point number.
    pub fn parse_number(&mut self) -> (r: Result<TokenKind, LexerError>)
        ensures
            reads(old(self), final(self), r, number_at(old(self).text(), old(self).cursor())),
    {
        let start = self.position();
        match self.peek_char() {
            Some(c) => {
                if !('0' <= c && c <= '9') {
                    return Err(self.unexpected_token(Expected::custom("a number")));
                }
                self.advance(1);
                if c == '0' {
                    match self.peek_char() {
                        Some(m) => {
                            if m == 'x' || m == 'X' || m == 'o' || m == 'O' || m == 'b' || m
                                == 'B' {
                                self.advance(1);
                                match self.parse_once(
                                    Expected::Token(TokenKind::Integer),
                                    CharClass::HexDigit,
                                ) {
                                    Ok(_) => {
                                        self.parse_repeated(CharClass::HexDigit);
                                        return Ok(TokenKind::Integer);
                                    },
                                    Err(e) => {
                                        self.seek(start);
                                        return Err(e);
                                    },
                                }
                            }
                        },
                        None => {},
                    }
                }
            },
            None => {
                return Err(self.unexpected_eof(Expected::custom("a number")));
            },
        }
        self.parse_repeated(CharClass::Digit);
        match self.peek_char() {
            Some(c) => {
                if c == '.' || c == 'e' || c == 'E' {
                    match self.parse_fraction() {
                        Ok(kind) => Ok(kind),
                        Err(e) => {
                            self.seek(start);
                            Err(e)
                        },
                    }
                } else {
                    Ok(TokenKind::Integer)
                }
            },
            None => Ok(TokenKind::Integer),
        }
    }

    /// Reads the two dots `..`.
    pub fn parse_dotdot(&mut self) -> (r: Result<TokenKind, LexerError>)
        ensures
            reads(old(self), final(self), r, dotdot_at(old(self).text(), old(self).cursor())),
    {
        let start = self.position();
        match self.parse_once(Expected::custom(".."), CharClass::Dot) {
            Ok(_) => {},
            Err(e) => {
                return Err(e);
            },
        }
        match self.parse_once(Expected::custom(".."), CharClass::Dot) {
            Ok(_) => Ok(TokenKind::Punct),
            Err(e) => {
                self.seek(start);
                Err(e)
            },
        }
    }

    /// Reads the token that begins at the cursor, told by its first
    /// character. A token that cannot be completed consumes nothing.
    pub fn try_parse(&mut self) -> (r: Result<TokenKind, LexerError>)
        ensures
            reads(old(self), final(self), r, token_at(old(self).text(), old(self).cursor())),
    {
        match self.peek_char() {
            None => Ok(TokenKind::Eof),
            Some(c) => {
                if c == '"' {
                    self.parse_string()
                } else if c == '\'' {
                    self.parse_char()
                } else if '0' <= c && c <= '9' {
                    self.parse_number()
                } else if char_is_ident_start(c) {
                    self.parse_ident()
                } else if c == '.' {
                    self.parse_dotdot()
                } else if c == '{' || c == '}' || c == '[' || c == ']' || c == ':' || c == ','
                    || c == '(' || c == ')' || c == '+' || c == '-' {
                    self.advance(1);
                    Ok(TokenKind::Punct)
                } else {
                    Err(self.unexpected_token(Expected::custom("a valid token")))
                }
            },
        }
    }

    /// Reads the token that begins at the cursor and returns it with its text.
    pub fn parse_consumed(&mut self) -> (r: Result<Token, LexerError>)
        ensures
            final(self).text() == old(self).text(),
            match token_at(old(self).text(), old(self).cursor()) {
                Ok((kind, end)) => r matches Ok(t) && t.kind == kind && t.value@ == old(
                    self,
                ).text().subrange(old(self).cursor(), end) && final(self).cursor() == end,
                Err(e) => r matches Err(err) && err@ == e && final(self).cursor() == old(
                    self,
                ).cursor(),
            },
    {
        let start = self.position();
        proof {
            lemma_token_at(self.text(), start as int);
        }
        match self.try_parse() {
            Ok(kind) => {
                let end = self.position();
                Ok(Token { kind, value: self.slice(start, end) })
            },
            Err(e) => Err(e),
        }
    }

    /// Passes over whitespace and reads one token. On failure the cursor
    /// stays behind the whitespace.
    pub fn parse_token(&mut self) -> (r: Result<Token, LexerError>)
        ensures
            final(self).text() == old(self).text(),
            match old(self).upcoming() {
                Ok(l) => r matches Ok(t) && t@ == l.token(old(self).text()) && final(self).cursor()
                    == l.end,
                Err(e) => r matches Err(err) && err@ == e && final(self).cursor() == scan(
                    old(self).text(),
                    old(self).cursor(),
                    CharClass::Whitespace,
                ),
            },
    {
        self.skip_whitespace();
        self.parse_consumed()
    }
}

/// All tokens of `input`, the end of input last, or the first error.
pub fn lex_all(input: &str) -> (r: Result<Vec<Token>, LexerError>)
    ensures
        match tokens_from(input@, 0) {
            Ok(tokens) => r matches Ok(v) && views_of(v@) == tokens,
            Err(e) => r matches Err(err) && err@ == e,
        },
{
    let mut lexer = Lexer::new(input);
    let mut tokens: Vec<Token> = Vec::new();
    assert(views_of(tokens@) =~= Seq::empty());
    assert(Seq::<TokenView>::empty() + stream_from(input@, 0).tokens =~= stream_from(
        input@,
        0,
    ).tokens);
    loop
        invariant
            lexer.text() == input@,
            0 <= lexer.cursor() <= input@.len(),
            stream_from(input@, 0) == stream_from(input@, lexer.cursor()).after(views_of(tokens@)),
        decreases input@.len() - lexer.cursor(),
    {
        let ghost before = lexer.cursor();
        let ghost seen = views_of(tokens@);
        proof {
            lemma_next_token(input@, before);
        }
        match lexer.parse_token() {
            Err(e) => {
                return Err(e);
            },
            Ok(token) => {
                let is_eof = token.kind == TokenKind::Eof;
                let ghost view = token@;
                tokens.push(token);
                proof {
                    assert(views_of(tokens@) =~= seen + seq![view]);
                    let more = stream_from(input@, lexer.cursor()).tokens;
                    assert(seen + (seq![view] + more) =~= (seen + seq![view]) + more);
                    assert(seen + seq![view] =~= views_of(tokens@));
                }
                if is_eof {
                    return Ok(tokens);
                }
            },
        }
    }
}

} // verus!
