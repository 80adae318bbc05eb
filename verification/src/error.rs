//! The failures of tokenizing and decoding, each with the text it was found in.

use crate::lex::{Token, TokenKind};
use vstd::prelude::*;

verus! {

/// What the reader was looking for when it met something else.
#[derive(Clone, Debug)]
pub enum Expected {
    /// Any token of this kind.
    Token(TokenKind),
    /// This one punctuation character.
    Punct(char),
    /// Something that only a phrase describes.
    Custom(String),
}

/// An `Expected`, with the phrase it holds as text.
pub enum ExpectedView {
    Token(TokenKind),
    Punct(char),
    Custom(Seq<char>),
}

impl View for Expected {
    type V = ExpectedView;

    open spec fn view(&self) -> ExpectedView {
        match self {
            Expected::Token(kind) => ExpectedView::Token(*kind),
            Expected::Punct(c) => ExpectedView::Punct(*c),
            Expected::Custom(msg) => ExpectedView::Custom(msg@),
        }
    }
}

impl ExpectedView {
    /// The phrase that stands after "expected" in a message.
    pub open spec fn message(self) -> Seq<char> {
        match self {
            ExpectedView::Token(kind) => kind.describe(),
            ExpectedView::Punct(c) => seq!['`', c, '`'],
            ExpectedView::Custom(msg) => msg,
        }
    }
}

impl Expected {
    /// An expectation that a phrase describes.
    pub fn custom(phrase: &str) -> (r: Expected)
        ensures
            r@ == ExpectedView::Custom(phrase@),
    {
        Expected::Custom(String::from_str(phrase))
    }

    /// The phrase that stands after "expected" in a message.
    pub fn to_string(&self) -> (r: String)
        ensures
            r@ == self@.message(),
    {
        match self {
            Expected::Token(kind) => kind.to_string(),
            Expected::Punct(c) => {
                let mut out = String::new();
                out.push('`');
                out.push(*c);
                out.push('`');
                assert(out@ =~= seq!['`', *c, '`']);
                out
            },
            Expected::Custom(msg) => msg.clone(),
        }
    }
}

/// A token that the tokenizer or the grammar could not accept.
#[derive(Clone, Debug)]
pub struct LexerError {
    /// The offending text; empty where the input ended instead.
    pub found: String,
    pub expected: Expected,
}

/// A `LexerError`, with what it holds as text.
pub struct LexerErrorView {
    pub found: Seq<char>,
    pub expected: ExpectedView,
}

impl View for LexerError {
    type V = LexerErrorView;

    open spec fn view(&self) -> LexerErrorView {
        LexerErrorView { found: self.found@, expected: self.expected@ }
    }
}

impl LexerErrorView {
    /// The message for a reader: what was found, or that the input ended,
    /// and what was expected.
    pub open spec fn message(self) -> Seq<char> {
        if self.found.len() == 0 {
            "unexpected end of file, expected "@ + self.expected.message()
        } else {
            "unexpected token `"@ + self.found + "`, expected "@ + self.expected.message()
        }
    }
}

impl LexerError {
    /// The error for `found` where `expected` had to stand.
    pub fn unexpected_token(found: &str, expected: Expected) -> (r: LexerError)
        ensures
            r@ == (LexerErrorView { found: found@, expected: expected@ }),
    {
        LexerError { found: String::from_str(found), expected }
    }

    /// The error for an input that ends where `expected` had to stand.
    pub fn unexpected_eof(expected: Expected) -> (r: LexerError)
        ensures
            r@ == (LexerErrorView { found: Seq::empty(), expected: expected@ }),
    {
        LexerError { found: String::new(), expected }
    }

    /// The message for a reader.
    pub fn to_string(&self) -> (r: String)
        ensures
            r@ == self@.message(),
    {
        let expected = self.expected.to_string();
        if self.found.as_str().is_empty() {
            let mut out = String::from_str("unexpected end of file, expected ");
            out.append(expected.as_str());
            out
        } else {
            let mut out = String::from_str("unexpected token `");
            out.append(self.found.as_str());
            out.append("`, expected ");
            out.append(expected.as_str());
            out
        }
    }
}

/// Why a run of digits is no value of the integer type asked for.
#[derive(Clone, Copy, Debug, PartialEq, Eq, Structural)]
pub enum IntErrorKind {
    /// There were no digits.
    Empty,
    /// A character is no digit of the radix, or the sign does not fit the type.
    InvalidDigit,
    /// The value lies above the type's range.
    PosOverflow,
    /// The value lies below the type's range.
    NegOverflow,
}

impl IntErrorKind {
    /// The cause in words, as the standard library puts it.
    pub open spec fn describe(self) -> Seq<char> {
        match self {
            IntErrorKind::Empty => "cannot parse integer from empty string"@,
            IntErrorKind::InvalidDigit => "invalid digit found in string"@,
            IntErrorKind::PosOverflow => "number too large to fit in target type"@,
            IntErrorKind::NegOverflow => "number too small to fit in target type"@,
        }
    }

    /// The cause in words.
    pub fn to_string(&self) -> (r: String)
        ensures
            r@ == self.describe(),
    {
        match self {
            IntErrorKind::Empty => String::from_str("cannot parse integer from empty string"),
            IntErrorKind::InvalidDigit => String::from_str("invalid digit found in string"),
            IntErrorKind::PosOverflow => String::from_str(
                "number too large to fit in target type",
            ),
            IntErrorKind::NegOverflow => String::from_str(
                "number too small to fit in target type",
            ),
        }
    }
}

/// Why a literal is no floating-point number.
#[derive(Clone, Copy, Debug, PartialEq, Eq, Structural)]
pub enum FloatErrorKind {
    Empty,
    Invalid,
}

impl FloatErrorKind {
    /// The cause in words, as the standard library puts it.
    pub open spec fn describe(self) -> Seq<char> {
        match self {
            FloatErrorKind::Empty => "cannot parse float from empty string"@,
            FloatErrorKind::Invalid => "invalid float literal"@,
        }
    }

    /// The cause in words.
    pub fn to_string(&self) -> (r: String)
        ensures
            r@ == self.describe(),
    {
        match self {
            FloatErrorKind::Empty => String::from_str("cannot parse float from empty string"),
            FloatErrorKind::Invalid => String::from_str("invalid float literal"),
        }
    }
}

/// The kinds of failure.
#[allow(inconsistent_fields)]
#[derive(Clone, Debug)]
pub enum ErrorDetail {
    /// A failure that the consumer of the decoded values reports.
    Custom(String),
    /// A token that does not fit the grammar.
    Lexer(LexerError),
    /// An integer literal outside the type asked for.
    ParseInt { value: String, error: IntErrorKind },
    /// A literal that is no floating-point number.
    ParseFloat { value: String, error: FloatErrorKind },
    /// A string or character literal that cannot be decoded.
    InvalidStringLiteral { message: String },
    /// An identifier where `Some` or `None` had to stand.
    UnknownVariant { found: String },
}

/// An `Error`, with what it holds as text.
#[allow(inconsistent_fields)]
pub enum ErrorView {
    Custom(Seq<char>),
    Lexer(LexerErrorView),
    ParseInt { value: Seq<char>, error: IntErrorKind },
    ParseFloat { value: Seq<char>, error: FloatErrorKind },
    InvalidStringLiteral { message: Seq<char> },
    UnknownVariant { found: Seq<char> },
}

impl ErrorView {
    /// The error for a token found where `expected` had to stand.
    pub open spec fn unexpected(found: Seq<char>, expected: ExpectedView) -> ErrorView {
        ErrorView::Lexer(LexerErrorView { found, expected })
    }

    /// The message for a reader.
    pub open spec fn message(self) -> Seq<char> {
        match self {
            ErrorView::Custom(msg) => msg,
            ErrorView::Lexer(err) => err.message(),
            ErrorView::ParseInt { value, error } => "invalid integer literal `"@ + value + "`: "@
                + error.describe(),
            ErrorView::ParseFloat { value, error } => "invalid float literal `"@ + value + "`: "@
                + error.describe(),
            ErrorView::InvalidStringLiteral { message } => "invalid string literal: "@ + message,
            ErrorView::UnknownVariant { found } => "unknown variant `"@ + found
                + "`, expected `Some` or `None`"@,
        }
    }
}

/// Any failure of this library.
#[derive(Clone, Debug)]
pub struct Error(pub ErrorDetail);

impl View for Error {
    type V = ErrorView;

    open spec fn view(&self) -> ErrorView {
        match self.0 {
            ErrorDetail::Custom(msg) => ErrorView::Custom(msg@),
            ErrorDetail::Lexer(err) => ErrorView::Lexer(err@),
            ErrorDetail::ParseInt { value, error } => ErrorView::ParseInt { value: value@, error },
            ErrorDetail::ParseFloat { value, error } => ErrorView::ParseFloat {
                value: value@,
                error,
            },
            ErrorDetail::InvalidStringLiteral { message } => ErrorView::InvalidStringLiteral {
                message: message@,
            },
            ErrorDetail::UnknownVariant { found } => ErrorView::UnknownVariant { found: found@ },
        }
    }
}

impl Error {
    /// A failure that the consumer of the decoded values reports.
    pub fn custom(message: &str) -> (r: Error)
        ensures
            r@ == ErrorView::Custom(message@),
    {
        Error(ErrorDetail::Custom(String::from_str(message)))
    }

    /// The error for the integer literal `value`.
    pub fn parse_int(value: &str, error: IntErrorKind) -> (r: Error)
        ensures
            r@ == (ErrorView::ParseInt { value: value@, error }),
    {
        Error(ErrorDetail::ParseInt { value: String::from_str(value), error })
    }

    /// The error for the float literal `value`.
    pub fn parse_float(value: &str, error: FloatErrorKind) -> (r: Error)
        ensures
            r@ == (ErrorView::ParseFloat { value: value@, error }),
    {
        Error(ErrorDetail::ParseFloat { value: String::from_str(value), error })
    }

    /// The error for `token` found where `expected` had to stand.
    pub fn unexpected_token(token: Token, expected: Expected) -> (r: Error)
        ensures
            r@ == ErrorView::unexpected(token.value@, expected@),
    {
        Error(ErrorDetail::Lexer(LexerError { found: token.value, expected }))
    }

    /// The error for a string or character literal that cannot be decoded.
    pub fn invalid_string_literal(message: &str) -> (r: Error)
        ensures
            r@ == (ErrorView::InvalidStringLiteral { message: message@ }),
    {
        Error(ErrorDetail::InvalidStringLiteral { message: String::from_str(message) })
    }

    /// The error for the identifier `found` where `Some` or `None` had to
    /// stand.
    pub fn unknown_variant(found: &str) -> (r: Error)
        ensures
            r@ == (ErrorView::UnknownVariant { found: found@ }),
    {
        Error(ErrorDetail::UnknownVariant { found: String::from_str(found) })
    }

    /// A tokenizer failure as a failure of the library.
    pub fn from_lexer(error: LexerError) -> (r: Error)
        ensures
            r@ == ErrorView::Lexer(error@),
    {
        Error(ErrorDetail::Lexer(error))
    }

    /// The message for a reader.
    pub fn to_string(&self) -> (r: String)
        ensures
            r@ == self@.message(),
    {
        match &self.0 {
            ErrorDetail::Custom(msg) => msg.clone(),
            ErrorDetail::Lexer(err) => err.to_string(),
            ErrorDetail::ParseInt { value, error } => {
                let cause = error.to_string();
                let mut out = String::from_str("invalid integer literal `");
                out.append(value.as_str());
                out.append("`: ");
                out.append(cause.as_str());
                out
            },
            ErrorDetail::ParseFloat { value, error } => {
                let cause = error.to_string();
                let mut out = String::from_str("invalid float literal `");
                out.append(value.as_str());
                out.append("`: ");
                out.append(cause.as_str());
                out
            },
            ErrorDetail::InvalidStringLiteral { message } => {
                let mut out = String::from_str("invalid string literal: ");
                out.append(message.as_str());
                out
            },
            ErrorDetail::UnknownVariant { found } => {
                let mut out = String::from_str("unknown variant `");
                out.append(found.as_str());
                out.append("`, expected `Some` or `None`");
                out
            },
        }
    }
}

} // verus!
