//! Reads the text that `std::fmt::Debug` writes for structs, enums, tuples,
//! collections and primitives, and takes it apart again: a tokenizer, the
//! decoding of string and number literals, and the grammar steps from which a
//! typed value is rebuilt.
//!
//! Every function here carries a contract over a mathematical model of the
//! input, a `Seq<char>` and a cursor into it, and is proved against it.
//!
//! - [`lex`] turns the input into tokens.
//! - [`literal`] and [`number`] decode what string, character and integer
//!   tokens stand for.
//! - [`de`] holds the grammar: one function for each step by which a value
//!   of a known or unknown shape is read.
//! - [`error`] holds the failures of all of these.
//! - [`laws`], [`whitespace`] and [`round_trip`] state and prove what holds
//!   of them whatever the input.

pub mod de;
pub mod error;
pub mod laws;
pub mod lex;
pub mod literal;
pub mod number;
pub mod round_trip;
pub mod text;
pub mod whitespace;

pub use crate::de::Deserializer;
pub use crate::error::Error;
