//! A lexical scanner for JSON text: it turns the characters of a text into
//! the sequence of its tokens, in one pass from left to right, and stops at
//! the first error.
//!
//! The scanner does not judge the structure of what it reads: braces need
//! not balance, and keys need no values.
//!
//! - [`token`]: the tokens, the errors, and their views.
//! - [`classes`]: the classes of characters, and runs of one class.
//! - [`grammar`]: what the tokens of a text are, over sequences of characters.
//! - [`tokenize`]: the scanner itself, proved to return what the grammar says.
//! - [`laws`]: general facts about the tokens of a text.
//! - [`text`]: characters in and out of strings.

pub mod classes;
pub mod grammar;
pub mod laws;
pub mod text;
pub mod token;
pub mod tokenize;
