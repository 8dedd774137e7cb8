//! A streaming lexer for a TeX-like markup language.
//!
//! The crate has two layers. [`bufread::BufReadIter`] is a line buffer: it
//! hands out the characters of a byte source one at a time, with one character
//! of lookahead inside the current line, and keeps track of the line and the
//! column it stands at. [`tokenize::Tokens`] sits on top of it and recognises
//! group delimiters, literal characters, commands and verbatim spans.
//!
//! Every executable function is verified against a mathematical model of the
//! line buffer ([`bufread::Cursor`]) and of the grammar (the spec functions of
//! [`tokenize`]). [`lines`] and [`grammar`] relate that model to the text of
//! the input, and the theorems in [`laws`] say what follows for every input.

pub mod errors;
pub mod text;
pub mod bufread;
pub mod lines;
pub mod parser;
pub mod tokenize;
pub mod grammar;
pub mod laws;
