//! A lexer for a small C-like language, with its grammar stated as mathematics
//! and the code proved against it.
//!
//! [`lexer::Lexer`] reads one token at a time from a [`source_code::SourceCode`].
//! [`grammar`] says what each request returns, [`laws`] what follows for every
//! source.

pub mod diagnostics;
pub mod grammar;
pub mod laws;
pub mod lexer;
pub mod source_code;
pub mod test_util;
pub mod types;
