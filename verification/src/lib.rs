//! A scanner for the Lox language: it turns source text into tokens.
//!
//! [`scanner::Scanner`] walks a borrowed source once and yields, one at a
//! time, a [`token::Token`] or a [`error::LexError`], and last of all the
//! `EOF` token. What it yields is fixed by the functions of [`grammar`], which
//! describe the lexical grammar over sequences of characters; [`laws`] holds
//! what follows for every scan. [`text`] relates characters to byte offsets.

pub mod error;
pub mod grammar;
pub mod laws;
pub mod scanner;
pub mod text;
pub mod token;
