//! Front end of a compiler for a small imperative language: a tokenizer,
//! a syntax-only parser, and a semantic parser that lowers the program to
//! linear three-address code while checking declarations and scopes.

pub mod numeral;
pub mod phases;
