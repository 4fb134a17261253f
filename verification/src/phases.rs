//! The three front-end phases: tokenizing, syntax checking, and the
//! semantic parse that emits three-address code.

pub mod emission;
pub mod laws;
pub mod lexer;
pub mod marks;
pub mod parser;
pub mod semantic_parser;
