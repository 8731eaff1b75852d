//! Front end of a small expression language: a scanner that turns source
//! text into a token stream, and a recursive-descent parser that turns the
//! token stream into an expression tree, with source-located diagnostics
//! collected along the way.
//!
//! The lexical grammar lives in `lex` and the precedence grammar in
//! `parse_spec`, both as mathematical definitions; `scanner` and `parser`
//! are proved to produce exactly what those definitions prescribe, and
//! `laws` states and proves the grammar's global properties, round-trip
//! idempotence above all.

pub mod error_fmt;
pub mod errors;
pub mod expression;
pub mod laws;
pub mod lex;
pub mod marcher;
pub mod parse_spec;
pub mod parser;
pub mod scanner;
pub mod token;
