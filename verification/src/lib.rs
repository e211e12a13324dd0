//! Front end of a small expression language: a lexer and a recursive-descent
//! parser with operator precedences that programs can extend.
//!
//! - `text` and `number` hold the character classes and the form and value of
//!   number literals.
//! - `lexer` turns source text into tokens; `relex` proves when the tokens
//!   survive being written out and lexed again.
//! - `grammar` defines the language as functions on token sequences,
//!   `progress` proves that its productions move forward, `reach` proves
//!   which errors a parse can end in, `climbing` proves what precedence
//!   climbing makes of any chain of operators, and `laws` proves what a
//!   parse does to the precedence table and more.
//! - `parser` computes the grammar.
//!
//! Numbers are floating-point values in the language. This crate keeps every
//! number literal as its text, checks its form, and leaves the conversion to
//! its user; `literals` proves that the literals of a parsed tree are well
//! formed where those of the source are.

pub mod climbing;
pub mod error;
pub mod grammar;
pub mod laws;
pub mod lexer;
pub mod literals;
pub mod number;
pub mod parser;
pub mod progress;
pub mod reach;
pub mod relex;
pub mod text;
