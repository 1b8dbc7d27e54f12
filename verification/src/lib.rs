//! A verified parser for the `SELECT` statement of a MySQL-like SQL dialect.
//!
//! The parser works on a sequence of tokens (see [`token`]) and produces a
//! syntax tree whose every node keeps the source spans of the tokens it came
//! from. Each parsing function is proved to compute exactly the result of a
//! functional specification of the grammar.

pub mod expression;
pub mod keywords;
pub mod parser;
pub mod select;
pub mod span;
pub mod token;
