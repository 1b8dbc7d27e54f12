//! Tokens of the SQL dialect.

use vstd::prelude::*;

use crate::keywords::Keyword;

verus! {

/// A token. The text of identifiers and literals is borrowed from the source.
#[derive(Clone, Copy, Debug, PartialEq, Eq)]
pub enum Token<'a> {
    /// An identifier, with the keyword it spells (`NOT_A_KEYWORD` if none).
    Ident(&'a str, Keyword),
    /// An integer literal.
    Integer(&'a str),
    /// A string literal, without its quotes.
    SingleQuotedString(&'a str),
    Comma,
    Period,
    LParen,
    RParen,
    Mul,
    Div,
    Plus,
    Minus,
    Eq,
    Neq,
    Lt,
    LtEq,
    Gt,
    GtEq,
    /// The end of the input.
    Eof,
}

/// Whether two tokens are the same token without a payload (punctuation,
/// operators or the end of input). Tokens with a payload never match.
pub open spec fn same_punct(a: Token, b: Token) -> bool {
    match (a, b) {
        (Token::Comma, Token::Comma) => true,
        (Token::Period, Token::Period) => true,
        (Token::LParen, Token::LParen) => true,
        (Token::RParen, Token::RParen) => true,
        (Token::Mul, Token::Mul) => true,
        (Token::Div, Token::Div) => true,
        (Token::Plus, Token::Plus) => true,
        (Token::Minus, Token::Minus) => true,
        (Token::Eq, Token::Eq) => true,
        (Token::Neq, Token::Neq) => true,
        (Token::Lt, Token::Lt) => true,
        (Token::LtEq, Token::LtEq) => true,
        (Token::Gt, Token::Gt) => true,
        (Token::GtEq, Token::GtEq) => true,
        (Token::Eof, Token::Eof) => true,
        _ => false,
    }
}

/// Whether `t` is an identifier token spelling keyword `k`.
pub open spec fn is_keyword(t: Token, k: Keyword) -> bool {
    match t {
        Token::Ident(_, kw) => kw == k,
        _ => false,
    }
}

/// Whether `t` is an identifier token spelled `name`.
pub open spec fn ident_named(t: Token, name: &str) -> bool {
    match t {
        Token::Ident(s, _) => s == name,
        _ => false,
    }
}

/// Decides [`same_punct`].
pub fn matches_punct(a: &Token, b: &Token) -> (r: bool)
    ensures
        r == same_punct(*a, *b),
{
    match (a, b) {
        (Token::Comma, Token::Comma) => true,
        (Token::Period, Token::Period) => true,
        (Token::LParen, Token::LParen) => true,
        (Token::RParen, Token::RParen) => true,
        (Token::Mul, Token::Mul) => true,
        (Token::Div, Token::Div) => true,
        (Token::Plus, Token::Plus) => true,
        (Token::Minus, Token::Minus) => true,
        (Token::Eq, Token::Eq) => true,
        (Token::Neq, Token::Neq) => true,
        (Token::Lt, Token::Lt) => true,
        (Token::LtEq, Token::LtEq) => true,
        (Token::Gt, Token::Gt) => true,
        (Token::GtEq, Token::GtEq) => true,
        (Token::Eof, Token::Eof) => true,
        _ => false,
    }
}

/// Decides [`is_keyword`].
pub fn matches_keyword(t: &Token, k: Keyword) -> (r: bool)
    ensures
        r == is_keyword(*t, k),
{
    match t {
        Token::Ident(_, kw) => *kw == k,
        _ => false,
    }
}

} // verus!
