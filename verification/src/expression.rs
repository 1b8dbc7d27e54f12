//! Expressions.
//!
//! The grammar, from the loosest binding to the tightest:
//!
//! ```text
//! expr     := level0
//! level0   := level1 (OR level1)*
//! level1   := level2 (AND level2)*
//! level2   := level3 (('=' | '<>' | '<' | '<=' | '>' | '>=') level3)*
//! level3   := level4 (('+' | '-') level4)*
//! level4   := operand (('*' | '/') operand)*
//! operand  := '-' operand | NOT operand | NULL | TRUE | FALSE
//!           | integer | string | '*' | '(' expr ')'
//!           | ident ('.' ident)* ['.' '*']
//! ```
//!
//! All binary operators are left associative; `ident` is a plain identifier
//! (see [`crate::parser::is_plain_ident`]).

use vstd::prelude::*;

use crate::keywords::Keyword;
use crate::parser::{
    agree_on, lemma_agree_len, local, same_at, error_at, next_pos, span_at, spec_consume_plain_identifier, spec_consume_token, spec_skip_token,
    tok_at, Expected, PRes, ParseError, Parser,
};
use crate::span::Span;
use crate::token::{is_keyword, Token};

verus! {

/// A binary operator.
#[derive(Clone, Copy, Debug, PartialEq, Eq)]
pub enum BinaryOperator {
    Or,
    And,
    Equal,
    NotEqual,
    Less,
    LessEqual,
    Greater,
    GreaterEqual,
    Add,
    Subtract,
    Multiply,
    Divide,
}

/// A prefix operator.
#[derive(Clone, Copy, Debug, PartialEq, Eq)]
pub enum UnaryOperator {
    Not,
    Minus,
}

/// One part of a dotted name: a name, or `*` as the last part.
#[derive(Clone, Copy, Debug, PartialEq, Eq)]
pub enum IdentifierPart<'a> {
    Name((&'a str, Span)),
    Star(Span),
}

/// An expression.
#[allow(inconsistent_fields)]
#[derive(Debug)]
pub enum Expression<'a> {
    Binary { op: BinaryOperator, op_span: Span, lhs: Box<Expression<'a>>, rhs: Box<Expression<'a>> },
    Unary { op: UnaryOperator, op_span: Span, operand: Box<Expression<'a>> },
    Null(Span),
    Bool(bool, Span),
    Integer((&'a str, Span)),
    String((&'a str, Span)),
    /// A dotted name such as `t.c`, `c`, `t.*` or `*`; never empty.
    Identifier(Vec<IdentifierPart<'a>>),
}

/// The mathematical model of an [`Expression`].
#[allow(inconsistent_fields)]
pub enum ExprModel<'a> {
    Binary { op: BinaryOperator, op_span: Span, lhs: Box<ExprModel<'a>>, rhs: Box<ExprModel<'a>> },
    Unary { op: UnaryOperator, op_span: Span, operand: Box<ExprModel<'a>> },
    Null(Span),
    Bool(bool, Span),
    Integer((&'a str, Span)),
    String((&'a str, Span)),
    Identifier(Seq<IdentifierPart<'a>>),
}

/// The model of an expression.
pub open spec fn view_expr<'a>(e: Expression<'a>) -> ExprModel<'a>
    decreases e,
{
    match e {
        Expression::Binary { op, op_span, lhs, rhs } => ExprModel::Binary {
            op,
            op_span,
            lhs: Box::new(view_expr(*lhs)),
            rhs: Box::new(view_expr(*rhs)),
        },
        Expression::Unary { op, op_span, operand } => ExprModel::Unary {
            op,
            op_span,
            operand: Box::new(view_expr(*operand)),
        },
        Expression::Null(s) => ExprModel::Null(s),
        Expression::Bool(b, s) => ExprModel::Bool(b, s),
        Expression::Integer(v) => ExprModel::Integer(v),
        Expression::String(v) => ExprModel::String(v),
        Expression::Identifier(parts) => ExprModel::Identifier(parts@),
    }
}

impl<'a> View for Expression<'a> {
    type V = ExprModel<'a>;

    open spec fn view(&self) -> ExprModel<'a> {
        view_expr(*self)
    }
}

/// Whether a parsing function's outcome `r`, with the cursor left at `pos`,
/// is the outcome `s` of its specification.
pub open spec fn agrees<'a, T: View>(r: Result<T, ParseError<'a>>, pos: int, s: PRes<'a, T::V>) -> bool {
    match s {
        Ok((v, p)) => r is Ok && r->Ok_0@ == v && pos == p,
        Err((e, p)) => r == Err::<T, ParseError<'a>>(e) && pos == p,
    }
}

/// Whether a parsing function's outcome `r`, with the cursor left at `pos`,
/// is the outcome `s` of its specification, `f` giving the model of a value.
pub open spec fn agrees_with<'a, T, M>(
    r: Result<T, ParseError<'a>>,
    pos: int,
    s: PRes<'a, M>,
    f: spec_fn(T) -> M,
) -> bool {
    match s {
        Ok((v, p)) => r is Ok && f(r->Ok_0) == v && pos == p,
        Err((e, p)) => r == Err::<T, ParseError<'a>>(e) && pos == p,
    }
}

/// The level of operands, above all binary operator levels.
pub const OPERAND_LEVEL: u8 = 5;

/// The binary operator that token `t` stands for at precedence `level`, if any.
pub open spec fn binop_at(level: int, t: Token) -> Option<BinaryOperator> {
    if level == 0 {
        if is_keyword(t, Keyword::OR) { Some(BinaryOperator::Or) } else { None }
    } else if level == 1 {
        if is_keyword(t, Keyword::AND) { Some(BinaryOperator::And) } else { None }
    } else if level == 2 {
        match t {
            Token::Eq => Some(BinaryOperator::Equal),
            Token::Neq => Some(BinaryOperator::NotEqual),
            Token::Lt => Some(BinaryOperator::Less),
            Token::LtEq => Some(BinaryOperator::LessEqual),
            Token::Gt => Some(BinaryOperator::Greater),
            Token::GtEq => Some(BinaryOperator::GreaterEqual),
            _ => None,
        }
    } else if level == 3 {
        match t {
            Token::Plus => Some(BinaryOperator::Add),
            Token::Minus => Some(BinaryOperator::Subtract),
            _ => None,
        }
    } else if level == 4 {
        match t {
            Token::Mul => Some(BinaryOperator::Multiply),
            Token::Div => Some(BinaryOperator::Divide),
            _ => None,
        }
    } else {
        None
    }
}

/// Decides [`binop_at`].
pub fn binary_operator(level: u8, t: &Token) -> (r: Option<BinaryOperator>)
    ensures
        r == binop_at(level as int, *t),
{
    if level == 0 {
        match t {
            Token::Ident(_, Keyword::OR) => Some(BinaryOperator::Or),
            _ => None,
        }
    } else if level == 1 {
        match t {
            Token::Ident(_, Keyword::AND) => Some(BinaryOperator::And),
            _ => None,
        }
    } else if level == 2 {
        match t {
            Token::Eq => Some(BinaryOperator::Equal),
            Token::Neq => Some(BinaryOperator::NotEqual),
            Token::Lt => Some(BinaryOperator::Less),
            Token::LtEq => Some(BinaryOperator::LessEqual),
            Token::Gt => Some(BinaryOperator::Greater),
            Token::GtEq => Some(BinaryOperator::GreaterEqual),
            _ => None,
        }
    } else if level == 3 {
        match t {
            Token::Plus => Some(BinaryOperator::Add),
            Token::Minus => Some(BinaryOperator::Subtract),
            _ => None,
        }
    } else if level == 4 {
        match t {
            Token::Mul => Some(BinaryOperator::Multiply),
            Token::Div => Some(BinaryOperator::Divide),
            _ => None,
        }
    } else {
        None
    }
}

/// The termination rank of parsing at `level`.
pub open spec fn level_rank(level: int) -> int {
    if level >= 5 {
        1
    } else {
        2 * (5 - level) + 1
    }
}

/// The rest of a dotted name after its parts `parts`, at `pos`.
pub open spec fn spec_ident_path<'a>(
    toks: Seq<(Token<'a>, Span)>,
    pos: int,
    parts: Seq<IdentifierPart<'a>>,
) -> PRes<'a, ExprModel<'a>>
    decreases toks.len() - pos,
{
    match spec_skip_token(toks, pos, Token::Period) {
        (Some(_), p) => match tok_at(toks, p) {
            Token::Mul => Ok(
                (ExprModel::Identifier(parts.push(IdentifierPart::Star(span_at(toks, p)))), next_pos(toks, p)),
            ),
            _ => match spec_consume_plain_identifier(toks, p) {
                Ok((id, q)) => spec_ident_path(toks, q, parts.push(IdentifierPart::Name(id))),
                Err(x) => Err(x),
            },
        },
        (None, _) => Ok((ExprModel::Identifier(parts), pos)),
    }
}

/// An operand at `pos`.
pub open spec fn spec_operand<'a>(toks: Seq<(Token<'a>, Span)>, pos: int) -> PRes<'a, ExprModel<'a>>
    decreases toks.len() - pos, 0int,
{
    match tok_at(toks, pos) {
        Token::Minus => match spec_operand(toks, pos + 1) {
            Ok((e, p)) => Ok(
                (
                    ExprModel::Unary {
                        op: UnaryOperator::Minus,
                        op_span: span_at(toks, pos),
                        operand: Box::new(e),
                    },
                    p,
                ),
            ),
            Err(x) => Err(x),
        },
        Token::Ident(_, Keyword::NOT) => match spec_operand(toks, pos + 1) {
            Ok((e, p)) => Ok(
                (
                    ExprModel::Unary {
                        op: UnaryOperator::Not,
                        op_span: span_at(toks, pos),
                        operand: Box::new(e),
                    },
                    p,
                ),
            ),
            Err(x) => Err(x),
        },
        Token::Ident(_, Keyword::NULL) => Ok((ExprModel::Null(span_at(toks, pos)), pos + 1)),
        Token::Ident(_, Keyword::TRUE) => Ok((ExprModel::Bool(true, span_at(toks, pos)), pos + 1)),
        Token::Ident(_, Keyword::FALSE) => Ok((ExprModel::Bool(false, span_at(toks, pos)), pos + 1)),
        Token::Integer(v) => Ok((ExprModel::Integer((v, span_at(toks, pos))), pos + 1)),
        Token::SingleQuotedString(v) => Ok((ExprModel::String((v, span_at(toks, pos))), pos + 1)),
        Token::Mul => Ok(
            (ExprModel::Identifier(seq![IdentifierPart::Star(span_at(toks, pos))]), pos + 1),
        ),
        Token::LParen => match spec_level(toks, pos + 1, 0) {
            Ok((e, p)) => match spec_consume_token(toks, p, Token::RParen) {
                Ok((_, q)) => Ok((e, q)),
                Err(x) => Err(x),
            },
            Err(x) => Err(x),
        },
        Token::Ident(name, _) => match spec_consume_plain_identifier(toks, pos) {
            Ok((id, p)) => spec_ident_path(toks, p, seq![IdentifierPart::Name(id)]),
            Err(_) => Err((error_at(toks, pos, Expected::Expression), pos)),
        },
        _ => Err((error_at(toks, pos, Expected::Expression), pos)),
    }
}

/// An expression at `pos` whose binary operators are all at `level` or
/// tighter.
pub open spec fn spec_level<'a>(toks: Seq<(Token<'a>, Span)>, pos: int, level: int) -> PRes<
    'a,
    ExprModel<'a>,
>
    decreases toks.len() - pos, level_rank(level),
{
    if level >= 5 {
        spec_operand(toks, pos)
    } else {
        match spec_level(toks, pos, level + 1) {
            Ok((lhs, p)) => if pos <= p <= toks.len() {
                spec_level_tail(toks, p, level, lhs)
            } else {
                Err((error_at(toks, pos, Expected::Expression), p))
            },
            Err(x) => Err(x),
        }
    }
}

/// The operators of `level` and their right operands that follow `lhs`,
/// at `pos`; the result associates to the left.
pub open spec fn spec_level_tail<'a>(
    toks: Seq<(Token<'a>, Span)>,
    pos: int,
    level: int,
    lhs: ExprModel<'a>,
) -> PRes<'a, ExprModel<'a>>
    decreases toks.len() - pos, 2 * (5 - level),
{
    match binop_at(level, tok_at(toks, pos)) {
        Some(op) => match spec_level(toks, pos + 1, level + 1) {
            Ok((rhs, p)) => if pos < p <= toks.len() {
                spec_level_tail(
                    toks,
                    p,
                    level,
                    ExprModel::Binary {
                        op,
                        op_span: span_at(toks, pos),
                        lhs: Box::new(lhs),
                        rhs: Box::new(rhs),
                    },
                )
            } else {
                Err((error_at(toks, pos, Expected::Expression), p))
            },
            Err(x) => Err(x),
        },
        None => Ok((lhs, pos)),
    }
}

/// An expression at `pos`; only an operand when `inner` holds.
pub open spec fn spec_parse_expression<'a>(toks: Seq<(Token<'a>, Span)>, pos: int, inner: bool) -> PRes<
    'a,
    ExprModel<'a>,
> {
    if inner {
        spec_operand(toks, pos)
    } else {
        spec_level(toks, pos, 0)
    }
}

/// The cursor after a parsing function: same tokens, well formed, not moved
/// backwards.
pub open spec fn advanced<'a>(before: Parser<'a>, after: Parser<'a>) -> bool {
    &&& after.wf()
    &&& after.toks() == before.toks()
    &&& before.pos() <= after.pos()
}

/// Parses an operand.
fn parse_operand<'a>(parser: &mut Parser<'a>) -> (r: Result<Expression<'a>, ParseError<'a>>)
    requires
        old(parser).wf(),
    ensures
        advanced(*old(parser), *final(parser)),
        agrees(r, final(parser).pos(), spec_operand(old(parser).toks(), old(parser).pos())),
    decreases old(parser).toks().len() - old(parser).pos(), 0int,
{
    let ghost toks = parser.toks();
    let ghost pos = parser.pos();
    match parser.token() {
        Token::Minus => {
            let op_span = parser.consume();
            let e = parse_operand(parser)?;
            Ok(Expression::Unary { op: UnaryOperator::Minus, op_span, operand: Box::new(e) })
        },
        Token::Ident(_, Keyword::NOT) => {
            let op_span = parser.consume();
            let e = parse_operand(parser)?;
            Ok(Expression::Unary { op: UnaryOperator::Not, op_span, operand: Box::new(e) })
        },
        Token::Ident(_, Keyword::NULL) => Ok(Expression::Null(parser.consume())),
        Token::Ident(_, Keyword::TRUE) => Ok(Expression::Bool(true, parser.consume())),
        Token::Ident(_, Keyword::FALSE) => Ok(Expression::Bool(false, parser.consume())),
        Token::Integer(v) => Ok(Expression::Integer((v, parser.consume()))),
        Token::SingleQuotedString(v) => Ok(Expression::String((v, parser.consume()))),
        Token::Mul => {
            let s = parser.consume();
            let mut parts = Vec::new();
            parts.push(IdentifierPart::Star(s));
            proof {
                assert(parts@ =~= seq![IdentifierPart::Star(s)]);
            }
            Ok(Expression::Identifier(parts))
        },
        Token::LParen => {
            parser.consume();
            let e = parse_level(parser, 0)?;
            parser.consume_token(Token::RParen)?;
            Ok(e)
        },
        Token::Ident(_, _) => {
            let first = match parser.consume_plain_identifier() {
                Ok(id) => id,
                Err(_) => {
                    return parser.expected_failure(Expected::Expression);
                },
            };
            let mut parts = Vec::new();
            parts.push(IdentifierPart::Name(first));
            proof {
                assert(parts@ =~= seq![IdentifierPart::Name(first)]);
            }
            parse_ident_path(parser, parts)
        },
        _ => parser.expected_failure(Expected::Expression),
    }
}

/// Parses the rest of a dotted name after its first parts `parts`.
fn parse_ident_path<'a>(parser: &mut Parser<'a>, first: Vec<IdentifierPart<'a>>) -> (r: Result<
    Expression<'a>,
    ParseError<'a>,
>)
    requires
        old(parser).wf(),
    ensures
        advanced(*old(parser), *final(parser)),
        agrees(r, final(parser).pos(), spec_ident_path(old(parser).toks(), old(parser).pos(), first@)),
{
    let ghost toks = parser.toks();
    let ghost goal = spec_ident_path(toks, parser.pos(), first@);
    let ghost pos0 = parser.pos();
    let mut parts = first;
    loop
        invariant
            parser.wf(),
            parser.toks() == toks,
            toks == old(parser).toks(),
            pos0 == old(parser).pos(),
            goal == spec_ident_path(old(parser).toks(), old(parser).pos(), first@),
            pos0 <= parser.pos(),
            spec_ident_path(toks, parser.pos(), parts@) == goal,
        decreases toks.len() - parser.pos(),
    {
        match parser.skip_token(Token::Period) {
            Some(_) => {
                if let Token::Mul = parser.token() {
                    let s = parser.consume();
                    parts.push(IdentifierPart::Star(s));
                    return Ok(Expression::Identifier(parts));
                }
                let id = parser.consume_plain_identifier()?;
                parts.push(IdentifierPart::Name(id));
            },
            None => {
                return Ok(Expression::Identifier(parts));
            },
        }
    }
}

/// Parses an expression whose binary operators are all at `level` or
/// tighter.
fn parse_level<'a>(parser: &mut Parser<'a>, level: u8) -> (r: Result<Expression<'a>, ParseError<'a>>)
    requires
        old(parser).wf(),
        level <= OPERAND_LEVEL,
    ensures
        advanced(*old(parser), *final(parser)),
        agrees(r, final(parser).pos(), spec_level(old(parser).toks(), old(parser).pos(), level as int)),
    decreases old(parser).toks().len() - old(parser).pos(), level_rank(level as int),
{
    if level >= OPERAND_LEVEL {
        return parse_operand(parser);
    }
    let ghost toks = parser.toks();
    let ghost pos0 = parser.pos();
    let mut lhs = parse_level(parser, level + 1)?;
    loop
        invariant
            parser.wf(),
            parser.toks() == toks,
            toks == old(parser).toks(),
            pos0 == old(parser).pos(),
            pos0 <= parser.pos(),
            level < OPERAND_LEVEL,
            spec_level(toks, pos0, level as int) == spec_level_tail(
                toks,
                parser.pos(),
                level as int,
                lhs@,
            ),
        decreases toks.len() - parser.pos(),
    {
        let t = parser.token();
        match binary_operator(level, &t) {
            Some(op) => {
                let op_span = parser.consume();
                let rhs = parse_level(parser, level + 1)?;
                lhs = Expression::Binary { op, op_span, lhs: Box::new(lhs), rhs: Box::new(rhs) };
            },
            None => {
                return Ok(lhs);
            },
        }
    }
}

/// Parses an expression; when `inner` holds, only an operand (no binary
/// operator outside parentheses).
pub fn parse_expression<'a>(parser: &mut Parser<'a>, inner: bool) -> (r: Result<
    Expression<'a>,
    ParseError<'a>,
>)
    requires
        old(parser).wf(),
    ensures
        advanced(*old(parser), *final(parser)),
        agrees(r, final(parser).pos(), spec_parse_expression(old(parser).toks(), old(parser).pos(), inner)),
        r is Ok ==> wf_expr(r->Ok_0@) && old(parser).pos() < final(parser).pos(),
{
    proof {
        lemma_parse_expression_wf(parser.toks(), parser.pos(), inner);
    }
    if inner {
        parse_operand(parser)
    } else {
        parse_level(parser, 0)
    }
}

// ---------------------------------------------------------------------------
// Well-formedness of parsed expressions

/// A dotted name is non-empty and only its last part may be `*`.
pub open spec fn wf_name(parts: Seq<IdentifierPart>) -> bool {
    &&& parts.len() > 0
    &&& forall|i: int| 0 <= i < parts.len() - 1 ==> (#[trigger] parts[i]) is Name
}

/// Every dotted name in the expression is well formed.
pub open spec fn wf_expr(e: ExprModel) -> bool
    decreases e,
{
    match e {
        ExprModel::Binary { lhs, rhs, .. } => wf_expr(*lhs) && wf_expr(*rhs),
        ExprModel::Unary { operand, .. } => wf_expr(*operand),
        ExprModel::Identifier(parts) => wf_name(parts),
        _ => true,
    }
}

/// On success, `r` is a well-formed expression that took at least one token
/// after `pos` and stays within the tokens.
pub open spec fn parsed_wf_expr<'a>(toks: Seq<(Token<'a>, Span)>, pos: int, r: PRes<'a, ExprModel<'a>>) -> bool {
    r matches Ok((e, p)) ==> wf_expr(e) && pos < p <= toks.len()
}

proof fn lemma_ident_path_wf<'a>(toks: Seq<(Token<'a>, Span)>, pos: int, parts: Seq<IdentifierPart<'a>>)
    requires
        0 <= pos <= toks.len(),
        parts.len() > 0,
        forall|i: int| 0 <= i < parts.len() ==> (#[trigger] parts[i]) is Name,
    ensures
        spec_ident_path(toks, pos, parts) matches Ok((e, p)) ==> wf_expr(e) && pos <= p <= toks.len(),
    decreases toks.len() - pos,
{
    match spec_skip_token(toks, pos, Token::Period) {
        (Some(_), p) => match tok_at(toks, p) {
            Token::Mul => {
                let s = parts.push(IdentifierPart::Star(span_at(toks, p)));
                assert forall|i: int| 0 <= i < s.len() - 1 implies (#[trigger] s[i]) is Name by {
                    assert(s[i] == parts[i]);
                }
            },
            _ => {
                if let Ok((id, q)) = spec_consume_plain_identifier(toks, p) {
                    let s = parts.push(IdentifierPart::Name(id));
                    assert forall|i: int| 0 <= i < s.len() implies (#[trigger] s[i]) is Name by {
                        if i < parts.len() {
                            assert(s[i] == parts[i]);
                        }
                    }
                    lemma_ident_path_wf(toks, q, s);
                }
            },
        },
        (None, _) => {
            assert forall|i: int| 0 <= i < parts.len() - 1 implies (#[trigger] parts[i]) is Name by {}
        },
    }
}

proof fn lemma_operand_wf<'a>(toks: Seq<(Token<'a>, Span)>, pos: int)
    requires
        0 <= pos <= toks.len(),
    ensures
        parsed_wf_expr(toks, pos, spec_operand(toks, pos)),
    decreases toks.len() - pos, 0int,
{
    match tok_at(toks, pos) {
        Token::Minus => lemma_operand_wf(toks, pos + 1),
        Token::Ident(_, Keyword::NOT) => lemma_operand_wf(toks, pos + 1),
        Token::Mul => {
            let s = seq![IdentifierPart::Star(span_at(toks, pos))];
            assert(wf_name(s));
        },
        Token::LParen => lemma_level_wf(toks, pos + 1, 0),
        Token::Ident(_, _) => {
            if let Ok((id, p)) = spec_consume_plain_identifier(toks, pos) {
                let s = seq![IdentifierPart::Name(id)];
                assert forall|i: int| 0 <= i < s.len() implies (#[trigger] s[i]) is Name by {}
                lemma_ident_path_wf(toks, p, s);
            }
        },
        _ => {},
    }
}

proof fn lemma_level_wf<'a>(toks: Seq<(Token<'a>, Span)>, pos: int, level: int)
    requires
        0 <= pos <= toks.len(),
        0 <= level,
    ensures
        parsed_wf_expr(toks, pos, spec_level(toks, pos, level)),
    decreases toks.len() - pos, level_rank(level),
{
    if level >= 5 {
        lemma_operand_wf(toks, pos);
    } else {
        lemma_level_wf(toks, pos, level + 1);
        if let Ok((lhs, p)) = spec_level(toks, pos, level + 1) {
            if pos <= p <= toks.len() {
                lemma_level_tail_wf(toks, p, level, lhs);
            }
        }
    }
}

proof fn lemma_level_tail_wf<'a>(toks: Seq<(Token<'a>, Span)>, pos: int, level: int, lhs: ExprModel<'a>)
    requires
        0 <= pos <= toks.len(),
        0 <= level < 5,
        wf_expr(lhs),
    ensures
        spec_level_tail(toks, pos, level, lhs) matches Ok((e, p)) ==> wf_expr(e) && pos <= p
            <= toks.len(),
    decreases toks.len() - pos, 2 * (5 - level),
{
    if let Some(op) = binop_at(level, tok_at(toks, pos)) {
        lemma_level_wf(toks, pos + 1, level + 1);
        if let Ok((rhs, p)) = spec_level(toks, pos + 1, level + 1) {
            if pos < p <= toks.len() {
                lemma_level_tail_wf(
                    toks,
                    p,
                    level,
                    ExprModel::Binary {
                        op,
                        op_span: span_at(toks, pos),
                        lhs: Box::new(lhs),
                        rhs: Box::new(rhs),
                    },
                );
            }
        }
    }
}

/// A successfully parsed expression is well formed (every dotted name is
/// non-empty and `*` only ends one), and the parser took at least one token
/// and stayed within the tokens.
pub proof fn lemma_parse_expression_wf<'a>(toks: Seq<(Token<'a>, Span)>, pos: int, inner: bool)
    requires
        0 <= pos <= toks.len(),
    ensures
        parsed_wf_expr(toks, pos, spec_parse_expression(toks, pos, inner)),
{
    if inner {
        lemma_operand_wf(toks, pos);
    } else {
        lemma_level_wf(toks, pos, 0);
    }
}

/// A copy of a vector of copyable values.
pub fn copy_vec<T: Copy>(v: &Vec<T>) -> (r: Vec<T>)
    ensures
        r@ == v@,
{
    let mut r: Vec<T> = Vec::new();
    let mut i: usize = 0;
    while i < v.len()
        invariant
            i <= v.len(),
            r@ == v@.subrange(0, i as int),
        decreases v.len() - i,
    {
        r.push(v[i]);
        i = i + 1;
        proof {
            assert(r@ =~= v@.subrange(0, i as int));
        }
    }
    proof {
        assert(r@ =~= v@);
    }
    r
}

/// A copy of an expression.
pub fn clone_expression<'a>(e: &Expression<'a>) -> (r: Expression<'a>)
    ensures
        r@ == e@,
    decreases e,
{
    match e {
        Expression::Binary { op, op_span, lhs, rhs } => Expression::Binary {
            op: *op,
            op_span: *op_span,
            lhs: Box::new(clone_expression(lhs)),
            rhs: Box::new(clone_expression(rhs)),
        },
        Expression::Unary { op, op_span, operand } => Expression::Unary {
            op: *op,
            op_span: *op_span,
            operand: Box::new(clone_expression(operand)),
        },
        Expression::Null(s) => Expression::Null(*s),
        Expression::Bool(b, s) => Expression::Bool(*b, *s),
        Expression::Integer(v) => Expression::Integer(*v),
        Expression::String(v) => Expression::String(*v),
        Expression::Identifier(parts) => Expression::Identifier(copy_vec(parts)),
    }
}

impl<'a> Clone for Expression<'a> {
    fn clone(&self) -> (r: Self)
        ensures
            r@ == self@,
    {
        clone_expression(self)
    }
}

// ---------------------------------------------------------------------------
// Lookahead

proof fn lemma_ident_path_local<'a>(
    t1: Seq<(Token<'a>, Span)>,
    t2: Seq<(Token<'a>, Span)>,
    pos: int,
    parts: Seq<IdentifierPart<'a>>,
)
    requires
        0 <= pos <= t1.len(),
    ensures
        local(t1, t2, pos, spec_ident_path(t1, pos, parts), spec_ident_path(t2, pos, parts)),
    decreases t1.len() - pos,
{
    if let (Some(_), p) = spec_skip_token(t1, pos, Token::Period) {
        match tok_at(t1, p) {
            Token::Mul => {
                if let Ok((_, e)) = spec_ident_path(t1, pos, parts) {
                    if agree_on(t1, t2, pos, e) && pos <= t2.len() {
                        assert(same_at(t1, t2, pos));
                        assert(same_at(t1, t2, p));
                    }
                }
            },
            _ => {
                if let Ok((id, q)) = spec_consume_plain_identifier(t1, p) {
                    lemma_ident_path_local(t1, t2, q, parts.push(IdentifierPart::Name(id)));
                    if let Ok((_, e)) = spec_ident_path(t1, q, parts.push(IdentifierPart::Name(id))) {
                        if agree_on(t1, t2, pos, e) && pos <= t2.len() {
                            assert(same_at(t1, t2, pos));
                            assert(same_at(t1, t2, p));
                            lemma_agree_len(t1, t2, pos, q);
                        }
                    }
                }
            },
        }
    } else {
        if agree_on(t1, t2, pos, pos) {
            assert(same_at(t1, t2, pos));
        }
    }
}

proof fn lemma_operand_local<'a>(t1: Seq<(Token<'a>, Span)>, t2: Seq<(Token<'a>, Span)>, pos: int)
    requires
        0 <= pos <= t1.len(),
    ensures
        local(t1, t2, pos, spec_operand(t1, pos), spec_operand(t2, pos)),
    decreases t1.len() - pos, 0int,
{
    lemma_operand_wf(t1, pos);
    match tok_at(t1, pos) {
        Token::Minus => lemma_operand_local(t1, t2, pos + 1),
        Token::Ident(_, Keyword::NOT) => lemma_operand_local(t1, t2, pos + 1),
        Token::LParen => {
            lemma_level_local(t1, t2, pos + 1, 0);
            lemma_level_wf(t1, pos + 1, 0);
        },
        Token::Ident(_, _) => {
            if let Ok((id, p)) = spec_consume_plain_identifier(t1, pos) {
                lemma_ident_path_local(t1, t2, p, seq![IdentifierPart::Name(id)]);
            }
        },
        _ => {},
    }
    if let Ok((_, e)) = spec_operand(t1, pos) {
        if agree_on(t1, t2, pos, e) && pos <= t2.len() {
            assert(same_at(t1, t2, pos));
            if tok_at(t1, pos) == Token::<'a>::LParen {
                if let Ok((_, q)) = spec_level(t1, pos + 1, 0) {
                    assert(same_at(t1, t2, q));
                }
            }
        }
    }
}

proof fn lemma_level_local<'a>(t1: Seq<(Token<'a>, Span)>, t2: Seq<(Token<'a>, Span)>, pos: int, level: int)
    requires
        0 <= pos <= t1.len(),
        0 <= level,
    ensures
        local(t1, t2, pos, spec_level(t1, pos, level), spec_level(t2, pos, level)),
    decreases t1.len() - pos, level_rank(level),
{
    if level >= 5 {
        lemma_operand_local(t1, t2, pos);
    } else {
        lemma_level_local(t1, t2, pos, level + 1);
        if let Ok((lhs, p)) = spec_level(t1, pos, level + 1) {
            lemma_level_tail_local(t1, t2, p, level, lhs);
            if let Ok((_, e)) = spec_level_tail(t1, p, level, lhs) {
                if agree_on(t1, t2, pos, e) && pos <= t2.len() {
                    lemma_agree_len(t1, t2, pos, p);
                }
            }
        }
    }
}

proof fn lemma_level_tail_local<'a>(
    t1: Seq<(Token<'a>, Span)>,
    t2: Seq<(Token<'a>, Span)>,
    pos: int,
    level: int,
    lhs: ExprModel<'a>,
)
    requires
        0 <= pos <= t1.len(),
        0 <= level < 5,
    ensures
        local(t1, t2, pos, spec_level_tail(t1, pos, level, lhs), spec_level_tail(t2, pos, level, lhs)),
    decreases t1.len() - pos, 2 * (5 - level),
{
    if let Some(op) = binop_at(level, tok_at(t1, pos)) {
        lemma_level_local(t1, t2, pos + 1, level + 1);
        if let Ok((rhs, p)) = spec_level(t1, pos + 1, level + 1) {
            if pos < p <= t1.len() {
                let b = ExprModel::Binary {
                    op,
                    op_span: span_at(t1, pos),
                    lhs: Box::new(lhs),
                    rhs: Box::new(rhs),
                };
                lemma_level_tail_local(t1, t2, p, level, b);
                if let Ok((_, e)) = spec_level_tail(t1, p, level, b) {
                    if agree_on(t1, t2, pos, e) && pos <= t2.len() {
                        assert(same_at(t1, t2, pos));
                        lemma_agree_len(t1, t2, pos, p);
                    }
                }
            }
        }
    } else {
        if agree_on(t1, t2, pos, pos) {
            assert(same_at(t1, t2, pos));
        }
    }
}

/// An expression parse reads no token beyond the one after what it
/// consumed: any token sequence that looks the same from `pos` to the end
/// position (that next token included) parses the same.
pub proof fn lemma_parse_expression_local<'a>(
    t1: Seq<(Token<'a>, Span)>,
    t2: Seq<(Token<'a>, Span)>,
    pos: int,
    inner: bool,
)
    requires
        0 <= pos <= t1.len(),
    ensures
        local(t1, t2, pos, spec_parse_expression(t1, pos, inner), spec_parse_expression(t2, pos, inner)),
{
    if inner {
        lemma_operand_local(t1, t2, pos);
    } else {
        lemma_level_local(t1, t2, pos, 0);
    }
}

} // verus!
