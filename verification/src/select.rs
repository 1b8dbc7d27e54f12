//! The `SELECT` statement: its syntax tree, the mathematical model of that
//! tree, the grammar as a functional specification, and the verified parser.
//!
//! ```text
//! select     := SELECT flag* select_expr (',' select_expr)*
//!               [FROM table_ref (',' table_ref)*
//!                [WHERE expr] [GROUP BY expr (',' expr)*] [HAVING] [WINDOW]
//!                [ORDER BY expr [ASC | DESC] (',' expr [ASC | DESC])*]
//!                [LIMIT operand [(',' | OFFSET) operand]]]
//! select_expr := expr [AS ident]
//! table_ref  := table_primary (join_kind table_primary [ON expr | USING ident (',' ident)*])*
//! table_primary := '(' table_ref ')' | select [AS] ident
//!               | ident ('.' ident)* [[AS] ident]
//! ```

use vstd::prelude::*;

use crate::expression::{
    advanced, agrees, agrees_with, clone_expression, copy_vec, lemma_parse_expression_local,
    lemma_parse_expression_wf, parse_expression,
    spec_parse_expression, view_expr, wf_expr, ExprModel, Expression,
};
use crate::keywords::Keyword;
use crate::parser::{
    agree_on, error_at, is_plain_ident, item_ok, lemma_agree_len, lemma_comma_list_local,
    items_at, lemma_comma_list_items, lemma_comma_list_wf, local, same_at, lemma_prepend_empty, lemma_prepend_push, prepend,
    span_at, spec_comma_list, spec_consume_keyword, spec_consume_plain_identifier,
    spec_consume_token, spec_skip_keyword, spec_skip_token, tok_at, Expected, PRes, ParseError,
    Parser,
};
use crate::span::Span;
use crate::token::{ident_named, is_keyword, same_punct, Token};

verus! {

/// An expression in the select list, with its alias.
#[derive(Debug)]
pub struct SelectExpr<'a> {
    pub expr: Expression<'a>,
    pub as_: Option<(&'a str, Span)>,
}

/// How the rows of a join are matched.
#[derive(Debug)]
pub enum JoinSpecification<'a> {
    On(Expression<'a>, Span),
    Using(Vec<(&'a str, Span)>, Span),
}

/// The kind of a join, with the span of its keywords.
#[derive(Debug, Clone, Copy)]
pub enum JoinType {
    Inner(Span),
    Cross(Span),
    Normal(Span),
    Straight(Span),
    Left(Span),
    Right(Span),
    LeftOuter(Span),
    RightOuter(Span),
    Natural(Span),
    NaturalInner(Span),
    NaturalLeft(Span),
    NaturalRight(Span),
    NaturalLeftOuter(Span),
    NaturalRightOuter(Span),
}

/// A table reference in a `FROM` clause.
#[allow(inconsistent_fields)]
#[derive(Debug)]
pub enum TableReference<'a> {
    Table {
        identifier: Vec<(&'a str, Span)>,
        as_span: Option<Span>,
        as_: Option<(&'a str, Span)>,
    },
    Query {
        select: Box<Select<'a>>,
        as_span: Option<Span>,
        as_: (&'a str, Span),
    },
    Join {
        join: JoinType,
        left: Box<TableReference<'a>>,
        right: Box<TableReference<'a>>,
        specification: Option<JoinSpecification<'a>>,
    },
}

/// A flag between `SELECT` and the select list.
#[derive(Debug, Clone, Copy)]
pub enum SelectFlag {
    All(Span),
    Distinct(Span),
    DistinctRow(Span),
    HighPriority(Span),
    StraightJoin(Span),
    SqlSmallResult(Span),
    SqlBigResult(Span),
    SqlBufferResult(Span),
    SqlNoCache(Span),
    SqlCalcFoundRows(Span),
}

/// The direction of an `ORDER BY` item.
#[derive(Debug, Clone, Copy)]
pub enum OrderFlag {
    Asc(Span),
    Desc(Span),
    Unspecified,
}

/// A `SELECT` statement.
#[derive(Debug)]
pub struct Select<'a> {
    pub select_span: Span,
    pub flags: Vec<SelectFlag>,
    pub select_exprs: Vec<SelectExpr<'a>>,
    pub from_span: Option<Span>,
    pub table_references: Option<Vec<TableReference<'a>>>,
    pub where_: Option<(Expression<'a>, Span)>,
    pub group_by: Option<(Span, Vec<Expression<'a>>)>,
    pub having_span: Option<Span>,
    pub window_span: Option<Span>,
    pub order_by: Option<(Span, Vec<(Expression<'a>, OrderFlag)>)>,
    pub limit: Option<(Span, Option<Expression<'a>>, Expression<'a>)>,
}

// ---------------------------------------------------------------------------
// Models

/// The model of a [`SelectExpr`].
pub struct SelectExprModel<'a> {
    pub expr: ExprModel<'a>,
    pub as_: Option<(&'a str, Span)>,
}

/// The model of a [`JoinSpecification`].
pub enum JoinSpecModel<'a> {
    On(ExprModel<'a>, Span),
    Using(Seq<(&'a str, Span)>, Span),
}

/// The model of a [`TableReference`].
#[allow(inconsistent_fields)]
pub enum TableRefModel<'a> {
    Table { identifier: Seq<(&'a str, Span)>, as_span: Option<Span>, as_: Option<(&'a str, Span)> },
    Query { select: Box<SelectModel<'a>>, as_span: Option<Span>, as_: (&'a str, Span) },
    Join {
        join: JoinType,
        left: Box<TableRefModel<'a>>,
        right: Box<TableRefModel<'a>>,
        specification: Option<JoinSpecModel<'a>>,
    },
}

/// The model of a [`Select`].
pub struct SelectModel<'a> {
    pub select_span: Span,
    pub flags: Seq<SelectFlag>,
    pub select_exprs: Seq<SelectExprModel<'a>>,
    pub from_span: Option<Span>,
    pub table_references: Option<Seq<TableRefModel<'a>>>,
    pub where_: Option<(ExprModel<'a>, Span)>,
    pub group_by: Option<(Span, Seq<ExprModel<'a>>)>,
    pub having_span: Option<Span>,
    pub window_span: Option<Span>,
    pub order_by: Option<(Span, Seq<(ExprModel<'a>, OrderFlag)>)>,
    pub limit: Option<(Span, Option<ExprModel<'a>>, ExprModel<'a>)>,
}

impl<'a> View for SelectExpr<'a> {
    type V = SelectExprModel<'a>;

    open spec fn view(&self) -> SelectExprModel<'a> {
        SelectExprModel { expr: view_expr(self.expr), as_: self.as_ }
    }
}

impl<'a> View for JoinSpecification<'a> {
    type V = JoinSpecModel<'a>;

    open spec fn view(&self) -> JoinSpecModel<'a> {
        match self {
            JoinSpecification::On(e, s) => JoinSpecModel::On(view_expr(*e), *s),
            JoinSpecification::Using(v, s) => JoinSpecModel::Using(v@, *s),
        }
    }
}

/// The models of a sequence of expressions.
pub open spec fn view_exprs<'a>(v: Seq<Expression<'a>>) -> Seq<ExprModel<'a>> {
    Seq::new(v.len(), |i: int| view_expr(v[i]))
}

/// The models of a sequence of select expressions.
pub open spec fn view_select_exprs<'a>(v: Seq<SelectExpr<'a>>) -> Seq<SelectExprModel<'a>> {
    Seq::new(v.len(), |i: int| v[i]@)
}

/// The models of a sequence of `ORDER BY` items.
pub open spec fn view_order_items<'a>(v: Seq<(Expression<'a>, OrderFlag)>) -> Seq<
    (ExprModel<'a>, OrderFlag),
> {
    Seq::new(v.len(), |i: int| (view_expr(v[i].0), v[i].1))
}

/// The model of a `WHERE` clause.
pub open spec fn view_where<'a>(w: Option<(Expression<'a>, Span)>) -> Option<(ExprModel<'a>, Span)> {
    match w {
        Some((e, s)) => Some((view_expr(e), s)),
        None => None,
    }
}

/// The model of a `GROUP BY` clause.
pub open spec fn view_group_by<'a>(g: Option<(Span, Vec<Expression<'a>>)>) -> Option<
    (Span, Seq<ExprModel<'a>>),
> {
    match g {
        Some((s, v)) => Some((s, view_exprs(v@))),
        None => None,
    }
}

/// The model of an `ORDER BY` clause.
pub open spec fn view_order_by<'a>(o: Option<(Span, Vec<(Expression<'a>, OrderFlag)>)>) -> Option<
    (Span, Seq<(ExprModel<'a>, OrderFlag)>),
> {
    match o {
        Some((s, v)) => Some((s, view_order_items(v@))),
        None => None,
    }
}

/// The model of a `LIMIT` clause.
pub open spec fn view_limit<'a>(l: Option<(Span, Option<Expression<'a>>, Expression<'a>)>) -> Option<
    (Span, Option<ExprModel<'a>>, ExprModel<'a>),
> {
    match l {
        Some((s, o, n)) => Some(
            (
                s,
                match o {
                    Some(e) => Some(view_expr(e)),
                    None => None,
                },
                view_expr(n),
            ),
        ),
        None => None,
    }
}

/// The model of a table reference.
pub open spec fn view_table_ref<'a>(t: TableReference<'a>) -> TableRefModel<'a>
    decreases t,
{
    match t {
        TableReference::Table { identifier, as_span, as_ } => TableRefModel::Table {
            identifier: identifier@,
            as_span,
            as_,
        },
        TableReference::Query { select, as_span, as_ } => TableRefModel::Query {
            select: Box::new(view_select(*select)),
            as_span,
            as_,
        },
        TableReference::Join { join, left, right, specification } => TableRefModel::Join {
            join,
            left: Box::new(view_table_ref(*left)),
            right: Box::new(view_table_ref(*right)),
            specification: match specification {
                Some(j) => Some(j@),
                None => None,
            },
        },
    }
}

/// The model of a `SELECT` statement.
pub open spec fn view_select<'a>(s: Select<'a>) -> SelectModel<'a>
    decreases s,
{
    SelectModel {
        select_span: s.select_span,
        flags: s.flags@,
        select_exprs: view_select_exprs(s.select_exprs@),
        from_span: s.from_span,
        table_references: match s.table_references {
            Some(v) => Some(
                Seq::new(
                    v@.len(),
                    |i: int|
                        if 0 <= i < v@.len() {
                            view_table_ref(v@[i])
                        } else {
                            TableRefModel::Table { identifier: Seq::empty(), as_span: None, as_: None }
                        },
                ),
            ),
            None => None,
        },
        where_: view_where(s.where_),
        group_by: view_group_by(s.group_by),
        having_span: s.having_span,
        window_span: s.window_span,
        order_by: view_order_by(s.order_by),
        limit: view_limit(s.limit),
    }
}

/// The models of a sequence of table references.
pub open spec fn view_refs<'a>(v: Seq<TableReference<'a>>) -> Seq<TableRefModel<'a>> {
    Seq::new(v.len(), |i: int| view_table_ref(v[i]))
}

impl<'a> View for TableReference<'a> {
    type V = TableRefModel<'a>;

    open spec fn view(&self) -> TableRefModel<'a> {
        view_table_ref(*self)
    }
}

impl<'a> View for Select<'a> {
    type V = SelectModel<'a>;

    open spec fn view(&self) -> SelectModel<'a> {
        view_select(*self)
    }
}

// ---------------------------------------------------------------------------
// The grammar

/// A select expression at `pos`.
pub open spec fn spec_select_expr<'a>(toks: Seq<(Token<'a>, Span)>, pos: int) -> PRes<'a, SelectExprModel<'a>> {
    match spec_parse_expression(toks, pos, false) {
        Ok((expr, p)) => match spec_skip_keyword(toks, p, Keyword::AS) {
            (Some(_), q) => match spec_consume_plain_identifier(toks, q) {
                Ok((id, r)) => Ok((SelectExprModel { expr, as_: Some(id) }, r)),
                Err(x) => Err(x),
            },
            (None, _) => Ok((SelectExprModel { expr, as_: None }, p)),
        },
        Err(x) => Err(x),
    }
}

/// The select list at `pos`.
pub open spec fn spec_select_expr_list<'a>(toks: Seq<(Token<'a>, Span)>, pos: int) -> PRes<
    'a,
    Seq<SelectExprModel<'a>>,
> {
    spec_comma_list(toks, pos, select_expr_item(toks))
}

/// [`spec_select_expr`] as a list item.
pub open spec fn select_expr_item<'a>(toks: Seq<(Token<'a>, Span)>) -> spec_fn(int) -> PRes<'a, SelectExprModel<'a>> {
    |p: int| spec_select_expr(toks, p)
}

/// A list of expressions at `pos`.
pub open spec fn spec_expr_list<'a>(toks: Seq<(Token<'a>, Span)>, pos: int) -> PRes<'a, Seq<ExprModel<'a>>> {
    spec_comma_list(toks, pos, expr_item(toks))
}

/// [`spec_parse_expression`] as a list item.
pub open spec fn expr_item<'a>(toks: Seq<(Token<'a>, Span)>) -> spec_fn(int) -> PRes<'a, ExprModel<'a>> {
    |p: int| spec_parse_expression(toks, p, false)
}

/// An `ORDER BY` item at `pos`.
pub open spec fn spec_order_item<'a>(toks: Seq<(Token<'a>, Span)>, pos: int) -> PRes<
    'a,
    (ExprModel<'a>, OrderFlag),
> {
    match spec_parse_expression(toks, pos, false) {
        Ok((e, p)) => match tok_at(toks, p) {
            Token::Ident(_, Keyword::ASC) => Ok(((e, OrderFlag::Asc(span_at(toks, p))), p + 1)),
            Token::Ident(_, Keyword::DESC) => Ok(((e, OrderFlag::Desc(span_at(toks, p))), p + 1)),
            _ => Ok(((e, OrderFlag::Unspecified), p)),
        },
        Err(x) => Err(x),
    }
}

/// The `ORDER BY` items at `pos`.
pub open spec fn spec_order_list<'a>(toks: Seq<(Token<'a>, Span)>, pos: int) -> PRes<
    'a,
    Seq<(ExprModel<'a>, OrderFlag)>,
> {
    spec_comma_list(toks, pos, order_item(toks))
}

/// [`spec_order_item`] as a list item.
pub open spec fn order_item<'a>(toks: Seq<(Token<'a>, Span)>) -> spec_fn(int) -> PRes<'a, (ExprModel<'a>, OrderFlag)> {
    |p: int| spec_order_item(toks, p)
}

/// The columns of a `USING` clause at `pos`.
pub open spec fn spec_using_list<'a>(toks: Seq<(Token<'a>, Span)>, pos: int) -> PRes<
    'a,
    Seq<(&'a str, Span)>,
> {
    spec_comma_list(toks, pos, ident_item(toks))
}

/// [`spec_consume_plain_identifier`] as a list item.
pub open spec fn ident_item<'a>(toks: Seq<(Token<'a>, Span)>) -> spec_fn(int) -> PRes<'a, (&'a str, Span)> {
    |p: int| spec_consume_plain_identifier(toks, p)
}

/// The select flag that token `t` with span `s` stands for, if any.
pub open spec fn select_flag_at(t: Token, s: Span) -> Option<SelectFlag> {
    match t {
        Token::Ident(_, Keyword::ALL) => Some(SelectFlag::All(s)),
        Token::Ident(_, Keyword::DISTINCT) => Some(SelectFlag::Distinct(s)),
        Token::Ident(_, Keyword::DISTINCTROW) => Some(SelectFlag::DistinctRow(s)),
        Token::Ident(_, Keyword::HIGH_PRIORITY) => Some(SelectFlag::HighPriority(s)),
        Token::Ident(_, Keyword::STRAIGHT_JOIN) => Some(SelectFlag::StraightJoin(s)),
        Token::Ident(_, Keyword::SQL_SMALL_RESULT) => Some(SelectFlag::SqlSmallResult(s)),
        Token::Ident(_, Keyword::SQL_BIG_RESULT) => Some(SelectFlag::SqlBigResult(s)),
        Token::Ident(_, Keyword::SQL_BUFFER_RESULT) => Some(SelectFlag::SqlBufferResult(s)),
        Token::Ident(_, Keyword::SQL_NO_CACHE) => Some(SelectFlag::SqlNoCache(s)),
        Token::Ident(_, Keyword::SQL_CALC_FOUND_ROWS) => Some(SelectFlag::SqlCalcFoundRows(s)),
        _ => None,
    }
}

/// The select flags at `pos`, and the position after them.
pub open spec fn spec_flags<'a>(toks: Seq<(Token<'a>, Span)>, pos: int) -> (Seq<SelectFlag>, int)
    decreases toks.len() - pos,
{
    match select_flag_at(tok_at(toks, pos), span_at(toks, pos)) {
        Some(f) => {
            let (rest, p) = spec_flags(toks, pos + 1);
            (seq![f] + rest, p)
        },
        None => (seq![], pos),
    }
}

/// After the first keyword of a join, with span `first`, at `pos`: an
/// optional `OUTER` then `JOIN`. Gives whether `OUTER` was there and the
/// joined span.
pub open spec fn spec_maybe_outer_join<'a>(toks: Seq<(Token<'a>, Span)>, pos: int, first: Span) -> PRes<
    'a,
    (bool, Span),
> {
    match spec_skip_keyword(toks, pos, Keyword::OUTER) {
        (Some(outer), p) => match spec_consume_keyword(toks, p, Keyword::JOIN) {
            Ok((j, q)) => Ok(((true, first.joined(outer).joined(j)), q)),
            Err(x) => Err(x),
        },
        (None, _) => match spec_consume_keyword(toks, pos, Keyword::JOIN) {
            Ok((j, q)) => Ok(((false, first.joined(j)), q)),
            Err(x) => Err(x),
        },
    }
}

/// The join keywords at `pos`: `None` when there are none, else the join
/// type they spell.
pub open spec fn spec_join_type<'a>(toks: Seq<(Token<'a>, Span)>, pos: int) -> Option<PRes<'a, JoinType>> {
    let s = span_at(toks, pos);
    let p1 = pos + 1;
    match tok_at(toks, pos) {
        Token::Ident(_, Keyword::INNER) => Some(
            match spec_consume_keyword(toks, p1, Keyword::JOIN) {
                Ok((j, q)) => Ok((JoinType::Inner(s.joined(j)), q)),
                Err(x) => Err(x),
            },
        ),
        Token::Ident(_, Keyword::CROSS) => Some(
            match spec_consume_keyword(toks, p1, Keyword::JOIN) {
                Ok((j, q)) => Ok((JoinType::Cross(s.joined(j)), q)),
                Err(x) => Err(x),
            },
        ),
        Token::Ident(_, Keyword::JOIN) => Some(Ok((JoinType::Straight(s), p1))),
        Token::Ident(_, Keyword::STRAIGHT_JOIN) => Some(Ok((JoinType::Straight(s), p1))),
        Token::Ident(_, Keyword::LEFT) => Some(
            match spec_maybe_outer_join(toks, p1, s) {
                Ok(((true, j), q)) => Ok((JoinType::LeftOuter(j), q)),
                Ok(((false, j), q)) => Ok((JoinType::Left(j), q)),
                Err(x) => Err(x),
            },
        ),
        Token::Ident(_, Keyword::RIGHT) => Some(
            match spec_maybe_outer_join(toks, p1, s) {
                Ok(((true, j), q)) => Ok((JoinType::RightOuter(j), q)),
                Ok(((false, j), q)) => Ok((JoinType::Right(j), q)),
                Err(x) => Err(x),
            },
        ),
        Token::Ident(_, Keyword::NATURAL) => Some(
            match tok_at(toks, p1) {
                Token::Ident(_, Keyword::INNER) => match spec_consume_keyword(
                    toks,
                    p1 + 1,
                    Keyword::JOIN,
                ) {
                    Ok((j, q)) => Ok((JoinType::NaturalInner(s.joined(span_at(toks, p1).joined(j))), q)),
                    Err(x) => Err(x),
                },
                Token::Ident(_, Keyword::LEFT) => match spec_maybe_outer_join(
                    toks,
                    p1 + 1,
                    span_at(toks, p1),
                ) {
                    Ok(((true, j), q)) => Ok((JoinType::NaturalLeftOuter(j), q)),
                    Ok(((false, j), q)) => Ok((JoinType::NaturalLeft(j), q)),
                    Err(x) => Err(x),
                },
                Token::Ident(_, Keyword::RIGHT) => match spec_maybe_outer_join(
                    toks,
                    p1 + 1,
                    span_at(toks, p1),
                ) {
                    Ok(((true, j), q)) => Ok((JoinType::NaturalRightOuter(j), q)),
                    Ok(((false, j), q)) => Ok((JoinType::NaturalRight(j), q)),
                    Err(x) => Err(x),
                },
                Token::Ident(_, Keyword::JOIN) => Ok((JoinType::Natural(s.joined(span_at(toks, p1))), p1 + 1)),
                _ => Err((error_at(toks, p1, Expected::JoinKind), p1)),
            },
        ),
        _ => None,
    }
}

/// The `ON` or `USING` clause of a join at `pos`, if any.
pub open spec fn spec_join_specification<'a>(toks: Seq<(Token<'a>, Span)>, pos: int) -> PRes<
    'a,
    Option<JoinSpecModel<'a>>,
> {
    match tok_at(toks, pos) {
        Token::Ident(_, Keyword::ON) => match spec_parse_expression(toks, pos + 1, false) {
            Ok((e, p)) => Ok((Some(JoinSpecModel::On(e, span_at(toks, pos))), p)),
            Err(x) => Err(x),
        },
        Token::Ident(_, Keyword::USING) => match spec_using_list(toks, pos + 1) {
            Ok((cols, p)) => Ok((Some(JoinSpecModel::Using(cols, span_at(toks, pos))), p)),
            Err(x) => Err(x),
        },
        _ => Ok((None, pos)),
    }
}

/// The `.`-separated rest of a table name at `pos`.
pub open spec fn spec_dotted<'a>(toks: Seq<(Token<'a>, Span)>, pos: int) -> PRes<'a, Seq<(&'a str, Span)>>
    decreases toks.len() - pos,
{
    match spec_skip_token(toks, pos, Token::Period) {
        (Some(_), p) => match spec_consume_plain_identifier(toks, p) {
            Ok((id, q)) => prepend(seq![id], spec_dotted(toks, q)),
            Err(x) => Err(x),
        },
        (None, _) => Ok((seq![], pos)),
    }
}

/// The alias after a table name at `pos`: `AS ident`, a plain identifier, or
/// nothing.
pub open spec fn spec_table_alias<'a>(toks: Seq<(Token<'a>, Span)>, pos: int) -> PRes<
    'a,
    (Option<Span>, Option<(&'a str, Span)>),
> {
    match spec_skip_keyword(toks, pos, Keyword::AS) {
        (Some(s), p) => match spec_consume_plain_identifier(toks, p) {
            Ok((id, q)) => Ok(((Some(s), Some(id)), q)),
            Err(x) => Err(x),
        },
        (None, _) => if is_plain_ident(tok_at(toks, pos)) {
            match spec_consume_plain_identifier(toks, pos) {
                Ok((id, q)) => Ok(((None, Some(id)), q)),
                Err(x) => Err(x),
            }
        } else {
            Ok(((None, None), pos))
        },
    }
}

/// A table name with its alias at `pos`.
pub open spec fn spec_table_name<'a>(toks: Seq<(Token<'a>, Span)>, pos: int) -> PRes<'a, TableRefModel<'a>> {
    match spec_consume_plain_identifier(toks, pos) {
        Ok((first, p)) => match spec_dotted(toks, p) {
            Ok((rest, q)) => match spec_table_alias(toks, q) {
                Ok(((as_span, as_), r)) => Ok(
                    (TableRefModel::Table { identifier: seq![first] + rest, as_span, as_ }, r),
                ),
                Err(x) => Err(x),
            },
            Err(x) => Err(x),
        },
        Err(x) => Err(x),
    }
}

/// A table reference without joins at `pos`.
pub open spec fn spec_table_ref_inner<'a>(toks: Seq<(Token<'a>, Span)>, pos: int) -> PRes<
    'a,
    TableRefModel<'a>,
>
    decreases toks.len() - pos, 1int,
{
    match spec_skip_token(toks, pos, Token::LParen) {
        (Some(_), p) => match spec_table_ref(toks, p) {
            Ok((a, q)) => match spec_consume_token(toks, q, Token::RParen) {
                Ok((_, r)) => Ok((a, r)),
                Err(x) => Err(x),
            },
            Err(x) => Err(x),
        },
        (None, _) => match tok_at(toks, pos) {
            Token::Ident(_, Keyword::SELECT) => match spec_select(toks, pos) {
                Ok((select, p)) => {
                    let (as_span, q) = spec_skip_keyword(toks, p, Keyword::AS);
                    match spec_consume_plain_identifier(toks, q) {
                        Ok((as_, r)) => Ok(
                            (TableRefModel::Query { select: Box::new(select), as_span, as_ }, r),
                        ),
                        Err(x) => Err(x),
                    }
                },
                Err(x) => Err(x),
            },
            Token::Ident(_, _) => spec_table_name(toks, pos),
            _ => Err((error_at(toks, pos, Expected::SubqueryOrIdentifier), pos)),
        },
    }
}

/// A table reference with its joins at `pos`.
pub open spec fn spec_table_ref<'a>(toks: Seq<(Token<'a>, Span)>, pos: int) -> PRes<'a, TableRefModel<'a>>
    decreases toks.len() - pos, 2int,
{
    match spec_table_ref_inner(toks, pos) {
        Ok((a, p)) => if pos <= p <= toks.len() {
            spec_join_tail(toks, p, a)
        } else {
            Err((error_at(toks, p, Expected::SubqueryOrIdentifier), p))
        },
        Err(x) => Err(x),
    }
}

/// The joins that follow the table reference `lhs`, at `pos`; joins
/// associate to the left.
pub open spec fn spec_join_tail<'a>(toks: Seq<(Token<'a>, Span)>, pos: int, lhs: TableRefModel<'a>) -> PRes<
    'a,
    TableRefModel<'a>,
>
    decreases toks.len() - pos, 1int,
{
    match spec_join_type(toks, pos) {
        None => Ok((lhs, pos)),
        Some(Err(x)) => Err(x),
        Some(Ok((join, p))) => if pos < p <= toks.len() {
            match spec_table_ref_inner(toks, p) {
                Ok((right, q)) => if p <= q <= toks.len() {
                    match spec_join_specification(toks, q) {
                        Ok((specification, r)) => if q <= r <= toks.len() {
                            spec_join_tail(
                                toks,
                                r,
                                TableRefModel::Join {
                                    join,
                                    left: Box::new(lhs),
                                    right: Box::new(right),
                                    specification,
                                },
                            )
                        } else {
                            Err((error_at(toks, r, Expected::SubqueryOrIdentifier), r))
                        },
                        Err(x) => Err(x),
                    }
                } else {
                    Err((error_at(toks, q, Expected::SubqueryOrIdentifier), q))
                },
                Err(x) => Err(x),
            }
        } else {
            Err((error_at(toks, p, Expected::SubqueryOrIdentifier), p))
        },
    }
}

/// The table references of a `FROM` clause at `pos`.
pub open spec fn spec_table_ref_list<'a>(toks: Seq<(Token<'a>, Span)>, pos: int) -> PRes<
    'a,
    Seq<TableRefModel<'a>>,
>
    decreases toks.len() - pos, 3int,
{
    match spec_table_ref(toks, pos) {
        Ok((t, p)) => match spec_skip_token(toks, p, Token::Comma) {
            (Some(_), q) => if pos < q <= toks.len() {
                prepend(seq![t], spec_table_ref_list(toks, q))
            } else {
                Err((error_at(toks, p, Expected::Token(Token::Comma)), q))
            },
            (None, _) => Ok((seq![t], p)),
        },
        Err(x) => Err(x),
    }
}

/// An optional `WHERE` clause at `pos`.
pub open spec fn spec_where<'a>(toks: Seq<(Token<'a>, Span)>, pos: int) -> PRes<'a, Option<(ExprModel<'a>, Span)>> {
    match spec_skip_keyword(toks, pos, Keyword::WHERE) {
        (Some(s), p) => match spec_parse_expression(toks, p, false) {
            Ok((e, q)) => Ok((Some((e, s)), q)),
            Err(x) => Err(x),
        },
        (None, _) => Ok((None, pos)),
    }
}

/// An optional `GROUP BY` clause at `pos`.
pub open spec fn spec_group_by<'a>(toks: Seq<(Token<'a>, Span)>, pos: int) -> PRes<
    'a,
    Option<(Span, Seq<ExprModel<'a>>)>,
> {
    match spec_skip_keyword(toks, pos, Keyword::GROUP) {
        (Some(g), p) => match spec_consume_keyword(toks, p, Keyword::BY) {
            Ok((b, q)) => match spec_expr_list(toks, q) {
                Ok((groups, r)) => Ok((Some((b.joined(g), groups)), r)),
                Err(x) => Err(x),
            },
            Err(x) => Err(x),
        },
        (None, _) => Ok((None, pos)),
    }
}

/// An optional `ORDER BY` clause at `pos`.
pub open spec fn spec_order_by<'a>(toks: Seq<(Token<'a>, Span)>, pos: int) -> PRes<
    'a,
    Option<(Span, Seq<(ExprModel<'a>, OrderFlag)>)>,
> {
    match spec_skip_keyword(toks, pos, Keyword::ORDER) {
        (Some(o), p) => match spec_consume_keyword(toks, p, Keyword::BY) {
            Ok((b, q)) => match spec_order_list(toks, q) {
                Ok((items, r)) => Ok((Some((b.joined(o), items)), r)),
                Err(x) => Err(x),
            },
            Err(x) => Err(x),
        },
        (None, _) => Ok((None, pos)),
    }
}

/// An optional `LIMIT` clause at `pos`: its span, the offset if given, and
/// the row count. `LIMIT a, b` has offset `a` and count `b`;
/// `LIMIT a OFFSET b` has offset `b` and count `a`.
pub open spec fn spec_limit<'a>(toks: Seq<(Token<'a>, Span)>, pos: int) -> PRes<
    'a,
    Option<(Span, Option<ExprModel<'a>>, ExprModel<'a>)>,
> {
    match spec_skip_keyword(toks, pos, Keyword::LIMIT) {
        (Some(s), p) => match spec_parse_expression(toks, p, true) {
            Ok((n, q)) => match tok_at(toks, q) {
                Token::Comma => match spec_parse_expression(toks, q + 1, true) {
                    Ok((m, r)) => Ok((Some((s, Some(n), m)), r)),
                    Err(x) => Err(x),
                },
                Token::Ident(_, Keyword::OFFSET) => match spec_parse_expression(toks, q + 1, true) {
                    Ok((m, r)) => Ok((Some((s, Some(m), n)), r)),
                    Err(x) => Err(x),
                },
                _ => Ok((Some((s, None, n)), q)),
            },
            Err(x) => Err(x),
        },
        (None, _) => Ok((None, pos)),
    }
}

/// The clauses after the table references of a `SELECT`, at `pos`.
pub open spec fn spec_select_clauses<'a>(
    toks: Seq<(Token<'a>, Span)>,
    pos: int,
    head: SelectModel<'a>,
) -> PRes<'a, SelectModel<'a>> {
    match spec_where(toks, pos) {
        Ok((where_, p1)) => match spec_group_by(toks, p1) {
            Ok((group_by, p2)) => {
                let (having_span, p3) = spec_skip_keyword(toks, p2, Keyword::HAVING);
                let (window_span, p4) = spec_skip_keyword(toks, p3, Keyword::WINDOW);
                match spec_order_by(toks, p4) {
                    Ok((order_by, p5)) => match spec_limit(toks, p5) {
                        Ok((limit, p6)) => Ok(
                            (
                                SelectModel {
                                    where_,
                                    group_by,
                                    having_span,
                                    window_span,
                                    order_by,
                                    limit,
                                    ..head
                                },
                                p6,
                            ),
                        ),
                        Err(x) => Err(x),
                    },
                    Err(x) => Err(x),
                }
            },
            Err(x) => Err(x),
        },
        Err(x) => Err(x),
    }
}

/// A `SELECT` statement at `pos`.
pub open spec fn spec_select<'a>(toks: Seq<(Token<'a>, Span)>, pos: int) -> PRes<'a, SelectModel<'a>>
    decreases toks.len() - pos, 0int,
{
    match spec_consume_keyword(toks, pos, Keyword::SELECT) {
        Ok((select_span, p1)) => {
            let (flags, p2) = spec_flags(toks, p1);
            match spec_select_expr_list(toks, p2) {
                Ok((select_exprs, p3)) => {
                    let head = SelectModel {
                        select_span,
                        flags,
                        select_exprs,
                        from_span: None,
                        table_references: None,
                        where_: None,
                        group_by: None,
                        having_span: None,
                        window_span: None,
                        order_by: None,
                        limit: None,
                    };
                    match spec_skip_keyword(toks, p3, Keyword::FROM) {
                        (None, _) => Ok((head, p3)),
                        (Some(from_span), p4) => if pos < p4 <= toks.len() {
                            match spec_table_ref_list(toks, p4) {
                                Ok((refs, p5)) => spec_select_clauses(
                                    toks,
                                    p5,
                                    SelectModel {
                                        from_span: Some(from_span),
                                        table_references: Some(refs),
                                        ..head
                                    },
                                ),
                                Err(x) => Err(x),
                            }
                        } else {
                            Err((error_at(toks, p4, Expected::Keyword(Keyword::FROM)), p4))
                        },
                    }
                },
                Err(x) => Err(x),
            }
        },
        Err(x) => Err(x),
    }
}

// ---------------------------------------------------------------------------
// The parser

/// Parses a select expression: an expression with an optional `AS alias`.
pub fn parse_select_expr<'a>(parser: &mut Parser<'a>) -> (r: Result<SelectExpr<'a>, ParseError<'a>>)
    requires
        old(parser).wf(),
    ensures
        advanced(*old(parser), *final(parser)),
        agrees(r, final(parser).pos(), spec_select_expr(old(parser).toks(), old(parser).pos())),
        r is Ok ==> wf_expr(r->Ok_0@.expr) && old(parser).pos() < final(parser).pos(),
{
    proof {
        lemma_parse_expression_wf(parser.toks(), parser.pos(), false);
    }
    let expr = parse_expression(parser, false)?;
    let as_ = if parser.skip_keyword(Keyword::AS).is_some() {
        Some(parser.consume_plain_identifier()?)
    } else {
        None
    };
    Ok(SelectExpr { expr, as_ })
}

/// Parses the select list.
fn parse_select_expr_list<'a>(parser: &mut Parser<'a>) -> (r: Result<Vec<SelectExpr<'a>>, ParseError<'a>>)
    requires
        old(parser).wf(),
    ensures
        advanced(*old(parser), *final(parser)),
        agrees_with(
            r,
            final(parser).pos(),
            spec_select_expr_list(old(parser).toks(), old(parser).pos()),
            |v: Vec<SelectExpr<'a>>| view_select_exprs(v@),
        ),
{
    let ghost toks = parser.toks();
    let ghost pos0 = parser.pos();
    let mut items: Vec<SelectExpr<'a>> = Vec::new();
    proof {
        assert(view_select_exprs(items@) =~= Seq::empty());
        lemma_prepend_empty(spec_select_expr_list(toks, pos0));
    }
    loop
        invariant
            parser.wf(),
            parser.toks() == toks,
            toks == old(parser).toks(),
            pos0 == old(parser).pos(),
            pos0 <= parser.pos(),
            spec_select_expr_list(toks, pos0) == prepend(
                view_select_exprs(items@),
                spec_select_expr_list(toks, parser.pos()),
            ),
        decreases toks.len() - parser.pos(),
    {
        let ghost before = items@;
        let item = parse_select_expr(parser)?;
        items.push(item);
        proof {
            assert(view_select_exprs(items@) =~= view_select_exprs(before).push(item@));
        }
        if parser.skip_token(Token::Comma).is_none() {
            proof {
                assert(view_select_exprs(before) + seq![item@] =~= view_select_exprs(before).push(item@));
            }
            return Ok(items);
        }
        proof {
            lemma_prepend_push(
                view_select_exprs(before),
                item@,
                spec_select_expr_list(toks, parser.pos()),
            );
        }
    }
}

/// Parses a comma separated list of expressions.
fn parse_expr_list<'a>(parser: &mut Parser<'a>) -> (r: Result<Vec<Expression<'a>>, ParseError<'a>>)
    requires
        old(parser).wf(),
    ensures
        advanced(*old(parser), *final(parser)),
        agrees_with(
            r,
            final(parser).pos(),
            spec_expr_list(old(parser).toks(), old(parser).pos()),
            |v: Vec<Expression<'a>>| view_exprs(v@),
        ),
{
    let ghost toks = parser.toks();
    let ghost pos0 = parser.pos();
    let mut items: Vec<Expression<'a>> = Vec::new();
    proof {
        assert(view_exprs(items@) =~= Seq::empty());
        lemma_prepend_empty(spec_expr_list(toks, pos0));
    }
    loop
        invariant
            parser.wf(),
            parser.toks() == toks,
            toks == old(parser).toks(),
            pos0 == old(parser).pos(),
            pos0 <= parser.pos(),
            spec_expr_list(toks, pos0) == prepend(view_exprs(items@), spec_expr_list(toks, parser.pos())),
        decreases toks.len() - parser.pos(),
    {
        let ghost before = items@;
        let item = parse_expression(parser, false)?;
        let ghost m = item@;
        items.push(item);
        proof {
            assert(view_exprs(items@) =~= view_exprs(before).push(m));
        }
        if parser.skip_token(Token::Comma).is_none() {
            proof {
                assert(view_exprs(before) + seq![m] =~= view_exprs(before).push(m));
            }
            return Ok(items);
        }
        proof {
            lemma_prepend_push(view_exprs(before), m, spec_expr_list(toks, parser.pos()));
        }
    }
}

/// Parses the items of an `ORDER BY` clause.
fn parse_order_list<'a>(parser: &mut Parser<'a>) -> (r: Result<Vec<(Expression<'a>, OrderFlag)>, ParseError<'a>>)
    requires
        old(parser).wf(),
    ensures
        advanced(*old(parser), *final(parser)),
        agrees_with(
            r,
            final(parser).pos(),
            spec_order_list(old(parser).toks(), old(parser).pos()),
            |v: Vec<(Expression<'a>, OrderFlag)>| view_order_items(v@),
        ),
{
    let ghost toks = parser.toks();
    let ghost pos0 = parser.pos();
    let mut items: Vec<(Expression<'a>, OrderFlag)> = Vec::new();
    proof {
        assert(view_order_items(items@) =~= Seq::empty());
        lemma_prepend_empty(spec_order_list(toks, pos0));
    }
    loop
        invariant
            parser.wf(),
            parser.toks() == toks,
            toks == old(parser).toks(),
            pos0 == old(parser).pos(),
            pos0 <= parser.pos(),
            spec_order_list(toks, pos0) == prepend(view_order_items(items@), spec_order_list(toks, parser.pos())),
        decreases toks.len() - parser.pos(),
    {
        let ghost before = items@;
        let e = parse_expression(parser, false)?;
        let f = match parser.token() {
            Token::Ident(_, Keyword::ASC) => OrderFlag::Asc(parser.consume()),
            Token::Ident(_, Keyword::DESC) => OrderFlag::Desc(parser.consume()),
            _ => OrderFlag::Unspecified,
        };
        let ghost m = (e@, f);
        items.push((e, f));
        proof {
            assert(view_order_items(items@) =~= view_order_items(before).push(m));
        }
        if parser.skip_token(Token::Comma).is_none() {
            proof {
                assert(view_order_items(before) + seq![m] =~= view_order_items(before).push(m));
            }
            return Ok(items);
        }
        proof {
            lemma_prepend_push(view_order_items(before), m, spec_order_list(toks, parser.pos()));
        }
    }
}

/// Parses the columns of a `USING` clause.
fn parse_using_list<'a>(parser: &mut Parser<'a>) -> (r: Result<Vec<(&'a str, Span)>, ParseError<'a>>)
    requires
        old(parser).wf(),
    ensures
        advanced(*old(parser), *final(parser)),
        agrees_with(
            r,
            final(parser).pos(),
            spec_using_list(old(parser).toks(), old(parser).pos()),
            |v: Vec<(&'a str, Span)>| v@,
        ),
{
    let ghost toks = parser.toks();
    let ghost pos0 = parser.pos();
    let mut items: Vec<(&'a str, Span)> = Vec::new();
    proof {
        assert(items@ =~= Seq::empty());
        lemma_prepend_empty(spec_using_list(toks, pos0));
    }
    loop
        invariant
            parser.wf(),
            parser.toks() == toks,
            toks == old(parser).toks(),
            pos0 == old(parser).pos(),
            pos0 <= parser.pos(),
            spec_using_list(toks, pos0) == prepend(items@, spec_using_list(toks, parser.pos())),
        decreases toks.len() - parser.pos(),
    {
        let ghost before = items@;
        let id = parser.consume_plain_identifier()?;
        items.push(id);
        if parser.skip_token(Token::Comma).is_none() {
            proof {
                assert(before + seq![id] =~= before.push(id));
            }
            return Ok(items);
        }
        proof {
            lemma_prepend_push(before, id, spec_using_list(toks, parser.pos()));
        }
    }
}

/// Decides [`select_flag_at`].
fn select_flag(t: &Token, s: Span) -> (r: Option<SelectFlag>)
    ensures
        r == select_flag_at(*t, s),
{
    match t {
        Token::Ident(_, Keyword::ALL) => Some(SelectFlag::All(s)),
        Token::Ident(_, Keyword::DISTINCT) => Some(SelectFlag::Distinct(s)),
        Token::Ident(_, Keyword::DISTINCTROW) => Some(SelectFlag::DistinctRow(s)),
        Token::Ident(_, Keyword::HIGH_PRIORITY) => Some(SelectFlag::HighPriority(s)),
        Token::Ident(_, Keyword::STRAIGHT_JOIN) => Some(SelectFlag::StraightJoin(s)),
        Token::Ident(_, Keyword::SQL_SMALL_RESULT) => Some(SelectFlag::SqlSmallResult(s)),
        Token::Ident(_, Keyword::SQL_BIG_RESULT) => Some(SelectFlag::SqlBigResult(s)),
        Token::Ident(_, Keyword::SQL_BUFFER_RESULT) => Some(SelectFlag::SqlBufferResult(s)),
        Token::Ident(_, Keyword::SQL_NO_CACHE) => Some(SelectFlag::SqlNoCache(s)),
        Token::Ident(_, Keyword::SQL_CALC_FOUND_ROWS) => Some(SelectFlag::SqlCalcFoundRows(s)),
        _ => None,
    }
}

/// Parses the select flags.
fn parse_select_flags<'a>(parser: &mut Parser<'a>) -> (r: Vec<SelectFlag>)
    requires
        old(parser).wf(),
    ensures
        advanced(*old(parser), *final(parser)),
        (r@, final(parser).pos()) == spec_flags(old(parser).toks(), old(parser).pos()),
{
    let ghost toks = parser.toks();
    let ghost pos0 = parser.pos();
    let mut flags: Vec<SelectFlag> = Vec::new();
    proof {
        assert(flags@ + spec_flags(toks, pos0).0 =~= spec_flags(toks, pos0).0);
    }
    loop
        invariant
            parser.wf(),
            parser.toks() == toks,
            toks == old(parser).toks(),
            pos0 == old(parser).pos(),
            pos0 <= parser.pos(),
            spec_flags(toks, pos0) == (
                flags@ + spec_flags(toks, parser.pos()).0,
                spec_flags(toks, parser.pos()).1,
            ),
        decreases toks.len() - parser.pos(),
    {
        let t = parser.token();
        let s = parser.span();
        match select_flag(&t, s) {
            Some(f) => {
                let ghost before = flags@;
                let ghost cur = parser.pos();
                parser.consume();
                flags.push(f);
                proof {
                    assert(before + (seq![f] + spec_flags(toks, cur + 1).0) =~= flags@ + spec_flags(
                        toks,
                        cur + 1,
                    ).0);
                }
            },
            None => {
                proof {
                    assert(flags@ + Seq::<SelectFlag>::empty() =~= flags@);
                }
                return flags;
            },
        }
    }
}

/// Parses `[OUTER] JOIN` after the first keyword of a join, with span `first`.
fn parse_maybe_outer_join<'a>(parser: &mut Parser<'a>, first: Span) -> (r: Result<(bool, Span), ParseError<'a>>)
    requires
        old(parser).wf(),
    ensures
        advanced(*old(parser), *final(parser)),
        agrees_with(
            r,
            final(parser).pos(),
            spec_maybe_outer_join(old(parser).toks(), old(parser).pos(), first),
            |x: (bool, Span)| x,
        ),
{
    if let Some(outer) = parser.skip_keyword(Keyword::OUTER) {
        let j = parser.consume_keyword(Keyword::JOIN)?;
        Ok((true, first.join_span(&outer).join_span(&j)))
    } else {
        let j = parser.consume_keyword(Keyword::JOIN)?;
        Ok((false, first.join_span(&j)))
    }
}

/// Parses the keywords of a join, if the current token starts one.
fn parse_join_type<'a>(parser: &mut Parser<'a>) -> (r: Option<Result<JoinType, ParseError<'a>>>)
    requires
        old(parser).wf(),
    ensures
        advanced(*old(parser), *final(parser)),
        match spec_join_type(old(parser).toks(), old(parser).pos()) {
            None => r is None && final(parser).pos() == old(parser).pos(),
            Some(s) => r is Some && agrees_with(r->Some_0, final(parser).pos(), s, |j: JoinType| j),
        },
{
    match parser.token() {
        Token::Ident(_, Keyword::INNER) => {
            let i = parser.consume();
            Some(
                match parser.consume_keyword(Keyword::JOIN) {
                    Ok(j) => Ok(JoinType::Inner(i.join_span(&j))),
                    Err(e) => Err(e),
                },
            )
        },
        Token::Ident(_, Keyword::CROSS) => {
            let c = parser.consume();
            Some(
                match parser.consume_keyword(Keyword::JOIN) {
                    Ok(j) => Ok(JoinType::Cross(c.join_span(&j))),
                    Err(e) => Err(e),
                },
            )
        },
        Token::Ident(_, Keyword::JOIN) => Some(Ok(JoinType::Straight(parser.consume()))),
        Token::Ident(_, Keyword::STRAIGHT_JOIN) => Some(Ok(JoinType::Straight(parser.consume()))),
        Token::Ident(_, Keyword::LEFT) => {
            let l = parser.consume();
            Some(
                match parse_maybe_outer_join(parser, l) {
                    Ok((true, j)) => Ok(JoinType::LeftOuter(j)),
                    Ok((false, j)) => Ok(JoinType::Left(j)),
                    Err(e) => Err(e),
                },
            )
        },
        Token::Ident(_, Keyword::RIGHT) => {
            let r = parser.consume();
            Some(
                match parse_maybe_outer_join(parser, r) {
                    Ok((true, j)) => Ok(JoinType::RightOuter(j)),
                    Ok((false, j)) => Ok(JoinType::Right(j)),
                    Err(e) => Err(e),
                },
            )
        },
        Token::Ident(_, Keyword::NATURAL) => {
            let natural = parser.consume();
            Some(
                match parser.token() {
                    Token::Ident(_, Keyword::INNER) => {
                        let i = parser.consume();
                        match parser.consume_keyword(Keyword::JOIN) {
                            Ok(j) => Ok(JoinType::NaturalInner(natural.join_span(&i.join_span(&j)))),
                            Err(e) => Err(e),
                        }
                    },
                    Token::Ident(_, Keyword::LEFT) => {
                        let l = parser.consume();
                        match parse_maybe_outer_join(parser, l) {
                            Ok((true, j)) => Ok(JoinType::NaturalLeftOuter(j)),
                            Ok((false, j)) => Ok(JoinType::NaturalLeft(j)),
                            Err(e) => Err(e),
                        }
                    },
                    Token::Ident(_, Keyword::RIGHT) => {
                        let r = parser.consume();
                        match parse_maybe_outer_join(parser, r) {
                            Ok((true, j)) => Ok(JoinType::NaturalRightOuter(j)),
                            Ok((false, j)) => Ok(JoinType::NaturalRight(j)),
                            Err(e) => Err(e),
                        }
                    },
                    Token::Ident(_, Keyword::JOIN) => {
                        let j = parser.consume();
                        Ok(JoinType::Natural(natural.join_span(&j)))
                    },
                    _ => parser.expected_failure(Expected::JoinKind),
                },
            )
        },
        _ => None,
    }
}

/// The model of an optional join specification.
pub open spec fn view_join_spec_opt<'a>(j: Option<JoinSpecification<'a>>) -> Option<JoinSpecModel<'a>> {
    match j {
        Some(j) => Some(j@),
        None => None,
    }
}

/// Parses the `ON` or `USING` clause of a join, if there is one.
fn parse_join_specification<'a>(parser: &mut Parser<'a>) -> (r: Result<
    Option<JoinSpecification<'a>>,
    ParseError<'a>,
>)
    requires
        old(parser).wf(),
    ensures
        advanced(*old(parser), *final(parser)),
        agrees_with(
            r,
            final(parser).pos(),
            spec_join_specification(old(parser).toks(), old(parser).pos()),
            |j: Option<JoinSpecification<'a>>| view_join_spec_opt(j),
        ),
{
    match parser.token() {
        Token::Ident(_, Keyword::ON) => {
            let on = parser.consume();
            let expr = parse_expression(parser, false)?;
            Ok(Some(JoinSpecification::On(expr, on)))
        },
        Token::Ident(_, Keyword::USING) => {
            let using = parser.consume();
            let cols = parse_using_list(parser)?;
            Ok(Some(JoinSpecification::Using(cols, using)))
        },
        _ => Ok(None),
    }
}

/// Parses an optional `WHERE` clause.
fn parse_where<'a>(parser: &mut Parser<'a>) -> (r: Result<Option<(Expression<'a>, Span)>, ParseError<'a>>)
    requires
        old(parser).wf(),
    ensures
        advanced(*old(parser), *final(parser)),
        agrees_with(
            r,
            final(parser).pos(),
            spec_where(old(parser).toks(), old(parser).pos()),
            |w: Option<(Expression<'a>, Span)>| view_where(w),
        ),
{
    if let Some(span) = parser.skip_keyword(Keyword::WHERE) {
        let e = parse_expression(parser, false)?;
        Ok(Some((e, span)))
    } else {
        Ok(None)
    }
}

/// Parses an optional `GROUP BY` clause.
fn parse_group_by<'a>(parser: &mut Parser<'a>) -> (r: Result<Option<(Span, Vec<Expression<'a>>)>, ParseError<'a>>)
    requires
        old(parser).wf(),
    ensures
        advanced(*old(parser), *final(parser)),
        agrees_with(
            r,
            final(parser).pos(),
            spec_group_by(old(parser).toks(), old(parser).pos()),
            |g: Option<(Span, Vec<Expression<'a>>)>| view_group_by(g),
        ),
{
    if let Some(group_span) = parser.skip_keyword(Keyword::GROUP) {
        let span = parser.consume_keyword(Keyword::BY)?.join_span(&group_span);
        let groups = parse_expr_list(parser)?;
        Ok(Some((span, groups)))
    } else {
        Ok(None)
    }
}

/// Parses an optional `ORDER BY` clause.
fn parse_order_by<'a>(parser: &mut Parser<'a>) -> (r: Result<
    Option<(Span, Vec<(Expression<'a>, OrderFlag)>)>,
    ParseError<'a>,
>)
    requires
        old(parser).wf(),
    ensures
        advanced(*old(parser), *final(parser)),
        agrees_with(
            r,
            final(parser).pos(),
            spec_order_by(old(parser).toks(), old(parser).pos()),
            |o: Option<(Span, Vec<(Expression<'a>, OrderFlag)>)>| view_order_by(o),
        ),
{
    if let Some(order_span) = parser.skip_keyword(Keyword::ORDER) {
        let span = parser.consume_keyword(Keyword::BY)?.join_span(&order_span);
        let order = parse_order_list(parser)?;
        Ok(Some((span, order)))
    } else {
        Ok(None)
    }
}

/// Parses an optional `LIMIT` clause.
fn parse_limit<'a>(parser: &mut Parser<'a>) -> (r: Result<
    Option<(Span, Option<Expression<'a>>, Expression<'a>)>,
    ParseError<'a>,
>)
    requires
        old(parser).wf(),
    ensures
        advanced(*old(parser), *final(parser)),
        agrees_with(
            r,
            final(parser).pos(),
            spec_limit(old(parser).toks(), old(parser).pos()),
            |l: Option<(Span, Option<Expression<'a>>, Expression<'a>)>| view_limit(l),
        ),
{
    if let Some(span) = parser.skip_keyword(Keyword::LIMIT) {
        let n = parse_expression(parser, true)?;
        match parser.token() {
            Token::Comma => {
                parser.consume();
                let m = parse_expression(parser, true)?;
                Ok(Some((span, Some(n), m)))
            },
            Token::Ident(_, Keyword::OFFSET) => {
                parser.consume();
                let m = parse_expression(parser, true)?;
                Ok(Some((span, Some(m), n)))
            },
            _ => Ok(Some((span, None, n))),
        }
    } else {
        Ok(None)
    }
}

/// Parses the alias after a table name.
fn parse_table_alias<'a>(parser: &mut Parser<'a>) -> (r: Result<
    (Option<Span>, Option<(&'a str, Span)>),
    ParseError<'a>,
>)
    requires
        old(parser).wf(),
    ensures
        advanced(*old(parser), *final(parser)),
        agrees_with(
            r,
            final(parser).pos(),
            spec_table_alias(old(parser).toks(), old(parser).pos()),
            |x: (Option<Span>, Option<(&'a str, Span)>)| x,
        ),
{
    let as_span = parser.skip_keyword(Keyword::AS);
    let as_ = if as_span.is_some() {
        Some(parser.consume_plain_identifier()?)
    } else {
        match parser.token() {
            Token::Ident(_, k) => {
                if !k.reserved() {
                    Some(parser.consume_plain_identifier()?)
                } else {
                    None
                }
            },
            _ => None,
        }
    };
    Ok((as_span, as_))
}

/// Parses a table name (`ident ('.' ident)*`) with its alias.
fn parse_table_name<'a>(parser: &mut Parser<'a>) -> (r: Result<TableReference<'a>, ParseError<'a>>)
    requires
        old(parser).wf(),
    ensures
        advanced(*old(parser), *final(parser)),
        agrees(r, final(parser).pos(), spec_table_name(old(parser).toks(), old(parser).pos())),
{
    let ghost toks = parser.toks();
    let ghost pos0 = parser.pos();
    let first = parser.consume_plain_identifier()?;
    let ghost p1 = parser.pos();
    let mut identifier: Vec<(&'a str, Span)> = Vec::new();
    identifier.push(first);
    proof {
        assert(identifier@ =~= seq![first]);
    }
    loop
        invariant
            parser.wf(),
            parser.toks() == toks,
            toks == old(parser).toks(),
            pos0 == old(parser).pos(),
            pos0 < p1 <= parser.pos(),
            spec_consume_plain_identifier(toks, pos0) == Ok::<((&'a str, Span), int), (ParseError<'a>, int)>((first, p1)),
            prepend(seq![first], spec_dotted(toks, p1)) == prepend(identifier@, spec_dotted(toks, parser.pos())),
        decreases toks.len() - parser.pos(),
    {
        let ghost before = identifier@;
        if parser.skip_token(Token::Period).is_none() {
            proof {
                assert(identifier@ + Seq::<(&'a str, Span)>::empty() =~= identifier@);
            }
            let (as_span, as_) = parse_table_alias(parser)?;
            return Ok(TableReference::Table { identifier, as_span, as_ });
        }
        let id = parser.consume_plain_identifier()?;
        identifier.push(id);
        proof {
            lemma_prepend_push(before, id, spec_dotted(toks, parser.pos()));
        }
    }
}

/// Parses a table reference without joins: a parenthesised table
/// reference, a subquery with its alias, or a table name with its alias.
pub fn parse_table_reference_inner<'a>(parser: &mut Parser<'a>) -> (r: Result<TableReference<'a>, ParseError<'a>>)
    requires
        old(parser).wf(),
    ensures
        advanced(*old(parser), *final(parser)),
        agrees(r, final(parser).pos(), spec_table_ref_inner(old(parser).toks(), old(parser).pos())),
        r is Ok ==> wf_table_ref(r->Ok_0@) && old(parser).pos() < final(parser).pos(),
    decreases old(parser).toks().len() - old(parser).pos(), 1int,
{
    proof {
        lemma_table_ref_inner_wf(parser.toks(), parser.pos());
    }
    if parser.skip_token(Token::LParen).is_some() {
        let a = parse_table_reference(parser)?;
        parser.consume_token(Token::RParen)?;
        return Ok(a);
    }
    match parser.token() {
        Token::Ident(_, Keyword::SELECT) => {
            let select = parse_select(parser)?;
            let as_span = parser.skip_keyword(Keyword::AS);
            let as_ = parser.consume_plain_identifier()?;
            Ok(TableReference::Query { select: Box::new(select), as_span, as_ })
        },
        Token::Ident(_, _) => parse_table_name(parser),
        _ => parser.expected_failure(Expected::SubqueryOrIdentifier),
    }
}

/// Parses a table reference followed by any number of joins; the joins
/// associate to the left.
pub fn parse_table_reference<'a>(parser: &mut Parser<'a>) -> (r: Result<TableReference<'a>, ParseError<'a>>)
    requires
        old(parser).wf(),
    ensures
        advanced(*old(parser), *final(parser)),
        agrees(r, final(parser).pos(), spec_table_ref(old(parser).toks(), old(parser).pos())),
        r is Ok ==> wf_table_ref(r->Ok_0@) && old(parser).pos() < final(parser).pos(),
    decreases old(parser).toks().len() - old(parser).pos(), 2int,
{
    proof {
        lemma_table_ref_wf(parser.toks(), parser.pos());
    }
    let ghost toks = parser.toks();
    let ghost pos0 = parser.pos();
    let mut ans = parse_table_reference_inner(parser)?;
    loop
        invariant
            parser.wf(),
            parser.toks() == toks,
            toks == old(parser).toks(),
            pos0 == old(parser).pos(),
            pos0 <= parser.pos(),
            spec_table_ref(toks, pos0) == spec_join_tail(toks, parser.pos(), ans@),
            spec_table_ref(toks, pos0) matches Ok((t, p)) ==> wf_table_ref(t) && pos0 < p,
        decreases toks.len() - parser.pos(),
    {
        let join = match parse_join_type(parser) {
            None => {
                return Ok(ans);
            },
            Some(Ok(j)) => j,
            Some(Err(e)) => {
                return Err(e);
            },
        };
        let right = parse_table_reference_inner(parser)?;
        let specification = parse_join_specification(parser)?;
        ans = TableReference::Join { join, left: Box::new(ans), right: Box::new(right), specification };
    }
}

/// Parses the table references of a `FROM` clause.
fn parse_table_reference_list<'a>(parser: &mut Parser<'a>) -> (r: Result<
    Vec<TableReference<'a>>,
    ParseError<'a>,
>)
    requires
        old(parser).wf(),
    ensures
        advanced(*old(parser), *final(parser)),
        agrees_with(
            r,
            final(parser).pos(),
            spec_table_ref_list(old(parser).toks(), old(parser).pos()),
            |v: Vec<TableReference<'a>>| view_refs(v@),
        ),
    decreases old(parser).toks().len() - old(parser).pos(), 3int,
{
    let ghost toks = parser.toks();
    let ghost pos0 = parser.pos();
    let mut items: Vec<TableReference<'a>> = Vec::new();
    proof {
        assert(view_refs(items@) =~= Seq::empty());
        lemma_prepend_empty(spec_table_ref_list(toks, pos0));
    }
    loop
        invariant
            parser.wf(),
            parser.toks() == toks,
            toks == old(parser).toks(),
            pos0 == old(parser).pos(),
            pos0 <= parser.pos(),
            spec_table_ref_list(toks, pos0) == prepend(view_refs(items@), spec_table_ref_list(toks, parser.pos())),
        decreases toks.len() - parser.pos(),
    {
        let ghost before = items@;
        let item = parse_table_reference(parser)?;
        let ghost m = item@;
        items.push(item);
        proof {
            assert(view_refs(items@) =~= view_refs(before).push(m));
        }
        if parser.skip_token(Token::Comma).is_none() {
            proof {
                assert(view_refs(before) + seq![m] =~= view_refs(before).push(m));
            }
            return Ok(items);
        }
        proof {
            lemma_prepend_push(view_refs(before), m, spec_table_ref_list(toks, parser.pos()));
        }
    }
}

/// Parses a `SELECT` statement.
pub fn parse_select<'a>(parser: &mut Parser<'a>) -> (r: Result<Select<'a>, ParseError<'a>>)
    requires
        old(parser).wf(),
    ensures
        advanced(*old(parser), *final(parser)),
        agrees(r, final(parser).pos(), spec_select(old(parser).toks(), old(parser).pos())),
        r is Ok ==> wf_select(r->Ok_0@) && old(parser).pos() < final(parser).pos(),
    decreases old(parser).toks().len() - old(parser).pos(), 0int,
{
    proof {
        lemma_select_wf(parser.toks(), parser.pos());
    }
    let select_span = parser.consume_keyword(Keyword::SELECT)?;
    let flags = parse_select_flags(parser);
    let select_exprs = parse_select_expr_list(parser)?;
    let from_span = match parser.skip_keyword(Keyword::FROM) {
        Some(v) => v,
        None => {
            return Ok(
                Select {
                    select_span,
                    flags,
                    select_exprs,
                    from_span: None,
                    table_references: None,
                    where_: None,
                    group_by: None,
                    having_span: None,
                    window_span: None,
                    order_by: None,
                    limit: None,
                },
            );
        },
    };
    let table_references = parse_table_reference_list(parser)?;
    let ghost refs = view_refs(table_references@);
    let where_ = parse_where(parser)?;
    let group_by = parse_group_by(parser)?;
    let having_span = parser.skip_keyword(Keyword::HAVING);
    let window_span = parser.skip_keyword(Keyword::WINDOW);
    let order_by = parse_order_by(parser)?;
    let limit = parse_limit(parser)?;
    let r = Select {
        select_span,
        flags,
        select_exprs,
        from_span: Some(from_span),
        table_references: Some(table_references),
        where_,
        group_by,
        having_span,
        window_span,
        order_by,
        limit,
    };
    proof {
        assert(view_select(r).table_references->0 =~= refs);
    }
    Ok(r)
}

// ---------------------------------------------------------------------------
// Well-formedness of parsed statements

/// A join specification is well formed: `ON` has a well-formed expression
/// and `USING` names at least one column.
pub open spec fn wf_join_spec(j: Option<JoinSpecModel>) -> bool {
    match j {
        Some(JoinSpecModel::On(e, _)) => wf_expr(e),
        Some(JoinSpecModel::Using(cols, _)) => cols.len() > 0,
        None => true,
    }
}

/// A `SELECT` has none of the clauses that follow the table references.
pub open spec fn no_clauses(s: SelectModel) -> bool {
    &&& s.where_ is None
    &&& s.group_by is None
    &&& s.having_span is None
    &&& s.window_span is None
    &&& s.order_by is None
    &&& s.limit is None
}

/// The clauses after the table references are well formed: their
/// expressions are, and the `GROUP BY` and `ORDER BY` lists are not empty.
pub open spec fn wf_clauses(s: SelectModel) -> bool {
    &&& (s.where_ matches Some((e, _)) ==> wf_expr(e))
    &&& (s.group_by matches Some((_, g)) ==> g.len() > 0 && forall|i: int|
        0 <= i < g.len() ==> wf_expr(#[trigger] g[i]))
    &&& (s.order_by matches Some((_, o)) ==> o.len() > 0 && forall|i: int|
        0 <= i < o.len() ==> wf_expr((#[trigger] o[i]).0))
    &&& (s.limit matches Some((_, off, n)) ==> wf_expr(n) && (off matches Some(m) ==> wf_expr(m)))
}

/// A table reference is well formed: a table name is not empty and has an
/// alias whenever it has `AS`, subqueries are well formed, and so are both
/// sides and the specification of a join.
pub open spec fn wf_table_ref(t: TableRefModel) -> bool
    decreases t,
{
    match t {
        TableRefModel::Table { identifier, as_span, as_ } => identifier.len() > 0 && (as_span is Some
            ==> as_ is Some),
        TableRefModel::Query { select, .. } => wf_select(*select),
        TableRefModel::Join { left, right, specification, .. } => wf_table_ref(*left) && wf_table_ref(
            *right,
        ) && wf_join_spec(specification),
    }
}

/// A `SELECT` is well formed: its select list is not empty and its
/// expressions are well formed; it has table references exactly when it has
/// `FROM`, and then at least one, each well formed; without `FROM` it has no
/// other clause; and its clauses are well formed.
pub open spec fn wf_select(s: SelectModel) -> bool
    decreases s,
{
    &&& s.select_exprs.len() > 0
    &&& forall|i: int| 0 <= i < s.select_exprs.len() ==> wf_expr((#[trigger] s.select_exprs[i]).expr)
    &&& (s.from_span is None <==> s.table_references is None)
    &&& (s.from_span is None ==> no_clauses(s))
    &&& wf_clauses(s)
    &&& match s.table_references {
        Some(refs) => refs.len() > 0 && forall|i: int|
            0 <= i < refs.len() ==> wf_table_ref(#[trigger] refs[i]),
        None => true,
    }
}

/// The predicate of a well-formed select expression.
pub open spec fn select_expr_pred<'a>() -> spec_fn(SelectExprModel<'a>) -> bool {
    |e: SelectExprModel<'a>| wf_expr(e.expr)
}

/// The predicate of a well-formed expression.
pub open spec fn expr_pred<'a>() -> spec_fn(ExprModel<'a>) -> bool {
    |e: ExprModel<'a>| wf_expr(e)
}

/// The predicate of a well-formed `ORDER BY` item.
pub open spec fn order_pred<'a>() -> spec_fn((ExprModel<'a>, OrderFlag)) -> bool {
    |o: (ExprModel<'a>, OrderFlag)| wf_expr(o.0)
}

/// The predicate that holds of every column name.
pub open spec fn ident_pred<'a>() -> spec_fn((&'a str, Span)) -> bool {
    |c: (&'a str, Span)| true
}

proof fn lemma_select_expr_list_wf<'a>(toks: Seq<(Token<'a>, Span)>, pos: int)
    requires
        0 <= pos <= toks.len(),
    ensures
        spec_select_expr_list(toks, pos) matches Ok((vs, p)) ==> {
            &&& vs.len() > 0
            &&& forall|i: int| 0 <= i < vs.len() ==> wf_expr((#[trigger] vs[i]).expr)
            &&& pos < p <= toks.len()
        },
{
    assert forall|q: int| 0 <= q <= toks.len() implies #[trigger] item_ok(
        toks,
        q,
        select_expr_item(toks)(q),
        select_expr_pred(),
    ) by {
        lemma_parse_expression_wf(toks, q, false);
        if let Ok((expr, p)) = spec_parse_expression(toks, q, false) {
            if let (Some(_), r) = spec_skip_keyword(toks, p, Keyword::AS) {
            }
        }
    }
    lemma_comma_list_wf(toks, pos, select_expr_item(toks), select_expr_pred());
    if let Ok((vs, p)) = spec_select_expr_list(toks, pos) {
        assert forall|i: int| 0 <= i < vs.len() implies wf_expr((#[trigger] vs[i]).expr) by {
            assert(select_expr_pred()(vs[i]));
        }
    }
}

proof fn lemma_expr_list_wf<'a>(toks: Seq<(Token<'a>, Span)>, pos: int)
    requires
        0 <= pos <= toks.len(),
    ensures
        spec_expr_list(toks, pos) matches Ok((vs, p)) ==> {
            &&& vs.len() > 0
            &&& forall|i: int| 0 <= i < vs.len() ==> wf_expr(#[trigger] vs[i])
            &&& pos < p <= toks.len()
        },
{
    assert forall|q: int| 0 <= q <= toks.len() implies #[trigger] item_ok(
        toks,
        q,
        expr_item(toks)(q),
        expr_pred(),
    ) by {
        lemma_parse_expression_wf(toks, q, false);
    }
    lemma_comma_list_wf(toks, pos, expr_item(toks), expr_pred());
    if let Ok((vs, p)) = spec_expr_list(toks, pos) {
        assert forall|i: int| 0 <= i < vs.len() implies wf_expr(#[trigger] vs[i]) by {
            assert(expr_pred()(vs[i]));
        }
    }
}

proof fn lemma_order_list_wf<'a>(toks: Seq<(Token<'a>, Span)>, pos: int)
    requires
        0 <= pos <= toks.len(),
    ensures
        spec_order_list(toks, pos) matches Ok((vs, p)) ==> {
            &&& vs.len() > 0
            &&& forall|i: int| 0 <= i < vs.len() ==> wf_expr((#[trigger] vs[i]).0)
            &&& pos < p <= toks.len()
        },
{
    assert forall|q: int| 0 <= q <= toks.len() implies #[trigger] item_ok(
        toks,
        q,
        order_item(toks)(q),
        order_pred(),
    ) by {
        lemma_parse_expression_wf(toks, q, false);
    }
    lemma_comma_list_wf(toks, pos, order_item(toks), order_pred());
    if let Ok((vs, p)) = spec_order_list(toks, pos) {
        assert forall|i: int| 0 <= i < vs.len() implies wf_expr((#[trigger] vs[i]).0) by {
            assert(order_pred()(vs[i]));
        }
    }
}

proof fn lemma_using_list_wf<'a>(toks: Seq<(Token<'a>, Span)>, pos: int)
    requires
        0 <= pos <= toks.len(),
    ensures
        spec_using_list(toks, pos) matches Ok((vs, p)) ==> vs.len() > 0 && pos < p <= toks.len(),
{
    assert forall|q: int| 0 <= q <= toks.len() implies #[trigger] item_ok(
        toks,
        q,
        ident_item(toks)(q),
        ident_pred(),
    ) by {}
    lemma_comma_list_wf(toks, pos, ident_item(toks), ident_pred());
}

proof fn lemma_flags_bounds<'a>(toks: Seq<(Token<'a>, Span)>, pos: int)
    requires
        0 <= pos <= toks.len(),
    ensures
        pos <= spec_flags(toks, pos).1 <= toks.len(),
    decreases toks.len() - pos,
{
    if let Some(f) = select_flag_at(tok_at(toks, pos), span_at(toks, pos)) {
        lemma_flags_bounds(toks, pos + 1);
    }
}

proof fn lemma_dotted_bounds<'a>(toks: Seq<(Token<'a>, Span)>, pos: int)
    requires
        0 <= pos <= toks.len(),
    ensures
        spec_dotted(toks, pos) matches Ok((_, p)) ==> pos <= p <= toks.len(),
    decreases toks.len() - pos,
{
    if let (Some(_), p) = spec_skip_token(toks, pos, Token::Period) {
        if let Ok((id, q)) = spec_consume_plain_identifier(toks, p) {
            lemma_dotted_bounds(toks, q);
        }
    }
}

proof fn lemma_table_name_wf<'a>(toks: Seq<(Token<'a>, Span)>, pos: int)
    requires
        0 <= pos <= toks.len(),
    ensures
        spec_table_name(toks, pos) matches Ok((t, p)) ==> wf_table_ref(t) && pos < p <= toks.len(),
{
    if let Ok((first, p)) = spec_consume_plain_identifier(toks, pos) {
        lemma_dotted_bounds(toks, p);
    }
}

proof fn lemma_join_specification_wf<'a>(toks: Seq<(Token<'a>, Span)>, pos: int)
    requires
        0 <= pos <= toks.len(),
    ensures
        spec_join_specification(toks, pos) matches Ok((j, p)) ==> wf_join_spec(j) && pos <= p
            <= toks.len(),
{
    match tok_at(toks, pos) {
        Token::Ident(_, Keyword::ON) => lemma_parse_expression_wf(toks, pos + 1, false),
        Token::Ident(_, Keyword::USING) => lemma_using_list_wf(toks, pos + 1),
        _ => {},
    }
}

proof fn lemma_select_clauses_wf<'a>(toks: Seq<(Token<'a>, Span)>, pos: int, head: SelectModel<'a>)
    requires
        0 <= pos <= toks.len(),
    ensures
        spec_select_clauses(toks, pos, head) matches Ok((s, p)) ==> {
            &&& wf_clauses(s)
            &&& pos <= p <= toks.len()
            &&& s.select_span == head.select_span
            &&& s.flags == head.flags
            &&& s.select_exprs == head.select_exprs
            &&& s.from_span == head.from_span
            &&& s.table_references == head.table_references
        },
{
    if let (Some(_), p) = spec_skip_keyword(toks, pos, Keyword::WHERE) {
        lemma_parse_expression_wf(toks, p, false);
    }
    if let Ok((where_, p1)) = spec_where(toks, pos) {
        if let (Some(_), p) = spec_skip_keyword(toks, p1, Keyword::GROUP) {
            if let Ok((_, q)) = spec_consume_keyword(toks, p, Keyword::BY) {
                lemma_expr_list_wf(toks, q);
            }
        }
        if let Ok((group_by, p2)) = spec_group_by(toks, p1) {
            let (having_span, p3) = spec_skip_keyword(toks, p2, Keyword::HAVING);
            let (window_span, p4) = spec_skip_keyword(toks, p3, Keyword::WINDOW);
            if let (Some(_), p) = spec_skip_keyword(toks, p4, Keyword::ORDER) {
                if let Ok((_, q)) = spec_consume_keyword(toks, p, Keyword::BY) {
                    lemma_order_list_wf(toks, q);
                }
            }
            if let Ok((order_by, p5)) = spec_order_by(toks, p4) {
                if let (Some(_), p) = spec_skip_keyword(toks, p5, Keyword::LIMIT) {
                    lemma_parse_expression_wf(toks, p, true);
                    if let Ok((n, q)) = spec_parse_expression(toks, p, true) {
                        if q < toks.len() {
                            lemma_parse_expression_wf(toks, q + 1, true);
                        }
                    }
                }
            }
        }
    }
}

proof fn lemma_table_ref_inner_wf<'a>(toks: Seq<(Token<'a>, Span)>, pos: int)
    requires
        0 <= pos <= toks.len(),
    ensures
        spec_table_ref_inner(toks, pos) matches Ok((t, p)) ==> wf_table_ref(t) && pos < p
            <= toks.len(),
    decreases toks.len() - pos, 1int,
{
    match spec_skip_token(toks, pos, Token::LParen) {
        (Some(_), p) => lemma_table_ref_wf(toks, p),
        (None, _) => match tok_at(toks, pos) {
            Token::Ident(_, Keyword::SELECT) => lemma_select_wf(toks, pos),
            Token::Ident(_, _) => lemma_table_name_wf(toks, pos),
            _ => {},
        },
    }
}

proof fn lemma_table_ref_wf<'a>(toks: Seq<(Token<'a>, Span)>, pos: int)
    requires
        0 <= pos <= toks.len(),
    ensures
        spec_table_ref(toks, pos) matches Ok((t, p)) ==> wf_table_ref(t) && pos < p <= toks.len(),
    decreases toks.len() - pos, 2int,
{
    lemma_table_ref_inner_wf(toks, pos);
    if let Ok((a, p)) = spec_table_ref_inner(toks, pos) {
        if pos <= p <= toks.len() {
            lemma_join_tail_wf(toks, p, a);
        }
    }
}

proof fn lemma_join_tail_wf<'a>(toks: Seq<(Token<'a>, Span)>, pos: int, lhs: TableRefModel<'a>)
    requires
        0 <= pos <= toks.len(),
        wf_table_ref(lhs),
    ensures
        spec_join_tail(toks, pos, lhs) matches Ok((t, p)) ==> wf_table_ref(t) && pos <= p
            <= toks.len(),
    decreases toks.len() - pos, 1int,
{
    if let Some(Ok((join, p))) = spec_join_type(toks, pos) {
        if pos < p <= toks.len() {
            lemma_table_ref_inner_wf(toks, p);
            if let Ok((right, q)) = spec_table_ref_inner(toks, p) {
                if p <= q <= toks.len() {
                    lemma_join_specification_wf(toks, q);
                    if let Ok((specification, r)) = spec_join_specification(toks, q) {
                        if q <= r <= toks.len() {
                            lemma_join_tail_wf(
                                toks,
                                r,
                                TableRefModel::Join {
                                    join,
                                    left: Box::new(lhs),
                                    right: Box::new(right),
                                    specification,
                                },
                            );
                        }
                    }
                }
            }
        }
    }
}

proof fn lemma_table_ref_list_wf<'a>(toks: Seq<(Token<'a>, Span)>, pos: int)
    requires
        0 <= pos <= toks.len(),
    ensures
        spec_table_ref_list(toks, pos) matches Ok((vs, p)) ==> {
            &&& vs.len() > 0
            &&& forall|i: int| 0 <= i < vs.len() ==> wf_table_ref(#[trigger] vs[i])
            &&& pos < p <= toks.len()
        },
    decreases toks.len() - pos, 3int,
{
    lemma_table_ref_wf(toks, pos);
    if let Ok((t, p)) = spec_table_ref(toks, pos) {
        if let (Some(_), q) = spec_skip_token(toks, p, Token::Comma) {
            if pos < q <= toks.len() {
                lemma_table_ref_list_wf(toks, q);
                if let Ok((rest, r)) = spec_table_ref_list(toks, q) {
                    let vs = seq![t] + rest;
                    assert forall|i: int| 0 <= i < vs.len() implies wf_table_ref(#[trigger] vs[i]) by {
                        if i > 0 {
                            assert(vs[i] == rest[i - 1]);
                        }
                    }
                }
            }
        }
    }
}

proof fn lemma_select_wf<'a>(toks: Seq<(Token<'a>, Span)>, pos: int)
    requires
        0 <= pos <= toks.len(),
    ensures
        spec_select(toks, pos) matches Ok((s, p)) ==> wf_select(s) && pos < p <= toks.len(),
    decreases toks.len() - pos, 0int,
{
    if let Ok((select_span, p1)) = spec_consume_keyword(toks, pos, Keyword::SELECT) {
        lemma_flags_bounds(toks, p1);
        let (flags, p2) = spec_flags(toks, p1);
        lemma_select_expr_list_wf(toks, p2);
        if let Ok((select_exprs, p3)) = spec_select_expr_list(toks, p2) {
            let head = SelectModel {
                select_span,
                flags,
                select_exprs,
                from_span: None,
                table_references: None,
                where_: None,
                group_by: None,
                having_span: None,
                window_span: None,
                order_by: None,
                limit: None,
            };
            if let (Some(from_span), p4) = spec_skip_keyword(toks, p3, Keyword::FROM) {
                if pos < p4 <= toks.len() {
                    lemma_table_ref_list_wf(toks, p4);
                    if let Ok((refs, p5)) = spec_table_ref_list(toks, p4) {
                        lemma_select_clauses_wf(
                            toks,
                            p5,
                            SelectModel {
                                from_span: Some(from_span),
                                table_references: Some(refs),
                                ..head
                            },
                        );
                    }
                }
            }
        }
    }
}

/// A successfully parsed `SELECT` is well formed (see [`wf_select`]), and
/// the parser took at least one token and stayed within the tokens.
pub proof fn lemma_parse_select_wf<'a>(toks: Seq<(Token<'a>, Span)>, pos: int)
    requires
        0 <= pos <= toks.len(),
    ensures
        spec_select(toks, pos) matches Ok((s, p)) ==> wf_select(s) && pos < p <= toks.len(),
{
    lemma_select_wf(toks, pos);
}

/// A successfully parsed table reference, with its joins, is well formed
/// (see [`wf_table_ref`]), and the parser took at least one token and stayed
/// within the tokens.
pub proof fn lemma_parse_table_reference_wf<'a>(toks: Seq<(Token<'a>, Span)>, pos: int)
    requires
        0 <= pos <= toks.len(),
    ensures
        spec_table_ref(toks, pos) matches Ok((t, p)) ==> wf_table_ref(t) && pos < p <= toks.len(),
        spec_table_ref_inner(toks, pos) matches Ok((t, p)) ==> wf_table_ref(t) && pos < p
            <= toks.len(),
{
    lemma_table_ref_wf(toks, pos);
    lemma_table_ref_inner_wf(toks, pos);
}

/// A `SELECT` has table references exactly when it has `FROM`, and without
/// `FROM` it has no `WHERE`, `GROUP BY`, `HAVING`, `WINDOW`, `ORDER BY` or
/// `LIMIT`.
pub proof fn lemma_select_without_from<'a>(toks: Seq<(Token<'a>, Span)>, pos: int)
    requires
        0 <= pos <= toks.len(),
    ensures
        spec_select(toks, pos) matches Ok((s, _)) ==> {
            &&& (s.from_span is None <==> s.table_references is None)
            &&& (s.from_span is None ==> no_clauses(s))
        },
{
    lemma_select_wf(toks, pos);
}

// ---------------------------------------------------------------------------
// Copies

/// A copy of a select expression.
fn clone_select_expr<'a>(e: &SelectExpr<'a>) -> (r: SelectExpr<'a>)
    ensures
        r@ == e@,
{
    SelectExpr { expr: clone_expression(&e.expr), as_: e.as_ }
}

impl<'a> Clone for SelectExpr<'a> {
    fn clone(&self) -> (r: Self)
        ensures
            r@ == self@,
    {
        clone_select_expr(self)
    }
}

/// A copy of a join specification.
fn clone_join_spec<'a>(j: &JoinSpecification<'a>) -> (r: JoinSpecification<'a>)
    ensures
        r@ == j@,
{
    match j {
        JoinSpecification::On(e, s) => JoinSpecification::On(clone_expression(e), *s),
        JoinSpecification::Using(cols, s) => JoinSpecification::Using(copy_vec(cols), *s),
    }
}

impl<'a> Clone for JoinSpecification<'a> {
    fn clone(&self) -> (r: Self)
        ensures
            r@ == self@,
    {
        clone_join_spec(self)
    }
}

/// A copy of a vector of expressions.
fn clone_exprs<'a>(v: &Vec<Expression<'a>>) -> (r: Vec<Expression<'a>>)
    ensures
        view_exprs(r@) == view_exprs(v@),
{
    let mut r: Vec<Expression<'a>> = Vec::new();
    let mut i: usize = 0;
    while i < v.len()
        invariant
            i <= v.len(),
            r@.len() == i,
            forall|j: int| 0 <= j < i ==> view_expr(#[trigger] r@[j]) == view_expr(v@[j]),
        decreases v.len() - i,
    {
        let x = clone_expression(&v[i]);
        r.push(x);
        i = i + 1;
    }
    proof {
        assert(view_exprs(r@) =~= view_exprs(v@));
    }
    r
}

/// A copy of a vector of select expressions.
fn clone_select_exprs<'a>(v: &Vec<SelectExpr<'a>>) -> (r: Vec<SelectExpr<'a>>)
    ensures
        view_select_exprs(r@) == view_select_exprs(v@),
{
    let mut r: Vec<SelectExpr<'a>> = Vec::new();
    let mut i: usize = 0;
    while i < v.len()
        invariant
            i <= v.len(),
            r@.len() == i,
            forall|j: int| 0 <= j < i ==> (#[trigger] r@[j])@ == v@[j]@,
        decreases v.len() - i,
    {
        let x = clone_select_expr(&v[i]);
        r.push(x);
        i = i + 1;
    }
    proof {
        assert(view_select_exprs(r@) =~= view_select_exprs(v@));
    }
    r
}

/// A copy of a vector of `ORDER BY` items.
fn clone_order_items<'a>(v: &Vec<(Expression<'a>, OrderFlag)>) -> (r: Vec<(Expression<'a>, OrderFlag)>)
    ensures
        view_order_items(r@) == view_order_items(v@),
{
    let mut r: Vec<(Expression<'a>, OrderFlag)> = Vec::new();
    let mut i: usize = 0;
    while i < v.len()
        invariant
            i <= v.len(),
            r@.len() == i,
            forall|j: int|
                0 <= j < i ==> view_expr((#[trigger] r@[j]).0) == view_expr(v@[j].0) && r@[j].1
                    == v@[j].1,
        decreases v.len() - i,
    {
        let x = (clone_expression(&v[i].0), v[i].1);
        r.push(x);
        i = i + 1;
    }
    proof {
        assert(view_order_items(r@) =~= view_order_items(v@));
    }
    r
}

/// A copy of an optional expression.
fn clone_opt_expression<'a>(e: &Option<Expression<'a>>) -> (r: Option<Expression<'a>>)
    ensures
        match (r, *e) {
            (Some(a), Some(b)) => a@ == b@,
            (None, None) => true,
            _ => false,
        },
{
    match e {
        Some(x) => Some(clone_expression(x)),
        None => None,
    }
}

/// A copy of a table reference.
fn clone_table_ref<'a>(t: &TableReference<'a>) -> (r: TableReference<'a>)
    ensures
        r@ == t@,
    decreases t,
{
    match t {
        TableReference::Table { identifier, as_span, as_ } => TableReference::Table {
            identifier: copy_vec(identifier),
            as_span: *as_span,
            as_: *as_,
        },
        TableReference::Query { select, as_span, as_ } => TableReference::Query {
            select: Box::new(clone_select(select)),
            as_span: *as_span,
            as_: *as_,
        },
        TableReference::Join { join, left, right, specification } => TableReference::Join {
            join: *join,
            left: Box::new(clone_table_ref(left)),
            right: Box::new(clone_table_ref(right)),
            specification: match specification {
                Some(j) => Some(clone_join_spec(j)),
                None => None,
            },
        },
    }
}

/// A copy of a `SELECT` statement.
fn clone_select<'a>(s: &Select<'a>) -> (r: Select<'a>)
    ensures
        r@ == s@,
    decreases s,
{
    let table_references = match &s.table_references {
        Some(v) => {
            let mut r: Vec<TableReference<'a>> = Vec::new();
            let mut i: usize = 0;
            while i < v.len()
                invariant
                    i <= v.len(),
                    s.table_references == Some(*v),
                    r@.len() == i,
                    forall|j: int| 0 <= j < i ==> view_table_ref(#[trigger] r@[j]) == view_table_ref(v@[j]),
                decreases v.len() - i,
            {
                // The element is part of `s`, so the recursion terminates.
                proof {
                    assert(decreases_to!(*s => s.table_references));
                    assert(decreases_to!(s.table_references => s.table_references->Some_0));
                    assert(decreases_to!(*v => v@));
                    assert(decreases_to!(v@ => v@[i as int]));
                }
                let x = clone_table_ref(&v[i]);
                r.push(x);
                i = i + 1;
            }
            proof {
                assert(view_refs(r@) =~= view_refs(v@));
            }
            Some(r)
        },
        None => None,
    };
    let r = Select {
        select_span: s.select_span,
        flags: copy_vec(&s.flags),
        select_exprs: clone_select_exprs(&s.select_exprs),
        from_span: s.from_span,
        table_references,
        where_: match &s.where_ {
            Some((e, sp)) => Some((clone_expression(e), *sp)),
            None => None,
        },
        group_by: match &s.group_by {
            Some((sp, g)) => Some((*sp, clone_exprs(g))),
            None => None,
        },
        having_span: s.having_span,
        window_span: s.window_span,
        order_by: match &s.order_by {
            Some((sp, o)) => Some((*sp, clone_order_items(o))),
            None => None,
        },
        limit: match &s.limit {
            Some((sp, off, n)) => Some((*sp, clone_opt_expression(off), clone_expression(n))),
            None => None,
        },
    };
    proof {
        if s.table_references is Some {
            assert(view_select(r).table_references->0 =~= view_select(*s).table_references->0);
        }
    }
    r
}

impl<'a> Clone for TableReference<'a> {
    fn clone(&self) -> (r: Self)
        ensures
            r@ == self@,
    {
        clone_table_ref(self)
    }
}

impl<'a> Clone for Select<'a> {
    fn clone(&self) -> (r: Self)
        ensures
            r@ == self@,
    {
        clone_select(self)
    }
}

// ---------------------------------------------------------------------------
// Lookahead

proof fn lemma_select_expr_local<'a>(t1: Seq<(Token<'a>, Span)>, t2: Seq<(Token<'a>, Span)>, pos: int)
    requires
        0 <= pos <= t1.len(),
    ensures
        local(t1, t2, pos, spec_select_expr(t1, pos), spec_select_expr(t2, pos)),
{
    lemma_parse_expression_local(t1, t2, pos, false);
    if let Ok((_, e)) = spec_select_expr(t1, pos) {
        if agree_on(t1, t2, pos, e) && pos <= t2.len() {
            let (_, p) = spec_parse_expression(t1, pos, false)->Ok_0;
            assert(same_at(t1, t2, p));
            if p + 1 <= e {
                assert(same_at(t1, t2, p + 1));
            }
        }
    }
}

proof fn lemma_order_item_local<'a>(t1: Seq<(Token<'a>, Span)>, t2: Seq<(Token<'a>, Span)>, pos: int)
    requires
        0 <= pos <= t1.len(),
    ensures
        local(t1, t2, pos, spec_order_item(t1, pos), spec_order_item(t2, pos)),
{
    lemma_parse_expression_local(t1, t2, pos, false);
    if let Ok((_, e)) = spec_order_item(t1, pos) {
        if agree_on(t1, t2, pos, e) && pos <= t2.len() {
            let (_, p) = spec_parse_expression(t1, pos, false)->Ok_0;
            assert(same_at(t1, t2, p));
        }
    }
}

proof fn lemma_lists_local<'a>(t1: Seq<(Token<'a>, Span)>, t2: Seq<(Token<'a>, Span)>, pos: int)
    requires
        0 <= pos <= t1.len(),
    ensures
        local(t1, t2, pos, spec_select_expr_list(t1, pos), spec_select_expr_list(t2, pos)),
        local(t1, t2, pos, spec_expr_list(t1, pos), spec_expr_list(t2, pos)),
        local(t1, t2, pos, spec_order_list(t1, pos), spec_order_list(t2, pos)),
        local(t1, t2, pos, spec_using_list(t1, pos), spec_using_list(t2, pos)),
{
    assert forall|q: int| 0 <= q <= t1.len() implies #[trigger] local(
        t1,
        t2,
        q,
        select_expr_item(t1)(q),
        select_expr_item(t2)(q),
    ) by {
        lemma_select_expr_local(t1, t2, q);
    }
    lemma_comma_list_local(t1, t2, pos, select_expr_item(t1), select_expr_item(t2));
    assert forall|q: int| 0 <= q <= t1.len() implies #[trigger] local(
        t1,
        t2,
        q,
        expr_item(t1)(q),
        expr_item(t2)(q),
    ) by {
        lemma_parse_expression_local(t1, t2, q, false);
    }
    lemma_comma_list_local(t1, t2, pos, expr_item(t1), expr_item(t2));
    assert forall|q: int| 0 <= q <= t1.len() implies #[trigger] local(
        t1,
        t2,
        q,
        order_item(t1)(q),
        order_item(t2)(q),
    ) by {
        lemma_order_item_local(t1, t2, q);
    }
    lemma_comma_list_local(t1, t2, pos, order_item(t1), order_item(t2));
    assert forall|q: int| 0 <= q <= t1.len() implies #[trigger] local(
        t1,
        t2,
        q,
        ident_item(t1)(q),
        ident_item(t2)(q),
    ) by {
        if spec_consume_plain_identifier(t1, q) is Ok {
            if agree_on(t1, t2, q, q + 1) {
                assert(same_at(t1, t2, q));
            }
        }
    }
    lemma_comma_list_local(t1, t2, pos, ident_item(t1), ident_item(t2));
}

proof fn lemma_flags_local<'a>(t1: Seq<(Token<'a>, Span)>, t2: Seq<(Token<'a>, Span)>, pos: int)
    requires
        0 <= pos <= t1.len(),
    ensures
        pos <= spec_flags(t1, pos).1 <= t1.len(),
        agree_on(t1, t2, pos, spec_flags(t1, pos).1) ==> spec_flags(t2, pos) == spec_flags(t1, pos),
    decreases t1.len() - pos,
{
    lemma_flags_bounds(t1, pos);
    if agree_on(t1, t2, pos, spec_flags(t1, pos).1) {
        assert(same_at(t1, t2, pos));
    }
    if let Some(f) = select_flag_at(tok_at(t1, pos), span_at(t1, pos)) {
        lemma_flags_local(t1, t2, pos + 1);
    }
}

proof fn lemma_join_type_local<'a>(t1: Seq<(Token<'a>, Span)>, t2: Seq<(Token<'a>, Span)>, pos: int)
    requires
        0 <= pos <= t1.len(),
    ensures
        spec_join_type(t1, pos) is None && same_at(t1, t2, pos) ==> spec_join_type(t2, pos) is None,
        spec_join_type(t1, pos) matches Some(r) ==> local(t1, t2, pos, r, spec_join_type(t2, pos)->Some_0)
            && (r matches Ok((_, p)) ==> pos < p) && (agree_on(t1, t2, pos, pos) ==> spec_join_type(
            t2,
            pos,
        ) is Some),
{
    if let Some(Ok((_, p))) = spec_join_type(t1, pos) {
        if agree_on(t1, t2, pos, p) && pos <= t2.len() {
            assert(same_at(t1, t2, pos));
            assert(same_at(t1, t2, pos + 1));
            if pos + 2 <= p {
                assert(same_at(t1, t2, pos + 2));
            }
            if pos + 3 <= p {
                assert(same_at(t1, t2, pos + 3));
            }
        }
    }
    if agree_on(t1, t2, pos, pos) {
        assert(same_at(t1, t2, pos));
    }
}

proof fn lemma_join_specification_local<'a>(t1: Seq<(Token<'a>, Span)>, t2: Seq<(Token<'a>, Span)>, pos: int)
    requires
        0 <= pos <= t1.len(),
    ensures
        local(t1, t2, pos, spec_join_specification(t1, pos), spec_join_specification(t2, pos)),
{
    match tok_at(t1, pos) {
        Token::Ident(_, Keyword::ON) => lemma_parse_expression_local(t1, t2, pos + 1, false),
        Token::Ident(_, Keyword::USING) => lemma_lists_local(t1, t2, pos + 1),
        _ => {},
    }
    if let Ok((_, e)) = spec_join_specification(t1, pos) {
        if agree_on(t1, t2, pos, e) && pos <= t2.len() {
            assert(same_at(t1, t2, pos));
        }
    }
}

proof fn lemma_dotted_local<'a>(t1: Seq<(Token<'a>, Span)>, t2: Seq<(Token<'a>, Span)>, pos: int)
    requires
        0 <= pos <= t1.len(),
    ensures
        local(t1, t2, pos, spec_dotted(t1, pos), spec_dotted(t2, pos)),
    decreases t1.len() - pos,
{
    if let (Some(_), p) = spec_skip_token(t1, pos, Token::Period) {
        if let Ok((id, q)) = spec_consume_plain_identifier(t1, p) {
            lemma_dotted_local(t1, t2, q);
            if let Ok((_, e)) = spec_dotted(t1, q) {
                if agree_on(t1, t2, pos, e) && pos <= t2.len() {
                    assert(same_at(t1, t2, pos));
                    assert(same_at(t1, t2, p));
                    lemma_agree_len(t1, t2, pos, q);
                }
            }
        }
    } else {
        if agree_on(t1, t2, pos, pos) {
            assert(same_at(t1, t2, pos));
        }
    }
}

proof fn lemma_table_name_local<'a>(t1: Seq<(Token<'a>, Span)>, t2: Seq<(Token<'a>, Span)>, pos: int)
    requires
        0 <= pos <= t1.len(),
    ensures
        local(t1, t2, pos, spec_table_name(t1, pos), spec_table_name(t2, pos)),
{
    if let Ok((first, p)) = spec_consume_plain_identifier(t1, pos) {
        lemma_dotted_local(t1, t2, p);
        if let Ok((rest, q)) = spec_dotted(t1, p) {
            if let Ok((_, e)) = spec_table_name(t1, pos) {
                if agree_on(t1, t2, pos, e) && pos <= t2.len() {
                    assert(same_at(t1, t2, pos));
                    assert(same_at(t1, t2, q));
                    if q + 1 <= e {
                        assert(same_at(t1, t2, q + 1));
                    }
                    lemma_agree_len(t1, t2, pos, p);
                }
            }
        }
    }
}

proof fn lemma_where_local<'a>(t1: Seq<(Token<'a>, Span)>, t2: Seq<(Token<'a>, Span)>, pos: int)
    requires
        0 <= pos <= t1.len(),
    ensures
        local(t1, t2, pos, spec_where(t1, pos), spec_where(t2, pos)),
{
    if let (Some(_), p) = spec_skip_keyword(t1, pos, Keyword::WHERE) {
        lemma_parse_expression_local(t1, t2, p, false);
        lemma_parse_expression_wf(t1, p, false);
    }
    if let Ok((_, e)) = spec_where(t1, pos) {
        if agree_on(t1, t2, pos, e) && pos <= t2.len() {
            assert(same_at(t1, t2, pos));
        }
    }
}

proof fn lemma_group_by_local<'a>(t1: Seq<(Token<'a>, Span)>, t2: Seq<(Token<'a>, Span)>, pos: int)
    requires
        0 <= pos <= t1.len(),
    ensures
        local(t1, t2, pos, spec_group_by(t1, pos), spec_group_by(t2, pos)),
{
    if let (Some(_), p) = spec_skip_keyword(t1, pos, Keyword::GROUP) {
        if let Ok((_, q)) = spec_consume_keyword(t1, p, Keyword::BY) {
            lemma_lists_local(t1, t2, q);
            lemma_expr_list_wf(t1, q);
        }
    }
    if let Ok((_, e)) = spec_group_by(t1, pos) {
        if agree_on(t1, t2, pos, e) && pos <= t2.len() {
            assert(same_at(t1, t2, pos));
            if pos + 1 <= e {
                assert(same_at(t1, t2, pos + 1));
            }
        }
    }
}

proof fn lemma_order_by_local<'a>(t1: Seq<(Token<'a>, Span)>, t2: Seq<(Token<'a>, Span)>, pos: int)
    requires
        0 <= pos <= t1.len(),
    ensures
        local(t1, t2, pos, spec_order_by(t1, pos), spec_order_by(t2, pos)),
{
    if let (Some(_), p) = spec_skip_keyword(t1, pos, Keyword::ORDER) {
        if let Ok((_, q)) = spec_consume_keyword(t1, p, Keyword::BY) {
            lemma_lists_local(t1, t2, q);
            lemma_order_list_wf(t1, q);
        }
    }
    if let Ok((_, e)) = spec_order_by(t1, pos) {
        if agree_on(t1, t2, pos, e) && pos <= t2.len() {
            assert(same_at(t1, t2, pos));
            if pos + 1 <= e {
                assert(same_at(t1, t2, pos + 1));
            }
        }
    }
}

proof fn lemma_limit_local<'a>(t1: Seq<(Token<'a>, Span)>, t2: Seq<(Token<'a>, Span)>, pos: int)
    requires
        0 <= pos <= t1.len(),
    ensures
        local(t1, t2, pos, spec_limit(t1, pos), spec_limit(t2, pos)),
{
    if let (Some(_), p) = spec_skip_keyword(t1, pos, Keyword::LIMIT) {
        lemma_parse_expression_local(t1, t2, p, true);
        lemma_parse_expression_wf(t1, p, true);
        if let Ok((_, q)) = spec_parse_expression(t1, p, true) {
            if q < t1.len() {
                lemma_parse_expression_local(t1, t2, q + 1, true);
                lemma_parse_expression_wf(t1, q + 1, true);
            }
            if let Ok((_, e)) = spec_limit(t1, pos) {
                if agree_on(t1, t2, pos, e) && pos <= t2.len() {
                    assert(same_at(t1, t2, pos));
                    assert(same_at(t1, t2, q));
                    lemma_agree_len(t1, t2, pos, q);
                }
            }
        }
    } else {
        if agree_on(t1, t2, pos, pos) {
            assert(same_at(t1, t2, pos));
        }
    }
}

proof fn lemma_select_clauses_local<'a>(
    t1: Seq<(Token<'a>, Span)>,
    t2: Seq<(Token<'a>, Span)>,
    pos: int,
    head: SelectModel<'a>,
)
    requires
        0 <= pos <= t1.len(),
    ensures
        local(t1, t2, pos, spec_select_clauses(t1, pos, head), spec_select_clauses(t2, pos, head)),
{
    lemma_where_local(t1, t2, pos);
    if let Ok((_, p1)) = spec_where(t1, pos) {
        lemma_group_by_local(t1, t2, p1);
        if let Ok((_, p2)) = spec_group_by(t1, p1) {
            let (_, p3) = spec_skip_keyword(t1, p2, Keyword::HAVING);
            let (_, p4) = spec_skip_keyword(t1, p3, Keyword::WINDOW);
            lemma_order_by_local(t1, t2, p4);
            if let Ok((_, p5)) = spec_order_by(t1, p4) {
                lemma_limit_local(t1, t2, p5);
                if let Ok((_, e)) = spec_limit(t1, p5) {
                    if agree_on(t1, t2, pos, e) && pos <= t2.len() {
                        assert(same_at(t1, t2, p2));
                        assert(same_at(t1, t2, p3));
                        lemma_agree_len(t1, t2, pos, p1);
                        lemma_agree_len(t1, t2, pos, p2);
                        lemma_agree_len(t1, t2, pos, p4);
                        lemma_agree_len(t1, t2, pos, p5);
                    }
                }
            }
        }
    }
}

proof fn lemma_table_ref_inner_local<'a>(t1: Seq<(Token<'a>, Span)>, t2: Seq<(Token<'a>, Span)>, pos: int)
    requires
        0 <= pos <= t1.len(),
    ensures
        local(t1, t2, pos, spec_table_ref_inner(t1, pos), spec_table_ref_inner(t2, pos)),
    decreases t1.len() - pos, 1int,
{
    lemma_table_ref_inner_wf(t1, pos);
    match spec_skip_token(t1, pos, Token::LParen) {
        (Some(_), p) => {
            lemma_table_ref_local(t1, t2, p);
            lemma_table_ref_wf(t1, p);
            if let Ok((_, e)) = spec_table_ref_inner(t1, pos) {
                if agree_on(t1, t2, pos, e) && pos <= t2.len() {
                    assert(same_at(t1, t2, pos));
                    let (_, q) = spec_table_ref(t1, p)->Ok_0;
                    assert(same_at(t1, t2, q));
                }
            }
        },
        (None, _) => {
            match tok_at(t1, pos) {
                Token::Ident(_, Keyword::SELECT) => {
                    lemma_select_local(t1, t2, pos);
                    lemma_select_wf(t1, pos);
                    if let Ok((_, e)) = spec_table_ref_inner(t1, pos) {
                        if agree_on(t1, t2, pos, e) && pos <= t2.len() {
                            assert(same_at(t1, t2, pos));
                            let (_, p) = spec_select(t1, pos)->Ok_0;
                            assert(same_at(t1, t2, p));
                            assert(same_at(t1, t2, p + 1));
                        }
                    }
                },
                Token::Ident(_, _) => {
                    lemma_table_name_local(t1, t2, pos);
                    if let Ok((_, e)) = spec_table_ref_inner(t1, pos) {
                        if agree_on(t1, t2, pos, e) && pos <= t2.len() {
                            assert(same_at(t1, t2, pos));
                        }
                    }
                },
                _ => {},
            }
        },
    }
}

proof fn lemma_table_ref_local<'a>(t1: Seq<(Token<'a>, Span)>, t2: Seq<(Token<'a>, Span)>, pos: int)
    requires
        0 <= pos <= t1.len(),
    ensures
        local(t1, t2, pos, spec_table_ref(t1, pos), spec_table_ref(t2, pos)),
    decreases t1.len() - pos, 2int,
{
    lemma_table_ref_inner_local(t1, t2, pos);
    lemma_table_ref_inner_wf(t1, pos);
    if let Ok((a, p)) = spec_table_ref_inner(t1, pos) {
        lemma_join_tail_local(t1, t2, p, a);
        if let Ok((_, e)) = spec_join_tail(t1, p, a) {
            if agree_on(t1, t2, pos, e) && pos <= t2.len() {
                lemma_agree_len(t1, t2, pos, p);
            }
        }
    }
}

proof fn lemma_join_tail_local<'a>(
    t1: Seq<(Token<'a>, Span)>,
    t2: Seq<(Token<'a>, Span)>,
    pos: int,
    lhs: TableRefModel<'a>,
)
    requires
        0 <= pos <= t1.len(),
    ensures
        local(t1, t2, pos, spec_join_tail(t1, pos, lhs), spec_join_tail(t2, pos, lhs)),
    decreases t1.len() - pos, 1int,
{
    lemma_join_type_local(t1, t2, pos);
    match spec_join_type(t1, pos) {
        None => {
            if agree_on(t1, t2, pos, pos) {
                assert(same_at(t1, t2, pos));
            }
        },
        Some(Err(_)) => {},
        Some(Ok((join, p))) => {
            if pos < p <= t1.len() {
                lemma_table_ref_inner_local(t1, t2, p);
                lemma_table_ref_inner_wf(t1, p);
                if let Ok((right, q)) = spec_table_ref_inner(t1, p) {
                    lemma_join_specification_local(t1, t2, q);
                    lemma_join_specification_wf(t1, q);
                    if let Ok((specification, r)) = spec_join_specification(t1, q) {
                        let j = TableRefModel::Join {
                            join,
                            left: Box::new(lhs),
                            right: Box::new(right),
                            specification,
                        };
                        lemma_join_tail_local(t1, t2, r, j);
                        if let Ok((_, e)) = spec_join_tail(t1, r, j) {
                            if agree_on(t1, t2, pos, e) && pos <= t2.len() {
                                lemma_agree_len(t1, t2, pos, p);
                                lemma_agree_len(t1, t2, pos, q);
                                lemma_agree_len(t1, t2, pos, r);
                            }
                        }
                    }
                }
            }
        },
    }
}

proof fn lemma_table_ref_list_local<'a>(t1: Seq<(Token<'a>, Span)>, t2: Seq<(Token<'a>, Span)>, pos: int)
    requires
        0 <= pos <= t1.len(),
    ensures
        local(t1, t2, pos, spec_table_ref_list(t1, pos), spec_table_ref_list(t2, pos)),
    decreases t1.len() - pos, 3int,
{
    lemma_table_ref_local(t1, t2, pos);
    if let Ok((t, p)) = spec_table_ref(t1, pos) {
        if let (Some(_), q) = spec_skip_token(t1, p, Token::Comma) {
            if pos < q <= t1.len() {
                lemma_table_ref_list_local(t1, t2, q);
                if let Ok((rest, r)) = spec_table_ref_list(t1, q) {
                    if agree_on(t1, t2, pos, r) && pos <= t2.len() {
                        assert(same_at(t1, t2, p));
                        lemma_agree_len(t1, t2, pos, q);
                    }
                }
            }
        } else {
            if agree_on(t1, t2, pos, p) && pos <= t2.len() {
                assert(same_at(t1, t2, p));
            }
        }
    }
}

proof fn lemma_select_local<'a>(t1: Seq<(Token<'a>, Span)>, t2: Seq<(Token<'a>, Span)>, pos: int)
    requires
        0 <= pos <= t1.len(),
    ensures
        local(t1, t2, pos, spec_select(t1, pos), spec_select(t2, pos)),
    decreases t1.len() - pos, 0int,
{
    lemma_select_wf(t1, pos);
    if let Ok((select_span, p1)) = spec_consume_keyword(t1, pos, Keyword::SELECT) {
        lemma_flags_local(t1, t2, p1);
        let (flags, p2) = spec_flags(t1, p1);
        lemma_lists_local(t1, t2, p2);
        lemma_select_expr_list_wf(t1, p2);
        if let Ok((select_exprs, p3)) = spec_select_expr_list(t1, p2) {
            let head = SelectModel {
                select_span,
                flags,
                select_exprs,
                from_span: None,
                table_references: None,
                where_: None,
                group_by: None,
                having_span: None,
                window_span: None,
                order_by: None,
                limit: None,
            };
            if let (Some(from_span), p4) = spec_skip_keyword(t1, p3, Keyword::FROM) {
                if pos < p4 <= t1.len() {
                    lemma_table_ref_list_local(t1, t2, p4);
                    lemma_table_ref_list_wf(t1, p4);
                    if let Ok((refs, p5)) = spec_table_ref_list(t1, p4) {
                        let h = SelectModel {
                            from_span: Some(from_span),
                            table_references: Some(refs),
                            ..head
                        };
                        lemma_select_clauses_local(t1, t2, p5, h);
                        lemma_select_clauses_wf(t1, p5, h);
                    }
                }
            }
            if let Ok((_, e)) = spec_select(t1, pos) {
                if agree_on(t1, t2, pos, e) && pos <= t2.len() {
                    assert(same_at(t1, t2, pos));
                    assert(same_at(t1, t2, p3));
                    lemma_agree_len(t1, t2, pos, p1);
                    lemma_agree_len(t1, t2, pos, p2);
                    lemma_agree_len(t1, t2, pos, p3);
                    if let (Some(_), p4) = spec_skip_keyword(t1, p3, Keyword::FROM) {
                        lemma_agree_len(t1, t2, pos, p4);
                        if let Ok((_, p5)) = spec_table_ref_list(t1, p4) {
                            lemma_agree_len(t1, t2, pos, p5);
                        }
                    }
                }
            }
        }
    }
}

/// A `SELECT` parse reads no token beyond the one after what it consumed:
/// any token sequence that looks the same from `pos` to the end position
/// (that next token included) parses the same.
pub proof fn lemma_parse_select_local<'a>(t1: Seq<(Token<'a>, Span)>, t2: Seq<(Token<'a>, Span)>, pos: int)
    requires
        0 <= pos <= t1.len(),
    ensures
        local(t1, t2, pos, spec_select(t1, pos), spec_select(t2, pos)),
{
    lemma_select_local(t1, t2, pos);
}

/// A table reference parse, with or without its joins, reads no token
/// beyond the one after what it consumed.
pub proof fn lemma_parse_table_reference_local<'a>(
    t1: Seq<(Token<'a>, Span)>,
    t2: Seq<(Token<'a>, Span)>,
    pos: int,
)
    requires
        0 <= pos <= t1.len(),
    ensures
        local(t1, t2, pos, spec_table_ref(t1, pos), spec_table_ref(t2, pos)),
        local(t1, t2, pos, spec_table_ref_inner(t1, pos), spec_table_ref_inner(t2, pos)),
{
    lemma_table_ref_local(t1, t2, pos);
    lemma_table_ref_inner_local(t1, t2, pos);
}

// ---------------------------------------------------------------------------
// What each part of a statement is made of

/// `n` is `t` or lies on the chain of left operands of the joins in `t`.
pub open spec fn left_spine_has<'a>(t: TableRefModel<'a>, n: TableRefModel<'a>) -> bool
    decreases t,
{
    t == n || match t {
        TableRefModel::Join { left, .. } => left_spine_has(*left, n),
        _ => false,
    }
}

proof fn lemma_left_spine_trans<'a>(t: TableRefModel<'a>, j: TableRefModel<'a>, n: TableRefModel<'a>)
    requires
        left_spine_has(t, j),
        j matches TableRefModel::Join { left, .. } && *left == n,
    ensures
        left_spine_has(t, n),
    decreases t,
{
    if t != j {
        if let TableRefModel::Join { left, .. } = t {
            lemma_left_spine_trans(*left, j, n);
        }
    } else {
        if let TableRefModel::Join { left, .. } = j {
            assert(left_spine_has(*left, n));
        }
    }
}

proof fn lemma_join_tail_spine<'a>(toks: Seq<(Token<'a>, Span)>, pos: int, lhs: TableRefModel<'a>)
    ensures
        spec_join_tail(toks, pos, lhs) matches Ok((t, _)) ==> left_spine_has(t, lhs),
    decreases toks.len() - pos,
{
    if let Some(Ok((join, p))) = spec_join_type(toks, pos) {
        if pos < p <= toks.len() {
            if let Ok((right, q)) = spec_table_ref_inner(toks, p) {
                if p <= q <= toks.len() {
                    if let Ok((specification, r)) = spec_join_specification(toks, q) {
                        if q <= r <= toks.len() {
                            let j = TableRefModel::Join {
                                join,
                                left: Box::new(lhs),
                                right: Box::new(right),
                                specification,
                            };
                            lemma_join_tail_spine(toks, r, j);
                            if let Ok((t, _)) = spec_join_tail(toks, r, j) {
                                lemma_left_spine_trans(t, j, lhs);
                            }
                        }
                    }
                }
            }
        }
    }
}

/// The operands of a join keep their places: in a parsed table reference
/// `x join y [spec] ...`, the reference `x` before the join keywords is the
/// left operand and the reference `y` after them the right one, whatever
/// the kind of join; later joins take the whole as their left operand. With
/// no join after `x`, the result is `x`.
pub proof fn lemma_join_operands<'a>(toks: Seq<(Token<'a>, Span)>, pos: int)
    requires
        0 <= pos <= toks.len(),
    ensures
        spec_table_ref(toks, pos) is Ok ==> {
            let t = spec_table_ref(toks, pos)->Ok_0.0;
            let x = spec_table_ref_inner(toks, pos)->Ok_0.0;
            let p = spec_table_ref_inner(toks, pos)->Ok_0.1;
            &&& spec_table_ref_inner(toks, pos) is Ok
            &&& left_spine_has(t, x)
            &&& (spec_join_type(toks, p) is None ==> t == x)
            &&& (spec_join_type(toks, p) matches Some(Ok((j, q))) ==> {
                let y = spec_table_ref_inner(toks, q)->Ok_0.0;
                let r = spec_table_ref_inner(toks, q)->Ok_0.1;
                let s = spec_join_specification(toks, r)->Ok_0.0;
                left_spine_has(
                    t,
                    TableRefModel::Join {
                        join: j,
                        left: Box::new(x),
                        right: Box::new(y),
                        specification: s,
                    },
                )
            })
        },
{
    if let Ok((x, p)) = spec_table_ref_inner(toks, pos) {
        if pos <= p <= toks.len() {
            lemma_join_tail_spine(toks, p, x);
            if let Some(Ok((j, q))) = spec_join_type(toks, p) {
                if p < q <= toks.len() {
                    if let Ok((y, r)) = spec_table_ref_inner(toks, q) {
                        if q <= r <= toks.len() {
                            if let Ok((s, u)) = spec_join_specification(toks, r) {
                                if r <= u <= toks.len() {
                                    lemma_join_tail_spine(
                                        toks,
                                        u,
                                        TableRefModel::Join {
                                            join: j,
                                            left: Box::new(x),
                                            right: Box::new(y),
                                            specification: s,
                                        },
                                    );
                                }
                            }
                        }
                    }
                }
            }
        }
    }
}

/// The `GROUP BY` list holds, in source order, the expressions that start
/// after `GROUP BY` and after each comma between them.
pub proof fn lemma_group_by_items<'a>(toks: Seq<(Token<'a>, Span)>, pos: int)
    ensures
        spec_group_by(toks, pos) matches Ok((Some(_), _)) ==> {
            &&& is_keyword(tok_at(toks, pos), Keyword::GROUP)
            &&& is_keyword(tok_at(toks, pos + 1), Keyword::BY)
            &&& exists|starts: Seq<int>|
                #![trigger items_at(toks, expr_item(toks), spec_group_by(toks, pos)->Ok_0.0->Some_0.1, starts, spec_group_by(toks, pos)->Ok_0.1)]
                starts[0] == pos + 2 && items_at(
                    toks,
                    expr_item(toks),
                    spec_group_by(toks, pos)->Ok_0.0->Some_0.1,
                    starts,
                    spec_group_by(toks, pos)->Ok_0.1,
                )
        },
{
    lemma_comma_list_items(toks, pos + 2, expr_item(toks));
    if let Ok((Some(_), _)) = spec_group_by(toks, pos) {
        let st = choose|st: Seq<int>|
            #![trigger items_at(toks, expr_item(toks), spec_expr_list(toks, pos + 2)->Ok_0.0, st, spec_expr_list(toks, pos + 2)->Ok_0.1)]
            st.len() > 0 && st[0] == pos + 2 && items_at(
                toks,
                expr_item(toks),
                spec_expr_list(toks, pos + 2)->Ok_0.0,
                st,
                spec_expr_list(toks, pos + 2)->Ok_0.1,
            );
        assert(items_at(
            toks,
            expr_item(toks),
            spec_group_by(toks, pos)->Ok_0.0->Some_0.1,
            st,
            spec_group_by(toks, pos)->Ok_0.1,
        ));
    }
}

/// The direction of an `ORDER BY` item depends only on the token right
/// after its expression: `ASC` gives `Asc`, `DESC` gives `Desc`, each with
/// that token's span and consuming it; any other token gives `Unspecified`.
pub proof fn lemma_order_item_direction<'a>(toks: Seq<(Token<'a>, Span)>, pos: int)
    ensures
        spec_parse_expression(toks, pos, false) matches Ok((e, p)) ==> spec_order_item(toks, pos)
            == if is_keyword(tok_at(toks, p), Keyword::ASC) {
            Ok::<((ExprModel<'a>, OrderFlag), int), (ParseError<'a>, int)>(
                ((e, OrderFlag::Asc(span_at(toks, p))), p + 1),
            )
        } else if is_keyword(tok_at(toks, p), Keyword::DESC) {
            Ok(((e, OrderFlag::Desc(span_at(toks, p))), p + 1))
        } else {
            Ok(((e, OrderFlag::Unspecified), p))
        },
{
}

/// The `ORDER BY` list holds, in source order, the items that start after
/// `ORDER BY` and after each comma between them; each item is its
/// expression with the direction that [`lemma_order_item_direction`]
/// describes.
pub proof fn lemma_order_by_items<'a>(toks: Seq<(Token<'a>, Span)>, pos: int)
    ensures
        spec_order_by(toks, pos) matches Ok((Some(_), _)) ==> {
            &&& is_keyword(tok_at(toks, pos), Keyword::ORDER)
            &&& is_keyword(tok_at(toks, pos + 1), Keyword::BY)
            &&& exists|starts: Seq<int>|
                #![trigger items_at(toks, order_item(toks), spec_order_by(toks, pos)->Ok_0.0->Some_0.1, starts, spec_order_by(toks, pos)->Ok_0.1)]
                starts[0] == pos + 2 && items_at(
                    toks,
                    order_item(toks),
                    spec_order_by(toks, pos)->Ok_0.0->Some_0.1,
                    starts,
                    spec_order_by(toks, pos)->Ok_0.1,
                )
        },
{
    lemma_comma_list_items(toks, pos + 2, order_item(toks));
    if let Ok((Some(_), _)) = spec_order_by(toks, pos) {
        let st = choose|st: Seq<int>|
            #![trigger items_at(toks, order_item(toks), spec_order_list(toks, pos + 2)->Ok_0.0, st, spec_order_list(toks, pos + 2)->Ok_0.1)]
            st.len() > 0 && st[0] == pos + 2 && items_at(
                toks,
                order_item(toks),
                spec_order_list(toks, pos + 2)->Ok_0.0,
                st,
                spec_order_list(toks, pos + 2)->Ok_0.1,
            );
        assert(items_at(
            toks,
            order_item(toks),
            spec_order_by(toks, pos)->Ok_0.0->Some_0.1,
            st,
            spec_order_by(toks, pos)->Ok_0.1,
        ));
    }
}

/// An expression followed by `AS` and a plain identifier gets that
/// identifier, with its span, as its alias, whatever the expression; `AS`
/// followed by anything else is an error; without `AS` there is no alias
/// and nothing after the expression is consumed.
pub proof fn lemma_select_expr_alias<'a>(toks: Seq<(Token<'a>, Span)>, pos: int)
    ensures
        spec_parse_expression(toks, pos, false) matches Ok((e, p)) ==> if is_keyword(
            tok_at(toks, p),
            Keyword::AS,
        ) {
            if is_plain_ident(tok_at(toks, p + 1)) {
                &&& spec_select_expr(toks, pos) is Ok
                &&& spec_select_expr(toks, pos)->Ok_0.0.expr == e
                &&& spec_select_expr(toks, pos)->Ok_0.1 == p + 2
                &&& spec_select_expr(toks, pos)->Ok_0.0.as_ is Some
                &&& ident_named(tok_at(toks, p + 1), spec_select_expr(toks, pos)->Ok_0.0.as_->Some_0.0)
                &&& spec_select_expr(toks, pos)->Ok_0.0.as_->Some_0.1 == span_at(toks, p + 1)
            } else {
                spec_select_expr(toks, pos) is Err
            }
        } else {
            spec_select_expr(toks, pos) == Ok::<(SelectExprModel<'a>, int), (ParseError<'a>, int)>(
                (SelectExprModel { expr: e, as_: None }, p),
            )
        },
{
}

/// A period at `at`, then the plain identifier `part` with its span.
pub open spec fn dotted_part<'a>(toks: Seq<(Token<'a>, Span)>, at: int, part: (&'a str, Span)) -> bool {
    &&& tok_at(toks, at) == Token::<'a>::Period
    &&& is_plain_ident(tok_at(toks, at + 1))
    &&& ident_named(tok_at(toks, at + 1), part.0)
    &&& part.1 == span_at(toks, at + 1)
}

/// The names `rest` fill the tokens from `pos` to `q`, each after a period.
pub open spec fn dotted_shape<'a>(toks: Seq<(Token<'a>, Span)>, pos: int, rest: Seq<(&'a str, Span)>, q: int) -> bool {
    &&& q == pos + 2 * rest.len()
    &&& forall|i: int| 0 <= i < rest.len() ==> dotted_part(toks, pos + 2 * i, #[trigger] rest[i])
}

proof fn lemma_dotted_shape<'a>(toks: Seq<(Token<'a>, Span)>, pos: int)
    ensures
        spec_dotted(toks, pos) matches Ok((rest, q)) ==> dotted_shape(toks, pos, rest, q),
    decreases toks.len() - pos,
{
    if let (Some(_), p) = spec_skip_token(toks, pos, Token::Period) {
        if let Ok((id, q)) = spec_consume_plain_identifier(toks, p) {
            lemma_dotted_shape(toks, q);
            if let Ok((rest2, e)) = spec_dotted(toks, q) {
                let rest = seq![id] + rest2;
                assert(dotted_shape(toks, q, rest2, e));
                assert forall|i: int| 0 <= i < rest.len() implies dotted_part(
                    toks,
                    pos + 2 * i,
                    #[trigger] rest[i],
                ) by {
                    if i > 0 {
                        assert(rest[i] == rest2[i - 1]);
                        assert(dotted_part(toks, q + 2 * (i - 1), rest2[i - 1]));
                        assert(pos + 2 * i == q + 2 * (i - 1));
                    } else {
                        assert(same_punct(tok_at(toks, pos), Token::Period));
                        assert(rest[0] == id);
                    }
                }
                assert(dotted_shape(toks, pos, rest, e));
            }
        }
    } else {
        assert(dotted_shape(toks, pos, Seq::empty(), pos));
    }
}

/// A table name `n0 . n1 ... . nk` gets those parts in order, each with its
/// span; after the name, `AS alias` gives the span of `AS` and the alias,
/// a bare plain identifier gives the alias alone, and anything else gives
/// no alias and is not consumed.
pub proof fn lemma_table_name_alias<'a>(toks: Seq<(Token<'a>, Span)>, pos: int)
    requires
        is_plain_ident(tok_at(toks, pos)),
    ensures
        spec_table_ref_inner(toks, pos) matches Ok((t, r)) ==> (t matches TableRefModel::Table {
            identifier,
            as_span,
            as_,
        } && {
            let n = identifier.len();
            let q = pos + 2 * n - 1;
            &&& n > 0
            &&& forall|i: int|
                0 <= i < n ==> ident_named(tok_at(toks, pos + 2 * i), (#[trigger] identifier[i]).0)
                    && is_plain_ident(tok_at(toks, pos + 2 * i)) && identifier[i].1 == span_at(
                    toks,
                    pos + 2 * i,
                ) && (i > 0 ==> tok_at(toks, pos + 2 * i - 1) == Token::<'a>::Period)
            &&& if is_keyword(tok_at(toks, q), Keyword::AS) {
                &&& as_span == Some(span_at(toks, q))
                &&& as_ is Some
                &&& ident_named(tok_at(toks, q + 1), as_->Some_0.0)
                &&& as_->Some_0.1 == span_at(toks, q + 1)
                &&& r == q + 2
            } else if is_plain_ident(tok_at(toks, q)) {
                &&& as_span is None
                &&& as_ is Some
                &&& ident_named(tok_at(toks, q), as_->Some_0.0)
                &&& as_->Some_0.1 == span_at(toks, q)
                &&& r == q + 1
            } else {
                &&& as_span is None
                &&& as_ is None
                &&& r == q
            }
        }),
{
    if let Ok((first, p)) = spec_consume_plain_identifier(toks, pos) {
        lemma_dotted_shape(toks, p);
        if let Ok((rest, q)) = spec_dotted(toks, p) {
            let identifier = seq![first] + rest;
            assert forall|i: int| 0 <= i < identifier.len() implies ident_named(
                tok_at(toks, pos + 2 * i),
                (#[trigger] identifier[i]).0,
            ) && is_plain_ident(tok_at(toks, pos + 2 * i)) && identifier[i].1 == span_at(
                toks,
                pos + 2 * i,
            ) && (i > 0 ==> tok_at(toks, pos + 2 * i - 1) == Token::<'a>::Period) by {
                if i > 0 {
                    assert(identifier[i] == rest[i - 1]);
                    assert(pos + 2 * i == p + 2 * (i - 1) + 1);
                }
            }
        }
    }
}

} // verus!
