use sql_select::expression::{parse_expression, BinaryOperator, Expression, IdentifierPart, UnaryOperator};
use sql_select::keywords::Keyword;
use sql_select::parser::{Expected, ParseError, Parser};
use sql_select::select::{
    parse_select, parse_select_expr, parse_table_reference, parse_table_reference_inner,
    JoinSpecification, JoinType, OrderFlag, Select, SelectFlag, TableReference,
};
use sql_select::span::Span;
use sql_select::token::Token;

fn keyword(word: &str) -> Keyword {
    match word.to_ascii_uppercase().as_str() {
        "ALL" => Keyword::ALL,
        "AND" => Keyword::AND,
        "AS" => Keyword::AS,
        "ASC" => Keyword::ASC,
        "BY" => Keyword::BY,
        "CROSS" => Keyword::CROSS,
        "DESC" => Keyword::DESC,
        "DISTINCT" => Keyword::DISTINCT,
        "DISTINCTROW" => Keyword::DISTINCTROW,
        "FALSE" => Keyword::FALSE,
        "FROM" => Keyword::FROM,
        "GROUP" => Keyword::GROUP,
        "HAVING" => Keyword::HAVING,
        "HIGH_PRIORITY" => Keyword::HIGH_PRIORITY,
        "INNER" => Keyword::INNER,
        "JOIN" => Keyword::JOIN,
        "LEFT" => Keyword::LEFT,
        "LIMIT" => Keyword::LIMIT,
        "NATURAL" => Keyword::NATURAL,
        "NOT" => Keyword::NOT,
        "NULL" => Keyword::NULL,
        "OFFSET" => Keyword::OFFSET,
        "ON" => Keyword::ON,
        "OR" => Keyword::OR,
        "ORDER" => Keyword::ORDER,
        "OUTER" => Keyword::OUTER,
        "RIGHT" => Keyword::RIGHT,
        "SELECT" => Keyword::SELECT,
        "SQL_BIG_RESULT" => Keyword::SQL_BIG_RESULT,
        "SQL_BUFFER_RESULT" => Keyword::SQL_BUFFER_RESULT,
        "SQL_CALC_FOUND_ROWS" => Keyword::SQL_CALC_FOUND_ROWS,
        "SQL_NO_CACHE" => Keyword::SQL_NO_CACHE,
        "SQL_SMALL_RESULT" => Keyword::SQL_SMALL_RESULT,
        "STRAIGHT_JOIN" => Keyword::STRAIGHT_JOIN,
        "TRUE" => Keyword::TRUE,
        "USING" => Keyword::USING,
        "WHERE" => Keyword::WHERE,
        "WINDOW" => Keyword::WINDOW,
        _ => Keyword::NOT_A_KEYWORD,
    }
}

/// A small tokenizer for the tests.
fn lex(src: &str) -> Vec<(Token<'_>, Span)> {
    let bytes = src.as_bytes();
    let mut out = Vec::new();
    let mut i = 0;
    while i < bytes.len() {
        let c = bytes[i];
        let start = i;
        if c == b' ' {
            i += 1;
            continue;
        }
        let tok = if c.is_ascii_alphabetic() || c == b'_' {
            while i < bytes.len() && (bytes[i].is_ascii_alphanumeric() || bytes[i] == b'_') {
                i += 1;
            }
            let w = &src[start..i];
            Token::Ident(w, keyword(w))
        } else if c.is_ascii_digit() {
            while i < bytes.len() && bytes[i].is_ascii_digit() {
                i += 1;
            }
            Token::Integer(&src[start..i])
        } else if c == b'\'' {
            i += 1;
            while bytes[i] != b'\'' {
                i += 1;
            }
            i += 1;
            Token::SingleQuotedString(&src[start + 1..i - 1])
        } else {
            let two = if i + 1 < bytes.len() { &src[i..i + 2] } else { "" };
            let (t, n) = match two {
                "<>" => (Token::Neq, 2),
                "<=" => (Token::LtEq, 2),
                ">=" => (Token::GtEq, 2),
                _ => (
                    match c {
                        b',' => Token::Comma,
                        b'.' => Token::Period,
                        b'(' => Token::LParen,
                        b')' => Token::RParen,
                        b'*' => Token::Mul,
                        b'/' => Token::Div,
                        b'+' => Token::Plus,
                        b'-' => Token::Minus,
                        b'=' => Token::Eq,
                        b'<' => Token::Lt,
                        b'>' => Token::Gt,
                        _ => panic!("unexpected character"),
                    },
                    1,
                ),
            };
            i += n;
            t
        };
        out.push((tok, Span::new(start, i)));
    }
    out
}

fn sp(start: usize, end: usize) -> Span {
    Span::new(start, end)
}

fn select_of(src: &str) -> Result<Select<'_>, ParseError<'_>> {
    let mut p = Parser::new(lex(src));
    parse_select(&mut p)
}

fn names<'a>(id: &[(&'a str, Span)]) -> Vec<&'a str> {
    id.iter().map(|(n, _)| *n).collect()
}

fn table_name<'a>(t: &TableReference<'a>) -> Vec<&'a str> {
    match t {
        TableReference::Table { identifier, .. } => names(identifier),
        _ => panic!("not a table"),
    }
}

fn column<'a>(e: &Expression<'a>) -> Vec<&'a str> {
    match e {
        Expression::Identifier(parts) => parts
            .iter()
            .map(|p| match p {
                IdentifierPart::Name((n, _)) => *n,
                IdentifierPart::Star(_) => "*",
            })
            .collect(),
        _ => panic!("not an identifier"),
    }
}

#[test]
fn select_without_from() {
    let s = select_of("SELECT 1").unwrap();
    assert_eq!(s.select_span, sp(0, 6));
    assert!(s.flags.is_empty());
    assert_eq!(s.select_exprs.len(), 1);
    assert!(matches!(s.select_exprs[0].expr, Expression::Integer(("1", _))));
    assert!(s.from_span.is_none());
    assert!(s.table_references.is_none());
    assert!(s.where_.is_none() && s.group_by.is_none() && s.order_by.is_none() && s.limit.is_none());
}

#[test]
fn select_without_from_leaves_the_rest() {
    let mut p = Parser::new(lex("SELECT a WHERE b"));
    let s = parse_select(&mut p).unwrap();
    assert!(s.where_.is_none());
    assert_eq!(p.position(), 2);
    assert!(matches!(p.token(), Token::Ident(_, Keyword::WHERE)));
}

#[test]
fn select_flags_in_order() {
    let s = select_of("SELECT DISTINCT HIGH_PRIORITY SQL_NO_CACHE SQL_CALC_FOUND_ROWS a").unwrap();
    assert_eq!(s.flags.len(), 4);
    assert!(matches!(s.flags[0], SelectFlag::Distinct(x) if x == sp(7, 15)));
    assert!(matches!(s.flags[1], SelectFlag::HighPriority(_)));
    assert!(matches!(s.flags[2], SelectFlag::SqlNoCache(_)));
    assert!(matches!(s.flags[3], SelectFlag::SqlCalcFoundRows(_)));
    let s = select_of("SELECT ALL DISTINCTROW STRAIGHT_JOIN SQL_SMALL_RESULT SQL_BIG_RESULT SQL_BUFFER_RESULT a").unwrap();
    assert!(matches!(s.flags[0], SelectFlag::All(_)));
    assert!(matches!(s.flags[1], SelectFlag::DistinctRow(_)));
    assert!(matches!(s.flags[2], SelectFlag::StraightJoin(_)));
    assert!(matches!(s.flags[3], SelectFlag::SqlSmallResult(_)));
    assert!(matches!(s.flags[4], SelectFlag::SqlBigResult(_)));
    assert!(matches!(s.flags[5], SelectFlag::SqlBufferResult(_)));
}

#[test]
fn select_list_with_aliases() {
    let s = select_of("SELECT a AS x, t.b, *, t.*").unwrap();
    assert_eq!(s.select_exprs.len(), 4);
    assert_eq!(column(&s.select_exprs[0].expr), vec!["a"]);
    assert_eq!(s.select_exprs[0].as_, Some(("x", sp(12, 13))));
    assert_eq!(column(&s.select_exprs[1].expr), vec!["t", "b"]);
    assert!(s.select_exprs[1].as_.is_none());
    assert_eq!(column(&s.select_exprs[2].expr), vec!["*"]);
    assert_eq!(column(&s.select_exprs[3].expr), vec!["t", "*"]);
}

#[test]
fn select_alias_requires_plain_identifier() {
    let e = select_of("SELECT a AS FROM").unwrap_err();
    assert_eq!(e, ParseError { expected: Expected::Identifier, span: sp(12, 16) });
}

#[test]
fn select_expr_alone() {
    let mut p = Parser::new(lex("x + 1 AS y"));
    let e = parse_select_expr(&mut p).unwrap();
    assert!(matches!(e.expr, Expression::Binary { op: BinaryOperator::Add, .. }));
    assert_eq!(e.as_, Some(("y", sp(9, 10))));
    assert_eq!(p.position(), 5);
}

#[test]
fn missing_select_keyword() {
    let e = select_of("FROM t").unwrap_err();
    assert_eq!(e, ParseError { expected: Expected::Keyword(Keyword::SELECT), span: sp(0, 4) });
}

#[test]
fn empty_input_fails_at_end() {
    let e = select_of("").unwrap_err();
    assert_eq!(e, ParseError { expected: Expected::Keyword(Keyword::SELECT), span: sp(0, 0) });
    let e = select_of("SELECT").unwrap_err();
    assert_eq!(e, ParseError { expected: Expected::Expression, span: sp(6, 6) });
}

#[test]
fn from_tables_and_aliases() {
    let s = select_of("SELECT a FROM db.t1 AS x, t2 y, t3").unwrap();
    assert_eq!(s.from_span, Some(sp(9, 13)));
    let refs = s.table_references.unwrap();
    assert_eq!(refs.len(), 3);
    assert_eq!(table_name(&refs[0]), vec!["db", "t1"]);
    match &refs[0] {
        TableReference::Table { as_span, as_, .. } => {
            assert_eq!(*as_span, Some(sp(20, 22)));
            assert_eq!(*as_, Some(("x", sp(23, 24))));
        }
        _ => panic!(),
    }
    match &refs[1] {
        TableReference::Table { as_span, as_, .. } => {
            assert!(as_span.is_none());
            assert_eq!(*as_, Some(("y", sp(29, 30))));
        }
        _ => panic!(),
    }
    match &refs[2] {
        TableReference::Table { as_span, as_, .. } => {
            assert!(as_span.is_none() && as_.is_none());
        }
        _ => panic!(),
    }
}

#[test]
fn reserved_word_is_not_a_table() {
    let e = select_of("SELECT a FROM WHERE").unwrap_err();
    assert_eq!(e, ParseError { expected: Expected::Identifier, span: sp(14, 19) });
    let e = select_of("SELECT a FROM 1").unwrap_err();
    assert_eq!(e, ParseError { expected: Expected::SubqueryOrIdentifier, span: sp(14, 15) });
}

fn join_parts<'a>(t: TableReference<'a>) -> (JoinType, TableReference<'a>, TableReference<'a>, Option<JoinSpecification<'a>>) {
    match t {
        TableReference::Join { join, left, right, specification } => (join, *left, *right, specification),
        _ => panic!("not a join"),
    }
}

fn single_ref(src: &str) -> TableReference<'_> {
    let mut p = Parser::new(lex(src));
    let t = parse_table_reference(&mut p).unwrap();
    assert!(matches!(p.token(), Token::Eof));
    t
}

#[test]
fn join_kinds_and_spans() {
    let (j, _, _, _) = join_parts(single_ref("a INNER JOIN b"));
    assert!(matches!(j, JoinType::Inner(x) if x == sp(2, 12)));
    let (j, _, _, _) = join_parts(single_ref("a CROSS JOIN b"));
    assert!(matches!(j, JoinType::Cross(x) if x == sp(2, 12)));
    let (j, _, _, _) = join_parts(single_ref("a JOIN b"));
    assert!(matches!(j, JoinType::Straight(x) if x == sp(2, 6)));
    let (j, _, _, _) = join_parts(single_ref("a STRAIGHT_JOIN b"));
    assert!(matches!(j, JoinType::Straight(x) if x == sp(2, 15)));
    let (j, _, _, _) = join_parts(single_ref("a LEFT JOIN b"));
    assert!(matches!(j, JoinType::Left(x) if x == sp(2, 11)));
    let (j, _, _, _) = join_parts(single_ref("a LEFT OUTER JOIN b"));
    assert!(matches!(j, JoinType::LeftOuter(x) if x == sp(2, 17)));
    let (j, _, _, _) = join_parts(single_ref("a RIGHT JOIN b"));
    assert!(matches!(j, JoinType::Right(x) if x == sp(2, 12)));
    let (j, _, _, _) = join_parts(single_ref("a RIGHT OUTER JOIN b"));
    assert!(matches!(j, JoinType::RightOuter(x) if x == sp(2, 18)));
    let (j, _, _, _) = join_parts(single_ref("a NATURAL JOIN b"));
    assert!(matches!(j, JoinType::Natural(x) if x == sp(2, 14)));
    let (j, _, _, _) = join_parts(single_ref("a NATURAL INNER JOIN b"));
    assert!(matches!(j, JoinType::NaturalInner(x) if x == sp(2, 20)));
    // After NATURAL LEFT/RIGHT the span starts at LEFT/RIGHT.
    let (j, _, _, _) = join_parts(single_ref("a NATURAL LEFT JOIN b"));
    assert!(matches!(j, JoinType::NaturalLeft(x) if x == sp(10, 19)));
    let (j, _, _, _) = join_parts(single_ref("a NATURAL LEFT OUTER JOIN b"));
    assert!(matches!(j, JoinType::NaturalLeftOuter(x) if x == sp(10, 25)));
    let (j, _, _, _) = join_parts(single_ref("a NATURAL RIGHT JOIN b"));
    assert!(matches!(j, JoinType::NaturalRight(x) if x == sp(10, 20)));
    let (j, _, _, _) = join_parts(single_ref("a NATURAL RIGHT OUTER JOIN b"));
    assert!(matches!(j, JoinType::NaturalRightOuter(x) if x == sp(10, 26)));
}

#[test]
fn join_errors() {
    let mut p = Parser::new(lex("a NATURAL OUTER JOIN b"));
    let e = parse_table_reference(&mut p).unwrap_err();
    assert_eq!(e, ParseError { expected: Expected::JoinKind, span: sp(10, 15) });
    let mut p = Parser::new(lex("a INNER b"));
    let e = parse_table_reference(&mut p).unwrap_err();
    assert_eq!(e, ParseError { expected: Expected::Keyword(Keyword::JOIN), span: sp(8, 9) });
    let mut p = Parser::new(lex("a LEFT OUTER b"));
    let e = parse_table_reference(&mut p).unwrap_err();
    assert_eq!(e, ParseError { expected: Expected::Keyword(Keyword::JOIN), span: sp(13, 14) });
}

#[test]
fn join_specifications() {
    let (_, l, r, spec) = join_parts(single_ref("a JOIN b ON a.x = b.y"));
    assert_eq!(table_name(&l), vec!["a"]);
    assert_eq!(table_name(&r), vec!["b"]);
    match spec {
        Some(JoinSpecification::On(Expression::Binary { op: BinaryOperator::Equal, .. }, on)) => {
            assert_eq!(on, sp(9, 11))
        }
        _ => panic!(),
    }
    // USING takes a bare column list.
    let mut p = Parser::new(lex("a JOIN b USING (x)"));
    let e = parse_table_reference(&mut p).unwrap_err();
    assert_eq!(e, ParseError { expected: Expected::Identifier, span: sp(15, 16) });
    let mut p = Parser::new(lex("a JOIN b USING x, y"));
    let (_, _, _, spec) = join_parts(parse_table_reference(&mut p).unwrap());
    match spec {
        Some(JoinSpecification::Using(cols, using)) => {
            assert_eq!(names(&cols), vec!["x", "y"]);
            assert_eq!(using, sp(9, 14));
        }
        _ => panic!(),
    }
}

#[test]
fn joins_associate_to_the_left() {
    let (_, l, r, _) = join_parts(single_ref("a JOIN b JOIN c"));
    assert_eq!(table_name(&r), vec!["c"]);
    let (_, ll, lr, _) = join_parts(l);
    assert_eq!(table_name(&ll), vec!["a"]);
    assert_eq!(table_name(&lr), vec!["b"]);
}

#[test]
fn parenthesised_table_reference() {
    let (_, l, r, _) = join_parts(single_ref("a JOIN (b JOIN c)"));
    assert_eq!(table_name(&l), vec!["a"]);
    let (_, rl, rr, _) = join_parts(r);
    assert_eq!(table_name(&rl), vec!["b"]);
    assert_eq!(table_name(&rr), vec!["c"]);
    let mut p = Parser::new(lex("(a JOIN b"));
    let e = parse_table_reference(&mut p).unwrap_err();
    assert_eq!(e, ParseError { expected: Expected::Token(Token::RParen), span: sp(9, 9) });
}

#[test]
fn subquery_in_from() {
    // A subquery stands bare in the table list, followed by its alias.
    let s = select_of("SELECT * FROM SELECT a q").unwrap();
    let refs = s.table_references.unwrap();
    match &refs[0] {
        TableReference::Query { select, as_span, as_ } => {
            assert!(as_span.is_none());
            assert_eq!(*as_, ("q", sp(23, 24)));
            assert_eq!(column(&select.select_exprs[0].expr), vec!["a"]);
            assert!(select.table_references.is_none());
        }
        _ => panic!(),
    }
    let mut p = Parser::new(lex("SELECT a FROM t x"));
    let e = parse_table_reference_inner(&mut p).unwrap_err();
    assert_eq!(e, ParseError { expected: Expected::Identifier, span: sp(17, 17) });
    // The alias goes to the inner table, and the subquery lacks one.
    let mut p = Parser::new(lex("SELECT a FROM t AS x"));
    let e = parse_table_reference_inner(&mut p).unwrap_err();
    assert_eq!(e, ParseError { expected: Expected::Identifier, span: sp(20, 20) });
    let mut p = Parser::new(lex("SELECT 1 AS y AS x"));
    match parse_table_reference_inner(&mut p).unwrap() {
        TableReference::Query { as_span, as_, .. } => {
            assert_eq!(as_span, Some(sp(14, 16)));
            assert_eq!(as_, ("x", sp(17, 18)));
        }
        _ => panic!(),
    }
    // A parenthesised subquery is read as a parenthesised table reference,
    // which needs the alias inside the parentheses.
    let e = select_of("SELECT * FROM (SELECT a FROM t) AS q").unwrap_err();
    assert_eq!(e, ParseError { expected: Expected::Identifier, span: sp(30, 31) });
    let s = select_of("SELECT * FROM (SELECT a q)").unwrap();
    assert!(matches!(s.table_references.unwrap()[0], TableReference::Query { .. }));
}

#[test]
fn where_group_having_window_order_limit() {
    let s = select_of(
        "SELECT a FROM t WHERE a > 1 GROUP BY a, b HAVING WINDOW ORDER BY a DESC, b ASC, c LIMIT 5",
    )
    .unwrap();
    let (w, wspan) = s.where_.unwrap();
    assert_eq!(wspan, sp(16, 21));
    assert!(matches!(w, Expression::Binary { op: BinaryOperator::Greater, .. }));
    let (gspan, groups) = s.group_by.unwrap();
    assert_eq!(gspan, sp(28, 36));
    assert_eq!(groups.len(), 2);
    assert_eq!(s.having_span, Some(sp(42, 48)));
    assert_eq!(s.window_span, Some(sp(49, 55)));
    let (ospan, order) = s.order_by.unwrap();
    assert_eq!(ospan, sp(56, 64));
    assert_eq!(order.len(), 3);
    assert!(matches!(order[0].1, OrderFlag::Desc(x) if x == sp(67, 71)));
    assert!(matches!(order[1].1, OrderFlag::Asc(_)));
    assert!(matches!(order[2].1, OrderFlag::Unspecified));
    let (lspan, offset, count) = s.limit.unwrap();
    assert_eq!(lspan, sp(82, 87));
    assert!(offset.is_none());
    assert!(matches!(count, Expression::Integer(("5", _))));
}

#[test]
fn limit_forms() {
    let s = select_of("SELECT a FROM t LIMIT 10, 20").unwrap();
    let (_, offset, count) = s.limit.unwrap();
    assert!(matches!(offset, Some(Expression::Integer(("10", _)))));
    assert!(matches!(count, Expression::Integer(("20", _))));
    let s = select_of("SELECT a FROM t LIMIT 10 OFFSET 20").unwrap();
    let (_, offset, count) = s.limit.unwrap();
    assert!(matches!(offset, Some(Expression::Integer(("20", _)))));
    assert!(matches!(count, Expression::Integer(("10", _))));
    // The limit is a single operand: the `+` is left over.
    let mut p = Parser::new(lex("SELECT a FROM t LIMIT 1 + 2"));
    let s = parse_select(&mut p).unwrap();
    assert!(matches!(s.limit.unwrap().2, Expression::Integer(("1", _))));
    assert!(matches!(p.token(), Token::Plus));
}

#[test]
fn group_and_order_need_by() {
    let e = select_of("SELECT a FROM t GROUP a").unwrap_err();
    assert_eq!(e, ParseError { expected: Expected::Keyword(Keyword::BY), span: sp(22, 23) });
    let e = select_of("SELECT a FROM t ORDER a").unwrap_err();
    assert_eq!(e, ParseError { expected: Expected::Keyword(Keyword::BY), span: sp(22, 23) });
}

#[test]
fn trailing_comma_is_an_error() {
    let e = select_of("SELECT a, FROM t").unwrap_err();
    assert_eq!(e, ParseError { expected: Expected::Expression, span: sp(10, 14) });
    let e = select_of("SELECT a FROM t,").unwrap_err();
    assert_eq!(e, ParseError { expected: Expected::SubqueryOrIdentifier, span: sp(16, 16) });
}

fn expr_of(src: &str) -> Expression<'_> {
    let mut p = Parser::new(lex(src));
    let e = parse_expression(&mut p, false).unwrap();
    assert!(matches!(p.token(), Token::Eof));
    e
}

#[test]
fn expression_precedence() {
    match expr_of("a OR b AND c = 1 + 2 * 3") {
        Expression::Binary { op: BinaryOperator::Or, lhs, rhs, op_span } => {
            assert_eq!(op_span, sp(2, 4));
            assert_eq!(column(&lhs), vec!["a"]);
            match *rhs {
                Expression::Binary { op: BinaryOperator::And, rhs, .. } => match *rhs {
                    Expression::Binary { op: BinaryOperator::Equal, rhs, .. } => match *rhs {
                        Expression::Binary { op: BinaryOperator::Add, rhs, .. } => {
                            assert!(matches!(*rhs, Expression::Binary { op: BinaryOperator::Multiply, .. }))
                        }
                        _ => panic!(),
                    },
                    _ => panic!(),
                },
                _ => panic!(),
            }
        }
        _ => panic!(),
    }
}

#[test]
fn binary_operators_associate_to_the_left() {
    match expr_of("1 - 2 - 3") {
        Expression::Binary { op: BinaryOperator::Subtract, lhs, rhs, .. } => {
            assert!(matches!(*rhs, Expression::Integer(("3", _))));
            assert!(matches!(*lhs, Expression::Binary { op: BinaryOperator::Subtract, .. }));
        }
        _ => panic!(),
    }
}

#[test]
fn parentheses_and_unary_operators() {
    match expr_of("(1 + 2) * -3") {
        Expression::Binary { op: BinaryOperator::Multiply, lhs, rhs, .. } => {
            assert!(matches!(*lhs, Expression::Binary { op: BinaryOperator::Add, .. }));
            assert!(matches!(*rhs, Expression::Unary { op: UnaryOperator::Minus, .. }));
        }
        _ => panic!(),
    }
    assert!(matches!(expr_of("NOT TRUE"), Expression::Unary { op: UnaryOperator::Not, .. }));
    assert!(matches!(expr_of("NULL"), Expression::Null(_)));
    assert!(matches!(expr_of("FALSE"), Expression::Bool(false, _)));
    assert!(matches!(expr_of("'abc'"), Expression::String(("abc", _))));
    let ops = [("<>", BinaryOperator::NotEqual), ("<", BinaryOperator::Less), ("<=", BinaryOperator::LessEqual), (">=", BinaryOperator::GreaterEqual), ("/", BinaryOperator::Divide)];
    for (op, want) in ops {
        let src = format!("a {} b", op);
        match expr_of(&src) {
            Expression::Binary { op, .. } => assert_eq!(op, want),
            _ => panic!(),
        }
    }
}

#[test]
fn expression_errors() {
    let mut p = Parser::new(lex("(1 + 2"));
    let e = parse_expression(&mut p, false).unwrap_err();
    assert_eq!(e, ParseError { expected: Expected::Token(Token::RParen), span: sp(6, 6) });
    let mut p = Parser::new(lex("a."));
    let e = parse_expression(&mut p, false).unwrap_err();
    assert_eq!(e, ParseError { expected: Expected::Identifier, span: sp(2, 2) });
    let mut p = Parser::new(lex("FROM"));
    let e = parse_expression(&mut p, false).unwrap_err();
    assert_eq!(e, ParseError { expected: Expected::Expression, span: sp(0, 4) });
    let mut p = Parser::new(lex("1 +"));
    let e = parse_expression(&mut p, false).unwrap_err();
    assert_eq!(e, ParseError { expected: Expected::Expression, span: sp(3, 3) });
}

#[test]
fn inner_expression_is_one_operand() {
    let mut p = Parser::new(lex("1 + 2"));
    let e = parse_expression(&mut p, true).unwrap();
    assert!(matches!(e, Expression::Integer(("1", _))));
    assert_eq!(p.position(), 1);
}

#[test]
fn reserved_keywords() {
    assert!(Keyword::SELECT.reserved());
    assert!(Keyword::WINDOW.reserved());
    assert!(!Keyword::NOT_A_KEYWORD.reserved());
    assert!(!Keyword::OFFSET.reserved());
    assert!(!Keyword::SQL_NO_CACHE.reserved());
    assert!(!Keyword::SQL_BUFFER_RESULT.reserved());
}

#[test]
fn join_span_covers_both() {
    let a = sp(3, 5);
    let b = sp(1, 4);
    assert_eq!(a.join_span(&b), sp(1, 5));
    assert_eq!(b.join_span(&a), sp(1, 5));
    assert_eq!(a.join_span(&a), a);
    let c = sp(7, 9);
    assert_eq!(a.join_span(&b).join_span(&c), a.join_span(&b.join_span(&c)));
}

#[test]
fn parser_primitives() {
    let mut p = Parser::new(lex("a , SELECT"));
    assert_eq!(p.skip_token(Token::Period), None);
    assert_eq!(p.consume_plain_identifier(), Ok(("a", sp(0, 1))));
    assert_eq!(p.skip_token(Token::Comma), Some(sp(2, 3)));
    assert_eq!(p.skip_keyword(Keyword::FROM), None);
    assert_eq!(
        p.consume_plain_identifier(),
        Err(ParseError { expected: Expected::Identifier, span: sp(4, 10) })
    );
    assert_eq!(p.consume_keyword(Keyword::SELECT), Ok(sp(4, 10)));
    assert!(matches!(p.token(), Token::Eof));
    assert_eq!(p.span(), sp(10, 10));
    assert_eq!(p.consume(), sp(10, 10));
    assert_eq!(p.position(), 3);
    assert_eq!(
        p.consume_token(Token::RParen),
        Err(ParseError { expected: Expected::Token(Token::RParen), span: sp(10, 10) })
    );
}

#[test]
fn clone_keeps_the_tree() {
    let s = select_of("SELECT DISTINCT a AS x FROM t1 LEFT JOIN t2 USING c WHERE a = 'v' GROUP BY a ORDER BY b DESC LIMIT 1, 2").unwrap();
    let c = s.clone();
    assert_eq!(format!("{:?}", s), format!("{:?}", c));
    let e = expr_of("-(a.b + 2) * NOT x.*");
    assert_eq!(format!("{:?}", e), format!("{:?}", e.clone()));
}

#[test]
fn parse_reads_one_token_ahead() {
    // Tokens after the one that ends the statement do not matter.
    let a = format!("{:?}", select_of("SELECT a FROM t WHERE b = 1 ) x y"));
    let b = format!("{:?}", select_of("SELECT a FROM t WHERE b = 1 ) 7 , ("));
    assert_eq!(a, b);
    // The token right after does.
    let mut p = Parser::new(lex("SELECT a FROM t , u"));
    let s = parse_select(&mut p).unwrap();
    assert_eq!(s.table_references.unwrap().len(), 2);
}

#[test]
fn parse_consumes_at_least_one_token() {
    let mut p = Parser::new(lex("t ) x"));
    let before = p.position();
    parse_table_reference(&mut p).unwrap();
    assert!(p.position() > before);
    assert!(matches!(p.token(), Token::RParen));
    let mut p = Parser::new(lex("a b"));
    parse_select_expr(&mut p).unwrap();
    assert_eq!(p.position(), 1);
}
