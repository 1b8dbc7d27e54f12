//! The token cursor shared by all parsing functions, with its primitive
//! operations.

use vstd::prelude::*;

use crate::keywords::{is_reserved, Keyword};
use crate::span::Span;
use crate::token::{is_keyword, matches_keyword, matches_punct, same_punct, Token};

verus! {

/// What the parser expected where it failed.
#[derive(Clone, Copy, Debug, PartialEq, Eq)]
pub enum Expected<'a> {
    /// This token (punctuation or operator).
    Token(Token<'a>),
    /// This keyword.
    Keyword(Keyword),
    /// A plain identifier: an identifier that is not a reserved keyword.
    Identifier,
    /// A parenthesised subquery, a subquery or a table name.
    SubqueryOrIdentifier,
    /// `INNER`, `LEFT`, `RIGHT` or `JOIN` after `NATURAL`.
    JoinKind,
    /// The start of an expression.
    Expression,
}

/// A parse failure: what was expected, and the span of the token found
/// instead.
#[derive(Clone, Copy, Debug, PartialEq, Eq)]
pub struct ParseError<'a> {
    pub expected: Expected<'a>,
    pub span: Span,
}

/// The result of a parsing specification: on success the value and the
/// position after it, on failure the error and the position where parsing
/// stopped.
pub type PRes<'a, T> = Result<(T, int), (ParseError<'a>, int)>;

/// The span of the end of input: empty, at the end of the last token.
pub open spec fn eof_span<'a>(toks: Seq<(Token<'a>, Span)>) -> Span {
    if toks.len() == 0 {
        Span { start: 0, end: 0 }
    } else {
        Span { start: toks.last().1.end, end: toks.last().1.end }
    }
}

/// The token at `pos`; past the last token, `Eof`.
pub open spec fn tok_at<'a>(toks: Seq<(Token<'a>, Span)>, pos: int) -> Token<'a> {
    if 0 <= pos < toks.len() {
        toks[pos].0
    } else {
        Token::Eof
    }
}

/// The span of the token at `pos`; past the last token, [`eof_span`].
pub open spec fn span_at<'a>(toks: Seq<(Token<'a>, Span)>, pos: int) -> Span {
    if 0 <= pos < toks.len() {
        toks[pos].1
    } else {
        eof_span(toks)
    }
}

/// The position after consuming the token at `pos` (the end of input is
/// never consumed).
pub open spec fn next_pos<'a>(toks: Seq<(Token<'a>, Span)>, pos: int) -> int {
    if 0 <= pos < toks.len() {
        pos + 1
    } else {
        pos
    }
}

/// The error for expecting `e` at `pos`.
pub open spec fn error_at<'a>(toks: Seq<(Token<'a>, Span)>, pos: int, e: Expected<'a>) -> ParseError<'a> {
    ParseError { expected: e, span: span_at(toks, pos) }
}

/// Whether `t` is a plain identifier: an identifier whose keyword, if any,
/// is not reserved.
pub open spec fn is_plain_ident(t: Token) -> bool {
    match t {
        Token::Ident(_, k) => !is_reserved(k),
        _ => false,
    }
}

/// Skipping the token `t` at `pos`: its span and the next position if it is
/// there, else nothing and `pos`.
pub open spec fn spec_skip_token<'a>(toks: Seq<(Token<'a>, Span)>, pos: int, t: Token<'a>) -> (
    Option<Span>,
    int,
) {
    if same_punct(tok_at(toks, pos), t) && 0 <= pos < toks.len() {
        (Some(span_at(toks, pos)), pos + 1)
    } else {
        (None, pos)
    }
}

/// Consuming the token `t` at `pos`, which must be there.
pub open spec fn spec_consume_token<'a>(toks: Seq<(Token<'a>, Span)>, pos: int, t: Token<'a>) -> PRes<
    'a,
    Span,
> {
    match spec_skip_token(toks, pos, t) {
        (Some(s), p) => Ok((s, p)),
        (None, p) => Err((error_at(toks, pos, Expected::Token(t)), p)),
    }
}

/// Skipping the keyword `k` at `pos`: its span and the next position if it
/// is there, else nothing and `pos`.
pub open spec fn spec_skip_keyword<'a>(toks: Seq<(Token<'a>, Span)>, pos: int, k: Keyword) -> (
    Option<Span>,
    int,
) {
    if is_keyword(tok_at(toks, pos), k) {
        (Some(span_at(toks, pos)), pos + 1)
    } else {
        (None, pos)
    }
}

/// Consuming the keyword `k` at `pos`, which must be there.
pub open spec fn spec_consume_keyword<'a>(toks: Seq<(Token<'a>, Span)>, pos: int, k: Keyword) -> PRes<
    'a,
    Span,
> {
    if is_keyword(tok_at(toks, pos), k) {
        Ok((span_at(toks, pos), pos + 1))
    } else {
        Err((error_at(toks, pos, Expected::Keyword(k)), pos))
    }
}

/// Consuming a plain identifier at `pos`: its text and span.
pub open spec fn spec_consume_plain_identifier<'a>(toks: Seq<(Token<'a>, Span)>, pos: int) -> PRes<
    'a,
    (&'a str, Span),
> {
    match tok_at(toks, pos) {
        Token::Ident(name, k) => if !is_reserved(k) {
            Ok(((name, span_at(toks, pos)), pos + 1))
        } else {
            Err((error_at(toks, pos, Expected::Identifier), pos))
        },
        _ => Err((error_at(toks, pos, Expected::Identifier), pos)),
    }
}

/// A cursor over a sequence of tokens, each with its span.
pub struct Parser<'a> {
    tokens: Vec<(Token<'a>, Span)>,
    pos: usize,
}

impl<'a> Parser<'a> {
    /// The tokens under the cursor.
    pub closed spec fn toks(&self) -> Seq<(Token<'a>, Span)> {
        self.tokens@
    }

    /// The position of the cursor.
    pub closed spec fn pos(&self) -> int {
        self.pos as int
    }

    /// The cursor is within the tokens or just past them.
    pub open spec fn wf(&self) -> bool {
        0 <= self.pos() <= self.toks().len()
    }

    /// A cursor at the start of `tokens`.
    pub fn new(tokens: Vec<(Token<'a>, Span)>) -> (r: Parser<'a>)
        ensures
            r.toks() == tokens@,
            r.pos() == 0,
            r.wf(),
    {
        Parser { tokens, pos: 0 }
    }

    /// The position of the cursor.
    pub fn position(&self) -> (r: usize)
        ensures
            r == self.pos(),
    {
        self.pos
    }

    /// The current token.
    pub fn token(&self) -> (r: Token<'a>)
        requires
            self.wf(),
        ensures
            r == tok_at(self.toks(), self.pos()),
    {
        if self.pos < self.tokens.len() {
            self.tokens[self.pos].0
        } else {
            Token::Eof
        }
    }

    /// The span of the current token.
    pub fn span(&self) -> (r: Span)
        requires
            self.wf(),
        ensures
            r == span_at(self.toks(), self.pos()),
    {
        if self.pos < self.tokens.len() {
            self.tokens[self.pos].1
        } else {
            let n = self.tokens.len();
            if n == 0 {
                Span { start: 0, end: 0 }
            } else {
                let e = self.tokens[n - 1].1.end;
                Span { start: e, end: e }
            }
        }
    }

    /// Consumes the current token, returning its span. At the end of input
    /// the cursor stays where it is.
    pub fn consume(&mut self) -> (r: Span)
        requires
            old(self).wf(),
        ensures
            final(self).wf(),
            final(self).toks() == old(self).toks(),
            r == span_at(old(self).toks(), old(self).pos()),
            final(self).pos() == next_pos(old(self).toks(), old(self).pos()),
    {
        let s = self.span();
        if self.pos < self.tokens.len() {
            self.pos = self.pos + 1;
        }
        s
    }

    /// Consumes the current token if it is the token `t`, returning its span.
    pub fn skip_token(&mut self, t: Token<'a>) -> (r: Option<Span>)
        requires
            old(self).wf(),
        ensures
            final(self).wf(),
            final(self).toks() == old(self).toks(),
            (r, final(self).pos()) == spec_skip_token(old(self).toks(), old(self).pos(), t),
    {
        let cur = self.token();
        if matches_punct(&cur, &t) && self.pos < self.tokens.len() {
            Some(self.consume())
        } else {
            None
        }
    }

    /// Consumes the token `t`, which must be the current token.
    pub fn consume_token(&mut self, t: Token<'a>) -> (r: Result<Span, ParseError<'a>>)
        requires
            old(self).wf(),
        ensures
            final(self).wf(),
            final(self).toks() == old(self).toks(),
            match spec_consume_token(old(self).toks(), old(self).pos(), t) {
                Ok((s, p)) => r == Ok::<Span, ParseError<'a>>(s) && final(self).pos() == p,
                Err((e, p)) => r == Err::<Span, ParseError<'a>>(e) && final(self).pos() == p,
            },
    {
        match self.skip_token(t) {
            Some(s) => Ok(s),
            None => self.expected_failure(Expected::Token(t)),
        }
    }

    /// Consumes the current token if it is the keyword `k`, returning its span.
    pub fn skip_keyword(&mut self, k: Keyword) -> (r: Option<Span>)
        requires
            old(self).wf(),
        ensures
            final(self).wf(),
            final(self).toks() == old(self).toks(),
            (r, final(self).pos()) == spec_skip_keyword(old(self).toks(), old(self).pos(), k),
    {
        let cur = self.token();
        if matches_keyword(&cur, k) {
            Some(self.consume())
        } else {
            None
        }
    }

    /// Consumes the keyword `k`, which must be the current token.
    pub fn consume_keyword(&mut self, k: Keyword) -> (r: Result<Span, ParseError<'a>>)
        requires
            old(self).wf(),
        ensures
            final(self).wf(),
            final(self).toks() == old(self).toks(),
            match spec_consume_keyword(old(self).toks(), old(self).pos(), k) {
                Ok((s, p)) => r == Ok::<Span, ParseError<'a>>(s) && final(self).pos() == p,
                Err((e, p)) => r == Err::<Span, ParseError<'a>>(e) && final(self).pos() == p,
            },
    {
        match self.skip_keyword(k) {
            Some(s) => Ok(s),
            None => self.expected_failure(Expected::Keyword(k)),
        }
    }

    /// Consumes a plain identifier, which must be the current token,
    /// returning its text and span.
    pub fn consume_plain_identifier(&mut self) -> (r: Result<(&'a str, Span), ParseError<'a>>)
        requires
            old(self).wf(),
        ensures
            final(self).wf(),
            final(self).toks() == old(self).toks(),
            match spec_consume_plain_identifier(old(self).toks(), old(self).pos()) {
                Ok((v, p)) => r == Ok::<(&'a str, Span), ParseError<'a>>(v) && final(self).pos()
                    == p,
                Err((e, p)) => r == Err::<(&'a str, Span), ParseError<'a>>(e) && final(self).pos()
                    == p,
            },
    {
        match self.token() {
            Token::Ident(name, k) => {
                if !k.reserved() {
                    let s = self.consume();
                    Ok((name, s))
                } else {
                    self.expected_failure(Expected::Identifier)
                }
            },
            _ => self.expected_failure(Expected::Identifier),
        }
    }

    /// Fails, reporting that `e` was expected at the current token.
    pub fn expected_failure<T>(&self, e: Expected<'a>) -> (r: Result<T, ParseError<'a>>)
        requires
            self.wf(),
        ensures
            r == Err::<T, ParseError<'a>>(error_at(self.toks(), self.pos(), e)),
    {
        Err(ParseError { expected: e, span: self.span() })
    }
}

/// `acc` followed by the sequence that `r` parsed, if it succeeded.
pub open spec fn prepend<'a, T>(acc: Seq<T>, r: PRes<'a, Seq<T>>) -> PRes<'a, Seq<T>> {
    match r {
        Ok((rest, p)) => Ok((acc + rest, p)),
        Err(x) => Err(x),
    }
}

/// A non-empty list of `item`s separated by commas, at `pos`.
pub open spec fn spec_comma_list<'a, T>(
    toks: Seq<(Token<'a>, Span)>,
    pos: int,
    item: spec_fn(int) -> PRes<'a, T>,
) -> PRes<'a, Seq<T>>
    decreases toks.len() - pos,
{
    match item(pos) {
        Ok((v, p)) => match spec_skip_token(toks, p, Token::Comma) {
            (Some(_), q) => if pos < q <= toks.len() {
                prepend(seq![v], spec_comma_list(toks, q, item))
            } else {
                Err((error_at(toks, p, Expected::Token(Token::Comma)), q))
            },
            (None, _) => Ok((seq![v], p)),
        },
        Err(x) => Err(x),
    }
}

/// Prepending nothing changes nothing.
pub proof fn lemma_prepend_empty<'a, T>(r: PRes<'a, Seq<T>>)
    ensures
        prepend(Seq::<T>::empty(), r) == r,
{
    match r {
        Ok((rest, p)) => {
            assert(Seq::<T>::empty() + rest =~= rest);
        },
        Err(_) => {},
    }
}

/// Prepending twice is prepending once the concatenation.
pub proof fn lemma_prepend_push<'a, T>(acc: Seq<T>, v: T, r: PRes<'a, Seq<T>>)
    ensures
        prepend(acc, prepend(seq![v], r)) == prepend(acc.push(v), r),
{
    match r {
        Ok((rest, p)) => {
            assert(acc + (seq![v] + rest) =~= acc.push(v) + rest);
        },
        Err(_) => {},
    }
}

/// An item parse at `q` that succeeded gave a value satisfying `pred`, took
/// at least one token and stayed within the tokens.
pub open spec fn item_ok<'a, T>(
    toks: Seq<(Token<'a>, Span)>,
    q: int,
    r: PRes<'a, T>,
    pred: spec_fn(T) -> bool,
) -> bool {
    r matches Ok((v, p)) ==> pred(v) && q < p <= toks.len()
}

/// A comma separated list of items that each satisfy `pred` is non-empty,
/// all its items satisfy `pred`, and it took at least one token.
pub proof fn lemma_comma_list_wf<'a, T>(
    toks: Seq<(Token<'a>, Span)>,
    pos: int,
    item: spec_fn(int) -> PRes<'a, T>,
    pred: spec_fn(T) -> bool,
)
    requires
        0 <= pos <= toks.len(),
        forall|q: int| 0 <= q <= toks.len() ==> #[trigger] item_ok(toks, q, item(q), pred),
    ensures
        spec_comma_list(toks, pos, item) matches Ok((vs, p)) ==> {
            &&& vs.len() > 0
            &&& forall|i: int| 0 <= i < vs.len() ==> pred(#[trigger] vs[i])
            &&& pos < p <= toks.len()
        },
    decreases toks.len() - pos,
{
    assert(item_ok(toks, pos, item(pos), pred));
    if let Ok((v, p)) = item(pos) {
        if let (Some(_), q) = spec_skip_token(toks, p, Token::Comma) {
            if pos < q <= toks.len() {
                lemma_comma_list_wf(toks, q, item, pred);
                if let Ok((rest, r)) = spec_comma_list(toks, q, item) {
                    let vs = seq![v] + rest;
                    assert forall|i: int| 0 <= i < vs.len() implies pred(#[trigger] vs[i]) by {
                        if i > 0 {
                            assert(vs[i] == rest[i - 1]);
                        }
                    }
                }
            }
        }
    }
}

/// Position `i` looks the same in both token sequences: same token, same
/// span, and past the end in both or in neither.
pub open spec fn same_at<'a>(t1: Seq<(Token<'a>, Span)>, t2: Seq<(Token<'a>, Span)>, i: int) -> bool {
    &&& tok_at(t1, i) == tok_at(t2, i)
    &&& span_at(t1, i) == span_at(t2, i)
    &&& (i < t1.len() <==> i < t2.len())
}

/// The two token sequences look the same from `lo` to `hi`, both included.
pub open spec fn agree_on<'a>(t1: Seq<(Token<'a>, Span)>, t2: Seq<(Token<'a>, Span)>, lo: int, hi: int) -> bool {
    forall|i: int| lo <= i <= hi ==> #[trigger] same_at(t1, t2, i)
}

/// On success, the parse `r1` of `t1` at `pos` ends at some `p` within the
/// tokens, and parsing `t2` at `pos` gives the same result `r2` whenever
/// `t2` looks the same as `t1` from `pos` to `p`.
pub open spec fn local<'a, T>(
    t1: Seq<(Token<'a>, Span)>,
    t2: Seq<(Token<'a>, Span)>,
    pos: int,
    r1: PRes<'a, T>,
    r2: PRes<'a, T>,
) -> bool {
    r1 matches Ok((_, p)) ==> pos <= p <= t1.len() && (agree_on(t1, t2, pos, p) && pos <= t2.len()
        ==> r2 == r1)
}

/// Agreement up to `hi` carries the length bound from `t1` to `t2`.
pub proof fn lemma_agree_len<'a>(t1: Seq<(Token<'a>, Span)>, t2: Seq<(Token<'a>, Span)>, lo: int, hi: int)
    requires
        agree_on(t1, t2, lo, hi),
        lo <= hi <= t1.len(),
        lo <= t2.len(),
    ensures
        hi <= t2.len(),
{
    if hi > lo {
        assert(same_at(t1, t2, hi - 1));
    }
}

/// Comma separated lists read no token past the one after them, provided
/// their items do not.
pub proof fn lemma_comma_list_local<'a, T>(
    t1: Seq<(Token<'a>, Span)>,
    t2: Seq<(Token<'a>, Span)>,
    pos: int,
    item1: spec_fn(int) -> PRes<'a, T>,
    item2: spec_fn(int) -> PRes<'a, T>,
)
    requires
        0 <= pos <= t1.len(),
        forall|q: int| 0 <= q <= t1.len() ==> #[trigger] local(t1, t2, q, item1(q), item2(q)),
    ensures
        local(t1, t2, pos, spec_comma_list(t1, pos, item1), spec_comma_list(t2, pos, item2)),
    decreases t1.len() - pos,
{
    assert(local(t1, t2, pos, item1(pos), item2(pos)));
    if let Ok((v, p)) = item1(pos) {
        if let (Some(_), q) = spec_skip_token(t1, p, Token::Comma) {
            if pos < q <= t1.len() {
                lemma_comma_list_local(t1, t2, q, item1, item2);
                if let Ok((rest, r)) = spec_comma_list(t1, q, item1) {
                    if agree_on(t1, t2, pos, r) && pos <= t2.len() {
                        assert(same_at(t1, t2, p));
                        lemma_agree_len(t1, t2, pos, q);
                    }
                }
            }
        } else {
            if agree_on(t1, t2, pos, p) && pos <= t2.len() {
                assert(same_at(t1, t2, p));
            }
        }
    }
}

/// The `i`-th of the values `vs` is what `item` parses at `starts[i]`; the
/// item after it starts right after a comma that follows it, and the last
/// one ends at `end`.
pub open spec fn item_at<'a, T>(
    toks: Seq<(Token<'a>, Span)>,
    item: spec_fn(int) -> PRes<'a, T>,
    vs: Seq<T>,
    starts: Seq<int>,
    end: int,
    i: int,
) -> bool {
    let r = item(starts[i]);
    &&& r is Ok
    &&& r->Ok_0.0 == vs[i]
    &&& (i + 1 < vs.len() ==> tok_at(toks, r->Ok_0.1) == Token::<'a>::Comma && starts[i + 1]
        == r->Ok_0.1 + 1)
    &&& (i + 1 == vs.len() ==> r->Ok_0.1 == end)
}

/// The values `vs` are, in order, the items that `item` parses from
/// `starts[0]` on, separated by commas, the last one ending at `end`.
pub open spec fn items_at<'a, T>(
    toks: Seq<(Token<'a>, Span)>,
    item: spec_fn(int) -> PRes<'a, T>,
    vs: Seq<T>,
    starts: Seq<int>,
    end: int,
) -> bool {
    &&& vs.len() > 0
    &&& starts.len() == vs.len()
    &&& forall|i: int| 0 <= i < vs.len() ==> #[trigger] item_at(toks, item, vs, starts, end, i)
}

/// A comma separated list holds, in source order, the items parsed at the
/// start of each of its elements.
pub proof fn lemma_comma_list_items<'a, T>(
    toks: Seq<(Token<'a>, Span)>,
    pos: int,
    item: spec_fn(int) -> PRes<'a, T>,
)
    ensures
        spec_comma_list(toks, pos, item) is Ok ==> exists|starts: Seq<int>|
            #![trigger items_at(toks, item, spec_comma_list(toks, pos, item)->Ok_0.0, starts, spec_comma_list(toks, pos, item)->Ok_0.1)]
            starts.len() > 0 && starts[0] == pos && items_at(
                toks,
                item,
                spec_comma_list(toks, pos, item)->Ok_0.0,
                starts,
                spec_comma_list(toks, pos, item)->Ok_0.1,
            ),
    decreases toks.len() - pos,
{
    if let Ok((v, p)) = item(pos) {
        match spec_skip_token(toks, p, Token::Comma) {
            (Some(_), q) => {
                if pos < q <= toks.len() {
                    lemma_comma_list_items(toks, q, item);
                    if let Ok((rest, e)) = spec_comma_list(toks, q, item) {
                        let rs = choose|rs: Seq<int>|
                            #![trigger items_at(toks, item, rest, rs, e)]
                            rs.len() > 0 && rs[0] == q && items_at(toks, item, rest, rs, e);
                        let vs = seq![v] + rest;
                        let starts = seq![pos] + rs;
                        assert forall|i: int| 0 <= i < vs.len() implies #[trigger] item_at(
                            toks,
                            item,
                            vs,
                            starts,
                            e,
                            i,
                        ) by {
                            if i > 0 {
                                assert(item_at(toks, item, rest, rs, e, i - 1));
                                assert(vs[i] == rest[i - 1]);
                                assert(starts[i] == rs[i - 1]);
                                if i + 1 < vs.len() {
                                    assert(starts[i + 1] == rs[i]);
                                }
                            } else {
                                assert(starts[1] == rs[0]);
                                assert(same_punct(tok_at(toks, p), Token::Comma));
                            }
                        }
                        assert(items_at(toks, item, vs, starts, e));
                        assert(spec_comma_list(toks, pos, item)->Ok_0 == (vs, e));
                        assert(starts.len() > 0 && starts[0] == pos);
                        assert(items_at(toks, item, spec_comma_list(toks, pos, item)->Ok_0.0, starts, spec_comma_list(toks, pos, item)->Ok_0.1));
                    }
                }
            },
            (None, _) => {
                let vs = seq![v];
                let starts = seq![pos];
                assert(item_at(toks, item, vs, starts, p, 0));
                assert(items_at(toks, item, vs, starts, p));
                assert(spec_comma_list(toks, pos, item)->Ok_0 == (vs, p));
                assert(items_at(toks, item, spec_comma_list(toks, pos, item)->Ok_0.0, starts, spec_comma_list(toks, pos, item)->Ok_0.1));
            },
        }
    }
}

} // verus!
