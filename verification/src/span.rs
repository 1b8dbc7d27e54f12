//! Source spans.

use vstd::prelude::*;

verus! {

/// A half-open range `start..end` of byte offsets into the source text.
#[derive(Clone, Copy, Debug, PartialEq, Eq)]
pub struct Span {
    pub start: usize,
    pub end: usize,
}

impl View for Span {
    type V = Span;

    open spec fn view(&self) -> Span {
        *self
    }
}

impl Span {
    /// The smallest span that covers both `self` and `other`.
    pub open spec fn joined(self, other: Span) -> Span {
        Span {
            start: if self.start <= other.start { self.start } else { other.start },
            end: if self.end >= other.end { self.end } else { other.end },
        }
    }

    /// Builds a span from its two ends.
    pub fn new(start: usize, end: usize) -> (r: Span)
        ensures
            r == (Span { start, end }),
    {
        Span { start, end }
    }

    /// Joins two spans into the smallest span that covers both.
    pub fn join_span(&self, other: &Span) -> (r: Span)
        ensures
            r == self.joined(*other),
    {
        let start = if self.start <= other.start { self.start } else { other.start };
        let end = if self.end >= other.end { self.end } else { other.end };
        Span { start, end }
    }
}

/// Joining spans does not depend on the order of its arguments.
pub proof fn lemma_join_commutative(a: Span, b: Span)
    ensures
        a.joined(b) == b.joined(a),
{
}

/// Joining spans is associative.
pub proof fn lemma_join_associative(a: Span, b: Span, c: Span)
    ensures
        a.joined(b).joined(c) == a.joined(b.joined(c)),
{
}

/// Joining a span with itself gives it back.
pub proof fn lemma_join_idempotent(a: Span)
    ensures
        a.joined(a) == a,
{
}

/// The joined span starts no later and ends no earlier than either argument.
pub proof fn lemma_join_covers(a: Span, b: Span)
    ensures
        a.joined(b).start <= a.start,
        a.joined(b).start <= b.start,
        a.joined(b).end >= a.end,
        a.joined(b).end >= b.end,
{
}

} // verus!
