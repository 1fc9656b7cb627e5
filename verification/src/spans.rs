//! Byte ranges into a source text.

use vstd::prelude::*;

verus! {

/// Half-open byte range `[start, end)` into a source text.
#[derive(Clone, Copy, Debug, PartialEq, Eq, Structural)]
pub struct Span {
    pub start: usize,
    pub end: usize,
}

impl Span {
    /// A span never ends before it starts.
    pub open spec fn wf(self) -> bool {
        self.start <= self.end
    }

    /// The span lies inside a text of `len` bytes.
    pub open spec fn within(self, len: nat) -> bool {
        self.start <= self.end <= len
    }

    /// Every byte of `other` is a byte of `self`.
    pub open spec fn covers(self, other: Span) -> bool {
        self.start <= other.start && other.end <= self.end
    }

    /// The range from the smaller start to the larger end.
    pub open spec fn join(self, other: Span) -> Span {
        Span {
            start: if self.start <= other.start { self.start } else { other.start },
            end: if self.end >= other.end { self.end } else { other.end },
        }
    }

    /// The span from `start` up to `end`.
    pub fn new(start: usize, end: usize) -> (span: Span)
        requires
            start <= end,
        ensures
            span == (Span { start, end }),
    {
        Span { start, end }
    }

    /// Number of bytes in the span.
    pub fn len(self) -> (n: usize)
        requires
            self.wf(),
        ensures
            n == self.end - self.start,
    {
        self.end - self.start
    }

    /// Whether the span holds no byte.
    pub fn is_empty(self) -> (empty: bool)
        ensures
            empty == (self.start >= self.end),
    {
        self.start >= self.end
    }

    /// Span union: the smallest span that covers both operands.
    pub fn union(self, other: Span) -> (joined: Span)
        ensures
            joined == self.join(other),
    {
        Span {
            start: if self.start <= other.start { self.start } else { other.start },
            end: if self.end >= other.end { self.end } else { other.end },
        }
    }
}

/// The union of two spans covers both, keeps well-formedness, and is covered
/// by every span that covers both: it is the least such span.
pub proof fn lemma_join_is_least_cover(a: Span, b: Span, c: Span)
    requires
        a.wf(),
        b.wf(),
    ensures
        a.join(b).wf(),
        a.join(b).covers(a),
        a.join(b).covers(b),
        c.covers(a) && c.covers(b) ==> c.covers(a.join(b)),
        a.join(b) == b.join(a),
{
}

/// Joining a span that starts first with one that ends last gives the range
/// from the first start to the last end.
pub proof fn lemma_join_ordered(first: Span, last: Span)
    requires
        first.start <= last.start,
        first.end <= last.end,
    ensures
        first.join(last) == (Span { start: first.start, end: last.end }),
{
}

} // verus!
