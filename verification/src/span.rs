//! Source identity and span utilities.

use vstd::prelude::*;

verus! {

/// Logical source identifier used by diagnostics.
#[derive(Debug, Clone, Copy, PartialEq, Eq, Hash, Default)]
pub struct SourceId(pub u32);

/// Byte-oriented source span.
///
/// Spans are half-open: `[start, end)`.
#[derive(Debug, Clone, Copy, PartialEq, Eq, Hash, Default)]
pub struct Span {
    /// Source file/script id.
    pub source: SourceId,
    /// Start byte offset.
    pub start: usize,
    /// End byte offset.
    pub end: usize,
}

/// Smaller of two offsets.
pub open spec fn min_usize(a: usize, b: usize) -> usize {
    if a <= b { a } else { b }
}

/// Larger of two offsets.
pub open spec fn max_usize(a: usize, b: usize) -> usize {
    if a >= b { a } else { b }
}

impl Span {
    /// Creates a new span.
    pub fn new(source: SourceId, start: usize, end: usize) -> (span: Self)
        ensures
            span == (Span { source, start, end }),
    {
        Self { source, start, end }
    }

    /// Creates a zero-width span.
    pub fn point(source: SourceId, offset: usize) -> (span: Self)
        ensures
            span == (Span { source, start: offset, end: offset }),
    {
        Self { source, start: offset, end: offset }
    }

    /// Returns a span covering both inputs; the source id is taken from `self`.
    pub fn join(self, other: Self) -> (joined: Self)
        ensures
            joined.source == self.source,
            joined.start == min_usize(self.start, other.start),
            joined.end == max_usize(self.end, other.end),
    {
        Self {
            source: self.source,
            start: if self.start <= other.start { self.start } else { other.start },
            end: if self.end >= other.end { self.end } else { other.end },
        }
    }

    /// Returns true when the span has zero width.
    pub fn is_empty(self) -> (empty: bool)
        ensures
            empty == (self.start == self.end),
    {
        self.start == self.end
    }

    /// Returns the byte length (zero for an inverted span).
    pub fn len(self) -> (n: usize)
        ensures
            n == (if self.end >= self.start { (self.end - self.start) as usize } else { 0usize }),
    {
        if self.end >= self.start {
            self.end - self.start
        } else {
            0
        }
    }
}

/// A joined span covers both inputs, and joining is commutative on offsets and idempotent.
pub proof fn lemma_join_covers(a: Span, b: Span)
    ensures
        min_usize(a.start, b.start) <= a.start,
        min_usize(a.start, b.start) <= b.start,
        max_usize(a.end, b.end) >= a.end,
        max_usize(a.end, b.end) >= b.end,
        min_usize(a.start, b.start) == min_usize(b.start, a.start),
        max_usize(a.end, b.end) == max_usize(b.end, a.end),
        min_usize(a.start, a.start) == a.start,
        max_usize(a.end, a.end) == a.end,
{
}

} // verus!
