use vstd::prelude::*;

verus! {

/// A half-open byte-offset range `[start, end)` in source text.
#[derive(Debug, Clone, Copy, PartialEq, Eq, Structural)]
pub struct Span {
    /// Inclusive start byte offset.
    pub start: u32,
    /// Exclusive end byte offset.
    pub end: u32,
}

/// The smaller of two offsets.
pub open spec fn min_u32(a: u32, b: u32) -> u32 {
    if a <= b { a } else { b }
}

/// The larger of two offsets.
pub open spec fn max_u32(a: u32, b: u32) -> u32 {
    if a >= b { a } else { b }
}

impl Span {
    /// Offsets in order, so that the span denotes a range.
    pub open spec fn wf(self) -> bool {
        self.start <= self.end
    }

    /// The offsets the span covers.
    pub open spec fn covers(self, i: int) -> bool {
        self.start <= i < self.end
    }

    pub fn new(start: u32, end: u32) -> (r: Span)
        ensures
            r.start == start,
            r.end == end,
    {
        Span { start, end }
    }

    /// A zero-length span at `offset` (for synthetic nodes).
    pub fn point(offset: u32) -> (r: Span)
        ensures
            r.start == offset,
            r.end == offset,
    {
        Span { start: offset, end: offset }
    }

    /// The smallest span that covers both spans.
    pub fn merge(self, other: Span) -> (r: Span)
        ensures
            r.start == min_u32(self.start, other.start),
            r.end == max_u32(self.end, other.end),
    {
        let start = if self.start <= other.start { self.start } else { other.start };
        let end = if self.end >= other.end { self.end } else { other.end };
        Span { start, end }
    }
}

/// A value annotated with its source span.
#[derive(Debug, Clone, PartialEq)]
pub struct Spanned<T> {
    pub node: T,
    pub span: Span,
}

impl<T> Spanned<T> {
    pub fn new(node: T, span: Span) -> (r: Spanned<T>)
        ensures
            r.node == node,
            r.span == span,
    {
        Spanned { node, span }
    }

    /// Transforms the node and keeps the span.
    pub fn map<U, F: FnOnce(T) -> U>(self, f: F) -> (r: Spanned<U>)
        requires
            f.requires((self.node,)),
        ensures
            f.ensures((self.node,), r.node),
            r.span == self.span,
    {
        let span = self.span;
        let node = f(self.node);
        Spanned { node, span }
    }
}

} // verus!
