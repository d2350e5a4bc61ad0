//! Byte ranges into the query text, and values tagged with them.

use vstd::prelude::*;

verus! {

/// A half-open byte range `[offset, offset + len)` of the query text.
#[derive(Clone, Copy, Debug, PartialEq, Eq, Hash, Structural)]
pub struct Span {
    pub offset: usize,
    pub len: usize,
}

impl Span {
    /// The position just past the last byte of the range.
    pub open spec fn end(self) -> int {
        self.offset + self.len
    }

    /// Whether every byte of `inner` is also a byte of `self`.
    pub open spec fn contains(self, inner: Span) -> bool {
        self.offset <= inner.offset && inner.end() <= self.end()
    }

    pub fn new(offset: usize, len: usize) -> (span: Span)
        ensures
            span == (Span { offset, len }),
    {
        Span { offset, len }
    }
}

impl From<(usize, usize)> for Span {
    /// The range of `len` bytes from `offset` on, for the pair `(offset, len)`.
    fn from(pair: (usize, usize)) -> (span: Span) {
        Span { offset: pair.0, len: pair.1 }
    }
}

impl vstd::std_specs::convert::FromSpecImpl<(usize, usize)> for Span {
    open spec fn obeys_from_spec() -> bool {
        true
    }

    open spec fn from_spec(pair: (usize, usize)) -> Span {
        Span { offset: pair.0, len: pair.1 }
    }
}

impl DeepView for Span {
    type V = Span;

    open spec fn deep_view(&self) -> Span {
        *self
    }
}

/// The range that starts where `left` starts and ends where `right` ends.
pub open spec fn joined(left: Span, right: Span) -> Span {
    Span { offset: left.offset, len: (right.end() - left.offset) as usize }
}

/// Whether `left` ends exactly where `right` starts.
pub open spec fn precedes(left: Span, right: Span) -> bool {
    left.end() == right.offset
}

pub fn span_precedes_span(left: Span, right: Span) -> (adjacent: bool)
    ensures
        adjacent == precedes(left, right),
{
    match left.offset.checked_add(left.len) {
        Some(end) => end == right.offset,
        None => false,
    }
}

pub fn join_spans(left: Span, right: Span) -> (span: Span)
    requires
        left.offset <= right.end() <= usize::MAX,
    ensures
        span == joined(left, right),
        span.offset == left.offset,
        span.end() == right.end(),
{
    let right_most = right.offset + right.len;
    Span { offset: left.offset, len: right_most - left.offset }
}

/// A value together with the range of the text it was read from.
#[derive(Debug, Clone, PartialEq, Eq, Hash)]
pub struct M<T> {
    pub span: Span,
    pub value: T,
}

impl<T> M<T> {
    pub fn new(value: T, span: Span) -> (m: Self)
        ensures
            m == (M { span, value }),
    {
        M { span, value }
    }

    pub fn new_range(value: T, left: Span, right: Span) -> (m: Self)
        requires
            left.offset <= right.end() <= usize::MAX,
        ensures
            m == (M { span: joined(left, right), value }),
    {
        M { span: join_spans(left, right), value }
    }
}

impl<T: DeepView> DeepView for M<T> {
    type V = M<T::V>;

    open spec fn deep_view(&self) -> M<T::V> {
        M { span: self.span, value: self.value.deep_view() }
    }
}

/// A heap-allocated value together with the range of the text it was read from.
#[derive(Debug, Clone, PartialEq, Eq, Hash)]
pub struct MBox<T> {
    pub span: Span,
    pub value: Box<T>,
}

impl<T> MBox<T> {
    pub fn new(value: T, span: Span) -> (m: Self)
        ensures
            m == (MBox { span, value: Box::new(value) }),
    {
        MBox { span, value: Box::new(value) }
    }

    pub fn new_range(value: T, left: Span, right: Span) -> (m: Self)
        requires
            left.offset <= right.end() <= usize::MAX,
        ensures
            m == (MBox { span: joined(left, right), value: Box::new(value) }),
    {
        MBox { span: join_spans(left, right), value: Box::new(value) }
    }
}

impl<T: DeepView> DeepView for MBox<T> {
    type V = MBox<T::V>;

    open spec fn deep_view(&self) -> MBox<T::V> {
        MBox { span: self.span, value: Box::new(self.value.deep_view()) }
    }
}

} // verus!
