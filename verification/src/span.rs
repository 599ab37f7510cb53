//! Character spans into the original source text, used for diagnostics.

use vstd::prelude::*;

verus! {

/// A contiguous region of the source text: a start offset and a length,
/// both counted in characters of the original source.
#[derive(Debug, Clone, Copy, PartialEq, Eq, Structural)]
pub struct Span {
    pub offset: usize,
    pub len: usize,
}

/// The exclusive end position of a span, clamped to the `usize` range.
pub open spec fn span_end(s: Span) -> int {
    if s.offset + s.len <= usize::MAX {
        s.offset + s.len
    } else {
        usize::MAX as int
    }
}

/// The merge of a value's span with the span of the operator applied to it:
/// it starts where the value starts and runs through the operator's end, so
/// a diagnostic can underline the whole expression.
pub open spec fn spec_merge(left: Span, op: Span) -> Span {
    let end = span_end(op);
    if end >= left.offset {
        Span { offset: left.offset, len: (end - left.offset) as usize }
    } else {
        Span { offset: left.offset, len: 0 }
    }
}

impl Span {
    pub fn new(offset: usize, len: usize) -> (r: Span)
        ensures
            r == (Span { offset, len }),
    {
        Span { offset, len }
    }

    /// Merge this span (the left operand's) with an operator's span.
    pub fn merge(&self, op: Span) -> (r: Span)
        ensures
            r == spec_merge(*self, op),
    {
        let end = if op.len <= usize::MAX - op.offset {
            op.offset + op.len
        } else {
            usize::MAX
        };
        if end >= self.offset {
            Span { offset: self.offset, len: end - self.offset }
        } else {
            Span { offset: self.offset, len: 0 }
        }
    }
}

} // verus!
