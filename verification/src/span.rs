use vstd::prelude::*;

verus! {

/// A region of a source file, by byte offsets and 1-based line/column positions.
#[derive(Debug, Clone, Copy, PartialEq, Eq, Structural)]
pub struct SourceSpan {
    pub start_byte: usize,
    pub end_byte: usize,
    pub start_line: usize,
    pub start_col: usize,
    pub end_line: usize,
    pub end_col: usize,
}

/// The span that starts where `left` starts and ends where `right` ends.
pub open spec fn spec_merge_span(left: SourceSpan, right: SourceSpan) -> SourceSpan {
    SourceSpan {
        start_byte: left.start_byte,
        end_byte: right.end_byte,
        start_line: left.start_line,
        start_col: left.start_col,
        end_line: right.end_line,
        end_col: right.end_col,
    }
}

/// Joins two spans: the start of `left` with the end of `right`.
pub fn merge_span(left: SourceSpan, right: SourceSpan) -> (r: SourceSpan)
    ensures
        r == spec_merge_span(left, right),
{
    SourceSpan {
        start_byte: left.start_byte,
        end_byte: right.end_byte,
        start_line: left.start_line,
        start_col: left.start_col,
        end_line: right.end_line,
        end_col: right.end_col,
    }
}

/// Merging is associative: which pair is joined first does not matter.
pub proof fn lemma_merge_span_associative(a: SourceSpan, b: SourceSpan, c: SourceSpan)
    ensures
        spec_merge_span(spec_merge_span(a, b), c) == spec_merge_span(a, spec_merge_span(b, c)),
{
}

/// Merging a span with itself gives the span back.
pub proof fn lemma_merge_span_idempotent(a: SourceSpan)
    ensures
        spec_merge_span(a, a) == a,
{
}

/// The span reported when there is no current token: line 1, column 1, empty.
pub open spec fn spec_default_span() -> SourceSpan {
    SourceSpan { start_byte: 0, end_byte: 0, start_line: 1, start_col: 1, end_line: 1, end_col: 1 }
}

} // verus!
