use vstd::prelude::*;

verus! {

/// A source location: start and end, each as line and column.
#[derive(Clone, Copy, PartialEq, Eq, Structural, Debug)]
pub struct Span {
    pub start_line: usize,
    pub start_col: usize,
    pub end_line: usize,
    pub end_col: usize,
}

impl Span {
    /// A span pointing nowhere, for synthesized terms.
    pub fn none() -> (r: Span)
        ensures
            r == (Span { start_line: 0, start_col: 0, end_line: 0, end_col: 0 }),
    {
        Span { start_line: 0, start_col: 0, end_line: 0, end_col: 0 }
    }
}

} // verus!
