use vstd::prelude::*;
use crate::token::Span;

verus! {

/// A diagnostic of the checker or of reduction: its category, a message
/// naming the offended rule, and the source span it points at.
#[derive(Debug)]
pub struct Error {
    pub kind: String,
    pub rule: String,
    pub span: Span,
}

impl Error {
    /// Builds a diagnostic.
    pub fn new(kind: String, rule: String, span: Span) -> (r: Error)
        ensures
            r.kind@ == kind@,
            r.rule@ == rule@,
            r.span == span,
    {
        Error { kind, rule, span }
    }
}

} // verus!
