use vstd::prelude::*;

verus! {

/// A position in the source text: 1-based line and column, and the byte offset.
#[derive(Debug, Clone, Copy, Default)]
pub struct Span {
    pub line: usize,
    pub column: usize,
    pub offset: usize,
}

impl Span {
    pub fn new(line: usize, column: usize, offset: usize) -> (s: Self)
        ensures
            s.line == line,
            s.column == column,
            s.offset == offset,
    {
        Span { line, column, offset }
    }

    /// The span of something that was not written in the source.
    pub open spec fn spec_unknown() -> Span {
        Span { line: 0, column: 0, offset: 0 }
    }

    pub fn unknown() -> (s: Self)
        ensures
            s == Span::spec_unknown(),
    {
        Span { line: 0, column: 0, offset: 0 }
    }
}

} // verus!

verus! {

/// Two spans always compare equal, so that syntax trees which differ only in
/// where they were written compare equal.
impl PartialEq for Span {
    fn eq(&self, other: &Self) -> (r: bool) {
        true
    }
}

impl vstd::std_specs::cmp::PartialEqSpecImpl for Span {
    open spec fn obeys_eq_spec() -> bool {
        true
    }

    open spec fn eq_spec(&self, other: &Span) -> bool {
        true
    }
}

impl Eq for Span {}

/// Hashing ignores the position too, in agreement with `==`.
impl core::hash::Hash for Span {
    fn hash<H: core::hash::Hasher>(&self, state: &mut H) {
    }
}

} // verus!
