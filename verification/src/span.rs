//! Byte ranges in a source file.

use vstd::prelude::*;

verus! {

/// A half-open byte range `start..end` of a source file.
#[derive(Debug, PartialEq, Eq, Structural, Copy, Clone, Hash, Default)]
pub struct Span {
    pub start: usize,
    pub end: usize,
}

impl Span {
    /// The span `start..end`.
    pub fn new(start: usize, end: usize) -> (s: Span)
        ensures
            s.start == start,
            s.end == end,
    {
        Span { start, end }
    }
}

/// Anything that covers a stretch of source text.
pub trait Spanned {
    /// The source range this value was parsed from.
    fn span(&self) -> Span;
}

} // verus!
