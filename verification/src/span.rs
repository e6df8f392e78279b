//! Places in a source text.
use vstd::prelude::*;

verus! {

/// A range of a source text, from the offset `start` up to the offset `end`.
#[derive(Debug, Clone, Copy, PartialEq, Eq, Structural)]
pub struct Span {
    pub start: u32,
    pub end: u32,
}

impl Span {
    /// The range does not end before it starts.
    pub open spec fn wf(self) -> bool {
        self.start <= self.end
    }
}

} // verus!
