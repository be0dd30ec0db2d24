use vstd::prelude::*;

verus! {

/// The order the vertices in a polygon are listed in
#[derive(Debug, PartialEq, Eq, Structural, Clone, Copy, Hash)]
pub enum TriangleWinding {
    /// Counter-clockwise ordering
    Counterclockwise,
    /// Clockwise ordering
    Clockwise,
}

impl TriangleWinding {
    /// The opposite winding, as a value for specifications.
    pub open spec fn spec_reversed(self) -> TriangleWinding {
        match self {
            TriangleWinding::Counterclockwise => TriangleWinding::Clockwise,
            TriangleWinding::Clockwise => TriangleWinding::Counterclockwise,
        }
    }

    /// Reverse the winding order
    pub fn reverse(self) -> (r: Self)
        ensures
            r == self.spec_reversed(),
    {
        match self {
            TriangleWinding::Counterclockwise => TriangleWinding::Clockwise,
            TriangleWinding::Clockwise => TriangleWinding::Counterclockwise,
        }
    }
}

/// Reversing a winding twice gives the winding back, and reversing always
/// changes it.
pub proof fn lemma_reverse_involution(w: TriangleWinding)
    ensures
        w.spec_reversed().spec_reversed() == w,
        w.spec_reversed() != w,
{
}

} // verus!
