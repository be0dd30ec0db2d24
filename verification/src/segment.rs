use vstd::prelude::*;

use crate::idx::NexusIdx;
use crate::inputs::Coords;
use crate::math::{is_left_of_line, left_of_line};

verus! {

/// A polygon edge, stored with its lower (`min`) and upper (`max`) end in
/// sweep order.
#[derive(Clone, Copy)]
pub struct Segment {
    ni_min: NexusIdx,
    ni_max: NexusIdx,
    c_min: Coords,
    c_max: Coords,
}

impl Segment {
    /// The nexus at the lower end.
    pub closed spec fn spec_ni_min(&self) -> NexusIdx {
        self.ni_min
    }

    /// The nexus at the upper end.
    pub closed spec fn spec_ni_max(&self) -> NexusIdx {
        self.ni_max
    }

    /// The position of the lower end.
    pub closed spec fn spec_c_min(&self) -> Coords {
        self.c_min
    }

    /// The position of the upper end.
    pub closed spec fn spec_c_max(&self) -> Coords {
        self.c_max
    }

    /// The segment between the given nexuses at the given positions, as a
    /// value.
    pub closed spec fn spec_new(ni_min: NexusIdx, ni_max: NexusIdx, c_min: Coords, c_max: Coords) -> Self {
        Segment { ni_min, ni_max, c_min, c_max }
    }

    /// The segment between the given nexuses at the given positions.
    pub fn new(ni_min: NexusIdx, ni_max: NexusIdx, c_min: Coords, c_max: Coords) -> (r: Self)
        ensures
            r == Segment::spec_new(ni_min, ni_max, c_min, c_max),
            r.spec_ni_min() == ni_min,
            r.spec_ni_max() == ni_max,
            r.spec_c_min() == c_min,
            r.spec_c_max() == c_max,
    {
        Segment { ni_min, ni_max, c_min, c_max }
    }

    /// The nexus at the lower end.
    pub fn ni_min(&self) -> (r: NexusIdx)
        ensures
            r == self.spec_ni_min(),
    {
        self.ni_min
    }

    /// The nexus at the upper end.
    pub fn ni_max(&self) -> (r: NexusIdx)
        ensures
            r == self.spec_ni_max(),
    {
        self.ni_max
    }

    /// Whether `c` is on the left of the segment's line.
    pub fn is_on_left(&self, c: Coords) -> (r: bool)
        ensures
            r == left_of_line(self.spec_c_min(), self.spec_c_max(), c),
    {
        is_left_of_line(self.c_min, self.c_max, c)
    }
}

} // verus!
