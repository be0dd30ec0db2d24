use vstd::prelude::*;

use crate::idx::{NexusIdx, QueryIdx, SegmentIdx};

verus! {

/// A trapezoid of the trapezoidation: bounded above and below by the
/// horizontal lines through two nexuses (or unbounded), left and right by
/// two segments (or unbounded), and found through one sink of the query
/// structure.
#[derive(Clone, Copy)]
pub struct Trapezoid {
    /// The nexus bounding it from above
    pub up: Option<NexusIdx>,
    /// The nexus bounding it from below
    pub down: Option<NexusIdx>,
    /// The segment bounding it on the left
    pub left: Option<SegmentIdx>,
    /// The segment bounding it on the right
    pub right: Option<SegmentIdx>,
    /// Its sink in the query structure
    pub sink: QueryIdx,
}

impl Trapezoid {
    /// The unbounded trapezoid covering the whole plane.
    pub fn all(sink: QueryIdx) -> (r: Self)
        ensures
            r.up is None,
            r.down is None,
            r.left is None,
            r.right is None,
            r.sink == sink,
    {
        Trapezoid { up: None, down: None, left: None, right: None, sink }
    }

    /// The nexus bounding it from above.
    pub fn up(&self) -> (r: Option<NexusIdx>)
        ensures
            r == self.up,
    {
        self.up
    }

    /// The nexus bounding it from below.
    pub fn down(&self) -> (r: Option<NexusIdx>)
        ensures
            r == self.down,
    {
        self.down
    }

    /// The segment bounding it on the left.
    pub fn left(&self) -> (r: Option<SegmentIdx>)
        ensures
            r == self.left,
    {
        self.left
    }

    /// The segment bounding it on the right.
    pub fn right(&self) -> (r: Option<SegmentIdx>)
        ensures
            r == self.right,
    {
        self.right
    }

    /// Its sink in the query structure.
    pub fn sink(&self) -> (r: QueryIdx)
        ensures
            r == self.sink,
    {
        self.sink
    }

    /// Points it at a new sink.
    pub fn set_sink(&mut self, sink: QueryIdx)
        ensures
            *final(self) == (Trapezoid { sink, ..*old(self) }),
    {
        self.sink = sink;
    }

    /// Bounds it below by `ni`.
    pub fn set_down(&mut self, ni: NexusIdx)
        ensures
            *final(self) == (Trapezoid { down: Some(ni), ..*old(self) }),
    {
        self.down = Some(ni);
    }

    /// Bounds it on the left by `si`.
    pub fn set_left(&mut self, si: SegmentIdx)
        ensures
            *final(self) == (Trapezoid { left: Some(si), ..*old(self) }),
    {
        self.left = Some(si);
    }

    /// Bounds it on the right by `si`.
    pub fn set_right(&mut self, si: SegmentIdx)
        ensures
            *final(self) == (Trapezoid { right: Some(si), ..*old(self) }),
    {
        self.right = Some(si);
    }

    /// Cuts it with the horizontal line through `ni`: it keeps the part
    /// below (with sink `qi_down`) and the part above (with sink `qi_up`)
    /// is returned.
    pub fn split_horizontal(&mut self, qi_down: QueryIdx, qi_up: QueryIdx, ni: NexusIdx) -> (r: Self)
        ensures
            *final(self) == (Trapezoid { up: Some(ni), sink: qi_down, ..*old(self) }),
            r == (Trapezoid { down: Some(ni), sink: qi_up, ..*old(self) }),
    {
        let upper = Trapezoid { down: Some(ni), sink: qi_up, ..*self };
        self.up = Some(ni);
        self.sink = qi_down;
        upper
    }

    /// Cuts it along segment `si`: it keeps the part on the left (with sink
    /// `qi_left`) and the part on the right (with sink `qi_right`) is
    /// returned.
    pub fn split_vertical(&mut self, qi_left: QueryIdx, qi_right: QueryIdx, si: SegmentIdx) -> (r: Self)
        ensures
            *final(self) == (Trapezoid { right: Some(si), sink: qi_left, ..*old(self) }),
            r == (Trapezoid { left: Some(si), sink: qi_right, ..*old(self) }),
    {
        let right_part = Trapezoid { left: Some(si), sink: qi_right, ..*self };
        self.right = Some(si);
        self.sink = qi_left;
        right_part
    }
}

} // verus!
