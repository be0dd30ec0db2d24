use vstd::prelude::*;

use crate::idx::{NexusIdx, QueryIdx, SegmentIdx, TrapezoidIdx};

verus! {

/// A node of the query structure that locates points among the trapezoids.
#[derive(Clone, Copy)]
pub enum QueryNode {
    /// Go to the first child when the point is left of the segment (`X`)
    /// or not above the nexus (`Y`), else to the second child
    Branch(QueryIdx, QueryIdx, QueryNodeBranch),
    /// The point is in this trapezoid
    Sink(TrapezoidIdx),
}

/// The test made at a [QueryNode::Branch]
#[derive(Clone, Copy)]
pub enum QueryNodeBranch {
    /// Which side of a segment
    X(SegmentIdx),
    /// Which side of the horizontal line through a nexus
    Y(NexusIdx),
}

impl QueryNode {
    /// The query structure of the whole plane: a sink for trapezoid `ti`.
    pub fn root(ti: TrapezoidIdx) -> (r: Self)
        ensures
            r == QueryNode::Sink(ti),
    {
        QueryNode::Sink(ti)
    }

    /// Turns this node into a segment test with children `qi_left` and
    /// `qi_right`; returns the node it was (to be stored at `qi_left`) and a
    /// sink for `ti_right` (to be stored at `qi_right`).
    pub fn into_x(&mut self, qi_left: QueryIdx, qi_right: QueryIdx, si_x: SegmentIdx, ti_right: TrapezoidIdx) -> (r: (Self, Self))
        ensures
            *final(self) == QueryNode::Branch(qi_left, qi_right, QueryNodeBranch::X(si_x)),
            r.0 == *old(self),
            r.1 == QueryNode::Sink(ti_right),
    {
        (self.into_branch(qi_left, qi_right, QueryNodeBranch::X(si_x)), QueryNode::Sink(ti_right))
    }

    /// Turns this node into a segment test with children `qi_left` and
    /// `qi_right`, of which one already exists; returns the node it was.
    pub fn into_x_merge(&mut self, qi_left: QueryIdx, qi_right: QueryIdx, si_x: SegmentIdx) -> (r: Self)
        ensures
            *final(self) == QueryNode::Branch(qi_left, qi_right, QueryNodeBranch::X(si_x)),
            r == *old(self),
    {
        self.into_branch(qi_left, qi_right, QueryNodeBranch::X(si_x))
    }

    /// Turns this node into a nexus test with children `qi_left` (below)
    /// and `qi_right` (above); returns the node it was (to be stored at
    /// `qi_left`) and a sink for `ti_up` (to be stored at `qi_right`).
    pub fn into_y(&mut self, qi_left: QueryIdx, qi_right: QueryIdx, ni_y: NexusIdx, ti_up: TrapezoidIdx) -> (r: (Self, Self))
        ensures
            *final(self) == QueryNode::Branch(qi_left, qi_right, QueryNodeBranch::Y(ni_y)),
            r.0 == *old(self),
            r.1 == QueryNode::Sink(ti_up),
    {
        (self.into_branch(qi_left, qi_right, QueryNodeBranch::Y(ni_y)), QueryNode::Sink(ti_up))
    }

    fn into_branch(&mut self, qi_left: QueryIdx, qi_right: QueryIdx, branch: QueryNodeBranch) -> (r: Self)
        ensures
            *final(self) == QueryNode::Branch(qi_left, qi_right, branch),
            r == *old(self),
    {
        let mut new = QueryNode::Branch(qi_left, qi_right, branch);
        std::mem::swap(self, &mut new);
        new
    }
}

} // verus!
