use vstd::prelude::*;

use crate::errors::TriangulationError;
use crate::outputs::TriangleWinding;
use crate::outputs::formats::ReverseFanFormat;

verus! {

/// Describes the construction and layout of triangle fans over vertex
/// indices of type `Index`.
pub trait FanFormat<Index>: Sized {
    /// The type responsible for constructing triangle fans.
    type Builder: FanBuilder<Index>;

    /// Constructs a [FanFormat::Builder] with an initial triangle.
    fn initialize(self, vi0: Index, vi1: Index, vi2: Index) -> (r: Result<
        Self::Builder,
        <Self::Builder as FanBuilder<Index>>::Error,
    >)
        ensures
            r matches Ok(b) ==> (<Self::Builder as FanBuilder<Index>>::records_fans() ==> b.received_fans()
                == seq![seq![vi0, vi1, vi2]]);
}

/// Constructs a [FanFormat] with the opposite [TriangleWinding] of `format`
pub fn reverse_winding<Index, F: FanFormat<Index>>(format: F) -> (r: ReverseFanFormat<Index, F>)
    ensures
        r.inner() == format,
{
    ReverseFanFormat::new(format)
}

/// Performs the construction of triangle fans
pub trait FanBuilder<Index>: Sized {
    /// The triangle fans output type
    type Output;
    /// The error type when the builder fails
    type Error;

    /// Whether this builder keeps the record [FanBuilder::received_fans]
    /// that the contracts of its methods speak of.
    open spec fn records_fans() -> bool {
        false
    }

    /// The fans this builder has been handed, oldest first, each as its
    /// vertices (the root first); the fan being extended holds the vertices
    /// given so far.
    open spec fn received_fans(&self) -> Seq<Seq<Index>> {
        Seq::empty()
    }

    /// The winding direction this builder expects for triangles
    fn winding() -> (r: TriangleWinding)
        default_ensures
            r == TriangleWinding::Counterclockwise,
    {
        TriangleWinding::Counterclockwise
    }

    /// Starts a new fan with the given triangle
    fn new_fan(&mut self, vi0: Index, vi1: Index, vi2: Index) -> (r: Result<(), Self::Error>)
        ensures
            Self::records_fans() && r is Ok ==> final(self).received_fans() == old(self).received_fans().push(
                seq![vi0, vi1, vi2],
            );

    /// Extends the current fan with a triangle containing the given vertex
    fn extend_fan(&mut self, vi: Index) -> (r: Result<(), Self::Error>)
        ensures
            Self::records_fans() && r is Ok && old(self).received_fans().len() > 0 ==> final(self).received_fans() == old(self).received_fans().update(
                old(self).received_fans().len() - 1,
                old(self).received_fans().last().push(vi),
            );

    /// Called when triangulation has completed to get the resulting output
    fn build(self) -> Result<Self::Output, Self::Error>;

    /// Called when triangulation encounters an error.
    ///
    /// Any required cleanup (e.g. removing the partial triangulation added to an existing `Vec`) should be done here
    fn fail(self, error: &TriangulationError<Self::Error>);
}

} // verus!
