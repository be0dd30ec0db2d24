use vstd::prelude::*;

use crate::errors::TriangulationError;
use crate::outputs::TriangleWinding;

verus! {

/// Describes the construction and layout of a triangle list over vertex
/// indices of type `Index`.
pub trait ListFormat<Index>: Sized {
    /// The type responsible for constructing the triangle list.
    type Builder: ListBuilder<Index>;

    /// Constructs a [ListFormat::Builder].
    fn initialize(self) -> (r: Result<Self::Builder, <Self::Builder as ListBuilder<Index>>::Error>)
        ensures
            r matches Ok(b) ==> (<Self::Builder as ListBuilder<Index>>::records_triangles()
                ==> b.received_triangles() == Seq::<(Index, Index, Index)>::empty());
}

/// Performs the construction of a triangle list
pub trait ListBuilder<Index>: Sized {
    /// The triangle list output type
    type Output;
    /// The error type when the builder fails
    type Error;

    /// Whether this builder keeps the record
    /// [ListBuilder::received_triangles] that the contracts of its methods
    /// speak of.
    open spec fn records_triangles() -> bool {
        false
    }

    /// The triangles this builder has been handed, oldest first.
    open spec fn received_triangles(&self) -> Seq<(Index, Index, Index)> {
        Seq::empty()
    }

    /// The winding direction this builder expects for triangles
    fn winding() -> (r: TriangleWinding)
        default_ensures
            r == TriangleWinding::Counterclockwise,
    {
        TriangleWinding::Counterclockwise
    }

    /// Adds a triangle with the given indices
    fn add_triangle(&mut self, vi0: Index, vi1: Index, vi2: Index) -> (r: Result<(), Self::Error>)
        ensures
            Self::records_triangles() && r is Ok ==> final(self).received_triangles() == old(self).received_triangles().push((vi0, vi1, vi2));

    /// Called when triangulation has completed to get the resulting output
    fn build(self) -> Result<Self::Output, Self::Error>;

    /// Called when triangulation encounters an error.
    fn fail(self, error: &TriangulationError<Self::Error>);
}

} // verus!
