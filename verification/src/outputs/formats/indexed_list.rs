use vstd::prelude::*;

use crate::errors::TriangulationError;
use crate::outputs::{List, ListBuilder, ListFormat};
use crate::outputs::formats::GenericList;
use std::marker::PhantomData;

verus! {

/// A [ListFormat] which outputs the triangle list by its indices
pub struct IndexedListFormat<Index, L: List<Index>> {
    list: L,
    _phantom: PhantomData<Index>,
}

impl<Index, L: List<Index>> IndexedListFormat<Index, L> {
    /// The list the triangles are stored in.
    pub closed spec fn list(&self) -> L {
        self.list
    }

    /// Create an indexed format which stores its output in the given [List]
    pub fn new(list: L) -> (r: Self)
        ensures
            r.list() == list,
    {
        IndexedListFormat { list, _phantom: PhantomData }
    }
}

impl<Index, L: List<Index>> ListFormat<Index> for IndexedListFormat<Index, L> {
    type Builder = IndexedListBuilder<Index, L>;

    fn initialize(self) -> (r: Result<Self::Builder, <Self::Builder as ListBuilder<Index>>::Error>)
        ensures
            r matches Ok(b) && b.state().triangles() == self.list().triangles()
                && b.state().initial_count() == self.list().triangles().len()
                && b.state().added() == Seq::<(Index, Index, Index)>::empty(),
    {
        Ok(IndexedListBuilder { list: GenericList::new(self.list) })
    }
}

/// The [ListBuilder] of [IndexedListFormat]
pub struct IndexedListBuilder<Index, L: List<Index>> {
    list: GenericList<L, Index>,
}

impl<Index, L: List<Index>> IndexedListBuilder<Index, L> {
    /// The triangles collected so far.
    pub closed spec fn state(&self) -> GenericList<L, Index> {
        self.list
    }
}

impl<Index, L: List<Index>> ListBuilder<Index> for IndexedListBuilder<Index, L> {
    type Output = L;
    type Error = std::convert::Infallible;

    open spec fn records_triangles() -> bool {
        true
    }

    closed spec fn received_triangles(&self) -> Seq<(Index, Index, Index)> {
        self.state().added()
    }

    fn add_triangle(&mut self, vi0: Index, vi1: Index, vi2: Index) -> (r: Result<(), Self::Error>)
        ensures
            r is Ok,
            final(self).state().triangles() == old(self).state().triangles().push((vi0, vi1, vi2)),
            final(self).state().initial_count() == old(self).state().initial_count(),
            final(self).state().added() == old(self).state().added().push((vi0, vi1, vi2)),
    {
        self.list.new_triangle(vi0, vi1, vi2);
        Ok(())
    }

    fn build(self) -> (r: Result<Self::Output, Self::Error>)
        ensures
            r matches Ok(l) && l.triangles() == self.state().triangles(),
    {
        Ok(self.list.build())
    }

    fn fail(self, _error: &TriangulationError<Self::Error>) {
        let _ = self.list.fail();
    }
}

} // verus!
