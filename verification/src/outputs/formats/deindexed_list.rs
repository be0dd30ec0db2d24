use vstd::prelude::*;

use crate::errors::TriangulationError;
use crate::inputs::{Coords, PolygonList};
use crate::outputs::{List, ListBuilder, ListFormat};
use crate::outputs::formats::GenericList;
use crate::outputs::formats::{DeindexError, lookup_vertex};

verus! {

/// A [ListFormat] which outputs the triangle list by the actual vertex
/// positions (read from the polygon list it is given), not their indices
pub struct DeindexedListFormat<'p, L: List<Coords>> {
    list: L,
    polygon_list: &'p PolygonList,
}

impl<'p, L: List<Coords>> DeindexedListFormat<'p, L> {
    /// The list the triangles are stored in.
    pub closed spec fn list(&self) -> L {
        self.list
    }

    /// The polygon list the positions are read from.
    pub closed spec fn polygon_list(&self) -> &'p PolygonList {
        self.polygon_list
    }

    /// Create a deindexed format which stores its output in the given
    /// [List], reading positions from `polygon_list`
    pub fn new(list: L, polygon_list: &'p PolygonList) -> (r: Self)
        ensures
            r.list() == list,
            r.polygon_list() == polygon_list,
    {
        DeindexedListFormat { list, polygon_list }
    }
}

impl<'p, L: List<Coords>> ListFormat<usize> for DeindexedListFormat<'p, L> {
    type Builder = DeindexedListBuilder<'p, L>;

    fn initialize(self) -> (r: Result<Self::Builder, <Self::Builder as ListBuilder<usize>>::Error>)
        ensures
            r matches Ok(b) && b.state().triangles() == self.list().triangles()
                && b.state().initial_count() == self.list().triangles().len()
                && b.polygon_list() == self.polygon_list(),
    {
        let ghost none = Seq::<(usize, usize, usize)>::empty();
        Ok(
            DeindexedListBuilder {
                list: GenericList::new(self.list),
                polygon_list: self.polygon_list,
                log: Ghost(none),
            },
        )
    }
}

/// The [ListBuilder] of [DeindexedListFormat]
pub struct DeindexedListBuilder<'p, L: List<Coords>> {
    list: GenericList<L, Coords>,
    polygon_list: &'p PolygonList,
    log: Ghost<Seq<(usize, usize, usize)>>,
}

impl<'p, L: List<Coords>> DeindexedListBuilder<'p, L> {
    /// The triangles collected so far.
    pub closed spec fn state(&self) -> GenericList<L, Coords> {
        self.list
    }

    /// The polygon list the positions are read from.
    pub closed spec fn polygon_list(&self) -> &'p PolygonList {
        self.polygon_list
    }
}

impl<'p, L: List<Coords>> ListBuilder<usize> for DeindexedListBuilder<'p, L> {
    type Output = L;
    type Error = DeindexError;

    open spec fn records_triangles() -> bool {
        true
    }

    closed spec fn received_triangles(&self) -> Seq<(usize, usize, usize)> {
        self.log@
    }

    fn add_triangle(&mut self, vi0: usize, vi1: usize, vi2: usize) -> (r: Result<(), Self::Error>)
        ensures
            ({
                let vs = old(self).polygon_list().vertices();
                &&& r is Ok <==> (vi0 < vs.len() && vi1 < vs.len() && vi2 < vs.len())
                &&& final(self).polygon_list() == old(self).polygon_list()
                &&& final(self).state().initial_count() == old(self).state().initial_count()
                &&& r is Ok ==> final(self).state().triangles() == old(self).state().triangles().push((vs[vi0 as int], vs[vi1 as int], vs[vi2 as int]))
                &&& r is Err ==> final(self).state() == old(self).state()
            }),
    {
        let v0 = lookup_vertex(self.polygon_list, vi0)?;
        let v1 = lookup_vertex(self.polygon_list, vi1)?;
        let v2 = lookup_vertex(self.polygon_list, vi2)?;
        self.list.new_triangle(v0, v1, v2);
        let ghost l = self.log@.push((vi0, vi1, vi2));
        self.log = Ghost(l);
        Ok(())
    }

    fn build(self) -> (r: Result<Self::Output, Self::Error>)
        ensures
            r matches Ok(l) && l.triangles() == self.state().triangles(),
    {
        Ok(self.list.build())
    }

    fn fail(self, _error: &TriangulationError<Self::Error>) {
        let _ = self.list.fail();
    }
}

} // verus!
