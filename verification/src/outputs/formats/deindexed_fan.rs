use vstd::prelude::*;

use crate::errors::TriangulationError;
use crate::inputs::{Coords, PolygonList};
use crate::outputs::{Fan, FanBuilder, FanFormat, Fans};
use crate::outputs::formats::GenericFans;

verus! {

/// The error of the deindexed formats
#[derive(Debug, PartialEq, Eq, Structural, Clone, Copy, Hash)]
pub enum DeindexError {
    /// A vertex index does not name a vertex of the polygon list
    VertexNotFound,
}

/// The position of vertex `vi` of `polygon_list`; an error when there is no
/// such vertex.
pub fn lookup_vertex(polygon_list: &PolygonList, vi: usize) -> (r: Result<Coords, DeindexError>)
    ensures
        vi < polygon_list.vertices().len() ==> r == Ok::<Coords, DeindexError>(
            polygon_list.vertices()[vi as int],
        ),
        vi >= polygon_list.vertices().len() ==> r == Err::<Coords, DeindexError>(
            DeindexError::VertexNotFound,
        ),
{
    if vi < polygon_list.vertex_count() {
        Ok(polygon_list.get_vertex(vi))
    } else {
        Err(DeindexError::VertexNotFound)
    }
}

/// A [FanFormat] which outputs the triangle fans by their actual vertex
/// positions (read from the polygon list it is given), not their indices
pub struct DeindexedFanFormat<'p, FS: Fans> where FS::Fan: Fan<Coords> {
    fans: FS,
    polygon_list: &'p PolygonList,
}

impl<'p, FS: Fans> DeindexedFanFormat<'p, FS> where FS::Fan: Fan<Coords> {
    /// The collection the fans are stored in.
    pub closed spec fn fans(&self) -> FS {
        self.fans
    }

    /// The polygon list the positions are read from.
    pub closed spec fn polygon_list(&self) -> &'p PolygonList {
        self.polygon_list
    }

    /// Create a deindexed format which stores its output in the given
    /// [Fans], reading positions from `polygon_list`
    pub fn new(fans: FS, polygon_list: &'p PolygonList) -> (r: Self)
        ensures
            r.fans() == fans,
            r.polygon_list() == polygon_list,
    {
        DeindexedFanFormat { fans, polygon_list }
    }
}

impl<'p, FS: Fans> FanFormat<usize> for DeindexedFanFormat<'p, FS> where FS::Fan: Fan<Coords> {
    type Builder = DeindexedFanBuilder<'p, FS>;

    fn initialize(self, vi0: usize, vi1: usize, vi2: usize) -> (r: Result<
        Self::Builder,
        <Self::Builder as FanBuilder<usize>>::Error,
    >)
        ensures
            ({
                let vs = self.polygon_list().vertices();
                &&& r is Ok <==> (vi0 < vs.len() && vi1 < vs.len() && vi2 < vs.len())
                &&& r matches Ok(b) ==> {
                    &&& b.state().completed() == self.fans().fans_view()
                    &&& b.state().current_fan().fan_view() == seq![vs[vi0 as int], vs[vi1 as int], vs[vi2 as int]]
                    &&& b.state().initial_count() == self.fans().fans_view().len()
                    &&& b.polygon_list() == self.polygon_list()
                    &&& b.received_fans() == seq![seq![vi0, vi1, vi2]]
                }
            }),
    {
        let v0 = lookup_vertex(self.polygon_list, vi0)?;
        let v1 = lookup_vertex(self.polygon_list, vi1)?;
        let v2 = lookup_vertex(self.polygon_list, vi2)?;
        let ghost first = Seq::<Seq<usize>>::empty().push(seq![vi0, vi1, vi2]);
        Ok(DeindexedFanBuilder { fans: GenericFans::new(self.fans, v0, v1, v2), polygon_list: self.polygon_list, log: Ghost(first) })
    }
}

/// The [FanBuilder] of [DeindexedFanFormat]
pub struct DeindexedFanBuilder<'p, FS: Fans> where FS::Fan: Fan<Coords> {
    fans: GenericFans<FS, Coords>,
    polygon_list: &'p PolygonList,
    log: Ghost<Seq<Seq<usize>>>,
}

impl<'p, FS: Fans> DeindexedFanBuilder<'p, FS> where FS::Fan: Fan<Coords> {
    /// The fans collected so far.
    pub closed spec fn state(&self) -> GenericFans<FS, Coords> {
        self.fans
    }

    /// The polygon list the positions are read from.
    pub closed spec fn polygon_list(&self) -> &'p PolygonList {
        self.polygon_list
    }
}

impl<'p, FS: Fans> FanBuilder<usize> for DeindexedFanBuilder<'p, FS> where FS::Fan: Fan<Coords> {
    type Output = FS;
    type Error = DeindexError;

    open spec fn records_fans() -> bool {
        true
    }

    closed spec fn received_fans(&self) -> Seq<Seq<usize>> {
        self.log@
    }

    fn new_fan(&mut self, vi0: usize, vi1: usize, vi2: usize) -> (r: Result<(), Self::Error>)
        ensures
            ({
                let vs = old(self).polygon_list().vertices();
                &&& r is Ok <==> (vi0 < vs.len() && vi1 < vs.len() && vi2 < vs.len())
                &&& final(self).polygon_list() == old(self).polygon_list()
                &&& final(self).state().initial_count() == old(self).state().initial_count()
                &&& r is Ok ==> {
                    &&& final(self).state().completed() == old(self).state().completed().push(
                        old(self).state().current_fan(),
                    )
                    &&& final(self).state().current_fan().fan_view() == seq![vs[vi0 as int], vs[vi1 as int], vs[vi2 as int]]
                }
                &&& r is Err ==> final(self).state() == old(self).state()
            }),
    {
        let v0 = lookup_vertex(self.polygon_list, vi0)?;
        let v1 = lookup_vertex(self.polygon_list, vi1)?;
        let v2 = lookup_vertex(self.polygon_list, vi2)?;
        self.fans.new_fan(v0, v1, v2);
        let ghost l = self.log@.push(seq![vi0, vi1, vi2]);
        self.log = Ghost(l);
        Ok(())
    }

    fn extend_fan(&mut self, vi: usize) -> (r: Result<(), Self::Error>)
        ensures
            ({
                let vs = old(self).polygon_list().vertices();
                &&& r is Ok <==> vi < vs.len()
                &&& final(self).polygon_list() == old(self).polygon_list()
                &&& final(self).state().initial_count() == old(self).state().initial_count()
                &&& final(self).state().completed() == old(self).state().completed()
                &&& r is Ok ==> final(self).state().current_fan().fan_view() == old(self).state().current_fan().fan_view().push(vs[vi as int])
                &&& r is Err ==> final(self).state() == old(self).state()
            }),
    {
        let v = lookup_vertex(self.polygon_list, vi)?;
        self.fans.extend_fan(v);
        let ghost l = if self.log@.len() > 0 {
            self.log@.update(self.log@.len() - 1, self.log@.last().push(vi))
        } else {
            self.log@
        };
        self.log = Ghost(l);
        Ok(())
    }

    fn build(self) -> (r: Result<Self::Output, Self::Error>)
        ensures
            r matches Ok(fans) && fans.fans_view() == self.state().completed().push(
                self.state().current_fan(),
            ),
    {
        Ok(self.fans.build())
    }

    fn fail(self, _error: &TriangulationError<Self::Error>) {
        let _ = self.fans.fail();
    }
}

} // verus!
