use vstd::prelude::*;

use crate::errors::TriangulationError;
use crate::outputs::{FanBuilder, FanFormat, ListBuilder, ListFormat, TriangleWinding};
use std::marker::PhantomData;

verus! {

/// A wrapper which adapts a [ListFormat] to work as a [FanFormat]: each fan
/// is delivered to the list as its individual triangles.
pub struct FanToListFormat<Index, LF: ListFormat<Index>>(LF, PhantomData<Index>);

impl<Index, LF: ListFormat<Index>> FanToListFormat<Index, LF> {
    /// The wrapped list format.
    pub closed spec fn inner(self) -> LF {
        self.0
    }

    /// Wraps `list_format`.
    pub fn new(list_format: LF) -> (r: Self)
        ensures
            r.inner() == list_format,
    {
        FanToListFormat(list_format, PhantomData)
    }
}

/// Converts a [ListFormat] into a [FanFormat], the format type required for triangulation.
pub fn into_fan_format<Index, LF: ListFormat<Index>>(list_format: LF) -> (r: FanToListFormat<Index, LF>)
    ensures
        r.inner() == list_format,
{
    FanToListFormat::new(list_format)
}

impl<Index: Copy, LF: ListFormat<Index>> FanFormat<Index> for FanToListFormat<Index, LF> {
    type Builder = FanToListBuilder<Index, LF::Builder>;

    fn initialize(self, vi0: Index, vi1: Index, vi2: Index) -> (r: Result<
        Self::Builder,
        <Self::Builder as FanBuilder<Index>>::Error,
    >)
        ensures
            r matches Ok(b) ==> b.root() == vi0 && b.last_rim() == vi2 && b.handed() == seq![(vi0, vi1, vi2)]
                && (LF::Builder::records_triangles() ==> b.list_builder().received_triangles() == b.handed()),
            exists|ri: Result<LF::Builder, <LF::Builder as ListBuilder<Index>>::Error>|
                #![trigger call_ensures(LF::initialize, (self.inner(),), ri)]
                call_ensures(LF::initialize, (self.inner(),), ri) && (ri matches Err(e) ==> r == Err::<
                    Self::Builder,
                    <Self::Builder as FanBuilder<Index>>::Error,
                >(e)),
    {
        let ghost inner = self.inner();
        let res = self.0.initialize();
        let ghost ri = res;
        assert(call_ensures(LF::initialize, (inner,), ri));
        let mut list_builder = match res {
            Ok(lb) => lb,
            Err(e) => {
                return Err(e);
            },
        };
        list_builder.add_triangle(vi0, vi1, vi2)?;
        assert(LF::Builder::records_triangles() ==> list_builder.received_triangles() =~= seq![(vi0, vi1, vi2)]);
        Ok(FanToListBuilder::new(list_builder, vi0, vi1, vi2))
    }
}

/// The [FanBuilder] of [FanToListFormat]: remembers the root and the last
/// rim vertex of the current fan, so that each new rim vertex completes one
/// triangle.
pub struct FanToListBuilder<Index, LB: ListBuilder<Index>> {
    list_builder: LB,
    vi0: Index,
    vi1: Index,
    handed: Ghost<Seq<(Index, Index, Index)>>,
    fans: Ghost<Seq<Seq<Index>>>,
}

impl<Index: Copy, LB: ListBuilder<Index>> FanToListBuilder<Index, LB> {
    /// The root of the current fan.
    pub closed spec fn root(&self) -> Index {
        self.vi0
    }

    /// The wrapped list builder.
    pub closed spec fn list_builder(&self) -> LB {
        self.list_builder
    }

    /// The most recent rim vertex of the current fan.
    pub closed spec fn last_rim(&self) -> Index {
        self.vi1
    }

    /// The triangles handed to the list builder, oldest first.
    pub closed spec fn handed(&self) -> Seq<(Index, Index, Index)> {
        self.handed@
    }

    fn new(list_builder: LB, vi0: Index, vi1: Index, vi2: Index) -> (r: Self)
        ensures
            r.root() == vi0,
            r.last_rim() == vi2,
            r.handed() == seq![(vi0, vi1, vi2)],
            r.list_builder() == list_builder,
            r.received_fans() == seq![seq![vi0, vi1, vi2]],
    {
        let ghost h = Seq::<(Index, Index, Index)>::empty().push((vi0, vi1, vi2));
        let handed: Ghost<Seq<(Index, Index, Index)>> = Ghost(h);
        let ghost f = Seq::<Seq<Index>>::empty().push(seq![vi0, vi1, vi2]);
        let fans: Ghost<Seq<Seq<Index>>> = Ghost(f);
        FanToListBuilder { list_builder, vi0, vi1: vi2, handed, fans }
    }
}

impl<Index: Copy, LB: ListBuilder<Index>> FanBuilder<Index> for FanToListBuilder<Index, LB> {
    type Output = LB::Output;
    type Error = LB::Error;

    open spec fn records_fans() -> bool {
        true
    }

    closed spec fn received_fans(&self) -> Seq<Seq<Index>> {
        self.fans@
    }

    fn winding() -> (r: TriangleWinding)
        ensures
            call_ensures(LB::winding, (), r),
    {
        LB::winding()
    }

    fn new_fan(&mut self, vi0: Index, vi1: Index, vi2: Index) -> (r: Result<(), Self::Error>)
        ensures
            final(self).root() == vi0,
            final(self).last_rim() == vi2,
            final(self).handed() == old(self).handed().push((vi0, vi1, vi2)),
            LB::records_triangles() && r is Ok ==> final(self).list_builder().received_triangles() == old(self).list_builder().received_triangles().push((vi0, vi1, vi2)),
            LB::records_triangles() && r is Ok && old(self).list_builder().received_triangles() == old(self).handed() ==> final(self).list_builder().received_triangles() == final(self).handed(),
    {
        self.vi0 = vi0;
        self.vi1 = vi2;
        self.handed = Ghost(self.handed@.push((vi0, vi1, vi2)));
        let ghost f = self.fans@.push(seq![vi0, vi1, vi2]);
        self.fans = Ghost(f);
        self.list_builder.add_triangle(vi0, vi1, vi2)
    }

    fn extend_fan(&mut self, vi: Index) -> (r: Result<(), Self::Error>)
        ensures
            final(self).root() == old(self).root(),
            final(self).last_rim() == vi,
            final(self).handed() == old(self).handed().push((old(self).root(), old(self).last_rim(), vi)),
            LB::records_triangles() && r is Ok ==> final(self).list_builder().received_triangles() == old(self).list_builder().received_triangles().push((old(self).root(), old(self).last_rim(), vi)),
            LB::records_triangles() && r is Ok && old(self).list_builder().received_triangles() == old(self).handed() ==> final(self).list_builder().received_triangles() == final(self).handed(),
    {
        let vi1 = self.vi1;
        self.vi1 = vi;
        self.handed = Ghost(self.handed@.push((self.vi0, vi1, vi)));
        let ghost f = if self.fans@.len() > 0 {
            self.fans@.update(self.fans@.len() - 1, self.fans@.last().push(vi))
        } else {
            self.fans@
        };
        self.fans = Ghost(f);
        self.list_builder.add_triangle(self.vi0, vi1, vi)
    }

    fn build(self) -> (r: Result<Self::Output, Self::Error>)
        ensures
            call_ensures(LB::build, (self.list_builder(),), r),
    {
        self.list_builder.build()
    }

    fn fail(self, error: &TriangulationError<Self::Error>) {
        self.list_builder.fail(error);
    }
}

} // verus!
