use vstd::prelude::*;

use crate::errors::TriangulationError;
use crate::outputs::{Fan, FanBuilder, FanFormat, Fans};
use crate::outputs::formats::GenericFans;
use std::marker::PhantomData;

verus! {

/// A [FanFormat] which outputs the triangle fans by their indices
pub struct IndexedFanFormat<Index, FS: Fans> where FS::Fan: Fan<Index> {
    fans: FS,
    _phantom: PhantomData<Index>,
}

impl<Index, FS: Fans> IndexedFanFormat<Index, FS> where FS::Fan: Fan<Index> {
    /// The collection the fans are stored in.
    pub closed spec fn fans(&self) -> FS {
        self.fans
    }

    /// Create an indexed format which stores its output in the given [Fans]
    pub fn new(fans: FS) -> (r: Self)
        ensures
            r.fans() == fans,
    {
        IndexedFanFormat { fans, _phantom: PhantomData }
    }
}

impl<Index, FS: Fans> FanFormat<Index> for IndexedFanFormat<Index, FS> where FS::Fan: Fan<Index> {
    type Builder = IndexedFanBuilder<Index, FS>;

    fn initialize(self, vi0: Index, vi1: Index, vi2: Index) -> (r: Result<
        Self::Builder,
        <Self::Builder as FanBuilder<Index>>::Error,
    >)
        ensures
            r matches Ok(b) && b.state().completed() == self.fans().fans_view()
                && b.state().current_fan().fan_view() == seq![vi0, vi1, vi2]
                && b.state().initial_count() == self.fans().fans_view().len()
                && b.state().received() == seq![seq![vi0, vi1, vi2]],
    {
        Ok(IndexedFanBuilder { fans: GenericFans::new(self.fans, vi0, vi1, vi2) })
    }
}

/// The [FanBuilder] of [IndexedFanFormat]
pub struct IndexedFanBuilder<Index, FS: Fans> where FS::Fan: Fan<Index> {
    fans: GenericFans<FS, Index>,
}

impl<Index, FS: Fans> IndexedFanBuilder<Index, FS> where FS::Fan: Fan<Index> {
    /// The fans collected so far.
    pub closed spec fn state(&self) -> GenericFans<FS, Index> {
        self.fans
    }
}

impl<Index, FS: Fans> FanBuilder<Index> for IndexedFanBuilder<Index, FS> where FS::Fan: Fan<Index> {
    type Output = FS;
    type Error = std::convert::Infallible;

    open spec fn records_fans() -> bool {
        true
    }

    closed spec fn received_fans(&self) -> Seq<Seq<Index>> {
        self.state().received()
    }

    fn new_fan(&mut self, vi0: Index, vi1: Index, vi2: Index) -> (r: Result<(), Self::Error>)
        ensures
            r is Ok,
            final(self).state().completed() == old(self).state().completed().push(
                old(self).state().current_fan(),
            ),
            final(self).state().current_fan().fan_view() == seq![vi0, vi1, vi2],
            final(self).state().initial_count() == old(self).state().initial_count(),
            final(self).state().received() == old(self).state().received().push(seq![vi0, vi1, vi2]),
    {
        self.fans.new_fan(vi0, vi1, vi2);
        Ok(())
    }

    fn extend_fan(&mut self, vi: Index) -> (r: Result<(), Self::Error>)
        ensures
            r is Ok,
            final(self).state().completed() == old(self).state().completed(),
            final(self).state().current_fan().fan_view() == old(self).state().current_fan().fan_view().push(vi),
            final(self).state().initial_count() == old(self).state().initial_count(),
            final(self).state().received() == old(self).state().received().update(
                old(self).state().received().len() - 1,
                old(self).state().received().last().push(vi),
            ),
    {
        self.fans.extend_fan(vi);
        Ok(())
    }

    fn build(self) -> (r: Result<Self::Output, Self::Error>)
        ensures
            r matches Ok(fans) && fans.fans_view() == self.state().completed().push(
                self.state().current_fan(),
            ),
    {
        Ok(self.fans.build())
    }

    fn fail(self, _error: &TriangulationError<Self::Error>) {
        let _ = self.fans.fail();
    }
}

} // verus!
