use vstd::prelude::*;

use crate::errors::TriangulationError;
use crate::outputs::{FanBuilder, FanFormat, TriangleWinding};
use std::marker::PhantomData;

verus! {

/// Wrapper which reverses the winding of a [FanFormat]
pub struct ReverseFanFormat<Index, FB: FanFormat<Index>>(FB, PhantomData<Index>);

impl<Index, FB: FanFormat<Index>> ReverseFanFormat<Index, FB> {
    /// The wrapped format.
    pub closed spec fn inner(self) -> FB {
        self.0
    }

    /// Wraps `fan_format`.
    pub fn new(fan_format: FB) -> (r: Self)
        ensures
            r.inner() == fan_format,
    {
        ReverseFanFormat(fan_format, PhantomData)
    }
}

impl<Index, FB: FanFormat<Index>> FanFormat<Index> for ReverseFanFormat<Index, FB> {
    type Builder = ReverseFanBuilder<Index, FB::Builder>;

    fn initialize(self, vi0: Index, vi1: Index, vi2: Index) -> (r: Result<
        Self::Builder,
        <Self::Builder as FanBuilder<Index>>::Error,
    >)
        ensures
            exists|ri: Result<FB::Builder, <FB::Builder as FanBuilder<Index>>::Error>|
                #![trigger call_ensures(FB::initialize, (self.inner(), vi0, vi1, vi2), ri)]
                call_ensures(FB::initialize, (self.inner(), vi0, vi1, vi2), ri) && match ri {
                    Ok(b) => r matches Ok(rb) && rb.inner() == b && (FB::Builder::records_fans() ==> b.received_fans() == seq![
                        seq![vi0, vi1, vi2],
                    ]),
                    Err(e) => r == Err::<Self::Builder, <Self::Builder as FanBuilder<Index>>::Error>(e),
                },
    {
        let fb = self.0.initialize(vi0, vi1, vi2)?;
        Ok(ReverseFanBuilder(fb, PhantomData))
    }
}

/// Wrapper which reverses the winding of a [FanBuilder]
pub struct ReverseFanBuilder<Index, FB: FanBuilder<Index>>(FB, PhantomData<Index>);

impl<Index, FB: FanBuilder<Index>> ReverseFanBuilder<Index, FB> {
    /// The wrapped builder.
    pub closed spec fn inner(self) -> FB {
        self.0
    }
}

impl<Index, FB: FanBuilder<Index>> FanBuilder<Index> for ReverseFanBuilder<Index, FB> {
    type Output = FB::Output;
    type Error = FB::Error;

    open spec fn records_fans() -> bool {
        FB::records_fans()
    }

    closed spec fn received_fans(&self) -> Seq<Seq<Index>> {
        self.0.received_fans()
    }

    fn winding() -> (r: TriangleWinding)
        ensures
            exists|w: TriangleWinding| call_ensures(FB::winding, (), w) && r == w.spec_reversed(),
    {
        FB::winding().reverse()
    }

    fn new_fan(&mut self, vi0: Index, vi1: Index, vi2: Index) -> (r: Result<(), Self::Error>)
        ensures
            FB::records_fans() && r is Ok ==> final(self).inner().received_fans() == old(self).inner().received_fans().push(
                seq![vi0, vi1, vi2],
            ),
    {
        self.0.new_fan(vi0, vi1, vi2)
    }

    fn extend_fan(&mut self, vi: Index) -> (r: Result<(), Self::Error>)
        ensures
            FB::records_fans() && r is Ok && old(self).inner().received_fans().len() > 0 ==> final(self).inner().received_fans()
                == old(self).inner().received_fans().update(
                old(self).inner().received_fans().len() - 1,
                old(self).inner().received_fans().last().push(vi),
            ),
    {
        self.0.extend_fan(vi)
    }

    fn build(self) -> (r: Result<Self::Output, Self::Error>)
        ensures
            call_ensures(FB::build, (self.inner(),), r),
    {
        self.0.build()
    }

    fn fail(self, error: &TriangulationError<Self::Error>) {
        self.0.fail(error);
    }
}

} // verus!
