use vstd::prelude::*;

use crate::errors::TriangulationError;
use crate::outputs::{FanBuilder, FanFormat, Fans};

verus! {

/// The error of [DelimitedFanFormat]
#[derive(Debug, PartialEq, Eq, Structural, Clone, Copy, Hash)]
pub enum DelimitedFanError {
    /// A vertex index equal to the delimiter value was encountered
    IndexMatchesDelimiter,
}

/// A [FanFormat] which separates each fan with a specified delimiter value
pub struct DelimitedFanFormat<FS: Fans<Fan = usize>> {
    fans: FS,
    delimiter: usize,
}

impl<FS: Fans<Fan = usize>> DelimitedFanFormat<FS> {
    /// The collection the indices are stored in.
    pub closed spec fn fans(&self) -> FS {
        self.fans
    }

    /// The value written between fans.
    pub closed spec fn delimiter(&self) -> usize {
        self.delimiter
    }

    /// Create a delimited format which stores its output in the given [Fans]
    pub fn new(fans: FS, delimiter: usize) -> (r: Self)
        ensures
            r.fans() == fans,
            r.delimiter() == delimiter,
    {
        DelimitedFanFormat { fans, delimiter }
    }
}

impl<FS: Fans<Fan = usize>> FanFormat<usize> for DelimitedFanFormat<FS> {
    type Builder = DelimitedFanBuilder<FS>;

    fn initialize(self, vi0: usize, vi1: usize, vi2: usize) -> (r: Result<
        Self::Builder,
        <Self::Builder as FanBuilder<usize>>::Error,
    >)
        ensures
            r is Ok <==> (vi0 != self.delimiter() && vi1 != self.delimiter() && vi2
                != self.delimiter()),
            r matches Ok(b) ==> {
                &&& b.delimiter() == self.delimiter()
                &&& b.initial_count() == self.fans().fans_view().len()
                &&& b.written() == (if self.fans().fans_view().len() > 0 {
                    self.fans().fans_view().push(self.delimiter())
                } else {
                    self.fans().fans_view()
                }) + seq![vi0, vi1, vi2]
            },
            r matches Err(e) ==> e == DelimitedFanError::IndexMatchesDelimiter,
    {
        DelimitedFanBuilder::new(self.fans, self.delimiter, vi0, vi1, vi2)
    }
}

/// The [FanBuilder] of [DelimitedFanFormat]
pub struct DelimitedFanBuilder<FS: Fans<Fan = usize>> {
    fans: FS,
    delimiter: usize,
    initial_vert_count: usize,
    log: Ghost<Seq<Seq<usize>>>,
}

impl<FS: Fans<Fan = usize>> DelimitedFanBuilder<FS> {
    /// Everything in the output collection so far.
    pub closed spec fn written(&self) -> Seq<usize> {
        self.fans.fans_view()
    }

    /// The value written between fans.
    pub closed spec fn delimiter(&self) -> usize {
        self.delimiter
    }

    /// The length of the output collection before construction began.
    pub closed spec fn initial_count(&self) -> nat {
        self.initial_vert_count as nat
    }

    fn new(fans: FS, delimiter: usize, vi0: usize, vi1: usize, vi2: usize) -> (r: Result<
        Self,
        DelimitedFanError,
    >)
        ensures
            r is Ok <==> (vi0 != delimiter && vi1 != delimiter && vi2 != delimiter),
            r matches Ok(b) ==> {
                &&& b.delimiter() == delimiter
                &&& b.initial_count() == fans.fans_view().len()
                &&& b.received_fans() == seq![seq![vi0, vi1, vi2]]
                &&& b.written() == (if fans.fans_view().len() > 0 {
                    fans.fans_view().push(delimiter)
                } else {
                    fans.fans_view()
                }) + seq![vi0, vi1, vi2]
            },
            r matches Err(e) ==> e == DelimitedFanError::IndexMatchesDelimiter,
    {
        let mut fans = fans;
        let initial_vert_count = fans.len();
        if fans.len() > 0 {
            fans.push(delimiter);
        }
        let ghost start = fans.fans_view();
        let ghost first = Seq::<Seq<usize>>::empty().push(seq![vi0, vi1, vi2]);
        let mut fb = DelimitedFanBuilder { fans, delimiter, initial_vert_count, log: Ghost(first) };
        fb.push_index(vi0)?;
        fb.push_index(vi1)?;
        fb.push_index(vi2)?;
        assert(fb.written() =~= start + seq![vi0, vi1, vi2]);
        Ok(fb)
    }

    fn push_index(&mut self, vi: usize) -> (r: Result<(), DelimitedFanError>)
        ensures
            r is Ok <==> vi != old(self).delimiter(),
            r is Ok ==> final(self).written() == old(self).written().push(vi),
            r matches Err(e) ==> e == DelimitedFanError::IndexMatchesDelimiter,
            final(self).delimiter() == old(self).delimiter(),
            final(self).initial_count() == old(self).initial_count(),
            final(self).log == old(self).log,
    {
        if self.delimiter == vi {
            Err(DelimitedFanError::IndexMatchesDelimiter)
        } else {
            self.fans.push(vi);
            Ok(())
        }
    }
}

impl<FS: Fans<Fan = usize>> FanBuilder<usize> for DelimitedFanBuilder<FS> {
    type Output = FS;
    type Error = DelimitedFanError;

    open spec fn records_fans() -> bool {
        true
    }

    closed spec fn received_fans(&self) -> Seq<Seq<usize>> {
        self.log@
    }

    fn new_fan(&mut self, vi0: usize, vi1: usize, vi2: usize) -> (r: Result<(), Self::Error>)
        ensures
            r is Ok <==> (vi0 != old(self).delimiter() && vi1 != old(self).delimiter() && vi2
                != old(self).delimiter()),
            r is Ok ==> final(self).written() == old(self).written() + seq![
                old(self).delimiter(),
                vi0,
                vi1,
                vi2,
            ],
            r matches Err(e) ==> e == DelimitedFanError::IndexMatchesDelimiter,
            final(self).delimiter() == old(self).delimiter(),
            final(self).initial_count() == old(self).initial_count(),
    {
        let ghost l = self.log@.push(seq![vi0, vi1, vi2]);
        self.log = Ghost(l);
        let d = self.delimiter;
        self.fans.push(d);
        self.push_index(vi0)?;
        self.push_index(vi1)?;
        self.push_index(vi2)?;
        assert(self.written() =~= old(self).written() + seq![d, vi0, vi1, vi2]);
        Ok(())
    }

    fn extend_fan(&mut self, vi: usize) -> (r: Result<(), Self::Error>)
        ensures
            r is Ok <==> vi != old(self).delimiter(),
            r is Ok ==> final(self).written() == old(self).written().push(vi),
            r matches Err(e) ==> e == DelimitedFanError::IndexMatchesDelimiter,
            final(self).delimiter() == old(self).delimiter(),
            final(self).initial_count() == old(self).initial_count(),
    {
        let ghost l = if self.log@.len() > 0 {
            self.log@.update(self.log@.len() - 1, self.log@.last().push(vi))
        } else {
            self.log@
        };
        self.log = Ghost(l);
        self.push_index(vi)
    }

    fn build(self) -> (r: Result<Self::Output, Self::Error>)
        ensures
            r matches Ok(fans) && fans.fans_view() == self.written(),
    {
        Ok(self.fans)
    }

    fn fail(self, _error: &TriangulationError<Self::Error>) {
        let mut fans = self.fans;
        fans.truncate(self.initial_vert_count);
    }
}

} // verus!
