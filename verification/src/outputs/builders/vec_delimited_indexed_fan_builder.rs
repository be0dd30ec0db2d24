use vstd::prelude::*;

use crate::errors::TriangulationError;
use crate::outputs::FanBuilder;

verus! {

/// The error of [VecDelimitedIndexedFanBuilder]
#[derive(Debug, Clone, Copy, PartialEq, Eq, Structural, Hash)]
pub enum VecDelimitedIndexedError {
    /// Designated delimiter index is present in the polygon list
    DelimiterIndexReached,
}

/// A fan builder which appends the fans' indices to a borrowed `Vec`,
/// separated by a delimiter value.
pub struct VecDelimitedIndexedFanBuilder<'f> {
    list: &'f mut Vec<usize>,
    delimiter: usize,
    initial_vertex_count: usize,
    log: Ghost<Seq<Seq<usize>>>,
}

impl<'f> VecDelimitedIndexedFanBuilder<'f> {
    /// Everything in the borrowed list so far.
    pub closed spec fn written(&self) -> Seq<usize> {
        self.list@
    }

    /// The value written between fans.
    pub closed spec fn delimiter(&self) -> usize {
        self.delimiter
    }

    /// The length of the list before construction began.
    pub closed spec fn initial_count(&self) -> nat {
        self.initial_vertex_count as nat
    }

    fn push(&mut self, index: usize) -> (r: Result<(), VecDelimitedIndexedError>)
        ensures
            r is Ok <==> index != old(self).delimiter(),
            r is Ok ==> final(self).written() == old(self).written().push(index),
            r is Err ==> final(self).written() == old(self).written(),
            r matches Err(e) ==> e == VecDelimitedIndexedError::DelimiterIndexReached,
            final(self).delimiter() == old(self).delimiter(),
            final(self).initial_count() == old(self).initial_count(),
            final(self).log == old(self).log,
    {
        if index == self.delimiter {
            Err(VecDelimitedIndexedError::DelimiterIndexReached)
        } else {
            self.list.push(index);
            Ok(())
        }
    }

    fn delimit(&mut self)
        ensures
            final(self).written() == old(self).written().push(old(self).delimiter()),
            final(self).delimiter() == old(self).delimiter(),
            final(self).initial_count() == old(self).initial_count(),
            final(self).log == old(self).log,
    {
        let d = self.delimiter;
        self.list.push(d);
    }

    /// Starts construction into `list` with a first triangle. When `list`
    /// already ends with something other than the delimiter, a delimiter
    /// separates the old contents from the new fan.
    pub fn new(list: &'f mut Vec<usize>, delimiter: usize, vi0: usize, vi1: usize, vi2: usize) -> (r: Result<
        Self,
        VecDelimitedIndexedError,
    >)
        ensures
            r is Ok <==> (vi0 != delimiter && vi1 != delimiter && vi2 != delimiter),
            r matches Err(e) ==> e == VecDelimitedIndexedError::DelimiterIndexReached,
            r matches Ok(b) ==> {
                &&& b.delimiter() == delimiter
                &&& b.initial_count() == old(list)@.len()
                &&& b.received_fans() == seq![seq![vi0, vi1, vi2]]
                &&& b.written() == (if old(list)@.len() > 0 && old(list)@.last() != delimiter {
                    old(list)@.push(delimiter)
                } else {
                    old(list)@
                }) + seq![vi0, vi1, vi2]
            },
    {
        let initial_vertex_count = list.len();
        let ghost first = Seq::<Seq<usize>>::empty().push(seq![vi0, vi1, vi2]);
        let mut builder = VecDelimitedIndexedFanBuilder { list, delimiter, initial_vertex_count, log: Ghost(first) };
        let n = builder.list.len();
        if n > 0 {
            let last_index = builder.list[n - 1];
            if last_index != builder.delimiter {
                builder.delimit();
            }
        }
        let ghost start = builder.written();
        builder.push(vi0)?;
        builder.push(vi1)?;
        builder.push(vi2)?;
        assert(builder.written() =~= start + seq![vi0, vi1, vi2]);
        Ok(builder)
    }
}

impl<'f> FanBuilder<usize> for VecDelimitedIndexedFanBuilder<'f> {
    type Output = &'f mut [usize];
    type Error = VecDelimitedIndexedError;

    open spec fn records_fans() -> bool {
        true
    }

    closed spec fn received_fans(&self) -> Seq<Seq<usize>> {
        self.log@
    }

    fn new_fan(&mut self, vi0: usize, vi1: usize, vi2: usize) -> (r: Result<(), Self::Error>)
        ensures
            r is Ok <==> (vi0 != old(self).delimiter() && vi1 != old(self).delimiter() && vi2
                != old(self).delimiter()),
            r is Ok ==> final(self).written() == old(self).written() + seq![
                old(self).delimiter(),
                vi0,
                vi1,
                vi2,
            ],
            r matches Err(e) ==> e == VecDelimitedIndexedError::DelimiterIndexReached,
            final(self).delimiter() == old(self).delimiter(),
            final(self).initial_count() == old(self).initial_count(),
    {
        let ghost l = self.log@.push(seq![vi0, vi1, vi2]);
        self.log = Ghost(l);
        self.delimit();
        self.push(vi0)?;
        self.push(vi1)?;
        self.push(vi2)?;
        assert(self.written() =~= old(self).written() + seq![old(self).delimiter(), vi0, vi1, vi2]);
        Ok(())
    }

    fn extend_fan(&mut self, vi: usize) -> (r: Result<(), Self::Error>)
        ensures
            r is Ok <==> vi != old(self).delimiter(),
            r is Ok ==> final(self).written() == old(self).written().push(vi),
            r matches Err(e) ==> e == VecDelimitedIndexedError::DelimiterIndexReached,
            final(self).delimiter() == old(self).delimiter(),
            final(self).initial_count() == old(self).initial_count(),
    {
        let ghost l = if self.log@.len() > 0 {
            self.log@.update(self.log@.len() - 1, self.log@.last().push(vi))
        } else {
            self.log@
        };
        self.log = Ghost(l);
        self.push(vi)
    }

    fn build(self) -> (r: Result<Self::Output, Self::Error>)
        ensures
            self.initial_count() <= self.written().len() ==> (r matches Ok(s) && s@
                == self.written().skip(self.initial_count() as int)),
    {
        let list = self.list;
        let start = if self.initial_vertex_count <= list.len() {
            self.initial_vertex_count
        } else {
            list.len()
        };
        let (_, added) = list.as_mut_slice().split_at_mut(start);
        Ok(added)
    }

    fn fail(self, _error: &TriangulationError<Self::Error>) {
        self.list.truncate(self.initial_vertex_count)
    }
}

} // verus!
