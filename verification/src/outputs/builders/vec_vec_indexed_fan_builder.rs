use vstd::prelude::*;

use crate::errors::TriangulationError;
use crate::outputs::FanBuilder;

verus! {

/// A fan builder which appends each fan, as a `Vec` of indices, to a
/// borrowed `Vec` of fans.
pub struct VecVecIndexedFanBuilder<'f, Index> {
    current_fan: Vec<Index>,
    fans: &'f mut Vec<Vec<Index>>,
    initial_fan_count: usize,
    log: Ghost<Seq<Seq<Index>>>,
}

impl<'f, Index> VecVecIndexedFanBuilder<'f, Index> {
    /// The fans in the borrowed collection so far.
    pub closed spec fn completed(&self) -> Seq<Vec<Index>> {
        self.fans@
    }

    /// The fan under construction.
    pub closed spec fn current(&self) -> Seq<Index> {
        self.current_fan@
    }

    /// The fan under construction, as the value that will be pushed.
    pub closed spec fn current_fan_value(&self) -> Vec<Index> {
        self.current_fan
    }

    /// The number of fans the collection held before construction began.
    pub closed spec fn initial_count(&self) -> nat {
        self.initial_fan_count as nat
    }

    /// Starts construction into `fans` with a first triangle. The fan that
    /// was under construction before the first one (an empty fan) is pushed
    /// as well.
    pub fn new(fans: &'f mut Vec<Vec<Index>>, vi0: Index, vi1: Index, vi2: Index) -> (r: Self)
        ensures
            r.initial_count() == old(fans)@.len(),
            r.completed().len() == old(fans)@.len() + 1,
            r.completed().take(old(fans)@.len() as int) == old(fans)@,
            r.completed().last()@.len() == 0,
            r.current() == seq![vi0, vi1, vi2],
            r.received_fans() == seq![seq![vi0, vi1, vi2]],
    {
        let initial_fan_count = fans.len();
        let ghost first = Seq::<Seq<Index>>::empty().push(seq![vi0, vi1, vi2]);
        let mut fb = VecVecIndexedFanBuilder { fans, current_fan: Vec::new(), initial_fan_count, log: Ghost(first) };
        fb.start_fan(vi0, vi1, vi2);
        fb
    }

    fn start_fan(&mut self, vi0: Index, vi1: Index, vi2: Index)
        ensures
            final(self).completed() == old(self).completed().push(old(self).current_fan_value()),
            final(self).current() == seq![vi0, vi1, vi2],
            final(self).initial_count() == old(self).initial_count(),
            final(self).log == old(self).log,
    {
        let mut prev_fan = Vec::new();
        prev_fan.push(vi0);
        prev_fan.push(vi1);
        prev_fan.push(vi2);
        std::mem::swap(&mut self.current_fan, &mut prev_fan);
        self.fans.push(prev_fan);
    }
}

impl<'f, Index> FanBuilder<Index> for VecVecIndexedFanBuilder<'f, Index> {
    type Output = &'f mut [Vec<Index>];
    type Error = std::convert::Infallible;

    open spec fn records_fans() -> bool {
        true
    }

    closed spec fn received_fans(&self) -> Seq<Seq<Index>> {
        self.log@
    }

    fn new_fan(&mut self, vi0: Index, vi1: Index, vi2: Index) -> (r: Result<(), Self::Error>)
        ensures
            r is Ok,
            final(self).completed() == old(self).completed().push(old(self).current_fan_value()),
            final(self).current() == seq![vi0, vi1, vi2],
            final(self).initial_count() == old(self).initial_count(),
    {
        let ghost l = self.log@.push(seq![vi0, vi1, vi2]);
        self.log = Ghost(l);
        self.start_fan(vi0, vi1, vi2);
        Ok(())
    }

    fn extend_fan(&mut self, vi: Index) -> (r: Result<(), Self::Error>)
        ensures
            r is Ok,
            final(self).completed() == old(self).completed(),
            final(self).current() == old(self).current().push(vi),
            final(self).initial_count() == old(self).initial_count(),
    {
        let ghost l = if self.log@.len() > 0 {
            self.log@.update(self.log@.len() - 1, self.log@.last().push(vi))
        } else {
            self.log@
        };
        self.log = Ghost(l);
        self.current_fan.push(vi);
        Ok(())
    }

    fn build(self) -> (r: Result<Self::Output, Self::Error>)
        ensures
            self.initial_count() <= self.completed().len() ==> (r matches Ok(s) && s@
                == self.completed().push(self.current_fan_value()).skip(self.initial_count() as int)),
    {
        let fans = self.fans;
        fans.push(self.current_fan);
        let start = if self.initial_fan_count <= fans.len() {
            self.initial_fan_count
        } else {
            fans.len()
        };
        let (_, added) = fans.as_mut_slice().split_at_mut(start);
        Ok(added)
    }

    fn fail(self, _error: &TriangulationError<Self::Error>) {
        self.fans.truncate(self.initial_fan_count);
    }
}

} // verus!
