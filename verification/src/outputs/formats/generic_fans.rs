use vstd::prelude::*;

use crate::outputs::{Fan, Fans};
use std::marker::PhantomData;

verus! {

/// Collects fans into a [Fans] collection: the fan under construction is
/// held apart and added to the collection when the next fan starts or the
/// output is built.
pub struct GenericFans<FS: Fans, V> where FS::Fan: Fan<V> {
    fans: FS,
    current_fan: FS::Fan,
    initial_fan_count: usize,
    received: Ghost<Seq<Seq<V>>>,
    _phantom: PhantomData<V>,
}

impl<FS: Fans, V> GenericFans<FS, V> where FS::Fan: Fan<V> {
    /// The fans completed so far (including those the collection held before).
    pub closed spec fn completed(&self) -> Seq<FS::Fan> {
        self.fans.fans_view()
    }

    /// The fan under construction.
    pub closed spec fn current_fan(&self) -> FS::Fan {
        self.current_fan
    }

    /// The fans started since construction began, each as its vertices,
    /// the current one last.
    pub closed spec fn received(&self) -> Seq<Seq<V>> {
        self.received@
    }

    /// The number of fans the collection held before construction began.
    pub closed spec fn initial_count(&self) -> nat {
        self.initial_fan_count as nat
    }

    /// Begins collecting into `fans` with a first fan of one triangle.
    pub fn new(fans: FS, v0: V, v1: V, v2: V) -> (r: Self)
        ensures
            r.completed() == fans.fans_view(),
            r.current_fan().fan_view() == seq![v0, v1, v2],
            r.initial_count() == fans.fans_view().len(),
            r.received() == seq![seq![v0, v1, v2]],
    {
        let initial_fan_count = fans.len();
        let current_fan = <FS::Fan as Fan<V>>::new(v0, v1, v2);
        let ghost first = Seq::<Seq<V>>::empty().push(seq![v0, v1, v2]);
        GenericFans { fans, current_fan, initial_fan_count, received: Ghost(first), _phantom: PhantomData }
    }

    /// Completes the current fan and starts a new one with the given triangle.
    pub fn new_fan(&mut self, v0: V, v1: V, v2: V)
        ensures
            final(self).completed() == old(self).completed().push(old(self).current_fan()),
            final(self).current_fan().fan_view() == seq![v0, v1, v2],
            final(self).initial_count() == old(self).initial_count(),
            final(self).received() == old(self).received().push(seq![v0, v1, v2]),
    {
        let mut prev_fan = <FS::Fan as Fan<V>>::new(v0, v1, v2);
        std::mem::swap(&mut self.current_fan, &mut prev_fan);
        self.fans.push(prev_fan);
        let ghost r = self.received@.push(seq![v0, v1, v2]);
        self.received = Ghost(r);
    }

    /// Adds a triangle to the current fan through the new rim vertex `v`.
    pub fn extend_fan(&mut self, v: V)
        ensures
            final(self).completed() == old(self).completed(),
            final(self).current_fan().fan_view() == old(self).current_fan().fan_view().push(v),
            final(self).initial_count() == old(self).initial_count(),
            final(self).received() == old(self).received().update(
                old(self).received().len() - 1,
                old(self).received().last().push(v),
            ),
    {
        self.current_fan.push(v);
        let ghost r = self.received@.update(self.received@.len() - 1, self.received@.last().push(v));
        self.received = Ghost(r);
    }

    /// The collection with the current fan completed.
    pub fn build(self) -> (r: FS)
        ensures
            r.fans_view() == self.completed().push(self.current_fan()),
    {
        let mut fans = self.fans;
        fans.push(self.current_fan);
        fans
    }

    /// The collection with every fan added since construction began removed.
    pub fn fail(self) -> (r: FS)
        ensures
            r.fans_view() == if self.initial_count() < self.completed().len() {
                self.completed().take(self.initial_count() as int)
            } else {
                self.completed()
            },
    {
        let mut fans = self.fans;
        fans.truncate(self.initial_fan_count);
        fans
    }
}

} // verus!
