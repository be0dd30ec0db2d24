use vstd::prelude::*;

use crate::outputs::List;
use std::marker::PhantomData;

verus! {

/// Collects triangles into a [List], remembering how many triangles it held
/// beforehand so that a failed triangulation can be removed again.
pub struct GenericList<L: List<V>, V> {
    list: L,
    initial_vert_count: usize,
    added: Ghost<Seq<(V, V, V)>>,
    _phantom: PhantomData<V>,
}

impl<L: List<V>, V> GenericList<L, V> {
    /// The triangles held (including those the list held before).
    pub closed spec fn triangles(&self) -> Seq<(V, V, V)> {
        self.list.triangles()
    }

    /// The values before the first triangle, which belong to no triangle.
    pub closed spec fn leading(&self) -> Seq<V> {
        self.list.leading()
    }

    /// The triangles added since construction began, oldest first.
    pub closed spec fn added(&self) -> Seq<(V, V, V)> {
        self.added@
    }

    /// The number of triangles the list held before construction began.
    pub closed spec fn initial_count(&self) -> nat {
        self.initial_vert_count as nat
    }

    /// Begins collecting into `list`.
    pub fn new(list: L) -> (r: Self)
        ensures
            r.triangles() == list.triangles(),
            r.initial_count() == list.triangles().len(),
            r.leading() == list.leading(),
            r.added() == Seq::<(V, V, V)>::empty(),
    {
        let initial_vert_count = list.len();
        let ghost none = Seq::<(V, V, V)>::empty();
        GenericList { list, initial_vert_count, added: Ghost(none), _phantom: PhantomData }
    }

    /// Appends a triangle.
    pub fn new_triangle(&mut self, v0: V, v1: V, v2: V)
        ensures
            final(self).triangles() == old(self).triangles().push((v0, v1, v2)),
            final(self).leading() == old(self).leading(),
            final(self).initial_count() == old(self).initial_count(),
            final(self).added() == old(self).added().push((v0, v1, v2)),
    {
        self.list.push(v0, v1, v2);
        let ghost a = self.added@.push((v0, v1, v2));
        self.added = Ghost(a);
    }

    /// The list of triangles.
    pub fn build(self) -> (r: L)
        ensures
            r.triangles() == self.triangles(),
            r.leading() == self.leading(),
    {
        self.list
    }

    /// The list with every triangle added since construction began removed.
    pub fn fail(self) -> (r: L)
        ensures
            r.triangles() == if self.initial_count() < self.triangles().len() {
                self.triangles().take(self.initial_count() as int)
            } else {
                self.triangles()
            },
            r.leading() == self.leading(),
    {
        let mut list = self.list;
        list.truncate(self.initial_vert_count);
        list
    }
}

} // verus!
