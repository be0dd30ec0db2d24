use vstd::prelude::*;

verus! {

/// A triangle fan with vertices of type `V`
pub trait Fan<V>: Sized {
    /// The vertices of the fan: the root, then the rim in order.
    spec fn fan_view(&self) -> Seq<V>;

    /// Initialize the fan with a single triangle.
    fn new(v0: V, v1: V, v2: V) -> (r: Self)
        ensures
            r.fan_view() == seq![v0, v1, v2];

    /// Add another triangle to the fan, specifying only the newly added vertex `v`
    fn push(&mut self, v: V)
        ensures
            final(self).fan_view() == old(self).fan_view().push(v);
}

impl<V> Fan<V> for Vec<V> {
    open spec fn fan_view(&self) -> Seq<V> {
        self@
    }

    fn new(v0: V, v1: V, v2: V) -> (r: Self) {
        let mut v = Vec::new();
        v.push(v0);
        v.push(v1);
        v.push(v2);
        v
    }

    fn push(&mut self, v: V) {
        Vec::push(self, v)
    }
}

/// A collection of multiple [Fan]s.
pub trait Fans {
    /// The type of the individual [Fan]s
    type Fan;

    /// The fans held, oldest first.
    spec fn fans_view(&self) -> Seq<Self::Fan>;

    /// The number of [Fan]s
    fn len(&self) -> (r: usize)
        ensures
            r == self.fans_view().len();

    /// Remove newly added [Fan]s until there are only `len` remaining
    fn truncate(&mut self, len: usize)
        ensures
            final(self).fans_view() == if len < old(self).fans_view().len() {
                old(self).fans_view().take(len as int)
            } else {
                old(self).fans_view()
            };

    /// Add a new [Fan]
    fn push(&mut self, fan: Self::Fan)
        ensures
            final(self).fans_view() == old(self).fans_view().push(fan);

    /// Returns `true` if the collection contains no [Fan]s
    fn is_empty(&self) -> (r: bool)
        ensures
            r == (self.fans_view().len() == 0),
    {
        self.len() == 0
    }
}

impl<F> Fans for Vec<F> {
    type Fan = F;

    open spec fn fans_view(&self) -> Seq<F> {
        self@
    }

    fn len(&self) -> (r: usize) {
        Vec::len(self)
    }

    fn truncate(&mut self, len: usize) {
        Vec::truncate(self, len)
    }

    fn push(&mut self, fan: F) {
        Vec::push(self, fan)
    }
}

impl<'a, FS: Fans> Fans for &'a mut FS {
    type Fan = FS::Fan;

    open spec fn fans_view(&self) -> Seq<FS::Fan> {
        (**self).fans_view()
    }

    fn len(&self) -> (r: usize) {
        (**self).len()
    }

    fn truncate(&mut self, len: usize) {
        (**self).truncate(len)
    }

    fn push(&mut self, fan: FS::Fan) {
        (**self).push(fan)
    }
}

} // verus!
