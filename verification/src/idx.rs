use std::cmp::Ordering;
use std::marker::PhantomData;

use vstd::prelude::*;
use vstd::std_specs::cmp::PartialOrdSpecImpl;

verus! {

/// A typed index into an arena (`Vec<T>`), so that indices into different
/// arenas cannot be mixed up. Indices are ordered by position.
#[derive(Ord, Hash)]
pub struct Idx<T> {
    index: usize,
    _marker: PhantomData<T>,
}

impl<T> View for Idx<T> {
    type V = nat;

    closed spec fn view(&self) -> nat {
        self.index as nat
    }
}

impl<T> Clone for Idx<T> {
    fn clone(&self) -> (r: Self)
        ensures
            r@ == self@,
    {
        proof {
            use_type_invariant(self);
        }
        Idx { index: self.index, _marker: PhantomData }
    }
}

impl<T> Copy for Idx<T> {
}

impl<T> PartialEq for Idx<T> {
    fn eq(&self, other: &Self) -> (r: bool) {
        self.index == other.index
    }
}

impl<T> vstd::std_specs::cmp::PartialEqSpecImpl for Idx<T> {
    open spec fn obeys_eq_spec() -> bool {
        true
    }

    open spec fn eq_spec(&self, other: &Self) -> bool {
        self@ == other@
    }
}

impl<T> Eq for Idx<T> {
}

impl<T> PartialOrd for Idx<T> {
    fn partial_cmp(&self, other: &Self) -> (r: Option<Ordering>) {
        if self.index < other.index {
            Some(Ordering::Less)
        } else if self.index == other.index {
            Some(Ordering::Equal)
        } else {
            Some(Ordering::Greater)
        }
    }
}

impl<T> PartialOrdSpecImpl for Idx<T> {
    open spec fn obeys_partial_cmp_spec() -> bool {
        true
    }

    open spec fn partial_cmp_spec(&self, other: &Self) -> Option<Ordering> {
        if self@ < other@ {
            Some(Ordering::Less)
        } else if self@ == other@ {
            Some(Ordering::Equal)
        } else {
            Some(Ordering::Greater)
        }
    }
}

impl<T> Idx<T> {
    /// Every index is a valid position: below the largest `usize`.
    #[verifier::type_invariant]
    spec fn in_range(self) -> bool {
        self.index < usize::MAX
    }

    /// An index with the given position. The largest `usize` is not a valid
    /// position.
    pub fn new(index: usize) -> (r: Self)
        requires
            index < usize::MAX,
        ensures
            r@ == index,
    {
        Idx { index, _marker: PhantomData }
    }

    /// The position this index refers to.
    pub fn usize(&self) -> (r: usize)
        ensures
            r == self@,
    {
        self.index
    }

    /// Moves this index one position forward and returns its previous value.
    pub fn advance(&mut self) -> (r: Self)
        requires
            old(self)@ + 1 < usize::MAX,
        ensures
            r@ == old(self)@,
            final(self)@ == old(self)@ + 1,
    {
        let curr = *self;
        *self = Self::new(self.usize() + 1);
        curr
    }

    /// The next position in `slice`, wrapping from the last position back to the first.
    pub fn next_wrapped(&self, slice: &[T]) -> (r: Self)
        requires
            slice@.len() > 0,
        ensures
            r@ == wrap_next(self@, slice@.len()),
    {
        proof {
            use_type_invariant(self);
        }
        Self::new((self.usize() + 1) % slice.len())
    }

    /// Moves this index to the next position in `slice` (wrapping) and returns its previous value.
    pub fn advance_wrapped(&mut self, slice: &[T]) -> (r: Self)
        requires
            slice@.len() > 0,
        ensures
            r@ == old(self)@,
            final(self)@ == wrap_next(old(self)@, slice@.len()),
    {
        let curr = *self;
        *self = self.next_wrapped(slice);
        curr
    }

    /// Moves this index one position back, staying at 0 when it is already
    /// there, and returns its previous value.
    pub fn recede(&mut self) -> (r: Self)
        ensures
            r@ == old(self)@,
            final(self)@ == if old(self)@ > 0 { old(self)@ - 1 } else { 0 },
    {
        let curr = *self;
        if self.usize() > 0 {
            *self = Self::new(self.usize() - 1);
        }
        curr
    }

    /// The previous position in `slice`, wrapping from the first position to the last.
    pub fn prev_wrapped(&self, slice: &[T]) -> (r: Self)
        requires
            slice@.len() > 0,
        ensures
            r@ == wrap_prev(self@, slice@.len()),
    {
        let index = if self.usize() == 0 {
            slice.len()
        } else {
            self.usize()
        };
        Self::new(index - 1)
    }

    /// Moves this index to the previous position in `slice` (wrapping) and returns its previous value.
    pub fn recede_wrapped(&mut self, slice: &[T]) -> (r: Self)
        requires
            slice@.len() > 0,
        ensures
            r@ == old(self)@,
            final(self)@ == wrap_prev(old(self)@, slice@.len()),
    {
        let curr = *self;
        *self = self.prev_wrapped(slice);
        curr
    }

    /// This index moved `rhs` positions forward.
    pub fn plus(self, rhs: usize) -> (r: Self)
        requires
            self@ + rhs < usize::MAX,
        ensures
            r@ == self@ + rhs,
    {
        Idx::new(self.usize() + rhs)
    }

    /// This index moved `rhs` positions back.
    pub fn minus(self, rhs: usize) -> (r: Self)
        requires
            rhs <= self@,
        ensures
            r@ == self@ - rhs,
    {
        proof {
            use_type_invariant(&self);
        }
        Idx { index: self.index - rhs, _marker: PhantomData }
    }
}

/// The position after `i` among `len` positions, wrapping from the last
/// to the first.
pub open spec fn wrap_next(i: nat, len: nat) -> nat {
    (i + 1) % len
}

/// The position before `i` among `len` positions, wrapping from the first
/// to the last.
pub open spec fn wrap_prev(i: nat, len: nat) -> nat {
    if i == 0 {
        (len - 1) as nat
    } else {
        (i - 1) as nat
    }
}

/// Stepping forward then back (or back then forward) among `len`
/// positions returns to the starting position.
pub proof fn lemma_wrap_inverse(i: nat, len: nat)
    requires
        i < len,
    ensures
        wrap_prev(wrap_next(i, len), len) == i,
        wrap_next(wrap_prev(i, len), len) == i,
        wrap_next(i, len) < len,
        wrap_prev(i, len) < len,
{
    if i + 1 < len {
        vstd::arithmetic::div_mod::lemma_small_mod(i + 1, len);
    } else {
        vstd::arithmetic::div_mod::lemma_mod_self_0(len as int);
    }
    if i > 0 {
        vstd::arithmetic::div_mod::lemma_small_mod(i, len);
    } else {
        vstd::arithmetic::div_mod::lemma_mod_self_0(len as int);
    }
}

/// Marks indices into the arena of nexuses.
pub struct NexusMark;

/// Marks indices into the arena of segments.
pub struct SegmentMark;

/// Marks indices into the arena of trapezoids.
pub struct TrapezoidMark;

/// Marks indices into the arena of query nodes.
pub struct QueryMark;

/// An index into the arena of nexuses.
pub type NexusIdx = Idx<NexusMark>;

/// An index into the arena of segments.
pub type SegmentIdx = Idx<SegmentMark>;

/// An index into the arena of trapezoids.
pub type TrapezoidIdx = Idx<TrapezoidMark>;

/// An index into the arena of query nodes.
pub type QueryIdx = Idx<QueryMark>;

/// Typed indexing into a vector.
pub trait VecExt<T> {
    /// The elements of the collection, in order.
    spec fn elements(&self) -> Seq<T>;

    /// Pushes `value` and returns the index it was stored at.
    fn push_get_index(&mut self, value: T) -> (r: Idx<T>)
        requires
            old(self).elements().len() < usize::MAX - 1,
        ensures
            r@ == old(self).elements().len(),
            final(self).elements() == old(self).elements().push(value);

    /// The index that the next pushed value will be stored at.
    fn next_index(&self) -> (r: Idx<T>)
        requires
            self.elements().len() < usize::MAX,
        ensures
            r@ == self.elements().len();

    /// The element at `index`.
    fn at(&self, index: Idx<T>) -> (r: &T)
        requires
            index@ < self.elements().len(),
        ensures
            *r == self.elements()[index@ as int];
}

impl<T> VecExt<T> for Vec<T> {
    open spec fn elements(&self) -> Seq<T> {
        self@
    }

    fn push_get_index(&mut self, value: T) -> (r: Idx<T>) {
        let index = Idx::new(self.len());
        self.push(value);
        index
    }

    fn next_index(&self) -> (r: Idx<T>) {
        Idx::new(self.len())
    }

    fn at(&self, index: Idx<T>) -> (r: &T) {
        &self[index.usize()]
    }
}

/// Enumerates the indices of a slice in order.
pub struct SliceIndexIter<'a, T> {
    slice: &'a [T],
    index: usize,
}

impl<'a, T> SliceIndexIter<'a, T> {
    /// The slice being enumerated.
    pub closed spec fn slice_view(&self) -> Seq<T> {
        self.slice@
    }

    /// The position of the next index to be returned.
    pub closed spec fn position(&self) -> nat {
        self.index as nat
    }

    /// An enumeration starting at the first index of `slice`.
    pub fn new(slice: &'a [T]) -> (r: Self)
        ensures
            r.slice_view() == slice@,
            r.position() == 0,
    {
        SliceIndexIter { slice, index: 0 }
    }

    /// The next index, or `None` once every index of the slice has been returned.
    pub fn next(&mut self) -> (r: Option<Idx<T>>)
        ensures
            final(self).slice_view() == old(self).slice_view(),
            old(self).position() < old(self).slice_view().len() ==> {
                &&& r matches Some(i) && i@ == old(self).position()
                &&& final(self).position() == old(self).position() + 1
            },
            old(self).position() >= old(self).slice_view().len() ==> {
                &&& r is None
                &&& final(self).position() == old(self).position()
            },
    {
        if self.index < self.slice.len() {
            let result = Some(Idx::new(self.index));
            self.index = self.index + 1;
            result
        } else {
            None
        }
    }
}

/// Enumeration of the typed indices of a slice.
pub trait SliceExt<T> {
    /// The elements of the collection, in order.
    spec fn elements(&self) -> Seq<T>;

    /// An enumeration of every index of this collection, in order.
    fn iter_index(&self) -> (r: SliceIndexIter<'_, T>)
        ensures
            r.position() == 0,
            r.slice_view() == self.elements();
}

impl<T> SliceExt<T> for Vec<T> {
    open spec fn elements(&self) -> Seq<T> {
        self@
    }

    fn iter_index(&self) -> (r: SliceIndexIter<'_, T>) {
        SliceIndexIter::new(self.as_slice())
    }
}

} // verus!
