use smallvec::SmallVec;
use vstd::prelude::*;

use crate::inputs::Coords;

verus! {

/// A vertex of a monotone chain: its index and its position.
pub type ChainVertex = (usize, Coords);

/// The inline-first vector (a `SmallVec` with room for 16 vertices before
/// it allocates) that holds a monotone chain.
#[verifier::external_body]
pub struct ChainVec {
    items: SmallVec<[ChainVertex; 16]>,
}

/// The vertices a chain vector holds, in order.
pub uninterp spec fn chain_items(v: ChainVec) -> Seq<ChainVertex>;

/// `SmallVec::new`: an empty vector.
#[verifier::external_body]
pub(crate) fn chain_new() -> (r: ChainVec)
    ensures
        chain_items(r) == Seq::<ChainVertex>::empty(),
{
    ChainVec { items: SmallVec::new() }
}

/// `SmallVec::len`: the number of items held.
#[verifier::external_body]
pub(crate) fn chain_len(v: &ChainVec) -> (r: usize)
    ensures
        r == chain_items(*v).len(),
{
    v.items.len()
}

/// `SmallVec::push`: appends an item. It panics only when the new
/// capacity overflows, which the bound on the length rules out.
#[verifier::external_body]
pub(crate) fn chain_push(v: &mut ChainVec, item: ChainVertex)
    requires
        chain_items(*old(v)).len() < usize::MAX / 2,
    ensures
        chain_items(*final(v)) == chain_items(*old(v)).push(item),
{
    v.items.push(item)
}

/// Indexing a `SmallVec`: the item at position `i`.
#[verifier::external_body]
pub(crate) fn chain_get(v: &ChainVec, i: usize) -> (r: ChainVertex)
    requires
        i < chain_items(*v).len(),
    ensures
        r == chain_items(*v)[i as int],
{
    v.items[i]
}

/// Swapping two items of a `SmallVec` (through its slice).
#[verifier::external_body]
pub(crate) fn chain_swap(v: &mut ChainVec, i: usize, j: usize)
    requires
        i < chain_items(*old(v)).len(),
        j < chain_items(*old(v)).len(),
    ensures
        chain_items(*final(v)) == chain_items(*old(v)).update(i as int, chain_items(*old(v))[j as int]).update(
            j as int,
            chain_items(*old(v))[i as int],
        ),
{
    v.items.swap(i, j)
}

/// `SmallVec::truncate`: keeps the first `len` items.
#[verifier::external_body]
pub(crate) fn chain_truncate(v: &mut ChainVec, len: usize)
    ensures
        chain_items(*final(v)) == if len < chain_items(*old(v)).len() {
            chain_items(*old(v)).take(len as int)
        } else {
            chain_items(*old(v))
        },
{
    v.items.truncate(len)
}

} // verus!
