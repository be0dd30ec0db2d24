use vstd::prelude::*;
use zot::Ot;

use crate::chain::{
    ChainVec,
    ChainVertex,
    chain_get,
    chain_items,
    chain_len,
    chain_new,
    chain_push,
    chain_swap,
    chain_truncate,
};
use crate::errors::{InternalError, TriangulationError};
use crate::fan_builder_state::{FanBuilderState, FormatError};
use crate::inputs::Coords;
use crate::math::{is_left_of_line, left_of_line};
use crate::fan_geometry::{
    direct_fan,
    distinct_heights,
    fan_oriented,
    lemma_back_ear,
    lemma_fan_oriented,
    lemma_left_of_line_orientation,
    lemma_rim_push,
    orientation,
    reversed_fan,
    rim_signs,
    sign_ok,
};
use crate::outputs::{FanBuilder, FanFormat, TriangleWinding};

verus! {

/// The vertex indices of a chain, in order.
pub open spec fn chain_ids(chain: Seq<ChainVertex>) -> Seq<usize> {
    chain.map_values(|p: ChainVertex| p.0)
}

/// Whether every vertex of the chain has the `x` coordinate of its first vertex.
pub open spec fn all_same_x(chain: Seq<ChainVertex>) -> bool {
    forall|i: int| 0 <= i < chain.len() ==> (#[trigger] chain[i]).1.x == chain[0].1.x
}

/// Whether every vertex of the chain has the `y` coordinate of its first vertex.
pub open spec fn all_same_y(chain: Seq<ChainVertex>) -> bool {
    forall|i: int| 0 <= i < chain.len() ==> (#[trigger] chain[i]).1.y == chain[0].1.y
}

/// The number of triangles in a list of fans: a fan of `k` vertices holds
/// `k - 2` triangles.
pub open spec fn fan_triangles(fans: Seq<Vec<usize>>) -> int
    decreases fans.len(),
{
    if fans.len() == 0 {
        0
    } else {
        fan_triangles(fans.drop_last()) + fans.last()@.len() - 2
    }
}

/// The vertex sequences of a list of fans.
pub open spec fn fan_views(fans: Seq<Vec<usize>>) -> Seq<Seq<usize>> {
    fans.map_values(|f: Vec<usize>| f@)
}

/// Adding a fan adds its triangles to the count.
pub proof fn lemma_fan_triangles_push(fans: Seq<Vec<usize>>, fan: Vec<usize>)
    ensures
        fan_triangles(fans.push(fan)) == fan_triangles(fans) + fan@.len() - 2,
{
    assert(fans.push(fan).drop_last() =~= fans);
}

/// Every fan has at least one triangle and uses only vertices of `chain`.
pub open spec fn fans_over(fans: Seq<Vec<usize>>, chain: Seq<ChainVertex>) -> bool {
    &&& forall|f: int| 0 <= f < fans.len() ==> (#[trigger] fans[f])@.len() >= 3
    &&& forall|f: int, k: int|
        0 <= f < fans.len() && 0 <= k < fans[f]@.len() ==> chain_ids(chain).contains(
            #[trigger] fans[f]@[k],
        )
}

proof fn lemma_id_in_chain(chain: Seq<ChainVertex>, v: ChainVertex)
    requires
        chain.contains(v),
    ensures
        chain_ids(chain).contains(v.0),
{
    let j = choose|j: int| 0 <= j < chain.len() && chain[j] == v;
    assert(chain_ids(chain)[j] == v.0);
}

/// Positions into a chain of `n` vertices, strictly increasing.
pub open spec fn increasing_positions(idx: Seq<int>, n: int) -> bool {
    &&& forall|i: int, j: int| 0 <= i < j < idx.len() ==> #[trigger] idx[i] < #[trigger] idx[j]
    &&& forall|i: int| 0 <= i < idx.len() ==> 0 <= #[trigger] idx[i] < n
}

/// `part` is the subsequence of `chain` at the positions `idx`.
pub open spec fn picks(part: Seq<ChainVertex>, chain: Seq<ChainVertex>, idx: Seq<int>) -> bool {
    &&& idx.len() == part.len()
    &&& increasing_positions(idx, chain.len() as int)
    &&& forall|i: int| 0 <= i < part.len() ==> #[trigger] part[i] == chain[idx[i]]
}

/// Vertex `p` of `chain` and the two before it form an ear on the inner
/// side (the test the triangulation cuts ears by).
pub open spec fn ear_at(chain: Seq<ChainVertex>, p: int, left_chain: bool) -> bool {
    left_chain == left_of_line(chain[p].1, chain[p - 2].1, chain[p - 1].1)
}

/// No three consecutive vertices of `chain` form an ear.
pub open spec fn no_ear(chain: Seq<ChainVertex>, left_chain: bool) -> bool {
    forall|p: int| 2 <= p < chain.len() ==> !#[trigger] ear_at(chain, p, left_chain)
}

/// Cutting ears from `chain` stopped at the subsequence of at least three
/// vertices at positions `idx`, in which no three consecutive vertices
/// form an ear.
pub open spec fn stuck_at(chain: Seq<ChainVertex>, idx: Seq<int>, left_chain: bool) -> bool {
    &&& idx.len() >= 3
    &&& increasing_positions(idx, chain.len() as int)
    &&& no_ear(idx.map_values(|i: int| chain[i]), left_chain)
}

/// Removing one vertex of a subsequence keeps it a subsequence.
proof fn lemma_picks_remove(part: Seq<ChainVertex>, chain: Seq<ChainVertex>, idx: Seq<int>, k: int)
    requires
        picks(part, chain, idx),
        0 <= k < part.len(),
    ensures
        picks(part.remove(k), chain, idx.remove(k)),
{
    let p2 = part.remove(k);
    let i2 = idx.remove(k);
    assert forall|i: int, j: int| 0 <= i < j < i2.len() implies #[trigger] i2[i] < #[trigger] i2[j] by {
        let a = if i < k { i } else { i + 1 };
        let b = if j < k { j } else { j + 1 };
        assert(i2[i] == idx[a] && i2[j] == idx[b]);
        assert(idx[a] < idx[b]);
    }
    assert forall|i: int| 0 <= i < i2.len() implies 0 <= #[trigger] i2[i] < chain.len() by {
        let a = if i < k { i } else { i + 1 };
        assert(i2[i] == idx[a]);
    }
    assert forall|i: int| 0 <= i < p2.len() implies #[trigger] p2[i] == chain[i2[i]] by {
        let a = if i < k { i } else { i + 1 };
        assert(p2[i] == part[a]);
        assert(i2[i] == idx[a]);
    }
}

/// Collects the vertices of one monotone chain of a polygon, noting whether
/// they all share an `x` or a `y` coordinate (a degenerate chain that
/// needs no triangles).
pub struct MonotoneBuilder {
    vec: ChainVec,
    diff_x: bool,
    diff_y: bool,
}

impl MonotoneBuilder {
    /// The vertices collected so far.
    pub closed spec fn chain(&self) -> Seq<ChainVertex> {
        chain_items(self.vec)
    }

    /// Whether the builder's flags describe its vertices.
    pub closed spec fn wf(&self) -> bool {
        &&& 1 <= self.chain().len() <= usize::MAX / 2
        &&& self.diff_x == !all_same_x(self.chain())
        &&& self.diff_y == !all_same_y(self.chain())
    }

    /// The number of vertices collected.
    pub fn len(&self) -> (r: usize)
        ensures
            r == self.chain().len(),
    {
        chain_len(&self.vec)
    }

    /// A chain starting at vertex `vi` at `c`.
    pub fn new(vi: usize, c: Coords) -> (r: Self)
        ensures
            r.wf(),
            r.chain() == seq![(vi, c)],
    {
        let mut vec = chain_new();
        chain_push(&mut vec, (vi, c));
        let r = MonotoneBuilder { vec, diff_x: false, diff_y: false };
        assert(all_same_x(r.chain()) && all_same_y(r.chain()));
        r
    }

    /// Appends vertex `vi` at `c` to the chain.
    pub fn add_vertex(&mut self, vi: usize, c: Coords)
        requires
            old(self).wf(),
            old(self).chain().len() < usize::MAX / 2,
        ensures
            final(self).wf(),
            final(self).chain() == old(self).chain().push((vi, c)),
    {
        let first = chain_get(&self.vec, 0);
        if !self.diff_x && c.x != first.1.x {
            self.diff_x = true;
        }
        if !self.diff_y && c.y != first.1.y {
            self.diff_y = true;
        }
        chain_push(&mut self.vec, (vi, c));
        proof {
            let s = self.chain();
            let o = old(self).chain();
            assert(s[0] == o[0]);
            if all_same_x(s) {
                assert forall|i: int| 0 <= i < o.len() implies (#[trigger] o[i]).1.x == o[0].1.x by {
                    assert(s[i] == o[i]);
                }
            }
            if all_same_x(o) && c.x == first.1.x {
                assert forall|i: int| 0 <= i < s.len() implies (#[trigger] s[i]).1.x == s[0].1.x by {
                    if i < o.len() {
                        assert(s[i] == o[i]);
                    }
                }
            }
            if all_same_y(s) {
                assert forall|i: int| 0 <= i < o.len() implies (#[trigger] o[i]).1.y == o[0].1.y by {
                    assert(s[i] == o[i]);
                }
            }
            if all_same_y(o) && c.y == first.1.y {
                assert forall|i: int| 0 <= i < s.len() implies (#[trigger] s[i]).1.y == s[0].1.y by {
                    if i < o.len() {
                        assert(s[i] == o[i]);
                    }
                }
            }
            assert(!all_same_x(o) ==> !all_same_x(s)) by {
                if !all_same_x(o) {
                    let i = choose|i: int| 0 <= i < o.len() && (#[trigger] o[i]).1.x != o[0].1.x;
                    assert(s[i] == o[i]);
                }
            }
            assert(!all_same_y(o) ==> !all_same_y(s)) by {
                if !all_same_y(o) {
                    let i = choose|i: int| 0 <= i < o.len() && (#[trigger] o[i]).1.y != o[0].1.y;
                    assert(s[i] == o[i]);
                }
            }
            assert(c.x != first.1.x ==> s[s.len() - 1].1.x != s[0].1.x);
            assert(c.y != first.1.y ==> s[s.len() - 1].1.y != s[0].1.y);
        }
    }

    /// The monotone polygon of the chain: an error for fewer than 3
    /// vertices, and `None` when every vertex shares an `x` or a `y`
    /// coordinate (nothing to triangulate). The chain runs on the left of
    /// the polygon when its second vertex is left of the line from its
    /// last vertex to its first.
    pub fn build(self) -> (r: Result<Option<Monotone>, InternalError>)
        requires
            self.wf(),
        ensures
            r is Err <==> self.chain().len() < 3,
            r matches Ok(None) ==> all_same_x(self.chain()) || all_same_y(self.chain()),
            r matches Ok(Some(m)) ==> {
                &&& !all_same_x(self.chain())
                &&& !all_same_y(self.chain())
                &&& m.is_fresh()
                &&& m.items() == self.chain()
                &&& m.left_chain() == left_of_line(
                    self.chain().last().1,
                    self.chain()[0].1,
                    self.chain()[1].1,
                )
            },
    {
        let n = chain_len(&self.vec);
        if n < 3 {
            return Err(InternalError::new("Monotone needs at least 3 vertices"));
        }
        if self.diff_x && self.diff_y {
            let last = chain_get(&self.vec, n - 1);
            let first = chain_get(&self.vec, 0);
            let second = chain_get(&self.vec, 1);
            let is_left_chain = is_left_of_line(last.1, first.1, second.1);
            Ok(Some(Monotone::new(self.vec, is_left_chain)))
        } else {
            Ok(None)
        }
    }
}

#[verifier::external_type_specification]
#[verifier::external_body]
#[verifier::reject_recursive_types(T)]
pub struct ExOt<T>(Ot<T>);

/// The monotone chains an `Ot` holds, in order.
pub uninterp spec fn monotone_slots(o: Ot<MonotoneBuilder>) -> Seq<MonotoneBuilder>;

/// The chains of an `Ot`, as a value the library can inspect.
pub enum MonotoneSlots {
    /// One chain
    One(MonotoneBuilder),
    /// Two chains, the left one first
    Two(MonotoneBuilder, MonotoneBuilder),
}

impl MonotoneSlots {
    /// The chains, in order.
    pub open spec fn seq(self) -> Seq<MonotoneBuilder> {
        match self {
            MonotoneSlots::One(m) => seq![m],
            MonotoneSlots::Two(a, b) => seq![a, b],
        }
    }
}

/// `Ot::from(m)`, which is `Ot::One(m)`: a single chain.
#[verifier::external_body]
pub fn monotones_one(m: MonotoneBuilder) -> (r: Ot<MonotoneBuilder>)
    ensures
        monotone_slots(r) == seq![m],
{
    Ot::from(m)
}

/// `Ot::from((a, b))`, which is `Ot::Two(a, b)`: two chains, in order.
#[verifier::external_body]
pub fn monotones_two(a: MonotoneBuilder, b: MonotoneBuilder) -> (r: Ot<MonotoneBuilder>)
    ensures
        monotone_slots(r) == seq![a, b],
{
    Ot::from((a, b))
}

/// Tells the variants of an `Ot` apart, moving the chains out.
#[verifier::external_body]
pub fn monotones_view(o: Ot<MonotoneBuilder>) -> (r: MonotoneSlots)
    ensures
        r.seq() == monotone_slots(o),
{
    match o {
        Ot::One(m) => MonotoneSlots::One(m),
        Ot::Two(a, b) => MonotoneSlots::Two(a, b),
    }
}

/// A monotone polygon being triangulated. The vertices are kept in one
/// vector: the skipped stack occupies `[0, skipped_top)`, the pending
/// vertices `[pending_top, len)`, and the vertices in between have been cut
/// off as ears.
pub struct Monotone {
    skipped_and_pending: ChainVec,
    skipped_top: usize,
    pending_top: usize,
    is_left_chain: bool,
}

impl Monotone {
    /// The vertex vector.
    pub closed spec fn items(&self) -> Seq<ChainVertex> {
        chain_items(self.skipped_and_pending)
    }

    /// The top of the skipped stack.
    pub closed spec fn st(&self) -> int {
        self.skipped_top as int
    }

    /// The first pending position.
    pub closed spec fn pt(&self) -> int {
        self.pending_top as int
    }

    /// Whether the chain runs on the left of the polygon.
    pub closed spec fn left_chain(&self) -> bool {
        self.is_left_chain
    }

    /// The vertices not yet cut off.
    pub closed spec fn remaining(&self) -> int {
        self.items().len() - self.pt() + self.st()
    }

    /// The state in which triangulation starts: two vertices on the skipped
    /// stack, the rest pending.
    pub closed spec fn is_fresh(&self) -> bool {
        &&& self.skipped_top == 2
        &&& self.pending_top == 2
        &&& 3 <= self.items().len() < usize::MAX
    }

    closed spec fn bounds(&self) -> bool {
        &&& 1 <= self.st() <= self.pt() <= self.items().len()
        &&& self.items().len() < usize::MAX
    }

    /// The vertices not yet cut off, in order: the skipped stack, then the
    /// pending vertices.
    closed spec fn alive(&self) -> Seq<ChainVertex> {
        self.items().take(self.st()) + self.items().skip(self.pt())
    }

    closed spec fn within(&self, orig: Seq<ChainVertex>) -> bool {
        forall|i: int| 0 <= i < self.items().len() ==> orig.contains(#[trigger] self.items()[i])
    }

    fn new(vertices: ChainVec, is_left_chain: bool) -> (r: Self)
        requires
            3 <= chain_items(vertices).len() < usize::MAX,
        ensures
            r.is_fresh(),
            r.items() == chain_items(vertices),
            r.left_chain() == is_left_chain,
    {
        Monotone { skipped_and_pending: vertices, skipped_top: 2, pending_top: 2, is_left_chain }
    }

    fn skipped_peek(&self) -> (r: ChainVertex)
        requires
            self.bounds(),
        ensures
            r == self.items()[self.st() - 1],
    {
        chain_get(&self.skipped_and_pending, self.skipped_top - 1)
    }

    fn skipped_peek2(&self) -> (r: (ChainVertex, ChainVertex))
        requires
            self.bounds(),
            self.st() >= 2,
        ensures
            r.0 == self.items()[self.st() - 2],
            r.1 == self.items()[self.st() - 1],
    {
        (
            chain_get(&self.skipped_and_pending, self.skipped_top - 2),
            chain_get(&self.skipped_and_pending, self.skipped_top - 1),
        )
    }

    fn skipped_pop(&mut self) -> (r: ChainVertex)
        requires
            old(self).bounds(),
            old(self).st() >= 2,
        ensures
            final(self).bounds(),
            r == old(self).items()[old(self).st() - 1],
            final(self).st() == old(self).st() - 1,
            final(self).pt() == old(self).pt(),
            final(self).items() == old(self).items(),
            final(self).left_chain() == old(self).left_chain(),
            final(self).alive() == old(self).alive().remove(old(self).st() - 1),
    {
        self.skipped_top = self.skipped_top - 1;
        assert(self.alive() =~= old(self).alive().remove(old(self).st() - 1));
        chain_get(&self.skipped_and_pending, self.skipped_top)
    }

    fn pending_peek(&self) -> (r: ChainVertex)
        requires
            self.bounds(),
            self.pt() < self.items().len(),
        ensures
            r == self.items()[self.pt()],
    {
        chain_get(&self.skipped_and_pending, self.pending_top)
    }

    fn remaining_vertices(&self) -> (r: usize)
        requires
            self.bounds(),
        ensures
            r == self.remaining(),
    {
        chain_len(&self.skipped_and_pending) - self.pending_top + self.skipped_top
    }

    fn transfer_pending(&mut self)
        requires
            old(self).bounds(),
            old(self).pt() < old(self).items().len(),
        ensures
            final(self).bounds(),
            final(self).st() == old(self).st() + 1,
            final(self).pt() == old(self).pt() + 1,
            final(self).items().len() == old(self).items().len(),
            final(self).left_chain() == old(self).left_chain(),
            forall|orig: Seq<ChainVertex>| old(self).within(orig) ==> #[trigger] final(self).within(
                orig,
            ),
            final(self).alive() == old(self).alive(),
            old(self).st() == old(self).pt() ==> final(self).items() == old(self).items(),
            old(self).st() != old(self).pt() ==> final(self).items() == old(self).items().update(
                old(self).st(),
                old(self).items()[old(self).pt()],
            ).update(old(self).pt(), old(self).items()[old(self).st()]),
    {
        if self.skipped_top != self.pending_top {
            chain_swap(&mut self.skipped_and_pending, self.skipped_top, self.pending_top);
        }
        self.skipped_top = self.skipped_top + 1;
        self.pending_top = self.pending_top + 1;
        proof {
            assert(self.alive() =~= old(self).alive());
            assert forall|orig: Seq<ChainVertex>| old(self).within(orig) implies #[trigger] self.within(orig) by {
                assert forall|i: int| 0 <= i < self.items().len() implies orig.contains(#[trigger] self.items()[i]) by {
                    let o = old(self).items();
                    if old(self).st() != old(self).pt() {
                        assert(self.items()[i] == o[i] || self.items()[i] == o[old(self).st()]
                            || self.items()[i] == o[old(self).pt()]);
                    } else {
                        assert(self.items()[i] == o[i]);
                    }
                }
            }
        }
    }

    fn reset_position(&mut self)
        requires
            old(self).bounds(),
            old(self).st() >= 2,
            old(self).pt() == old(self).items().len(),
        ensures
            final(self).bounds(),
            final(self).st() == 2,
            final(self).pt() == 2,
            final(self).items() == old(self).items().take(old(self).st()),
            final(self).remaining() == old(self).remaining(),
            final(self).left_chain() == old(self).left_chain(),
            final(self).alive() == old(self).alive(),
            forall|orig: Seq<ChainVertex>| old(self).within(orig) ==> #[trigger] final(self).within(
                orig,
            ),
    {
        chain_truncate(&mut self.skipped_and_pending, self.skipped_top);
        self.skipped_top = 2;
        self.pending_top = 2;
        proof {
            assert(self.alive() =~= old(self).alive());
            assert forall|orig: Seq<ChainVertex>| old(self).within(orig) implies #[trigger] self.within(orig) by {
                assert forall|i: int| 0 <= i < self.items().len() implies orig.contains(#[trigger] self.items()[i]) by {
                    assert(self.items()[i] == old(self).items()[i]);
                }
            }
        }
    }

    fn has_pending(&self) -> (r: bool)
        requires
            self.bounds(),
        ensures
            r == (self.pt() < self.items().len()),
    {
        self.pending_top < chain_len(&self.skipped_and_pending)
    }

    fn deferred_index(&self, is_backtracking: bool, i: usize) -> (r: usize)
        requires
            self.bounds(),
            is_backtracking ==> self.st() + i < self.items().len(),
            !is_backtracking ==> i < self.pt(),
        ensures
            is_backtracking ==> r == self.items()[self.st() + i].0,
            !is_backtracking ==> r == self.items()[self.pt() - 1 - i].0,
    {
        let index = if is_backtracking {
            self.skipped_top + i
        } else {
            self.pending_top - 1 - i
        };
        chain_get(&self.skipped_and_pending, index).0
    }

    fn can_triangulate(&self) -> (r: bool)
        requires
            self.bounds(),
        ensures
            r == (self.st() >= 2 && self.pt() < self.items().len() && self.left_chain() == left_of_line(
                self.items()[self.pt()].1,
                self.items()[self.st() - 2].1,
                self.items()[self.st() - 1].1,
            )),
    {
        self.skipped_top >= 2 && self.has_pending() && {
            let c_min = self.pending_peek().1;
            let (p, q) = self.skipped_peek2();
            self.is_left_chain == is_left_of_line(c_min, p.1, q.1)
        }
    }

    /// When the top two stack vertices and the next pending one form an
    /// ear, and no two vertices share a height, the triangle they make
    /// turns counterclockwise on a left chain and does not on a right one.
    proof fn lemma_ear_sign(&self, orig: Seq<ChainVertex>, idx: Seq<int>)
        requires
            self.bounds(),
            self.st() >= 2,
            self.pt() < self.items().len(),
            picks(self.alive(), orig, idx),
            distinct_heights(orig),
            self.left_chain() == left_of_line(
                self.items()[self.pt()].1,
                self.items()[self.st() - 2].1,
                self.items()[self.st() - 1].1,
            ),
        ensures
            sign_ok(
                orientation(
                    self.items()[self.st() - 2].1,
                    self.items()[self.st() - 1].1,
                    self.items()[self.pt()].1,
                ),
                self.left_chain(),
            ),
    {
        let al = self.alive();
        let s = self.st();
        let it = self.items();
        assert(al[s - 2] == it[s - 2]);
        assert(al[s - 1] == it[s - 1]);
        assert(al[s] == it[self.pt()]);
        assert(idx[s - 2] < idx[s - 1]);
        assert(idx[s - 1] < idx[s]);
        assert(0 <= idx[s - 2] && idx[s] < orig.len());
        assert(orig[idx[s - 2]].1.y != orig[idx[s - 1]].1.y);
        assert(orig[idx[s - 1]].1.y != orig[idx[s]].1.y);
        lemma_left_of_line_orientation(it[s - 2].1, it[s - 1].1, it[self.pt()].1);
    }

    /// Whether the first two vertices and the third form an ear on the
    /// inner side of the chain, so that triangulation can start at once.
    pub closed spec fn ear_at_start(&self) -> bool {
        &&& self.items().len() >= 3
        &&& self.left_chain() == left_of_line(self.items()[2].1, self.items()[0].1, self.items()[1].1)
    }

    /// Cuts the monotone polygon into triangle fans, as vertex indices.
    ///
    /// Vertices are pushed from the pending part onto the skipped stack;
    /// whenever the top two stack vertices and the next pending vertex form
    /// an ear on the inner side, ears are cut as long as possible, forming
    /// one fan. A fan whose natural order would have the wrong winding for
    /// `winding` is recorded in reverse. When every vertex has been pushed
    /// and vertices remain, the walk starts over from the remaining ones;
    /// when a whole walk cuts no ear, the walk stops.
    ///
    /// The flag is `true` when exactly two vertices remain at the end, that
    /// is, when the fans cover the polygon.
    ///
    /// When no two vertices lie at one height, every triangle of every fan
    /// is wound as `winding` (a flat one counts as either), its root being
    /// the vertex all its triangles share; for `Clockwise`, a fan the walk
    /// does not reverse comes out as such a clockwise fan with its first
    /// three vertices reordered (see [crate::reordered_clockwise]).
    #[verifier::rlimit(60)]
    #[verifier::spinoff_prover]
    pub fn plan_fans(self, winding: TriangleWinding) -> (r: (Vec<Vec<usize>>, bool))
        requires
            self.is_fresh(),
        ensures
            fans_over(r.0@, self.items()),
            r.1 <==> fan_triangles(r.0@) == self.items().len() - 2,
            self.ear_at_start() ==> r.0@.len() > 0,
            !r.1 ==> exists|idx: Seq<int>| #[trigger] stuck_at(self.items(), idx, self.left_chain()),
            distinct_heights(self.items()) ==> forall|i: int|
                0 <= i < r.0@.len() ==> fan_oriented(#[trigger] r.0@[i]@, self.items(), winding),
    {
        let ghost orig = self.items();
        let ghost lc = self.left_chain();
        let ghost gp = distinct_heights(orig);
        let ghost mut idx = Seq::new(orig.len(), |i: int| i);
        let clockwise = match winding {
            TriangleWinding::Clockwise => true,
            TriangleWinding::Counterclockwise => false,
        };
        let mut m = self;
        let mut fans: Vec<Vec<usize>> = Vec::new();
        let mut progressed = false;
        let mut stuck = false;
        assert(m.within(orig)) by {
            assert forall|i: int| 0 <= i < m.items().len() implies orig.contains(#[trigger] m.items()[i]) by {
                assert(orig[i] == m.items()[i]);
            }
        }
        while !stuck && m.remaining_vertices() >= 3
            invariant
                m.bounds(),
                m.st() >= 2,
                m.within(orig),
                fans_over(fans@, orig),
                fan_triangles(fans@) + m.remaining() == orig.len(),
                m.left_chain() == self.left_chain(),
                self.items() == orig,
                self.ear_at_start() ==> fans@.len() > 0 || (!stuck && m.st() == 2 && m.pt() == 2
                    && m.items() == orig),
                lc == self.left_chain(),
                gp == distinct_heights(orig),
                clockwise == (winding is Clockwise),
                gp ==> forall|i: int| 0 <= i < fans@.len() ==> fan_oriented(#[trigger] fans@[i]@, orig, winding),
                picks(m.alive(), orig, idx),
                !progressed ==> m.st() == m.pt(),
                !progressed ==> forall|p: int| 2 <= p < m.pt() ==> !#[trigger] ear_at(m.items(), p, lc),
                stuck ==> !progressed && m.pt() == m.items().len(),
            decreases
                m.remaining(),
                if stuck { 0int } else { 1int },
                if progressed { 1int } else { 0int },
                m.items().len() - m.pt(),
        {
            let ghost rem_start = m.remaining();
            let triangulated = m.can_triangulate();
            if triangulated {
                let ghost s0 = m.st();
                let ghost p0 = m.pt();
                let ghost a0 = m.alive();
                let ghost k0 = m.st() - 1;
                let ghost it0 = m.items();
                let ghost va = it0[s0 - 2];
                let ghost vb = it0[s0 - 1];
                let ghost vp = it0[p0];
                proof {
                    if gp {
                        m.lemma_ear_sign(orig, idx);
                    }
                }
                let (vi1, _) = m.skipped_pop();
                proof {
                    lemma_picks_remove(a0, orig, idx, k0);
                    idx = idx.remove(k0);
                }
                let (vi0_raw, _) = m.skipped_peek();
                let (vi2_raw, _) = m.pending_peek();
                proof {
                    lemma_id_in_chain(orig, m.items()[s0 - 1]);
                    lemma_id_in_chain(orig, m.items()[s0 - 2]);
                    lemma_id_in_chain(orig, m.items()[p0]);
                }
                let is_backtracking = m.can_triangulate();
                let ghost pos = lc != is_backtracking;
                let ghost mut rt: ChainVertex = if is_backtracking { vp } else { va };
                let ghost mut rim: Seq<ChainVertex> = if is_backtracking { seq![vb, va] } else { seq![vb, vp] };
                proof {
                    if gp {
                        if is_backtracking {
                            lemma_back_ear(va.1, vb.1, vp.1, lc);
                        }
                        assert(rim_signs(rt, rim, pos)) by {
                            assert(rim[0] == vb);
                        }
                    }
                    assert(orig.contains(it0[s0 - 2]) && orig.contains(it0[s0 - 1]) && orig.contains(it0[p0]));
                }
                let direct = is_backtracking ^ m.is_left_chain ^ clockwise;
                let mut fan: Vec<usize> = Vec::new();
                let mut dt: usize = 1;
                if direct {
                    if m.is_left_chain {
                        fan.push(vi0_raw);
                        fan.push(vi1);
                        fan.push(vi2_raw);
                    } else {
                        fan.push(vi2_raw);
                        fan.push(vi1);
                        fan.push(vi0_raw);
                    }
                }
                proof {
                    if direct {
                        assert(fan@ =~= chain_ids(direct_fan(rt, rim, pos)));
                    }
                }
                if is_backtracking {
                    let ghost w0 = m.items()[m.st() - 2];
                    proof {
                        if gp {
                            m.lemma_ear_sign(orig, idx);
                            lemma_back_ear(w0.1, va.1, vp.1, lc);
                        }
                    }
                    let ghost a1 = m.alive();
                    let ghost k1 = m.st() - 1;
                    m.skipped_pop();
                    proof {
                        lemma_picks_remove(a1, orig, idx, k1);
                        idx = idx.remove(k1);
                    }
                    let (v, _) = m.skipped_peek();
                    proof {
                        lemma_id_in_chain(orig, m.items()[m.st() - 1]);
                        lemma_rim_push(rt, rim, w0, pos, gp);
                        rim = rim.push(w0);
                    }
                    if direct {
                        fan.push(v);
                    } else {
                        dt = dt + 1;
                    }
                    while m.can_triangulate()
                        invariant
                            m.bounds(),
                            m.within(orig),
                            m.left_chain() == self.left_chain(),
                            picks(m.alive(), orig, idx),
                            m.pt() == p0,
                            p0 < m.items().len(),
                            s0 <= p0,
                            1 <= m.st() < s0,
                            direct ==> fan@.len() == 2 + (s0 - m.st()),
                            !direct ==> dt == s0 - m.st(),
                            !direct ==> fan@.len() == 0,
                            forall|k: int| 0 <= k < fan@.len() ==> chain_ids(orig).contains(#[trigger] fan@[k]),
                            rem_start == m.remaining() + (s0 - m.st()),
                            gp == distinct_heights(orig),
                            lc == m.left_chain(),
                            pos == !lc,
                            m.items() == it0,
                            rt == it0[p0],
                            rim.len() >= 2,
                            m.st() == s0 - rim.len() + 1,
                            forall|j: int| 0 <= j < rim.len() ==> #[trigger] rim[j] == it0[s0 - 1 - j],
                            gp ==> rim_signs(rt, rim, pos),
                            direct ==> fan@ == chain_ids(direct_fan(rt, rim, pos)),
                        decreases m.st(),
                    {
                        let ghost w = m.items()[m.st() - 2];
                        proof {
                            if gp {
                                m.lemma_ear_sign(orig, idx);
                                lemma_back_ear(w.1, rim.last().1, rt.1, lc);
                            }
                        }
                        let ghost a1 = m.alive();
                        let ghost k1 = m.st() - 1;
                        m.skipped_pop();
                        proof {
                            lemma_picks_remove(a1, orig, idx, k1);
                            idx = idx.remove(k1);
                        }
                        let (v, _) = m.skipped_peek();
                        proof {
                            lemma_id_in_chain(orig, m.items()[m.st() - 1]);
                            lemma_rim_push(rt, rim, w, pos, gp);
                            rim = rim.push(w);
                        }
                        if direct {
                            fan.push(v);
                        } else {
                            dt = dt + 1;
                        }
                    }
                } else {
                    m.transfer_pending();
                    while m.can_triangulate()
                        invariant
                            m.bounds(),
                            m.within(orig),
                            m.left_chain() == self.left_chain(),
                            picks(m.alive(), orig, idx),
                            m.st() == s0,
                            s0 >= 2,
                            m.pt() >= p0 + 1,
                            p0 >= 0,
                            direct ==> fan@.len() == 2 + (m.pt() - p0),
                            !direct ==> dt == m.pt() - p0,
                            !direct ==> fan@.len() == 0,
                            forall|k: int| 0 <= k < fan@.len() ==> chain_ids(orig).contains(#[trigger] fan@[k]),
                            rem_start == m.remaining() + (m.pt() - p0),
                            gp == distinct_heights(orig),
                            lc == m.left_chain(),
                            pos == lc,
                            s0 <= p0,
                            rt == m.items()[s0 - 2],
                            rim.len() >= 2,
                            rim.last() == m.items()[s0 - 1],
                            m.pt() == p0 + rim.len() - 1,
                            forall|j: int| 0 <= j < rim.len() - 1 ==> #[trigger] rim[j] == m.items()[p0 + j],
                            gp ==> rim_signs(rt, rim, pos),
                            direct ==> fan@ == chain_ids(direct_fan(rt, rim, pos)),
                        decreases m.items().len() - m.pt(),
                    {
                        let ghost w = m.items()[m.pt()];
                        proof {
                            if gp {
                                m.lemma_ear_sign(orig, idx);
                            }
                        }
                        let ghost a1 = m.alive();
                        let ghost k1 = m.st() - 1;
                        m.skipped_pop();
                        proof {
                            lemma_picks_remove(a1, orig, idx, k1);
                            idx = idx.remove(k1);
                        }
                        let (v, _) = m.pending_peek();
                        proof {
                            lemma_id_in_chain(orig, m.items()[m.pt()]);
                            lemma_rim_push(rt, rim, w, pos, gp);
                            rim = rim.push(w);
                        }
                        if direct {
                            fan.push(v);
                        } else {
                            dt = dt + 1;
                        }
                        m.transfer_pending();
                    }
                }
                let ghost n = rim.len();
                proof {
                    assert(forall|j: int| 0 <= j < n ==> orig.contains(#[trigger] rim[j])) by {
                        assert forall|j: int| 0 <= j < n implies orig.contains(#[trigger] rim[j]) by {
                            if is_backtracking {
                                assert(rim[j] == m.items()[s0 - 1 - j]);
                            } else if j < n - 1 {
                                assert(rim[j] == m.items()[p0 + j]);
                            } else {
                                assert(rim[j] == m.items()[s0 - 1]);
                            }
                        }
                    }
                    assert(orig.contains(rt)) by {
                        if is_backtracking {
                            assert(rt == m.items()[p0]);
                        } else {
                            assert(rt == m.items()[s0 - 2]);
                        }
                    }
                }
                if !direct {
                    let ghost target = chain_ids(reversed_fan(rt, rim));
                    let (a, b) = if is_backtracking {
                        let (p, _) = m.pending_peek();
                        let (q, _) = m.skipped_peek();
                        proof {
                            lemma_id_in_chain(orig, m.items()[m.pt()]);
                            lemma_id_in_chain(orig, m.items()[m.st() - 1]);
                        }
                        (p, q)
                    } else {
                        let (p, q) = m.skipped_peek2();
                        proof {
                            lemma_id_in_chain(orig, m.items()[m.st() - 2]);
                            lemma_id_in_chain(orig, m.items()[m.st() - 1]);
                        }
                        (p.0, q.0)
                    };
                    fan.push(a);
                    fan.push(b);
                    proof {
                        assert(reversed_fan(rt, rim)[1] == rim[n - 1]);
                        assert(fan@ =~= target.take(2));
                        assert forall|i: int| 0 <= i < dt implies #[trigger] target[2 + i] == (if is_backtracking {
                            m.items()[m.st() + i].0
                        } else {
                            m.items()[m.pt() - 1 - i].0
                        }) by {
                            assert(reversed_fan(rt, rim)[2 + i] == rim[n - 2 - i]);
                            if is_backtracking {
                                assert(rim[n - 2 - i] == m.items()[s0 - 1 - (n - 2 - i)]);
                            } else {
                                assert(rim[n - 2 - i] == m.items()[p0 + (n - 2 - i)]);
                            }
                        }
                    }
                    let mut i: usize = 0;
                    while i < dt
                        invariant
                            m.bounds(),
                            m.within(orig),
                            m.left_chain() == self.left_chain(),
                            picks(m.alive(), orig, idx),
                            i <= dt,
                            fan@.len() == 2 + i,
                            is_backtracking ==> m.st() + dt <= m.items().len(),
                            !is_backtracking ==> dt <= m.pt(),
                            forall|k: int| 0 <= k < fan@.len() ==> chain_ids(orig).contains(#[trigger] fan@[k]),
                            target.len() == 2 + dt,
                            fan@ == target.take(2 + i),
                            forall|i: int| 0 <= i < dt ==> #[trigger] target[2 + i] == (if is_backtracking {
                                m.items()[m.st() + i].0
                            } else {
                                m.items()[m.pt() - 1 - i].0
                            }),
                        decreases dt - i,
                    {
                        let d = m.deferred_index(is_backtracking, i);
                        proof {
                            if is_backtracking {
                                lemma_id_in_chain(orig, m.items()[m.st() + i]);
                            } else {
                                lemma_id_in_chain(orig, m.items()[m.pt() - 1 - i]);
                            }
                        }
                        fan.push(d);
                        proof {
                            assert(target[2 + i as int] == d);
                            assert(fan@ =~= target.take(2 + i + 1));
                        }
                        i = i + 1;
                    }
                    proof {
                        assert(fan@ =~= target);
                    }
                }
                proof {
                    if gp {
                        lemma_fan_oriented(fan@, rt, rim, pos, direct, orig, winding);
                    }
                    lemma_fan_triangles_push(fans@, fan);
                }
                fans.push(fan);
                proof {
                    if gp {
                        assert forall|i: int| 0 <= i < fans@.len() implies fan_oriented(
                            #[trigger] fans@[i]@,
                            orig,
                            winding,
                        ) by {
                            if i < fans@.len() - 1 {
                                assert(fans@[i] == fans@.drop_last()[i]);
                            }
                        }
                    }
                }
                progressed = true;
                assert(m.st() >= 2 || m.pt() < m.items().len());
            }
            if m.has_pending() {
                m.transfer_pending();
            } else if progressed {
                m.reset_position();
                progressed = false;
            } else {
                stuck = true;
            }
        }
        let ok = m.remaining_vertices() == 2;
        proof {
            if !ok {
                let items = m.items();
                assert(m.alive() =~= items);
                let part = idx.map_values(|i: int| orig[i]);
                assert(part =~= items);
                assert forall|p: int| 2 <= p < part.len() implies !#[trigger] ear_at(part, p, lc) by {
                    assert(!ear_at(items, p, lc));
                }
                assert(stuck_at(orig, idx, lc));
            }
        }
        (fans, ok)
    }

    /// Triangulates the monotone polygon into `fbs`: each fan of
    /// [Monotone::plan_fans] (planned with the builder's winding) is started
    /// with its first triangle and extended by its remaining vertices, in
    /// order, stopping at the first builder error. When the fans do not
    /// cover the polygon, an internal error follows the delivered fans.
    pub fn build_fans<FB: FanFormat<usize>>(self, fbs: &mut FanBuilderState<usize, FB>) -> (r: Result<
        (),
        FormatError<usize, FB>,
    >)
        requires
            self.is_fresh(),
        ensures
            r matches Err(e) ==> (e is FanBuilder || e is InternalError),
            old(fbs).phase() is Error ==> r is Err,
            r matches Err(TriangulationError::InternalError(_)) ==> old(fbs).phase() is Error || exists|
                idx: Seq<int>,
            | #[trigger] stuck_at(self.items(), idx, self.left_chain()),
            r is Ok ==> final(fbs).phase() is Initialized,
            r is Ok ==> exists|fans: Seq<Vec<usize>>|
                #![trigger fan_views(fans)]
                {
                    &&& fans_over(fans, self.items())
                    &&& fan_triangles(fans) == self.items().len() - 2
                    &&& final(fbs).log() == old(fbs).log() + fan_views(fans)
                },
            r is Ok && distinct_heights(self.items()) ==> exists|w: TriangleWinding|
                #![trigger call_ensures(<FB::Builder as FanBuilder<usize>>::winding, (), w)]
                call_ensures(<FB::Builder as FanBuilder<usize>>::winding, (), w) && forall|i: int|
                    old(fbs).log().len() <= i < final(fbs).log().len() ==> fan_oriented(
                        #[trigger] final(fbs).log()[i],
                        self.items(),
                        w,
                    ),
    {
        let w = <FB::Builder as FanBuilder<usize>>::winding();
        assert(call_ensures(<FB::Builder as FanBuilder<usize>>::winding, (), w));
        let (fans, ok) = self.plan_fans(w);
        assert(ok ==> fans@.len() > 0) by {
            if fans@.len() == 0 {
                assert(fan_triangles(fans@) == 0);
            }
        }
        let mut i: usize = 0;
        while i < fans.len()
            invariant
                fans_over(fans@, self.items()),
                i <= fans@.len(),
                i > 0 ==> fbs.phase() is Initialized,
                fbs.log() == old(fbs).log() + fan_views(fans@.take(i as int)),
                i == 0 ==> *fbs == *old(fbs),
                old(fbs).phase() is Error ==> i == 0,
            decreases fans@.len() - i,
        {
            let fan = &fans[i];
            assert(fan@.len() >= 3);
            let ghost before = fan_views(fans@.take(i as int));
            fbs.new_fan(fan[0], fan[1], fan[2])?;
            assert(fan@.take(3) =~= seq![fan@[0], fan@[1], fan@[2]]);
            let mut k: usize = 3;
            while k < fan.len()
                invariant
                    fbs.phase() is Initialized,
                    3 <= k <= fan@.len(),
                    fbs.log() == old(fbs).log() + before + seq![fan@.take(k as int)],
                decreases fan@.len() - k,
            {
                let ghost pre = fbs.log();
                fbs.extend_fan(fan[k])?;
                proof {
                    assert(fan@.take(k + 1) =~= fan@.take(k as int).push(fan@[k as int]));
                    assert(fbs.log() =~= old(fbs).log() + before + seq![fan@.take(k + 1)]);
                }
                k = k + 1;
            }
            proof {
                assert(fan@.take(k as int) =~= fan@);
                assert(fans@.take(i + 1) =~= fans@.take(i as int).push(fans@[i as int]));
                assert(fan_views(fans@.take(i + 1)) =~= before.push(fan@));
            }
            i = i + 1;
        }
        if ok {
            assert(fans@.take(i as int) =~= fans@);
            assert(fan_views(fans@) == fan_views(fans@.take(i as int)));
            proof {
                if distinct_heights(self.items()) {
                    let n0 = old(fbs).log().len();
                    assert forall|j: int| n0 <= j < fbs.log().len() implies fan_oriented(
                        #[trigger] fbs.log()[j],
                        self.items(),
                        w,
                    ) by {
                        assert(fbs.log()[j] == fan_views(fans@)[j - n0]);
                        assert(fan_views(fans@)[j - n0] == fans@[j - n0]@);
                    }
                }
            }
            Ok(())
        } else {
            Err(TriangulationError::internal("Expected 2 remaining vertices"))
        }
    }
}

} // verus!
