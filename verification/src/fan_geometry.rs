use vstd::prelude::*;

use crate::chain::ChainVertex;
use crate::inputs::Coords;
use crate::math::left_of_line;
use crate::monotone::chain_ids;
use crate::outputs::TriangleWinding;

verus! {

/// Twice the signed area of the triangle `a, b, c`: positive when the
/// triangle runs counterclockwise, negative when clockwise, zero when flat.
pub open spec fn orientation(a: Coords, b: Coords, c: Coords) -> int {
    (b.x - a.x) * (c.y - a.y) - (b.y - a.y) * (c.x - a.x)
}

/// The orientation of triangle `k` of a fan, `(fan[0], fan[k], fan[k + 1])`.
pub open spec fn fan_triangle_orientation(fan: Seq<ChainVertex>, k: int) -> int {
    orientation(fan[0].1, fan[k].1, fan[k + 1].1)
}

/// Whether a triangle of orientation `o` is not wound against `w` (a flat
/// triangle has either winding).
pub open spec fn wound_as(o: int, w: TriangleWinding) -> bool {
    match w {
        TriangleWinding::Counterclockwise => o >= 0,
        TriangleWinding::Clockwise => o <= 0,
    }
}

/// Every triangle of the fan is wound as `w`.
pub open spec fn fan_wound_as(fan: Seq<ChainVertex>, w: TriangleWinding) -> bool {
    forall|k: int| 1 <= k < fan.len() - 1 ==> wound_as(#[trigger] fan_triangle_orientation(fan, k), w)
}

/// The fan is a clockwise fan `root, rim[0], rim[1], ...` whose first
/// three vertices come out as `rim[1], rim[0], root`.
pub open spec fn reordered_clockwise(fan: Seq<ChainVertex>) -> bool {
    exists|root: ChainVertex, rim: Seq<ChainVertex>|
        #[trigger] swapped_fan(root, rim) == fan && rim.len() >= 2 && fan_wound_as(
            rooted_fan(root, rim),
            TriangleWinding::Clockwise,
        )
}

/// No two vertices of the chain lie at the same height.
pub open spec fn distinct_heights(chain: Seq<ChainVertex>) -> bool {
    forall|i: int, j: int| 0 <= i < j < chain.len() ==> #[trigger] chain[i].1.y != #[trigger] chain[j].1.y
}

/// The fan of vertex indices `fan` is the vertices `vs` of `chain`, in
/// fan order.
pub open spec fn fan_of(fan: Seq<usize>, vs: Seq<ChainVertex>, chain: Seq<ChainVertex>) -> bool {
    &&& vs.len() == fan.len()
    &&& forall|k: int| 0 <= k < vs.len() ==> (#[trigger] vs[k]).0 == fan[k] && chain.contains(vs[k])
}

/// The fan `fan` of vertex indices is made of vertices of `chain` whose
/// triangles are all wound as `w`; for `w` clockwise, a fan may instead be
/// a clockwise fan with its first three vertices reordered (see
/// [reordered_clockwise]).
pub open spec fn fan_oriented(fan: Seq<usize>, chain: Seq<ChainVertex>, w: TriangleWinding) -> bool {
    exists|vs: Seq<ChainVertex>|
        #[trigger] fan_of(fan, vs, chain) && (fan_wound_as(vs, w) || (w is Clockwise
            && reordered_clockwise(vs)))
}

/// `o` has the sign `pos` asks for: not negative, or not positive.
pub open spec fn sign_ok(o: int, pos: bool) -> bool {
    if pos {
        o >= 0
    } else {
        o <= 0
    }
}

/// Each triangle `(root, rim[j], rim[j + 1])` has the sign `pos` asks for.
pub open spec fn rim_signs(root: ChainVertex, rim: Seq<ChainVertex>, pos: bool) -> bool {
    forall|j: int|
        0 <= j < rim.len() - 1 ==> sign_ok(#[trigger] orientation(root.1, rim[j].1, rim[j + 1].1), pos)
}

/// The fan with `root` first and the rim in order.
pub open spec fn rooted_fan(root: ChainVertex, rim: Seq<ChainVertex>) -> Seq<ChainVertex> {
    seq![root] + rim
}

/// The fan with `root` first and the rim in reverse order.
pub open spec fn reversed_fan(root: ChainVertex, rim: Seq<ChainVertex>) -> Seq<ChainVertex> {
    seq![root] + rim.reverse()
}

/// The fan that starts with the second rim vertex, then the first, then
/// `root`, then the rest of the rim.
pub open spec fn swapped_fan(root: ChainVertex, rim: Seq<ChainVertex>) -> Seq<ChainVertex> {
    seq![rim[1], rim[0], root] + rim.skip(2)
}

/// The fan the walk records as it cuts ears in natural order: rooted when
/// `pos`, otherwise starting with the first two rim vertices exchanged
/// around the root.
pub open spec fn direct_fan(root: ChainVertex, rim: Seq<ChainVertex>, pos: bool) -> Seq<ChainVertex> {
    if pos {
        rooted_fan(root, rim)
    } else {
        swapped_fan(root, rim)
    }
}

/// A left turn of `a, b` seen from a point below or above both: away from
/// equal heights, `left_of_line` is the sign of the orientation.
pub proof fn lemma_left_of_line_orientation(a: Coords, b: Coords, p: Coords)
    requires
        a.y != b.y,
        b.y != p.y,
    ensures
        left_of_line(p, a, b) <==> orientation(a, b, p) > 0,
{
    assert((p.x - a.x) * (b.y - a.y) == (b.y - a.y) * (p.x - a.x)) by (nonlinear_arith);
    assert((p.y - a.y) * (b.x - a.x) == (b.x - a.x) * (p.y - a.y)) by (nonlinear_arith);
}

/// Rotating a triangle keeps its orientation; swapping two vertices negates it.
pub proof fn lemma_orientation_symmetry(a: Coords, b: Coords, c: Coords)
    ensures
        orientation(a, b, c) == orientation(b, c, a),
        orientation(a, c, b) == -orientation(a, b, c),
{
    let (ax, ay, bx, by, cx, cy) = (a.x as int, a.y as int, b.x as int, b.y as int, c.x as int, c.y as int);
    assert((bx - ax) * (cy - ay) - (by - ay) * (cx - ax) == (cx - bx) * (ay - by) - (cy - by) * (ax - bx))
        by (nonlinear_arith);
    assert((cx - ax) * (by - ay) - (cy - ay) * (bx - ax) == -((bx - ax) * (cy - ay) - (by - ay) * (cx - ax)))
        by (nonlinear_arith);
}

/// An ear `a, b, p` seen from `p`, with `a` and `b` exchanged, has the
/// opposite sign.
pub proof fn lemma_back_ear(a: Coords, b: Coords, p: Coords, pos: bool)
    requires
        sign_ok(orientation(a, b, p), pos),
    ensures
        sign_ok(orientation(p, b, a), !pos),
{
    lemma_orientation_symmetry(a, b, p);
    lemma_orientation_symmetry(b, p, a);
    lemma_orientation_symmetry(p, a, b);
}

/// The windings of a fan in rim order and in reverse rim order, from the
/// signs of the rim triangles.
pub proof fn lemma_fan_layouts(root: ChainVertex, rim: Seq<ChainVertex>, pos: bool)
    requires
        rim.len() >= 2,
        rim_signs(root, rim, pos),
    ensures
        fan_wound_as(
            rooted_fan(root, rim),
            if pos {
                TriangleWinding::Counterclockwise
            } else {
                TriangleWinding::Clockwise
            },
        ),
        fan_wound_as(
            reversed_fan(root, rim),
            if pos {
                TriangleWinding::Clockwise
            } else {
                TriangleWinding::Counterclockwise
            },
        ),
{
    let n = rim.len() as int;
    let ro = rooted_fan(root, rim);
    let re = reversed_fan(root, rim);
    let wo = if pos {
        TriangleWinding::Counterclockwise
    } else {
        TriangleWinding::Clockwise
    };
    assert forall|k: int| 1 <= k < ro.len() - 1 implies wound_as(#[trigger] fan_triangle_orientation(ro, k), wo) by {
        let j = k - 1;
        assert(ro[0] == root && ro[k] == rim[j] && ro[k + 1] == rim[j + 1]);
        assert(sign_ok(orientation(root.1, rim[j].1, rim[j + 1].1), pos));
    }
    let wr = if pos {
        TriangleWinding::Clockwise
    } else {
        TriangleWinding::Counterclockwise
    };
    assert forall|k: int| 1 <= k < re.len() - 1 implies wound_as(#[trigger] fan_triangle_orientation(re, k), wr) by {
        let j = n - 1 - k;
        assert(re[0] == root && re[k] == rim[j + 1] && re[k + 1] == rim[j]);
        assert(sign_ok(orientation(root.1, rim[j].1, rim[j + 1].1), pos));
        lemma_orientation_symmetry(root.1, rim[j].1, rim[j + 1].1);
    }
}

/// Adding a rim vertex whose triangle has the right sign keeps every sign
/// right, and adds its index to the end of the recorded fan.
pub proof fn lemma_rim_push(root: ChainVertex, rim: Seq<ChainVertex>, v: ChainVertex, pos: bool, checked: bool)
    requires
        rim.len() >= 2,
        checked ==> rim_signs(root, rim, pos),
        checked ==> sign_ok(orientation(root.1, rim.last().1, v.1), pos),
    ensures
        checked ==> rim_signs(root, rim.push(v), pos),
        chain_ids(direct_fan(root, rim.push(v), pos)) == chain_ids(direct_fan(root, rim, pos)).push(v.0),
{
    let r2 = rim.push(v);
    if checked {
        assert forall|j: int| 0 <= j < r2.len() - 1 implies sign_ok(
            #[trigger] orientation(root.1, r2[j].1, r2[j + 1].1),
            pos,
        ) by {
            if j < rim.len() - 1 {
                assert(r2[j] == rim[j] && r2[j + 1] == rim[j + 1]);
            } else {
                assert(r2[j] == rim.last() && r2[j + 1] == v);
            }
        }
    }
    assert(direct_fan(root, r2, pos) =~= direct_fan(root, rim, pos).push(v));
    assert(chain_ids(direct_fan(root, r2, pos)) =~= chain_ids(direct_fan(root, rim, pos)).push(v.0));
}

/// A fan recorded from a rim whose triangles have the right signs is
/// oriented as `w` asks (see [fan_oriented]).
pub proof fn lemma_fan_oriented(
    fan: Seq<usize>,
    root: ChainVertex,
    rim: Seq<ChainVertex>,
    pos: bool,
    direct: bool,
    chain: Seq<ChainVertex>,
    w: TriangleWinding,
)
    requires
        rim.len() >= 2,
        rim_signs(root, rim, pos),
        chain.contains(root),
        forall|j: int| 0 <= j < rim.len() ==> chain.contains(#[trigger] rim[j]),
        direct ==> fan == chain_ids(direct_fan(root, rim, pos)),
        !direct ==> fan == chain_ids(reversed_fan(root, rim)),
        direct ==> (pos <==> w is Counterclockwise),
        !direct ==> (pos <==> w is Clockwise),
    ensures
        fan_oriented(fan, chain, w),
{
    lemma_fan_layouts(root, rim, pos);
    let vs = if direct {
        direct_fan(root, rim, pos)
    } else {
        reversed_fan(root, rim)
    };
    assert forall|k: int| 0 <= k < vs.len() implies (#[trigger] vs[k]).0 == fan[k] && chain.contains(vs[k]) by {
        if k == 0 {
            if direct && !pos {
                assert(vs[0] == rim[1]);
            } else {
                assert(vs[0] == root);
            }
        } else if direct && pos {
            assert(vs[k] == rim[k - 1]);
        } else if direct {
            if k == 1 {
                assert(vs[k] == rim[0]);
            } else if k == 2 {
                assert(vs[k] == root);
            } else {
                assert(vs[k] == rim[k - 1]);
            }
        } else {
            assert(vs[k] == rim[rim.len() - k]);
        }
    }
    assert(fan_of(fan, vs, chain));
    if direct && !pos {
        assert(reordered_clockwise(vs)) by {
            assert(swapped_fan(root, rim) == vs);
        }
    }
}

} // verus!
