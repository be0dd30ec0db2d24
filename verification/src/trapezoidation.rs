use vstd::prelude::*;
use rand::seq::SliceRandom;
use zot::Ot;

use crate::chain::ChainVertex;
use crate::errors::{InternalError, TrapezoidationError, TriangulationError};
use crate::fan_builder_state::{FanBuilderState, FormatError};
use crate::monotone::{all_same_x, all_same_y, chain_ids, stuck_at, fan_triangles, fan_views, fans_over, MonotoneBuilder, MonotoneSlots, monotone_slots, monotones_one, monotones_two, monotones_view};
use crate::outputs::{FanBuilder, FanFormat};
use crate::idx::{Idx, NexusIdx, QueryIdx, SegmentIdx, TrapezoidIdx, lemma_wrap_inverse, wrap_next, wrap_prev};
use crate::inputs::{Coords, PolygonElement, PolygonList, coords_lt, elements_within, is_polygon_edge, polygon_runs, polygon_sizes, run_neighbours, run_sizes, run_vertices, total};
use crate::math::{left_of_line, math_n};
use crate::nexus::{borders, down_toward, replaced, Divider, DividerDirection, FinalNexusType, Nexus, dividers_in, segment_direction, trapezoids_toward};
use crate::querynode::{QueryNode, QueryNodeBranch};
use crate::segment::Segment;
use crate::trapezoid::Trapezoid;

verus! {

/// Whether the indices a trapezoid holds are in range.
pub open spec fn trapezoid_ok(t: Trapezoid, nn: nat, sn: nat, qn: nat) -> bool {
    &&& (t.up matches Some(ni) ==> ni@ < nn)
    &&& (t.down matches Some(ni) ==> ni@ < nn)
    &&& (t.left matches Some(si) ==> si@ < sn)
    &&& (t.right matches Some(si) ==> si@ < sn)
    &&& t.sink@ < qn
}

/// Whether the indices a query node at position `i` holds are in range, the
/// children of a branch coming after it.
pub open spec fn query_ok(q: QueryNode, i: int, nn: nat, sn: nat, tn: nat, qn: nat) -> bool {
    match q {
        QueryNode::Branch(l, r, b) => {
            &&& i < l@ < qn
            &&& i < r@ < qn
            &&& match b {
                QueryNodeBranch::X(si) => si@ < sn,
                QueryNodeBranch::Y(ni) => ni@ < nn,
            }
        },
        QueryNode::Sink(ti) => ti@ < tn,
    }
}

/// Whether a nexus names a vertex at its position and the indices it holds
/// are in range.
pub open spec fn nexus_ok(n: Nexus, vertices: Seq<Coords>, sn: nat, tn: nat) -> bool {
    &&& n.spec_vi() < vertices.len()
    &&& n.spec_c() == vertices[n.spec_vi() as int]
    &&& n.spec_upleft()@ < tn
    &&& n.spec_downleft()@ < tn
    &&& n.spec_dividers().len() <= 2
    &&& forall|k: int|
        0 <= k < n.spec_dividers().len() ==> (#[trigger] n.spec_dividers()[k]).si@ < sn
            && n.spec_dividers()[k].ti_right@ < tn
}

/// Whether a segment's ends are in range.
pub open spec fn segment_ok(s: Segment, nn: nat) -> bool {
    s.spec_ni_min()@ < nn && s.spec_ni_max()@ < nn
}

/// Whether query node `q` is the sink of trapezoid `ti`.
pub open spec fn is_sink_of(q: QueryNode, ti: int) -> bool {
    q matches QueryNode::Sink(t) && t@ == ti
}

/// The arenas of a trapezoidation are consistent: every stored index is in
/// range, the query structure has its root at position 0 and every branch's
/// children come after it, and every trapezoid's sink names it.
pub open spec fn arenas_wf(
    vertices: Seq<Coords>,
    ns: Seq<Nexus>,
    ss: Seq<Segment>,
    ts: Seq<Trapezoid>,
    qs: Seq<QueryNode>,
) -> bool {
    &&& qs.len() >= 1
    &&& ts.len() >= 1
    &&& ns.len() < usize::MAX
    &&& ss.len() < usize::MAX
    &&& ts.len() < usize::MAX
    &&& qs.len() < usize::MAX
    &&& forall|i: int| 0 <= i < ns.len() ==> nexus_ok(#[trigger] ns[i], vertices, ss.len(), ts.len())
    &&& forall|i: int| 0 <= i < ss.len() ==> segment_ok(#[trigger] ss[i], ns.len())
    &&& forall|i: int|
        0 <= i < ts.len() ==> trapezoid_ok(#[trigger] ts[i], ns.len(), ss.len(), qs.len())
    &&& forall|i: int|
        0 <= i < qs.len() ==> query_ok(#[trigger] qs[i], i, ns.len(), ss.len(), ts.len(), qs.len())
    &&& forall|i: int| 0 <= i < ts.len() ==> is_sink_of(qs[(#[trigger] ts[i]).sink@ as int], i)
}

/// The query descent for point `c` from node `qi`: follows the left child
/// when `c` is left of the branch's segment (`X`) or not above its nexus
/// (`Y`), until a sink.
pub open spec fn locate(ns: Seq<Nexus>, ss: Seq<Segment>, qs: Seq<QueryNode>, c: Coords, qi: int) -> int
    decreases qs.len() - qi,
{
    if 0 <= qi < qs.len() {
        match qs[qi] {
            QueryNode::Branch(l, r, b) => {
                let use_left = match b {
                    QueryNodeBranch::X(si) => left_of_line(
                        ss[si@ as int].spec_c_min(),
                        ss[si@ as int].spec_c_max(),
                        c,
                    ),
                    QueryNodeBranch::Y(ni) => coords_lt(c, ns[ni@ as int].spec_c()) || c
                        == ns[ni@ as int].spec_c(),
                };
                let next = if use_left { l@ as int } else { r@ as int };
                if qi < next < qs.len() {
                    locate(ns, ss, qs, c, next)
                } else {
                    qi
                }
            },
            QueryNode::Sink(_) => qi,
        }
    } else {
        qi
    }
}


/// The query structure `b` keeps every branch of `a` at its position: only
/// sinks are replaced, and nodes are appended.
pub open spec fn query_refines(a: Seq<QueryNode>, b: Seq<QueryNode>) -> bool {
    &&& a.len() <= b.len()
    &&& forall|i: int| 0 <= i < a.len() && (#[trigger] a[i]) is Branch ==> b[i] == a[i]
}

/// `b` holds the segments of `a` at the same positions.
pub open spec fn segments_kept(a: Seq<Segment>, b: Seq<Segment>) -> bool {
    &&& a.len() <= b.len()
    &&& forall|i: int| 0 <= i < a.len() ==> #[trigger] b[i] == a[i]
}

/// Every nexus of `a` is at the same vertex and position in `b`.
pub open spec fn same_places(a: Seq<Nexus>, b: Seq<Nexus>) -> bool {
    &&& a.len() <= b.len()
    &&& forall|i: int| 0 <= i < a.len() ==> (#[trigger] b[i]).spec_vi() == a[i].spec_vi() && b[i].spec_c() == a[i].spec_c()
}

/// The arenas (`ns2`, `ss2`, `qs2`) grew from (`ns`, `ss`, `qs`) without
/// moving a nexus, changing a segment, or changing a query branch.
pub open spec fn grew_from(
    ns: Seq<Nexus>,
    ss: Seq<Segment>,
    qs: Seq<QueryNode>,
    ns2: Seq<Nexus>,
    ss2: Seq<Segment>,
    qs2: Seq<QueryNode>,
) -> bool {
    &&& same_places(ns, ns2)
    &&& segments_kept(ss, ss2)
    &&& query_refines(qs, qs2)
}

/// Growing is transitive.
pub proof fn lemma_grew_trans(
    ns: Seq<Nexus>,
    ss: Seq<Segment>,
    qs: Seq<QueryNode>,
    ns2: Seq<Nexus>,
    ss2: Seq<Segment>,
    qs2: Seq<QueryNode>,
    ns3: Seq<Nexus>,
    ss3: Seq<Segment>,
    qs3: Seq<QueryNode>,
)
    requires
        grew_from(ns, ss, qs, ns2, ss2, qs2),
        grew_from(ns2, ss2, qs2, ns3, ss3, qs3),
    ensures
        grew_from(ns, ss, qs, ns3, ss3, qs3),
{
    assert forall|i: int| 0 <= i < ns.len() implies (#[trigger] ns3[i]).spec_vi() == ns[i].spec_vi() && ns3[i].spec_c() == ns[i].spec_c() by {
        assert(ns2[i].spec_vi() == ns[i].spec_vi());
    }
    assert forall|i: int| 0 <= i < ss.len() implies #[trigger] ss3[i] == ss[i] by {
        assert(ss2[i] == ss[i]);
    }
    assert forall|i: int| 0 <= i < qs.len() && (#[trigger] qs[i]) is Branch implies qs3[i] == qs[i] by {
        assert(qs2[i] == qs[i]);
    }
}

/// In consistent arenas, a search ends at a sink, and a search from there
/// stays there.
pub proof fn lemma_locate_sink(
    vs: Seq<Coords>,
    ns: Seq<Nexus>,
    ss: Seq<Segment>,
    ts: Seq<Trapezoid>,
    qs: Seq<QueryNode>,
    c: Coords,
    q: int,
)
    requires
        arenas_wf(vs, ns, ss, ts, qs),
        0 <= q < qs.len(),
    ensures
        0 <= locate(ns, ss, qs, c, q) < qs.len(),
        qs[locate(ns, ss, qs, c, q)] is Sink,
        locate(ns, ss, qs, c, locate(ns, ss, qs, c, q)) == locate(ns, ss, qs, c, q),
    decreases qs.len() - q,
{
    assert(query_ok(qs[q], q, ns.len(), ss.len(), ts.len(), qs.len()));
    match qs[q] {
        QueryNode::Branch(l, r, b) => {
            let use_left = match b {
                QueryNodeBranch::X(si) => left_of_line(
                    ss[si@ as int].spec_c_min(),
                    ss[si@ as int].spec_c_max(),
                    c,
                ),
                QueryNodeBranch::Y(ni) => coords_lt(c, ns[ni@ as int].spec_c()) || c == ns[ni@ as int].spec_c(),
            };
            let next = if use_left { l@ as int } else { r@ as int };
            lemma_locate_sink(vs, ns, ss, ts, qs, c, next);
        },
        QueryNode::Sink(_) => {},
    }
}

/// A search resumed, in grown arenas, from where a search in the earlier
/// arenas ended, ends where a search from the earlier start ends: stored
/// search results stay valid starting points as the structure grows.
pub proof fn lemma_locate_resume(
    vs: Seq<Coords>,
    ns: Seq<Nexus>,
    ss: Seq<Segment>,
    ts: Seq<Trapezoid>,
    qs: Seq<QueryNode>,
    ns2: Seq<Nexus>,
    ss2: Seq<Segment>,
    qs2: Seq<QueryNode>,
    c: Coords,
    q: int,
)
    requires
        arenas_wf(vs, ns, ss, ts, qs),
        grew_from(ns, ss, qs, ns2, ss2, qs2),
        0 <= q < qs.len(),
    ensures
        locate(ns2, ss2, qs2, c, q) == locate(ns2, ss2, qs2, c, locate(ns, ss, qs, c, q)),
    decreases qs.len() - q,
{
    assert(query_ok(qs[q], q, ns.len(), ss.len(), ts.len(), qs.len()));
    match qs[q] {
        QueryNode::Branch(l, r, b) => {
            assert(qs2[q] == qs[q]);
            match b {
                QueryNodeBranch::X(si) => {
                    assert(ss2[si@ as int] == ss[si@ as int]);
                },
                QueryNodeBranch::Y(ni) => {
                    assert(ns2[ni@ as int].spec_c() == ns[ni@ as int].spec_c());
                },
            }
            let use_left = match b {
                QueryNodeBranch::X(si) => left_of_line(
                    ss[si@ as int].spec_c_min(),
                    ss[si@ as int].spec_c_max(),
                    c,
                ),
                QueryNodeBranch::Y(ni) => coords_lt(c, ns[ni@ as int].spec_c()) || c == ns[ni@ as int].spec_c(),
            };
            let next = if use_left { l@ as int } else { r@ as int };
            lemma_locate_resume(vs, ns, ss, ts, qs, ns2, ss2, qs2, c, next);
        },
        QueryNode::Sink(_) => {},
    }
}

/// Changing a trapezoid's bounds, keeping its sink, keeps the arenas
/// consistent.
proof fn lemma_set_trapezoid(
    vs: Seq<Coords>,
    ns: Seq<Nexus>,
    ss: Seq<Segment>,
    ts: Seq<Trapezoid>,
    qs: Seq<QueryNode>,
    i: int,
    t: Trapezoid,
)
    requires
        arenas_wf(vs, ns, ss, ts, qs),
        0 <= i < ts.len(),
        trapezoid_ok(t, ns.len(), ss.len(), qs.len()),
        t.sink == ts[i].sink,
    ensures
        arenas_wf(vs, ns, ss, ts.update(i, t), qs),
{
    let ts2 = ts.update(i, t);
    assert forall|j: int| 0 <= j < ts2.len() implies is_sink_of(qs[(#[trigger] ts2[j]).sink@ as int], j) by {
        assert(is_sink_of(qs[ts[j].sink@ as int], j));
    }
    assert forall|j: int| 0 <= j < ts2.len() implies trapezoid_ok(#[trigger] ts2[j], ns.len(), ss.len(), qs.len()) by {
        assert(trapezoid_ok(ts[j], ns.len(), ss.len(), qs.len()));
    }
}

/// Replacing a nexus by a consistent one keeps the arenas consistent.
proof fn lemma_set_nexus(
    vs: Seq<Coords>,
    ns: Seq<Nexus>,
    ss: Seq<Segment>,
    ts: Seq<Trapezoid>,
    qs: Seq<QueryNode>,
    i: int,
    n: Nexus,
)
    requires
        arenas_wf(vs, ns, ss, ts, qs),
        0 <= i < ns.len(),
        nexus_ok(n, vs, ss.len(), ts.len()),
    ensures
        arenas_wf(vs, ns.update(i, n), ss, ts, qs),
{
    let ns2 = ns.update(i, n);
    assert forall|j: int| 0 <= j < ns2.len() implies nexus_ok(#[trigger] ns2[j], vs, ss.len(), ts.len()) by {
        assert(nexus_ok(ns[j], vs, ss.len(), ts.len()));
    }
}

/// A nexus stays consistent when one of its trapezoid references is
/// redirected to a trapezoid in range.
proof fn lemma_replaced_nexus_ok(o: Nexus, n: Nexus, vs: Seq<Coords>, sn: nat, tn: nat, ti_new: TrapezoidIdx)
    requires
        nexus_ok(o, vs, sn, tn),
        ti_new@ < tn,
        n.spec_vi() == o.spec_vi(),
        n.spec_c() == o.spec_c(),
        n.spec_upleft() == o.spec_upleft() || n.spec_upleft() == ti_new,
        n.spec_downleft() == o.spec_downleft() || n.spec_downleft() == ti_new,
        n.spec_dividers().len() == o.spec_dividers().len(),
        forall|k: int|
            0 <= k < o.spec_dividers().len() ==> (#[trigger] n.spec_dividers()[k]).si
                == o.spec_dividers()[k].si && (n.spec_dividers()[k].ti_right
                == o.spec_dividers()[k].ti_right || n.spec_dividers()[k].ti_right == ti_new),
    ensures
        nexus_ok(n, vs, sn, tn),
{
    assert forall|j: int| 0 <= j < n.spec_dividers().len() implies (#[trigger] n.spec_dividers()[j]).si@ < sn
        && n.spec_dividers()[j].ti_right@ < tn by {
        assert(o.spec_dividers()[j].si@ < sn);
    }
}

/// Merging the part of trapezoid `ti` across segment `si` into a
/// neighbouring trapezoid: its sink becomes a segment test whose new child
/// (appended) takes over as the trapezoid's sink, and whose other child is
/// the neighbour's sink.
proof fn lemma_merge(
    vs: Seq<Coords>,
    ns: Seq<Nexus>,
    ss: Seq<Segment>,
    ts: Seq<Trapezoid>,
    qs: Seq<QueryNode>,
    ti: int,
    t: Trapezoid,
    branch: QueryNode,
)
    requires
        arenas_wf(vs, ns, ss, ts, qs),
        0 <= ti < ts.len(),
        qs.len() + 1 < usize::MAX,
        trapezoid_ok(t, ns.len(), ss.len(), qs.len() + 1),
        t.sink@ == qs.len(),
        query_ok(branch, ts[ti].sink@ as int, ns.len(), ss.len(), ts.len(), qs.len() + 1),
    ensures
        arenas_wf(
            vs,
            ns,
            ss,
            ts.update(ti, t),
            qs.update(ts[ti].sink@ as int, branch).push(qs[ts[ti].sink@ as int]),
        ),
{
    let qi = ts[ti].sink@ as int;
    let ts2 = ts.update(ti, t);
    let qs2 = qs.update(qi, branch).push(qs[qi]);
    assert(is_sink_of(qs[qi], ti));
    assert forall|j: int| 0 <= j < ts2.len() implies trapezoid_ok(#[trigger] ts2[j], ns.len(), ss.len(), qs2.len()) by {
        assert(trapezoid_ok(ts[j], ns.len(), ss.len(), qs.len()));
    }
    assert forall|j: int| 0 <= j < qs2.len() implies query_ok(#[trigger] qs2[j], j, ns.len(), ss.len(), ts2.len(), qs2.len()) by {
        if j < qs.len() && j != qi {
            assert(query_ok(qs[j], j, ns.len(), ss.len(), ts.len(), qs.len()));
        } else if j == qs.len() {
            assert(query_ok(qs[qi], qi, ns.len(), ss.len(), ts.len(), qs.len()));
        }
    }
    assert forall|j: int| 0 <= j < ts2.len() implies is_sink_of(qs2[(#[trigger] ts2[j]).sink@ as int], j) by {
        if j != ti {
            assert(is_sink_of(qs[ts[j].sink@ as int], j));
            assert(ts[j].sink@ != qi);
        }
    }
    assert forall|j: int| 0 <= j < ns.len() implies nexus_ok(#[trigger] ns[j], vs, ss.len(), ts2.len()) by {
        assert(nexus_ok(ns[j], vs, ss.len(), ts.len()));
    }
}

/// Appending a segment whose ends are in range keeps the arenas
/// consistent.
proof fn lemma_push_segment(
    vs: Seq<Coords>,
    ns: Seq<Nexus>,
    ss: Seq<Segment>,
    ts: Seq<Trapezoid>,
    qs: Seq<QueryNode>,
    s: Segment,
)
    requires
        arenas_wf(vs, ns, ss, ts, qs),
        segment_ok(s, ns.len()),
        ss.len() + 1 < usize::MAX,
    ensures
        arenas_wf(vs, ns, ss.push(s), ts, qs),
{
    let ss2 = ss.push(s);
    assert forall|i: int| 0 <= i < ns.len() implies nexus_ok(#[trigger] ns[i], vs, ss2.len(), ts.len()) by {
        assert(nexus_ok(ns[i], vs, ss.len(), ts.len()));
    }
    assert forall|i: int| 0 <= i < ss2.len() implies segment_ok(#[trigger] ss2[i], ns.len()) by {
        if i < ss.len() {
            assert(segment_ok(ss[i], ns.len()));
        }
    }
    assert forall|i: int| 0 <= i < ts.len() implies trapezoid_ok(#[trigger] ts[i], ns.len(), ss2.len(), qs.len()) by {
        assert(trapezoid_ok(ts[i], ns.len(), ss.len(), qs.len()));
    }
    assert forall|i: int| 0 <= i < qs.len() implies query_ok(#[trigger] qs[i], i, ns.len(), ss2.len(), ts.len(), qs.len()) by {
        assert(query_ok(qs[i], i, ns.len(), ss.len(), ts.len(), qs.len()));
    }
}

/// Cutting trapezoid `ti` in two: it becomes `tl` (found through the old
/// sink node, moved to the end) and `tr` is appended (found through the
/// new sink node `s`), while the old sink's place holds the branch `b`.
proof fn lemma_split(
    vs: Seq<Coords>,
    ns: Seq<Nexus>,
    ss: Seq<Segment>,
    ts: Seq<Trapezoid>,
    qs: Seq<QueryNode>,
    ti: int,
    tl: Trapezoid,
    tr: Trapezoid,
    b: QueryNode,
    s: QueryNode,
)
    requires
        arenas_wf(vs, ns, ss, ts, qs),
        0 <= ti < ts.len(),
        ts.len() + 1 < usize::MAX,
        qs.len() + 2 < usize::MAX,
        trapezoid_ok(tl, ns.len(), ss.len(), qs.len() + 2),
        tl.sink@ == qs.len(),
        trapezoid_ok(tr, ns.len(), ss.len(), qs.len() + 2),
        tr.sink@ == qs.len() + 1,
        query_ok(b, ts[ti].sink@ as int, ns.len(), ss.len(), ts.len() + 1, qs.len() + 2),
        is_sink_of(s, ts.len() as int),
    ensures
        arenas_wf(
            vs,
            ns,
            ss,
            ts.update(ti, tl).push(tr),
            qs.update(ts[ti].sink@ as int, b).push(qs[ts[ti].sink@ as int]).push(s),
        ),
{
    let qi = ts[ti].sink@ as int;
    let ts2 = ts.update(ti, tl).push(tr);
    let qs2 = qs.update(qi, b).push(qs[qi]).push(s);
    assert(is_sink_of(qs[qi], ti));
    assert forall|j: int| 0 <= j < ns.len() implies nexus_ok(#[trigger] ns[j], vs, ss.len(), ts2.len()) by {
        assert(nexus_ok(ns[j], vs, ss.len(), ts.len()));
    }
    assert forall|j: int| 0 <= j < ss.len() implies segment_ok(#[trigger] ss[j], ns.len()) by {
        assert(segment_ok(ss[j], ns.len()));
    }
    assert forall|j: int| 0 <= j < ts2.len() implies trapezoid_ok(#[trigger] ts2[j], ns.len(), ss.len(), qs2.len()) by {
        if j < ts.len() && j != ti {
            assert(trapezoid_ok(ts[j], ns.len(), ss.len(), qs.len()));
        }
    }
    assert forall|j: int| 0 <= j < qs2.len() implies query_ok(#[trigger] qs2[j], j, ns.len(), ss.len(), ts2.len(), qs2.len()) by {
        if j < qs.len() && j != qi {
            assert(query_ok(qs[j], j, ns.len(), ss.len(), ts.len(), qs.len()));
        }
    }
    assert forall|j: int| 0 <= j < ts2.len() implies is_sink_of(qs2[(#[trigger] ts2[j]).sink@ as int], j) by {
        if j < ts.len() && j != ti {
            assert(is_sink_of(qs[ts[j].sink@ as int], j));
            assert(ts[j].sink@ != qi);
        }
    }
}

/// Whether two optional segment references name the same segment (or
/// both none).
fn same_segment(a: Option<SegmentIdx>, b: Option<SegmentIdx>) -> (r: bool)
    ensures
        r <==> match (a, b) {
            (None, None) => true,
            (Some(x), Some(y)) => x@ == y@,
            _ => false,
        },
{
    match (a, b) {
        (Some(x), Some(y)) => x.usize() == y.usize(),
        (None, None) => true,
        _ => false,
    }
}

/// Where a polygon vertex not yet inserted was last located in the query
/// structure, or the nexus it became.
#[derive(Clone, Copy)]
enum QueryNodeOrNexus {
    /// Vertex index and a query node whose region holds the vertex
    QueryNode(usize, QueryIdx),
    /// The nexus of the inserted vertex
    Nexus(NexusIdx),
}

/// Whether a lookup entry names a vertex, query node or nexus in range.
spec fn lookup_ok(q: QueryNodeOrNexus, vn: nat, nn: nat, qn: nat) -> bool {
    match q {
        QueryNodeOrNexus::QueryNode(vi, qi) => vi < vn && qi@ < qn,
        QueryNodeOrNexus::Nexus(ni) => ni@ < nn,
    }
}

/// Whether every lookup entry is in range.
spec fn lookups_ok(q: Seq<QueryNodeOrNexus>, vn: nat, nn: nat, qn: nat) -> bool {
    forall|k: int| 0 <= k < q.len() ==> lookup_ok(#[trigger] q[k], vn, nn, qn)
}

/// Lookup entries stay in range as the arenas grow.
proof fn lemma_lookups_grow(q: Seq<QueryNodeOrNexus>, vn: nat, nn: nat, qn: nat, nn2: nat, qn2: nat)
    requires
        lookups_ok(q, vn, nn, qn),
        nn <= nn2,
        qn <= qn2,
    ensures
        lookups_ok(q, vn, nn2, qn2),
{
    assert forall|k: int| 0 <= k < q.len() implies lookup_ok(#[trigger] q[k], vn, nn2, qn2) by {
        assert(lookup_ok(q[k], vn, nn, qn));
    }
}

/// The number of lookup entries whose vertex is not yet inserted.
spec fn pending(q: Seq<QueryNodeOrNexus>) -> nat
    decreases q.len(),
{
    if q.len() == 0 {
        0
    } else {
        pending(q.drop_last()) + if q.last() is QueryNode {
            1nat
        } else {
            0nat
        }
    }
}

/// Replacing one entry changes the count of pending entries by the
/// difference of their kinds.
proof fn lemma_pending_update(q: Seq<QueryNodeOrNexus>, k: int, v: QueryNodeOrNexus)
    requires
        0 <= k < q.len(),
    ensures
        pending(q.update(k, v)) + (if q[k] is QueryNode { 1int } else { 0int }) == pending(q) + (
        if v is QueryNode {
            1int
        } else {
            0int
        }),
    decreases q.len(),
{
    let u = q.update(k, v);
    if k == q.len() - 1 {
        assert(u.drop_last() =~= q.drop_last());
    } else {
        lemma_pending_update(q.drop_last(), k, v);
        assert(u.drop_last() =~= q.drop_last().update(k, v));
    }
}

/// Entries of the same kinds have the same count of pending entries.
proof fn lemma_pending_same_kinds(a: Seq<QueryNodeOrNexus>, b: Seq<QueryNodeOrNexus>)
    requires
        a.len() == b.len(),
        forall|k: int| 0 <= k < a.len() ==> (#[trigger] a[k] is QueryNode) == (b[k] is QueryNode),
    ensures
        pending(a) == pending(b),
    decreases a.len(),
{
    if a.len() > 0 {
        lemma_pending_same_kinds(a.drop_last(), b.drop_last());
    }
}

/// The count of pending entries is that of the entries not yet inserted:
/// all of them, none, or in between.
proof fn lemma_pending_bounds(q: Seq<QueryNodeOrNexus>)
    ensures
        pending(q) <= q.len(),
        (forall|k: int| 0 <= k < q.len() ==> (#[trigger] q[k]) is QueryNode) ==> pending(q) == q.len(),
        (forall|k: int| 0 <= k < q.len() ==> (#[trigger] q[k]) is Nexus) ==> pending(q) == 0,
    decreases q.len(),
{
    if q.len() > 0 {
        lemma_pending_bounds(q.drop_last());
        assert(q.last() == q[q.len() - 1]);
        if forall|k: int| 0 <= k < q.len() ==> (#[trigger] q[k]) is QueryNode {
            assert forall|k: int| 0 <= k < q.drop_last().len() implies (#[trigger] q.drop_last()[k]) is QueryNode by {
                assert(q.drop_last()[k] == q[k]);
            }
        }
        if forall|k: int| 0 <= k < q.len() ==> (#[trigger] q[k]) is Nexus {
            assert forall|k: int| 0 <= k < q.drop_last().len() implies (#[trigger] q.drop_last()[k]) is Nexus by {
                assert(q.drop_last()[k] == q[k]);
            }
        }
    }
}

/// The polygons completed after reading part of `e` are the first
/// polygons of `e`.
proof fn lemma_run_prefix(e: Seq<PolygonElement<usize>>, j: int)
    requires
        0 <= j <= e.len(),
    ensures
        run_sizes(e.take(j)).0.len() <= polygon_sizes(e).len(),
        forall|k: int| 0 <= k < run_sizes(e.take(j)).0.len()
            ==> #[trigger] run_sizes(e.take(j)).0[k] == polygon_sizes(e)[k],
    decreases e.len() - j,
{
    let a = run_sizes(e.take(j)).0;
    if j == e.len() {
        assert(e.take(j) =~= e);
        let (done, cur) = run_sizes(e);
        assert forall|k: int| 0 <= k < a.len() implies #[trigger] a[k] == polygon_sizes(e)[k] by {
            if cur > 0 {
                assert(done.push(cur)[k] == done[k]);
            }
        }
    } else {
        lemma_run_prefix(e, j + 1);
        assert(e.take(j + 1).drop_last() =~= e.take(j));
        let b = run_sizes(e.take(j + 1)).0;
        let cur = run_sizes(e.take(j)).1;
        assert(b == a || b == a.push(cur));
        assert forall|k: int| 0 <= k < a.len() implies #[trigger] a[k] == polygon_sizes(e)[k] by {
            assert(a[k] == b[k]);
        }
    }
}

/// The vertices read so far never exceed the vertices of all polygons.
proof fn lemma_run_total(e: Seq<PolygonElement<usize>>, j: int)
    requires
        0 <= j <= e.len(),
    ensures
        total(run_sizes(e.take(j)).0) + run_sizes(e.take(j)).1 <= total(polygon_sizes(e)),
    decreases e.len() - j,
{
    if j == e.len() {
        assert(e.take(j) =~= e);
        let (done, cur) = run_sizes(e);
        if cur > 0 {
            assert(done.push(cur).drop_last() =~= done);
        }
    } else {
        lemma_run_total(e, j + 1);
        assert(e.take(j + 1).drop_last() =~= e.take(j));
        let (done, cur) = run_sizes(e.take(j));
        if cur > 0 {
            assert(done.push(cur).drop_last() =~= done);
        }
    }
}

/// Whether each lookup entry of a vertex not yet inserted names a query
/// node from which a search for the vertex ends where a search from the
/// root ends.
spec fn lookups_sound(
    q: Seq<QueryNodeOrNexus>,
    vs: Seq<Coords>,
    ns: Seq<Nexus>,
    ss: Seq<Segment>,
    qs: Seq<QueryNode>,
) -> bool {
    forall|k: int| 0 <= k < q.len() ==> match #[trigger] q[k] {
        QueryNodeOrNexus::QueryNode(vi, qi) => locate(ns, ss, qs, vs[vi as int], qi@ as int)
            == locate(ns, ss, qs, vs[vi as int], 0),
        QueryNodeOrNexus::Nexus(_) => true,
    }
}

/// Sound lookup entries stay sound as the arenas grow.
proof fn lemma_lookups_sound_grow(
    q: Seq<QueryNodeOrNexus>,
    vs: Seq<Coords>,
    ns: Seq<Nexus>,
    ss: Seq<Segment>,
    ts: Seq<Trapezoid>,
    qs: Seq<QueryNode>,
    ns2: Seq<Nexus>,
    ss2: Seq<Segment>,
    qs2: Seq<QueryNode>,
)
    requires
        arenas_wf(vs, ns, ss, ts, qs),
        grew_from(ns, ss, qs, ns2, ss2, qs2),
        lookups_ok(q, vs.len(), ns.len(), qs.len()),
        lookups_sound(q, vs, ns, ss, qs),
    ensures
        lookups_sound(q, vs, ns2, ss2, qs2),
{
    assert forall|k: int| 0 <= k < q.len() implies match #[trigger] q[k] {
        QueryNodeOrNexus::QueryNode(vi, qi) => locate(ns2, ss2, qs2, vs[vi as int], qi@ as int)
            == locate(ns2, ss2, qs2, vs[vi as int], 0),
        QueryNodeOrNexus::Nexus(_) => true,
    } by {
        assert(lookup_ok(q[k], vs.len(), ns.len(), qs.len()));
        match q[k] {
            QueryNodeOrNexus::QueryNode(vi, qi) => {
                let c = vs[vi as int];
                lemma_locate_resume(vs, ns, ss, ts, qs, ns2, ss2, qs2, c, qi@ as int);
                lemma_locate_resume(vs, ns, ss, ts, qs, ns2, ss2, qs2, c, 0);
            },
            QueryNodeOrNexus::Nexus(_) => {},
        }
    }
}

/// Whether no two lookup entries name the same nexus.
spec fn lookups_distinct(q: Seq<QueryNodeOrNexus>) -> bool {
    forall|m1: int, m2: int|
        0 <= m1 < q.len() && 0 <= m2 < q.len() && m1 != m2 && (#[trigger] q[m1]) is Nexus
            && (#[trigger] q[m2]) is Nexus ==> q[m1]->Nexus_0@ != q[m2]->Nexus_0@
}

/// Whether a lookup entry names nexus `j`.
spec fn names_nexus(q: Seq<QueryNodeOrNexus>, j: nat) -> bool {
    exists|m: int| 0 <= m < q.len() && (#[trigger] q[m]) is Nexus && q[m]->Nexus_0@ == j
}

/// Whether lookup entry `m` names a nexus that joins segment `si`.
spec fn entry_joins(q: Seq<QueryNodeOrNexus>, m: int, ns: Seq<Nexus>, si: nat) -> bool {
    &&& q[m] is Nexus
    &&& q[m]->Nexus_0@ < ns.len()
    &&& joins_any(ns[q[m]->Nexus_0@ as int], si)
}

/// Segment `s` is the edge from lookup entry `e` to the next one (the last
/// entry joining the first), both already nexuses, running from its lower
/// end to its upper end in the sweep order.
spec fn edge_segment(s: Segment, ns: Seq<Nexus>, q: Seq<QueryNodeOrNexus>, e: int) -> bool {
    let f = wrap_next(e as nat, q.len()) as int;
    &&& q[e] is Nexus
    &&& q[f] is Nexus
    &&& ((s.spec_ni_min() == q[e]->Nexus_0 && s.spec_ni_max() == q[f]->Nexus_0) || (s.spec_ni_min()
        == q[f]->Nexus_0 && s.spec_ni_max() == q[e]->Nexus_0))
    &&& !coords_lt(ns[s.spec_ni_max()@ as int].spec_c(), ns[s.spec_ni_min()@ as int].spec_c())
}

/// Lookup entries `b` follow from `a`: a vertex still to insert keeps its
/// vertex, a vertex inserted since names a nexus of that vertex in `ns`,
/// and an entry naming a nexus keeps it.
spec fn entries_advanced(a: Seq<QueryNodeOrNexus>, b: Seq<QueryNodeOrNexus>, ns: Seq<Nexus>) -> bool {
    &&& a.len() == b.len()
    &&& forall|k: int| 0 <= k < a.len() ==> match (#[trigger] a[k], b[k]) {
        (QueryNodeOrNexus::QueryNode(vi, _), QueryNodeOrNexus::QueryNode(vj, _)) => vi == vj,
        (QueryNodeOrNexus::QueryNode(vi, _), QueryNodeOrNexus::Nexus(ni)) => ni@ < ns.len()
            && ns[ni@ as int].spec_vi() == vi,
        (QueryNodeOrNexus::Nexus(x), QueryNodeOrNexus::Nexus(y)) => x == y,
        _ => false,
    }
}

/// Advancing is transitive, the nexuses keeping their places.
proof fn lemma_advanced_trans(
    a: Seq<QueryNodeOrNexus>,
    b: Seq<QueryNodeOrNexus>,
    c: Seq<QueryNodeOrNexus>,
    nsb: Seq<Nexus>,
    nsc: Seq<Nexus>,
)
    requires
        entries_advanced(a, b, nsb),
        entries_advanced(b, c, nsc),
        same_places(nsb, nsc),
    ensures
        entries_advanced(a, c, nsc),
{
    assert forall|k: int| 0 <= k < a.len() implies match (#[trigger] a[k], c[k]) {
        (QueryNodeOrNexus::QueryNode(vi, _), QueryNodeOrNexus::QueryNode(vj, _)) => vi == vj,
        (QueryNodeOrNexus::QueryNode(vi, _), QueryNodeOrNexus::Nexus(ni)) => ni@ < nsc.len()
            && nsc[ni@ as int].spec_vi() == vi,
        (QueryNodeOrNexus::Nexus(x), QueryNodeOrNexus::Nexus(y)) => x == y,
        _ => false,
    } by {
        assert(match (a[k], b[k]) {
            (QueryNodeOrNexus::QueryNode(vi, _), QueryNodeOrNexus::QueryNode(vj, _)) => vi == vj,
            (QueryNodeOrNexus::QueryNode(vi, _), QueryNodeOrNexus::Nexus(ni)) => ni@ < nsb.len()
                && nsb[ni@ as int].spec_vi() == vi,
            (QueryNodeOrNexus::Nexus(x), QueryNodeOrNexus::Nexus(y)) => x == y,
            _ => false,
        });
        assert(match (b[k], c[k]) {
            (QueryNodeOrNexus::QueryNode(vi, _), QueryNodeOrNexus::QueryNode(vj, _)) => vi == vj,
            (QueryNodeOrNexus::QueryNode(vi, _), QueryNodeOrNexus::Nexus(ni)) => ni@ < nsc.len()
                && nsc[ni@ as int].spec_vi() == vi,
            (QueryNodeOrNexus::Nexus(x), QueryNodeOrNexus::Nexus(y)) => x == y,
            _ => false,
        });
    }
}

/// Entries advance to themselves when nothing is inserted.
proof fn lemma_advanced_refl(a: Seq<QueryNodeOrNexus>, ns: Seq<Nexus>)
    requires
        forall|k: int| 0 <= k < a.len() ==> #[trigger] a[k] is QueryNode || a[k] is Nexus,
    ensures
        entries_advanced(a, a, ns),
{
    assert forall|k: int| 0 <= k < a.len() implies match (#[trigger] a[k], a[k]) {
        (QueryNodeOrNexus::QueryNode(vi, _), QueryNodeOrNexus::QueryNode(vj, _)) => vi == vj,
        (QueryNodeOrNexus::QueryNode(vi, _), QueryNodeOrNexus::Nexus(ni)) => ni@ < ns.len()
            && ns[ni@ as int].spec_vi() == vi,
        (QueryNodeOrNexus::Nexus(x), QueryNodeOrNexus::Nexus(y)) => x == y,
        _ => false,
    } by {
        match a[k] {
            QueryNodeOrNexus::QueryNode(_, _) => {},
            QueryNodeOrNexus::Nexus(_) => {},
        }
    }
}

/// The vertex of each lookup entry still to insert.
spec fn entry_vertices(q: Seq<QueryNodeOrNexus>) -> Seq<usize> {
    q.map_values(
        |x: QueryNodeOrNexus|
            match x {
                QueryNodeOrNexus::QueryNode(vi, _) => vi,
                QueryNodeOrNexus::Nexus(_) => 0,
            },
    )
}

/// Segment `s` joins the nexuses of two neighbouring vertices of the closed
/// run `run`, from its lower end to its upper end.
pub open spec fn run_segment(s: Segment, ns: Seq<Nexus>, run: Seq<usize>) -> bool {
    &&& exists|k: int|
        0 <= k < run.len() && #[trigger] run_neighbours(
            run,
            k,
            ns[s.spec_ni_min()@ as int].spec_vi(),
            ns[s.spec_ni_max()@ as int].spec_vi(),
        )
    &&& !coords_lt(ns[s.spec_ni_max()@ as int].spec_c(), ns[s.spec_ni_min()@ as int].spec_c())
}

/// Segment `s` is an edge of one of the polygons, running from its lower
/// end to its upper end.
pub open spec fn polygon_segment(s: Segment, ns: Seq<Nexus>, polygons: Seq<Seq<usize>>) -> bool {
    &&& is_polygon_edge(polygons, ns[s.spec_ni_min()@ as int].spec_vi(), ns[s.spec_ni_max()@ as int].spec_vi())
    &&& !coords_lt(ns[s.spec_ni_max()@ as int].spec_c(), ns[s.spec_ni_min()@ as int].spec_c())
}

/// The position after `k` among `len` positions, wrapping from the last to
/// the first.
pub open spec fn next_in(len: int, k: int) -> int {
    if k + 1 == len {
        0
    } else {
        k + 1
    }
}

/// Segment `s` joins the nexuses of vertices `a` and `b`, in either order.
pub open spec fn segment_joins_vertices(s: Segment, ns: Seq<Nexus>, a: usize, b: usize) -> bool {
    let x = ns[s.spec_ni_min()@ as int].spec_vi();
    let y = ns[s.spec_ni_max()@ as int].spec_vi();
    (x == a && y == b) || (x == b && y == a)
}

/// Every edge of the closed run `run` has a segment from position `from`
/// on.
pub open spec fn run_covered(run: Seq<usize>, ss: Seq<Segment>, ns: Seq<Nexus>, from: int) -> bool {
    forall|k: int| 0 <= k < run.len() ==> #[trigger] edge_covered(run, k, ss, ns, from)
}

/// The edge of the closed run `run` at position `k` has a segment from
/// position `from` on.
pub open spec fn edge_covered(run: Seq<usize>, k: int, ss: Seq<Segment>, ns: Seq<Nexus>, from: int) -> bool {
    exists|x: int|
        from <= x < ss.len() && #[trigger] segment_joins_vertices(
            ss[x],
            ns,
            run[k],
            run[next_in(run.len() as int, k)],
        )
}

/// Every edge of every polygon has a segment from position `from` on.
pub open spec fn runs_covered(polygons: Seq<Seq<usize>>, ss: Seq<Segment>, ns: Seq<Nexus>, from: int) -> bool {
    forall|p: int| 0 <= p < polygons.len() ==> #[trigger] run_covered(polygons[p], ss, ns, from)
}

/// Coverage is kept when the segments are kept, the nexuses keep their
/// places, and a covered run is added.
proof fn lemma_runs_covered_grow(
    ss: Seq<Segment>,
    ns: Seq<Nexus>,
    ss2: Seq<Segment>,
    ns2: Seq<Nexus>,
    done: Seq<Seq<usize>>,
    run: Seq<usize>,
    from: int,
    polys: Seq<Seq<usize>>,
)
    requires
        polys == if run.len() > 0 { done.push(run) } else { done },
        0 <= from <= ss.len() <= ss2.len(),
        ss2.take(ss.len() as int) == ss,
        same_places(ns, ns2),
        forall|x: int| 0 <= x < ss.len() ==> (#[trigger] ss[x]).spec_ni_min()@ < ns.len() && ss[x].spec_ni_max()@ < ns.len(),
        runs_covered(done, ss, ns, from),
        run_covered(run, ss2, ns2, ss.len() as int),
    ensures
        runs_covered(polys, ss2, ns2, from),
{
    assert forall|p: int| 0 <= p < polys.len() implies #[trigger] run_covered(polys[p], ss2, ns2, from) by {
        if p < done.len() {
            let r = done[p];
            assert(polys[p] == r);
            assert(run_covered(r, ss, ns, from));
            assert forall|k: int| 0 <= k < r.len() implies #[trigger] edge_covered(r, k, ss2, ns2, from) by {
                assert(edge_covered(r, k, ss, ns, from));
                let x = choose|x: int|
                    from <= x < ss.len() && #[trigger] segment_joins_vertices(
                        ss[x],
                        ns,
                        r[k],
                        r[next_in(r.len() as int, k)],
                    );
                assert(ss2[x] == ss2.take(ss.len() as int)[x]);
                assert(segment_joins_vertices(ss2[x], ns2, r[k], r[next_in(r.len() as int, k)]));
            }
        } else {
            assert(polys[p] == run);
            assert forall|k: int| 0 <= k < run.len() implies #[trigger] edge_covered(run, k, ss2, ns2, from) by {
                assert(edge_covered(run, k, ss2, ns2, ss.len() as int));
            }
        }
    }
}

/// The segments from `from` on stay polygon edges when the segments before
/// the end are kept, the nexuses keep their places, polygons are added, and
/// the new segments are edges of the added run.
proof fn lemma_polygon_segments_grow(
    ss: Seq<Segment>,
    ns: Seq<Nexus>,
    ss2: Seq<Segment>,
    ns2: Seq<Nexus>,
    done: Seq<Seq<usize>>,
    run: Seq<usize>,
    from: int,
    polys: Seq<Seq<usize>>,
)
    requires
        polys == if run.len() > 0 { done.push(run) } else { done },
        0 <= from <= ss.len() <= ss2.len(),
        ss2.take(ss.len() as int) == ss,
        same_places(ns, ns2),
        forall|x: int| 0 <= x < ss.len() ==> (#[trigger] ss[x]).spec_ni_min()@ < ns.len() && ss[x].spec_ni_max()@ < ns.len(),
        forall|x: int| from <= x < ss.len() ==> #[trigger] polygon_segment(ss[x], ns, done),
        forall|x: int| ss.len() <= x < ss2.len() ==> #[trigger] run_segment(ss2[x], ns2, run),
        ss2.len() > ss.len() ==> run.len() > 0,
    ensures
        forall|x: int| from <= x < ss2.len() ==> #[trigger] polygon_segment(ss2[x], ns2, polys),
{
    assert forall|x: int| from <= x < ss2.len() implies #[trigger] polygon_segment(ss2[x], ns2, polys) by {
        if x < ss.len() {
            assert(ss2[x] == ss2.take(ss.len() as int)[x]);
            let sg = ss[x];
            assert(polygon_segment(sg, ns, done));
            let a = ns[sg.spec_ni_min()@ as int].spec_vi();
            let b = ns[sg.spec_ni_max()@ as int].spec_vi();
            let (p, k) = choose|p: int, k: int|
                0 <= p < done.len() && 0 <= k < done[p].len() && #[trigger] run_neighbours(done[p], k, a, b);
            assert(polys[p] == done[p]);
            assert(run_neighbours(polys[p], k, a, b));
        } else {
            let sg = ss2[x];
            assert(run_segment(sg, ns2, run));
            let a = ns2[sg.spec_ni_min()@ as int].spec_vi();
            let b = ns2[sg.spec_ni_max()@ as int].spec_vi();
            let k = choose|k: int| 0 <= k < run.len() && #[trigger] run_neighbours(run, k, a, b);
            let p = done.len() as int;
            assert(polys[p] == run);
            assert(run_neighbours(polys[p], k, a, b));
        }
    }
}

/// The next position, wrapping, is the one after or the first.
proof fn lemma_wrap_next_cases(i: nat, n: nat)
    requires
        i < n,
    ensures
        wrap_next(i, n) == if i + 1 == n { 0 } else { i + 1 },
{
    if i + 1 < n {
        vstd::arithmetic::div_mod::lemma_small_mod((i + 1) as nat, n as nat);
    } else {
        vstd::arithmetic::div_mod::lemma_mod_self_0(n as int);
    }
}

/// The segments from position `from` on are the edges of the lookup
/// entries, each edge once, in the order `order`.
spec fn edges_in_order(order: Seq<usize>, ss: Seq<Segment>, from: int, ns: Seq<Nexus>, q: Seq<QueryNodeOrNexus>) -> bool {
    &&& order.len() == q.len()
    &&& ss.len() == from + q.len()
    &&& forall|e: usize| e < q.len() ==> #[trigger] order.contains(e)
    &&& forall|j: int| 0 <= j < order.len() ==> #[trigger] order[j] < q.len()
    &&& forall|j: int| 0 <= j < order.len() ==> #[trigger] edge_segment(ss[from + j], ns, q, order[j] as int)
}

/// An entry keeps joining a segment as the joins grow, when the entry
/// does not change.
proof fn lemma_entry_joins_kept(
    q: Seq<QueryNodeOrNexus>,
    q2: Seq<QueryNodeOrNexus>,
    ns: Seq<Nexus>,
    ns2: Seq<Nexus>,
    m: int,
    si: nat,
)
    requires
        0 <= m < q.len(),
        m < q2.len(),
        entry_joins(q, m, ns, si),
        q2[m] == q[m],
        dividers_grow(ns, ns2),
    ensures
        entry_joins(q2, m, ns2, si),
{
    let a = q[m]->Nexus_0@ as int;
    if joins(ns[a], si, DividerDirection::Ascending) {
        lemma_grow_joins(ns, ns2, a, si, DividerDirection::Ascending);
    } else {
        lemma_grow_joins(ns, ns2, a, si, DividerDirection::Descending);
    }
}

/// Puts the entries of `order` in random order with
/// `rand::seq::SliceRandom::shuffle`, drawing from `rand::thread_rng()`.
/// Claimed: the same entries remain, each as often as before. The order
/// itself is chance.
#[verifier::external_body]
fn shuffle_order(order: &mut Vec<usize>)
    ensures
        final(order)@.len() == old(order)@.len(),
        final(order)@.to_multiset() == old(order)@.to_multiset(),
{
    order.shuffle(&mut rand::thread_rng());
}

/// The query descent that always takes the side above: the trapezoid it
/// reaches (at the top of the plane), or `None` when it meets a segment
/// test first.
pub open spec fn top_sink(qs: Seq<QueryNode>, qi: int) -> Option<int>
    decreases qs.len() - qi,
{
    if 0 <= qi < qs.len() {
        match qs[qi] {
            QueryNode::Branch(_, r, QueryNodeBranch::Y(_)) => if qi < r@ < qs.len() {
                top_sink(qs, r@ as int)
            } else {
                None
            },
            QueryNode::Branch(_, _, QueryNodeBranch::X(_)) => None,
            QueryNode::Sink(t) => Some(t@ as int),
        }
    } else {
        None
    }
}

/// Whether an `Ot` holds one or two consistent chains.
pub open spec fn slots_wf(o: Ot<MonotoneBuilder>) -> bool {
    let s = monotone_slots(o);
    &&& 1 <= s.len() <= 2
    &&& forall|k: int| 0 <= k < s.len() ==> (#[trigger] s[k]).wf()
}

/// Whether the optional chains are consistent.
pub open spec fn opt_slots_wf(o: Option<Ot<MonotoneBuilder>>) -> bool {
    match o {
        None => true,
        Some(o) => slots_wf(o),
    }
}

/// A branch of the walk over the trapezoids still to be taken: where it
/// starts, and the chains open there (none outside the polygons).
struct WalkBranch {
    ti: TrapezoidIdx,
    monotones: Option<Ot<MonotoneBuilder>>,
}

/// Appends vertex `vi` at `c` to each chain; an error when a chain is
/// too long to grow.
fn extend_all(ms: Ot<MonotoneBuilder>, vi: usize, c: Coords) -> (r: Result<Ot<MonotoneBuilder>, InternalError>)
    requires
        slots_wf(ms),
    ensures
        r is Err <==> exists|k: int|
            0 <= k < monotone_slots(ms).len() && (#[trigger] monotone_slots(ms)[k]).chain().len()
                >= usize::MAX / 2,
        r matches Ok(o) ==> slots_wf(o) && monotone_slots(o).len() == monotone_slots(ms).len(),
        r matches Ok(o) ==> forall|k: int|
            0 <= k < monotone_slots(ms).len() ==> (#[trigger] monotone_slots(o)[k]).chain()
                == monotone_slots(ms)[k].chain().push((vi, c)),
{
    match monotones_view(ms) {
        MonotoneSlots::One(mut m) => {
            assert(monotone_slots(ms)[0] == m);
            if m.len() >= usize::MAX / 2 {
                return Err(InternalError::new("Monotone chain too long"));
            }
            m.add_vertex(vi, c);
            Ok(monotones_one(m))
        },
        MonotoneSlots::Two(mut a, mut b) => {
            assert(monotone_slots(ms)[0] == a && monotone_slots(ms)[1] == b);
            if a.len() >= usize::MAX / 2 || b.len() >= usize::MAX / 2 {
                return Err(InternalError::new("Monotone chain too long"));
            }
            a.add_vertex(vi, c);
            b.add_vertex(vi, c);
            Ok(monotones_two(a, b))
        },
    }
}

/// The single chain of `ms`; an error when it holds two.
fn only_one<E>(ms: Ot<MonotoneBuilder>) -> (r: Result<MonotoneBuilder, TriangulationError<E>>)
    requires
        slots_wf(ms),
    ensures
        r matches Ok(m) ==> m.wf() && m == monotone_slots(ms)[0],
        r matches Err(e) ==> e is InternalError,
{
    match monotones_view(ms) {
        MonotoneSlots::One(m) => {
            assert(monotone_slots(ms)[0] == m);
            Ok(m)
        },
        MonotoneSlots::Two(_, _) => Err(TriangulationError::internal("Expected a single monotone")),
    }
}

/// A chain from vertex `vi_up` at `c_up` down to vertex `vi` at `c`.
fn chain_between(vi_up: usize, c_up: Coords, vi: usize, c: Coords) -> (r: MonotoneBuilder)
    ensures
        r.wf(),
        r.chain() == seq![(vi_up, c_up), (vi, c)],
{
    let mut m = MonotoneBuilder::new(vi_up, c_up);
    m.add_vertex(vi, c);
    assert(m.chain() =~= seq![(vi_up, c_up), (vi, c)]);
    m
}

/// A chain too short to be a polygon.
pub open spec fn chain_short(m: MonotoneBuilder) -> bool {
    m.chain().len() < 3
}

/// A chain of at least three vertices that all share an `x` or a `y`
/// coordinate: it encloses nothing.
pub open spec fn chain_flat(m: MonotoneBuilder) -> bool {
    &&& m.chain().len() >= 3
    &&& (all_same_x(m.chain()) || all_same_y(m.chain()))
}

/// A chain of at least three vertices that encloses a polygon to
/// triangulate.
pub open spec fn chain_solid(m: MonotoneBuilder) -> bool {
    &&& m.chain().len() >= 3
    &&& !all_same_x(m.chain())
    &&& !all_same_y(m.chain())
}

/// Every vertex of the chain is one of the first `vn`.
pub open spec fn chain_below(m: MonotoneBuilder, vn: nat) -> bool {
    forall|i: int| 0 <= i < m.chain().len() ==> (#[trigger] m.chain()[i]).0 < vn
}

/// Every vertex of the chains is one of the first `vn`.
pub open spec fn slots_below(o: Ot<MonotoneBuilder>, vn: nat) -> bool {
    forall|k: int| 0 <= k < monotone_slots(o).len() ==> chain_below(#[trigger] monotone_slots(o)[k], vn)
}

/// Every vertex of the chains, if any, is one of the first `vn`.
pub open spec fn opt_slots_below(o: Option<Ot<MonotoneBuilder>>, vn: nat) -> bool {
    match o {
        None => true,
        Some(o) => slots_below(o, vn),
    }
}

/// Each fan has at least three vertices, all among the first `vn`.
pub open spec fn fans_below(fans: Seq<Seq<usize>>, vn: nat) -> bool {
    forall|f: int|
        0 <= f < fans.len() ==> (#[trigger] fans[f]).len() >= 3 && forall|k: int|
            0 <= k < fans[f].len() ==> #[trigger] fans[f][k] < vn
}

/// Fans over the vertices of a chain below `vn` stay below `vn`.
proof fn lemma_fans_below(fans: Seq<Vec<usize>>, chain: Seq<ChainVertex>, vn: nat)
    requires
        fans_over(fans, chain),
        forall|i: int| 0 <= i < chain.len() ==> (#[trigger] chain[i]).0 < vn,
    ensures
        fans_below(fan_views(fans), vn),
{
    assert forall|f: int| 0 <= f < fan_views(fans).len() implies (#[trigger] fan_views(fans)[f]).len() >= 3
        && forall|k: int| 0 <= k < fan_views(fans)[f].len() ==> #[trigger] fan_views(fans)[f][k] < vn by {
        assert(fan_views(fans)[f] == fans[f]@);
        assert forall|k: int| 0 <= k < fan_views(fans)[f].len() implies #[trigger] fan_views(fans)[f][k] < vn by {
            assert(chain_ids(chain).contains(fans[f]@[k]));
            let i = choose|i: int| 0 <= i < chain_ids(chain).len() && chain_ids(chain)[i] == fans[f]@[k];
            assert(chain[i].0 < vn);
        }
    }
}

/// Appending fans below `vn` to fans below `vn` keeps them below.
proof fn lemma_fans_below_append(a: Seq<Seq<usize>>, b: Seq<Seq<usize>>, vn: nat)
    requires
        fans_below(a, vn),
        fans_below(b, vn),
    ensures
        fans_below(a + b, vn),
{
    assert forall|f: int| 0 <= f < (a + b).len() implies (#[trigger] (a + b)[f]).len() >= 3 && forall|k: int|
        0 <= k < (a + b)[f].len() ==> #[trigger] (a + b)[f][k] < vn by {
        if f < a.len() {
            assert((a + b)[f] == a[f]);
        } else {
            assert((a + b)[f] == b[f - a.len()]);
        }
    }
}

/// Triangulates a completed chain into `fbs`: nothing when it is
/// degenerate, an internal error when it is too short. The fans handed to
/// the builder use only vertices of the chain.
fn finish_monotone<FB: FanFormat<usize>>(m: MonotoneBuilder, fbs: &mut FanBuilderState<usize, FB>, Ghost(vn): Ghost<nat>) -> (r: Result<(), FormatError<usize, FB>>)
    requires
        m.wf(),
        chain_below(m, vn),
    ensures
        r is Ok ==> exists|new: Seq<Seq<usize>>|
            #![trigger fans_below(new, vn)]
            final(fbs).log() == old(fbs).log() + new && fans_below(new, vn),
        r matches Err(e) ==> (e is FanBuilder || e is InternalError),
        chain_short(m) ==> (r matches Err(e) && e is InternalError) && *final(fbs) == *old(fbs),
        chain_flat(m) ==> r is Ok && *final(fbs) == *old(fbs),
        r matches Err(TriangulationError::InternalError(_)) ==> chain_short(m) || old(fbs).phase() is Error
            || exists|idx: Seq<int>|
            #[trigger] stuck_at(
                m.chain(),
                idx,
                left_of_line(m.chain().last().1, m.chain()[0].1, m.chain()[1].1),
            ),
        chain_solid(m) ==> {
            &&& old(fbs).phase() is Error ==> r is Err
            &&& r is Ok ==> final(fbs).phase() is Initialized
        },
{
    match m.build() {
        Ok(Some(mono)) => {
            let r = mono.build_fans(fbs);
            proof {
                if r is Ok {
                    let fans = choose|fans: Seq<Vec<usize>>|
                        #![trigger fan_views(fans)]
                        {
                            &&& fans_over(fans, mono.items())
                            &&& fan_triangles(fans) == mono.items().len() - 2
                            &&& fbs.log() == old(fbs).log() + fan_views(fans)
                        };
                    lemma_fans_below(fans, mono.items(), vn);
                }
            }
            r
        },
        Ok(None) => {
            assert(fbs.log() == old(fbs).log() + Seq::<Seq<usize>>::empty());
            assert(fans_below(Seq::<Seq<usize>>::empty(), vn));
            Ok(())
        },
        Err(e) => Err(TriangulationError::InternalError(e)),
    }
}

/// Triangulates each chain of `ms` into `fbs`, in order.
fn finish_all<FB: FanFormat<usize>>(ms: Ot<MonotoneBuilder>, fbs: &mut FanBuilderState<usize, FB>, Ghost(vn): Ghost<nat>) -> (r: Result<(), FormatError<usize, FB>>)
    requires
        slots_wf(ms),
        slots_below(ms, vn),
    ensures
        r is Ok ==> exists|new: Seq<Seq<usize>>|
            #![trigger fans_below(new, vn)]
            final(fbs).log() == old(fbs).log() + new && fans_below(new, vn),
        r matches Err(e) ==> (e is FanBuilder || e is InternalError),
        chain_short(monotone_slots(ms)[0]) ==> (r matches Err(e) && e is InternalError) && *final(fbs)
            == *old(fbs),
        (forall|k: int| 0 <= k < monotone_slots(ms).len() ==> chain_flat(#[trigger] monotone_slots(ms)[k]))
            ==> r is Ok && *final(fbs) == *old(fbs),
        (exists|k: int| 0 <= k < monotone_slots(ms).len() && chain_solid(#[trigger] monotone_slots(ms)[k]))
            ==> {
            &&& old(fbs).phase() is Error ==> r is Err
            &&& r is Ok ==> final(fbs).phase() is Initialized
        },
{
    match monotones_view(ms) {
        MonotoneSlots::One(m0) => {
            assert(monotone_slots(ms)[0] == m0);
            finish_monotone(m0, fbs, Ghost(vn))
        },
        MonotoneSlots::Two(m0, m1) => {
            assert(monotone_slots(ms)[0] == m0);
            assert(monotone_slots(ms)[1] == m1);
            let ghost log0 = fbs.log();
            finish_monotone(m0, fbs, Ghost(vn))?;
            let ghost log1 = fbs.log();
            let ghost new0 = choose|new: Seq<Seq<usize>>|
                #![trigger fans_below(new, vn)]
                log1 == log0 + new && fans_below(new, vn);
            let r = finish_monotone(m1, fbs, Ghost(vn));
            proof {
                if r is Ok {
                    let new1 = choose|new: Seq<Seq<usize>>|
                        #![trigger fans_below(new, vn)]
                        fbs.log() == log1 + new && fans_below(new, vn);
                    lemma_fans_below_append(new0, new1, vn);
                    assert(fbs.log() =~= log0 + (new0 + new1));
                }
            }
            r
        },
    }
}

/// Nexus `ni` and the trapezoids around it agree: each trapezoid above it
/// has it as its lower bound, and each trapezoid below it as its upper
/// bound.
pub open spec fn nexus_linked(ns: Seq<Nexus>, ts: Seq<Trapezoid>, ni: int) -> bool {
    let ups = trapezoids_toward(ns[ni], DividerDirection::Ascending);
    let downs = trapezoids_toward(ns[ni], DividerDirection::Descending);
    &&& forall|k: int| 0 <= k < ups.len() ==> (ts[(#[trigger] ups[k])@ as int].down matches Some(d) && d@ == ni)
    &&& forall|k: int| 0 <= k < downs.len() ==> (ts[(#[trigger] downs[k])@ as int].up matches Some(u) && u@ == ni)
}

/// Trapezoid `ti` and the nexuses bounding it agree (it is among the
/// trapezoids above its lower nexus and below its upper nexus), and its
/// sink names it.
pub open spec fn trapezoid_linked(ns: Seq<Nexus>, ts: Seq<Trapezoid>, qs: Seq<QueryNode>, ti: int) -> bool {
    let t = ts[ti];
    &&& (t.down matches Some(d) ==> exists|k: int|
        0 <= k < trapezoids_toward(ns[d@ as int], DividerDirection::Ascending).len()
            && (#[trigger] trapezoids_toward(ns[d@ as int], DividerDirection::Ascending)[k])@ == ti)
    &&& (t.up matches Some(u) ==> exists|k: int|
        0 <= k < trapezoids_toward(ns[u@ as int], DividerDirection::Descending).len()
            && (#[trigger] trapezoids_toward(ns[u@ as int], DividerDirection::Descending)[k])@ == ti)
    &&& is_sink_of(qs[t.sink@ as int], ti)
}

/// Every nexus and every trapezoid is linked consistently.
pub open spec fn all_linked(ns: Seq<Nexus>, ts: Seq<Trapezoid>, qs: Seq<QueryNode>) -> bool {
    &&& forall|ni: int| 0 <= ni < ns.len() ==> #[trigger] nexus_linked(ns, ts, ni)
    &&& forall|ti: int| 0 <= ti < ts.len() ==> #[trigger] trapezoid_linked(ns, ts, qs, ti)
}

/// No trapezoid index occurs twice in `s`.
pub open spec fn distinct_trapezoids(s: Seq<TrapezoidIdx>) -> bool {
    forall|j: int, k: int| 0 <= j < k < s.len() ==> (#[trigger] s[j])@ != (#[trigger] s[k])@
}

/// No trapezoid is bounded above and below by the same nexus.
pub open spec fn bounds_apart(ts: Seq<Trapezoid>) -> bool {
    forall|i: int|
        0 <= i < ts.len() && (#[trigger] ts[i]).up is Some && ts[i].down is Some ==> ts[i].up->Some_0@
            != ts[i].down->Some_0@
}

/// No nexus lists a trapezoid twice on one side.
pub open spec fn sides_distinct(ns: Seq<Nexus>) -> bool {
    forall|i: int|
        0 <= i < ns.len() ==> distinct_trapezoids(
            trapezoids_toward(#[trigger] ns[i], DividerDirection::Ascending),
        ) && distinct_trapezoids(trapezoids_toward(ns[i], DividerDirection::Descending))
}

/// The links between nexuses and trapezoids agree ([all_linked]), no
/// trapezoid has the same nexus above and below, and no nexus lists a
/// trapezoid twice on one side.
pub open spec fn linked(ns: Seq<Nexus>, ts: Seq<Trapezoid>, qs: Seq<QueryNode>) -> bool {
    &&& all_linked(ns, ts, qs)
    &&& bounds_apart(ts)
    &&& sides_distinct(ns)
}

/// Replacing, in nexus `o`, a trapezoid that lies below it only, and only
/// once, replaces it in the list of trapezoids below and nowhere else.
proof fn lemma_replace_below(o: Nexus, n: Nexus, ti_old: TrapezoidIdx, ti_new: TrapezoidIdx)
    requires
        o.spec_dividers().len() <= 2,
        n.spec_dividers().len() == o.spec_dividers().len(),
        o.spec_upleft()@ == ti_old@ ==> {
            &&& n.spec_upleft() == ti_new
            &&& n.spec_downleft() == o.spec_downleft()
            &&& n.spec_dividers() == o.spec_dividers()
        },
        o.spec_upleft()@ != ti_old@ && o.spec_downleft()@ == ti_old@ ==> {
            &&& n.spec_upleft() == o.spec_upleft()
            &&& n.spec_downleft() == ti_new
            &&& n.spec_dividers() == o.spec_dividers()
        },
        o.spec_upleft()@ != ti_old@ && o.spec_downleft()@ != ti_old@ ==> {
            let divs = o.spec_dividers();
            &&& n.spec_upleft() == o.spec_upleft()
            &&& n.spec_downleft() == o.spec_downleft()
            &&& exists|k: int| 0 <= k < divs.len() && divs[k].ti_right@ == ti_old@
            &&& ({
                let k = if divs[0].ti_right@ == ti_old@ { 0int } else { 1int };
                n.spec_dividers() == divs.update(k, Divider { ti_right: ti_new, ..divs[k] })
            })
        },
        forall|k: int| 0 <= k < trapezoids_toward(o, DividerDirection::Ascending).len()
            ==> (#[trigger] trapezoids_toward(o, DividerDirection::Ascending)[k])@ != ti_old@,
        distinct_trapezoids(trapezoids_toward(o, DividerDirection::Descending)),
    ensures
        trapezoids_toward(n, DividerDirection::Ascending) == trapezoids_toward(o, DividerDirection::Ascending),
        exists|p: int|
            0 <= p < trapezoids_toward(o, DividerDirection::Descending).len()
                && (#[trigger] trapezoids_toward(o, DividerDirection::Descending)[p])@ == ti_old@
                && trapezoids_toward(n, DividerDirection::Descending) == trapezoids_toward(
                o,
                DividerDirection::Descending,
            ).update(p, ti_new),
{
    let asc = DividerDirection::Ascending;
    let desc = DividerDirection::Descending;
    let ups = trapezoids_toward(o, asc);
    let downs = trapezoids_toward(o, desc);
    assert(ups[0] == o.spec_upleft());
    assert(downs[0] == o.spec_downleft());
    if o.spec_upleft()@ == ti_old@ {
        assert(false);
    } else if o.spec_downleft()@ == ti_old@ {
        assert(trapezoids_toward(n, asc) =~= ups);
        assert(trapezoids_toward(n, desc) =~= downs.update(0, ti_new));
    } else {
        let divs = o.spec_dividers();
        let k = if divs[0].ti_right@ == ti_old@ { 0int } else { 1int };
        let d = Divider { ti_right: ti_new, ..divs[k] };
        let nd = divs.update(k, d);
        assert(n.spec_dividers() == nd);
        if divs[k].direction == asc {
            if k == 0 {
                assert(ups[1] == divs[0].ti_right);
            } else if divs[0].direction == asc {
                assert(ups[2] == divs[1].ti_right);
            } else {
                assert(ups[1] == divs[1].ti_right);
            }
            assert(false);
        } else {
            assert(trapezoids_toward(n, asc) =~= ups);
            if k == 0 {
                assert(downs[1] == divs[0].ti_right);
                assert(trapezoids_toward(n, desc) =~= downs.update(1, ti_new));
            } else if divs[0].direction == desc {
                assert(downs[2] == divs[1].ti_right);
                assert(trapezoids_toward(n, desc) =~= downs.update(2, ti_new));
            } else {
                assert(downs[1] == divs[1].ti_right);
                assert(trapezoids_toward(n, desc) =~= downs.update(1, ti_new));
            }
        }
    }
}

/// In [linked] arenas, the nexus above trapezoid `ti` lists it below
/// itself exactly once and not above itself, so replacing it there succeeds.
proof fn lemma_above_found(ns: Seq<Nexus>, ts: Seq<Trapezoid>, qs: Seq<QueryNode>, ti: TrapezoidIdx)
    requires
        linked(ns, ts, qs),
        ti@ < ts.len(),
        ts[ti@ as int].up is Some,
        ts[ti@ as int].up->Some_0@ < ns.len(),
        ts[ti@ as int].down is Some ==> ts[ti@ as int].down->Some_0@ < ns.len(),
        ns[ts[ti@ as int].up->Some_0@ as int].spec_dividers().len() <= 2,
    ensures
        ({
            let o = ns[ts[ti@ as int].up->Some_0@ as int];
            let divs = o.spec_dividers();
            &&& forall|k: int| 0 <= k < trapezoids_toward(o, DividerDirection::Ascending).len()
                ==> (#[trigger] trapezoids_toward(o, DividerDirection::Ascending)[k])@ != ti@
            &&& distinct_trapezoids(trapezoids_toward(o, DividerDirection::Descending))
            &&& o.spec_upleft()@ != ti@
            &&& o.spec_downleft()@ != ti@ ==> exists|k: int| 0 <= k < divs.len() && divs[k].ti_right@ == ti@
        }),
{
    let u = ts[ti@ as int].up->Some_0@ as int;
    let o = ns[u];
    let ups = trapezoids_toward(o, DividerDirection::Ascending);
    let downs = trapezoids_toward(o, DividerDirection::Descending);
    let divs = o.spec_dividers();
    assert(nexus_linked(ns, ts, u));
    assert(trapezoid_linked(ns, ts, qs, ti@ as int));
    assert forall|k: int| 0 <= k < ups.len() implies (#[trigger] ups[k])@ != ti@ by {
        if ups[k]@ == ti@ {
            assert(ts[ups[k]@ as int].down matches Some(d) && d@ == u);
            assert(bounds_apart(ts));
            assert(ts[ti@ as int].up is Some && ts[ti@ as int].down is Some);
        }
    }
    assert(ups[0] == o.spec_upleft());
    if o.spec_downleft()@ != ti@ {
        let k = choose|k: int| 0 <= k < downs.len() && (#[trigger] downs[k])@ == ti@;
        assert(k != 0);
        let ds = dividers_in(divs, DividerDirection::Descending);
        assert(downs[k] == ds[k - 1].ti_right);
        if ds[k - 1] == divs[0] {
            assert(divs[0].ti_right@ == ti@);
        } else {
            assert(ds[k - 1] == divs[1]);
            assert(divs[1].ti_right@ == ti@);
        }
    }
}

/// Cutting trapezoid `ti` by a new nexus `ni` (the lower part keeping
/// `ti`, the upper part `ti_new`, the nexus above the old trapezoid now
/// bordering the upper part) keeps the arenas [linked].
proof fn lemma_cut_links(
    ns0: Seq<Nexus>,
    ts0: Seq<Trapezoid>,
    qs0: Seq<QueryNode>,
    ns: Seq<Nexus>,
    ts: Seq<Trapezoid>,
    qs: Seq<QueryNode>,
    ti: TrapezoidIdx,
    ti_new: TrapezoidIdx,
    ni: NexusIdx,
)
    requires
        linked(ns0, ts0, qs0),
        forall|i: int| 0 <= i < ts.len() ==> is_sink_of(qs[(#[trigger] ts[i]).sink@ as int], i),
        forall|i: int| 0 <= i < ts0.len() && (#[trigger] ts0[i]).up is Some ==> ts0[i].up->Some_0@ < ns0.len(),
        forall|i: int| 0 <= i < ts0.len() && (#[trigger] ts0[i]).down is Some ==> ts0[i].down->Some_0@ < ns0.len(),
        forall|j: int, k: int|
            0 <= j < ns0.len() && 0 <= k < trapezoids_toward(ns0[j], DividerDirection::Ascending).len()
                ==> (#[trigger] trapezoids_toward(ns0[j], DividerDirection::Ascending)[k])@ < ts0.len(),
        forall|j: int, k: int|
            0 <= j < ns0.len() && 0 <= k < trapezoids_toward(ns0[j], DividerDirection::Descending).len()
                ==> (#[trigger] trapezoids_toward(ns0[j], DividerDirection::Descending)[k])@ < ts0.len(),
        ti@ < ts0.len(),
        ti_new@ == ts0.len(),
        ni@ == ns0.len(),
        ns.len() == ns0.len() + 1,
        ts.len() == ts0.len() + 1,
        trapezoids_toward(ns[ni@ as int], DividerDirection::Ascending) == seq![ti_new],
        trapezoids_toward(ns[ni@ as int], DividerDirection::Descending) == seq![ti],
        ts[ti@ as int].up matches Some(u) && u@ == ni@,
        ts[ti@ as int].down == ts0[ti@ as int].down,
        ts[ti_new@ as int].down matches Some(d) && d@ == ni@,
        ts[ti_new@ as int].up == ts0[ti@ as int].up,
        forall|x: int| 0 <= x < ts0.len() && x != ti@ ==> #[trigger] ts[x] == ts0[x],
        ts0[ti@ as int].up is None ==> forall|j: int| 0 <= j < ns0.len() ==> #[trigger] ns[j] == ns0[j],
        ts0[ti@ as int].up matches Some(u) ==> {
            &&& forall|j: int| 0 <= j < ns0.len() && j != u@ ==> #[trigger] ns[j] == ns0[j]
            &&& trapezoids_toward(ns[u@ as int], DividerDirection::Ascending) == trapezoids_toward(
                ns0[u@ as int],
                DividerDirection::Ascending,
            )
            &&& exists|p: int|
                0 <= p < trapezoids_toward(ns0[u@ as int], DividerDirection::Descending).len()
                    && (#[trigger] trapezoids_toward(ns0[u@ as int], DividerDirection::Descending)[p])@
                    == ti@ && trapezoids_toward(ns[u@ as int], DividerDirection::Descending)
                    == trapezoids_toward(ns0[u@ as int], DividerDirection::Descending).update(p, ti_new)
        },
    ensures
        linked(ns, ts, qs),
{
    let asc = DividerDirection::Ascending;
    let desc = DividerDirection::Descending;
    let t0 = ts0[ti@ as int];
    let nn = ns0.len();
    let tn = ts0.len();
    assert forall|j: int| 0 <= j < ns.len() implies #[trigger] nexus_linked(ns, ts, j) by {
        if j == nn {
            assert(trapezoids_toward(ns[j], asc)[0] == ti_new);
            assert(trapezoids_toward(ns[j], desc)[0] == ti);
        } else {
            assert(nexus_linked(ns0, ts0, j));
            let ups = trapezoids_toward(ns[j], asc);
            let downs = trapezoids_toward(ns[j], desc);
            let ups0 = trapezoids_toward(ns0[j], asc);
            let downs0 = trapezoids_toward(ns0[j], desc);
            let is_up = t0.up matches Some(u) && u@ == j;
            if !is_up {
                assert(ns[j] == ns0[j]);
            }
            assert(ups == ups0);
            assert forall|k: int| 0 <= k < ups.len() implies (ts[(#[trigger] ups[k])@ as int].down matches Some(d)
                && d@ == j) by {
                assert(ups0[k] == ups[k]);
                assert(ups0[k]@ < tn);
            }
            if is_up {
                let p = choose|p: int|
                    0 <= p < downs0.len() && (#[trigger] downs0[p])@ == ti@ && downs == downs0.update(p, ti_new);
                assert forall|k: int| 0 <= k < downs.len() implies (ts[(#[trigger] downs[k])@ as int].up matches Some(u)
                    && u@ == j) by {
                    if k != p {
                        assert(downs[k] == downs0[k]);
                        assert(downs0[k]@ < tn);
                        assert(distinct_trapezoids(downs0));
                        if k < p {
                            assert(downs0[k]@ != downs0[p]@);
                        } else {
                            assert(downs0[p]@ != downs0[k]@);
                        }
                    }
                }
            } else {
                assert(downs == downs0);
                assert forall|k: int| 0 <= k < downs.len() implies (ts[(#[trigger] downs[k])@ as int].up matches Some(u)
                    && u@ == j) by {
                    assert(downs0[k]@ < tn);
                    if downs0[k]@ == ti@ {
                        assert(ts0[downs0[k]@ as int].up matches Some(u) && u@ == j);
                        assert(false);
                    }
                }
            }
        }
    }
    assert forall|x: int| 0 <= x < ts.len() implies #[trigger] trapezoid_linked(ns, ts, qs, x) by {
        let t = ts[x];
        if x == tn {
            assert(trapezoids_toward(ns[nn as int], asc)[0] == ti_new);
            if let Some(u) = t.up {
                assert(trapezoid_linked(ns0, ts0, qs0, ti@ as int));
                let downs0 = trapezoids_toward(ns0[u@ as int], desc);
                let p = choose|p: int|
                    0 <= p < downs0.len() && (#[trigger] downs0[p])@ == ti@
                        && trapezoids_toward(ns[u@ as int], desc) == downs0.update(p, ti_new);
                assert(trapezoids_toward(ns[u@ as int], desc)[p] == ti_new);
            }
        } else {
            assert(trapezoid_linked(ns0, ts0, qs0, x));
            if x == ti@ {
                assert(trapezoids_toward(ns[nn as int], desc)[0] == ti);
                if let Some(d) = t.down {
                    assert(d@ < nn);
                    let is_up = t0.up matches Some(u) && u@ == d@;
                    if is_up {
                        assert(bounds_apart(ts0));
                        assert(ts0[x].up is Some && ts0[x].down is Some);
                        assert(false);
                    }
                    assert(ns[d@ as int] == ns0[d@ as int]);
                }
            } else {
                assert(ts[x] == ts0[x]);
                if let Some(d) = t.down {
                    assert(d@ < nn);
                    assert(trapezoids_toward(ns[d@ as int], asc) == trapezoids_toward(ns0[d@ as int], asc)) by {
                        let is_up = t0.up matches Some(u) && u@ == d@;
                        if !is_up {
                            assert(ns[d@ as int] == ns0[d@ as int]);
                        }
                    }
                }
                if let Some(u) = t.up {
                    assert(u@ < nn);
                    let downs0 = trapezoids_toward(ns0[u@ as int], desc);
                    let downs = trapezoids_toward(ns[u@ as int], desc);
                    let k = choose|k: int| 0 <= k < downs0.len() && (#[trigger] downs0[k])@ == x;
                    let is_up = t0.up matches Some(w) && w@ == u@;
                    if is_up {
                        let p = choose|p: int|
                            0 <= p < downs0.len() && (#[trigger] downs0[p])@ == ti@ && downs == downs0.update(p, ti_new);
                        assert(k != p);
                        assert(downs[k] == downs0[k]);
                    } else {
                        assert(ns[u@ as int] == ns0[u@ as int]);
                        assert(downs[k] == downs0[k]);
                    }
                }
            }
        }
    }
    assert forall|x: int|
        0 <= x < ts.len() && (#[trigger] ts[x]).up is Some && ts[x].down is Some implies ts[x].up->Some_0@
            != ts[x].down->Some_0@ by {
        if x == tn {
            assert(t0.up->Some_0@ < nn);
        } else if x == ti@ {
            assert(t0.down->Some_0@ < nn);
        } else {
            assert(ts[x] == ts0[x]);
        }
    }
    assert forall|j: int| 0 <= j < ns.len() implies distinct_trapezoids(
        trapezoids_toward(#[trigger] ns[j], asc),
    ) && distinct_trapezoids(trapezoids_toward(ns[j], desc)) by {
        if j < nn {
            assert(distinct_trapezoids(trapezoids_toward(ns0[j], asc)));
            assert(distinct_trapezoids(trapezoids_toward(ns0[j], desc)));
            let is_up = t0.up matches Some(u) && u@ == j;
            if is_up {
                let downs0 = trapezoids_toward(ns0[j], desc);
                let downs = trapezoids_toward(ns[j], desc);
                let p = choose|p: int|
                    0 <= p < downs0.len() && (#[trigger] downs0[p])@ == ti@ && downs == downs0.update(p, ti_new);
                assert forall|a: int, b: int| 0 <= a < b < downs.len() implies (#[trigger] downs[a])@
                    != (#[trigger] downs[b])@ by {
                    assert(downs0[a]@ < tn);
                    assert(downs0[b]@ < tn);
                }
            } else {
                assert(ns[j] == ns0[j]);
            }
        }
    }
}

/// Whether nexus `ni` and the trapezoids around it agree.
fn check_nexus_links(ns: &Vec<Nexus>, ts: &Vec<Trapezoid>, ni: usize) -> (r: bool)
    requires
        ni < ns@.len(),
        ns@[ni as int].spec_dividers().len() <= 2,
        forall|k: int| 0 <= k < trapezoids_toward(ns@[ni as int], DividerDirection::Ascending).len()
            ==> (#[trigger] trapezoids_toward(ns@[ni as int], DividerDirection::Ascending)[k])@ < ts@.len(),
        forall|k: int| 0 <= k < trapezoids_toward(ns@[ni as int], DividerDirection::Descending).len()
            ==> (#[trigger] trapezoids_toward(ns@[ni as int], DividerDirection::Descending)[k])@ < ts@.len(),
    ensures
        r == nexus_linked(ns@, ts@, ni as int),
{
    let n = &ns[ni];
    let ups = n.iter_up_trapezoids();
    let mut k: usize = 0;
    while k < ups.len()
        invariant
            k <= ups@.len(),
            ups@ == trapezoids_toward(ns@[ni as int], DividerDirection::Ascending),
            forall|j: int| 0 <= j < ups@.len() ==> (#[trigger] ups@[j])@ < ts@.len(),
            forall|j: int| 0 <= j < k ==> (ts@[(#[trigger] ups@[j])@ as int].down matches Some(d) && d@ == ni),
        decreases ups@.len() - k,
    {
        let ok = match ts[ups[k].usize()].down() {
            Some(d) => d.usize() == ni,
            None => false,
        };
        if !ok {
            return false;
        }
        k = k + 1;
    }
    let downs = n.iter_down_trapezoids();
    let mut k: usize = 0;
    while k < downs.len()
        invariant
            k <= downs@.len(),
            ups@ == trapezoids_toward(ns@[ni as int], DividerDirection::Ascending),
            downs@ == trapezoids_toward(ns@[ni as int], DividerDirection::Descending),
            forall|j: int| 0 <= j < ups@.len() ==> (ts@[(#[trigger] ups@[j])@ as int].down matches Some(d) && d@ == ni),
            forall|j: int| 0 <= j < downs@.len() ==> (#[trigger] downs@[j])@ < ts@.len(),
            forall|j: int| 0 <= j < k ==> (ts@[(#[trigger] downs@[j])@ as int].up matches Some(u) && u@ == ni),
        decreases downs@.len() - k,
    {
        let ok = match ts[downs[k].usize()].up() {
            Some(u) => u.usize() == ni,
            None => false,
        };
        if !ok {
            return false;
        }
        k = k + 1;
    }
    true
}

/// Whether trapezoid index `ti` is in `list`.
fn list_contains(list: &Vec<TrapezoidIdx>, ti: usize) -> (r: bool)
    ensures
        r == exists|k: int| 0 <= k < list@.len() && (#[trigger] list@[k])@ == ti,
{
    let mut k: usize = 0;
    while k < list.len()
        invariant
            k <= list@.len(),
            forall|j: int| 0 <= j < k ==> (#[trigger] list@[j])@ != ti,
        decreases list@.len() - k,
    {
        if list[k].usize() == ti {
            return true;
        }
        k = k + 1;
    }
    false
}

/// Whether trapezoid `ti` and the nexuses bounding it agree, and its sink
/// names it.
fn check_trapezoid_links(ns: &Vec<Nexus>, ts: &Vec<Trapezoid>, qs: &Vec<QueryNode>, ti: usize) -> (r: bool)
    requires
        ti < ts@.len(),
        ts@[ti as int].sink@ < qs@.len(),
        ts@[ti as int].down matches Some(d) ==> d@ < ns@.len() && ns@[d@ as int].spec_dividers().len() <= 2,
        ts@[ti as int].up matches Some(u) ==> u@ < ns@.len() && ns@[u@ as int].spec_dividers().len() <= 2,
    ensures
        r == trapezoid_linked(ns@, ts@, qs@, ti as int),
{
    let t = ts[ti];
    let down_ok = match t.down() {
        Some(d) => list_contains(&ns[d.usize()].iter_up_trapezoids(), ti),
        None => true,
    };
    let up_ok = match t.up() {
        Some(u) => list_contains(&ns[u.usize()].iter_down_trapezoids(), ti),
        None => true,
    };
    let sink_ok = match qs[t.sink().usize()] {
        QueryNode::Sink(t_other) => t_other.usize() == ti,
        QueryNode::Branch(_, _, _) => false,
    };
    down_ok && up_ok && sink_ok
}

/// Whether every nexus and every trapezoid of consistent arenas is linked
/// consistently.
fn check_all_links(vs: Ghost<Seq<Coords>>, ns: &Vec<Nexus>, ss: &Vec<Segment>, ts: &Vec<Trapezoid>, qs: &Vec<QueryNode>) -> (r: bool)
    requires
        arenas_wf(vs@, ns@, ss@, ts@, qs@),
    ensures
        r == all_linked(ns@, ts@, qs@),
{
    let mut ni: usize = 0;
    while ni < ns.len()
        invariant
            arenas_wf(vs@, ns@, ss@, ts@, qs@),
            ni <= ns@.len(),
            forall|j: int| 0 <= j < ni ==> #[trigger] nexus_linked(ns@, ts@, j),
        decreases ns@.len() - ni,
    {
        proof {
            let n = ns@[ni as int];
            assert(nexus_ok(n, vs@, ss@.len(), ts@.len()));
            lemma_toward_in_range(n, vs@, ss@.len(), ts@.len(), DividerDirection::Ascending);
            lemma_toward_in_range(n, vs@, ss@.len(), ts@.len(), DividerDirection::Descending);
        }
        if !check_nexus_links(ns, ts, ni) {
            return false;
        }
        ni = ni + 1;
    }
    let mut ti: usize = 0;
    while ti < ts.len()
        invariant
            arenas_wf(vs@, ns@, ss@, ts@, qs@),
            ti <= ts@.len(),
            forall|j: int| 0 <= j < ns@.len() ==> #[trigger] nexus_linked(ns@, ts@, j),
            forall|j: int| 0 <= j < ti ==> #[trigger] trapezoid_linked(ns@, ts@, qs@, j),
        decreases ts@.len() - ti,
    {
        proof {
            let t = ts@[ti as int];
            assert(trapezoid_ok(t, ns@.len(), ss@.len(), qs@.len()));
            if let Some(d) = t.down {
                assert(nexus_ok(ns@[d@ as int], vs@, ss@.len(), ts@.len()));
            }
            if let Some(u) = t.up {
                assert(nexus_ok(ns@[u@ as int], vs@, ss@.len(), ts@.len()));
            }
        }
        if !check_trapezoid_links(ns, ts, qs, ti) {
            return false;
        }
        ti = ti + 1;
    }
    true
}

/// The trapezoids around a consistent nexus are in range.
proof fn lemma_toward_in_range(n: Nexus, vs: Seq<Coords>, sn: nat, tn: nat, direction: DividerDirection)
    requires
        nexus_ok(n, vs, sn, tn),
    ensures
        forall|k: int| 0 <= k < trapezoids_toward(n, direction).len()
            ==> (#[trigger] trapezoids_toward(n, direction)[k])@ < tn,
{
    let divs = n.spec_dividers();
    let ds = dividers_in(divs, direction);
    assert forall|k: int| 0 <= k < trapezoids_toward(n, direction).len()
        implies (#[trigger] trapezoids_toward(n, direction)[k])@ < tn by {
        if k > 0 {
            assert(trapezoids_toward(n, direction)[k] == ds[k - 1].ti_right);
            assert(ds[k - 1] == divs[0] || ds[k - 1] == divs[1]);
        }
    }
}

/// Whether nexus `n` joins segment `si`, which leaves it in `direction`.
pub open spec fn joins(n: Nexus, si: nat, direction: DividerDirection) -> bool {
    exists|k: int|
        0 <= k < n.spec_dividers().len() && (#[trigger] n.spec_dividers()[k]).si@ == si
            && n.spec_dividers()[k].direction == direction
}

/// Nexus `b` joins the segments of `a`, in the same order and directions
/// (with possibly other trapezoids on their right).
pub open spec fn same_dividers(a: Nexus, b: Nexus) -> bool {
    &&& b.spec_dividers().len() == a.spec_dividers().len()
    &&& forall|k: int| 0 <= k < a.spec_dividers().len() ==> (#[trigger] b.spec_dividers()[k]).si == a.spec_dividers()[k].si
        && b.spec_dividers()[k].direction == a.spec_dividers()[k].direction
}

/// A nexus keeps joining a segment when its dividers are kept.
proof fn lemma_joins_kept(a: Nexus, b: Nexus, si: nat, direction: DividerDirection)
    requires
        joins(a, si, direction),
        same_dividers(a, b),
    ensures
        joins(b, si, direction),
{
    let k = choose|k: int|
        0 <= k < a.spec_dividers().len() && (#[trigger] a.spec_dividers()[k]).si@ == si
            && a.spec_dividers()[k].direction == direction;
    assert(b.spec_dividers()[k].si@ == si);
}

/// Every segment joined at a nexus of `a` is joined, in the same
/// direction, at the same nexus of `b`.
pub open spec fn dividers_grow(a: Seq<Nexus>, b: Seq<Nexus>) -> bool {
    &&& a.len() <= b.len()
    &&& forall|j: int, k: int|
        0 <= j < a.len() && 0 <= k < a[j].spec_dividers().len() ==> joins(
            b[j],
            (#[trigger] a[j].spec_dividers()[k]).si@,
            a[j].spec_dividers()[k].direction,
        )
}

/// Nexuses whose dividers are kept keep their joins.
proof fn lemma_grow_same(a: Seq<Nexus>, b: Seq<Nexus>)
    requires
        a.len() <= b.len(),
        forall|j: int| 0 <= j < a.len() ==> same_dividers(a[j], #[trigger] b[j]),
    ensures
        dividers_grow(a, b),
{
    assert forall|j: int, k: int|
        0 <= j < a.len() && 0 <= k < a[j].spec_dividers().len() implies joins(
            b[j],
            (#[trigger] a[j].spec_dividers()[k]).si@,
            a[j].spec_dividers()[k].direction,
        ) by {
        assert(same_dividers(a[j], b[j]));
        assert(b[j].spec_dividers()[k].si == a[j].spec_dividers()[k].si);
    }
}

/// A join kept from `a` to `b`.
proof fn lemma_grow_joins(a: Seq<Nexus>, b: Seq<Nexus>, j: int, si: nat, direction: DividerDirection)
    requires
        dividers_grow(a, b),
        0 <= j < a.len(),
        joins(a[j], si, direction),
    ensures
        joins(b[j], si, direction),
{
    let k = choose|k: int|
        0 <= k < a[j].spec_dividers().len() && (#[trigger] a[j].spec_dividers()[k]).si@ == si
            && a[j].spec_dividers()[k].direction == direction;
    assert(joins(b[j], a[j].spec_dividers()[k].si@, a[j].spec_dividers()[k].direction));
}

/// Growing joins is transitive.
proof fn lemma_grow_trans(a: Seq<Nexus>, b: Seq<Nexus>, c: Seq<Nexus>)
    requires
        dividers_grow(a, b),
        dividers_grow(b, c),
    ensures
        dividers_grow(a, c),
{
    assert forall|j: int, k: int|
        0 <= j < a.len() && 0 <= k < a[j].spec_dividers().len() implies joins(
            c[j],
            (#[trigger] a[j].spec_dividers()[k]).si@,
            a[j].spec_dividers()[k].direction,
        ) by {
        lemma_grow_joins(b, c, j, a[j].spec_dividers()[k].si@, a[j].spec_dividers()[k].direction);
    }
}

/// Joining a segment at nexus `ni` keeps every join (the other nexuses do
/// not change, and `ni` keeps its segments).
proof fn lemma_join_grows(a: Seq<Nexus>, b: Seq<Nexus>, ni: int)
    requires
        a.len() == b.len(),
        0 <= ni < a.len(),
        forall|j: int| 0 <= j < a.len() && j != ni ==> #[trigger] b[j] == a[j],
        forall|k: int| 0 <= k < a[ni].spec_dividers().len() ==> joins(
            b[ni],
            (#[trigger] a[ni].spec_dividers()[k]).si@,
            a[ni].spec_dividers()[k].direction,
        ),
    ensures
        dividers_grow(a, b),
{
    assert forall|j: int, k: int|
        0 <= j < a.len() && 0 <= k < a[j].spec_dividers().len() implies joins(
            b[j],
            (#[trigger] a[j].spec_dividers()[k]).si@,
            a[j].spec_dividers()[k].direction,
        ) by {
        if j != ni {
            assert(b[j] == a[j]);
            assert(joins(a[j], a[j].spec_dividers()[k].si@, a[j].spec_dividers()[k].direction));
        }
    }
}

/// Whether nexus `n` joins segment `si`, in either direction.
pub open spec fn joins_any(n: Nexus, si: nat) -> bool {
    joins(n, si, DividerDirection::Ascending) || joins(n, si, DividerDirection::Descending)
}

/// Whether nexus `n` joins exactly two segments, which differ.
pub open spec fn joins_two(n: Nexus) -> bool {
    &&& n.spec_dividers().len() == 2
    &&& n.spec_dividers()[0].si@ != n.spec_dividers()[1].si@
}

/// A nexus of at most two dividers that joins two different segments
/// joins exactly those two.
proof fn lemma_joins_two(n: Nexus, s1: nat, s2: nat)
    requires
        n.spec_dividers().len() <= 2,
        joins_any(n, s1),
        joins_any(n, s2),
        s1 != s2,
    ensures
        joins_two(n),
{
    let d = n.spec_dividers();
    let k1 = choose|k: int| 0 <= k < d.len() && (#[trigger] d[k]).si@ == s1 && (d[k].direction == DividerDirection::Ascending || d[k].direction == DividerDirection::Descending);
    let k2 = choose|k: int| 0 <= k < d.len() && (#[trigger] d[k]).si@ == s2 && (d[k].direction == DividerDirection::Ascending || d[k].direction == DividerDirection::Descending);
    assert(k1 != k2);
}

/// A nexus joining two segments keeps joining exactly them as its joins
/// grow.
proof fn lemma_joins_two_kept(a: Seq<Nexus>, b: Seq<Nexus>, j: int)
    requires
        dividers_grow(a, b),
        0 <= j < a.len(),
        joins_two(a[j]),
        b[j].spec_dividers().len() <= 2,
    ensures
        joins_two(b[j]),
{
    let d = a[j].spec_dividers();
    assert(joins(b[j], d[0].si@, d[0].direction));
    assert(joins(b[j], d[1].si@, d[1].direction));
    lemma_joins_two(b[j], d[0].si@, d[1].si@);
}

/// The state of a trapezoidation being built from a polygon list.
pub struct TrapezoidationState<'a> {
    ps: &'a PolygonList,
    ns: Vec<Nexus>,
    ss: Vec<Segment>,
    ts: Vec<Trapezoid>,
    qs: Vec<QueryNode>,
}

impl<'a> TrapezoidationState<'a> {
    /// The polygon list being trapezoidized.
    pub closed spec fn polygons(&self) -> &'a PolygonList {
        self.ps
    }

    /// The nexuses inserted so far.
    pub closed spec fn nexuses(&self) -> Seq<Nexus> {
        self.ns@
    }

    /// The segments inserted so far.
    pub closed spec fn segments(&self) -> Seq<Segment> {
        self.ss@
    }

    /// The trapezoids.
    pub closed spec fn trapezoids(&self) -> Seq<Trapezoid> {
        self.ts@
    }

    /// The query structure.
    pub closed spec fn queries(&self) -> Seq<QueryNode> {
        self.qs@
    }

    /// Every nexus and every segment has added one trapezoid to the
    /// first.
    pub open spec fn counted(&self) -> bool {
        self.trapezoids().len() == 1 + self.nexuses().len() + self.segments().len()
    }

    /// This state grew from `earlier` (see [grew_from]).
    pub open spec fn extends(&self, earlier: Self) -> bool {
        grew_from(
            earlier.nexuses(),
            earlier.segments(),
            earlier.queries(),
            self.nexuses(),
            self.segments(),
            self.queries(),
        )
    }

    /// Whether inserting the segment from nexus `ni_min` up to nexus
    /// `ni_max` needs no walk: the arenas have room, the nexuses differ and
    /// each has fewer than two segments, and the trapezoid below `ni_max`
    /// that the segment enters reaches down to `ni_min`.
    pub open spec fn direct_segment(&self, ni_min: NexusIdx, ni_max: NexusIdx) -> bool {
        let ns = self.nexuses();
        let ss = self.segments();
        let seg = Segment::spec_new(ni_min, ni_max, ns[ni_min@ as int].spec_c(), ns[ni_max@ as int].spec_c());
        &&& ss.len() < usize::MAX - 2
        &&& self.trapezoids().len() < usize::MAX - 3
        &&& self.queries().len() < usize::MAX - 4
        &&& ni_min@ != ni_max@
        &&& ns[ni_min@ as int].spec_dividers().len() < 2
        &&& ns[ni_max@ as int].spec_dividers().len() < 2
        &&& down_toward(ns[ni_max@ as int], ns, ss.push(seg), seg) matches Some(t) && {
            &&& t@ < self.trapezoids().len()
            &&& self.trapezoids()[t@ as int].down matches Some(d) && d@ == ni_min@
        }
    }

    /// Whether the nexuses and trapezoids are [linked].
    pub open spec fn is_linked(&self) -> bool {
        linked(self.nexuses(), self.trapezoids(), self.queries())
    }

    /// Whether the arenas are consistent.
    pub open spec fn wf(&self) -> bool {
        &&& self.polygons().wf()
        &&& arenas_wf(
            self.polygons().vertices(),
            self.nexuses(),
            self.segments(),
            self.trapezoids(),
            self.queries(),
        )
    }

    /// The trapezoidation of the empty polygon list over `ps`: one
    /// trapezoid covering the plane, found by a single sink.
    pub fn new(ps: &'a PolygonList) -> (r: Self)
        requires
            ps.wf(),
        ensures
            r.wf(),
            r.polygons() == ps,
            r.nexuses().len() == 0,
            r.segments().len() == 0,
            r.trapezoids().len() == 1,
            r.queries().len() == 1,
            r.queries()[0] matches QueryNode::Sink(t) && t@ == 0,
            r.trapezoids()[0].up is None && r.trapezoids()[0].down is None,
            r.trapezoids()[0].left is None && r.trapezoids()[0].right is None,
            r.counted(),
            r.is_linked(),
    {
        let mut qs: Vec<QueryNode> = Vec::new();
        let ti: TrapezoidIdx = Idx::new(0);
        let q = QueryNode::root(ti);
        let qi: QueryIdx = Idx::new(qs.len());
        qs.push(q);
        let t = Trapezoid::all(qi);
        let mut ts: Vec<Trapezoid> = Vec::new();
        ts.push(t);
        let r = TrapezoidationState { ps, ns: Vec::new(), ss: Vec::new(), ts, qs };
        assert(is_sink_of(r.queries()[r.trapezoids()[0].sink@ as int], 0));
        r
    }

    /// The query node at the root of the query structure.
    pub fn query_node_root(&self) -> (r: QueryIdx)
        ensures
            r@ == 0,
    {
        Idx::new(0)
    }

    /// The sink found by descending the query structure from `qi_root` for
    /// the position of vertex `vi`, and the trapezoid it names.
    pub fn find_trapezoid_from_root(&self, vi: usize, qi_root: QueryIdx) -> (r: (QueryIdx, TrapezoidIdx))
        requires
            self.wf(),
            vi < self.polygons().vertices().len(),
            qi_root@ < self.queries().len(),
        ensures
            r.0@ == locate(
                self.nexuses(),
                self.segments(),
                self.queries(),
                self.polygons().vertices()[vi as int],
                qi_root@ as int,
            ),
            r.0@ < self.queries().len(),
            self.queries()[r.0@ as int] matches QueryNode::Sink(t) && t == r.1,
            r.1@ < self.trapezoids().len(),
    {
        let c = self.ps.get_vertex(vi);
        let mut qi = qi_root;
        loop
            invariant
                self.wf(),
                c == self.polygons().vertices()[vi as int],
                qi@ < self.queries().len(),
                locate(self.nexuses(), self.segments(), self.queries(), c, qi_root@ as int)
                    == locate(self.nexuses(), self.segments(), self.queries(), c, qi@ as int),
            decreases self.queries().len() - qi@,
        {
            let q = self.qs[qi.usize()];
            assert(query_ok(self.queries()[qi@ as int], qi@ as int, self.nexuses().len(), self.segments().len(), self.trapezoids().len(), self.queries().len()));
            match q {
                QueryNode::Branch(left, right, branch) => {
                    let use_left = match branch {
                        QueryNodeBranch::X(si) => self.ss[si.usize()].is_on_left(c),
                        QueryNodeBranch::Y(ni_y) => c.le(&self.ns[ni_y.usize()].coords()),
                    };
                    qi = if use_left { left } else { right };
                },
                QueryNode::Sink(ti) => {
                    return (qi, ti);
                },
            }
        }
    }

    /// The sink found from the root of the query structure for vertex `vi`.
    pub fn find_trapezoid(&self, vi: usize) -> (r: (QueryIdx, TrapezoidIdx))
        requires
            self.wf(),
            vi < self.polygons().vertices().len(),
        ensures
            r.0@ == locate(
                self.nexuses(),
                self.segments(),
                self.queries(),
                self.polygons().vertices()[vi as int],
                0,
            ),
            self.queries()[r.0@ as int] matches QueryNode::Sink(t) && t == r.1,
            r.1@ < self.trapezoids().len(),
    {
        self.find_trapezoid_from_root(vi, self.query_node_root())
    }

    /// The polygon list being trapezoidized.
    pub fn ps(&self) -> (r: &'a PolygonList)
        ensures
            r == self.polygons(),
    {
        self.ps
    }

    /// The nexuses.
    pub fn ns(&self) -> (r: &Vec<Nexus>)
        ensures
            r@ == self.nexuses(),
    {
        &self.ns
    }

    /// The segments.
    pub fn ss(&self) -> (r: &Vec<Segment>)
        ensures
            r@ == self.segments(),
    {
        &self.ss
    }

    /// The trapezoids.
    pub fn ts(&self) -> (r: &Vec<Trapezoid>)
        ensures
            r@ == self.trapezoids(),
    {
        &self.ts
    }

    /// The query structure.
    pub fn qs(&self) -> (r: &Vec<QueryNode>)
        ensures
            r@ == self.queries(),
    {
        &self.qs
    }

    /// Whether nexus `ni` and the trapezoids around it agree.
    pub fn check_consistency_nexus(&self, ni: NexusIdx) -> (r: bool)
        requires
            self.wf(),
            ni@ < self.nexuses().len(),
        ensures
            r == nexus_linked(self.nexuses(), self.trapezoids(), ni@ as int),
    {
        proof {
            let n = self.ns@[ni@ as int];
            assert(nexus_ok(n, self.polygons().vertices(), self.ss@.len(), self.ts@.len()));
            lemma_toward_in_range(n, self.polygons().vertices(), self.ss@.len(), self.ts@.len(), DividerDirection::Ascending);
            lemma_toward_in_range(n, self.polygons().vertices(), self.ss@.len(), self.ts@.len(), DividerDirection::Descending);
        }
        check_nexus_links(&self.ns, &self.ts, ni.usize())
    }

    /// Whether trapezoid `ti` and the nexuses bounding it agree, and its
    /// sink names it.
    pub fn check_consistency_trapezoid(&self, ti: TrapezoidIdx) -> (r: bool)
        requires
            self.wf(),
            ti@ < self.trapezoids().len(),
        ensures
            r == trapezoid_linked(self.nexuses(), self.trapezoids(), self.queries(), ti@ as int),
    {
        proof {
            let t = self.ts@[ti@ as int];
            assert(trapezoid_ok(t, self.ns@.len(), self.ss@.len(), self.qs@.len()));
            if let Some(d) = t.down {
                assert(nexus_ok(self.ns@[d@ as int], self.polygons().vertices(), self.ss@.len(), self.ts@.len()));
            }
            if let Some(u) = t.up {
                assert(nexus_ok(self.ns@[u@ as int], self.polygons().vertices(), self.ss@.len(), self.ts@.len()));
            }
        }
        check_trapezoid_links(&self.ns, &self.ts, &self.qs, ti.usize())
    }

    /// Whether every nexus and every trapezoid is linked consistently.
    pub fn check_consistency(&self) -> (r: bool)
        requires
            self.wf(),
        ensures
            r == all_linked(self.nexuses(), self.trapezoids(), self.queries()),
    {
        check_all_links(Ghost(self.polygons().vertices()), &self.ns, &self.ss, &self.ts, &self.qs)
    }

    /// Inserts vertex `vi` (located from query node `qi_root`): the
    /// trapezoid containing it is cut by the horizontal line through it,
    /// the lower part keeping its index, and a nexus joins the two parts.
    /// An error when the nexus above the trapezoid does not border it, or
    /// when the arenas are full.
    #[verifier::spinoff_prover]
    pub fn add_vertex(&mut self, vi: usize, qi_root: QueryIdx) -> (r: Result<NexusIdx, InternalError>)
        requires
            old(self).wf(),
            vi < old(self).polygons().vertices().len(),
            qi_root@ < old(self).queries().len(),
        ensures
            final(self).polygons() == old(self).polygons(),
            old(self).is_linked() && old(self).nexuses().len() < usize::MAX - 2
                && old(self).trapezoids().len() < usize::MAX - 2 && old(self).queries().len()
                < usize::MAX - 3 ==> r is Ok,
            r is Ok ==> {
                &&& final(self).wf()
                &&& r->Ok_0@ == old(self).nexuses().len()
                &&& final(self).nexuses().len() == old(self).nexuses().len() + 1
                &&& final(self).nexuses()[r->Ok_0@ as int].spec_vi() == vi
                &&& same_places(old(self).nexuses(), final(self).nexuses())
                &&& final(self).extends(*old(self))
                &&& forall|j: int| 0 <= j < old(self).nexuses().len() ==> same_dividers(
                    old(self).nexuses()[j],
                    #[trigger] final(self).nexuses()[j],
                )
                &&& final(self).segments() == old(self).segments()
                &&& old(self).is_linked() ==> final(self).is_linked()
                &&& final(self).queries().len() == old(self).queries().len() + 2
                &&& final(self).trapezoids().len() == old(self).trapezoids().len() + 1
                &&& ({
                    let ni = r->Ok_0;
                    let qi = locate(
                        old(self).nexuses(),
                        old(self).segments(),
                        old(self).queries(),
                        old(self).polygons().vertices()[vi as int],
                        qi_root@ as int,
                    );
                    let tn = old(self).trapezoids().len();
                    let qn = old(self).queries().len();
                    old(self).queries()[qi] matches QueryNode::Sink(t) && {
                        &&& final(self).nexuses()[ni@ as int].spec_downleft() == t
                        &&& final(self).nexuses()[ni@ as int].spec_upleft()@ == tn
                        &&& final(self).trapezoids()[t@ as int].up matches Some(u) && u@ == ni@
                        &&& final(self).trapezoids()[t@ as int].sink@ == qn
                        &&& final(self).trapezoids()[tn as int].down matches Some(d) && d@ == ni@
                        &&& final(self).trapezoids()[tn as int].sink@ == qn + 1
                        &&& final(self).queries()[qi] matches QueryNode::Branch(l, h, QueryNodeBranch::Y(y))
                            && l@ == qn && h@ == qn + 1 && y@ == ni@
                        &&& final(self).queries()[qn as int] == QueryNode::Sink(t)
                        &&& locate(
                            final(self).nexuses(),
                            final(self).segments(),
                            final(self).queries(),
                            old(self).polygons().vertices()[vi as int],
                            qi_root@ as int,
                        ) == qn
                    }
                })
            },
    {
        if self.ns.len() >= usize::MAX - 2 || self.ts.len() >= usize::MAX - 2 || self.qs.len()
            >= usize::MAX - 3 {
            return Err(InternalError::new("Trapezoidation arenas are full"));
        }
        let ghost vs = self.polygons().vertices();
        let ghost ns0 = self.ns@;
        let ghost ts0 = self.ts@;
        let ghost qs0 = self.qs@;
        let (qi_parent, ti) = self.find_trapezoid_from_root(vi, qi_root);
        let ti_new: TrapezoidIdx = Idx::new(self.ts.len());
        let qi_down: QueryIdx = Idx::new(self.qs.len());
        let qi_up = qi_down.plus(1);
        let ni: NexusIdx = Idx::new(self.ns.len());
        let c = self.ps.get_vertex(vi);
        self.ns.push(Nexus::new(vi, c, ti_new, ti));
        let mut q = self.qs[qi_parent.usize()];
        let (q_left, q_right) = q.into_y(qi_down, qi_up, ni, ti_new);
        self.qs.set(qi_parent.usize(), q);
        let mut t = self.ts[ti.usize()];
        t.set_sink(qi_down);
        self.qs.push(q_left);
        self.qs.push(q_right);
        let t_new = t.split_horizontal(qi_down, qi_up, ni);
        self.ts.set(ti.usize(), t);
        let ghost ns1 = self.ns@;
        match t_new.up() {
            Some(ni_up) => {
                assert(nexus_ok(ns1[ni_up@ as int], vs, self.ss@.len(), ts0.len()));
                let res = self.ns[ni_up.usize()].replace_trapezoid(ti, ti_new);
                proof {
                    if linked(ns0, ts0, qs0) {
                        lemma_above_found(ns0, ts0, qs0, ti);
                        if res is Ok {
                            lemma_replace_below(ns1[ni_up@ as int], self.ns@[ni_up@ as int], ti, ti_new);
                        }
                    }
                }
                res?;
                assert(same_dividers(ns1[ni_up@ as int], self.ns@[ni_up@ as int]));
            },
            None => {},
        }
        assert forall|j: int| 0 <= j < ns0.len() implies same_dividers(ns0[j], #[trigger] self.ns@[j]) by {
            assert(ns1[j] == ns0[j]);
        }
        self.ts.push(t_new);
        proof {
            let nn = self.ns@.len();
            let sn = self.ss@.len();
            let tn = self.ts@.len();
            let qn = self.qs@.len();
            assert forall|i: int| 0 <= i < nn implies nexus_ok(#[trigger] self.ns@[i], vs, sn, tn) by {
                if i < ns0.len() {
                    assert(nexus_ok(ns0[i], vs, sn, ts0.len()));
                    let n = self.ns@[i];
                    let o = ns0[i];
                    assert forall|k: int| 0 <= k < n.spec_dividers().len() implies (#[trigger] n.spec_dividers()[k]).si@ < sn
                        && n.spec_dividers()[k].ti_right@ < tn by {
                        if n.spec_dividers() != o.spec_dividers() {
                            assert(o.spec_dividers()[k].si@ < sn);
                        } else {
                            assert(o.spec_dividers()[k].si@ < sn);
                        }
                    }
                }
            }
            assert forall|i: int| 0 <= i < self.ss@.len() implies segment_ok(#[trigger] self.ss@[i], nn) by {
                assert(segment_ok(self.ss@[i], ns0.len()));
            }
            assert forall|i: int| 0 <= i < tn implies trapezoid_ok(#[trigger] self.ts@[i], nn, sn, qn) by {
                if i < ts0.len() && i != ti@ {
                    assert(trapezoid_ok(ts0[i], ns0.len(), sn, qs0.len()));
                } else {
                    assert(trapezoid_ok(ts0[ti@ as int], ns0.len(), sn, qs0.len()));
                }
            }
            assert forall|i: int| 0 <= i < qn implies query_ok(#[trigger] self.qs@[i], i, nn, sn, tn, qn) by {
                if i < qs0.len() && i != qi_parent@ {
                    assert(query_ok(qs0[i], i, ns0.len(), sn, ts0.len(), qs0.len()));
                }
            }
            assert forall|i: int| 0 <= i < tn implies is_sink_of(self.qs@[(#[trigger] self.ts@[i]).sink@ as int], i) by {
                if i < ts0.len() && i != ti@ {
                    assert(is_sink_of(qs0[ts0[i].sink@ as int], i));
                    assert(ts0[i].sink@ != qi_parent@);
                }
            }
        }
        proof {
            assert forall|i: int| 0 <= i < qs0.len() && (#[trigger] qs0[i]) is Branch implies self.qs@[i] == qs0[i] by {
                assert(i != qi_parent@);
            }
            let c = vs[vi as int];
            lemma_locate_resume(vs, ns0, old(self).ss@, ts0, qs0, self.ns@, self.ss@, self.qs@, c, qi_root@ as int);
            assert(self.ns@[ni@ as int].spec_c() == c);
            assert(locate(self.ns@, self.ss@, self.qs@, c, qs0.len() as int) == qs0.len());
        }
        proof {
            if linked(ns0, ts0, qs0) {
                let sn = self.ss@.len();
                let asc = DividerDirection::Ascending;
                let desc = DividerDirection::Descending;
                assert forall|i: int| 0 <= i < ts0.len() && (#[trigger] ts0[i]).up is Some implies ts0[i].up->Some_0@
                    < ns0.len() by {
                    assert(trapezoid_ok(ts0[i], ns0.len(), sn, qs0.len()));
                }
                assert forall|i: int| 0 <= i < ts0.len() && (#[trigger] ts0[i]).down is Some implies ts0[i].down->Some_0@
                    < ns0.len() by {
                    assert(trapezoid_ok(ts0[i], ns0.len(), sn, qs0.len()));
                }
                assert forall|j: int, k: int|
                    0 <= j < ns0.len() && 0 <= k < trapezoids_toward(ns0[j], asc).len() implies (
                    #[trigger] trapezoids_toward(ns0[j], asc)[k])@ < ts0.len() by {
                    assert(nexus_ok(ns0[j], vs, sn, ts0.len()));
                    lemma_toward_in_range(ns0[j], vs, sn, ts0.len(), asc);
                }
                assert forall|j: int, k: int|
                    0 <= j < ns0.len() && 0 <= k < trapezoids_toward(ns0[j], desc).len() implies (
                    #[trigger] trapezoids_toward(ns0[j], desc)[k])@ < ts0.len() by {
                    assert(nexus_ok(ns0[j], vs, sn, ts0.len()));
                    lemma_toward_in_range(ns0[j], vs, sn, ts0.len(), desc);
                }
                assert(trapezoids_toward(self.ns@[ni@ as int], asc) =~= seq![ti_new]);
                assert(trapezoids_toward(self.ns@[ni@ as int], desc) =~= seq![ti]);
                lemma_cut_links(ns0, ts0, qs0, self.ns@, self.ts@, self.qs@, ti, ti_new, ni);
            }
        }
        Ok(ni)
    }

    /// Redirects nexus `ni`'s reference to trapezoid `ti_old` to `ti_new`.
    fn redirect(&mut self, ni: NexusIdx, ti_old: TrapezoidIdx, ti_new: TrapezoidIdx) -> (r: Result<(), InternalError>)
        requires
            old(self).wf(),
            ni@ < old(self).nexuses().len(),
            ti_new@ < old(self).trapezoids().len(),
        ensures
            final(self).polygons() == old(self).polygons(),
            final(self).segments() == old(self).segments(),
            final(self).trapezoids() == old(self).trapezoids(),
            final(self).queries() == old(self).queries(),
            final(self).nexuses().len() == old(self).nexuses().len(),
            same_places(old(self).nexuses(), final(self).nexuses()),
            final(self).extends(*old(self)),
            forall|j: int| 0 <= j < old(self).nexuses().len() ==> same_dividers(
                old(self).nexuses()[j],
                #[trigger] final(self).nexuses()[j],
            ),
            r is Ok ==> final(self).wf(),
            r is Ok <==> borders(old(self).nexuses()[ni@ as int], ti_old),
            r is Ok ==> final(self).nexuses() == old(self).nexuses().update(
                ni@ as int,
                final(self).nexuses()[ni@ as int],
            ) && replaced(old(self).nexuses()[ni@ as int], final(self).nexuses()[ni@ as int], ti_old, ti_new),
            r is Err ==> final(self).nexuses() == old(self).nexuses(),
    {
        let ghost o = self.ns@[ni@ as int];
        proof {
            assert(nexus_ok(o, self.polygons().vertices(), self.ss@.len(), self.ts@.len()));
        }
        let res = self.ns[ni.usize()].replace_trapezoid(ti_old, ti_new);
        proof {
            let n = self.ns@[ni@ as int];
            assert(same_dividers(o, n));
            assert forall|j: int| 0 <= j < old(self).nexuses().len() implies same_dividers(
                old(self).nexuses()[j],
                #[trigger] self.nexuses()[j],
            ) by {
                if j != ni@ {
                    assert(self.ns@[j] == old(self).ns@[j]);
                }
            }
        }
        if res.is_err() {
            assert(self.ns@ =~= old(self).ns@);
            return res;
        }
        proof {
            let n = self.ns@[ni@ as int];
            lemma_replaced_nexus_ok(o, n, self.polygons().vertices(), self.ss@.len(), self.ts@.len(), ti_new);
            assert(self.ns@ == old(self).ns@.update(ni@ as int, n));
            lemma_set_nexus(self.polygons().vertices(), old(self).ns@, self.ss@, self.ts@, self.qs@, ni@ as int, n);
        }
        Ok(())
    }

    /// Joins segment `si` at nexus `ni` with `ti_right` on its right.
    fn join(&mut self, ni: NexusIdx, si: SegmentIdx, ti_right: TrapezoidIdx) -> (r: Result<(), InternalError>)
        requires
            old(self).wf(),
            ni@ < old(self).nexuses().len(),
            si@ < old(self).segments().len(),
            ti_right@ < old(self).trapezoids().len(),
        ensures
            final(self).polygons() == old(self).polygons(),
            final(self).segments() == old(self).segments(),
            final(self).trapezoids() == old(self).trapezoids(),
            final(self).queries() == old(self).queries(),
            final(self).nexuses().len() == old(self).nexuses().len(),
            same_places(old(self).nexuses(), final(self).nexuses()),
            final(self).extends(*old(self)),
            r is Ok ==> final(self).wf(),
            r is Ok <==> segment_direction(old(self).segments()[si@ as int], ni) is Some
                && old(self).nexuses()[ni@ as int].spec_dividers().len() < 2,
            r is Ok ==> forall|j: int| 0 <= j < old(self).nexuses().len() && j != ni@ ==> #[trigger] final(self).nexuses()[j] == old(self).nexuses()[j],
            r is Ok ==> (segment_direction(old(self).segments()[si@ as int], ni) matches Some(dir) && joins(final(self).nexuses()[ni@ as int], si@, dir)),
            r is Ok ==> forall|k: int| 0 <= k < old(self).nexuses()[ni@ as int].spec_dividers().len() ==> joins(
                final(self).nexuses()[ni@ as int],
                (#[trigger] old(self).nexuses()[ni@ as int].spec_dividers()[k]).si@,
                old(self).nexuses()[ni@ as int].spec_dividers()[k].direction,
            ),
    {
        let ghost vs = self.polygons().vertices();
        let ghost o = self.ns@[ni@ as int];
        proof {
            assert(nexus_ok(o, vs, self.ss@.len(), self.ts@.len()));
            assert forall|j: int| 0 <= j < self.ss@.len() implies (#[trigger] self.ss@[j]).spec_ni_min()@ < self.ns@.len()
                && self.ss@[j].spec_ni_max()@ < self.ns@.len() by {
                assert(segment_ok(self.ss@[j], self.ns@.len()));
            }
        }
        Nexus::add_segment(&mut self.ns, &self.ss, ni, si, ti_right)?;
        proof {
            let n = self.ns@[ni@ as int];
            assert forall|k: int| 0 <= k < n.spec_dividers().len() implies (#[trigger] n.spec_dividers()[k]).si@ < self.ss@.len()
                && n.spec_dividers()[k].ti_right@ < self.ts@.len() by {
                if o.spec_dividers().len() == 1 {
                    assert(o.spec_dividers()[0].si@ < self.ss@.len());
                }
            }
            assert(nexus_ok(n, vs, self.ss@.len(), self.ts@.len()));
            assert(self.ns@ =~= old(self).ns@.update(ni@ as int, n));
            lemma_set_nexus(vs, old(self).ns@, self.ss@, self.ts@, self.qs@, ni@ as int, n);
            let dir = segment_direction(self.ss@[si@ as int], ni)->0;
            let div = Divider { si, ti_right, direction: dir };
            let divs = o.spec_dividers();
            if divs.len() == 0 {
                assert(n.spec_dividers()[0] == div);
            } else {
                let d0 = divs[0];
                if n.spec_dividers() == seq![div, d0] {
                    assert(n.spec_dividers()[0] == div);
                    assert(n.spec_dividers()[1] == d0);
                } else {
                    assert(n.spec_dividers() == seq![d0, div]);
                    assert(n.spec_dividers()[0] == d0);
                    assert(n.spec_dividers()[1] == div);
                }
            }
        }
        Ok(())
    }

    /// The trapezoid below nexus `ni` that segment `si` continues into.
    fn down_in_direction(&self, ni: NexusIdx, si: SegmentIdx) -> (r: Result<TrapezoidIdx, InternalError>)
        requires
            self.wf(),
            ni@ < self.nexuses().len(),
            si@ < self.segments().len(),
        ensures
            r matches Ok(t) ==> t@ < self.trapezoids().len(),
            match down_toward(self.nexuses()[ni@ as int], self.nexuses(), self.segments(), self.segments()[si@ as int]) {
                Some(t) => r == Ok::<TrapezoidIdx, InternalError>(t),
                None => r is Err,
            },
    {
        let ghost vs = self.polygons().vertices();
        let ghost n = self.ns@[ni@ as int];
        proof {
            assert(nexus_ok(n, vs, self.ss@.len(), self.ts@.len()));
            assert(segment_ok(self.ss@[si@ as int], self.ns@.len()));
            assert forall|j: int| 0 <= j < self.ss@.len() implies (#[trigger] self.ss@[j]).spec_ni_min()@ < self.ns@.len() by {
                assert(segment_ok(self.ss@[j], self.ns@.len()));
            }
        }
        let r = self.ns[ni.usize()].get_down_trapezoid_in_direction(&self.ns, &self.ss, &self.ss[si.usize()]);
        proof {
            let divs = n.spec_dividers();
            let ds = dividers_in(divs, DividerDirection::Descending);
            if ds.len() > 0 {
                assert(ds.last() == divs[0] || ds.last() == divs[1]);
            }
        }
        r
    }

    /// Cuts trapezoid `ti` along segment `si`: it keeps the part on the
    /// left and the part on the right is appended, the trapezoid's sink
    /// becoming a test of `si`.
    fn split_along(&mut self, ti: TrapezoidIdx, si: SegmentIdx) -> (ti_new: TrapezoidIdx)
        requires
            old(self).wf(),
            ti@ < old(self).trapezoids().len(),
            si@ < old(self).segments().len(),
            old(self).trapezoids().len() + 2 < usize::MAX,
            old(self).queries().len() + 3 < usize::MAX,
        ensures
            final(self).wf(),
            final(self).polygons() == old(self).polygons(),
            final(self).nexuses() == old(self).nexuses(),
            final(self).segments() == old(self).segments(),
            final(self).trapezoids().len() == old(self).trapezoids().len() + 1,
            final(self).queries().len() == old(self).queries().len() + 2,
            final(self).extends(*old(self)),
            ti_new@ == old(self).trapezoids().len(),
            final(self).trapezoids()[ti@ as int].down == old(self).trapezoids()[ti@ as int].down,
    {
        let ghost vs = self.polygons().vertices();
        let ghost ts0 = self.ts@;
        let ghost qs0 = self.qs@;
        let qi = self.ts[ti.usize()].sink();
        let ti_new: TrapezoidIdx = Idx::new(self.ts.len());
        let qi_left: QueryIdx = Idx::new(self.qs.len());
        let qi_right = qi_left.plus(1);
        let mut q = self.qs[qi.usize()];
        let (q_left, q_right) = q.into_x(qi_left, qi_right, si, ti_new);
        self.qs.set(qi.usize(), q);
        self.qs.push(q_left);
        self.qs.push(q_right);
        let mut t = self.ts[ti.usize()];
        let t_new = t.split_vertical(qi_left, qi_right, si);
        self.ts.set(ti.usize(), t);
        self.ts.push(t_new);
        proof {
            assert(trapezoid_ok(ts0[ti@ as int], self.ns@.len(), self.ss@.len(), qs0.len()));
            lemma_split(vs, self.ns@, self.ss@, ts0, qs0, ti@ as int, t, t_new, q, q_right);
            assert(self.ts@ == ts0.update(ti@ as int, t).push(t_new));
            assert(self.qs@ == qs0.update(qi@ as int, q).push(qs0[qi@ as int]).push(q_right));
            assert(is_sink_of(qs0[ts0[ti@ as int].sink@ as int], ti@ as int));
            assert forall|i: int| 0 <= i < qs0.len() && (#[trigger] qs0[i]) is Branch implies self.qs@[i] == qs0[i] by {
                assert(i != qi@);
            }
        }
        ti_new
    }

    /// Merges the part of trapezoid `ti` right of segment `si` into
    /// `ti_upright` above it, which then reaches down to nexus `ni`: `ti`
    /// is bounded by `si` on the right and its sink becomes a test of `si`
    /// whose right child is the sink of `ti_upright`. An error when that
    /// sink does not come after the sink of `ti` in the query structure.
    fn merge_right(&mut self, ti: TrapezoidIdx, ti_upright: TrapezoidIdx, ni: NexusIdx, si: SegmentIdx) -> (r: Result<(), InternalError>)
        requires
            old(self).wf(),
            ti@ < old(self).trapezoids().len(),
            ti_upright@ < old(self).trapezoids().len(),
            ni@ < old(self).nexuses().len(),
            si@ < old(self).segments().len(),
            old(self).queries().len() + 2 < usize::MAX,
        ensures
            ({
                let ts0 = old(self).trapezoids();
                let qs0 = old(self).queries();
                let t0 = ts0[ti@ as int];
                let qs = ts0[ti@ as int].sink;
                let qo = ts0[ti_upright@ as int].sink;
                let qn = qs0.len();
                &&& r is Err <==> qs@ >= qo@
                &&& r is Err ==> final(self).trapezoids() == ts0 && final(self).queries() == qs0
                &&& r is Ok ==> {
                    &&& final(self).queries().len() == qn + 1
                    &&& final(self).queries()[qs@ as int] matches QueryNode::Branch(l, h, QueryNodeBranch::X(x)) && l@ == qn && h@ == qo@ && x@ == si@
                    &&& final(self).queries()[qn as int] == qs0[qs@ as int]
                    &&& forall|i: int| 0 <= i < qn && i != qs@ ==> #[trigger] final(self).queries()[i] == qs0[i]
                    &&& final(self).trapezoids()[ti_upright@ as int].down matches Some(d) && d@ == ni@
                    &&& ti@ != ti_upright@ ==> final(self).trapezoids()[ti@ as int] == (Trapezoid {
                        right: Some(si),
                        sink: final(self).trapezoids()[ti@ as int].sink,
                        ..t0
                    })
                    &&& final(self).trapezoids()[ti@ as int].sink@ == qn
                    &&& ti@ != ti_upright@ ==> final(self).trapezoids()[ti_upright@ as int] == (Trapezoid {
                        down: final(self).trapezoids()[ti_upright@ as int].down,
                        ..ts0[ti_upright@ as int]
                    })
                    &&& forall|i: int|
                        0 <= i < ts0.len() && i != ti@ && i != ti_upright@ ==> #[trigger] final(self).trapezoids()[i] == ts0[i]
                }
            }),
            final(self).wf(),
            final(self).polygons() == old(self).polygons(),
            final(self).nexuses() == old(self).nexuses(),
            final(self).segments() == old(self).segments(),
            final(self).trapezoids().len() == old(self).trapezoids().len(),
            final(self).queries().len() >= old(self).queries().len(),
            final(self).extends(*old(self)),
    {
        let ghost vs = self.polygons().vertices();
        let ghost ts0 = self.ts@;
        let ghost qs0 = self.qs@;
        let qi_sink = self.ts[ti.usize()].sink();
        let qi_other = self.ts[ti_upright.usize()].sink();
        if qi_sink.usize() >= qi_other.usize() {
            return Err(InternalError::new("Inconsistent query structure"));
        }
        proof {
            assert(trapezoid_ok(ts0[ti@ as int], self.ns@.len(), self.ss@.len(), qs0.len()));
            assert(trapezoid_ok(ts0[ti_upright@ as int], self.ns@.len(), self.ss@.len(), qs0.len()));
        }
        let qi_left: QueryIdx = Idx::new(self.qs.len());
        let mut q = self.qs[qi_sink.usize()];
        let q_left = q.into_x_merge(qi_left, qi_other, si);
        self.qs.set(qi_sink.usize(), q);
        self.qs.push(q_left);
        let mut t = self.ts[ti.usize()];
        t.set_sink(qi_left);
        t.set_right(si);
        self.ts.set(ti.usize(), t);
        proof {
            lemma_merge(vs, self.ns@, self.ss@, ts0, qs0, ti@ as int, t, q);
            assert(self.qs@ == qs0.update(qi_sink@ as int, q).push(qs0[qi_sink@ as int]));
            assert(is_sink_of(qs0[ts0[ti@ as int].sink@ as int], ti@ as int));
            assert forall|i: int| 0 <= i < qs0.len() && (#[trigger] qs0[i]) is Branch implies self.qs@[i] == qs0[i] by {
                assert(i != qi_sink@);
            }
        }
        let ghost ts1 = self.ts@;
        let mut tu = self.ts[ti_upright.usize()];
        tu.set_down(ni);
        self.ts.set(ti_upright.usize(), tu);
        proof {
            assert(trapezoid_ok(ts1[ti_upright@ as int], self.ns@.len(), self.ss@.len(), self.qs@.len()));
            lemma_set_trapezoid(vs, self.ns@, self.ss@, ts1, self.qs@, ti_upright@ as int, tu);
        }
        Ok(())
    }

    /// Merges the part of trapezoid `ti` left of segment `si` into
    /// `ti_upleft` above it, which then reaches down to nexus `ni`: `ti` is
    /// bounded by `si` on the left and its sink becomes a test of `si` whose
    /// left child is the sink of `ti_upleft`. An error when that sink does
    /// not come after the sink of `ti` in the query structure.
    fn merge_left(&mut self, ti: TrapezoidIdx, ti_upleft: TrapezoidIdx, ni: NexusIdx, si: SegmentIdx) -> (r: Result<(), InternalError>)
        requires
            old(self).wf(),
            ti@ < old(self).trapezoids().len(),
            ti_upleft@ < old(self).trapezoids().len(),
            ni@ < old(self).nexuses().len(),
            si@ < old(self).segments().len(),
            old(self).queries().len() + 2 < usize::MAX,
        ensures
            ({
                let ts0 = old(self).trapezoids();
                let qs0 = old(self).queries();
                let t0 = ts0[ti@ as int];
                let qs = ts0[ti@ as int].sink;
                let qo = ts0[ti_upleft@ as int].sink;
                let qn = qs0.len();
                &&& r is Err <==> qs@ >= qo@
                &&& r is Err ==> final(self).trapezoids() == ts0 && final(self).queries() == qs0
                &&& r is Ok ==> {
                    &&& final(self).queries().len() == qn + 1
                    &&& final(self).queries()[qs@ as int] matches QueryNode::Branch(l, h, QueryNodeBranch::X(x)) && l@ == qo@ && h@ == qn && x@ == si@
                    &&& final(self).queries()[qn as int] == qs0[qs@ as int]
                    &&& forall|i: int| 0 <= i < qn && i != qs@ ==> #[trigger] final(self).queries()[i] == qs0[i]
                    &&& final(self).trapezoids()[ti_upleft@ as int].down matches Some(d) && d@ == ni@
                    &&& ti@ != ti_upleft@ ==> final(self).trapezoids()[ti@ as int] == (Trapezoid {
                        left: Some(si),
                        sink: final(self).trapezoids()[ti@ as int].sink,
                        ..t0
                    })
                    &&& final(self).trapezoids()[ti@ as int].sink@ == qn
                    &&& ti@ != ti_upleft@ ==> final(self).trapezoids()[ti_upleft@ as int] == (Trapezoid {
                        down: final(self).trapezoids()[ti_upleft@ as int].down,
                        ..ts0[ti_upleft@ as int]
                    })
                    &&& forall|i: int|
                        0 <= i < ts0.len() && i != ti@ && i != ti_upleft@ ==> #[trigger] final(self).trapezoids()[i] == ts0[i]
                }
            }),
            final(self).wf(),
            final(self).polygons() == old(self).polygons(),
            final(self).nexuses() == old(self).nexuses(),
            final(self).segments() == old(self).segments(),
            final(self).trapezoids().len() == old(self).trapezoids().len(),
            final(self).queries().len() >= old(self).queries().len(),
            final(self).extends(*old(self)),
    {
        let ghost vs = self.polygons().vertices();
        let ghost ts0 = self.ts@;
        let ghost qs0 = self.qs@;
        let qi_sink = self.ts[ti.usize()].sink();
        let qi_other = self.ts[ti_upleft.usize()].sink();
        if qi_sink.usize() >= qi_other.usize() {
            return Err(InternalError::new("Inconsistent query structure"));
        }
        proof {
            assert(trapezoid_ok(ts0[ti@ as int], self.ns@.len(), self.ss@.len(), qs0.len()));
            assert(trapezoid_ok(ts0[ti_upleft@ as int], self.ns@.len(), self.ss@.len(), qs0.len()));
        }
        let qi_right: QueryIdx = Idx::new(self.qs.len());
        let mut q = self.qs[qi_sink.usize()];
        let q_right = q.into_x_merge(qi_other, qi_right, si);
        self.qs.set(qi_sink.usize(), q);
        self.qs.push(q_right);
        let mut t = self.ts[ti.usize()];
        t.set_sink(qi_right);
        t.set_left(si);
        self.ts.set(ti.usize(), t);
        proof {
            lemma_merge(vs, self.ns@, self.ss@, ts0, qs0, ti@ as int, t, q);
            assert(self.qs@ == qs0.update(qi_sink@ as int, q).push(qs0[qi_sink@ as int]));
            assert(is_sink_of(qs0[ts0[ti@ as int].sink@ as int], ti@ as int));
            assert forall|i: int| 0 <= i < qs0.len() && (#[trigger] qs0[i]) is Branch implies self.qs@[i] == qs0[i] by {
                assert(i != qi_sink@);
            }
        }
        let ghost ts1 = self.ts@;
        let mut tu = self.ts[ti_upleft.usize()];
        tu.set_down(ni);
        self.ts.set(ti_upleft.usize(), tu);
        proof {
            assert(trapezoid_ok(ts1[ti_upleft@ as int], self.ns@.len(), self.ss@.len(), self.qs@.len()));
            lemma_set_trapezoid(vs, self.ns@, self.ss@, ts1, self.qs@, ti_upleft@ as int, tu);
        }
        Ok(())
    }

    /// Inserts the segment from nexus `ni_min` up to nexus `ni_max`: the
    /// trapezoid below `ni_max` that the segment enters is cut along it,
    /// and walking down nexus by nexus, each trapezoid it crosses is cut
    /// too, the part on the side where the segment keeps the same
    /// neighbour merging into the trapezoid above it, until `ni_min`. The
    /// segment is then joined at both ends. Each segment adds one
    /// trapezoid. An error when the structure met on the way is not a
    /// consistent trapezoidation, or when the arenas are full.
    #[verifier::spinoff_prover]
    pub fn add_segment(&mut self, ni_min: NexusIdx, ni_max: NexusIdx) -> (r: Result<(), InternalError>)
        requires
            old(self).wf(),
            ni_min@ < old(self).nexuses().len(),
            ni_max@ < old(self).nexuses().len(),
        ensures
            final(self).polygons() == old(self).polygons(),
            r is Ok ==> {
                let s = final(self).segments().last();
                &&& final(self).wf()
                &&& final(self).nexuses().len() == old(self).nexuses().len()
                &&& final(self).segments().len() == old(self).segments().len() + 1
                &&& final(self).segments().drop_last() == old(self).segments()
                &&& s.spec_ni_min() == ni_min
                &&& s.spec_ni_max() == ni_max
                &&& s.spec_c_min() == old(self).nexuses()[ni_min@ as int].spec_c()
                &&& s.spec_c_max() == old(self).nexuses()[ni_max@ as int].spec_c()
                &&& final(self).trapezoids().len() == old(self).trapezoids().len() + 1
                &&& final(self).queries().len() >= old(self).queries().len()
                &&& same_places(old(self).nexuses(), final(self).nexuses())
                &&& final(self).extends(*old(self))
                &&& dividers_grow(old(self).nexuses(), final(self).nexuses())
                &&& ni_min@ != ni_max@ ==> joins(
                    final(self).nexuses()[ni_max@ as int],
                    old(self).segments().len(),
                    DividerDirection::Descending,
                )
                &&& ni_min@ != ni_max@ ==> joins(
                    final(self).nexuses()[ni_min@ as int],
                    old(self).segments().len(),
                    DividerDirection::Ascending,
                )
            },
            old(self).direct_segment(ni_min, ni_max) ==> r is Ok,
    {
        if self.ss.len() >= usize::MAX - 2 || self.ts.len() >= usize::MAX - 3 || self.qs.len()
            >= usize::MAX - 4 {
            return Err(InternalError::new("Trapezoidation arenas are full"));
        }
        let ghost vs = self.polygons().vertices();
        let ghost ss0 = self.ss@;
        let ghost ns0 = self.ns@;
        let ghost qs0 = self.qs@;
        let ghost qn0 = self.qs@.len();
        let ghost direct = old(self).direct_segment(ni_min, ni_max);
        let seg = Segment::new(
            ni_min,
            ni_max,
            self.ns[ni_min.usize()].coords(),
            self.ns[ni_max.usize()].coords(),
        );
        let si: SegmentIdx = Idx::new(self.ss.len());
        self.ss.push(seg);
        proof {
            lemma_push_segment(vs, self.ns@, ss0, self.ts@, self.qs@, seg);
            assert(grew_from(ns0, ss0, qs0, self.ns@, self.ss@, self.qs@));
        }
        let ghost ss1 = self.ss@;
        let ghost nn = self.ns@.len();
        let ti = self.down_in_direction(ni_max, si)?;
        let ghost (pn, pss, pq) = (self.ns@, self.ss@, self.qs@);
        let ti_new = self.split_along(ti, si);
        proof {
            lemma_grew_trans(ns0, ss0, qs0, pn, pss, pq, self.ns@, self.ss@, self.qs@);
        }
        let ghost (pn, pss, pq) = (self.ns@, self.ss@, self.qs@);
        self.join(ni_max, si, ti_new)?;
        proof {
            lemma_grew_trans(ns0, ss0, qs0, pn, pss, pq, self.ns@, self.ss@, self.qs@);
            lemma_join_grows(pn, self.ns@, ni_max@ as int);
            assert(pn == ns0);
        }
        let ghost tn = self.ts@.len();
        proof {
            assert(trapezoid_ok(self.ts@[ti@ as int], nn, ss1.len(), self.qs@.len()));
        }
        let mut ni = match self.ts[ti.usize()].down() {
            Some(ni) => ni,
            None => {
                return Err(InternalError::new("Segment min nexus not found"));
            },
        };
        if ni.usize() != ni_min.usize() && !self.ss[si.usize()].is_on_left(
            self.ns[ni.usize()].coords(),
        ) {
            let ghost (pn, pss, pq) = (self.ns@, self.ss@, self.qs@);
            self.redirect(ni, ti, ti_new)?;
            proof {
                lemma_joins_kept(pn[ni_max@ as int], self.ns@[ni_max@ as int], si@, DividerDirection::Descending);
                lemma_grow_same(pn, self.ns@);
                lemma_grow_trans(ns0, pn, self.ns@);
                lemma_grew_trans(ns0, ss0, qs0, pn, pss, pq, self.ns@, self.ss@, self.qs@);
            }
        }
        let mut ti_upleft = ti;
        let mut ti_upright = ti_new;
        let bound = self.ts.len();
        let mut steps: usize = 0;
        while ni.usize() != ni_min.usize()
            invariant
                self.wf(),
                self.polygons() == old(self).polygons(),
                self.segments() == ss1,
                self.nexuses().len() == nn,
                self.trapezoids().len() == tn,
                bound == tn,
                si@ == ss1.len() - 1,
                ni@ < nn,
                ni_min@ < nn,
                ti_upleft@ < tn,
                ti_upright@ < tn,
                steps <= bound,
                self.queries().len() >= qn0,
                same_places(old(self).nexuses(), self.nexuses()),
                grew_from(ns0, ss0, qs0, self.nexuses(), self.segments(), self.queries()),
                ns0 == old(self).nexuses(),
                ss0 == old(self).segments(),
                qs0 == old(self).queries(),
                ni_max@ < nn,
                joins(self.nexuses()[ni_max@ as int], si@, DividerDirection::Descending),
                dividers_grow(ns0, self.nexuses()),
                direct == old(self).direct_segment(ni_min, ni_max),
                direct ==> ni@ == ni_min@ && self.nexuses()[ni_min@ as int].spec_dividers().len() < 2
                    && ni_min@ != ni_max@,
            decreases bound - steps,
        {
            if steps >= bound || self.qs.len() >= usize::MAX - 3 {
                return Err(InternalError::new("Segment walk does not reach its lower end"));
            }
            steps = steps + 1;
            let ti = self.down_in_direction(ni, si)?;
            proof {
                assert(trapezoid_ok(self.ts@[ti@ as int], nn, ss1.len(), self.qs@.len()));
            }
            ni = match self.ts[ti.usize()].down() {
                Some(ni) => ni,
                None => {
                    return Err(InternalError::new("Segment min nexus not found"));
                },
            };
            let t = self.ts[ti.usize()];
            if same_segment(t.right(), self.ts[ti_upright.usize()].right()) {
                let ghost (pn, pss, pq) = (self.ns@, self.ss@, self.qs@);
                self.merge_right(ti, ti_upright, ni, si)?;
                proof {
                    lemma_grow_same(pn, self.ns@);
                    lemma_grow_trans(ns0, pn, self.ns@);
                    lemma_grew_trans(ns0, ss0, qs0, pn, pss, pq, self.ns@, self.ss@, self.qs@);
                }
                if ni.usize() != ni_min.usize() && !self.ss[si.usize()].is_on_left(
                    self.ns[ni.usize()].coords(),
                ) {
                    let ghost (pn, pss, pq) = (self.ns@, self.ss@, self.qs@);
                    self.redirect(ni, ti, ti_upright)?;
                    proof {
                        lemma_joins_kept(pn[ni_max@ as int], self.ns@[ni_max@ as int], si@, DividerDirection::Descending);
                        lemma_grow_same(pn, self.ns@);
                        lemma_grow_trans(ns0, pn, self.ns@);
                lemma_grow_same(pn, self.ns@);
                lemma_grow_trans(ns0, pn, self.ns@);
                        lemma_grew_trans(ns0, ss0, qs0, pn, pss, pq, self.ns@, self.ss@, self.qs@);
                    }
                }
                ti_upleft = ti;
            } else if same_segment(t.left(), self.ts[ti_upleft.usize()].left()) {
                let ghost (pn, pss, pq) = (self.ns@, self.ss@, self.qs@);
                self.merge_left(ti, ti_upleft, ni, si)?;
                proof {
                    lemma_grow_same(pn, self.ns@);
                    lemma_grow_trans(ns0, pn, self.ns@);
                    lemma_grew_trans(ns0, ss0, qs0, pn, pss, pq, self.ns@, self.ss@, self.qs@);
                }
                if ni.usize() == ni_min.usize() || self.ss[si.usize()].is_on_left(
                    self.ns[ni.usize()].coords(),
                ) {
                    let ghost (pn, pss, pq) = (self.ns@, self.ss@, self.qs@);
                    self.redirect(ni, ti, ti_upleft)?;
                    proof {
                        lemma_joins_kept(pn[ni_max@ as int], self.ns@[ni_max@ as int], si@, DividerDirection::Descending);
                        lemma_grow_same(pn, self.ns@);
                        lemma_grow_trans(ns0, pn, self.ns@);
                lemma_grow_same(pn, self.ns@);
                lemma_grow_trans(ns0, pn, self.ns@);
                        lemma_grew_trans(ns0, ss0, qs0, pn, pss, pq, self.ns@, self.ss@, self.qs@);
                    }
                }
                ti_upright = ti;
            } else {
                return Err(InternalError::new("No matching side segment during split"));
            }
        }
        let ghost (pn, pss, pq) = (self.ns@, self.ss@, self.qs@);
        self.join(ni_min, si, ti_upright)?;
        proof {
            lemma_grew_trans(ns0, ss0, qs0, pn, pss, pq, self.ns@, self.ss@, self.qs@);
            lemma_join_grows(pn, self.ns@, ni_min@ as int);
            lemma_grow_trans(ns0, pn, self.ns@);
        }
        proof {
            assert(self.ss@.drop_last() =~= ss0);
        }
        Ok(())
    }

    /// Inserts the vertex of lookup entry `k` (vertex `vi`, located from
    /// query node `qi`), which then names the new nexus.
    fn insert_vertex(&mut self, q: &mut Vec<QueryNodeOrNexus>, k: usize, vi: usize, qi: QueryIdx) -> (r: Result<NexusIdx, InternalError>)
        requires
            old(self).wf(),
            old(self).counted(),
            k < old(q)@.len(),
            vi < old(self).polygons().vertices().len(),
            qi@ < old(self).queries().len(),
            lookups_ok(old(q)@, old(self).polygons().vertices().len(), old(self).nexuses().len(), old(self).queries().len()),
            lookups_sound(old(q)@, old(self).polygons().vertices(), old(self).nexuses(), old(self).segments(), old(self).queries()),
            old(q)@[k as int] == QueryNodeOrNexus::QueryNode(vi, qi),
        ensures
            final(self).polygons() == old(self).polygons(),
            final(q)@.len() == old(q)@.len(),
            old(self).is_linked() && old(self).nexuses().len() < usize::MAX - 2
                && old(self).trapezoids().len() < usize::MAX - 2 && old(self).queries().len()
                < usize::MAX - 3 ==> r is Ok,
            r is Ok && old(self).is_linked() ==> final(self).is_linked(),
            r matches Ok(ni) ==> {
                &&& final(self).wf()
                &&& final(self).counted()
                &&& final(self).extends(*old(self))
                &&& lookups_sound(final(q)@, final(self).polygons().vertices(), final(self).nexuses(), final(self).segments(), final(self).queries())
                &&& old(self).queries()[locate(
                    old(self).nexuses(),
                    old(self).segments(),
                    old(self).queries(),
                    old(self).polygons().vertices()[vi as int],
                    0,
                )] matches QueryNode::Sink(t) && final(self).nexuses()[ni@ as int].spec_downleft() == t
                &&& ni@ < final(self).nexuses().len()
                &&& final(self).nexuses().len() == old(self).nexuses().len() + 1
                &&& final(self).segments() == old(self).segments()
                &&& final(self).queries().len() >= old(self).queries().len()
                &&& final(q)@ == old(q)@.update(k as int, QueryNodeOrNexus::Nexus(ni))
                &&& lookups_ok(final(q)@, final(self).polygons().vertices().len(), final(self).nexuses().len(), final(self).queries().len())
                &&& ni@ == old(self).nexuses().len()
                &&& dividers_grow(old(self).nexuses(), final(self).nexuses())
                &&& lookups_distinct(old(q)@) ==> lookups_distinct(final(q)@)
                &&& forall|j: nat| #[trigger] names_nexus(old(q)@, j) ==> names_nexus(final(q)@, j)
                &&& names_nexus(final(q)@, ni@)
                &&& same_places(old(self).nexuses(), final(self).nexuses())
                &&& entries_advanced(old(q)@, final(q)@, final(self).nexuses())
            },
    {
        let ghost vs = self.polygons().vertices();
        let ghost (ns0, ss0, ts0, qs0) = (self.ns@, self.ss@, self.ts@, self.qs@);
        proof {
            assert(match old(q)@[k as int] {
                QueryNodeOrNexus::QueryNode(vi, qi) => locate(ns0, ss0, qs0, vs[vi as int], qi@ as int)
                    == locate(ns0, ss0, qs0, vs[vi as int], 0),
                QueryNodeOrNexus::Nexus(_) => true,
            });
        }
        let ni = self.add_vertex(vi, qi)?;
        q.set(k, QueryNodeOrNexus::Nexus(ni));
        proof {
            assert forall|m: int| 0 <= m < q@.len() implies match (#[trigger] old(q)@[m], q@[m]) {
                (QueryNodeOrNexus::QueryNode(vi, _), QueryNodeOrNexus::QueryNode(vj, _)) => vi == vj,
                (QueryNodeOrNexus::QueryNode(vi, _), QueryNodeOrNexus::Nexus(ni)) => ni@ < self.ns@.len()
                    && self.ns@[ni@ as int].spec_vi() == vi,
                (QueryNodeOrNexus::Nexus(x), QueryNodeOrNexus::Nexus(y)) => x == y,
                _ => false,
            } by {
                if m != k {
                    assert(q@[m] == old(q)@[m]);
                    assert(lookup_ok(old(q)@[m], vs.len(), ns0.len(), qs0.len()));
                    match old(q)@[m] {
                        QueryNodeOrNexus::QueryNode(_, _) => {},
                        QueryNodeOrNexus::Nexus(x) => {},
                    }
                }
            }
        }
        proof {
            lemma_grow_same(ns0, self.ns@);
            assert(q@[k as int] is Nexus && q@[k as int]->Nexus_0@ == ni@);
            assert forall|j: nat| #[trigger] names_nexus(old(q)@, j) implies names_nexus(q@, j) by {
                let m = choose|m: int| 0 <= m < old(q)@.len() && (#[trigger] old(q)@[m]) is Nexus && old(q)@[m]->Nexus_0@ == j;
                assert(m != k);
                assert(q@[m] == old(q)@[m]);
            }
            if lookups_distinct(old(q)@) {
                assert forall|m1: int, m2: int|
                    0 <= m1 < q@.len() && 0 <= m2 < q@.len() && m1 != m2 && (#[trigger] q@[m1]) is Nexus
                        && (#[trigger] q@[m2]) is Nexus implies q@[m1]->Nexus_0@ != q@[m2]->Nexus_0@ by {
                    if m1 == k {
                        assert(lookup_ok(old(q)@[m2], vs.len(), ns0.len(), qs0.len()));
                    } else if m2 == k {
                        assert(lookup_ok(old(q)@[m1], vs.len(), ns0.len(), qs0.len()));
                    } else {
                        assert(old(q)@[m1] is Nexus && old(q)@[m2] is Nexus);
                    }
                }
            }
            lemma_lookups_sound_grow(old(q)@, vs, ns0, ss0, ts0, qs0, self.ns@, self.ss@, self.qs@);
            assert forall|j: int| 0 <= j < q@.len() implies match #[trigger] q@[j] {
                QueryNodeOrNexus::QueryNode(vi, qi) => locate(self.ns@, self.ss@, self.qs@, vs[vi as int], qi@ as int)
                    == locate(self.ns@, self.ss@, self.qs@, vs[vi as int], 0),
                QueryNodeOrNexus::Nexus(_) => true,
            } by {
                if j != k {
                    assert(q@[j] == old(q)@[j]);
                }
            }
        }
        proof {
            let vn = self.polygons().vertices().len();
            lemma_lookups_grow(old(q)@, vn, old(self).nexuses().len(), old(self).queries().len(), self.ns@.len(), self.qs@.len());
            assert forall|j: int| 0 <= j < q@.len() implies lookup_ok(#[trigger] q@[j], vn, self.ns@.len(), self.qs@.len()) by {
                if j != k {
                    assert(lookup_ok(old(q)@[j], vn, self.ns@.len(), self.qs@.len()));
                }
            }
        }
        Ok(ni)
    }

    /// Inserts the edge from polygon vertex `si` to the next one (the last
    /// vertex joining the first): its vertices not yet inserted are
    /// inserted first (the lower one first), and the segment goes from the
    /// lower nexus to the upper one.
    #[verifier::spinoff_prover]
    fn add_nth_segment(&mut self, q: &mut Vec<QueryNodeOrNexus>, si: usize) -> (r: Result<(), InternalError>)
        requires
            old(self).wf(),
            old(self).counted(),
            3 <= old(q)@.len(),
            si < old(q)@.len(),
            lookups_ok(old(q)@, old(self).polygons().vertices().len(), old(self).nexuses().len(), old(self).queries().len()),
            lookups_sound(old(q)@, old(self).polygons().vertices(), old(self).nexuses(), old(self).segments(), old(self).queries()),
            lookups_distinct(old(q)@),
        ensures
            final(self).polygons() == old(self).polygons(),
            final(q)@.len() == old(q)@.len(),
            (old(q)@[si as int] matches QueryNodeOrNexus::Nexus(a) && old(q)@[wrap_next(
                si as nat,
                old(q)@.len(),
            ) as int] matches QueryNodeOrNexus::Nexus(b) && if coords_lt(
                old(self).nexuses()[a@ as int].spec_c(),
                old(self).nexuses()[b@ as int].spec_c(),
            ) {
                old(self).direct_segment(a, b)
            } else {
                old(self).direct_segment(b, a)
            }) ==> r is Ok,
            r is Ok ==> {
                &&& final(self).wf()
                &&& final(self).counted()
                &&& final(self).segments().len() == old(self).segments().len() + 1
                &&& final(self).nexuses().len() >= old(self).nexuses().len()
                &&& final(self).queries().len() >= old(self).queries().len()
                &&& lookups_ok(final(q)@, final(self).polygons().vertices().len(), final(self).nexuses().len(), final(self).queries().len())
                &&& final(q)@[si as int] is Nexus
                &&& final(q)@[wrap_next(si as nat, old(q)@.len()) as int] is Nexus
                &&& forall|k: int| 0 <= k < old(q)@.len() && (#[trigger] old(q)@[k]) is Nexus ==> final(q)@[k] is Nexus
                &&& final(self).nexuses().len() + pending(final(q)@) == old(self).nexuses().len() + pending(old(q)@)
                &&& lookups_sound(final(q)@, final(self).polygons().vertices(), final(self).nexuses(), final(self).segments(), final(self).queries())
                &&& lookups_distinct(final(q)@)
                &&& dividers_grow(old(self).nexuses(), final(self).nexuses())
                &&& forall|k: int| 0 <= k < old(q)@.len() && (#[trigger] old(q)@[k]) is Nexus ==> final(q)@[k] == old(q)@[k]
                &&& forall|j: nat| #[trigger] names_nexus(old(q)@, j) ==> names_nexus(final(q)@, j)
                &&& forall|j: nat| old(self).nexuses().len() <= j < final(self).nexuses().len() ==> #[trigger] names_nexus(final(q)@, j)
                &&& entry_joins(final(q)@, si as int, final(self).nexuses(), old(self).segments().len())
                &&& entry_joins(final(q)@, wrap_next(si as nat, old(q)@.len()) as int, final(self).nexuses(), old(self).segments().len())
                &&& final(self).segments().take(old(self).segments().len() as int) == old(self).segments()
                &&& same_places(old(self).nexuses(), final(self).nexuses())
                &&& edge_segment(final(self).segments().last(), final(self).nexuses(), final(q)@, si as int)
                &&& entries_advanced(old(q)@, final(q)@, final(self).nexuses())
            },
    {
        let ghost vn = self.polygons().vertices().len();
        let ghost q0 = q@;
        let ghost nn0 = self.ns@.len();
        let ghost ns0 = self.ns@;
        let ghost sn0 = self.ss@.len();
        let n = q.len();
        let i0 = si;
        let i1 = if si + 1 == n { 0 } else { si + 1 };
        let qon0 = q[i0];
        let qon1 = q[i1];
        proof {
            assert(lookup_ok(q@[i0 as int], vn, self.ns@.len(), self.qs@.len()));
            assert(lookup_ok(q@[i1 as int], vn, self.ns@.len(), self.qs@.len()));
        }
        proof {
            assert(i1 as nat == wrap_next(si as nat, n as nat)) by {
                lemma_wrap_inverse(si as nat, n as nat);
                if si + 1 < n {
                    vstd::arithmetic::div_mod::lemma_small_mod((si + 1) as nat, n as nat);
                } else {
                    vstd::arithmetic::div_mod::lemma_mod_self_0(n as int);
                }
            }
        }
        let (ni0, ni1) = match (qon0, qon1) {
            (QueryNodeOrNexus::QueryNode(v0, q0), QueryNodeOrNexus::QueryNode(v1, q1)) => {
                if self.ps.get_vertex(v0).lt(&self.ps.get_vertex(v1)) {
                    let ghost qa = q@;
                    let a = self.insert_vertex(q, i0, v0, q0)?;
                    proof {
                        lemma_pending_update(qa, i0 as int, QueryNodeOrNexus::Nexus(a));
                    }
                    let ghost qb = q@;
                    let ghost nsb = self.ns@;
                    let b = self.insert_vertex(q, i1, v1, q1)?;
                    proof {
                        lemma_pending_update(qb, i1 as int, QueryNodeOrNexus::Nexus(b));
                        lemma_grow_trans(ns0, nsb, self.ns@);
                        lemma_advanced_trans(old(q)@, qb, q@, nsb, self.ns@);
                    }
                    (a, b)
                } else {
                    let ghost qb = q@;
                    let b = self.insert_vertex(q, i1, v1, q1)?;
                    proof {
                        lemma_pending_update(qb, i1 as int, QueryNodeOrNexus::Nexus(b));
                    }
                    let ghost qa = q@;
                    let ghost nsa = self.ns@;
                    let a = self.insert_vertex(q, i0, v0, q0)?;
                    proof {
                        lemma_pending_update(qa, i0 as int, QueryNodeOrNexus::Nexus(a));
                        lemma_grow_trans(ns0, nsa, self.ns@);
                        lemma_advanced_trans(old(q)@, qa, q@, nsa, self.ns@);
                    }
                    (a, b)
                }
            },
            (QueryNodeOrNexus::QueryNode(v0, q0), QueryNodeOrNexus::Nexus(b)) => {
                let ghost qa = q@;
                let a = self.insert_vertex(q, i0, v0, q0)?;
                proof {
                    lemma_pending_update(qa, i0 as int, QueryNodeOrNexus::Nexus(a));
                }
                (a, b)
            },
            (QueryNodeOrNexus::Nexus(a), QueryNodeOrNexus::QueryNode(v1, q1)) => {
                let ghost qb = q@;
                let b = self.insert_vertex(q, i1, v1, q1)?;
                proof {
                    lemma_pending_update(qb, i1 as int, QueryNodeOrNexus::Nexus(b));
                }
                (a, b)
            },
            (QueryNodeOrNexus::Nexus(a), QueryNodeOrNexus::Nexus(b)) => {
                proof {
                    lemma_grow_same(ns0, self.ns@);
                    lemma_advanced_refl(q0, self.ns@);
                }
                (a, b)
            },
        };
        proof {
            assert(i0 != i1);
            assert(q@[i0 as int] == QueryNodeOrNexus::Nexus(ni0));
            assert(q@[i1 as int] == QueryNodeOrNexus::Nexus(ni1));
            assert(ni0@ != ni1@);
            assert(dividers_grow(ns0, self.ns@));
            assert(self.ss@.len() == sn0);
        }
        let (ni_min, ni_max) = if self.ns[ni0.usize()].coords().lt(&self.ns[ni1.usize()].coords()) {
            (ni0, ni1)
        } else {
            (ni1, ni0)
        };
        let ghost nn = self.ns@.len();
        let ghost (ns1, ss1, ts1, qs1) = (self.ns@, self.ss@, self.ts@, self.qs@);
        let ghost q1 = q@;
        assert(entries_advanced(q0, q1, ns1));
        self.add_segment(ni_min, ni_max)?;
        proof {
            lemma_advanced_refl(q1, self.ns@);
            lemma_advanced_trans(q0, q1, q1, ns1, self.ns@);
            lemma_lookups_grow(q@, vn, nn, self.qs@.len(), self.ns@.len(), self.qs@.len());
            lemma_lookups_sound_grow(q@, self.polygons().vertices(), ns1, ss1, ts1, qs1, self.ns@, self.ss@, self.qs@);
            lemma_grow_trans(ns0, ns1, self.ns@);
            assert(joins_any(self.ns@[ni0@ as int], sn0));
            assert(joins_any(self.ns@[ni1@ as int], sn0));
        }
        Ok(())
    }

    /// Locates each vertex not yet inserted again, starting from the query
    /// node it was last located at.
    fn refresh_lookups(&self, q: &mut Vec<QueryNodeOrNexus>)
        requires
            self.wf(),
            lookups_ok(old(q)@, self.polygons().vertices().len(), self.nexuses().len(), self.queries().len()),
            lookups_sound(old(q)@, self.polygons().vertices(), self.nexuses(), self.segments(), self.queries()),
        ensures
            final(q)@.len() == old(q)@.len(),
            lookups_ok(final(q)@, self.polygons().vertices().len(), self.nexuses().len(), self.queries().len()),
            lookups_sound(final(q)@, self.polygons().vertices(), self.nexuses(), self.segments(), self.queries()),
            forall|k: int| 0 <= k < old(q)@.len() ==> match (#[trigger] old(q)@[k], final(q)@[k]) {
                (QueryNodeOrNexus::QueryNode(vi, qi), QueryNodeOrNexus::QueryNode(vj, qj)) => vj == vi
                    && qj@ == locate(
                    self.nexuses(),
                    self.segments(),
                    self.queries(),
                    self.polygons().vertices()[vi as int],
                    qi@ as int,
                ),
                (QueryNodeOrNexus::Nexus(a), QueryNodeOrNexus::Nexus(b)) => a == b,
                _ => false,
            },
            pending(final(q)@) == pending(old(q)@),
    {
        let ghost vn = self.polygons().vertices().len();
        let mut k: usize = 0;
        while k < q.len()
            invariant
                self.wf(),
                vn == self.polygons().vertices().len(),
                k <= q@.len(),
                q@.len() == old(q)@.len(),
                lookups_ok(q@, vn, self.nexuses().len(), self.queries().len()),
                forall|j: int| k <= j < q@.len() ==> q@[j] == old(q)@[j],
                forall|j: int| 0 <= j < k ==> match (#[trigger] old(q)@[j], q@[j]) {
                    (QueryNodeOrNexus::QueryNode(vi, qi), QueryNodeOrNexus::QueryNode(vj, qj)) => vj == vi
                        && qj@ == locate(
                        self.nexuses(),
                        self.segments(),
                        self.queries(),
                        self.polygons().vertices()[vi as int],
                        qi@ as int,
                    ),
                    (QueryNodeOrNexus::Nexus(a), QueryNodeOrNexus::Nexus(b)) => a == b,
                    _ => false,
                },
            decreases q@.len() - k,
        {
            let ghost q0 = q@;
            proof {
                assert(lookup_ok(q@[k as int], vn, self.nexuses().len(), self.queries().len()));
            }
            match q[k] {
                QueryNodeOrNexus::QueryNode(vi, qi) => {
                    let (qi_new, _) = self.find_trapezoid_from_root(vi, qi);
                    q.set(k, QueryNodeOrNexus::QueryNode(vi, qi_new));
                    proof {
                        assert forall|j: int| 0 <= j < q@.len() implies lookup_ok(#[trigger] q@[j], vn, self.nexuses().len(), self.queries().len()) by {
                            if j != k {
                                assert(lookup_ok(q0[j], vn, self.nexuses().len(), self.queries().len()));
                            }
                        }
                    }
                },
                QueryNodeOrNexus::Nexus(_) => {},
            }
            k = k + 1;
        }
        proof {
            assert forall|j: int| 0 <= j < q@.len() implies (#[trigger] q@[j] is QueryNode) == (old(q)@[j] is QueryNode) by {
                assert(match (old(q)@[j], q@[j]) {
                    (QueryNodeOrNexus::QueryNode(_, _), QueryNodeOrNexus::QueryNode(_, _)) => true,
                    (QueryNodeOrNexus::Nexus(_), QueryNodeOrNexus::Nexus(_)) => true,
                    _ => false,
                });
            }
            lemma_pending_same_kinds(q@, old(q)@);
            let vs = self.polygons().vertices();
            let (ns, ss, qs) = (self.nexuses(), self.segments(), self.queries());
            assert forall|j: int| 0 <= j < q@.len() implies match #[trigger] q@[j] {
                QueryNodeOrNexus::QueryNode(vi, qi) => locate(ns, ss, qs, vs[vi as int], qi@ as int)
                    == locate(ns, ss, qs, vs[vi as int], 0),
                QueryNodeOrNexus::Nexus(_) => true,
            } by {
                assert(lookup_ok(old(q)@[j], vs.len(), ns.len(), qs.len()));
                assert(match old(q)@[j] {
                    QueryNodeOrNexus::QueryNode(vi, qi) => locate(ns, ss, qs, vs[vi as int], qi@ as int)
                        == locate(ns, ss, qs, vs[vi as int], 0),
                    QueryNodeOrNexus::Nexus(_) => true,
                });
                match old(q)@[j] {
                    QueryNodeOrNexus::QueryNode(vi, qi) => {
                        lemma_locate_sink(vs, ns, ss, self.trapezoids(), qs, vs[vi as int], qi@ as int);
                    },
                    QueryNodeOrNexus::Nexus(_) => {},
                }
            }
        }
    }

    /// Inserts the edges of one polygon, whose vertices the lookup entries
    /// list in boundary order, in random order. After the first edge, and
    /// again at steps spaced out more and more (see [math_n]), each vertex
    /// not yet inserted is located again from where it was last found, so
    /// later insertions start their search further down the query
    /// structure.
    #[verifier::spinoff_prover]
    fn add_polygon(&mut self, q: &mut Vec<QueryNodeOrNexus>) -> (r: Result<(), InternalError>)
        requires
            old(self).wf(),
            old(self).counted(),
            3 <= old(q)@.len(),
            lookups_ok(old(q)@, old(self).polygons().vertices().len(), old(self).nexuses().len(), old(self).queries().len()),
            forall|k: int| 0 <= k < old(q)@.len() ==> (#[trigger] old(q)@[k]) is QueryNode,
            lookups_sound(old(q)@, old(self).polygons().vertices(), old(self).nexuses(), old(self).segments(), old(self).queries()),
        ensures
            final(self).polygons() == old(self).polygons(),
            r is Ok ==> {
                &&& final(self).wf()
                &&& final(self).counted()
                &&& final(self).segments().len() == old(self).segments().len() + old(q)@.len()
                &&& final(self).nexuses().len() == old(self).nexuses().len() + old(q)@.len()
                &&& forall|j: int| old(self).nexuses().len() <= j < final(self).nexuses().len() ==> #[trigger] joins_two(final(self).nexuses()[j])
                &&& forall|j: int| 0 <= j < old(self).nexuses().len() && #[trigger] joins_two(old(self).nexuses()[j]) ==> joins_two(final(self).nexuses()[j])
                &&& entries_advanced(old(q)@, final(q)@, final(self).nexuses())
                &&& final(self).segments().take(old(self).segments().len() as int) == old(self).segments()
                &&& same_places(old(self).nexuses(), final(self).nexuses())
                &&& forall|k: int| 0 <= k < old(q)@.len() ==> (#[trigger] final(q)@[k]) is Nexus
                &&& exists|order: Seq<usize>| #[trigger] edges_in_order(
                    order,
                    final(self).segments(),
                    old(self).segments().len() as int,
                    final(self).nexuses(),
                    final(q)@,
                )
            },
    {
        proof {
            lemma_pending_bounds(q@);
        }
        let ghost vn = self.polygons().vertices().len();
        let n = q.len();
        let mut order: Vec<usize> = Vec::new();
        let mut i: usize = 0;
        while i < n
            invariant
                i <= n,
                order@.len() == i,
                forall|j: int| 0 <= j < i ==> order@[j] == j,
            decreases n - i,
        {
            order.push(i);
            i = i + 1;
        }
        let ghost order0 = order@;
        shuffle_order(&mut order);
        proof {
            order0.to_multiset_ensures();
            order@.to_multiset_ensures();
            assert forall|j: int| 0 <= j < order@.len() implies #[trigger] order@[j] < n by {
                let x = order@[j];
                assert(order@.contains(x));
                assert(order@.to_multiset().count(x) > 0);
                assert(order0.to_multiset().count(x) > 0);
                assert(order0.contains(x));
                let m = choose|m: int| 0 <= m < order0.len() && order0[m] == x;
                assert(order0[m] == m);
            }
        }
        let mut update_count: usize = 1;
        let mut next_update = math_n(n, update_count);
        let mut i: usize = 0;
        while i < n
            invariant
                self.wf(),
                self.counted(),
                self.polygons() == old(self).polygons(),
                vn == self.polygons().vertices().len(),
                n == q@.len(),
                n == order@.len(),
                3 <= n,
                i <= n,
                1 <= update_count <= i + 1,
                forall|j: int| 0 <= j < n ==> #[trigger] order@[j] < n,
                lookups_ok(q@, vn, self.nexuses().len(), self.queries().len()),
                lookups_sound(q@, self.polygons().vertices(), self.nexuses(), self.segments(), self.queries()),
                self.segments().len() == old(self).segments().len() + i,
                self.nexuses().len() + pending(q@) == old(self).nexuses().len() + n,
                forall|j: int| 0 <= j < i ==> (q@[(#[trigger] order@[j]) as int] is Nexus
                    && q@[wrap_next(order@[j] as nat, n as nat) as int] is Nexus),
                order0.len() == n,
                forall|j: int| 0 <= j < n ==> #[trigger] order0[j] == j,
                order@.to_multiset() == order0.to_multiset(),
                lookups_distinct(q@),
                forall|j: nat| old(self).nexuses().len() <= j < self.nexuses().len() ==> #[trigger] names_nexus(q@, j),
                forall|j: int| 0 <= j < i ==> entry_joins(q@, (#[trigger] order@[j]) as int, self.nexuses(), old(self).segments().len() + j as nat)
                    && entry_joins(q@, wrap_next(order@[j] as nat, n as nat) as int, self.nexuses(), old(self).segments().len() + j as nat),
                dividers_grow(old(self).nexuses(), self.nexuses()),
                entries_advanced(old(q)@, q@, self.nexuses()),
                self.segments().take(old(self).segments().len() as int) == old(self).segments(),
                same_places(old(self).nexuses(), self.nexuses()),
                forall|j: int| 0 <= j < i ==> #[trigger] edge_segment(
                    self.segments()[old(self).segments().len() + j],
                    self.nexuses(),
                    q@,
                    order@[j] as int,
                ),
            decreases n - i,
        {
            let si = order[i];
            let ghost qa = q@;
            let ghost nsa = self.ns@;
            let ghost ssa = self.ss@;
            self.add_nth_segment(q, si)?;
            proof {
                lemma_advanced_trans(old(q)@, qa, q@, nsa, self.ns@);
                assert(self.ss@.take(old(self).segments().len() as int) =~= old(self).segments()) by {
                    assert forall|t: int| 0 <= t < old(self).segments().len() implies self.ss@[t] == old(self).segments()[t] by {
                        assert(self.ss@.take(ssa.len() as int)[t] == ssa[t]);
                        assert(ssa.take(old(self).segments().len() as int)[t] == old(self).segments()[t]);
                    }
                }
                let ss0 = old(self).segments().len();
                assert forall|j: int| 0 <= j < i + 1 implies #[trigger] edge_segment(
                    self.segments()[ss0 + j],
                    self.nexuses(),
                    q@,
                    order@[j] as int,
                ) by {
                    if j < i {
                        let e = order@[j] as int;
                        let f = wrap_next(order@[j] as nat, n as nat) as int;
                        assert(edge_segment(ssa[ss0 + j], nsa, qa, e));
                        assert(self.ss@[ss0 + j] == ssa.take(ssa.len() as int)[ss0 + j]);
                        assert(self.ss@.take(ssa.len() as int)[ss0 + j] == ssa[ss0 + j]);
                        assert(q@[e] == qa[e]);
                        assert(q@[f] == qa[f]);
                    } else {
                        assert(self.ss@.last() == self.ss@[ss0 + j]);
                    }
                }
                lemma_grow_trans(old(self).nexuses(), nsa, self.ns@);
                assert forall|j: nat| old(self).nexuses().len() <= j < self.nexuses().len() implies #[trigger] names_nexus(q@, j) by {
                    if j < nsa.len() {
                        assert(names_nexus(qa, j));
                    }
                }
                assert forall|j: int| 0 <= j < i implies entry_joins(q@, (#[trigger] order@[j]) as int, self.nexuses(), old(self).segments().len() + j as nat)
                    && entry_joins(q@, wrap_next(order@[j] as nat, n as nat) as int, self.nexuses(), old(self).segments().len() + j as nat) by {
                    lemma_wrap_inverse(order@[j] as nat, n as nat);
                    let a = order@[j] as int;
                    let b = wrap_next(order@[j] as nat, n as nat) as int;
                    lemma_entry_joins_kept(qa, q@, nsa, self.ns@, a, old(self).segments().len() + j as nat);
                    lemma_entry_joins_kept(qa, q@, nsa, self.ns@, b, old(self).segments().len() + j as nat);
                }
                assert forall|j: int| 0 <= j < i + 1 implies (q@[(#[trigger] order@[j]) as int] is Nexus
                    && q@[wrap_next(order@[j] as nat, n as nat) as int] is Nexus) by {
                    if j < i {
                        lemma_wrap_inverse(order@[j] as nat, n as nat);
                        assert(qa[order@[j] as int] is Nexus);
                        assert(qa[wrap_next(order@[j] as nat, n as nat) as int] is Nexus);
                    }
                }
            }
            if i == next_update {
                let ghost qb = q@;
                self.refresh_lookups(q);
                proof {
                    assert forall|m: int| 0 <= m < q@.len() implies match (#[trigger] qb[m], q@[m]) {
                        (QueryNodeOrNexus::QueryNode(vi, _), QueryNodeOrNexus::QueryNode(vj, _)) => vi == vj,
                        (QueryNodeOrNexus::QueryNode(vi, _), QueryNodeOrNexus::Nexus(ni)) => ni@ < self.ns@.len()
                            && self.ns@[ni@ as int].spec_vi() == vi,
                        (QueryNodeOrNexus::Nexus(x), QueryNodeOrNexus::Nexus(y)) => x == y,
                        _ => false,
                    } by {
                        assert(match (qb[m], q@[m]) {
                            (QueryNodeOrNexus::QueryNode(vi, _), QueryNodeOrNexus::QueryNode(vj, _)) => vj == vi,
                            (QueryNodeOrNexus::Nexus(a), QueryNodeOrNexus::Nexus(b)) => a == b,
                            _ => false,
                        });
                    }
                    assert(entries_advanced(qb, q@, self.ns@));
                    lemma_advanced_trans(old(q)@, qb, q@, self.ns@, self.ns@);
                    assert forall|j: int| 0 <= j < i + 1 implies #[trigger] edge_segment(
                        self.segments()[old(self).segments().len() + j],
                        self.nexuses(),
                        q@,
                        order@[j] as int,
                    ) by {
                        let e = order@[j] as int;
                        let f = wrap_next(order@[j] as nat, n as nat) as int;
                        assert(edge_segment(self.segments()[old(self).segments().len() + j], self.nexuses(), qb, e));
                        assert(match (qb[e], q@[e]) {
                            (QueryNodeOrNexus::Nexus(a), QueryNodeOrNexus::Nexus(b)) => a == b,
                            (QueryNodeOrNexus::QueryNode(_, _), QueryNodeOrNexus::QueryNode(_, _)) => true,
                            _ => false,
                        });
                        assert(match (qb[f], q@[f]) {
                            (QueryNodeOrNexus::Nexus(a), QueryNodeOrNexus::Nexus(b)) => a == b,
                            (QueryNodeOrNexus::QueryNode(_, _), QueryNodeOrNexus::QueryNode(_, _)) => true,
                            _ => false,
                        });
                    }
                    assert forall|m: int| 0 <= m < n && (#[trigger] qb[m]) is Nexus implies q@[m] == qb[m] by {
                        assert(match (qb[m], q@[m]) {
                            (QueryNodeOrNexus::Nexus(a), QueryNodeOrNexus::Nexus(b)) => a == b,
                            (QueryNodeOrNexus::QueryNode(_, _), QueryNodeOrNexus::QueryNode(_, _)) => true,
                            _ => false,
                        });
                    }
                    assert forall|m1: int, m2: int|
                        0 <= m1 < q@.len() && 0 <= m2 < q@.len() && m1 != m2 && (#[trigger] q@[m1]) is Nexus
                            && (#[trigger] q@[m2]) is Nexus implies q@[m1]->Nexus_0@ != q@[m2]->Nexus_0@ by {
                        assert(match (qb[m1], q@[m1]) {
                            (QueryNodeOrNexus::Nexus(a), QueryNodeOrNexus::Nexus(b)) => a == b,
                            (QueryNodeOrNexus::QueryNode(_, _), QueryNodeOrNexus::QueryNode(_, _)) => true,
                            _ => false,
                        });
                        assert(match (qb[m2], q@[m2]) {
                            (QueryNodeOrNexus::Nexus(a), QueryNodeOrNexus::Nexus(b)) => a == b,
                            (QueryNodeOrNexus::QueryNode(_, _), QueryNodeOrNexus::QueryNode(_, _)) => true,
                            _ => false,
                        });
                    }
                    assert forall|j: nat| old(self).nexuses().len() <= j < self.nexuses().len() implies #[trigger] names_nexus(q@, j) by {
                        assert(names_nexus(qb, j));
                        let m = choose|m: int| 0 <= m < qb.len() && (#[trigger] qb[m]) is Nexus && qb[m]->Nexus_0@ == j;
                        assert(q@[m] == qb[m]);
                    }
                    assert forall|j: int| 0 <= j < i + 1 implies entry_joins(q@, (#[trigger] order@[j]) as int, self.nexuses(), old(self).segments().len() + j as nat)
                        && entry_joins(q@, wrap_next(order@[j] as nat, n as nat) as int, self.nexuses(), old(self).segments().len() + j as nat) by {
                        lemma_wrap_inverse(order@[j] as nat, n as nat);
                        let a = order@[j] as int;
                        let b = wrap_next(order@[j] as nat, n as nat) as int;
                        assert(q@[a] == qb[a]);
                        assert(q@[b] == qb[b]);
                    }
                    assert forall|j: int| 0 <= j < i + 1 implies (q@[(#[trigger] order@[j]) as int] is Nexus
                        && q@[wrap_next(order@[j] as nat, n as nat) as int] is Nexus) by {
                        lemma_wrap_inverse(order@[j] as nat, n as nat);
                        let a = order@[j] as int;
                        let b = wrap_next(order@[j] as nat, n as nat) as int;
                        assert(qb[a] is Nexus);
                        assert(qb[b] is Nexus);
                        assert(match (qb[a], q@[a]) {
                            (QueryNodeOrNexus::Nexus(_), QueryNodeOrNexus::Nexus(_)) => true,
                            (QueryNodeOrNexus::QueryNode(_, _), QueryNodeOrNexus::QueryNode(_, _)) => true,
                            _ => false,
                        });
                        assert(match (qb[b], q@[b]) {
                            (QueryNodeOrNexus::Nexus(_), QueryNodeOrNexus::Nexus(_)) => true,
                            (QueryNodeOrNexus::QueryNode(_, _), QueryNodeOrNexus::QueryNode(_, _)) => true,
                            _ => false,
                        });
                    }
                }
                update_count = update_count + 1;
                next_update = math_n(n, update_count);
            }
            i = i + 1;
        }
        proof {
            order0.to_multiset_ensures();
            order@.to_multiset_ensures();
            assert forall|m: int| 0 <= m < n implies (#[trigger] q@[m]) is Nexus by {
                assert(order0[m] == m);
                assert(order0.contains(m as usize));
                assert(order0.to_multiset().count(m as usize) > 0);
                assert(order@.to_multiset().count(m as usize) > 0);
                assert(order@.contains(m as usize));
                let j = choose|j: int| 0 <= j < order@.len() && order@[j] == m as usize;
                assert(q@[order@[j] as int] is Nexus);
            }
            lemma_pending_bounds(q@);
            let ss0 = old(self).segments().len();
            assert forall|m: int| 0 <= m < n implies #[trigger] joins_two(self.ns@[q@[m]->Nexus_0@ as int]) by {
                lemma_wrap_inverse(m as nat, n as nat);
                let p = wrap_prev(m as nat, n as nat);
                assert(order0[m] == m && order0[p as int] == p);
                assert(order0.contains(m as usize));
                assert(order0.contains(p as usize));
                assert(order0.to_multiset().count(m as usize) > 0);
                assert(order0.to_multiset().count(p as usize) > 0);
                assert(order@.contains(m as usize));
                assert(order@.contains(p as usize));
                let j1 = choose|j: int| 0 <= j < order@.len() && order@[j] == m as usize;
                let j2 = choose|j: int| 0 <= j < order@.len() && order@[j] == p as usize;
                assert(entry_joins(q@, order@[j1] as int, self.nexuses(), ss0 + j1 as nat));
                assert(entry_joins(q@, wrap_next(order@[j2] as nat, n as nat) as int, self.nexuses(), ss0 + j2 as nat));
                assert(p != m);
                assert(j1 != j2);
                let a = q@[m]->Nexus_0@ as int;
                assert(lookup_ok(q@[m], vn, self.ns@.len(), self.qs@.len()));
                assert(nexus_ok(self.ns@[a], self.polygons().vertices(), self.ss@.len(), self.ts@.len()));
                lemma_joins_two(self.ns@[a], ss0 + j1 as nat, ss0 + j2 as nat);
            }
            assert forall|j: int| old(self).nexuses().len() <= j < self.ns@.len() implies #[trigger] joins_two(self.ns@[j]) by {
                assert(names_nexus(q@, j as nat));
                let m = choose|m: int| 0 <= m < q@.len() && (#[trigger] q@[m]) is Nexus && q@[m]->Nexus_0@ == j as nat;
                assert(joins_two(self.ns@[q@[m]->Nexus_0@ as int]));
            }
            assert forall|j: int| 0 <= j < old(self).nexuses().len() && #[trigger] joins_two(old(self).nexuses()[j]) implies joins_two(self.ns@[j]) by {
                assert(nexus_ok(self.ns@[j], self.polygons().vertices(), self.ss@.len(), self.ts@.len()));
                lemma_joins_two_kept(old(self).nexuses(), self.ns@, j);
            }
            assert forall|e: usize| e < n implies #[trigger] order@.contains(e) by {
                assert(order0[e as int] == e);
                assert(order0.contains(e));
                assert(order0.to_multiset().count(e) > 0);
            }
            assert(edges_in_order(order@, self.ss@, ss0 as int, self.ns@, q@));
        }
        Ok(())
    }

    /// Ends the polygon whose vertices the lookup entries list: nothing
    /// for no entry, an error for one or two, and otherwise its edges are
    /// inserted; the entries are then cleared.
    fn finish_polygon(&mut self, q: &mut Vec<QueryNodeOrNexus>) -> (r: Result<(), TrapezoidationError>)
        requires
            old(self).wf(),
            old(self).counted(),
            lookups_ok(old(q)@, old(self).polygons().vertices().len(), old(self).nexuses().len(), old(self).queries().len()),
            forall|k: int| 0 <= k < old(q)@.len() ==> (#[trigger] old(q)@[k]) is QueryNode,
            lookups_sound(old(q)@, old(self).polygons().vertices(), old(self).nexuses(), old(self).segments(), old(self).queries()),
        ensures
            final(self).polygons() == old(self).polygons(),
            old(q)@.len() == 0 ==> r is Ok && final(self).nexuses() == old(self).nexuses(),
            1 <= old(q)@.len() < 3 ==> r == Err::<(), TrapezoidationError>(TrapezoidationError::NotEnoughVertices(old(q)@.len() as usize)),
            old(q)@.len() >= 3 ==> (r is Ok || r is Err && r->Err_0 is InternalError),
            r is Ok ==> {
                &&& final(self).wf()
                &&& final(self).counted()
                &&& final(self).segments().len() == old(self).segments().len() + old(q)@.len()
                &&& final(self).nexuses().len() == old(self).nexuses().len() + old(q)@.len()
                &&& forall|j: int| old(self).nexuses().len() <= j < final(self).nexuses().len() ==> #[trigger] joins_two(final(self).nexuses()[j])
                &&& forall|j: int| 0 <= j < old(self).nexuses().len() && #[trigger] joins_two(old(self).nexuses()[j]) ==> joins_two(final(self).nexuses()[j])
                &&& final(q)@.len() == 0
                &&& final(self).segments().take(old(self).segments().len() as int) == old(self).segments()
                &&& same_places(old(self).nexuses(), final(self).nexuses())
                &&& forall|t: int| old(self).segments().len() <= t < final(self).segments().len() ==> #[trigger] run_segment(
                    final(self).segments()[t],
                    final(self).nexuses(),
                    entry_vertices(old(q)@),
                )
                &&& run_covered(entry_vertices(old(q)@), final(self).segments(), final(self).nexuses(), old(self).segments().len() as int)
            },
    {
        let v_count = q.len();
        if v_count > 0 {
            if v_count < 3 {
                return Err(TrapezoidationError::NotEnoughVertices(v_count));
            }
            proof {
                assert(lookups_distinct(q@));
            }
            let ghost q0 = q@;
            let ghost ss0 = self.ss@.len();
            match self.add_polygon(q) {
                Ok(()) => {},
                Err(e) => {
                    return Err(TrapezoidationError::InternalError(e));
                },
            }
            proof {
                let order = choose|order: Seq<usize>| #[trigger] edges_in_order(order, self.ss@, ss0 as int, self.ns@, q@);
                let run = entry_vertices(q0);
                assert forall|t: int| ss0 <= t < self.ss@.len() implies #[trigger] run_segment(self.ss@[t], self.ns@, run) by {
                    let j = t - ss0;
                    let e = order[j] as int;
                    let f = wrap_next(e as nat, q@.len()) as int;
                    assert(edge_segment(self.ss@[ss0 + j], self.ns@, q@, e));
                    lemma_wrap_next_cases(e as nat, q@.len());
                    assert(match (q0[e], q@[e]) {
                        (QueryNodeOrNexus::QueryNode(vi, _), QueryNodeOrNexus::Nexus(ni)) => ni@ < self.ns@.len()
                            && self.ns@[ni@ as int].spec_vi() == vi,
                        (QueryNodeOrNexus::QueryNode(vi, _), QueryNodeOrNexus::QueryNode(vj, _)) => vi == vj,
                        (QueryNodeOrNexus::Nexus(x), QueryNodeOrNexus::Nexus(y)) => x == y,
                        _ => false,
                    });
                    assert(match (q0[f], q@[f]) {
                        (QueryNodeOrNexus::QueryNode(vi, _), QueryNodeOrNexus::Nexus(ni)) => ni@ < self.ns@.len()
                            && self.ns@[ni@ as int].spec_vi() == vi,
                        (QueryNodeOrNexus::QueryNode(vi, _), QueryNodeOrNexus::QueryNode(vj, _)) => vi == vj,
                        (QueryNodeOrNexus::Nexus(x), QueryNodeOrNexus::Nexus(y)) => x == y,
                        _ => false,
                    });
                    assert(q0[e] is QueryNode && q0[f] is QueryNode);
                    assert(run[e] == q0[e]->QueryNode_0);
                    assert(run[f] == q0[f]->QueryNode_0);
                    assert(run_neighbours(
                        run,
                        e,
                        self.ns@[self.ss@[t].spec_ni_min()@ as int].spec_vi(),
                        self.ns@[self.ss@[t].spec_ni_max()@ as int].spec_vi(),
                    ));
                }
                assert forall|k: int| 0 <= k < run.len() implies #[trigger] edge_covered(run, k, self.ss@, self.ns@, ss0 as int) by {
                    assert(order.contains(k as usize));
                    let j = choose|j: int| 0 <= j < order.len() && order[j] == k as usize;
                    let f = wrap_next(k as nat, q@.len()) as int;
                    lemma_wrap_next_cases(k as nat, q@.len());
                    assert(edge_segment(self.ss@[ss0 + j], self.ns@, q@, k));
                    assert(match (q0[k], q@[k]) {
                        (QueryNodeOrNexus::QueryNode(vi, _), QueryNodeOrNexus::Nexus(ni)) => ni@ < self.ns@.len()
                            && self.ns@[ni@ as int].spec_vi() == vi,
                        (QueryNodeOrNexus::QueryNode(vi, _), QueryNodeOrNexus::QueryNode(vj, _)) => vi == vj,
                        (QueryNodeOrNexus::Nexus(x), QueryNodeOrNexus::Nexus(y)) => x == y,
                        _ => false,
                    });
                    assert(match (q0[f], q@[f]) {
                        (QueryNodeOrNexus::QueryNode(vi, _), QueryNodeOrNexus::Nexus(ni)) => ni@ < self.ns@.len()
                            && self.ns@[ni@ as int].spec_vi() == vi,
                        (QueryNodeOrNexus::QueryNode(vi, _), QueryNodeOrNexus::QueryNode(vj, _)) => vi == vj,
                        (QueryNodeOrNexus::Nexus(x), QueryNodeOrNexus::Nexus(y)) => x == y,
                        _ => false,
                    });
                    assert(q0[k] is QueryNode && q0[f] is QueryNode);
                    assert(f == next_in(run.len() as int, k));
                    assert(segment_joins_vertices(self.ss@[ss0 + j], self.ns@, run[k], run[f]));
                }
            }
        } else {
            assert(self.ss@.take(self.ss@.len() as int) =~= self.ss@);
        }
        *q = Vec::new();
        Ok(())
    }

    /// Inserts every polygon of the list, in order: the vertex indices up
    /// to each polygon break (or the end) make one polygon. An error for a
    /// polygon of one or two vertices (the first such one met, unless an
    /// earlier polygon failed to insert).
    #[verifier::spinoff_prover]
    pub fn build(self) -> (r: Result<Trapezoidation<'a>, TrapezoidationError>)
        requires
            self.wf(),
            self.counted(),
        ensures
            r matches Ok(t) ==> {
                &&& t.wf()
                &&& forall|j: int| 0 <= j < t.nexuses().len() ==> (j >= self.nexuses().len() || joins_two(self.nexuses()[j]))
                    ==> #[trigger] joins_two(t.nexuses()[j])
                &&& t.counted()
                &&& t.polygons() == self.polygons()
                &&& forall|k: int| 0 <= k < polygon_sizes(self.polygons().elements()).len()
                    ==> #[trigger] polygon_sizes(self.polygons().elements())[k] >= 3
                &&& t.segments().len() == self.segments().len() + total(
                    polygon_sizes(self.polygons().elements()),
                )
                &&& t.nexuses().len() == self.nexuses().len() + total(
                    polygon_sizes(self.polygons().elements()),
                )
                &&& forall|x: int| self.segments().len() <= x < t.segments().len() ==> #[trigger] polygon_segment(
                    t.segments()[x],
                    t.nexuses(),
                    polygon_runs(self.polygons().elements()),
                )
                &&& runs_covered(
                    polygon_runs(self.polygons().elements()),
                    t.segments(),
                    t.nexuses(),
                    self.segments().len() as int,
                )
            },
            r matches Err(TrapezoidationError::NotEnoughVertices(c)) ==> {
                let sizes = polygon_sizes(self.polygons().elements());
                &&& 1 <= c <= 2
                &&& exists|k: int| 0 <= k < sizes.len() && sizes[k] == c && forall|m: int| 0 <= m < k ==> #[trigger] sizes[m] >= 3
            },
            total(polygon_sizes(self.polygons().elements())) == 0 ==> r is Ok,
    {
        let ghost vn = self.polygons().vertices().len();
        let ghost e = self.polygons().elements();
        let ghost s0 = self.segments().len();
        let ghost n0 = self.nexuses().len();
        let mut state = self;
        let ps = state.ps;
        let elements = ps.iter_indices();
        let root = state.query_node_root();
        let mut q: Vec<QueryNodeOrNexus> = Vec::new();
        let mut j: usize = 0;
        proof {
            assert(e.take(0) =~= Seq::<PolygonElement<usize>>::empty());
        }
        while j < elements.len()
            invariant
                state.wf(),
                state.counted(),
                state.polygons() == ps,
                ps.vertices().len() == vn,
                ps.elements() == e,
                self.polygons().elements() == e,
                elements@ == e,
                elements_within(e, vn),
                root@ == 0,
                j <= e.len(),
                run_sizes(e.take(j as int)).1 == q@.len(),
                forall|k: int| 0 <= k < run_sizes(e.take(j as int)).0.len()
                    ==> #[trigger] run_sizes(e.take(j as int)).0[k] >= 3,
                state.segments().len() == s0 + total(run_sizes(e.take(j as int)).0),
                state.nexuses().len() == n0 + total(run_sizes(e.take(j as int)).0),
                forall|k: int| 0 <= k < q@.len() ==> (#[trigger] q@[k]) is QueryNode,
                forall|j: int| 0 <= j < state.nexuses().len() ==> (j >= n0 || joins_two(self.nexuses()[j]))
                    ==> #[trigger] joins_two(state.nexuses()[j]),
                n0 == self.nexuses().len(),
                forall|k: int| 0 <= k < q@.len() ==> ((#[trigger] q@[k]) matches QueryNodeOrNexus::QueryNode(_, qi) && qi@ == 0),
                lookups_ok(q@, vn, state.nexuses().len(), state.queries().len()),
                entry_vertices(q@) == run_vertices(e.take(j as int)).1,
                s0 <= state.segments().len(),
                forall|x: int| s0 <= x < state.segments().len() ==> #[trigger] polygon_segment(
                    state.segments()[x],
                    state.nexuses(),
                    run_vertices(e.take(j as int)).0,
                ),
                runs_covered(run_vertices(e.take(j as int)).0, state.segments(), state.nexuses(), s0 as int),
            decreases e.len() - j,
        {
            let ghost pre = run_sizes(e.take(j as int));
            proof {
                assert(e.take(j as int + 1).drop_last() =~= e.take(j as int));
                assert(e.take(j as int + 1).last() == e[j as int]);
            }
            match elements[j] {
                PolygonElement::ContinuePolygon(index) => {
                    proof {
                        assert(match e[j as int] {
                            PolygonElement::ContinuePolygon(i) => i < vn,
                            PolygonElement::NewPolygon => true,
                        });
                    }
                    let ghost qpre = q@;
                    q.push(QueryNodeOrNexus::QueryNode(index, root));
                    proof {
                        assert(entry_vertices(q@) =~= entry_vertices(qpre).push(index));
                        assert forall|k: int| 0 <= k < q@.len() implies (#[trigger] q@[k]) is QueryNode by {
                            if k < q@.len() - 1 {
                                assert(q@[k] == q@.drop_last()[k]);
                            }
                        }
                        assert forall|k: int| 0 <= k < q@.len() implies ((#[trigger] q@[k]) matches QueryNodeOrNexus::QueryNode(_, qi) && qi@ == 0) by {
                            if k < q@.len() - 1 {
                                assert(q@[k] == q@.drop_last()[k]);
                            }
                        }
                        assert forall|k: int| 0 <= k < q@.len() implies lookup_ok(#[trigger] q@[k], vn, state.nexuses().len(), state.queries().len()) by {
                            if k < q@.len() - 1 {
                                assert(lookup_ok(q@.drop_last()[k], vn, state.nexuses().len(), state.queries().len()));
                            }
                        }
                    }
                },
                PolygonElement::NewPolygon => {
                    proof {
                        lemma_run_total(e, j as int);
                        if pre.1 > 0 {
                            lemma_run_prefix(e, j as int + 1);
                            let post = run_sizes(e.take(j as int + 1)).0;
                            assert(post == pre.0.push(pre.1));
                            let k = pre.0.len() as int;
                            assert(post[k] == pre.1);
                            assert(polygon_sizes(e)[k] == pre.1);
                            assert forall|m: int| 0 <= m < k implies #[trigger] polygon_sizes(e)[m] >= 3 by {
                                assert(post[m] == pre.0[m]);
                            }
                        }
                    }
                    let ghost pre_ns = state.nexuses();
                    let ghost pre_ss = state.segments();
                    let ghost qpre = q@;
                    state.finish_polygon(&mut q)?;
                    proof {
                        assert forall|x: int| 0 <= x < pre_ss.len() implies (#[trigger] pre_ss[x]).spec_ni_min()@ < pre_ns.len()
                            && pre_ss[x].spec_ni_max()@ < pre_ns.len() by {
                            assert(segment_ok(pre_ss[x], pre_ns.len()));
                        }
                        lemma_polygon_segments_grow(pre_ss, pre_ns, state.segments(), state.nexuses(),
                            run_vertices(e.take(j as int)).0, entry_vertices(qpre), s0 as int,
                            run_vertices(e.take(j as int + 1)).0);
                        lemma_runs_covered_grow(pre_ss, pre_ns, state.segments(), state.nexuses(),
                            run_vertices(e.take(j as int)).0, entry_vertices(qpre), s0 as int,
                            run_vertices(e.take(j as int + 1)).0);
                        assert(entry_vertices(q@) =~= Seq::<usize>::empty());
                        assert forall|j: int| 0 <= j < state.nexuses().len() && (j >= n0 || joins_two(self.nexuses()[j]))
                            implies #[trigger] joins_two(state.nexuses()[j]) by {
                            if j < pre_ns.len() {
                                assert(joins_two(pre_ns[j]));
                            }
                        }
                        if pre.1 > 0 {
                            assert(pre.0.push(pre.1).drop_last() =~= pre.0);
                        }
                    }
                },
            }
            j = j + 1;
        }
        let ghost pre = run_sizes(e.take(j as int));
        proof {
            assert(e.take(j as int) =~= e);
            lemma_run_total(e, j as int);
            if pre.1 > 0 {
                let k = pre.0.len() as int;
                assert(polygon_sizes(e) == pre.0.push(pre.1));
                assert(polygon_sizes(e)[k] == pre.1);
                assert forall|m: int| 0 <= m < k implies #[trigger] polygon_sizes(e)[m] >= 3 by {
                    assert(polygon_sizes(e)[m] == pre.0[m]);
                }
            }
        }
        let ghost pre_ns = state.nexuses();
        let ghost pre_ss = state.segments();
        let ghost qpre = q@;
        state.finish_polygon(&mut q)?;
        proof {
            assert forall|x: int| 0 <= x < pre_ss.len() implies (#[trigger] pre_ss[x]).spec_ni_min()@ < pre_ns.len()
                && pre_ss[x].spec_ni_max()@ < pre_ns.len() by {
                assert(segment_ok(pre_ss[x], pre_ns.len()));
            }
            lemma_polygon_segments_grow(pre_ss, pre_ns, state.segments(), state.nexuses(),
                run_vertices(e).0, entry_vertices(qpre), s0 as int, polygon_runs(e));
            lemma_runs_covered_grow(pre_ss, pre_ns, state.segments(), state.nexuses(),
                run_vertices(e).0, entry_vertices(qpre), s0 as int, polygon_runs(e));
            assert forall|j: int| 0 <= j < state.nexuses().len() && (j >= n0 || joins_two(self.nexuses()[j]))
                implies #[trigger] joins_two(state.nexuses()[j]) by {
                if j < pre_ns.len() {
                    assert(joins_two(pre_ns[j]));
                }
            }
            if pre.1 > 0 {
                assert(pre.0.push(pre.1).drop_last() =~= pre.0);
            }
        }
        Ok(Trapezoidation { ps: state.ps, ns: state.ns, ss: state.ss, ts: state.ts, qs: state.qs })
    }
}


/// A complete trapezoidation of a polygon list, ready to be triangulated.
pub struct Trapezoidation<'a> {
    ps: &'a PolygonList,
    ns: Vec<Nexus>,
    ss: Vec<Segment>,
    ts: Vec<Trapezoid>,
    qs: Vec<QueryNode>,
}

impl<'a> Trapezoidation<'a> {
    /// The polygon list that was trapezoidized.
    pub closed spec fn polygons(&self) -> &'a PolygonList {
        self.ps
    }

    /// The nexuses.
    pub closed spec fn nexuses(&self) -> Seq<Nexus> {
        self.ns@
    }

    /// The segments.
    pub closed spec fn segments(&self) -> Seq<Segment> {
        self.ss@
    }

    /// The trapezoids.
    pub closed spec fn trapezoids(&self) -> Seq<Trapezoid> {
        self.ts@
    }

    /// The query structure.
    pub closed spec fn queries(&self) -> Seq<QueryNode> {
        self.qs@
    }

    /// Every nexus and every segment added one trapezoid to the first.
    pub open spec fn counted(&self) -> bool {
        self.trapezoids().len() == 1 + self.nexuses().len() + self.segments().len()
    }

    /// Whether the arenas are consistent.
    pub open spec fn wf(&self) -> bool {
        &&& self.polygons().wf()
        &&& arenas_wf(
            self.polygons().vertices(),
            self.nexuses(),
            self.segments(),
            self.trapezoids(),
            self.queries(),
        )
    }

    /// The polygon list that was trapezoidized.
    pub fn ps(&self) -> (r: &'a PolygonList)
        ensures
            r == self.polygons(),
    {
        self.ps
    }

    /// The nexuses.
    pub fn ns(&self) -> (r: &Vec<Nexus>)
        ensures
            r@ == self.nexuses(),
    {
        &self.ns
    }

    /// The segments.
    pub fn ss(&self) -> (r: &Vec<Segment>)
        ensures
            r@ == self.segments(),
    {
        &self.ss
    }

    /// The trapezoids.
    pub fn ts(&self) -> (r: &Vec<Trapezoid>)
        ensures
            r@ == self.trapezoids(),
    {
        &self.ts
    }

    /// The query structure.
    pub fn qs(&self) -> (r: &Vec<QueryNode>)
        ensures
            r@ == self.queries(),
    {
        &self.qs
    }

    /// Whether every nexus and every trapezoid is linked consistently.
    pub fn check_consistency(&self) -> (r: bool)
        requires
            self.wf(),
        ensures
            r == all_linked(self.nexuses(), self.trapezoids(), self.queries()),
    {
        check_all_links(Ghost(self.polygons().vertices()), &self.ns, &self.ss, &self.ts, &self.qs)
    }

    /// The trapezoid at the top of the plane, found by always taking the
    /// side above at the nexus tests of the query structure; an error when
    /// a segment test comes first.
    pub fn top_trapezoid(&self) -> (r: Result<TrapezoidIdx, InternalError>)
        requires
            self.wf(),
        ensures
            match top_sink(self.queries(), 0) {
                Some(t) => r matches Ok(ti) && ti@ == t,
                None => r is Err,
            },
            r matches Ok(ti) ==> ti@ < self.trapezoids().len(),
    {
        let mut qi: QueryIdx = Idx::new(0);
        loop
            invariant
                self.wf(),
                qi@ < self.queries().len(),
                top_sink(self.queries(), 0) == top_sink(self.queries(), qi@ as int),
            decreases self.queries().len() - qi@,
        {
            proof {
                assert(query_ok(self.queries()[qi@ as int], qi@ as int, self.nexuses().len(), self.segments().len(), self.trapezoids().len(), self.queries().len()));
            }
            match self.qs[qi.usize()] {
                QueryNode::Branch(_, right, kind) => match kind {
                    QueryNodeBranch::X(_) => {
                        return Err(InternalError::new("Finding the top trapezoid should not reach an X node"));
                    },
                    QueryNodeBranch::Y(_) => {
                        qi = right;
                    },
                },
                QueryNode::Sink(ti) => {
                    return Ok(ti);
                },
            }
        }
    }

    /// Walks the trapezoids depth first from the top, collecting the
    /// monotone chains of the polygons' interiors (a chain ends where a
    /// diagonal is drawn between two nexuses on different sides, or at the
    /// bottom of its region) and triangulating each completed chain into
    /// `fbs`. An error when the walk meets a structure that is not a
    /// trapezoidation of polygons, or when the builder fails.
    #[verifier::spinoff_prover]
    fn triangulate_inner<FB: FanFormat<usize>>(&self, fbs: &mut FanBuilderState<usize, FB>) -> (r: Result<(), FormatError<usize, FB>>)
        requires
            self.wf(),
        ensures
            r matches Err(e) ==> (e is FanBuilder || e is InternalError),
            self.nexuses().len() == 0 ==> (r is Ok && *final(fbs) == *old(fbs)),
            top_sink(self.queries(), 0) is None ==> (r matches Err(e) && e is InternalError) && *final(fbs)
                == *old(fbs),
            (top_sink(self.queries(), 0) matches Some(t) && self.trapezoids()[t].down is None) ==> (r is Ok
                && *final(fbs) == *old(fbs)),
            r is Ok ==> exists|new: Seq<Seq<usize>>|
                #![trigger fans_below(new, self.polygons().vertices().len())]
                final(fbs).log() == old(fbs).log() + new && fans_below(new, self.polygons().vertices().len()),
    {
        proof {
            if self.ns@.len() == 0 {
                if self.ss@.len() > 0 {
                    assert(segment_ok(self.ss@[0], self.ns@.len()));
                }
                assert(query_ok(self.qs@[0], 0, self.ns@.len(), self.ss@.len(), self.ts@.len(), self.qs@.len()));
            }
        }
        let mut ti = match self.top_trapezoid() {
            Ok(ti) => ti,
            Err(e) => {
                return Err(TriangulationError::InternalError(e));
            },
        };
        let ghost nn = self.ns@.len();
        let ghost sn = self.ss@.len();
        let ghost tn = self.ts@.len();
        let ghost qn = self.qs@.len();
        let ghost ti_top = ti;
        let ghost vn = self.polygons().vertices().len();
        let ghost log0 = fbs.log();
        let ghost mut added = Seq::<Seq<usize>>::empty();
        let mut monotones: Option<Ot<MonotoneBuilder>> = None;
        let mut branch_stack: Vec<WalkBranch> = Vec::new();
        let mut monotone_stack: Vec<MonotoneBuilder> = Vec::new();
        let bound = self.ts.len();
        let mut steps: usize = 0;
        loop
            invariant
                self.wf(),
                nn == self.nexuses().len(),
                sn == self.segments().len(),
                tn == self.trapezoids().len(),
                qn == self.queries().len(),
                bound == tn,
                steps <= bound,
                ti@ < tn,
                opt_slots_wf(monotones),
                forall|k: int| 0 <= k < branch_stack@.len() ==> (#[trigger] branch_stack@[k]).ti@ < tn
                    && opt_slots_wf(branch_stack@[k].monotones),
                forall|k: int| 0 <= k < monotone_stack@.len() ==> (#[trigger] monotone_stack@[k]).wf(),
                nn == 0 ==> *fbs == *old(fbs),
                nn == 0 ==> (monotones is None && branch_stack@.len() == 0 && monotone_stack@.len() == 0),
                top_sink(self.queries(), 0) == Some(ti_top@ as int),
                vn == self.polygons().vertices().len(),
                log0 == old(fbs).log(),
                fbs.log() == log0 + added,
                fans_below(added, vn),
                opt_slots_below(monotones, vn),
                forall|k: int| 0 <= k < branch_stack@.len() ==> opt_slots_below(
                    (#[trigger] branch_stack@[k]).monotones,
                    vn,
                ),
                forall|k: int| 0 <= k < monotone_stack@.len() ==> chain_below(#[trigger] monotone_stack@[k], vn),
                ti_top@ < tn,
                self.trapezoids()[ti_top@ as int].down is None ==> steps == 0,
                steps == 0 ==> (ti == ti_top && *fbs == *old(fbs) && monotones is None && branch_stack@.len() == 0
                    && monotone_stack@.len() == 0),
            decreases bound - steps,
        {
            proof {
                assert(trapezoid_ok(self.ts@[ti@ as int], nn, sn, qn));
            }
            let t = self.ts[ti.usize()];
            let ni_down = match t.down() {
                Some(ni) => ni,
                None => {
                    break;
                },
            };
            if steps >= bound {
                return Err(TriangulationError::internal("Trapezoid walk does not end"));
            }
            steps = steps + 1;
            proof {
                assert(nexus_ok(self.ns@[ni_down@ as int], self.polygons().vertices(), sn, tn));
            }
            let vi_down = self.ns[ni_down.usize()].vertex();
            let c_down = self.ns[ni_down.usize()].coords();
            match monotones.take() {
                Some(ms) => {
                    let ms = match extend_all(ms, vi_down, c_down) {
                        Ok(ms) => ms,
                        Err(e) => {
                            return Err(TriangulationError::InternalError(e));
                        },
                    };
                    let (si_left, si_right, ni_up) = match (t.left(), t.right(), t.up()) {
                        (Some(l), Some(r), Some(u)) => (l, r, u),
                        _ => {
                            return Err(TriangulationError::internal("A trapezoid inside the polygon must be enclosed"));
                        },
                    };
                    let s_left = self.ss[si_left.usize()];
                    let s_right = self.ss[si_right.usize()];
                    let complete = if ni_down == s_left.ni_min() && !(ni_down == s_right.ni_min())
                        && !(ni_up == s_left.ni_max()) {
                        match monotones_view(ms) {
                            MonotoneSlots::One(m0) => {
                                assert(monotone_slots(ms)[0] == m0);
                                Some(m0)
                            },
                            MonotoneSlots::Two(m0, m1) => {
                                assert(monotone_slots(ms)[0] == m0 && monotone_slots(ms)[1] == m1);
                                monotones = Some(monotones_one(m1));
                                Some(m0)
                            },
                        }
                    } else if ni_down == s_right.ni_min() && !(ni_down == s_left.ni_min())
                        && !(ni_up == s_right.ni_max()) {
                        match monotones_view(ms) {
                            MonotoneSlots::One(m0) => {
                                assert(monotone_slots(ms)[0] == m0);
                                Some(m0)
                            },
                            MonotoneSlots::Two(m0, m1) => {
                                assert(monotone_slots(ms)[0] == m0 && monotone_slots(ms)[1] == m1);
                                monotones = Some(monotones_one(m0));
                                Some(m1)
                            },
                        }
                    } else {
                        monotones = Some(ms);
                        None
                    };
                    match complete {
                        Some(m) => {
                            let ghost pre = fbs.log();
                            finish_monotone(m, fbs, Ghost(vn))?;
                            proof {
                                let new = choose|new: Seq<Seq<usize>>|
                                    #![trigger fans_below(new, vn)]
                                    fbs.log() == pre + new && fans_below(new, vn);
                                lemma_fans_below_append(added, new, vn);
                                assert(fbs.log() =~= log0 + (added + new));
                                added = added + new;
                            }
                            if monotones.is_none() {
                                proof {
                                    assert(nexus_ok(self.ns@[ni_up@ as int], self.polygons().vertices(), sn, tn));
                                }
                                let n_up = &self.ns[ni_up.usize()];
                                let fan_new = chain_between(n_up.vertex(), n_up.coords(), vi_down, c_down);
                                monotones = Some(monotones_one(fan_new));
                            }
                        },
                        None => {},
                    }
                },
                None => {},
            }
            let ft = match self.ns[ni_down.usize()].final_type() {
                Ok(ft) => ft,
                Err(e) => {
                    return Err(TriangulationError::InternalError(e));
                },
            };
            proof {
                let n = self.ns@[ni_down@ as int];
                assert(n.spec_dividers().len() == 2);
                assert(n.spec_dividers()[0].ti_right@ < tn && n.spec_dividers()[1].ti_right@ < tn);
            }
            ti = match ft {
                FinalNexusType::V { ti_upleft, ti_upcenter, ti_upright, ti_down } => {
                    match monotones.take() {
                        Some(ms) => {
                            if ti == ti_upleft {
                                let m = only_one(ms)?;
                                monotone_stack.push(m);
                            } else if ti == ti_upcenter {
                                let ghost pre = fbs.log();
                                finish_all(ms, fbs, Ghost(vn))?;
                                proof {
                                    let new = choose|new: Seq<Seq<usize>>|
                                        #![trigger fans_below(new, vn)]
                                        fbs.log() == pre + new && fans_below(new, vn);
                                    lemma_fans_below_append(added, new, vn);
                                    assert(fbs.log() =~= log0 + (added + new));
                                    added = added + new;
                                }
                            } else if ti == ti_upright {
                                let left_monotone = match monotone_stack.pop() {
                                    Some(m) => m,
                                    None => {
                                        return Err(TriangulationError::internal("Unexpected empty branch stack"));
                                    },
                                };
                                let right_monotone = only_one(ms)?;
                                monotones = Some(monotones_two(left_monotone, right_monotone));
                            } else {
                                return Err(TriangulationError::internal("Invalid trapezoidation"));
                            }
                        },
                        None => {},
                    }
                    if ti == ti_upright {
                        ti_down
                    } else {
                        let state = match branch_stack.pop() {
                            Some(state) => state,
                            None => {
                                return Err(TriangulationError::internal("Unexpected empty branch stack"));
                            },
                        };
                        monotones = state.monotones;
                        state.ti
                    }
                },
                FinalNexusType::I { ti_upleft, ti_upright, ti_downleft, ti_downright } => {
                    if ti == ti_upleft {
                        ti_downleft
                    } else if ti == ti_upright {
                        ti_downright
                    } else {
                        return Err(TriangulationError::internal("Invalid 'I' nexus type"));
                    }
                },
                FinalNexusType::A { ti_up: _, ti_downleft, ti_downcenter, ti_downright } => {
                    match monotones.take() {
                        Some(ms) => {
                            let (monotone_left, monotone_right) = match monotones_view(ms) {
                                MonotoneSlots::One(m) => {
                                    assert(monotone_slots(ms)[0] == m);
                                    let (ni_up, si_left, si_right) = match (t.up(), t.left(), t.right()) {
                                        (Some(u), Some(l), Some(r)) => (u, l, r),
                                        _ => {
                                            return Err(TriangulationError::internal("A trapezoid inside the polygon must be enclosed"));
                                        },
                                    };
                                    proof {
                                        assert(nexus_ok(self.ns@[ni_up@ as int], self.polygons().vertices(), sn, tn));
                                    }
                                    let n_up = &self.ns[ni_up.usize()];
                                    let monotone_new = chain_between(n_up.vertex(), n_up.coords(), vi_down, c_down);
                                    if ni_up == self.ss[si_left.usize()].ni_max() {
                                        (monotone_new, m)
                                    } else if ni_up == self.ss[si_right.usize()].ni_max() {
                                        (m, monotone_new)
                                    } else {
                                        return Err(TriangulationError::internal("Expected nexus on top of left or right segment"));
                                    }
                                },
                                MonotoneSlots::Two(m0, m1) => {
                                    assert(monotone_slots(ms)[0] == m0 && monotone_slots(ms)[1] == m1);
                                    (m0, m1)
                                },
                            };
                            monotones = Some(monotones_one(monotone_left));
                            branch_stack.push(WalkBranch { ti: ti_downright, monotones: Some(monotones_one(monotone_right)) });
                            branch_stack.push(WalkBranch { ti: ti_downcenter, monotones: None });
                        },
                        None => {
                            branch_stack.push(WalkBranch { ti: ti_downright, monotones: None });
                            let monotone_new = MonotoneBuilder::new(vi_down, c_down);
                            branch_stack.push(WalkBranch { ti: ti_downcenter, monotones: Some(monotones_one(monotone_new)) });
                        },
                    }
                    ti_downleft
                },
            };
        }
        if monotone_stack.len() > 0 {
            Err(TriangulationError::internal("Mismatched monotone stack"))
        } else if branch_stack.len() > 0 {
            Err(TriangulationError::internal("Mismatched branch stack"))
        } else if monotones.is_some() {
            Err(TriangulationError::internal("Unexpected partial monotones"))
        } else {
            assert(fans_below(added, vn));
            Ok(())
        }
    }

    /// Triangulates the polygons into the layout of `format`: the fans of
    /// every monotone piece go to one builder, which builds the output at
    /// the end, or is told of the error that stopped the triangulation.
    /// With no vertex at all, [TriangulationError::NoVertices].
    pub fn triangulate<FF: FanFormat<usize>>(&self, format: FF) -> (r: Result<
        <FF::Builder as FanBuilder<usize>>::Output,
        FormatError<usize, FF>,
    >)
        requires
            self.wf(),
        ensures
            self.nexuses().len() == 0 ==> r matches Err(TriangulationError::NoVertices),
            r matches Err(e) ==> (e is FanBuilder || e is InternalError || e is NoVertices),
    {
        let mut fbs = FanBuilderState::<usize, FF>::new(format);
        let result = self.triangulate_inner(&mut fbs);
        fbs.complete(result)
    }
}


impl PolygonList {
    /// Generates a [Trapezoidation] of the polygons, which can later be
    /// triangulated. Unless the [Trapezoidation] is needed for other
    /// reasons, this can be done in a single step with
    /// [PolygonList::triangulate].
    pub fn trapezoidize(&self) -> (r: Result<Trapezoidation<'_>, TrapezoidationError>)
        requires
            self.wf(),
        ensures
            r matches Ok(t) ==> {
                &&& t.wf()
                &&& t.counted()
                &&& t.polygons() == self
                &&& forall|k: int| 0 <= k < polygon_sizes(self.elements()).len()
                    ==> #[trigger] polygon_sizes(self.elements())[k] >= 3
                &&& t.segments().len() == total(polygon_sizes(self.elements()))
                &&& t.nexuses().len() == total(polygon_sizes(self.elements()))
                &&& t.trapezoids().len() == 1 + 2 * total(polygon_sizes(self.elements()))
                &&& forall|j: int| 0 <= j < t.nexuses().len() ==> #[trigger] joins_two(t.nexuses()[j])
                &&& forall|x: int| 0 <= x < t.segments().len() ==> #[trigger] polygon_segment(
                    t.segments()[x],
                    t.nexuses(),
                    polygon_runs(self.elements()),
                )
                &&& runs_covered(polygon_runs(self.elements()), t.segments(), t.nexuses(), 0)
            },
            r matches Err(TrapezoidationError::NotEnoughVertices(c)) ==> {
                let sizes = polygon_sizes(self.elements());
                &&& 1 <= c <= 2
                &&& exists|k: int| 0 <= k < sizes.len() && sizes[k] == c && forall|m: int| 0 <= m < k ==> #[trigger] sizes[m] >= 3
            },
            total(polygon_sizes(self.elements())) == 0 ==> r is Ok,
    {
        TrapezoidationState::new(self).build()
    }

    /// Triangulates the polygons into the layout specified by `format`.
    /// A polygon of fewer than three vertices fails the trapezoidation;
    /// a list naming no vertex gives [TriangulationError::NoVertices].
    pub fn triangulate<FF: FanFormat<usize>>(&self, format: FF) -> (r: Result<
        <FF::Builder as FanBuilder<usize>>::Output,
        FormatError<usize, FF>,
    >)
        requires
            self.wf(),
        ensures
            (exists|k: int| 0 <= k < polygon_sizes(self.elements()).len()
                && #[trigger] polygon_sizes(self.elements())[k] < 3) ==> r matches Err(
                TriangulationError::TrapezoidationError(_),
            ),
            r matches Err(TriangulationError::TrapezoidationError(TrapezoidationError::NotEnoughVertices(c)))
                ==> {
                let sizes = polygon_sizes(self.elements());
                &&& 1 <= c <= 2
                &&& exists|k: int| 0 <= k < sizes.len() && sizes[k] == c && forall|m: int| 0 <= m < k ==> #[trigger] sizes[m] >= 3
            },
            total(polygon_sizes(self.elements())) == 0 ==> r matches Err(TriangulationError::NoVertices),
    {
        match self.trapezoidize() {
            Ok(t) => t.triangulate(format),
            Err(e) => Err(TriangulationError::TrapezoidationError(e)),
        }
    }
}

} // verus!