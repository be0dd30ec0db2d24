use vstd::prelude::*;

use crate::inputs::Coords;

verus! {

/// Used to distinguish multiple polygons while iterating over the vertex
/// indices of a polygon list.
#[derive(Debug, Clone, Copy, PartialEq, Eq, Structural)]
pub enum PolygonElement<Index> {
    /// Provides a vertex index of the current polygon.
    ContinuePolygon(Index),
    /// Indicates that the next index belongs to a new polygon. It is not
    /// necessary to begin or end iteration with it.
    NewPolygon,
}

impl<Index> PolygonElement<Index> {
    /// The element for vertex `index`.
    pub fn from_index(index: Index) -> (r: Self)
        ensures
            r == PolygonElement::ContinuePolygon(index),
    {
        PolygonElement::ContinuePolygon(index)
    }

    /// The element for `Some` vertex index, or a polygon break for `None`.
    pub fn from_option(index: Option<Index>) -> (r: Self)
        ensures
            r == match index {
                Some(i) => PolygonElement::ContinuePolygon(i),
                None => PolygonElement::NewPolygon,
            },
    {
        match index {
            Some(index) => PolygonElement::ContinuePolygon(index),
            None => PolygonElement::NewPolygon,
        }
    }
}

/// Distinguishes multiple polygons while iterating over the vertex indices
/// of a polygon list.
#[derive(Debug, Clone, Copy, PartialEq, Eq, Structural)]
pub enum PolygonVertex<Index> {
    /// Provides a vertex index of the current polygon.
    ContinuePolygon(Index),
    /// Indicates that the next index belongs to a new polygon.
    NewPolygon,
}

impl<Index> PolygonVertex<Index> {
    /// The element for vertex `index`.
    pub fn from_index(index: Index) -> (r: Self)
        ensures
            r == PolygonVertex::ContinuePolygon(index),
    {
        PolygonVertex::ContinuePolygon(index)
    }

    /// The element for `Some` vertex index, or a polygon break for `None`.
    pub fn from_option(index: Option<Index>) -> (r: Self)
        ensures
            r == match index {
                Some(i) => PolygonVertex::ContinuePolygon(i),
                None => PolygonVertex::NewPolygon,
            },
    {
        match index {
            Some(index) => PolygonVertex::ContinuePolygon(index),
            None => PolygonVertex::NewPolygon,
        }
    }
}

/// The elements listing one polygon of `n` vertices numbered from `start`.
pub open spec fn polygon_run(start: int, n: int) -> Seq<PolygonElement<usize>> {
    Seq::new(n as nat, |k: int| PolygonElement::ContinuePolygon((start + k) as usize))
}

/// The vertices of nested polygons, one polygon after the other.
pub open spec fn flatten_vertices(polygons: Seq<Seq<Coords>>) -> Seq<Coords>
    decreases polygons.len(),
{
    if polygons.len() == 0 {
        Seq::empty()
    } else {
        flatten_vertices(polygons.drop_last()) + polygons.last()
    }
}

/// The elements listing nested polygons whose vertices are numbered in
/// order: each polygon's run is followed by a polygon break.
pub open spec fn nested_elements(polygons: Seq<Seq<Coords>>) -> Seq<PolygonElement<usize>>
    decreases polygons.len(),
{
    if polygons.len() == 0 {
        Seq::empty()
    } else {
        nested_elements(polygons.drop_last()) + polygon_run(
            flatten_vertices(polygons.drop_last()).len() as int,
            polygons.last().len() as int,
        ).push(PolygonElement::NewPolygon)
    }
}

/// Whether every vertex index that `elements` lists is below `n`.
pub open spec fn elements_within(elements: Seq<PolygonElement<usize>>, n: nat) -> bool {
    forall|k: int| 0 <= k < elements.len() ==> match #[trigger] elements[k] {
        PolygonElement::ContinuePolygon(i) => i < n,
        PolygonElement::NewPolygon => true,
    }
}

/// The sizes of the polygons completed while reading `e` from the start,
/// and the number of vertices read of the polygon in progress.
pub open spec fn run_sizes(e: Seq<PolygonElement<usize>>) -> (Seq<nat>, nat)
    decreases e.len(),
{
    if e.len() == 0 {
        (Seq::empty(), 0)
    } else {
        let (done, cur) = run_sizes(e.drop_last());
        match e.last() {
            PolygonElement::ContinuePolygon(_) => (done, cur + 1),
            PolygonElement::NewPolygon => if cur > 0 {
                (done.push(cur), 0)
            } else {
                (done, 0)
            },
        }
    }
}

/// The vertex indices of the runs that `e` lists: the completed runs (each
/// ended by a polygon break), and the run still open at the end.
pub open spec fn run_vertices(e: Seq<PolygonElement<usize>>) -> (Seq<Seq<usize>>, Seq<usize>)
    decreases e.len(),
{
    if e.len() == 0 {
        (Seq::empty(), Seq::empty())
    } else {
        let (done, cur) = run_vertices(e.drop_last());
        match e.last() {
            PolygonElement::ContinuePolygon(i) => (done, cur.push(i)),
            PolygonElement::NewPolygon => if cur.len() > 0 {
                (done.push(cur), Seq::empty())
            } else {
                (done, Seq::empty())
            },
        }
    }
}

/// The vertex indices of each polygon that `e` lists, in order (empty
/// runs are no polygon).
pub open spec fn polygon_runs(e: Seq<PolygonElement<usize>>) -> Seq<Seq<usize>> {
    let (done, cur) = run_vertices(e);
    if cur.len() > 0 {
        done.push(cur)
    } else {
        done
    }
}

/// Vertices `a` and `b` are neighbours at position `k` of the closed run
/// `run` (the last vertex joining the first), in either order.
pub open spec fn run_neighbours(run: Seq<usize>, k: int, a: usize, b: usize) -> bool {
    let f = if k + 1 == run.len() { 0 } else { k + 1 };
    ||| run[k] == a && run[f] == b
    ||| run[k] == b && run[f] == a
}

/// Vertices `a` and `b` are joined by an edge of one of the polygons.
pub open spec fn is_polygon_edge(polygons: Seq<Seq<usize>>, a: usize, b: usize) -> bool {
    exists|p: int, k: int|
        0 <= p < polygons.len() && 0 <= k < polygons[p].len() && #[trigger] run_neighbours(polygons[p], k, a, b)
}

/// The number of vertices of each polygon that `e` lists, in order (a run
/// of vertex indices ends at a polygon break or at the end; empty runs are
/// no polygon).
pub open spec fn polygon_sizes(e: Seq<PolygonElement<usize>>) -> Seq<nat> {
    let (done, cur) = run_sizes(e);
    if cur > 0 {
        done.push(cur)
    } else {
        done
    }
}

/// The sum of `s`.
pub open spec fn total(s: Seq<nat>) -> nat
    decreases s.len(),
{
    if s.len() == 0 {
        0
    } else {
        total(s.drop_last()) + s.last()
    }
}

/// The lengths of the non-empty polygons of `polygons`, in order.
pub open spec fn nonempty_lens(polygons: Seq<Seq<Coords>>) -> Seq<nat>
    decreases polygons.len(),
{
    if polygons.len() == 0 {
        Seq::empty()
    } else if polygons.last().len() > 0 {
        nonempty_lens(polygons.drop_last()).push(polygons.last().len())
    } else {
        nonempty_lens(polygons.drop_last())
    }
}

/// Reading a run of `k` vertex indices after a completed polygon leaves
/// `k` vertices read of the polygon in progress.
proof fn lemma_run_append(a: Seq<PolygonElement<usize>>, start: int, k: int)
    requires
        run_sizes(a).1 == 0,
        k >= 0,
    ensures
        run_sizes(a + polygon_run(start, k)) == (run_sizes(a).0, k as nat),
    decreases k,
{
    if k == 0 {
        assert(a + polygon_run(start, k) =~= a);
    } else {
        lemma_run_append(a, start, k - 1);
        assert((a + polygon_run(start, k)).drop_last() =~= a + polygon_run(start, k - 1));
    }
}

/// A single polygon of `n` vertices is one polygon of `n` vertices (none
/// when `n` is 0).
pub proof fn lemma_single_polygon_sizes(n: nat)
    ensures
        polygon_sizes(polygon_run(0, n as int)) == if n > 0 { seq![n] } else { Seq::<nat>::empty() },
        total(polygon_sizes(polygon_run(0, n as int))) == n,
{
    lemma_run_append(Seq::empty(), 0, n as int);
    assert(Seq::<PolygonElement<usize>>::empty() + polygon_run(0, n as int) =~= polygon_run(0, n as int));
    assert(total(Seq::<nat>::empty()) == 0);
    if n > 0 {
        assert(seq![n].drop_last() =~= Seq::<nat>::empty());
    }
}

/// The polygons listed for nested polygons are the non-empty ones, and
/// they hold all the vertices.
pub proof fn lemma_nested_sizes(polygons: Seq<Seq<Coords>>)
    ensures
        run_sizes(nested_elements(polygons)) == (nonempty_lens(polygons), 0nat),
        polygon_sizes(nested_elements(polygons)) == nonempty_lens(polygons),
        total(nonempty_lens(polygons)) == flatten_vertices(polygons).len(),
    decreases polygons.len(),
{
    if polygons.len() > 0 {
        let rest = polygons.drop_last();
        lemma_nested_sizes(rest);
        let start = flatten_vertices(rest).len() as int;
        let k = polygons.last().len() as int;
        lemma_run_append(nested_elements(rest), start, k);
        let body = nested_elements(rest) + polygon_run(start, k);
        assert(nested_elements(polygons) =~= body.push(PolygonElement::NewPolygon));
        assert(body.push(PolygonElement::NewPolygon).drop_last() =~= body);
        if k > 0 {
            assert(nonempty_lens(rest).push(k as nat).drop_last() =~= nonempty_lens(rest));
        }
    }
}

/// Reading the same elements after two prefixes that leave the same
/// reading state leaves the same state.
proof fn lemma_run_same_suffix(a1: Seq<PolygonElement<usize>>, a2: Seq<PolygonElement<usize>>, b: Seq<PolygonElement<usize>>)
    requires
        run_sizes(a1) == run_sizes(a2),
    ensures
        run_sizes(a1 + b) == run_sizes(a2 + b),
    decreases b.len(),
{
    if b.len() == 0 {
        assert(a1 + b =~= a1);
        assert(a2 + b =~= a2);
    } else {
        lemma_run_same_suffix(a1, a2, b.drop_last());
        assert((a1 + b).drop_last() =~= a1 + b.drop_last());
        assert((a2 + b).drop_last() =~= a2 + b.drop_last());
    }
}

/// Polygon breaks that end no polygon have no effect: a break at the
/// start, a break at the end, and a break repeated describe the same
/// polygons as without it.
pub proof fn lemma_polygon_breaks(a: Seq<PolygonElement<usize>>, b: Seq<PolygonElement<usize>>)
    ensures
        polygon_sizes(seq![PolygonElement::NewPolygon] + b) == polygon_sizes(b),
        polygon_sizes(a.push(PolygonElement::NewPolygon)) == polygon_sizes(a),
        polygon_sizes(a + seq![PolygonElement::NewPolygon, PolygonElement::NewPolygon] + b) == polygon_sizes(
            a + seq![PolygonElement::NewPolygon] + b,
        ),
{
    let np = PolygonElement::<usize>::NewPolygon;
    assert(seq![np].drop_last() =~= Seq::<PolygonElement<usize>>::empty());
    assert(run_sizes(seq![np]) == run_sizes(Seq::<PolygonElement<usize>>::empty()));
    lemma_run_same_suffix(seq![np], Seq::empty(), b);
    assert(Seq::<PolygonElement<usize>>::empty() + b =~= b);
    assert(a.push(np).drop_last() =~= a);
    let (done, cur) = run_sizes(a);
    if cur > 0 {
        assert(done.push(cur).drop_last() =~= done);
    }
    let a1 = a + seq![np, np];
    let a2 = a + seq![np];
    assert(a1.drop_last() =~= a2);
    assert(a2.drop_last() =~= a);
    lemma_run_same_suffix(a1, a2, b);
}

/// A list of polygons: the positions of all vertices, and the sequence of
/// vertex indices (in boundary order) and polygon breaks that describes the
/// polygons.
pub struct PolygonList {
    vertices: Vec<Coords>,
    elements: Vec<PolygonElement<usize>>,
}

impl PolygonList {
    /// The positions of the vertices, by index.
    pub closed spec fn vertices(&self) -> Seq<Coords> {
        self.vertices@
    }

    /// The vertex indices and polygon breaks, in order.
    pub closed spec fn elements(&self) -> Seq<PolygonElement<usize>> {
        self.elements@
    }

    /// Whether every listed index names a vertex.
    pub open spec fn wf(&self) -> bool {
        elements_within(self.elements(), self.vertices().len())
    }

    /// The polygon list with the given vertices and elements.
    pub fn new(vertices: Vec<Coords>, elements: Vec<PolygonElement<usize>>) -> (r: Self)
        requires
            elements_within(elements@, vertices@.len()),
        ensures
            r.wf(),
            r.vertices() == vertices@,
            r.elements() == elements@,
    {
        PolygonList { vertices, elements }
    }

    /// A single polygon: its vertices in boundary order.
    pub fn from_polygon(vertices: Vec<Coords>) -> (r: Self)
        ensures
            r.wf(),
            r.vertices() == vertices@,
            r.elements() == polygon_run(0, vertices@.len() as int),
            polygon_sizes(r.elements()) == if vertices@.len() > 0 {
                seq![vertices@.len()]
            } else {
                Seq::<nat>::empty()
            },
            total(polygon_sizes(r.elements())) == vertices@.len(),
    {
        proof {
            lemma_single_polygon_sizes(vertices@.len());
        }
        let mut elements: Vec<PolygonElement<usize>> = Vec::new();
        let n = vertices.len();
        let mut i: usize = 0;
        while i < n
            invariant
                i <= n,
                n == vertices@.len(),
                elements@ == polygon_run(0, i as int),
            decreases n - i,
        {
            elements.push(PolygonElement::ContinuePolygon(i));
            i = i + 1;
            assert(elements@ =~= polygon_run(0, i as int));
        }
        let r = PolygonList { vertices, elements };
        assert forall|k: int| 0 <= k < r.elements().len() implies match #[trigger] r.elements()[k] {
            PolygonElement::ContinuePolygon(i) => i < r.vertices().len(),
            PolygonElement::NewPolygon => true,
        } by {}
        r
    }

    /// Several polygons (such as an outline and its holes): each one's
    /// vertices in boundary order. Vertices are numbered one polygon after
    /// the other.
    pub fn from_polygons(polygons: &Vec<Vec<Coords>>) -> (r: Self)
        requires
            flatten_vertices(polygons@.map_values(|p: Vec<Coords>| p@)).len() < usize::MAX,
        ensures
            r.wf(),
            r.vertices() == flatten_vertices(polygons@.map_values(|p: Vec<Coords>| p@)),
            r.elements() == nested_elements(polygons@.map_values(|p: Vec<Coords>| p@)),
            polygon_sizes(r.elements()) == nonempty_lens(polygons@.map_values(|p: Vec<Coords>| p@)),
            total(polygon_sizes(r.elements())) == r.vertices().len(),
    {
        proof {
            lemma_nested_sizes(polygons@.map_values(|p: Vec<Coords>| p@));
        }
        let ghost ps = polygons@.map_values(|p: Vec<Coords>| p@);
        let mut vertices: Vec<Coords> = Vec::new();
        let mut elements: Vec<PolygonElement<usize>> = Vec::new();
        let mut p: usize = 0;
        proof {
            lemma_flatten_prefix_len(ps, 0);
        }
        while p < polygons.len()
            invariant
                p <= polygons@.len(),
                ps == polygons@.map_values(|p: Vec<Coords>| p@),
                flatten_vertices(ps).len() < usize::MAX,
                vertices@ == flatten_vertices(ps.take(p as int)),
                elements@ == nested_elements(ps.take(p as int)),
                elements_within(elements@, vertices@.len()),
            decreases polygons@.len() - p,
        {
            let poly = &polygons[p];
            let start = vertices.len();
            proof {
                lemma_flatten_prefix_len(ps, p as int + 1);
                assert(ps.take(p as int + 1).drop_last() =~= ps.take(p as int));
                assert(ps.take(p as int + 1).last() == poly@);
            }
            let mut k: usize = 0;
            while k < poly.len()
                invariant
                    k <= poly@.len(),
                    start == flatten_vertices(ps.take(p as int)).len(),
                    start + poly@.len() <= flatten_vertices(ps).len(),
                    flatten_vertices(ps).len() < usize::MAX,
                    vertices@ == flatten_vertices(ps.take(p as int)) + poly@.take(k as int),
                    elements@ == nested_elements(ps.take(p as int)) + polygon_run(start as int, k as int),
                    elements_within(elements@, vertices@.len()),
                decreases poly@.len() - k,
            {
                vertices.push(poly[k]);
                elements.push(PolygonElement::ContinuePolygon(start + k));
                k = k + 1;
                assert(vertices@ =~= flatten_vertices(ps.take(p as int)) + poly@.take(k as int));
                assert(elements@ =~= nested_elements(ps.take(p as int)) + polygon_run(start as int, k as int));
            }
            elements.push(PolygonElement::NewPolygon);
            p = p + 1;
            assert(poly@.take(poly@.len() as int) =~= poly@);
            assert(vertices@ =~= flatten_vertices(ps.take(p as int)));
            assert(elements@ =~= nested_elements(ps.take(p as int)));
        }
        assert(ps.take(p as int) =~= ps);
        PolygonList { vertices, elements }
    }

    /// The number of vertices.
    pub fn vertex_count(&self) -> (r: usize)
        ensures
            r == self.vertices().len(),
    {
        self.vertices.len()
    }

    /// The position of vertex `index`.
    pub fn get_vertex(&self, index: usize) -> (r: Coords)
        requires
            index < self.vertices().len(),
        ensures
            r == self.vertices()[index as int],
    {
        self.vertices[index]
    }

    /// The vertex indices and polygon breaks, in order.
    pub fn iter_indices(&self) -> (r: &Vec<PolygonElement<usize>>)
        ensures
            r@ == self.elements(),
    {
        &self.elements
    }
}

/// The vertices of the first `k` polygons are no more than all vertices.
pub proof fn lemma_flatten_prefix_len(polygons: Seq<Seq<Coords>>, k: int)
    requires
        0 <= k <= polygons.len(),
    ensures
        flatten_vertices(polygons.take(k)).len() <= flatten_vertices(polygons).len(),
        k < polygons.len() ==> flatten_vertices(polygons.take(k)).len() + polygons[k].len()
            <= flatten_vertices(polygons).len(),
    decreases polygons.len(),
{
    if k < polygons.len() {
        if k == polygons.len() - 1 {
            assert(polygons.take(k) =~= polygons.drop_last());
        } else {
            lemma_flatten_prefix_len(polygons.drop_last(), k);
            assert(polygons.drop_last().take(k) =~= polygons.take(k));
        }
    } else {
        assert(polygons.take(k) =~= polygons);
    }
}

} // verus!
