use vstd::prelude::*;

verus! {

/// A list of triangles represented as triplets of vertices of type `V`
pub trait List<V> {
    /// The triangles held, oldest first.
    spec fn triangles(&self) -> Seq<(V, V, V)>;

    /// Values held before the first triangle that belong to no triangle
    /// (only a flat vertex list not built of whole triangles has any).
    spec fn leading(&self) -> Seq<V>;

    /// Add a new triangle to the list
    fn push(&mut self, v0: V, v1: V, v2: V)
        ensures
            final(self).triangles() == old(self).triangles().push((v0, v1, v2)),
            final(self).leading() == old(self).leading();

    /// The number of triangles in the list
    fn len(&self) -> (r: usize)
        ensures
            r == self.triangles().len();

    /// Remove newly added triangles until there are only `len` remaining
    fn truncate(&mut self, len: usize)
        ensures
            final(self).triangles() == if len < old(self).triangles().len() {
                old(self).triangles().take(len as int)
            } else {
                old(self).triangles()
            },
            final(self).leading() == old(self).leading();

    /// Returns `true` if the collection contains no triangles
    fn is_empty(&self) -> (r: bool)
        ensures
            r == (self.triangles().len() == 0),
    {
        self.len() == 0
    }
}

/// The triangles of a flat vertex list: each consecutive triple of vertices,
/// counted from the end, is one triangle; the vertices before them that
/// make no whole triple (a list not built by triangles) are no triangle.
pub open spec fn flat_triangles<V>(s: Seq<V>) -> Seq<(V, V, V)> {
    let r = s.len() % 3;
    Seq::new(s.len() / 3, |i: int| (s[r + 3 * i], s[r + 3 * i + 1], s[r + 3 * i + 2]))
}

impl<V> List<V> for Vec<V> {
    open spec fn triangles(&self) -> Seq<(V, V, V)> {
        flat_triangles(self@)
    }

    open spec fn leading(&self) -> Seq<V> {
        self@.take((self@.len() % 3) as int)
    }


    fn push(&mut self, v0: V, v1: V, v2: V) {
        let ghost pre = self@;
        Vec::push(self, v0);
        Vec::push(self, v1);
        Vec::push(self, v2);
        assert(self@ == pre + seq![v0, v1, v2]);
        proof {
            let s = self@;
            assert(s.len() % 3 == pre.len() % 3 && s.len() / 3 == pre.len() / 3 + 1) by (nonlinear_arith)
                requires
                    s.len() == pre.len() + 3,
            ;
            let r = pre.len() % 3;
            assert(pre.len() == r + 3 * (pre.len() / 3));
            assert(flat_triangles(s) =~= flat_triangles(pre).push((v0, v1, v2)));
        }
    }

    fn len(&self) -> (r: usize) {
        Vec::len(self) / 3
    }

    fn truncate(&mut self, len: usize) {
        let ghost pre = self@;
        let n = Vec::len(self);
        if len < n / 3 {
            proof {
                assert(n == n % 3 + 3 * (n / 3));
            }
            let keep = n % 3 + 3 * len;
            Vec::truncate(self, keep);
            proof {
                let s = self@;
                let r = n % 3;
                assert(s.len() % 3 == r && s.len() / 3 == len) by (nonlinear_arith)
                    requires
                        s.len() == r + 3 * len,
                        0 <= r < 3,
                ;
                assert(flat_triangles(s) =~= flat_triangles(pre).take(len as int));
            }
        }
    }
}

/// A flat vertex list is fixed by its leading values and its triangles:
/// it is the leading values followed by the triangles' vertices in order.
pub proof fn lemma_flat_list_fixed<V>(a: Seq<V>, b: Seq<V>)
    requires
        a.take((a.len() % 3) as int) == b.take((b.len() % 3) as int),
        flat_triangles(a) == flat_triangles(b),
    ensures
        a == b,
{
    let ra = a.len() % 3;
    let rb = b.len() % 3;
    assert(a.take(ra as int).len() == ra);
    assert(b.take(rb as int).len() == rb);
    assert(ra == rb);
    assert(a.len() / 3 == flat_triangles(a).len());
    assert(b.len() / 3 == flat_triangles(b).len());
    assert(a.len() == ra + 3 * (a.len() / 3));
    assert(b.len() == rb + 3 * (b.len() / 3));
    assert(a.len() == b.len());
    assert forall|j: int| 0 <= j < a.len() implies a[j] == b[j] by {
        if j < ra {
            assert(a.take(ra as int)[j] == b.take(rb as int)[j]);
        } else {
            let i = (j - ra) / 3;
            let o = (j - ra) % 3;
            assert(j == ra + 3 * i + o);
            assert(0 <= i < a.len() / 3);
            assert(flat_triangles(a)[i] == flat_triangles(b)[i]);
            if o == 0 {
                assert(a[j] == flat_triangles(a)[i].0);
            } else if o == 1 {
                assert(a[j] == flat_triangles(a)[i].1);
            } else {
                assert(a[j] == flat_triangles(a)[i].2);
            }
        }
    }
    assert(a =~= b);
}

/// Appending three vertices to a flat vertex list appends one triangle and
/// keeps the leading values; with [lemma_flat_list_fixed], a flat list whose
/// triangles grew by one triangle and whose leading values stayed is the
/// old list followed by the triangle's three vertices.
pub proof fn lemma_flat_push<V>(a: Seq<V>, v0: V, v1: V, v2: V)
    ensures
        flat_triangles(a + seq![v0, v1, v2]) == flat_triangles(a).push((v0, v1, v2)),
        (a + seq![v0, v1, v2]).take(((a + seq![v0, v1, v2]).len() % 3) as int) == a.take((a.len() % 3) as int),
{
    let s = a + seq![v0, v1, v2];
    assert(s.len() % 3 == a.len() % 3 && s.len() / 3 == a.len() / 3 + 1) by (nonlinear_arith)
        requires
            s.len() == a.len() + 3,
    ;
    let r = a.len() % 3;
    assert(a.len() == r + 3 * (a.len() / 3));
    assert(flat_triangles(s) =~= flat_triangles(a).push((v0, v1, v2)));
    assert(s.take(r as int) =~= a.take(r as int));
}

/// The triangles of a list of vertex triples.
pub open spec fn array_triangles<V>(s: Seq<[V; 3]>) -> Seq<(V, V, V)> {
    s.map_values(|a: [V; 3]| (a@[0], a@[1], a@[2]))
}

impl<V> List<V> for Vec<[V; 3]> {
    open spec fn triangles(&self) -> Seq<(V, V, V)> {
        array_triangles(self@)
    }

    open spec fn leading(&self) -> Seq<V> {
        Seq::empty()
    }


    fn push(&mut self, v0: V, v1: V, v2: V) {
        let ghost pre = self@;
        let a = [v0, v1, v2];
        assert(a@ == seq![v0, v1, v2]);
        Vec::push(self, a);
        assert(array_triangles(self@) =~= array_triangles(pre).push((v0, v1, v2)));
    }

    fn len(&self) -> (r: usize) {
        Vec::len(self)
    }

    fn truncate(&mut self, len: usize) {
        let ghost pre = self@;
        Vec::truncate(self, len);
        assert(array_triangles(self@) =~= if len < pre.len() {
            array_triangles(pre).take(len as int)
        } else {
            array_triangles(pre)
        });
    }
}

impl<V> List<V> for Vec<(V, V, V)> {
    open spec fn triangles(&self) -> Seq<(V, V, V)> {
        self@
    }

    open spec fn leading(&self) -> Seq<V> {
        Seq::empty()
    }


    fn push(&mut self, v0: V, v1: V, v2: V) {
        Vec::push(self, (v0, v1, v2));
    }

    fn len(&self) -> (r: usize) {
        Vec::len(self)
    }

    fn truncate(&mut self, len: usize) {
        Vec::truncate(self, len);
    }
}

impl<'a, V, L: List<V>> List<V> for &'a mut L {
    open spec fn triangles(&self) -> Seq<(V, V, V)> {
        (**self).triangles()
    }

    open spec fn leading(&self) -> Seq<V> {
        (**self).leading()
    }


    fn push(&mut self, v0: V, v1: V, v2: V) {
        (**self).push(v0, v1, v2)
    }

    fn len(&self) -> (r: usize) {
        (**self).len()
    }

    fn truncate(&mut self, len: usize) {
        (**self).truncate(len)
    }
}

} // verus!
