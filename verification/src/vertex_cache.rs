//! Bookkeeping of the triangle reordering for the post-transform vertex
//! cache (Forsyth's greedy method).
//!
//! Triangles are emitted one at a time.  A cache of the 32 most recently
//! used vertices is kept in order, most recent first: emitting a triangle
//! puts its three corners on top and pushes the others down, and what falls
//! past 32 entries leaves.  After each emission the caller rescores the
//! vertices now in the cache and the triangles still to emit that touch
//! them; the scores themselves are floating point and stay with the caller,
//! which also picks the next triangle.  Every emitted triangle keeps its
//! corners in their order, so the result reorders whole triangles only.
use vstd::prelude::*;
use crate::seq_facts::lemma_index_seq_count;

verus! {

/// Entries of the vertex cache.
pub const CACHE_SIZE: usize = 32;

/// Most vertices of a reordered mesh: no GPU vertex buffer holds more.
pub const MAX_CACHE_VERTICES: usize = 0x8000_0000;

/// Whole triangles of an index list.
pub open spec fn triangle_count(indices: Seq<u32>) -> nat {
    indices.len() / 3
}

/// The three corners of triangle `t`.
pub open spec fn corners(indices: Seq<u32>, t: int) -> Seq<u32> {
    seq![indices[3 * t], indices[3 * t + 1], indices[3 * t + 2]]
}

/// Triangle `t` once for each of its first `k` corners that is vertex `v`.
pub open spec fn corner_hits(indices: Seq<u32>, v: u32, t: int, k: nat) -> Seq<u32>
    decreases k,
{
    if k == 0 {
        Seq::empty()
    } else {
        let prev = corner_hits(indices, v, t, (k - 1) as nat);
        if indices[3 * t + k - 1] == v {
            prev.push(t as u32)
        } else {
            prev
        }
    }
}

/// The triangles among the first `n` with a corner at `v`, once per such
/// corner, in order.
pub open spec fn vertex_triangles_upto(indices: Seq<u32>, v: u32, n: nat) -> Seq<u32>
    decreases n,
{
    if n == 0 {
        Seq::empty()
    } else {
        vertex_triangles_upto(indices, v, (n - 1) as nat) + corner_hits(indices, v, n - 1, 3)
    }
}

/// The triangles with a corner at `v`, once per such corner, in order.
pub open spec fn vertex_triangles(indices: Seq<u32>, v: u32) -> Seq<u32> {
    vertex_triangles_upto(indices, v, triangle_count(indices))
}

/// How many entries of `tris` name a triangle not yet emitted.
pub open spec fn unemitted_count(tris: Seq<u32>, emitted: Seq<bool>) -> nat
    decreases tris.len(),
{
    if tris.len() == 0 {
        0
    } else {
        unemitted_count(tris.drop_last(), emitted) + if emitted[tris.last() as int] {
            0nat
        } else {
            1nat
        }
    }
}

/// The corners of the triangles of `order`, in that order.
pub open spec fn reordered(indices: Seq<u32>, order: Seq<u32>) -> Seq<u32>
    decreases order.len(),
{
    if order.len() == 0 {
        Seq::empty()
    } else {
        reordered(indices, order.drop_last()) + corners(indices, order.last() as int)
    }
}

/// The entries of `cache` that are not corners of `tri`, in order.
pub open spec fn kept(cache: Seq<u32>, tri: Seq<u32>) -> Seq<u32>
    decreases cache.len(),
{
    if cache.len() == 0 {
        Seq::empty()
    } else {
        let prev = kept(cache.drop_last(), tri);
        if tri.contains(cache.last()) {
            prev
        } else {
            prev.push(cache.last())
        }
    }
}

/// The cache after emitting a triangle with corners `tri`: its corners on
/// top, then the other entries in order, cut at the cache size.
pub open spec fn cache_after(cache: Seq<u32>, tri: Seq<u32>) -> Seq<u32> {
    let full = tri + kept(cache, tri);
    if full.len() > CACHE_SIZE {
        full.take(CACHE_SIZE as int)
    } else {
        full
    }
}

/// Entries strictly increase.
pub open spec fn strictly_increasing(s: Seq<u32>) -> bool {
    forall|i: int, j: int| 0 <= i < j < s.len() ==> s[i] < s[j]
}

/// Reordering state of one index list.
pub struct TriangleOrder {
    indices: Vec<u32>,
    vertex_count: usize,
    vertex_tris: Vec<Vec<u32>>,
    emitted: Vec<bool>,
    order: Ghost<Seq<u32>>,
    cache: Vec<u32>,
    out: Vec<u32>,
}

/// Abstract state: the input indices and vertex count, which triangles
/// were emitted and in what order, the vertex cache (most recent first),
/// and the reordered indices so far.
pub struct TriangleOrderView {
    pub indices: Seq<u32>,
    pub vertex_count: nat,
    pub emitted: Seq<bool>,
    pub order: Seq<u32>,
    pub cache: Seq<u32>,
    pub out: Seq<u32>,
}

impl View for TriangleOrder {
    type V = TriangleOrderView;

    closed spec fn view(&self) -> TriangleOrderView {
        TriangleOrderView {
            indices: self.indices@,
            vertex_count: self.vertex_count as nat,
            emitted: self.emitted@,
            order: self.order@,
            cache: self.cache@,
            out: self.out@,
        }
    }
}

impl TriangleOrderView {
    /// Every corner names a vertex; `emitted` marks exactly the triangles of
    /// `order`, each emitted once; the output is the corners of `order`; the cache holds at most
    /// 32 vertices.
    pub open spec fn wf(self) -> bool {
        &&& self.indices.len() <= u32::MAX
        &&& self.vertex_count <= MAX_CACHE_VERTICES
        &&& forall|i: int| 0 <= i < 3 * triangle_count(self.indices) ==> #[trigger] self.indices[i] < self.vertex_count
        &&& self.emitted.len() == triangle_count(self.indices)
        &&& forall|i: int| 0 <= i < self.order.len() ==> #[trigger] self.order[i] < triangle_count(self.indices)
        &&& forall|t: int| 0 <= t < self.emitted.len() ==> (#[trigger] self.emitted[t] <==> self.order.contains(t as u32))
        &&& self.order.no_duplicates()
        &&& self.out == reordered(self.indices, self.order)
        &&& self.cache.len() <= CACHE_SIZE
        &&& forall|i: int| 0 <= i < self.cache.len() ==> #[trigger] self.cache[i] < self.vertex_count
    }
}

proof fn lemma_corner_hits(indices: Seq<u32>, v: u32, t: int, k: nat)
    ensures
        corner_hits(indices, v, t, k).len() <= k,
        forall|i: int| 0 <= i < corner_hits(indices, v, t, k).len() ==> #[trigger] corner_hits(indices, v, t, k)[i] == t as u32,
    decreases k,
{
    if k > 0 {
        lemma_corner_hits(indices, v, t, (k - 1) as nat);
    }
}

/// The triangle lists of a vertex name triangles below `n`, at most three
/// entries per triangle.
proof fn lemma_vertex_triangles_upto(indices: Seq<u32>, v: u32, n: nat)
    requires
        n <= u32::MAX,
    ensures
        vertex_triangles_upto(indices, v, n).len() <= 3 * n,
        forall|i: int| 0 <= i < vertex_triangles_upto(indices, v, n).len() ==> #[trigger] vertex_triangles_upto(indices, v, n)[i] < n,
    decreases n,
{
    if n > 0 {
        lemma_vertex_triangles_upto(indices, v, (n - 1) as nat);
        lemma_corner_hits(indices, v, n - 1, 3);
        let prev = vertex_triangles_upto(indices, v, (n - 1) as nat);
        let hits = corner_hits(indices, v, n - 1, 3);
        assert forall|i: int| 0 <= i < vertex_triangles_upto(indices, v, n).len() implies #[trigger] vertex_triangles_upto(indices, v, n)[i] < n by {
            if i >= prev.len() {
                assert(vertex_triangles_upto(indices, v, n)[i] == hits[i - prev.len()]);
            } else {
                assert(vertex_triangles_upto(indices, v, n)[i] == prev[i]);
            }
        }
    }
}

proof fn lemma_unemitted_count_bound(tris: Seq<u32>, emitted: Seq<bool>)
    ensures
        unemitted_count(tris, emitted) <= tris.len(),
    decreases tris.len(),
{
    if tris.len() > 0 {
        lemma_unemitted_count_bound(tris.drop_last(), emitted);
    }
}

proof fn lemma_kept_from_cache(cache: Seq<u32>, tri: Seq<u32>)
    ensures
        kept(cache, tri).len() <= cache.len(),
        forall|i: int| 0 <= i < kept(cache, tri).len() ==> cache.contains(#[trigger] kept(cache, tri)[i]),
    decreases cache.len(),
{
    if cache.len() > 0 {
        let prev = cache.drop_last();
        lemma_kept_from_cache(prev, tri);
        assert forall|i: int| 0 <= i < kept(cache, tri).len() implies cache.contains(#[trigger] kept(cache, tri)[i]) by {
            if i < kept(prev, tri).len() {
                assert(kept(cache, tri)[i] == kept(prev, tri)[i]);
                let k = choose|k: int| 0 <= k < prev.len() && prev[k] == kept(prev, tri)[i];
                assert(cache[k] == prev[k]);
            } else {
                assert(kept(cache, tri)[i] == cache[cache.len() - 1]);
            }
        }
    }
}

/// Triangle `x` is still to emit and has a corner at a vertex of `vs`.
pub open spec fn touched_by(v: TriangleOrderView, vs: Seq<u32>, x: u32) -> bool {
    &&& x < triangle_count(v.indices)
    &&& !v.emitted[x as int]
    &&& exists|j: int| 0 <= j < vs.len() && #[trigger] vertex_triangles(v.indices, vs[j]).contains(x)
}

proof fn lemma_touched_by_same_vertices(v: TriangleOrderView, a: Seq<u32>, b: Seq<u32>, x: u32)
    requires
        forall|y: u32| #[trigger] a.contains(y) <==> b.contains(y),
    ensures
        touched_by(v, a, x) <==> touched_by(v, b, x),
{
    if touched_by(v, a, x) {
        let j = choose|j: int| 0 <= j < a.len() && #[trigger] vertex_triangles(v.indices, a[j]).contains(x);
        assert(a.contains(a[j]));
        assert(b.contains(a[j]));
        let k = choose|k: int| 0 <= k < b.len() && b[k] == a[j];
        assert(vertex_triangles(v.indices, b[k]).contains(x));
    }
    if touched_by(v, b, x) {
        let j = choose|j: int| 0 <= j < b.len() && #[trigger] vertex_triangles(v.indices, b[j]).contains(x);
        assert(b.contains(b[j]));
        assert(a.contains(b[j]));
        let k = choose|k: int| 0 <= k < a.len() && a[k] == b[j];
        assert(vertex_triangles(v.indices, a[k]).contains(x));
    }
}

/// Add `x` to a strictly increasing list, unless it is there already.
fn insert_sorted_unique(list: &mut Vec<u32>, x: u32)
    requires
        strictly_increasing(old(list)@),
    ensures
        strictly_increasing(final(list)@),
        forall|y: u32| #[trigger] final(list)@.contains(y) <==> (old(list)@.contains(y) || y == x),
{
    let mut i: usize = 0;
    while i < list.len() && list[i] < x
        invariant
            i <= list@.len(),
            strictly_increasing(list@),
            forall|j: int| 0 <= j < i ==> list@[j] < x,
        decreases list@.len() - i,
    {
        i = i + 1;
    }
    if i < list.len() && list[i] == x {
        return;
    }
    let ghost before = list@;
    list.insert(i, x);
    proof {
        assert(list@ == before.insert(i as int, x));
        assert forall|a: int, b: int| 0 <= a < b < list@.len() implies list@[a] < list@[b] by {
            if b < i {
            } else if b == i {
            } else if a < i {
                assert(list@[b] == before[b - 1]);
            } else if a == i {
                assert(list@[b] == before[b - 1]);
                assert(before[i as int] > x);
            } else {
                assert(list@[a] == before[a - 1]);
                assert(list@[b] == before[b - 1]);
            }
        }
        assert forall|y: u32| #[trigger] list@.contains(y) <==> (before.contains(y) || y == x) by {
            if list@.contains(y) {
                let k = choose|k: int| 0 <= k < list@.len() && list@[k] == y;
                if k < i {
                    assert(before[k] == y);
                } else if k > i {
                    assert(before[k - 1] == y);
                }
            }
            if before.contains(y) {
                let k = choose|k: int| 0 <= k < before.len() && before[k] == y;
                if k < i {
                    assert(list@[k] == y);
                } else {
                    assert(list@[k + 1] == y);
                }
            }
            if y == x {
                assert(list@[i as int] == y);
            }
        }
    }
}

impl TriangleOrder {
    /// The per-vertex triangle lists match the indices.
    pub closed spec fn inv(&self) -> bool {
        &&& self@.wf()
        &&& self.vertex_tris@.len() == self.vertex_count
        &&& forall|v: int| 0 <= v < self.vertex_count ==> #[trigger] self.vertex_tris@[v]@ == vertex_triangles(self.indices@, v as u32)
    }

    /// Start reordering `indices` over `vertex_count` vertices: nothing
    /// emitted, the cache empty.
    pub fn new(indices: &[u32], vertex_count: usize) -> (s: Self)
        requires
            indices@.len() <= u32::MAX,
            vertex_count <= MAX_CACHE_VERTICES,
            forall|i: int| 0 <= i < 3 * triangle_count(indices@) ==> #[trigger] indices@[i] < vertex_count,
        ensures
            s.inv(),
            s@ == (TriangleOrderView {
                indices: indices@,
                vertex_count: vertex_count as nat,
                emitted: Seq::new(triangle_count(indices@), |t: int| false),
                order: Seq::empty(),
                cache: Seq::empty(),
                out: Seq::empty(),
            }),
    {
        let tc = indices.len() / 3;
        let mut vertex_tris: Vec<Vec<u32>> = Vec::new();
        let mut v: usize = 0;
        while v < vertex_count
            invariant
                v <= vertex_count,
                vertex_tris@.len() == v,
                forall|j: int| 0 <= j < v ==> #[trigger] vertex_tris@[j]@ == Seq::<u32>::empty(),
            decreases vertex_count - v,
        {
            vertex_tris.push(Vec::new());
            v = v + 1;
        }
        let mut t: usize = 0;
        while t < tc
            invariant
                tc == triangle_count(indices@),
                t <= tc,
                indices@.len() <= u32::MAX,
                vertex_count <= MAX_CACHE_VERTICES,
                forall|i: int| 0 <= i < 3 * triangle_count(indices@) ==> #[trigger] indices@[i] < vertex_count,
                vertex_tris@.len() == vertex_count,
                forall|j: int| 0 <= j < vertex_count ==> #[trigger] vertex_tris@[j]@ == vertex_triangles_upto(indices@, j as u32, t as nat),
            decreases tc - t,
        {
            let mut k: usize = 0;
            while k < 3
                invariant
                    tc == triangle_count(indices@),
                    t < tc,
                    k <= 3,
                    indices@.len() <= u32::MAX,
                    vertex_count <= MAX_CACHE_VERTICES,
                    forall|i: int| 0 <= i < 3 * triangle_count(indices@) ==> #[trigger] indices@[i] < vertex_count,
                    vertex_tris@.len() == vertex_count,
                    forall|j: int| 0 <= j < vertex_count ==> #[trigger] vertex_tris@[j]@ == vertex_triangles_upto(indices@, j as u32, t as nat) + corner_hits(indices@, j as u32, t as int, k as nat),
                decreases 3 - k,
            {
                let vi = indices[3 * t + k] as usize;
                let ghost before = vertex_tris@;
                vertex_tris[vi].push(t as u32);
                proof {
                    assert forall|j: int| 0 <= j < vertex_count implies #[trigger] vertex_tris@[j]@ == vertex_triangles_upto(indices@, j as u32, t as nat) + corner_hits(indices@, j as u32, t as int, (k + 1) as nat) by {
                        if j == vi as int {
                            assert((j as u32) == indices@[3 * t + k]);
                        } else {
                            assert(vertex_tris@[j] == before[j]);
                            assert((j as u32) != indices@[3 * t + k]);
                        }
                    }
                }
                k = k + 1;
            }
            proof {
                assert forall|j: int| 0 <= j < vertex_count implies #[trigger] vertex_tris@[j]@ == vertex_triangles_upto(indices@, j as u32, (t + 1) as nat) by {
                    assert(vertex_triangles_upto(indices@, j as u32, (t + 1) as nat) == vertex_triangles_upto(indices@, j as u32, t as nat) + corner_hits(indices@, j as u32, t as int, 3));
                }
            }
            t = t + 1;
        }
        let mut emitted: Vec<bool> = Vec::new();
        let mut i: usize = 0;
        while i < tc
            invariant
                i <= tc,
                emitted@ == Seq::new(i as nat, |t: int| false),
            decreases tc - i,
        {
            emitted.push(false);
            i = i + 1;
        }
        let mut copy: Vec<u32> = Vec::new();
        let mut i: usize = 0;
        while i < indices.len()
            invariant
                i <= indices@.len(),
                copy@ == indices@.take(i as int),
            decreases indices@.len() - i,
        {
            copy.push(indices[i]);
            i = i + 1;
        }
        assert(copy@ == indices@);
        let s = TriangleOrder {
            indices: copy,
            vertex_count,
            vertex_tris,
            emitted,
            order: Ghost(Seq::empty()),
            cache: Vec::new(),
            out: Vec::new(),
        };
        proof {
            assert(s@.out == reordered(s@.indices, s@.order));
        }
        s
    }
    /// Put the corners of a triangle on top of the cache.
    fn push_to_cache(&mut self, c0: u32, c1: u32, c2: u32)
        requires
            old(self).cache@.len() <= CACHE_SIZE,
        ensures
            final(self).cache@ == cache_after(old(self).cache@, seq![c0, c1, c2]),
            final(self).indices == old(self).indices,
            final(self).vertex_count == old(self).vertex_count,
            final(self).vertex_tris == old(self).vertex_tris,
            final(self).emitted == old(self).emitted,
            final(self).order == old(self).order,
            final(self).out == old(self).out,
    {
        let ghost tri = seq![c0, c1, c2];
        let mut top: Vec<u32> = Vec::new();
        top.push(c0);
        top.push(c1);
        top.push(c2);
        assert(top@ == tri + kept(self.cache@.take(0), tri));
        let mut i: usize = 0;
        while i < self.cache.len()
            invariant
                i <= self.cache@.len(),
                tri == seq![c0, c1, c2],
                top@ == tri + kept(self.cache@.take(i as int), tri),
            decreases self.cache@.len() - i,
        {
            let e = self.cache[i];
            proof {
                assert(self.cache@.take(i as int + 1).drop_last() == self.cache@.take(i as int));
                assert(tri.contains(e) <==> (e == c0 || e == c1 || e == c2)) by {
                    if e == c0 {
                        assert(tri[0] == e);
                    }
                    if e == c1 {
                        assert(tri[1] == e);
                    }
                    if e == c2 {
                        assert(tri[2] == e);
                    }
                }
            }
            if e != c0 && e != c1 && e != c2 {
                top.push(e);
            }
            i = i + 1;
        }
        assert(self.cache@.take(i as int) == self.cache@);
        top.truncate(CACHE_SIZE);
        self.cache = top;
    }

    /// The cached vertices, increasing, each once.
    fn cache_vertices(&self) -> (vs: Vec<u32>)
        ensures
            strictly_increasing(vs@),
            forall|x: u32| #[trigger] vs@.contains(x) <==> self.cache@.contains(x),
    {
        let mut vs: Vec<u32> = Vec::new();
        let mut i: usize = 0;
        while i < self.cache.len()
            invariant
                i <= self.cache@.len(),
                strictly_increasing(vs@),
                forall|x: u32| #[trigger] vs@.contains(x) <==> self.cache@.take(i as int).contains(x),
            decreases self.cache@.len() - i,
        {
            let ghost before = vs@;
            insert_sorted_unique(&mut vs, self.cache[i]);
            proof {
                let pre = self.cache@.take(i as int);
                let post = self.cache@.take(i as int + 1);
                assert forall|x: u32| #[trigger] vs@.contains(x) <==> post.contains(x) by {
                    if post.contains(x) {
                        let k = choose|k: int| 0 <= k < post.len() && post[k] == x;
                        if k < i {
                            assert(pre[k] == x);
                        }
                    }
                    if pre.contains(x) {
                        let k = choose|k: int| 0 <= k < pre.len() && pre[k] == x;
                        assert(post[k] == x);
                    }
                    if x == self.cache@[i as int] {
                        assert(post[i as int] == x);
                    }
                }
            }
            i = i + 1;
        }
        assert(self.cache@.take(i as int) == self.cache@);
        vs
    }

    /// The triangles still to emit with a corner at a vertex of `vs`,
    /// increasing, each once.
    fn touching_triangles(&self, vs: &Vec<u32>) -> (ts: Vec<u32>)
        requires
            self.inv(),
            forall|j: int| 0 <= j < vs@.len() ==> #[trigger] vs@[j] < self@.vertex_count,
        ensures
            strictly_increasing(ts@),
            forall|x: u32| #[trigger] ts@.contains(x) <==> touched_by(self@, vs@, x),
    {
        let ghost tc = triangle_count(self@.indices);
        let mut ts: Vec<u32> = Vec::new();
        let mut a: usize = 0;
        while a < vs.len()
            invariant
                self.inv(),
                tc == triangle_count(self@.indices),
                forall|j: int| 0 <= j < vs@.len() ==> #[trigger] vs@[j] < self@.vertex_count,
                a <= vs@.len(),
                strictly_increasing(ts@),
                forall|x: u32| #[trigger] ts@.contains(x) <==> touched_by(self@, vs@.take(a as int), x),
            decreases vs@.len() - a,
        {
            let v = vs[a] as usize;
            let list = &self.vertex_tris[v];
            let ghost vt = vertex_triangles(self@.indices, v as u32);
            proof {
                lemma_vertex_triangles_upto(self@.indices, v as u32, tc);
                assert(list@ == vt);
            }
            let mut b: usize = 0;
            while b < list.len()
                invariant
                    self.inv(),
                    tc == triangle_count(self@.indices),
                    list@ == vt,
                    vt == vertex_triangles(self@.indices, vs@[a as int]),
                    forall|j: int| 0 <= j < vt.len() ==> #[trigger] vt[j] < tc,
                    a < vs@.len(),
                    b <= list@.len(),
                    strictly_increasing(ts@),
                    forall|x: u32| #[trigger] ts@.contains(x) <==> (touched_by(self@, vs@.take(a as int), x) || (
                        x < tc && !self@.emitted[x as int] && vt.take(b as int).contains(x))),
                decreases list@.len() - b,
            {
                let x = list[b];
                if !self.emitted[x as usize] {
                    insert_sorted_unique(&mut ts, x);
                }
                proof {
                    let pre = vt.take(b as int);
                    let post = vt.take(b as int + 1);
                    assert forall|y: u32| #[trigger] ts@.contains(y) <==> (touched_by(self@, vs@.take(a as int), y) || (
                        y < tc && !self@.emitted[y as int] && post.contains(y))) by {
                        if post.contains(y) {
                            let k = choose|k: int| 0 <= k < post.len() && post[k] == y;
                            if k < b {
                                assert(pre[k] == y);
                            }
                        }
                        if pre.contains(y) {
                            let k = choose|k: int| 0 <= k < pre.len() && pre[k] == y;
                            assert(post[k] == y);
                        }
                        if y == x {
                            assert(post[b as int] == y);
                        }
                    }
                }
                b = b + 1;
            }
            proof {
                assert(vt.take(b as int) == vt);
                let pre = vs@.take(a as int);
                let post = vs@.take(a as int + 1);
                assert forall|x: u32| #[trigger] ts@.contains(x) <==> touched_by(self@, post, x) by {
                    if touched_by(self@, post, x) {
                        let j = choose|j: int| 0 <= j < post.len() && #[trigger] vertex_triangles(self@.indices, post[j]).contains(x);
                        if j < a {
                            assert(pre[j] == post[j]);
                            assert(touched_by(self@, pre, x));
                        } else {
                            assert(post[j] == vs@[a as int]);
                        }
                    }
                    if touched_by(self@, pre, x) {
                        let j = choose|j: int| 0 <= j < pre.len() && #[trigger] vertex_triangles(self@.indices, pre[j]).contains(x);
                        assert(post[j] == pre[j]);
                        assert(touched_by(self@, post, x));
                    }
                    if x < tc && !self@.emitted[x as int] && vt.contains(x) {
                        assert(post[a as int] == vs@[a as int]);
                        assert(vertex_triangles(self@.indices, post[a as int]).contains(x));
                        assert(touched_by(self@, post, x));
                    }
                }
            }
            a = a + 1;
        }
        assert(vs@.take(a as int) == vs@);
        ts
    }

    /// Emit triangle `t`, still to emit: mark it, append its corners to the
    /// output, and put them on top of the cache.  Returns the cached
    /// vertices and the triangles still to emit that touch them.
    fn emit_triangle(&mut self, t: usize) -> (r: (Vec<u32>, Vec<u32>))
        requires
            old(self).inv(),
            t < triangle_count(old(self)@.indices),
            !old(self)@.emitted[t as int],
        ensures
            final(self).inv(),
            final(self)@ == (TriangleOrderView {
                emitted: old(self)@.emitted.update(t as int, true),
                order: old(self)@.order.push(t as u32),
                cache: cache_after(old(self)@.cache, corners(old(self)@.indices, t as int)),
                out: old(self)@.out + corners(old(self)@.indices, t as int),
                ..old(self)@
            }),
            strictly_increasing(r.0@),
            forall|x: u32| #[trigger] r.0@.contains(x) <==> final(self)@.cache.contains(x),
            strictly_increasing(r.1@),
            forall|x: u32| #[trigger] r.1@.contains(x) <==> touched_by(final(self)@, final(self)@.cache, x),
    {
        let ghost old_view = self@;
        let ghost tri = corners(self@.indices, t as int);
        let c0 = self.indices[3 * t];
        let c1 = self.indices[3 * t + 1];
        let c2 = self.indices[3 * t + 2];
        self.emitted.set(t, true);
        self.order = Ghost(self.order@.push(t as u32));
        self.out.push(c0);
        self.out.push(c1);
        self.out.push(c2);
        self.push_to_cache(c0, c1, c2);
        proof {
            let nv = self@;
            assert forall|a: int, b: int| 0 <= a < b < nv.order.len() implies nv.order[a] != nv.order[b] by {
                if b == nv.order.len() - 1 {
                    assert(old_view.order[a] == nv.order[a]);
                    assert(!old_view.order.contains(t as u32));
                }
            }
            assert(seq![c0, c1, c2] == tri);
            assert(nv.out == old_view.out + tri);
            assert(nv.order.drop_last() == old_view.order);
            assert(nv.out == reordered(nv.indices, nv.order));
            assert forall|u: int| 0 <= u < nv.emitted.len() implies (#[trigger] nv.emitted[u] <==> nv.order.contains(u as u32)) by {
                if u == t {
                    assert(nv.order[nv.order.len() - 1] == t as u32);
                } else {
                    if nv.order.contains(u as u32) {
                        let k = choose|k: int| 0 <= k < nv.order.len() && nv.order[k] == u as u32;
                        assert(k < old_view.order.len());
                        assert(old_view.order[k] == u as u32);
                    }
                    if old_view.order.contains(u as u32) {
                        let k = choose|k: int| 0 <= k < old_view.order.len() && old_view.order[k] == u as u32;
                        assert(nv.order[k] == u as u32);
                    }
                }
            }
            assert forall|i: int| 0 <= i < nv.order.len() implies #[trigger] nv.order[i] < triangle_count(nv.indices) by {
                if i < old_view.order.len() {
                    assert(nv.order[i] == old_view.order[i]);
                }
            }
            lemma_kept_from_cache(old_view.cache, tri);
            let full = tri + kept(old_view.cache, tri);
            assert forall|i: int| 0 <= i < nv.cache.len() implies #[trigger] nv.cache[i] < nv.vertex_count by {
                assert(nv.cache[i] == full[i]);
                if i >= 3 {
                    assert(full[i] == kept(old_view.cache, tri)[i - 3]);
                    let k = choose|k: int| 0 <= k < old_view.cache.len() && old_view.cache[k] == kept(old_view.cache, tri)[i - 3];
                    assert(old_view.cache[k] < old_view.vertex_count);
                } else {
                    assert(full[i] == old_view.indices[3 * t + i]);
                }
            }
        }
        let vs = self.cache_vertices();
        proof {
            assert forall|j: int| 0 <= j < vs@.len() implies #[trigger] vs@[j] < self@.vertex_count by {
                assert(vs@.contains(vs@[j]));
                assert(self@.cache.contains(vs@[j]));
                let k = choose|k: int| 0 <= k < self@.cache.len() && self@.cache[k] == vs@[j];
            }
        }
        let ts = self.touching_triangles(&vs);
        proof {
            assert forall|x: u32| #[trigger] ts@.contains(x) <==> touched_by(self@, self@.cache, x) by {
                lemma_touched_by_same_vertices(self@, vs@, self@.cache, x);
            }
        }
        (vs, ts)
    }

    /// Emit the next triangle: `pick` when it names a triangle still to
    /// emit, else the first triangle still to emit.  Its corners are appended
    /// to the output and put on top of the cache.  Returns the triangle
    /// emitted and what the caller rescores: the cached vertices, and the
    /// triangles still to emit that touch them, each list increasing and
    /// without repeats.
    pub fn emit(&mut self, pick: usize) -> (r: (usize, Vec<u32>, Vec<u32>))
        requires
            old(self).inv(),
            old(self)@.order.len() < triangle_count(old(self)@.indices),
        ensures
            final(self).inv(),
            r.0 < triangle_count(old(self)@.indices),
            !old(self)@.emitted[r.0 as int],
            pick < triangle_count(old(self)@.indices) && !old(self)@.emitted[pick as int] ==> r.0 == pick,
            !(pick < triangle_count(old(self)@.indices) && !old(self)@.emitted[pick as int]) ==> forall|u: int|
                0 <= u < r.0 ==> #[trigger] old(self)@.emitted[u],
            final(self)@ == (TriangleOrderView {
                emitted: old(self)@.emitted.update(r.0 as int, true),
                order: old(self)@.order.push(r.0 as u32),
                cache: cache_after(old(self)@.cache, corners(old(self)@.indices, r.0 as int)),
                out: old(self)@.out + corners(old(self)@.indices, r.0 as int),
                ..old(self)@
            }),
            strictly_increasing(r.1@),
            forall|x: u32| #[trigger] r.1@.contains(x) <==> final(self)@.cache.contains(x),
            strictly_increasing(r.2@),
            forall|x: u32| #[trigger] r.2@.contains(x) <==> touched_by(final(self)@, final(self)@.cache, x),
    {
        let tc = self.indices.len() / 3;
        let t = if pick < tc && !self.emitted[pick] {
            pick
        } else {
            let mut u: usize = 0;
            while u < tc && self.emitted[u]
                invariant
                    tc == triangle_count(self@.indices),
                    self@.emitted.len() == tc,
                    u <= tc,
                    forall|v: int| 0 <= v < u ==> #[trigger] self@.emitted[v],
                decreases tc - u,
            {
                u = u + 1;
            }
            proof {
                if u >= tc {
                    assert forall|v: u32| v < tc implies self@.order.contains(v) by {
                        assert(self@.emitted[v as int]);
                    }
                    lemma_index_seq_count(self@.order, tc as nat);
                }
            }
            u
        };
        let (vs, ts) = self.emit_triangle(t);
        (t, vs, ts)
    }

    /// Whole triangles of the input.
    pub fn triangle_count(&self) -> (n: usize)
        ensures
            n == triangle_count(self@.indices),
    {
        self.indices.len() / 3
    }

    /// The corners of triangle `t`.
    pub fn corners_of(&self, t: usize) -> (c: (u32, u32, u32))
        requires
            self.inv(),
            t < triangle_count(self@.indices),
        ensures
            seq![c.0, c.1, c.2] == corners(self@.indices, t as int),
    {
        (self.indices[3 * t], self.indices[3 * t + 1], self.indices[3 * t + 2])
    }

    /// Whether triangle `t` was emitted.
    pub fn is_emitted(&self, t: usize) -> (e: bool)
        requires
            self.inv(),
            t < triangle_count(self@.indices),
        ensures
            e == self@.emitted[t as int],
    {
        self.emitted[t]
    }

    /// How many indices were emitted so far.
    pub fn emitted_len(&self) -> (n: usize)
        ensures
            n == self@.out.len(),
    {
        self.out.len()
    }

    /// How many corners of vertex `v` belong to triangles not yet emitted.
    pub fn unemitted_triangles_at(&self, v: usize) -> (n: u32)
        requires
            self.inv(),
            v < self@.vertex_count,
        ensures
            n == unemitted_count(vertex_triangles(self@.indices, v as u32), self@.emitted),
    {
        let ghost all = vertex_triangles(self@.indices, v as u32);
        let list = &self.vertex_tris[v];
        proof {
            lemma_vertex_triangles_upto(self@.indices, v as u32, triangle_count(self@.indices));
            assert(list@ == all);
        }
        let mut n: u32 = 0;
        let mut i: usize = 0;
        while i < list.len()
            invariant
                list@ == all,
                all == vertex_triangles(self@.indices, v as u32),
                all.len() <= 3 * triangle_count(self@.indices),
                forall|j: int| 0 <= j < all.len() ==> #[trigger] all[j] < triangle_count(self@.indices),
                self.emitted@.len() == triangle_count(self@.indices),
                self@.indices.len() <= u32::MAX,
                i <= list@.len(),
                n == unemitted_count(all.take(i as int), self@.emitted),
            decreases list@.len() - i,
        {
            proof {
                assert(all.take(i as int + 1).drop_last() == all.take(i as int));
                lemma_unemitted_count_bound(all.take(i as int), self@.emitted);
            }
            if !self.emitted[list[i] as usize] {
                n = n + 1;
            }
            i = i + 1;
        }
        assert(all.take(i as int) == all);
        n
    }

    /// Position of vertex `v` in the cache, most recent first; the cache
    /// size when it is not cached.
    pub fn cache_position(&self, v: u32) -> (p: usize)
        requires
            self.inv(),
        ensures
            p < self@.cache.len() ==> self@.cache[p as int] == v && forall|j: int| 0 <= j < p ==> self@.cache[j] != v,
            p >= self@.cache.len() ==> p == CACHE_SIZE && !self@.cache.contains(v),
    {
        let mut i: usize = 0;
        while i < self.cache.len()
            invariant
                i <= self.cache@.len(),
                self.cache@.len() <= CACHE_SIZE,
                forall|j: int| 0 <= j < i ==> self.cache@[j] != v,
            decreases self.cache@.len() - i,
        {
            if self.cache[i] == v {
                return i;
            }
            i = i + 1;
        }
        CACHE_SIZE
    }

    /// The reordered indices, once every triangle was emitted: the
    /// triangles in the order emitted, each once, then the trailing indices
    /// that do not fill a triangle, unchanged.  As many indices as the input.
    pub fn into_indices(self) -> (out: Vec<u32>)
        requires
            self.inv(),
            self@.order.len() == triangle_count(self@.indices),
        ensures
            out@ == reordered(self@.indices, self@.order) + self@.indices.subrange(
                3 * triangle_count(self@.indices) as int,
                self@.indices.len() as int,
            ),
            out@.len() == self@.indices.len(),
            forall|t: u32| t < triangle_count(self@.indices) ==> #[trigger] self@.order.contains(t),
            is_triangle_reordering(self@.indices, out@),
    {
        let ghost v = self@;
        let mut out = self.out;
        let len = self.indices.len();
        let mut i: usize = 3 * (len / 3);
        let ghost start = i as int;
        while i < len
            invariant
                len == v.indices.len(),
                start == 3 * triangle_count(v.indices),
                start <= i <= len,
                self.indices@ == v.indices,
                out@ == v.out + v.indices.subrange(start, i as int),
            decreases len - i,
        {
            out.push(self.indices[i]);
            proof {
                assert(v.indices.subrange(start, i as int + 1) == v.indices.subrange(start, i as int).push(v.indices[i as int]));
            }
            i = i + 1;
        }
        proof {
            lemma_complete_order_emits_every_triangle(v);
            assert(v.indices.subrange(start, len as int) == v.indices.subrange(start, i as int));
            lemma_complete_order_reorders_triangles(v);
        }
        out
    }
}

proof fn lemma_reordered_len(indices: Seq<u32>, order: Seq<u32>)
    ensures
        reordered(indices, order).len() == 3 * order.len(),
    decreases order.len(),
{
    if order.len() > 0 {
        lemma_reordered_len(indices, order.drop_last());
    }
}

/// Once as many distinct triangles were emitted as the input holds, every
/// triangle was emitted exactly once, and the output holds three indices
/// per triangle.
pub proof fn lemma_complete_order_emits_every_triangle(v: TriangleOrderView)
    requires
        v.wf(),
        v.order.len() == triangle_count(v.indices),
    ensures
        forall|t: u32| t < triangle_count(v.indices) ==> #[trigger] v.order.contains(t) && v.emitted[t as int],
        v.out.len() == 3 * triangle_count(v.indices),
{
    lemma_index_seq_count(v.order, triangle_count(v.indices));
    lemma_reordered_len(v.indices, v.order);
}

/// Indices `3 * j` to `3 * j + 2` of `s`: the `j`-th triangle of a list.
pub open spec fn chunk(s: Seq<u32>, j: int) -> Seq<u32> {
    s.subrange(3 * j, 3 * j + 3)
}

/// `order` names each of the first `n` triangles exactly once.
pub open spec fn is_triangle_permutation(order: Seq<u32>, n: nat) -> bool {
    &&& order.len() == n
    &&& order.no_duplicates()
    &&& forall|i: int| 0 <= i < order.len() ==> #[trigger] order[i] < n
}

/// `out` reorders the whole triangles of `indices`: as many indices, the
/// triangles of some permutation of the input's triangles first, each with
/// its corners in their order, then the trailing indices that do not fill a
/// triangle, unchanged.
pub open spec fn is_triangle_reordering(indices: Seq<u32>, out: Seq<u32>) -> bool {
    let tc = triangle_count(indices);
    &&& out.len() == indices.len()
    &&& out.subrange(3 * tc as int, out.len() as int) == indices.subrange(3 * tc as int, indices.len() as int)
    &&& exists|order: Seq<u32>|
        #[trigger] is_triangle_permutation(order, tc) && forall|j: int|
            0 <= j < tc ==> #[trigger] chunk(out, j) == corners(indices, order[j] as int)
}

proof fn lemma_reordered_chunks(indices: Seq<u32>, order: Seq<u32>)
    ensures
        reordered(indices, order).len() == 3 * order.len(),
        forall|j: int| 0 <= j < order.len() ==> #[trigger] chunk(reordered(indices, order), j) == corners(indices, order[j] as int),
    decreases order.len(),
{
    if order.len() > 0 {
        let prev = order.drop_last();
        lemma_reordered_chunks(indices, prev);
        let a = reordered(indices, prev);
        let b = corners(indices, order.last() as int);
        let r = reordered(indices, order);
        assert(r == a + b);
        assert forall|j: int| 0 <= j < order.len() implies #[trigger] chunk(r, j) == corners(indices, order[j] as int) by {
            if j < prev.len() {
                assert(chunk(a, j) == corners(indices, prev[j] as int));
                assert(chunk(r, j) =~= chunk(a, j));
            } else {
                assert(chunk(r, j) =~= b);
            }
        }
    }
}

/// Once every triangle was emitted, the output followed by the trailing
/// indices reorders the input's whole triangles: each once, with its corners
/// in their order, and the tail unchanged.
pub proof fn lemma_complete_order_reorders_triangles(v: TriangleOrderView)
    requires
        v.wf(),
        v.order.len() == triangle_count(v.indices),
    ensures
        is_triangle_reordering(
            v.indices,
            v.out + v.indices.subrange(3 * triangle_count(v.indices) as int, v.indices.len() as int),
        ),
{
    let tc = triangle_count(v.indices);
    let tail = v.indices.subrange(3 * tc as int, v.indices.len() as int);
    let out = v.out + tail;
    lemma_reordered_chunks(v.indices, v.order);
    assert(is_triangle_permutation(v.order, tc));
    assert(out.subrange(3 * tc as int, out.len() as int) =~= tail);
    assert forall|j: int| 0 <= j < tc implies #[trigger] chunk(out, j) == corners(v.indices, v.order[j] as int) by {
        assert(chunk(out, j) =~= chunk(v.out, j));
    }
}

} // verus!
