//! Render graph DAG: models pass dependencies through declared texture reads
//! and writes.
//!
//! Each pass declares which logical texture resources it reads and writes.
//! An edge runs from pass A to pass B when A writes a texture that B reads
//! (a pass never depends on itself).  `sorted_pass_ids` returns the passes in
//! an order produced by Kahn's algorithm, so every write happens before the
//! reads that depend on it; if the declarations form a cycle, the passes the
//! algorithm could not place are appended in registration order.
use vstd::prelude::*;
use std::collections::VecDeque;
use rustc_hash::FxHashSet;
use crate::fx::{
    fx_index_set, fx_index_set_elements, fx_index_set_insert, fx_index_set_new, fx_name_map,
    fx_name_map_get, fx_name_map_insert, fx_name_map_new, fx_writer_map, fx_writer_map_get,
    fx_writer_map_insert, fx_writer_map_new, NameMap, WriterMap,
};
use crate::seq_facts::lemma_index_seq_count;

verus! {

/// Handle to a logical render texture resource declared in the graph.
#[derive(Debug, Clone, Copy, PartialEq, Eq, Hash, Structural)]
pub struct TextureRef(pub u32);

/// Handle to a registered render pass node.
#[derive(Debug, Clone, Copy, PartialEq, Eq, Hash, Structural)]
pub struct PassId(pub u32);

struct PassNode {
    name: String,
    reads: Vec<TextureRef>,
    writes: Vec<TextureRef>,
}

/// Abstract content of one pass: its name and the ids of the textures it
/// reads and writes.
pub struct PassSpec {
    pub name: Seq<char>,
    pub reads: Seq<u32>,
    pub writes: Seq<u32>,
}

/// Abstract state of a render graph.
pub struct RenderGraphView {
    pub passes: Seq<PassSpec>,
    pub textures: Map<Seq<char>, u32>,
    pub next_texture_id: u32,
    pub sorted: Seq<u32>,
    pub dirty: bool,
}

/// Ids of a sequence of texture handles.
pub open spec fn texture_ids(ts: Seq<TextureRef>) -> Seq<u32> {
    ts.map_values(|t: TextureRef| t.0)
}

/// Ids of a sequence of pass handles.
pub open spec fn pass_ids(ps: Seq<PassId>) -> Seq<u32> {
    ps.map_values(|p: PassId| p.0)
}

/// Pass `u` writes some texture that pass `v` reads.
pub open spec fn writes_what_reads(p: Seq<PassSpec>, u: int, v: int) -> bool {
    exists|b: int| 0 <= b < p[v].reads.len() && p[u].writes.contains(#[trigger] p[v].reads[b])
}

/// Pass `v` depends on pass `u`: both are registered, they differ, and `u`
/// writes a texture that `v` reads.
pub open spec fn depends(p: Seq<PassSpec>, u: int, v: int) -> bool {
    &&& 0 <= u < p.len()
    &&& 0 <= v < p.len()
    &&& u != v
    &&& writes_what_reads(p, u, v)
}

/// No registered pass is a dependency of `v`.
pub open spec fn is_source(p: Seq<PassSpec>, v: int) -> bool {
    forall|u: int| !#[trigger] depends(p, u, v)
}

/// The passes among the first `m` that depend on no pass, in registration order.
pub open spec fn sources_upto(p: Seq<PassSpec>, m: int) -> Seq<u32>
    decreases m,
{
    if m <= 0 {
        Seq::empty()
    } else if is_source(p, m - 1) {
        sources_upto(p, m - 1).push((m - 1) as u32)
    } else {
        sources_upto(p, m - 1)
    }
}

/// All dependency-free passes, in registration order.
pub open spec fn sources(p: Seq<PassSpec>) -> Seq<u32> {
    sources_upto(p, p.len() as int)
}

/// `order` lists each of the `n` pass ids exactly once.
pub open spec fn is_pass_permutation(n: nat, order: Seq<u32>) -> bool {
    &&& order.len() == n
    &&& forall|i: int| 0 <= i < order.len() ==> #[trigger] order[i] < n
    &&& order.no_duplicates()
}

/// Every dependency of a pass comes before it in `order`.
pub open spec fn is_topological(p: Seq<PassSpec>, order: Seq<u32>) -> bool {
    forall|i: int, j: int|
        0 <= i < order.len() && 0 <= j < order.len() && depends(p, order[i] as int, order[j] as int)
            ==> i < j
}

/// The dependency graph admits some execution order that respects every dependency.
pub open spec fn has_topological_order(p: Seq<PassSpec>) -> bool {
    exists|o: Seq<u32>| is_pass_permutation(p.len(), o) && is_topological(p, o)
}

/// The first `k` entries of `order` are closed under dependencies: every
/// dependency of one of them appears earlier in `order`.
pub open spec fn closed_prefix(p: Seq<PassSpec>, order: Seq<u32>, k: int) -> bool {
    forall|j: int, u: int|
        0 <= j < k && #[trigger] depends(p, u, order[j] as int)
            ==> exists|i: int| 0 <= i < j && order[i] == u
}

/// The entries of `order` from index `k` on are in strictly increasing
/// (registration) order.
pub open spec fn increasing_from(order: Seq<u32>, k: int) -> bool {
    forall|i: int, j: int| k <= i < j < order.len() ==> order[i] < order[j]
}

/// Every pass outside the first `k` entries of `order` depends on some pass
/// that is also outside them: no further pass could be placed after them.
pub open spec fn stuck_outside(p: Seq<PassSpec>, order: Seq<u32>, k: int) -> bool {
    forall|v: u32|
        #![trigger order.subrange(0, k).contains(v)]
        v < p.len() && !order.subrange(0, k).contains(v) ==> exists|u: u32|
            u < p.len() && !order.subrange(0, k).contains(u) && #[trigger] depends(p, u as int, v as int)
}

/// What the scheduler promises of an execution order for the passes `p`:
/// each pass exactly once; a dependency-closed prefix that no further pass
/// could extend, followed by the remaining passes in registration order; an
/// order respecting every dependency whenever one exists; and the
/// dependency-free passes first, in registration order.
pub open spec fn is_schedule(p: Seq<PassSpec>, order: Seq<u32>) -> bool {
    &&& is_pass_permutation(p.len(), order)
    &&& exists|k: int|
        0 <= k <= order.len() && closed_prefix(p, order, k) && stuck_outside(p, order, k) && increasing_from(order, k)
    &&& has_topological_order(p) ==> is_topological(p, order)
    &&& sources(p).len() <= order.len()
    &&& order.subrange(0, sources(p).len() as int) == sources(p)
}

/// Render graph DAG tracking texture dependencies between passes.
pub struct RenderGraph {
    passes: Vec<PassNode>,
    textures: NameMap,
    sorted: Vec<PassId>,
    dirty: bool,
    next_texture_id: u32,
}

impl PassNode {
    closed spec fn spec(&self) -> PassSpec {
        PassSpec { name: self.name@, reads: texture_ids(self.reads@), writes: texture_ids(self.writes@) }
    }
}

impl View for RenderGraph {
    type V = RenderGraphView;

    closed spec fn view(&self) -> RenderGraphView {
        RenderGraphView {
            passes: self.passes@.map_values(|n: PassNode| n.spec()),
            textures: fx_name_map(self.textures),
            next_texture_id: self.next_texture_id,
            sorted: pass_ids(self.sorted@),
            dirty: self.dirty,
        }
    }
}

impl Default for RenderGraph {
    /// An empty graph.
    fn default() -> (g: Self)
        ensures
            g@.wf(),
            g@.passes.len() == 0,
            g@.textures =~= Map::empty(),
            g@.next_texture_id == 0,
            g@.sorted.len() == 0,
            !g@.dirty,
    {
        Self::new()
    }
}

impl RenderGraphView {
    /// The graph's internal invariant: pass ids fit in `u32`; finitely many
    /// texture names are declared, as many as the next fresh id, each with an
    /// id below it, and distinct names have distinct ids; and a clean graph
    /// caches a valid schedule of its passes.
    pub open spec fn wf(self) -> bool {
        &&& self.passes.len() <= u32::MAX
        &&& self.textures.dom().finite()
        &&& self.textures.dom().len() == self.next_texture_id
        &&& forall|k: Seq<char>| #[trigger] self.textures.contains_key(k) ==> self.textures[k] < self.next_texture_id
        &&& forall|k1: Seq<char>, k2: Seq<char>|
            #[trigger] self.textures.contains_key(k1) && #[trigger] self.textures.contains_key(k2) && k1 != k2
                ==> self.textures[k1] != self.textures[k2]
        &&& !self.dirty ==> is_schedule(self.passes, self.sorted)
    }

    /// The id that declaring the texture `name` yields: the id it already
    /// has, or else the next fresh id.
    pub open spec fn texture_id(self, name: Seq<char>) -> u32 {
        if self.textures.contains_key(name) {
            self.textures[name]
        } else {
            self.next_texture_id
        }
    }

    /// The graph after declaring the texture `name`: unchanged when the name
    /// is known, else the name is bound to the next fresh id, which advances.
    pub open spec fn with_texture(self, name: Seq<char>) -> RenderGraphView {
        if self.textures.contains_key(name) {
            self
        } else {
            RenderGraphView {
                passes: self.passes,
                textures: self.textures.insert(name, self.next_texture_id),
                next_texture_id: (self.next_texture_id + 1) as u32,
                sorted: self.sorted,
                dirty: self.dirty,
            }
        }
    }

    /// The graph after registering a pass: the pass is appended and the
    /// cached order is marked stale.
    pub open spec fn with_pass(self, pass: PassSpec) -> RenderGraphView {
        RenderGraphView {
            passes: self.passes.push(pass),
            textures: self.textures,
            next_texture_id: self.next_texture_id,
            sorted: self.sorted,
            dirty: true,
        }
    }
}

impl RenderGraph {
    #[must_use]
    pub fn new() -> (g: Self)
        ensures
            g@.wf(),
            g@.passes.len() == 0,
            g@.textures =~= Map::empty(),
            g@.next_texture_id == 0,
            g@.sorted.len() == 0,
            !g@.dirty,
    {
        let g = RenderGraph {
            passes: Vec::new(),
            textures: fx_name_map_new(),
            sorted: Vec::new(),
            dirty: false,
            next_texture_id: 0,
        };
        proof {
            assert(g@.passes =~= Seq::<PassSpec>::empty());
            assert(g@.textures.dom() =~= Set::<Seq<char>>::empty());
            assert(sources(g@.passes) =~= Seq::<u32>::empty());
            assert(g@.sorted =~= Seq::<u32>::empty());
            assert(0 <= 0 <= g@.sorted.len() && closed_prefix(g@.passes, g@.sorted, 0)
                && stuck_outside(g@.passes, g@.sorted, 0) && increasing_from(g@.sorted, 0));
            let o = Seq::<u32>::empty();
            assert(is_pass_permutation(0, o) && is_topological(g@.passes, o));
            assert(g@.sorted.subrange(0, 0) =~= sources(g@.passes));
            assert(is_schedule(g@.passes, g@.sorted));
        }
        g
    }

    /// Declare a logical texture resource.
    ///
    /// Idempotent: returns the same `TextureRef` for the same name; a new name
    /// gets the next fresh id.
    pub fn texture(&mut self, name: &str) -> (t: TextureRef)
        requires
            old(self)@.wf(),
            !old(self)@.textures.contains_key(name@) ==> old(self)@.next_texture_id < u32::MAX,
        ensures
            final(self)@.wf(),
            t.0 == old(self)@.texture_id(name@),
            final(self)@ == old(self)@.with_texture(name@),
    {
        if let Some(id) = fx_name_map_get(&self.textures, name) {
            return TextureRef(id);
        }
        let t = TextureRef(self.next_texture_id);
        self.next_texture_id = self.next_texture_id + 1;
        let owned = name.to_string();
        fx_name_map_insert(&mut self.textures, owned, t.0);
        proof {
            let m0 = old(self)@.textures;
            let m1 = self@.textures;
            assert(m1 == m0.insert(name@, t.0));
            assert forall|k: Seq<char>| #[trigger] m1.contains_key(k) implies m1[k] < self@.next_texture_id by {
                if k != name@ {
                    assert(m0.contains_key(k));
                }
            }
            assert forall|k1: Seq<char>, k2: Seq<char>|
                #[trigger] m1.contains_key(k1) && #[trigger] m1.contains_key(k2) && k1 != k2
                implies m1[k1] != m1[k2] by {
                if k1 != name@ && k2 != name@ {
                    assert(m0.contains_key(k1) && m0.contains_key(k2));
                } else if k1 == name@ {
                    assert(m0.contains_key(k2));
                } else {
                    assert(m0.contains_key(k1));
                }
            }
            assert(m1.dom() == m0.dom().insert(name@));
            assert(self@ == old(self)@.with_texture(name@));
        }
        t
    }

    /// Register a pass with declared texture reads and writes; returns the
    /// `PassId` assigned to it (its registration index).
    pub fn add_pass(&mut self, name: &str, reads: Vec<TextureRef>, writes: Vec<TextureRef>) -> (id: PassId)
        requires
            old(self)@.wf(),
            old(self)@.passes.len() < u32::MAX,
        ensures
            final(self)@.wf(),
            id.0 == old(self)@.passes.len(),
            final(self)@ == old(self)@.with_pass(
                PassSpec { name: name@, reads: texture_ids(reads@), writes: texture_ids(writes@) },
            ),
    {
        let id = PassId(self.passes.len() as u32);
        let node = PassNode { name: name.to_string(), reads, writes };
        self.passes.push(node);
        self.dirty = true;
        proof {
            assert(self@.passes =~= old(self)@.passes.push(node.spec()));
            assert(self@.textures == old(self)@.textures);
            assert(self@.passes.len() <= u32::MAX);
        }
        id
    }

    /// Compute (or return the cached) execution order of the passes.
    ///
    /// Uses Kahn's algorithm over the edges "A writes a texture that B reads".
    /// The result lists every pass once; the passes without dependencies come
    /// first, in registration order; when the declarations admit an order that
    /// respects every dependency, the result respects every dependency;
    /// otherwise the passes the algorithm could not place follow, in
    /// registration order.
    pub fn sorted_pass_ids(&mut self) -> (order: &[PassId])
        requires
            old(self)@.wf(),
        ensures
            final(self)@.wf(),
            !final(self)@.dirty,
            final(self)@.passes == old(self)@.passes,
            final(self)@.textures == old(self)@.textures,
            final(self)@.next_texture_id == old(self)@.next_texture_id,
            !old(self)@.dirty ==> final(self)@.sorted == old(self)@.sorted,
            pass_ids(order@) == final(self)@.sorted,
            is_schedule(final(self)@.passes, pass_ids(order@)),
    {
        if !self.dirty {
            return self.sorted.as_slice();
        }
        let order = self.compute_order();
        let ghost before = self@;
        self.sorted = order;
        self.dirty = false;
        proof {
            assert(self@.passes == before.passes);
            assert(self@.textures == before.textures);
            assert(self@.sorted == pass_ids(order@));
        }
        self.sorted.as_slice()
    }

    fn compute_order(&self) -> (order: Vec<PassId>)
        requires
            self@.passes.len() <= u32::MAX,
        ensures
            is_schedule(self@.passes, pass_ids(order@)),
    {
        let writers = self.collect_writers();
        let (adj, in_degree) = self.collect_edges(&writers);
        let ord = self.kahn_order(&adj, in_degree);
        self.append_unplaced(ord)
    }

    /// For each texture, the passes that write it.
    fn collect_writers(&self) -> (writers: WriterMap)
        requires
            self@.passes.len() <= u32::MAX,
        ensures
            forall|t: u32, x: usize|
                #[trigger] writers_of(fx_writer_map(writers), t).contains(x) <==> (x < self@.passes.len()
                    && self@.passes[x as int].writes.contains(t)),
    {
        let n = self.passes.len();
        let ghost p = self@.passes;
        let mut writers = fx_writer_map_new();
        let mut i: usize = 0;
        while i < n
            invariant
                n == p.len(),
                n == self.passes@.len(),
                p == self@.passes,
                0 <= i <= n,
                forall|t: u32, x: usize|
                    #[trigger] writers_of(fx_writer_map(writers), t).contains(x) <==> (x < i
                        && p[x as int].writes.contains(t)),
            decreases n - i,
        {
            let pass = &self.passes[i];
            assert(p[i as int] == pass.spec());
            let ghost ws = p[i as int].writes;
            let mut w: usize = 0;
            while w < pass.writes.len()
                invariant
                    n == p.len(),
                    0 <= i < n,
                    p[i as int] == pass.spec(),
                    ws == p[i as int].writes,
                    ws.len() == pass.writes@.len(),
                    0 <= w <= pass.writes@.len(),
                    forall|t: u32, x: usize|
                        #[trigger] writers_of(fx_writer_map(writers), t).contains(x) <==> (x < i
                            && p[x as int].writes.contains(t)) || (x == i
                            && ws.subrange(0, w as int).contains(t)),
                decreases pass.writes@.len() - w,
            {
                let tex = pass.writes[w].0;
                let ghost m0 = fx_writer_map(writers);
                append_writer(&mut writers, tex, i);
                proof {
                    assert(ws[w as int] == tex);
                    lemma_prefix_step(ws, w as int);
                    assert forall|t: u32, x: usize|
                        #[trigger] writers_of(fx_writer_map(writers), t).contains(x) <==> (x < i
                            && p[x as int].writes.contains(t)) || (x == i
                            && ws.subrange(0, w as int + 1).contains(t)) by {
                        lemma_push_contains(writers_of(m0, t), i);
                    }
                }
                w = w + 1;
            }
            proof {
                assert(ws.subrange(0, ws.len() as int) == ws);
            }
            i = i + 1;
        }
        writers
    }

    /// Successor sets (writer -> reader) and in-degrees of all passes.
    fn collect_edges(&self, writers: &WriterMap) -> (res: (Vec<FxHashSet<usize>>, Vec<usize>))
        requires
            self@.passes.len() <= u32::MAX,
            forall|t: u32, x: usize|
                #[trigger] writers_of(fx_writer_map(*writers), t).contains(x) <==> (x < self@.passes.len()
                    && self@.passes[x as int].writes.contains(t)),
        ensures
            res.0@.len() == self@.passes.len(),
            res.1@.len() == self@.passes.len(),
            forall|u: usize, v: usize| u < self@.passes.len() ==> (#[trigger] adj_sets(res.0@)[u as int].contains(v) <==> (v < self@.passes.len()
                && depends(self@.passes, u as int, v as int))),
            forall|v: usize| v < self@.passes.len() ==> #[trigger] res.1@[v as int] == pending(adj_sets(res.0@), Set::empty(), v, self@.passes.len() as int),
    {
        let n = self.passes.len();
        let ghost p = self@.passes;
        let mut adj: Vec<FxHashSet<usize>> = Vec::new();
        let mut in_degree: Vec<usize> = Vec::new();
        let mut c: usize = 0;
        while c < n
            invariant
                0 <= c <= n,
                adj@.len() == c,
                in_degree@.len() == c,
                forall|u: int| 0 <= u < c ==> fx_index_set(#[trigger] adj@[u]) == Set::<usize>::empty(),
                forall|u: int| 0 <= u < c ==> #[trigger] in_degree@[u] == 0,
            decreases n - c,
        {
            adj.push(fx_index_set_new());
            in_degree.push(0);
            c = c + 1;
        }
        proof {
            assert forall|v: usize| v < n implies #[trigger] in_degree@[v as int] == pending(adj_sets(adj@), Set::empty(), v, n as int) by {
                lemma_pending_zero(adj_sets(adj@), Set::empty(), v, n as int);
            }
        }
        let mut i: usize = 0;
        while i < n
            invariant
                n == p.len(),
                n == self.passes@.len(),
                p == self@.passes,
                n <= u32::MAX,
                0 <= i <= n,
                adj@.len() == n,
                in_degree@.len() == n,
                forall|t: u32, x: usize|
                    #[trigger] writers_of(fx_writer_map(*writers), t).contains(x) <==> (x < n
                        && p[x as int].writes.contains(t)),
                forall|u: usize, v: usize| u < n ==> (#[trigger] adj_sets(adj@)[u as int].contains(v) <==> (v < i
                    && depends(p, u as int, v as int))),
                forall|v: usize| v < n ==> #[trigger] in_degree@[v as int] == pending(adj_sets(adj@), Set::empty(), v, n as int),
            decreases n - i,
        {
            let pass = &self.passes[i];
            assert(p[i as int] == pass.spec());
            let mut r: usize = 0;
            while r < pass.reads.len()
                invariant
                    n == p.len(),
                    p == self@.passes,
                    n <= u32::MAX,
                    0 <= i < n,
                    p[i as int] == pass.spec(),
                    p[i as int].reads.len() == pass.reads@.len(),
                    0 <= r <= pass.reads@.len(),
                    adj@.len() == n,
                    in_degree@.len() == n,
                    forall|t: u32, x: usize|
                        #[trigger] writers_of(fx_writer_map(*writers), t).contains(x) <==> (x < n
                            && p[x as int].writes.contains(t)),
                    forall|u: usize, v: usize| u < n ==> (#[trigger] adj_sets(adj@)[u as int].contains(v) <==> ((v < i
                        && depends(p, u as int, v as int)) || (v == i && depends_upto(p, u as int, v as int, r as int)))),
                    forall|v: usize| v < n ==> #[trigger] in_degree@[v as int] == pending(adj_sets(adj@), Set::empty(), v, n as int),
                decreases pass.reads@.len() - r,
            {
                let tex = pass.reads[r].0;
                assert(p[i as int].reads[r as int] == tex);
                let srcs = match fx_writer_map_get(writers, tex) {
                    Some(l) => copy_indices(l),
                    None => Vec::new(),
                };
                assert(srcs@ == writers_of(fx_writer_map(*writers), tex));
                self.link_readers(&srcs, tex, i, r, &mut adj, &mut in_degree);
                proof {
                    assert forall|u: usize, v: usize| u < n implies (#[trigger] adj_sets(adj@)[u as int].contains(v) <==> ((v < i
                        && depends(p, u as int, v as int)) || (v == i && depends_upto(p, u as int, v as int, r as int + 1)))) by {
                        if v == i && depends_upto(p, u as int, v as int, r as int + 1) && !depends_upto(p, u as int, v as int, r as int) {
                            let b = choose|b: int| 0 <= b < r + 1 && b < p[v as int].reads.len() && p[u as int].writes.contains(#[trigger] p[v as int].reads[b]);
                            assert(b == r);
                            assert(srcs@.contains(u));
                        }
                        if v == i && u != i && srcs@.contains(u) {
                            assert(p[u as int].writes.contains(p[v as int].reads[r as int]));
                            assert(depends_upto(p, u as int, v as int, r as int + 1));
                        }
                    }
                }
                r = r + 1;
            }
            proof {
                assert forall|u: usize, v: usize| u < n implies (#[trigger] adj_sets(adj@)[u as int].contains(v) <==> (v < i + 1
                    && depends(p, u as int, v as int))) by {
                    if v == i && depends(p, u as int, v as int) {
                        let b = choose|b: int| 0 <= b < p[v as int].reads.len() && p[u as int].writes.contains(#[trigger] p[v as int].reads[b]);
                        assert(depends_upto(p, u as int, v as int, p[i as int].reads.len() as int));
                    }
                }
            }
            i = i + 1;
        }
        (adj, in_degree)
    }

    /// Record the edges from each writer in `srcs` of texture `tex`, the
    /// `r`-th texture read by pass `i`, to pass `i`.
    fn link_readers(
        &self,
        srcs: &Vec<usize>,
        tex: u32,
        i: usize,
        r: usize,
        adj: &mut Vec<FxHashSet<usize>>,
        in_degree: &mut Vec<usize>,
    )
        requires
            self@.passes.len() <= u32::MAX,
            0 <= i < self@.passes.len(),
            0 <= r < self@.passes[i as int].reads.len(),
            self@.passes[i as int].reads[r as int] == tex,
            forall|x: usize| #[trigger] srcs@.contains(x) <==> (x < self@.passes.len() && self@.passes[x as int].writes.contains(tex)),
            old(adj)@.len() == self@.passes.len(),
            old(in_degree)@.len() == self@.passes.len(),
            forall|u: usize, v: usize| u < self@.passes.len() ==> (#[trigger] adj_sets(old(adj)@)[u as int].contains(v) <==> ((v < i
                && depends(self@.passes, u as int, v as int)) || (v == i && depends_upto(self@.passes, u as int, v as int, r as int)))),
            forall|v: usize| v < self@.passes.len() ==> #[trigger] old(in_degree)@[v as int] == pending(adj_sets(old(adj)@), Set::empty(), v, self@.passes.len() as int),
        ensures
            final(adj)@.len() == self@.passes.len(),
            final(in_degree)@.len() == self@.passes.len(),
            forall|u: usize, v: usize| u < self@.passes.len() ==> (#[trigger] adj_sets(final(adj)@)[u as int].contains(v) <==> ((v < i
                && depends(self@.passes, u as int, v as int)) || (v == i && (depends_upto(self@.passes, u as int, v as int, r as int)
                || (u != i && srcs@.contains(u)))))),
            forall|v: usize| v < self@.passes.len() ==> #[trigger] final(in_degree)@[v as int] == pending(adj_sets(final(adj)@), Set::empty(), v, self@.passes.len() as int),
    {
        let ghost p = self@.passes;
        let ghost n = p.len();
        let mut s: usize = 0;
        while s < srcs.len()
            invariant
                n == p.len(),
                n <= u32::MAX,
                p == self@.passes,
                0 <= i < n,
                0 <= s <= srcs@.len(),
                forall|x: usize| #[trigger] srcs@.contains(x) <==> (x < n && p[x as int].writes.contains(tex)),
                adj@.len() == n,
                in_degree@.len() == n,
                forall|u: usize, v: usize| u < n ==> (#[trigger] adj_sets(adj@)[u as int].contains(v) <==> ((v < i
                    && depends(p, u as int, v as int)) || (v == i && (depends_upto(p, u as int, v as int, r as int)
                    || (u != i && srcs@.subrange(0, s as int).contains(u)))))),
                forall|v: usize| v < n ==> #[trigger] in_degree@[v as int] == pending(adj_sets(adj@), Set::empty(), v, n as int),
            decreases srcs@.len() - s,
        {
            let src = srcs[s];
            assert(srcs@.contains(src));
            let ghost a0 = adj_sets(adj@);
            proof {
                lemma_prefix_step(srcs@, s as int);
            }
            if src != i {
                let fresh = fx_index_set_insert(&mut adj[src], i);
                proof {
                    assert(adj_sets(adj@) == a0.update(src as int, a0[src as int].insert(i)));
                    assert forall|v: usize| v < n implies pending(adj_sets(adj@), Set::empty(), v, n as int)
                        == pending(a0, Set::empty(), v, n as int) + (if v == i && fresh { 1nat } else { 0nat }) by {
                        lemma_pending_insert_edge(a0, Set::empty(), src, i, v, n as int);
                    }
                    lemma_pending_zero(adj_sets(adj@), Set::empty(), i, n as int);
                }
                if fresh {
                    in_degree.set(i, in_degree[i] + 1);
                }
            }
            proof {
                let sub1 = srcs@.subrange(0, s as int + 1);
                assert forall|u: usize, v: usize| u < n implies (#[trigger] adj_sets(adj@)[u as int].contains(v) <==> ((v < i
                    && depends(p, u as int, v as int)) || (v == i && (depends_upto(p, u as int, v as int, r as int)
                    || (u != i && sub1.contains(u)))))) by {
                    if u == src && src != i {
                        assert(a0.update(src as int, a0[src as int].insert(i))[u as int] == a0[u as int].insert(i));
                    }
                }
            }
            s = s + 1;
        }
        proof {
            assert(srcs@.subrange(0, srcs@.len() as int) == srcs@);
        }
    }

    /// Kahn's algorithm: repeatedly emit a pass whose dependencies are all
    /// emitted, starting from the dependency-free passes in registration order.
    fn kahn_order(&self, adj: &Vec<FxHashSet<usize>>, in_degree: Vec<usize>) -> (ord: Vec<PassId>)
        requires
            self@.passes.len() <= u32::MAX,
            adj@.len() == self@.passes.len(),
            in_degree@.len() == self@.passes.len(),
            forall|u: usize, v: usize| u < self@.passes.len() ==> (#[trigger] adj_sets(adj@)[u as int].contains(v) <==> (v < self@.passes.len()
                && depends(self@.passes, u as int, v as int))),
            forall|v: usize| v < self@.passes.len() ==> #[trigger] in_degree@[v as int] == pending(adj_sets(adj@), Set::empty(), v, self@.passes.len() as int),
        ensures
            pass_ids(ord@).no_duplicates(),
            forall|k: int| 0 <= k < pass_ids(ord@).len() ==> #[trigger] pass_ids(ord@)[k] < self@.passes.len(),
            closed_prefix(self@.passes, pass_ids(ord@), pass_ids(ord@).len() as int),
            sources(self@.passes).len() <= pass_ids(ord@).len(),
            pass_ids(ord@).subrange(0, sources(self@.passes).len() as int) == sources(self@.passes),
            has_topological_order(self@.passes) ==> pass_ids(ord@).len() == self@.passes.len(),
            forall|v: u32| v < self@.passes.len() && !pass_ids(ord@).contains(v) ==> exists|u: u32|
                u < self@.passes.len() && !pass_ids(ord@).contains(u) && #[trigger] depends(self@.passes, u as int, v as int),
    {
        let n = self.passes.len();
        let ghost p = self@.passes;
        let mut in_degree = in_degree;
        let ghost a = adj_sets(adj@);
        let ghost srcs_all = sources(p);
        let mut queue: VecDeque<usize> = VecDeque::new();
        let mut i: usize = 0;
        proof {
            lemma_sources_facts(p, n as int);
        }
        while i < n
            invariant
                n == p.len(),
                p == self@.passes,
                n <= u32::MAX,
                0 <= i <= n,
                in_degree@.len() == n,
                a == adj_sets(adj@),
                a.len() == n,
                forall|u: usize, v: usize| u < n ==> (#[trigger] a[u as int].contains(v) <==> (v < n
                    && depends(p, u as int, v as int))),
                forall|v: usize| v < n ==> #[trigger] in_degree@[v as int] == pending(a, Set::empty(), v, n as int),
                index_ids(queue@) == sources_upto(p, i as int),
                forall|k: int| 0 <= k < queue@.len() ==> #[trigger] queue@[k] < i,
            decreases n - i,
        {
            let ghost q0 = queue@;
            if in_degree[i] == 0 {
                queue.push_back(i);
            }
            proof {
                lemma_pending_zero(a, Set::empty(), i, n as int);
                if in_degree@[i as int] == 0 {
                    assert forall|u: int| !#[trigger] depends(p, u, i as int) by {
                        if depends(p, u, i as int) {
                            assert(a[u].contains(i));
                        }
                    }
                    assert(queue@ == q0.push(i));
                    assert(index_ids(queue@) == index_ids(q0).push(i as u32));
                    assert(index_ids(queue@) == sources_upto(p, i as int + 1));
                } else {
                    let u = choose|u: int| 0 <= u < n && #[trigger] a[u].contains(i) && !Set::<usize>::empty().contains(u as usize);
                    assert(depends(p, u, i as int));
                    assert(!is_source(p, i as int));
                    assert(index_ids(queue@) == sources_upto(p, i as int + 1));
                }
            }
            i = i + 1;
        }
        let mut ord: Vec<PassId> = Vec::new();
        let ghost mut done: Set<usize> = Set::empty();
        proof {
            assert(index_ids(queue@) == srcs_all);
            assert(pass_ids(ord@) + index_ids(queue@) == srcs_all);
            assert forall|v: usize| v < n implies (#[trigger] in_degree@[v as int] == 0 <==> (pass_ids(ord@)
                + index_ids(queue@)).contains(v as u32)) by {
                lemma_pending_zero(a, Set::empty(), v, n as int);
                if in_degree@[v as int] == 0 {
                    assert forall|u: int| !#[trigger] depends(p, u, v as int) by {
                        if depends(p, u, v as int) {
                            assert(a[u].contains(v));
                        }
                    }
                    lemma_source_listed(p, v as int, n as int);
                } else {
                    let u = choose|u: int| 0 <= u < n && #[trigger] a[u].contains(v) && !Set::<usize>::empty().contains(u as usize);
                    assert(depends(p, u, v as int));
                    if srcs_all.contains(v as u32) {
                        let k = choose|k: int| 0 <= k < srcs_all.len() && srcs_all[k] == v as u32;
                        assert(is_source(p, srcs_all[k] as int));
                    }
                }
            }
            assert(closed_prefix(p, pass_ids(ord@), 0));
            assert((pass_ids(ord@) + index_ids(queue@)).subrange(0, srcs_all.len() as int) == srcs_all);
        }
        while queue.len() > 0
            invariant
                n == p.len(),
                n <= u32::MAX,
                in_degree@.len() == n,
                a == adj_sets(adj@),
                a.len() == n,
                forall|u: usize, v: usize| u < n ==> (#[trigger] a[u as int].contains(v) <==> (v < n
                    && depends(p, u as int, v as int))),
                forall|v: usize| v < n ==> #[trigger] in_degree@[v as int] == pending(a, done, v, n as int),
                forall|k: int| 0 <= k < queue@.len() ==> #[trigger] queue@[k] < n,
                (pass_ids(ord@) + index_ids(queue@)).no_duplicates(),
                forall|k: int| 0 <= k < (pass_ids(ord@) + index_ids(queue@)).len()
                    ==> #[trigger] (pass_ids(ord@) + index_ids(queue@))[k] < n,
                forall|y: usize| #[trigger] done.contains(y) <==> (y < n && pass_ids(ord@).contains(y as u32)),
                forall|v: usize| v < n ==> (#[trigger] in_degree@[v as int] == 0 <==> (pass_ids(ord@)
                    + index_ids(queue@)).contains(v as u32)),
                closed_prefix(p, pass_ids(ord@), pass_ids(ord@).len() as int),
                srcs_all == sources(p),
                srcs_all.len() <= (pass_ids(ord@) + index_ids(queue@)).len(),
                (pass_ids(ord@) + index_ids(queue@)).subrange(0, srcs_all.len() as int) == srcs_all,
            decreases n - ord@.len(),
        {
            let ghost oq0 = pass_ids(ord@) + index_ids(queue@);
            let ghost ord0 = pass_ids(ord@);
            let ghost q0 = index_ids(queue@);
            let ghost queue0 = queue@;
            proof {
                lemma_index_seq_count(oq0, n as nat);
            }
            let x = queue.pop_front().unwrap();
            ord.push(PassId(x as u32));
            let ghost done0 = done;
            proof {
                assert(x == queue0[0]);
                assert(x < n);
                assert(q0[0] == x as u32);
                done = done.insert(x);
                assert(pass_ids(ord@) == ord0.push(x as u32));
                assert(index_ids(queue@) == q0.drop_first());
                assert(pass_ids(ord@) + index_ids(queue@) == oq0);
                assert(oq0[ord0.len() as int] == x as u32);
                assert(!ord0.contains(x as u32)) by {
                    if ord0.contains(x as u32) {
                        let k = choose|k: int| 0 <= k < ord0.len() && ord0[k] == x as u32;
                        assert(oq0[k] == oq0[ord0.len() as int]);
                    }
                }
                assert(!done0.contains(x));
                assert(oq0.contains(x as u32));
                assert(in_degree@[x as int] == 0);
                lemma_pending_zero(a, done0, x, n as int);
                let o1 = pass_ids(ord@);
                assert forall|j: int, u: int|
                    0 <= j < o1.len() && #[trigger] depends(p, u, o1[j] as int)
                        implies exists|i: int| 0 <= i < j && o1[i] == u by {
                    if j < ord0.len() {
                        assert(o1[j] == ord0[j]);
                        let i = choose|i: int| 0 <= i < j && ord0[i] == u;
                        assert(o1[i] == u);
                    } else {
                        assert(o1[j] == x as u32);
                        assert(a[u].contains(x));
                        assert(done0.contains(u as usize));
                        assert(ord0.contains(u as u32));
                        let i = choose|i: int| 0 <= i < ord0.len() && ord0[i] == u as u32;
                        assert(o1[i] == u);
                    }
                }
                assert(closed_prefix(p, o1, o1.len() as int));
                assert forall|y: usize| #[trigger] done.contains(y) <==> (y < n && o1.contains(y as u32)) by {
                    if y < n && o1.contains(y as u32) && y != x {
                        let k = choose|k: int| 0 <= k < o1.len() && o1[k] == y as u32;
                        assert(k < ord0.len());
                        assert(ord0[k] == y as u32);
                    }
                    if y == x {
                        assert(o1[ord0.len() as int] == x as u32);
                    }
                    if done0.contains(y) {
                        let k = choose|k: int| 0 <= k < ord0.len() && ord0[k] == y as u32;
                        assert(o1[k] == y as u32);
                    }
                }
                assert forall|v: usize| v < n implies pending(a, done0, v, n as int) == pending(a, done, v, n as int)
                    + (if a[x as int].contains(v) { 1nat } else { 0nat }) by {
                    lemma_pending_done_insert(a, done0, x, v, n as int);
                }
            }
            let succs = fx_index_set_elements(&adj[x]);
            proof {
                assert(succs@.subrange(0, succs@.len() as int) == succs@);
                assert forall|v: usize| #[trigger] succs@.contains(v) <==> a[x as int].contains(v) by {
                    assert(succs@.contains(v) <==> succs@.to_set().contains(v));
                }
            }
            let mut c: usize = 0;
            while c < succs.len()
                invariant
                    n == p.len(),
                    n <= u32::MAX,
                    x < n,
                    in_degree@.len() == n,
                    a == adj_sets(adj@),
                    a.len() == n,
                    forall|u: usize, v: usize| u < n ==> (#[trigger] a[u as int].contains(v) <==> (v < n
                        && depends(p, u as int, v as int))),
                    succs@.no_duplicates(),
                    forall|v: usize| #[trigger] succs@.contains(v) <==> a[x as int].contains(v),
                    0 <= c <= succs@.len(),
                    forall|v: usize| v < n ==> #[trigger] in_degree@[v as int] == pending(a, done, v, n as int)
                        + (if succs@.subrange(c as int, succs@.len() as int).contains(v) { 1nat } else { 0nat }),
                    forall|k: int| 0 <= k < queue@.len() ==> #[trigger] queue@[k] < n,
                    (pass_ids(ord@) + index_ids(queue@)).no_duplicates(),
                    forall|k: int| 0 <= k < (pass_ids(ord@) + index_ids(queue@)).len()
                        ==> #[trigger] (pass_ids(ord@) + index_ids(queue@))[k] < n,
                    forall|y: usize| #[trigger] done.contains(y) <==> (y < n && pass_ids(ord@).contains(y as u32)),
                    forall|v: usize| v < n ==> (#[trigger] in_degree@[v as int] == 0 <==> (pass_ids(ord@)
                        + index_ids(queue@)).contains(v as u32)),
                    closed_prefix(p, pass_ids(ord@), pass_ids(ord@).len() as int),
                    srcs_all == sources(p),
                    srcs_all.len() <= (pass_ids(ord@) + index_ids(queue@)).len(),
                    (pass_ids(ord@) + index_ids(queue@)).subrange(0, srcs_all.len() as int) == srcs_all,
                decreases succs@.len() - c,
            {
                let j = succs[c];
                let ghost rest0 = succs@.subrange(c as int, succs@.len() as int);
                let ghost oq1 = pass_ids(ord@) + index_ids(queue@);
                proof {
                    assert(succs@.contains(j));
                    assert(j < n);
                    assert(rest0[0] == j);
                    assert(rest0.contains(j));
                }
                let ghost in_deg1 = in_degree@;
                in_degree.set(j, in_degree[j] - 1);
                let ghost queue1 = queue@;
                if in_degree[j] == 0 {
                    queue.push_back(j);
                }
                proof {
                    let rest1 = succs@.subrange(c as int + 1, succs@.len() as int);
                    assert(rest1 == rest0.drop_first());
                    assert(!rest1.contains(j)) by {
                        if rest1.contains(j) {
                            let k = choose|k: int| 0 <= k < rest1.len() && rest1[k] == j;
                            assert(succs@[c as int + 1 + k] == succs@[c as int]);
                        }
                    }
                    assert forall|v: usize| v != j implies (#[trigger] rest1.contains(v) <==> rest0.contains(v)) by {
                        if rest0.contains(v) {
                            let k = choose|k: int| 0 <= k < rest0.len() && rest0[k] == v;
                            assert(k != 0);
                            assert(rest1[k - 1] == v);
                        }
                        if rest1.contains(v) {
                            let k = choose|k: int| 0 <= k < rest1.len() && rest1[k] == v;
                            assert(rest0[k + 1] == v);
                        }
                    }
                    let oq2 = pass_ids(ord@) + index_ids(queue@);
                    assert(!oq1.contains(j as u32));
                    if in_degree@[j as int] == 0 {
                        assert(queue@ =~= queue1.push(j));
                        assert(index_ids(queue@) =~= index_ids(queue1).push(j as u32));
                        assert(oq2 =~= oq1.push(j as u32));
                        lemma_push_contains(oq1, j as u32);
                        assert forall|v: usize| v < n implies (#[trigger] in_degree@[v as int] == 0 <==> oq2.contains(v as u32)) by {
                            if v != j {
                                assert(in_degree@[v as int] == in_deg1[v as int]);
                                assert(v as u32 != j as u32);
                            }
                        }
                        assert(oq2.subrange(0, srcs_all.len() as int) =~= oq1.subrange(0, srcs_all.len() as int));
                    } else {
                        assert(queue@ == queue1);
                        assert(oq2 == oq1);
                        assert forall|v: usize| v < n implies (#[trigger] in_degree@[v as int] == 0 <==> oq2.contains(v as u32)) by {
                            if v != j {
                                assert(in_degree@[v as int] == in_deg1[v as int]);
                            }
                        }
                    }
                    assert forall|k: int| 0 <= k < queue@.len() implies #[trigger] queue@[k] < n by {
                        if k < queue1.len() {
                            assert(queue@[k] == queue1[k]);
                        }
                    }
                }
                c = c + 1;
            }
        }
        proof {
            assert(index_ids(queue@) =~= Seq::<u32>::empty());
            let og = pass_ids(ord@);
            assert(og + index_ids(queue@) == og);
            assert forall|v: u32| v < n && !og.contains(v) implies exists|u: u32|
                u < n && !og.contains(u) && #[trigger] depends(p, u as int, v as int) by {
                let vv = v as usize;
                assert(vv as u32 == v);
                assert(in_degree@[vv as int] != 0);
                lemma_pending_zero(a, done, vv, n as int);
                let u = choose|u: int| 0 <= u < n && #[trigger] a[u].contains(vv) && !done.contains(u as usize);
                assert(depends(p, u, v as int));
                assert(!og.contains(u as u32));
                assert(depends(p, (u as u32) as int, v as int));
            }
            if has_topological_order(p) {
                lemma_kahn_complete(p, og);
            }
        }
        ord
    }

    /// Cycle guard: append the passes Kahn's algorithm could not place, in
    /// registration order.
    fn append_unplaced(&self, ord: Vec<PassId>) -> (order: Vec<PassId>)
        requires
            self@.passes.len() <= u32::MAX,
            pass_ids(ord@).no_duplicates(),
            forall|k: int| 0 <= k < pass_ids(ord@).len() ==> #[trigger] pass_ids(ord@)[k] < self@.passes.len(),
            closed_prefix(self@.passes, pass_ids(ord@), pass_ids(ord@).len() as int),
            sources(self@.passes).len() <= pass_ids(ord@).len(),
            pass_ids(ord@).subrange(0, sources(self@.passes).len() as int) == sources(self@.passes),
            has_topological_order(self@.passes) ==> pass_ids(ord@).len() == self@.passes.len(),
            forall|v: u32| v < self@.passes.len() && !pass_ids(ord@).contains(v) ==> exists|u: u32|
                u < self@.passes.len() && !pass_ids(ord@).contains(u) && #[trigger] depends(self@.passes, u as int, v as int),
        ensures
            is_schedule(self@.passes, pass_ids(order@)),
    {
        let n = self.passes.len();
        let ghost p = self@.passes;
        let ghost kahn = pass_ids(ord@);
        let ghost kk = kahn.len() as int;
        let mut ord = ord;
        proof {
            lemma_index_seq_count(kahn, n as nat);
        }
        if ord.len() < n {
            let mut i: usize = 0;
            while i < n
                invariant
                    n == p.len(),
                    n <= u32::MAX,
                    0 <= i <= n,
                    kk == kahn.len(),
                    kk <= pass_ids(ord@).len(),
                    pass_ids(ord@).subrange(0, kk) == kahn,
                    pass_ids(ord@).no_duplicates(),
                    forall|k: int| 0 <= k < pass_ids(ord@).len() ==> #[trigger] pass_ids(ord@)[k] < n,
                    forall|v: u32| v < i ==> pass_ids(ord@).contains(v),
                    forall|k: int| kk <= k < pass_ids(ord@).len() ==> #[trigger] pass_ids(ord@)[k] < i,
                    increasing_from(pass_ids(ord@), kk),
                decreases n - i,
            {
                let ghost o0 = pass_ids(ord@);
                if !contains_pass(&ord, i as u32) {
                    ord.push(PassId(i as u32));
                    proof {
                        let o1 = pass_ids(ord@);
                        assert(o1 =~= o0.push(i as u32));
                        assert(0 <= kk <= o0.len());
                        assert(o1.subrange(0, kk) =~= o0.subrange(0, kk));
                        assert(!o0.contains(i as u32));
                        lemma_push_contains(o0, i as u32);
                        assert forall|v: u32| v < i + 1 implies o1.contains(v) by {
                            assert(o0.push(i as u32).contains(v));
                        }
                    }
                } else {
                    proof {
                        assert forall|v: u32| v < i + 1 implies pass_ids(ord@).contains(v) by {
                            if v < i {
                            }
                        }
                    }
                }
                i = i + 1;
            }
        }
        proof {
            let o = pass_ids(ord@);
            if kahn.len() == n && o.len() == kahn.len() {
                assert(o == kahn);
                assert(increasing_from(o, kk));
            }
            assert(o.subrange(0, kahn.len() as int) =~= kahn);
            lemma_extended_schedule(p, kahn, o);
        }
        ord
    }

    /// Name of the pass, for dispatch matching.
    #[must_use]
    pub fn pass_name(&self, id: PassId) -> (name: &str)
        requires
            id.0 < self@.passes.len(),
        ensures
            name@ == self@.passes[id.0 as int].name,
    {
        self.passes[id.0 as usize].name.as_str()
    }

    /// Number of registered passes.
    #[must_use]
    pub fn pass_count(&self) -> (n: usize)
        ensures
            n == self@.passes.len(),
    {
        self.passes.len()
    }
}

/// Declaring a texture name twice yields the same handle, and the second
/// declaration leaves the graph as the first one left it.
pub proof fn lemma_texture_idempotent(g: RenderGraphView, name: Seq<char>)
    requires
        g.wf(),
    ensures
        g.with_texture(name).texture_id(name) == g.texture_id(name),
        g.with_texture(name).with_texture(name) == g.with_texture(name),
{
}

/// Declaring a known name yields the handle it got before and declares no
/// new name; declaring a new name yields handle `k`, where `k` names were
/// declared before, and then `k + 1` names are declared.
pub proof fn lemma_texture_numbering(g: RenderGraphView, name: Seq<char>)
    requires
        g.wf(),
    ensures
        g.textures.contains_key(name) ==> g.texture_id(name) == g.textures[name]
            && g.with_texture(name).textures.dom().len() == g.textures.dom().len(),
        !g.textures.contains_key(name) ==> g.texture_id(name) == g.textures.dom().len()
            && g.with_texture(name).textures.dom().len() == g.textures.dom().len() + 1,
{
    if !g.textures.contains_key(name) {
        assert(g.with_texture(name).textures.dom() == g.textures.dom().insert(name));
    }
}

/// Distinct texture names get distinct handles, whichever of them were
/// declared before.
pub proof fn lemma_texture_names_distinct(g: RenderGraphView, a: Seq<char>, b: Seq<char>)
    requires
        g.wf(),
        g.next_texture_id < u32::MAX,
        a != b,
    ensures
        g.with_texture(a).texture_id(b) != g.texture_id(a),
{
}

/// Without any dependency between passes, the schedule is the registration
/// order.
pub proof fn lemma_independent_passes_keep_registration_order(p: Seq<PassSpec>, order: Seq<u32>)
    requires
        p.len() <= u32::MAX,
        forall|u: int, v: int| !#[trigger] depends(p, u, v),
        is_schedule(p, order),
    ensures
        order == Seq::new(p.len(), |i: int| i as u32),
{
    lemma_all_sources(p, p.len() as int);
    assert(order.subrange(0, p.len() as int) == order);
}

/// Whenever the declarations admit an order that respects every dependency,
/// a schedule runs every writer of a texture before each pass that reads it.
pub proof fn lemma_writers_run_before_readers(p: Seq<PassSpec>, order: Seq<u32>, i: int, j: int, tex: u32)
    requires
        is_schedule(p, order),
        has_topological_order(p),
        0 <= i < order.len(),
        0 <= j < order.len(),
        order[i] != order[j],
        p[order[i] as int].writes.contains(tex),
        p[order[j] as int].reads.contains(tex),
    ensures
        i < j,
{
    let v = order[j] as int;
    let b = choose|b: int| 0 <= b < p[v].reads.len() && p[v].reads[b] == tex;
    assert(writes_what_reads(p, order[i] as int, v));
    assert(depends(p, order[i] as int, order[j] as int));
}

/// The passes below `m` whose rank is `l`, in registration order.
pub open spec fn rank_level(rank: spec_fn(int) -> int, l: int, m: int) -> Seq<u32>
    decreases m,
{
    if m <= 0 {
        Seq::empty()
    } else if rank(m - 1) == l {
        rank_level(rank, l, m - 1).push((m - 1) as u32)
    } else {
        rank_level(rank, l, m - 1)
    }
}

/// The passes below `n` by rank: every pass of rank 0, then rank 1, and so
/// on up to rank `top - 1`, each level in registration order.
pub open spec fn rank_blocks(rank: spec_fn(int) -> int, n: int, top: int) -> Seq<u32>
    decreases top,
{
    if top <= 0 {
        Seq::empty()
    } else {
        rank_blocks(rank, n, top - 1) + rank_level(rank, top - 1, n)
    }
}

proof fn lemma_rank_level(rank: spec_fn(int) -> int, l: int, m: int)
    requires
        0 <= m <= u32::MAX + 1,
    ensures
        forall|k: int| 0 <= k < rank_level(rank, l, m).len() ==> #[trigger] rank_level(rank, l, m)[k] < m
            && rank(rank_level(rank, l, m)[k] as int) == l,
        forall|k1: int, k2: int| 0 <= k1 < k2 < rank_level(rank, l, m).len() ==> rank_level(rank, l, m)[k1] < rank_level(rank, l, m)[k2],
        forall|x: u32| x < m && rank(x as int) == l ==> #[trigger] rank_level(rank, l, m).contains(x),
    decreases m,
{
    if m > 0 {
        lemma_rank_level(rank, l, m - 1);
        let prev = rank_level(rank, l, m - 1);
        let cur = rank_level(rank, l, m);
        assert forall|x: u32| x < m && rank(x as int) == l implies cur.contains(x) by {
            if x < m - 1 {
                assert(prev.contains(x));
                let k = choose|k: int| 0 <= k < prev.len() && prev[k] == x;
                assert(cur[k] == x);
            } else {
                assert(cur[cur.len() - 1] == x);
            }
        }
    }
}

proof fn lemma_rank_blocks(rank: spec_fn(int) -> int, n: int, top: int)
    requires
        0 <= n <= u32::MAX + 1,
        0 <= top,
    ensures
        forall|k: int| 0 <= k < rank_blocks(rank, n, top).len() ==> #[trigger] rank_blocks(rank, n, top)[k] < n
            && 0 <= rank(rank_blocks(rank, n, top)[k] as int) < top,
        forall|k1: int, k2: int| 0 <= k1 < k2 < rank_blocks(rank, n, top).len()
            ==> rank(rank_blocks(rank, n, top)[k1] as int) <= rank(rank_blocks(rank, n, top)[k2] as int),
        rank_blocks(rank, n, top).no_duplicates(),
        forall|x: u32| x < n && 0 <= rank(x as int) < top ==> #[trigger] rank_blocks(rank, n, top).contains(x),
    decreases top,
{
    if top > 0 {
        lemma_rank_blocks(rank, n, top - 1);
        lemma_rank_level(rank, top - 1, n);
        let b = rank_blocks(rank, n, top - 1);
        let lv = rank_level(rank, top - 1, n);
        let all = rank_blocks(rank, n, top);
        assert(all == b + lv);
        assert forall|k: int| 0 <= k < all.len() implies #[trigger] all[k] < n && 0 <= rank(all[k] as int) < top by {
            if k >= b.len() {
                assert(all[k] == lv[k - b.len()]);
            } else {
                assert(all[k] == b[k]);
            }
        }
        assert forall|k1: int, k2: int| 0 <= k1 < k2 < all.len() implies rank(all[k1] as int) <= rank(all[k2] as int) by {
            if k2 < b.len() {
                assert(all[k1] == b[k1] && all[k2] == b[k2]);
            } else if k1 >= b.len() {
                assert(all[k1] == lv[k1 - b.len()] && all[k2] == lv[k2 - b.len()]);
            } else {
                assert(all[k1] == b[k1] && all[k2] == lv[k2 - b.len()]);
            }
        }
        assert forall|k1: int, k2: int| 0 <= k1 < all.len() && 0 <= k2 < all.len() && k1 != k2 implies all[k1] != all[k2] by {
            if k1 < b.len() && k2 < b.len() {
                assert(all[k1] == b[k1] && all[k2] == b[k2]);
            } else if k1 >= b.len() && k2 >= b.len() {
                assert(all[k1] == lv[k1 - b.len()] && all[k2] == lv[k2 - b.len()]);
            } else if k1 < b.len() {
                assert(all[k1] == b[k1] && all[k2] == lv[k2 - b.len()]);
            } else {
                assert(all[k2] == b[k2] && all[k1] == lv[k1 - b.len()]);
            }
        }
        assert forall|x: u32| x < n && 0 <= rank(x as int) < top implies all.contains(x) by {
            if rank(x as int) < top - 1 {
                assert(b.contains(x));
                let k = choose|k: int| 0 <= k < b.len() && b[k] == x;
                assert(all[k] == x);
            } else {
                assert(lv.contains(x));
                let k = choose|k: int| 0 <= k < lv.len() && lv[k] == x;
                assert(all[b.len() + k] == x);
            }
        }
    }
}

/// Passes that can be ranked so that every dependency has a lower rank than
/// the pass depending on it admit an execution order respecting every
/// dependency (and then every schedule respects every dependency).
pub proof fn lemma_ranked_passes_have_order(p: Seq<PassSpec>, rank: spec_fn(int) -> int, top: int)
    requires
        p.len() <= u32::MAX,
        forall|i: int| 0 <= i < p.len() ==> 0 <= #[trigger] rank(i) < top,
        forall|u: int, v: int| #[trigger] depends(p, u, v) ==> rank(u) < rank(v),
    ensures
        has_topological_order(p),
{
    let n = p.len() as int;
    let top = if top < 0 { 0 } else { top };
    lemma_rank_blocks(rank, n, top);
    let o = rank_blocks(rank, n, top);
    lemma_index_seq_count(o, p.len());
    assert forall|v: u32| v < p.len() implies o.contains(v) by {
        assert(0 <= rank(v as int) < top);
    }
    assert(is_pass_permutation(p.len(), o));
    assert forall|i: int, j: int|
        0 <= i < o.len() && 0 <= j < o.len() && depends(p, o[i] as int, o[j] as int) implies i < j by {
        if j <= i {
            if j < i {
                assert(rank(o[j] as int) <= rank(o[i] as int));
            }
        }
    }
    assert(is_topological(p, o));
}

/// When no pass depends on another, the dependency-free passes below `m` are
/// all of them, in registration order.
proof fn lemma_all_sources(p: Seq<PassSpec>, m: int)
    requires
        0 <= m <= p.len(),
        p.len() <= u32::MAX,
        forall|u: int, v: int| !#[trigger] depends(p, u, v),
    ensures
        sources_upto(p, m) == Seq::new(m as nat, |i: int| i as u32),
    decreases m,
{
    if m > 0 {
        lemma_all_sources(p, m - 1);
        assert(is_source(p, m - 1));
        assert(sources_upto(p, m) =~= Seq::new(m as nat, |i: int| i as u32));
    }
}

/// The list stored for texture `t`, empty when there is none.
spec fn writers_of(m: Map<u32, Seq<usize>>, t: u32) -> Seq<usize> {
    if m.contains_key(t) {
        m[t]
    } else {
        Seq::empty()
    }
}

/// Contents of the adjacency sets.
spec fn adj_sets(adj: Seq<FxHashSet<usize>>) -> Seq<Set<usize>> {
    adj.map_values(|s: FxHashSet<usize>| fx_index_set(s))
}

/// `v` depends on `u` through one of the first `r` textures `v` reads.
spec fn depends_upto(p: Seq<PassSpec>, u: int, v: int, r: int) -> bool {
    &&& 0 <= u < p.len()
    &&& 0 <= v < p.len()
    &&& u != v
    &&& exists|b: int| 0 <= b < r && b < p[v].reads.len() && p[u].writes.contains(#[trigger] p[v].reads[b])
}

/// Pass ids of a sequence of indices.
spec fn index_ids(q: Seq<usize>) -> Seq<u32> {
    q.map_values(|x: usize| x as u32)
}

/// Number of passes among the first `k` that are not `done` and whose
/// successor set holds `v`.
spec fn pending(a: Seq<Set<usize>>, done: Set<usize>, v: usize, k: int) -> nat
    decreases k,
{
    if k <= 0 {
        0
    } else {
        pending(a, done, v, k - 1) + (if a[k - 1].contains(v) && !done.contains((k - 1) as usize) {
            1nat
        } else {
            0nat
        })
    }
}

proof fn lemma_pending_zero(a: Seq<Set<usize>>, done: Set<usize>, v: usize, k: int)
    requires
        0 <= k <= a.len(),
        k <= usize::MAX + 1,
    ensures
        pending(a, done, v, k) <= k,
        pending(a, done, v, k) == 0 <==> forall|u: int|
            0 <= u < k && #[trigger] a[u].contains(v) ==> done.contains(u as usize),
    decreases k,
{
    if k > 0 {
        lemma_pending_zero(a, done, v, k - 1);
    }
}

proof fn lemma_pending_insert_edge(a: Seq<Set<usize>>, done: Set<usize>, src: usize, x: usize, v: usize, k: int)
    requires
        0 <= src < a.len(),
        0 <= k <= a.len(),
    ensures
        pending(a.update(src as int, a[src as int].insert(x)), done, v, k) == pending(a, done, v, k) + (if v == x
            && src < k && !a[src as int].contains(x) && !done.contains(src) {
            1nat
        } else {
            0nat
        }),
    decreases k,
{
    if k > 0 {
        lemma_pending_insert_edge(a, done, src, x, v, k - 1);
    }
}

proof fn lemma_pending_done_insert(a: Seq<Set<usize>>, done: Set<usize>, x: usize, v: usize, k: int)
    requires
        0 <= k <= a.len(),
        k <= usize::MAX + 1,
        x < k,
        !done.contains(x),
    ensures
        pending(a, done, v, k) == pending(a, done.insert(x), v, k) + (if a[x as int].contains(v) {
            1nat
        } else {
            0nat
        }),
    decreases k,
{
    if k - 1 > x {
        lemma_pending_done_insert(a, done, x, v, k - 1);
    } else {
        lemma_pending_same(a, done, done.insert(x), v, k - 1);
    }
}

proof fn lemma_pending_same(a: Seq<Set<usize>>, d1: Set<usize>, d2: Set<usize>, v: usize, k: int)
    requires
        0 <= k <= a.len(),
        k <= usize::MAX + 1,
        forall|u: usize| u < k ==> (d1.contains(u) <==> d2.contains(u)),
    ensures
        pending(a, d1, v, k) == pending(a, d2, v, k),
    decreases k,
{
    if k > 0 {
        lemma_pending_same(a, d1, d2, v, k - 1);
    }
}

/// Every entry of `sources_upto(p, m)` is a dependency-free pass below `m`,
/// and the entries increase strictly.
proof fn lemma_sources_facts(p: Seq<PassSpec>, m: int)
    requires
        0 <= m <= p.len(),
        p.len() <= u32::MAX,
    ensures
        forall|k: int| 0 <= k < sources_upto(p, m).len() ==> #[trigger] sources_upto(p, m)[k] < m
            && is_source(p, sources_upto(p, m)[k] as int),
        forall|k1: int, k2: int| 0 <= k1 < k2 < sources_upto(p, m).len()
            ==> sources_upto(p, m)[k1] < sources_upto(p, m)[k2],
        sources_upto(p, m).no_duplicates(),
        sources_upto(p, m).len() <= m,
    decreases m,
{
    if m > 0 {
        lemma_sources_facts(p, m - 1);
    }
}

/// A dependency-free pass is listed among the sources.
proof fn lemma_source_listed(p: Seq<PassSpec>, v: int, m: int)
    requires
        0 <= v < m <= p.len(),
        p.len() <= u32::MAX,
        is_source(p, v),
    ensures
        sources_upto(p, m).contains(v as u32),
    decreases m,
{
    if v < m - 1 {
        lemma_source_listed(p, v, m - 1);
        let prev = sources_upto(p, m - 1);
        let k = choose|k: int| 0 <= k < prev.len() && prev[k] == v as u32;
        if is_source(p, m - 1) {
            assert(sources_upto(p, m)[k] == v as u32);
        }
    } else {
        let s = sources_upto(p, m);
        assert(s[s.len() - 1] == v as u32);
    }
}

/// The first index at or after `lo` whose entry `done` does not list.
proof fn lemma_first_missing(o: Seq<u32>, done: Seq<u32>, lo: int) -> (m: int)
    requires
        0 <= lo <= o.len(),
        exists|i: int| lo <= i < o.len() && !done.contains(#[trigger] o[i]),
    ensures
        lo <= m < o.len(),
        !done.contains(o[m]),
        forall|i: int| lo <= i < m ==> done.contains(#[trigger] o[i]),
    decreases o.len() - lo,
{
    if !done.contains(o[lo]) {
        lo
    } else {
        lemma_first_missing(o, done, lo + 1)
    }
}

/// If every index that an order `og` leaves out has a left-out predecessor
/// under `dep`, and some permutation `o` orders every `dep` pair, nothing was
/// left out.
proof fn lemma_no_missing(n: nat, og: Seq<u32>, o: Seq<u32>, dep: spec_fn(int, int) -> bool)
    requires
        n <= u32::MAX,
        og.no_duplicates(),
        forall|k: int| 0 <= k < og.len() ==> #[trigger] og[k] < n,
        is_pass_permutation(n, o),
        forall|i: int, j: int| 0 <= i < o.len() && 0 <= j < o.len() && #[trigger] dep(o[i] as int, o[j] as int) ==> i < j,
        forall|v: u32| v < n && !og.contains(v) ==> exists|u: u32|
            u < n && !og.contains(u) && #[trigger] dep(u as int, v as int),
    ensures
        og.len() == n,
{
    lemma_index_seq_count(og, n);
    if og.len() != n {
        let v0 = choose|v: u32| v < n && !og.contains(v);
        lemma_index_seq_count(o, n);
        assert(o.contains(v0));
        let m = lemma_first_missing(o, og, 0);
        let v = o[m];
        let u = choose|u: u32| u < n && !og.contains(u) && #[trigger] dep(u as int, v as int);
        assert(o.contains(u));
        let mu = choose|i: int| 0 <= i < o.len() && o[i] == u;
        assert(dep(o[mu] as int, o[m] as int));
        assert(mu < m);
        assert(og.contains(o[mu]));
    }
}

/// If every pass that Kahn's algorithm left out has a left-out dependency,
/// and some order respects every dependency, nothing was left out.
proof fn lemma_kahn_complete(p: Seq<PassSpec>, og: Seq<u32>)
    requires
        p.len() <= u32::MAX,
        og.no_duplicates(),
        forall|k: int| 0 <= k < og.len() ==> #[trigger] og[k] < p.len(),
        forall|v: u32| v < p.len() && !og.contains(v) ==> exists|u: u32|
            u < p.len() && !og.contains(u) && #[trigger] depends(p, u as int, v as int),
        has_topological_order(p),
    ensures
        og.len() == p.len(),
{
    let o = choose|o: Seq<u32>| is_pass_permutation(p.len(), o) && is_topological(p, o);
    let dep = |u: int, v: int| depends(p, u, v);
    assert forall|v: u32| v < p.len() && !og.contains(v) implies exists|u: u32|
        u < p.len() && !og.contains(u) && #[trigger] dep(u as int, v as int) by {
        let u = choose|u: u32| u < p.len() && !og.contains(u) && #[trigger] depends(p, u as int, v as int);
        assert(dep(u as int, v as int));
    }
    lemma_no_missing(p.len(), og, o, dep);
}

/// Extending Kahn's output `kahn` by the passes it left out, in registration
/// order, gives a schedule.
proof fn lemma_extended_schedule(p: Seq<PassSpec>, kahn: Seq<u32>, o: Seq<u32>)
    requires
        p.len() <= u32::MAX,
        kahn.no_duplicates(),
        forall|k: int| 0 <= k < kahn.len() ==> #[trigger] kahn[k] < p.len(),
        closed_prefix(p, kahn, kahn.len() as int),
        sources(p).len() <= kahn.len(),
        kahn.subrange(0, sources(p).len() as int) == sources(p),
        has_topological_order(p) ==> kahn.len() == p.len(),
        forall|v: u32| v < p.len() && !kahn.contains(v) ==> exists|u: u32|
            u < p.len() && !kahn.contains(u) && #[trigger] depends(p, u as int, v as int),
        kahn.len() <= o.len(),
        o.subrange(0, kahn.len() as int) == kahn,
        o.no_duplicates(),
        forall|k: int| 0 <= k < o.len() ==> #[trigger] o[k] < p.len(),
        forall|v: u32| v < p.len() ==> o.contains(v),
        increasing_from(o, kahn.len() as int),
    ensures
        is_schedule(p, o),
{
    let n = p.len();
    let kk = kahn.len() as int;
    lemma_index_seq_count(o, n);
    assert(is_pass_permutation(n, o));
    assert forall|j: int, u: int| 0 <= j < kk && #[trigger] depends(p, u, o[j] as int)
        implies exists|i: int| 0 <= i < j && o[i] == u by {
        assert(o[j] == kahn[j]);
        let i = choose|i: int| 0 <= i < j && kahn[i] == u;
        assert(o[i] == kahn[i]);
    }
    assert(0 <= kk <= o.len() && closed_prefix(p, o, kk) && stuck_outside(p, o, kk) && increasing_from(o, kk));
    if has_topological_order(p) {
        assert(o.subrange(0, n as int) == o);
        assert(o == kahn);
        lemma_closed_is_topological(p, o);
    }
    let sl = sources(p).len() as int;
    assert(o.subrange(0, sl) == kahn.subrange(0, sl));
}

/// A duplicate-free order whose every prefix is dependency-closed respects
/// every dependency.
proof fn lemma_closed_is_topological(p: Seq<PassSpec>, o: Seq<u32>)
    requires
        o.no_duplicates(),
        closed_prefix(p, o, o.len() as int),
    ensures
        is_topological(p, o),
{
    assert forall|i: int, j: int|
        0 <= i < o.len() && 0 <= j < o.len() && depends(p, o[i] as int, o[j] as int) implies i < j by {
        let i2 = choose|i2: int| 0 <= i2 < j && o[i2] == o[i] as int;
        assert(o[i2] == o[i]);
    }
}

proof fn lemma_push_contains<A>(s: Seq<A>, a: A)
    ensures
        forall|x: A| #[trigger] s.push(a).contains(x) <==> (s.contains(x) || x == a),
{
    assert forall|x: A| #[trigger] s.push(a).contains(x) <==> (s.contains(x) || x == a) by {
        if s.contains(x) {
            let k = choose|k: int| 0 <= k < s.len() && s[k] == x;
            assert(s.push(a)[k] == x);
        }
        if x == a {
            assert(s.push(a)[s.len() as int] == x);
        }
        if s.push(a).contains(x) && x != a {
            let k = choose|k: int| 0 <= k < s.len() + 1 && s.push(a)[k] == x;
            assert(s[k] == x);
        }
    }
}

proof fn lemma_prefix_step<A>(s: Seq<A>, w: int)
    requires
        0 <= w < s.len(),
    ensures
        s.subrange(0, w + 1) == s.subrange(0, w).push(s[w]),
        forall|x: A| #[trigger] s.subrange(0, w + 1).contains(x) <==> (s.subrange(0, w).contains(x) || x == s[w]),
{
    assert(s.subrange(0, w + 1) =~= s.subrange(0, w).push(s[w]));
    lemma_push_contains(s.subrange(0, w), s[w]);
}

/// Append pass `i` to the writer list of texture `tex`.
fn append_writer(writers: &mut WriterMap, tex: u32, i: usize)
    ensures
        forall|t: u32| #![trigger writers_of(fx_writer_map(*final(writers)), t)]
            writers_of(fx_writer_map(*final(writers)), t) == if t == tex {
                writers_of(fx_writer_map(*old(writers)), t).push(i)
            } else {
                writers_of(fx_writer_map(*old(writers)), t)
            },
{
    let mut list = match fx_writer_map_get(writers, tex) {
        Some(l) => copy_indices(l),
        None => Vec::new(),
    };
    list.push(i);
    fx_writer_map_insert(writers, tex, list);
}

/// A copy of a list of indices.
fn copy_indices(v: &Vec<usize>) -> (r: Vec<usize>)
    ensures
        r@ == v@,
{
    let mut r: Vec<usize> = Vec::new();
    let mut k: usize = 0;
    while k < v.len()
        invariant
            0 <= k <= v@.len(),
            r@ == v@.subrange(0, k as int),
        decreases v@.len() - k,
    {
        r.push(v[k]);
        k = k + 1;
    }
    assert(v@.subrange(0, v@.len() as int) == v@);
    r
}

/// Whether `order` already holds the pass `id`.
fn contains_pass(order: &Vec<PassId>, id: u32) -> (found: bool)
    ensures
        found == pass_ids(order@).contains(id),
{
    let mut k: usize = 0;
    while k < order.len()
        invariant
            0 <= k <= order@.len(),
            forall|i: int| 0 <= i < k ==> pass_ids(order@)[i] != id,
        decreases order@.len() - k,
    {
        if order[k].0 == id {
            assert(pass_ids(order@)[k as int] == id);
            return true;
        }
        k = k + 1;
    }
    false
}

/// Link `i` of `s`: the pass at `i + 1` depends on the pass at `i`.
pub open spec fn chain_link(p: Seq<PassSpec>, s: Seq<u32>, i: int) -> bool {
    depends(p, s[i] as int, s[i + 1] as int)
}

/// `s` is a chain of dependencies: each pass of it depends on the one before.
pub open spec fn is_dependency_chain(p: Seq<PassSpec>, s: Seq<u32>) -> bool {
    forall|i: int| 0 <= i < s.len() - 1 ==> #[trigger] chain_link(p, s, i)
}

/// No chain of dependencies leads from a pass back to itself.
pub open spec fn is_acyclic(p: Seq<PassSpec>) -> bool {
    forall|s: Seq<u32>| #[trigger] is_dependency_chain(p, s) && s.len() >= 2 ==> s[0] != s[s.len() - 1]
}

/// The most dependencies in a chain of at most `k` of them ending at `v`.
spec fn chain_depth(p: Seq<PassSpec>, v: int, k: nat) -> nat
    decreases k, 0int,
{
    if k == 0 {
        0
    } else {
        deepest_pred(p, v, p.len() as int, (k - 1) as nat)
    }
}

/// The most dependencies, at most `k + 1`, in a chain ending at `v` whose
/// last step comes from one of the first `m` passes.
spec fn deepest_pred(p: Seq<PassSpec>, v: int, m: int, k: nat) -> nat
    decreases k, m,
{
    if m <= 0 {
        0
    } else {
        let rest = deepest_pred(p, v, m - 1, k);
        let here = if depends(p, m - 1, v) {
            1 + chain_depth(p, m - 1, k)
        } else {
            0
        };
        if here > rest {
            here
        } else {
            rest
        }
    }
}

proof fn lemma_pred_at_least(p: Seq<PassSpec>, v: int, m: int, k: nat, u: int)
    requires
        0 <= u < m,
        depends(p, u, v),
    ensures
        deepest_pred(p, v, m, k) >= 1 + chain_depth(p, u, k),
    decreases m,
{
    if u < m - 1 {
        lemma_pred_at_least(p, v, m - 1, k, u);
    }
}

proof fn lemma_pred_attained(p: Seq<PassSpec>, v: int, m: int, k: nat) -> (u: int)
    requires
        deepest_pred(p, v, m, k) > 0,
    ensures
        0 <= u < m,
        depends(p, u, v),
        deepest_pred(p, v, m, k) == 1 + chain_depth(p, u, k),
    decreases m,
{
    let rest = deepest_pred(p, v, m - 1, k);
    if depends(p, m - 1, v) && 1 + chain_depth(p, m - 1, k) > rest {
        m - 1
    } else {
        lemma_pred_attained(p, v, m - 1, k)
    }
}

proof fn lemma_pred_bounded(p: Seq<PassSpec>, v: int, m: int, k: nat)
    requires
        forall|u: int| chain_depth(p, u, k) <= k,
    ensures
        deepest_pred(p, v, m, k) <= k + 1,
    decreases m,
{
    if m > 0 {
        lemma_pred_bounded(p, v, m - 1, k);
        assert(chain_depth(p, m - 1, k) <= k);
    }
}

proof fn lemma_depth_bounded(p: Seq<PassSpec>, k: nat)
    ensures
        forall|v: int| chain_depth(p, v, k) <= k,
    decreases k,
{
    if k > 0 {
        lemma_depth_bounded(p, (k - 1) as nat);
        assert forall|v: int| chain_depth(p, v, k) <= k by {
            lemma_pred_bounded(p, v, p.len() as int, (k - 1) as nat);
        }
    }
}

proof fn lemma_pred_monotone(p: Seq<PassSpec>, v: int, m: int, k: nat)
    requires
        forall|u: int| chain_depth(p, u, k) <= chain_depth(p, u, k + 1),
    ensures
        deepest_pred(p, v, m, k) <= deepest_pred(p, v, m, k + 1),
    decreases m,
{
    if m > 0 {
        lemma_pred_monotone(p, v, m - 1, k);
        assert(chain_depth(p, m - 1, k) <= chain_depth(p, m - 1, k + 1));
    }
}

proof fn lemma_depth_monotone(p: Seq<PassSpec>, k: nat)
    ensures
        forall|v: int| chain_depth(p, v, k) <= chain_depth(p, v, k + 1),
    decreases k,
{
    if k > 0 {
        lemma_depth_monotone(p, (k - 1) as nat);
        assert forall|v: int| chain_depth(p, v, k) <= chain_depth(p, v, k + 1) by {
            lemma_pred_monotone(p, v, p.len() as int, (k - 1) as nat);
        }
    }
}

/// A depth that still grows at `k + 1` is as large as it can be.
proof fn lemma_depth_growth(p: Seq<PassSpec>, v: int, k: nat)
    requires
        chain_depth(p, v, k + 1) > chain_depth(p, v, k),
    ensures
        chain_depth(p, v, k + 1) == k + 1,
    decreases k,
{
    lemma_depth_bounded(p, k + 1);
    if k > 0 {
        let n = p.len() as int;
        let u = lemma_pred_attained(p, v, n, k);
        lemma_pred_at_least(p, v, n, (k - 1) as nat, u);
        lemma_depth_growth(p, u, (k - 1) as nat);
    }
}

/// A chain of dependencies as long as the depth of `v`, ending at `v`.
proof fn lemma_depth_chain(p: Seq<PassSpec>, v: int, k: nat) -> (s: Seq<u32>)
    requires
        0 <= v < p.len(),
        p.len() <= u32::MAX,
    ensures
        s.len() == chain_depth(p, v, k) + 1,
        s[s.len() - 1] == v as u32,
        is_dependency_chain(p, s),
        forall|i: int| 0 <= i < s.len() ==> #[trigger] s[i] < p.len(),
    decreases k,
{
    if chain_depth(p, v, k) == 0 {
        let s = seq![v as u32];
        assert(is_dependency_chain(p, s));
        s
    } else {
        let n = p.len() as int;
        let u = lemma_pred_attained(p, v, n, (k - 1) as nat);
        let t = lemma_depth_chain(p, u, (k - 1) as nat);
        let s = t.push(v as u32);
        assert forall|i: int| 0 <= i < s.len() - 1 implies #[trigger] chain_link(p, s, i) by {
            if i < t.len() - 1 {
                assert(chain_link(p, t, i));
            } else {
                assert(s[i] == u as u32);
            }
        }
        s
    }
}

/// In an acyclic graph no chain of dependencies visits a pass twice.
proof fn lemma_acyclic_chain_distinct(p: Seq<PassSpec>, s: Seq<u32>)
    requires
        is_acyclic(p),
        is_dependency_chain(p, s),
    ensures
        s.no_duplicates(),
{
    assert forall|i: int, j: int| 0 <= i < s.len() && 0 <= j < s.len() && i != j implies s[i] != s[j] by {
        let a = if i < j { i } else { j };
        let b = if i < j { j } else { i };
        let t = s.subrange(a, b + 1);
        assert forall|x: int| 0 <= x < t.len() - 1 implies #[trigger] chain_link(p, t, x) by {
            assert(chain_link(p, s, a + x));
        }
        assert(is_dependency_chain(p, t));
        assert(t[0] == s[a] && t[t.len() - 1] == s[b]);
    }
}

/// Whenever the passes have no cycle of dependencies, they admit an
/// execution order that respects every dependency.
pub proof fn lemma_acyclic_passes_have_order(p: Seq<PassSpec>)
    requires
        p.len() <= u32::MAX,
        is_acyclic(p),
    ensures
        has_topological_order(p),
{
    let n = p.len();
    if n > 0 {
        lemma_depth_bounded(p, n);
        lemma_depth_monotone(p, (n - 1) as nat);
        assert forall|v: int| 0 <= v < n implies chain_depth(p, v, n) <= n - 1 by {
            let s = lemma_depth_chain(p, v, n);
            lemma_acyclic_chain_distinct(p, s);
            lemma_index_seq_count(s, n);
        }
        assert forall|v: int| 0 <= v < n implies chain_depth(p, v, n) == chain_depth(p, v, (n - 1) as nat) by {
            if chain_depth(p, v, n) > chain_depth(p, v, (n - 1) as nat) {
                lemma_depth_growth(p, v, (n - 1) as nat);
            }
        }
        let rank = |i: int| chain_depth(p, i, n) as int;
        assert forall|u: int, v: int| #[trigger] depends(p, u, v) implies rank(u) < rank(v) by {
            lemma_pred_at_least(p, v, n as int, (n - 1) as nat, u);
        }
        lemma_ranked_passes_have_order(p, rank, n as int);
    } else {
        lemma_ranked_passes_have_order(p, |i: int| 0int, 1);
    }
}

/// Every schedule of passes without a cycle of dependencies runs each
/// writer of a texture before each other pass that reads it.
pub proof fn lemma_acyclic_writers_run_before_readers(p: Seq<PassSpec>, order: Seq<u32>, i: int, j: int, tex: u32)
    requires
        p.len() <= u32::MAX,
        is_acyclic(p),
        is_schedule(p, order),
        0 <= i < order.len(),
        0 <= j < order.len(),
        order[i] != order[j],
        p[order[i] as int].writes.contains(tex),
        p[order[j] as int].reads.contains(tex),
    ensures
        i < j,
{
    lemma_acyclic_passes_have_order(p);
    lemma_writers_run_before_readers(p, order, i, j, tex);
}

} // verus!
