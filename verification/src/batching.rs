//! Batching of the 2D draw commands of one frame.
//!
//! Commands are visited in order of (layer, texture), registration order
//! breaking ties, so lower layers are drawn first and commands sharing a
//! texture within a layer are contiguous.  Each command writes its vertices
//! into one vertex buffer; a run of commands with the same layer and texture
//! is drawn with one call.  A command that would not fit (six more vertices
//! than the buffer holds) is dropped together with every command after it,
//! and the frame is flagged so the buffer can grow before the next one.
use vstd::prelude::*;

verus! {

/// Bind key of the glyph atlas texture, used by every text command.
pub const GLYPH_ATLAS_BIND_ID: u32 = 4294967294;

/// Bind key of commands without a texture.
pub const UNTEXTURED_BIND_ID: u32 = 4294967295;

/// Bytes per vertex in the 2D vertex buffer.
pub const VERTEX_STRIDE: usize = 20;

/// What a draw command draws, as far as batching is concerned.
#[derive(Debug, Clone, Copy, PartialEq, Eq, Structural)]
pub enum DrawClass {
    /// A sprite, with the id of its texture if it has one.
    Sprite(Option<u64>),
    Rect,
    /// A line; `false` when it is too short to draw (under a thousandth of
    /// a unit long), so it writes no vertices.
    Line(bool),
    /// A text run laid out into this many glyph quads.
    Text(usize),
}

/// One draw command: its layer and what it draws.
#[derive(Debug, Clone, Copy, PartialEq, Eq, Structural)]
pub struct DrawItem {
    pub layer: i32,
    pub class: DrawClass,
}

/// One draw call: a texture, the layer whose projection applies, and a
/// range of vertices in the frame's vertex buffer.
#[derive(Debug, Clone, Copy, PartialEq, Eq, Structural)]
pub struct Batch {
    pub layer: i32,
    pub texture: u32,
    pub first_vertex: usize,
    pub vertex_count: usize,
}

/// How a frame's commands are drawn.
pub struct FramePlan {
    /// Command indices in drawing order.
    pub order: Vec<usize>,
    /// How many commands of `order`, from the front, fit in the buffer.
    pub drawn: usize,
    /// The draw calls, in order.
    pub batches: Vec<Batch>,
    /// Some command did not fit.
    pub overflow: bool,
    /// Textured sprites drawn.
    pub sprite_count: u32,
    /// Vertices written.
    pub vertex_end: usize,
}

/// The bind key of a command: its texture id for a textured sprite (the
/// untextured key when the id does not fit 32 bits), the glyph atlas for
/// text, and the untextured key otherwise.
pub open spec fn bind_key(c: DrawClass) -> u32 {
    match c {
        DrawClass::Sprite(Some(id)) => if id <= u32::MAX { id as u32 } else { UNTEXTURED_BIND_ID },
        DrawClass::Text(_) => GLYPH_ATLAS_BIND_ID,
        _ => UNTEXTURED_BIND_ID,
    }
}

/// Vertices a command writes when drawn: a quad for textured sprites,
/// rectangles and lines long enough to draw, none for an untextured sprite
/// or a too-short line, a quad per glyph for text.
pub open spec fn vertex_count_of(c: DrawClass) -> nat {
    match c {
        DrawClass::Sprite(Some(_)) => 6,
        DrawClass::Sprite(None) => 0,
        DrawClass::Rect => 6,
        DrawClass::Line(long) => if long { 6 } else { 0 },
        DrawClass::Text(q) => (6 * q) as nat,
    }
}

/// Whether a command counts as a drawn sprite.
pub open spec fn is_textured_sprite(c: DrawClass) -> bool {
    c matches DrawClass::Sprite(Some(_))
}

/// The sort key of command `i`: layer, bind key, then the index itself.
pub open spec fn sort_key(items: Seq<DrawItem>, i: int) -> (i32, u32, usize) {
    (items[i].layer, bind_key(items[i].class), i as usize)
}

/// Lexicographic order on sort keys.
pub open spec fn key_le(a: (i32, u32, usize), b: (i32, u32, usize)) -> bool {
    a.0 < b.0 || (a.0 == b.0 && (a.1 < b.1 || (a.1 == b.1 && a.2 <= b.2)))
}

/// `order` visits each command once, by increasing sort key.
pub open spec fn is_draw_order(items: Seq<DrawItem>, order: Seq<usize>) -> bool {
    &&& order.len() == items.len()
    &&& forall|k: int| 0 <= k < order.len() ==> #[trigger] order[k] < items.len()
    &&& order.no_duplicates()
    &&& forall|k: int, l: int|
        0 <= k < l < order.len() ==> key_le(sort_key(items, order[k] as int), sort_key(items, order[l] as int))
}

/// The batching state after some commands.
pub struct PlanState {
    pub offset: nat,
    pub batch_start: nat,
    pub current: Option<(i32, u32)>,
    pub batches: Seq<Batch>,
    pub overflow: bool,
    pub sprites: nat,
    pub drawn: nat,
}

/// The state before any command.
pub open spec fn plan_start() -> PlanState {
    PlanState { offset: 0, batch_start: 0, current: None, batches: Seq::empty(), overflow: false, sprites: 0, drawn: 0 }
}

/// `s` with the pending run closed into a draw call, if it wrote anything.
pub open spec fn flushed(s: PlanState) -> PlanState {
    match s.current {
        Some(k) => if s.offset > s.batch_start {
            PlanState {
                batches: s.batches.push(
                    Batch {
                        layer: k.0,
                        texture: k.1,
                        first_vertex: s.batch_start as usize,
                        vertex_count: (s.offset - s.batch_start) as usize,
                    },
                ),
                batch_start: s.offset,
                ..s
            }
        } else {
            PlanState { batch_start: s.offset, ..s }
        },
        None => PlanState { batch_start: s.offset, ..s },
    }
}

/// The state after visiting command `it` with `capacity` vertices of room:
/// a new (layer, texture) closes the pending run; then the command is
/// dropped (and the frame flagged) when six more vertices would not fit,
/// else its vertices are appended.
pub open spec fn plan_step(s: PlanState, it: DrawItem, capacity: nat) -> PlanState {
    let key = (it.layer, bind_key(it.class));
    let s1 = if s.current == Some(key) { s } else { PlanState { current: Some(key), ..flushed(s) } };
    if s1.offset + 6 > capacity {
        PlanState { overflow: true, ..s1 }
    } else {
        PlanState {
            offset: s1.offset + vertex_count_of(it.class),
            sprites: s1.sprites + (if is_textured_sprite(it.class) { 1nat } else { 0nat }),
            drawn: s1.drawn + 1,
            ..s1
        }
    }
}

/// The state after visiting the first `k` commands of `order`.
pub open spec fn plan_prefix(items: Seq<DrawItem>, order: Seq<usize>, capacity: nat, k: nat) -> PlanState
    decreases k,
{
    if k == 0 {
        plan_start()
    } else {
        plan_step(plan_prefix(items, order, capacity, (k - 1) as nat), items[order[k - 1] as int], capacity)
    }
}

/// The final state: every command visited and the last run closed.
pub open spec fn plan_result(items: Seq<DrawItem>, order: Seq<usize>, capacity: nat) -> PlanState {
    flushed(plan_prefix(items, order, capacity, order.len()))
}

/// Lexicographic order of the std tuple order on `(i32, u32, usize)`.
pub open spec fn triple_le(a: (i32, u32, usize), b: (i32, u32, usize)) -> bool {
    key_le(a, b)
}

/// `slice::sort` on sort keys: the same keys, in the tuples' (lexicographic) order.
#[verifier::external_body]
fn sort_keys(v: &mut Vec<(i32, u32, usize)>)
    ensures
        final(v)@.to_multiset() == old(v)@.to_multiset(),
        forall|i: int, j: int| 0 <= i < j < final(v)@.len() ==> triple_le(final(v)@[i], final(v)@[j]),
{
    v.sort();
}

/// The bind key of a command.
pub fn draw_bind_key(c: DrawClass) -> (key: u32)
    ensures
        key == bind_key(c),
{
    match c {
        DrawClass::Sprite(Some(id)) => if id <= 4294967295 { id as u32 } else { UNTEXTURED_BIND_ID },
        DrawClass::Text(_) => GLYPH_ATLAS_BIND_ID,
        _ => UNTEXTURED_BIND_ID,
    }
}

/// Vertices a command writes when drawn.
pub fn draw_vertex_count(c: DrawClass) -> (n: usize)
    requires
        vertex_count_of(c) <= usize::MAX,
    ensures
        n == vertex_count_of(c),
{
    match c {
        DrawClass::Sprite(Some(_)) => 6,
        DrawClass::Sprite(None) => 0,
        DrawClass::Rect => 6,
        DrawClass::Line(long) => if long {
            6
        } else {
            0
        },
        DrawClass::Text(q) => 6 * q,
    }
}

/// The order of sorted keys is a drawing order.
proof fn lemma_sorted_keys_order(items: Seq<DrawItem>, keys0: Seq<(i32, u32, usize)>, sorted: Seq<(i32, u32, usize)>)
    requires
        items.len() <= usize::MAX,
        keys0.len() == items.len(),
        forall|i: int| 0 <= i < keys0.len() ==> #[trigger] keys0[i] == sort_key(items, i),
        sorted.to_multiset() == keys0.to_multiset(),
        forall|i: int, j: int| 0 <= i < j < sorted.len() ==> triple_le(sorted[i], sorted[j]),
    ensures
        sorted.len() == items.len(),
        forall|k: int| 0 <= k < sorted.len() ==> (#[trigger] sorted[k]).2 < items.len() && sorted[k] == sort_key(items, sorted[k].2 as int),
        is_draw_order(items, sorted.map_values(|t: (i32, u32, usize)| t.2)),
{
    broadcast use vstd::seq_lib::group_to_multiset_ensures;
    assert(keys0.no_duplicates()) by {
        assert forall|i: int, j: int| 0 <= i < keys0.len() && 0 <= j < keys0.len() && i != j implies keys0[i] != keys0[j] by {
            assert(keys0[i].2 == i as usize);
            assert(keys0[j].2 == j as usize);
        }
    }
    keys0.lemma_multiset_has_no_duplicates();
    assert(sorted.len() == keys0.len()) by {
        sorted.to_multiset_ensures();
        keys0.to_multiset_ensures();
        assert(sorted.to_multiset().len() == keys0.to_multiset().len());
    }
    sorted.lemma_multiset_has_no_duplicates_conv();
    assert forall|k: int| 0 <= k < sorted.len() implies (#[trigger] sorted[k]).2 < items.len() && sorted[k] == sort_key(items, sorted[k].2 as int) by {
        assert(sorted.contains(sorted[k]));
        assert(sorted.to_multiset().count(sorted[k]) > 0);
        assert(keys0.contains(sorted[k]));
        let i = choose|i: int| 0 <= i < keys0.len() && keys0[i] == sorted[k];
        assert(keys0[i] == sort_key(items, i));
    }
    let order = sorted.map_values(|t: (i32, u32, usize)| t.2);
    assert forall|k: int, l: int| 0 <= k < order.len() && 0 <= l < order.len() && k != l implies order[k] != order[l] by {
        assert(sorted[k] == sort_key(items, sorted[k].2 as int));
        assert(sorted[l] == sort_key(items, sorted[l].2 as int));
    }
    assert forall|k: int, l: int| 0 <= k < l < order.len() implies key_le(sort_key(items, order[k] as int), sort_key(items, order[l] as int)) by {
        assert(sorted[k] == sort_key(items, sorted[k].2 as int));
        assert(sorted[l] == sort_key(items, sorted[l].2 as int));
        assert(triple_le(sorted[k], sorted[l]));
    }
}

/// Plan how the frame's commands are drawn into a vertex buffer with room
/// for `capacity` vertices.
pub fn plan_frame(items: &Vec<DrawItem>, capacity: usize) -> (plan: FramePlan)
    requires
        items@.len() <= u32::MAX,
        capacity * VERTEX_STRIDE <= usize::MAX,
        forall|i: int| 0 <= i < items@.len() ==> vertex_count_of(#[trigger] items@[i].class) + capacity + 6 <= usize::MAX,
    ensures
        is_draw_order(items@, plan.order@),
        plan.batches@ == plan_result(items@, plan.order@, capacity as nat).batches,
        plan.overflow == plan_result(items@, plan.order@, capacity as nat).overflow,
        plan.sprite_count == plan_result(items@, plan.order@, capacity as nat).sprites,
        plan.drawn == plan_result(items@, plan.order@, capacity as nat).drawn,
        plan.vertex_end == plan_result(items@, plan.order@, capacity as nat).offset,
{
    let n = items.len();
    let mut keys: Vec<(i32, u32, usize)> = Vec::new();
    let mut i: usize = 0;
    while i < n
        invariant
            n == items@.len(),
            0 <= i <= n,
            keys@.len() == i,
            forall|j: int| 0 <= j < i ==> #[trigger] keys@[j] == sort_key(items@, j),
        decreases n - i,
    {
        keys.push((items[i].layer, draw_bind_key(items[i].class), i));
        i = i + 1;
    }
    let ghost keys0 = keys@;
    sort_keys(&mut keys);
    proof {
        lemma_sorted_keys_order(items@, keys0, keys@);
    }
    let mut order: Vec<usize> = Vec::new();
    let mut k: usize = 0;
    while k < n
        invariant
            n == items@.len(),
            keys@.len() == n,
            0 <= k <= n,
            order@.len() == k,
            forall|j: int| 0 <= j < k ==> #[trigger] order@[j] == keys@[j].2,
        decreases n - k,
    {
        order.push(keys[k].2);
        k = k + 1;
    }
    proof {
        assert(order@ =~= keys@.map_values(|t: (i32, u32, usize)| t.2));
    }
    let ghost cap = capacity as nat;
    let mut offset: usize = 0;
    let mut batch_start: usize = 0;
    let mut current: Option<(i32, u32)> = None;
    let mut batches: Vec<Batch> = Vec::new();
    let mut overflow = false;
    let mut sprites: u32 = 0;
    let mut drawn: usize = 0;
    let mut k: usize = 0;
    while k < n
        invariant
            n == items@.len(),
            n <= u32::MAX,
            is_draw_order(items@, order@),
            forall|i: int| 0 <= i < items@.len() ==> vertex_count_of(#[trigger] items@[i].class) + capacity + 6 <= usize::MAX,
            cap == capacity,
            0 <= k <= n,
            offset + 6 <= usize::MAX,
            batch_start <= offset,
            drawn <= k,
            sprites <= drawn,
            plan_prefix(items@, order@, cap, k as nat) == (PlanState {
                offset: offset as nat,
                batch_start: batch_start as nat,
                current,
                batches: batches@,
                overflow,
                sprites: sprites as nat,
                drawn: drawn as nat,
            }),
        decreases n - k,
    {
        let idx = order[k];
        let it = items[idx];
        let key = (it.layer, draw_bind_key(it.class));
        let same = match current {
            Some(c) => c.0 == key.0 && c.1 == key.1,
            None => false,
        };
        if !same {
            if let Some(c) = current {
                if offset > batch_start {
                    batches.push(
                        Batch { layer: c.0, texture: c.1, first_vertex: batch_start, vertex_count: offset - batch_start },
                    );
                }
            }
            batch_start = offset;
            current = Some(key);
        }
        if offset + 6 > capacity {
            overflow = true;
        } else {
            let verts = draw_vertex_count(it.class);
            offset = offset + verts;
            if let DrawClass::Sprite(Some(_)) = it.class {
                sprites = sprites + 1;
            }
            drawn = drawn + 1;
        }
        k = k + 1;
    }
    if let Some(c) = current {
        if offset > batch_start {
            batches.push(Batch { layer: c.0, texture: c.1, first_vertex: batch_start, vertex_count: offset - batch_start });
        }
    }
    FramePlan { order, drawn, batches, overflow, sprite_count: sprites, vertex_end: offset }
}

/// Strict lexicographic order on (layer, bind key) pairs.
pub open spec fn pair_lt(a: (i32, u32), b: (i32, u32)) -> bool {
    a.0 < b.0 || (a.0 == b.0 && a.1 < b.1)
}

/// The draw calls of `s` tile the written vertices `[0, batch_start)`: each
/// is non-empty, starts where the previous one ended, and their
/// (layer, texture) pairs strictly increase.
pub open spec fn batches_tile(s: PlanState) -> bool {
    let b = s.batches;
    &&& forall|i: int| 0 <= i < b.len() ==> #[trigger] b[i].vertex_count > 0
    &&& forall|i: int| 0 <= i < b.len() - 1 ==> #[trigger] b[i].first_vertex + b[i].vertex_count == b[i + 1].first_vertex
    &&& forall|i: int, j: int| 0 <= i < j < b.len() ==> pair_lt((b[i].layer, b[i].texture), (b[j].layer, b[j].texture))
    &&& b.len() == 0 ==> s.batch_start == 0
    &&& b.len() > 0 ==> b[0].first_vertex == 0 && b.last().first_vertex + b.last().vertex_count == s.batch_start
}

/// The invariant of the batching state after `k` commands of a drawing order.
pub open spec fn prefix_inv(items: Seq<DrawItem>, order: Seq<usize>, capacity: nat, k: nat, s: PlanState) -> bool {
    &&& s.batch_start <= s.offset
    &&& s.offset + 6 <= usize::MAX
    &&& batches_tile(s)
    &&& s.drawn <= k
    &&& !s.overflow ==> s.drawn == k
    &&& s.overflow ==> s.offset + 6 > capacity
    &&& (k == 0) == (s.current is None)
    &&& k > 0 ==> s.current == Some((items[order[k - 1] as int].layer, bind_key(items[order[k - 1] as int].class)))
    &&& s.current matches Some(c) ==> forall|i: int| 0 <= i < s.batches.len() ==> pair_lt((#[trigger] s.batches[i].layer, s.batches[i].texture), c)
}

/// The batching invariant holds after every prefix of a drawing order.
proof fn lemma_prefix_inv(items: Seq<DrawItem>, order: Seq<usize>, capacity: nat, k: nat)
    requires
        is_draw_order(items, order),
        k <= order.len(),
        forall|i: int| 0 <= i < items.len() ==> vertex_count_of(#[trigger] items[i].class) + capacity + 6 <= usize::MAX,
    ensures
        prefix_inv(items, order, capacity, k, plan_prefix(items, order, capacity, k)),
    decreases k,
{
    if k > 0 {
        let k1 = (k - 1) as nat;
        lemma_prefix_inv(items, order, capacity, k1);
        let s = plan_prefix(items, order, capacity, k1);
        let it = items[order[k1 as int] as int];
        let key = (it.layer, bind_key(it.class));
        if k1 > 0 {
            let prev = items[order[k1 - 1] as int];
            assert(key_le(sort_key(items, order[k1 - 1] as int), sort_key(items, order[k1 as int] as int)));
            if s.current != Some(key) {
                assert(pair_lt((prev.layer, bind_key(prev.class)), key));
            }
        }
        let f = flushed(s);
        assert(batches_tile(f));
        if s.current != Some(key) {
            assert forall|i: int| 0 <= i < f.batches.len() implies pair_lt((#[trigger] f.batches[i].layer, f.batches[i].texture), key) by {
                if i < s.batches.len() {
                    assert(f.batches[i] == s.batches[i]);
                }
            }
        }
    }
}

/// The draw calls of a frame tile the written vertices: each is non-empty,
/// the first starts at vertex 0, each starts where the previous one ended,
/// the last ends at the end of the written vertices, and no two share a
/// layer and texture (their pairs strictly increase).
pub proof fn lemma_batches_tile_written_vertices(items: Seq<DrawItem>, order: Seq<usize>, capacity: nat)
    requires
        is_draw_order(items, order),
        forall|i: int| 0 <= i < items.len() ==> vertex_count_of(#[trigger] items[i].class) + capacity + 6 <= usize::MAX,
    ensures
        ({
            let r = plan_result(items, order, capacity);
            &&& batches_tile(r)
            &&& r.batch_start == r.offset
        }),
{
    lemma_prefix_inv(items, order, capacity, order.len());
}

/// Without an overflow every command is drawn; a command is dropped only
/// together with every command after it.
pub proof fn lemma_drawn_prefix(items: Seq<DrawItem>, order: Seq<usize>, capacity: nat, k: nat, l: nat)
    requires
        is_draw_order(items, order),
        forall|i: int| 0 <= i < items.len() ==> vertex_count_of(#[trigger] items[i].class) + capacity + 6 <= usize::MAX,
        k <= l <= order.len(),
    ensures
        !plan_result(items, order, capacity).overflow ==> plan_result(items, order, capacity).drawn == order.len(),
        plan_prefix(items, order, capacity, k).overflow ==> {
            &&& plan_prefix(items, order, capacity, l).drawn == plan_prefix(items, order, capacity, k).drawn
            &&& plan_prefix(items, order, capacity, l).offset == plan_prefix(items, order, capacity, k).offset
            &&& plan_prefix(items, order, capacity, l).overflow
        },
    decreases l - k,
{
    lemma_prefix_inv(items, order, capacity, order.len());
    if k < l {
        lemma_drawn_prefix(items, order, capacity, k, (l - 1) as nat);
        lemma_prefix_inv(items, order, capacity, (l - 1) as nat);
    }
}

/// The command at position `k` of the drawing order was drawn.
pub open spec fn drawn_at(items: Seq<DrawItem>, order: Seq<usize>, capacity: nat, k: int) -> bool {
    plan_prefix(items, order, capacity, (k + 1) as nat).drawn == plan_prefix(items, order, capacity, k as nat).drawn + 1
}

/// The first vertex written by the command at position `k` of the order.
pub open spec fn first_vertex_of(items: Seq<DrawItem>, order: Seq<usize>, capacity: nat, k: int) -> nat {
    plan_prefix(items, order, capacity, k as nat).offset
}

/// What the state `s` owes the drawn command at position `k`: its vertices
/// are written, every draw call holding its first vertex has its layer and
/// texture, and, once past the last draw call, it belongs to the pending
/// run.
spec fn command_ok(items: Seq<DrawItem>, order: Seq<usize>, capacity: nat, k: int, s: PlanState) -> bool {
    let it = items[order[k] as int];
    let start = first_vertex_of(items, order, capacity, k);
    drawn_at(items, order, capacity, k) && vertex_count_of(it.class) > 0 ==> {
        &&& start + vertex_count_of(it.class) <= s.offset
        &&& forall|j: int|
            0 <= j < s.batches.len() && #[trigger] s.batches[j].first_vertex <= start < s.batches[j].first_vertex
                + s.batches[j].vertex_count ==> s.batches[j].layer == it.layer && s.batches[j].texture == bind_key(it.class)
        &&& start >= s.batch_start ==> s.current == Some((it.layer, bind_key(it.class)))
    }
}

/// Draw calls end before the pending run starts, which starts no later than
/// the written vertices end.
spec fn calls_before_run(s: PlanState) -> bool {
    &&& s.batch_start <= s.offset
    &&& forall|j: int| 0 <= j < s.batches.len() ==> #[trigger] s.batches[j].first_vertex + s.batches[j].vertex_count <= s.batch_start
}

proof fn lemma_flush_keeps_commands(items: Seq<DrawItem>, order: Seq<usize>, capacity: nat, m: nat, s: PlanState)
    requires
        calls_before_run(s),
        s.offset <= usize::MAX,
        forall|k: int| 0 <= k < m ==> #[trigger] command_ok(items, order, capacity, k, s),
    ensures
        calls_before_run(flushed(s)),
        flushed(s).offset == s.offset,
        flushed(s).batch_start == s.offset,
        forall|k: int| 0 <= k < m ==> #[trigger] command_ok(items, order, capacity, k, flushed(s)),
{
    let f = flushed(s);
    assert forall|j: int| 0 <= j < f.batches.len() implies #[trigger] f.batches[j].first_vertex + f.batches[j].vertex_count <= f.batch_start by {
        if j < s.batches.len() {
            assert(f.batches[j] == s.batches[j]);
        }
    }
    assert forall|k: int| 0 <= k < m implies #[trigger] command_ok(items, order, capacity, k, f) by {
        assert(command_ok(items, order, capacity, k, s));
        let it = items[order[k] as int];
        let start = first_vertex_of(items, order, capacity, k);
        if drawn_at(items, order, capacity, k) && vertex_count_of(it.class) > 0 {
            assert forall|j: int|
                0 <= j < f.batches.len() && #[trigger] f.batches[j].first_vertex <= start < f.batches[j].first_vertex
                    + f.batches[j].vertex_count implies f.batches[j].layer == it.layer && f.batches[j].texture == bind_key(it.class) by {
                if j < s.batches.len() {
                    assert(f.batches[j] == s.batches[j]);
                } else {
                    let c = s.current->Some_0;
                    assert(f.batches[j] == Batch {
                        layer: c.0,
                        texture: c.1,
                        first_vertex: s.batch_start as usize,
                        vertex_count: (s.offset - s.batch_start) as usize,
                    });
                    assert(start >= s.batch_start);
                }
            }
        }
    }
}

proof fn lemma_own_commands(items: Seq<DrawItem>, order: Seq<usize>, capacity: nat, m: nat)
    requires
        is_draw_order(items, order),
        m <= order.len(),
        forall|i: int| 0 <= i < items.len() ==> vertex_count_of(#[trigger] items[i].class) + capacity + 6 <= usize::MAX,
    ensures
        calls_before_run(plan_prefix(items, order, capacity, m)),
        forall|k: int| 0 <= k < m ==> #[trigger] command_ok(items, order, capacity, k, plan_prefix(items, order, capacity, m)),
    decreases m,
{
    if m > 0 {
        let m1 = (m - 1) as nat;
        lemma_own_commands(items, order, capacity, m1);
        lemma_prefix_inv(items, order, capacity, m1);
        let s = plan_prefix(items, order, capacity, m1);
        let it = items[order[m1 as int] as int];
        let key = (it.layer, bind_key(it.class));
        let s2 = plan_prefix(items, order, capacity, m);
        lemma_flush_keeps_commands(items, order, capacity, m1, s);
        let s1 = if s.current == Some(key) { s } else { PlanState { current: Some(key), ..flushed(s) } };
        assert(s2 == plan_step(s, it, capacity));
        assert(calls_before_run(s1));
        assert(forall|k: int| 0 <= k < m1 ==> #[trigger] command_ok(items, order, capacity, k, s1)) by {
            if s.current != Some(key) {
                assert forall|k: int| 0 <= k < m1 implies #[trigger] command_ok(items, order, capacity, k, s1) by {
                    assert(command_ok(items, order, capacity, k, flushed(s)));
                }
            }
        }
        assert forall|j: int| 0 <= j < s2.batches.len() implies #[trigger] s2.batches[j].first_vertex + s2.batches[j].vertex_count <= s2.batch_start by {
            assert(s2.batches[j] == s1.batches[j]);
        }
        assert forall|k: int| 0 <= k < m implies #[trigger] command_ok(items, order, capacity, k, s2) by {
            let ik = items[order[k] as int];
            let start = first_vertex_of(items, order, capacity, k);
            if k < m1 {
                assert(command_ok(items, order, capacity, k, s1));
                if drawn_at(items, order, capacity, k) && vertex_count_of(ik.class) > 0 {
                    assert forall|j: int|
                        0 <= j < s2.batches.len() && #[trigger] s2.batches[j].first_vertex <= start < s2.batches[j].first_vertex
                            + s2.batches[j].vertex_count implies s2.batches[j].layer == ik.layer && s2.batches[j].texture == bind_key(ik.class) by {
                        assert(s2.batches[j] == s1.batches[j]);
                    }
                }
            } else {
                assert(start == s.offset);
                if drawn_at(items, order, capacity, k) && vertex_count_of(ik.class) > 0 {
                    assert forall|j: int|
                        0 <= j < s2.batches.len() && #[trigger] s2.batches[j].first_vertex <= start < s2.batches[j].first_vertex
                            + s2.batches[j].vertex_count implies s2.batches[j].layer == ik.layer && s2.batches[j].texture == bind_key(ik.class) by {
                        assert(s2.batches[j] == s1.batches[j]);
                        assert(s1.batches[j].first_vertex + s1.batches[j].vertex_count <= s1.batch_start);
                    }
                }
            }
        }
    }
}

/// Every draw call holds only commands of its own layer and texture: a
/// drawn command that writes vertices, the first of them inside a draw call,
/// has that call's layer (so is drawn with that layer's projection) and that
/// call's texture.  Commands of different layers never share a draw call.
pub proof fn lemma_draw_calls_hold_their_own_commands(items: Seq<DrawItem>, order: Seq<usize>, capacity: nat, k: int, j: int)
    requires
        is_draw_order(items, order),
        forall|i: int| 0 <= i < items.len() ==> vertex_count_of(#[trigger] items[i].class) + capacity + 6 <= usize::MAX,
        0 <= k < order.len(),
        drawn_at(items, order, capacity, k),
        vertex_count_of(items[order[k] as int].class) > 0,
        0 <= j < plan_result(items, order, capacity).batches.len(),
        plan_result(items, order, capacity).batches[j].first_vertex <= first_vertex_of(items, order, capacity, k),
        first_vertex_of(items, order, capacity, k) < plan_result(items, order, capacity).batches[j].first_vertex
            + plan_result(items, order, capacity).batches[j].vertex_count,
    ensures
        plan_result(items, order, capacity).batches[j].layer == items[order[k] as int].layer,
        plan_result(items, order, capacity).batches[j].texture == bind_key(items[order[k] as int].class),
{
    let n = order.len();
    lemma_own_commands(items, order, capacity, n);
    lemma_prefix_inv(items, order, capacity, n);
    lemma_flush_keeps_commands(items, order, capacity, n, plan_prefix(items, order, capacity, n));
    assert(command_ok(items, order, capacity, k, plan_result(items, order, capacity)));
}

} // verus!
