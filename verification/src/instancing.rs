//! Instanced drawing of the sorted 3D draw list: consecutive entries that
//! share mesh, material and lightmaps are drawn as one instanced call.
//!
//! The list is walked up to an end index (the whole list, or where the
//! transparent entries start) with the key `(u32::MAX, ..)` standing for the
//! end; a run closes whenever the key changes.
use vstd::prelude::*;

verus! {

/// A draw key: mesh, material, lightmap and directional lightmap.
#[derive(Debug, Clone, Copy, PartialEq, Eq, Structural)]
pub struct DrawRunKey {
    pub mesh: u32,
    pub material: u32,
    pub lightmap: u32,
    pub dir_lightmap: u32,
}

/// The key that closes the walk.
pub open spec fn end_key() -> DrawRunKey {
    DrawRunKey { mesh: u32::MAX, material: u32::MAX, lightmap: u32::MAX, dir_lightmap: u32::MAX }
}

/// One instanced call: the key and the range of draw-list entries.
#[derive(Debug, Clone, Copy, PartialEq, Eq, Structural)]
pub struct InstanceRun {
    pub key: DrawRunKey,
    pub first: usize,
    pub count: usize,
}

/// The walk state: the current key, where its run started, and the closed runs.
pub struct RunState {
    pub last: DrawRunKey,
    pub start: nat,
    pub runs: Seq<InstanceRun>,
}

/// The state after visiting entry `i` with key `cur`: a change of key closes
/// the pending run (when it is not empty) and starts a new one at `i`.
pub open spec fn run_step(s: RunState, cur: DrawRunKey, i: nat) -> RunState {
    if cur != s.last {
        RunState {
            last: cur,
            start: i,
            runs: if i > s.start {
                s.runs.push(InstanceRun { key: s.last, first: s.start as usize, count: (i - s.start) as usize })
            } else {
                s.runs
            },
        }
    } else {
        s
    }
}

/// The state after the first `i` entries.
pub open spec fn runs_prefix(keys: Seq<DrawRunKey>, i: nat) -> RunState
    decreases i,
{
    if i == 0 {
        RunState { last: end_key(), start: 0, runs: Seq::empty() }
    } else {
        run_step(runs_prefix(keys, (i - 1) as nat), keys[i - 1], (i - 1) as nat)
    }
}

/// The runs of the first `end` entries: the walk, closed by the end key.
pub open spec fn instance_runs_of(keys: Seq<DrawRunKey>, end: nat) -> Seq<InstanceRun> {
    run_step(runs_prefix(keys, end), end_key(), end).runs
}

/// The instanced calls for the first `end` entries of the sorted draw list.
pub fn instance_runs(keys: &Vec<DrawRunKey>, end: usize) -> (runs: Vec<InstanceRun>)
    requires
        end <= keys@.len(),
    ensures
        runs@ == instance_runs_of(keys@, end as nat),
{
    let mut runs: Vec<InstanceRun> = Vec::new();
    let mut last = DrawRunKey { mesh: u32::MAX, material: u32::MAX, lightmap: u32::MAX, dir_lightmap: u32::MAX };
    let mut start: usize = 0;
    let mut i: usize = 0;
    while i <= end
        invariant_except_break
            end <= keys@.len(),
            0 <= i <= end,
            start <= i,
            runs_prefix(keys@, i as nat) == (RunState { last, start: start as nat, runs: runs@ }),
        ensures
            runs@ == instance_runs_of(keys@, end as nat),
        decreases end + 1 - i,
    {
        let done = i == end;
        let cur = if done {
            DrawRunKey { mesh: u32::MAX, material: u32::MAX, lightmap: u32::MAX, dir_lightmap: u32::MAX }
        } else {
            keys[i]
        };
        let changed = cur != last;
        if changed && i > start {
            runs.push(InstanceRun { key: last, first: start, count: i - start });
        }
        if done {
            break;
        }
        if changed {
            last = cur;
            start = i;
        }
        i = i + 1;
    }
    runs
}

/// The runs tile the walked entries: each run is non-empty, starts where the
/// previous one ended, and holds entries of its own key; consecutive runs
/// have different keys; and, when no walked entry carries the end key, the
/// first run starts at entry 0 and the last ends at `end`.
pub open spec fn runs_tile(keys: Seq<DrawRunKey>, runs: Seq<InstanceRun>, end: nat) -> bool {
    &&& forall|r: int| 0 <= r < runs.len() ==> #[trigger] runs[r].count > 0 && runs[r].first + runs[r].count <= end
    &&& forall|r: int| 0 <= r < runs.len() - 1 ==> #[trigger] runs[r].first + runs[r].count == runs[r + 1].first
    &&& forall|r: int| 0 <= r < runs.len() - 1 ==> #[trigger] runs[r].key != runs[r + 1].key
    &&& forall|r: int, e: int|
        0 <= r < runs.len() && runs[r].first <= e < runs[r].first + runs[r].count ==> #[trigger] keys[e] == #[trigger] runs[r].key
    &&& (forall|e: int| 0 <= e < end ==> #[trigger] keys[e] != end_key()) ==> {
        &&& end > 0 ==> runs.len() > 0 && runs[0].first == 0 && runs.last().first + runs.last().count == end
        &&& end == 0 ==> runs.len() == 0
    }
}

/// The walk invariant after `i` entries.
spec fn prefix_runs_inv(keys: Seq<DrawRunKey>, i: nat, s: RunState) -> bool {
    &&& s.start <= i
    &&& forall|e: int| s.start <= e < i ==> keys[e] == s.last
    &&& i > 0 && s.start < i ==> s.last == keys[i - 1]
    &&& runs_tile(keys, s.runs, s.start)
    &&& s.runs.len() > 0 ==> s.runs.last().first + s.runs.last().count == s.start && s.runs.last().key != s.last
    &&& (forall|e: int| 0 <= e < i ==> #[trigger] keys[e] != end_key()) ==> {
        &&& i > 0 ==> s.start < i
        &&& s.runs.len() == 0 ==> s.start == 0
        &&& s.runs.len() > 0 ==> s.runs[0].first == 0
    }
}

proof fn lemma_prefix_runs(keys: Seq<DrawRunKey>, i: nat)
    requires
        i <= keys.len(),
        i <= usize::MAX,
    ensures
        prefix_runs_inv(keys, i, runs_prefix(keys, i)),
    decreases i,
{
    if i > 0 {
        lemma_prefix_runs(keys, (i - 1) as nat);
        let s = runs_prefix(keys, (i - 1) as nat);
        let t = runs_prefix(keys, i);
        if (forall|e: int| 0 <= e < i ==> #[trigger] keys[e] != end_key()) {
            assert(forall|e: int| 0 <= e < i - 1 ==> #[trigger] keys[e] != end_key());
        }
        if keys[i - 1] != s.last && i - 1 > s.start {
            let r = InstanceRun { key: s.last, first: s.start as usize, count: (i - 1 - s.start) as usize };
            assert(t.runs == s.runs.push(r));
            assert forall|q: int, e: int| 0 <= q < t.runs.len() && t.runs[q].first <= e < t.runs[q].first + t.runs[q].count
                implies #[trigger] keys[e] == #[trigger] t.runs[q].key by {
                if q < s.runs.len() {
                    assert(t.runs[q] == s.runs[q]);
                }
            }
        }
    }
}

/// The runs of a walk tile the walked entries.
pub proof fn lemma_instance_runs_tile(keys: Seq<DrawRunKey>, end: nat)
    requires
        end <= keys.len(),
        end <= usize::MAX,
    ensures
        runs_tile(keys, instance_runs_of(keys, end), end),
{
    lemma_prefix_runs(keys, end);
    let s = runs_prefix(keys, end);
    let t = run_step(s, end_key(), end);
    if end_key() != s.last && end > s.start {
        let r = InstanceRun { key: s.last, first: s.start as usize, count: (end - s.start) as usize };
        assert(t.runs == s.runs.push(r));
        assert forall|q: int, e: int| 0 <= q < t.runs.len() && t.runs[q].first <= e < t.runs[q].first + t.runs[q].count
            implies #[trigger] keys[e] == #[trigger] t.runs[q].key by {
            if q < s.runs.len() {
                assert(t.runs[q] == s.runs[q]);
            }
        }
    }
}

} // verus!
