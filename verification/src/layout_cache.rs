//! Least-recently-used cache of laid-out text, keyed by four 32-bit words
//! (font, content hash, size and wrap bits).
//!
//! Every entry carries the generation at which it was last inserted or read;
//! each insertion and each hit starts a new generation, so no two entries
//! share one.  Inserting a new key into a full cache first evicts the entry
//! of the oldest generation: the least recently used one.
use vstd::prelude::*;
use crate::fx::{
    fx_layout_index, fx_layout_index_clear, fx_layout_index_entries, fx_layout_index_get, fx_layout_index_insert,
    fx_layout_index_len, fx_layout_index_remove, fx_layout_index_with_capacity, LayoutIndex,
};

verus! {

/// An LRU cache of values of type `V`.
pub struct LayoutCache<V> {
    index: LayoutIndex,
    slots: Vec<Option<V>>,
    free: Vec<usize>,
    lru_gen: u64,
    cap: usize,
}

/// Abstract state: each cached key with its value and last-use generation,
/// the current generation, and the capacity.
pub struct LayoutCacheView<V> {
    pub entries: Map<Seq<u32>, (V, u64)>,
    pub generation: u64,
    pub cap: usize,
}

impl<V> View for LayoutCache<V> {
    type V = LayoutCacheView<V>;

    closed spec fn view(&self) -> LayoutCacheView<V> {
        let idx = fx_layout_index(self.index);
        LayoutCacheView {
            entries: Map::new(|k: Seq<u32>| idx.contains_key(k), |k: Seq<u32>| (self.slots@[idx[k].0 as int]->Some_0, idx[k].1)),
            generation: self.lru_gen,
            cap: self.cap,
        }
    }
}

/// The larger of the capacity and 1: how many entries the cache can hold.
pub open spec fn room(cap: usize) -> nat {
    if cap >= 1 {
        cap as nat
    } else {
        1
    }
}

impl<V> LayoutCacheView<V> {
    /// The cache holds finitely many entries, at most as many as it has room
    /// for, no entry is newer than the current generation, and no two
    /// entries share a generation.
    pub open spec fn wf(self) -> bool {
        &&& self.entries.dom().finite()
        &&& self.entries.dom().len() <= room(self.cap)
        &&& forall|k: Seq<u32>| #[trigger] self.entries.contains_key(k) ==> self.entries[k].1 <= self.generation
        &&& forall|a: Seq<u32>, b: Seq<u32>|
            #[trigger] self.entries.contains_key(a) && #[trigger] self.entries.contains_key(b) && a != b
                ==> self.entries[a].1 != self.entries[b].1
    }
}

impl<V> LayoutCache<V> {
    /// The storage invariant: every cached key owns a distinct occupied
    /// slot, and the free list names distinct empty slots.
    pub closed spec fn inv(&self) -> bool {
        let idx = fx_layout_index(self.index);
        &&& idx.dom().finite()
        &&& forall|k: Seq<u32>| #[trigger] idx.contains_key(k) ==> idx[k].0 < self.slots@.len() && self.slots@[idx[k].0 as int] is Some
        &&& forall|a: Seq<u32>, b: Seq<u32>|
            #[trigger] idx.contains_key(a) && #[trigger] idx.contains_key(b) && a != b ==> idx[a].0 != idx[b].0
        &&& forall|i: int| 0 <= i < self.free@.len() ==> #[trigger] self.free@[i] < self.slots@.len() && self.slots@[self.free@[i] as int] is None
        &&& self.free@.no_duplicates()
    }

    /// An empty cache with room for `cap` entries.
    pub fn new(cap: usize) -> (c: Self)
        requires
            cap < usize::MAX,
        ensures
            c.inv(),
            c@.wf(),
            c@.entries =~= Map::empty(),
            c@.generation == 0,
            c@.cap == cap,
    {
        let c = LayoutCache { index: fx_layout_index_with_capacity(cap + 1), slots: Vec::new(), free: Vec::new(), lru_gen: 0, cap };
        assert(c@.entries =~= Map::empty());
        c
    }

    /// The current generation.
    pub fn generation(&self) -> (g: u64)
        ensures
            g == self@.generation,
    {
        self.lru_gen
    }

    /// Drop every entry; the generation counter keeps counting.
    pub fn clear(&mut self)
        requires
            old(self).inv(),
            old(self)@.wf(),
        ensures
            final(self).inv(),
            final(self)@.wf(),
            final(self)@.entries =~= Map::empty(),
            final(self)@.generation == old(self)@.generation,
            final(self)@.cap == old(self)@.cap,
    {
        fx_layout_index_clear(&mut self.index);
        self.slots.clear();
        self.free.clear();
        assert(self@.entries =~= Map::empty());
    }

    /// The cached value for `key`, if any; a hit starts a new generation
    /// and stamps the entry with it, making it the most recently used.
    pub fn get(&mut self, key: [u32; 4]) -> (r: Option<&V>)
        requires
            old(self).inv(),
            old(self)@.wf(),
            old(self)@.generation < u64::MAX,
        ensures
            final(self).inv(),
            final(self)@.wf(),
            final(self)@.cap == old(self)@.cap,
            match r {
                Some(v) => {
                    &&& old(self)@.entries.contains_key(key@)
                    &&& *v == old(self)@.entries[key@].0
                    &&& final(self)@.generation == old(self)@.generation + 1
                    &&& final(self)@.entries == old(self)@.entries.insert(key@, (*v, (old(self)@.generation + 1) as u64))
                },
                None => !old(self)@.entries.contains_key(key@) && final(self)@ == old(self)@,
            },
    {
        match fx_layout_index_get(&self.index, &key) {
            Some((slot, _)) => {
                let ghost e0 = self@.entries;
                self.lru_gen = self.lru_gen + 1;
                let generation = self.lru_gen;
                fx_layout_index_insert(&mut self.index, key, (slot, generation));
                proof {
                    let idx = fx_layout_index(self.index);
                    assert(self@.entries =~= e0.insert(key@, (e0[key@].0, generation)));
                    assert forall|a: Seq<u32>, b: Seq<u32>|
                        #[trigger] idx.contains_key(a) && #[trigger] idx.contains_key(b) && a != b implies idx[a].0 != idx[b].0 by {
                    }
                }
                match &self.slots[slot] {
                    Some(v) => Some(v),
                    None => None,
                }
            },
            None => None,
        }
    }

    /// Cache `value` under `key`.  When the cache is full and `key` is new,
    /// the entry of the oldest generation (the least recently used) is
    /// evicted first.  The insertion starts a new generation.
    pub fn insert(&mut self, key: [u32; 4], value: V)
        requires
            old(self).inv(),
            old(self)@.wf(),
            old(self)@.generation < u64::MAX,
        ensures
            final(self).inv(),
            final(self)@.wf(),
            final(self)@.generation == old(self)@.generation + 1,
            final(self)@.cap == old(self)@.cap,
            final(self)@.entries.contains_key(key@),
            final(self)@.entries[key@] == (value, (old(self)@.generation + 1) as u64),
            ({
                let o = old(self)@.entries;
                let stamped = (value, (old(self)@.generation + 1) as u64);
                if o.dom().len() >= old(self)@.cap && !o.contains_key(key@) && o.dom().len() > 0 {
                    exists|victim: Seq<u32>|
                        #![trigger o.remove(victim)]
                        o.contains_key(victim) && (forall|k: Seq<u32>| #[trigger] o.contains_key(k) && k != victim ==> o[victim].1 < o[k].1)
                            && final(self)@.entries == o.remove(victim).insert(key@, stamped)
                } else {
                    final(self)@.entries == o.insert(key@, stamped)
                }
            }),
    {
        let ghost o = self@.entries;
        proof {
            assert(o.dom() =~= fx_layout_index(self.index).dom());
        }
        let len = fx_layout_index_len(&self.index);
        let existing = fx_layout_index_get(&self.index, &key);
        let ghost mut victim: Seq<u32> = key@;
        let ghost mut evicted = false;
        if len >= self.cap && existing.is_none() {
            let entries = fx_layout_index_entries(&self.index);
            if entries.len() > 0 {
                let mut best: usize = 0;
                let mut i: usize = 1;
                while i < entries.len()
                    invariant
                        0 < entries@.len(),
                        1 <= i <= entries@.len(),
                        best < i,
                        forall|j: int| 0 <= j < i ==> entries@[best as int].2 <= #[trigger] entries@[j].2,
                    decreases entries@.len() - i,
                {
                    if entries[i].2 < entries[best].2 {
                        best = i;
                    }
                    i = i + 1;
                }
                let (vk, vslot, _) = entries[best];
                let ghost idx0 = fx_layout_index(self.index);
                proof {
                    victim = vk@;
                    evicted = true;
                    assert(idx0.contains_key(vk@));
                    assert forall|k: Seq<u32>| #[trigger] o.contains_key(k) implies o[victim].1 <= o[k].1 by {
                        let j = choose|j: int| 0 <= j < entries@.len() && #[trigger] entries@[j].0@ == k;
                        assert(entries@[best as int].2 <= entries@[j].2);
                    }
                }
                fx_layout_index_remove(&mut self.index, &vk);
                self.slots.set(vslot, None);
                self.free.push(vslot);
                proof {
                    let idx = fx_layout_index(self.index);
                    assert(idx == idx0.remove(vk@));
                    assert forall|k: Seq<u32>| #[trigger] idx.contains_key(k) implies idx[k].0 < self.slots@.len()
                        && self.slots@[idx[k].0 as int] is Some by {
                        assert(idx0.contains_key(k));
                        assert(idx0[k].0 != idx0[vk@].0);
                    }
                    assert forall|a: Seq<u32>, b: Seq<u32>|
                        #[trigger] idx.contains_key(a) && #[trigger] idx.contains_key(b) && a != b implies idx[a].0 != idx[b].0 by {
                        assert(idx0.contains_key(a) && idx0.contains_key(b));
                    }
                    let f = self.free@;
                    assert forall|j: int| 0 <= j < f.len() implies #[trigger] f[j] < self.slots@.len()
                        && self.slots@[f[j] as int] is None by {
                        if j < f.len() - 1 {
                            assert(f[j] == old(self).free@[j]);
                        }
                    }
                    assert(f.no_duplicates()) by {
                        assert forall|a: int, b: int| 0 <= a < f.len() && 0 <= b < f.len() && a != b implies f[a] != f[b] by {
                            if a == f.len() - 1 {
                                assert(self.slots@[f[b] as int] is None);
                            } else if b == f.len() - 1 {
                                assert(self.slots@[f[a] as int] is None);
                            }
                        }
                    }
                    assert(self@.entries =~= o.remove(victim));
                }
            } else {
                proof {
                    assert forall|k: Seq<u32>| !o.contains_key(k) by {
                        if o.contains_key(k) {
                            let j = choose|j: int| 0 <= j < entries@.len() && #[trigger] entries@[j].0@ == k;
                        }
                    }
                    assert(o.dom() =~= Set::<Seq<u32>>::empty());
                }
            }
        }
        self.lru_gen = self.lru_gen + 1;
        let generation = self.lru_gen;
        let ghost mid = self@.entries;
        let ghost idx1 = fx_layout_index(self.index);
        proof {
            assert(mid == (if evicted { o.remove(victim) } else { o }));
        }
        match fx_layout_index_get(&self.index, &key) {
            Some((slot, _)) => {
                self.slots.set(slot, Some(value));
                fx_layout_index_insert(&mut self.index, key, (slot, generation));
                proof {
                    let idx = fx_layout_index(self.index);
                    assert forall|k: Seq<u32>| #[trigger] idx.contains_key(k) implies idx[k].0 < self.slots@.len()
                        && self.slots@[idx[k].0 as int] is Some by {
                    }
                    assert forall|a: Seq<u32>, b: Seq<u32>|
                        #[trigger] idx.contains_key(a) && #[trigger] idx.contains_key(b) && a != b implies idx[a].0 != idx[b].0 by {
                        assert(idx1.contains_key(a) && idx1.contains_key(b));
                    }
                    assert forall|j: int| 0 <= j < self.free@.len() implies #[trigger] self.free@[j] < self.slots@.len()
                        && self.slots@[self.free@[j] as int] is None by {
                        assert(self.free@[j] != slot);
                    }
                    assert(self@.entries =~= mid.insert(key@, (value, generation)));
                }
            },
            None => {
                let slot = match self.free.pop() {
                    Some(s) => s,
                    None => {
                        self.slots.push(None);
                        self.slots.len() - 1
                    },
                };
                let ghost slots_before = self.slots@;
                proof {
                    assert(slot < self.slots@.len() && self.slots@[slot as int] is None);
                    assert forall|k: Seq<u32>| #[trigger] idx1.contains_key(k) implies idx1[k].0 != slot by {
                    }
                }
                self.slots.set(slot, Some(value));
                fx_layout_index_insert(&mut self.index, key, (slot, generation));
                proof {
                    let idx = fx_layout_index(self.index);
                    assert forall|k: Seq<u32>| #[trigger] idx.contains_key(k) implies idx[k].0 < self.slots@.len()
                        && self.slots@[idx[k].0 as int] is Some by {
                    }
                    assert forall|a: Seq<u32>, b: Seq<u32>|
                        #[trigger] idx.contains_key(a) && #[trigger] idx.contains_key(b) && a != b implies idx[a].0 != idx[b].0 by {
                        if a != key@ && b != key@ {
                            assert(idx1.contains_key(a) && idx1.contains_key(b));
                        } else if a == key@ {
                            assert(idx1.contains_key(b));
                        } else {
                            assert(idx1.contains_key(a));
                        }
                    }
                    assert forall|j: int| 0 <= j < self.free@.len() implies #[trigger] self.free@[j] < self.slots@.len()
                        && self.slots@[self.free@[j] as int] is None by {
                        assert(self.free@[j] != slot);
                    }
                    assert forall|k: Seq<u32>| k != key@ && #[trigger] idx1.contains_key(k) implies self.slots@[idx1[k].0 as int]
                        == slots_before[idx1[k].0 as int] by {
                    }
                    assert(self@.entries =~= mid.insert(key@, (value, generation)));
                }
            },
        }
        proof {
            let e = self@.entries;
            let stamped = (value, generation);
            assert(e.dom() =~= mid.dom().insert(key@));
            assert(len == o.dom().len());
            assert(existing.is_none() == !o.contains_key(key@));
            assert(e == mid.insert(key@, stamped));
            if evicted {
                assert(o.contains_key(victim));
                assert(!o.contains_key(key@));
                assert(key@ != victim);
                assert(o.remove(victim).dom().len() == o.dom().len() - 1);
                assert forall|k: Seq<u32>| #[trigger] o.contains_key(k) && k != victim implies o[victim].1 < o[k].1 by {
                    assert(o[victim].1 <= o[k].1);
                }
                assert(o.contains_key(victim) && (forall|k: Seq<u32>| #[trigger] o.contains_key(k) && k != victim ==> o[victim].1 < o[k].1)
                    && e == o.remove(victim).insert(key@, stamped));
            } else if o.contains_key(key@) {
                assert(e.dom() =~= o.dom());
            }
            assert forall|k: Seq<u32>| #[trigger] e.contains_key(k) implies e[k].1 <= self@.generation by {
                if k != key@ {
                    assert(o.contains_key(k));
                }
            }
            assert forall|a: Seq<u32>, b: Seq<u32>|
                #[trigger] e.contains_key(a) && #[trigger] e.contains_key(b) && a != b implies e[a].1 != e[b].1 by {
                if a != key@ {
                    assert(o.contains_key(a));
                }
                if b != key@ {
                    assert(o.contains_key(b));
                }
            }
        }
    }
}

} // verus!
