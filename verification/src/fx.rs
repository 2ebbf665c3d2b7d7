//! Trusted boundary to the Fx-hashed collections of `rustc_hash`.
//!
//! `FxHashMap` and `FxHashSet` are std's `HashMap`/`HashSet` driven by
//! `rustc_hash::FxBuildHasher`, a unit build-hasher whose hashers start from a
//! zero state.  vstd's specifications of the std collections only speak for
//! hashers it knows, so each operation the render graph uses is given a
//! contract here over a name for what the collection holds.
use vstd::prelude::*;
use rustc_hash::{FxBuildHasher, FxHashMap, FxHashSet};
use std::collections::{HashMap, HashSet};

verus! {

/// Fx-hashed map from texture ids to the passes that write them.
pub type WriterMap = FxHashMap<u32, Vec<usize>>;

/// Fx-hashed map from texture names to texture ids.
pub type NameMap = FxHashMap<String, u32>;

/// Fx-hashed map from mesh ids to their `[first_index, index_count, base_vertex]`.
pub type MeshEntryMap = FxHashMap<u32, [u32; 3]>;

/// Fx-hashed map from layout keys to a storage slot and a use generation.
pub type LayoutIndex = FxHashMap<[u32; 4], (usize, u64)>;

/// The build-hasher of `rustc_hash`.
#[verifier::external_type_specification]
#[verifier::external_body]
pub struct ExFxBuildHasher(FxBuildHasher);

/// What an Fx-hashed set of indices holds.
pub uninterp spec fn fx_index_set(s: HashSet<usize, FxBuildHasher>) -> Set<usize>;

/// What an Fx-hashed map from texture ids to writer lists holds.
pub uninterp spec fn fx_writer_map(m: HashMap<u32, Vec<usize>, FxBuildHasher>) -> Map<u32, Seq<usize>>;

/// What an Fx-hashed map from texture names to texture ids holds.
pub uninterp spec fn fx_name_map(m: HashMap<String, u32, FxBuildHasher>) -> Map<Seq<char>, u32>;

/// What an Fx-hashed map from mesh ids to mesh entries holds.
pub uninterp spec fn fx_mesh_entries(m: HashMap<u32, [u32; 3], FxBuildHasher>) -> Map<u32, Seq<u32>>;

/// What an Fx-hashed map from layout keys to slots and generations holds.
pub uninterp spec fn fx_layout_index(m: HashMap<[u32; 4], (usize, u64), FxBuildHasher>) -> Map<Seq<u32>, (usize, u64)>;

/// `FxHashSet::default()`: a new set holds nothing.
#[verifier::external_body]
pub(crate) fn fx_index_set_new() -> (s: FxHashSet<usize>)
    ensures
        fx_index_set(s) == Set::<usize>::empty(),
{
    FxHashSet::default()
}

/// `HashSet::insert` on an Fx-hashed set: afterwards the set also holds `x`;
/// the result tells whether `x` was absent before.
#[verifier::external_body]
pub(crate) fn fx_index_set_insert(s: &mut FxHashSet<usize>, x: usize) -> (fresh: bool)
    ensures
        fx_index_set(*final(s)) == fx_index_set(*old(s)).insert(x),
        fresh == !fx_index_set(*old(s)).contains(x),
{
    s.insert(x)
}

/// `HashSet::iter` on an Fx-hashed set, each item copied out: every element
/// exactly once, in the set's own walking order (which is not stated).
#[verifier::external_body]
pub(crate) fn fx_index_set_elements(s: &FxHashSet<usize>) -> (v: Vec<usize>)
    ensures
        v@.to_set() == fx_index_set(*s),
        v@.no_duplicates(),
{
    s.iter().copied().collect()
}

/// `FxHashMap::default()` for writer lists: a new map holds nothing.
#[verifier::external_body]
pub(crate) fn fx_writer_map_new() -> (m: WriterMap)
    ensures
        fx_writer_map(m) =~= Map::empty(),
{
    FxHashMap::default()
}

/// `HashMap::get` on the writer map: the list stored under `key`, if any.
#[verifier::external_body]
pub(crate) fn fx_writer_map_get<'a>(m: &'a FxHashMap<u32, Vec<usize>>, key: u32) -> (r: Option<&'a Vec<usize>>)
    ensures
        match r {
            Some(v) => fx_writer_map(*m).contains_key(key) && v@ == fx_writer_map(*m)[key],
            None => !fx_writer_map(*m).contains_key(key),
        },
{
    m.get(&key)
}

/// `HashMap::insert` on the writer map: `key` now maps to `value`, other keys keep theirs.
#[verifier::external_body]
pub(crate) fn fx_writer_map_insert(m: &mut FxHashMap<u32, Vec<usize>>, key: u32, value: Vec<usize>)
    ensures
        fx_writer_map(*final(m)) == fx_writer_map(*old(m)).insert(key, value@),
{
    m.insert(key, value);
}

/// `FxHashMap::default()` for texture names: a new map holds nothing.
#[verifier::external_body]
pub(crate) fn fx_name_map_new() -> (m: NameMap)
    ensures
        fx_name_map(m) =~= Map::empty(),
{
    FxHashMap::default()
}

/// `HashMap::get` on the name map (looked up by `&str`), the id copied out.
#[verifier::external_body]
pub(crate) fn fx_name_map_get(m: &FxHashMap<String, u32>, name: &str) -> (r: Option<u32>)
    ensures
        match r {
            Some(id) => fx_name_map(*m).contains_key(name@) && id == fx_name_map(*m)[name@],
            None => !fx_name_map(*m).contains_key(name@),
        },
{
    m.get(name).copied()
}

/// `HashMap::insert` on the name map: `name` now maps to `id`, other names keep theirs.
#[verifier::external_body]
pub(crate) fn fx_name_map_insert(m: &mut FxHashMap<String, u32>, name: String, id: u32)
    ensures
        fx_name_map(*final(m)) == fx_name_map(*old(m)).insert(name@, id),
{
    m.insert(name, id);
}

/// `FxHashMap::default()` for mesh entries: a new map holds nothing.
#[verifier::external_body]
pub(crate) fn fx_mesh_entries_new() -> (m: MeshEntryMap)
    ensures
        fx_mesh_entries(m) =~= Map::empty(),
{
    FxHashMap::default()
}

/// `HashMap::get` on the mesh entries, the entry copied out.
#[verifier::external_body]
pub(crate) fn fx_mesh_entries_get(m: &MeshEntryMap, key: u32) -> (r: Option<[u32; 3]>)
    ensures
        match r {
            Some(e) => fx_mesh_entries(*m).contains_key(key) && e@ == fx_mesh_entries(*m)[key],
            None => !fx_mesh_entries(*m).contains_key(key),
        },
{
    m.get(&key).copied()
}

/// `HashMap::insert` on the mesh entries: `key` now maps to `entry`, other keys keep theirs.
#[verifier::external_body]
pub(crate) fn fx_mesh_entries_insert(m: &mut MeshEntryMap, key: u32, entry: [u32; 3])
    ensures
        fx_mesh_entries(*final(m)) == fx_mesh_entries(*old(m)).insert(key, entry@),
{
    m.insert(key, entry);
}

/// `HashMap::clear` on the mesh entries: afterwards the map holds nothing.
#[verifier::external_body]
pub(crate) fn fx_mesh_entries_clear(m: &mut MeshEntryMap)
    ensures
        fx_mesh_entries(*final(m)) =~= Map::empty(),
{
    m.clear();
}

/// `FxHashMap::with_capacity_and_hasher` for the layout index: a new map holds nothing.
#[verifier::external_body]
pub(crate) fn fx_layout_index_with_capacity(capacity: usize) -> (m: LayoutIndex)
    ensures
        fx_layout_index(m) =~= Map::empty(),
{
    FxHashMap::with_capacity_and_hasher(capacity, FxBuildHasher)
}

/// `HashMap::get` on the layout index, the value copied out.
#[verifier::external_body]
pub(crate) fn fx_layout_index_get(m: &LayoutIndex, key: &[u32; 4]) -> (r: Option<(usize, u64)>)
    ensures
        match r {
            Some(v) => fx_layout_index(*m).contains_key(key@) && v == fx_layout_index(*m)[key@],
            None => !fx_layout_index(*m).contains_key(key@),
        },
{
    m.get(key).copied()
}

/// `HashMap::insert` on the layout index: `key` now maps to `value`, other keys keep theirs.
#[verifier::external_body]
pub(crate) fn fx_layout_index_insert(m: &mut LayoutIndex, key: [u32; 4], value: (usize, u64))
    ensures
        fx_layout_index(*final(m)) == fx_layout_index(*old(m)).insert(key@, value),
{
    m.insert(key, value);
}

/// `HashMap::remove` on the layout index: `key` no longer maps to anything, other keys keep theirs.
#[verifier::external_body]
pub(crate) fn fx_layout_index_remove(m: &mut LayoutIndex, key: &[u32; 4])
    ensures
        fx_layout_index(*final(m)) == fx_layout_index(*old(m)).remove(key@),
{
    m.remove(key);
}

/// `HashMap::clear` on the layout index: afterwards the map holds nothing.
#[verifier::external_body]
pub(crate) fn fx_layout_index_clear(m: &mut LayoutIndex)
    ensures
        fx_layout_index(*final(m)) =~= Map::empty(),
{
    m.clear();
}

/// `HashMap::len` on the layout index: the number of keys it holds.
#[verifier::external_body]
pub(crate) fn fx_layout_index_len(m: &LayoutIndex) -> (n: usize)
    ensures
        n == fx_layout_index(*m).dom().len(),
{
    m.len()
}

/// `HashMap::iter` on the layout index, each entry copied out: every key
/// exactly once with its value, in the map's own walking order (which is
/// not stated).
#[verifier::external_body]
pub(crate) fn fx_layout_index_entries(m: &LayoutIndex) -> (v: Vec<([u32; 4], usize, u64)>)
    ensures
        forall|i: int| 0 <= i < v@.len() ==> fx_layout_index(*m).contains_key(#[trigger] v@[i].0@)
            && fx_layout_index(*m)[v@[i].0@] == (v@[i].1, v@[i].2),
        forall|k: Seq<u32>| fx_layout_index(*m).contains_key(k) ==> exists|i: int| 0 <= i < v@.len() && #[trigger] v@[i].0@ == k,
        forall|i: int, j: int| 0 <= i < j < v@.len() ==> v@[i].0@ != v@[j].0@,
{
    m.iter().map(|(k, &(slot, generation))| (*k, slot, generation)).collect()
}

} // verus!
