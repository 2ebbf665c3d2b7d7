//! Placement of meshes in the shared ("mega") vertex and index buffers used
//! for indirect drawing.
//!
//! Meshes are appended one after another; every index is stored as `u32`.
//! When a buffer runs out of room it is replaced by one twice as large (or
//! large enough for the mesh), and since the old contents are gone, every
//! placed mesh is forgotten and placement starts over at offset 0.  The GPU
//! buffers themselves are created and written by the caller, following the
//! plan each append returns.
use vstd::prelude::*;
use crate::fx::{
    fx_mesh_entries, fx_mesh_entries_clear, fx_mesh_entries_get, fx_mesh_entries_insert, fx_mesh_entries_new,
    MeshEntryMap,
};

verus! {

/// Bytes per vertex in the shared vertex buffer.
pub const MEGA_VERTEX_STRIDE: u64 = 32;

/// Bytes per index in the shared index buffer.
pub const MEGA_INDEX_STRIDE: u64 = 4;

/// Initial size of the shared vertex buffer.
pub const MEGA_VBUF_INIT: u64 = 16777216;

/// Initial size of the shared index buffer.
pub const MEGA_IBUF_INIT: u64 = 4194304;

/// Sizes and fill levels of the shared buffers, and where each placed mesh is.
pub struct MegaBuffers {
    vbuf_size: u64,
    ibuf_size: u64,
    vbuf_bytes: u64,
    ibuf_bytes: u64,
    entries: MeshEntryMap,
}

/// Abstract state of the shared buffers.  A size of 0 means the buffer has
/// not been created yet.  An entry is `[first_index, index_count, base_vertex]`.
pub struct MegaBuffersView {
    pub vbuf_size: u64,
    pub ibuf_size: u64,
    pub vbuf_bytes: u64,
    pub ibuf_bytes: u64,
    pub entries: Map<u32, Seq<u32>>,
}

/// What the caller does for one append: create the buffers whose new size
/// is given (dropping the old ones), then write the vertices and indices at
/// the given byte offsets.
#[derive(Debug, Clone, Copy)]
pub struct MegaAppend {
    pub new_vbuf_size: Option<u64>,
    pub new_ibuf_size: Option<u64>,
    /// Every previously placed mesh was forgotten.
    pub entries_reset: bool,
    pub vertex_offset: u64,
    pub index_offset: u64,
    /// `[first_index, index_count, base_vertex]` of the appended mesh.
    pub entry: [u32; 3],
}

impl View for MegaBuffers {
    type V = MegaBuffersView;

    closed spec fn view(&self) -> MegaBuffersView {
        MegaBuffersView {
            vbuf_size: self.vbuf_size,
            ibuf_size: self.ibuf_size,
            vbuf_bytes: self.vbuf_bytes,
            ibuf_bytes: self.ibuf_bytes,
            entries: fx_mesh_entries(self.entries),
        }
    }
}

/// The larger of two sizes.
pub open spec fn max_u64(a: u64, b: u64) -> u64 {
    if a >= b {
        a
    } else {
        b
    }
}

impl MegaBuffersView {
    /// Fill levels within the buffers and aligned to whole elements; every
    /// placed mesh lies within the filled part of both buffers, and the index
    /// ranges of distinct meshes do not overlap.
    pub open spec fn wf(self) -> bool {
        &&& self.vbuf_bytes <= self.vbuf_size
        &&& self.ibuf_bytes <= self.ibuf_size
        &&& self.vbuf_bytes % MEGA_VERTEX_STRIDE == 0
        &&& self.ibuf_bytes % MEGA_INDEX_STRIDE == 0
        &&& self.vbuf_bytes / MEGA_VERTEX_STRIDE <= u32::MAX
        &&& self.ibuf_bytes / MEGA_INDEX_STRIDE <= u32::MAX
        &&& forall|id: u32| #[trigger] self.entries.contains_key(id) ==> {
            &&& self.entries[id].len() == 3
            &&& self.entries[id][0] + self.entries[id][1] <= self.ibuf_bytes / MEGA_INDEX_STRIDE
            &&& self.entries[id][2] <= self.vbuf_bytes / MEGA_VERTEX_STRIDE
        }
        &&& forall|a: u32, b: u32|
            #[trigger] self.entries.contains_key(a) && #[trigger] self.entries.contains_key(b) && a != b ==> {
                ||| self.entries[a][0] + self.entries[a][1] <= self.entries[b][0]
                ||| self.entries[b][0] + self.entries[b][1] <= self.entries[a][0]
            }
    }

    /// The vertex buffer size in effect once it exists.
    pub open spec fn vbuf_live_size(self) -> u64 {
        if self.vbuf_size == 0 {
            MEGA_VBUF_INIT
        } else {
            self.vbuf_size
        }
    }

    /// The index buffer size in effect once it exists.
    pub open spec fn ibuf_live_size(self) -> u64 {
        if self.ibuf_size == 0 {
            MEGA_IBUF_INIT
        } else {
            self.ibuf_size
        }
    }

    /// Whether appending `vb` vertex bytes outgrows the vertex buffer.
    pub open spec fn vbuf_grows(self, vb: u64) -> bool {
        self.vbuf_bytes + vb > self.vbuf_live_size()
    }

    /// Index fill level after a possible vertex-buffer reset.
    pub open spec fn ibuf_fill_after_vbuf(self, vb: u64) -> u64 {
        if self.vbuf_grows(vb) {
            0
        } else {
            self.ibuf_bytes
        }
    }

    /// Whether appending `ib` index bytes outgrows the index buffer.
    pub open spec fn ibuf_grows(self, vb: u64, ib: u64) -> bool {
        self.ibuf_fill_after_vbuf(vb) + ib > self.ibuf_live_size()
    }

    /// Whether the append forgets every placed mesh.
    pub open spec fn resets(self, vb: u64, ib: u64) -> bool {
        self.vbuf_grows(vb) || self.ibuf_grows(vb, ib)
    }

    /// Vertex byte offset the appended mesh is written at.
    pub open spec fn vertex_offset(self, vb: u64, ib: u64) -> u64 {
        if self.resets(vb, ib) {
            0
        } else {
            self.vbuf_bytes
        }
    }

    /// Index byte offset the appended mesh is written at.
    pub open spec fn index_offset(self, vb: u64, ib: u64) -> u64 {
        if self.resets(vb, ib) {
            0
        } else {
            self.ibuf_bytes
        }
    }

    /// Vertex buffer size after the append.
    pub open spec fn vbuf_size_after(self, vb: u64) -> u64 {
        if self.vbuf_grows(vb) {
            max_u64((self.vbuf_live_size() * 2) as u64, (self.vbuf_bytes + vb) as u64)
        } else {
            self.vbuf_live_size()
        }
    }

    /// Index buffer size after the append.
    pub open spec fn ibuf_size_after(self, vb: u64, ib: u64) -> u64 {
        if self.ibuf_grows(vb, ib) {
            max_u64((self.ibuf_live_size() * 2) as u64, (self.ibuf_fill_after_vbuf(vb) + ib) as u64)
        } else {
            self.ibuf_live_size()
        }
    }
}

impl MegaBuffers {
    /// No buffer created, nothing placed.
    pub fn new() -> (m: Self)
        ensures
            m@.wf(),
            m@.vbuf_size == 0,
            m@.ibuf_size == 0,
            m@.vbuf_bytes == 0,
            m@.ibuf_bytes == 0,
            m@.entries =~= Map::empty(),
    {
        MegaBuffers { vbuf_size: 0, ibuf_size: 0, vbuf_bytes: 0, ibuf_bytes: 0, entries: fx_mesh_entries_new() }
    }

    /// Buffer sizes and fill levels: vertex size, index size, vertex bytes
    /// used, index bytes used.
    pub fn sizes(&self) -> (r: (u64, u64, u64, u64))
        ensures
            r == (self@.vbuf_size, self@.ibuf_size, self@.vbuf_bytes, self@.ibuf_bytes),
    {
        (self.vbuf_size, self.ibuf_size, self.vbuf_bytes, self.ibuf_bytes)
    }

    /// `[first_index, index_count, base_vertex]` of a placed mesh.
    pub fn entry(&self, mesh_id: u32) -> (e: Option<[u32; 3]>)
        ensures
            match e {
                Some(v) => self@.entries.contains_key(mesh_id) && v@ == self@.entries[mesh_id],
                None => !self@.entries.contains_key(mesh_id),
            },
    {
        fx_mesh_entries_get(&self.entries, mesh_id)
    }

    /// Place a mesh of `vertex_count` vertices and `index_count` indices at
    /// the end of the shared buffers, creating them on first use and growing
    /// them (and forgetting every placed mesh) when it does not fit.
    pub fn append(&mut self, mesh_id: u32, vertex_count: u32, index_count: u32) -> (plan: MegaAppend)
        requires
            old(self)@.wf(),
            old(self)@.vbuf_live_size() <= u64::MAX / 2,
            old(self)@.ibuf_live_size() <= u64::MAX / 2,
            old(self)@.vbuf_bytes / MEGA_VERTEX_STRIDE + vertex_count <= u32::MAX,
            old(self)@.ibuf_bytes / MEGA_INDEX_STRIDE + index_count <= u32::MAX,
        ensures
            final(self)@.wf(),
            ({
                let o = old(self)@;
                let vb = (vertex_count * MEGA_VERTEX_STRIDE) as u64;
                let ib = (index_count * MEGA_INDEX_STRIDE) as u64;
                &&& plan.new_vbuf_size == (if o.vbuf_size == 0 || o.vbuf_grows(vb) { Some(o.vbuf_size_after(vb)) } else { None })
                &&& plan.new_ibuf_size == (if o.ibuf_size == 0 || o.ibuf_grows(vb, ib) { Some(o.ibuf_size_after(vb, ib)) } else { None })
                &&& plan.entries_reset == o.resets(vb, ib)
                &&& plan.vertex_offset == o.vertex_offset(vb, ib)
                &&& plan.index_offset == o.index_offset(vb, ib)
                &&& plan.entry@ == seq![
                    (o.index_offset(vb, ib) / MEGA_INDEX_STRIDE) as u32,
                    index_count,
                    (o.vertex_offset(vb, ib) / MEGA_VERTEX_STRIDE) as u32,
                ]
                &&& final(self)@.vbuf_size == o.vbuf_size_after(vb)
                &&& final(self)@.ibuf_size == o.ibuf_size_after(vb, ib)
                &&& final(self)@.vbuf_bytes == o.vertex_offset(vb, ib) + vb
                &&& final(self)@.ibuf_bytes == o.index_offset(vb, ib) + ib
                &&& final(self)@.entries == (if o.resets(vb, ib) { Map::empty() } else { o.entries }).insert(
                    mesh_id,
                    plan.entry@,
                )
            }),
    {
        let ghost o = self@;
        let vb: u64 = vertex_count as u64 * MEGA_VERTEX_STRIDE;
        let ib: u64 = index_count as u64 * MEGA_INDEX_STRIDE;
        let mut new_vbuf_size: Option<u64> = None;
        let mut new_ibuf_size: Option<u64> = None;
        let mut reset = false;
        if self.vbuf_size == 0 {
            self.vbuf_size = MEGA_VBUF_INIT;
            new_vbuf_size = Some(MEGA_VBUF_INIT);
        }
        if self.ibuf_size == 0 {
            self.ibuf_size = MEGA_IBUF_INIT;
            new_ibuf_size = Some(MEGA_IBUF_INIT);
        }
        if self.vbuf_bytes + vb > self.vbuf_size {
            let doubled = self.vbuf_size * 2;
            let needed = self.vbuf_bytes + vb;
            let size = if doubled >= needed { doubled } else { needed };
            fx_mesh_entries_clear(&mut self.entries);
            self.vbuf_bytes = 0;
            self.ibuf_bytes = 0;
            self.vbuf_size = size;
            new_vbuf_size = Some(size);
            reset = true;
        }
        if self.ibuf_bytes + ib > self.ibuf_size {
            let doubled = self.ibuf_size * 2;
            let needed = self.ibuf_bytes + ib;
            let size = if doubled >= needed { doubled } else { needed };
            fx_mesh_entries_clear(&mut self.entries);
            self.vbuf_bytes = 0;
            self.ibuf_bytes = 0;
            self.ibuf_size = size;
            new_ibuf_size = Some(size);
            reset = true;
        }
        assert(fx_mesh_entries(self.entries) == (if reset { Map::empty() } else { o.entries }));
        assert(reset || (self.vbuf_bytes == o.vbuf_bytes && self.ibuf_bytes == o.ibuf_bytes));
        assert(reset ==> (self.vbuf_bytes == 0 && self.ibuf_bytes == 0));
        let vertex_offset = self.vbuf_bytes;
        let index_offset = self.ibuf_bytes;
        let base_vertex = (self.vbuf_bytes / MEGA_VERTEX_STRIDE) as u32;
        let first_index = (self.ibuf_bytes / MEGA_INDEX_STRIDE) as u32;
        let entry: [u32; 3] = [first_index, index_count, base_vertex];
        let ghost before_insert = fx_mesh_entries(self.entries);
        assert(forall|id: u32| #[trigger] before_insert.contains_key(id) ==> {
            &&& before_insert[id].len() == 3
            &&& before_insert[id][0] + before_insert[id][1] <= first_index
            &&& before_insert[id][2] <= base_vertex
        });
        self.vbuf_bytes = self.vbuf_bytes + vb;
        self.ibuf_bytes = self.ibuf_bytes + ib;
        fx_mesh_entries_insert(&mut self.entries, mesh_id, entry);
        proof {
            let e = self@.entries;
            assert(entry@ =~= seq![first_index, index_count, base_vertex]);
            assert(self@.ibuf_bytes / MEGA_INDEX_STRIDE == first_index + index_count);
            assert(self@.vbuf_bytes / MEGA_VERTEX_STRIDE == base_vertex + vertex_count);
            assert forall|id: u32| #[trigger] e.contains_key(id) implies {
                &&& e[id].len() == 3
                &&& e[id][0] + e[id][1] <= self@.ibuf_bytes / MEGA_INDEX_STRIDE
                &&& e[id][2] <= self@.vbuf_bytes / MEGA_VERTEX_STRIDE
            } by {
                if id != mesh_id {
                    assert(before_insert.contains_key(id));
                }
            }
            assert forall|a: u32, b: u32|
                #[trigger] e.contains_key(a) && #[trigger] e.contains_key(b) && a != b implies {
                    ||| e[a][0] + e[a][1] <= e[b][0]
                    ||| e[b][0] + e[b][1] <= e[a][0]
                } by {
                if a != mesh_id && b != mesh_id {
                    assert(before_insert.contains_key(a) && before_insert.contains_key(b));
                } else if a == mesh_id {
                    assert(before_insert.contains_key(b));
                } else {
                    assert(before_insert.contains_key(a));
                }
            }
        }
        MegaAppend {
            new_vbuf_size,
            new_ibuf_size,
            entries_reset: reset,
            vertex_offset,
            index_offset,
            entry,
        }
    }
}

} // verus!
