//! Point-light clusters: whether a frame assigns lights to the view clusters
//! on the GPU or uploads the CPU table, and that table.
//!
//! The CPU table does not depend on the camera: every cluster lists every
//! light.  It is rebuilt only when the light count changes.
use vstd::prelude::*;

verus! {

/// Clusters across the view.
pub const CLUSTER_X: usize = 16;

/// Clusters down the view.
pub const CLUSTER_Y: usize = 9;

/// Depth slices of the view.
pub const CLUSTER_Z: usize = 24;

/// Clusters of the view frustum.
pub const NUM_CLUSTERS: usize = CLUSTER_X * CLUSTER_Y * CLUSTER_Z;

/// Light slots of one cluster.
pub const MAX_LIGHTS_PER_CLUSTER: usize = 32;

/// Lights the forward pass shades without clustering.
pub const MAX_POINT_LIGHTS: usize = 8;

/// What a frame does with the cluster buffers.
#[derive(Debug, Clone, Copy, PartialEq, Eq, Structural)]
pub enum ClusterPlan {
    /// Assign lights on the GPU; the uploaded table is forgotten.
    Compute,
    /// Upload a new CPU table for the current light count.
    UploadTable,
    /// The uploaded table is still right.
    Keep,
}

/// The plan for a frame with `light_count` lights, and the light count the
/// uploaded table then holds (`usize::MAX` for none).
pub fn cluster_plan(light_count: usize, has_indirect: bool, table_count: usize) -> (r: (ClusterPlan, usize))
    ensures
        light_count > MAX_POINT_LIGHTS && has_indirect ==> r == (ClusterPlan::Compute, usize::MAX),
        !(light_count > MAX_POINT_LIGHTS && has_indirect) && light_count != table_count ==> r == (
        ClusterPlan::UploadTable, light_count),
        !(light_count > MAX_POINT_LIGHTS && has_indirect) && light_count == table_count ==> r == (
        ClusterPlan::Keep, table_count),
{
    if light_count > MAX_POINT_LIGHTS && has_indirect {
        (ClusterPlan::Compute, usize::MAX)
    } else if light_count != table_count {
        (ClusterPlan::UploadTable, light_count)
    } else {
        (ClusterPlan::Keep, table_count)
    }
}

/// The CPU cluster table for `light_count` lights: each cluster's count,
/// and its light slots (light `j` in slot `j`, unused slots 0).
pub fn cluster_light_table(light_count: usize) -> (t: (Vec<u32>, Vec<u32>))
    requires
        light_count <= MAX_LIGHTS_PER_CLUSTER,
    ensures
        t.0@ == Seq::new(NUM_CLUSTERS as nat, |c: int| light_count as u32),
        t.1@.len() == NUM_CLUSTERS * MAX_LIGHTS_PER_CLUSTER,
        forall|i: int|
            0 <= i < t.1@.len() ==> #[trigger] t.1@[i] == (if i % 32 < light_count {
                (i % 32) as u32
            } else {
                0u32
            }),
{
    let mut counts: Vec<u32> = Vec::new();
    let mut indices: Vec<u32> = Vec::new();
    let mut c: usize = 0;
    while c < NUM_CLUSTERS
        invariant
            c <= NUM_CLUSTERS,
            light_count <= MAX_LIGHTS_PER_CLUSTER,
            counts@ == Seq::new(c as nat, |k: int| light_count as u32),
            indices@.len() == c * MAX_LIGHTS_PER_CLUSTER,
            forall|i: int|
                0 <= i < indices@.len() ==> #[trigger] indices@[i] == (if i % 32 < light_count {
                    (i % 32) as u32
                } else {
                    0u32
                }),
        decreases NUM_CLUSTERS - c,
    {
        counts.push(light_count as u32);
        let mut j: usize = 0;
        while j < MAX_LIGHTS_PER_CLUSTER
            invariant
                c < NUM_CLUSTERS,
                j <= MAX_LIGHTS_PER_CLUSTER,
                light_count <= MAX_LIGHTS_PER_CLUSTER,
                indices@.len() == c * MAX_LIGHTS_PER_CLUSTER + j,
                forall|i: int|
                    0 <= i < indices@.len() ==> #[trigger] indices@[i] == (if i % 32 < light_count {
                        (i % 32) as u32
                    } else {
                        0u32
                    }),
            decreases MAX_LIGHTS_PER_CLUSTER - j,
        {
            proof {
                let i = (c * MAX_LIGHTS_PER_CLUSTER + j) as int;
                assert(i % 32 == j as int) by (nonlinear_arith)
                    requires
                        i == c * 32 + j,
                        0 <= j < 32,
                        c >= 0,
                ;
            }
            if j < light_count {
                indices.push(j as u32);
            } else {
                indices.push(0);
            }
            j = j + 1;
        }
        c = c + 1;
    }
    (counts, indices)
}

} // verus!
