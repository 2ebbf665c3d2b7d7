//! Per-entity choices made while gathering the 3D draw list: which level of
//! detail a GPU-selected index names, and which lightmap textures bind.
use vstd::prelude::*;

verus! {

/// Texture id bound when an entity has no lightmap.
pub const NO_LIGHTMAP: u32 = 4294967295;

/// The mesh a GPU level-of-detail index selects: 0 keeps the base mesh;
/// `k` names level `k - 1` of the entity's levels, falling back to the base
/// mesh when there is no such level (or no levels at all).
pub fn gpu_lod_mesh(gpu_lod: u32, levels: Option<&Vec<u32>>, base: u32) -> (mesh: u32)
    ensures
        mesh == (match levels {
            Some(l) => if gpu_lod == 0 || gpu_lod > l@.len() { base } else { l@[gpu_lod - 1] },
            None => base,
        }),
{
    match levels {
        Some(l) => {
            if gpu_lod == 0 {
                base
            } else {
                let k = (gpu_lod - 1) as usize;
                if k < l.len() {
                    l[k]
                } else {
                    base
                }
            }
        },
        None => base,
    }
}

/// The lightmap texture ids bound for an entity: its lightmap, else the
/// irradiance map of its directional lightmap; and the direction map of its
/// directional lightmap.  Missing textures bind `NO_LIGHTMAP`.
pub fn lightmap_ids(lightmap: Option<u32>, dir_irradiance: Option<u32>, dir_direction: Option<u32>) -> (ids: (u32, u32))
    ensures
        ids.0 == (match lightmap {
            Some(t) => t,
            None => match dir_irradiance {
                Some(t) => t,
                None => NO_LIGHTMAP,
            },
        }),
        ids.1 == (match dir_direction {
            Some(t) => t,
            None => NO_LIGHTMAP,
        }),
{
    let lm = match lightmap {
        Some(t) => t,
        None => match dir_irradiance {
            Some(t) => t,
            None => NO_LIGHTMAP,
        },
    };
    let dir = match dir_direction {
        Some(t) => t,
        None => NO_LIGHTMAP,
    };
    (lm, dir)
}

} // verus!
