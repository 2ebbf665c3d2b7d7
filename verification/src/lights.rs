//! Shadow map slots of the point lights kept for a frame.
//!
//! The lights arrive closest first; the first lights that cast shadows get
//! the cube shadow maps, one slot each, until the slots run out.
use vstd::prelude::*;

verus! {

/// Point lights with a cube shadow map per frame.
pub const MAX_POINT_SHADOW_LIGHTS: u32 = 4;

/// Shadow index of a light without a shadow map.
pub const NO_SHADOW: u32 = 4294967295;

/// Shadow-casting lights among the first `i` (none when shadows are off).
pub open spec fn casters_before(casts: Seq<bool>, enabled: bool, i: int) -> nat
    decreases i,
{
    if i <= 0 || !enabled {
        0
    } else {
        casters_before(casts, enabled, i - 1) + (if casts[i - 1] { 1nat } else { 0nat })
    }
}

/// The shadow index of light `i`: the next free slot when it casts shadows,
/// point-light shadows are on, and a slot is left; otherwise none.
pub open spec fn shadow_index(casts: Seq<bool>, enabled: bool, i: int) -> u32 {
    if enabled && casts[i] && casters_before(casts, enabled, i) < MAX_POINT_SHADOW_LIGHTS {
        casters_before(casts, enabled, i) as u32
    } else {
        NO_SHADOW
    }
}

/// Shadow indices of the point lights, in order.
pub fn point_shadow_slots(casts: &Vec<bool>, enabled: bool) -> (slots: Vec<u32>)
    ensures
        slots@.len() == casts@.len(),
        forall|i: int| 0 <= i < casts@.len() ==> #[trigger] slots@[i] == shadow_index(casts@, enabled, i),
{
    let mut slots: Vec<u32> = Vec::new();
    let mut next: u32 = 0;
    let mut i: usize = 0;
    while i < casts.len()
        invariant
            0 <= i <= casts@.len(),
            slots@.len() == i,
            next <= MAX_POINT_SHADOW_LIGHTS,
            next == (if casters_before(casts@, enabled, i as int) < MAX_POINT_SHADOW_LIGHTS {
                casters_before(casts@, enabled, i as int)
            } else {
                MAX_POINT_SHADOW_LIGHTS as nat
            }),
            forall|j: int| 0 <= j < i ==> #[trigger] slots@[j] == shadow_index(casts@, enabled, j),
        decreases casts@.len() - i,
    {
        let idx = if casts[i] && enabled && next < MAX_POINT_SHADOW_LIGHTS {
            let v = next;
            next = next + 1;
            v
        } else {
            NO_SHADOW
        };
        slots.push(idx);
        i = i + 1;
    }
    slots
}

/// Casters are counted in order: the count never decreases.
proof fn lemma_casters_monotone(casts: Seq<bool>, enabled: bool, i: int, j: int)
    requires
        0 <= i <= j <= casts.len(),
    ensures
        casters_before(casts, enabled, i) <= casters_before(casts, enabled, j),
    decreases j - i,
{
    if i < j {
        lemma_casters_monotone(casts, enabled, i, j - 1);
    }
}

/// At most four lights get a shadow map, and no two share one.
pub proof fn lemma_shadow_slots_distinct(casts: Seq<bool>, enabled: bool, i: int, j: int)
    requires
        0 <= i < j < casts.len(),
    ensures
        shadow_index(casts, enabled, i) == NO_SHADOW || shadow_index(casts, enabled, i) < MAX_POINT_SHADOW_LIGHTS,
        shadow_index(casts, enabled, i) != NO_SHADOW ==> shadow_index(casts, enabled, i) != shadow_index(casts, enabled, j),
{
    if shadow_index(casts, enabled, i) != NO_SHADOW {
        lemma_casters_monotone(casts, enabled, i + 1, j);
    }
}

} // verus!
