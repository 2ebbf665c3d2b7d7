//! The hierarchical depth buffer (HZB): how many mip levels its texture
//! gets, and the compute dispatches that fill it each frame.
//!
//! The chain halves the larger extent down to a single texel.  Each frame a
//! copy pass fills mip 0 from the depth buffer, then one downsample pass per
//! further mip reads the level above it.  Every pass runs in 8 x 8 groups.
use vstd::prelude::*;
use vstd::arithmetic::power2::{pow2, lemma2_to64, lemma_pow2_unfold, lemma_pow2_pos};
use vstd::arithmetic::div_mod::lemma_div_denominator;
use vstd::bits::lemma_u32_shr_is_div;

verus! {

/// Largest HZB extent handled: no GPU texture is wider or taller.
pub const MAX_HZB_EXTENT: u32 = 0x10_0000;

/// Side of the square thread group of the HZB passes.
pub const HZB_GROUP: u32 = 8;

/// Levels of a full mip chain over an extent `m`: one per halving, down to
/// a single texel (and one level for an empty extent).
pub open spec fn chain_levels(m: nat) -> nat
    decreases m,
{
    if m <= 1 {
        1
    } else {
        1 + chain_levels(m / 2)
    }
}

/// The larger of two extents.
pub open spec fn larger(a: u32, b: u32) -> u32 {
    if a >= b {
        a
    } else {
        b
    }
}

/// The extent of mip `mip` of an axis of extent `v`: halved `mip` times,
/// at least one texel.
pub open spec fn level_extent(v: u32, mip: nat) -> nat {
    if v as nat / pow2(mip) >= 1 {
        v as nat / pow2(mip)
    } else {
        1
    }
}

/// Thread groups of side 8 that cover `e` texels.
pub open spec fn groups_for(e: nat) -> nat {
    e / 8 + if e % 8 == 0 {
        0nat
    } else {
        1nat
    }
}

/// The dispatches of one frame: the copy pass first, then the downsample
/// pass of each mip from 1 on.
pub open spec fn hzb_dispatch(width: u32, height: u32, i: nat) -> (nat, nat) {
    if i == 0 {
        (groups_for(width as nat), groups_for(height as nat))
    } else {
        (groups_for(level_extent(width, i)), groups_for(level_extent(height, i)))
    }
}

proof fn lemma_chain_levels_bound(m: nat, k: nat)
    requires
        k >= 1,
        m < pow2(k),
    ensures
        chain_levels(m) <= k,
    decreases m,
{
    if m > 1 {
        lemma_pow2_unfold(k);
        if k == 1 {
            assert(pow2(0) == 1) by {
                lemma2_to64();
            }
        } else {
            lemma_chain_levels_bound(m / 2, (k - 1) as nat);
        }
    }
}

/// Mip levels of the HZB texture for a `width` x `height` depth buffer:
/// a full chain over the larger extent.
pub fn hzb_mip_count(width: u32, height: u32) -> (n: u32)
    requires
        width <= MAX_HZB_EXTENT,
        height <= MAX_HZB_EXTENT,
    ensures
        n == chain_levels(larger(width, height) as nat),
        1 <= n <= 21,
{
    let top = if width >= height {
        width
    } else {
        height
    };
    proof {
        lemma2_to64();
        lemma_chain_levels_bound(top as nat, 21);
    }
    let mut m = top;
    let mut n: u32 = 1;
    while m > 1
        invariant
            n + chain_levels(m as nat) == chain_levels(top as nat) + 1,
            chain_levels(top as nat) <= 21,
            n >= 1,
        decreases m,
    {
        m = m / 2;
        n = n + 1;
    }
    n
}

/// Thread groups of side 8 that cover `e` texels.
pub fn workgroups(e: u32) -> (g: u32)
    ensures
        g == groups_for(e as nat),
        g * 8 >= e,
        e == 0 || (g - 1) * 8 < e,
{
    e / HZB_GROUP + if e % HZB_GROUP == 0 {
        0
    } else {
        1
    }
}

/// The extent of mip `mip` of an axis of extent `v`, at least one texel.
pub fn mip_level_extent(v: u32, mip: u32) -> (e: u32)
    requires
        mip < 32,
    ensures
        e == level_extent(v, mip as nat),
{
    let s = v >> mip;
    proof {
        lemma_u32_shr_is_div(v, mip);
    }
    if s >= 1 {
        s
    } else {
        1
    }
}

/// The thread groups of each HZB pass of a frame: entry 0 is the copy
/// from the depth buffer, entry `i` the downsample into mip `i`.
pub fn hzb_dispatches(width: u32, height: u32, mip_count: u32) -> (d: Vec<(u32, u32)>)
    requires
        mip_count <= 32,
    ensures
        mip_count >= 1 ==> d.len() == mip_count,
        mip_count == 0 ==> d.len() == 1,
        forall|i: int|
            0 <= i < d.len() ==> (d[i].0 as nat, d[i].1 as nat) == #[trigger] hzb_dispatch(
                width,
                height,
                i as nat,
            ),
{
    let mut d: Vec<(u32, u32)> = Vec::new();
    d.push((workgroups(width), workgroups(height)));
    let mut mip: u32 = 1;
    while mip < mip_count
        invariant
            1 <= mip,
            mip_count <= 32,
            mip_count >= 1 ==> mip <= mip_count,
            mip_count == 0 ==> mip == 1,
            d.len() == mip,
            forall|i: int|
                0 <= i < d.len() ==> (d[i].0 as nat, d[i].1 as nat) == #[trigger] hzb_dispatch(
                    width,
                    height,
                    i as nat,
                ),
        decreases mip_count - mip,
    {
        let w = mip_level_extent(width, mip);
        let h = mip_level_extent(height, mip);
        d.push((workgroups(w), workgroups(h)));
        mip = mip + 1;
    }
    d
}

proof fn lemma_halving_steps(m: nat, j: nat)
    requires
        m >= 1,
        j + 1 <= chain_levels(m),
    ensures
        m / pow2(j) >= 1,
        j + 1 == chain_levels(m) ==> m / pow2(j) == 1,
    decreases j,
{
    lemma_pow2_pos(j);
    if j == 0 {
        lemma2_to64();
        if m > 1 {
            assert(chain_levels(m / 2) >= 1);
        }
    } else {
        assert(m > 1);
        lemma_halving_steps(m / 2, (j - 1) as nat);
        lemma_pow2_unfold(j);
        lemma_pow2_pos((j - 1) as nat);
        lemma_div_denominator(m as int, 2, pow2((j - 1) as nat) as int);
    }
}

/// The HZB chain ends exactly at one texel: on the larger axis every mip
/// but the last is wider than one texel, and the last is one texel.
pub proof fn lemma_hzb_chain_ends_at_one(width: u32, height: u32)
    requires
        larger(width, height) >= 1,
    ensures
        level_extent(larger(width, height), (chain_levels(larger(width, height) as nat) - 1) as nat)
            == 1,
        forall|mip: nat|
            mip + 1 < chain_levels(larger(width, height) as nat) ==> #[trigger] level_extent(
                larger(width, height),
                mip,
            ) >= 2,
{
    let m = larger(width, height) as nat;
    let top = (chain_levels(m) - 1) as nat;
    lemma_halving_steps(m, top);
    assert forall|mip: nat| mip + 1 < chain_levels(m) implies #[trigger] level_extent(
        larger(width, height),
        mip,
    ) >= 2 by {
        lemma_halving_steps(m, mip + 1);
        lemma_pow2_unfold(mip + 1);
        lemma_pow2_pos(mip);
        lemma_div_denominator(m as int, pow2(mip) as int, 2);
    }
}

} // verus!
