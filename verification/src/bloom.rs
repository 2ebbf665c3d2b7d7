//! The bloom mip chain: the extent of each mip level and the source extent
//! each downsample and upsample step reads.
//!
//! The chain starts at half the render resolution and halves at every
//! level, never below one pixel.  Downsample step `i` reads the HDR target
//! (step 0) or mip `i - 1`; the upsample steps then walk back up the chain.
use vstd::prelude::*;

verus! {

/// Most mip levels of the bloom chain.
pub const MAX_BLOOM_MIPS: usize = 7;

/// Half of `v`, at least 1.
pub open spec fn halved(v: u32) -> u32 {
    if v / 2 >= 1 {
        v / 2
    } else {
        1
    }
}

/// `v` raised to at least 1.
pub open spec fn at_least_one(v: u32) -> u32 {
    if v >= 1 {
        v
    } else {
        1
    }
}

/// The extent before clamping at mip `i` of a chain whose level 0 is half of `v`.
pub open spec fn raw_mip_extent(v: u32, i: nat) -> u32
    decreases i,
{
    if i == 0 {
        v / 2
    } else {
        halved(raw_mip_extent(v, (i - 1) as nat))
    }
}

/// The extent of mip `i` of a chain whose level 0 is half of `v`.
pub open spec fn mip_extent(v: u32, i: nat) -> u32 {
    at_least_one(raw_mip_extent(v, i))
}

/// How many mips a requested count gives: clamped to `1..=7`.
pub open spec fn mip_count_for(requested: usize) -> nat {
    if requested < 1 {
        1
    } else if requested > MAX_BLOOM_MIPS {
        MAX_BLOOM_MIPS as nat
    } else {
        requested as nat
    }
}

/// The extents of the bloom mip chain for a `width` x `height` HDR target
/// and a requested number of mips.
pub fn bloom_mip_sizes(width: u32, height: u32, mip_count: usize) -> (sizes: Vec<(u32, u32)>)
    ensures
        sizes@.len() == mip_count_for(mip_count),
        forall|i: int| #![trigger sizes@[i]] 0 <= i < sizes@.len() ==> sizes@[i] == (mip_extent(width, i as nat), mip_extent(height, i as nat)),
{
    let count: usize = if mip_count < 1 {
        1
    } else if mip_count > MAX_BLOOM_MIPS {
        MAX_BLOOM_MIPS
    } else {
        mip_count
    };
    let mut sizes: Vec<(u32, u32)> = Vec::new();
    let mut w = width / 2;
    let mut h = height / 2;
    let mut i: usize = 0;
    while i < count
        invariant
            0 <= i <= count,
            count == mip_count_for(mip_count),
            sizes@.len() == i,
            w == raw_mip_extent(width, i as nat),
            h == raw_mip_extent(height, i as nat),
            forall|j: int| #![trigger sizes@[j]] 0 <= j < i ==> sizes@[j] == (mip_extent(width, j as nat), mip_extent(height, j as nat)),
        decreases count - i,
    {
        let sw = if w >= 1 { w } else { 1 };
        let sh = if h >= 1 { h } else { 1 };
        sizes.push((sw, sh));
        w = if w / 2 >= 1 { w / 2 } else { 1 };
        h = if h / 2 >= 1 { h / 2 } else { 1 };
        i = i + 1;
    }
    sizes
}

/// The source extent that bloom step `i` reads, for a chain `sizes` of `n`
/// mips and a surface of `surface`: the surface at step 0, the previous mip
/// for the other downsample steps, and the mip being read for the upsample
/// steps, walking back from the smallest.
pub open spec fn step_source(surface: (u32, u32), sizes: Seq<(u32, u32)>, i: int) -> (u32, u32) {
    let n = sizes.len() as int;
    if i == 0 {
        surface
    } else if i < n {
        sizes[i - 1]
    } else {
        sizes[n - 1 - (i - n)]
    }
}

/// The number of bloom steps that get parameters: the downsample and
/// upsample steps together (`2n - 1`), at most `MAX_BLOOM_MIPS`.
pub open spec fn param_step_count(n: nat) -> nat {
    if 2 * n - 1 < MAX_BLOOM_MIPS {
        (2 * n - 1) as nat
    } else {
        MAX_BLOOM_MIPS as nat
    }
}

/// Source extents of the bloom steps that get parameters, in step order.
pub fn bloom_step_sources(surface_w: u32, surface_h: u32, sizes: &Vec<(u32, u32)>) -> (srcs: Vec<(u32, u32)>)
    requires
        1 <= sizes@.len() <= MAX_BLOOM_MIPS,
    ensures
        srcs@.len() == param_step_count(sizes@.len()),
        forall|i: int| #![trigger srcs@[i]] 0 <= i < srcs@.len() ==> srcs@[i] == step_source((surface_w, surface_h), sizes@, i),
{
    let n = sizes.len();
    let total = n + (n - 1);
    let steps = if total < MAX_BLOOM_MIPS { total } else { MAX_BLOOM_MIPS };
    let mut srcs: Vec<(u32, u32)> = Vec::new();
    let mut i: usize = 0;
    while i < steps
        invariant
            n == sizes@.len(),
            1 <= n <= MAX_BLOOM_MIPS,
            steps == param_step_count(n as nat),
            steps <= 2 * n - 1,
            0 <= i <= steps,
            srcs@.len() == i,
            forall|j: int| #![trigger srcs@[j]] 0 <= j < i ==> srcs@[j] == step_source((surface_w, surface_h), sizes@, j),
        decreases steps - i,
    {
        let src = if i == 0 {
            (surface_w, surface_h)
        } else if i < n {
            sizes[i - 1]
        } else {
            sizes[n - 1 - (i - n)]
        };
        srcs.push(src);
        i = i + 1;
    }
    srcs
}

/// Every mip of the chain is at least one pixel, and each level after the
/// first is at most the previous one.
pub proof fn lemma_mip_chain_shrinks(v: u32, i: nat)
    ensures
        mip_extent(v, i) >= 1,
        mip_extent(v, i + 1) <= mip_extent(v, i),
{
}

} // verus!
