//! The render graph of one 3D frame: which passes run, for a hardware tier
//! and the enabled effects, and which textures each reads and writes.
use vstd::prelude::*;
use crate::quality::RenderTier;
use crate::render_graph::{
    depends, has_topological_order, lemma_ranked_passes_have_order, texture_ids, PassSpec, RenderGraph, TextureRef,
};

verus! {

/// Texture ids in declaration order.
pub const SHADOW_MAP: u32 = 0;
pub const DEPTH: u32 = 1;
pub const HDR: u32 = 2;
pub const AO: u32 = 3;
pub const SSR: u32 = 4;
pub const FOG: u32 = 5;
pub const BLOOM: u32 = 6;
pub const LDR: u32 = 7;
pub const SWAPCHAIN: u32 = 8;

/// A pass of the frame graph.
pub open spec fn pass_of(name: Seq<char>, reads: Seq<u32>, writes: Seq<u32>) -> PassSpec {
    PassSpec { name, reads, writes }
}

/// `s` with `p` appended when `on`.
pub open spec fn push_if(s: Seq<PassSpec>, on: bool, p: PassSpec) -> Seq<PassSpec> {
    if on {
        s.push(p)
    } else {
        s
    }
}

/// The textures the composite pass reads: the HDR target, then each enabled
/// effect's output.
pub open spec fn composite_reads(bloom: bool, ssr: bool, fog: bool, ssao: bool) -> Seq<u32> {
    let r0 = seq![HDR];
    let r1 = if ssao { r0.push(AO) } else { r0 };
    let r2 = if ssr { r1.push(SSR) } else { r1 };
    let r3 = if fog { r2.push(FOG) } else { r2 };
    if bloom { r3.push(BLOOM) } else { r3 }
}

/// The passes of a frame, in registration order.
pub open spec fn frame_passes(tier: RenderTier, bloom: bool, ssr: bool, fog: bool, fxaa: bool, ssao: bool, staa: bool) -> Seq<PassSpec> {
    let s0 = seq![pass_of("shadow"@, seq![], seq![SHADOW_MAP])];
    let s1 = push_if(s0, tier != RenderTier::LowGles, pass_of("zprepass"@, seq![], seq![DEPTH]));
    let s2 = push_if(s1, ssao || staa, pass_of("gtao"@, seq![DEPTH], seq![AO]));
    let s3 = push_if(s2, tier == RenderTier::High, pass_of("hzb_build"@, seq![DEPTH], seq![]));
    let s4 = push_if(s3, tier == RenderTier::High, pass_of("hzb_cull"@, seq![], seq![]));
    let s5 = s4.push(pass_of("opaque"@, seq![SHADOW_MAP, DEPTH], seq![HDR]))
        .push(pass_of("sky"@, seq![], seq![HDR]))
        .push(pass_of("particles"@, seq![DEPTH], seq![HDR]))
        .push(pass_of("decals"@, seq![DEPTH], seq![HDR]))
        .push(pass_of("water"@, seq![DEPTH, HDR], seq![HDR]))
        .push(pass_of("transparent"@, seq![DEPTH], seq![HDR]));
    let s6 = push_if(s5, ssr, pass_of("ssr"@, seq![HDR, DEPTH], seq![SSR]));
    let s7 = push_if(s6, fog, pass_of("volumetric_fog"@, seq![DEPTH], seq![FOG]));
    let s8 = push_if(s7, bloom, pass_of("bloom"@, seq![HDR], seq![BLOOM]));
    let s9 = s8.push(pass_of("composite"@, composite_reads(bloom, ssr, fog, ssao), seq![LDR]));
    if staa {
        s9.push(pass_of("staa"@, seq![LDR, DEPTH], seq![SWAPCHAIN]))
    } else if fxaa {
        s9.push(pass_of("fxaa"@, seq![LDR], seq![SWAPCHAIN]))
    } else {
        s9.push(pass_of("present"@, seq![LDR], seq![SWAPCHAIN]))
    }
}

/// The texture names of a frame and their ids.
pub open spec fn frame_textures() -> Map<Seq<char>, u32> {
    Map::empty().insert("shadow_map"@, SHADOW_MAP).insert("depth"@, DEPTH).insert("hdr"@, HDR).insert("ao"@, AO).insert(
        "ssr"@,
        SSR,
    ).insert("fog"@, FOG).insert("bloom"@, BLOOM).insert("ldr"@, LDR).insert("swapchain"@, SWAPCHAIN)
}

/// Ids of a short list of texture handles.
proof fn lemma_ids(a: TextureRef, b: TextureRef)
    ensures
        texture_ids(Seq::<TextureRef>::empty()) =~= Seq::<u32>::empty(),
        texture_ids(seq![a]) =~= seq![a.0],
        texture_ids(seq![a, b]) =~= seq![a.0, b.0],
{
}

/// Build the render graph of a frame for a hardware tier and the enabled
/// effects.  Temporal AA replaces FXAA; without either the composite output
/// is presented directly.
pub fn build_render_graph(tier: RenderTier, bloom: bool, ssr: bool, fog: bool, fxaa: bool, ssao: bool, staa: bool) -> (g: RenderGraph)
    ensures
        g@.wf(),
        g@.passes == frame_passes(tier, bloom, ssr, fog, fxaa, ssao, staa),
        g@.textures == frame_textures(),
        g@.next_texture_id == 9,
        has_topological_order(g@.passes),
{
    proof {
        reveal_strlit("shadow_map");
        reveal_strlit("depth");
        reveal_strlit("hdr");
        reveal_strlit("ao");
        reveal_strlit("ssr");
        reveal_strlit("fog");
        reveal_strlit("bloom");
        reveal_strlit("ldr");
        reveal_strlit("swapchain");
    }
    let mut g = RenderGraph::new();
    assert("shadow_map"@.len() == 10 && "shadow_map"@[0] == 's');
    assert("depth"@.len() == 5 && "depth"@[0] == 'd');
    assert("hdr"@.len() == 3 && "hdr"@[0] == 'h');
    assert("ao"@.len() == 2);
    assert("ssr"@.len() == 3 && "ssr"@[0] == 's');
    assert("fog"@.len() == 3 && "fog"@[0] == 'f');
    assert("bloom"@.len() == 5 && "bloom"@[0] == 'b');
    assert("ldr"@.len() == 3 && "ldr"@[0] == 'l');
    assert("swapchain"@.len() == 9);
    let shadow = g.texture("shadow_map");
    let depth = g.texture("depth");
    let hdr = g.texture("hdr");
    let ao = g.texture("ao");
    let ssr_tex = g.texture("ssr");
    let fog_tex = g.texture("fog");
    let bloom_tex = g.texture("bloom");
    let ldr = g.texture("ldr");
    let swapchain = g.texture("swapchain");
    proof {
        lemma_ids(shadow, depth);
        lemma_ids(hdr, depth);
        lemma_ids(ldr, depth);
        lemma_ids(depth, hdr);
        lemma_ids(ao, ssr_tex);
        lemma_ids(ssr_tex, fog_tex);
        lemma_ids(fog_tex, bloom_tex);
        lemma_ids(bloom_tex, swapchain);
        lemma_ids(swapchain, ao);
        assert(g@.textures =~= frame_textures());
    }
    let ghost t = g@.textures;
    let ghost s0 = seq![pass_of("shadow"@, seq![], seq![SHADOW_MAP])];
    let r0: Vec<TextureRef> = Vec::new();
    let w0 = vec![shadow];
    assert(r0@ =~= Seq::<TextureRef>::empty());
    assert(w0@ =~= seq![shadow]);
    g.add_pass("shadow", r0, w0);
    assert(g@.passes =~= s0);
    if tier != RenderTier::LowGles {
        let r1: Vec<TextureRef> = Vec::new();
        let w1 = vec![depth];
        assert(r1@ =~= Seq::<TextureRef>::empty());
        assert(w1@ =~= seq![depth]);
        g.add_pass("zprepass", r1, w1);
    }
    let ghost s1 = push_if(s0, tier != RenderTier::LowGles, pass_of("zprepass"@, seq![], seq![DEPTH]));
    assert(g@.passes =~= s1);
    if ssao || staa {
        let r2 = vec![depth];
        let w2 = vec![ao];
        assert(r2@ =~= seq![depth]);
        assert(w2@ =~= seq![ao]);
        g.add_pass("gtao", r2, w2);
    }
    let ghost s2 = push_if(s1, ssao || staa, pass_of("gtao"@, seq![DEPTH], seq![AO]));
    assert(g@.passes =~= s2);
    if tier == RenderTier::High {
        let r3 = vec![depth];
        let w3: Vec<TextureRef> = Vec::new();
        assert(r3@ =~= seq![depth]);
        assert(w3@ =~= Seq::<TextureRef>::empty());
        g.add_pass("hzb_build", r3, w3);
        let r4: Vec<TextureRef> = Vec::new();
        let w4: Vec<TextureRef> = Vec::new();
        assert(r4@ =~= Seq::<TextureRef>::empty());
        assert(w4@ =~= Seq::<TextureRef>::empty());
        g.add_pass("hzb_cull", r4, w4);
    }
    let ghost s4 = push_if(
        push_if(s2, tier == RenderTier::High, pass_of("hzb_build"@, seq![DEPTH], seq![])),
        tier == RenderTier::High,
        pass_of("hzb_cull"@, seq![], seq![]),
    );
    assert(g@.passes =~= s4);
    let r5 = vec![shadow, depth];
    let w5 = vec![hdr];
    assert(r5@ =~= seq![shadow, depth]);
    assert(w5@ =~= seq![hdr]);
    g.add_pass("opaque", r5, w5);
    let r6: Vec<TextureRef> = Vec::new();
    let w6 = vec![hdr];
    assert(r6@ =~= Seq::<TextureRef>::empty());
    assert(w6@ =~= seq![hdr]);
    g.add_pass("sky", r6, w6);
    let r7 = vec![depth];
    let w7 = vec![hdr];
    assert(r7@ =~= seq![depth]);
    assert(w7@ =~= seq![hdr]);
    g.add_pass("particles", r7, w7);
    let r8 = vec![depth];
    let w8 = vec![hdr];
    assert(r8@ =~= seq![depth]);
    assert(w8@ =~= seq![hdr]);
    g.add_pass("decals", r8, w8);
    let r9 = vec![depth, hdr];
    let w9 = vec![hdr];
    assert(r9@ =~= seq![depth, hdr]);
    assert(w9@ =~= seq![hdr]);
    g.add_pass("water", r9, w9);
    let r10 = vec![depth];
    let w10 = vec![hdr];
    assert(r10@ =~= seq![depth]);
    assert(w10@ =~= seq![hdr]);
    g.add_pass("transparent", r10, w10);
    let ghost s5 = s4.push(pass_of("opaque"@, seq![SHADOW_MAP, DEPTH], seq![HDR]))
        .push(pass_of("sky"@, seq![], seq![HDR]))
        .push(pass_of("particles"@, seq![DEPTH], seq![HDR]))
        .push(pass_of("decals"@, seq![DEPTH], seq![HDR]))
        .push(pass_of("water"@, seq![DEPTH, HDR], seq![HDR]))
        .push(pass_of("transparent"@, seq![DEPTH], seq![HDR]));
    assert(g@.passes =~= s5);
    if ssr {
        let r11 = vec![hdr, depth];
        let w11 = vec![ssr_tex];
        assert(r11@ =~= seq![hdr, depth]);
        assert(w11@ =~= seq![ssr_tex]);
        g.add_pass("ssr", r11, w11);
    }
    let ghost s6 = push_if(s5, ssr, pass_of("ssr"@, seq![HDR, DEPTH], seq![SSR]));
    assert(g@.passes =~= s6);
    if fog {
        let r12 = vec![depth];
        let w12 = vec![fog_tex];
        assert(r12@ =~= seq![depth]);
        assert(w12@ =~= seq![fog_tex]);
        g.add_pass("volumetric_fog", r12, w12);
    }
    let ghost s7 = push_if(s6, fog, pass_of("volumetric_fog"@, seq![DEPTH], seq![FOG]));
    assert(g@.passes =~= s7);
    if bloom {
        let r13 = vec![hdr];
        let w13 = vec![bloom_tex];
        assert(r13@ =~= seq![hdr]);
        assert(w13@ =~= seq![bloom_tex]);
        g.add_pass("bloom", r13, w13);
    }
    let ghost s8 = push_if(s7, bloom, pass_of("bloom"@, seq![HDR], seq![BLOOM]));
    assert(g@.passes =~= s8);
    let mut reads = vec![hdr];
    if ssao {
        reads.push(ao);
    }
    if ssr {
        reads.push(ssr_tex);
    }
    if fog {
        reads.push(fog_tex);
    }
    if bloom {
        reads.push(bloom_tex);
    }
    assert(texture_ids(reads@) =~= composite_reads(bloom, ssr, fog, ssao));
    let w_ldr = vec![ldr];
    assert(w_ldr@ =~= seq![ldr]);
    g.add_pass("composite", reads, w_ldr);
    let ghost s9 = s8.push(pass_of("composite"@, composite_reads(bloom, ssr, fog, ssao), seq![LDR]));
    assert(g@.passes =~= s9);
    if staa {
        let r14 = vec![ldr, depth];
        let w14 = vec![swapchain];
        assert(r14@ =~= seq![ldr, depth]);
        assert(w14@ =~= seq![swapchain]);
        g.add_pass("staa", r14, w14);
    } else if fxaa {
        let r15 = vec![ldr];
        let w15 = vec![swapchain];
        assert(r15@ =~= seq![ldr]);
        assert(w15@ =~= seq![swapchain]);
        g.add_pass("fxaa", r15, w15);
    } else {
        let r16 = vec![ldr];
        let w16 = vec![swapchain];
        assert(r16@ =~= seq![ldr]);
        assert(w16@ =~= seq![swapchain]);
        g.add_pass("present", r16, w16);
    }
    assert(g@.passes =~= frame_passes(tier, bloom, ssr, fog, fxaa, ssao, staa));
    proof {
        lemma_frame_graph_has_order(tier, bloom, ssr, fog, fxaa, ssao, staa);
    }
    g
}

/// The water pass: it reads and writes the HDR target in place.
pub open spec fn is_water(x: PassSpec) -> bool {
    x.reads == seq![DEPTH, HDR] && x.writes == seq![HDR]
}

/// A rank for the passes of a frame graph, by what they write: shadow and
/// depth 0; ambient occlusion, fog and HDR 1 (the water pass, which reads
/// the HDR target, 2); reflections and bloom 3; the LDR target 4; the
/// swapchain 5.  Passes writing nothing rank 1 if they read, else 0.
pub open spec fn frame_rank(x: PassSpec) -> int {
    if x.writes.len() == 0 {
        if x.reads.len() > 0 { 1 } else { 0 }
    } else {
        let t = x.writes[0];
        if t == SHADOW_MAP || t == DEPTH {
            0
        } else if t == AO || t == FOG {
            1
        } else if t == HDR {
            if is_water(x) { 2 } else { 1 }
        } else if t == SSR || t == BLOOM {
            3
        } else if t == LDR {
            4
        } else {
            5
        }
    }
}

/// Writing texture `t` is compatible with rank `r`.
pub open spec fn write_ok(t: u32, r: int, water: bool) -> bool {
    &&& t <= SWAPCHAIN
    &&& (t == SHADOW_MAP || t == DEPTH) ==> r == 0
    &&& (t == AO || t == FOG) ==> r == 1
    &&& t == HDR ==> (r == 1 || (r == 2 && water))
    &&& (t == SSR || t == BLOOM) ==> r == 3
    &&& t == LDR ==> r == 4
    &&& t == SWAPCHAIN ==> r == 5
}

/// Reading texture `t` is compatible with rank `r`.
pub open spec fn read_ok(t: u32, r: int, water: bool) -> bool {
    &&& t < SWAPCHAIN
    &&& (t == SHADOW_MAP || t == DEPTH) ==> r >= 1
    &&& (t == AO || t == FOG || t == SSR || t == BLOOM) ==> r == 4
    &&& t == HDR ==> (r >= 3 || (r == 2 && water))
    &&& t == LDR ==> r == 5
}

/// Every texture a pass reads or writes is compatible with its rank.
pub open spec fn rank_consistent(x: PassSpec) -> bool {
    &&& 0 <= frame_rank(x) < 6
    &&& forall|k: int| 0 <= k < x.writes.len() ==> write_ok(#[trigger] x.writes[k], frame_rank(x), is_water(x))
    &&& forall|k: int| 0 <= k < x.reads.len() ==> read_ok(#[trigger] x.reads[k], frame_rank(x), is_water(x))
}

/// Every pass of `s` is rank-consistent, and at most one is the water pass.
pub open spec fn passes_ok(s: Seq<PassSpec>, water_seen: bool) -> bool {
    &&& forall|i: int| 0 <= i < s.len() ==> rank_consistent(#[trigger] s[i])
    &&& forall|i: int, j: int| 0 <= i < s.len() && 0 <= j < s.len() && is_water(#[trigger] s[i]) && is_water(#[trigger] s[j]) ==> i == j
    &&& !water_seen ==> forall|i: int| 0 <= i < s.len() ==> !is_water(#[trigger] s[i])
}

proof fn lemma_push_ok(s: Seq<PassSpec>, water_seen: bool, x: PassSpec)
    requires
        passes_ok(s, water_seen),
        rank_consistent(x),
        is_water(x) ==> !water_seen,
    ensures
        passes_ok(s.push(x), water_seen || is_water(x)),
{
    let t = s.push(x);
    assert forall|i: int| 0 <= i < t.len() implies rank_consistent(#[trigger] t[i]) by {
        if i < s.len() {
            assert(t[i] == s[i]);
        }
    }
    assert forall|i: int, j: int| 0 <= i < t.len() && 0 <= j < t.len() && is_water(#[trigger] t[i]) && is_water(#[trigger] t[j]) implies i == j by {
        if i < s.len() {
            assert(t[i] == s[i]);
        }
        if j < s.len() {
            assert(t[j] == s[j]);
        }
    }
    assert forall|i: int| !(water_seen || is_water(x)) && 0 <= i < t.len() implies !is_water(#[trigger] t[i]) by {
        if i < s.len() {
            assert(t[i] == s[i]);
        }
    }
}

proof fn lemma_push_if_ok(s: Seq<PassSpec>, water_seen: bool, on: bool, x: PassSpec)
    requires
        passes_ok(s, water_seen),
        rank_consistent(x),
        !is_water(x),
    ensures
        passes_ok(push_if(s, on, x), water_seen),
{
    if on {
        lemma_push_ok(s, water_seen, x);
    }
}

/// The composite pass reads the HDR target and effect outputs only.
proof fn lemma_composite_reads(bloom: bool, ssr: bool, fog: bool, ssao: bool)
    ensures
        composite_reads(bloom, ssr, fog, ssao).len() >= 1,
        composite_reads(bloom, ssr, fog, ssao)[0] == HDR,
        forall|k: int| 0 <= k < composite_reads(bloom, ssr, fog, ssao).len() ==> {
            let t = #[trigger] composite_reads(bloom, ssr, fog, ssao)[k];
            t == HDR || t == AO || t == SSR || t == FOG || t == BLOOM
        },
{
    let r0 = seq![HDR];
    let r1 = if ssao { r0.push(AO) } else { r0 };
    let r2 = if ssr { r1.push(SSR) } else { r1 };
    let r3 = if fog { r2.push(FOG) } else { r2 };
    let r4 = if bloom { r3.push(BLOOM) } else { r3 };
    assert forall|k: int| 0 <= k < r4.len() implies {
        let t = #[trigger] r4[k];
        t == HDR || t == AO || t == SSR || t == FOG || t == BLOOM
    } by {
        if bloom && k == r3.len() {
        } else if k < r3.len() {
            assert(r4[k] == r3[k]);
            if fog && k == r2.len() {
            } else if k < r2.len() {
                assert(r3[k] == r2[k]);
                if ssr && k == r1.len() {
                } else if k < r1.len() {
                    assert(r2[k] == r1[k]);
                    if ssao && k == r0.len() {
                    } else {
                        assert(r1[k] == r0[k]);
                    }
                }
            }
        }
    }
}

/// The passes of a frame, ranked by `frame_rank`, satisfy every dependency.
proof fn lemma_frame_passes_ok(tier: RenderTier, bloom: bool, ssr: bool, fog: bool, fxaa: bool, ssao: bool, staa: bool)
    ensures
        passes_ok(frame_passes(tier, bloom, ssr, fog, fxaa, ssao, staa), true),
{
    let shadow = pass_of("shadow"@, seq![], seq![SHADOW_MAP]);
    let zprepass = pass_of("zprepass"@, seq![], seq![DEPTH]);
    let gtao = pass_of("gtao"@, seq![DEPTH], seq![AO]);
    let hzb_build = pass_of("hzb_build"@, seq![DEPTH], seq![]);
    let hzb_cull = pass_of("hzb_cull"@, seq![], seq![]);
    let opaque = pass_of("opaque"@, seq![SHADOW_MAP, DEPTH], seq![HDR]);
    let sky = pass_of("sky"@, seq![], seq![HDR]);
    let particles = pass_of("particles"@, seq![DEPTH], seq![HDR]);
    let decals = pass_of("decals"@, seq![DEPTH], seq![HDR]);
    let water = pass_of("water"@, seq![DEPTH, HDR], seq![HDR]);
    let transparent = pass_of("transparent"@, seq![DEPTH], seq![HDR]);
    let ssr_p = pass_of("ssr"@, seq![HDR, DEPTH], seq![SSR]);
    let fog_p = pass_of("volumetric_fog"@, seq![DEPTH], seq![FOG]);
    let bloom_p = pass_of("bloom"@, seq![HDR], seq![BLOOM]);
    let composite = pass_of("composite"@, composite_reads(bloom, ssr, fog, ssao), seq![LDR]);
    let staa_p = pass_of("staa"@, seq![LDR, DEPTH], seq![SWAPCHAIN]);
    let fxaa_p = pass_of("fxaa"@, seq![LDR], seq![SWAPCHAIN]);
    let present = pass_of("present"@, seq![LDR], seq![SWAPCHAIN]);
    lemma_composite_reads(bloom, ssr, fog, ssao);
    assert(composite.reads != seq![DEPTH, HDR]) by {
        assert(composite.reads[0] != seq![DEPTH, HDR][0]);
    }
    assert(ssr_p.reads != seq![DEPTH, HDR]) by {
        assert(ssr_p.reads[0] != seq![DEPTH, HDR][0]);
    }
    assert(rank_consistent(shadow));
    assert(rank_consistent(zprepass));
    assert(rank_consistent(gtao));
    assert(rank_consistent(hzb_build));
    assert(rank_consistent(hzb_cull));
    assert(rank_consistent(opaque));
    assert(rank_consistent(sky));
    assert(rank_consistent(particles));
    assert(rank_consistent(decals));
    assert(is_water(water));
    assert(rank_consistent(water));
    assert(rank_consistent(transparent));
    assert(rank_consistent(ssr_p));
    assert(rank_consistent(fog_p));
    assert(rank_consistent(bloom_p));
    assert(rank_consistent(composite));
    assert(rank_consistent(staa_p));
    assert(rank_consistent(fxaa_p));
    assert(rank_consistent(present));
    let s0 = seq![shadow];
    assert(passes_ok(Seq::<PassSpec>::empty(), false));
    assert(Seq::<PassSpec>::empty().push(shadow) == s0);
    lemma_push_ok(Seq::<PassSpec>::empty(), false, shadow);
    let s1 = push_if(s0, tier != RenderTier::LowGles, zprepass);
    lemma_push_if_ok(s0, false, tier != RenderTier::LowGles, zprepass);
    let s2 = push_if(s1, ssao || staa, gtao);
    lemma_push_if_ok(s1, false, ssao || staa, gtao);
    let s3 = push_if(s2, tier == RenderTier::High, hzb_build);
    lemma_push_if_ok(s2, false, tier == RenderTier::High, hzb_build);
    let s4 = push_if(s3, tier == RenderTier::High, hzb_cull);
    lemma_push_if_ok(s3, false, tier == RenderTier::High, hzb_cull);
    lemma_push_ok(s4, false, opaque);
    lemma_push_ok(s4.push(opaque), false, sky);
    lemma_push_ok(s4.push(opaque).push(sky), false, particles);
    lemma_push_ok(s4.push(opaque).push(sky).push(particles), false, decals);
    lemma_push_ok(s4.push(opaque).push(sky).push(particles).push(decals), false, water);
    lemma_push_ok(s4.push(opaque).push(sky).push(particles).push(decals).push(water), true, transparent);
    let s5 = s4.push(opaque).push(sky).push(particles).push(decals).push(water).push(transparent);
    let s6 = push_if(s5, ssr, ssr_p);
    lemma_push_if_ok(s5, true, ssr, ssr_p);
    let s7 = push_if(s6, fog, fog_p);
    lemma_push_if_ok(s6, true, fog, fog_p);
    let s8 = push_if(s7, bloom, bloom_p);
    lemma_push_if_ok(s7, true, bloom, bloom_p);
    let s9 = s8.push(composite);
    lemma_push_ok(s8, true, composite);
    lemma_push_ok(s9, true, staa_p);
    lemma_push_ok(s9, true, fxaa_p);
    lemma_push_ok(s9, true, present);
}

/// Whatever the tier and the enabled effects, the frame graph admits an
/// execution order that respects every dependency, so its schedule runs
/// every writer of a texture before each pass that reads it.
pub proof fn lemma_frame_graph_has_order(tier: RenderTier, bloom: bool, ssr: bool, fog: bool, fxaa: bool, ssao: bool, staa: bool)
    ensures
        has_topological_order(frame_passes(tier, bloom, ssr, fog, fxaa, ssao, staa)),
{
    let p = frame_passes(tier, bloom, ssr, fog, fxaa, ssao, staa);
    lemma_frame_passes_ok(tier, bloom, ssr, fog, fxaa, ssao, staa);
    let rank = |i: int| frame_rank(p[i]);
    assert(p.len() <= 20);
    assert forall|i: int| 0 <= i < p.len() implies 0 <= #[trigger] rank(i) < 6 by {
        assert(rank_consistent(p[i]));
    }
    assert forall|u: int, v: int| #[trigger] depends(p, u, v) implies rank(u) < rank(v) by {
        let b = choose|b: int| 0 <= b < p[v].reads.len() && p[u].writes.contains(#[trigger] p[v].reads[b]);
        let t = p[v].reads[b];
        let k = choose|k: int| 0 <= k < p[u].writes.len() && p[u].writes[k] == t;
        assert(rank_consistent(p[u]));
        assert(rank_consistent(p[v]));
        assert(write_ok(p[u].writes[k], frame_rank(p[u]), is_water(p[u])));
        assert(read_ok(p[v].reads[b], frame_rank(p[v]), is_water(p[v])));
        if is_water(p[u]) && is_water(p[v]) {
            assert(u == v);
        }
    }
    lemma_ranked_passes_have_order(p, rank, 6);
}

/// Some pass of `s` is named `name`.
pub open spec fn has_pass_named(s: Seq<PassSpec>, name: Seq<char>) -> bool {
    exists|i: int| 0 <= i < s.len() && #[trigger] s[i].name == name
}

/// Every pass of `s` named `name` is `p`.
pub open spec fn named_passes_are(s: Seq<PassSpec>, name: Seq<char>, p: PassSpec) -> bool {
    forall|i: int| 0 <= i < s.len() && #[trigger] s[i].name == name ==> s[i] == p
}

proof fn lemma_push_named(s: Seq<PassSpec>, q: PassSpec, name: Seq<char>, p: PassSpec)
    ensures
        has_pass_named(s.push(q), name) <==> (has_pass_named(s, name) || q.name == name),
        named_passes_are(s, name, p) && (q.name == name ==> q == p) ==> named_passes_are(s.push(q), name, p),
{
    let t = s.push(q);
    if has_pass_named(t, name) {
        let i = choose|i: int| 0 <= i < t.len() && #[trigger] t[i].name == name;
        if i < s.len() {
            assert(s[i].name == name);
        }
    }
    if has_pass_named(s, name) {
        let i = choose|i: int| 0 <= i < s.len() && #[trigger] s[i].name == name;
        assert(t[i].name == name);
    }
    if q.name == name {
        assert(t[s.len() as int].name == name);
    }
    if named_passes_are(s, name, p) && (q.name == name ==> q == p) {
        assert forall|i: int| 0 <= i < t.len() && #[trigger] t[i].name == name implies t[i] == p by {
            if i < s.len() {
                assert(s[i].name == name);
            }
        }
    }
}

proof fn lemma_push_if_named(s: Seq<PassSpec>, on: bool, q: PassSpec, name: Seq<char>, p: PassSpec)
    ensures
        has_pass_named(push_if(s, on, q), name) <==> (has_pass_named(s, name) || (on && q.name == name)),
        named_passes_are(s, name, p) && (q.name == name ==> q == p) ==> named_passes_are(push_if(s, on, q), name, p),
{
    if on {
        lemma_push_named(s, q, name, p);
    }
}

/// The ambient-occlusion pass (reading depth, writing the AO texture) is in
/// the frame graph exactly when SSAO or temporal AA is on: temporal AA needs
/// its depth prepass too.
pub proof fn lemma_gtao_pass_iff_ssao_or_staa(tier: RenderTier, bloom: bool, ssr: bool, fog: bool, fxaa: bool, ssao: bool, staa: bool)
    ensures
        has_pass_named(frame_passes(tier, bloom, ssr, fog, fxaa, ssao, staa), "gtao"@) <==> (ssao || staa),
        named_passes_are(frame_passes(tier, bloom, ssr, fog, fxaa, ssao, staa), "gtao"@, pass_of("gtao"@, seq![DEPTH], seq![AO])),
{
    reveal_strlit("gtao");
    reveal_strlit("shadow");
    reveal_strlit("zprepass");
    reveal_strlit("hzb_build");
    reveal_strlit("hzb_cull");
    reveal_strlit("opaque");
    reveal_strlit("sky");
    reveal_strlit("particles");
    reveal_strlit("decals");
    reveal_strlit("water");
    reveal_strlit("transparent");
    reveal_strlit("ssr");
    reveal_strlit("volumetric_fog");
    reveal_strlit("bloom");
    reveal_strlit("composite");
    reveal_strlit("staa");
    reveal_strlit("fxaa");
    reveal_strlit("present");
    let g = "gtao"@;
    let gp = pass_of(g, seq![DEPTH], seq![AO]);
    assert("fxaa"@[0] != g[0]);
    assert("staa"@[0] != g[0]);
    let s0 = seq![pass_of("shadow"@, seq![], seq![SHADOW_MAP])];
    assert(!has_pass_named(s0, g)) by {
        if has_pass_named(s0, g) {
            let i = choose|i: int| 0 <= i < s0.len() && #[trigger] s0[i].name == g;
            assert(s0[i].name == "shadow"@);
        }
    }
    assert(named_passes_are(s0, g, gp)) by {
        assert forall|i: int| 0 <= i < s0.len() && #[trigger] s0[i].name == g implies s0[i] == gp by {
            assert(s0[i].name == "shadow"@);
        }
    }
    let s1 = push_if(s0, tier != RenderTier::LowGles, pass_of("zprepass"@, seq![], seq![DEPTH]));
    lemma_push_if_named(s0, tier != RenderTier::LowGles, pass_of("zprepass"@, seq![], seq![DEPTH]), g, gp);
    let s2 = push_if(s1, ssao || staa, gp);
    lemma_push_if_named(s1, ssao || staa, gp, g, gp);
    let s3 = push_if(s2, tier == RenderTier::High, pass_of("hzb_build"@, seq![DEPTH], seq![]));
    lemma_push_if_named(s2, tier == RenderTier::High, pass_of("hzb_build"@, seq![DEPTH], seq![]), g, gp);
    let s4 = push_if(s3, tier == RenderTier::High, pass_of("hzb_cull"@, seq![], seq![]));
    lemma_push_if_named(s3, tier == RenderTier::High, pass_of("hzb_cull"@, seq![], seq![]), g, gp);
    let a1 = s4.push(pass_of("opaque"@, seq![SHADOW_MAP, DEPTH], seq![HDR]));
    lemma_push_named(s4, pass_of("opaque"@, seq![SHADOW_MAP, DEPTH], seq![HDR]), g, gp);
    let a2 = a1.push(pass_of("sky"@, seq![], seq![HDR]));
    lemma_push_named(a1, pass_of("sky"@, seq![], seq![HDR]), g, gp);
    let a3 = a2.push(pass_of("particles"@, seq![DEPTH], seq![HDR]));
    lemma_push_named(a2, pass_of("particles"@, seq![DEPTH], seq![HDR]), g, gp);
    let a4 = a3.push(pass_of("decals"@, seq![DEPTH], seq![HDR]));
    lemma_push_named(a3, pass_of("decals"@, seq![DEPTH], seq![HDR]), g, gp);
    let a5 = a4.push(pass_of("water"@, seq![DEPTH, HDR], seq![HDR]));
    lemma_push_named(a4, pass_of("water"@, seq![DEPTH, HDR], seq![HDR]), g, gp);
    let s5 = a5.push(pass_of("transparent"@, seq![DEPTH], seq![HDR]));
    lemma_push_named(a5, pass_of("transparent"@, seq![DEPTH], seq![HDR]), g, gp);
    let s6 = push_if(s5, ssr, pass_of("ssr"@, seq![HDR, DEPTH], seq![SSR]));
    lemma_push_if_named(s5, ssr, pass_of("ssr"@, seq![HDR, DEPTH], seq![SSR]), g, gp);
    let s7 = push_if(s6, fog, pass_of("volumetric_fog"@, seq![DEPTH], seq![FOG]));
    lemma_push_if_named(s6, fog, pass_of("volumetric_fog"@, seq![DEPTH], seq![FOG]), g, gp);
    let s8 = push_if(s7, bloom, pass_of("bloom"@, seq![HDR], seq![BLOOM]));
    lemma_push_if_named(s7, bloom, pass_of("bloom"@, seq![HDR], seq![BLOOM]), g, gp);
    let s9 = s8.push(pass_of("composite"@, composite_reads(bloom, ssr, fog, ssao), seq![LDR]));
    lemma_push_named(s8, pass_of("composite"@, composite_reads(bloom, ssr, fog, ssao), seq![LDR]), g, gp);
    lemma_push_named(s9, pass_of("staa"@, seq![LDR, DEPTH], seq![SWAPCHAIN]), g, gp);
    lemma_push_named(s9, pass_of("fxaa"@, seq![LDR], seq![SWAPCHAIN]), g, gp);
    lemma_push_named(s9, pass_of("present"@, seq![LDR], seq![SWAPCHAIN]), g, gp);
}

} // verus!
