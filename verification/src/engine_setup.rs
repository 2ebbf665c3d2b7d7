//! What the 3D engine decides when it starts on an adapter: which optional
//! device features it requests, its HDR format, and which subsystems it
//! builds for the hardware tier (with the tier's default quality).
use vstd::prelude::*;
use crate::frame_graph::{build_render_graph, frame_passes, frame_textures};
use crate::quality::{tier_settings, QualitySettings, RenderTier};
use crate::render_graph::{has_topological_order, RenderGraph};

verus! {

/// Format of the HDR color target.
#[derive(Debug, Clone, Copy, PartialEq, Eq, Structural)]
pub enum HdrFormat {
    /// Packed 11/11/10-bit float, when the adapter can render to it.
    Rg11b10Ufloat,
    /// 16-bit float RGBA otherwise.
    Rgba16Float,
}

/// Optional features an adapter offers, and whether it runs on Vulkan.
#[derive(Debug, Clone, Copy, PartialEq, Eq, Structural)]
pub struct AdapterFeatures {
    pub rg11b10_renderable: bool,
    pub indirect_first_instance: bool,
    pub pipeline_cache: bool,
    pub passthrough_shaders: bool,
    pub vulkan: bool,
}

/// Optional features requested from the device.
#[derive(Debug, Clone, Copy, PartialEq, Eq, Structural)]
pub struct DeviceFeatures {
    pub rg11b10_renderable: bool,
    pub indirect_first_instance: bool,
    pub pipeline_cache: bool,
    pub passthrough_shaders: bool,
}

/// Request every optional feature the adapter offers; shader passthrough
/// only on Vulkan, where precompiled SPIR-V is the native format.
pub fn requested_features(a: AdapterFeatures) -> (d: DeviceFeatures)
    ensures
        d == (DeviceFeatures {
            rg11b10_renderable: a.rg11b10_renderable,
            indirect_first_instance: a.indirect_first_instance,
            pipeline_cache: a.pipeline_cache,
            passthrough_shaders: a.passthrough_shaders && a.vulkan,
        }),
{
    DeviceFeatures {
        rg11b10_renderable: a.rg11b10_renderable,
        indirect_first_instance: a.indirect_first_instance,
        pipeline_cache: a.pipeline_cache,
        passthrough_shaders: a.passthrough_shaders && a.vulkan,
    }
}

/// The HDR format: packed 11/11/10 float when renderable, else 16-bit RGBA.
pub fn hdr_format(rg11b10_renderable: bool) -> (f: HdrFormat)
    ensures
        f == (if rg11b10_renderable { HdrFormat::Rg11b10Ufloat } else { HdrFormat::Rgba16Float }),
{
    if rg11b10_renderable {
        HdrFormat::Rg11b10Ufloat
    } else {
        HdrFormat::Rgba16Float
    }
}

/// Subsystems and starting quality of an engine on a hardware tier.
#[derive(Debug, Clone, Copy, PartialEq, Eq, Structural)]
pub struct EngineSetup {
    pub tier: RenderTier,
    pub quality: QualitySettings,
    pub msaa_samples: u32,
    pub bloom_enabled: bool,
    pub bloom_mip_count: usize,
    /// The FXAA pipeline is always built; the settings gate it per frame.
    pub fxaa_enabled: bool,
    /// Temporal AA needs compute shaders.
    pub staa_enabled: bool,
    /// The reflection pipeline is always built; the settings gate it per frame.
    pub ssr_enabled: bool,
    pub fog_enabled: bool,
    pub ssao_enabled: bool,
    /// GPU particle simulation needs compute shaders.
    pub particles_enabled: bool,
    /// Particle buffer capacity, at least one.
    pub particle_cap: u32,
    /// GPU frustum culling and occlusion culling run on the full tier only.
    pub gpu_cull_enabled: bool,
    pub hzb_enabled: bool,
    pub has_indirect: bool,
}

/// The setup an engine starts with on `tier`.
pub open spec fn setup_for(tier: RenderTier, has_indirect: bool) -> EngineSetup {
    let q = tier_settings(tier);
    EngineSetup {
        tier,
        quality: q,
        msaa_samples: q.msaa_samples,
        bloom_enabled: q.bloom,
        bloom_mip_count: q.bloom_mips as usize,
        fxaa_enabled: true,
        staa_enabled: tier != RenderTier::LowGles,
        ssr_enabled: true,
        fog_enabled: q.volumetric_fog,
        ssao_enabled: q.ssao,
        particles_enabled: tier != RenderTier::LowGles,
        particle_cap: if q.particle_cap >= 1 { q.particle_cap } else { 1 },
        gpu_cull_enabled: tier == RenderTier::High,
        hzb_enabled: tier == RenderTier::High,
        has_indirect,
    }
}

/// Decide the subsystems of an engine starting on `tier`, with the tier's
/// default quality settings.
pub fn engine_setup(tier: RenderTier, has_indirect: bool) -> (s: EngineSetup)
    ensures
        s == setup_for(tier, has_indirect),
{
    let q = QualitySettings::from_tier(tier);
    let low = match tier {
        RenderTier::LowGles => true,
        _ => false,
    };
    let high = match tier {
        RenderTier::High => true,
        _ => false,
    };
    EngineSetup {
        tier,
        quality: q,
        msaa_samples: q.msaa_samples,
        bloom_enabled: q.bloom,
        bloom_mip_count: q.bloom_mips as usize,
        fxaa_enabled: true,
        staa_enabled: !low,
        ssr_enabled: true,
        fog_enabled: q.volumetric_fog,
        ssao_enabled: q.ssao,
        particles_enabled: !low,
        particle_cap: if q.particle_cap >= 1 { q.particle_cap } else { 1 },
        gpu_cull_enabled: high,
        hzb_enabled: high,
        has_indirect,
    }
}

/// The render graph an engine builds from its setup.
pub fn setup_render_graph(s: &EngineSetup) -> (g: RenderGraph)
    ensures
        g@.wf(),
        g@.passes == frame_passes(s.tier, s.bloom_enabled, s.ssr_enabled, s.fog_enabled, s.fxaa_enabled, s.ssao_enabled, s.staa_enabled),
        g@.textures == frame_textures(),
        has_topological_order(g@.passes),
{
    build_render_graph(s.tier, s.bloom_enabled, s.ssr_enabled, s.fog_enabled, s.fxaa_enabled, s.ssao_enabled, s.staa_enabled)
}

} // verus!
