use lunar_render::engine_setup::{
    engine_setup, hdr_format, requested_features, setup_render_graph, AdapterFeatures, HdrFormat,
};
use lunar_render::quality::{QualitySettings, RenderTier};
use lunar_render::render_graph::PassId;

#[test]
fn features_requested_as_offered() {
    let a = AdapterFeatures {
        rg11b10_renderable: true,
        indirect_first_instance: false,
        pipeline_cache: true,
        passthrough_shaders: true,
        vulkan: false,
    };
    let d = requested_features(a);
    assert!(d.rg11b10_renderable && !d.indirect_first_instance && d.pipeline_cache);
    assert!(!d.passthrough_shaders);
    let d = requested_features(AdapterFeatures { vulkan: true, ..a });
    assert!(d.passthrough_shaders);
    assert_eq!(hdr_format(true), HdrFormat::Rg11b10Ufloat);
    assert_eq!(hdr_format(false), HdrFormat::Rgba16Float);
}

#[test]
fn low_tier_setup() {
    let s = engine_setup(RenderTier::LowGles, false);
    assert_eq!(s.quality, QualitySettings::from_tier(RenderTier::LowGles));
    assert_eq!(s.msaa_samples, 1);
    assert!(!s.staa_enabled && !s.particles_enabled && !s.gpu_cull_enabled && !s.hzb_enabled);
    assert!(s.fxaa_enabled && s.ssr_enabled);
    assert!(!s.bloom_enabled && !s.fog_enabled && !s.ssao_enabled);
    assert_eq!(s.bloom_mip_count, 3);
    assert_eq!(s.particle_cap, 1024);
    let mut g = setup_render_graph(&s);
    let names: Vec<String> = (0..g.pass_count()).map(|i| g.pass_name(PassId(i as u32)).to_string()).collect();
    assert!(names.contains(&"ssr".to_string()));
    assert_eq!(names.last().map(String::as_str), Some("fxaa"));
    assert_eq!(g.sorted_pass_ids().len(), names.len());
}

#[test]
fn high_tier_setup() {
    let s = engine_setup(RenderTier::High, true);
    assert!(s.staa_enabled && s.particles_enabled && s.gpu_cull_enabled && s.hzb_enabled && s.has_indirect);
    assert!(s.bloom_enabled && s.fog_enabled && s.ssao_enabled);
    assert_eq!(s.msaa_samples, 4);
    assert_eq!(s.bloom_mip_count, 7);
    let g = setup_render_graph(&s);
    assert_eq!(g.pass_count(), 16);
    let mid = engine_setup(RenderTier::Mid, false);
    assert!(mid.staa_enabled && !mid.gpu_cull_enabled && !mid.hzb_enabled);
}
