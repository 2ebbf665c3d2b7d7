use lunar_render::frame_features::{
    composite_flags, final_aa, next_msaa, resolve_frame_features, supported_msaa, FinalAa, MAX_CLUSTERED_LIGHTS,
};
use lunar_render::quality::{DevRenderProfile, QualitySettings, RenderTier, UpscaleMode};

#[test]
fn no_profile_no_settings() {
    let f = resolve_frame_features(None, None, true);
    assert!(f.bloom && f.ssao && f.fog && f.vignette && f.point_light_shadows);
    assert!(!f.ssr && !f.fxaa && !f.staa && !f.staa_jitter);
    assert!(!f.soft_shadows && !f.contact_shadows);
    assert_eq!(f.max_point_lights, MAX_CLUSTERED_LIGHTS);
    assert_eq!(f.upscale_mode, UpscaleMode::Lanczos);
    assert_eq!(final_aa(&f), FinalAa::Present);
}

#[test]
fn staa_needs_profile_settings_and_hardware() {
    let q = QualitySettings::from_tier(RenderTier::High);
    let f = resolve_frame_features(Some(DevRenderProfile::full()), Some(q), true);
    assert!(f.staa && f.staa_jitter && f.ssr);
    assert_eq!(final_aa(&f), FinalAa::Staa);
    let f = resolve_frame_features(Some(DevRenderProfile::full()), Some(q), false);
    assert!(f.staa && !f.staa_jitter);
    let f = resolve_frame_features(Some(DevRenderProfile::full().with_staa(false)), Some(q), true);
    assert!(!f.staa && !f.staa_jitter);
}

#[test]
fn classic_profile_gates() {
    let q = QualitySettings::from_tier(RenderTier::LowGles);
    let f = resolve_frame_features(Some(DevRenderProfile::classic()), Some(q), false);
    assert!(!f.bloom && !f.ssao && !f.ssr && !f.fog);
    assert!(f.fxaa && !f.staa);
    assert_eq!(f.max_point_lights, 8);
    assert_eq!(f.upscale_mode, UpscaleMode::Nearest);
    assert_eq!(final_aa(&f), FinalAa::Fxaa);
}

#[test]
fn point_lights_capped_and_forced_upscale() {
    let mut dev = DevRenderProfile::full().with_max_point_lights(1000);
    dev.forced_upscale_mode = Some(UpscaleMode::Bicubic);
    let f = resolve_frame_features(Some(dev), None, true);
    assert_eq!(f.max_point_lights, 256);
    assert_eq!(f.upscale_mode, UpscaleMode::Bicubic);
}

#[test]
fn composite_flag_bits() {
    let q = QualitySettings::from_tier(RenderTier::High);
    let f = resolve_frame_features(Some(DevRenderProfile::full()), Some(q), true);
    assert_eq!(composite_flags(&f, Some(q), true, true, true, true), 255);
    assert_eq!(composite_flags(&f, Some(q), false, false, false, false), 2 + 4 + 8 + 32);
    assert_eq!(composite_flags(&f, None, true, true, true, true), 1 + 128);
    let classic = resolve_frame_features(Some(DevRenderProfile::classic()), Some(q), true);
    assert_eq!(composite_flags(&classic, Some(q), true, true, true, true), 0);
}

#[test]
fn msaa_selection() {
    assert_eq!(supported_msaa(4), 4);
    assert_eq!(supported_msaa(8), 1);
    assert_eq!(supported_msaa(2), 1);
    let mut q = QualitySettings::from_tier(RenderTier::High);
    assert_eq!(next_msaa(Some(q), 1), 4);
    assert_eq!(next_msaa(Some(q), 4), 4);
    q.msaa_samples = 16;
    assert_eq!(next_msaa(Some(q), 4), 1);
    q.msaa_samples = 0;
    assert_eq!(next_msaa(Some(q), 1), 1);
    assert_eq!(next_msaa(None, 4), 4);
}
