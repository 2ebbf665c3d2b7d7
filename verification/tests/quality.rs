use lunar_render::quality::{
    preset_ord, preset_step_down, preset_step_up, AutoQuality, DevRenderProfile, QualityPreset, QualitySettings,
    RenderTier, UpscaleMode,
};

#[test]
fn tier_from_capabilities() {
    assert_eq!(RenderTier::from_capabilities(false, false), RenderTier::LowGles);
    assert_eq!(RenderTier::from_capabilities(false, true), RenderTier::LowGles);
    assert_eq!(RenderTier::from_capabilities(true, false), RenderTier::Mid);
    assert_eq!(RenderTier::from_capabilities(true, true), RenderTier::High);
}

#[test]
fn low_tier_defaults_use_fxaa_without_msaa() {
    let q = QualitySettings::from_tier(RenderTier::LowGles);
    assert_eq!(q.preset, QualityPreset::Low);
    assert_eq!(q.shadow_res, 512);
    assert_eq!(q.point_shadow_res, 256);
    assert_eq!(q.shadow_cascades, 1);
    assert_eq!(q.msaa_samples, 1);
    assert!(!q.bloom);
    assert_eq!(q.bloom_mips, 3);
    assert!(q.fxaa);
    assert!(!q.staa);
    assert!(!q.ssao && !q.ssr && !q.volumetric_fog);
    assert_eq!(q.particle_cap, 1024);
    assert_eq!(q.upscale_mode, UpscaleMode::Nearest);
}

#[test]
fn mid_and_high_tier_defaults() {
    let mid = QualitySettings::from_tier(RenderTier::Mid);
    assert_eq!(mid.preset, QualityPreset::Medium);
    assert_eq!(mid.shadow_res, 1024);
    assert_eq!(mid.msaa_samples, 4);
    assert_eq!(mid.bloom_mips, 5);
    assert!(mid.staa && !mid.fxaa);
    assert!(!mid.chromatic_aberration && !mid.film_grain);
    assert_eq!(mid.particle_cap, 8192);
    let high = QualitySettings::from_tier(RenderTier::High);
    assert_eq!(high.preset, QualityPreset::High);
    assert_eq!(high.shadow_res, 2048);
    assert_eq!(high.bloom_mips, 7);
    assert!(high.chromatic_aberration && high.film_grain);
    assert_eq!(high.particle_cap, 32768);
}

#[test]
fn minimum_turns_everything_off() {
    let q = QualitySettings::minimum();
    assert_eq!(q.preset, QualityPreset::Minimum);
    assert_eq!(q.shadow_cascades, 1);
    assert_eq!(q.msaa_samples, 1);
    assert!(!q.bloom && !q.ssao && !q.vignette && !q.chromatic_aberration && !q.film_grain);
    assert!(!q.fxaa && !q.staa && !q.ssr && !q.volumetric_fog);
    assert_eq!(q.particle_cap, 512);
}

#[test]
fn maximum_is_the_high_tier() {
    assert_eq!(QualitySettings::maximum(), QualitySettings::from_tier(RenderTier::High));
}

#[test]
fn preset_overrides_tier_toggles() {
    let min_high = QualitySettings::from_tier_and_preset(RenderTier::High, QualityPreset::Minimum);
    assert_eq!(min_high.preset, QualityPreset::Minimum);
    assert_eq!(min_high.shadow_res, 2048);
    assert_eq!(min_high.msaa_samples, 1);
    assert_eq!(min_high.shadow_cascades, 1);
    assert!(!min_high.bloom && !min_high.fxaa && !min_high.staa && !min_high.film_grain);
    let low_high = QualitySettings::from_tier_and_preset(RenderTier::High, QualityPreset::Low);
    assert!(low_high.fxaa);
    assert!(!low_high.staa && !low_high.bloom);
    assert!(low_high.vignette);
    let med_gles = QualitySettings::from_tier_and_preset(RenderTier::LowGles, QualityPreset::Medium);
    assert_eq!(med_gles.msaa_samples, 1);
    let med_mid = QualitySettings::from_tier_and_preset(RenderTier::Mid, QualityPreset::Medium);
    assert_eq!(med_mid.msaa_samples, 4);
    let ultra = QualitySettings::from_tier_and_preset(RenderTier::Mid, QualityPreset::Ultra);
    assert_eq!(ultra.preset, QualityPreset::Ultra);
    assert_eq!(ultra.shadow_res, 1024);
}

#[test]
fn classic_profile_caps_high_settings() {
    let q = QualitySettings::from_tier(RenderTier::High).apply_dev_profile(&DevRenderProfile::classic());
    assert_eq!(q.shadow_cascades, 0);
    assert!(!q.bloom && !q.ssao && !q.ssr && !q.volumetric_fog);
    assert!(q.staa);
    assert!(!q.vignette && !q.chromatic_aberration && !q.film_grain);
    assert_eq!(q.msaa_samples, 4);
    assert_eq!(q.particle_cap, 8192);
}

#[test]
fn dev_profile_limits_and_forced_upscale() {
    let dev = DevRenderProfile::full()
        .with_max_msaa(2)
        .with_max_shadow_cascades(2)
        .with_max_particles(100);
    let mut dev = dev;
    dev.forced_upscale_mode = Some(UpscaleMode::Fsr3);
    let q = QualitySettings::from_tier(RenderTier::High).apply_dev_profile(&dev);
    assert_eq!(q.msaa_samples, 2);
    assert_eq!(q.shadow_cascades, 2);
    assert_eq!(q.particle_cap, 100);
    assert_eq!(q.upscale_mode, UpscaleMode::Fsr3);
    assert!(q.bloom && q.ssao && q.ssr);
    // clamping twice changes nothing more
    assert_eq!(q.apply_dev_profile(&dev), q);
}

#[test]
fn dev_profiles_and_builders() {
    assert_eq!(DevRenderProfile::default(), DevRenderProfile::classic());
    let classic = DevRenderProfile::classic();
    assert!(!classic.shadows && classic.fxaa && classic.staa);
    assert_eq!(classic.max_point_lights, 8);
    let standard = DevRenderProfile::standard();
    assert!(standard.shadows && standard.bloom && standard.vignette && !standard.ssao);
    assert_eq!(standard.max_particles, 32768);
    let full = DevRenderProfile::full();
    assert!(full.soft_shadows && full.contact_shadows && full.point_light_shadows);
    assert_eq!(full.max_particles, u32::MAX);
    assert_eq!(full.max_point_lights, 256);
    let d = DevRenderProfile::classic()
        .with_point_light_shadows(true)
        .with_max_point_lights(32)
        .with_soft_shadows(true)
        .with_contact_shadows(true)
        .with_shadows(true)
        .with_bloom(true)
        .with_ssao(true)
        .with_ssr(true)
        .with_volumetric_fog(true)
        .with_fxaa(false)
        .with_staa(false)
        .with_vignette(true)
        .with_chromatic_aberration(true)
        .with_film_grain(true);
    assert!(d.point_light_shadows && d.soft_shadows && d.contact_shadows && d.shadows);
    assert!(d.bloom && d.ssao && d.ssr && d.volumetric_fog && d.vignette && d.chromatic_aberration && d.film_grain);
    assert!(!d.fxaa && !d.staa);
    assert_eq!(d.max_point_lights, 32);
}

#[test]
fn auto_quality_defaults_disabled() {
    let a = AutoQuality::default();
    assert!(!a.enabled);
    assert_eq!(a.min, QualityPreset::Minimum);
    assert_eq!(a.max, QualityPreset::Ultra);
}

#[test]
fn preset_ranks_and_steps() {
    assert_eq!(preset_ord(QualityPreset::Minimum), 0);
    assert_eq!(preset_ord(QualityPreset::Ultra), 4);
    assert_eq!(preset_step_down(QualityPreset::High, QualityPreset::Minimum), QualityPreset::Medium);
    assert_eq!(preset_step_down(QualityPreset::Minimum, QualityPreset::Minimum), QualityPreset::Minimum);
    assert_eq!(preset_step_down(QualityPreset::Medium, QualityPreset::Medium), QualityPreset::Medium);
    assert_eq!(preset_step_down(QualityPreset::Low, QualityPreset::High), QualityPreset::High);
    assert_eq!(preset_step_up(QualityPreset::Low, QualityPreset::Ultra), QualityPreset::Medium);
    assert_eq!(preset_step_up(QualityPreset::Ultra, QualityPreset::Ultra), QualityPreset::Ultra);
    assert_eq!(preset_step_up(QualityPreset::High, QualityPreset::High), QualityPreset::High);
    // down then up returns to the start
    let down = preset_step_down(QualityPreset::High, QualityPreset::Low);
    assert_eq!(preset_step_up(down, QualityPreset::Ultra), QualityPreset::High);
}
