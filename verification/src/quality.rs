//! Render tiers, quality presets and the per-feature quality knobs.
//!
//! `QualitySettings` is the user's choice within what the hardware tier
//! allows; `DevRenderProfile` is the developer's ceiling on top of it.  The
//! renderer takes the minimum of both each frame.  The resolution scale of the
//! settings is a floating-point knob and is kept beside this type by the host.
use vstd::prelude::*;

verus! {

/// Hardware capability tier, queried from the adapter at startup.
#[derive(Debug, Clone, Copy, PartialEq, Eq, Structural)]
pub enum RenderTier {
    /// GLES floor: no compute shaders, forward only.
    LowGles,
    /// Compute available, no multi-draw-indirect.
    Mid,
    /// Full: compute + indirect execution.
    High,
}

/// Coarse quality tier; individual toggles can be overridden independently.
#[derive(Debug, Clone, Copy, PartialEq, Eq, Structural)]
pub enum QualityPreset {
    Minimum,
    Low,
    Medium,
    High,
    Ultra,
}

/// Upscaling algorithm used when the scene renders below display resolution.
#[derive(Debug, Clone, Copy, PartialEq, Eq, Structural)]
pub enum UpscaleMode {
    /// Integer-aligned point sampling.
    Nearest,
    /// Hardware bilinear.
    Linear,
    /// Lanczos-2.
    Lanczos,
    /// Mitchell-Netravali bicubic.
    Bicubic,
    /// Edge-adaptive spatial upsampling with contrast sharpening.
    Fsr3,
}

impl RenderTier {
    /// The tier of an adapter from its downlevel capabilities: without
    /// compute shaders the GLES floor; with indirect execution as well the
    /// full tier; otherwise the middle tier.
    pub fn from_capabilities(compute_shaders: bool, indirect_execution: bool) -> (t: RenderTier)
        ensures
            t == (if !compute_shaders {
                RenderTier::LowGles
            } else if indirect_execution {
                RenderTier::High
            } else {
                RenderTier::Mid
            }),
    {
        if !compute_shaders {
            RenderTier::LowGles
        } else if indirect_execution {
            RenderTier::High
        } else {
            RenderTier::Mid
        }
    }
}

/// Per-feature quality knobs.
#[derive(Debug, Clone, Copy, PartialEq, Eq, Structural)]
pub struct QualitySettings {
    pub preset: QualityPreset,
    /// Shadow map resolution per cascade side (pixels).
    pub shadow_res: u32,
    /// Shadow map resolution per point light cube face (pixels).
    pub point_shadow_res: u32,
    /// Number of shadow cascades.
    pub shadow_cascades: u32,
    /// MSAA sample count: 1 = off, 4 = 4x.
    pub msaa_samples: u32,
    /// Bloom post-pass.
    pub bloom: bool,
    /// Number of bloom downsample mip levels.
    pub bloom_mips: u32,
    /// Half-res ambient occlusion.
    pub ssao: bool,
    /// Screen-space vignette.
    pub vignette: bool,
    /// Chromatic aberration.
    pub chromatic_aberration: bool,
    /// Film grain.
    pub film_grain: bool,
    /// Maximum live particles.
    pub particle_cap: u32,
    /// FXAA post-process AA.
    pub fxaa: bool,
    /// Selective temporal AA.
    pub staa: bool,
    /// Screen-space reflections.
    pub ssr: bool,
    /// Ray-marched volumetric fog.
    pub volumetric_fog: bool,
    /// Upscaling algorithm used below native resolution.
    pub upscale_mode: UpscaleMode,
}

/// What the game is designed to use: a per-feature ceiling the developer controls.
#[derive(Debug, Clone, Copy, PartialEq, Eq, Structural)]
pub struct DevRenderProfile {
    pub shadows: bool,
    pub bloom: bool,
    pub ssao: bool,
    pub ssr: bool,
    pub volumetric_fog: bool,
    pub fxaa: bool,
    pub staa: bool,
    pub vignette: bool,
    pub chromatic_aberration: bool,
    pub film_grain: bool,
    /// Maximum shadow cascades the game will use.
    pub max_shadow_cascades: u32,
    /// Maximum MSAA sample count the game supports.
    pub max_msaa: u32,
    /// Maximum particle cap.
    pub max_particles: u32,
    /// Point light cube shadow maps.
    pub point_light_shadows: bool,
    /// Maximum point lights in the scene.
    pub max_point_lights: u32,
    /// Soft (variable penumbra) shadows.
    pub soft_shadows: bool,
    /// Screen-space contact shadows.
    pub contact_shadows: bool,
    /// Upscaling algorithm forced regardless of the user's settings.
    pub forced_upscale_mode: Option<UpscaleMode>,
}

/// Automatic quality stepping based on the frame-time average.
#[derive(Debug, Clone, Copy, PartialEq, Eq, Structural)]
pub struct AutoQuality {
    pub enabled: bool,
    pub min: QualityPreset,
    pub max: QualityPreset,
}

/// Rank of a preset, from `Minimum` (0) to `Ultra` (4).
pub open spec fn preset_rank(p: QualityPreset) -> int {
    match p {
        QualityPreset::Minimum => 0,
        QualityPreset::Low => 1,
        QualityPreset::Medium => 2,
        QualityPreset::High => 3,
        QualityPreset::Ultra => 4,
    }
}

/// The preset of a given rank (ranks are clamped to `0..=4`).
pub open spec fn preset_of_rank(r: int) -> QualityPreset {
    if r <= 0 {
        QualityPreset::Minimum
    } else if r == 1 {
        QualityPreset::Low
    } else if r == 2 {
        QualityPreset::Medium
    } else if r == 3 {
        QualityPreset::High
    } else {
        QualityPreset::Ultra
    }
}

/// Settings derived from the hardware tier alone.
pub open spec fn tier_settings(tier: RenderTier) -> QualitySettings {
    match tier {
        RenderTier::LowGles => QualitySettings {
            preset: QualityPreset::Low,
            shadow_res: 512,
            point_shadow_res: 256,
            shadow_cascades: 1,
            msaa_samples: 1,
            bloom: false,
            bloom_mips: 3,
            ssao: false,
            vignette: false,
            chromatic_aberration: false,
            film_grain: false,
            particle_cap: 1024,
            fxaa: true,
            staa: false,
            ssr: false,
            volumetric_fog: false,
            upscale_mode: UpscaleMode::Nearest,
        },
        RenderTier::Mid => QualitySettings {
            preset: QualityPreset::Medium,
            shadow_res: 1024,
            point_shadow_res: 512,
            shadow_cascades: 3,
            msaa_samples: 4,
            bloom: true,
            bloom_mips: 5,
            ssao: true,
            vignette: true,
            chromatic_aberration: false,
            film_grain: false,
            particle_cap: 8192,
            fxaa: false,
            staa: true,
            ssr: true,
            volumetric_fog: true,
            upscale_mode: UpscaleMode::Nearest,
        },
        RenderTier::High => QualitySettings {
            preset: QualityPreset::High,
            shadow_res: 2048,
            point_shadow_res: 512,
            shadow_cascades: 3,
            msaa_samples: 4,
            bloom: true,
            bloom_mips: 7,
            ssao: true,
            vignette: true,
            chromatic_aberration: true,
            film_grain: true,
            particle_cap: 32768,
            fxaa: false,
            staa: true,
            ssr: true,
            volumetric_fog: true,
            upscale_mode: UpscaleMode::Nearest,
        },
    }
}

/// The accessibility-first settings: every post-processing pass off, one
/// shadow cascade, no MSAA.
pub open spec fn minimum_settings() -> QualitySettings {
    QualitySettings {
        preset: QualityPreset::Minimum,
        shadow_res: 512,
        point_shadow_res: 256,
        shadow_cascades: 1,
        msaa_samples: 1,
        bloom: false,
        bloom_mips: 3,
        ssao: false,
        vignette: false,
        chromatic_aberration: false,
        film_grain: false,
        particle_cap: 512,
        fxaa: false,
        staa: false,
        ssr: false,
        volumetric_fog: false,
        upscale_mode: UpscaleMode::Nearest,
    }
}

/// Settings for a tier with the feature toggles of a preset laid over them.
pub open spec fn preset_settings(tier: RenderTier, preset: QualityPreset) -> QualitySettings {
    let base = tier_settings(tier);
    match preset {
        QualityPreset::Minimum => QualitySettings {
            preset,
            msaa_samples: 1,
            bloom: false,
            ssao: false,
            ssr: false,
            volumetric_fog: false,
            vignette: false,
            chromatic_aberration: false,
            film_grain: false,
            fxaa: false,
            staa: false,
            shadow_cascades: 1,
            upscale_mode: UpscaleMode::Nearest,
            ..base
        },
        QualityPreset::Low => QualitySettings {
            preset,
            msaa_samples: 1,
            bloom: false,
            ssao: false,
            ssr: false,
            volumetric_fog: false,
            fxaa: true,
            staa: false,
            shadow_cascades: 1,
            ..base
        },
        QualityPreset::Medium => QualitySettings {
            preset,
            msaa_samples: if tier == RenderTier::LowGles { 1 } else { 4 },
            ..base
        },
        _ => QualitySettings { preset, ..base },
    }
}

/// Smaller of two counts.
pub open spec fn min_u32(a: u32, b: u32) -> u32 {
    if a <= b {
        a
    } else {
        b
    }
}

/// User settings clamped against a developer ceiling.
pub open spec fn capped_by(q: QualitySettings, dev: DevRenderProfile) -> QualitySettings {
    QualitySettings {
        shadow_cascades: min_u32(if dev.shadows { q.shadow_cascades } else { 0 }, dev.max_shadow_cascades),
        bloom: q.bloom && dev.bloom,
        ssao: q.ssao && dev.ssao,
        ssr: q.ssr && dev.ssr,
        volumetric_fog: q.volumetric_fog && dev.volumetric_fog,
        fxaa: q.fxaa && dev.fxaa,
        staa: q.staa && dev.staa,
        vignette: q.vignette && dev.vignette,
        chromatic_aberration: q.chromatic_aberration && dev.chromatic_aberration,
        film_grain: q.film_grain && dev.film_grain,
        msaa_samples: min_u32(q.msaa_samples, dev.max_msaa),
        particle_cap: min_u32(q.particle_cap, dev.max_particles),
        upscale_mode: match dev.forced_upscale_mode {
            Some(mode) => mode,
            None => q.upscale_mode,
        },
        ..q
    }
}

/// The lightmapped, post-processing-free profile.
pub open spec fn classic_profile() -> DevRenderProfile {
    DevRenderProfile {
        shadows: false,
        bloom: false,
        ssao: false,
        ssr: false,
        volumetric_fog: false,
        fxaa: true,
        staa: true,
        vignette: false,
        chromatic_aberration: false,
        film_grain: false,
        max_shadow_cascades: 1,
        max_msaa: 8,
        max_particles: 8192,
        point_light_shadows: false,
        max_point_lights: 8,
        soft_shadows: false,
        contact_shadows: false,
        forced_upscale_mode: None,
    }
}

/// Shadows and bloom, without SSAO, SSR or fog.
pub open spec fn standard_profile() -> DevRenderProfile {
    DevRenderProfile {
        shadows: true,
        bloom: true,
        ssao: false,
        ssr: false,
        volumetric_fog: false,
        fxaa: true,
        staa: true,
        vignette: true,
        chromatic_aberration: false,
        film_grain: false,
        max_shadow_cascades: 3,
        max_msaa: 8,
        max_particles: 32768,
        point_light_shadows: false,
        max_point_lights: 8,
        soft_shadows: false,
        contact_shadows: false,
        forced_upscale_mode: None,
    }
}

/// Everything on.
pub open spec fn full_profile() -> DevRenderProfile {
    DevRenderProfile {
        shadows: true,
        bloom: true,
        ssao: true,
        ssr: true,
        volumetric_fog: true,
        fxaa: true,
        staa: true,
        vignette: true,
        chromatic_aberration: true,
        film_grain: true,
        max_shadow_cascades: 3,
        max_msaa: 8,
        max_particles: u32::MAX,
        point_light_shadows: true,
        max_point_lights: 256,
        soft_shadows: true,
        contact_shadows: true,
        forced_upscale_mode: None,
    }
}

/// The smaller of two counts.
fn smaller(a: u32, b: u32) -> (m: u32)
    ensures
        m == min_u32(a, b),
{
    if a <= b {
        a
    } else {
        b
    }
}

impl QualitySettings {
    /// Accessibility-first preset: all post-processing off, single shadow
    /// cascade, no MSAA.
    #[must_use]
    pub fn minimum() -> (s: Self)
        ensures
            s == minimum_settings(),
    {
        QualitySettings {
            preset: QualityPreset::Minimum,
            shadow_res: 512,
            point_shadow_res: 256,
            shadow_cascades: 1,
            msaa_samples: 1,
            bloom: false,
            bloom_mips: 3,
            ssao: false,
            vignette: false,
            chromatic_aberration: false,
            film_grain: false,
            particle_cap: 512,
            fxaa: false,
            staa: false,
            ssr: false,
            volumetric_fog: false,
            upscale_mode: UpscaleMode::Nearest,
        }
    }

    /// Everything on, highest fidelity: the settings of the full tier.
    #[must_use]
    pub fn maximum() -> (s: Self)
        ensures
            s == tier_settings(RenderTier::High),
    {
        Self::from_tier(RenderTier::High)
    }

    /// Settings for a tier, with the preset's feature toggles laid over them.
    #[must_use]
    pub fn from_tier_and_preset(tier: RenderTier, preset: QualityPreset) -> (s: Self)
        ensures
            s == preset_settings(tier, preset),
    {
        let mut base = Self::from_tier(tier);
        base.preset = preset;
        match preset {
            QualityPreset::Minimum => {
                base.msaa_samples = 1;
                base.bloom = false;
                base.ssao = false;
                base.ssr = false;
                base.volumetric_fog = false;
                base.vignette = false;
                base.chromatic_aberration = false;
                base.film_grain = false;
                base.fxaa = false;
                base.staa = false;
                base.shadow_cascades = 1;
                base.upscale_mode = UpscaleMode::Nearest;
            },
            QualityPreset::Low => {
                base.msaa_samples = 1;
                base.bloom = false;
                base.ssao = false;
                base.ssr = false;
                base.volumetric_fog = false;
                base.fxaa = true;
                base.staa = false;
                base.shadow_cascades = 1;
            },
            QualityPreset::Medium => {
                base.msaa_samples = match tier {
                    RenderTier::LowGles => 1,
                    _ => 4,
                };
            },
            QualityPreset::High | QualityPreset::Ultra => {},
        }
        base
    }

    /// Default settings for a hardware tier.
    #[must_use]
    pub fn from_tier(tier: RenderTier) -> (s: Self)
        ensures
            s == tier_settings(tier),
    {
        match tier {
            RenderTier::LowGles => QualitySettings {
                preset: QualityPreset::Low,
                shadow_res: 512,
                point_shadow_res: 256,
                shadow_cascades: 1,
                msaa_samples: 1,
                bloom: false,
                bloom_mips: 3,
                ssao: false,
                vignette: false,
                chromatic_aberration: false,
                film_grain: false,
                particle_cap: 1024,
                fxaa: true,
                staa: false,
                ssr: false,
                volumetric_fog: false,
                upscale_mode: UpscaleMode::Nearest,
            },
            RenderTier::Mid => QualitySettings {
                preset: QualityPreset::Medium,
                shadow_res: 1024,
                point_shadow_res: 512,
                shadow_cascades: 3,
                msaa_samples: 4,
                bloom: true,
                bloom_mips: 5,
                ssao: true,
                vignette: true,
                chromatic_aberration: false,
                film_grain: false,
                particle_cap: 8192,
                fxaa: false,
                staa: true,
                ssr: true,
                volumetric_fog: true,
                upscale_mode: UpscaleMode::Nearest,
            },
            RenderTier::High => QualitySettings {
                preset: QualityPreset::High,
                shadow_res: 2048,
                point_shadow_res: 512,
                shadow_cascades: 3,
                msaa_samples: 4,
                bloom: true,
                bloom_mips: 7,
                ssao: true,
                vignette: true,
                chromatic_aberration: true,
                film_grain: true,
                particle_cap: 32768,
                fxaa: false,
                staa: true,
                ssr: true,
                volumetric_fog: true,
                upscale_mode: UpscaleMode::Nearest,
            },
        }
    }

    /// Clamp user settings against a developer ceiling: features the
    /// developer disabled stay off, and MSAA, cascade and particle counts are
    /// capped.
    #[must_use]
    pub fn apply_dev_profile(self, dev: &DevRenderProfile) -> (s: Self)
        ensures
            s == capped_by(self, *dev),
    {
        let cascades = if dev.shadows { self.shadow_cascades } else { 0 };
        QualitySettings {
            shadow_cascades: smaller(cascades, dev.max_shadow_cascades),
            bloom: self.bloom && dev.bloom,
            ssao: self.ssao && dev.ssao,
            ssr: self.ssr && dev.ssr,
            volumetric_fog: self.volumetric_fog && dev.volumetric_fog,
            fxaa: self.fxaa && dev.fxaa,
            staa: self.staa && dev.staa,
            vignette: self.vignette && dev.vignette,
            chromatic_aberration: self.chromatic_aberration && dev.chromatic_aberration,
            film_grain: self.film_grain && dev.film_grain,
            msaa_samples: smaller(self.msaa_samples, dev.max_msaa),
            particle_cap: smaller(self.particle_cap, dev.max_particles),
            upscale_mode: match dev.forced_upscale_mode {
                Some(mode) => mode,
                None => self.upscale_mode,
            },
            ..self
        }
    }
}

impl Default for AutoQuality {
    /// Disabled, free to range over every preset.
    fn default() -> (a: Self)
        ensures
            a == (AutoQuality { enabled: false, min: QualityPreset::Minimum, max: QualityPreset::Ultra }),
    {
        AutoQuality { enabled: false, min: QualityPreset::Minimum, max: QualityPreset::Ultra }
    }
}

impl Default for DevRenderProfile {
    /// The cheapest starting point: the classic profile.
    fn default() -> (d: Self)
        ensures
            d == classic_profile(),
    {
        Self::classic()
    }
}

impl DevRenderProfile {
    /// Lightmapped game with no post-processing: no runtime shadows, bloom,
    /// SSAO, SSR or fog; users can still scale resolution and MSAA.
    #[must_use]
    pub fn classic() -> (d: Self)
        ensures
            d == classic_profile(),
    {
        DevRenderProfile {
            shadows: false,
            bloom: false,
            ssao: false,
            ssr: false,
            volumetric_fog: false,
            fxaa: true,
            staa: true,
            vignette: false,
            chromatic_aberration: false,
            film_grain: false,
            max_shadow_cascades: 1,
            max_msaa: 8,
            max_particles: 8192,
            point_light_shadows: false,
            max_point_lights: 8,
            soft_shadows: false,
            contact_shadows: false,
            forced_upscale_mode: None,
        }
    }

    /// Shadows and bloom, no SSAO, SSR or fog.
    #[must_use]
    pub fn standard() -> (d: Self)
        ensures
            d == standard_profile(),
    {
        DevRenderProfile {
            shadows: true,
            bloom: true,
            ssao: false,
            ssr: false,
            volumetric_fog: false,
            fxaa: true,
            staa: true,
            vignette: true,
            chromatic_aberration: false,
            film_grain: false,
            max_shadow_cascades: 3,
            max_msaa: 8,
            max_particles: 32768,
            point_light_shadows: false,
            max_point_lights: 8,
            soft_shadows: false,
            contact_shadows: false,
            forced_upscale_mode: None,
        }
    }

    /// Everything on: the full modern pipeline as the ceiling.
    #[must_use]
    pub fn full() -> (d: Self)
        ensures
            d == full_profile(),
    {
        DevRenderProfile {
            shadows: true,
            bloom: true,
            ssao: true,
            ssr: true,
            volumetric_fog: true,
            fxaa: true,
            staa: true,
            vignette: true,
            chromatic_aberration: true,
            film_grain: true,
            max_shadow_cascades: 3,
            max_msaa: 8,
            max_particles: u32::MAX,
            point_light_shadows: true,
            max_point_lights: 256,
            soft_shadows: true,
            contact_shadows: true,
            forced_upscale_mode: None,
        }
    }

    #[must_use]
    pub fn with_point_light_shadows(self, enabled: bool) -> (d: Self)
        ensures
            d == (DevRenderProfile { point_light_shadows: enabled, ..self }),
    {
        DevRenderProfile { point_light_shadows: enabled, ..self }
    }

    #[must_use]
    pub fn with_max_point_lights(self, count: u32) -> (d: Self)
        ensures
            d == (DevRenderProfile { max_point_lights: count, ..self }),
    {
        DevRenderProfile { max_point_lights: count, ..self }
    }

    #[must_use]
    pub fn with_soft_shadows(self, enabled: bool) -> (d: Self)
        ensures
            d == (DevRenderProfile { soft_shadows: enabled, ..self }),
    {
        DevRenderProfile { soft_shadows: enabled, ..self }
    }

    #[must_use]
    pub fn with_contact_shadows(self, enabled: bool) -> (d: Self)
        ensures
            d == (DevRenderProfile { contact_shadows: enabled, ..self }),
    {
        DevRenderProfile { contact_shadows: enabled, ..self }
    }

    #[must_use]
    pub fn with_shadows(self, enabled: bool) -> (d: Self)
        ensures
            d == (DevRenderProfile { shadows: enabled, ..self }),
    {
        DevRenderProfile { shadows: enabled, ..self }
    }

    #[must_use]
    pub fn with_bloom(self, enabled: bool) -> (d: Self)
        ensures
            d == (DevRenderProfile { bloom: enabled, ..self }),
    {
        DevRenderProfile { bloom: enabled, ..self }
    }

    #[must_use]
    pub fn with_ssao(self, enabled: bool) -> (d: Self)
        ensures
            d == (DevRenderProfile { ssao: enabled, ..self }),
    {
        DevRenderProfile { ssao: enabled, ..self }
    }

    #[must_use]
    pub fn with_ssr(self, enabled: bool) -> (d: Self)
        ensures
            d == (DevRenderProfile { ssr: enabled, ..self }),
    {
        DevRenderProfile { ssr: enabled, ..self }
    }

    #[must_use]
    pub fn with_volumetric_fog(self, enabled: bool) -> (d: Self)
        ensures
            d == (DevRenderProfile { volumetric_fog: enabled, ..self }),
    {
        DevRenderProfile { volumetric_fog: enabled, ..self }
    }

    #[must_use]
    pub fn with_fxaa(self, enabled: bool) -> (d: Self)
        ensures
            d == (DevRenderProfile { fxaa: enabled, ..self }),
    {
        DevRenderProfile { fxaa: enabled, ..self }
    }

    #[must_use]
    pub fn with_staa(self, enabled: bool) -> (d: Self)
        ensures
            d == (DevRenderProfile { staa: enabled, ..self }),
    {
        DevRenderProfile { staa: enabled, ..self }
    }

    #[must_use]
    pub fn with_vignette(self, enabled: bool) -> (d: Self)
        ensures
            d == (DevRenderProfile { vignette: enabled, ..self }),
    {
        DevRenderProfile { vignette: enabled, ..self }
    }

    #[must_use]
    pub fn with_chromatic_aberration(self, enabled: bool) -> (d: Self)
        ensures
            d == (DevRenderProfile { chromatic_aberration: enabled, ..self }),
    {
        DevRenderProfile { chromatic_aberration: enabled, ..self }
    }

    #[must_use]
    pub fn with_film_grain(self, enabled: bool) -> (d: Self)
        ensures
            d == (DevRenderProfile { film_grain: enabled, ..self }),
    {
        DevRenderProfile { film_grain: enabled, ..self }
    }

    #[must_use]
    pub fn with_max_shadow_cascades(self, count: u32) -> (d: Self)
        ensures
            d == (DevRenderProfile { max_shadow_cascades: count, ..self }),
    {
        DevRenderProfile { max_shadow_cascades: count, ..self }
    }

    #[must_use]
    pub fn with_max_msaa(self, samples: u32) -> (d: Self)
        ensures
            d == (DevRenderProfile { max_msaa: samples, ..self }),
    {
        DevRenderProfile { max_msaa: samples, ..self }
    }

    #[must_use]
    pub fn with_max_particles(self, cap: u32) -> (d: Self)
        ensures
            d == (DevRenderProfile { max_particles: cap, ..self }),
    {
        DevRenderProfile { max_particles: cap, ..self }
    }
}

/// Rank of a preset, from `Minimum` (0) to `Ultra` (4).
pub fn preset_ord(p: QualityPreset) -> (r: u8)
    ensures
        r == preset_rank(p),
{
    match p {
        QualityPreset::Minimum => 0,
        QualityPreset::Low => 1,
        QualityPreset::Medium => 2,
        QualityPreset::High => 3,
        QualityPreset::Ultra => 4,
    }
}

/// The preset one level below `current`, but not below `min`.
pub open spec fn stepped_down(current: QualityPreset, min: QualityPreset) -> QualityPreset {
    if preset_rank(current) - 1 < preset_rank(min) {
        min
    } else {
        preset_of_rank(preset_rank(current) - 1)
    }
}

/// The preset one level above `current`, but not above `max`.
pub open spec fn stepped_up(current: QualityPreset, max: QualityPreset) -> QualityPreset {
    if preset_rank(current) + 1 > preset_rank(max) {
        max
    } else {
        preset_of_rank(preset_rank(current) + 1)
    }
}

/// Step a quality preset down by one level, respecting `min`.
pub fn preset_step_down(current: QualityPreset, min: QualityPreset) -> (p: QualityPreset)
    ensures
        p == stepped_down(current, min),
        preset_rank(p) >= preset_rank(min),
{
    let next = match current {
        QualityPreset::Ultra => QualityPreset::High,
        QualityPreset::High => QualityPreset::Medium,
        QualityPreset::Medium => QualityPreset::Low,
        QualityPreset::Low => QualityPreset::Minimum,
        QualityPreset::Minimum => QualityPreset::Minimum,
    };
    if preset_ord(next) < preset_ord(min) {
        min
    } else {
        next
    }
}

/// Step a quality preset up by one level, respecting `max`.
pub fn preset_step_up(current: QualityPreset, max: QualityPreset) -> (p: QualityPreset)
    ensures
        p == stepped_up(current, max),
        preset_rank(p) <= preset_rank(max),
{
    let next = match current {
        QualityPreset::Minimum => QualityPreset::Low,
        QualityPreset::Low => QualityPreset::Medium,
        QualityPreset::Medium => QualityPreset::High,
        QualityPreset::High => QualityPreset::Ultra,
        QualityPreset::Ultra => QualityPreset::Ultra,
    };
    if preset_ord(next) > preset_ord(max) {
        max
    } else {
        next
    }
}

/// Clamping against a developer profile is idempotent: clamping twice
/// gives what clamping once gave.
pub proof fn lemma_dev_profile_idempotent(q: QualitySettings, dev: DevRenderProfile)
    ensures
        capped_by(capped_by(q, dev), dev) == capped_by(q, dev),
{
}

/// The developer profile is a ceiling: clamped settings never turn on a
/// feature that the profile or the user left off, and never exceed the
/// profile's MSAA, cascade and particle limits nor the user's own counts.
pub proof fn lemma_dev_profile_is_ceiling(q: QualitySettings, dev: DevRenderProfile)
    ensures
        capped_by(q, dev).bloom ==> q.bloom && dev.bloom,
        capped_by(q, dev).ssao ==> q.ssao && dev.ssao,
        capped_by(q, dev).ssr ==> q.ssr && dev.ssr,
        capped_by(q, dev).volumetric_fog ==> q.volumetric_fog && dev.volumetric_fog,
        capped_by(q, dev).fxaa ==> q.fxaa && dev.fxaa,
        capped_by(q, dev).staa ==> q.staa && dev.staa,
        capped_by(q, dev).vignette ==> q.vignette && dev.vignette,
        capped_by(q, dev).chromatic_aberration ==> q.chromatic_aberration && dev.chromatic_aberration,
        capped_by(q, dev).film_grain ==> q.film_grain && dev.film_grain,
        capped_by(q, dev).msaa_samples <= q.msaa_samples,
        capped_by(q, dev).msaa_samples <= dev.max_msaa,
        capped_by(q, dev).shadow_cascades <= q.shadow_cascades,
        capped_by(q, dev).shadow_cascades <= dev.max_shadow_cascades,
        !dev.shadows ==> capped_by(q, dev).shadow_cascades == 0,
        capped_by(q, dev).particle_cap <= q.particle_cap,
        capped_by(q, dev).particle_cap <= dev.max_particles,
{
}

/// A higher preset never gives less on the same tier: at least as many MSAA
/// samples and shadow cascades, and every one of bloom, SSAO, SSR,
/// volumetric fog and temporal AA that a lower preset turns on.  The
/// Minimum and Low presets turn MSAA off on every tier.
pub proof fn lemma_presets_scale_up(tier: RenderTier, p1: QualityPreset, p2: QualityPreset)
    requires
        preset_rank(p1) <= preset_rank(p2),
    ensures
        preset_settings(tier, p1).msaa_samples <= preset_settings(tier, p2).msaa_samples,
        preset_settings(tier, p1).shadow_cascades <= preset_settings(tier, p2).shadow_cascades,
        preset_settings(tier, p1).bloom ==> preset_settings(tier, p2).bloom,
        preset_settings(tier, p1).ssao ==> preset_settings(tier, p2).ssao,
        preset_settings(tier, p1).ssr ==> preset_settings(tier, p2).ssr,
        preset_settings(tier, p1).volumetric_fog ==> preset_settings(tier, p2).volumetric_fog,
        preset_settings(tier, p1).staa ==> preset_settings(tier, p2).staa,
        preset_rank(p1) <= 1 ==> preset_settings(tier, p1).msaa_samples == 1,
{
}

} // verus!
