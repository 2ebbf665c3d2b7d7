//! Per-frame feature gates: what the developer profile and the user's quality
//! settings together switch on for one frame, and what follows from that for
//! the post-processing chain.
//!
//! Every gate is the developer ceiling AND the user setting (and, where it
//! applies, what the hardware or the allocated resources allow).  A missing
//! developer profile allows everything; missing quality settings leave the
//! user-controlled toggles off.
use vstd::prelude::*;
use crate::quality::{DevRenderProfile, QualitySettings, UpscaleMode};

verus! {

/// Upper bound on point lights in the clustered forward path.
pub const MAX_CLUSTERED_LIGHTS: usize = 256;

/// The gates resolved for one frame.
#[derive(Debug, Clone, Copy, PartialEq, Eq, Structural)]
pub struct FrameFeatures {
    /// Sub-pixel projection jitter for temporal AA.
    pub staa_jitter: bool,
    pub bloom: bool,
    pub ssao: bool,
    pub ssr: bool,
    pub fog: bool,
    pub fxaa: bool,
    pub staa: bool,
    pub vignette: bool,
    pub chromatic_aberration: bool,
    pub film_grain: bool,
    pub point_light_shadows: bool,
    /// How many point lights the frame keeps (the closest ones).
    pub max_point_lights: usize,
    pub soft_shadows: bool,
    pub contact_shadows: bool,
    pub upscale_mode: UpscaleMode,
}

/// The anti-aliasing pass that ends the post-processing chain.
#[derive(Debug, Clone, Copy, PartialEq, Eq, Structural)]
pub enum FinalAa {
    /// Selective temporal AA.
    Staa,
    /// Fast approximate AA.
    Fxaa,
    /// Composite straight to the output.
    Present,
}

/// A developer switch: allowed when there is no profile.
pub open spec fn dev_allows(dev: Option<DevRenderProfile>, pick: spec_fn(DevRenderProfile) -> bool) -> bool {
    match dev {
        Some(d) => pick(d),
        None => true,
    }
}

/// A user switch: off when there are no settings.
pub open spec fn user_wants(q: Option<QualitySettings>, pick: spec_fn(QualitySettings) -> bool) -> bool {
    match q {
        Some(s) => pick(s),
        None => false,
    }
}

/// The gates for a frame.
pub open spec fn resolved_features(dev: Option<DevRenderProfile>, q: Option<QualitySettings>, staa_supported: bool) -> FrameFeatures {
    let staa = dev_allows(dev, |d: DevRenderProfile| d.staa) && user_wants(q, |s: QualitySettings| s.staa);
    FrameFeatures {
        staa_jitter: staa && staa_supported,
        bloom: dev_allows(dev, |d: DevRenderProfile| d.bloom),
        ssao: dev_allows(dev, |d: DevRenderProfile| d.ssao),
        ssr: dev_allows(dev, |d: DevRenderProfile| d.ssr) && user_wants(q, |s: QualitySettings| s.ssr),
        fog: dev_allows(dev, |d: DevRenderProfile| d.volumetric_fog),
        fxaa: dev_allows(dev, |d: DevRenderProfile| d.fxaa) && user_wants(q, |s: QualitySettings| s.fxaa),
        staa,
        vignette: dev_allows(dev, |d: DevRenderProfile| d.vignette),
        chromatic_aberration: dev_allows(dev, |d: DevRenderProfile| d.chromatic_aberration),
        film_grain: dev_allows(dev, |d: DevRenderProfile| d.film_grain),
        point_light_shadows: dev_allows(dev, |d: DevRenderProfile| d.point_light_shadows),
        max_point_lights: match dev {
            Some(d) => if d.max_point_lights < MAX_CLUSTERED_LIGHTS { d.max_point_lights as usize } else { MAX_CLUSTERED_LIGHTS },
            None => MAX_CLUSTERED_LIGHTS,
        },
        soft_shadows: match dev {
            Some(d) => d.soft_shadows,
            None => false,
        },
        contact_shadows: match dev {
            Some(d) => d.contact_shadows,
            None => false,
        },
        upscale_mode: match dev {
            Some(d) => match d.forced_upscale_mode {
                Some(m) => m,
                None => match q {
                    Some(s) => s.upscale_mode,
                    None => UpscaleMode::Lanczos,
                },
            },
            None => match q {
                Some(s) => s.upscale_mode,
                None => UpscaleMode::Lanczos,
            },
        },
    }
}

/// Resolve the gates for a frame from the developer profile, the user's
/// quality settings and whether the hardware supports temporal AA.  A forced
/// upscale mode of the profile wins over the user's; without either,
/// Lanczos is used.
pub fn resolve_frame_features(dev: Option<DevRenderProfile>, quality: Option<QualitySettings>, staa_supported: bool) -> (f: FrameFeatures)
    ensures
        f == resolved_features(dev, quality, staa_supported),
{
    let (d_bloom, d_ssao, d_ssr, d_fog, d_fxaa, d_staa, d_vignette, d_chrom, d_grain, d_point) = match dev {
        Some(d) => (d.bloom, d.ssao, d.ssr, d.volumetric_fog, d.fxaa, d.staa, d.vignette, d.chromatic_aberration, d.film_grain, d.point_light_shadows),
        None => (true, true, true, true, true, true, true, true, true, true),
    };
    let (q_ssr, q_fxaa, q_staa) = match quality {
        Some(q) => (q.ssr, q.fxaa, q.staa),
        None => (false, false, false),
    };
    let max_point_lights: usize = match dev {
        Some(d) => if d.max_point_lights < 256 { d.max_point_lights as usize } else { MAX_CLUSTERED_LIGHTS },
        None => MAX_CLUSTERED_LIGHTS,
    };
    let (soft, contact) = match dev {
        Some(d) => (d.soft_shadows, d.contact_shadows),
        None => (false, false),
    };
    let forced = match dev {
        Some(d) => d.forced_upscale_mode,
        None => None,
    };
    let upscale_mode = match forced {
        Some(m) => m,
        None => match quality {
            Some(q) => q.upscale_mode,
            None => UpscaleMode::Lanczos,
        },
    };
    let staa = d_staa && q_staa;
    FrameFeatures {
        staa_jitter: staa && staa_supported,
        bloom: d_bloom,
        ssao: d_ssao,
        ssr: d_ssr && q_ssr,
        fog: d_fog,
        fxaa: d_fxaa && q_fxaa,
        staa,
        vignette: d_vignette,
        chromatic_aberration: d_chrom,
        film_grain: d_grain,
        point_light_shadows: d_point,
        max_point_lights,
        soft_shadows: soft,
        contact_shadows: contact,
        upscale_mode,
    }
}

/// The final anti-aliasing pass: temporal AA wins over FXAA.
pub fn final_aa(f: &FrameFeatures) -> (aa: FinalAa)
    ensures
        aa == (if f.staa { FinalAa::Staa } else if f.fxaa { FinalAa::Fxaa } else { FinalAa::Present }),
{
    if f.staa {
        FinalAa::Staa
    } else if f.fxaa {
        FinalAa::Fxaa
    } else {
        FinalAa::Present
    }
}

/// The value of a flag bit: `bit` when `on`, else 0.
pub open spec fn flag(on: bool, bit: u32) -> u32 {
    if on {
        bit
    } else {
        0
    }
}

/// `bit` when `on`, else 0.
fn flag_value(on: bool, bit: u32) -> (v: u32)
    ensures
        v == flag(on, bit),
        v <= bit,
{
    if on {
        bit
    } else {
        0
    }
}

/// The bit flags the composite pass reads: bloom (1), vignette (2),
/// chromatic aberration (4), film grain (8), ambient occlusion (16),
/// reflections (32), fog (64) and contact shadows (128).  Without quality
/// settings only bloom and contact shadows can be set.
pub open spec fn composite_flag_bits(
    f: FrameFeatures,
    q: Option<QualitySettings>,
    bloom_ready: bool,
    ssao_ready: bool,
    fog_ready: bool,
    contact_ready: bool,
) -> int {
    match q {
        Some(s) => (flag(bloom_ready && f.bloom && s.bloom, 1) + flag(f.vignette && s.vignette, 2)
            + flag(f.chromatic_aberration && s.chromatic_aberration, 4) + flag(f.film_grain && s.film_grain, 8)
            + flag(ssao_ready && f.ssao && s.ssao, 16) + flag(f.ssr, 32)
            + flag(fog_ready && f.fog && s.volumetric_fog, 64) + flag(f.contact_shadows && contact_ready, 128)),
        None => flag(bloom_ready && f.bloom, 1) + flag(f.contact_shadows && contact_ready, 128),
    }
}

/// Flags for the composite pass when the user's settings are known.
fn flags_with_settings(f: &FrameFeatures, q: &QualitySettings, bloom_ready: bool, ssao_ready: bool, fog_ready: bool, contact: u32) -> (bits: u32)
    requires
        contact <= 128,
    ensures
        bits == flag(bloom_ready && f.bloom && q.bloom, 1) + flag(f.vignette && q.vignette, 2)
            + flag(f.chromatic_aberration && q.chromatic_aberration, 4) + flag(f.film_grain && q.film_grain, 8)
            + flag(ssao_ready && f.ssao && q.ssao, 16) + flag(f.ssr, 32)
            + flag(fog_ready && f.fog && q.volumetric_fog, 64) + contact,
        bits < 256,
{
    let b0 = flag_value(bloom_ready && f.bloom && q.bloom, 1);
    let b1 = flag_value(f.vignette && q.vignette, 2);
    let b2 = flag_value(f.chromatic_aberration && q.chromatic_aberration, 4);
    let b3 = flag_value(f.film_grain && q.film_grain, 8);
    let b4 = flag_value(ssao_ready && f.ssao && q.ssao, 16);
    let b5 = flag_value(f.ssr, 32);
    let b6 = flag_value(fog_ready && f.fog && q.volumetric_fog, 64);
    b0 + b1 + b2 + b3 + b4 + b5 + b6 + contact
}

/// Flags for the composite pass, given the frame's gates, the user's
/// settings and which optional effect resources exist.
pub fn composite_flags(
    f: &FrameFeatures,
    quality: Option<QualitySettings>,
    bloom_ready: bool,
    ssao_ready: bool,
    fog_ready: bool,
    contact_ready: bool,
) -> (bits: u32)
    ensures
        bits == composite_flag_bits(*f, quality, bloom_ready, ssao_ready, fog_ready, contact_ready),
        bits < 256,
{
    let contact = flag_value(f.contact_shadows && contact_ready, 128);
    match quality {
        Some(q) => flags_with_settings(f, &q, bloom_ready, ssao_ready, fog_ready, contact),
        None => flag_value(bloom_ready && f.bloom, 1) + contact,
    }
}

/// An MSAA sample count the depth format supports: 4 stays 4, anything
/// else becomes 1.
pub fn supported_msaa(samples: u32) -> (s: u32)
    ensures
        s == (if samples == 4 { 4u32 } else { 1u32 }),
{
    if samples == 4 {
        4
    } else {
        1
    }
}

/// The MSAA sample count for the next frame: the user's count, clamped to
/// `1..=8` and then to a supported count, when it differs from the current
/// one; the current count when there are no settings or nothing changed.
pub fn next_msaa(quality: Option<QualitySettings>, current: u32) -> (s: u32)
    ensures
        s == (match quality {
            Some(q) => {
                let desired = if q.msaa_samples < 1 { 1u32 } else if q.msaa_samples > 8 { 8u32 } else { q.msaa_samples };
                if desired == current { current } else if desired == 4 { 4u32 } else { 1u32 }
            },
            None => current,
        }),
{
    match quality {
        Some(q) => {
            let desired = if q.msaa_samples < 1 {
                1
            } else if q.msaa_samples > 8 {
                8
            } else {
                q.msaa_samples
            };
            if desired == current {
                current
            } else {
                supported_msaa(desired)
            }
        },
        None => current,
    }
}

/// A developer profile that switches a feature off keeps it off for the
/// frame, whatever the user's settings say.
pub proof fn lemma_dev_off_stays_off(d: DevRenderProfile, q: Option<QualitySettings>, staa_supported: bool)
    ensures
        !d.bloom ==> !resolved_features(Some(d), q, staa_supported).bloom,
        !d.ssao ==> !resolved_features(Some(d), q, staa_supported).ssao,
        !d.ssr ==> !resolved_features(Some(d), q, staa_supported).ssr,
        !d.volumetric_fog ==> !resolved_features(Some(d), q, staa_supported).fog,
        !d.fxaa ==> !resolved_features(Some(d), q, staa_supported).fxaa,
        !d.staa ==> !resolved_features(Some(d), q, staa_supported).staa
            && !resolved_features(Some(d), q, staa_supported).staa_jitter,
        resolved_features(Some(d), q, staa_supported).max_point_lights <= d.max_point_lights,
{
}

/// The developer profile's forced upscale mode is the frame's upscale mode,
/// whatever the user's settings say; without a forced mode the user's
/// choice applies, and without either, Lanczos.
pub proof fn lemma_forced_upscale_wins(dev: Option<DevRenderProfile>, q: Option<QualitySettings>, staa_supported: bool)
    ensures
        (dev matches Some(d) && d.forced_upscale_mode is Some) ==> resolved_features(dev, q, staa_supported).upscale_mode
            == dev->Some_0.forced_upscale_mode->Some_0,
        !(dev matches Some(d) && d.forced_upscale_mode is Some) && q is Some ==> resolved_features(dev, q, staa_supported).upscale_mode
            == q->Some_0.upscale_mode,
        !(dev matches Some(d) && d.forced_upscale_mode is Some) && q is None ==> resolved_features(dev, q, staa_supported).upscale_mode
            == UpscaleMode::Lanczos,
{
}

} // verus!
