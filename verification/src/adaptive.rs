//! Adaptive quality: counting frames over and under the frame-time budget and
//! stepping the quality preset after a sustained run.
//!
//! The host measures each frame, smooths the measurement and classifies the
//! average against the budget; the counters here and the stepping decision
//! take it from there.  Three seconds over budget (180 frames at 60 fps) step
//! the preset down; ten seconds under budget (600 frames) step it up.
use vstd::prelude::*;
use crate::quality::{
    preset_ord, preset_rank, preset_step_down, preset_step_up, stepped_down, stepped_up, AutoQuality,
    QualityPreset,
};

verus! {

/// Frames over budget after which the preset steps down.
pub const OVER_THRESHOLD: u32 = 180;

/// Frames under budget after which the preset steps up.
pub const UNDER_THRESHOLD: u32 = 600;

/// Where the smoothed frame time stands against the budget.
#[derive(Debug, Clone, Copy, PartialEq, Eq, Structural)]
pub enum BudgetBand {
    /// Above 95% of the budget.
    Over,
    /// Below 80% of the budget.
    Under,
    /// In between.
    Within,
}

/// Consecutive frames spent over and under the budget.
#[derive(Debug, Clone, Copy, PartialEq, Eq, Structural)]
pub struct BudgetCounters {
    pub over_frames: u32,
    pub under_frames: u32,
}

impl BudgetCounters {
    /// No frame counted yet.
    pub fn new() -> (c: Self)
        ensures
            c.over_frames == 0,
            c.under_frames == 0,
    {
        BudgetCounters { over_frames: 0, under_frames: 0 }
    }

    /// Count one frame: a frame over budget extends the run over it and ends
    /// the run under it, and the reverse; a frame within ends both runs.
    pub fn record(&mut self, band: BudgetBand)
        requires
            band == BudgetBand::Over ==> old(self).over_frames < u32::MAX,
            band == BudgetBand::Under ==> old(self).under_frames < u32::MAX,
        ensures
            final(self).over_frames == (if band == BudgetBand::Over { old(self).over_frames + 1 } else { 0 }),
            final(self).under_frames == (if band == BudgetBand::Under { old(self).under_frames + 1 } else { 0 }),
    {
        match band {
            BudgetBand::Over => {
                self.over_frames = self.over_frames + 1;
                self.under_frames = 0;
            },
            BudgetBand::Under => {
                self.under_frames = self.under_frames + 1;
                self.over_frames = 0;
            },
            BudgetBand::Within => {
                self.over_frames = 0;
                self.under_frames = 0;
            },
        }
    }
}

/// The preset that adaptive quality moves to, if any: down after a sustained
/// run over budget while above the floor, else up after a sustained run under
/// budget while below the ceiling.
pub open spec fn auto_step(auto: AutoQuality, current: QualityPreset, c: BudgetCounters) -> Option<QualityPreset> {
    if !auto.enabled {
        None
    } else if c.over_frames >= OVER_THRESHOLD && preset_rank(current) > preset_rank(auto.min) {
        Some(stepped_down(current, auto.min))
    } else if c.under_frames >= UNDER_THRESHOLD && preset_rank(current) < preset_rank(auto.max) {
        Some(stepped_up(current, auto.max))
    } else {
        None
    }
}

/// Decide whether adaptive quality steps the preset this frame.  A step down
/// restarts the run over budget; a step up restarts the run under budget.
pub fn auto_quality_step(auto: &AutoQuality, current: QualityPreset, counters: &mut BudgetCounters) -> (next: Option<
    QualityPreset,
>)
    ensures
        next == auto_step(*auto, current, *old(counters)),
        final(counters).over_frames == (if next.is_some() && old(counters).over_frames >= OVER_THRESHOLD
            && preset_rank(current) > preset_rank(auto.min) { 0 } else { old(counters).over_frames }),
        final(counters).under_frames == (if next.is_some() && !(old(counters).over_frames >= OVER_THRESHOLD
            && preset_rank(current) > preset_rank(auto.min)) { 0 } else { old(counters).under_frames }),
{
    if !auto.enabled {
        return None;
    }
    if counters.over_frames >= OVER_THRESHOLD && preset_ord(current) > preset_ord(auto.min) {
        let next = preset_step_down(current, auto.min);
        counters.over_frames = 0;
        Some(next)
    } else if counters.under_frames >= UNDER_THRESHOLD && preset_ord(current) < preset_ord(auto.max) {
        let next = preset_step_up(current, auto.max);
        counters.under_frames = 0;
        Some(next)
    } else {
        None
    }
}

/// A step chosen by adaptive quality moves one level, toward the budget, and
/// stays within the configured range when the current preset is in it.
pub proof fn lemma_auto_step_one_level(auto: AutoQuality, current: QualityPreset, c: BudgetCounters)
    requires
        preset_rank(auto.min) <= preset_rank(current) <= preset_rank(auto.max),
    ensures
        auto_step(auto, current, c) matches Some(p) ==> {
            &&& preset_rank(auto.min) <= preset_rank(p) <= preset_rank(auto.max)
            &&& (preset_rank(p) == preset_rank(current) - 1 && c.over_frames >= OVER_THRESHOLD)
                || (preset_rank(p) == preset_rank(current) + 1 && c.under_frames >= UNDER_THRESHOLD)
        },
{
}

/// Stepping down from above the floor and then up again (with the ceiling
/// not below the start) returns to the starting preset.
pub proof fn lemma_step_down_then_up(current: QualityPreset, min: QualityPreset, max: QualityPreset)
    requires
        preset_rank(min) < preset_rank(current) <= preset_rank(max),
    ensures
        stepped_up(stepped_down(current, min), max) == current,
{
}

} // verus!
