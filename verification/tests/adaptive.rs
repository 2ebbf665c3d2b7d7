use lunar_render::adaptive::{auto_quality_step, BudgetBand, BudgetCounters, OVER_THRESHOLD, UNDER_THRESHOLD};
use lunar_render::quality::{AutoQuality, QualityPreset};

fn enabled(min: QualityPreset, max: QualityPreset) -> AutoQuality {
    AutoQuality { enabled: true, min, max }
}

#[test]
fn counters_track_runs() {
    let mut c = BudgetCounters::new();
    c.record(BudgetBand::Over);
    c.record(BudgetBand::Over);
    assert_eq!((c.over_frames, c.under_frames), (2, 0));
    c.record(BudgetBand::Under);
    assert_eq!((c.over_frames, c.under_frames), (0, 1));
    c.record(BudgetBand::Within);
    assert_eq!((c.over_frames, c.under_frames), (0, 0));
}

#[test]
fn steps_down_after_three_seconds_over_budget() {
    let auto = enabled(QualityPreset::Minimum, QualityPreset::Ultra);
    let mut c = BudgetCounters { over_frames: OVER_THRESHOLD - 1, under_frames: 0 };
    assert_eq!(auto_quality_step(&auto, QualityPreset::High, &mut c), None);
    assert_eq!(c.over_frames, OVER_THRESHOLD - 1);
    c.record(BudgetBand::Over);
    assert_eq!(auto_quality_step(&auto, QualityPreset::High, &mut c), Some(QualityPreset::Medium));
    assert_eq!(c.over_frames, 0);
}

#[test]
fn steps_up_after_ten_seconds_under_budget() {
    let auto = enabled(QualityPreset::Minimum, QualityPreset::High);
    let mut c = BudgetCounters { over_frames: 0, under_frames: UNDER_THRESHOLD };
    assert_eq!(auto_quality_step(&auto, QualityPreset::Medium, &mut c), Some(QualityPreset::High));
    assert_eq!(c.under_frames, 0);
    let mut c = BudgetCounters { over_frames: 0, under_frames: UNDER_THRESHOLD };
    assert_eq!(auto_quality_step(&auto, QualityPreset::High, &mut c), None);
    assert_eq!(c.under_frames, UNDER_THRESHOLD);
}

#[test]
fn respects_floor_and_disabled() {
    let auto = enabled(QualityPreset::Low, QualityPreset::Ultra);
    let mut c = BudgetCounters { over_frames: 1000, under_frames: 0 };
    assert_eq!(auto_quality_step(&auto, QualityPreset::Low, &mut c), None);
    let off = AutoQuality::default();
    let mut c = BudgetCounters { over_frames: 1000, under_frames: 1000 };
    assert_eq!(auto_quality_step(&off, QualityPreset::High, &mut c), None);
    assert_eq!((c.over_frames, c.under_frames), (1000, 1000));
}
