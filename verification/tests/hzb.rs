use lunar_render::hzb::{hzb_dispatches, hzb_mip_count, mip_level_extent, workgroups};

#[test]
fn hzb_mip_count_covers_larger_axis() {
    assert_eq!(hzb_mip_count(1920, 1080), 11);
    assert_eq!(hzb_mip_count(1080, 1920), 11);
    assert_eq!(hzb_mip_count(1024, 1024), 11);
    assert_eq!(hzb_mip_count(1023, 1), 10);
    assert_eq!(hzb_mip_count(1, 1), 1);
    assert_eq!(hzb_mip_count(0, 0), 1);
    assert_eq!(hzb_mip_count(2, 0), 2);
}

#[test]
fn hzb_workgroups_round_up() {
    assert_eq!(workgroups(0), 0);
    assert_eq!(workgroups(1), 1);
    assert_eq!(workgroups(8), 1);
    assert_eq!(workgroups(9), 2);
    assert_eq!(workgroups(1080), 135);
}

#[test]
fn hzb_mip_extent_never_below_one() {
    assert_eq!(mip_level_extent(1920, 0), 1920);
    assert_eq!(mip_level_extent(1920, 3), 240);
    assert_eq!(mip_level_extent(1080, 11), 1);
    assert_eq!(mip_level_extent(0, 0), 1);
}

#[test]
fn hzb_dispatches_for_full_hd() {
    let n = hzb_mip_count(1920, 1080);
    let d = hzb_dispatches(1920, 1080, n);
    assert_eq!(d.len(), 11);
    assert_eq!(d[0], (240, 135));
    assert_eq!(d[1], (120, 68));
    assert_eq!(d[2], (60, 34));
    assert_eq!(d[10], (1, 1));
}

#[test]
fn hzb_dispatches_without_mips_keep_the_copy() {
    assert_eq!(hzb_dispatches(64, 32, 0), vec![(8, 4)]);
    assert_eq!(hzb_dispatches(64, 32, 1), vec![(8, 4)]);
}
