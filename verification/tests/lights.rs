use lunar_render::lights::{point_shadow_slots, NO_SHADOW};

#[test]
fn first_four_casters_get_shadow_maps() {
    let casts = vec![true, false, true, true, true, true, false];
    assert_eq!(point_shadow_slots(&casts, true), vec![0, NO_SHADOW, 1, 2, 3, NO_SHADOW, NO_SHADOW]);
}

#[test]
fn shadows_off_gives_no_slots() {
    let casts = vec![true, true];
    assert_eq!(point_shadow_slots(&casts, false), vec![NO_SHADOW, NO_SHADOW]);
    assert!(point_shadow_slots(&Vec::new(), true).is_empty());
}
