use lunar_render::draw_list::{gpu_lod_mesh, lightmap_ids, NO_LIGHTMAP};

#[test]
fn gpu_lod_selects_levels() {
    let levels = vec![11, 12, 13];
    assert_eq!(gpu_lod_mesh(0, Some(&levels), 10), 10);
    assert_eq!(gpu_lod_mesh(1, Some(&levels), 10), 11);
    assert_eq!(gpu_lod_mesh(3, Some(&levels), 10), 13);
    assert_eq!(gpu_lod_mesh(4, Some(&levels), 10), 10);
    assert_eq!(gpu_lod_mesh(2, None, 10), 10);
}

#[test]
fn lightmap_binding() {
    assert_eq!(lightmap_ids(Some(5), Some(6), Some(7)), (5, 7));
    assert_eq!(lightmap_ids(None, Some(6), Some(7)), (6, 7));
    assert_eq!(lightmap_ids(None, None, None), (NO_LIGHTMAP, NO_LIGHTMAP));
}
