use lunar_render::draw_order::{draw_order, DrawKey};

fn key(transparent: bool, mesh: u32, material: u32) -> DrawKey {
    DrawKey { transparent, mesh, material, lightmap: u32::MAX, dir_lightmap: u32::MAX }
}

#[test]
fn opaque_first_then_by_mesh_and_material() {
    let keys = vec![key(true, 1, 1), key(false, 2, 1), key(false, 1, 5), key(false, 1, 2), key(true, 0, 0)];
    assert_eq!(draw_order(&keys), vec![3, 2, 1, 4, 0]);
}

#[test]
fn ties_keep_gathering_order() {
    let keys = vec![key(false, 3, 3), key(false, 3, 3), key(false, 3, 3)];
    assert_eq!(draw_order(&keys), vec![0, 1, 2]);
    let mut lm = key(false, 3, 3);
    lm.lightmap = 0;
    assert_eq!(draw_order(&vec![key(false, 3, 3), lm]), vec![1, 0]);
    assert!(draw_order(&Vec::new()).is_empty());
}
