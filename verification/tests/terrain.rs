use lunar_render::terrain::{clipmap_indices, clipmap_layout};

#[test]
fn layout_is_clamped() {
    assert_eq!(clipmap_layout(0, 0), (1, 4));
    assert_eq!(clipmap_layout(20, 1000), (8, 256));
    assert_eq!(clipmap_layout(3, 64), (3, 64));
}

#[test]
fn single_cell_patch() {
    assert_eq!(clipmap_indices(1), vec![0, 2, 1, 1, 2, 3]);
}

#[test]
fn patch_indices_cover_every_cell() {
    let idx = clipmap_indices(4);
    assert_eq!(idx.len(), 4 * 4 * 6);
    assert!(idx.iter().all(|&i| i < 25));
    // second cell of the second row: tl = 1 * 5 + 1 = 6
    assert_eq!(&idx[(4 + 1) * 6..(4 + 2) * 6], &[6, 11, 7, 7, 11, 12]);
    assert!(clipmap_indices(0).is_empty());
}
