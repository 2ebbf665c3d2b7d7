use lunar_render::glyph_shelf::AtlasSlot;
use lunar_render::lightmap_atlas::{pack_lightmaps, size_order, LightmapImage};

fn solid(id: u32, width: u32, height: u32, value: u8) -> LightmapImage {
    LightmapImage { id, width, height, pixels: vec![value; (width * height * 4) as usize] }
}

#[test]
fn lightmaps_pack_largest_first() {
    let images = vec![solid(10, 2, 2, 1), solid(11, 4, 4, 2), solid(12, 2, 2, 3)];
    assert_eq!(size_order(&images), vec![1, 0, 2]);
}

#[test]
fn lightmaps_pack_on_shelves() {
    let images = vec![solid(10, 2, 2, 1), solid(11, 4, 4, 2), solid(12, 3, 2, 3)];
    let atlas = pack_lightmaps(&images, 8);
    assert_eq!(atlas.order, vec![1, 2, 0]);
    assert_eq!(
        atlas.placements,
        vec![
            (1, AtlasSlot { x: 0, y: 0, width: 4, height: 4 }),
            (2, AtlasSlot { x: 4, y: 0, width: 3, height: 2 }),
            (0, AtlasSlot { x: 0, y: 4, width: 2, height: 2 }),
        ]
    );
    assert_eq!(atlas.pixels.len(), 8 * 8 * 4);
    let at = |x: usize, y: usize| atlas.pixels[(y * 8 + x) * 4];
    assert_eq!(at(0, 0), 2);
    assert_eq!(at(3, 3), 2);
    assert_eq!(at(4, 0), 3);
    assert_eq!(at(6, 1), 3);
    assert_eq!(at(7, 0), 0);
    assert_eq!(at(4, 2), 0);
    assert_eq!(at(1, 5), 1);
    assert_eq!(at(2, 4), 0);
}

#[test]
fn lightmap_larger_than_atlas_is_skipped() {
    let images = vec![solid(1, 9, 1, 5), solid(2, 2, 2, 6)];
    let atlas = pack_lightmaps(&images, 8);
    assert_eq!(atlas.placements, vec![(1, AtlasSlot { x: 0, y: 0, width: 2, height: 2 })]);
}

#[test]
fn lightmap_that_no_longer_fits_ends_packing() {
    let images = vec![solid(1, 8, 6, 1), solid(2, 4, 4, 2), solid(3, 1, 1, 3)];
    let atlas = pack_lightmaps(&images, 8);
    assert_eq!(atlas.placements, vec![(0, AtlasSlot { x: 0, y: 0, width: 8, height: 6 })]);
    assert!(atlas.pixels[(7 * 8) * 4..].iter().all(|&b| b == 0));
}
