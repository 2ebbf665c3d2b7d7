use lunar_render::glyph_shelf::{AtlasSlot, GlyphContent, GlyphShelf};

#[test]
fn new_atlas_is_blank() {
    let a = GlyphShelf::new(4, 3);
    assert_eq!(a.pixels().len(), 48);
    assert!(a.pixels().iter().all(|&b| b == 0));
    assert_eq!((a.width(), a.height()), (4, 3));
}

#[test]
fn mask_glyph_is_copied_as_white_with_alpha() {
    let mut a = GlyphShelf::new(4, 4);
    let slot = a.place(2, 2, GlyphContent::Mask, &[10, 20, 30, 40]);
    assert_eq!(slot, Some(AtlasSlot { x: 0, y: 0, width: 2, height: 2 }));
    let p = a.pixels();
    assert_eq!(&p[0..8], &[255, 255, 255, 10, 255, 255, 255, 20]);
    assert_eq!(&p[16..24], &[255, 255, 255, 30, 255, 255, 255, 40]);
    assert_eq!(&p[8..16], &[0; 8]);
    assert!(a.take_dirty());
    assert!(!a.take_dirty());
}

#[test]
fn glyphs_fill_a_shelf_then_wrap() {
    let mut a = GlyphShelf::new(4, 4);
    let g1 = a.place(3, 2, GlyphContent::Color, &[1; 24]);
    assert_eq!(g1, Some(AtlasSlot { x: 0, y: 0, width: 3, height: 2 }));
    let g2 = a.place(1, 1, GlyphContent::SubpixelMask, &[9, 8, 7]);
    assert_eq!(g2, Some(AtlasSlot { x: 3, y: 0, width: 1, height: 1 }));
    assert_eq!(&a.pixels()[12..16], &[255, 255, 255, 9]);
    let g3 = a.place(2, 2, GlyphContent::Mask, &[5; 4]);
    assert_eq!(g3, Some(AtlasSlot { x: 0, y: 2, width: 2, height: 2 }));
    // no room below the last shelf
    let g4 = a.place(3, 1, GlyphContent::Mask, &[5; 3]);
    assert_eq!(g4, None);
}

#[test]
fn empty_glyphs_are_not_placed() {
    let mut a = GlyphShelf::new(4, 4);
    assert_eq!(a.place(0, 2, GlyphContent::Mask, &[]), None);
    assert_eq!(a.place(2, 2, GlyphContent::Mask, &[]), None);
    assert!(!a.take_dirty());
}

#[test]
fn clear_blanks_the_atlas() {
    let mut a = GlyphShelf::new(2, 2);
    a.place(2, 2, GlyphContent::Mask, &[1, 2, 3, 4]);
    a.take_dirty();
    a.clear();
    assert!(a.pixels().iter().all(|&b| b == 0));
    assert!(a.take_dirty());
    assert_eq!(a.place(2, 2, GlyphContent::Mask, &[1, 2, 3, 4]), Some(AtlasSlot { x: 0, y: 0, width: 2, height: 2 }));
}
