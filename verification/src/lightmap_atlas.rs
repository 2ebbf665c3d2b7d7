//! Packing of the uncompressed irradiance lightmaps into one RGBA atlas, for
//! the indirect-draw path that binds a single lightmap texture.
//!
//! The lightmaps are packed largest first (by byte size; equal sizes keep
//! their given order) on shelves, left to right.  A lightmap larger than the
//! atlas is skipped; the first one that no longer fits below the last shelf
//! ends the packing.  Each packed lightmap's pixels are copied into its
//! rectangle; every other byte of the atlas is zero.
use vstd::prelude::*;
use crate::glyph_shelf::{
    covered, disjoint, lemma_pixel_index_injective, pixel_index, texel, AtlasSlot, GlyphContent, GlyphShelf,
    GlyphShelfView,
};

verus! {

/// An uncompressed RGBA8 lightmap.
pub struct LightmapImage {
    pub id: u32,
    pub width: u32,
    pub height: u32,
    pub pixels: Vec<u8>,
}

/// The packed atlas: its RGBA bytes, the order in which the lightmaps were
/// taken, and where each packed lightmap went (both by index into the
/// input).
pub struct LightmapAtlas {
    pub pixels: Vec<u8>,
    pub order: Vec<u32>,
    pub placements: Vec<(u32, AtlasSlot)>,
}

/// Image `a` is packed before image `b`: it has more bytes, or as many and
/// comes first.
pub open spec fn packed_before(images: Seq<LightmapImage>, a: u32, b: u32) -> bool {
    ||| images[a as int].pixels@.len() > images[b as int].pixels@.len()
    ||| (images[a as int].pixels@.len() == images[b as int].pixels@.len() && a < b)
}

/// `order` takes every image once, largest first, equal sizes in their
/// given order.
pub open spec fn is_size_order(images: Seq<LightmapImage>, order: Seq<u32>) -> bool {
    &&& order.len() == images.len()
    &&& forall|i: int| 0 <= i < order.len() ==> #[trigger] order[i] < images.len()
    &&& forall|i: int, j: int| 0 <= i < j < order.len() ==> packed_before(images, #[trigger] order[i], #[trigger] order[j])
}

/// The shelf cursor: next x, top of the current shelf, height of the
/// current shelf.
pub struct ShelfCursor {
    pub x: int,
    pub y: int,
    pub row: int,
}

/// The outcome of packing the first images of an order: the cursor, the
/// placements so far, and whether an image no longer fitted.
pub struct PackState {
    pub cursor: ShelfCursor,
    pub placed: Seq<(u32, AtlasSlot)>,
    pub full: bool,
}

/// Packing one more image (by index) of `w` x `h` pixels: an image larger
/// than the atlas is passed over; otherwise it starts a new shelf when the
/// rest of the row is too narrow, and fits when it then ends above the
/// bottom of the atlas.
pub open spec fn shelf_step(s: PackState, image: u32, w: u32, h: u32, dim: u32) -> PackState {
    if w > dim || h > dim {
        s
    } else {
        let c = if s.cursor.x + w > dim {
            ShelfCursor { x: 0, y: s.cursor.y + s.cursor.row, row: 0 }
        } else {
            s.cursor
        };
        if c.y + h > dim {
            PackState { cursor: c, placed: s.placed, full: true }
        } else {
            PackState {
                cursor: ShelfCursor { x: c.x + w, y: c.y, row: if h > c.row { h as int } else { c.row } },
                placed: s.placed.push((image, AtlasSlot { x: c.x as u32, y: c.y as u32, width: w, height: h })),
                full: false,
            }
        }
    }
}

/// The packing state after the first `k` images of `order`.
pub open spec fn pack_prefix(images: Seq<LightmapImage>, order: Seq<u32>, dim: u32, k: nat) -> PackState
    decreases k,
{
    if k == 0 {
        PackState { cursor: ShelfCursor { x: 0, y: 0, row: 0 }, placed: Seq::empty(), full: false }
    } else {
        let s = pack_prefix(images, order, dim, (k - 1) as nat);
        if s.full {
            s
        } else {
            let im = images[order[k - 1] as int];
            shelf_step(s, order[k - 1], im.width, im.height, dim)
        }
    }
}

/// Where the lightmaps go when packed in `order` into a `dim` x `dim` atlas.
pub open spec fn packed_slots(images: Seq<LightmapImage>, order: Seq<u32>, dim: u32) -> Seq<(u32, AtlasSlot)> {
    pack_prefix(images, order, dim, order.len()).placed
}

/// Insert image `i` into a size order of the images before it.
fn insert_in_size_order(images: &Vec<LightmapImage>, order: &mut Vec<u32>, i: u32)
    requires
        (i as int) < images@.len(),
        images@.len() <= u32::MAX,
        old(order)@.len() == i,
        forall|a: int| 0 <= a < old(order)@.len() ==> #[trigger] old(order)@[a] < i,
        old(order)@.no_duplicates(),
        forall|a: int, b: int| 0 <= a < b < old(order)@.len() ==> packed_before(images@, #[trigger] old(order)@[a], #[trigger] old(order)@[b]),
    ensures
        final(order)@.len() == i + 1,
        forall|a: int| 0 <= a < final(order)@.len() ==> #[trigger] final(order)@[a] <= i,
        final(order)@.no_duplicates(),
        forall|a: int, b: int| 0 <= a < b < final(order)@.len() ==> packed_before(images@, #[trigger] final(order)@[a], #[trigger] final(order)@[b]),
{
    let key = images[i as usize].pixels.len();
    let mut p: usize = 0;
    while p < order.len() && images[order[p] as usize].pixels.len() >= key
        invariant
            p <= order@.len(),
            (i as int) < images@.len(),
            key == images@[i as int].pixels@.len(),
            forall|a: int| 0 <= a < order@.len() ==> #[trigger] order@[a] < i,
            forall|a: int| 0 <= a < p ==> images@[#[trigger] order@[a] as int].pixels@.len() >= key,
        decreases order@.len() - p,
    {
        p = p + 1;
    }
    let ghost before = order@;
    order.insert(p, i);
    proof {
        assert(order@ == before.insert(p as int, i));
        assert forall|a: int, b: int| 0 <= a < b < order@.len() implies packed_before(images@, #[trigger] order@[a], #[trigger] order@[b]) by {
            if b < p {
            } else if b == p {
                assert(images@[before[a] as int].pixels@.len() >= key);
                assert(before[a] < i);
            } else if a < p {
                assert(order@[b] == before[b - 1]);
                if a < p {
                    assert(order@[a] == before[a]);
                    assert(packed_before(images@, before[a], before[b - 1]));
                }
            } else if a == p {
                assert(order@[b] == before[b - 1]);
                assert(images@[before[p as int] as int].pixels@.len() < key);
                if b - 1 > p {
                    assert(packed_before(images@, before[p as int], before[b - 1]));
                }
            } else {
                assert(order@[a] == before[a - 1]);
                assert(order@[b] == before[b - 1]);
                assert(packed_before(images@, before[a - 1], before[b - 1]));
            }
        }
        assert forall|a: int, b: int| 0 <= a < b < order@.len() implies order@[a] != order@[b] by {
            if a == p as int {
                assert(order@[b] == before[b - 1]);
            } else if b == p as int {
                assert(order@[a] == before[a]);
            } else {
                let a0 = if a < p { a } else { a - 1 };
                let b0 = if b < p { b } else { b - 1 };
                assert(order@[a] == before[a0]);
                assert(order@[b] == before[b0]);
            }
        }
    }
}

/// The order in which the lightmaps are packed: largest first, equal sizes
/// in their given order.
pub fn size_order(images: &Vec<LightmapImage>) -> (order: Vec<u32>)
    requires
        images@.len() <= u32::MAX,
    ensures
        is_size_order(images@, order@),
        order@.no_duplicates(),
{
    let mut order: Vec<u32> = Vec::new();
    let mut i: usize = 0;
    while i < images.len()
        invariant
            i <= images@.len(),
            images@.len() <= u32::MAX,
            order@.len() == i,
            forall|a: int| 0 <= a < order@.len() ==> #[trigger] order@[a] < i,
            order@.no_duplicates(),
            forall|a: int, b: int| 0 <= a < b < order@.len() ==> packed_before(images@, #[trigger] order@[a], #[trigger] order@[b]),
        decreases images@.len() - i,
    {
        insert_in_size_order(images, &mut order, i as u32);
        i = i + 1;
    }
    order
}

/// Packing stops for good once an image no longer fits.
proof fn lemma_full_stays(images: Seq<LightmapImage>, order: Seq<u32>, dim: u32, k: nat, n: nat)
    requires
        k <= n,
        pack_prefix(images, order, dim, k).full,
    ensures
        pack_prefix(images, order, dim, n) == pack_prefix(images, order, dim, k),
    decreases n - k,
{
    if k < n {
        lemma_full_stays(images, order, dim, k, (n - 1) as nat);
    }
}

/// A byte of one slot is not copied by a glyph placed in a disjoint slot.
proof fn lemma_disjoint_slot_bytes(dim: int, a: AtlasSlot, b: AtlasSlot, gx: int, gy: int, c: int)
    requires
        disjoint(a, b),
        a.x + a.width <= dim,
        b.x + b.width <= dim,
        0 <= gx < a.width,
        0 <= gy < a.height,
        0 <= c < 4,
    ensures
        !covered(dim, b.x as int, b.y as int, b.width as int, b.height as int, 0, pixel_index(dim, a.x + gx, a.y + gy, c)),
{
    let i = pixel_index(dim, a.x + gx, a.y + gy, c);
    if covered(dim, b.x as int, b.y as int, b.width as int, b.height as int, 0, i) {
        let (gx2, gy2, c2) = choose|gx2: int, gy2: int, c2: int|
            crate::glyph_shelf::cell_done(b.width as int, b.height as int, 0, gx2, gy2) && 0 <= c2 < 4 && i == #[trigger] pixel_index(dim, b.x + gx2, b.y + gy2, c2);
        lemma_pixel_index_injective(dim, a.x + gx, a.y + gy, c, b.x + gx2, b.y + gy2, c2);
    }
}

/// Byte `i` lies in the rectangle of one of the placements.
pub open spec fn in_some_slot(placed: Seq<(u32, AtlasSlot)>, dim: u32, i: int) -> bool {
    exists|j: int| 0 <= j < placed.len() && #[trigger] covered(
        dim as int,
        placed[j].1.x as int,
        placed[j].1.y as int,
        placed[j].1.width as int,
        placed[j].1.height as int,
        0,
        i,
    )
}

/// Each placement's rectangle holds its lightmap's pixels.
pub open spec fn slots_hold_images(images: Seq<LightmapImage>, placed: Seq<(u32, AtlasSlot)>, dim: u32, pixels: Seq<u8>) -> bool {
    forall|j: int, gx: int, gy: int, c: int|
        0 <= j < placed.len() && 0 <= gx < placed[j].1.width && 0 <= gy < placed[j].1.height && 0 <= c < 4
            ==> pixels[#[trigger] pixel_index(dim as int, placed[j].1.x + gx, placed[j].1.y + gy, c)]
            == #[trigger] images[placed[j].0 as int].pixels@[(gy * placed[j].1.width + gx) * 4 + c]
}

/// Pack the lightmaps into a `dim` x `dim` RGBA atlas.
pub fn pack_lightmaps(images: &Vec<LightmapImage>, atlas_dim: u32) -> (a: LightmapAtlas)
    requires
        images@.len() <= u32::MAX,
        atlas_dim * atlas_dim * 4 <= u32::MAX,
        forall|i: int| 0 <= i < images@.len() ==> {
            &&& #[trigger] images@[i].width >= 1
            &&& images@[i].height >= 1
            &&& images@[i].pixels@.len() >= images@[i].width * images@[i].height * 4
        },
    ensures
        is_size_order(images@, a.order@),
        a.placements@ == packed_slots(images@, a.order@, atlas_dim),
        a.pixels@.len() == atlas_dim * atlas_dim * 4,
        forall|j: int| 0 <= j < a.placements@.len() ==> {
            &&& #[trigger] a.placements@[j].1.x + a.placements@[j].1.width <= atlas_dim
            &&& a.placements@[j].1.y + a.placements@[j].1.height <= atlas_dim
        },
        forall|j: int, k: int| 0 <= j < k < a.placements@.len() ==> disjoint(#[trigger] a.placements@[j].1, #[trigger] a.placements@[k].1),
        slots_hold_images(images@, a.placements@, atlas_dim, a.pixels@),
        forall|i: int| 0 <= i < a.pixels@.len() ==> #[trigger] a.pixels@[i] == 0 || in_some_slot(a.placements@, atlas_dim, i),
{
    let order = size_order(images);
    assert(atlas_dim <= 0xffff) by (nonlinear_arith)
        requires
            atlas_dim * atlas_dim * 4 <= u32::MAX,
    ;
    let mut shelf = GlyphShelf::new(atlas_dim, atlas_dim);
    let mut placements: Vec<(u32, AtlasSlot)> = Vec::new();
    let mut k: usize = 0;
    let mut full = false;
    while k < order.len() && !full
        invariant
            is_size_order(images@, order@),
            images@.len() <= u32::MAX,
            forall|i: int| 0 <= i < images@.len() ==> {
                &&& #[trigger] images@[i].width >= 1
                &&& images@[i].height >= 1
                &&& images@[i].pixels@.len() >= images@[i].width * images@[i].height * 4
            },
            k <= order@.len(),
            atlas_dim <= 0xffff,
            shelf@.wf(),
            shelf@.width == atlas_dim,
            shelf@.height == atlas_dim,
            full == pack_prefix(images@, order@, atlas_dim, k as nat).full,
            placements@ == pack_prefix(images@, order@, atlas_dim, k as nat).placed,
            !full ==> shelf@.cursor_x == pack_prefix(images@, order@, atlas_dim, k as nat).cursor.x,
            !full ==> shelf@.cursor_y == pack_prefix(images@, order@, atlas_dim, k as nat).cursor.y,
            !full ==> shelf@.row_height == pack_prefix(images@, order@, atlas_dim, k as nat).cursor.row,
            shelf@.placed.len() == placements@.len(),
            forall|j: int| 0 <= j < placements@.len() ==> #[trigger] shelf@.placed[j] == placements@[j].1,
            forall|j: int| 0 <= j < placements@.len() ==> #[trigger] placements@[j].0 < images@.len(),
            forall|j: int| 0 <= j < placements@.len() ==> {
                &&& #[trigger] placements@[j].1.width == images@[placements@[j].0 as int].width
                &&& placements@[j].1.height == images@[placements@[j].0 as int].height
            },
            slots_hold_images(images@, placements@, atlas_dim, shelf@.pixels),
            forall|i: int| 0 <= i < shelf@.pixels.len() ==> #[trigger] shelf@.pixels[i] == 0 || in_some_slot(placements@, atlas_dim, i),
        decreases order@.len() - k,
    {
        let idx = order[k];
        let im = &images[idx as usize];
        let ghost s0 = pack_prefix(images@, order@, atlas_dim, k as nat);
        assert(pack_prefix(images@, order@, atlas_dim, (k + 1) as nat) == shelf_step(s0, idx, im.width, im.height, atlas_dim));
        if im.width <= atlas_dim && im.height <= atlas_dim {
            let ghost v0 = shelf@;
            let ghost p0 = placements@;
            proof {
                assert(images@[idx as int].width >= 1);
                assert(im.width * im.height * 4 >= 4) by (nonlinear_arith)
                    requires
                        im.width >= 1,
                        im.height >= 1,
                ;
                let w = crate::glyph_shelf::wrapped(v0, im.width);
                if s0.cursor.x + im.width > atlas_dim {
                    assert(w.cursor_x == 0);
                    assert(w.cursor_y as int == s0.cursor.y + s0.cursor.row);
                    assert(w.row_height == 0);
                } else {
                    assert(w == v0);
                }
            }
            let placed = shelf.place(im.width, im.height, GlyphContent::Color, im.pixels.as_slice());
            match placed {
                Some(slot) => {
                    placements.push((idx, slot));
                    assert(!pack_prefix(images@, order@, atlas_dim, (k + 1) as nat).full);
                    assert(placements@ == pack_prefix(images@, order@, atlas_dim, (k + 1) as nat).placed);
                    proof {
                        let v1 = shelf@;
                        let m = p0.len() as int;
                        assert(v1.placed == v0.placed.push(slot));
                        assert forall|j: int| 0 <= j < placements@.len() implies #[trigger] shelf@.placed[j] == placements@[j].1 by {
                            if j < m {
                                assert(v0.placed[j] == p0[j].1);
                            }
                        }
                        assert forall|j: int, gx: int, gy: int, c: int|
                            0 <= j < placements@.len() && 0 <= gx < placements@[j].1.width && 0 <= gy < placements@[j].1.height && 0 <= c < 4
                            implies v1.pixels[#[trigger] pixel_index(atlas_dim as int, placements@[j].1.x + gx, placements@[j].1.y + gy, c)]
                                == #[trigger] images@[placements@[j].0 as int].pixels@[(gy * placements@[j].1.width + gx) * 4 + c] by {
                            let i = pixel_index(atlas_dim as int, placements@[j].1.x + gx, placements@[j].1.y + gy, c);
                            if j < m {
                                assert(placements@[j] == p0[j]);
                                assert(v1.placed[j] == p0[j].1);
                                assert(v1.placed[m] == slot);
                                assert(disjoint(v1.placed[j], v1.placed[m]));
                                lemma_disjoint_slot_bytes(atlas_dim as int, p0[j].1, slot, gx, gy, c);
                                crate::glyph_shelf::lemma_pixel_in_buffer(atlas_dim as int, atlas_dim as int, p0[j].1.x + gx, p0[j].1.y + gy, c);
                                assert(v1.pixels[i] == v0.pixels[i]);
                            } else {
                                assert(placements@[j] == (idx, slot));
                                assert(texel(GlyphContent::Color, im.pixels@, slot.width as int, gx, gy, c) == im.pixels@[(gy * slot.width + gx) * 4 + c]);
                            }
                        }
                        assert forall|i: int| 0 <= i < shelf@.pixels.len() implies #[trigger] shelf@.pixels[i] == 0 || in_some_slot(placements@, atlas_dim, i) by {
                            if v1.pixels[i] == v0.pixels[i] {
                                if v0.pixels[i] != 0 {
                                    assert(in_some_slot(p0, atlas_dim, i));
                                    let j = choose|j: int| 0 <= j < p0.len() && #[trigger] covered(
                                        atlas_dim as int,
                                        p0[j].1.x as int,
                                        p0[j].1.y as int,
                                        p0[j].1.width as int,
                                        p0[j].1.height as int,
                                        0,
                                        i,
                                    );
                                    assert(placements@[j] == p0[j]);
                                    assert(covered(
                                        atlas_dim as int,
                                        placements@[j].1.x as int,
                                        placements@[j].1.y as int,
                                        placements@[j].1.width as int,
                                        placements@[j].1.height as int,
                                        0,
                                        i,
                                    ));
                                }
                            } else {
                                assert(placements@[m] == (idx, slot));
                                assert(covered(
                                    atlas_dim as int,
                                    placements@[m].1.x as int,
                                    placements@[m].1.y as int,
                                    placements@[m].1.width as int,
                                    placements@[m].1.height as int,
                                    0,
                                    i,
                                ));
                            }
                        }
                    }
                },
                None => {
                    full = true;
                    assert(pack_prefix(images@, order@, atlas_dim, (k + 1) as nat).full);
                },
            }
        }
        k = k + 1;
    }
    proof {
        if full {
            lemma_full_stays(images@, order@, atlas_dim, k as nat, order@.len());
        }
        crate::glyph_shelf::lemma_placed_glyphs_apart(shelf@);
        assert forall|j: int| 0 <= j < placements@.len() implies {
            &&& #[trigger] placements@[j].1.x + placements@[j].1.width <= atlas_dim
            &&& placements@[j].1.y + placements@[j].1.height <= atlas_dim
        } by {
            assert(shelf@.placed[j] == placements@[j].1);
        }
        assert forall|j: int, l: int| 0 <= j < l < placements@.len() implies disjoint(#[trigger] placements@[j].1, #[trigger] placements@[l].1) by {
            assert(shelf@.placed[j] == placements@[j].1);
            assert(shelf@.placed[l] == placements@[l].1);
        }
    }
    LightmapAtlas { pixels: shelf.into_pixels(), order, placements }
}

} // verus!
