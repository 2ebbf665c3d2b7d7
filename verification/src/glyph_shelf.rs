//! Shelf packing of rasterized glyphs into an RGBA atlas.
//!
//! Glyphs are placed left to right along the current shelf; a glyph that
//! does not fit the rest of the row starts a new shelf below the tallest
//! glyph of the row.  A glyph that does not fit below the last shelf is
//! dropped.  Each placed glyph's coverage is copied into its rectangle of
//! the pixel buffer; the atlas is marked dirty for upload.
use vstd::prelude::*;

verus! {

/// How a rasterized glyph stores its pixels.
#[derive(Debug, Clone, Copy, PartialEq, Eq, Structural)]
pub enum GlyphContent {
    /// One alpha byte per pixel.
    Mask,
    /// Four RGBA bytes per pixel.
    Color,
    /// Three subpixel bytes per pixel; the first is used as alpha.
    SubpixelMask,
}

/// A rectangle of the atlas, in pixels.
#[derive(Debug, Clone, Copy, PartialEq, Eq, Structural)]
pub struct AtlasSlot {
    pub x: u32,
    pub y: u32,
    pub width: u32,
    pub height: u32,
}

/// The packing state and pixels of a glyph atlas.
pub struct GlyphShelf {
    width: u32,
    height: u32,
    pixels: Vec<u8>,
    cursor_x: u32,
    cursor_y: u32,
    row_height: u32,
    dirty: bool,
    placed: Ghost<Seq<AtlasSlot>>,
}

/// Abstract state of a glyph atlas: its extent, its RGBA bytes, the shelf
/// cursor, whether it changed since the last upload, and the slots placed
/// since it was last cleared.
pub struct GlyphShelfView {
    pub width: u32,
    pub height: u32,
    pub pixels: Seq<u8>,
    pub cursor_x: u32,
    pub cursor_y: u32,
    pub row_height: u32,
    pub dirty: bool,
    pub placed: Seq<AtlasSlot>,
}

impl View for GlyphShelf {
    type V = GlyphShelfView;

    closed spec fn view(&self) -> GlyphShelfView {
        GlyphShelfView {
            width: self.width,
            height: self.height,
            pixels: self.pixels@,
            cursor_x: self.cursor_x,
            cursor_y: self.cursor_y,
            row_height: self.row_height,
            dirty: self.dirty,
            placed: self.placed@,
        }
    }
}

/// Bytes per source pixel of a glyph.
pub open spec fn channels(c: GlyphContent) -> nat {
    match c {
        GlyphContent::Mask => 1,
        GlyphContent::Color => 4,
        GlyphContent::SubpixelMask => 3,
    }
}

/// Index of byte `c` of pixel (`px`, `py`) in an atlas `w` pixels wide.
pub open spec fn pixel_index(w: int, px: int, py: int, c: int) -> int {
    4 * (py * w + px) + c
}

/// Byte `c` of glyph pixel (`gx`, `gy`) as stored in the atlas: white with
/// the glyph's coverage as alpha for masks, the glyph's own bytes for color.
pub open spec fn texel(content: GlyphContent, data: Seq<u8>, gw: int, gx: int, gy: int, c: int) -> u8 {
    match content {
        GlyphContent::Mask => if c < 3 { 0xff } else { data[gy * gw + gx] },
        GlyphContent::Color => data[(gy * gw + gx) * 4 + c],
        GlyphContent::SubpixelMask => if c < 3 { 0xff } else { data[(gy * gw + gx) * 3] },
    }
}

/// Two slots share no pixel.
pub open spec fn disjoint(a: AtlasSlot, b: AtlasSlot) -> bool {
    ||| a.x + a.width <= b.x
    ||| b.x + b.width <= a.x
    ||| a.y + a.height <= b.y
    ||| b.y + b.height <= a.y
}

/// A slot lies where the shelf cursor has already passed: on an earlier
/// shelf, or on the current one left of the cursor.
pub open spec fn behind_cursor(s: AtlasSlot, v: GlyphShelfView) -> bool {
    ||| s.y + s.height <= v.cursor_y
    ||| (s.y == v.cursor_y && s.x + s.width <= v.cursor_x && s.height <= v.row_height)
}

impl GlyphShelfView {
    /// The pixel buffer holds four bytes per atlas pixel; the cursor and the
    /// current shelf lie inside the atlas; every placed slot lies inside the
    /// atlas, behind the cursor, and apart from every other placed slot.
    pub open spec fn wf(self) -> bool {
        &&& self.width * self.height * 4 <= u32::MAX
        &&& self.pixels.len() == self.width * self.height * 4
        &&& self.cursor_x <= self.width
        &&& self.cursor_y + self.row_height <= self.height
        &&& forall|i: int| #![trigger self.placed[i]] 0 <= i < self.placed.len() ==> {
            &&& self.placed[i].x + self.placed[i].width <= self.width
            &&& self.placed[i].y + self.placed[i].height <= self.height
            &&& behind_cursor(self.placed[i], self)
        }
        &&& forall|i: int, j: int| 0 <= i < j < self.placed.len() ==> disjoint(#[trigger] self.placed[i], #[trigger] self.placed[j])
    }
}

/// Byte positions of two atlas pixels coincide only for the same pixel and byte.
pub(crate) proof fn lemma_pixel_index_injective(w: int, px1: int, py1: int, c1: int, px2: int, py2: int, c2: int)
    requires
        0 <= px1,
        0 <= px2,
        0 <= py1,
        0 <= py2,
        0 <= c1,
        0 <= c2,
        px1 < w,
        px2 < w,
        c1 < 4,
        c2 < 4,
        pixel_index(w, px1, py1, c1) == pixel_index(w, px2, py2, c2),
    ensures
        px1 == px2,
        py1 == py2,
        c1 == c2,
{
    let a = py1 * w + px1;
    let b = py2 * w + px2;
    assert(c1 == c2 && a == b) by (nonlinear_arith)
        requires
            4 * a + c1 == 4 * b + c2,
            0 <= c1 < 4,
            0 <= c2 < 4,
    ;
    if py1 < py2 {
        assert(py1 * w + px1 < py2 * w) by (nonlinear_arith)
            requires
                0 <= py1 < py2,
                0 <= px1 < w,
        ;
    } else if py2 < py1 {
        assert(py2 * w + px2 < py1 * w) by (nonlinear_arith)
            requires
                0 <= py2 < py1,
                0 <= px2 < w,
        ;
    }
}

/// A pixel inside the atlas has all four bytes inside the buffer.
pub(crate) proof fn lemma_pixel_in_buffer(w: int, h: int, px: int, py: int, c: int)
    requires
        0 <= px,
        0 <= py,
        0 <= c,
        px < w,
        py < h,
        c < 4,
    ensures
        0 <= pixel_index(w, px, py, c) < w * h * 4,
{
    assert(0 <= 4 * (py * w + px) + c < w * h * 4) by (nonlinear_arith)
        requires
            0 <= px < w,
            0 <= py < h,
            0 <= c < 4,
    ;
}

impl GlyphShelf {
    /// An empty atlas of `width` x `height` pixels, all bytes zero.
    pub fn new(width: u32, height: u32) -> (s: Self)
        requires
            width * height * 4 <= u32::MAX,
        ensures
            s@.wf(),
            s@.width == width,
            s@.height == height,
            s@.pixels == Seq::new((width * height * 4) as nat, |i: int| 0u8),
            s@.cursor_x == 0,
            s@.cursor_y == 0,
            s@.row_height == 0,
            !s@.dirty,
            s@.placed.len() == 0,
    {
        let len = (width * height * 4) as usize;
        let mut pixels: Vec<u8> = Vec::new();
        let mut i: usize = 0;
        while i < len
            invariant
                0 <= i <= len,
                pixels@ == Seq::new(i as nat, |k: int| 0u8),
            decreases len - i,
        {
            pixels.push(0);
            i = i + 1;
        }
        GlyphShelf {
            width,
            height,
            pixels,
            cursor_x: 0,
            cursor_y: 0,
            row_height: 0,
            dirty: false,
            placed: Ghost(Seq::empty()),
        }
    }

    /// Atlas width in pixels.
    pub fn width(&self) -> (w: u32)
        ensures
            w == self@.width,
    {
        self.width
    }

    /// Atlas height in pixels.
    pub fn height(&self) -> (h: u32)
        ensures
            h == self@.height,
    {
        self.height
    }

    /// The raw RGBA bytes, for upload.
    pub fn pixels(&self) -> (p: &[u8])
        ensures
            p@ == self@.pixels,
    {
        self.pixels.as_slice()
    }

    /// The raw RGBA bytes, taken out of the atlas.
    pub fn into_pixels(self) -> (p: Vec<u8>)
        ensures
            p@ == self@.pixels,
    {
        self.pixels
    }

    /// Whether the pixels changed since the last call; clears the mark.
    pub fn take_dirty(&mut self) -> (d: bool)
        ensures
            d == old(self)@.dirty,
            final(self)@ == (GlyphShelfView { dirty: false, ..old(self)@ }),
    {
        let d = self.dirty;
        self.dirty = false;
        d
    }

    /// Forget every glyph: all bytes zero, the cursor back at the origin,
    /// and the atlas marked for upload.
    pub fn clear(&mut self)
        requires
            old(self)@.wf(),
        ensures
            final(self)@.wf(),
            final(self)@ == (GlyphShelfView {
                pixels: Seq::new(old(self)@.pixels.len(), |i: int| 0u8),
                cursor_x: 0,
                cursor_y: 0,
                row_height: 0,
                dirty: true,
                placed: Seq::empty(),
                ..old(self)@
            }),
    {
        let len = self.pixels.len();
        let mut i: usize = 0;
        while i < len
            invariant
                0 <= i <= len,
                len == self.pixels@.len(),
                len == old(self)@.pixels.len(),
                self.width == old(self)@.width,
                self.height == old(self)@.height,
                forall|k: int| 0 <= k < i ==> #[trigger] self.pixels@[k] == 0u8,
            decreases len - i,
        {
            self.pixels.set(i, 0);
            i = i + 1;
        }
        self.cursor_x = 0;
        self.cursor_y = 0;
        self.row_height = 0;
        self.dirty = true;
        self.placed = Ghost(Seq::empty());
        assert(self.pixels@ =~= Seq::new(old(self)@.pixels.len(), |i: int| 0u8));
    }
}

/// The shelf after making room for a glyph `gw` wide: a glyph that does not
/// fit the rest of the row starts a new shelf below the current one.
pub open spec fn wrapped(v: GlyphShelfView, gw: u32) -> GlyphShelfView {
    if v.cursor_x + gw > v.width {
        GlyphShelfView { cursor_x: 0, cursor_y: (v.cursor_y + v.row_height) as u32, row_height: 0, ..v }
    } else {
        v
    }
}

/// Glyph cell (`gx`, `gy`) has been copied: within the first `rows` full
/// rows, or among the first `cols` cells of row `rows`.
pub open spec fn cell_done(gw: int, rows: int, cols: int, gx: int, gy: int) -> bool {
    (0 <= gy < rows && 0 <= gx < gw) || (gy == rows && 0 <= gx < cols)
}

/// Byte `i` of the atlas belongs to a copied glyph cell at (`x`, `y`).
pub open spec fn covered(w: int, x: int, y: int, gw: int, rows: int, cols: int, i: int) -> bool {
    exists|gx: int, gy: int, c: int|
        cell_done(gw, rows, cols, gx, gy) && 0 <= c < 4 && i == #[trigger] pixel_index(w, x + gx, y + gy, c)
}

/// The four atlas bytes of glyph pixel `p` (row-major index into the glyph).
fn glyph_texel(content: GlyphContent, data: &[u8], p: usize) -> (t: [u8; 4])
    requires
        (p + 1) * channels(content) <= data@.len(),
    ensures
        forall|gw: int, gx: int, gy: int, c: int|
            0 <= c < 4 && p == gy * gw + gx ==> #[trigger] texel(content, data@, gw, gx, gy, c) == t@[c],
{
    let len = data.len();
    assert(len == data@.len());
    match content {
        GlyphContent::Mask => [0xff, 0xff, 0xff, data[p]],
        GlyphContent::Color => {
            assert(p * 4 + 4 <= len);
            [data[p * 4], data[p * 4 + 1], data[p * 4 + 2], data[p * 4 + 3]]
        },
        GlyphContent::SubpixelMask => {
            assert(p * 3 + 3 <= len);
            [0xff, 0xff, 0xff, data[p * 3]]
        },
    }
}

impl GlyphShelf {
    /// Place a rasterized glyph of `gw` x `gh` pixels and copy its pixels in.
    /// Empty glyphs are not placed.  A glyph that does not fit the rest of
    /// the row moves the cursor to a new shelf first; one that then does not
    /// fit below the last shelf is dropped.
    pub fn place(&mut self, gw: u32, gh: u32, content: GlyphContent, data: &[u8]) -> (slot: Option<AtlasSlot>)
        requires
            old(self)@.wf(),
            gw <= old(self)@.width,
            gw <= u32::MAX - old(self)@.width,
            gh <= u32::MAX - old(self)@.height,
            data@.len() >= gw * gh * channels(content),
        ensures
            final(self)@.wf(),
            gw == 0 || gh == 0 || data@.len() == 0 ==> slot is None && final(self)@ == old(self)@,
            !(gw == 0 || gh == 0 || data@.len() == 0) ==> ({
                let w = wrapped(old(self)@, gw);
                if w.cursor_y + gh > w.height {
                    slot is None && final(self)@ == w
                } else {
                    let s = AtlasSlot { x: w.cursor_x, y: w.cursor_y, width: gw, height: gh };
                    &&& slot == Some(s)
                    &&& final(self)@.width == w.width
                    &&& final(self)@.height == w.height
                    &&& final(self)@.cursor_x == w.cursor_x + gw
                    &&& final(self)@.cursor_y == w.cursor_y
                    &&& final(self)@.row_height == (if gh > w.row_height { gh } else { w.row_height })
                    &&& final(self)@.dirty
                    &&& final(self)@.placed == old(self)@.placed.push(s)
                    &&& final(self)@.pixels.len() == old(self)@.pixels.len()
                    &&& forall|gx: int, gy: int, c: int|
                        0 <= gx < gw && 0 <= gy < gh && 0 <= c < 4 ==> final(self)@.pixels[#[trigger] pixel_index(
                            w.width as int,
                            s.x + gx,
                            s.y + gy,
                            c,
                        )] == texel(content, data@, gw as int, gx, gy, c)
                    &&& forall|i: int|
                        0 <= i < final(self)@.pixels.len() ==> #[trigger] final(self)@.pixels[i] == old(self)@.pixels[i]
                            || covered(w.width as int, s.x as int, s.y as int, gw as int, gh as int, 0, i)
                }
            }),
    {
        if gw == 0 || gh == 0 || data.len() == 0 {
            return None;
        }
        let ghost v0 = self@;
        if self.cursor_x + gw > self.width {
            self.cursor_x = 0;
            self.cursor_y = self.cursor_y + self.row_height;
            self.row_height = 0;
        }
        let ghost w = self@;
        assert(w == wrapped(v0, gw));
        assert(w.wf()) by {
            assert forall|i: int| 0 <= i < w.placed.len() implies behind_cursor(#[trigger] w.placed[i], w) by {
                assert(v0.placed[i] == w.placed[i]);
                assert(behind_cursor(v0.placed[i], v0));
            }
        }
        if self.cursor_y + gh > self.height {
            return None;
        }
        let x = self.cursor_x;
        let y = self.cursor_y;
        let width = self.width;
        let ghost orig = self.pixels@;
        let mut gy: u32 = 0;
        while gy < gh
            invariant
                w.wf(),
                self.width == width,
                width == w.width,
                self.height == w.height,
                x == w.cursor_x,
                y == w.cursor_y,
                x + gw <= width,
                y + gh <= self.height,
                data@.len() >= gw * gh * channels(content),
                0 <= gy <= gh,
                self.pixels@.len() == orig.len(),
                orig.len() == width * self.height * 4,
                self.placed@ == w.placed,
                self.cursor_x == w.cursor_x,
                self.cursor_y == w.cursor_y,
                self.row_height == w.row_height,
                forall|gx2: int, gy2: int, c: int|
                    cell_done(gw as int, gy as int, 0, gx2, gy2) && 0 <= c < 4 ==> self.pixels@[#[trigger] pixel_index(
                        width as int,
                        x + gx2,
                        y + gy2,
                        c,
                    )] == texel(content, data@, gw as int, gx2, gy2, c),
                forall|i: int|
                    0 <= i < self.pixels@.len() ==> #[trigger] self.pixels@[i] == orig[i] || covered(
                        width as int,
                        x as int,
                        y as int,
                        gw as int,
                        gy as int,
                        0,
                        i,
                    ),
            decreases gh - gy,
        {
            let mut gx: u32 = 0;
            while gx < gw
                invariant
                    w.wf(),
                    self.width == width,
                    width == w.width,
                    self.height == w.height,
                    x + gw <= width,
                    y + gh <= self.height,
                    data@.len() >= gw * gh * channels(content),
                    0 <= gy < gh,
                    0 <= gx <= gw,
                    self.pixels@.len() == orig.len(),
                    orig.len() == width * self.height * 4,
                    self.placed@ == w.placed,
                    self.cursor_x == w.cursor_x,
                    self.cursor_y == w.cursor_y,
                    self.row_height == w.row_height,
                    x == w.cursor_x,
                    y == w.cursor_y,
                    forall|gx2: int, gy2: int, c: int|
                        cell_done(gw as int, gy as int, gx as int, gx2, gy2) && 0 <= c < 4 ==> self.pixels@[#[trigger] pixel_index(
                            width as int,
                            x + gx2,
                            y + gy2,
                            c,
                        )] == texel(content, data@, gw as int, gx2, gy2, c),
                    forall|i: int|
                        0 <= i < self.pixels@.len() ==> #[trigger] self.pixels@[i] == orig[i] || covered(
                            width as int,
                            x as int,
                            y as int,
                            gw as int,
                            gy as int,
                            gx as int,
                            i,
                        ),
                decreases gw - gx,
            {
                proof {
                    assert((gy * gw + gx + 1) * channels(content) <= gw * gh * channels(content)) by (nonlinear_arith)
                        requires
                            gx < gw,
                            gy < gh,
                    ;
                    assert(gy * gw + gx < width * self.height) by (nonlinear_arith)
                        requires
                            gx < gw,
                            gy < gh,
                            x + gw <= width,
                            y + gh <= self.height,
                    ;
                    lemma_pixel_in_buffer(width as int, self.height as int, (x + gx) as int, (y + gy) as int, 3);
                    lemma_pixel_in_buffer(width as int, self.height as int, (x + gx) as int, (y + gy) as int, 0);
                }
                let p = (gy * gw + gx) as usize;
                let t = glyph_texel(content, data, p);
                let base = (((y + gy) * width + x + gx) * 4) as usize;
                let ghost before = self.pixels@;
                self.pixels.set(base, t[0]);
                self.pixels.set(base + 1, t[1]);
                self.pixels.set(base + 2, t[2]);
                self.pixels.set(base + 3, t[3]);
                proof {
                    let px = (x + gx) as int;
                    let py = (y + gy) as int;
                    assert forall|c: int| 0 <= c < 4 implies self.pixels@[#[trigger] pixel_index(width as int, px, py, c)]
                        == texel(content, data@, gw as int, gx as int, gy as int, c) by {
                        assert(pixel_index(width as int, px, py, c) == base + c);
                    }
                    assert forall|gx2: int, gy2: int, c: int|
                        cell_done(gw as int, gy as int, gx + 1, gx2, gy2) && 0 <= c < 4 implies self.pixels@[#[trigger] pixel_index(
                            width as int,
                            x + gx2,
                            y + gy2,
                            c,
                        )] == texel(content, data@, gw as int, gx2, gy2, c) by {
                        if !(gx2 == gx && gy2 == gy) {
                            assert(cell_done(gw as int, gy as int, gx as int, gx2, gy2));
                            let j = pixel_index(width as int, x + gx2, y + gy2, c);
                            lemma_pixel_in_buffer(width as int, self.height as int, x + gx2, y + gy2, c);
                            assert(before[j] == texel(content, data@, gw as int, gx2, gy2, c));
                            if base <= j < base + 4 {
                                lemma_pixel_index_injective(width as int, x + gx2, y + gy2, c, px, py, j - base);
                            }
                            assert(self.pixels@[j] == before[j]);
                        } else {
                            assert(pixel_index(width as int, x + gx2, y + gy2, c) == pixel_index(width as int, px, py, c));
                        }
                    }
                    assert forall|i: int| 0 <= i < self.pixels@.len() implies #[trigger] self.pixels@[i] == orig[i] || covered(
                        width as int,
                        x as int,
                        y as int,
                        gw as int,
                        gy as int,
                        gx + 1,
                        i,
                    ) by {
                        if base <= i < base + 4 {
                            let c = i - base;
                            assert(i == pixel_index(width as int, x + gx, y + gy, c));
                            assert(cell_done(gw as int, gy as int, gx + 1, gx as int, gy as int));
                        } else {
                            assert(self.pixels@[i] == before[i]);
                            if covered(width as int, x as int, y as int, gw as int, gy as int, gx as int, i) {
                                let (a, b, c) = choose|a: int, b: int, c: int|
                                    cell_done(gw as int, gy as int, gx as int, a, b) && 0 <= c < 4 && i == #[trigger] pixel_index(
                                        width as int,
                                        x + a,
                                        y + b,
                                        c,
                                    );
                                assert(cell_done(gw as int, gy as int, gx + 1, a, b));
                            }
                        }
                    }
                }
                gx = gx + 1;
            }
            proof {
                assert forall|gx2: int, gy2: int, c: int|
                    cell_done(gw as int, gy + 1, 0, gx2, gy2) && 0 <= c < 4 implies self.pixels@[#[trigger] pixel_index(
                        width as int,
                        x + gx2,
                        y + gy2,
                        c,
                    )] == texel(content, data@, gw as int, gx2, gy2, c) by {
                    assert(cell_done(gw as int, gy as int, gw as int, gx2, gy2));
                }
                assert forall|i: int| 0 <= i < self.pixels@.len() implies #[trigger] self.pixels@[i] == orig[i] || covered(
                    width as int,
                    x as int,
                    y as int,
                    gw as int,
                    gy + 1,
                    0,
                    i,
                ) by {
                    if covered(width as int, x as int, y as int, gw as int, gy as int, gw as int, i) {
                        let (a, b, c) = choose|a: int, b: int, c: int|
                            cell_done(gw as int, gy as int, gw as int, a, b) && 0 <= c < 4 && i == #[trigger] pixel_index(
                                width as int,
                                x + a,
                                y + b,
                                c,
                            );
                        assert(cell_done(gw as int, gy + 1, 0, a, b));
                    }
                }
            }
            gy = gy + 1;
        }
        let slot = AtlasSlot { x, y, width: gw, height: gh };
        self.cursor_x = x + gw;
        if gh > self.row_height {
            self.row_height = gh;
        }
        self.dirty = true;
        let ghost placed0 = self.placed@;
        self.placed = Ghost(placed0.push(slot));
        proof {
            let v = self@;
            assert forall|i: int| #![trigger v.placed[i]] 0 <= i < v.placed.len() implies {
                &&& v.placed[i].x + v.placed[i].width <= v.width
                &&& v.placed[i].y + v.placed[i].height <= v.height
                &&& behind_cursor(v.placed[i], v)
            } by {
                if i < placed0.len() {
                    assert(v.placed[i] == w.placed[i]);
                    assert(behind_cursor(w.placed[i], w));
                }
            }
            assert forall|i: int, j: int| 0 <= i < j < v.placed.len() implies disjoint(#[trigger] v.placed[i], #[trigger] v.placed[j]) by {
                if j == placed0.len() {
                    assert(behind_cursor(w.placed[i], w));
                } else {
                    assert(disjoint(w.placed[i], w.placed[j]));
                }
            }
        }
        Some(slot)
    }
}

/// Every glyph placed since the atlas was last cleared lies inside the
/// atlas, and no two of them share a pixel.
pub proof fn lemma_placed_glyphs_apart(v: GlyphShelfView)
    requires
        v.wf(),
    ensures
        forall|i: int| 0 <= i < v.placed.len() ==> #[trigger] v.placed[i].x + v.placed[i].width <= v.width
            && v.placed[i].y + v.placed[i].height <= v.height,
        forall|i: int, j: int| 0 <= i < v.placed.len() && 0 <= j < v.placed.len() && i != j ==> disjoint(v.placed[i], v.placed[j]),
{
    assert forall|i: int, j: int| 0 <= i < v.placed.len() && 0 <= j < v.placed.len() && i != j implies disjoint(v.placed[i], v.placed[j]) by {
        if i < j {
            assert(disjoint(v.placed[i], v.placed[j]));
        } else {
            assert(disjoint(v.placed[j], v.placed[i]));
        }
    }
}

} // verus!
