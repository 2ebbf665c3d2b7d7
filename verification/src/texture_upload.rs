//! How texture assets are laid out for upload: the GPU format of each
//! compression, the bytes of one row (of texels, or of 4 x 4 blocks), the
//! rows of one image, and the extents of the mip levels after the first.
use vstd::prelude::*;
use crate::hzb::{level_extent, mip_level_extent};

verus! {

/// How a texture asset stores its texels.
#[derive(Debug, Clone, Copy, PartialEq, Eq, Structural)]
pub enum TextureCompression {
    /// Four bytes per texel.
    Uncompressed,
    /// 8 bytes per 4 x 4 block.
    Bc1,
    /// 16 bytes per 4 x 4 block.
    Bc3,
    /// 16 bytes per 4 x 4 block.
    Bc5,
    /// 16 bytes per 4 x 4 block.
    Bc6h,
    /// 16 bytes per 4 x 4 block.
    Bc7,
}

/// The GPU formats textures are uploaded in.
#[derive(Debug, Clone, Copy, PartialEq, Eq, Structural)]
pub enum UploadFormat {
    Rgba8UnormSrgb,
    Rgba8Unorm,
    Bc1RgbaUnormSrgb,
    Bc1RgbaUnorm,
    Bc3RgbaUnorm,
    Bc5RgUnorm,
    Bc6hRgbFloat,
    Bc7RgbaUnorm,
}

/// Blocks of four that cover `v`.
pub open spec fn blocks_of_4(v: nat) -> nat {
    v / 4 + if v % 4 == 0 {
        0nat
    } else {
        1nat
    }
}

/// Bytes of one row of a texture `width` texels wide.
pub open spec fn row_bytes(c: TextureCompression, width: nat) -> nat {
    match c {
        TextureCompression::Uncompressed => width * 4,
        TextureCompression::Bc1 => blocks_of_4(width) * 8,
        _ => blocks_of_4(width) * 16,
    }
}

/// The format of a lightmap: irradiance maps are sRGB, direction maps not;
/// BC1 is always uploaded as sRGB.
pub fn lightmap_format(c: TextureCompression, srgb: bool) -> (f: UploadFormat)
    ensures
        f == (match c {
            TextureCompression::Uncompressed => if srgb { UploadFormat::Rgba8UnormSrgb } else { UploadFormat::Rgba8Unorm },
            TextureCompression::Bc1 => UploadFormat::Bc1RgbaUnormSrgb,
            TextureCompression::Bc3 => UploadFormat::Bc3RgbaUnorm,
            TextureCompression::Bc5 => UploadFormat::Bc5RgUnorm,
            TextureCompression::Bc6h => UploadFormat::Bc6hRgbFloat,
            TextureCompression::Bc7 => UploadFormat::Bc7RgbaUnorm,
        }),
{
    match c {
        TextureCompression::Uncompressed => if srgb {
            UploadFormat::Rgba8UnormSrgb
        } else {
            UploadFormat::Rgba8Unorm
        },
        TextureCompression::Bc1 => UploadFormat::Bc1RgbaUnormSrgb,
        TextureCompression::Bc3 => UploadFormat::Bc3RgbaUnorm,
        TextureCompression::Bc5 => UploadFormat::Bc5RgUnorm,
        TextureCompression::Bc6h => UploadFormat::Bc6hRgbFloat,
        TextureCompression::Bc7 => UploadFormat::Bc7RgbaUnorm,
    }
}

/// The format of a surface-shader texture: never sRGB.
pub fn surface_format(c: TextureCompression) -> (f: UploadFormat)
    ensures
        f == (match c {
            TextureCompression::Uncompressed => UploadFormat::Rgba8Unorm,
            TextureCompression::Bc1 => UploadFormat::Bc1RgbaUnorm,
            TextureCompression::Bc3 => UploadFormat::Bc3RgbaUnorm,
            TextureCompression::Bc5 => UploadFormat::Bc5RgUnorm,
            TextureCompression::Bc6h => UploadFormat::Bc6hRgbFloat,
            TextureCompression::Bc7 => UploadFormat::Bc7RgbaUnorm,
        }),
{
    match c {
        TextureCompression::Uncompressed => UploadFormat::Rgba8Unorm,
        TextureCompression::Bc1 => UploadFormat::Bc1RgbaUnorm,
        TextureCompression::Bc3 => UploadFormat::Bc3RgbaUnorm,
        TextureCompression::Bc5 => UploadFormat::Bc5RgUnorm,
        TextureCompression::Bc6h => UploadFormat::Bc6hRgbFloat,
        TextureCompression::Bc7 => UploadFormat::Bc7RgbaUnorm,
    }
}

/// Blocks of four that cover `v`.
pub fn blocks4(v: u32) -> (b: u32)
    ensures
        b == blocks_of_4(v as nat),
{
    v / 4 + if v % 4 == 0 {
        0
    } else {
        1
    }
}

/// More texels never take fewer bytes per row.
proof fn lemma_row_bytes_monotone(c: TextureCompression, a: nat, b: nat)
    requires
        a <= b,
    ensures
        row_bytes(c, a) <= row_bytes(c, b),
{
    assert(blocks_of_4(a) <= blocks_of_4(b));
    assert(a * 4 <= b * 4);
}

/// Bytes of one row of a texture `width` texels wide.
pub fn bytes_per_row(c: TextureCompression, width: u32) -> (b: u32)
    requires
        row_bytes(c, width as nat) <= u32::MAX,
    ensures
        b == row_bytes(c, width as nat),
{
    match c {
        TextureCompression::Uncompressed => width * 4,
        TextureCompression::Bc1 => blocks4(width) * 8,
        _ => blocks4(width) * 16,
    }
}

/// Rows of one image of a surface texture: texel rows, or block rows when
/// compressed.
pub fn surface_rows_per_image(c: TextureCompression, height: u32) -> (r: u32)
    ensures
        r == (match c {
            TextureCompression::Uncompressed => height as nat,
            _ => blocks_of_4(height as nat),
        }),
{
    match c {
        TextureCompression::Uncompressed => height,
        _ => blocks4(height),
    }
}

/// One upload of a lightmap level: extent, bytes per row, rows per image.
#[derive(Debug, Clone, Copy, PartialEq, Eq, Structural)]
pub struct LevelUpload {
    pub width: u32,
    pub height: u32,
    pub bytes_per_row: u32,
    pub rows_per_image: u32,
}

/// The uploads of a lightmap with `extra_mips` stored mip levels after the
/// first: level 0 at full extent, level `i` halved `i` times (at least one
/// texel).  Rows per image count blocks of four rows at every level.
pub fn lightmap_uploads(c: TextureCompression, width: u32, height: u32, extra_mips: usize) -> (u: Vec<LevelUpload>)
    requires
        row_bytes(c, width as nat) <= u32::MAX,
        extra_mips < 32,
    ensures
        u@.len() == extra_mips + 1,
        forall|i: int|
            0 <= i < u@.len() ==> {
                let w = if i == 0 { width as nat } else { level_extent(width, i as nat) };
                let h = if i == 0 { height as nat } else { level_extent(height, i as nat) };
                &&& #[trigger] u@[i].width == w
                &&& u@[i].height == h
                &&& u@[i].bytes_per_row == row_bytes(c, w)
                &&& u@[i].rows_per_image == blocks_of_4(h)
            },
{
    let mut u: Vec<LevelUpload> = Vec::new();
    u.push(LevelUpload { width, height, bytes_per_row: bytes_per_row(c, width), rows_per_image: blocks4(height) });
    let mut m: usize = 0;
    while m < extra_mips
        invariant
            m <= extra_mips,
            extra_mips < 32,
            row_bytes(c, width as nat) <= u32::MAX,
            u@.len() == m + 1,
            forall|i: int|
                0 <= i < u@.len() ==> {
                    let w = if i == 0 { width as nat } else { level_extent(width, i as nat) };
                    let h = if i == 0 { height as nat } else { level_extent(height, i as nat) };
                    &&& #[trigger] u@[i].width == w
                    &&& u@[i].height == h
                    &&& u@[i].bytes_per_row == row_bytes(c, w)
                    &&& u@[i].rows_per_image == blocks_of_4(h)
                },
        decreases extra_mips - m,
    {
        let level = (m + 1) as u32;
        let w = mip_level_extent(width, level);
        let h = mip_level_extent(height, level);
        proof {
            vstd::arithmetic::power2::lemma_pow2_pos(level as nat);
            vstd::arithmetic::div_mod::lemma_div_is_ordered_by_denominator(width as int, 1, vstd::arithmetic::power2::pow2(level as nat) as int);
            if width >= 1 {
                lemma_row_bytes_monotone(c, w as nat, width as nat);
            }
        }
        u.push(LevelUpload { width: w, height: h, bytes_per_row: bytes_per_row(c, w), rows_per_image: blocks4(h) });
        m = m + 1;
    }
    u
}

/// Video memory counted for an uploaded lightmap: four bytes per texel,
/// and a third more for the mip chain of an irradiance map.
pub fn lightmap_vram_bytes(width: u32, height: u32, irradiance: bool) -> (b: u64)
    requires
        width * height * 4 <= u32::MAX,
    ensures
        b == (if irradiance { width * height * 4 * 4 / 3 } else { width * height * 4 }),
{
    let texels = (width * height * 4) as u64;
    if irradiance {
        texels * 4 / 3
    } else {
        texels
    }
}

/// Bits a texel takes in each storage: 32 uncompressed, 4 in BC1 (8 bytes
/// per 4 x 4 block), 8 in BC3, BC5, BC6H and BC7 (16 bytes per block).
pub open spec fn bits_per_texel(c: TextureCompression) -> nat {
    match c {
        TextureCompression::Uncompressed => 32,
        TextureCompression::Bc1 => 4,
        TextureCompression::Bc3 => 8,
        TextureCompression::Bc5 => 8,
        TextureCompression::Bc6h => 8,
        TextureCompression::Bc7 => 8,
    }
}

/// A row holds the texels of the storage's row: one texel row when
/// uncompressed, four texel rows (one row of 4 x 4 blocks) when block
/// compressed, at the storage's bits per texel.  A width that is not a
/// multiple of four is padded to whole blocks.
pub proof fn lemma_row_bytes_match_texel_size(c: TextureCompression, width: nat)
    ensures
        c == TextureCompression::Uncompressed ==> 8 * row_bytes(c, width) == width * bits_per_texel(c),
        c != TextureCompression::Uncompressed ==> 8 * row_bytes(c, width) == 4 * (4 * blocks_of_4(width)) * bits_per_texel(c),
        c != TextureCompression::Uncompressed ==> width <= 4 * blocks_of_4(width) < width + 4,
{
}

} // verus!
