use lunar_render::texture_upload::{
    blocks4, bytes_per_row, lightmap_format, lightmap_uploads, lightmap_vram_bytes, surface_format,
    surface_rows_per_image, LevelUpload, TextureCompression, UploadFormat,
};

#[test]
fn texture_rows_by_compression() {
    assert_eq!(blocks4(0), 0);
    assert_eq!(blocks4(5), 2);
    assert_eq!(bytes_per_row(TextureCompression::Uncompressed, 100), 400);
    assert_eq!(bytes_per_row(TextureCompression::Bc1, 100), 200);
    assert_eq!(bytes_per_row(TextureCompression::Bc7, 101), 416);
    assert_eq!(surface_rows_per_image(TextureCompression::Uncompressed, 30), 30);
    assert_eq!(surface_rows_per_image(TextureCompression::Bc5, 30), 8);
}

#[test]
fn texture_formats_for_lightmaps_and_surfaces() {
    assert_eq!(lightmap_format(TextureCompression::Uncompressed, true), UploadFormat::Rgba8UnormSrgb);
    assert_eq!(lightmap_format(TextureCompression::Uncompressed, false), UploadFormat::Rgba8Unorm);
    assert_eq!(lightmap_format(TextureCompression::Bc1, false), UploadFormat::Bc1RgbaUnormSrgb);
    assert_eq!(surface_format(TextureCompression::Bc1), UploadFormat::Bc1RgbaUnorm);
    assert_eq!(surface_format(TextureCompression::Bc6h), UploadFormat::Bc6hRgbFloat);
}

#[test]
fn texture_lightmap_levels_halve() {
    let u = lightmap_uploads(TextureCompression::Bc1, 64, 16, 3);
    assert_eq!(
        u,
        vec![
            LevelUpload { width: 64, height: 16, bytes_per_row: 128, rows_per_image: 4 },
            LevelUpload { width: 32, height: 8, bytes_per_row: 64, rows_per_image: 2 },
            LevelUpload { width: 16, height: 4, bytes_per_row: 32, rows_per_image: 1 },
            LevelUpload { width: 8, height: 2, bytes_per_row: 16, rows_per_image: 1 },
        ]
    );
    let plain = lightmap_uploads(TextureCompression::Uncompressed, 3, 3, 2);
    assert_eq!(plain[0], LevelUpload { width: 3, height: 3, bytes_per_row: 12, rows_per_image: 1 });
    assert_eq!(plain[2], LevelUpload { width: 1, height: 1, bytes_per_row: 4, rows_per_image: 1 });
}

#[test]
fn texture_lightmap_vram() {
    assert_eq!(lightmap_vram_bytes(64, 64, true), 21845);
    assert_eq!(lightmap_vram_bytes(64, 64, false), 16384);
}
