use nil_tiling::gr::{
    Alpha, AspectRatio, Color, ColorFormat, CullMode, TextureFormat, LOD,
};

#[test]
fn to_rgba_unpacks_each_order() {
    let c = Color(0x11223344);
    assert_eq!(c.to_rgba(ColorFormat::Argb), (0x22, 0x33, 0x44, 0x11));
    assert_eq!(c.to_rgba(ColorFormat::Abgr), (0x44, 0x33, 0x22, 0x11));
    assert_eq!(c.to_rgba(ColorFormat::Rgba), (0x11, 0x22, 0x33, 0x44));
    assert_eq!(c.to_rgba(ColorFormat::Bgra), (0x33, 0x22, 0x11, 0x44));
}

#[test]
fn alpha_as_u8_is_the_raw_byte() {
    assert_eq!(Alpha(0x7f).as_u8(), 0x7f);
    assert_eq!(Alpha(0).as_u8(), 0);
}

#[test]
fn lod_sizes() {
    assert_eq!(LOD::L256.to_size(), 256);
    assert_eq!(LOD::L32.to_size(), 32);
    assert_eq!(LOD::L1.to_size(), 1);
}

#[test]
fn texture_sizes_follow_the_aspect() {
    assert_eq!(LOD::L256.to_texture_size(AspectRatio::A8x1), (256, 32));
    assert_eq!(LOD::L256.to_texture_size(AspectRatio::A1x1), (256, 256));
    assert_eq!(LOD::L64.to_texture_size(AspectRatio::A1x4), (16, 64));
    assert_eq!(LOD::L8.to_texture_size(AspectRatio::A2x1), (8, 4));
}

#[test]
fn bytes_per_pixel_by_format() {
    assert_eq!(TextureFormat::Rgb332.bytes_per_pixel(), 1);
    assert_eq!(TextureFormat::P8.bytes_per_pixel(), 1);
    assert_eq!(TextureFormat::Rgb565.bytes_per_pixel(), 2);
    assert_eq!(TextureFormat::Argb4444.bytes_per_pixel(), 2);
    assert_eq!(TextureFormat::Ap88.bytes_per_pixel(), 2);
}

#[test]
fn defaults() {
    assert_eq!(ColorFormat::default(), ColorFormat::Argb);
    assert_eq!(CullMode::default(), CullMode::Disable);
}
