use nil_tiling::copy::CopyError;
use nil_tiling::extent::{Extent4D, Pixels, SampleLayout};
use nil_tiling::format::Format;
use nil_tiling::image::{Image, ImageLevel};
use nil_tiling::tiling::Tiling;

fn tiled(y_log2: u8, z_log2: u8) -> Tiling {
    Tiling { is_tiled: true, gob_height_is_8: true, x_log2: 0, y_log2, z_log2 }
}

/// A one-level image, 1 byte per element, one sample per pixel.
fn image(tiling: Tiling, w: u32, h: u32, d: u32) -> Image {
    Image {
        format: Format { el_size_B: 1 },
        sample_layout: SampleLayout::S1x1,
        levels: vec![ImageLevel { tiling, extent_px: Extent4D::new(w, h, d, 1) }],
    }
}

fn ext(w: u32, h: u32, d: u32) -> Extent4D<Pixels> {
    Extent4D::new(w, h, d, 1)
}

/// Bytes a tiled level needs: whole blocks.
fn tiled_len(t: Tiling, w: usize, h: usize, d: usize) -> usize {
    let tile_h = 8usize << t.y_log2;
    let tile_d = 1usize << t.z_log2;
    let rs = w.div_ceil(64);
    let hs = h.div_ceil(tile_h);
    let ds = d.div_ceil(tile_d);
    rs * hs * ds * (t.size_B() as usize)
}

fn pattern(len: usize, seed: u8) -> Vec<u8> {
    (0..len).map(|i| (i as u8).wrapping_mul(31).wrapping_add(seed)).collect()
}

#[test]
fn upload_places_bytes_at_translated_addresses() {
    // 256 bytes wide, 20 rows; blocks are 64 bytes by 32 rows.
    let t = tiled(2, 0);
    let img = image(t, 256, 20, 1);
    let src = pattern(256 * 20, 7);
    let mut dst = vec![0u8; tiled_len(t, 256, 20, 1)];

    Tiling::linear_to_tiled(ext(0, 0, 0), ext(256, 20, 1), 0, &img, 256, 256 * 20, 1, &src, &mut dst)
        .unwrap();
    // The point 70 bytes in, 10 rows down lands at
    // block 1 * 2048 + gob 1 * 512 + interleave 70.
    assert_eq!(dst[2048 + 512 + 70], src[70 + 10 * 256]);
    // The origin lands at offset zero.
    assert_eq!(dst[0], src[0]);
}

#[test]
fn round_trip_returns_the_source() {
    let t = tiled(1, 0);
    let img = image(t, 200, 20, 3);
    // Wide enough that the tile-granular path has whole GOBs to move.
    let (w, h, d) = (140usize, 10usize, 2usize);
    let pitch = 150usize;
    let slice = 2000usize;
    let src = pattern(w + (h - 1) * pitch + (d - 1) * slice, 3);
    let mut gpu = vec![0xaau8; tiled_len(t, 200, 20, 3)];

    Tiling::linear_to_tiled(
        ext(5, 3, 1),
        ext(w as u32, h as u32, d as u32),
        0,
        &img,
        pitch,
        slice,
        1,
        &src,
        &mut gpu,
    )
        .unwrap();
    let mut back = vec![0u8; w * h * d];
    Tiling::tiled_to_linear(ext(5, 3, 1), ext(w as u32, h as u32, d as u32), 0, &img, &gpu, &mut back)
        .unwrap();
    for z in 0..d {
        for y in 0..h {
            for x in 0..w {
                assert_eq!(back[x + y * w + z * w * h], src[x + y * pitch + z * slice]);
            }
        }
    }
}

#[test]
fn strategies_agree_byte_for_byte() {
    let t = tiled(1, 1);
    let img = image(t, 150, 37, 5);
    // An unaligned region that still spans whole GOBs, so the bulk path
    // and all four boundary strips run.
    let (w, h, d) = (130u32, 23u32, 4u32);
    let pitch = 140usize;
    let slice = 4000usize;
    let src = pattern(130 + 22 * pitch + 3 * slice, 11);

    let mut bulk = vec![0x55u8; tiled_len(t, 150, 37, 5)];
    let mut per_px = bulk.clone();
    Tiling::linear_to_tiled(ext(3, 2, 1), ext(w, h, d), 0, &img, pitch, slice, 1, &src, &mut bulk)
        .unwrap();
    Tiling::linear_to_tiled_per_pixel(
        ext(3, 2, 1),
        ext(w, h, d),
        0,
        &img,
        pitch,
        slice,
        1,
        &src,
        &mut per_px,
    )
        .unwrap();
    assert_eq!(bulk, per_px);

    let mut down_bulk = vec![0x11u8; (w * h * d) as usize];
    let mut down_px = down_bulk.clone();
    Tiling::tiled_to_linear(ext(3, 2, 1), ext(w, h, d), 0, &img, &bulk, &mut down_bulk).unwrap();
    Tiling::tiled_to_linear_per_pixel(ext(3, 2, 1), ext(w, h, d), 0, &img, &bulk, &mut down_px)
        .unwrap();
    assert_eq!(down_bulk, down_px);
}

#[test]
fn linear_level_copies_row_major() {
    let img = image(Tiling::default(), 40, 10, 2);
    let src = pattern(40 * 10 * 2, 5);
    let mut dst = vec![0u8; 40 * 10 * 2];
    Tiling::linear_to_tiled(ext(0, 0, 0), ext(40, 10, 2), 0, &img, 40, 400, 1, &src, &mut dst)
        .unwrap();
    assert_eq!(dst, src);

    let mut back = vec![0u8; 40 * 10 * 2];
    Tiling::tiled_to_linear(ext(0, 0, 0), ext(40, 10, 2), 0, &img, &dst, &mut back).unwrap();
    assert_eq!(back, src);
}

#[test]
fn untouched_bytes_stay() {
    let t = tiled(0, 0);
    let img = image(t, 128, 16, 1);
    let src = pattern(8 * 4, 1);
    let mut dst = vec![0xeeu8; tiled_len(t, 128, 16, 1)];
    // A small unaligned region.
    Tiling::linear_to_tiled(ext(3, 2, 0), ext(8, 4, 1), 0, &img, 8, 32, 1, &src, &mut dst).unwrap();
    // A byte of a far-away block is untouched.
    assert_eq!(dst[tiled_len(t, 128, 16, 1) - 1], 0xee);
}

#[test]
fn zero_extent_is_a_no_op() {
    let img = image(tiled(0, 0), 64, 8, 1);
    let src: Vec<u8> = vec![];
    let mut dst = vec![0x42u8; 512];
    // Even nonsense arguments are fine when nothing is copied.
    assert_eq!(
        Tiling::linear_to_tiled(ext(0, 0, 0), ext(0, 8, 1), 9, &img, 0, 0, 1, &src, &mut dst),
        Ok(())
    );
    assert_eq!(dst, vec![0x42u8; 512]);
    assert_eq!(
        Tiling::tiled_to_linear(ext(0, 0, 0), ext(5, 0, 1), 9, &img, &src, &mut dst),
        Ok(())
    );
}

#[test]
fn each_error_is_reported() {
    let t = tiled(0, 0);
    let img = image(t, 64, 8, 1);
    let src = pattern(64 * 8, 2);
    let mut dst = vec![0u8; 512];

    // The level must exist.
    assert_eq!(
        Tiling::linear_to_tiled(ext(0, 0, 0), ext(4, 4, 1), 1, &img, 4, 16, 1, &src, &mut dst),
        Err(CopyError::InvalidMipLevel)
    );
    // 4-row GOBs are not addressable by this engine.
    let gob4 = Tiling { is_tiled: true, gob_height_is_8: false, x_log2: 0, y_log2: 1, z_log2: 0 };
    assert_eq!(
        Tiling::linear_to_tiled(
            ext(0, 0, 0),
            ext(4, 4, 1),
            0,
            &image(gob4, 64, 8, 1),
            4,
            16,
            1,
            &src,
            &mut dst,
        ),
        Err(CopyError::UnsupportedTiling)
    );
    // The region must fit in the level.
    assert_eq!(
        Tiling::linear_to_tiled(ext(60, 0, 0), ext(5, 4, 1), 0, &img, 5, 20, 1, &src, &mut dst),
        Err(CopyError::OutOfBounds)
    );
    // The source must hold the region.
    let tiny = vec![0u8; 3];
    assert_eq!(
        Tiling::linear_to_tiled(ext(0, 0, 0), ext(4, 4, 1), 0, &img, 4, 16, 1, &tiny, &mut dst),
        Err(CopyError::SourceTooSmall)
    );
    // The destination must hold the whole level.
    let mut small = vec![0u8; 511];
    assert_eq!(
        Tiling::linear_to_tiled(ext(0, 0, 0), ext(4, 4, 1), 0, &img, 4, 16, 1, &src, &mut small),
        Err(CopyError::DestinationTooSmall)
    );

    // The download direction reports sizes the same way.
    let gpu = vec![0u8; 511];
    let mut out = vec![0u8; 64];
    assert_eq!(
        Tiling::tiled_to_linear(ext(0, 0, 0), ext(4, 4, 1), 0, &img, &gpu, &mut out),
        Err(CopyError::SourceTooSmall)
    );
    let gpu = vec![0u8; 512];
    let mut out = vec![0u8; 15];
    assert_eq!(
        Tiling::tiled_to_linear(ext(0, 0, 0), ext(4, 4, 1), 0, &img, &gpu, &mut out),
        Err(CopyError::DestinationTooSmall)
    );
}

#[test]
fn multisampled_regions_convert_to_samples() {
    // 2x2 samples per pixel, 2 bytes per element: a 10-pixel-wide region
    // spans 40 bytes.
    let t = tiled(0, 0);
    let img = Image {
        format: Format { el_size_B: 2 },
        sample_layout: SampleLayout::S2x2,
        levels: vec![ImageLevel { tiling: t, extent_px: Extent4D::new(32, 8, 1, 1) }],
    };
    // Level: 32 px * 2 sa * 2 B = 128 bytes wide, 16 sample rows.
    let src = pattern(40 * 8, 9);
    let mut dst = vec![0u8; tiled_len(t, 128, 16, 1)];
    Tiling::linear_to_tiled(ext(0, 0, 0), ext(10, 4, 1), 0, &img, 40, 320, 2, &src, &mut dst)
        .unwrap();
    let mut back = vec![0u8; 40 * 8];
    Tiling::tiled_to_linear(ext(0, 0, 0), ext(10, 4, 1), 0, &img, &dst, &mut back).unwrap();
    // The packed download equals the packed upload source: pitch was 40.
    assert_eq!(back, src);
}
