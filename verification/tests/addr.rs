use nil_tiling::tiling::Tiling;

fn tiled(x_log2: u8, y_log2: u8, z_log2: u8) -> Tiling {
    Tiling { is_tiled: true, gob_height_is_8: true, x_log2, y_log2, z_log2 }
}

#[test]
fn pixel_offset_interleave() {
    // The 9-bit interleave x5 y2 y1 x4 y0 x3 x2 x1 x0, bit 0 first.
    assert_eq!(Tiling::get_pixel_offset(0, 0), 0);
    assert_eq!(Tiling::get_pixel_offset(15, 0), 15);
    assert_eq!(Tiling::get_pixel_offset(0, 1), 16);
    assert_eq!(Tiling::get_pixel_offset(16, 0), 32);
    assert_eq!(Tiling::get_pixel_offset(0, 2), 64);
    assert_eq!(Tiling::get_pixel_offset(0, 4), 128);
    assert_eq!(Tiling::get_pixel_offset(32, 0), 256);
    assert_eq!(Tiling::get_pixel_offset(63, 7), 511);
    // The interleave sees only x % 64 and y % 8.
    assert_eq!(Tiling::get_pixel_offset(64 + 6, 8 + 2), Tiling::get_pixel_offset(6, 2));
}

#[test]
fn documented_2d_scenario() {
    // A 2D tiled surface, 8-row GOBs, x_log2 = 0, y_log2 = 2, for the
    // point 70 bytes in and 10 rows down.
    let t = tiled(0, 2, 0);
    let row_stride = 4;
    let slice_stride = 4;

    // block_x = 70 >> 6 = 1, block_y = 10 >> (3 + 2) = 0.
    assert_eq!(Tiling::get_block_offset(70, 10, 0, row_stride, slice_stride, t), 1);
    // gob_x = (70 >> 0) & 0 = 0, gob_y = (10 >> 3) & 3 = 1.
    assert_eq!(Tiling::get_gob_offset(70, 10, 0, 0, 3, 0, t), 1);
    // In-GOB offset of local (x = 6, y = 2) is 70.
    assert_eq!(Tiling::get_pixel_offset(70, 10), 70);
    // The tiers are additive: 1 * 2048 + 1 * 512 + 70.
    assert_eq!(t.size_B(), 2048);
    assert_eq!(Tiling::get_tiled_offset(70, 10, 0, row_stride, slice_stride, t), 2048 + 512 + 70);
}

#[test]
fn block_offset_steps() {
    let t = tiled(0, 2, 1);
    let rs = 7;
    let ss = 35;
    let base = Tiling::get_block_offset(70, 100, 9, rs, ss, t);
    // One block width (64 bytes, x_log2 = 0) advances the index by 1.
    assert_eq!(Tiling::get_block_offset(70 + 64, 100, 9, rs, ss, t), base + 1);
    // One block height (8 << 2 rows) advances it by the row stride.
    assert_eq!(Tiling::get_block_offset(70, 100 + 32, 9, rs, ss, t), base + rs);
    // One block depth (1 << 1 slices) advances it by the slice stride.
    assert_eq!(Tiling::get_block_offset(70, 100, 9 + 2, rs, ss, t), base + ss);
}

#[test]
fn byte_offset_is_row_major() {
    assert_eq!(Tiling::get_byte_offset(3, 2, 1, 100, 1000), 3 + 200 + 1000);
    assert_eq!(Tiling::get_byte_offset(0, 0, 0, 100, 1000), 0);
}

#[test]
fn gob_offset_orders_y_then_z() {
    let t = tiled(0, 2, 2);
    // gob index = ((y >> 3) & 3) + ((z & 3) << 2).
    assert_eq!(Tiling::get_gob_offset(0, 0, 0, 0, 3, 3, t), 0);
    assert_eq!(Tiling::get_gob_offset(0, 8, 0, 0, 3, 3, t), 1);
    assert_eq!(Tiling::get_gob_offset(0, 0, 1, 0, 3, 3, t), 4);
    assert_eq!(Tiling::get_gob_offset(0, 24, 3, 0, 3, 3, t), 15);
}
