use nil_tiling::extent::{Extent4D, SampleLayout};
use nil_tiling::format::Format;
use nil_tiling::image::{ImageDim, IMAGE_USAGE_2D_VIEW_BIT, IMAGE_USAGE_LINEAR_BIT};
use nil_tiling::tiling::{
    gob_height, sparse_block_extent_el, sparse_block_extent_px, sparse_block_extent_B, Tiling,
    TilingError,
};

fn tiled(gob_height_is_8: bool, x_log2: u8, y_log2: u8, z_log2: u8) -> Tiling {
    Tiling { is_tiled: true, gob_height_is_8, x_log2, y_log2, z_log2 }
}

#[test]
fn gob_height_is_8_or_4() {
    assert_eq!(gob_height(true), 8);
    assert_eq!(gob_height(false), 4);
}

#[test]
fn extent_b_of_tiled_and_linear() {
    let t = tiled(true, 0, 5, 5);
    let e = t.extent_B();
    assert_eq!((e.width, e.height, e.depth, e.array_len), (64, 256, 32, 1));
    assert_eq!(t.size_B(), 64 * 256 * 32);

    let linear = Tiling::default();
    let e = linear.extent_B();
    assert_eq!((e.width, e.height, e.depth, e.array_len), (1, 1, 1, 1));
    assert_eq!(linear.size_B(), 1);
}

#[test]
fn clamp_shrinks_to_level() {
    // A level of 100x20x1 bytes against the maximal 2D block shape.
    let t = tiled(true, 0, 5, 0);
    let clamped = t.clamp(Extent4D::new(100, 20, 1, 1));
    // 20 rows are ceil(20/8) = 3 GOBs; ceil(log2(3)) = 2.
    assert_eq!(clamped, tiled(true, 0, 2, 0));

    // A level wider and taller than one tile keeps the shape.
    let kept = t.clamp(Extent4D::new(4096, 4096, 1, 1));
    assert_eq!(kept, t);

    // A level narrower than one tile loses its x blocking.
    let narrow = tiled(true, 2, 1, 0).clamp(Extent4D::new(100, 4096, 1, 1));
    assert_eq!(narrow, tiled(true, 0, 1, 0));
}

#[test]
fn clamp_is_idempotent_on_samples() {
    let extents = [
        Extent4D::new(100, 20, 1, 1),
        Extent4D::new(1, 1, 1, 1),
        Extent4D::new(4096, 4096, 64, 1),
        Extent4D::new(64, 8, 1, 1),
    ];
    let tilings = [
        tiled(true, 0, 5, 5),
        tiled(true, 2, 3, 1),
        tiled(false, 0, 4, 0),
        Tiling::default(),
    ];
    for t in tilings {
        for e in extents {
            let once = t.clamp(e);
            assert_eq!(once.clamp(e), once);
        }
    }
}

#[test]
fn clamp_of_linear_is_identity() {
    let linear = Tiling::default();
    assert_eq!(linear.clamp(Extent4D::new(7, 7, 7, 1)), linear);
}

#[test]
fn sparse_covers_exactly_the_documented_sizes() {
    // 2D table, in elements.
    let cases_2d = [(1u32, (256, 256, 1)), (2, (256, 128, 1)), (4, (128, 128, 1)), (
        8,
        (128, 64, 1),
    ), (16, (64, 64, 1))];
    for (el, dims) in cases_2d {
        let e = sparse_block_extent_el(Format { el_size_B: el }, ImageDim::D2).unwrap();
        assert_eq!((e.width, e.height, e.depth, e.array_len), (dims.0, dims.1, dims.2, 1));
    }
    // 3D table, in elements.
    let cases_3d = [(1u32, (64, 32, 32)), (2, (32, 32, 32)), (4, (32, 32, 16)), (8, (32, 16, 16)), (
        16,
        (16, 16, 16),
    )];
    for (el, dims) in cases_3d {
        let e = sparse_block_extent_el(Format { el_size_B: el }, ImageDim::D3).unwrap();
        assert_eq!((e.width, e.height, e.depth, e.array_len), (dims.0, dims.1, dims.2, 1));
    }
    // Any other bit width is rejected.
    for el in [0u32, 3, 5, 6, 7, 9, 12, 17, 32, 1000] {
        for dim in [ImageDim::D2, ImageDim::D3] {
            assert_eq!(
                sparse_block_extent_el(Format { el_size_B: el }, dim),
                Err(TilingError::UnsupportedTexelSize)
            );
            assert_eq!(Tiling::sparse(Format { el_size_B: el }, dim), Err(
                TilingError::UnsupportedTexelSize,
            ));
        }
    }
    // So is a 1D image.
    assert_eq!(
        sparse_block_extent_el(Format { el_size_B: 4 }, ImageDim::D1),
        Err(TilingError::UnsupportedDimension)
    );
    assert_eq!(Tiling::sparse(Format { el_size_B: 4 }, ImageDim::D1), Err(
        TilingError::UnsupportedDimension,
    ));
}

#[test]
fn sparse_tilings_match_the_block_shapes() {
    assert_eq!(Tiling::sparse(Format { el_size_B: 1 }, ImageDim::D2), Ok(tiled(true, 2, 5, 0)));
    assert_eq!(Tiling::sparse(Format { el_size_B: 2 }, ImageDim::D2), Ok(tiled(true, 3, 4, 0)));
    assert_eq!(Tiling::sparse(Format { el_size_B: 4 }, ImageDim::D2), Ok(tiled(true, 3, 4, 0)));
    assert_eq!(Tiling::sparse(Format { el_size_B: 8 }, ImageDim::D2), Ok(tiled(true, 4, 3, 0)));
    assert_eq!(Tiling::sparse(Format { el_size_B: 16 }, ImageDim::D2), Ok(tiled(true, 4, 3, 0)));
    assert_eq!(Tiling::sparse(Format { el_size_B: 1 }, ImageDim::D3), Ok(tiled(true, 0, 2, 5)));
    assert_eq!(Tiling::sparse(Format { el_size_B: 2 }, ImageDim::D3), Ok(tiled(true, 0, 2, 5)));
    assert_eq!(Tiling::sparse(Format { el_size_B: 4 }, ImageDim::D3), Ok(tiled(true, 1, 2, 4)));
    assert_eq!(Tiling::sparse(Format { el_size_B: 8 }, ImageDim::D3), Ok(tiled(true, 2, 1, 4)));
    assert_eq!(Tiling::sparse(Format { el_size_B: 16 }, ImageDim::D3), Ok(tiled(true, 2, 1, 4)));
}

#[test]
fn sparse_block_extent_px_scales_by_sample_layout() {
    let e = sparse_block_extent_px(Format { el_size_B: 4 }, ImageDim::D2, SampleLayout::S2x2)
        .unwrap();
    assert_eq!((e.width, e.height, e.depth), (64, 64, 1));
    let b = sparse_block_extent_B(Format { el_size_B: 4 }, ImageDim::D2).unwrap();
    assert_eq!((b.width, b.height, b.depth), (512, 128, 1));
}

#[test]
fn choose_linear_usage_is_untiled() {
    // With the linear-only bit set the result is the exact default,
    // whatever else is asked for.
    let t = Tiling::choose_tiling(
        Extent4D::new(4096, 4096, 16, 1),
        Format { el_size_B: 16 },
        SampleLayout::S4x4,
        IMAGE_USAGE_LINEAR_BIT | IMAGE_USAGE_2D_VIEW_BIT | 0x700,
    );
    assert_eq!(t, Tiling::default());
}

#[test]
fn choose_flattens_2d_view_and_clamps() {
    // A big 3D image keeps the maximal block shape.
    let big = Tiling::choose_tiling(
        Extent4D::new(4096, 4096, 64, 1),
        Format { el_size_B: 1 },
        SampleLayout::S1x1,
        0,
    );
    assert_eq!(big, tiled(true, 0, 5, 5));

    // 2D-view compatibility forces the block depth to one slice.
    let flat = Tiling::choose_tiling(
        Extent4D::new(4096, 4096, 64, 1),
        Format { el_size_B: 1 },
        SampleLayout::S1x1,
        IMAGE_USAGE_2D_VIEW_BIT,
    );
    assert_eq!(flat, tiled(true, 0, 5, 0));

    // A small level is clamped: 20 rows are 3 GOBs, 1 slice is 1 GOB.
    let small = Tiling::choose_tiling(
        Extent4D::new(100, 20, 1, 1),
        Format { el_size_B: 1 },
        SampleLayout::S1x1,
        0,
    );
    assert_eq!(small, tiled(true, 0, 2, 0));
}

#[test]
fn to_gob_and_to_tl_round_up() {
    let e: Extent4D<nil_tiling::extent::Bytes> = Extent4D::new(100, 20, 3, 1);
    let g = e.to_GOB(true);
    assert_eq!((g.width, g.height, g.depth, g.array_len), (2, 3, 3, 1));
    let g4 = e.to_GOB(false);
    assert_eq!((g4.width, g4.height, g4.depth), (2, 5, 3));

    let t = tiled(true, 0, 1, 0);
    let px: Extent4D<nil_tiling::extent::Pixels> = Extent4D::new(100, 20, 3, 1);
    let tl = px.to_tl(&t, Format { el_size_B: 2 }, SampleLayout::S1x1);
    // 200 bytes wide -> 4 tiles; 20 rows over 16-row tiles -> 2; depth 3.
    assert_eq!((tl.width, tl.height, tl.depth, tl.array_len), (4, 2, 3, 1));
}
