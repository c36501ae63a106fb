use nil_tiling::extent::{Bytes, Elements, Extent4D, Pixels, Samples, SampleLayout};
use nil_tiling::format::Format;

#[test]
fn sample_layout_grids() {
    assert_eq!((SampleLayout::S1x1.sa_width(), SampleLayout::S1x1.sa_height()), (1, 1));
    assert_eq!((SampleLayout::S2x1.sa_width(), SampleLayout::S2x1.sa_height()), (2, 1));
    assert_eq!((SampleLayout::S2x2.sa_width(), SampleLayout::S2x2.sa_height()), (2, 2));
    assert_eq!((SampleLayout::S4x2.sa_width(), SampleLayout::S4x2.sa_height()), (4, 2));
    assert_eq!((SampleLayout::S4x4.sa_width(), SampleLayout::S4x4.sa_height()), (4, 4));
}

#[test]
fn pixels_to_bytes_multiplies() {
    let px: Extent4D<Pixels> = Extent4D::new(10, 6, 3, 2);
    let b = px.to_B(Format { el_size_B: 4 }, SampleLayout::S2x2);
    assert_eq!((b.width, b.height, b.depth, b.array_len), (80, 12, 3, 2));
}

#[test]
fn samples_and_elements_round_trip() {
    let sa: Extent4D<Samples> = Extent4D::new(9, 5, 2, 1);
    let el = sa.to_el(Format { el_size_B: 8 });
    assert_eq!((el.width, el.height, el.depth, el.array_len), (9, 5, 2, 1));
    let back = el.to_sa(Format { el_size_B: 8 });
    assert_eq!((back.width, back.height, back.depth), (9, 5, 2));
    let px = back.to_px(SampleLayout::S2x2);
    // Partial pixels are covered: ceil(9 / 2) = 5.
    assert_eq!((px.width, px.height, px.depth), (5, 3, 2));
}

#[test]
fn elements_to_bytes_scales_width_only() {
    let el: Extent4D<Elements> = Extent4D::new(7, 5, 2, 1);
    let b: Extent4D<Bytes> = el.to_B(Format { el_size_B: 16 });
    assert_eq!((b.width, b.height, b.depth, b.array_len), (112, 5, 2, 1));
}

#[test]
fn clone_keeps_the_fields() {
    let e: Extent4D<Pixels> = Extent4D::new(1, 2, 3, 4);
    let c = e.clone();
    assert_eq!((c.width, c.height, c.depth, c.array_len), (1, 2, 3, 4));
    assert_eq!(e, c);
}
