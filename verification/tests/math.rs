use nil_tiling::math::{align, div_round_up, gcd, ilog2_ceil, SetBitIndices};

#[test]
fn gcd_test() {
    assert_eq!(gcd(5, 15), 5);
    assert_eq!(gcd(7, 15), 1);
    assert_eq!(gcd(60, 45), 15);
}

#[test]
fn align_test() {
    assert_eq!(align(0x1, 0x4), 0x4);
    assert_eq!(align(0x8, 0x2), 0x8);
    assert_eq!(align(0x7, 0x200), 0x200);
}

#[test]
fn align_multiple_is_kept() {
    assert_eq!(align(0x40, 0x40), 0x40);
    assert_eq!(align(0, 8), 0);
}

#[test]
fn div_round_up_rounds_up() {
    assert_eq!(div_round_up(0, 4), 0);
    assert_eq!(div_round_up(1, 4), 1);
    assert_eq!(div_round_up(4, 4), 1);
    assert_eq!(div_round_up(5, 4), 2);
    assert_eq!(div_round_up(256, 64), 4);
    assert_eq!(div_round_up(257, 64), 5);
}

#[test]
fn ilog2_ceil_values() {
    assert_eq!(ilog2_ceil(0), 0);
    assert_eq!(ilog2_ceil(1), 0);
    assert_eq!(ilog2_ceil(2), 1);
    assert_eq!(ilog2_ceil(3), 2);
    assert_eq!(ilog2_ceil(4), 2);
    assert_eq!(ilog2_ceil(5), 3);
    assert_eq!(ilog2_ceil(32), 5);
    assert_eq!(ilog2_ceil(u32::MAX), 32);
}

#[test]
fn set_bit_indices_walks_down() {
    let mut bits = SetBitIndices::from_msb(0b1010_0001u32);
    assert_eq!(bits.next(), Some(7));
    assert_eq!(bits.next(), Some(5));
    assert_eq!(bits.next(), Some(0));
    assert_eq!(bits.next(), None);
    assert_eq!(bits.next(), None);
}
