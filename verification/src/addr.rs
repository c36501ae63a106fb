//! Two-tier tiled address translation: which block a point falls in, which
//! GOB of that block, and where inside the 512-byte GOB the hardware's bit
//! interleave puts it.  `x` is measured in bytes, `y` in rows, `z` in
//! slices throughout.

use vstd::prelude::*;

verus! {

use vstd::arithmetic::div_mod::{
    lemma_div_denominator, lemma_div_plus_one, lemma_fundamental_div_mod,
    lemma_fundamental_div_mod_converse,
};
use vstd::arithmetic::power2::{lemma2_to64, lemma_pow2_adds, lemma_pow2_pos, pow2};
use vstd::bits::{lemma_usize_low_bits_mask_is_mod, lemma_usize_shl_is_mul, lemma_usize_shr_is_div, low_bits_mask};
use crate::tiling::Tiling;

/// Every GOB holds 512 bytes.
pub const GOB_SIZE_B: u32 = 512;

/// The in-GOB byte offset of a point, from `x % 64` and `y % 8`: the fixed
/// 9-bit interleave `x5 y2 y1 x4 y0 x3 x2 x1 x0` (least significant bit
/// first).
pub open spec fn spec_pixel_offset(x: int, y: int) -> int {
    x % 16 + (y % 2) * 16 + ((x / 16) % 2) * 32 + ((y / 2) % 2) * 64 + ((y / 4) % 2) * 128 + ((x
        / 32) % 2) * 256
}

/// The linear (row-major) byte offset of a point.
pub open spec fn spec_byte_offset(x: int, y: int, z: int, row_stride_B: int, slice_stride_B: int) -> int {
    x + y * row_stride_B + z * slice_stride_B
}

/// Which block of the row-major block grid holds a point: blocks are one
/// GOB (64 bytes) wide, `8 << y_log2` rows tall and `1 << z_log2` slices
/// deep, and the strides count blocks per row and per slice of the grid.
pub open spec fn spec_block_offset(
    x: int,
    y: int,
    z: int,
    row_stride_tl: int,
    slice_stride_tl: int,
    t: Tiling,
) -> int {
    x / 64 + (y / (8 * pow2(t.y_log2 as nat) as int)) * row_stride_tl + (z / (pow2(
        t.z_log2 as nat,
    ) as int)) * slice_stride_tl
}

/// Which GOB of its block holds a point: the block's GOBs form a column,
/// `y` first, then `z`.
pub open spec fn spec_gob_offset(x: int, y: int, z: int, t: Tiling) -> int {
    (x / (pow2(t.x_log2 as nat) as int)) % (pow2(t.x_log2 as nat) as int) + (y / 8) % (pow2(
        t.y_log2 as nat,
    ) as int) + (z % (pow2(t.z_log2 as nat) as int)) * (pow2(t.y_log2 as nat) as int)
}

/// The composed translation: the three tiers are additive.
pub open spec fn spec_tiled_offset(
    x: int,
    y: int,
    z: int,
    row_stride_tl: int,
    slice_stride_tl: int,
    t: Tiling,
) -> int {
    spec_block_offset(x, y, z, row_stride_tl, slice_stride_tl, t) * t.spec_size_B()
        + spec_gob_offset(x, y, z, t) * GOB_SIZE_B + spec_pixel_offset(x, y)
}

impl Tiling {
    /// Byte offset of a point inside its GOB, by the hardware's bit
    /// interleave of the low bits of (x, y).
    pub fn get_pixel_offset(x: usize, y: usize) -> (r: usize)
        ensures
            r == spec_pixel_offset(x as int, y as int),
            r < 512,
    {
        proof {
            assert(((x & 15) | ((y & 1) << 4usize) | ((x & 16) << 1usize) | ((y & 2) << 5usize) | (
            (y & 4) << 5usize) | ((x & 32) << 3usize)) == x % 16 + (y % 2) * 16 + ((x / 16) % 2)
                * 32 + ((y / 2) % 2) * 64 + ((y / 4) % 2) * 128 + ((x / 32) % 2) * 256 && ((x & 15)
                | ((y & 1) << 4usize) | ((x & 16) << 1usize) | ((y & 2) << 5usize) | ((y & 4)
                << 5usize) | ((x & 32) << 3usize)) < 512) by (bit_vector);
        }
        (x & 15) | ((y & 1) << 4usize) | ((x & 16) << 1usize) | ((y & 2) << 5usize) | ((y & 4)
            << 5usize) | ((x & 32) << 3usize)
    }

    /// Byte offset of a point in a linear (row-major) layout.
    pub fn get_byte_offset(
        x: usize,
        y: usize,
        z: usize,
        row_stride_B: usize,
        slice_stride_B: usize,
    ) -> (r: usize)
        requires
            spec_byte_offset(x as int, y as int, z as int, row_stride_B as int, slice_stride_B as int)
                <= usize::MAX,
        ensures
            r == spec_byte_offset(x as int, y as int, z as int, row_stride_B as int, slice_stride_B as int),
    {
        proof {
            assert(y * row_stride_B >= 0 && z * slice_stride_B >= 0) by (nonlinear_arith);
        }
        x + y * row_stride_B + z * slice_stride_B
    }

    /// Linear index of the block that holds a point.
    pub fn get_block_offset(
        x: usize,
        y: usize,
        z: usize,
        row_stride_tl: usize,
        slice_stride_tl: usize,
        tiling: Self,
    ) -> (r: usize)
        requires
            tiling.wf(),
            spec_block_offset(
                x as int,
                y as int,
                z as int,
                row_stride_tl as int,
                slice_stride_tl as int,
                tiling,
            ) <= usize::MAX,
        ensures
            r == spec_block_offset(
                x as int,
                y as int,
                z as int,
                row_stride_tl as int,
                slice_stride_tl as int,
                tiling,
            ),
    {
        let y_shift = 3 + (tiling.y_log2 as usize);
        let z_shift = tiling.z_log2 as usize;
        proof {
            lemma_usize_shr_is_div(x, 6);
            lemma_usize_shr_is_div(y, y_shift);
            lemma_usize_shr_is_div(z, z_shift);
            lemma_pow2_adds(3, tiling.y_log2 as nat);
            lemma2_to64();
            lemma_pow2_pos(tiling.y_log2 as nat);
            lemma_pow2_pos(tiling.z_log2 as nat);
            assert((y >> y_shift) * row_stride_tl >= 0 && (z >> z_shift) * slice_stride_tl >= 0)
                by (nonlinear_arith);
        }
        (x >> 6usize) + (y >> y_shift) * row_stride_tl + (z >> z_shift) * slice_stride_tl
    }

    /// Index of the GOB inside its block that holds a point.  The masks
    /// must be the low-bit masks of the tiling's log2 fields.
    pub fn get_gob_offset(
        x: usize,
        y: usize,
        z: usize,
        x_mask: usize,
        y_mask: usize,
        z_mask: usize,
        tiling: Self,
    ) -> (r: usize)
        requires
            tiling.wf(),
            x_mask == low_bits_mask(tiling.x_log2 as nat),
            y_mask == low_bits_mask(tiling.y_log2 as nat),
            z_mask == low_bits_mask(tiling.z_log2 as nat),
        ensures
            r == spec_gob_offset(x as int, y as int, z as int, tiling),
            r < 2048,
    {
        proof {
            lemma2_to64();
            lemma_usize_shr_is_div(x, tiling.x_log2 as usize);
            lemma_usize_shr_is_div(y, 3);
            lemma_usize_low_bits_mask_is_mod(x >> (tiling.x_log2 as usize), tiling.x_log2 as nat);
            lemma_usize_low_bits_mask_is_mod(y >> 3usize, tiling.y_log2 as nat);
            lemma_usize_low_bits_mask_is_mod(z, tiling.z_log2 as nat);
            lemma_pow2_pos(tiling.x_log2 as nat);
            lemma_pow2_pos(tiling.y_log2 as nat);
            lemma_pow2_pos(tiling.z_log2 as nat);
            crate::math::lemma_pow2_le(tiling.x_log2 as nat, 5);
            crate::math::lemma_pow2_le(tiling.y_log2 as nat, 5);
            crate::math::lemma_pow2_le(tiling.z_log2 as nat, 5);
            assert((z % (pow2(tiling.z_log2 as nat) as usize)) * pow2(tiling.y_log2 as nat) <= 31
                * 32) by (nonlinear_arith)
                requires
                    z % (pow2(tiling.z_log2 as nat) as usize) < pow2(tiling.z_log2 as nat) <= 32,
                    pow2(tiling.y_log2 as nat) <= 32,
            ;
            lemma_usize_shl_is_mul(z & z_mask, tiling.y_log2 as usize);
        }
        ((x >> (tiling.x_log2 as usize)) & x_mask) + ((y >> 3usize) & y_mask) + ((z & z_mask) << (
        tiling.y_log2 as usize))
    }

    /// The composed translation of a point to its byte offset in the tiled
    /// buffer: block index times block size, plus GOB index times GOB
    /// size, plus the in-GOB interleave.
    pub fn get_tiled_offset(
        x: usize,
        y: usize,
        z: usize,
        row_stride_tl: usize,
        slice_stride_tl: usize,
        tiling: Self,
    ) -> (r: usize)
        requires
            tiling.wf(),
            spec_tiled_offset(
                x as int,
                y as int,
                z as int,
                row_stride_tl as int,
                slice_stride_tl as int,
                tiling,
            ) <= usize::MAX,
        ensures
            r == spec_tiled_offset(
                x as int,
                y as int,
                z as int,
                row_stride_tl as int,
                slice_stride_tl as int,
                tiling,
            ),
    {
        proof {
            lemma2_to64();
            crate::tiling::lemma_tile_extent_bounds(tiling);
            lemma_usize_shl_is_mul(1, tiling.x_log2 as usize);
            lemma_usize_shl_is_mul(1, tiling.y_log2 as usize);
            lemma_usize_shl_is_mul(1, tiling.z_log2 as usize);
            crate::math::lemma_pow2_le(tiling.x_log2 as nat, 5);
            crate::math::lemma_pow2_le(tiling.y_log2 as nat, 5);
            crate::math::lemma_pow2_le(tiling.z_log2 as nat, 5);
            vstd::bits::lemma_low_bits_mask_values();
            lemma_block_gob_pixel_nonneg(
                x as int,
                y as int,
                z as int,
                row_stride_tl as int,
                slice_stride_tl as int,
                tiling,
            );
        }
        let x_mask = (1usize << (tiling.x_log2 as usize)) - 1;
        let y_mask = (1usize << (tiling.y_log2 as usize)) - 1;
        let z_mask = (1usize << (tiling.z_log2 as usize)) - 1;
        proof {
            lemma_mask_is_low_bits_mask(tiling.x_log2 as nat);
            lemma_mask_is_low_bits_mask(tiling.y_log2 as nat);
            lemma_mask_is_low_bits_mask(tiling.z_log2 as nat);
            let b = spec_block_offset(
                x as int,
                y as int,
                z as int,
                row_stride_tl as int,
                slice_stride_tl as int,
                tiling,
            );
            let g = spec_gob_offset(x as int, y as int, z as int, tiling);
            let p = spec_pixel_offset(x as int, y as int);
            let s = tiling.spec_size_B();
            assert(b <= b * s && b * s >= 0 && g * 512 >= 0 && b * s <= b * s + g * 512 + p && g
                * 512 <= b * s + g * 512 + p) by (nonlinear_arith)
                requires
                    b >= 0,
                    g >= 0,
                    p >= 0,
                    s >= 1,
            ;
        }
        let block = Self::get_block_offset(x, y, z, row_stride_tl, slice_stride_tl, tiling);
        let gob = Self::get_gob_offset(x, y, z, x_mask, y_mask, z_mask, tiling);
        let pixel = Self::get_pixel_offset(x, y);
        let size = tiling.size_B() as usize;
        block * size + gob * (GOB_SIZE_B as usize) + pixel
    }
}

/// Stepping x by one full block width (64 bytes: `64 << x_log2`, with the
/// `x_log2 == 0` the block-row addressing supports) advances the block
/// index by exactly one, holding y and z fixed.
pub proof fn lemma_block_offset_x_step(x: int, y: int, z: int, rs: int, ss: int, t: Tiling)
    requires
        t.x_log2 == 0,
    ensures
        spec_block_offset(x + 64 * pow2(t.x_log2 as nat), y, z, rs, ss, t) == spec_block_offset(
            x,
            y,
            z,
            rs,
            ss,
            t,
        ) + 1,
{
    lemma2_to64();
    lemma_div_plus_one(x, 64);
}

/// Stepping y by one full block height (`8 << y_log2` rows) advances the
/// block index by exactly one row of blocks, holding x and z fixed.
pub proof fn lemma_block_offset_y_step(x: int, y: int, z: int, rs: int, ss: int, t: Tiling)
    ensures
        spec_block_offset(x, y + 8 * pow2(t.y_log2 as nat), z, rs, ss, t) == spec_block_offset(
            x,
            y,
            z,
            rs,
            ss,
            t,
        ) + rs,
{
    let step = 8 * pow2(t.y_log2 as nat) as int;
    lemma_pow2_pos(t.y_log2 as nat);
    lemma_div_plus_one(y, step);
    let q = y / step;
    assert((q + 1) * rs == q * rs + rs) by (nonlinear_arith);
}

/// Stepping z by one full block depth (`1 << z_log2` slices) advances the
/// block index by exactly one slice of blocks, holding x and y fixed.
pub proof fn lemma_block_offset_z_step(x: int, y: int, z: int, rs: int, ss: int, t: Tiling)
    ensures
        spec_block_offset(x, y, z + pow2(t.z_log2 as nat), rs, ss, t) == spec_block_offset(
            x,
            y,
            z,
            rs,
            ss,
            t,
        ) + ss,
{
    let step = pow2(t.z_log2 as nat) as int;
    lemma_pow2_pos(t.z_log2 as nat);
    lemma_div_plus_one(z, step);
    let q = z / step;
    assert((q + 1) * ss == q * ss + ss) by (nonlinear_arith);
}

/// The in-GOB interleave is injective on a 64x8 byte grid: equal offsets
/// force equal positions within the GOB.
proof fn lemma_pixel_offset_inj_u64(x1: u64, y1: u64, x2: u64, y2: u64)
    by (bit_vector)
    requires
        x1 % 16 + (y1 % 2) * 16 + ((x1 / 16) % 2) * 32 + ((y1 / 2) % 2) * 64 + ((y1 / 4) % 2) * 128
            + ((x1 / 32) % 2) * 256 == x2 % 16 + (y2 % 2) * 16 + ((x2 / 16) % 2) * 32 + ((y2 / 2)
            % 2) * 64 + ((y2 / 4) % 2) * 128 + ((x2 / 32) % 2) * 256,
    ensures
        x1 % 64 == x2 % 64,
        y1 % 8 == y2 % 8,
{
}

/// Bounds of the three tiers for a tiling with one-GOB-wide blocks.
proof fn lemma_tier_bounds(x: int, y: int, z: int, t: Tiling)
    requires
        t.is_tiled,
        t.x_log2 == 0,
        x >= 0,
        y >= 0,
        z >= 0,
    ensures
        0 <= spec_pixel_offset(x, y) < 512,
        0 <= spec_gob_offset(x, y, z, t),
        spec_gob_offset(x, y, z, t) == (y / 8) % (pow2(t.y_log2 as nat) as int) + (z % (pow2(
            t.z_log2 as nat,
        ) as int)) * (pow2(t.y_log2 as nat) as int),
        spec_gob_offset(x, y, z, t) * 512 + spec_pixel_offset(x, y) < 512 * (pow2(
            t.y_log2 as nat,
        ) as int) * (pow2(t.z_log2 as nat) as int),
        t.gob_height_is_8 ==> t.spec_size_B() == 512 * (pow2(t.y_log2 as nat) as int) * (pow2(
            t.z_log2 as nat,
        ) as int),
        !t.gob_height_is_8 ==> t.spec_size_B() == 256 * (pow2(t.y_log2 as nat) as int) * (pow2(
            t.z_log2 as nat,
        ) as int),
{
    lemma2_to64();
    let py = pow2(t.y_log2 as nat) as int;
    let pz = pow2(t.z_log2 as nat) as int;
    lemma_pow2_pos(t.y_log2 as nat);
    lemma_pow2_pos(t.z_log2 as nat);
    let gy = (y / 8) % py;
    let gz = z % pz;
    assert(spec_gob_offset(x, y, z, t) == gy + gz * py);
    assert(0 <= gy < py);
    assert(0 <= gz < pz);
    assert(0 <= gz * py && gy + gz * py <= py * pz - 1) by (nonlinear_arith)
        requires
            0 <= gy < py,
            0 <= gz < pz,
            py >= 1,
            pz >= 1,
    ;
    assert((gy + gz * py) * 512 + spec_pixel_offset(x, y) < 512 * py * pz) by (nonlinear_arith)
        requires
            0 <= gy + gz * py <= py * pz - 1,
            0 <= spec_pixel_offset(x, y) < 512,
    ;
    assert(t.spec_size_B() == 64 * (t.spec_gob_height() * py) * pz);
    assert(64 * (8 * py) * pz == 512 * py * pz && 64 * (4 * py) * pz == 256 * py * pz)
        by (nonlinear_arith);
}

/// Within one mip level whose blocks are one GOB wide and eight-row GOBs
/// tall, the composed translation is injective: two distinct points of the
/// level never share a tiled byte address.  The strides are the level's
/// extent in tiles.
pub proof fn lemma_tiled_offset_injective(
    t: Tiling,
    w_B: int,
    h: int,
    d: int,
    rs: int,
    hs: int,
    x1: int,
    y1: int,
    z1: int,
    x2: int,
    y2: int,
    z2: int,
)
    requires
        t.is_tiled,
        t.gob_height_is_8,
        t.x_log2 == 0,
        rs == crate::math::div_ceil(w_B, 64),
        hs == crate::math::div_ceil(h, 8 * pow2(t.y_log2 as nat) as int),
        0 <= x1 < w_B,
        0 <= y1 < h,
        0 <= z1 < d,
        0 <= x2 < w_B,
        0 <= y2 < h,
        0 <= z2 < d,
        w_B <= u32::MAX,
        h <= u32::MAX,
        d <= u32::MAX,
        spec_tiled_offset(x1, y1, z1, rs, rs * hs, t) == spec_tiled_offset(
            x2,
            y2,
            z2,
            rs,
            rs * hs,
            t,
        ),
    ensures
        x1 == x2,
        y1 == y2,
        z1 == z2,
{
    lemma2_to64();
    let py = pow2(t.y_log2 as nat) as int;
    let pz = pow2(t.z_log2 as nat) as int;
    lemma_pow2_pos(t.y_log2 as nat);
    lemma_pow2_pos(t.z_log2 as nat);
    let s = t.spec_size_B();
    lemma_tier_bounds(x1, y1, z1, t);
    lemma_tier_bounds(x2, y2, z2, t);
    assert(s == 512 * py * pz);

    let a = spec_tiled_offset(x1, y1, z1, rs, rs * hs, t);
    let b1 = spec_block_offset(x1, y1, z1, rs, rs * hs, t);
    let b2 = spec_block_offset(x2, y2, z2, rs, rs * hs, t);
    let r1 = spec_gob_offset(x1, y1, z1, t) * 512 + spec_pixel_offset(x1, y1);
    let r2 = spec_gob_offset(x2, y2, z2, t) * 512 + spec_pixel_offset(x2, y2);

    // The block index and the within-block remainder are recovered
    // uniquely from the address.
    assert(0 <= r1 < s && 0 <= r2 < s) by (nonlinear_arith)
        requires
            0 <= spec_gob_offset(x1, y1, z1, t),
            0 <= spec_gob_offset(x2, y2, z2, t),
            r1 == spec_gob_offset(x1, y1, z1, t) * 512 + spec_pixel_offset(x1, y1),
            r2 == spec_gob_offset(x2, y2, z2, t) * 512 + spec_pixel_offset(x2, y2),
            0 <= spec_pixel_offset(x1, y1) < 512,
            0 <= spec_pixel_offset(x2, y2) < 512,
            r1 < s,
            r2 < s,
    ;
    lemma_fundamental_div_mod_converse(a, s, b1, r1);
    lemma_fundamental_div_mod_converse(a, s, b2, r2);
    assert(b1 == b2 && r1 == r2);

    // The GOB index and the in-GOB offset split the remainder uniquely.
    let g1 = spec_gob_offset(x1, y1, z1, t);
    let g2 = spec_gob_offset(x2, y2, z2, t);
    let p1 = spec_pixel_offset(x1, y1);
    let p2 = spec_pixel_offset(x2, y2);
    lemma_fundamental_div_mod_converse(r1, 512, g1, p1);
    lemma_fundamental_div_mod_converse(r2, 512, g2, p2);
    assert(g1 == g2 && p1 == p2);

    // The interleave pins the position within the GOB.
    assert(spec_pixel_offset(x1, y1) == (x1 as u64) % 16 + ((y1 as u64) % 2) * 16 + (((
    x1 as u64) / 16) % 2) * 32 + (((y1 as u64) / 2) % 2) * 64 + (((y1 as u64) / 4) % 2) * 128 + (((
    x1 as u64) / 32) % 2) * 256);
    assert(spec_pixel_offset(x2, y2) == (x2 as u64) % 16 + ((y2 as u64) % 2) * 16 + (((
    x2 as u64) / 16) % 2) * 32 + (((y2 as u64) / 2) % 2) * 64 + (((y2 as u64) / 4) % 2) * 128 + (((
    x2 as u64) / 32) % 2) * 256);
    lemma_pixel_offset_inj_u64(x1 as u64, y1 as u64, x2 as u64, y2 as u64);
    assert(x1 % 64 == x2 % 64 && y1 % 8 == y2 % 8);

    // The GOB index splits into its y and z parts.
    let gy1 = (y1 / 8) % py;
    let gz1 = z1 % pz;
    let gy2 = (y2 / 8) % py;
    let gz2 = z2 % pz;
    lemma_fundamental_div_mod_converse(g1, py, gz1, gy1);
    lemma_fundamental_div_mod_converse(g2, py, gz2, gy2);
    assert(gy1 == gy2 && gz1 == gz2);

    // The block index splits into its x, y and z parts.
    let bx1 = x1 / 64;
    let by1 = y1 / (8 * py);
    let bz1 = z1 / pz;
    let bx2 = x2 / 64;
    let by2 = y2 / (8 * py);
    let bz2 = z2 / pz;
    lemma_block_decomposition(t, w_B, h, d, rs, hs, x1, y1, z1);
    lemma_block_decomposition(t, w_B, h, d, rs, hs, x2, y2, z2);
    assert(bx1 == bx2 && by1 == by2 && bz1 == bz2);

    // Reassemble each coordinate from its recovered parts.
    lemma_fundamental_div_mod(x1, 64);
    lemma_fundamental_div_mod(x2, 64);
    assert(x1 == x2);

    lemma_div_denominator(y1, 8, py);
    lemma_div_denominator(y2, 8, py);
    lemma_fundamental_div_mod(y1 / 8, py);
    lemma_fundamental_div_mod(y2 / 8, py);
    lemma_fundamental_div_mod(y1, 8);
    lemma_fundamental_div_mod(y2, 8);
    assert(y1 == y2);

    lemma_fundamental_div_mod(z1, pz);
    lemma_fundamental_div_mod(z2, pz);
    assert(z1 == z2);
}

/// The block index of an in-bounds point lies below the block count, and
/// decomposes uniquely into its per-axis indices.
proof fn lemma_block_decomposition(
    t: Tiling,
    w_B: int,
    h: int,
    d: int,
    rs: int,
    hs: int,
    x: int,
    y: int,
    z: int,
)
    requires
        t.is_tiled,
        t.x_log2 == 0,
        rs == crate::math::div_ceil(w_B, 64),
        hs == crate::math::div_ceil(h, 8 * pow2(t.y_log2 as nat) as int),
        0 <= x < w_B,
        0 <= y < h,
        0 <= z < d,
    ensures
        ({
            let b = spec_block_offset(x, y, z, rs, rs * hs, t);
            &&& x / 64 == b % rs
            &&& y / (8 * pow2(t.y_log2 as nat) as int) == (b / rs) % hs
            &&& z / (pow2(t.z_log2 as nat) as int) == (b / rs) / hs
        }),
{
    let py = pow2(t.y_log2 as nat) as int;
    let pz = pow2(t.z_log2 as nat) as int;
    lemma_pow2_pos(t.y_log2 as nat);
    lemma_pow2_pos(t.z_log2 as nat);
    let bx = x / 64;
    let by = y / (8 * py);
    let bz = z / pz;
    lemma_in_bounds_block_coords(t, w_B, h, rs, hs, x, y);
    let b = spec_block_offset(x, y, z, rs, rs * hs, t);
    assert(b == bx + by * rs + bz * (rs * hs));
    assert(b == (by + bz * hs) * rs + bx) by (nonlinear_arith)
        requires
            b == bx + by * rs + bz * (rs * hs),
    ;
    assert(bz >= 0) by {
        vstd::arithmetic::div_mod::lemma_div_pos_is_pos(z, pz);
    }
    assert(by + bz * hs >= 0) by (nonlinear_arith)
        requires
            by >= 0,
            bz >= 0,
            hs >= 1,
    ;
    lemma_fundamental_div_mod_converse(b, rs, by + bz * hs, bx);
    lemma_fundamental_div_mod_converse(by + bz * hs, hs, bz, by);
}

/// An in-bounds point's per-axis block coordinates lie below the level's
/// block counts.
proof fn lemma_in_bounds_block_coords(
    t: Tiling,
    w_B: int,
    h: int,
    rs: int,
    hs: int,
    x: int,
    y: int,
)
    requires
        rs == crate::math::div_ceil(w_B, 64),
        hs == crate::math::div_ceil(h, 8 * pow2(t.y_log2 as nat) as int),
        0 <= x < w_B,
        0 <= y < h,
    ensures
        0 <= x / 64 < rs,
        0 <= y / (8 * pow2(t.y_log2 as nat) as int) < hs,
        rs >= 1,
        hs >= 1,
{
    let py = pow2(t.y_log2 as nat) as int;
    lemma_pow2_pos(t.y_log2 as nat);
    crate::math::lemma_div_ceil_bounds(w_B, 64);
    crate::math::lemma_div_ceil_bounds(h, 8 * py);
    vstd::arithmetic::div_mod::lemma_div_pos_is_pos(x, 64);
    vstd::arithmetic::div_mod::lemma_div_pos_is_pos(y, 8 * py);
    vstd::arithmetic::div_mod::lemma_multiply_divide_lt(x, 64, rs);
    vstd::arithmetic::div_mod::lemma_multiply_divide_lt(y, 8 * py, hs);
}

/// The block index of an in-bounds point lies below the level's block
/// count, so the composed offset lies inside the level's tiled footprint.
pub proof fn lemma_tiled_offset_in_range(
    t: Tiling,
    w_B: int,
    h: int,
    d: int,
    rs: int,
    hs: int,
    ds: int,
    x: int,
    y: int,
    z: int,
)
    requires
        t.is_tiled,
        t.gob_height_is_8,
        t.x_log2 == 0,
        rs == crate::math::div_ceil(w_B, 64),
        hs == crate::math::div_ceil(h, 8 * pow2(t.y_log2 as nat) as int),
        ds == crate::math::div_ceil(d, pow2(t.z_log2 as nat) as int),
        0 <= x < w_B,
        0 <= y < h,
        0 <= z < d,
    ensures
        0 <= spec_tiled_offset(x, y, z, rs, rs * hs, t),
        spec_tiled_offset(x, y, z, rs, rs * hs, t) + 1 <= rs * hs * ds * t.spec_size_B(),
{
    let py = pow2(t.y_log2 as nat) as int;
    let pz = pow2(t.z_log2 as nat) as int;
    lemma2_to64();
    lemma_pow2_pos(t.y_log2 as nat);
    lemma_pow2_pos(t.z_log2 as nat);
    lemma_tier_bounds(x, y, z, t);
    lemma_in_bounds_block_coords(t, w_B, h, rs, hs, x, y);
    crate::math::lemma_div_ceil_bounds(d, pz);
    vstd::arithmetic::div_mod::lemma_div_pos_is_pos(z, pz);
    vstd::arithmetic::div_mod::lemma_multiply_divide_lt(z, pz, ds);
    let b = spec_block_offset(x, y, z, rs, rs * hs, t);
    let r = spec_gob_offset(x, y, z, t) * 512 + spec_pixel_offset(x, y);
    let s = t.spec_size_B();
    assert(s == 512 * py * pz);
    assert(0 <= r < s) by (nonlinear_arith)
        requires
            0 <= spec_gob_offset(x, y, z, t),
            r == spec_gob_offset(x, y, z, t) * 512 + spec_pixel_offset(x, y),
            0 <= spec_pixel_offset(x, y) < 512,
            r < s,
    ;
    assert(0 <= b <= rs * hs * ds - 1) by (nonlinear_arith)
        requires
            b == x / 64 + (y / (8 * py)) * rs + (z / pz) * (rs * hs),
            0 <= x / 64 < rs,
            0 <= y / (8 * py) < hs,
            0 <= z / pz < ds,
            rs >= 1,
            hs >= 1,
            ds >= 1,
    ;
    assert(0 <= b * s + r && b * s + r + 1 <= rs * hs * ds * s) by (nonlinear_arith)
        requires
            0 <= b <= rs * hs * ds - 1,
            0 <= r < s,
            s >= 1,
    ;
}

/// `pow2(n) - 1` is the low-bit mask, for the small exponents tilings use.
proof fn lemma_mask_is_low_bits_mask(n: nat)
    requires
        n <= 5,
    ensures
        pow2(n) - 1 == low_bits_mask(n),
{
    lemma2_to64();
    vstd::bits::lemma_low_bits_mask_values();
}

/// The three tiers are all non-negative for non-negative inputs.
proof fn lemma_block_gob_pixel_nonneg(
    x: int,
    y: int,
    z: int,
    row_stride_tl: int,
    slice_stride_tl: int,
    t: Tiling,
)
    requires
        x >= 0,
        y >= 0,
        z >= 0,
        row_stride_tl >= 0,
        slice_stride_tl >= 0,
    ensures
        spec_block_offset(x, y, z, row_stride_tl, slice_stride_tl, t) >= 0,
        spec_gob_offset(x, y, z, t) >= 0,
        spec_pixel_offset(x, y) >= 0,
{
    lemma_pow2_pos(t.x_log2 as nat);
    lemma_pow2_pos(t.y_log2 as nat);
    lemma_pow2_pos(t.z_log2 as nat);
    assert(spec_block_offset(x, y, z, row_stride_tl, slice_stride_tl, t) >= 0) by (nonlinear_arith)
        requires
            x >= 0,
            y >= 0,
            z >= 0,
            row_stride_tl >= 0,
            slice_stride_tl >= 0,
            pow2(t.y_log2 as nat) >= 1,
            pow2(t.z_log2 as nat) >= 1,
            spec_block_offset(x, y, z, row_stride_tl, slice_stride_tl, t) == x / 64 + (y / (8
                * pow2(t.y_log2 as nat) as int)) * row_stride_tl + (z / (pow2(
                t.z_log2 as nat,
            ) as int)) * slice_stride_tl,
    ;
    assert(spec_gob_offset(x, y, z, t) >= 0) by (nonlinear_arith)
        requires
            x >= 0,
            y >= 0,
            z >= 0,
            pow2(t.x_log2 as nat) >= 1,
            pow2(t.y_log2 as nat) >= 1,
            pow2(t.z_log2 as nat) >= 1,
            spec_gob_offset(x, y, z, t) == (x / (pow2(t.x_log2 as nat) as int)) % (pow2(
                t.x_log2 as nat,
            ) as int) + (y / 8) % (pow2(t.y_log2 as nat) as int) + (z % (pow2(
                t.z_log2 as nat,
            ) as int)) * (pow2(t.y_log2 as nat) as int),
    ;
}

/// For a GOB-aligned origin, offsets within the 64x8 byte window of one
/// GOB are the origin's address plus the in-GOB interleave: the whole GOB
/// is addressed from one base.
pub proof fn lemma_gob_local_offset(
    t: Tiling,
    rs: int,
    ss: int,
    gx: int,
    gy: int,
    gz: int,
    u: int,
    v: int,
)
    requires
        t.is_tiled,
        t.gob_height_is_8,
        t.x_log2 == 0,
        gx >= 0,
        gy >= 0,
        gz >= 0,
        gx % 64 == 0,
        gy % 8 == 0,
        0 <= u < 64,
        0 <= v < 8,
    ensures
        spec_tiled_offset(gx + u, gy + v, gz, rs, ss, t) == spec_tiled_offset(gx, gy, gz, rs, ss, t)
            + spec_pixel_offset(u, v),
        spec_pixel_offset(gx, gy) == 0,
{
    lemma2_to64();
    let py = pow2(t.y_log2 as nat) as int;
    lemma_pow2_pos(t.y_log2 as nat);
    let k = gx / 64;
    let m = gy / 8;
    lemma_fundamental_div_mod(gx, 64);
    lemma_fundamental_div_mod(gy, 8);
    assert(gx == 64 * k);
    assert(gy == 8 * m);

    // The x and y block/GOB coordinates of the origin carry over.
    lemma_unique_div_small(u, k, 64);
    lemma_unique_div_small(v, m, 8);
    assert((gx + u) / 64 == k);
    assert((gy + v) / 8 == m);
    lemma_div_denominator(gy + v, 8, py);
    lemma_div_denominator(gy, 8, py);
    assert((gy + v) / (8 * py) == gy / (8 * py));

    // Each interleave term sees only the in-GOB remainder.
    vstd::arithmetic::div_mod::lemma_small_mod(u as nat, 64);
    vstd::arithmetic::div_mod::lemma_small_mod(v as nat, 8);
    assert(spec_pixel_offset(gx + u, gy + v) == spec_pixel_offset(u, v)) by {
        lemma_pixel_offset_from_units(gx + u, gy + v);
        lemma_pixel_offset_from_units(u, v);
        assert((gx + u) % 64 == u % 64) by {
            lemma_mod_shift_vanish(u, k, 64);
        }
        assert((gy + v) % 8 == v % 8) by {
            lemma_mod_shift_vanish(v, m, 8);
        }
    }
    assert(spec_pixel_offset(gx, gy) == 0) by {
        lemma_pixel_offset_from_units(gx, gy);
        lemma_mod_shift_vanish(0, k, 64);
        lemma_mod_shift_vanish(0, m, 8);
        lemma_pixel_offset_from_units(0, 0);
    }
}

/// `(d * q + r) / d == q` for a remainder below `d`.
proof fn lemma_unique_div_small(r: int, q: int, d: int)
    requires
        0 <= r < d,
    ensures
        (d * q + r) / d == q,
{
    assert(d * q + r == q * d + r) by (nonlinear_arith);
    lemma_fundamental_div_mod_converse(d * q + r, d, q, r);
}

/// `(d * q + r) % d == r % d`: shifting by a multiple of the divisor
/// leaves the remainder.
proof fn lemma_mod_shift_vanish(r: int, q: int, d: int)
    requires
        d > 0,
    ensures
        (d * q + r) % d == r % d,
{
    vstd::arithmetic::div_mod::lemma_mod_multiples_vanish(q, r, d);
}

/// The interleave depends only on `x % 64` and `y % 8`.
proof fn lemma_pixel_offset_from_units(x: int, y: int)
    requires
        x >= 0,
        y >= 0,
    ensures
        spec_pixel_offset(x, y) == spec_pixel_offset(x % 64, y % 8),
{
    let xr = x % 64;
    let yr = y % 8;
    lemma_fundamental_div_mod(x, 64);
    lemma_fundamental_div_mod(y, 8);
    let k = x / 64;
    let m = y / 8;
    // x = 64k + xr splits the same way through each power of two.
    lemma_mod_shift_vanish(xr, 4 * k, 16);
    assert(x == 16 * (4 * k) + xr);
    assert(x % 16 == xr % 16);
    assert(x / 16 == 4 * k + xr / 16) by {
        lemma_unique_div_small(xr % 16, 4 * k + xr / 16, 16);
        lemma_fundamental_div_mod(xr, 16);
        assert(16 * (4 * k + xr / 16) + xr % 16 == x) by (nonlinear_arith)
            requires
                x == 16 * (4 * k) + xr,
                xr == 16 * (xr / 16) + xr % 16,
        ;
    }
    assert((x / 16) % 2 == (xr / 16) % 2) by {
        lemma_mod_shift_vanish(xr / 16, 2 * k, 2);
    }
    assert(x / 32 == 2 * k + xr / 32) by {
        lemma_unique_div_small(xr % 32, 2 * k + xr / 32, 32);
        lemma_fundamental_div_mod(xr, 32);
        assert(32 * (2 * k + xr / 32) + xr % 32 == x) by (nonlinear_arith)
            requires
                x == 32 * (2 * k) + xr,
                xr == 32 * (xr / 32) + xr % 32,
        ;
    }
    assert((x / 32) % 2 == (xr / 32) % 2) by {
        lemma_mod_shift_vanish(xr / 32, k, 2);
    }
    // y = 8m + yr likewise.
    lemma_mod_shift_vanish(yr, 4 * m, 2);
    assert(y == 2 * (4 * m) + yr);
    assert(y % 2 == yr % 2);
    assert(y / 2 == 4 * m + yr / 2) by {
        lemma_unique_div_small(yr % 2, 4 * m + yr / 2, 2);
        lemma_fundamental_div_mod(yr, 2);
        assert(2 * (4 * m + yr / 2) + yr % 2 == y) by (nonlinear_arith)
            requires
                y == 2 * (4 * m) + yr,
                yr == 2 * (yr / 2) + yr % 2,
        ;
    }
    assert((y / 2) % 2 == (yr / 2) % 2) by {
        lemma_mod_shift_vanish(yr / 2, 2 * m, 2);
    }
    assert(y / 4 == 2 * m + yr / 4) by {
        lemma_unique_div_small(yr % 4, 2 * m + yr / 4, 4);
        lemma_fundamental_div_mod(yr, 4);
        assert(4 * (2 * m + yr / 4) + yr % 4 == y) by (nonlinear_arith)
            requires
                y == 4 * (2 * m) + yr,
                yr == 4 * (yr / 4) + yr % 4,
        ;
    }
    assert((y / 4) % 2 == (yr / 4) % 2) by {
        lemma_mod_shift_vanish(yr / 4, m, 2);
    }
    // The remainders themselves split the same way under 64 and 8.
    lemma_small_mods(xr, yr);
}

/// For in-GOB coordinates the nested remainders are themselves.
proof fn lemma_small_mods(xr: int, yr: int)
    requires
        0 <= xr < 64,
        0 <= yr < 8,
    ensures
        xr % 16 == (xr % 64) % 16,
        spec_pixel_offset(xr % 64, yr % 8) == spec_pixel_offset(xr, yr),
{
    vstd::arithmetic::div_mod::lemma_small_mod(xr as nat, 64);
    vstd::arithmetic::div_mod::lemma_small_mod(yr as nat, 8);
}

/// Within one 16-byte sector the interleave is contiguous: stepping x by
/// one byte steps the in-GOB offset by one.
pub proof fn lemma_pixel_offset_contig(u: int, v: int, i: int)
    requires
        u >= 0,
        v >= 0,
        u % 16 == 0,
        0 <= i < 16,
    ensures
        spec_pixel_offset(u + i, v) == spec_pixel_offset(u, v) + i,
{
    let q = u / 16;
    lemma_fundamental_div_mod(u, 16);
    assert(u == 16 * q);
    assert((u + i) % 16 == i) by {
        lemma_mod_shift_vanish(i, q, 16);
        vstd::arithmetic::div_mod::lemma_small_mod(i as nat, 16);
    }
    assert(u % 16 == 0);
    assert((u + i) / 16 == q) by {
        lemma_unique_div_small(i, q, 16);
    }
    assert(u / 16 == q);
    assert((u + i) / 32 == u / 32) by {
        let h = u / 32;
        lemma_fundamental_div_mod(u, 32);
        assert(u == 32 * h + u % 32);
        assert(u % 32 % 16 == 0) by {
            lemma_mod_mod_16_32(u);
        }
        assert(u % 32 == 0 || u % 32 == 16) by {
            lemma_mod_mod_16_32(u);
        }
        lemma_unique_div_small(u % 32 + i, h, 32);
    }
}

/// `u % 16 == 0` pins `u % 32` to 0 or 16.
proof fn lemma_mod_mod_16_32(u: int)
    requires
        u >= 0,
        u % 16 == 0,
    ensures
        u % 32 % 16 == 0,
        u % 32 == 0 || u % 32 == 16,
{
    vstd::arithmetic::div_mod::lemma_mod_mod(u, 16, 2);
    assert(0 <= u % 32 < 32);
}

} // verus!
