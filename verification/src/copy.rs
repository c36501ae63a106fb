//! The tiled/linear copy engine: moves a rectangular pixel region between
//! a row-major host buffer and a tiled image buffer, in either direction,
//! by a per-pixel strategy or by a tile-granular strategy that fast-paths
//! the aligned interior.  Coordinates follow the address-translation
//! convention: `x` in bytes, `y` in rows, `z` in slices.

use vstd::prelude::*;

verus! {

use vstd::arithmetic::div_mod::{lemma_fundamental_div_mod, lemma_fundamental_div_mod_converse};
use vstd::arithmetic::power2::pow2;
use crate::addr::{
    lemma_tiled_offset_in_range, lemma_tiled_offset_injective, spec_byte_offset,
    spec_pixel_offset, spec_tiled_offset,
};
use crate::extent::{Extent4D, Pixels};
use crate::image::Image;
use crate::math::div_ceil;
use crate::tiling::Tiling;

/// Why a copy request was rejected.
#[derive(Clone, Copy, Debug, PartialEq, Eq, Structural)]
pub enum CopyError {
    /// The mip level does not exist.
    InvalidMipLevel,
    /// The level is tiled with a block shape the block-row addressing
    /// cannot express (4-row GOBs, or blocks wider than one GOB).
    UnsupportedTiling,
    /// The region reaches outside the level's extent.
    OutOfBounds,
    /// The linear buffer does not hold the whole region.
    SourceTooSmall,
    /// The tiled buffer does not hold the whole level.
    DestinationTooSmall,
}

/// The tiled buffer's copy engine supports one-GOB-wide blocks of 8-row
/// GOBs, and any linear level.
pub open spec fn spec_tiling_supported(t: Tiling) -> bool {
    t.is_tiled ==> (t.gob_height_is_8 && t.x_log2 == 0)
}

/// Level geometry, in bytes/rows/slices.
pub open spec fn lvl_w_B(img: Image, l: int) -> int {
    img.levels[l].extent_px.spec_width_B(img.format, img.sample_layout)
}

pub open spec fn lvl_h(img: Image, l: int) -> int {
    img.levels[l].extent_px.spec_height_sa(img.sample_layout)
}

pub open spec fn lvl_d(img: Image, l: int) -> int {
    img.levels[l].extent_px.depth as int
}

pub open spec fn lvl_tiling(img: Image, l: int) -> Tiling {
    img.levels[l].tiling
}

/// Level geometry, in tiles: blocks per row, rows of blocks per slice,
/// slices of blocks.
pub open spec fn lvl_row_tl(img: Image, l: int) -> int {
    div_ceil(lvl_w_B(img, l), 64)
}

pub open spec fn lvl_height_tl(img: Image, l: int) -> int {
    div_ceil(lvl_h(img, l), 8 * pow2(lvl_tiling(img, l).y_log2 as nat) as int)
}

pub open spec fn lvl_depth_tl(img: Image, l: int) -> int {
    div_ceil(lvl_d(img, l), pow2(lvl_tiling(img, l).z_log2 as nat) as int)
}

/// Bytes the level's buffer must hold: whole blocks for a tiled level,
/// exactly the row-major footprint for a linear one.
pub open spec fn lvl_len(img: Image, l: int) -> int {
    if lvl_tiling(img, l).is_tiled {
        lvl_row_tl(img, l) * lvl_height_tl(img, l) * lvl_depth_tl(img, l) * lvl_tiling(
            img,
            l,
        ).spec_size_B()
    } else {
        lvl_w_B(img, l) * lvl_h(img, l) * lvl_d(img, l)
    }
}

/// The byte address of point (x, y, z) in the level's buffer: the two-tier
/// translation for a tiled level, plain row-major addressing for a linear
/// one.
pub open spec fn spec_image_addr(img: Image, l: int, x: int, y: int, z: int) -> int {
    let t = lvl_tiling(img, l);
    if t.is_tiled {
        spec_tiled_offset(x, y, z, lvl_row_tl(img, l), lvl_row_tl(img, l) * lvl_height_tl(img, l), t)
    } else {
        spec_byte_offset(x, y, z, lvl_w_B(img, l), lvl_w_B(img, l) * lvl_h(img, l))
    }
}

/// A region of a level, in bytes/rows/slices, with its origin.
pub open spec fn region_in_level(
    img: Image,
    l: int,
    x0: int,
    y0: int,
    z0: int,
    w: int,
    h: int,
    d: int,
) -> bool {
    &&& 0 <= x0 && 0 <= y0 && 0 <= z0
    &&& 0 <= w && 0 <= h && 0 <= d
    &&& x0 + w <= lvl_w_B(img, l)
    &&& y0 + h <= lvl_h(img, l)
    &&& z0 + d <= lvl_d(img, l)
}

/// Whether buffer address `a` belongs to some point of the region.
pub open spec fn region_covers(
    img: Image,
    l: int,
    x0: int,
    y0: int,
    z0: int,
    w: int,
    h: int,
    d: int,
    a: int,
) -> bool {
    exists|x: int, y: int, z: int|
        x0 <= x < x0 + w && y0 <= y < y0 + h && z0 <= z < z0 + d && #[trigger] spec_image_addr(
            img,
            l,
            x,
            y,
            z,
        ) == a
}

/// What a finished copy into the tiled buffer guarantees: every region
/// byte holds the matching source byte, read at the region-relative
/// row-major address given by pitch and slice, and every other byte of the
/// buffer is untouched.
pub open spec fn copy_to_tiled_post(
    img: Image,
    l: int,
    x0: int,
    y0: int,
    z0: int,
    w: int,
    h: int,
    d: int,
    pitch: int,
    slice: int,
    src: Seq<u8>,
    dst0: Seq<u8>,
    dst: Seq<u8>,
) -> bool {
    &&& dst.len() == dst0.len()
    &&& forall|x: int, y: int, z: int|
        x0 <= x < x0 + w && y0 <= y < y0 + h && z0 <= z < z0 + d ==> dst[#[trigger] spec_image_addr(
            img,
            l,
            x,
            y,
            z,
        )] == src[spec_byte_offset(x - x0, y - y0, z - z0, pitch, slice)]
    &&& forall|a: int|
        0 <= a < dst.len() && !region_covers(img, l, x0, y0, z0, w, h, d, a) ==> dst[a] == #[trigger] dst0[a]
}

/// What a finished copy out of the tiled buffer guarantees: the
/// destination holds the region tightly packed (pitch `w`, slice `w * h`),
/// and every destination byte no region point maps to is untouched.
pub open spec fn copy_to_linear_post(
    img: Image,
    l: int,
    x0: int,
    y0: int,
    z0: int,
    w: int,
    h: int,
    d: int,
    src: Seq<u8>,
    dst0: Seq<u8>,
    dst: Seq<u8>,
) -> bool {
    &&& dst.len() == dst0.len()
    &&& forall|x: int, y: int, z: int|
        x0 <= x < x0 + w && y0 <= y < y0 + h && z0 <= z < z0 + d ==> dst[spec_byte_offset(
            x - x0,
            y - y0,
            z - z0,
            w,
            w * h,
        )] == src[#[trigger] spec_image_addr(img, l, x, y, z)]
    &&& forall|a: int|
        0 <= a < dst.len() && !packed_covers(x0, y0, z0, w, h, d, a) ==> dst[a] == #[trigger] dst0[a]
}

/// Whether destination address `a` is the packed address of some region
/// point.
pub open spec fn packed_covers(
    x0: int,
    y0: int,
    z0: int,
    w: int,
    h: int,
    d: int,
    a: int,
) -> bool {
    exists|x: int, y: int, z: int|
        x0 <= x < x0 + w && y0 <= y < y0 + h && z0 <= z < z0 + d && #[trigger] spec_byte_offset(
            x - x0,
            y - y0,
            z - z0,
            w,
            w * h,
        ) == a
}

/// A copy of nothing: some extent component is zero.  Such a request is a
/// no-op and never an error.
pub open spec fn spec_region_zero(extent_px: Extent4D<Pixels>) -> bool {
    extent_px.width == 0 || extent_px.height == 0 || extent_px.depth == 0
}

/// The region a copy call names, inside the level it names: origin and
/// extent converted to bytes/rows/slices.
pub open spec fn spec_copy_region_ok(
    img: Image,
    l: int,
    start_px: Extent4D<Pixels>,
    extent_px: Extent4D<Pixels>,
) -> bool {
    region_in_level(
        img,
        l,
        start_px.spec_width_B(img.format, img.sample_layout),
        start_px.spec_height_sa(img.sample_layout),
        start_px.depth as int,
        extent_px.spec_width_B(img.format, img.sample_layout),
        extent_px.spec_height_sa(img.sample_layout),
        extent_px.depth as int,
    )
}

/// The linear buffer holds the whole (non-empty) region at the given
/// pitch and slice strides.
pub open spec fn spec_linear_holds_region(
    img: Image,
    extent_px: Extent4D<Pixels>,
    pitch: int,
    slice: int,
    len: int,
) -> bool {
    spec_byte_offset(
        extent_px.spec_width_B(img.format, img.sample_layout) - 1,
        extent_px.spec_height_sa(img.sample_layout) - 1,
        extent_px.depth - 1,
        pitch,
        slice,
    ) < len
}

/// Whether (xx, yy, zz) comes before the cursor (x, y, z) in the z-major,
/// then y, then x order the copy loops walk.
pub open spec fn lex_before(xx: int, yy: int, zz: int, x: int, y: int, z: int) -> bool {
    zz < z || (zz == z && (yy < y || (yy == y && xx < x)))
}

/// Whether buffer address `a` belongs to a box point before the cursor.
pub open spec fn covered_before(
    img: Image,
    l: int,
    xs: int,
    xe: int,
    ys: int,
    ye: int,
    zs: int,
    ze: int,
    x: int,
    y: int,
    z: int,
    a: int,
) -> bool {
    exists|xx: int, yy: int, zz: int|
        xs <= xx < xe && ys <= yy < ye && zs <= zz < ze && lex_before(xx, yy, zz, x, y, z)
            && #[trigger] spec_image_addr(img, l, xx, yy, zz) == a
}

/// Per-pixel copy of one box of the region into the tiled buffer: the
/// boundary primitive of the tile-granular strategy, and the whole engine
/// for the per-pixel strategy.  The box is `[xs, xe) x [ys, ye) x
/// [zs, ze)`; the source is read at region-relative row-major addresses
/// with origin (x0, y0, z0).
#[verifier::loop_isolation(false)]
fn small_unaligned_memcpy_to_tiled(
    img: &Image,
    l: usize,
    xs: usize,
    xe: usize,
    ys: usize,
    ye: usize,
    zs: usize,
    ze: usize,
    x0: usize,
    y0: usize,
    z0: usize,
    pitch: usize,
    slice: usize,
    src: &[u8],
    dst: &mut Vec<u8>,
)
    requires
        img.wf(),
        l < img.levels.len(),
        spec_tiling_supported(lvl_tiling(*img, l as int)),
        x0 <= xs <= xe <= lvl_w_B(*img, l as int),
        y0 <= ys <= ye <= lvl_h(*img, l as int),
        z0 <= zs <= ze <= lvl_d(*img, l as int),
        xs < xe && ys < ye && zs < ze ==> spec_byte_offset(
            xe - 1 - x0,
            ye - 1 - y0,
            ze - 1 - z0,
            pitch as int,
            slice as int,
        ) < src.len(),
        lvl_len(*img, l as int) <= old(dst).len(),
    ensures
        final(dst).len() == old(dst).len(),
        forall|x: int, y: int, z: int|
            xs <= x < xe && ys <= y < ye && zs <= z < ze ==> final(dst)@[
                #[trigger] spec_image_addr(*img, l as int, x, y, z)] == src@[spec_byte_offset(
                x - x0,
                y - y0,
                z - z0,
                pitch as int,
                slice as int,
            )],
        forall|a: int|
            0 <= a < old(dst).len() && !region_covers(
                *img,
                l as int,
                xs as int,
                ys as int,
                zs as int,
                xe - xs,
                ye - ys,
                ze - zs,
                a,
            ) ==> final(dst)@[a] == #[trigger] old(dst)@[a],
{
    if xs >= xe || ys >= ye || zs >= ze {
        return ;
    }
    let ghost li = l as int;
    let ghost dst0 = dst@;
    let t = img.levels[l].tiling;
    // Strides of the level's buffer.
    let (row_stride, slice_stride) = level_strides(img, l, t);
    let mut z = zs;
    while z < ze
        invariant
            zs <= z <= ze,
            dst.len() == dst0.len(),
            forall|xx: int, yy: int, zz: int|
                xs <= xx < xe && ys <= yy < ye && zs <= zz < ze && lex_before(xx, yy, zz, xs as int, ys as int, z as int)
                    ==> dst@[#[trigger] spec_image_addr(*img, li, xx, yy, zz)] == src@[
                    spec_byte_offset(xx - x0, yy - y0, zz - z0, pitch as int, slice as int)],
            forall|a: int|
                0 <= a < dst.len() && !covered_before(
                    *img,
                    li,
                    xs as int,
                    xe as int,
                    ys as int,
                    ye as int,
                    zs as int,
                    ze as int,
                    xs as int,
                    ys as int,
                    z as int,
                    a,
                ) ==> dst@[a] == #[trigger] dst0[a],
        decreases ze - z,
    {
        let mut y = ys;
        while y < ye
            invariant
                ys <= y <= ye,
                zs <= z < ze,
                dst.len() == dst0.len(),
                forall|xx: int, yy: int, zz: int|
                    xs <= xx < xe && ys <= yy < ye && zs <= zz < ze && lex_before(xx, yy, zz, xs as int, y as int, z as int)
                        ==> dst@[#[trigger] spec_image_addr(*img, li, xx, yy, zz)] == src@[
                        spec_byte_offset(xx - x0, yy - y0, zz - z0, pitch as int, slice as int)],
                forall|a: int|
                    0 <= a < dst.len() && !covered_before(
                        *img,
                        li,
                        xs as int,
                        xe as int,
                        ys as int,
                        ye as int,
                        zs as int,
                        ze as int,
                        xs as int,
                        y as int,
                        z as int,
                        a,
                    ) ==> dst@[a] == #[trigger] dst0[a],
            decreases ye - y,
        {
            let mut x = xs;
            while x < xe
                invariant
                    xs <= x <= xe,
                    ys <= y < ye,
                    zs <= z < ze,
                    dst.len() == dst0.len(),
                    forall|xx: int, yy: int, zz: int|
                        xs <= xx < xe && ys <= yy < ye && zs <= zz < ze && lex_before(xx, yy, zz, x as int, y as int, z as int)
                            ==> dst@[#[trigger] spec_image_addr(*img, li, xx, yy, zz)] == src@[
                            spec_byte_offset(xx - x0, yy - y0, zz - z0, pitch as int, slice as int)],
                    forall|a: int|
                        0 <= a < dst.len() && !covered_before(
                            *img,
                            li,
                            xs as int,
                            xe as int,
                            ys as int,
                            ye as int,
                            zs as int,
                            ze as int,
                            x as int,
                            y as int,
                            z as int,
                            a,
                        ) ==> dst@[a] == #[trigger] dst0[a],
                decreases xe - x,
            {
                proof {
                    lemma_image_addr_in_range(*img, li, x as int, y as int, z as int);
                    lemma_byte_offset_mono(
                        x - x0,
                        y - y0,
                        z - z0,
                        xe - 1 - x0,
                        ye - 1 - y0,
                        ze - 1 - z0,
                        pitch as int,
                        slice as int,
                    );
                }
                let ta = image_addr(img, l, t, x, y, z, row_stride, slice_stride);
                let la = Tiling::get_byte_offset(x - x0, y - y0, z - z0, pitch, slice);
                let ghost pre = dst@;
                let v = src[la];
                dst[ta] = v;
                proof {
                    assert(dst@ == pre.update(ta as int, v));
                    assert(dst@[ta as int] == src@[la as int]);
                    // Earlier points kept their bytes: their addresses
                    // differ from the one just written.
                    assert forall|xx: int, yy: int, zz: int|
                        xs <= xx < xe && ys <= yy < ye && zs <= zz < ze && lex_before(
                            xx,
                            yy,
                            zz,
                            x as int,
                            y as int,
                            z as int,
                        ) implies dst@[#[trigger] spec_image_addr(*img, li, xx, yy, zz)] == src@[
                        spec_byte_offset(
                            xx - x0,
                            yy - y0,
                            zz - z0,
                            pitch as int,
                            slice as int,
                        )] by {
                        lemma_image_addr_in_range(*img, li, xx, yy, zz);
                        if spec_image_addr(*img, li, xx, yy, zz) == ta as int {
                            lemma_image_addr_injective(
                                *img,
                                li,
                                xx,
                                yy,
                                zz,
                                x as int,
                                y as int,
                                z as int,
                            );
                        }
                    }
                    assert(covered_before(
                        *img,
                        li,
                        xs as int,
                        xe as int,
                        ys as int,
                        ye as int,
                        zs as int,
                        ze as int,
                        x + 1,
                        y as int,
                        z as int,
                        ta as int,
                    ));
                }
                x = x + 1;
            }
            y = y + 1;
        }
        z = z + 1;
    }
}

/// Whether packed destination address `a` belongs to a box point before
/// the cursor, for a destination packed with the region's dimensions.
pub open spec fn packed_covered_before(
    x0: int,
    y0: int,
    z0: int,
    wr: int,
    hr: int,
    xs: int,
    xe: int,
    ys: int,
    ye: int,
    zs: int,
    ze: int,
    x: int,
    y: int,
    z: int,
    a: int,
) -> bool {
    exists|xx: int, yy: int, zz: int|
        xs <= xx < xe && ys <= yy < ye && zs <= zz < ze && lex_before(xx, yy, zz, x, y, z)
            && #[trigger] spec_byte_offset(xx - x0, yy - y0, zz - z0, wr, wr * hr) == a
}

/// Per-pixel copy of one box of the region out of the tiled buffer: the
/// boundary primitive of the tile-granular strategy, and the whole engine
/// for the per-pixel strategy.  The destination holds the region tightly
/// packed with the region's dimensions (wr, hr, dr) and origin
/// (x0, y0, z0).
#[verifier::loop_isolation(false)]
fn small_unaligned_memcpy_to_linear(
    img: &Image,
    l: usize,
    xs: usize,
    xe: usize,
    ys: usize,
    ye: usize,
    zs: usize,
    ze: usize,
    x0: usize,
    y0: usize,
    z0: usize,
    wr: usize,
    hr: usize,
    dr: usize,
    src: &[u8],
    dst: &mut Vec<u8>,
)
    requires
        img.wf(),
        l < img.levels.len(),
        spec_tiling_supported(lvl_tiling(*img, l as int)),
        x0 <= xs <= xe <= x0 + wr,
        y0 <= ys <= ye <= y0 + hr,
        z0 <= zs <= ze <= z0 + dr,
        x0 + wr <= lvl_w_B(*img, l as int),
        y0 + hr <= lvl_h(*img, l as int),
        z0 + dr <= lvl_d(*img, l as int),
        lvl_len(*img, l as int) <= src.len(),
        wr * hr * dr <= old(dst).len(),
    ensures
        final(dst).len() == old(dst).len(),
        forall|x: int, y: int, z: int|
            xs <= x < xe && ys <= y < ye && zs <= z < ze ==> final(dst)@[spec_byte_offset(
                x - x0,
                y - y0,
                z - z0,
                wr as int,
                wr * hr,
            )] == src@[#[trigger] spec_image_addr(*img, l as int, x, y, z)],
        forall|a: int|
            0 <= a < old(dst).len() && !packed_covered_before(
                x0 as int,
                y0 as int,
                z0 as int,
                wr as int,
                hr as int,
                xs as int,
                xe as int,
                ys as int,
                ye as int,
                zs as int,
                ze as int,
                xs as int,
                ys as int,
                ze as int,
                a,
            ) ==> final(dst)@[a] == #[trigger] old(dst)@[a],
{
    if xs >= xe || ys >= ye || zs >= ze {
        return ;
    }
    let ghost li = l as int;
    let ghost dst0 = dst@;
    let t = img.levels[l].tiling;
    let (row_stride, slice_stride) = level_strides(img, l, t);
    proof {
        assert(wr * hr <= wr * hr * dr && wr * hr >= 0 && 0 <= wr * hr * dr) by (nonlinear_arith)
            requires
                wr >= 0,
                hr >= 0,
                dr >= 1,
        ;
    }
    let packed_slice = wr * hr;
    let mut z = zs;
    while z < ze
        invariant
            zs <= z <= ze,
            dst.len() == dst0.len(),
            forall|xx: int, yy: int, zz: int|
                xs <= xx < xe && ys <= yy < ye && zs <= zz < ze && lex_before(xx, yy, zz, xs as int, ys as int, z as int)
                    ==> dst@[spec_byte_offset(xx - x0, yy - y0, zz - z0, wr as int, wr * hr)]
                    == src@[#[trigger] spec_image_addr(*img, li, xx, yy, zz)],
            forall|a: int|
                0 <= a < dst.len() && !packed_covered_before(
                    x0 as int,
                    y0 as int,
                    z0 as int,
                    wr as int,
                    hr as int,
                    xs as int,
                    xe as int,
                    ys as int,
                    ye as int,
                    zs as int,
                    ze as int,
                    xs as int,
                    ys as int,
                    z as int,
                    a,
                ) ==> dst@[a] == #[trigger] dst0[a],
        decreases ze - z,
    {
        let mut y = ys;
        while y < ye
            invariant
                ys <= y <= ye,
                zs <= z < ze,
                dst.len() == dst0.len(),
                forall|xx: int, yy: int, zz: int|
                    xs <= xx < xe && ys <= yy < ye && zs <= zz < ze && lex_before(xx, yy, zz, xs as int, y as int, z as int)
                        ==> dst@[spec_byte_offset(xx - x0, yy - y0, zz - z0, wr as int, wr * hr)]
                        == src@[#[trigger] spec_image_addr(*img, li, xx, yy, zz)],
                forall|a: int|
                    0 <= a < dst.len() && !packed_covered_before(
                        x0 as int,
                        y0 as int,
                        z0 as int,
                        wr as int,
                        hr as int,
                        xs as int,
                        xe as int,
                        ys as int,
                        ye as int,
                        zs as int,
                        ze as int,
                        xs as int,
                        y as int,
                        z as int,
                        a,
                    ) ==> dst@[a] == #[trigger] dst0[a],
            decreases ye - y,
        {
            let mut x = xs;
            while x < xe
                invariant
                    xs <= x <= xe,
                    ys <= y < ye,
                    zs <= z < ze,
                    dst.len() == dst0.len(),
                    forall|xx: int, yy: int, zz: int|
                        xs <= xx < xe && ys <= yy < ye && zs <= zz < ze && lex_before(xx, yy, zz, x as int, y as int, z as int)
                            ==> dst@[spec_byte_offset(xx - x0, yy - y0, zz - z0, wr as int, wr * hr)]
                            == src@[#[trigger] spec_image_addr(*img, li, xx, yy, zz)],
                    forall|a: int|
                        0 <= a < dst.len() && !packed_covered_before(
                            x0 as int,
                            y0 as int,
                            z0 as int,
                            wr as int,
                            hr as int,
                            xs as int,
                            xe as int,
                            ys as int,
                            ye as int,
                            zs as int,
                            ze as int,
                            x as int,
                            y as int,
                            z as int,
                            a,
                        ) ==> dst@[a] == #[trigger] dst0[a],
                decreases xe - x,
            {
                proof {
                    lemma_image_addr_in_range(*img, li, x as int, y as int, z as int);
                    lemma_byte_offset_in_range(
                        wr as int,
                        hr as int,
                        dr as int,
                        x - x0,
                        y - y0,
                        z - z0,
                    );
                }
                let ta = image_addr(img, l, t, x, y, z, row_stride, slice_stride);
                let pa = Tiling::get_byte_offset(x - x0, y - y0, z - z0, wr, packed_slice);
                let ghost pre = dst@;
                let v = src[ta];
                dst[pa] = v;
                proof {
                    assert(dst@ == pre.update(pa as int, v));
                    // Earlier points kept their bytes: their packed
                    // addresses differ from the one just written.
                    assert forall|xx: int, yy: int, zz: int|
                        xs <= xx < xe && ys <= yy < ye && zs <= zz < ze && lex_before(
                            xx,
                            yy,
                            zz,
                            x as int,
                            y as int,
                            z as int,
                        ) implies dst@[spec_byte_offset(
                        xx - x0,
                        yy - y0,
                        zz - z0,
                        wr as int,
                        wr * hr,
                    )] == src@[#[trigger] spec_image_addr(*img, li, xx, yy, zz)] by {
                        lemma_byte_offset_in_range(
                            wr as int,
                            hr as int,
                            dr as int,
                            xx - x0,
                            yy - y0,
                            zz - z0,
                        );
                        if spec_byte_offset(xx - x0, yy - y0, zz - z0, wr as int, wr * hr)
                            == pa as int {
                            lemma_byte_offset_injective(
                                wr as int,
                                hr as int,
                                xx - x0,
                                yy - y0,
                                zz - z0,
                                x - x0,
                                y - y0,
                                z - z0,
                            );
                        }
                    }
                    assert(packed_covered_before(
                        x0 as int,
                        y0 as int,
                        z0 as int,
                        wr as int,
                        hr as int,
                        xs as int,
                        xe as int,
                        ys as int,
                        ye as int,
                        zs as int,
                        ze as int,
                        x + 1,
                        y as int,
                        z as int,
                        pa as int,
                    ));
                }
                x = x + 1;
            }
            y = y + 1;
        }
        z = z + 1;
    }
}

/// The row-major address is monotone in each coordinate.
proof fn lemma_byte_offset_mono(
    x: int,
    y: int,
    z: int,
    xm: int,
    ym: int,
    zm: int,
    pitch: int,
    slice: int,
)
    requires
        0 <= x <= xm,
        0 <= y <= ym,
        0 <= z <= zm,
        pitch >= 0,
        slice >= 0,
    ensures
        0 <= spec_byte_offset(x, y, z, pitch, slice) <= spec_byte_offset(xm, ym, zm, pitch, slice),
{
    assert(0 <= x + y * pitch + z * slice <= xm + ym * pitch + zm * slice) by (nonlinear_arith)
        requires
            0 <= x <= xm,
            0 <= y <= ym,
            0 <= z <= zm,
            pitch >= 0,
            slice >= 0,
    ;
}

/// The strides of the level's buffer: blocks per block row and per block
/// slice for a tiled level, bytes per row and per slice for a linear one.
fn level_strides(img: &Image, l: usize, t: Tiling) -> (r: (usize, usize))
    requires
        img.wf(),
        l < img.levels.len(),
        t == lvl_tiling(*img, l as int),
        spec_tiling_supported(t),
        lvl_d(*img, l as int) >= 1,
        lvl_len(*img, l as int) <= usize::MAX,
    ensures
        t.is_tiled ==> r.0 == lvl_row_tl(*img, l as int) && r.1 == lvl_row_tl(*img, l as int)
            * lvl_height_tl(*img, l as int),
        !t.is_tiled ==> r.0 == lvl_w_B(*img, l as int) && r.1 == lvl_w_B(*img, l as int) * lvl_h(
            *img,
            l as int,
        ),
{
    let ghost li = l as int;
    let lvl = &img.levels[l];
    let e_B = lvl.extent_px.to_B(img.format, img.sample_layout);
    let w_B = e_B.width as usize;
    let hh = e_B.height as usize;
    if t.is_tiled {
        let tile = t.extent_B();
        proof {
            crate::tiling::lemma_tile_extent_bounds(t);
            crate::math::lemma_div_ceil_le(lvl_w_B(*img, li), 64);
            crate::math::lemma_div_ceil_le(lvl_h(*img, li), t.spec_extent_h_B());
            crate::math::lemma_div_ceil_bounds(lvl_d(*img, li), t.spec_extent_d_B());
        }
        let rs = ((w_B as u64 + 63) / 64) as usize;
        let hs = ((hh as u64 + (tile.height - 1) as u64) / (tile.height as u64)) as usize;
        proof {
            assert(rs == lvl_row_tl(*img, li));
            assert(hs == lvl_height_tl(*img, li));
            assert(rs * hs <= rs * hs * lvl_depth_tl(*img, li) * t.spec_size_B() && rs * hs >= 0)
                by (nonlinear_arith)
                requires
                    rs >= 0,
                    hs >= 0,
                    lvl_depth_tl(*img, li) >= 1,
                    t.spec_size_B() >= 1,
            ;
        }
        (rs, rs * hs)
    } else {
        proof {
            assert(w_B * hh <= w_B * hh * lvl_d(*img, li) && w_B * hh >= 0) by (nonlinear_arith)
                requires
                    w_B >= 0,
                    hh >= 0,
                    lvl_d(*img, li) >= 1,
            ;
        }
        (w_B, w_B * hh)
    }
}

/// The exec translation of a point to its address in the level's buffer.
fn image_addr(
    img: &Image,
    l: usize,
    t: Tiling,
    x: usize,
    y: usize,
    z: usize,
    row_stride: usize,
    slice_stride: usize,
) -> (r: usize)
    requires
        img.wf(),
        l < img.levels.len(),
        t == lvl_tiling(*img, l as int),
        spec_tiling_supported(t),
        t.is_tiled ==> row_stride == lvl_row_tl(*img, l as int) && slice_stride == lvl_row_tl(
            *img,
            l as int,
        ) * lvl_height_tl(*img, l as int),
        !t.is_tiled ==> row_stride == lvl_w_B(*img, l as int) && slice_stride == lvl_w_B(
            *img,
            l as int,
        ) * lvl_h(*img, l as int),
        0 <= x < lvl_w_B(*img, l as int),
        0 <= y < lvl_h(*img, l as int),
        0 <= z < lvl_d(*img, l as int),
        lvl_len(*img, l as int) <= usize::MAX,
    ensures
        r == spec_image_addr(*img, l as int, x as int, y as int, z as int),
{
    proof {
        lemma_image_addr_in_range(*img, l as int, x as int, y as int, z as int);
    }
    if t.is_tiled {
        Tiling::get_tiled_offset(x, y, z, row_stride, slice_stride, t)
    } else {
        Tiling::get_byte_offset(x, y, z, row_stride, slice_stride)
    }
}

/// Row-major addressing with tight strides is injective.
pub proof fn lemma_byte_offset_injective(
    w: int,
    h: int,
    x1: int,
    y1: int,
    z1: int,
    x2: int,
    y2: int,
    z2: int,
)
    requires
        0 <= x1 < w,
        0 <= y1 < h,
        0 <= z1,
        0 <= x2 < w,
        0 <= y2 < h,
        0 <= z2,
        spec_byte_offset(x1, y1, z1, w, w * h) == spec_byte_offset(x2, y2, z2, w, w * h),
    ensures
        x1 == x2,
        y1 == y2,
        z1 == z2,
{
    let a = spec_byte_offset(x1, y1, z1, w, w * h);
    assert(a == (y1 + z1 * h) * w + x1 && a == (y2 + z2 * h) * w + x2) by (nonlinear_arith)
        requires
            a == x1 + y1 * w + z1 * (w * h),
            a == x2 + y2 * w + z2 * (w * h),
    ;
    assert(y1 + z1 * h >= 0 && y2 + z2 * h >= 0) by (nonlinear_arith)
        requires
            y1 >= 0,
            z1 >= 0,
            h > 0,
            y2 >= 0,
            z2 >= 0,
    ;
    lemma_fundamental_div_mod_converse(a, w, y1 + z1 * h, x1);
    lemma_fundamental_div_mod_converse(a, w, y2 + z2 * h, x2);
    lemma_fundamental_div_mod_converse(y1 + z1 * h, h, z1, y1);
    lemma_fundamental_div_mod_converse(y2 + z2 * h, h, z2, y2);
}

/// Row-major addressing with tight strides stays inside the footprint.
pub proof fn lemma_byte_offset_in_range(w: int, h: int, d: int, x: int, y: int, z: int)
    requires
        0 <= x < w,
        0 <= y < h,
        0 <= z < d,
    ensures
        0 <= spec_byte_offset(x, y, z, w, w * h),
        spec_byte_offset(x, y, z, w, w * h) + 1 <= w * h * d,
{
    assert(0 <= x + y * w + z * (w * h) && x + y * w + z * (w * h) + 1 <= w * h * d)
        by (nonlinear_arith)
        requires
            0 <= x < w,
            0 <= y < h,
            0 <= z < d,
    ;
}

/// Within one supported level, the buffer address of a point is injective.
pub proof fn lemma_image_addr_injective(
    img: Image,
    l: int,
    x1: int,
    y1: int,
    z1: int,
    x2: int,
    y2: int,
    z2: int,
)
    requires
        img.wf(),
        0 <= l < img.levels.len(),
        spec_tiling_supported(lvl_tiling(img, l)),
        0 <= x1 < lvl_w_B(img, l),
        0 <= y1 < lvl_h(img, l),
        0 <= z1 < lvl_d(img, l),
        0 <= x2 < lvl_w_B(img, l),
        0 <= y2 < lvl_h(img, l),
        0 <= z2 < lvl_d(img, l),
        spec_image_addr(img, l, x1, y1, z1) == spec_image_addr(img, l, x2, y2, z2),
    ensures
        x1 == x2,
        y1 == y2,
        z1 == z2,
{
    let t = lvl_tiling(img, l);
    if t.is_tiled {
        lemma_tiled_offset_injective(
            t,
            lvl_w_B(img, l),
            lvl_h(img, l),
            lvl_d(img, l),
            lvl_row_tl(img, l),
            lvl_height_tl(img, l),
            x1,
            y1,
            z1,
            x2,
            y2,
            z2,
        );
    } else {
        lemma_byte_offset_injective(lvl_w_B(img, l), lvl_h(img, l), x1, y1, z1, x2, y2, z2);
    }
}

/// Within one supported level, the buffer address of a point lies inside
/// the level's footprint.
pub proof fn lemma_image_addr_in_range(img: Image, l: int, x: int, y: int, z: int)
    requires
        img.wf(),
        0 <= l < img.levels.len(),
        spec_tiling_supported(lvl_tiling(img, l)),
        0 <= x < lvl_w_B(img, l),
        0 <= y < lvl_h(img, l),
        0 <= z < lvl_d(img, l),
    ensures
        0 <= spec_image_addr(img, l, x, y, z),
        spec_image_addr(img, l, x, y, z) < lvl_len(img, l),
{
    let t = lvl_tiling(img, l);
    if t.is_tiled {
        lemma_tiled_offset_in_range(
            t,
            lvl_w_B(img, l),
            lvl_h(img, l),
            lvl_d(img, l),
            lvl_row_tl(img, l),
            lvl_height_tl(img, l),
            lvl_depth_tl(img, l),
            x,
            y,
            z,
        );
    } else {
        lemma_byte_offset_in_range(lvl_w_B(img, l), lvl_h(img, l), lvl_d(img, l), x, y, z);
    }
}

/// A validated copy region in bytes/rows/slices.
struct CopyRegion {
    x0: usize,
    y0: usize,
    z0: usize,
    w: usize,
    h: usize,
    d: usize,
}

/// Checks a non-empty copy request against the image: the level exists,
/// its tiling is supported, and the region lies inside the level.
fn validate_region(
    start_px: &Extent4D<Pixels>,
    extent_px: &Extent4D<Pixels>,
    miplevel: u8,
    nil: &Image,
) -> (r: Result<CopyRegion, CopyError>)
    requires
        nil.wf(),
        !spec_region_zero(*extent_px),
    ensures
        r matches Ok(g) ==> {
            &&& (miplevel as int) < nil.levels.len()
            &&& spec_tiling_supported(lvl_tiling(*nil, miplevel as int))
            &&& spec_copy_region_ok(*nil, miplevel as int, *start_px, *extent_px)
            &&& g.x0 == start_px.spec_width_B(nil.format, nil.sample_layout)
            &&& g.y0 == start_px.spec_height_sa(nil.sample_layout)
            &&& g.z0 == start_px.depth
            &&& g.w == extent_px.spec_width_B(nil.format, nil.sample_layout)
            &&& g.h == extent_px.spec_height_sa(nil.sample_layout)
            &&& g.d == extent_px.depth
            &&& g.w >= 1 && g.h >= 1 && g.d >= 1
        },
        r is Ok <==> (miplevel as int) < nil.levels.len() && spec_tiling_supported(
            lvl_tiling(*nil, miplevel as int),
        ) && spec_copy_region_ok(*nil, miplevel as int, *start_px, *extent_px),
        r == Err::<CopyRegion, CopyError>(CopyError::InvalidMipLevel) <==> !((miplevel as int)
            < nil.levels.len()),
        r == Err::<CopyRegion, CopyError>(CopyError::UnsupportedTiling) <==> (miplevel as int)
            < nil.levels.len() && !spec_tiling_supported(lvl_tiling(*nil, miplevel as int)),
        r == Err::<CopyRegion, CopyError>(CopyError::OutOfBounds) <==> (miplevel as int)
            < nil.levels.len() && spec_tiling_supported(lvl_tiling(*nil, miplevel as int))
            && !spec_copy_region_ok(*nil, miplevel as int, *start_px, *extent_px),
{
    let l = miplevel as usize;
    if l >= nil.levels.len() {
        return Err(CopyError::InvalidMipLevel);
    }
    let t = nil.levels[l].tiling;
    if t.is_tiled && (!t.gob_height_is_8 || t.x_log2 != 0) {
        return Err(CopyError::UnsupportedTiling);
    }
    let saw = nil.sample_layout.sa_width() as u128;
    let sah = nil.sample_layout.sa_height() as u128;
    let el = nil.format.el_size_B as u128;
    proof {
        assert((start_px.width as u128) * saw <= 0x4_0000_0000 && (start_px.width as u128) * saw
            * el <= 0x4_0000_0000_0000_0000_0000 && (extent_px.width as u128) * saw
            <= 0x4_0000_0000 && (extent_px.width as u128) * saw * el
            <= 0x4_0000_0000_0000_0000_0000 && (start_px.height as u128) * sah <= 0x4_0000_0000 && (
        extent_px.height as u128) * sah <= 0x4_0000_0000 && (extent_px.width as u128) * saw * el
            >= 1 && (extent_px.height as u128) * sah >= 1) by (nonlinear_arith)
            requires
                start_px.width <= 0xffff_ffff,
                extent_px.width <= 0xffff_ffff,
                start_px.height <= 0xffff_ffff,
                extent_px.height <= 0xffff_ffff,
                1 <= saw <= 4,
                1 <= sah <= 4,
                1 <= el <= 0xffff_ffff,
                extent_px.width >= 1,
                extent_px.height >= 1,
        ;
    }
    let x0 = (start_px.width as u128) * saw * el;
    let w = (extent_px.width as u128) * saw * el;
    let y0 = (start_px.height as u128) * sah;
    let h = (extent_px.height as u128) * sah;
    let z0 = start_px.depth as u128;
    let d = extent_px.depth as u128;
    let e_B = nil.levels[l].extent_px.to_B(nil.format, nil.sample_layout);
    if x0 + w > e_B.width as u128 || y0 + h > e_B.height as u128 || z0 + d > e_B.depth as u128 {
        return Err(CopyError::OutOfBounds);
    }
    Ok(
        CopyRegion {
            x0: x0 as usize,
            y0: y0 as usize,
            z0: z0 as usize,
            w: w as usize,
            h: h as usize,
            d: d as usize,
        },
    )
}

/// The byte length the level's buffer must have, computed wide enough
/// that it cannot overflow.
fn lvl_len_u128(nil: &Image, l: usize) -> (r: u128)
    requires
        nil.wf(),
        l < nil.levels.len(),
        spec_tiling_supported(lvl_tiling(*nil, l as int)),
    ensures
        r == lvl_len(*nil, l as int),
{
    let ghost li = l as int;
    let t = nil.levels[l].tiling;
    let e_B = nil.levels[l].extent_px.to_B(nil.format, nil.sample_layout);
    if t.is_tiled {
        let tile = t.extent_B();
        proof {
            crate::tiling::lemma_tile_extent_bounds(t);
            crate::math::lemma_div_ceil_le(lvl_w_B(*nil, li), 64);
            crate::math::lemma_div_ceil_le(lvl_h(*nil, li), t.spec_extent_h_B());
            crate::math::lemma_div_ceil_le(lvl_d(*nil, li), t.spec_extent_d_B());
        }
        let rs = ((e_B.width as u64 + 63) / 64) as u128;
        let hs = ((e_B.height as u64 + (tile.height - 1) as u64) / (tile.height as u64)) as u128;
        let ds = ((e_B.depth as u64 + (tile.depth - 1) as u64) / (tile.depth as u64)) as u128;
        let size = t.size_B() as u128;
        proof {
            assert(rs == lvl_row_tl(*nil, li));
            assert(hs == lvl_height_tl(*nil, li));
            assert(ds == lvl_depth_tl(*nil, li));
            assert(rs * hs <= 0x1_0000_0000_0000_0000 && rs * hs * ds
                <= 0x1_0000_0000_0000_0000_0000_0000 && rs * hs * ds * size
                <= 0x100_0000_0000_0000_0000_0000_0000_0000) by (nonlinear_arith)
                requires
                    0 <= rs <= 0x1_0000_0000,
                    0 <= hs <= 0x1_0000_0000,
                    0 <= ds <= 0x1_0000_0000,
                    0 <= size <= 0x100_0000,
            ;
        }
        rs * hs * ds * size
    } else {
        proof {
            assert((e_B.width as u128) * (e_B.height as u128) <= 0x1_0000_0000_0000_0000 && (
            e_B.width as u128) * (e_B.height as u128) * (e_B.depth as u128)
                <= 0x1_0000_0000_0000_0000_0000_0000) by (nonlinear_arith)
                requires
                    e_B.width <= 0xffff_ffff,
                    e_B.height <= 0xffff_ffff,
                    e_B.depth <= 0xffff_ffff,
            ;
        }
        (e_B.width as u128) * (e_B.height as u128) * (e_B.depth as u128)
    }
}

/// The linear byte count a non-empty region needs at the given strides:
/// one past its largest relative address.
fn linear_needed(w: usize, h: usize, d: usize, pitch: usize, slice: usize) -> (r: u128)
    requires
        1 <= w <= 0xffff_ffff,
        1 <= h <= 0xffff_ffff,
        1 <= d <= 0xffff_ffff,
    ensures
        r == spec_byte_offset(w - 1, h - 1, d - 1, pitch as int, slice as int) + 1,
{
    proof {
        assert((h as u128 - 1) * (pitch as u128) <= 0x1_0000_0000_0000_0000_0000_0000 && (d as u128
            - 1) * (slice as u128) <= 0x1_0000_0000_0000_0000_0000_0000) by (nonlinear_arith)
            requires
                1 <= h <= 0xffff_ffff,
                1 <= d <= 0xffff_ffff,
                pitch <= 0xffff_ffff_ffff_ffff,
                slice <= 0xffff_ffff_ffff_ffff,
        ;
    }
    (w as u128 - 1) + (h as u128 - 1) * (pitch as u128) + (d as u128 - 1) * (slice as u128) + 1
}

/// Tile-granular copy of one box of the region into the tiled buffer.
/// The GOB-aligned interior takes the bulk path, one whole GOB at a time;
/// up to four boundary strips fall back to the per-pixel primitive.
fn optimized_big_memcpy_to_tiled(
    img: &Image,
    l: usize,
    xs: usize,
    xe: usize,
    ys: usize,
    ye: usize,
    zs: usize,
    ze: usize,
    x0: usize,
    y0: usize,
    z0: usize,
    pitch: usize,
    slice: usize,
    src: &[u8],
    dst: &mut Vec<u8>,
)
    requires
        img.wf(),
        l < img.levels.len(),
        spec_tiling_supported(lvl_tiling(*img, l as int)),
        x0 <= xs <= xe <= lvl_w_B(*img, l as int),
        y0 <= ys <= ye <= lvl_h(*img, l as int),
        z0 <= zs <= ze <= lvl_d(*img, l as int),
        xs < xe && ys < ye && zs < ze ==> spec_byte_offset(
            xe - 1 - x0,
            ye - 1 - y0,
            ze - 1 - z0,
            pitch as int,
            slice as int,
        ) < src.len(),
        lvl_len(*img, l as int) <= old(dst).len(),
    ensures
        final(dst).len() == old(dst).len(),
        forall|x: int, y: int, z: int|
            xs <= x < xe && ys <= y < ye && zs <= z < ze ==> final(dst)@[
                #[trigger] spec_image_addr(*img, l as int, x, y, z)] == src@[spec_byte_offset(
                x - x0,
                y - y0,
                z - z0,
                pitch as int,
                slice as int,
            )],
        forall|a: int|
            0 <= a < old(dst).len() && !region_covers(
                *img,
                l as int,
                xs as int,
                ys as int,
                zs as int,
                xe - xs,
                ye - ys,
                ze - zs,
                a,
            ) ==> final(dst)@[a] == #[trigger] old(dst)@[a],
{
    if xs >= xe || ys >= ye || zs >= ze {
        return ;
    }
    let ghost li = l as int;
    let ghost dst0 = dst@;
    let t = img.levels[l].tiling;
    // Linear levels have no tile structure to exploit.
    if !t.is_tiled {
        small_unaligned_memcpy_to_tiled(
            img, l, xs, xe, ys, ye, zs, ze, x0, y0, z0, pitch, slice, src, dst,
        );
        return ;
    }
    // The GOB-aligned interior; around it up to four boundary strips.
    let xa64 = (xs as u64 + 63) / 64 * 64;
    let xb64 = (xe as u64) / 64 * 64;
    let ya64 = (ys as u64 + 7) / 8 * 8;
    let yb64 = (ye as u64) / 8 * 8;
    proof {
        crate::math::lemma_div_ceil_bounds(xs as int, 64);
        crate::math::lemma_div_ceil_bounds(ys as int, 8);
        lemma_fundamental_div_mod(xe as int, 64);
        lemma_fundamental_div_mod(ye as int, 8);
        vstd::arithmetic::div_mod::lemma_mod_multiples_basic((xs as int + 63) / 64, 64);
        vstd::arithmetic::div_mod::lemma_mod_multiples_basic(xe as int / 64, 64);
        vstd::arithmetic::div_mod::lemma_mod_multiples_basic((ys as int + 7) / 8, 8);
        vstd::arithmetic::div_mod::lemma_mod_multiples_basic(ye as int / 8, 8);
    }
    if xa64 >= xb64 || ya64 >= yb64 {
        small_unaligned_memcpy_to_tiled(
            img, l, xs, xe, ys, ye, zs, ze, x0, y0, z0, pitch, slice, src, dst,
        );
        return ;
    }
    let xa = xa64 as usize;
    let xb = xb64 as usize;
    let ya = ya64 as usize;
    let yb = yb64 as usize;
    proof {
        assert(xs <= xa && xa % 64 == 0 && xb % 64 == 0 && xb <= xe);
        assert(ys <= ya && ya % 8 == 0 && yb % 8 == 0 && yb <= ye);
        if ys < ya {
            lemma_byte_offset_mono(
                xe - 1 - x0, ya - 1 - y0, ze - 1 - z0,
                xe - 1 - x0, ye - 1 - y0, ze - 1 - z0,
                pitch as int, slice as int,
            );
        }
        if xs < xa {
            lemma_byte_offset_mono(
                xa - 1 - x0, yb - 1 - y0, ze - 1 - z0,
                xe - 1 - x0, ye - 1 - y0, ze - 1 - z0,
                pitch as int, slice as int,
            );
        }
        lemma_byte_offset_mono(
            xb - 1 - x0, yb - 1 - y0, ze - 1 - z0,
            xe - 1 - x0, ye - 1 - y0, ze - 1 - z0,
            pitch as int, slice as int,
        );
        lemma_byte_offset_mono(
            xe - 1 - x0, yb - 1 - y0, ze - 1 - z0,
            xe - 1 - x0, ye - 1 - y0, ze - 1 - z0,
            pitch as int, slice as int,
        );
    }
    let ghost d1 = |xx: int, yy: int, zz: int|
        xs <= xx < xe && ys <= yy < ya && zs <= zz < ze;
    let ghost d2 = |xx: int, yy: int, zz: int|
        d1(xx, yy, zz) || (xs <= xx < xe && yb <= yy < ye && zs <= zz < ze);
    let ghost d3 = |xx: int, yy: int, zz: int|
        d2(xx, yy, zz) || (xs <= xx < xa && ya <= yy < yb && zs <= zz < ze);
    let ghost d4 = |xx: int, yy: int, zz: int|
        d3(xx, yy, zz) || (xb <= xx < xe && ya <= yy < yb && zs <= zz < ze);

    // Boundary strip below the interior (y before ya).
    small_unaligned_memcpy_to_tiled(
        img, l, xs, xe, ys, ya, zs, ze, x0, y0, z0, pitch, slice, src, dst,
    );
    let ghost s1 = dst@;
    proof {
        lemma_strip_state(
            *img, li, x0 as int, y0 as int, z0 as int, pitch as int, slice as int, src@, dst0, s1,
            d1, xs as int, xe as int, ys as int, ya as int, zs as int, ze as int,
        );
    }
    // Boundary strip above the interior (y from yb).
    small_unaligned_memcpy_to_tiled(
        img, l, xs, xe, yb, ye, zs, ze, x0, y0, z0, pitch, slice, src, dst,
    );
    let ghost s2 = dst@;
    proof {
        lemma_to_tiled_extend(
            *img, li, x0 as int, y0 as int, z0 as int, pitch as int, slice as int, src@,
            dst0, s1, s2, d1, xs as int, xe as int, yb as int, ye as int, zs as int, ze as int,
        );
        lemma_union_state(
            *img, li, x0 as int, y0 as int, z0 as int, pitch as int, slice as int, src@, dst0, s2,
            d1, d2, xs as int, xe as int, yb as int, ye as int, zs as int, ze as int,
        );
    }
    // Boundary strip left of the interior (x before xa).
    small_unaligned_memcpy_to_tiled(
        img, l, xs, xa, ya, yb, zs, ze, x0, y0, z0, pitch, slice, src, dst,
    );
    let ghost s3 = dst@;
    proof {
        lemma_to_tiled_extend(
            *img, li, x0 as int, y0 as int, z0 as int, pitch as int, slice as int, src@,
            dst0, s2, s3, d2, xs as int, xa as int, ya as int, yb as int, zs as int, ze as int,
        );
        lemma_union_state(
            *img, li, x0 as int, y0 as int, z0 as int, pitch as int, slice as int, src@, dst0, s3,
            d2, d3, xs as int, xa as int, ya as int, yb as int, zs as int, ze as int,
        );
    }
    // Boundary strip right of the interior (x from xb).
    small_unaligned_memcpy_to_tiled(
        img, l, xb, xe, ya, yb, zs, ze, x0, y0, z0, pitch, slice, src, dst,
    );
    let ghost s4 = dst@;
    proof {
        lemma_to_tiled_extend(
            *img, li, x0 as int, y0 as int, z0 as int, pitch as int, slice as int, src@,
            dst0, s3, s4, d3, xb as int, xe as int, ya as int, yb as int, zs as int, ze as int,
        );
        lemma_union_state(
            *img, li, x0 as int, y0 as int, z0 as int, pitch as int, slice as int, src@, dst0, s4,
            d3, d4, xb as int, xe as int, ya as int, yb as int, zs as int, ze as int,
        );
    }
    // The aligned interior, one whole GOB at a time.
    bulk_to_tiled(img, l, xa, xb, ya, yb, zs, ze, x0, y0, z0, pitch, slice, src, dst);
    proof {
        lemma_to_tiled_extend(
            *img, li, x0 as int, y0 as int, z0 as int, pitch as int, slice as int, src@,
            dst0, s4, dst@, d4, xa as int, xb as int, ya as int, yb as int, zs as int, ze as int,
        );
        // Every box point fell into one of the five cells.
        assert forall|x: int, y: int, z: int|
            xs <= x < xe && ys <= y < ye && zs <= z < ze implies dst@[
        #[trigger] spec_image_addr(*img, li, x, y, z)] == src@[spec_byte_offset(
            x - x0, y - y0, z - z0, pitch as int, slice as int,
        )] by {
            assert(d4(x, y, z) || (xa <= x < xb && ya <= y < yb && zs <= z < ze));
        }
        assert forall|a: int|
            0 <= a < dst.len() && !region_covers(
                *img, li, xs as int, ys as int, zs as int, xe - xs, ye - ys, ze - zs, a,
            ) implies dst@[a] == #[trigger] dst0[a] by {
            if exists|x: int, y: int, z: int|
                (d4(x, y, z) || (xa <= x < xb && ya <= y < yb && zs <= z < ze))
                    && #[trigger] spec_image_addr(*img, li, x, y, z) == a {
                let (x, y, z) = choose|x: int, y: int, z: int|
                    (d4(x, y, z) || (xa <= x < xb && ya <= y < yb && zs <= z < ze))
                        && #[trigger] spec_image_addr(*img, li, x, y, z) == a;
                assert(region_covers(
                    *img, li, xs as int, ys as int, zs as int, xe - xs, ye - ys, ze - zs, a,
                ));
                assert(false);
            }
        }
    }
}

/// Casts a strip's own post into the cumulative `done`-set form.
proof fn lemma_strip_state(
    img: Image,
    l: int,
    x0: int,
    y0: int,
    z0: int,
    pitch: int,
    slice: int,
    src: Seq<u8>,
    dst0: Seq<u8>,
    dst1: Seq<u8>,
    done: spec_fn(int, int, int) -> bool,
    bxs: int,
    bxe: int,
    bys: int,
    bye: int,
    bzs: int,
    bze: int,
)
    requires
        dst1.len() == dst0.len(),
        forall|x: int, y: int, z: int|
            #[trigger] done(x, y, z) <==> bxs <= x < bxe && bys <= y < bye && bzs <= z < bze,
        forall|x: int, y: int, z: int|
            bxs <= x < bxe && bys <= y < bye && bzs <= z < bze ==> dst1[
                #[trigger] spec_image_addr(img, l, x, y, z)] == src[spec_byte_offset(
                x - x0,
                y - y0,
                z - z0,
                pitch,
                slice,
            )],
        forall|a: int|
            0 <= a < dst0.len() && !region_covers(
                img,
                l,
                bxs,
                bys,
                bzs,
                bxe - bxs,
                bye - bys,
                bze - bzs,
                a,
            ) ==> dst1[a] == #[trigger] dst0[a],
    ensures
        forall|x: int, y: int, z: int|
            #[trigger] done(x, y, z) ==> dst1[spec_image_addr(img, l, x, y, z)] == src[
                spec_byte_offset(x - x0, y - y0, z - z0, pitch, slice)],
        forall|a: int|
            0 <= a < dst1.len() && !(exists|x: int, y: int, z: int|
                done(x, y, z) && #[trigger] spec_image_addr(img, l, x, y, z) == a) ==> dst1[a]
                == #[trigger] dst0[a],
{
    assert forall|a: int|
        0 <= a < dst1.len() && !(exists|x: int, y: int, z: int|
            done(x, y, z) && #[trigger] spec_image_addr(img, l, x, y, z) == a) implies dst1[a]
        == #[trigger] dst0[a] by {
        if region_covers(img, l, bxs, bys, bzs, bxe - bxs, bye - bys, bze - bzs, a) {
            let (x, y, z) = choose|x: int, y: int, z: int|
                bxs <= x < bxs + (bxe - bxs) && bys <= y < bys + (bye - bys) && bzs <= z < bzs + (
                bze - bzs) && #[trigger] spec_image_addr(img, l, x, y, z) == a;
            assert(done(x, y, z) && spec_image_addr(img, l, x, y, z) == a);
            assert(false);
        }
    }
}

/// Folds an `extend` step's conclusion into the next cumulative
/// `done`-set.
proof fn lemma_union_state(
    img: Image,
    l: int,
    x0: int,
    y0: int,
    z0: int,
    pitch: int,
    slice: int,
    src: Seq<u8>,
    dst0: Seq<u8>,
    dst2: Seq<u8>,
    done: spec_fn(int, int, int) -> bool,
    done2: spec_fn(int, int, int) -> bool,
    bxs: int,
    bxe: int,
    bys: int,
    bye: int,
    bzs: int,
    bze: int,
)
    requires
        forall|x: int, y: int, z: int|
            #[trigger] done2(x, y, z) <==> done(x, y, z) || (bxs <= x < bxe && bys <= y < bye
                && bzs <= z < bze),
        forall|x: int, y: int, z: int|
            #[trigger] done(x, y, z) || (bxs <= x < bxe && bys <= y < bye && bzs <= z < bze)
                ==> dst2[spec_image_addr(img, l, x, y, z)] == src[spec_byte_offset(
                x - x0,
                y - y0,
                z - z0,
                pitch,
                slice,
            )],
        forall|a: int|
            0 <= a < dst2.len() && !(exists|x: int, y: int, z: int|
                (done(x, y, z) || (bxs <= x < bxe && bys <= y < bye && bzs <= z < bze))
                    && #[trigger] spec_image_addr(img, l, x, y, z) == a) ==> dst2[a]
                == #[trigger] dst0[a],
    ensures
        forall|x: int, y: int, z: int|
            #[trigger] done2(x, y, z) ==> dst2[spec_image_addr(img, l, x, y, z)] == src[
                spec_byte_offset(x - x0, y - y0, z - z0, pitch, slice)],
        forall|a: int|
            0 <= a < dst2.len() && !(exists|x: int, y: int, z: int|
                done2(x, y, z) && #[trigger] spec_image_addr(img, l, x, y, z) == a) ==> dst2[a]
                == #[trigger] dst0[a],
{
    assert forall|x: int, y: int, z: int| #[trigger] done2(x, y, z) implies dst2[spec_image_addr(
        img,
        l,
        x,
        y,
        z,
    )] == src[spec_byte_offset(x - x0, y - y0, z - z0, pitch, slice)] by {
        assert(done(x, y, z) || (bxs <= x < bxe && bys <= y < bye && bzs <= z < bze));
    }
    assert forall|a: int|
        0 <= a < dst2.len() && !(exists|x: int, y: int, z: int|
            done2(x, y, z) && #[trigger] spec_image_addr(img, l, x, y, z) == a) implies dst2[a]
        == #[trigger] dst0[a] by {
        if exists|x: int, y: int, z: int|
            (done(x, y, z) || (bxs <= x < bxe && bys <= y < bye && bzs <= z < bze))
                && #[trigger] spec_image_addr(img, l, x, y, z) == a {
            let (x, y, z) = choose|x: int, y: int, z: int|
                (done(x, y, z) || (bxs <= x < bxe && bys <= y < bye && bzs <= z < bze))
                    && #[trigger] spec_image_addr(img, l, x, y, z) == a;
            assert(done2(x, y, z) && spec_image_addr(img, l, x, y, z) == a);
            assert(false);
        }
    }
}

impl Tiling {
    /// Copies a pixel region from a row-major host buffer into a tiled
    /// image buffer, walking the region pixel by pixel.  On success the
    /// tiled buffer holds the region's bytes at their translated addresses
    /// and nothing else changes; every rejection leaves the destination
    /// untouched and reports why.
    pub fn linear_to_tiled_per_pixel(
        start_px: Extent4D<Pixels>,
        extent_px: Extent4D<Pixels>,
        miplevel: u8,
        nil: &Image,
        pitch: usize,
        slice: usize,
        Bpp: u8,
        src: &[u8],
        dst: &mut Vec<u8>,
    ) -> (r: Result<(), CopyError>)
        requires
            nil.wf(),
            nil.format.el_size_B == Bpp as u32,
        ensures
            linear_to_tiled_contract(
                *nil,
                start_px,
                extent_px,
                miplevel as int,
                pitch as int,
                slice as int,
                src@,
                old(dst)@,
                final(dst)@,
                r,
            ),
    {
        linear_to_tiled_impl(start_px, extent_px, miplevel, nil, pitch, slice, src, dst, false)
    }

    /// Copies a pixel region from a row-major host buffer into a tiled
    /// image buffer by the tile-granular strategy: the aligned interior on
    /// the bulk path, one whole GOB at a time, and boundary strips per
    /// pixel.  The contract is the same as the per-pixel strategy's, so
    /// the two agree byte for byte.
    pub fn linear_to_tiled(
        start_px: Extent4D<Pixels>,
        extent_px: Extent4D<Pixels>,
        miplevel: u8,
        nil: &Image,
        pitch: usize,
        slice: usize,
        Bpp: u8,
        src: &[u8],
        dst: &mut Vec<u8>,
    ) -> (r: Result<(), CopyError>)
        requires
            nil.wf(),
            nil.format.el_size_B == Bpp as u32,
        ensures
            linear_to_tiled_contract(
                *nil,
                start_px,
                extent_px,
                miplevel as int,
                pitch as int,
                slice as int,
                src@,
                old(dst)@,
                final(dst)@,
                r,
            ),
    {
        linear_to_tiled_impl(start_px, extent_px, miplevel, nil, pitch, slice, src, dst, true)
    }
}

/// The full contract of an upload: when it succeeds, when each error is
/// reported, and what the destination holds afterwards.
pub open spec fn linear_to_tiled_contract(
    img: Image,
    start_px: Extent4D<Pixels>,
    extent_px: Extent4D<Pixels>,
    l: int,
    pitch: int,
    slice: int,
    src: Seq<u8>,
    dst0: Seq<u8>,
    dst: Seq<u8>,
    r: Result<(), CopyError>,
) -> bool {
    let zero = spec_region_zero(extent_px);
    let c_lvl = l < img.levels.len();
    let c_sup = c_lvl && spec_tiling_supported(lvl_tiling(img, l));
    let c_reg = c_sup && spec_copy_region_ok(img, l, start_px, extent_px);
    let c_src = c_reg && spec_linear_holds_region(img, extent_px, pitch, slice, src.len() as int);
    let c_dst = c_src && lvl_len(img, l) <= dst0.len();
    &&& dst.len() == dst0.len()
    &&& (r is Ok <==> zero || c_dst)
    &&& (r == Err::<(), CopyError>(CopyError::InvalidMipLevel) <==> !zero && !c_lvl)
    &&& (r == Err::<(), CopyError>(CopyError::UnsupportedTiling) <==> !zero && c_lvl && !c_sup)
    &&& (r == Err::<(), CopyError>(CopyError::OutOfBounds) <==> !zero && c_sup && !c_reg)
    &&& (r == Err::<(), CopyError>(CopyError::SourceTooSmall) <==> !zero && c_reg && !c_src)
    &&& (r == Err::<(), CopyError>(CopyError::DestinationTooSmall) <==> !zero && c_src && !c_dst)
    &&& (r is Err ==> dst == dst0)
    &&& (r is Ok ==> copy_to_tiled_post(
        img,
        l,
        start_px.spec_width_B(img.format, img.sample_layout),
        start_px.spec_height_sa(img.sample_layout),
        start_px.depth as int,
        extent_px.spec_width_B(img.format, img.sample_layout),
        extent_px.spec_height_sa(img.sample_layout),
        extent_px.depth as int,
        pitch,
        slice,
        src,
        dst0,
        dst,
    ))
}

/// Shared body of the two upload strategies.
fn linear_to_tiled_impl(
    start_px: Extent4D<Pixels>,
    extent_px: Extent4D<Pixels>,
    miplevel: u8,
    nil: &Image,
    pitch: usize,
    slice: usize,
    src: &[u8],
    dst: &mut Vec<u8>,
    tile_granular: bool,
) -> (r: Result<(), CopyError>)
    requires
        nil.wf(),
    ensures
        linear_to_tiled_contract(
            *nil,
            start_px,
            extent_px,
            miplevel as int,
            pitch as int,
            slice as int,
            src@,
            old(dst)@,
            final(dst)@,
            r,
        ),
{
    if extent_px.width == 0 || extent_px.height == 0 || extent_px.depth == 0 {
        return Ok(());
    }
    let g = match validate_region(&start_px, &extent_px, miplevel, nil) {
        Ok(g) => g,
        Err(e) => {
            return Err(e);
        },
    };
    let need_src = linear_needed(g.w, g.h, g.d, pitch, slice);
    if (src.len() as u128) < need_src {
        return Err(CopyError::SourceTooSmall);
    }
    let l = miplevel as usize;
    let need_dst = lvl_len_u128(nil, l);
    if (dst.len() as u128) < need_dst {
        return Err(CopyError::DestinationTooSmall);
    }
    if tile_granular {
        optimized_big_memcpy_to_tiled(
            nil,
            l,
            g.x0,
            g.x0 + g.w,
            g.y0,
            g.y0 + g.h,
            g.z0,
            g.z0 + g.d,
            g.x0,
            g.y0,
            g.z0,
            pitch,
            slice,
            src,
            dst,
        );
    } else {
        small_unaligned_memcpy_to_tiled(
            nil,
            l,
            g.x0,
            g.x0 + g.w,
            g.y0,
            g.y0 + g.h,
            g.z0,
            g.z0 + g.d,
            g.x0,
            g.y0,
            g.z0,
            pitch,
            slice,
            src,
            dst,
        );
    }
    Ok(())
}

/// Tile-granular copy of one box of the region out of the tiled buffer:
/// the GOB-aligned interior on the bulk path, one whole GOB at a time,
/// and up to four boundary strips per pixel.
fn optimized_big_memcpy_to_linear(
    img: &Image,
    l: usize,
    xs: usize,
    xe: usize,
    ys: usize,
    ye: usize,
    zs: usize,
    ze: usize,
    x0: usize,
    y0: usize,
    z0: usize,
    wr: usize,
    hr: usize,
    dr: usize,
    src: &[u8],
    dst: &mut Vec<u8>,
)
    requires
        img.wf(),
        l < img.levels.len(),
        spec_tiling_supported(lvl_tiling(*img, l as int)),
        x0 <= xs <= xe <= x0 + wr,
        y0 <= ys <= ye <= y0 + hr,
        z0 <= zs <= ze <= z0 + dr,
        x0 + wr <= lvl_w_B(*img, l as int),
        y0 + hr <= lvl_h(*img, l as int),
        z0 + dr <= lvl_d(*img, l as int),
        lvl_len(*img, l as int) <= src.len(),
        wr * hr * dr <= old(dst).len(),
    ensures
        final(dst).len() == old(dst).len(),
        forall|x: int, y: int, z: int|
            xs <= x < xe && ys <= y < ye && zs <= z < ze ==> final(dst)@[spec_byte_offset(
                x - x0,
                y - y0,
                z - z0,
                wr as int,
                wr * hr,
            )] == src@[#[trigger] spec_image_addr(*img, l as int, x, y, z)],
        forall|a: int|
            0 <= a < old(dst).len() && !packed_covered_before(
                x0 as int,
                y0 as int,
                z0 as int,
                wr as int,
                hr as int,
                xs as int,
                xe as int,
                ys as int,
                ye as int,
                zs as int,
                ze as int,
                xs as int,
                ys as int,
                ze as int,
                a,
            ) ==> final(dst)@[a] == #[trigger] old(dst)@[a],
{
    if xs >= xe || ys >= ye || zs >= ze {
        return ;
    }
    let ghost li = l as int;
    let ghost dst0 = dst@;
    let t = img.levels[l].tiling;
    // Linear levels have no tile structure to exploit.
    if !t.is_tiled {
        small_unaligned_memcpy_to_linear(
            img, l, xs, xe, ys, ye, zs, ze, x0, y0, z0, wr, hr, dr, src, dst,
        );
        return ;
    }
    // The GOB-aligned interior; around it up to four boundary strips.
    let xa64 = (xs as u64 + 63) / 64 * 64;
    let xb64 = (xe as u64) / 64 * 64;
    let ya64 = (ys as u64 + 7) / 8 * 8;
    let yb64 = (ye as u64) / 8 * 8;
    proof {
        crate::math::lemma_div_ceil_bounds(xs as int, 64);
        crate::math::lemma_div_ceil_bounds(ys as int, 8);
        lemma_fundamental_div_mod(xe as int, 64);
        lemma_fundamental_div_mod(ye as int, 8);
        vstd::arithmetic::div_mod::lemma_mod_multiples_basic((xs as int + 63) / 64, 64);
        vstd::arithmetic::div_mod::lemma_mod_multiples_basic(xe as int / 64, 64);
        vstd::arithmetic::div_mod::lemma_mod_multiples_basic((ys as int + 7) / 8, 8);
        vstd::arithmetic::div_mod::lemma_mod_multiples_basic(ye as int / 8, 8);
    }
    if xa64 >= xb64 || ya64 >= yb64 {
        small_unaligned_memcpy_to_linear(
            img, l, xs, xe, ys, ye, zs, ze, x0, y0, z0, wr, hr, dr, src, dst,
        );
        return ;
    }
    let xa = xa64 as usize;
    let xb = xb64 as usize;
    let ya = ya64 as usize;
    let yb = yb64 as usize;
    proof {
        assert(xs <= xa && xa % 64 == 0 && xb % 64 == 0 && xb <= xe);
        assert(ys <= ya && ya % 8 == 0 && yb % 8 == 0 && yb <= ye);
    }
    let ghost d1 = |xx: int, yy: int, zz: int|
        xs <= xx < xe && ys <= yy < ya && zs <= zz < ze;
    let ghost d2 = |xx: int, yy: int, zz: int|
        d1(xx, yy, zz) || (xs <= xx < xe && yb <= yy < ye && zs <= zz < ze);
    let ghost d3 = |xx: int, yy: int, zz: int|
        d2(xx, yy, zz) || (xs <= xx < xa && ya <= yy < yb && zs <= zz < ze);
    let ghost d4 = |xx: int, yy: int, zz: int|
        d3(xx, yy, zz) || (xb <= xx < xe && ya <= yy < yb && zs <= zz < ze);

    // Boundary strip below the interior (y before ya).
    small_unaligned_memcpy_to_linear(
        img, l, xs, xe, ys, ya, zs, ze, x0, y0, z0, wr, hr, dr, src, dst,
    );
    let ghost s1 = dst@;
    proof {
        lemma_packed_strip_state(
            *img, li, x0 as int, y0 as int, z0 as int, wr as int, hr as int, src@, dst0, s1,
            d1, xs as int, xe as int, ys as int, ya as int, zs as int, ze as int,
        );
    }
    // Boundary strip above the interior (y from yb).
    small_unaligned_memcpy_to_linear(
        img, l, xs, xe, yb, ye, zs, ze, x0, y0, z0, wr, hr, dr, src, dst,
    );
    let ghost s2 = dst@;
    proof {
        lemma_to_linear_extend(
            *img, li, x0 as int, y0 as int, z0 as int, wr as int, hr as int, dr as int, src@,
            dst0, s1, s2, d1, xs as int, xe as int, yb as int, ye as int, zs as int, ze as int,
        );
        lemma_packed_union_state(
            *img, li, x0 as int, y0 as int, z0 as int, wr as int, hr as int, src@, dst0, s2,
            d1, d2, xs as int, xe as int, yb as int, ye as int, zs as int, ze as int,
        );
    }
    // Boundary strip left of the interior (x before xa).
    small_unaligned_memcpy_to_linear(
        img, l, xs, xa, ya, yb, zs, ze, x0, y0, z0, wr, hr, dr, src, dst,
    );
    let ghost s3 = dst@;
    proof {
        lemma_to_linear_extend(
            *img, li, x0 as int, y0 as int, z0 as int, wr as int, hr as int, dr as int, src@,
            dst0, s2, s3, d2, xs as int, xa as int, ya as int, yb as int, zs as int, ze as int,
        );
        lemma_packed_union_state(
            *img, li, x0 as int, y0 as int, z0 as int, wr as int, hr as int, src@, dst0, s3,
            d2, d3, xs as int, xa as int, ya as int, yb as int, zs as int, ze as int,
        );
    }
    // Boundary strip right of the interior (x from xb).
    small_unaligned_memcpy_to_linear(
        img, l, xb, xe, ya, yb, zs, ze, x0, y0, z0, wr, hr, dr, src, dst,
    );
    let ghost s4 = dst@;
    proof {
        lemma_to_linear_extend(
            *img, li, x0 as int, y0 as int, z0 as int, wr as int, hr as int, dr as int, src@,
            dst0, s3, s4, d3, xb as int, xe as int, ya as int, yb as int, zs as int, ze as int,
        );
        lemma_packed_union_state(
            *img, li, x0 as int, y0 as int, z0 as int, wr as int, hr as int, src@, dst0, s4,
            d3, d4, xb as int, xe as int, ya as int, yb as int, zs as int, ze as int,
        );
    }
    // The aligned interior, one whole GOB at a time.
    bulk_to_linear(img, l, xa, xb, ya, yb, zs, ze, x0, y0, z0, wr, hr, dr, src, dst);
    proof {
        lemma_to_linear_extend(
            *img, li, x0 as int, y0 as int, z0 as int, wr as int, hr as int, dr as int, src@,
            dst0, s4, dst@, d4, xa as int, xb as int, ya as int, yb as int, zs as int, ze as int,
        );
        // Every box point fell into one of the five cells.
        assert forall|x: int, y: int, z: int|
            xs <= x < xe && ys <= y < ye && zs <= z < ze implies dst@[spec_byte_offset(
            x - x0, y - y0, z - z0, wr as int, wr * hr,
        )] == src@[#[trigger] spec_image_addr(*img, li, x, y, z)] by {
            assert(d4(x, y, z) || (xa <= x < xb && ya <= y < yb && zs <= z < ze));
        }
        assert forall|a: int|
            0 <= a < dst.len() && !packed_covered_before(
                x0 as int, y0 as int, z0 as int, wr as int, hr as int,
                xs as int, xe as int, ys as int, ye as int, zs as int, ze as int,
                xs as int, ys as int, ze as int, a,
            ) implies dst@[a] == #[trigger] dst0[a] by {
            if exists|x: int, y: int, z: int|
                (d4(x, y, z) || (xa <= x < xb && ya <= y < yb && zs <= z < ze))
                    && #[trigger] spec_byte_offset(x - x0, y - y0, z - z0, wr as int, wr * hr)
                    == a {
                let (x, y, z) = choose|x: int, y: int, z: int|
                    (d4(x, y, z) || (xa <= x < xb && ya <= y < yb && zs <= z < ze))
                        && #[trigger] spec_byte_offset(x - x0, y - y0, z - z0, wr as int, wr * hr)
                        == a;
                assert(packed_covered_before(
                    x0 as int, y0 as int, z0 as int, wr as int, hr as int,
                    xs as int, xe as int, ys as int, ye as int, zs as int, ze as int,
                    xs as int, ys as int, ze as int, a,
                ));
                assert(false);
            }
        }
    }
}

/// Casts a download strip's own post into the cumulative `done`-set form.
proof fn lemma_packed_strip_state(
    img: Image,
    l: int,
    x0: int,
    y0: int,
    z0: int,
    wr: int,
    hr: int,
    src: Seq<u8>,
    dst0: Seq<u8>,
    dst1: Seq<u8>,
    done: spec_fn(int, int, int) -> bool,
    bxs: int,
    bxe: int,
    bys: int,
    bye: int,
    bzs: int,
    bze: int,
)
    requires
        dst1.len() == dst0.len(),
        forall|x: int, y: int, z: int|
            #[trigger] done(x, y, z) <==> bxs <= x < bxe && bys <= y < bye && bzs <= z < bze,
        forall|x: int, y: int, z: int|
            bxs <= x < bxe && bys <= y < bye && bzs <= z < bze ==> dst1[spec_byte_offset(
                x - x0,
                y - y0,
                z - z0,
                wr,
                wr * hr,
            )] == src[#[trigger] spec_image_addr(img, l, x, y, z)],
        forall|a: int|
            0 <= a < dst0.len() && !packed_covered_before(
                x0,
                y0,
                z0,
                wr,
                hr,
                bxs,
                bxe,
                bys,
                bye,
                bzs,
                bze,
                bxs,
                bys,
                bze,
                a,
            ) ==> dst1[a] == #[trigger] dst0[a],
    ensures
        forall|x: int, y: int, z: int|
            #[trigger] done(x, y, z) ==> dst1[spec_byte_offset(x - x0, y - y0, z - z0, wr, wr * hr)]
                == src[spec_image_addr(img, l, x, y, z)],
        forall|a: int|
            0 <= a < dst1.len() && !(exists|x: int, y: int, z: int|
                done(x, y, z) && #[trigger] spec_byte_offset(x - x0, y - y0, z - z0, wr, wr * hr)
                    == a) ==> dst1[a] == #[trigger] dst0[a],
{
    assert forall|a: int|
        0 <= a < dst1.len() && !(exists|x: int, y: int, z: int|
            done(x, y, z) && #[trigger] spec_byte_offset(x - x0, y - y0, z - z0, wr, wr * hr)
                == a) implies dst1[a] == #[trigger] dst0[a] by {
        if packed_covered_before(x0, y0, z0, wr, hr, bxs, bxe, bys, bye, bzs, bze, bxs, bys, bze, a) {
            let (x, y, z) = choose|x: int, y: int, z: int|
                bxs <= x < bxe && bys <= y < bye && bzs <= z < bze && lex_before(
                    x,
                    y,
                    z,
                    bxs,
                    bys,
                    bze,
                ) && #[trigger] spec_byte_offset(x - x0, y - y0, z - z0, wr, wr * hr) == a;
            assert(done(x, y, z) && spec_byte_offset(x - x0, y - y0, z - z0, wr, wr * hr) == a);
            assert(false);
        }
    }
}

/// Folds a download `extend` step's conclusion into the next cumulative
/// `done`-set.
proof fn lemma_packed_union_state(
    img: Image,
    l: int,
    x0: int,
    y0: int,
    z0: int,
    wr: int,
    hr: int,
    src: Seq<u8>,
    dst0: Seq<u8>,
    dst2: Seq<u8>,
    done: spec_fn(int, int, int) -> bool,
    done2: spec_fn(int, int, int) -> bool,
    bxs: int,
    bxe: int,
    bys: int,
    bye: int,
    bzs: int,
    bze: int,
)
    requires
        forall|x: int, y: int, z: int|
            #[trigger] done2(x, y, z) <==> done(x, y, z) || (bxs <= x < bxe && bys <= y < bye
                && bzs <= z < bze),
        forall|x: int, y: int, z: int|
            #[trigger] done(x, y, z) || (bxs <= x < bxe && bys <= y < bye && bzs <= z < bze)
                ==> dst2[spec_byte_offset(x - x0, y - y0, z - z0, wr, wr * hr)] == src[
                spec_image_addr(img, l, x, y, z)],
        forall|a: int|
            0 <= a < dst2.len() && !(exists|x: int, y: int, z: int|
                (done(x, y, z) || (bxs <= x < bxe && bys <= y < bye && bzs <= z < bze))
                    && #[trigger] spec_byte_offset(x - x0, y - y0, z - z0, wr, wr * hr) == a)
                ==> dst2[a] == #[trigger] dst0[a],
    ensures
        forall|x: int, y: int, z: int|
            #[trigger] done2(x, y, z) ==> dst2[spec_byte_offset(x - x0, y - y0, z - z0, wr, wr * hr)]
                == src[spec_image_addr(img, l, x, y, z)],
        forall|a: int|
            0 <= a < dst2.len() && !(exists|x: int, y: int, z: int|
                done2(x, y, z) && #[trigger] spec_byte_offset(x - x0, y - y0, z - z0, wr, wr * hr)
                    == a) ==> dst2[a] == #[trigger] dst0[a],
{
    assert forall|x: int, y: int, z: int| #[trigger] done2(x, y, z) implies dst2[spec_byte_offset(
        x - x0,
        y - y0,
        z - z0,
        wr,
        wr * hr,
    )] == src[spec_image_addr(img, l, x, y, z)] by {
        assert(done(x, y, z) || (bxs <= x < bxe && bys <= y < bye && bzs <= z < bze));
    }
    assert forall|a: int|
        0 <= a < dst2.len() && !(exists|x: int, y: int, z: int|
            done2(x, y, z) && #[trigger] spec_byte_offset(x - x0, y - y0, z - z0, wr, wr * hr)
                == a) implies dst2[a] == #[trigger] dst0[a] by {
        if exists|x: int, y: int, z: int|
            (done(x, y, z) || (bxs <= x < bxe && bys <= y < bye && bzs <= z < bze))
                && #[trigger] spec_byte_offset(x - x0, y - y0, z - z0, wr, wr * hr) == a {
            let (x, y, z) = choose|x: int, y: int, z: int|
                (done(x, y, z) || (bxs <= x < bxe && bys <= y < bye && bzs <= z < bze))
                    && #[trigger] spec_byte_offset(x - x0, y - y0, z - z0, wr, wr * hr) == a;
            assert(done2(x, y, z) && spec_byte_offset(x - x0, y - y0, z - z0, wr, wr * hr) == a);
            assert(false);
        }
    }
}

/// The full contract of a download: when it succeeds, when each error is
/// reported, and what the destination holds afterwards.
pub open spec fn tiled_to_linear_contract(
    img: Image,
    start_px: Extent4D<Pixels>,
    extent_px: Extent4D<Pixels>,
    l: int,
    src: Seq<u8>,
    dst0: Seq<u8>,
    dst: Seq<u8>,
    r: Result<(), CopyError>,
) -> bool {
    let w = extent_px.spec_width_B(img.format, img.sample_layout);
    let h = extent_px.spec_height_sa(img.sample_layout);
    let d = extent_px.depth as int;
    let zero = spec_region_zero(extent_px);
    let c_lvl = l < img.levels.len();
    let c_sup = c_lvl && spec_tiling_supported(lvl_tiling(img, l));
    let c_reg = c_sup && spec_copy_region_ok(img, l, start_px, extent_px);
    let c_src = c_reg && lvl_len(img, l) <= src.len();
    let c_dst = c_src && w * h * d <= dst0.len();
    &&& dst.len() == dst0.len()
    &&& (r is Ok <==> zero || c_dst)
    &&& (r == Err::<(), CopyError>(CopyError::InvalidMipLevel) <==> !zero && !c_lvl)
    &&& (r == Err::<(), CopyError>(CopyError::UnsupportedTiling) <==> !zero && c_lvl && !c_sup)
    &&& (r == Err::<(), CopyError>(CopyError::OutOfBounds) <==> !zero && c_sup && !c_reg)
    &&& (r == Err::<(), CopyError>(CopyError::SourceTooSmall) <==> !zero && c_reg && !c_src)
    &&& (r == Err::<(), CopyError>(CopyError::DestinationTooSmall) <==> !zero && c_src && !c_dst)
    &&& (r is Err ==> dst == dst0)
    &&& (r is Ok ==> copy_to_linear_post(
        img,
        l,
        start_px.spec_width_B(img.format, img.sample_layout),
        start_px.spec_height_sa(img.sample_layout),
        start_px.depth as int,
        w,
        h,
        d,
        src,
        dst0,
        dst,
    ))
}

/// Shared body of the two download strategies.
fn tiled_to_linear_impl(
    start_px: Extent4D<Pixels>,
    extent_px: Extent4D<Pixels>,
    miplevel: u8,
    nil: &Image,
    src: &[u8],
    dst: &mut Vec<u8>,
    tile_granular: bool,
) -> (r: Result<(), CopyError>)
    requires
        nil.wf(),
    ensures
        tiled_to_linear_contract(
            *nil,
            start_px,
            extent_px,
            miplevel as int,
            src@,
            old(dst)@,
            final(dst)@,
            r,
        ),
{
    if extent_px.width == 0 || extent_px.height == 0 || extent_px.depth == 0 {
        return Ok(());
    }
    let g = match validate_region(&start_px, &extent_px, miplevel, nil) {
        Ok(g) => g,
        Err(e) => {
            return Err(e);
        },
    };
    let l = miplevel as usize;
    let need_src = lvl_len_u128(nil, l);
    if (src.len() as u128) < need_src {
        return Err(CopyError::SourceTooSmall);
    }
    proof {
        assert((g.w as u128) * (g.h as u128) <= 0x1_0000_0000_0000_0000 && (g.w as u128) * (
        g.h as u128) * (g.d as u128) <= 0x1_0000_0000_0000_0000_0000_0000) by (nonlinear_arith)
            requires
                g.w <= 0xffff_ffff,
                g.h <= 0xffff_ffff,
                g.d <= 0xffff_ffff,
        ;
    }
    let need_dst = (g.w as u128) * (g.h as u128) * (g.d as u128);
    if (dst.len() as u128) < need_dst {
        return Err(CopyError::DestinationTooSmall);
    }
    proof {
        assert(g.w * g.h <= g.w * g.h * g.d) by (nonlinear_arith)
            requires
                g.w >= 0,
                g.h >= 0,
                g.d >= 1,
        ;
    }
    if tile_granular {
        optimized_big_memcpy_to_linear(
            nil,
            l,
            g.x0,
            g.x0 + g.w,
            g.y0,
            g.y0 + g.h,
            g.z0,
            g.z0 + g.d,
            g.x0,
            g.y0,
            g.z0,
            g.w,
            g.h,
            g.d,
            src,
            dst,
        );
    } else {
        small_unaligned_memcpy_to_linear(
            nil,
            l,
            g.x0,
            g.x0 + g.w,
            g.y0,
            g.y0 + g.h,
            g.z0,
            g.z0 + g.d,
            g.x0,
            g.y0,
            g.z0,
            g.w,
            g.h,
            g.d,
            src,
            dst,
        );
    }
    Ok(())
}

impl Tiling {
    /// Copies a pixel region out of a tiled image buffer into a tightly
    /// packed row-major buffer, walking the region pixel by pixel.
    pub fn tiled_to_linear_per_pixel(
        start_px: Extent4D<Pixels>,
        extent_px: Extent4D<Pixels>,
        miplevel: u8,
        nil: &Image,
        src: &[u8],
        dst: &mut Vec<u8>,
    ) -> (r: Result<(), CopyError>)
        requires
            nil.wf(),
        ensures
            tiled_to_linear_contract(
                *nil,
                start_px,
                extent_px,
                miplevel as int,
                src@,
                old(dst)@,
                final(dst)@,
                r,
            ),
    {
        tiled_to_linear_impl(start_px, extent_px, miplevel, nil, src, dst, false)
    }

    /// Copies a pixel region out of a tiled image buffer into a tightly
    /// packed row-major buffer by the tile-granular strategy.  The
    /// contract is the same as the per-pixel strategy's, so the two agree
    /// byte for byte.
    pub fn tiled_to_linear(
        start_px: Extent4D<Pixels>,
        extent_px: Extent4D<Pixels>,
        miplevel: u8,
        nil: &Image,
        src: &[u8],
        dst: &mut Vec<u8>,
    ) -> (r: Result<(), CopyError>)
        requires
            nil.wf(),
        ensures
            tiled_to_linear_contract(
                *nil,
                start_px,
                extent_px,
                miplevel as int,
                src@,
                old(dst)@,
                final(dst)@,
                r,
            ),
    {
        tiled_to_linear_impl(start_px, extent_px, miplevel, nil, src, dst, true)
    }
}

/// Strategy equivalence for uploads: the copy contract pins every byte of
/// the destination, so any two buffers that satisfy it for the same
/// source, initial destination and region are identical: in particular,
/// the per-pixel and the tile-granular strategy produce byte-identical
/// output, boundary strips included.
pub proof fn lemma_to_tiled_strategies_agree(
    img: Image,
    l: int,
    x0: int,
    y0: int,
    z0: int,
    w: int,
    h: int,
    d: int,
    pitch: int,
    slice: int,
    src: Seq<u8>,
    dst0: Seq<u8>,
    d1: Seq<u8>,
    d2: Seq<u8>,
)
    requires
        copy_to_tiled_post(img, l, x0, y0, z0, w, h, d, pitch, slice, src, dst0, d1),
        copy_to_tiled_post(img, l, x0, y0, z0, w, h, d, pitch, slice, src, dst0, d2),
    ensures
        d1 == d2,
{
    assert forall|a: int| 0 <= a < d1.len() implies d1[a] == d2[a] by {
        if region_covers(img, l, x0, y0, z0, w, h, d, a) {
            let (x, y, z) = choose|x: int, y: int, z: int|
                x0 <= x < x0 + w && y0 <= y < y0 + h && z0 <= z < z0 + d
                    && #[trigger] spec_image_addr(img, l, x, y, z) == a;
            assert(d1[spec_image_addr(img, l, x, y, z)] == src[spec_byte_offset(
                x - x0,
                y - y0,
                z - z0,
                pitch,
                slice,
            )]);
            assert(d2[spec_image_addr(img, l, x, y, z)] == src[spec_byte_offset(
                x - x0,
                y - y0,
                z - z0,
                pitch,
                slice,
            )]);
        } else {
            assert(d1[a] == dst0[a]);
            assert(d2[a] == dst0[a]);
        }
    }
    assert(d1 =~= d2);
}

/// Strategy equivalence for downloads, by the same argument.
pub proof fn lemma_to_linear_strategies_agree(
    img: Image,
    l: int,
    x0: int,
    y0: int,
    z0: int,
    w: int,
    h: int,
    d: int,
    src: Seq<u8>,
    dst0: Seq<u8>,
    d1: Seq<u8>,
    d2: Seq<u8>,
)
    requires
        copy_to_linear_post(img, l, x0, y0, z0, w, h, d, src, dst0, d1),
        copy_to_linear_post(img, l, x0, y0, z0, w, h, d, src, dst0, d2),
    ensures
        d1 == d2,
{
    assert forall|a: int| 0 <= a < d1.len() implies d1[a] == d2[a] by {
        if packed_covers(x0, y0, z0, w, h, d, a) {
            let (x, y, z) = choose|x: int, y: int, z: int|
                x0 <= x < x0 + w && y0 <= y < y0 + h && z0 <= z < z0 + d
                    && #[trigger] spec_byte_offset(x - x0, y - y0, z - z0, w, w * h) == a;
            assert(d1[spec_byte_offset(x - x0, y - y0, z - z0, w, w * h)] == src[spec_image_addr(
                img,
                l,
                x,
                y,
                z,
            )]);
            assert(d2[spec_byte_offset(x - x0, y - y0, z - z0, w, w * h)] == src[spec_image_addr(
                img,
                l,
                x,
                y,
                z,
            )]);
        } else {
            assert(d1[a] == dst0[a]);
            assert(d2[a] == dst0[a]);
        }
    }
    assert(d1 =~= d2);
}

/// Round trip: after uploading a region from a linear buffer and
/// downloading it again, every region point's byte equals the original
/// source byte: the download returns the uploaded contents exactly.
pub proof fn lemma_round_trip(
    img: Image,
    l: int,
    x0: int,
    y0: int,
    z0: int,
    w: int,
    h: int,
    d: int,
    pitch: int,
    slice: int,
    lin0: Seq<u8>,
    tiled0: Seq<u8>,
    tiled1: Seq<u8>,
    out0: Seq<u8>,
    out1: Seq<u8>,
)
    requires
        copy_to_tiled_post(img, l, x0, y0, z0, w, h, d, pitch, slice, lin0, tiled0, tiled1),
        copy_to_linear_post(img, l, x0, y0, z0, w, h, d, tiled1, out0, out1),
    ensures
        forall|x: int, y: int, z: int|
            x0 <= x < x0 + w && y0 <= y < y0 + h && z0 <= z < z0 + d ==> out1[spec_byte_offset(
                x - x0,
                y - y0,
                z - z0,
                w,
                w * h,
            )] == lin0[#[trigger] spec_byte_offset(x - x0, y - y0, z - z0, pitch, slice)],
{
    assert forall|x: int, y: int, z: int|
        x0 <= x < x0 + w && y0 <= y < y0 + h && z0 <= z < z0 + d implies out1[spec_byte_offset(
        x - x0,
        y - y0,
        z - z0,
        w,
        w * h,
    )] == lin0[#[trigger] spec_byte_offset(x - x0, y - y0, z - z0, pitch, slice)] by {
        assert(tiled1[spec_image_addr(img, l, x, y, z)] == lin0[spec_byte_offset(
            x - x0,
            y - y0,
            z - z0,
            pitch,
            slice,
        )]);
        assert(out1[spec_byte_offset(x - x0, y - y0, z - z0, w, w * h)] == tiled1[spec_image_addr(
            img,
            l,
            x,
            y,
            z,
        )]);
    }
}

/// Extends a partially performed upload: if `dst1` already realizes the
/// copy for the points satisfying `done` (touching only their addresses),
/// and a further step realizes a box disjoint from `done` (touching only
/// the box's addresses), the result realizes both and touched nothing
/// else.
#[verifier::rlimit(30)]
proof fn lemma_to_tiled_extend(
    img: Image,
    l: int,
    x0: int,
    y0: int,
    z0: int,
    pitch: int,
    slice: int,
    src: Seq<u8>,
    dst0: Seq<u8>,
    dst1: Seq<u8>,
    dst2: Seq<u8>,
    done: spec_fn(int, int, int) -> bool,
    bxs: int,
    bxe: int,
    bys: int,
    bye: int,
    bzs: int,
    bze: int,
)
    requires
        img.wf(),
        0 <= l < img.levels.len(),
        spec_tiling_supported(lvl_tiling(img, l)),
        forall|x: int, y: int, z: int|
            #[trigger] done(x, y, z) ==> 0 <= x < lvl_w_B(img, l) && 0 <= y < lvl_h(img, l) && 0
                <= z < lvl_d(img, l) && !(bxs <= x < bxe && bys <= y < bye && bzs <= z < bze),
        0 <= bxs && bxs <= bxe && bxe <= lvl_w_B(img, l),
        0 <= bys && bys <= bye && bye <= lvl_h(img, l),
        0 <= bzs && bzs <= bze && bze <= lvl_d(img, l),
        lvl_len(img, l) <= dst0.len(),
        dst1.len() == dst0.len(),
        dst2.len() == dst1.len(),
        forall|x: int, y: int, z: int|
            #[trigger] done(x, y, z) ==> dst1[spec_image_addr(img, l, x, y, z)] == src[
                spec_byte_offset(x - x0, y - y0, z - z0, pitch, slice)],
        forall|a: int|
            0 <= a < dst1.len() && !(exists|x: int, y: int, z: int|
                done(x, y, z) && #[trigger] spec_image_addr(img, l, x, y, z) == a) ==> dst1[a]
                == #[trigger] dst0[a],
        forall|x: int, y: int, z: int|
            bxs <= x < bxe && bys <= y < bye && bzs <= z < bze ==> dst2[#[trigger] spec_image_addr(
                img,
                l,
                x,
                y,
                z,
            )] == src[spec_byte_offset(x - x0, y - y0, z - z0, pitch, slice)],
        forall|a: int|
            0 <= a < dst1.len() && !region_covers(
                img,
                l,
                bxs,
                bys,
                bzs,
                bxe - bxs,
                bye - bys,
                bze - bzs,
                a,
            ) ==> dst2[a] == #[trigger] dst1[a],
    ensures
        forall|x: int, y: int, z: int|
            #[trigger] done(x, y, z) || (bxs <= x < bxe && bys <= y < bye && bzs <= z < bze)
                ==> dst2[spec_image_addr(img, l, x, y, z)] == src[spec_byte_offset(
                x - x0,
                y - y0,
                z - z0,
                pitch,
                slice,
            )],
        forall|a: int|
            0 <= a < dst2.len() && !(exists|x: int, y: int, z: int|
                (done(x, y, z) || (bxs <= x < bxe && bys <= y < bye && bzs <= z < bze))
                    && #[trigger] spec_image_addr(img, l, x, y, z) == a) ==> dst2[a]
                == #[trigger] dst0[a],
{
    assert forall|x: int, y: int, z: int|
        #[trigger] done(x, y, z) || (bxs <= x < bxe && bys <= y < bye && bzs <= z
            < bze) implies dst2[spec_image_addr(img, l, x, y, z)] == src[spec_byte_offset(
        x - x0,
        y - y0,
        z - z0,
        pitch,
        slice,
    )] by {
        lemma_image_addr_in_range(img, l, x, y, z);
        if done(x, y, z) {
            let a = spec_image_addr(img, l, x, y, z);
            if region_covers(img, l, bxs, bys, bzs, bxe - bxs, bye - bys, bze - bzs, a) {
                let (bx, by, bz) = choose|bx: int, by: int, bz: int|
                    bxs <= bx < bxs + (bxe - bxs) && bys <= by < bys + (bye - bys) && bzs <= bz
                        < bzs + (bze - bzs) && #[trigger] spec_image_addr(img, l, bx, by, bz) == a;
                lemma_image_addr_injective(img, l, bx, by, bz, x, y, z);
                assert(false);
            }
            assert(dst2[a] == dst1[a]);
            assert(dst1[a] == src[spec_byte_offset(x - x0, y - y0, z - z0, pitch, slice)]);
        }
    }
    assert forall|a: int|
        0 <= a < dst2.len() && !(exists|x: int, y: int, z: int|
            (done(x, y, z) || (bxs <= x < bxe && bys <= y < bye && bzs <= z < bze))
                && #[trigger] spec_image_addr(img, l, x, y, z) == a) implies dst2[a]
        == #[trigger] dst0[a] by {
        if region_covers(img, l, bxs, bys, bzs, bxe - bxs, bye - bys, bze - bzs, a) {
            let (bx, by, bz) = choose|bx: int, by: int, bz: int|
                bxs <= bx < bxs + (bxe - bxs) && bys <= by < bys + (bye - bys) && bzs <= bz < bzs
                    + (bze - bzs) && #[trigger] spec_image_addr(img, l, bx, by, bz) == a;
            assert((done(bx, by, bz) || (bxs <= bx < bxe && bys <= by < bye && bzs <= bz < bze))
                && spec_image_addr(img, l, bx, by, bz) == a);
            assert(false);
        }
        assert(dst2[a] == dst1[a]);
        if exists|x: int, y: int, z: int|
            done(x, y, z) && #[trigger] spec_image_addr(img, l, x, y, z) == a {
            let (x, y, z) = choose|x: int, y: int, z: int|
                done(x, y, z) && #[trigger] spec_image_addr(img, l, x, y, z) == a;
            assert((done(x, y, z) || (bxs <= x < bxe && bys <= y < bye && bzs <= z < bze))
                && spec_image_addr(img, l, x, y, z) == a);
            assert(false);
        }
        assert(dst1[a] == dst0[a]);
    }
}

/// Copies one whole, GOB-aligned 64x8x1 window into the tiled buffer.
/// This is the bulk unit of the tile-granular strategy: the GOB's base
/// address is computed once, each 16-byte sector's offset once, and the
/// sector's bytes then move as a contiguous run.
#[verifier::loop_isolation(false)]
fn copy_gob_to_tiled(
    img: &Image,
    l: usize,
    gx: usize,
    gy: usize,
    gz: usize,
    x0: usize,
    y0: usize,
    z0: usize,
    pitch: usize,
    slice: usize,
    row_stride: usize,
    slice_stride: usize,
    src: &[u8],
    dst: &mut Vec<u8>,
)
    requires
        img.wf(),
        l < img.levels.len(),
        lvl_tiling(*img, l as int).is_tiled,
        spec_tiling_supported(lvl_tiling(*img, l as int)),
        row_stride == lvl_row_tl(*img, l as int),
        slice_stride == lvl_row_tl(*img, l as int) * lvl_height_tl(*img, l as int),
        gx % 64 == 0,
        gy % 8 == 0,
        x0 <= gx,
        y0 <= gy,
        z0 <= gz,
        gx + 64 <= lvl_w_B(*img, l as int),
        gy + 8 <= lvl_h(*img, l as int),
        gz < lvl_d(*img, l as int),
        spec_byte_offset(
            gx + 63 - x0,
            gy + 7 - y0,
            gz - z0,
            pitch as int,
            slice as int,
        ) < src.len(),
        lvl_len(*img, l as int) <= old(dst).len(),
    ensures
        final(dst).len() == old(dst).len(),
        forall|x: int, y: int, z: int|
            gx <= x < gx + 64 && gy <= y < gy + 8 && gz <= z < gz + 1 ==> final(dst)@[
                #[trigger] spec_image_addr(*img, l as int, x, y, z)] == src@[spec_byte_offset(
                x - x0,
                y - y0,
                z - z0,
                pitch as int,
                slice as int,
            )],
        forall|a: int|
            0 <= a < old(dst).len() && !region_covers(
                *img,
                l as int,
                gx as int,
                gy as int,
                gz as int,
                64,
                8,
                1,
                a,
            ) ==> final(dst)@[a] == #[trigger] old(dst)@[a],
{
    let ghost li = l as int;
    let ghost dst0 = dst@;
    let ghost t_spec = lvl_tiling(*img, li);
    let t = img.levels[l].tiling;
    proof {
        lemma_image_addr_in_range(*img, li, gx as int, gy as int, gz as int);
    }
    let base = image_addr(img, l, t, gx, gy, gz, row_stride, slice_stride);
    let mut row: usize = 0;
    while row < 8
        invariant
            row <= 8,
            dst.len() == dst0.len(),
            forall|xx: int, yy: int, zz: int|
                gx <= xx < gx + 64 && gy <= yy < gy + 8 && gz <= zz < gz + 1 && lex_before(
                    xx,
                    yy,
                    zz,
                    gx as int,
                    gy + row,
                    gz as int,
                ) ==> dst@[#[trigger] spec_image_addr(*img, li, xx, yy, zz)] == src@[
                spec_byte_offset(xx - x0, yy - y0, zz - z0, pitch as int, slice as int)],
            forall|a: int|
                0 <= a < dst.len() && !covered_before(
                    *img,
                    li,
                    gx as int,
                    gx + 64,
                    gy as int,
                    gy + 8,
                    gz as int,
                    gz + 1,
                    gx as int,
                    gy + row,
                    gz as int,
                    a,
                ) ==> dst@[a] == #[trigger] dst0[a],
        decreases 8 - row,
    {
        proof {
            lemma_byte_offset_mono(
                gx - x0,
                gy + row - y0,
                gz - z0,
                gx + 63 - x0,
                gy + 7 - y0,
                gz - z0,
                pitch as int,
                slice as int,
            );
        }
        let la_row = Tiling::get_byte_offset(gx - x0, gy + row - y0, gz - z0, pitch, slice);
        let mut sector: usize = 0;
        while sector < 4
            invariant
                sector <= 4,
                row < 8,
                la_row == spec_byte_offset(
                    gx - x0,
                    gy + row - y0,
                    gz - z0,
                    pitch as int,
                    slice as int,
                ),
                dst.len() == dst0.len(),
                forall|xx: int, yy: int, zz: int|
                    gx <= xx < gx + 64 && gy <= yy < gy + 8 && gz <= zz < gz + 1 && lex_before(
                        xx,
                        yy,
                        zz,
                        gx + sector * 16,
                        gy + row,
                        gz as int,
                    ) ==> dst@[#[trigger] spec_image_addr(*img, li, xx, yy, zz)] == src@[
                    spec_byte_offset(xx - x0, yy - y0, zz - z0, pitch as int, slice as int)],
                forall|a: int|
                    0 <= a < dst.len() && !covered_before(
                        *img,
                        li,
                        gx as int,
                        gx + 64,
                        gy as int,
                        gy + 8,
                        gz as int,
                        gz + 1,
                        gx + sector * 16,
                        gy + row,
                        gz as int,
                        a,
                    ) ==> dst@[a] == #[trigger] dst0[a],
            decreases 4 - sector,
        {
            let so = Tiling::get_pixel_offset(sector * 16, row);
            let mut i: usize = 0;
            while i < 16
                invariant
                    i <= 16,
                    sector < 4,
                    row < 8,
                    la_row == spec_byte_offset(
                        gx - x0,
                        gy + row - y0,
                        gz - z0,
                        pitch as int,
                        slice as int,
                    ),
                    so == spec_pixel_offset(sector * 16, row as int),
                    dst.len() == dst0.len(),
                    forall|xx: int, yy: int, zz: int|
                        gx <= xx < gx + 64 && gy <= yy < gy + 8 && gz <= zz < gz + 1 && lex_before(
                            xx,
                            yy,
                            zz,
                            gx + sector * 16 + i,
                            gy + row,
                            gz as int,
                        ) ==> dst@[#[trigger] spec_image_addr(*img, li, xx, yy, zz)] == src@[
                        spec_byte_offset(xx - x0, yy - y0, zz - z0, pitch as int, slice as int)],
                    forall|a: int|
                        0 <= a < dst.len() && !covered_before(
                            *img,
                            li,
                            gx as int,
                            gx + 64,
                            gy as int,
                            gy + 8,
                            gz as int,
                            gz + 1,
                            gx + sector * 16 + i,
                            gy + row,
                            gz as int,
                            a,
                        ) ==> dst@[a] == #[trigger] dst0[a],
                decreases 16 - i,
            {
                let ghost u = sector * 16 + i;
                let ghost px = gx + sector * 16 + i;
                let ghost py_ = gy + row;
                proof {
                    crate::addr::lemma_gob_local_offset(
                        t_spec,
                        lvl_row_tl(*img, li),
                        lvl_row_tl(*img, li) * lvl_height_tl(*img, li),
                        gx as int,
                        gy as int,
                        gz as int,
                        u,
                        row as int,
                    );
                    crate::addr::lemma_pixel_offset_contig(sector * 16, row as int, i as int);
                    lemma_image_addr_in_range(*img, li, px, py_, gz as int);
                    lemma_byte_offset_mono(
                        px - x0,
                        py_ - y0,
                        gz - z0,
                        gx + 63 - x0,
                        gy + 7 - y0,
                        gz - z0,
                        pitch as int,
                        slice as int,
                    );
                    assert(base + so + i == spec_image_addr(*img, li, px, py_, gz as int));
                }
                let ta = base + so + i;
                let la = la_row + sector * 16 + i;
                let ghost pre = dst@;
                let byte = src[la];
                dst[ta] = byte;
                proof {
                    assert(dst@ == pre.update(ta as int, byte));
                    assert forall|xx: int, yy: int, zz: int|
                        gx <= xx < gx + 64 && gy <= yy < gy + 8 && gz <= zz < gz + 1 && lex_before(
                            xx,
                            yy,
                            zz,
                            px,
                            py_,
                            gz as int,
                        ) implies dst@[#[trigger] spec_image_addr(*img, li, xx, yy, zz)] == src@[
                        spec_byte_offset(
                            xx - x0,
                            yy - y0,
                            zz - z0,
                            pitch as int,
                            slice as int,
                        )] by {
                        lemma_image_addr_in_range(*img, li, xx, yy, zz);
                        if spec_image_addr(*img, li, xx, yy, zz) == ta as int {
                            lemma_image_addr_injective(*img, li, xx, yy, zz, px, py_, gz as int);
                        }
                    }
                    assert(covered_before(
                        *img,
                        li,
                        gx as int,
                        gx + 64,
                        gy as int,
                        gy + 8,
                        gz as int,
                        gz + 1,
                        px + 1,
                        py_,
                        gz as int,
                        ta as int,
                    ));
                }
                i = i + 1;
            }
            sector = sector + 1;
        }
        row = row + 1;
    }
}

/// Whether (xx, yy, zz) lies in the aligned interior and has already been
/// copied when the GOB walk's cursor stands at origin (x, y, z): whole
/// earlier slices, whole earlier 8-row bands of this slice, and earlier
/// GOBs of the current band.
pub open spec fn bulk_done(
    xx: int,
    yy: int,
    zz: int,
    xs: int,
    xe: int,
    ys: int,
    ye: int,
    zs: int,
    ze: int,
    x: int,
    y: int,
    z: int,
) -> bool {
    &&& xs <= xx < xe && ys <= yy < ye && zs <= zz < ze
    &&& (zz < z || (zz == z && (yy < y || (y <= yy < y + 8 && xx < x))))
}

/// Whether buffer address `a` belongs to an interior point the GOB walk
/// has already copied.
pub open spec fn bulk_covered(
    img: Image,
    l: int,
    xs: int,
    xe: int,
    ys: int,
    ye: int,
    zs: int,
    ze: int,
    x: int,
    y: int,
    z: int,
    a: int,
) -> bool {
    exists|xx: int, yy: int, zz: int|
        bulk_done(xx, yy, zz, xs, xe, ys, ye, zs, ze, x, y, z) && #[trigger] spec_image_addr(
            img,
            l,
            xx,
            yy,
            zz,
        ) == a
}

/// The bulk path of the tile-granular strategy: walks a GOB-aligned
/// interior box one whole GOB at a time.
#[verifier::loop_isolation(false)]
#[verifier::rlimit(60)]
fn bulk_to_tiled(
    img: &Image,
    l: usize,
    xs: usize,
    xe: usize,
    ys: usize,
    ye: usize,
    zs: usize,
    ze: usize,
    x0: usize,
    y0: usize,
    z0: usize,
    pitch: usize,
    slice: usize,
    src: &[u8],
    dst: &mut Vec<u8>,
)
    requires
        img.wf(),
        l < img.levels.len(),
        lvl_tiling(*img, l as int).is_tiled,
        spec_tiling_supported(lvl_tiling(*img, l as int)),
        xs % 64 == 0,
        xe % 64 == 0,
        ys % 8 == 0,
        ye % 8 == 0,
        x0 <= xs <= xe <= lvl_w_B(*img, l as int),
        y0 <= ys <= ye <= lvl_h(*img, l as int),
        z0 <= zs <= ze <= lvl_d(*img, l as int),
        xs < xe && ys < ye && zs < ze ==> spec_byte_offset(
            xe - 1 - x0,
            ye - 1 - y0,
            ze - 1 - z0,
            pitch as int,
            slice as int,
        ) < src.len(),
        lvl_len(*img, l as int) <= old(dst).len(),
    ensures
        final(dst).len() == old(dst).len(),
        forall|x: int, y: int, z: int|
            xs <= x < xe && ys <= y < ye && zs <= z < ze ==> final(dst)@[
                #[trigger] spec_image_addr(*img, l as int, x, y, z)] == src@[spec_byte_offset(
                x - x0,
                y - y0,
                z - z0,
                pitch as int,
                slice as int,
            )],
        forall|a: int|
            0 <= a < old(dst).len() && !region_covers(
                *img,
                l as int,
                xs as int,
                ys as int,
                zs as int,
                xe - xs,
                ye - ys,
                ze - zs,
                a,
            ) ==> final(dst)@[a] == #[trigger] old(dst)@[a],
{
    if xs >= xe || ys >= ye || zs >= ze {
        return ;
    }
    let ghost li = l as int;
    let ghost dst0 = dst@;
    let t = img.levels[l].tiling;
    let (row_stride, slice_stride) = level_strides(img, l, t);
    let mut z = zs;
    while z < ze
        invariant
            zs <= z <= ze,
            dst.len() == dst0.len(),
            forall|xx: int, yy: int, zz: int|
                bulk_done(
                    xx,
                    yy,
                    zz,
                    xs as int,
                    xe as int,
                    ys as int,
                    ye as int,
                    zs as int,
                    ze as int,
                    xs as int,
                    ys as int,
                    z as int,
                ) ==> dst@[#[trigger] spec_image_addr(*img, li, xx, yy, zz)] == src@[
                spec_byte_offset(xx - x0, yy - y0, zz - z0, pitch as int, slice as int)],
            forall|a: int|
                0 <= a < dst.len() && !bulk_covered(
                    *img,
                    li,
                    xs as int,
                    xe as int,
                    ys as int,
                    ye as int,
                    zs as int,
                    ze as int,
                    xs as int,
                    ys as int,
                    z as int,
                    a,
                ) ==> dst@[a] == #[trigger] dst0[a],
        decreases ze - z,
    {
        let mut y = ys;
        while y < ye
            invariant
                ys <= y <= ye,
                zs <= z < ze,
                y % 8 == ys % 8,
                dst.len() == dst0.len(),
                forall|xx: int, yy: int, zz: int|
                    bulk_done(
                        xx,
                        yy,
                        zz,
                        xs as int,
                        xe as int,
                        ys as int,
                        ye as int,
                        zs as int,
                        ze as int,
                        xs as int,
                        y as int,
                        z as int,
                    ) ==> dst@[#[trigger] spec_image_addr(*img, li, xx, yy, zz)] == src@[
                    spec_byte_offset(xx - x0, yy - y0, zz - z0, pitch as int, slice as int)],
                forall|a: int|
                    0 <= a < dst.len() && !bulk_covered(
                        *img,
                        li,
                        xs as int,
                        xe as int,
                        ys as int,
                        ye as int,
                        zs as int,
                        ze as int,
                        xs as int,
                        y as int,
                        z as int,
                        a,
                    ) ==> dst@[a] == #[trigger] dst0[a],
            decreases ye - y,
        {
            let mut x = xs;
            while x < xe
                invariant
                    xs <= x <= xe,
                    ys <= y < ye,
                    zs <= z < ze,
                    x % 64 == 0,
                    y % 8 == ys % 8,
                    dst.len() == dst0.len(),
                    forall|xx: int, yy: int, zz: int|
                        bulk_done(
                            xx,
                            yy,
                            zz,
                            xs as int,
                            xe as int,
                            ys as int,
                            ye as int,
                            zs as int,
                            ze as int,
                            x as int,
                            y as int,
                            z as int,
                        ) ==> dst@[#[trigger] spec_image_addr(*img, li, xx, yy, zz)] == src@[
                        spec_byte_offset(xx - x0, yy - y0, zz - z0, pitch as int, slice as int)],
                    forall|a: int|
                        0 <= a < dst.len() && !bulk_covered(
                            *img,
                            li,
                            xs as int,
                            xe as int,
                            ys as int,
                            ye as int,
                            zs as int,
                            ze as int,
                            x as int,
                            y as int,
                            z as int,
                            a,
                        ) ==> dst@[a] == #[trigger] dst0[a],
                decreases xe - x,
            {
                let ghost mid = dst@;
                let ghost done_set = |xx: int, yy: int, zz: int|
                    bulk_done(
                        xx,
                        yy,
                        zz,
                        xs as int,
                        xe as int,
                        ys as int,
                        ye as int,
                        zs as int,
                        ze as int,
                        x as int,
                        y as int,
                        z as int,
                    );
                proof {
                    lemma_byte_offset_mono(
                        x + 63 - x0,
                        y + 7 - y0,
                        z - z0,
                        xe - 1 - x0,
                        ye - 1 - y0,
                        ze - 1 - z0,
                        pitch as int,
                        slice as int,
                    );
                }
                copy_gob_to_tiled(
                    img,
                    l,
                    x,
                    y,
                    z,
                    x0,
                    y0,
                    z0,
                    pitch,
                    slice,
                    row_stride,
                    slice_stride,
                    src,
                    dst,
                );
                proof {
                    assert forall|xx: int, yy: int, zz: int|
                        #[trigger] done_set(xx, yy, zz) implies mid[spec_image_addr(
                        *img,
                        li,
                        xx,
                        yy,
                        zz,
                    )] == src@[spec_byte_offset(
                        xx - x0,
                        yy - y0,
                        zz - z0,
                        pitch as int,
                        slice as int,
                    )] by {
                        assert(bulk_done(
                            xx,
                            yy,
                            zz,
                            xs as int,
                            xe as int,
                            ys as int,
                            ye as int,
                            zs as int,
                            ze as int,
                            x as int,
                            y as int,
                            z as int,
                        ));
                    }
                    assert forall|a: int|
                        0 <= a < mid.len() && !(exists|xx: int, yy: int, zz: int|
                            done_set(xx, yy, zz) && #[trigger] spec_image_addr(
                                *img,
                                li,
                                xx,
                                yy,
                                zz,
                            ) == a) implies mid[a] == #[trigger] dst0[a] by {
                        if bulk_covered(
                            *img,
                            li,
                            xs as int,
                            xe as int,
                            ys as int,
                            ye as int,
                            zs as int,
                            ze as int,
                            x as int,
                            y as int,
                            z as int,
                            a,
                        ) {
                            let (xx, yy, zz) = choose|xx: int, yy: int, zz: int|
                                bulk_done(
                                    xx,
                                    yy,
                                    zz,
                                    xs as int,
                                    xe as int,
                                    ys as int,
                                    ye as int,
                                    zs as int,
                                    ze as int,
                                    x as int,
                                    y as int,
                                    z as int,
                                ) && #[trigger] spec_image_addr(*img, li, xx, yy, zz) == a;
                            assert(done_set(xx, yy, zz) && spec_image_addr(*img, li, xx, yy, zz)
                                == a);
                            assert(false);
                        }
                    }
                    lemma_to_tiled_extend(
                        *img,
                        li,
                        x0 as int,
                        y0 as int,
                        z0 as int,
                        pitch as int,
                        slice as int,
                        src@,
                        dst0,
                        mid,
                        dst@,
                        done_set,
                        x as int,
                        x + 64,
                        y as int,
                        y + 8,
                        z as int,
                        z + 1,
                    );
                    assert forall|xx: int, yy: int, zz: int|
                        bulk_done(
                            xx,
                            yy,
                            zz,
                            xs as int,
                            xe as int,
                            ys as int,
                            ye as int,
                            zs as int,
                            ze as int,
                            x + 64,
                            y as int,
                            z as int,
                        ) implies dst@[#[trigger] spec_image_addr(*img, li, xx, yy, zz)] == src@[
                        spec_byte_offset(
                            xx - x0,
                            yy - y0,
                            zz - z0,
                            pitch as int,
                            slice as int,
                        )] by {
                        assert(done_set(xx, yy, zz) || (x <= xx < x + 64 && y <= yy < y + 8 && z
                            <= zz < z + 1));
                    }
                    assert forall|a: int|
                        0 <= a < dst.len() && !bulk_covered(
                            *img,
                            li,
                            xs as int,
                            xe as int,
                            ys as int,
                            ye as int,
                            zs as int,
                            ze as int,
                            x + 64,
                            y as int,
                            z as int,
                            a,
                        ) implies dst@[a] == #[trigger] dst0[a] by {
                        if exists|xx: int, yy: int, zz: int|
                            (done_set(xx, yy, zz) || (x <= xx < x + 64 && y <= yy < y + 8 && z
                                <= zz < z + 1)) && #[trigger] spec_image_addr(*img, li, xx, yy, zz)
                                == a {
                            let (xx, yy, zz) = choose|xx: int, yy: int, zz: int|
                                (done_set(xx, yy, zz) || (x <= xx < x + 64 && y <= yy < y + 8 && z
                                    <= zz < z + 1)) && #[trigger] spec_image_addr(
                                    *img,
                                    li,
                                    xx,
                                    yy,
                                    zz,
                                ) == a;
                            assert(bulk_done(
                                xx,
                                yy,
                                zz,
                                xs as int,
                                xe as int,
                                ys as int,
                                ye as int,
                                zs as int,
                                ze as int,
                                x + 64,
                                y as int,
                                z as int,
                            ) && spec_image_addr(*img, li, xx, yy, zz) == a);
                            assert(false);
                        }
                    }
                }
                x = x + 64;
            }
            y = y + 8;
        }
        z = z + 1;
    }
    proof {
        assert forall|x: int, y: int, z: int|
            xs <= x < xe && ys <= y < ye && zs <= z < ze implies dst@[
        #[trigger] spec_image_addr(*img, li, x, y, z)] == src@[spec_byte_offset(
            x - x0,
            y - y0,
            z - z0,
            pitch as int,
            slice as int,
        )] by {
            assert(bulk_done(
                x,
                y,
                z,
                xs as int,
                xe as int,
                ys as int,
                ye as int,
                zs as int,
                ze as int,
                xs as int,
                ys as int,
                ze as int,
            ));
        }
        assert forall|a: int|
            0 <= a < dst.len() && !region_covers(
                *img,
                li,
                xs as int,
                ys as int,
                zs as int,
                xe - xs,
                ye - ys,
                ze - zs,
                a,
            ) implies dst@[a] == #[trigger] dst0[a] by {
            if bulk_covered(
                *img,
                li,
                xs as int,
                xe as int,
                ys as int,
                ye as int,
                zs as int,
                ze as int,
                xs as int,
                ys as int,
                ze as int,
                a,
            ) {
                let (xx, yy, zz) = choose|xx: int, yy: int, zz: int|
                    bulk_done(
                        xx,
                        yy,
                        zz,
                        xs as int,
                        xe as int,
                        ys as int,
                        ye as int,
                        zs as int,
                        ze as int,
                        xs as int,
                        ys as int,
                        ze as int,
                    ) && #[trigger] spec_image_addr(*img, li, xx, yy, zz) == a;
                assert(region_covers(
                    *img,
                    li,
                    xs as int,
                    ys as int,
                    zs as int,
                    xe - xs,
                    ye - ys,
                    ze - zs,
                    a,
                ));
                assert(false);
            }
        }
    }
}

/// Extends a partially performed download, as `lemma_to_tiled_extend` does
/// for uploads: the destination is packed with the region's dimensions.
#[verifier::rlimit(30)]
proof fn lemma_to_linear_extend(
    img: Image,
    l: int,
    x0: int,
    y0: int,
    z0: int,
    wr: int,
    hr: int,
    dr: int,
    src: Seq<u8>,
    dst0: Seq<u8>,
    dst1: Seq<u8>,
    dst2: Seq<u8>,
    done: spec_fn(int, int, int) -> bool,
    bxs: int,
    bxe: int,
    bys: int,
    bye: int,
    bzs: int,
    bze: int,
)
    requires
        forall|x: int, y: int, z: int|
            #[trigger] done(x, y, z) ==> x0 <= x < x0 + wr && y0 <= y < y0 + hr && z0 <= z < z0
                + dr && !(bxs <= x < bxe && bys <= y < bye && bzs <= z < bze),
        x0 <= bxs && bxs <= bxe && bxe <= x0 + wr,
        y0 <= bys && bys <= bye && bye <= y0 + hr,
        z0 <= bzs && bzs <= bze && bze <= z0 + dr,
        wr * hr * dr <= dst0.len(),
        dst1.len() == dst0.len(),
        dst2.len() == dst1.len(),
        forall|x: int, y: int, z: int|
            #[trigger] done(x, y, z) ==> dst1[spec_byte_offset(x - x0, y - y0, z - z0, wr, wr * hr)]
                == src[spec_image_addr(img, l, x, y, z)],
        forall|a: int|
            0 <= a < dst1.len() && !(exists|x: int, y: int, z: int|
                done(x, y, z) && #[trigger] spec_byte_offset(x - x0, y - y0, z - z0, wr, wr * hr)
                    == a) ==> dst1[a] == #[trigger] dst0[a],
        forall|x: int, y: int, z: int|
            bxs <= x < bxe && bys <= y < bye && bzs <= z < bze ==> dst2[spec_byte_offset(
                x - x0,
                y - y0,
                z - z0,
                wr,
                wr * hr,
            )] == src[#[trigger] spec_image_addr(img, l, x, y, z)],
        forall|a: int|
            0 <= a < dst1.len() && !packed_covered_before(
                x0,
                y0,
                z0,
                wr,
                hr,
                bxs,
                bxe,
                bys,
                bye,
                bzs,
                bze,
                bxs,
                bys,
                bze,
                a,
            ) ==> dst2[a] == #[trigger] dst1[a],
    ensures
        forall|x: int, y: int, z: int|
            #[trigger] done(x, y, z) || (bxs <= x < bxe && bys <= y < bye && bzs <= z < bze)
                ==> dst2[spec_byte_offset(x - x0, y - y0, z - z0, wr, wr * hr)] == src[
                spec_image_addr(img, l, x, y, z)],
        forall|a: int|
            0 <= a < dst2.len() && !(exists|x: int, y: int, z: int|
                (done(x, y, z) || (bxs <= x < bxe && bys <= y < bye && bzs <= z < bze))
                    && #[trigger] spec_byte_offset(x - x0, y - y0, z - z0, wr, wr * hr) == a)
                ==> dst2[a] == #[trigger] dst0[a],
{
    assert forall|x: int, y: int, z: int|
        #[trigger] done(x, y, z) || (bxs <= x < bxe && bys <= y < bye && bzs <= z
            < bze) implies dst2[spec_byte_offset(x - x0, y - y0, z - z0, wr, wr * hr)] == src[
    spec_image_addr(img, l, x, y, z)] by {
        lemma_byte_offset_in_range(wr, hr, dr, x - x0, y - y0, z - z0);
        if done(x, y, z) {
            let a = spec_byte_offset(x - x0, y - y0, z - z0, wr, wr * hr);
            if packed_covered_before(
                x0,
                y0,
                z0,
                wr,
                hr,
                bxs,
                bxe,
                bys,
                bye,
                bzs,
                bze,
                bxs,
                bys,
                bze,
                a,
            ) {
                let (bx, by, bz) = choose|bx: int, by: int, bz: int|
                    bxs <= bx < bxe && bys <= by < bye && bzs <= bz < bze && lex_before(
                        bx,
                        by,
                        bz,
                        bxs,
                        bys,
                        bze,
                    ) && #[trigger] spec_byte_offset(bx - x0, by - y0, bz - z0, wr, wr * hr) == a;
                lemma_byte_offset_injective(
                    wr,
                    hr,
                    bx - x0,
                    by - y0,
                    bz - z0,
                    x - x0,
                    y - y0,
                    z - z0,
                );
                assert(false);
            }
            assert(dst2[a] == dst1[a]);
            assert(dst1[a] == src[spec_image_addr(img, l, x, y, z)]);
        }
    }
    assert forall|a: int|
        0 <= a < dst2.len() && !(exists|x: int, y: int, z: int|
            (done(x, y, z) || (bxs <= x < bxe && bys <= y < bye && bzs <= z < bze))
                && #[trigger] spec_byte_offset(x - x0, y - y0, z - z0, wr, wr * hr)
                == a) implies dst2[a] == #[trigger] dst0[a] by {
        if packed_covered_before(
            x0,
            y0,
            z0,
            wr,
            hr,
            bxs,
            bxe,
            bys,
            bye,
            bzs,
            bze,
            bxs,
            bys,
            bze,
            a,
        ) {
            let (bx, by, bz) = choose|bx: int, by: int, bz: int|
                bxs <= bx < bxe && bys <= by < bye && bzs <= bz < bze && lex_before(
                    bx,
                    by,
                    bz,
                    bxs,
                    bys,
                    bze,
                ) && #[trigger] spec_byte_offset(bx - x0, by - y0, bz - z0, wr, wr * hr) == a;
            assert((done(bx, by, bz) || (bxs <= bx < bxe && bys <= by < bye && bzs <= bz < bze))
                && spec_byte_offset(bx - x0, by - y0, bz - z0, wr, wr * hr) == a);
            assert(false);
        }
        assert(dst2[a] == dst1[a]);
        if exists|x: int, y: int, z: int|
            done(x, y, z) && #[trigger] spec_byte_offset(x - x0, y - y0, z - z0, wr, wr * hr)
                == a {
            let (x, y, z) = choose|x: int, y: int, z: int|
                done(x, y, z) && #[trigger] spec_byte_offset(x - x0, y - y0, z - z0, wr, wr * hr)
                    == a;
            assert((done(x, y, z) || (bxs <= x < bxe && bys <= y < bye && bzs <= z < bze))
                && spec_byte_offset(x - x0, y - y0, z - z0, wr, wr * hr) == a);
            assert(false);
        }
        assert(dst1[a] == dst0[a]);
    }
}

/// Copies one whole, GOB-aligned 64x8x1 window out of the tiled buffer:
/// the bulk unit of the download's tile-granular strategy.  The GOB's
/// base address is computed once and each 16-byte sector moves as a
/// contiguous run into the packed destination.
#[verifier::loop_isolation(false)]
fn copy_gob_to_linear(
    img: &Image,
    l: usize,
    gx: usize,
    gy: usize,
    gz: usize,
    x0: usize,
    y0: usize,
    z0: usize,
    wr: usize,
    hr: usize,
    dr: usize,
    row_stride: usize,
    slice_stride: usize,
    src: &[u8],
    dst: &mut Vec<u8>,
)
    requires
        img.wf(),
        l < img.levels.len(),
        lvl_tiling(*img, l as int).is_tiled,
        spec_tiling_supported(lvl_tiling(*img, l as int)),
        row_stride == lvl_row_tl(*img, l as int),
        slice_stride == lvl_row_tl(*img, l as int) * lvl_height_tl(*img, l as int),
        gx % 64 == 0,
        gy % 8 == 0,
        x0 <= gx,
        y0 <= gy,
        z0 <= gz,
        gx + 64 <= x0 + wr,
        gy + 8 <= y0 + hr,
        gz < z0 + dr,
        x0 + wr <= lvl_w_B(*img, l as int),
        y0 + hr <= lvl_h(*img, l as int),
        z0 + dr <= lvl_d(*img, l as int),
        lvl_len(*img, l as int) <= src.len(),
        wr * hr * dr <= old(dst).len(),
    ensures
        final(dst).len() == old(dst).len(),
        forall|x: int, y: int, z: int|
            gx <= x < gx + 64 && gy <= y < gy + 8 && gz <= z < gz + 1 ==> final(dst)@[
                spec_byte_offset(x - x0, y - y0, z - z0, wr as int, wr * hr)] == src@[
                #[trigger] spec_image_addr(*img, l as int, x, y, z)],
        forall|a: int|
            0 <= a < old(dst).len() && !packed_covered_before(
                x0 as int,
                y0 as int,
                z0 as int,
                wr as int,
                hr as int,
                gx as int,
                gx + 64,
                gy as int,
                gy + 8,
                gz as int,
                gz + 1,
                gx as int,
                gy as int,
                gz + 1,
                a,
            ) ==> final(dst)@[a] == #[trigger] old(dst)@[a],
{
    let ghost li = l as int;
    let ghost dst0 = dst@;
    let ghost t_spec = lvl_tiling(*img, li);
    let t = img.levels[l].tiling;
    proof {
        lemma_image_addr_in_range(*img, li, gx as int, gy as int, gz as int);
        assert(wr * hr <= wr * hr * dr && wr * hr >= 0) by (nonlinear_arith)
            requires
                wr >= 0,
                hr >= 0,
                dr >= 1,
        ;
    }
    let base = image_addr(img, l, t, gx, gy, gz, row_stride, slice_stride);
    let packed_slice = wr * hr;
    let mut row: usize = 0;
    while row < 8
        invariant
            row <= 8,
            dst.len() == dst0.len(),
            forall|xx: int, yy: int, zz: int|
                gx <= xx < gx + 64 && gy <= yy < gy + 8 && gz <= zz < gz + 1 && lex_before(
                    xx,
                    yy,
                    zz,
                    gx as int,
                    gy + row,
                    gz as int,
                ) ==> dst@[spec_byte_offset(xx - x0, yy - y0, zz - z0, wr as int, wr * hr)] == src@[
                #[trigger] spec_image_addr(*img, li, xx, yy, zz)],
            forall|a: int|
                0 <= a < dst.len() && !packed_covered_before(
                    x0 as int,
                    y0 as int,
                    z0 as int,
                    wr as int,
                    hr as int,
                    gx as int,
                    gx + 64,
                    gy as int,
                    gy + 8,
                    gz as int,
                    gz + 1,
                    gx as int,
                    gy + row,
                    gz as int,
                    a,
                ) ==> dst@[a] == #[trigger] dst0[a],
        decreases 8 - row,
    {
        proof {
            lemma_byte_offset_in_range(
                wr as int,
                hr as int,
                dr as int,
                gx - x0,
                gy + row - y0,
                gz - z0,
            );
        }
        let pa_row = Tiling::get_byte_offset(gx - x0, gy + row - y0, gz - z0, wr, packed_slice);
        let mut sector: usize = 0;
        while sector < 4
            invariant
                sector <= 4,
                row < 8,
                pa_row == spec_byte_offset(
                    gx - x0,
                    gy + row - y0,
                    gz - z0,
                    wr as int,
                    wr * hr,
                ),
                dst.len() == dst0.len(),
                forall|xx: int, yy: int, zz: int|
                    gx <= xx < gx + 64 && gy <= yy < gy + 8 && gz <= zz < gz + 1 && lex_before(
                        xx,
                        yy,
                        zz,
                        gx + sector * 16,
                        gy + row,
                        gz as int,
                    ) ==> dst@[spec_byte_offset(xx - x0, yy - y0, zz - z0, wr as int, wr * hr)]
                        == src@[#[trigger] spec_image_addr(*img, li, xx, yy, zz)],
                forall|a: int|
                    0 <= a < dst.len() && !packed_covered_before(
                        x0 as int,
                        y0 as int,
                        z0 as int,
                        wr as int,
                        hr as int,
                        gx as int,
                        gx + 64,
                        gy as int,
                        gy + 8,
                        gz as int,
                        gz + 1,
                        gx + sector * 16,
                        gy + row,
                        gz as int,
                        a,
                    ) ==> dst@[a] == #[trigger] dst0[a],
            decreases 4 - sector,
        {
            let so = Tiling::get_pixel_offset(sector * 16, row);
            let mut i: usize = 0;
            while i < 16
                invariant
                    i <= 16,
                    sector < 4,
                    row < 8,
                    pa_row == spec_byte_offset(
                        gx - x0,
                        gy + row - y0,
                        gz - z0,
                        wr as int,
                        wr * hr,
                    ),
                    so == spec_pixel_offset(sector * 16, row as int),
                    dst.len() == dst0.len(),
                    forall|xx: int, yy: int, zz: int|
                        gx <= xx < gx + 64 && gy <= yy < gy + 8 && gz <= zz < gz + 1 && lex_before(
                            xx,
                            yy,
                            zz,
                            gx + sector * 16 + i,
                            gy + row,
                            gz as int,
                        ) ==> dst@[spec_byte_offset(xx - x0, yy - y0, zz - z0, wr as int, wr * hr)]
                            == src@[#[trigger] spec_image_addr(*img, li, xx, yy, zz)],
                    forall|a: int|
                        0 <= a < dst.len() && !packed_covered_before(
                            x0 as int,
                            y0 as int,
                            z0 as int,
                            wr as int,
                            hr as int,
                            gx as int,
                            gx + 64,
                            gy as int,
                            gy + 8,
                            gz as int,
                            gz + 1,
                            gx + sector * 16 + i,
                            gy + row,
                            gz as int,
                            a,
                        ) ==> dst@[a] == #[trigger] dst0[a],
                decreases 16 - i,
            {
                let ghost u = sector * 16 + i;
                let ghost px = gx + sector * 16 + i;
                let ghost py_ = gy + row;
                proof {
                    crate::addr::lemma_gob_local_offset(
                        t_spec,
                        lvl_row_tl(*img, li),
                        lvl_row_tl(*img, li) * lvl_height_tl(*img, li),
                        gx as int,
                        gy as int,
                        gz as int,
                        u,
                        row as int,
                    );
                    crate::addr::lemma_pixel_offset_contig(sector * 16, row as int, i as int);
                    lemma_image_addr_in_range(*img, li, px, py_, gz as int);
                    lemma_byte_offset_in_range(
                        wr as int,
                        hr as int,
                        dr as int,
                        px - x0,
                        py_ - y0,
                        gz - z0,
                    );
                    assert(base + so + i == spec_image_addr(*img, li, px, py_, gz as int));
                    assert(pa_row + sector * 16 + i == spec_byte_offset(
                        px - x0,
                        py_ - y0,
                        gz - z0,
                        wr as int,
                        wr * hr,
                    ));
                }
                let ta = base + so + i;
                let pa = pa_row + sector * 16 + i;
                let ghost pre = dst@;
                let byte = src[ta];
                dst[pa] = byte;
                proof {
                    assert(dst@ == pre.update(pa as int, byte));
                    assert forall|xx: int, yy: int, zz: int|
                        gx <= xx < gx + 64 && gy <= yy < gy + 8 && gz <= zz < gz + 1 && lex_before(
                            xx,
                            yy,
                            zz,
                            px,
                            py_,
                            gz as int,
                        ) implies dst@[spec_byte_offset(
                        xx - x0,
                        yy - y0,
                        zz - z0,
                        wr as int,
                        wr * hr,
                    )] == src@[#[trigger] spec_image_addr(*img, li, xx, yy, zz)] by {
                        lemma_byte_offset_in_range(
                            wr as int,
                            hr as int,
                            dr as int,
                            xx - x0,
                            yy - y0,
                            zz - z0,
                        );
                        if spec_byte_offset(xx - x0, yy - y0, zz - z0, wr as int, wr * hr)
                            == pa as int {
                            lemma_byte_offset_injective(
                                wr as int,
                                hr as int,
                                xx - x0,
                                yy - y0,
                                zz - z0,
                                px - x0,
                                py_ - y0,
                                gz - z0,
                            );
                        }
                    }
                    assert(packed_covered_before(
                        x0 as int,
                        y0 as int,
                        z0 as int,
                        wr as int,
                        hr as int,
                        gx as int,
                        gx + 64,
                        gy as int,
                        gy + 8,
                        gz as int,
                        gz + 1,
                        px + 1,
                        py_,
                        gz as int,
                        pa as int,
                    ));
                }
                i = i + 1;
            }
            sector = sector + 1;
        }
        row = row + 1;
    }
}

/// Whether packed destination address `a` belongs to an interior point the
/// download's GOB walk has already copied.
pub open spec fn bulk_packed_covered(
    x0: int,
    y0: int,
    z0: int,
    wr: int,
    hr: int,
    xs: int,
    xe: int,
    ys: int,
    ye: int,
    zs: int,
    ze: int,
    x: int,
    y: int,
    z: int,
    a: int,
) -> bool {
    exists|xx: int, yy: int, zz: int|
        bulk_done(xx, yy, zz, xs, xe, ys, ye, zs, ze, x, y, z) && #[trigger] spec_byte_offset(
            xx - x0,
            yy - y0,
            zz - z0,
            wr,
            wr * hr,
        ) == a
}

/// The bulk path of the download's tile-granular strategy: walks a
/// GOB-aligned interior box one whole GOB at a time.
#[verifier::loop_isolation(false)]
#[verifier::rlimit(60)]
fn bulk_to_linear(
    img: &Image,
    l: usize,
    xs: usize,
    xe: usize,
    ys: usize,
    ye: usize,
    zs: usize,
    ze: usize,
    x0: usize,
    y0: usize,
    z0: usize,
    wr: usize,
    hr: usize,
    dr: usize,
    src: &[u8],
    dst: &mut Vec<u8>,
)
    requires
        img.wf(),
        l < img.levels.len(),
        lvl_tiling(*img, l as int).is_tiled,
        spec_tiling_supported(lvl_tiling(*img, l as int)),
        xs % 64 == 0,
        xe % 64 == 0,
        ys % 8 == 0,
        ye % 8 == 0,
        x0 <= xs <= xe <= x0 + wr,
        y0 <= ys <= ye <= y0 + hr,
        z0 <= zs <= ze <= z0 + dr,
        x0 + wr <= lvl_w_B(*img, l as int),
        y0 + hr <= lvl_h(*img, l as int),
        z0 + dr <= lvl_d(*img, l as int),
        lvl_len(*img, l as int) <= src.len(),
        wr * hr * dr <= old(dst).len(),
    ensures
        final(dst).len() == old(dst).len(),
        forall|x: int, y: int, z: int|
            xs <= x < xe && ys <= y < ye && zs <= z < ze ==> final(dst)@[spec_byte_offset(
                x - x0,
                y - y0,
                z - z0,
                wr as int,
                wr * hr,
            )] == src@[#[trigger] spec_image_addr(*img, l as int, x, y, z)],
        forall|a: int|
            0 <= a < old(dst).len() && !packed_covered_before(
                x0 as int,
                y0 as int,
                z0 as int,
                wr as int,
                hr as int,
                xs as int,
                xe as int,
                ys as int,
                ye as int,
                zs as int,
                ze as int,
                xs as int,
                ys as int,
                ze as int,
                a,
            ) ==> final(dst)@[a] == #[trigger] old(dst)@[a],
{
    if xs >= xe || ys >= ye || zs >= ze {
        return ;
    }
    let ghost li = l as int;
    let ghost dst0 = dst@;
    let t = img.levels[l].tiling;
    let (row_stride, slice_stride) = level_strides(img, l, t);
    let mut z = zs;
    while z < ze
        invariant
            zs <= z <= ze,
            dst.len() == dst0.len(),
            forall|xx: int, yy: int, zz: int|
                bulk_done(
                    xx,
                    yy,
                    zz,
                    xs as int,
                    xe as int,
                    ys as int,
                    ye as int,
                    zs as int,
                    ze as int,
                    xs as int,
                    ys as int,
                    z as int,
                ) ==> dst@[spec_byte_offset(xx - x0, yy - y0, zz - z0, wr as int, wr * hr)] == src@[
                #[trigger] spec_image_addr(*img, li, xx, yy, zz)],
            forall|a: int|
                0 <= a < dst.len() && !bulk_packed_covered(
                    x0 as int,
                    y0 as int,
                    z0 as int,
                    wr as int,
                    hr as int,
                    xs as int,
                    xe as int,
                    ys as int,
                    ye as int,
                    zs as int,
                    ze as int,
                    xs as int,
                    ys as int,
                    z as int,
                    a,
                ) ==> dst@[a] == #[trigger] dst0[a],
        decreases ze - z,
    {
        let mut y = ys;
        while y < ye
            invariant
                ys <= y <= ye,
                zs <= z < ze,
                y % 8 == ys % 8,
                dst.len() == dst0.len(),
                forall|xx: int, yy: int, zz: int|
                    bulk_done(
                        xx,
                        yy,
                        zz,
                        xs as int,
                        xe as int,
                        ys as int,
                        ye as int,
                        zs as int,
                        ze as int,
                        xs as int,
                        y as int,
                        z as int,
                    ) ==> dst@[spec_byte_offset(xx - x0, yy - y0, zz - z0, wr as int, wr * hr)]
                        == src@[#[trigger] spec_image_addr(*img, li, xx, yy, zz)],
                forall|a: int|
                    0 <= a < dst.len() && !bulk_packed_covered(
                        x0 as int,
                        y0 as int,
                        z0 as int,
                        wr as int,
                        hr as int,
                        xs as int,
                        xe as int,
                        ys as int,
                        ye as int,
                        zs as int,
                        ze as int,
                        xs as int,
                        y as int,
                        z as int,
                        a,
                    ) ==> dst@[a] == #[trigger] dst0[a],
            decreases ye - y,
        {
            let mut x = xs;
            while x < xe
                invariant
                    xs <= x <= xe,
                    ys <= y < ye,
                    zs <= z < ze,
                    x % 64 == 0,
                    y % 8 == ys % 8,
                    dst.len() == dst0.len(),
                    forall|xx: int, yy: int, zz: int|
                        bulk_done(
                            xx,
                            yy,
                            zz,
                            xs as int,
                            xe as int,
                            ys as int,
                            ye as int,
                            zs as int,
                            ze as int,
                            x as int,
                            y as int,
                            z as int,
                        ) ==> dst@[spec_byte_offset(xx - x0, yy - y0, zz - z0, wr as int, wr * hr)]
                            == src@[#[trigger] spec_image_addr(*img, li, xx, yy, zz)],
                    forall|a: int|
                        0 <= a < dst.len() && !bulk_packed_covered(
                            x0 as int,
                            y0 as int,
                            z0 as int,
                            wr as int,
                            hr as int,
                            xs as int,
                            xe as int,
                            ys as int,
                            ye as int,
                            zs as int,
                            ze as int,
                            x as int,
                            y as int,
                            z as int,
                            a,
                        ) ==> dst@[a] == #[trigger] dst0[a],
                decreases xe - x,
            {
                let ghost mid = dst@;
                let ghost done_set = |xx: int, yy: int, zz: int|
                    bulk_done(
                        xx,
                        yy,
                        zz,
                        xs as int,
                        xe as int,
                        ys as int,
                        ye as int,
                        zs as int,
                        ze as int,
                        x as int,
                        y as int,
                        z as int,
                    );
                copy_gob_to_linear(
                    img,
                    l,
                    x,
                    y,
                    z,
                    x0,
                    y0,
                    z0,
                    wr,
                    hr,
                    dr,
                    row_stride,
                    slice_stride,
                    src,
                    dst,
                );
                proof {
                    assert forall|xx: int, yy: int, zz: int|
                        #[trigger] done_set(xx, yy, zz) implies mid[spec_byte_offset(
                        xx - x0,
                        yy - y0,
                        zz - z0,
                        wr as int,
                        wr * hr,
                    )] == src@[spec_image_addr(*img, li, xx, yy, zz)] by {
                        assert(bulk_done(
                            xx,
                            yy,
                            zz,
                            xs as int,
                            xe as int,
                            ys as int,
                            ye as int,
                            zs as int,
                            ze as int,
                            x as int,
                            y as int,
                            z as int,
                        ));
                    }
                    assert forall|a: int|
                        0 <= a < mid.len() && !(exists|xx: int, yy: int, zz: int|
                            done_set(xx, yy, zz) && #[trigger] spec_byte_offset(
                                xx - x0,
                                yy - y0,
                                zz - z0,
                                wr as int,
                                wr * hr,
                            ) == a) implies mid[a] == #[trigger] dst0[a] by {
                        if bulk_packed_covered(
                            x0 as int,
                            y0 as int,
                            z0 as int,
                            wr as int,
                            hr as int,
                            xs as int,
                            xe as int,
                            ys as int,
                            ye as int,
                            zs as int,
                            ze as int,
                            x as int,
                            y as int,
                            z as int,
                            a,
                        ) {
                            let (xx, yy, zz) = choose|xx: int, yy: int, zz: int|
                                bulk_done(
                                    xx,
                                    yy,
                                    zz,
                                    xs as int,
                                    xe as int,
                                    ys as int,
                                    ye as int,
                                    zs as int,
                                    ze as int,
                                    x as int,
                                    y as int,
                                    z as int,
                                ) && #[trigger] spec_byte_offset(
                                    xx - x0,
                                    yy - y0,
                                    zz - z0,
                                    wr as int,
                                    wr * hr,
                                ) == a;
                            assert(done_set(xx, yy, zz) && spec_byte_offset(
                                xx - x0,
                                yy - y0,
                                zz - z0,
                                wr as int,
                                wr * hr,
                            ) == a);
                            assert(false);
                        }
                    }
                    lemma_to_linear_extend(
                        *img,
                        li,
                        x0 as int,
                        y0 as int,
                        z0 as int,
                        wr as int,
                        hr as int,
                        dr as int,
                        src@,
                        dst0,
                        mid,
                        dst@,
                        done_set,
                        x as int,
                        x + 64,
                        y as int,
                        y + 8,
                        z as int,
                        z + 1,
                    );
                    assert forall|xx: int, yy: int, zz: int|
                        bulk_done(
                            xx,
                            yy,
                            zz,
                            xs as int,
                            xe as int,
                            ys as int,
                            ye as int,
                            zs as int,
                            ze as int,
                            x + 64,
                            y as int,
                            z as int,
                        ) implies dst@[spec_byte_offset(
                        xx - x0,
                        yy - y0,
                        zz - z0,
                        wr as int,
                        wr * hr,
                    )] == src@[#[trigger] spec_image_addr(*img, li, xx, yy, zz)] by {
                        assert(done_set(xx, yy, zz) || (x <= xx < x + 64 && y <= yy < y + 8 && z
                            <= zz < z + 1));
                    }
                    assert forall|a: int|
                        0 <= a < dst.len() && !bulk_packed_covered(
                            x0 as int,
                            y0 as int,
                            z0 as int,
                            wr as int,
                            hr as int,
                            xs as int,
                            xe as int,
                            ys as int,
                            ye as int,
                            zs as int,
                            ze as int,
                            x + 64,
                            y as int,
                            z as int,
                            a,
                        ) implies dst@[a] == #[trigger] dst0[a] by {
                        if exists|xx: int, yy: int, zz: int|
                            (done_set(xx, yy, zz) || (x <= xx < x + 64 && y <= yy < y + 8 && z
                                <= zz < z + 1)) && #[trigger] spec_byte_offset(
                                xx - x0,
                                yy - y0,
                                zz - z0,
                                wr as int,
                                wr * hr,
                            ) == a {
                            let (xx, yy, zz) = choose|xx: int, yy: int, zz: int|
                                (done_set(xx, yy, zz) || (x <= xx < x + 64 && y <= yy < y + 8 && z
                                    <= zz < z + 1)) && #[trigger] spec_byte_offset(
                                    xx - x0,
                                    yy - y0,
                                    zz - z0,
                                    wr as int,
                                    wr * hr,
                                ) == a;
                            assert(bulk_done(
                                xx,
                                yy,
                                zz,
                                xs as int,
                                xe as int,
                                ys as int,
                                ye as int,
                                zs as int,
                                ze as int,
                                x + 64,
                                y as int,
                                z as int,
                            ) && spec_byte_offset(xx - x0, yy - y0, zz - z0, wr as int, wr * hr)
                                == a);
                            assert(false);
                        }
                    }
                }
                x = x + 64;
            }
            y = y + 8;
        }
        z = z + 1;
    }
    proof {
        assert forall|x: int, y: int, z: int|
            xs <= x < xe && ys <= y < ye && zs <= z < ze implies dst@[spec_byte_offset(
            x - x0,
            y - y0,
            z - z0,
            wr as int,
            wr * hr,
        )] == src@[#[trigger] spec_image_addr(*img, li, x, y, z)] by {
            assert(bulk_done(
                x,
                y,
                z,
                xs as int,
                xe as int,
                ys as int,
                ye as int,
                zs as int,
                ze as int,
                xs as int,
                ys as int,
                ze as int,
            ));
        }
        assert forall|a: int|
            0 <= a < dst.len() && !packed_covered_before(
                x0 as int,
                y0 as int,
                z0 as int,
                wr as int,
                hr as int,
                xs as int,
                xe as int,
                ys as int,
                ye as int,
                zs as int,
                ze as int,
                xs as int,
                ys as int,
                ze as int,
                a,
            ) implies dst@[a] == #[trigger] dst0[a] by {
            if bulk_packed_covered(
                x0 as int,
                y0 as int,
                z0 as int,
                wr as int,
                hr as int,
                xs as int,
                xe as int,
                ys as int,
                ye as int,
                zs as int,
                ze as int,
                xs as int,
                ys as int,
                ze as int,
                a,
            ) {
                let (xx, yy, zz) = choose|xx: int, yy: int, zz: int|
                    bulk_done(
                        xx,
                        yy,
                        zz,
                        xs as int,
                        xe as int,
                        ys as int,
                        ye as int,
                        zs as int,
                        ze as int,
                        xs as int,
                        ys as int,
                        ze as int,
                    ) && #[trigger] spec_byte_offset(xx - x0, yy - y0, zz - z0, wr as int, wr * hr)
                        == a;
                assert(packed_covered_before(
                    x0 as int,
                    y0 as int,
                    z0 as int,
                    wr as int,
                    hr as int,
                    xs as int,
                    xe as int,
                    ys as int,
                    ye as int,
                    zs as int,
                    ze as int,
                    xs as int,
                    ys as int,
                    ze as int,
                    a,
                ));
                assert(false);
            }
        }
    }
}

} // verus!
