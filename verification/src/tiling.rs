//! The tiling descriptor: one mip level's block-linear layout, how it is
//! derived (`choose`, `sparse`), and how it is clamped to a level's extent.

use vstd::prelude::*;

verus! {

use vstd::arithmetic::power2::{lemma2_to64, lemma_pow2_pos, pow2};
use crate::extent::{Bytes, Elements, Extent4D, GOBs, Pixels, SampleLayout, Tiles};
use crate::format::Format;
use crate::image::{ImageDim, ImageUsageFlags, IMAGE_USAGE_2D_VIEW_BIT, IMAGE_USAGE_LINEAR_BIT};
use crate::math::{div_ceil, ilog2_ceil, log2_ceil, lemma_pow2_le};

/// A GOB is always 64 bytes wide.
pub const GOB_WIDTH_B: u32 = 64;

/// A GOB covers a single z slice.
pub const GOB_DEPTH: u32 = 1;

pub open spec fn spec_gob_height(gob_height_is_8: bool) -> int {
    if gob_height_is_8 {
        8
    } else {
        4
    }
}

/// Rows covered by one GOB: a hardware-defined binary choice of 8 or 4.
pub fn gob_height(gob_height_is_8: bool) -> (r: u32)
    ensures
        r == spec_gob_height(gob_height_is_8),
{
    if gob_height_is_8 {
        8
    } else {
        4
    }
}

/// A configuration the hardware cannot express, rejected when a tiling is
/// derived rather than silently mislaid out.
#[derive(Clone, Copy, Debug, PartialEq, Eq, Structural)]
pub enum TilingError {
    /// The element bit-width has no standard sparse block shape.
    UnsupportedTexelSize,
    /// Sparse block shapes exist only for 2D and 3D images.
    UnsupportedDimension,
}

/// One mip level's physical layout: linear, or a block-linear tiling whose
/// block spans `2^x_log2` GOBs of width, `2^y_log2` GOBs of height and
/// `2^z_log2` slices of depth.
#[derive(Clone, Copy, Debug, PartialEq, Eq, Structural)]
pub struct Tiling {
    pub is_tiled: bool,
    /// Whether the GOB height is 8 rows (else 4).
    pub gob_height_is_8: bool,
    /// log2 of the x tile dimension in GOBs.
    pub x_log2: u8,
    /// log2 of the y tile dimension in GOBs.
    pub y_log2: u8,
    /// log2 of the z tile dimension in GOBs.
    pub z_log2: u8,
}

impl Tiling {
    /// Every tiling this library derives satisfies this: the log2 fields
    /// stay within the hardware's maximal 32x32-GOB block, and a linear
    /// tiling carries no block shape at all.
    pub open spec fn wf(self) -> bool {
        if self.is_tiled {
            self.x_log2 <= 5 && self.y_log2 <= 5 && self.z_log2 <= 5
        } else {
            self.x_log2 == 0 && self.y_log2 == 0 && self.z_log2 == 0
        }
    }

    /// The untiled (linear) descriptor.
    pub open spec fn spec_default() -> Tiling {
        Tiling { is_tiled: false, gob_height_is_8: false, x_log2: 0, y_log2: 0, z_log2: 0 }
    }

    pub open spec fn spec_gob_height(self) -> int {
        spec_gob_height(self.gob_height_is_8)
    }

    /// Byte width of one tile; a linear level degenerates to a unit tile.
    pub open spec fn spec_extent_w_B(self) -> int {
        if self.is_tiled {
            GOB_WIDTH_B * pow2(self.x_log2 as nat)
        } else {
            1
        }
    }

    /// Row count of one tile.
    pub open spec fn spec_extent_h_B(self) -> int {
        if self.is_tiled {
            self.spec_gob_height() * pow2(self.y_log2 as nat)
        } else {
            1
        }
    }

    /// Slice count of one tile.
    pub open spec fn spec_extent_d_B(self) -> int {
        if self.is_tiled {
            GOB_DEPTH * pow2(self.z_log2 as nat)
        } else {
            1
        }
    }

    /// Byte count of one full tile.
    pub open spec fn spec_size_B(self) -> int {
        self.spec_extent_w_B() * self.spec_extent_h_B() * self.spec_extent_d_B()
    }
}

/// Bounds on a well-formed tiling's tile extent and size.
pub proof fn lemma_tile_extent_bounds(t: Tiling)
    requires
        t.wf(),
    ensures
        1 <= t.spec_extent_w_B() <= 2048,
        1 <= t.spec_extent_h_B() <= 256,
        1 <= t.spec_extent_d_B() <= 32,
        1 <= t.spec_size_B() <= 0x1000000,
{
    lemma2_to64();
    if t.is_tiled {
        lemma_pow2_le(t.x_log2 as nat, 5);
        lemma_pow2_le(t.y_log2 as nat, 5);
        lemma_pow2_le(t.z_log2 as nat, 5);
        lemma_pow2_pos(t.x_log2 as nat);
        lemma_pow2_pos(t.y_log2 as nat);
        lemma_pow2_pos(t.z_log2 as nat);
        assert(1 <= t.spec_size_B() <= 0x1000000) by (nonlinear_arith)
            requires
                1 <= t.spec_extent_w_B() <= 2048,
                1 <= t.spec_extent_h_B() <= 256,
                1 <= t.spec_extent_d_B() <= 32,
                t.spec_size_B() == t.spec_extent_w_B() * t.spec_extent_h_B()
                    * t.spec_extent_d_B(),
        ;
    }
}

impl Default for Tiling {
    /// The default descriptor is linear.
    fn default() -> (r: Tiling)
        ensures
            r == Tiling::spec_default(),
    {
        Tiling { is_tiled: false, gob_height_is_8: false, x_log2: 0, y_log2: 0, z_log2: 0 }
    }
}

impl Tiling {
    /// Byte footprint of one tile: `64 << x_log2` bytes of width,
    /// `gob_height << y_log2` rows, `1 << z_log2` slices.  Callers must
    /// special-case linear layouts, whose tile is the unit extent.
    pub fn extent_B(&self) -> (r: Extent4D<Bytes>)
        requires
            self.wf(),
        ensures
            r.width == self.spec_extent_w_B(),
            r.height == self.spec_extent_h_B(),
            r.depth == self.spec_extent_d_B(),
            r.array_len == 1,
    {
        if self.is_tiled {
            proof {
                lemma_tile_extent_bounds(*self);
                vstd::bits::lemma_u32_shl_is_mul(GOB_WIDTH_B, self.x_log2 as u32);
                vstd::bits::lemma_u32_shl_is_mul(
                    spec_gob_height(self.gob_height_is_8) as u32,
                    self.y_log2 as u32,
                );
                vstd::bits::lemma_u32_shl_is_mul(GOB_DEPTH, self.z_log2 as u32);
            }
            Extent4D::new(
                GOB_WIDTH_B << (self.x_log2 as u32),
                gob_height(self.gob_height_is_8) << (self.y_log2 as u32),
                GOB_DEPTH << (self.z_log2 as u32),
                1,
            )
        } else {
            Extent4D::new(1, 1, 1, 1)
        }
    }

    /// Byte count of one full tile: the product of `extent_B`'s components.
    pub fn size_B(&self) -> (r: u32)
        requires
            self.wf(),
        ensures
            r == self.spec_size_B(),
    {
        proof {
            lemma_tile_extent_bounds(*self);
        }
        let extent_B = self.extent_B();
        proof {
            assert(extent_B.width * extent_B.height * extent_B.depth <= 0x1000000
                && extent_B.width * extent_B.height <= 0x80000) by (nonlinear_arith)
                requires
                    1 <= extent_B.width <= 2048,
                    1 <= extent_B.height <= 256,
                    1 <= extent_B.depth <= 32,
            ;
        }
        extent_B.width * extent_B.height * extent_B.depth * extent_B.array_len
    }

    /// What `clamp` returns, stated over the level's byte dimensions.
    pub open spec fn spec_clamp(self, w_B: int, h_B: int, d_B: int) -> Tiling {
        if !self.is_tiled {
            self
        } else {
            let shrink = w_B < self.spec_extent_w_B() || h_B < self.spec_extent_h_B() || d_B
                < self.spec_extent_d_B();
            let ceil_h = log2_ceil(div_ceil(h_B, self.spec_gob_height()));
            let ceil_d = log2_ceil(div_ceil(d_B, GOB_DEPTH as int));
            Tiling {
                is_tiled: true,
                gob_height_is_8: self.gob_height_is_8,
                x_log2: if shrink {
                    0
                } else {
                    self.x_log2
                },
                y_log2: if self.y_log2 <= ceil_h {
                    self.y_log2
                } else {
                    ceil_h as u8
                },
                z_log2: if self.z_log2 <= ceil_d {
                    self.z_log2
                } else {
                    ceil_d as u8
                },
            }
        }
    }

    /// Clamps the tiling to less than 2x the given extent in each
    /// dimension, as the hardware does at each mip level: a level smaller
    /// than one tile in any direction loses its x blocking, and y/z
    /// blocking never exceeds the level's extent in GOBs, rounded up to a
    /// power of two.
    pub fn clamp(&self, extent_B: Extent4D<Bytes>) -> (r: Tiling)
        requires
            self.wf(),
        ensures
            r == self.spec_clamp(extent_B.width as int, extent_B.height as int, extent_B.depth as int),
            r.wf(),
    {
        let mut tiling = *self;

        if !self.is_tiled {
            return tiling;
        }
        let tiling_extent_B = self.extent_B();

        if extent_B.width < tiling_extent_B.width || extent_B.height < tiling_extent_B.height
            || extent_B.depth < tiling_extent_B.depth {
            tiling.x_log2 = 0;
        }
        let extent_GOB = extent_B.to_GOB(tiling.gob_height_is_8);

        let ceil_h = ilog2_ceil(extent_GOB.height) as u8;
        let ceil_d = ilog2_ceil(extent_GOB.depth) as u8;

        tiling.y_log2 = if tiling.y_log2 <= ceil_h {
            tiling.y_log2
        } else {
            ceil_h
        };
        tiling.z_log2 = if tiling.z_log2 <= ceil_d {
            tiling.z_log2
        } else {
            ceil_d
        };
        tiling
    }
}

/// The Vulkan-mandated standard sparse image block shapes, in elements, by
/// element bit-width and image dimensionality.  Bit-widths outside
/// {8, 16, 32, 64, 128} and dimensionalities other than 2D/3D have none.
pub open spec fn sparse_block_dims_el(bits: int, dim: ImageDim) -> Option<(int, int, int)> {
    match dim {
        ImageDim::D1 => Option::None,
        ImageDim::D2 => if bits == 8 {
            Option::Some((256int, 256int, 1int))
        } else if bits == 16 {
            Option::Some((256int, 128int, 1int))
        } else if bits == 32 {
            Option::Some((128int, 128int, 1int))
        } else if bits == 64 {
            Option::Some((128int, 64int, 1int))
        } else if bits == 128 {
            Option::Some((64int, 64int, 1int))
        } else {
            Option::None
        },
        ImageDim::D3 => if bits == 8 {
            Option::Some((64int, 32int, 32int))
        } else if bits == 16 {
            Option::Some((32int, 32int, 32int))
        } else if bits == 32 {
            Option::Some((32int, 32int, 16int))
        } else if bits == 64 {
            Option::Some((32int, 16int, 16int))
        } else if bits == 128 {
            Option::Some((16int, 16int, 16int))
        } else {
            Option::None
        },
    }
}

/// The error `sparse_block_extent_el` reports for an unsupported input.
pub open spec fn spec_sparse_error(bits: int, dim: ImageDim) -> TilingError {
    if dim == ImageDim::D1 {
        TilingError::UnsupportedDimension
    } else {
        TilingError::UnsupportedTexelSize
    }
}

/// The standard sparse block shape in elements, or the reason there is
/// none.  Succeeds for exactly the {8, 16, 32, 64, 128}-bit element sizes
/// in 2D and 3D.
pub fn sparse_block_extent_el(format: Format, dim: ImageDim) -> (r: Result<
    Extent4D<Elements>,
    TilingError,
>)
    ensures
        r is Ok <==> sparse_block_dims_el(format.spec_el_size_bits(), dim) is Some,
        r matches Ok(e) ==> {
            let dims = sparse_block_dims_el(format.spec_el_size_bits(), dim)->Some_0;
            e.width == dims.0 && e.height == dims.1 && e.depth == dims.2 && e.array_len == 1
        },
        r matches Err(err) ==> err == spec_sparse_error(format.spec_el_size_bits(), dim),
{
    let bits = (format.el_size_B as u64) * 8;

    match dim {
        ImageDim::D2 => match bits {
            8 => Ok(Extent4D::new(256, 256, 1, 1)),
            16 => Ok(Extent4D::new(256, 128, 1, 1)),
            32 => Ok(Extent4D::new(128, 128, 1, 1)),
            64 => Ok(Extent4D::new(128, 64, 1, 1)),
            128 => Ok(Extent4D::new(64, 64, 1, 1)),
            _ => Err(TilingError::UnsupportedTexelSize),
        },
        ImageDim::D3 => match bits {
            8 => Ok(Extent4D::new(64, 32, 32, 1)),
            16 => Ok(Extent4D::new(32, 32, 32, 1)),
            32 => Ok(Extent4D::new(32, 32, 16, 1)),
            64 => Ok(Extent4D::new(32, 16, 16, 1)),
            128 => Ok(Extent4D::new(16, 16, 16, 1)),
            _ => Err(TilingError::UnsupportedTexelSize),
        },
        ImageDim::D1 => Err(TilingError::UnsupportedDimension),
    }
}

/// The standard sparse block shape converted to pixels.
pub fn sparse_block_extent_px(format: Format, dim: ImageDim, sample_layout: SampleLayout) -> (r:
    Result<Extent4D<Pixels>, TilingError>)
    ensures
        r is Ok <==> sparse_block_dims_el(format.spec_el_size_bits(), dim) is Some,
        r matches Ok(e) ==> {
            let dims = sparse_block_dims_el(format.spec_el_size_bits(), dim)->Some_0;
            &&& e.width == div_ceil(dims.0, sample_layout.spec_sa_width())
            &&& e.height == div_ceil(dims.1, sample_layout.spec_sa_height())
            &&& e.depth == dims.2
            &&& e.array_len == 1
        },
        r matches Err(err) ==> err == spec_sparse_error(format.spec_el_size_bits(), dim),
{
    match sparse_block_extent_el(format, dim) {
        Ok(el) => Ok(el.to_sa(format).to_px(sample_layout)),
        Err(err) => Err(err),
    }
}

/// The standard sparse block shape converted to bytes.
pub fn sparse_block_extent_B(format: Format, dim: ImageDim) -> (r: Result<
    Extent4D<Bytes>,
    TilingError,
>)
    ensures
        r is Ok <==> sparse_block_dims_el(format.spec_el_size_bits(), dim) is Some,
        r matches Ok(e) ==> {
            let dims = sparse_block_dims_el(format.spec_el_size_bits(), dim)->Some_0;
            &&& e.width == dims.0 * format.el_size_B
            &&& e.height == dims.1
            &&& e.depth == dims.2
            &&& e.array_len == 1
        },
        r matches Err(err) ==> err == spec_sparse_error(format.spec_el_size_bits(), dim),
{
    match sparse_block_extent_el(format, dim) {
        Ok(el) => {
            proof {
                assert(el.width * format.el_size_B <= 4096) by (nonlinear_arith)
                    requires
                        0 <= el.width <= 256,
                        0 <= format.el_size_B <= 16,
                ;
            }
            Ok(el.to_B(format))
        },
        Err(err) => Err(err),
    }
}

/// The tiling whose tile is exactly the standard sparse block shape for
/// this bit-width and dimensionality.
pub open spec fn spec_sparse_tiling(bits: int, dim: ImageDim) -> Option<Tiling> {
    match dim {
        ImageDim::D1 => Option::None,
        ImageDim::D2 => if bits == 8 {
            Option::Some(Tiling { is_tiled: true, gob_height_is_8: true, x_log2: 2, y_log2: 5, z_log2: 0 })
        } else if bits == 16 || bits == 32 {
            Option::Some(Tiling { is_tiled: true, gob_height_is_8: true, x_log2: 3, y_log2: 4, z_log2: 0 })
        } else if bits == 64 || bits == 128 {
            Option::Some(Tiling { is_tiled: true, gob_height_is_8: true, x_log2: 4, y_log2: 3, z_log2: 0 })
        } else {
            Option::None
        },
        ImageDim::D3 => if bits == 8 || bits == 16 {
            Option::Some(Tiling { is_tiled: true, gob_height_is_8: true, x_log2: 0, y_log2: 2, z_log2: 5 })
        } else if bits == 32 {
            Option::Some(Tiling { is_tiled: true, gob_height_is_8: true, x_log2: 1, y_log2: 2, z_log2: 4 })
        } else if bits == 64 || bits == 128 {
            Option::Some(Tiling { is_tiled: true, gob_height_is_8: true, x_log2: 2, y_log2: 1, z_log2: 4 })
        } else {
            Option::None
        },
    }
}

impl Tiling {
    /// Derives the tiling matching the Vulkan standard sparse block shape
    /// for the format's element size and the image dimensionality, or the
    /// reason there is none.  The resulting tile's byte extent equals the
    /// block shape exactly (so each of its axes is a power of two), which
    /// only holds because the table's entries are powers of two.
    pub fn sparse(format: Format, dim: ImageDim) -> (r: Result<Tiling, TilingError>)
        ensures
            r is Ok <==> sparse_block_dims_el(format.spec_el_size_bits(), dim) is Some,
            r matches Ok(t) ==> Option::Some(t) == spec_sparse_tiling(
                format.spec_el_size_bits(),
                dim,
            ) && t.wf() && t.is_tiled && t.gob_height_is_8,
            r matches Ok(t) ==> {
                let dims = sparse_block_dims_el(format.spec_el_size_bits(), dim)->Some_0;
                &&& t.spec_extent_w_B() == dims.0 * format.el_size_B
                &&& t.spec_extent_h_B() == dims.1
                &&& t.spec_extent_d_B() == dims.2
            },
            r matches Err(err) ==> err == spec_sparse_error(format.spec_el_size_bits(), dim),
    {
        let sparse_block_extent_B = match sparse_block_extent_B(format, dim) {
            Ok(e) => e,
            Err(err) => {
                return Err(err);
            },
        };
        let gob_height_is_8 = true;
        let sparse_block_extent_gob = sparse_block_extent_B.to_GOB(gob_height_is_8);

        let x_log2 = ilog2_ceil(sparse_block_extent_gob.width) as u8;
        let y_log2 = ilog2_ceil(sparse_block_extent_gob.height) as u8;
        let z_log2 = ilog2_ceil(sparse_block_extent_gob.depth) as u8;
        let t = Tiling { is_tiled: true, gob_height_is_8, x_log2, y_log2, z_log2 };
        proof {
            reveal_with_fuel(log2_ceil, 8);
            let bits = format.spec_el_size_bits();
            let dims = sparse_block_dims_el(bits, dim)->Some_0;
            assert(bits == format.el_size_B * 8);
            assert(sparse_block_extent_B.width == dims.0 * format.el_size_B);
            if bits == 8 {
                assert(format.el_size_B == 1);
            } else if bits == 16 {
                assert(format.el_size_B == 2);
            } else if bits == 32 {
                assert(format.el_size_B == 4);
            } else if bits == 64 {
                assert(format.el_size_B == 8);
            } else if bits == 128 {
                assert(format.el_size_B == 16);
            }
            assert(sparse_block_extent_B.height == dims.1 && sparse_block_extent_B.depth
                == dims.2);
            assert(Option::Some(t) == spec_sparse_tiling(bits, dim) && t.wf());
            lemma2_to64();
            assert(t.spec_extent_w_B() == dims.0 * format.el_size_B && t.spec_extent_h_B()
                == dims.1 && t.spec_extent_d_B() == dims.2);
        }
        Ok(t)
    }

    /// What `choose` starts from before clamping: the maximal block shape,
    /// flattened to depth one when the image may be seen as a 2D surface.
    pub open spec fn spec_choose_start(usage: ImageUsageFlags) -> Tiling {
        Tiling {
            is_tiled: true,
            gob_height_is_8: true,
            x_log2: 0,
            y_log2: 5,
            z_log2: if usage & IMAGE_USAGE_2D_VIEW_BIT != 0 {
                0
            } else {
                5
            },
        }
    }

    /// The general-purpose tiling heuristic: linear-only images get the
    /// default untiled descriptor; all others start from the maximal block
    /// shape, lose block depth when 2D-view-compatible, and are clamped
    /// against the level's byte extent.
    pub fn choose_tiling(
        extent_px: Extent4D<Pixels>,
        format: Format,
        sample_layout: SampleLayout,
        usage: ImageUsageFlags,
    ) -> (r: Tiling)
        requires
            format.el_size_B >= 1,
            extent_px.spec_width_B(format, sample_layout) <= u32::MAX,
            extent_px.spec_height_sa(sample_layout) <= u32::MAX,
        ensures
            usage & IMAGE_USAGE_LINEAR_BIT != 0 ==> r == Tiling::spec_default(),
            usage & IMAGE_USAGE_LINEAR_BIT == 0 ==> r == Tiling::spec_choose_start(
                usage,
            ).spec_clamp(
                extent_px.spec_width_B(format, sample_layout),
                extent_px.spec_height_sa(sample_layout),
                extent_px.depth as int,
            ),
            r.wf(),
    {
        if (usage & IMAGE_USAGE_LINEAR_BIT) != 0 {
            return Default::default();
        }
        let mut tiling = Tiling {
            is_tiled: true,
            gob_height_is_8: true,
            x_log2: 0,
            y_log2: 5,
            z_log2: 5,
        };

        if (usage & IMAGE_USAGE_2D_VIEW_BIT) != 0 {
            tiling.z_log2 = 0;
        }
        tiling.clamp(extent_px.to_B(format, sample_layout))
    }
}

impl Extent4D<Bytes> {
    /// Byte extent to GOB-granularity extent, covering partial GOBs.
    pub fn to_GOB(&self, gob_height_is_8: bool) -> (r: Extent4D<GOBs>)
        ensures
            r.width == div_ceil(self.width as int, GOB_WIDTH_B as int),
            r.height == div_ceil(self.height as int, spec_gob_height(gob_height_is_8)),
            r.depth == div_ceil(self.depth as int, GOB_DEPTH as int),
            r.array_len == self.array_len,
    {
        let gh = gob_height(gob_height_is_8);
        Extent4D::new(
            (((self.width as u64) + ((GOB_WIDTH_B - 1) as u64)) / (GOB_WIDTH_B as u64)) as u32,
            (((self.height as u64) + ((gh - 1) as u64)) / (gh as u64)) as u32,
            (((self.depth as u64) + ((GOB_DEPTH - 1) as u64)) / (GOB_DEPTH as u64)) as u32,
            self.array_len,
        )
    }

    /// Byte extent to whole tiles of the given tiling.
    pub fn to_tl_B(&self, tiling: &Tiling) -> (r: Extent4D<Tiles>)
        requires
            tiling.wf(),
        ensures
            r.width == div_ceil(self.width as int, tiling.spec_extent_w_B()),
            r.height == div_ceil(self.height as int, tiling.spec_extent_h_B()),
            r.depth == div_ceil(self.depth as int, tiling.spec_extent_d_B()),
            r.array_len == self.array_len,
    {
        proof {
            lemma_tile_extent_bounds(*tiling);
            crate::math::lemma_div_ceil_le(self.width as int, tiling.spec_extent_w_B());
            crate::math::lemma_div_ceil_le(self.height as int, tiling.spec_extent_h_B());
            crate::math::lemma_div_ceil_le(self.depth as int, tiling.spec_extent_d_B());
        }
        let tile = tiling.extent_B();
        Extent4D::new(
            (((self.width as u64) + ((tile.width - 1) as u64)) / (tile.width as u64)) as u32,
            (((self.height as u64) + ((tile.height - 1) as u64)) / (tile.height as u64)) as u32,
            (((self.depth as u64) + ((tile.depth - 1) as u64)) / (tile.depth as u64)) as u32,
            self.array_len,
        )
    }
}

impl Extent4D<Pixels> {
    /// Pixel extent to tile-granularity extent: the composition of `to_B`
    /// with division by the tile's byte extent.
    pub fn to_tl(&self, tiling: &Tiling, format: Format, sample_layout: SampleLayout) -> (r:
        Extent4D<Tiles>)
        requires
            tiling.wf(),
            format.el_size_B >= 1,
            self.spec_width_B(format, sample_layout) <= u32::MAX,
            self.spec_height_sa(sample_layout) <= u32::MAX,
        ensures
            r.width == div_ceil(self.spec_width_B(format, sample_layout), tiling.spec_extent_w_B()),
            r.height == div_ceil(self.spec_height_sa(sample_layout), tiling.spec_extent_h_B()),
            r.depth == div_ceil(self.depth as int, tiling.spec_extent_d_B()),
            r.array_len == self.array_len,
    {
        self.to_B(format, sample_layout).to_tl_B(tiling)
    }
}

/// Clamping is idempotent: clamping a second time against the same extent
/// changes nothing.
pub proof fn lemma_clamp_idempotent(t: Tiling, w_B: int, h_B: int, d_B: int)
    requires
        0 <= w_B <= u32::MAX,
        0 <= h_B <= u32::MAX,
        0 <= d_B <= u32::MAX,
    ensures
        t.spec_clamp(w_B, h_B, d_B).spec_clamp(w_B, h_B, d_B) == t.spec_clamp(w_B, h_B, d_B),
{
    if t.is_tiled {
        let t1 = t.spec_clamp(w_B, h_B, d_B);
        crate::math::lemma_div_ceil_bounds(h_B, t.spec_gob_height());
        crate::math::lemma_div_ceil_bounds(d_B, GOB_DEPTH as int);
        vstd::arithmetic::power2::lemma2_to64_rest();
        lemma2_to64();
        crate::math::lemma_log2_ceil_le(div_ceil(h_B, t.spec_gob_height()), 32);
        crate::math::lemma_log2_ceil_le(div_ceil(d_B, GOB_DEPTH as int), 32);
        assert(t1.spec_gob_height() == t.spec_gob_height());
        lemma_pow2_le(t1.y_log2 as nat, t.y_log2 as nat);
        lemma_pow2_le(t1.z_log2 as nat, t.z_log2 as nat);
        assert(t1.spec_extent_h_B() <= t.spec_extent_h_B()) by (nonlinear_arith)
            requires
                pow2(t1.y_log2 as nat) <= pow2(t.y_log2 as nat),
                t1.spec_gob_height() == t.spec_gob_height(),
                t1.spec_gob_height() > 0,
                t1.is_tiled,
                t.is_tiled,
                t1.spec_extent_h_B() == t1.spec_gob_height() * pow2(t1.y_log2 as nat),
                t.spec_extent_h_B() == t.spec_gob_height() * pow2(t.y_log2 as nat),
        ;
        assert(t1.spec_extent_d_B() <= t.spec_extent_d_B());
        if t1.x_log2 == 0 {
            lemma2_to64();
            assert(t1.spec_extent_w_B() == 64);
            lemma_pow2_pos(t.x_log2 as nat);
            assert(t1.spec_extent_w_B() <= t.spec_extent_w_B());
        } else {
            assert(t1.x_log2 == t.x_log2);
            assert(t1.spec_extent_w_B() == t.spec_extent_w_B());
        }
    }
}

} // verus!
