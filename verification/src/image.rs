//! Image-side metadata the tiling engine consumes: dimensionality, usage
//! flags, and the per-mip-level descriptors an image carries.

use vstd::prelude::*;

verus! {

use crate::extent::{Extent4D, Pixels, SampleLayout};
use crate::format::Format;
use crate::tiling::Tiling;

/// Image dimensionality, as far as block-shape selection cares.
#[derive(Clone, Copy, Debug, PartialEq, Eq, Structural)]
pub enum ImageDim {
    D1,
    D2,
    D3,
}

/// Usage bits queried by tiling selection; all other bits are don't-care
/// to this subsystem.
pub type ImageUsageFlags = u32;

/// The image may be viewed as a 2D surface, which rules out block depth.
pub const IMAGE_USAGE_2D_VIEW_BIT: u32 = 0x1;

/// The image must be stored linearly (row-major), never tiled.
pub const IMAGE_USAGE_LINEAR_BIT: u32 = 0x2;

/// One mip level: its extent and the tiling chosen for it at creation.
#[derive(Clone, Copy, Debug)]
pub struct ImageLevel {
    pub tiling: Tiling,
    pub extent_px: Extent4D<Pixels>,
}

/// An image, reduced to what the copy engine borrows: format and sample
/// layout metadata plus one descriptor per mip level.
#[derive(Clone, Debug)]
pub struct Image {
    pub format: Format,
    pub sample_layout: SampleLayout,
    pub levels: Vec<ImageLevel>,
}

impl Image {
    /// What every image built through this library satisfies: a positive
    /// element size, well-formed per-level tilings, and level extents
    /// whose byte dimensions fit in 32 bits.
    pub open spec fn wf(self) -> bool {
        &&& self.format.el_size_B >= 1
        &&& forall|l: int|
            0 <= l < self.levels.len() ==> {
                let lvl = #[trigger] self.levels[l];
                &&& lvl.tiling.wf()
                &&& lvl.extent_px.spec_width_B(self.format, self.sample_layout) <= u32::MAX
                &&& lvl.extent_px.spec_height_sa(self.sample_layout) <= u32::MAX
            }
    }
}

} // verus!
