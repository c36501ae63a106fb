//! The format capability the layout code depends on: how many bytes one
//! element of pixel data occupies.

use vstd::prelude::*;

verus! {

/// An image format, reduced to the one property the tiling engine reads:
/// the byte size of a single element.  Uncompressed formats store one
/// element per sample.
#[derive(Clone, Copy, Debug, PartialEq, Eq, Structural)]
pub struct Format {
    pub el_size_B: u32,
}

impl Format {
    /// Element size in bits, as used by the sparse block-shape table.
    pub open spec fn spec_el_size_bits(self) -> int {
        self.el_size_B * 8
    }

    pub fn el_size_bits(&self) -> (r: u32)
        requires
            self.el_size_B * 8 <= u32::MAX,
        ensures
            r == self.spec_el_size_bits(),
    {
        self.el_size_B * 8
    }
}

} // verus!
