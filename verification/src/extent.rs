//! Four-dimensional extents tagged with their unit of measure, and the
//! conversions between pixel, sample, element and byte space.

use vstd::prelude::*;
use core::marker::PhantomData;

verus! {

use crate::format::Format;
use crate::math::div_ceil;

/// Unit tag: extent counted in pixels.
#[derive(Clone, Copy, Debug, PartialEq, Eq)]
pub struct Pixels;

/// Unit tag: extent counted in samples (a multisampled pixel holds several).
#[derive(Clone, Copy, Debug, PartialEq, Eq)]
pub struct Samples;

/// Unit tag: extent counted in format elements.
#[derive(Clone, Copy, Debug, PartialEq, Eq)]
pub struct Elements;

/// Unit tag: extent counted in bytes along x, rows along y.
#[derive(Clone, Copy, Debug, PartialEq, Eq)]
pub struct Bytes;

/// Unit tag: extent counted in GOBs (64-byte-wide hardware granules).
#[derive(Clone, Copy, Debug, PartialEq, Eq)]
pub struct GOBs;

/// Unit tag: extent counted in whole tiles (blocks).
#[derive(Clone, Copy, Debug, PartialEq, Eq)]
pub struct Tiles;

/// How the samples of one pixel are laid out on a grid: a pixel covers
/// `sa_width x sa_height` samples.
#[derive(Clone, Copy, Debug, PartialEq, Eq, Structural)]
pub enum SampleLayout {
    S1x1,
    S2x1,
    S2x2,
    S4x2,
    S4x4,
}

impl SampleLayout {
    pub open spec fn spec_sa_width(self) -> int {
        match self {
            SampleLayout::S1x1 => 1,
            SampleLayout::S2x1 => 2,
            SampleLayout::S2x2 => 2,
            SampleLayout::S4x2 => 4,
            SampleLayout::S4x4 => 4,
        }
    }

    pub open spec fn spec_sa_height(self) -> int {
        match self {
            SampleLayout::S1x1 => 1,
            SampleLayout::S2x1 => 1,
            SampleLayout::S2x2 => 2,
            SampleLayout::S4x2 => 2,
            SampleLayout::S4x4 => 4,
        }
    }

    pub fn sa_width(&self) -> (r: u32)
        ensures
            r == self.spec_sa_width(),
    {
        match self {
            SampleLayout::S1x1 => 1,
            SampleLayout::S2x1 => 2,
            SampleLayout::S2x2 => 2,
            SampleLayout::S4x2 => 4,
            SampleLayout::S4x4 => 4,
        }
    }

    pub fn sa_height(&self) -> (r: u32)
        ensures
            r == self.spec_sa_height(),
    {
        match self {
            SampleLayout::S1x1 => 1,
            SampleLayout::S2x1 => 1,
            SampleLayout::S2x2 => 2,
            SampleLayout::S4x2 => 2,
            SampleLayout::S4x4 => 4,
        }
    }
}

/// A width/height/depth/array-length quadruple in the unit named by `U`.
#[derive(Copy, Debug, PartialEq, Eq)]
pub struct Extent4D<U> {
    pub width: u32,
    pub height: u32,
    pub depth: u32,
    pub array_len: u32,
    pub unit: PhantomData<U>,
}

impl<U> Clone for Extent4D<U> {
    fn clone(&self) -> (r: Self)
        ensures
            r == *self,
    {
        Extent4D {
            width: self.width,
            height: self.height,
            depth: self.depth,
            array_len: self.array_len,
            unit: PhantomData,
        }
    }
}

impl<U> Extent4D<U> {
    pub fn new(width: u32, height: u32, depth: u32, array_len: u32) -> (r: Self)
        ensures
            r.width == width,
            r.height == height,
            r.depth == depth,
            r.array_len == array_len,
    {
        Extent4D { width, height, depth, array_len, unit: PhantomData }
    }
}

impl Extent4D<Pixels> {
    /// Width of this pixel extent once converted to bytes.
    pub open spec fn spec_width_B(self, format: Format, sample_layout: SampleLayout) -> int {
        self.width * sample_layout.spec_sa_width() * format.el_size_B
    }

    /// Height (in rows) of this pixel extent once converted to samples.
    pub open spec fn spec_height_sa(self, sample_layout: SampleLayout) -> int {
        self.height * sample_layout.spec_sa_height()
    }

    pub fn to_sa(&self, sample_layout: SampleLayout) -> (r: Extent4D<Samples>)
        requires
            self.width * sample_layout.spec_sa_width() <= u32::MAX,
            self.height * sample_layout.spec_sa_height() <= u32::MAX,
        ensures
            r.width == self.width * sample_layout.spec_sa_width(),
            r.height == self.spec_height_sa(sample_layout),
            r.depth == self.depth,
            r.array_len == self.array_len,
    {
        Extent4D {
            width: self.width * sample_layout.sa_width(),
            height: self.height * sample_layout.sa_height(),
            depth: self.depth,
            array_len: self.array_len,
            unit: PhantomData,
        }
    }

    pub fn to_B(&self, format: Format, sample_layout: SampleLayout) -> (r: Extent4D<Bytes>)
        requires
            format.el_size_B >= 1,
            self.spec_width_B(format, sample_layout) <= u32::MAX,
            self.spec_height_sa(sample_layout) <= u32::MAX,
        ensures
            r.width == self.spec_width_B(format, sample_layout),
            r.height == self.spec_height_sa(sample_layout),
            r.depth == self.depth,
            r.array_len == self.array_len,
    {
        proof {
            assert(self.width * sample_layout.spec_sa_width() <= u32::MAX) by (nonlinear_arith)
                requires
                    self.width * sample_layout.spec_sa_width() * format.el_size_B <= u32::MAX,
                    self.width >= 0,
                    sample_layout.spec_sa_width() >= 1,
                    format.el_size_B >= 1,
            ;
        }
        self.to_sa(sample_layout).to_el(format).to_B(format)
    }
}

impl Extent4D<Samples> {
    /// Uncompressed formats hold exactly one element per sample, so this
    /// conversion keeps every component.
    pub fn to_el(&self, _format: Format) -> (r: Extent4D<Elements>)
        ensures
            r.width == self.width,
            r.height == self.height,
            r.depth == self.depth,
            r.array_len == self.array_len,
    {
        Extent4D {
            width: self.width,
            height: self.height,
            depth: self.depth,
            array_len: self.array_len,
            unit: PhantomData,
        }
    }

    /// Back from samples to pixels, covering partial pixels.
    pub fn to_px(&self, sample_layout: SampleLayout) -> (r: Extent4D<Pixels>)
        ensures
            r.width == div_ceil(self.width as int, sample_layout.spec_sa_width()),
            r.height == div_ceil(self.height as int, sample_layout.spec_sa_height()),
            r.depth == self.depth,
            r.array_len == self.array_len,
    {
        let sw = sample_layout.sa_width();
        let sh = sample_layout.sa_height();
        Extent4D {
            width: (((self.width as u64) + ((sw - 1) as u64)) / (sw as u64)) as u32,
            height: (((self.height as u64) + ((sh - 1) as u64)) / (sh as u64)) as u32,
            depth: self.depth,
            array_len: self.array_len,
            unit: PhantomData,
        }
    }
}

impl Extent4D<Elements> {
    pub fn to_B(&self, format: Format) -> (r: Extent4D<Bytes>)
        requires
            self.width * format.el_size_B <= u32::MAX,
        ensures
            r.width == self.width * format.el_size_B,
            r.height == self.height,
            r.depth == self.depth,
            r.array_len == self.array_len,
    {
        Extent4D {
            width: self.width * format.el_size_B,
            height: self.height,
            depth: self.depth,
            array_len: self.array_len,
            unit: PhantomData,
        }
    }

    /// The inverse of `to_el`: one sample per element.
    pub fn to_sa(&self, _format: Format) -> (r: Extent4D<Samples>)
        ensures
            r.width == self.width,
            r.height == self.height,
            r.depth == self.depth,
            r.array_len == self.array_len,
    {
        Extent4D {
            width: self.width,
            height: self.height,
            depth: self.depth,
            array_len: self.array_len,
            unit: PhantomData,
        }
    }
}

} // verus!
