//! Types for working with the Glide rasterizer API: packed colors, texture
//! formats and sizes, and the enumerations its state setters take.

use vstd::prelude::*;

verus! {

/// The byte order of a packed 32-bit color.
#[derive(Clone, Copy, Debug, PartialEq, Eq, Structural)]
pub enum ColorFormat {
    Argb,
    Abgr,
    Rgba,
    Bgra,
}

impl Default for ColorFormat {
    fn default() -> (r: ColorFormat)
        ensures
            r == ColorFormat::Argb,
    {
        ColorFormat::Argb
    }
}

/// A color packed into 32 bits, interpreted under a `ColorFormat`.
#[derive(Clone, Copy, Debug, PartialEq, Eq, Structural)]
pub struct Color(pub u32);

/// The byte of `c` whose lowest bit is bit `shift`.
pub open spec fn spec_byte_of(c: u32, shift: u32) -> u32 {
    (c >> shift) & 0xff
}

impl Color {
    /// Unpacks into (red, green, blue, alpha) channels according to the
    /// packed byte order `format` names.
    pub fn to_rgba(&self, format: ColorFormat) -> (rgba: (u8, u8, u8, u8))
        ensures
            ({
                let c = self.0;
                match format {
                    ColorFormat::Argb => rgba == (
                        spec_byte_of(c, 16) as u8,
                        spec_byte_of(c, 8) as u8,
                        spec_byte_of(c, 0) as u8,
                        spec_byte_of(c, 24) as u8,
                    ),
                    ColorFormat::Abgr => rgba == (
                        spec_byte_of(c, 0) as u8,
                        spec_byte_of(c, 8) as u8,
                        spec_byte_of(c, 16) as u8,
                        spec_byte_of(c, 24) as u8,
                    ),
                    ColorFormat::Rgba => rgba == (
                        spec_byte_of(c, 24) as u8,
                        spec_byte_of(c, 16) as u8,
                        spec_byte_of(c, 8) as u8,
                        spec_byte_of(c, 0) as u8,
                    ),
                    ColorFormat::Bgra => rgba == (
                        spec_byte_of(c, 8) as u8,
                        spec_byte_of(c, 16) as u8,
                        spec_byte_of(c, 24) as u8,
                        spec_byte_of(c, 0) as u8,
                    ),
                }
            }),
    {
        let c = self.0;
        proof {
            assert(forall|s: u32| s < 32 ==> #[trigger] ((c >> s) & 0xff) < 256) by (bit_vector);
        }
        let (r, g, b, a) = match format {
            ColorFormat::Argb => ((c >> 16) & 0xff, (c >> 8) & 0xff, (c >> 0) & 0xff, (c >> 24)
                & 0xff),
            ColorFormat::Abgr => ((c >> 0) & 0xff, (c >> 8) & 0xff, (c >> 16) & 0xff, (c >> 24)
                & 0xff),
            ColorFormat::Rgba => ((c >> 24) & 0xff, (c >> 16) & 0xff, (c >> 8) & 0xff, (c >> 0)
                & 0xff),
            ColorFormat::Bgra => ((c >> 8) & 0xff, (c >> 16) & 0xff, (c >> 24) & 0xff, (c >> 0)
                & 0xff),
        };
        (r as u8, g as u8, b as u8, a as u8)
    }
}

/// An alpha value packed into 8 bits.
#[derive(Clone, Copy, Debug, PartialEq, Eq, Structural)]
pub struct Alpha(pub u8);

impl Alpha {
    pub fn as_u8(&self) -> (r: u8)
        ensures
            r == self.0,
    {
        self.0
    }
}

/// Texture level of detail: the side length of the largest axis.
#[derive(Clone, Copy, Debug, PartialEq, Eq, Structural)]
pub enum LOD {
    L256,
    L128,
    L64,
    L32,
    L16,
    L8,
    L4,
    L2,
    L1,
}

impl LOD {
    pub open spec fn spec_size(self) -> int {
        match self {
            LOD::L256 => 256,
            LOD::L128 => 128,
            LOD::L64 => 64,
            LOD::L32 => 32,
            LOD::L16 => 16,
            LOD::L8 => 8,
            LOD::L4 => 4,
            LOD::L2 => 2,
            LOD::L1 => 1,
        }
    }

    pub fn to_size(self) -> (r: usize)
        ensures
            r == self.spec_size(),
    {
        match self {
            LOD::L256 => 256,
            LOD::L128 => 128,
            LOD::L64 => 64,
            LOD::L32 => 32,
            LOD::L16 => 16,
            LOD::L8 => 8,
            LOD::L4 => 4,
            LOD::L2 => 2,
            LOD::L1 => 1,
        }
    }

    /// Width and height of the texture: the LOD's size shrunk along the
    /// short axis of the aspect ratio.
    pub fn to_texture_size(self, aspect: AspectRatio) -> (r: (usize, usize))
        ensures
            r.0 == self.spec_size() / aspect.spec_y_divisor(),
            r.1 == self.spec_size() / aspect.spec_x_divisor(),
    {
        let size = self.to_size();
        match aspect {
            AspectRatio::A8x1 => (size, size / 8),
            AspectRatio::A4x1 => (size, size / 4),
            AspectRatio::A2x1 => (size, size / 2),
            AspectRatio::A1x1 => (size, size),
            AspectRatio::A1x2 => (size / 2, size),
            AspectRatio::A1x4 => (size / 4, size),
            AspectRatio::A1x8 => (size / 8, size),
        }
    }
}

/// Width-to-height aspect ratio of a texture.
#[derive(Clone, Copy, Debug, PartialEq, Eq, Structural)]
pub enum AspectRatio {
    A8x1,
    A4x1,
    A2x1,
    A1x1,
    A1x2,
    A1x4,
    A1x8,
}

impl AspectRatio {
    /// What the width is divided by relative to the LOD size.
    pub open spec fn spec_y_divisor(self) -> int {
        match self {
            AspectRatio::A8x1 => 1,
            AspectRatio::A4x1 => 1,
            AspectRatio::A2x1 => 1,
            AspectRatio::A1x1 => 1,
            AspectRatio::A1x2 => 2,
            AspectRatio::A1x4 => 4,
            AspectRatio::A1x8 => 8,
        }
    }

    /// What the height is divided by relative to the LOD size.
    pub open spec fn spec_x_divisor(self) -> int {
        match self {
            AspectRatio::A8x1 => 8,
            AspectRatio::A4x1 => 4,
            AspectRatio::A2x1 => 2,
            AspectRatio::A1x1 => 1,
            AspectRatio::A1x2 => 1,
            AspectRatio::A1x4 => 1,
            AspectRatio::A1x8 => 1,
        }
    }
}

/// Texel storage formats.
#[derive(Clone, Copy, Debug, PartialEq, Eq, Structural)]
pub enum TextureFormat {
    Rgb332,
    Yiq422,
    Alpha8,
    Intensity8,
    AlphaIntensity44,
    P8,
    Rsvd0,
    Rsvd1,
    Argb8332,
    Ayiq8422,
    Rgb565,
    Argb1555,
    Argb4444,
    AlphaIntensity88,
    Ap88,
    Rsvd2,
}

impl TextureFormat {
    /// The reserved formats carry no pixel data.
    pub open spec fn is_reserved(self) -> bool {
        self == TextureFormat::Rsvd0 || self == TextureFormat::Rsvd1 || self
            == TextureFormat::Rsvd2
    }

    pub open spec fn spec_bytes_per_pixel(self) -> int {
        match self {
            TextureFormat::Rgb332
            | TextureFormat::Yiq422
            | TextureFormat::Alpha8
            | TextureFormat::Intensity8
            | TextureFormat::AlphaIntensity44
            | TextureFormat::P8 => 1,
            _ => 2,
        }
    }

    /// Bytes per stored pixel: 1 for the 8-bit formats, 2 for the 16-bit
    /// ones.  Reserved formats have no answer and are excluded.
    pub fn bytes_per_pixel(self) -> (r: usize)
        requires
            !self.is_reserved(),
        ensures
            r == self.spec_bytes_per_pixel(),
    {
        match self {
            TextureFormat::Rgb332
            | TextureFormat::Yiq422
            | TextureFormat::Alpha8
            | TextureFormat::Intensity8
            | TextureFormat::AlphaIntensity44
            | TextureFormat::P8 => 1,
            _ => 2,
        }
    }
}

/// A renderable or displayable buffer of the frame.
#[derive(Clone, Copy, Debug, PartialEq, Eq, Structural)]
pub enum Buffer {
    Front,
    Back,
    Aux,
    Depth,
    Alpha,
    Triple,
}

/// Mip-mapping mode.
#[derive(Clone, Copy, Debug, PartialEq, Eq, Structural)]
pub enum MipMapMode {
    Disable,
    Nearest,
    NearestDither,
}

/// Alpha blending factor.
#[derive(Clone, Copy, Debug, PartialEq, Eq, Structural)]
pub enum AlphaBlendFnc {
    Zero,
    SrcAlpha,
    SrcColor,
    DstAlpha,
    One,
    OneMinusSrcAlpha,
    OneMinusSrcColor,
    OneMinusDstAlpha,
    AlphaSaturate,
}

/// A chip addressed by register writes.
#[derive(Clone, Copy, Debug, PartialEq, Eq, Structural)]
pub enum ChipID {
    Tmu0,
    Tmu1,
    Tmu2,
    Fbi,
}

/// Color/alpha combine function.
#[derive(Clone, Copy, Debug, PartialEq, Eq, Structural)]
pub enum CombineFunction {
    Zero,
    Local,
    LocalAlpha,
    ScaleOther,
    ScaleOtherAddLocal,
    ScaleOtherAddLocalAlpha,
    ScaleOtherMinusLocal,
    ScaleOtherMinusLocalAddLocal,
    ScaleOtherMinusLocalAddLocalAlpha,
    ScaleMinusLocalAddLocal,
    ScaleMinusLocalAddLocalAlpha,
}

/// Scale factor of a combine function.
#[derive(Clone, Copy, Debug, PartialEq, Eq, Structural)]
pub enum CombineFactor {
    Zero,
    Local,
    OtherAlpha,
    LocalAlpha,
    TextureAlpha,
    TextureRgb,
    One,
    OneMinusLocal,
    OneMinusOtherAlpha,
    OneMinusLocalAlpha,
    OneMinusTextureAlpha,
    OneMinusLodFraction,
}

/// The local source of a combine unit.
#[derive(Clone, Copy, Debug, PartialEq, Eq, Structural)]
pub enum CombineLocal {
    Iterated,
    Constant,
    Depth,
}

/// The other source of a combine unit.
#[derive(Clone, Copy, Debug, PartialEq, Eq, Structural)]
pub enum CombineOther {
    Iterated,
    Texture,
    Constant,
}

/// Texture sampling filter.
#[derive(Clone, Copy, Debug, PartialEq, Eq, Structural)]
pub enum TextureFilterMode {
    PointSampled,
    Bilinear,
}

/// Depth/alpha comparison function.
#[derive(Clone, Copy, Debug, PartialEq, Eq, Structural)]
pub enum CmpFnc {
    Never,
    Less,
    Equal,
    LEqual,
    Greater,
    NotEqual,
    GEqual,
    Always,
}

/// Screen refresh rate.
#[derive(Clone, Copy, Debug, PartialEq, Eq, Structural)]
pub enum ScreenRefresh {
    R60Hz,
    R70Hz,
    R72Hz,
    R75Hz,
    R80Hz,
    R90Hz,
    R100Hz,
    R85Hz,
    R120Hz,
    Unset,
}

/// Screen resolution.
#[derive(Clone, Copy, Debug, PartialEq, Eq, Structural)]
pub enum ScreenResolution {
    R320x200,
    R320x240,
    R400x256,
    R512x384,
    R640x200,
    R640x350,
    R640x400,
    R640x480,
    R800x600,
    R960x720,
    R856x480,
    R512x256,
    R1024x768,
    R1280x1024,
    R1600x1200,
    R400x300,
    Unset,
}

/// Face culling mode.
#[derive(Clone, Copy, Debug, PartialEq, Eq, Structural)]
pub enum CullMode {
    Disable,
    Negative,
    Positive,
}

impl Default for CullMode {
    fn default() -> (r: CullMode)
        ensures
            r == CullMode::Disable,
    {
        CullMode::Disable
    }
}

/// Which corner y = 0 names.
#[derive(Clone, Copy, Debug, PartialEq, Eq, Structural)]
pub enum OriginLocation {
    UpperLeft,
    LowerLeft,
    Any,
}

/// Depth buffering mode.
#[derive(Clone, Copy, Debug, PartialEq, Eq, Structural)]
pub enum DepthBufferMode {
    Disable,
    ZBuffer,
    WBuffer,
    ZBufferCompareToBias,
    WBufferCompareToBias,
}

/// Linear frame buffer bypass mode.
#[derive(Clone, Copy, Debug, PartialEq, Eq, Structural)]
pub enum LfbBypassMode {
    Disable,
    Enable,
}

/// Pixel format of linear frame buffer writes.
#[derive(Clone, Copy, Debug, PartialEq, Eq, Structural)]
pub enum LfbWriteMode {
    Rgb565,
    Rgb555,
    Argb1555,
    Rgb888,
    Argb8888,
    Rgb565Depth,
    Rgb555Depth,
    Argb1555Depth,
    Za16,
    Any,
}

/// Chroma-keying mode.
#[derive(Clone, Copy, Debug, PartialEq, Eq, Structural)]
pub enum ChromakeyMode {
    Disable,
    Enable,
}

/// Pass-through source of the video output.
#[derive(Clone, Copy, Debug, PartialEq, Eq, Structural)]
pub enum PassthruMode {
    Vga,
    Sst1,
}

/// Where the alpha channel comes from.
#[derive(Clone, Copy, Debug, PartialEq, Eq, Structural)]
pub enum AlphaSource {
    CcAlpha,
    IteratedAlpha,
    TextureAlpha,
    TextureAlphaTimesIteratedAlpha,
}

/// Legacy one-shot color combine function.
#[derive(Clone, Copy, Debug, PartialEq, Eq, Structural)]
pub enum ColorCombineFnc {
    Zero,
    Ccrgb,
    Itrgb,
    ItrgbDelta0,
    DecalTexture,
    TextureTimesCcrgb,
    TextureTimesItrgb,
    TextureTimesItrgbDelta0,
    TextureTimesItrgbAddAlpha,
    TextureTimesAlpha,
    TextureTimesAlphaAddItrgb,
    TextureAddItrgb,
    TextureSubItrgb,
    CcrgbBlendItrgbOnTexalpha,
    DiffSpecA,
    DiffSpecB,
    One,
}

/// Legacy one-shot texture combine function.
#[derive(Clone, Copy, Debug, PartialEq, Eq, Structural)]
pub enum TextureCombineFnc {
    Zero,
    Decal,
    Other,
    Add,
    Multiply,
    Subtract,
    Detail,
    DetailOther,
    TrilinearOdd,
    TrilinearEven,
    One,
}

} // verus!
