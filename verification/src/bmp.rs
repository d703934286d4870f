//! BMP decoding and encoding.

use vstd::prelude::*;
use crate::image::{Image, Raster, Size};
use crate::pixel::{Indexed8, Srgb8, Srgba8};
use crate::text;
use crate::text::describe_layout;

pub mod bmp_pixel_sealed;
pub mod decode;
pub mod decode_laws;
pub mod encode;
pub mod file_laws;
pub mod header;
pub mod laws;
pub mod le;
pub mod masks;
pub mod palette;
pub mod pixels;
pub mod rle;
pub mod rle_laws;
pub mod row_laws;
pub mod written_laws;

pub use decode::{decode, decode_reader};
pub use encode::{encode, encode_bmp_image, encode_indexed, BmpPixel};

verus! {

/// Decoded BMP pixel data.
///
/// Each variant corresponds to a BMP colour configuration. BMP has no native
/// grayscale mode: all non-indexed data is RGB or RGBA.
///
/// Sub-byte indexed images (1-bit, 4-bit) are expanded to 8-bit indices. 16-bit
/// RGB (5-5-5 or 5-6-5) is expanded to 8 bits per channel using full-range
/// scaling.
///
/// This enum is deliberately **not** `#[non_exhaustive]`. It is the list of
/// what a BMP file can produce.
pub enum BmpImage {
    /// Palette-indexed image (1, 4, or 8-bit source, expanded to 8-bit indices).
    ///
    /// The reserved byte of each colour table entry is set to alpha 255 (fully
    /// opaque).
    Indexed8 {
        /// The index data: one `Indexed8` per pixel.
        data: Image<Indexed8>,
        /// The 256-entry sRGBA palette (boxed to keep the enum compact).
        palette: Box<[Srgba8; 256]>,
    },
    /// 8-bit sRGB truecolour (16-bit expanded, 24-bit, or 32-bit without alpha).
    ///
    /// BMP stores pixels in BGR order; the decoder reorders to RGB.
    Srgb8(Image<Srgb8>),
    /// 8-bit sRGB truecolour + alpha (32-bit with alpha channel).
    ///
    /// Only produced when the DIB header is V4 or V5 and the bitfield masks
    /// include a non-zero alpha mask, or when the header explicitly signals
    /// BGRA layout: a fourth, non-zero mask between a shorter header and the
    /// pixels.
    Srgba8(Image<Srgba8>),
}

/// A [`BmpImage`] as a mathematical value.
pub enum BmpImageModel {
    /// Palette-indexed.
    Indexed8 {
        /// The indices.
        data: Raster<Indexed8>,
        /// The palette.
        palette: Seq<Srgba8>,
    },
    /// Truecolour.
    Srgb8(Raster<Srgb8>),
    /// Truecolour with alpha.
    Srgba8(Raster<Srgba8>),
}

impl BmpImageModel {
    /// Width in pixels.
    pub open spec fn width(self) -> nat {
        match self {
            BmpImageModel::Indexed8 { data, .. } => data.width,
            BmpImageModel::Srgb8(image) => image.width,
            BmpImageModel::Srgba8(image) => image.width,
        }
    }

    /// Height in pixels.
    pub open spec fn height(self) -> nat {
        match self {
            BmpImageModel::Indexed8 { data, .. } => data.height,
            BmpImageModel::Srgb8(image) => image.height,
            BmpImageModel::Srgba8(image) => image.height,
        }
    }

    /// The name of the variant.
    pub open spec fn layout(self) -> Seq<char> {
        match self {
            BmpImageModel::Indexed8 { .. } => "Indexed8"@,
            BmpImageModel::Srgb8(_) => "Srgb8"@,
            BmpImageModel::Srgba8(_) => "Srgba8"@,
        }
    }
}

impl View for BmpImage {
    type V = BmpImageModel;

    open spec fn view(&self) -> BmpImageModel {
        match *self {
            BmpImage::Indexed8 { data, palette } => BmpImageModel::Indexed8 {
                data: data@,
                palette: palette@,
            },
            BmpImage::Srgb8(image) => BmpImageModel::Srgb8(image@),
            BmpImage::Srgba8(image) => BmpImageModel::Srgba8(image@),
        }
    }
}

impl BmpImage {
    /// Width in pixels, regardless of variant.
    #[must_use]
    pub fn width(&self) -> (w: usize)
        ensures
            w == self@.width(),
    {
        match self {
            BmpImage::Indexed8 { data, .. } => data.width(),
            BmpImage::Srgb8(img) => img.width(),
            BmpImage::Srgba8(img) => img.width(),
        }
    }

    /// Height in pixels, regardless of variant.
    #[must_use]
    pub fn height(&self) -> (h: usize)
        ensures
            h == self@.height(),
    {
        match self {
            BmpImage::Indexed8 { data, .. } => data.height(),
            BmpImage::Srgb8(img) => img.height(),
            BmpImage::Srgba8(img) => img.height(),
        }
    }

    /// Image size (`width × height`), regardless of variant.
    #[must_use]
    pub fn size(&self) -> (s: Size)
        ensures
            s.width == self@.width(),
            s.height == self@.height(),
    {
        match self {
            BmpImage::Indexed8 { data, .. } => data.size(),
            BmpImage::Srgb8(img) => img.size(),
            BmpImage::Srgba8(img) => img.size(),
        }
    }

    /// The variant name and the dimensions, e.g. `Srgb8(320x240)`, without the
    /// pixel data.
    pub fn describe(&self) -> (s: String)
        ensures
            s@ == text::layout_text(self@.layout(), self@.width(), self@.height()),
    {
        let layout: &'static str = match self {
            BmpImage::Indexed8 { .. } => "Indexed8",
            BmpImage::Srgb8(_) => "Srgb8",
            BmpImage::Srgba8(_) => "Srgba8",
        };
        describe_layout(layout, self.width(), self.height())
    }
}

/// Source bits per pixel as stored in the BMP file.
///
/// These are all the depths that a BMP file can have.
#[derive(Debug, Clone, Copy, PartialEq, Eq, Structural)]
pub enum BmpBitDepth {
    /// 1-bit indexed (monochrome palette).
    One,
    /// 4-bit indexed (16-color palette).
    Four,
    /// 8-bit indexed (256-color palette).
    Eight,
    /// 16-bit direct color (5-5-5 or 5-6-5 via bitfields).
    Sixteen,
    /// 24-bit direct color (BGR).
    TwentyFour,
    /// 32-bit direct color (BGRA or BGRX).
    ThirtyTwo,
}

/// Physical resolution in pixels per metre.
#[derive(Debug, Clone, Copy, PartialEq, Eq, Structural)]
pub struct BmpResolution {
    /// Horizontal resolution in pixels per metre.
    pub x_pixels_per_meter: u32,
    /// Vertical resolution in pixels per metre.
    pub y_pixels_per_meter: u32,
}

/// Color space signalling from the DIB header.
#[derive(Debug, Clone, Copy, PartialEq, Eq, Structural)]
pub enum BmpColorSpace {
    /// sRGB assumed: pre-V4 header with no color space info, V4 header, or V5
    /// header without an embedded profile.
    Srgb,
    /// An ICC profile is embedded (V5 header with `PROFILE_EMBEDDED`).
    /// The profile bytes are in `BmpMetadata::icc_profile`.
    IccTagged,
}

/// Compression method used in the source BMP file.
///
/// The decoded image is always uncompressed regardless of the source
/// compression. This enum surfaces the original encoding for metadata
/// inspection.
#[derive(Debug, Clone, Copy, PartialEq, Eq, Structural)]
pub enum BmpCompression {
    /// Uncompressed (`BI_RGB`).
    Uncompressed,
    /// Run-length encoded, 8-bit (`BI_RLE8`).
    Rle8,
    /// Run-length encoded, 4-bit (`BI_RLE4`).
    Rle4,
    /// Bitfield masks (`BI_BITFIELDS`).
    Bitfields,
}

/// DIB header version (identifies the exact header structure).
///
/// These are the four header versions the decoder handles.
#[derive(Debug, Clone, Copy, PartialEq, Eq, Structural)]
pub enum BmpHeaderVersion {
    /// OS/2 1.x `BITMAPCOREHEADER` (12 bytes).
    Core,
    /// Windows `BITMAPINFOHEADER` (40 bytes).
    Info,
    /// Windows `BITMAPV4HEADER` (108 bytes).
    V4,
    /// Windows `BITMAPV5HEADER` (124 bytes).
    V5,
}

/// Metadata extracted from a BMP file.
///
/// BMP metadata is minimal: no text, no EXIF, no timestamps.
#[derive(Debug, Clone)]
pub struct BmpMetadata {
    /// Color space signalling from the DIB header.
    pub color_space: BmpColorSpace,
    /// Source bits per pixel as stored in the file.
    pub source_bit_depth: BmpBitDepth,
    /// Physical resolution in pixels per metre, if specified and non-zero.
    pub resolution: Option<BmpResolution>,
    /// Compression method used in the source file.
    pub compression: BmpCompression,
    /// DIB header version (identifies the exact header structure).
    pub header_version: BmpHeaderVersion,
    /// ICC profile bytes, if embedded (V5 header with `PROFILE_EMBEDDED`).
    pub icc_profile: Option<Box<[u8]>>,
}

/// A [`BmpMetadata`] as a mathematical value.
pub struct BmpMetadataModel {
    /// Color space signalling.
    pub color_space: BmpColorSpace,
    /// Source bits per pixel.
    pub source_bit_depth: BmpBitDepth,
    /// Physical resolution.
    pub resolution: Option<BmpResolution>,
    /// Compression method.
    pub compression: BmpCompression,
    /// DIB header version.
    pub header_version: BmpHeaderVersion,
    /// ICC profile bytes.
    pub icc_profile: Option<Seq<u8>>,
}

impl View for BmpMetadata {
    type V = BmpMetadataModel;

    open spec fn view(&self) -> BmpMetadataModel {
        BmpMetadataModel {
            color_space: self.color_space,
            source_bit_depth: self.source_bit_depth,
            resolution: self.resolution,
            compression: self.compression,
            header_version: self.header_version,
            icc_profile: match self.icc_profile {
                Some(profile) => Some(profile@),
                None => None,
            },
        }
    }
}

/// A decoded BMP file: pixel data + metadata.
pub struct BmpDecoded {
    /// The decoded pixel data.
    pub image: BmpImage,
    /// Metadata extracted from the BMP headers.
    pub metadata: BmpMetadata,
}

/// A [`BmpDecoded`] as a mathematical value.
pub struct BmpDecodedModel {
    /// The pixel data.
    pub image: BmpImageModel,
    /// The metadata.
    pub metadata: BmpMetadataModel,
}

impl View for BmpDecoded {
    type V = BmpDecodedModel;

    open spec fn view(&self) -> BmpDecodedModel {
        BmpDecodedModel { image: self.image@, metadata: self.metadata@ }
    }
}

/// Options for BMP encoding.
///
/// The encoder always writes a `BITMAPINFOHEADER`, uncompressed pixel data,
/// rows padded to 4-byte boundaries, and rows in bottom-up order.
#[derive(Debug, Clone)]
pub struct BmpEncodeOptions {
    /// Physical resolution in pixels per metre.
    /// `None` means both fields are set to zero (unspecified).
    pub resolution: Option<BmpResolution>,
}

impl Default for BmpEncodeOptions {
    fn default() -> (options: Self)
        ensures
            options.resolution is None,
    {
        BmpEncodeOptions { resolution: None }
    }
}

} // verus!
