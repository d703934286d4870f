//! JPEG decoding and encoding.

use vstd::prelude::*;
use crate::image::{Image, Raster, Size};
use crate::pixel::{Srgb8, SrgbMono16, SrgbMono8};
use crate::text;
use crate::text::describe_layout;

pub mod decode;
pub mod encode;
pub mod exif;
pub mod exif_laws;
pub mod extent;
pub mod field_laws;
pub mod jpeg_pixel_sealed;
pub mod laws;
pub mod markers;
pub mod segment_laws;
pub mod tiff;

pub use decode::{decode, decode_reader};
pub use encode::{encode, encode_jpeg_image, JpegPixel};
pub use exif::{GpsAltitude, GpsAngle, JpegExifInfo};

verus! {

/// Decoded JPEG pixel data.
///
/// All variants use sRGB pixel types because JPEG is inherently gamma-encoded.
///
/// | Decoder output | Channels | Variant      |
/// |----------------|----------|--------------|
/// | `L8`           | 1 × u8   | `SrgbMono8`  |
/// | `L16`          | 1 × u16  | `SrgbMono16` |
/// | `RGB24`        | 3 × u8   | `Srgb8`      |
/// | `CMYK32`       | 4 × u8   | rejected     |
///
/// This enum is deliberately **not** `#[non_exhaustive]`. It is the list of
/// what a JPEG file can produce.
pub enum JpegImage {
    /// 8-bit sRGB grayscale (luminance only).
    SrgbMono8(Image<SrgbMono8>),
    /// 16-bit sRGB grayscale (more than 8 bits per sample in the file).
    SrgbMono16(Image<SrgbMono16>),
    /// 8-bit sRGB truecolour (the overwhelmingly common case).
    Srgb8(Image<Srgb8>),
}

/// A [`JpegImage`] as a mathematical value.
pub enum JpegImageModel {
    /// 8-bit grayscale.
    SrgbMono8(Raster<SrgbMono8>),
    /// 16-bit grayscale.
    SrgbMono16(Raster<SrgbMono16>),
    /// Truecolour.
    Srgb8(Raster<Srgb8>),
}

impl JpegImageModel {
    /// Width in pixels.
    pub open spec fn width(self) -> nat {
        match self {
            JpegImageModel::SrgbMono8(image) => image.width,
            JpegImageModel::SrgbMono16(image) => image.width,
            JpegImageModel::Srgb8(image) => image.width,
        }
    }

    /// Height in pixels.
    pub open spec fn height(self) -> nat {
        match self {
            JpegImageModel::SrgbMono8(image) => image.height,
            JpegImageModel::SrgbMono16(image) => image.height,
            JpegImageModel::Srgb8(image) => image.height,
        }
    }

    /// The name of the variant.
    pub open spec fn layout(self) -> Seq<char> {
        match self {
            JpegImageModel::SrgbMono8(_) => "SrgbMono8"@,
            JpegImageModel::SrgbMono16(_) => "SrgbMono16"@,
            JpegImageModel::Srgb8(_) => "Srgb8"@,
        }
    }
}

impl View for JpegImage {
    type V = JpegImageModel;

    open spec fn view(&self) -> JpegImageModel {
        match *self {
            JpegImage::SrgbMono8(image) => JpegImageModel::SrgbMono8(image@),
            JpegImage::SrgbMono16(image) => JpegImageModel::SrgbMono16(image@),
            JpegImage::Srgb8(image) => JpegImageModel::Srgb8(image@),
        }
    }
}

impl JpegImage {
    /// Width in pixels, regardless of variant.
    #[must_use]
    pub fn width(&self) -> (w: usize)
        ensures
            w == self@.width(),
    {
        match self {
            JpegImage::SrgbMono8(img) => img.width(),
            JpegImage::SrgbMono16(img) => img.width(),
            JpegImage::Srgb8(img) => img.width(),
        }
    }

    /// Height in pixels, regardless of variant.
    #[must_use]
    pub fn height(&self) -> (h: usize)
        ensures
            h == self@.height(),
    {
        match self {
            JpegImage::SrgbMono8(img) => img.height(),
            JpegImage::SrgbMono16(img) => img.height(),
            JpegImage::Srgb8(img) => img.height(),
        }
    }

    /// Image size (`width × height`), regardless of variant.
    #[must_use]
    pub fn size(&self) -> (s: Size)
        ensures
            s.width == self@.width(),
            s.height == self@.height(),
    {
        match self {
            JpegImage::SrgbMono8(img) => img.size(),
            JpegImage::SrgbMono16(img) => img.size(),
            JpegImage::Srgb8(img) => img.size(),
        }
    }

    /// The variant name and the dimensions, e.g. `Srgb8(320x240)`, without the
    /// pixel data.
    pub fn describe(&self) -> (s: String)
        ensures
            s@ == text::layout_text(self@.layout(), self@.width(), self@.height()),
    {
        let layout: &'static str = match self {
            JpegImage::SrgbMono8(_) => "SrgbMono8",
            JpegImage::SrgbMono16(_) => "SrgbMono16",
            JpegImage::Srgb8(_) => "Srgb8",
        };
        describe_layout(layout, self.width(), self.height())
    }
}

/// Colour-space signalling extracted from a JPEG file.
///
/// The pixel type in [`JpegImage`] already encodes the transfer-function
/// assumption (always sRGB). This enum signals whether an ICC profile is
/// present.
#[derive(Debug, Clone, Copy, PartialEq, Eq, Structural)]
pub enum JpegColorSpace {
    /// sRGB assumed (no embedded ICC profile).
    Srgb,
    /// An ICC profile is present (see `JpegMetadata::icc_profile`).
    IccTagged,
}

/// Pixel density information from the JFIF APP0 marker.
///
/// JFIF defines three kinds of density information: DPI, dots per centimetre,
/// and unitless aspect ratio.
#[derive(Debug, Clone, Copy, PartialEq, Eq, Structural)]
pub enum JpegPixelDensity {
    /// Pixels per inch.
    Dpi {
        /// Horizontal density.
        x: u16,
        /// Vertical density.
        y: u16,
    },
    /// Pixels per centimetre.
    Dpcm {
        /// Horizontal density.
        x: u16,
        /// Vertical density.
        y: u16,
    },
    /// Aspect ratio only (unitless).
    AspectRatio {
        /// Horizontal aspect.
        x: u16,
        /// Vertical aspect.
        y: u16,
    },
}

/// Source bit depth of a JPEG file.
#[derive(Debug, Clone, Copy, PartialEq, Eq, Structural)]
pub enum JpegBitDepth {
    /// 8-bit samples.
    Eight,
    /// 12-bit samples (decoded to 16-bit).
    Twelve,
}

/// Ancillary metadata extracted from a JPEG file.
///
/// Fields are optional: only populated when the corresponding markers exist in
/// the file.
#[derive(Debug, Clone)]
pub struct JpegMetadata {
    /// Parsed EXIF information (curated tag subset).
    pub exif: Option<JpegExifInfo>,
    /// Raw EXIF bytes, from the TIFF header on, for users who need niche tags.
    pub raw_exif: Option<Box<[u8]>>,
    /// ICC profile bytes.
    pub icc_profile: Option<Box<[u8]>>,
    /// Pixel density from the JFIF header.
    pub pixel_density: Option<JpegPixelDensity>,
    /// Comments, in file order.
    pub comments: Vec<String>,
    /// Source bit depth.
    pub source_bit_depth: JpegBitDepth,
    /// Colour-space signalling.
    pub color_space: JpegColorSpace,
}

/// A [`JpegMetadata`] as a mathematical value.
pub struct JpegMetadataModel {
    /// Parsed EXIF information.
    pub exif: Option<exif::ExifModel>,
    /// Raw EXIF bytes.
    pub raw_exif: Option<Seq<u8>>,
    /// ICC profile bytes.
    pub icc_profile: Option<Seq<u8>>,
    /// Pixel density.
    pub pixel_density: Option<JpegPixelDensity>,
    /// Comments.
    pub comments: Seq<Seq<char>>,
    /// Source bit depth.
    pub source_bit_depth: JpegBitDepth,
    /// Colour-space signalling.
    pub color_space: JpegColorSpace,
}

/// Optional boxed bytes as a mathematical value.
pub open spec fn boxed_view(bytes: Option<Box<[u8]>>) -> Option<Seq<u8>> {
    match bytes {
        Some(b) => Some(b@),
        None => None,
    }
}

impl View for JpegMetadata {
    type V = JpegMetadataModel;

    open spec fn view(&self) -> JpegMetadataModel {
        JpegMetadataModel {
            exif: exif::exif_view(self.exif),
            raw_exif: boxed_view(self.raw_exif),
            icc_profile: boxed_view(self.icc_profile),
            pixel_density: self.pixel_density,
            comments: markers::texts_view(self.comments@),
            source_bit_depth: self.source_bit_depth,
            color_space: self.color_space,
        }
    }
}

/// The complete result of decoding a JPEG file: pixel data and ancillary
/// metadata.
pub struct JpegDecoded {
    /// The decoded pixel data.
    pub image: JpegImage,
    /// Ancillary metadata (EXIF, ICC, comments, …).
    pub metadata: JpegMetadata,
}

/// A [`JpegDecoded`] as a mathematical value.
pub struct JpegDecodedModel {
    /// The pixel data.
    pub image: JpegImageModel,
    /// The metadata.
    pub metadata: JpegMetadataModel,
}

impl View for JpegDecoded {
    type V = JpegDecodedModel;

    open spec fn view(&self) -> JpegDecodedModel {
        JpegDecodedModel { image: self.image@, metadata: self.metadata@ }
    }
}

/// Chroma subsampling factor for JPEG encoding.
///
/// Controls the trade-off between colour fidelity and file size.
#[derive(Debug, Clone, Copy, PartialEq, Eq, Structural)]
pub enum JpegSamplingFactor {
    /// 4:4:4, no chroma subsampling. Best quality, largest file.
    F1x1,
    /// 4:2:2, horizontal chroma halved.
    F2x1,
    /// 4:2:0, both dimensions halved. Smallest file.
    F2x2,
}

/// Options for JPEG encoding.
#[derive(Debug, Clone)]
pub struct JpegEncodeOptions {
    /// Quality factor (1 to 100). Default: 85.
    pub quality: u8,
    /// Chroma subsampling. Default: `None` (the encoder's own choice, typically
    /// 4:2:0).
    pub sampling_factor: Option<JpegSamplingFactor>,
    /// Progressive encoding. Default: `false`.
    pub progressive: bool,
}

impl Default for JpegEncodeOptions {
    fn default() -> (options: Self)
        ensures
            options.quality == 85,
            options.sampling_factor is None,
            !options.progressive,
    {
        JpegEncodeOptions { quality: 85, sampling_factor: None, progressive: false }
    }
}

} // verus!
