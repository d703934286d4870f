//! Encoding.
//!
//! The compression is the business of the `jpeg-encoder` crate. What it is
//! given, and what is refused before, is decided here.

use vstd::prelude::*;
use jpeg_encoder::{ColorType, Encoder, EncodingError, SamplingFactor};
use crate::error::{EncodeSource, IoError};
use crate::image::{Image, Raster};
use crate::jpeg::jpeg_pixel_sealed::Sealed;
use crate::jpeg::{JpegEncodeOptions, JpegImage, JpegImageModel, JpegSamplingFactor};
use crate::pixel::{Srgb8, SrgbMono8};

verus! {

/// How the samples of a pixel are to be read.
#[derive(Debug, Clone, Copy, PartialEq, Eq, Structural)]
pub enum JpegColorType {
    /// One luminance sample per pixel.
    Luma,
    /// Red, green and blue samples per pixel.
    Rgb,
}

/// The number of samples per pixel.
pub open spec fn channels(color: JpegColorType) -> int {
    match color {
        JpegColorType::Luma => 1,
        JpegColorType::Rgb => 3,
    }
}

/// Maps a pixel type to its colour type.
///
/// This trait is **sealed**: it is implemented for exactly the pixel types that
/// JPEG can represent without lossy conversion. Attempting to encode a type
/// that does not implement `JpegPixel` is a compile-time error.
///
/// | Pixel type  | Colour type | Notes             |
/// |-------------|-------------|-------------------|
/// | `SrgbMono8` | `Luma`      | Grayscale JPEG    |
/// | `Srgb8`     | `Rgb`       | Standard RGB JPEG |
///
/// `Srgba8` is deliberately **excluded**: JPEG does not support alpha, and
/// encoding it would silently discard the alpha channel.
pub trait JpegPixel: Sealed + Copy {
    /// Colour type for this pixel.
    const JPEG_COLOR_TYPE: JpegColorType;

    /// The samples of the pixel.
    spec fn samples(self) -> Seq<u8>;

    /// A pixel has as many samples as its colour type says.
    proof fn lemma_sample_count(self)
        ensures
            self.samples().len() == channels(Self::JPEG_COLOR_TYPE),
    ;

    /// Appends the samples of the pixel.
    fn push_samples(&self, out: &mut Vec<u8>)
        ensures
            final(out)@ == old(out)@ + self.samples(),
    ;
}

impl Sealed for SrgbMono8 {

}

impl JpegPixel for SrgbMono8 {
    const JPEG_COLOR_TYPE: JpegColorType = JpegColorType::Luma;

    open spec fn samples(self) -> Seq<u8> {
        seq![self.v]
    }

    proof fn lemma_sample_count(self) {
    }

    fn push_samples(&self, out: &mut Vec<u8>) {
        out.push(self.v);
        assert(out@ =~= old(out)@ + self.samples());
    }
}

impl Sealed for Srgb8 {

}

impl JpegPixel for Srgb8 {
    const JPEG_COLOR_TYPE: JpegColorType = JpegColorType::Rgb;

    open spec fn samples(self) -> Seq<u8> {
        seq![self.r, self.g, self.b]
    }

    proof fn lemma_sample_count(self) {
    }

    fn push_samples(&self, out: &mut Vec<u8>) {
        out.push(self.r);
        out.push(self.g);
        out.push(self.b);
        assert(out@ =~= old(out)@ + self.samples());
    }
}

/// The samples of an image: those of its pixels, row by row.
pub open spec fn image_samples<P: JpegPixel>(image: Raster<P>) -> Seq<u8> {
    image.pixels.map_values(|p: P| p.samples()).flatten()
}

/// The quality that is used: the nearest that the encoder accepts.
pub open spec fn used_quality(quality: u8) -> u8 {
    if quality < 1 {
        1
    } else if quality > 100 {
        100
    } else {
        quality
    }
}

/// The file that `jpeg_encoder::Encoder` writes for the given samples,
/// dimensions and settings.
pub uninterp spec fn encoder_output(
    samples: Seq<u8>,
    width: u16,
    height: u16,
    color: JpegColorType,
    quality: u8,
    sampling: Option<JpegSamplingFactor>,
    progressive: bool,
) -> Seq<u8>;

/// How every file of the encoder starts: the start of the image, and a JFIF
/// header that states a pixel aspect ratio of one to one.
pub open spec fn jfif_start() -> Seq<u8> {
    seq![
        0xFFu8, 0xD8u8, 0xFFu8, 0xE0u8, 0u8, 16u8, 0x4Au8, 0x46u8, 0x49u8, 0x46u8, 0u8, 1u8, 2u8,
        0u8, 0u8, 1u8, 0u8, 1u8, 0u8, 0u8,
    ]
}

/// How the frame header of a file starts: its marker, its length, eight bits
/// per sample, the dimensions, and the number of components.
pub open spec fn frame_start(
    width: u16,
    height: u16,
    color: JpegColorType,
    progressive: bool,
) -> Seq<u8> {
    seq![
        0xFFu8,
        if progressive {
            0xC2u8
        } else {
            0xC0u8
        },
        0u8,
        (8 + 3 * channels(color)) as u8,
        8u8,
        (height / 0x100) as u8,
        (height % 0x100) as u8,
        (width / 0x100) as u8,
        (width % 0x100) as u8,
        channels(color) as u8,
    ]
}

/// A file starts with a JFIF header and a complete frame header with the given
/// dimensions and colour type.
pub open spec fn opens_with_headers(
    file: Seq<u8>,
    width: u16,
    height: u16,
    color: JpegColorType,
    progressive: bool,
) -> bool {
    &&& file.len() >= 30 + 3 * channels(color)
    &&& file.take(20) == jfif_start()
    &&& file.subrange(20, 30) == frame_start(width, height, color, progressive)
}

/// Why the encoder gave up.
pub enum EncoderFailure {
    /// The output could not be written.
    Io(std::io::Error),
    /// The encoder refused the image.
    Codec(EncodingError),
}

/// What `jpeg_encoder::EncodingError` holds in its `IoError` variant: the
/// failure to write the output that it reports. `None` for every other variant.
pub uninterp spec fn write_failure(e: EncodingError) -> Option<std::io::Error>;

/// `jpeg_encoder::Encoder`: creates one over a byte vector with `new`, applies
/// the settings with `set_sampling_factor` and `set_progressive`, and runs
/// `encode`. Given as many samples as the dimensions ask for, it refuses an
/// image exactly if a dimension is zero, and that refusal is no failure to
/// write. Otherwise the file depends on the arguments alone, and starts with
/// the image marker, a JFIF header and a frame header that states the given
/// dimensions. Nothing is claimed of what follows.
#[verifier::external_body]
fn run_encoder(
    samples: &[u8],
    width: u16,
    height: u16,
    color: JpegColorType,
    quality: u8,
    sampling: Option<JpegSamplingFactor>,
    progressive: bool,
) -> (r: Result<Vec<u8>, EncodingError>)
    requires
        samples@.len() == width * height * channels(color),
        1 <= quality <= 100,
    ensures
        r is Err <==> width == 0 || height == 0,
        r matches Err(e) ==> write_failure(e) is None,
        r matches Ok(file) ==> file@ == encoder_output(
            samples@,
            width,
            height,
            color,
            quality,
            sampling,
            progressive,
        ) && opens_with_headers(file@, width, height, color, progressive),
{
    let mut out = Vec::new();
    let mut encoder = Encoder::new(&mut out, quality);
    match sampling {
        None => {}
        Some(JpegSamplingFactor::F1x1) => encoder.set_sampling_factor(SamplingFactor::F_1_1),
        Some(JpegSamplingFactor::F2x1) => encoder.set_sampling_factor(SamplingFactor::F_2_1),
        Some(JpegSamplingFactor::F2x2) => encoder.set_sampling_factor(SamplingFactor::F_2_2),
    }
    encoder.set_progressive(progressive);
    let color = match color { JpegColorType::Luma => ColorType::Luma, JpegColorType::Rgb => ColorType::Rgb };
    encoder.encode(samples, width, height, color)?;
    Ok(out)
}

/// `jpeg_encoder::EncodingError`: takes a failure to write the output out of
/// its `IoError` variant, and hands on every other error unchanged.
#[verifier::external_body]
fn classify_encoding_error(e: EncodingError) -> (f: EncoderFailure)
    ensures
        f == match write_failure(e) {
            Some(io) => EncoderFailure::Io(io),
            None => EncoderFailure::Codec(e),
        },
{
    match e {
        EncodingError::IoError(io) => EncoderFailure::Io(io),
        other => EncoderFailure::Codec(other),
    }
}

/// Maps a failure of the encoder into [`IoError`].
pub fn report_failure(f: EncoderFailure) -> (e: IoError)
    ensures
        e == match f {
            EncoderFailure::Io(e) => IoError::Io(e),
            EncoderFailure::Codec(e) => IoError::EncodeFailed { source: EncodeSource::Jpeg(e) },
        },
{
    match f {
        EncoderFailure::Io(e) => IoError::Io(e),
        EncoderFailure::Codec(e) => IoError::EncodeFailed { source: EncodeSource::Jpeg(e) },
    }
}

/// Maps a `jpeg_encoder::EncodingError` into [`IoError`]: a failure to write
/// becomes [`IoError::Io`], everything else [`IoError::EncodeFailed`] with the
/// error as its source.
pub fn encode_error(e: EncodingError) -> (r: IoError)
    ensures
        r == match write_failure(e) {
            Some(io) => IoError::Io(io),
            None => IoError::EncodeFailed { source: EncodeSource::Jpeg(e) },
        },
{
    report_failure(classify_encoding_error(e))
}

proof fn lemma_samples_length<P: JpegPixel>(pixels: Seq<P>)
    ensures
        pixels.map_values(|p: P| p.samples()).flatten().len() == pixels.len() * channels(
            P::JPEG_COLOR_TYPE,
        ),
    decreases pixels.len(),
{
    let f = |p: P| p.samples();
    let c = channels(P::JPEG_COLOR_TYPE);
    if pixels.len() > 0 {
        let rest = pixels.drop_first();
        lemma_samples_length(rest);
        pixels.first().lemma_sample_count();
        assert(pixels.map_values(f).drop_first() =~= rest.map_values(f));
        assert(pixels.len() * c == rest.len() * c + c) by (nonlinear_arith)
            requires
                pixels.len() == rest.len() + 1,
        ;
    } else {
        assert(pixels.len() * c == 0) by (nonlinear_arith)
            requires
                pixels.len() == 0,
        ;
    }
}

/// Collects the samples of an image.
fn collect_samples<P: JpegPixel>(image: &Image<P>) -> (samples: Vec<u8>)
    ensures
        samples@ == image_samples(image@),
        samples@.len() == image@.width * image@.height * channels(P::JPEG_COLOR_TYPE),
{
    let pixels: &[P] = image.as_slice();
    let ghost f = |p: P| p.samples();
    let mut samples: Vec<u8> = Vec::new();
    let mut i: usize = 0;
    assert(pixels@.take(0).map_values(f) =~= Seq::empty());
    while i < pixels.len()
        invariant
            i <= pixels@.len(),
            f == (|p: P| p.samples()),
            samples@ == pixels@.take(i as int).map_values(f).flatten(),
        decreases pixels@.len() - i,
    {
        let p: P = pixels[i];
        p.push_samples(&mut samples);
        proof {
            let before = pixels@.take(i as int).map_values(f);
            before.lemma_flatten_push(f(p));
            assert(pixels@.take(i + 1).map_values(f) =~= before.push(f(p)));
        }
        i += 1;
    }
    proof {
        assert(pixels@.take(pixels@.len() as int) =~= pixels@);
        lemma_samples_length(image@.pixels);
    }
    samples
}

/// The dimensions fit the 16-bit fields of a JPEG file.
pub open spec fn fits_jpeg<P>(image: Raster<P>) -> bool {
    image.width <= u16::MAX && image.height <= u16::MAX
}

/// The file of an image.
pub open spec fn jpeg_file<P: JpegPixel>(image: Raster<P>, options: JpegEncodeOptions) -> Seq<u8> {
    encoder_output(
        image_samples(image),
        image.width as u16,
        image.height as u16,
        P::JPEG_COLOR_TYPE,
        used_quality(options.quality),
        options.sampling_factor,
        options.progressive,
    )
}

/// `r` is what encoding an image gives: a refusal if a dimension exceeds what a
/// JPEG file can state, the encoder's own refusal if one is zero, and the
/// encoder's file otherwise.
pub open spec fn is_encoding<P: JpegPixel>(
    image: Raster<P>,
    options: JpegEncodeOptions,
    r: Result<Vec<u8>, IoError>,
) -> bool {
    if !fits_jpeg(image) {
        r == Err::<Vec<u8>, IoError>(
            IoError::UnsupportedFeature {
                reason: "JPEG dimensions exceed 65535 (u16::MAX) per ITU-T T.81 §B.2.2",
            },
        )
    } else if image.width == 0 || image.height == 0 {
        r matches Err(IoError::EncodeFailed { source: EncodeSource::Jpeg(_) })
    } else {
        r matches Ok(file) && file@ == jpeg_file(image, options) && opens_with_headers(
            file@,
            image.width as u16,
            image.height as u16,
            P::JPEG_COLOR_TYPE,
            options.progressive,
        )
    }
}

/// Encodes an image to an in-memory JPEG byte vector.
///
/// Only pixel types that implement [`JpegPixel`] can be encoded: [`SrgbMono8`]
/// and [`Srgb8`]. The quality is clamped to 1 to 100.
///
/// # Errors
///
/// - [`IoError::UnsupportedFeature`]: a dimension exceeds 65535.
/// - [`IoError::EncodeFailed`]: a dimension is zero.
pub fn encode<P: JpegPixel>(image: &Image<P>, options: &JpegEncodeOptions) -> (r: Result<
    Vec<u8>,
    IoError,
>)
    ensures
        is_encoding(image@, *options, r),
{
    if image.width() > 0xFFFF || image.height() > 0xFFFF {
        return Err(
            IoError::UnsupportedFeature {
                reason: "JPEG dimensions exceed 65535 (u16::MAX) per ITU-T T.81 §B.2.2",
            },
        );
    }
    let width: u16 = image.width() as u16;
    let height: u16 = image.height() as u16;
    let quality: u8 = if options.quality < 1 {
        1
    } else if options.quality > 100 {
        100
    } else {
        options.quality
    };
    let samples = collect_samples(image);
    match run_encoder(
        samples.as_slice(),
        width,
        height,
        P::JPEG_COLOR_TYPE,
        quality,
        options.sampling_factor,
        options.progressive,
    ) {
        Ok(file) => Ok(file),
        Err(e) => Err(encode_error(e)),
    }
}

/// `r` is what encoding a decoded image gives: the outcome for its pixels, but
/// a refusal for 16-bit grayscale.
pub open spec fn is_image_encoding(
    image: JpegImageModel,
    options: JpegEncodeOptions,
    r: Result<Vec<u8>, IoError>,
) -> bool {
    match image {
        JpegImageModel::SrgbMono8(raster) => is_encoding(raster, options, r),
        JpegImageModel::SrgbMono16(_) => r == Err::<Vec<u8>, IoError>(
            IoError::UnsupportedFeature {
                reason: "16-bit grayscale (12-bit JPEG) cannot be re-encoded to baseline JPEG",
            },
        ),
        JpegImageModel::Srgb8(raster) => is_encoding(raster, options, r),
    }
}

/// Encodes a [`JpegImage`] back to JPEG bytes.
///
/// # Errors
///
/// As for [`encode`], and [`IoError::UnsupportedFeature`] for 16-bit grayscale,
/// which the encoder cannot write.
pub fn encode_jpeg_image(image: &JpegImage, options: &JpegEncodeOptions) -> (r: Result<
    Vec<u8>,
    IoError,
>)
    ensures
        is_image_encoding(image@, *options, r),
{
    match image {
        JpegImage::SrgbMono8(img) => encode(img, options),
        JpegImage::SrgbMono16(_) => Err(
            IoError::UnsupportedFeature {
                reason: "16-bit grayscale (12-bit JPEG) cannot be re-encoded to baseline JPEG",
            },
        ),
        JpegImage::Srgb8(img) => encode(img, options),
    }
}

} // verus!
