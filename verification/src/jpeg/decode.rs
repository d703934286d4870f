//! Decoding.
//!
//! The entropy-coded image data is the business of the `jpeg-decoder` crate.
//! What is made of its output, and the markers that it does not report, are
//! handled here.

use vstd::prelude::*;
use jpeg_decoder::{Decoder, PixelFormat};
use crate::error;
use crate::error::{DecodeSource, IoError};
use crate::image::{Image, Raster};
use crate::jpeg::exif;
use crate::jpeg::exif::parse_tiff_exif;
use crate::jpeg::extent;
use crate::jpeg::extent::fits_decoder;
use crate::jpeg::markers;
use crate::jpeg::markers::{scan_com_markers, scan_jfif_density};
use crate::jpeg::tiff;
use crate::jpeg::tiff::ByteOrder;
use crate::jpeg::{
    JpegBitDepth, JpegColorSpace, JpegDecoded, JpegDecodedModel, JpegImage, JpegImageModel,
    JpegMetadata, JpegMetadataModel, JpegPixelDensity,
};
use crate::pixel::{Srgb8, SrgbMono16, SrgbMono8};
use crate::text::boxed_bytes;

verus! {

/// The pixel formats of decoder output.
#[derive(Debug, Clone, Copy, PartialEq, Eq, Structural)]
pub enum JpegPixelFormat {
    /// Luminance, 8 bits.
    L8,
    /// Luminance, 16 bits in the byte order of the machine.
    L16,
    /// RGB, 8 bits per channel.
    Rgb24,
    /// CMYK, 8 bits per channel.
    Cmyk32,
}

/// Dimensions and pixel format of decoder output.
#[derive(Debug, Clone, Copy, PartialEq, Eq, Structural)]
pub struct JpegFrame {
    /// Width in pixels.
    pub width: u16,
    /// Height in pixels.
    pub height: u16,
    /// Pixel format.
    pub format: JpegPixelFormat,
}

/// What the decoder gives for a file.
pub struct RawJpeg {
    /// The pixels as bytes, row by row.
    pub pixels: Vec<u8>,
    /// Their dimensions and format.
    pub frame: Option<JpegFrame>,
    /// EXIF data, from the TIFF header on.
    pub exif: Option<Vec<u8>>,
    /// ICC profile.
    pub icc: Option<Vec<u8>>,
}

/// Markers of frame headers, which state the dimensions of the image.
pub open spec fn is_frame_marker(marker: u8) -> bool {
    0xC0 <= marker <= 0xCF && marker != 0xC4 && marker != 0xC8 && marker != 0xCC
}

/// What a frame header states whose segment starts at `at`. The number of
/// components decides the pixel format, and for a single one so does the number
/// of bits per sample.
pub open spec fn frame_at(data: Seq<u8>, at: int) -> JpegFrame {
    let bits = data[at + 2];
    let components = data[at + 7];
    JpegFrame {
        width: tiff::number16(ByteOrder::Big, data, at + 5),
        height: tiff::number16(ByteOrder::Big, data, at + 3),
        format: if components == 1 {
            if bits <= 8 {
                JpegPixelFormat::L8
            } else {
                JpegPixelFormat::L16
            }
        } else if components == 3 {
            JpegPixelFormat::Rgb24
        } else {
            JpegPixelFormat::Cmyk32
        },
    }
}

/// The first frame header from `pos` on: its marker, and where its segment
/// starts. The search ends as that for comments does.
pub open spec fn frame_header_from(data: Seq<u8>, pos: int) -> Option<(u8, int)>
    decreases data.len() - pos,
{
    if pos < 0 {
        None
    } else {
        match markers::next_segment(data, pos) {
            None => None,
            Some((marker, start, end)) => {
                proof {
                    markers::lemma_next_segment_advances(data, pos);
                }
                if is_frame_marker(marker) {
                    Some((marker, start))
                } else {
                    frame_header_from(data, end)
                }
            },
        }
    }
}

/// The first frame header of a file.
pub open spec fn frame_header(data: Seq<u8>) -> Option<(u8, int)> {
    if markers::starts_image(data) {
        frame_header_from(data, 2)
    } else {
        None
    }
}

/// What the first frame header of a file states.
pub open spec fn stated_frame(data: Seq<u8>) -> Option<JpegFrame> {
    match frame_header(data) {
        Some((_, at)) => Some(frame_at(data, at)),
        None => None,
    }
}

/// The first frame header of a file announces lossless compression.
pub open spec fn is_lossless(data: Seq<u8>) -> bool {
    frame_header(data) matches Some((marker, _)) && marker == 0xC3
}

/// The number of bytes that a pixel takes in decoder output.
pub open spec fn pixel_bytes(format: JpegPixelFormat) -> int {
    match format {
        JpegPixelFormat::L8 => 1,
        JpegPixelFormat::L16 => 2,
        JpegPixelFormat::Rgb24 => 3,
        JpegPixelFormat::Cmyk32 => 4,
    }
}

/// Decoder output fits the file that it came from: its frame is the one that
/// the file states, the frame is not empty, and the pixels fill it, except
/// that they may not for lossless compression.
pub open spec fn fits_file(data: Seq<u8>, frame: Option<JpegFrame>, pixels: Seq<u8>) -> bool {
    &&& frame == stated_frame(data)
    &&& frame matches Some(f) && {
        &&& f.width >= 1
        &&& f.height >= 1
        &&& !is_lossless(data) ==> pixels.len() == f.width * f.height * pixel_bytes(f.format)
    }
}

/// Optional bytes as a mathematical value.
pub open spec fn bytes_view(bytes: Option<Vec<u8>>) -> Option<Seq<u8>> {
    match bytes {
        Some(b) => Some(b@),
        None => None,
    }
}

/// What the decoder gives for a file besides the pixels.
pub struct DecoderFacts {
    /// Dimensions and format of the pixels.
    pub frame: Option<JpegFrame>,
    /// EXIF data, from the TIFF header on.
    pub exif: Option<Seq<u8>>,
    /// ICC profile.
    pub icc: Option<Seq<u8>>,
}

impl RawJpeg {
    /// What there is besides the pixels.
    pub open spec fn facts(self) -> DecoderFacts {
        DecoderFacts {
            frame: self.frame,
            exif: bytes_view(self.exif),
            icc: bytes_view(self.icc),
        }
    }
}

/// Why the decoder gave up.
pub enum DecoderFailure {
    /// The input could not be read; a file that ends too early is one such.
    Io(std::io::Error),
    /// The file is malformed, or uses a feature the decoder lacks.
    Codec(jpeg_decoder::Error),
}

/// How the decoder fares with a file.
pub enum DecoderVerdict {
    /// It decodes.
    Decoded(DecoderFacts),
    /// It fails because the input cannot be read.
    IoFailure,
    /// It fails for any other reason.
    CodecFailure,
}

/// How `jpeg_decoder::Decoder` fares with a file on a machine whose addresses
/// have the given number of bits, and what it reports of the file besides the
/// pixels. The number of bits matters for images that exceed the address space.
pub uninterp spec fn decoder_verdict(data: Seq<u8>, address_bits: u32) -> DecoderVerdict;

/// `pixels` is what `jpeg_decoder::Decoder` makes of the image data of a file
/// on some machine: rounding depends on the instructions that the machine has,
/// and the order of the two bytes of a 16-bit sample on its byte order.
pub uninterp spec fn decoder_may_yield(data: Seq<u8>, pixels: Seq<u8>) -> bool;

/// What `jpeg_decoder::Error` holds in its `Io` variant: the failure to read
/// the input that it reports. `None` for every other variant.
pub uninterp spec fn read_failure(e: jpeg_decoder::Error) -> Option<std::io::Error>;

/// `jpeg_decoder::Decoder`: creates one over the bytes with `new`, runs
/// `decode`, and collects what `info`, `exif_data` and `icc_profile` report
/// afterwards. Whether that succeeds, whether an error is a failure to read, and
/// everything but the pixels depends on the bytes and the width of an address
/// alone; the pixels depend on the bytes and the machine. The frame is the one
/// that the first frame header of the file states, and is not empty. The pixels
/// fill it, except for lossless compression, where samples of less than eight
/// bits come as two bytes each. Files are left out in which the decoder's count
/// of rows or columns may not fit in 16 bits, where it panics in builds that
/// check for overflow. Nothing more is claimed.
#[verifier::external_body]
fn run_decoder(data: &[u8]) -> (r: Result<RawJpeg, jpeg_decoder::Error>)
    requires
        extent::within_reach(data@),
    ensures
        match r {
            Ok(raw) => decoder_verdict(data@, usize::BITS) == DecoderVerdict::Decoded(raw.facts())
                && decoder_may_yield(data@, raw.pixels@) && fits_file(data@, raw.frame, raw.pixels@),
            Err(e) => decoder_verdict(data@, usize::BITS) == match read_failure(e) {
                Some(_) => DecoderVerdict::IoFailure,
                None => DecoderVerdict::CodecFailure,
            },
        },
{
    let mut decoder = Decoder::new(std::io::Cursor::new(data));
    let pixels = decoder.decode()?;
    let frame = decoder.info().map(|i| JpegFrame { width: i.width, height: i.height, format: match i.pixel_format {
        PixelFormat::L8 => JpegPixelFormat::L8,
        PixelFormat::L16 => JpegPixelFormat::L16,
        PixelFormat::RGB24 => JpegPixelFormat::Rgb24,
        PixelFormat::CMYK32 => JpegPixelFormat::Cmyk32,
    } });
    let exif = decoder.exif_data().map(|d| d.to_vec());
    Ok(RawJpeg { pixels, frame, exif, icc: decoder.icc_profile() })
}

/// `jpeg_decoder::Error`: takes a failure to read the input out of its `Io`
/// variant, and hands on every other error unchanged.
#[verifier::external_body]
fn classify_decoder_error(e: jpeg_decoder::Error) -> (f: DecoderFailure)
    ensures
        f == match read_failure(e) {
            Some(io) => DecoderFailure::Io(io),
            None => DecoderFailure::Codec(e),
        },
{
    match e {
        jpeg_decoder::Error::Io(io) => DecoderFailure::Io(io),
        other => DecoderFailure::Codec(other),
    }
}

/// The byte order of the machine.
pub open spec fn machine_order() -> ByteOrder {
    match vstd::endian::endianness() {
        vstd::endian::Endian::Little => ByteOrder::Little,
        vstd::endian::Endian::Big => ByteOrder::Big,
    }
}

/// `u16::from_ne_bytes`: puts the two bytes together in the byte order of the
/// machine, which is the same at every call.
#[verifier::external_body]
fn native_u16(b0: u8, b1: u8) -> (v: u16)
    ensures
        v == tiff::number16(machine_order(), seq![b0, b1], 0),
{
    u16::from_ne_bytes([b0, b1])
}

/// Finds out the byte order of the machine.
fn native_order() -> (order: ByteOrder)
    ensures
        order == machine_order(),
{
    if native_u16(1, 0) == 1 {
        ByteOrder::Little
    } else {
        ByteOrder::Big
    }
}

/// The error that reports a failure of the decoder.
pub open spec fn failure_error(f: DecoderFailure) -> IoError {
    match f {
        DecoderFailure::Io(e) => IoError::Io(e),
        DecoderFailure::Codec(e) => IoError::DecodeFailed { source: DecodeSource::Jpeg(e) },
    }
}

/// Maps a failure of the decoder into [`IoError`].
pub fn report_failure(f: DecoderFailure) -> (e: IoError)
    ensures
        e == failure_error(f),
{
    match f {
        DecoderFailure::Io(e) => IoError::Io(e),
        DecoderFailure::Codec(e) => IoError::DecodeFailed { source: DecodeSource::Jpeg(e) },
    }
}

/// Maps a `jpeg_decoder::Error` into [`IoError`]: a failure to read becomes
/// [`IoError::Io`], everything else [`IoError::DecodeFailed`] with the error as
/// its source.
pub fn decode_error(e: jpeg_decoder::Error) -> (r: IoError)
    ensures
        r == match read_failure(e) {
            Some(io) => IoError::Io(io),
            None => IoError::DecodeFailed { source: DecodeSource::Jpeg(e) },
        },
{
    report_failure(classify_decoder_error(e))
}

/// The image of decoder output and its source bit depth, or the error that it
/// gives. 16-bit samples are put together in the given byte order.
pub open spec fn image_of_pixels(
    pixels: Seq<u8>,
    width: nat,
    height: nat,
    format: JpegPixelFormat,
    order: ByteOrder,
) -> Result<(JpegImageModel, JpegBitDepth), IoError> {
    match format {
        JpegPixelFormat::L8 => if pixels.len() != width * height {
            Err(error::decode_failure("pixel count does not match image dimensions (L8)"))
        } else {
            Ok(
                (
                    JpegImageModel::SrgbMono8(
                        Raster { width, height, pixels: pixels.map_values(|v: u8| SrgbMono8 { v }) },
                    ),
                    JpegBitDepth::Eight,
                ),
            )
        },
        JpegPixelFormat::L16 => if pixels.len() / 2 != width * height {
            Err(error::decode_failure("pixel count does not match image dimensions (L16)"))
        } else {
            Ok(
                (
                    JpegImageModel::SrgbMono16(
                        Raster {
                            width,
                            height,
                            pixels: Seq::new(
                                pixels.len() / 2,
                                |i: int| SrgbMono16 { v: tiff::number16(order, pixels, 2 * i) },
                            ),
                        },
                    ),
                    JpegBitDepth::Twelve,
                ),
            )
        },
        JpegPixelFormat::Rgb24 => if pixels.len() != 3 * (width * height) {
            Err(error::decode_failure("pixel count does not match image dimensions (RGB24)"))
        } else {
            Ok(
                (
                    JpegImageModel::Srgb8(
                        Raster {
                            width,
                            height,
                            pixels: Seq::new(
                                width * height,
                                |i: int|
                                    Srgb8 {
                                        r: pixels[3 * i],
                                        g: pixels[3 * i + 1],
                                        b: pixels[3 * i + 2],
                                    },
                            ),
                        },
                    ),
                    JpegBitDepth::Eight,
                ),
            )
        },
        JpegPixelFormat::Cmyk32 => Err(
            IoError::UnsupportedFeature {
                reason: "CMYK JPEG is not supported — convert to RGB before loading",
            },
        ),
    }
}

fn gray_pixels(pixels: &Vec<u8>) -> (out: Vec<SrgbMono8>)
    ensures
        out@ == pixels@.map_values(|v: u8| SrgbMono8 { v }),
{
    let mut out: Vec<SrgbMono8> = Vec::new();
    let mut i: usize = 0;
    while i < pixels.len()
        invariant
            i <= pixels@.len(),
            out@ =~= pixels@.take(i as int).map_values(|v: u8| SrgbMono8 { v }),
        decreases pixels@.len() - i,
    {
        out.push(SrgbMono8::new(pixels[i]));
        i += 1;
    }
    assert(pixels@.take(pixels@.len() as int) =~= pixels@);
    out
}

fn deep_gray_pixels(pixels: &Vec<u8>, order: ByteOrder) -> (out: Vec<SrgbMono16>)
    ensures
        out@ == Seq::new(
            pixels@.len() / 2,
            |i: int| SrgbMono16 { v: tiff::number16(order, pixels@, 2 * i) },
        ),
{
    let mut out: Vec<SrgbMono16> = Vec::new();
    let count: usize = pixels.len() / 2;
    let mut i: usize = 0;
    while i < count
        invariant
            count == pixels.len() / 2,
            i <= count,
            out@ =~= Seq::new(
                i as nat,
                |k: int| SrgbMono16 { v: tiff::number16(order, pixels@, 2 * k) },
            ),
        decreases count - i,
    {
        let b0: u16 = pixels[2 * i] as u16;
        let b1: u16 = pixels[2 * i + 1] as u16;
        let v: u16 = match order {
            ByteOrder::Little => b0 + 0x100 * b1,
            ByteOrder::Big => b1 + 0x100 * b0,
        };
        out.push(SrgbMono16::new(v));
        i += 1;
    }
    out
}

fn color_pixels(pixels: &Vec<u8>) -> (out: Vec<Srgb8>)
    requires
        pixels@.len() % 3 == 0,
    ensures
        out@ == Seq::new(
            pixels@.len() / 3,
            |i: int| Srgb8 { r: pixels@[3 * i], g: pixels@[3 * i + 1], b: pixels@[3 * i + 2] },
        ),
{
    let mut out: Vec<Srgb8> = Vec::new();
    let count: usize = pixels.len() / 3;
    let mut i: usize = 0;
    while i < count
        invariant
            count == pixels.len() / 3,
            i <= count,
            out@ =~= Seq::new(
                i as nat,
                |k: int| Srgb8 { r: pixels@[3 * k], g: pixels@[3 * k + 1], b: pixels@[3 * k + 2] },
            ),
        decreases count - i,
    {
        out.push(Srgb8::new(pixels[3 * i], pixels[3 * i + 1], pixels[3 * i + 2]));
        i += 1;
    }
    out
}

/// Converts decoder output to a [`JpegImage`], with its source bit depth.
/// 16-bit samples are put together in the given byte order.
pub fn pixels_to_image(
    pixels: Vec<u8>,
    width: usize,
    height: usize,
    format: JpegPixelFormat,
    order: ByteOrder,
) -> (r: Result<(JpegImage, JpegBitDepth), IoError>)
    ensures
        match image_of_pixels(pixels@, width as nat, height as nat, format, order) {
            Ok((model, depth)) => r matches Ok(found) && found.0@ == model && found.1 == depth,
            Err(e) => r == Err::<(JpegImage, JpegBitDepth), IoError>(e),
        },
{
    match format {
        JpegPixelFormat::L8 => match Image::from_vec(width, height, gray_pixels(&pixels)) {
            Some(image) => Ok((JpegImage::SrgbMono8(image), JpegBitDepth::Eight)),
            None => Err(
                IoError::DecodeFailed {
                    source: DecodeSource::Message(
                        "pixel count does not match image dimensions (L8)",
                    ),
                },
            ),
        },
        JpegPixelFormat::L16 => match Image::from_vec(
            width,
            height,
            deep_gray_pixels(&pixels, order),
        ) {
            Some(image) => Ok((JpegImage::SrgbMono16(image), JpegBitDepth::Twelve)),
            None => Err(
                IoError::DecodeFailed {
                    source: DecodeSource::Message(
                        "pixel count does not match image dimensions (L16)",
                    ),
                },
            ),
        },
        JpegPixelFormat::Rgb24 => {
            let image = if pixels.len() % 3 == 0 {
                Image::from_vec(width, height, color_pixels(&pixels))
            } else {
                None
            };
            match image {
                Some(image) => Ok((JpegImage::Srgb8(image), JpegBitDepth::Eight)),
                None => Err(
                    IoError::DecodeFailed {
                        source: DecodeSource::Message(
                            "pixel count does not match image dimensions (RGB24)",
                        ),
                    },
                ),
            }
        },
        JpegPixelFormat::Cmyk32 => Err(
            IoError::UnsupportedFeature {
                reason: "CMYK JPEG is not supported — convert to RGB before loading",
            },
        ),
    }
}

/// The metadata of a file, from what the decoder reported and what was scanned.
pub open spec fn decoded_metadata(
    raw_exif: Option<Seq<u8>>,
    icc: Option<Seq<u8>>,
    depth: JpegBitDepth,
    comments: Seq<Seq<char>>,
    density: Option<JpegPixelDensity>,
) -> JpegMetadataModel {
    JpegMetadataModel {
        exif: match raw_exif {
            Some(data) => exif::tiff_exif(data),
            None => None,
        },
        raw_exif,
        icc_profile: icc,
        pixel_density: density,
        comments,
        source_bit_depth: depth,
        color_space: if icc is Some {
            JpegColorSpace::IccTagged
        } else {
            JpegColorSpace::Srgb
        },
    }
}

/// Builds the metadata from what the decoder reported and what was scanned.
pub fn build_metadata(
    raw_exif: Option<Vec<u8>>,
    icc: Option<Vec<u8>>,
    source_bit_depth: JpegBitDepth,
    comments: Vec<String>,
    pixel_density: Option<JpegPixelDensity>,
) -> (metadata: JpegMetadata)
    ensures
        metadata@ == decoded_metadata(
            bytes_view(raw_exif),
            bytes_view(icc),
            source_bit_depth,
            markers::texts_view(comments@),
            pixel_density,
        ),
{
    let exif = match &raw_exif {
        Some(data) => parse_tiff_exif(data.as_slice()),
        None => None,
    };
    let raw_exif = match raw_exif {
        Some(data) => Some(boxed_bytes(data)),
        None => None,
    };
    let icc_profile = match icc {
        Some(data) => Some(boxed_bytes(data)),
        None => None,
    };
    let color_space = if icc_profile.is_some() {
        JpegColorSpace::IccTagged
    } else {
        JpegColorSpace::Srgb
    };
    JpegMetadata {
        exif,
        raw_exif,
        icc_profile,
        pixel_density,
        comments,
        source_bit_depth,
        color_space,
    }
}

/// What a file holds that the decoder accepted, or the error that it gives.
pub open spec fn accepted_file(
    facts: DecoderFacts,
    pixels: Seq<u8>,
    comments: Seq<Seq<char>>,
    density: Option<JpegPixelDensity>,
    order: ByteOrder,
) -> Result<JpegDecodedModel, IoError> {
    match facts.frame {
        None => Err(
            error::decode_failure("jpeg decoder produced no image info after successful decode"),
        ),
        Some(frame) => match image_of_pixels(
            pixels,
            frame.width as nat,
            frame.height as nat,
            frame.format,
            order,
        ) {
            Err(e) => Err(e),
            Ok((image, depth)) => Ok(
                JpegDecodedModel {
                    image,
                    metadata: decoded_metadata(facts.exif, facts.icc, depth, comments, density),
                },
            ),
        },
    }
}

/// The outcome of a function agrees with the model of it.
pub open spec fn agrees(
    r: Result<JpegDecoded, IoError>,
    model: Result<JpegDecodedModel, IoError>,
) -> bool {
    match model {
        Ok(m) => r matches Ok(d) && d@ == m,
        Err(e) => r == Err::<JpegDecoded, IoError>(e),
    }
}

/// Makes a decoded file of what the decoder gave and what was scanned.
pub fn finish_decode(
    raw: RawJpeg,
    comments: Vec<String>,
    pixel_density: Option<JpegPixelDensity>,
    order: ByteOrder,
) -> (r: Result<JpegDecoded, IoError>)
    ensures
        agrees(
            r,
            accepted_file(
                raw.facts(),
                raw.pixels@,
                markers::texts_view(comments@),
                pixel_density,
                order,
            ),
        ),
{
    let frame = match raw.frame {
        Some(frame) => frame,
        None => {
            return Err(
                IoError::DecodeFailed {
                    source: DecodeSource::Message(
                        "jpeg decoder produced no image info after successful decode",
                    ),
                },
            );
        },
    };
    match pixels_to_image(
        raw.pixels,
        frame.width as usize,
        frame.height as usize,
        frame.format,
        order,
    ) {
        Err(e) => Err(e),
        Ok((image, depth)) => {
            let metadata = build_metadata(raw.exif, raw.icc, depth, comments, pixel_density);
            Ok(JpegDecoded { image, metadata })
        },
    }
}

/// The error for an image whose rows or columns the decoder cannot count.
pub open spec fn out_of_reach() -> IoError {
    IoError::UnsupportedFeature { reason: "JPEG side above 65528 pixels in this block layout" }
}

/// `r` is what decoding `data` gives on some machine. Which files decode, and
/// everything about them but the pixels, is the same on all machines whose
/// addresses have the same number of bits. 16-bit samples are put together in
/// the byte order of the machine.
pub open spec fn is_decoding(data: Seq<u8>, r: Result<JpegDecoded, IoError>) -> bool {
    if !extent::within_reach(data) {
        r == Err::<JpegDecoded, IoError>(out_of_reach())
    } else {
        match decoder_verdict(data, usize::BITS) {
            DecoderVerdict::IoFailure => r matches Err(IoError::Io(_)),
            DecoderVerdict::CodecFailure => r matches Err(
                IoError::DecodeFailed { source: DecodeSource::Jpeg(_) },
            ),
            DecoderVerdict::Decoded(facts) => exists|pixels: Seq<u8>|
                #![trigger accepted_file(
                    facts,
                    pixels,
                    markers::comments(data),
                    markers::density(data),
                    machine_order(),
                )]
                decoder_may_yield(data, pixels) && fits_file(data, facts.frame, pixels) && agrees(
                    r,
                    accepted_file(
                        facts,
                        pixels,
                        markers::comments(data),
                        markers::density(data),
                        machine_order(),
                    ),
                ),
        }
    }
}

/// Decodes a JPEG image from an in-memory byte slice.
///
/// Comments and pixel density, which the decoder does not report, are scanned
/// from the raw bytes.
///
/// # Errors
///
/// - [`IoError::DecodeFailed`]: the data is not a valid JPEG or is corrupt
///   beyond recovery.
/// - [`IoError::UnsupportedFeature`]: the JPEG uses CMYK colour, or has a side
///   of more than 65528 pixels together with a layout in which the decoder
///   cannot count its rows or columns.
/// - [`IoError::Io`]: the data ends too early.
pub fn decode(data: &[u8]) -> (r: Result<JpegDecoded, IoError>)
    ensures
        is_decoding(data@, r),
{
    if !fits_decoder(data) {
        return Err(
            IoError::UnsupportedFeature {
                reason: "JPEG side above 65528 pixels in this block layout",
            },
        );
    }
    let comments = scan_com_markers(data);
    let pixel_density = scan_jfif_density(data);
    match run_decoder(data) {
        Err(e) => Err(decode_error(e)),
        Ok(raw) => {
            let order = native_order();
            let ghost pixels = raw.pixels@;
            let ghost facts = raw.facts();
            let r = finish_decode(raw, comments, pixel_density, order);
            assert(agrees(
                r,
                accepted_file(
                    facts,
                    pixels,
                    markers::comments(data@),
                    markers::density(data@),
                    order,
                ),
            ));
            r
        },
    }
}

/// Decodes a JPEG image from what reading a stream to its end gave. Both ways
/// to decode give the same result.
///
/// # Errors
///
/// Same error conditions as [`decode`], plus [`IoError::Io`] for a stream that
/// could not be read.
pub fn decode_reader(contents: Result<Vec<u8>, std::io::Error>) -> (r: Result<
    JpegDecoded,
    IoError,
>)
    ensures
        match contents {
            Err(e) => r == Err::<JpegDecoded, IoError>(IoError::Io(e)),
            Ok(bytes) => is_decoding(bytes@, r),
        },
{
    match contents {
        Err(e) => Err(IoError::Io(e)),
        Ok(bytes) => decode(bytes.as_slice()),
    }
}

} // verus!
