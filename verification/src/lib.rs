//! Image file codecs: BMP and JPEG bytes in and out of typed images.
//!
//! - Each codec has an exhaustive enum of what it can produce ([`bmp::BmpImage`],
//!   [`jpeg::JpegImage`]) and a struct that adds the metadata
//!   ([`bmp::BmpDecoded`], [`jpeg::JpegDecoded`]).
//! - [`load`] detects the format and gives a [`DecodedImage`].
//! - Encoding is generic over the pixel types that a format can represent.
//!
//! Nothing here touches a file or a stream: input arrives as bytes, or as what
//! reading a stream gave, and output leaves as bytes.

use vstd::prelude::*;

pub mod bmp;
pub mod error;
pub mod image;
pub mod jpeg;
pub mod pixel;
pub mod text;

pub use error::{DecodeSource, EncodeSource, IoError};

verus! {

/// Detected image format based on magic bytes.
#[derive(Debug, Clone, Copy, PartialEq, Eq, Structural)]
pub enum ImageFormat {
    /// Portable Network Graphics.
    Png,
    /// JPEG.
    Jpeg,
    /// Windows bitmap.
    Bmp,
}

/// `data` starts with `signature`.
pub open spec fn starts_with(data: Seq<u8>, signature: Seq<u8>) -> bool {
    data.len() >= signature.len() && data.take(signature.len() as int) == signature
}

/// The leading bytes of a file of the given format.
pub open spec fn signature(format: ImageFormat) -> Seq<u8> {
    match format {
        ImageFormat::Png => seq![
            0x89u8,
            0x50u8,
            0x4Eu8,
            0x47u8,
            0x0Du8,
            0x0Au8,
            0x1Au8,
            0x0Au8,
        ],
        ImageFormat::Jpeg => seq![0xFFu8, 0xD8u8, 0xFFu8],
        ImageFormat::Bmp => seq![0x42u8, 0x4Du8],
    }
}

/// The format whose signature a file starts with. No two signatures start with
/// the same byte, so there is at most one.
pub open spec fn format_of(data: Seq<u8>) -> Option<ImageFormat> {
    if starts_with(data, signature(ImageFormat::Png)) {
        Some(ImageFormat::Png)
    } else if starts_with(data, signature(ImageFormat::Jpeg)) {
        Some(ImageFormat::Jpeg)
    } else if starts_with(data, signature(ImageFormat::Bmp)) {
        Some(ImageFormat::Bmp)
    } else {
        None
    }
}

/// Compares leading bytes.
fn has_prefix(bytes: &[u8], prefix: &[u8]) -> (b: bool)
    ensures
        b == starts_with(bytes@, prefix@),
{
    if bytes.len() < prefix.len() {
        return false;
    }
    let mut i: usize = 0;
    while i < prefix.len()
        invariant
            bytes@.len() >= prefix@.len(),
            i <= prefix@.len(),
            forall|k: int| 0 <= k < i ==> bytes@[k] == prefix@[k],
        decreases prefix@.len() - i,
    {
        if bytes[i] != prefix[i] {
            assert(bytes@.take(prefix@.len() as int)[i as int] != prefix@[i as int]);
            return false;
        }
        i += 1;
    }
    assert(bytes@.take(prefix@.len() as int) =~= prefix@);
    true
}

/// Detects the image format by inspecting the leading magic bytes.
///
/// Gives `None` if the signature doesn't match any known format.
///
/// | Format | Signature                 |
/// |--------|---------------------------|
/// | PNG    | `89 50 4E 47 0D 0A 1A 0A` |
/// | JPEG   | `FF D8 FF`                |
/// | BMP    | `42 4D`                   |
pub fn detect_format(bytes: &[u8]) -> (format: Option<ImageFormat>)
    ensures
        format == format_of(bytes@),
{
    let png: [u8; 8] = [0x89, 0x50, 0x4E, 0x47, 0x0D, 0x0A, 0x1A, 0x0A];
    let jpeg: [u8; 3] = [0xFF, 0xD8, 0xFF];
    let bmp: [u8; 2] = [0x42, 0x4D];
    assert(png@ =~= signature(ImageFormat::Png));
    assert(jpeg@ =~= signature(ImageFormat::Jpeg));
    assert(bmp@ =~= signature(ImageFormat::Bmp));
    if has_prefix(bytes, png.as_slice()) {
        Some(ImageFormat::Png)
    } else if has_prefix(bytes, jpeg.as_slice()) {
        Some(ImageFormat::Jpeg)
    } else if has_prefix(bytes, bmp.as_slice()) {
        Some(ImageFormat::Bmp)
    } else {
        None
    }
}

/// Universal decoded image: union of all per-codec decoded structs.
///
/// This enum is `#[non_exhaustive]` because new codecs may be added over time.
#[non_exhaustive]
pub enum DecodedImage {
    /// A decoded JPEG file: pixel data + metadata.
    Jpeg(jpeg::JpegDecoded),
    /// A decoded BMP file: pixel data + metadata.
    Bmp(bmp::BmpDecoded),
}

/// `r` is what loading `data` gives on some machine: what the codec of its
/// format gives, or an error if there is no such codec.
pub open spec fn is_loading(data: Seq<u8>, r: Result<DecodedImage, IoError>) -> bool {
    match format_of(data) {
        Some(ImageFormat::Jpeg) => match r {
            Ok(DecodedImage::Jpeg(d)) => jpeg::decode::is_decoding(data, Ok(d)),
            Ok(DecodedImage::Bmp(_)) => false,
            Err(e) => jpeg::decode::is_decoding(data, Err(e)),
        },
        Some(ImageFormat::Bmp) => match bmp::decode::decoded(data) {
            Ok(model) => r matches Ok(DecodedImage::Bmp(d)) && d@ == model,
            Err(e) => r == Err::<DecodedImage, IoError>(e),
        },
        Some(ImageFormat::Png) => r == Err::<DecodedImage, IoError>(
            IoError::InvalidFormat {
                reason: "detected format is not supported (enable the corresponding feature)",
            },
        ),
        None => r == Err::<DecodedImage, IoError>(
            IoError::InvalidFormat {
                reason: "unrecognised image format (magic bytes don't match any known codec)",
            },
        ),
    }
}

/// Loads an image from an in-memory byte slice, auto-detecting the format.
///
/// # Errors
///
/// - [`IoError::InvalidFormat`] if the magic bytes don't match any known format
///   that has a codec.
/// - Any error the underlying codec decoder can produce.
pub fn load(bytes: &[u8]) -> (r: Result<DecodedImage, IoError>)
    ensures
        is_loading(bytes@, r),
{
    match detect_format(bytes) {
        Some(ImageFormat::Jpeg) => match jpeg::decode(bytes) {
            Ok(d) => Ok(DecodedImage::Jpeg(d)),
            Err(e) => Err(e),
        },
        Some(ImageFormat::Bmp) => match bmp::decode(bytes) {
            Ok(d) => Ok(DecodedImage::Bmp(d)),
            Err(e) => Err(e),
        },
        Some(ImageFormat::Png) => Err(
            IoError::InvalidFormat {
                reason: "detected format is not supported (enable the corresponding feature)",
            },
        ),
        None => Err(
            IoError::InvalidFormat {
                reason: "unrecognised image format (magic bytes don't match any known codec)",
            },
        ),
    }
}

/// Loads an image from what reading a stream to its end gave, auto-detecting
/// the format.
///
/// # Errors
///
/// Same as [`load`], plus [`IoError::Io`] for a stream that could not be read.
pub fn load_reader(contents: Result<Vec<u8>, std::io::Error>) -> (r: Result<DecodedImage, IoError>)
    ensures
        match contents {
            Err(e) => r == Err::<DecodedImage, IoError>(IoError::Io(e)),
            Ok(bytes) => is_loading(bytes@, r),
        },
{
    match contents {
        Err(e) => Err(IoError::Io(e)),
        Ok(bytes) => load(bytes.as_slice()),
    }
}

/// The format of a file depends on nothing beyond its first eight bytes.
pub proof fn law_format_needs_only_the_start(data: Seq<u8>, n: int)
    requires
        8 <= n <= data.len(),
    ensures
        format_of(data.take(n)) == format_of(data),
{
    assert(data.take(n).take(8) =~= data.take(8));
    assert(data.take(n).take(3) =~= data.take(3));
    assert(data.take(n).take(2) =~= data.take(2));
}

/// Whatever follows a signature, the format is that of the signature.
pub proof fn law_signature_decides(format: ImageFormat, rest: Seq<u8>)
    ensures
        format_of(signature(format) + rest) == Some(format),
{
    let data = signature(format) + rest;
    let n = signature(format).len() as int;
    assert(data.take(n) =~= signature(format));
    assert(data[0] == signature(format)[0]);
    if format != ImageFormat::Png && starts_with(data, signature(ImageFormat::Png)) {
        assert(data.take(8)[0] == data[0]);
    }
    if format != ImageFormat::Jpeg && starts_with(data, signature(ImageFormat::Jpeg)) {
        assert(data.take(3)[0] == data[0]);
    }
}

/// Whatever loads has the signature of the codec that it is loaded with.
pub proof fn law_loaded_as_signed(data: Seq<u8>, image: DecodedImage)
    requires
        is_loading(data, Ok(image)),
    ensures
        image is Bmp ==> format_of(data) == Some(ImageFormat::Bmp),
        image is Jpeg ==> format_of(data) == Some(ImageFormat::Jpeg),
{
}

/// Loading is decoding with the codec of the format: its image is handed on, and
/// so is its error. Without a codec the format is invalid.
pub proof fn law_loading_is_decoding(data: Seq<u8>, r: Result<DecodedImage, IoError>)
    requires
        is_loading(data, r),
    ensures
        format_of(data) == Some(ImageFormat::Jpeg) ==> match r {
            Ok(image) => image matches DecodedImage::Jpeg(d) && jpeg::decode::is_decoding(
                data,
                Ok(d),
            ),
            Err(e) => jpeg::decode::is_decoding(data, Err(e)),
        },
        format_of(data) == Some(ImageFormat::Bmp) ==> match r {
            Ok(image) => image matches DecodedImage::Bmp(d) && bmp::decode::decoded(data) == Ok::<
                bmp::BmpDecodedModel,
                IoError,
            >(d@),
            Err(e) => bmp::decode::decoded(data) == Err::<bmp::BmpDecodedModel, IoError>(e),
        },
        format_of(data) is None || format_of(data) == Some(ImageFormat::Png) ==> r matches Err(
            IoError::InvalidFormat { .. },
        ),
{
}

/// A file that the BMP decoder accepts loads as what the decoder makes of it.
pub proof fn law_decodable_bmp_loads(data: Seq<u8>, r: Result<DecodedImage, IoError>)
    requires
        bmp::decode::decoded(data) is Ok,
        is_loading(data, r),
    ensures
        r matches Ok(DecodedImage::Bmp(d)) && bmp::decode::decoded(data) == Ok::<
            bmp::BmpDecodedModel,
            IoError,
        >(d@),
{
    bmp::decode_laws::law_decoded_is_signed(data);
    lemma_bmp_signature(data);
}

proof fn lemma_bmp_signature(data: Seq<u8>)
    requires
        data.len() >= 2,
        data[0] == 0x42,
        data[1] == 0x4D,
    ensures
        format_of(data) == Some(ImageFormat::Bmp),
{
    assert(data.take(2) =~= signature(ImageFormat::Bmp));
    assert(data.len() >= 8 ==> data.take(8)[0] == 0x42);
    assert(data.len() >= 3 ==> data.take(3)[0] == 0x42);
}

/// A BMP file that was written from an image that a BMP file can hold loads as
/// that image, with a palette filled up to 256 opaque entries.
pub proof fn law_written_bmp_loads(
    image: bmp::BmpImageModel,
    options: bmp::BmpEncodeOptions,
    r: Result<DecodedImage, IoError>,
)
    requires
        bmp::laws::representable_image(image),
        bmp::encode::image_error(image) is None,
        bmp::encode::encodable_image(image),
        is_loading(bmp::encode::image_file(image, options), r),
    ensures
        r matches Ok(DecodedImage::Bmp(d)) && d@.image == bmp::laws::read_back(image),
{
    bmp::laws::law_image_round_trip(image, options);
    law_decodable_bmp_loads(bmp::encode::image_file(image, options), r);
}

/// A written JPEG file is recognised as one, and if it loads, it loads as an
/// image of the dimensions and the kind that were written.
pub proof fn law_written_jpeg_loads<P: jpeg::JpegPixel>(
    image: image::Raster<P>,
    options: jpeg::JpegEncodeOptions,
    file: Vec<u8>,
    r: Result<DecodedImage, IoError>,
)
    requires
        jpeg::encode::is_encoding(image, options, Ok(file)),
        is_loading(file@, r),
    ensures
        format_of(file@) == Some(ImageFormat::Jpeg),
        r matches Ok(loaded) ==> (loaded matches DecodedImage::Jpeg(d)
            && jpeg::laws::comes_back(image, d)),
{
    let start = jpeg::encode::jfif_start();
    assert(file@.take(20)[0] == start[0]);
    assert(file@.take(3) =~= signature(ImageFormat::Jpeg)) by {
        assert forall|i: int| 0 <= i < 3 implies file@[i] == start[i] by {
            assert(file@.take(20)[i] == file@[i]);
        }
    }
    assert(file@.take(8)[0] == file@[0]);
    if let Ok(DecodedImage::Jpeg(d)) = r {
        jpeg::laws::law_encode_then_decode(image, options, file, Ok(d));
    }
}

/// A file starts with the given bytes.
pub open spec fn begins(data: Seq<u8>, start: Seq<u8>) -> bool {
    start.len() <= data.len() && forall|i: int|
        0 <= i < start.len() ==> #[trigger] data[i] == start[i]
}

/// The first bytes tell the format: `BM` a bitmap, a byte of all ones, `D8` and
/// another byte of all ones a JPEG, and the eight bytes around the letters `PNG`
/// a PNG. Nothing else is recognised.
pub proof fn law_first_bytes_tell_format(data: Seq<u8>)
    ensures
        format_of(data) == Some(ImageFormat::Bmp) <==> begins(data, seq![0x42u8, 0x4Du8]),
        format_of(data) == Some(ImageFormat::Jpeg) <==> begins(
            data,
            seq![0xFFu8, 0xD8u8, 0xFFu8],
        ),
        format_of(data) == Some(ImageFormat::Png) <==> begins(
            data,
            seq![0x89u8, 0x50u8, 0x4Eu8, 0x47u8, 0x0Du8, 0x0Au8, 0x1Au8, 0x0Au8],
        ),
{
    let bmp = seq![0x42u8, 0x4Du8];
    let jpeg = seq![0xFFu8, 0xD8u8, 0xFFu8];
    let png = seq![0x89u8, 0x50u8, 0x4Eu8, 0x47u8, 0x0Du8, 0x0Au8, 0x1Au8, 0x0Au8];
    lemma_begins(data, bmp);
    lemma_begins(data, jpeg);
    lemma_begins(data, png);
    assert(begins(data, bmp) ==> data[0] == bmp[0]);
    assert(begins(data, jpeg) ==> data[0] == jpeg[0]);
    assert(begins(data, png) ==> data[0] == png[0]);
}

proof fn lemma_begins(data: Seq<u8>, start: Seq<u8>)
    ensures
        starts_with(data, start) <==> begins(data, start),
{
    let n = start.len() as int;
    if starts_with(data, start) {
        assert forall|i: int| 0 <= i < n implies #[trigger] data[i] == start[i] by {
            assert(data.take(n)[i] == data[i]);
        }
    }
    if begins(data, start) {
        assert(data.take(n) =~= start);
    }
}

} // verus!
