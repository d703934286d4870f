//! Decoding.

use vstd::prelude::*;
use vstd::slice::slice_to_vec;
use crate::bmp::header;
use crate::bmp::header::{
    parse_dib_header, parse_file_header, BmpDibHeader, BI_BITFIELDS, BI_RGB, BI_RLE4, BI_RLE8,
    LCS_PROFILE_EMBEDDED,
};
use crate::bmp::masks;
use crate::bmp::masks::resolve_masks_with_data;
use crate::bmp::palette;
use crate::bmp::palette::parse_image_palette;
use crate::bmp::pixels;
use crate::bmp::pixels::{
    read_rows, EightBit, FourBit, OneBit, SixteenBit, ThirtyTwoBit, ThirtyTwoBitAlpha,
    TwentyFourBit,
};
use crate::bmp::rle;
use crate::bmp::rle::{decompress_rle4, decompress_rle8, RleFormat};
use crate::bmp::{
    BmpBitDepth, BmpColorSpace, BmpCompression, BmpDecoded, BmpDecodedModel, BmpHeaderVersion,
    BmpImage, BmpImageModel, BmpMetadata, BmpMetadataModel, BmpResolution,
};
use crate::error;
use crate::error::{DecodeSource, IoError};
use crate::image::{Image, Raster};
use crate::pixel::{Indexed8, Srgba8};
use crate::text::boxed_bytes;

verus! {

/// The error for a compression method that cannot be decoded, or that does not
/// go with the bit count; `None` where there is nothing to object to.
pub open spec fn compression_error(dib: BmpDibHeader) -> Option<IoError> {
    if dib.compression == 4 {
        Some(IoError::UnsupportedFeature { reason: "BI_JPEG compression is not supported" })
    } else if dib.compression == 5 {
        Some(IoError::UnsupportedFeature { reason: "BI_PNG compression is not supported" })
    } else if dib.compression > 5 {
        Some(IoError::UnsupportedFeature { reason: "unknown BMP compression type" })
    } else if dib.compression == BI_RLE8 && dib.bit_count != 8 {
        Some(IoError::InvalidFormat { reason: "BI_RLE8 compression requires 8-bit indexed" })
    } else if dib.compression == BI_RLE4 && dib.bit_count != 4 {
        Some(IoError::InvalidFormat { reason: "BI_RLE4 compression requires 4-bit indexed" })
    } else {
        None
    }
}

/// Uncompressed pixels read in the given layout, or the error for a file that
/// ends before the last of them.
pub open spec fn stored_pixels<F: pixels::RowFormat>(
    format: F,
    dib: BmpDibHeader,
    data: Seq<u8>,
    pixel_offset: int,
    truncated: &'static str,
) -> Result<Raster<F::Pixel>, IoError> {
    if pixels::pixels_end(dib, pixel_offset, format.bits()) > data.len() {
        Err(error::decode_failure(truncated))
    } else {
        Ok(pixels::stored_image(format, dib, data, pixel_offset))
    }
}

/// The indices of an uncompressed indexed image, or the error that it gives.
pub open spec fn stored_indices(dib: BmpDibHeader, data: Seq<u8>, pixel_offset: int) -> Result<
    Raster<Indexed8>,
    IoError,
> {
    if dib.bit_count == 1 {
        stored_pixels(OneBit, dib, data, pixel_offset, "BMP pixel data truncated")
    } else if dib.bit_count == 4 {
        stored_pixels(FourBit, dib, data, pixel_offset, "BMP pixel data truncated")
    } else {
        stored_pixels(EightBit, dib, data, pixel_offset, "BMP pixel data truncated")
    }
}

/// The indices of a run-length encoded image, or the error that it gives.
pub open spec fn compressed_indices(
    format: RleFormat,
    dib: BmpDibHeader,
    data: Seq<u8>,
    pixel_offset: int,
) -> Result<Raster<Indexed8>, IoError> {
    let width = dib.width as int;
    if pixel_offset > data.len() {
        Err(IoError::InvalidFormat { reason: "BMP pixel data offset beyond file" })
    } else if width * dib.height > usize::MAX {
        Err(error::decode_failure("BMP image exceeds the address space"))
    } else {
        match rle::rle_indices(format, data.skip(pixel_offset), width, dib.height as int) {
            Err(fault) => Err(rle::rle_error(format, fault)),
            Ok(indices) => Ok(
                Raster::tabulate(
                    dib.width as nat,
                    dib.height as nat,
                    |x: int, y: int| Indexed8(indices[pixels::stored_row(dib, y) * width + x]),
                ),
            ),
        }
    }
}

/// An indexed image: its palette comes first, and so does the palette's error.
pub open spec fn indexed_image(
    palette: Result<Seq<Srgba8>, IoError>,
    indices: Result<Raster<Indexed8>, IoError>,
) -> Result<BmpImageModel, IoError> {
    match palette {
        Err(e) => Err(e),
        Ok(entries) => match indices {
            Err(e) => Err(e),
            Ok(raster) => Ok(BmpImageModel::Indexed8 { data: raster, palette: entries }),
        },
    }
}

/// The image of 16-bit pixels, or the error that they give.
pub open spec fn sixteen_bit_image(dib: BmpDibHeader, data: Seq<u8>, pixel_offset: int) -> Result<
    BmpImageModel,
    IoError,
> {
    match masks::effective_masks(dib, 16, data) {
        Err(e) => Err(e),
        Ok(m) => match stored_pixels(
            pixels::sixteen_bit(m),
            dib,
            data,
            pixel_offset,
            "BMP 16-bit pixel data truncated",
        ) {
            Err(e) => Err(e),
            Ok(raster) => Ok(BmpImageModel::Srgb8(raster)),
        },
    }
}

/// The image of 24-bit pixels, or the error that they give.
pub open spec fn twenty_four_bit_image(
    dib: BmpDibHeader,
    data: Seq<u8>,
    pixel_offset: int,
) -> Result<BmpImageModel, IoError> {
    match stored_pixels(TwentyFourBit, dib, data, pixel_offset, "BMP 24-bit pixel data truncated") {
        Err(e) => Err(e),
        Ok(raster) => Ok(BmpImageModel::Srgb8(raster)),
    }
}

/// The alpha mask of 32-bit pixels: that of a header that holds masks, or the
/// fourth of the masks that follow a shorter header, where there is room for
/// four masks between the header and the pixels. Zero otherwise: what stands
/// behind three masks is then no mask.
pub open spec fn alpha_mask(
    dib: BmpDibHeader,
    m: masks::BitfieldMasks,
    pixel_offset: int,
) -> u32 {
    if dib.v4_masks is Some || 14 + dib.header_size + 16 <= pixel_offset {
        m.a
    } else {
        0
    }
}

/// The image of 32-bit pixels, or the error that they give. It has an alpha
/// channel exactly if the alpha mask is not zero.
pub open spec fn thirty_two_bit_image(
    dib: BmpDibHeader,
    data: Seq<u8>,
    pixel_offset: int,
) -> Result<BmpImageModel, IoError> {
    match masks::effective_masks(dib, 32, data) {
        Err(e) => Err(e),
        Ok(m) => if alpha_mask(dib, m, pixel_offset) != 0 {
            match stored_pixels(
                pixels::thirty_two_bit_alpha(m),
                dib,
                data,
                pixel_offset,
                "BMP 32-bit pixel data truncated",
            ) {
                Err(e) => Err(e),
                Ok(raster) => Ok(BmpImageModel::Srgba8(raster)),
            }
        } else {
            match stored_pixels(
                pixels::thirty_two_bit(m),
                dib,
                data,
                pixel_offset,
                "BMP 32-bit pixel data truncated",
            ) {
                Err(e) => Err(e),
                Ok(raster) => Ok(BmpImageModel::Srgb8(raster)),
            }
        },
    }
}

/// The image that a file with the given header holds, or the error that it
/// gives.
pub open spec fn decoded_image(dib: BmpDibHeader, data: Seq<u8>, pixel_offset: int) -> Result<
    BmpImageModel,
    IoError,
> {
    if dib.bit_count == 4 && dib.compression == BI_RLE4 {
        indexed_image(
            palette::image_palette(dib, data),
            compressed_indices(RleFormat::Rle4, dib, data, pixel_offset),
        )
    } else if dib.bit_count == 8 && dib.compression == BI_RLE8 {
        indexed_image(
            palette::image_palette(dib, data),
            compressed_indices(RleFormat::Rle8, dib, data, pixel_offset),
        )
    } else if dib.bit_count == 1 || dib.bit_count == 4 || dib.bit_count == 8 {
        indexed_image(
            palette::image_palette(dib, data),
            stored_indices(dib, data, pixel_offset),
        )
    } else if dib.bit_count == 16 {
        sixteen_bit_image(dib, data, pixel_offset)
    } else if dib.bit_count == 24 {
        twenty_four_bit_image(dib, data, pixel_offset)
    } else {
        thirty_two_bit_image(dib, data, pixel_offset)
    }
}

/// The colour space that a header signals: an embedded profile, which only the
/// latest header version can have, is the only thing that makes it other than
/// sRGB.
pub open spec fn color_space(dib: BmpDibHeader) -> BmpColorSpace {
    if dib.header_version is V5 && dib.cs_type == LCS_PROFILE_EMBEDDED {
        BmpColorSpace::IccTagged
    } else {
        BmpColorSpace::Srgb
    }
}

/// The source bit depth that a bit count stands for.
pub open spec fn bit_depth(bit_count: u16) -> BmpBitDepth {
    if bit_count == 1 {
        BmpBitDepth::One
    } else if bit_count == 4 {
        BmpBitDepth::Four
    } else if bit_count == 8 {
        BmpBitDepth::Eight
    } else if bit_count == 16 {
        BmpBitDepth::Sixteen
    } else if bit_count == 24 {
        BmpBitDepth::TwentyFour
    } else {
        BmpBitDepth::ThirtyTwo
    }
}

/// The compression method that a tag stands for.
pub open spec fn compression_method(tag: u32) -> BmpCompression {
    if tag == BI_RGB {
        BmpCompression::Uncompressed
    } else if tag == BI_RLE8 {
        BmpCompression::Rle8
    } else if tag == BI_RLE4 {
        BmpCompression::Rle4
    } else {
        BmpCompression::Bitfields
    }
}

/// The embedded ICC profile, where the header names one that lies inside the
/// file.
pub open spec fn icc_bytes(dib: BmpDibHeader, data: Seq<u8>) -> Option<Seq<u8>> {
    match dib.icc_profile {
        None => None,
        Some((offset, size)) => if 14 + offset + size <= data.len() {
            Some(data.subrange(14 + offset, 14 + offset + size))
        } else {
            None
        },
    }
}

/// The metadata of a file with the given header.
pub open spec fn decoded_metadata(dib: BmpDibHeader, data: Seq<u8>) -> BmpMetadataModel {
    BmpMetadataModel {
        color_space: color_space(dib),
        source_bit_depth: bit_depth(dib.bit_count),
        resolution: if dib.x_pels_per_meter > 0 || dib.y_pels_per_meter > 0 {
            Some(
                BmpResolution {
                    x_pixels_per_meter: dib.x_pels_per_meter,
                    y_pixels_per_meter: dib.y_pels_per_meter,
                },
            )
        } else {
            None
        },
        compression: compression_method(dib.compression),
        header_version: dib.header_version,
        icc_profile: icc_bytes(dib, data),
    }
}

/// What a BMP file holds, or the error that it gives.
pub open spec fn decoded(data: Seq<u8>) -> Result<BmpDecodedModel, IoError> {
    match header::file_header(data) {
        Err(e) => Err(e),
        Ok(file) => match header::dib_header(data) {
            Err(e) => Err(e),
            Ok(dib) => match compression_error(dib) {
                Some(e) => Err(e),
                None => match decoded_image(dib, data, file.pixel_data_offset as int) {
                    Err(e) => Err(e),
                    Ok(image) => Ok(
                        BmpDecodedModel { image, metadata: decoded_metadata(dib, data) },
                    ),
                },
            },
        },
    }
}

/// Decodes a BMP image from an in-memory byte slice.
///
/// # Errors
///
/// - [`IoError::InvalidFormat`]: not a BMP file, truncated, or structurally
///   invalid.
/// - [`IoError::UnsupportedFeature`]: unsupported DIB header version,
///   `BI_JPEG`, or `BI_PNG` compression.
/// - [`IoError::DecodeFailed`]: pixel data corruption (e.g. RLE out of
///   bounds), or a run-length encoded image with more pixels than the machine
///   can address.
pub fn decode(data: &[u8]) -> (r: Result<BmpDecoded, IoError>)
    ensures
        match decoded(data@) {
            Ok(model) => r matches Ok(d) && d@ == model,
            Err(e) => r == Err::<BmpDecoded, IoError>(e),
        },
{
    let file = match parse_file_header(data) {
        Ok(file) => file,
        Err(e) => return Err(e),
    };
    let dib = match parse_dib_header(data) {
        Ok(dib) => dib,
        Err(e) => return Err(e),
    };
    proof {
        header::law_parsed_header_is_valid(data@);
    }
    match check_compression(&dib) {
        None => {},
        Some(e) => return Err(e),
    }
    let pixel_offset: u32 = file.pixel_data_offset;
    let image = if dib.bit_count == 4 && dib.compression == BI_RLE4 {
        decode_indexed_rle4(&dib, data, pixel_offset)
    } else if dib.bit_count == 8 && dib.compression == BI_RLE8 {
        decode_indexed_rle8(&dib, data, pixel_offset)
    } else if dib.bit_count == 1 || dib.bit_count == 4 || dib.bit_count == 8 {
        decode_indexed(&dib, data, pixel_offset)
    } else if dib.bit_count == 16 {
        decode_16bit(&dib, data, pixel_offset)
    } else if dib.bit_count == 24 {
        decode_24bit(&dib, data, pixel_offset)
    } else {
        decode_32bit(&dib, data, pixel_offset)
    };
    match image {
        Err(e) => Err(e),
        Ok(image) => {
            let metadata = build_metadata(&dib, data);
            Ok(BmpDecoded { image, metadata })
        },
    }
}

/// Decodes a BMP image from what reading a stream to its end gave.
///
/// # Errors
///
/// Same error conditions as [`decode`], plus [`IoError::Io`] for a stream that
/// could not be read.
pub fn decode_reader(contents: Result<Vec<u8>, std::io::Error>) -> (r: Result<BmpDecoded, IoError>)
    ensures
        match contents {
            Err(e) => r == Err::<BmpDecoded, IoError>(IoError::Io(e)),
            Ok(bytes) => match decoded(bytes@) {
                Ok(model) => r matches Ok(d) && d@ == model,
                Err(e) => r == Err::<BmpDecoded, IoError>(e),
            },
        },
{
    match contents {
        Err(e) => Err(IoError::Io(e)),
        Ok(bytes) => decode(bytes.as_slice()),
    }
}

/// Objects to a compression method that cannot be decoded, or that does not go
/// with the bit count.
fn check_compression(dib: &BmpDibHeader) -> (r: Option<IoError>)
    ensures
        r == compression_error(*dib),
{
    match dib.compression {
        0 | 1 | 2 | 3 => {},
        4 => {
            return Some(
                IoError::UnsupportedFeature { reason: "BI_JPEG compression is not supported" },
            );
        },
        5 => {
            return Some(
                IoError::UnsupportedFeature { reason: "BI_PNG compression is not supported" },
            );
        },
        _ => {
            return Some(IoError::UnsupportedFeature { reason: "unknown BMP compression type" });
        },
    }
    if dib.compression == BI_RLE8 && dib.bit_count != 8 {
        return Some(
            IoError::InvalidFormat { reason: "BI_RLE8 compression requires 8-bit indexed" },
        );
    }
    if dib.compression == BI_RLE4 && dib.bit_count != 4 {
        return Some(
            IoError::InvalidFormat { reason: "BI_RLE4 compression requires 4-bit indexed" },
        );
    }
    None
}

/// Decodes indexed (1, 4, or 8-bit) uncompressed pixel data.
fn decode_indexed(dib: &BmpDibHeader, data: &[u8], pixel_offset: u32) -> (r: Result<
    BmpImage,
    IoError,
>)
    requires
        dib.wf(),
        dib.bit_count == 1 || dib.bit_count == 4 || dib.bit_count == 8,
    ensures
        match indexed_image(
            palette::image_palette(*dib, data@),
            stored_indices(*dib, data@, pixel_offset as int),
        ) {
            Ok(model) => r matches Ok(i) && i@ == model,
            Err(e) => r == Err::<BmpImage, IoError>(e),
        },
{
    let palette = match parse_image_palette(dib, data) {
        Ok(palette) => palette,
        Err(e) => return Err(e),
    };
    let indices = match dib.bit_count {
        1 => read_rows(&OneBit, dib, data, pixel_offset, "BMP pixel data truncated"),
        4 => read_rows(&FourBit, dib, data, pixel_offset, "BMP pixel data truncated"),
        _ => read_rows(&EightBit, dib, data, pixel_offset, "BMP pixel data truncated"),
    };
    match indices {
        Ok(image) => Ok(BmpImage::Indexed8 { data: image, palette }),
        Err(e) => Err(e),
    }
}

/// Decodes RLE8-compressed indexed pixel data.
fn decode_indexed_rle8(dib: &BmpDibHeader, data: &[u8], pixel_offset: u32) -> (r: Result<
    BmpImage,
    IoError,
>)
    requires
        dib.wf(),
    ensures
        match indexed_image(
            palette::image_palette(*dib, data@),
            compressed_indices(RleFormat::Rle8, *dib, data@, pixel_offset as int),
        ) {
            Ok(model) => r matches Ok(i) && i@ == model,
            Err(e) => r == Err::<BmpImage, IoError>(e),
        },
{
    decode_indexed_rle(RleFormat::Rle8, dib, data, pixel_offset)
}

/// Decodes RLE4-compressed indexed pixel data.
fn decode_indexed_rle4(dib: &BmpDibHeader, data: &[u8], pixel_offset: u32) -> (r: Result<
    BmpImage,
    IoError,
>)
    requires
        dib.wf(),
    ensures
        match indexed_image(
            palette::image_palette(*dib, data@),
            compressed_indices(RleFormat::Rle4, *dib, data@, pixel_offset as int),
        ) {
            Ok(model) => r matches Ok(i) && i@ == model,
            Err(e) => r == Err::<BmpImage, IoError>(e),
        },
{
    decode_indexed_rle(RleFormat::Rle4, dib, data, pixel_offset)
}

/// Decodes run-length encoded indexed pixel data. The stream paints rows in
/// file order, so they are put in image order afterwards.
fn decode_indexed_rle(
    format: RleFormat,
    dib: &BmpDibHeader,
    data: &[u8],
    pixel_offset: u32,
) -> (r: Result<BmpImage, IoError>)
    requires
        dib.wf(),
    ensures
        match indexed_image(
            palette::image_palette(*dib, data@),
            compressed_indices(format, *dib, data@, pixel_offset as int),
        ) {
            Ok(model) => r matches Ok(i) && i@ == model,
            Err(e) => r == Err::<BmpImage, IoError>(e),
        },
{
    let palette = match parse_image_palette(dib, data) {
        Ok(palette) => palette,
        Err(e) => return Err(e),
    };
    let limit: usize = data.len();
    if pixel_offset as usize > limit {
        return Err(IoError::InvalidFormat { reason: "BMP pixel data offset beyond file" });
    }
    let width: usize = dib.width as usize;
    let height: usize = dib.height as usize;
    if width.checked_mul(height).is_none() {
        return Err(
            IoError::DecodeFailed {
                source: DecodeSource::Message("BMP image exceeds the address space"),
            },
        );
    }
    let stream: &[u8] = &data[pixel_offset as usize..limit];
    assert(stream@ =~= data@.skip(pixel_offset as int));
    let decompressed = match format {
        RleFormat::Rle8 => decompress_rle8(stream, width, height),
        RleFormat::Rle4 => decompress_rle4(stream, width, height),
    };
    let indices = match decompressed {
        Ok(indices) => indices,
        Err(e) => return Err(e),
    };
    proof {
        rle::law_rle_fills_image(format, stream@, width as nat, height as nat);
    }
    match Image::from_vec(width, height, arrange_rows(&indices, dib)) {
        Some(image) => {
            proof {
                let value = |x: int, y: int|
                    Indexed8(indices@[pixels::stored_row(*dib, y) * (dib.width as int) + x]);
                assert forall|x: int, y: int|
                    0 <= x < image@.width && 0 <= y < image@.height implies #[trigger] image@.at(
                    x,
                    y,
                ) == value(x, y) by {
                    assert(image@.pixels[y * dib.width + x] == value(x, y));
                }
                crate::image::lemma_tabulated(image@, value);
            }
            Ok(BmpImage::Indexed8 { data: image, palette })
        },
        None => Err(decode_failed("pixel count does not match image dimensions")),
    }
}

/// Puts indices that are in file order into image order.
fn arrange_rows(indices: &Vec<u8>, dib: &BmpDibHeader) -> (arranged: Vec<Indexed8>)
    requires
        dib.wf(),
        indices@.len() == dib.width * dib.height,
    ensures
        arranged@.len() == dib.width * dib.height,
        forall|x: int, y: int|
            0 <= x < dib.width && 0 <= y < dib.height ==> #[trigger] arranged@[y * dib.width + x]
                == Indexed8(indices@[pixels::stored_row(*dib, y) * dib.width + x]),
{
    let width: usize = dib.width as usize;
    let height: usize = dib.height as usize;
    let count: usize = indices.len();
    let mut arranged: Vec<Indexed8> = Vec::new();
    let mut y: usize = 0;
    while y < height
        invariant
            dib.wf(),
            width == dib.width,
            height == dib.height,
            count == indices@.len(),
            count == width * height,
            y <= height,
            arranged@.len() == y * width,
            forall|cx: int, cy: int|
                0 <= cx < width && 0 <= cy < y ==> #[trigger] arranged@[cy * width + cx]
                    == Indexed8(indices@[pixels::stored_row(*dib, cy) * width + cx]),
        decreases height - y,
    {
        let source: usize = if dib.top_down {
            y
        } else {
            height - 1 - y
        };
        let mut x: usize = 0;
        while x < width
            invariant
                dib.wf(),
                width == dib.width,
                height == dib.height,
                count == indices@.len(),
                count == width * height,
                y < height,
                source == pixels::stored_row(*dib, y as int),
                x <= width,
                arranged@.len() == y * width + x,
                forall|cx: int, cy: int|
                    0 <= cx < width && 0 <= cy < y ==> #[trigger] arranged@[cy * width + cx]
                        == Indexed8(indices@[pixels::stored_row(*dib, cy) * width + cx]),
                forall|cx: int|
                    0 <= cx < x ==> #[trigger] arranged@[y * width + cx] == Indexed8(
                        indices@[source * width + cx],
                    ),
            decreases width - x,
        {
            proof {
                crate::image::lemma_index_in_area(
                    x as int,
                    source as int,
                    width as int,
                    height as int,
                );
            }
            let ghost before = arranged@;
            arranged.push(Indexed8(indices[source * width + x]));
            proof {
                assert forall|cx: int, cy: int| 0 <= cx < width && 0 <= cy < y implies
                    #[trigger] arranged@[cy * width + cx] == Indexed8(
                    indices@[pixels::stored_row(*dib, cy) * width + cx],
                ) by {
                    crate::image::lemma_index_in_area(cx, cy, width as int, y as int);
                    assert(width * y == y * width) by (nonlinear_arith);
                    assert(before[cy * width + cx] == Indexed8(
                        indices@[pixels::stored_row(*dib, cy) * width + cx],
                    ));
                }
            }
            x += 1;
        }
        proof {
            assert((y + 1) * width == y * width + width) by (nonlinear_arith);
            assert forall|cx: int, cy: int| 0 <= cx < width && 0 <= cy < y + 1 implies
                #[trigger] arranged@[cy * width + cx] == Indexed8(
                indices@[pixels::stored_row(*dib, cy) * width + cx],
            ) by {
                if cy == y {
                    assert(arranged@[y * width + cx] == Indexed8(indices@[source * width + cx]));
                }
            }
        }
        y += 1;
    }
    assert(height * width == width * height) by (nonlinear_arith);
    arranged
}

/// Decodes 16-bit pixel data (5-5-5 default or bitfield masks).
fn decode_16bit(dib: &BmpDibHeader, data: &[u8], pixel_offset: u32) -> (r: Result<
    BmpImage,
    IoError,
>)
    requires
        dib.wf(),
    ensures
        match sixteen_bit_image(*dib, data@, pixel_offset as int) {
            Ok(model) => r matches Ok(i) && i@ == model,
            Err(e) => r == Err::<BmpImage, IoError>(e),
        },
{
    let masks = match resolve_masks_with_data(dib, 16, data) {
        Ok(masks) => masks,
        Err(e) => return Err(e),
    };
    let format = SixteenBit::from_masks(masks);
    match read_rows(&format, dib, data, pixel_offset, "BMP 16-bit pixel data truncated") {
        Ok(image) => Ok(BmpImage::Srgb8(image)),
        Err(e) => Err(e),
    }
}

/// Decodes 24-bit pixel data (BGR to RGB).
fn decode_24bit(dib: &BmpDibHeader, data: &[u8], pixel_offset: u32) -> (r: Result<
    BmpImage,
    IoError,
>)
    requires
        dib.wf(),
    ensures
        match twenty_four_bit_image(*dib, data@, pixel_offset as int) {
            Ok(model) => r matches Ok(i) && i@ == model,
            Err(e) => r == Err::<BmpImage, IoError>(e),
        },
{
    match read_rows(&TwentyFourBit, dib, data, pixel_offset, "BMP 24-bit pixel data truncated") {
        Ok(image) => Ok(BmpImage::Srgb8(image)),
        Err(e) => Err(e),
    }
}

/// Decodes 32-bit pixel data, with an alpha channel exactly if the alpha mask
/// is not zero.
fn decode_32bit(dib: &BmpDibHeader, data: &[u8], pixel_offset: u32) -> (r: Result<
    BmpImage,
    IoError,
>)
    requires
        dib.wf(),
    ensures
        match thirty_two_bit_image(*dib, data@, pixel_offset as int) {
            Ok(model) => r matches Ok(i) && i@ == model,
            Err(e) => r == Err::<BmpImage, IoError>(e),
        },
{
    let masks = match resolve_masks_with_data(dib, 32, data) {
        Ok(masks) => masks,
        Err(e) => return Err(e),
    };
    let four_masks = dib.v4_masks.is_some() || 14 + dib.header_size as u64 + 16
        <= pixel_offset as u64;
    if four_masks && masks.a != 0 {
        let format = ThirtyTwoBitAlpha::from_masks(masks);
        match read_rows(&format, dib, data, pixel_offset, "BMP 32-bit pixel data truncated") {
            Ok(image) => Ok(BmpImage::Srgba8(image)),
            Err(e) => Err(e),
        }
    } else {
        let format = ThirtyTwoBit::from_masks(masks);
        match read_rows(&format, dib, data, pixel_offset, "BMP 32-bit pixel data truncated") {
            Ok(image) => Ok(BmpImage::Srgb8(image)),
            Err(e) => Err(e),
        }
    }
}

/// Builds the metadata from the parsed DIB header.
pub fn build_metadata(dib: &BmpDibHeader, data: &[u8]) -> (metadata: BmpMetadata)
    requires
        header::valid_bit_count(BmpHeaderVersion::Info, dib.bit_count),
        dib.compression <= BI_BITFIELDS,
    ensures
        metadata@ == decoded_metadata(*dib, data@),
{
    let source_bit_depth = match dib.bit_count {
        1 => BmpBitDepth::One,
        4 => BmpBitDepth::Four,
        8 => BmpBitDepth::Eight,
        16 => BmpBitDepth::Sixteen,
        24 => BmpBitDepth::TwentyFour,
        _ => BmpBitDepth::ThirtyTwo,
    };
    let compression = match dib.compression {
        0 => BmpCompression::Uncompressed,
        1 => BmpCompression::Rle8,
        2 => BmpCompression::Rle4,
        _ => BmpCompression::Bitfields,
    };
    let resolution = if dib.x_pels_per_meter > 0 || dib.y_pels_per_meter > 0 {
        Some(
            BmpResolution {
                x_pixels_per_meter: dib.x_pels_per_meter,
                y_pixels_per_meter: dib.y_pels_per_meter,
            },
        )
    } else {
        None
    };
    let icc_profile = match dib.icc_profile {
        None => None,
        Some((offset, size)) => {
            let start: u64 = 14 + offset as u64;
            let end: u64 = start + size as u64;
            if end <= data.len() as u64 {
                Some(boxed_bytes(slice_to_vec(&data[start as usize..end as usize])))
            } else {
                None
            }
        },
    };
    BmpMetadata {
        color_space: determine_color_space(dib),
        source_bit_depth,
        resolution,
        compression,
        header_version: dib.header_version,
        icc_profile,
    }
}

/// Determines the colour space from the DIB header fields.
pub fn determine_color_space(dib: &BmpDibHeader) -> (c: BmpColorSpace)
    ensures
        c == color_space(*dib),
{
    match dib.header_version {
        BmpHeaderVersion::Core | BmpHeaderVersion::Info | BmpHeaderVersion::V4 => {
            BmpColorSpace::Srgb
        },
        BmpHeaderVersion::V5 => {
            if dib.cs_type == LCS_PROFILE_EMBEDDED {
                BmpColorSpace::IccTagged
            } else {
                BmpColorSpace::Srgb
            }
        },
    }
}

/// A `DecodeFailed` error that carries `msg`.
pub fn decode_failed(msg: &'static str) -> (e: IoError)
    ensures
        e == error::decode_failure(msg),
{
    IoError::DecodeFailed { source: DecodeSource::Message(msg) }
}

} // verus!
