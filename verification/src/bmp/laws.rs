//! What decoding gives back of what encoding wrote.

use vstd::prelude::*;
use vstd::arithmetic::power2;
use crate::bmp::decode;
use crate::bmp::encode;
use crate::bmp::encode::{BmpPixel, WirePixel};
use crate::bmp::header;
use crate::bmp::header::{BmpDibHeader, BmpFileHeader, BI_BITFIELDS, BI_RGB};
use crate::bmp::le;
use crate::bmp::masks;
use crate::bmp::masks::BitfieldMasks;
use crate::bmp::palette;
use crate::bmp::pixels;
use crate::bmp::pixels::RowFormat;
use crate::bmp::{
    BmpBitDepth, BmpColorSpace, BmpCompression, BmpDecodedModel, BmpEncodeOptions,
    BmpHeaderVersion, BmpImageModel, BmpMetadataModel, BmpResolution,
};
use crate::image::Raster;
use crate::pixel::{Indexed8, Srgb8, Srgba8};

verus! {

/// Both dimensions are positive and within the range that a header can hold.
pub open spec fn representable<P>(image: Raster<P>) -> bool {
    &&& image.wf()
    &&& 1 <= image.width <= i32::MAX
    &&& 1 <= image.height <= i32::MAX
}

/// The resolution that comes back: one that is zero in both directions counts
/// as unspecified.
pub open spec fn kept_resolution(options: BmpEncodeOptions) -> Option<BmpResolution> {
    match options.resolution {
        Some(r) => if r.x_pixels_per_meter > 0 || r.y_pixels_per_meter > 0 {
            Some(r)
        } else {
            None
        },
        None => None,
    }
}

/// The metadata that comes back of a file that the encoder wrote.
pub open spec fn written_metadata(
    depth: BmpBitDepth,
    compression: BmpCompression,
    options: BmpEncodeOptions,
) -> BmpMetadataModel {
    BmpMetadataModel {
        color_space: BmpColorSpace::Srgb,
        source_bit_depth: depth,
        resolution: kept_resolution(options),
        compression,
        header_version: BmpHeaderVersion::Info,
        icc_profile: None,
    }
}

/// The palette that comes back: every entry opaque, and opaque black beyond
/// the entries that were given.
pub open spec fn kept_palette(palette: Seq<Srgba8>) -> Seq<Srgba8> {
    Seq::new(
        256,
        |i: int|
            if i < palette.len() {
                Srgba8 { r: palette[i].r, g: palette[i].g, b: palette[i].b, a: 255 }
            } else {
                Srgba8 { r: 0, g: 0, b: 0, a: 255 }
            },
    )
}

proof fn lemma_le32_at(s: Seq<u8>, at: int, v: u32)
    requires
        0 <= at,
        at + 4 <= s.len(),
        s.subrange(at, at + 4) == le::le32_bytes(v),
    ensures
        le::le32(s, at) == v,
{
    let b = le::le32_bytes(v);
    assert(s[at] == b[0]) by {
        assert(s.subrange(at, at + 4)[0] == s[at]);
    }
    assert(s[at + 1] == b[1]) by {
        assert(s.subrange(at, at + 4)[1] == s[at + 1]);
    }
    assert(s[at + 2] == b[2]) by {
        assert(s.subrange(at, at + 4)[2] == s[at + 2]);
    }
    assert(s[at + 3] == b[3]) by {
        assert(s.subrange(at, at + 4)[3] == s[at + 3]);
    }
    le::law_u32_write_then_read(s, at, v);
}

proof fn lemma_le16_at(s: Seq<u8>, at: int, v: u16)
    requires
        0 <= at,
        at + 2 <= s.len(),
        s.subrange(at, at + 2) == le::le16_bytes(v),
    ensures
        le::le16(s, at) == v,
{
    let b = le::le16_bytes(v);
    assert(s[at] == b[0]) by {
        assert(s.subrange(at, at + 2)[0] == s[at]);
    }
    assert(s[at + 1] == b[1]) by {
        assert(s.subrange(at, at + 2)[1] == s[at + 1]);
    }
}

/// Where the eleven parts of an info header lie in it.
proof fn lemma_info_parts(whole: Seq<u8>, p: Seq<Seq<u8>>)
    requires
        p.len() == 11,
        forall|i: int|
            0 <= i < 11 ==> (#[trigger] p[i]).len() == if i == 3 || i == 4 {
                2nat
            } else {
                4nat
            },
        whole == p[0] + p[1] + p[2] + p[3] + p[4] + p[5] + p[6] + p[7] + p[8] + p[9] + p[10],
    ensures
        whole.len() == 40,
        whole.subrange(0, 4) == p[0],
        whole.subrange(4, 8) == p[1],
        whole.subrange(8, 12) == p[2],
        whole.subrange(12, 14) == p[3],
        whole.subrange(14, 16) == p[4],
        whole.subrange(16, 20) == p[5],
        whole.subrange(20, 24) == p[6],
        whole.subrange(24, 28) == p[7],
        whole.subrange(28, 32) == p[8],
        whole.subrange(32, 36) == p[9],
        whole.subrange(36, 40) == p[10],
{
    assert(whole.subrange(0, 4) =~= p[0]);
    assert(whole.subrange(4, 8) =~= p[1]);
    assert(whole.subrange(8, 12) =~= p[2]);
    assert(whole.subrange(12, 14) =~= p[3]);
    assert(whole.subrange(14, 16) =~= p[4]);
    assert(whole.subrange(16, 20) =~= p[5]);
    assert(whole.subrange(20, 24) =~= p[6]);
    assert(whole.subrange(24, 28) =~= p[7]);
    assert(whole.subrange(28, 32) =~= p[8]);
    assert(whole.subrange(32, 36) =~= p[9]);
    assert(whole.subrange(36, 40) =~= p[10]);
}

/// The numbers in an info header that the encoder wrote, wherever it lies.
pub(crate) proof fn lemma_info_fields(
    file: Seq<u8>,
    at: int,
    width: u32,
    height: u32,
    bit_count: u16,
    compression: u32,
    image_size: u32,
    resolution: (u32, u32),
    colors_used: u32,
)
    requires
        0 <= at,
        at + 40 <= file.len(),
        file.subrange(at, at + 40) == encode::info_header_bytes(
            width,
            height,
            bit_count,
            compression,
            image_size,
            resolution,
            colors_used,
        ),
    ensures
        le::le32(file, at) == 40,
        le::le32(file, at + 4) == width,
        le::le32(file, at + 8) == height,
        le::le16(file, at + 12) == 1,
        le::le16(file, at + 14) == bit_count,
        le::le32(file, at + 16) == compression,
        le::le32(file, at + 24) == resolution.0,
        le::le32(file, at + 28) == resolution.1,
        le::le32(file, at + 32) == colors_used,
        le::le32(file, at + 20) == image_size,
        le::le32(file, at + 36) == 0,
{
    let ih = encode::info_header_bytes(
        width,
        height,
        bit_count,
        compression,
        image_size,
        resolution,
        colors_used,
    );
    let p = seq![
        le::le32_bytes(40),
        le::le32_bytes(width),
        le::le32_bytes(height),
        le::le16_bytes(1),
        le::le16_bytes(bit_count),
        le::le32_bytes(compression),
        le::le32_bytes(image_size),
        le::le32_bytes(resolution.0),
        le::le32_bytes(resolution.1),
        le::le32_bytes(colors_used),
        le::le32_bytes(0),
    ];
    reveal(encode::info_header_bytes);
    lemma_info_parts(ih, p);
    lemma_field32(file, at, ih, 0, 40);
    lemma_field32(file, at, ih, 4, width);
    lemma_field32(file, at, ih, 8, height);
    lemma_field16(file, at, ih, 12, 1);
    lemma_field16(file, at, ih, 14, bit_count);
    lemma_field32(file, at, ih, 16, compression);
    lemma_field32(file, at, ih, 24, resolution.0);
    lemma_field32(file, at, ih, 28, resolution.1);
    lemma_field32(file, at, ih, 32, colors_used);
    lemma_field32(file, at, ih, 20, image_size);
    lemma_field32(file, at, ih, 36, 0);
}

pub(crate) proof fn lemma_field32(file: Seq<u8>, at: int, part: Seq<u8>, i: int, v: u32)
    requires
        0 <= at,
        at + part.len() <= file.len(),
        file.subrange(at, at + part.len()) == part,
        0 <= i,
        i + 4 <= part.len(),
        part.subrange(i, i + 4) == le::le32_bytes(v),
    ensures
        le::le32(file, at + i) == v,
{
    assert(file.subrange(at + i, at + i + 4) =~= part.subrange(i, i + 4));
    lemma_le32_at(file, at + i, v);
}

proof fn lemma_field16(file: Seq<u8>, at: int, part: Seq<u8>, i: int, v: u16)
    requires
        0 <= at,
        at + part.len() <= file.len(),
        file.subrange(at, at + part.len()) == part,
        0 <= i,
        i + 2 <= part.len(),
        part.subrange(i, i + 2) == le::le16_bytes(v),
    ensures
        le::le16(file, at + i) == v,
{
    assert(file.subrange(at + i, at + i + 2) =~= part.subrange(i, i + 2));
    lemma_le16_at(file, at + i, v);
}

/// The file header that the encoder wrote.
proof fn lemma_file_header_fields(file: Seq<u8>, file_size: u32, pixel_offset: u32)
    requires
        14 <= file.len(),
        file.subrange(0, 14) == encode::file_header_bytes(file_size, pixel_offset),
    ensures
        header::file_header(file) == Ok::<BmpFileHeader, crate::error::IoError>(
            BmpFileHeader { pixel_data_offset: pixel_offset },
        ),
{
    let fh = encode::file_header_bytes(file_size, pixel_offset);
    reveal(encode::file_header_bytes);
    assert(fh.subrange(10, 14) =~= le::le32_bytes(pixel_offset));
    reveal(header::file_header);
    lemma_field32(file, 0, fh, 10, pixel_offset);
    assert(file[0] == file.subrange(0, 14)[0]);
    assert(file[1] == file.subrange(0, 14)[1]);
}

/// The header of a file that the encoder wrote.
pub open spec fn written_header(
    width: u32,
    height: u32,
    bit_count: u16,
    compression: u32,
    resolution: (u32, u32),
    colors_used: u32,
) -> BmpDibHeader {
    BmpDibHeader {
        width,
        height,
        top_down: false,
        bit_count,
        compression,
        header_version: BmpHeaderVersion::Info,
        x_pels_per_meter: resolution.0,
        y_pels_per_meter: resolution.1,
        colors_used,
        cs_type: 0,
        header_size: 40,
        v4_masks: None,
        icc_profile: None,
        color_table_entry_size: 4,
    }
}

/// A file with the fields of an info header has that header.
proof fn lemma_header_from_fields(
    file: Seq<u8>,
    width: u32,
    height: u32,
    bit_count: u16,
    compression: u32,
    resolution: (u32, u32),
    colors_used: u32,
)
    requires
        54 <= file.len(),
        le::le32(file, 14) == 40,
        le::le32(file, 18) == width,
        le::le32(file, 22) == height,
        le::le16(file, 26) == 1,
        le::le16(file, 28) == bit_count,
        le::le32(file, 30) == compression,
        le::le32(file, 38) == resolution.0,
        le::le32(file, 42) == resolution.1,
        le::le32(file, 46) == colors_used,
        1 <= width <= i32::MAX,
        1 <= height <= i32::MAX,
        header::valid_bit_count(BmpHeaderVersion::Info, bit_count),
    ensures
        header::dib_header(file) == Ok::<BmpDibHeader, crate::error::IoError>(
            written_header(width, height, bit_count, compression, resolution, colors_used),
        ),
{
    reveal(header::dib_header);
}

/// The headers of a file that the encoder wrote read back.
proof fn lemma_headers_read_back(
    file: Seq<u8>,
    file_size: u32,
    pixel_offset: u32,
    width: u32,
    height: u32,
    bit_count: u16,
    compression: u32,
    image_size: u32,
    resolution: (u32, u32),
    colors_used: u32,
    rest: Seq<u8>,
)
    requires
        file == encode::file_header_bytes(file_size, pixel_offset) + encode::info_header_bytes(
            width,
            height,
            bit_count,
            compression,
            image_size,
            resolution,
            colors_used,
        ) + rest,
        1 <= width <= i32::MAX,
        1 <= height <= i32::MAX,
        header::valid_bit_count(BmpHeaderVersion::Info, bit_count),
    ensures
        file.len() == 54 + rest.len(),
        file.skip(54) == rest,
        header::file_header(file) == Ok::<BmpFileHeader, crate::error::IoError>(
            BmpFileHeader { pixel_data_offset: pixel_offset },
        ),
        header::dib_header(file) == Ok::<BmpDibHeader, crate::error::IoError>(
            written_header(width, height, bit_count, compression, resolution, colors_used),
        ),
{
    let fh = encode::file_header_bytes(file_size, pixel_offset);
    let ih = encode::info_header_bytes(
        width,
        height,
        bit_count,
        compression,
        image_size,
        resolution,
        colors_used,
    );
    assert(fh.len() == 14) by {
        reveal(encode::file_header_bytes);
    }
    assert(ih.len() == 40) by {
        reveal(encode::info_header_bytes);
    }
    lemma_three_parts(file, fh, ih, rest);
    lemma_file_header_fields(file, file_size, pixel_offset);
    lemma_info_fields(
        file,
        14,
        width,
        height,
        bit_count,
        compression,
        image_size,
        resolution,
        colors_used,
    );
    lemma_header_from_fields(
        file,
        width,
        height,
        bit_count,
        compression,
        resolution,
        colors_used,
    );
}

pub(crate) proof fn lemma_three_parts(whole: Seq<u8>, a: Seq<u8>, b: Seq<u8>, c: Seq<u8>)
    requires
        whole == a + b + c,
    ensures
        whole.len() == a.len() + b.len() + c.len(),
        whole.subrange(0, a.len() as int) == a,
        whole.subrange(a.len() as int, (a.len() + b.len()) as int) == b,
        whole.skip((a.len() + b.len()) as int) == c,
{
    assert(whole.subrange(0, a.len() as int) =~= a);
    assert(whole.subrange(a.len() as int, (a.len() + b.len()) as int) =~= b);
    assert(whole.skip((a.len() + b.len()) as int) =~= c);
}

/// Rows are stored one after the other, the lowest one first.
pub(crate) proof fn lemma_stored_byte<P: WirePixel>(image: Raster<P>, count: int, row: int, i: int)
    requires
        0 <= row < count,
        0 <= i < pixels::stride(image.width as int, 8 * P::wire_size()),
    ensures
        ({
            let step = pixels::stride(image.width as int, 8 * P::wire_size());
            &&& 0 <= row * step + i < encode::rows_bytes(image, count).len()
            &&& encode::rows_bytes(image, count)[row * step + i] == encode::row_bytes(
                image,
                image.height - 1 - row,
            )[i]
        }),
    decreases count,
{
    let step = pixels::stride(image.width as int, 8 * P::wire_size());
    lemma_stored_length(image, count - 1);
    lemma_stored_length(image, count);
    assert(0 <= row * step) by (nonlinear_arith)
        requires
            0 <= row,
            0 <= step,
    ;
    if row == count - 1 {
        assert(encode::rows_bytes(image, count)[row * step + i] == encode::row_bytes(
            image,
            image.height - count,
        )[i]);
        assert(row * step + i < count * step) by (nonlinear_arith)
            requires
                row == count - 1,
                i < step,
        ;
    } else {
        lemma_stored_byte(image, count - 1, row, i);
        assert(row * step + i < (count - 1) * step) by (nonlinear_arith)
            requires
                row + 1 <= count - 1,
                0 <= i < step,
        ;
        assert((count - 1) * step <= count * step) by (nonlinear_arith)
            requires
                0 <= step,
        ;
    }
}

pub(crate) proof fn lemma_stored_length<P: WirePixel>(image: Raster<P>, count: int)
    requires
        0 <= count,
    ensures
        encode::rows_bytes(image, count).len() == count * pixels::stride(
            image.width as int,
            8 * P::wire_size(),
        ),
        0 <= pixels::stride(image.width as int, 8 * P::wire_size()),
    decreases count,
{
    let step = pixels::stride(image.width as int, 8 * P::wire_size());
    P::lemma_wire_size_small();
    assert(0 <= image.width * (8 * P::wire_size())) by (nonlinear_arith)
        requires
            0 <= image.width,
            1 <= P::wire_size(),
    ;
    if count > 0 {
        lemma_stored_length(image, count - 1);
        assert(count * step == (count - 1) * step + step) by (nonlinear_arith);
    } else {
        assert(count * step == 0) by (nonlinear_arith)
            requires
                count == 0,
        ;
    }
}

/// Byte `k` of the pixel in column `x` of row `y`, in the pixel data.
pub(crate) proof fn lemma_stored_pixel<P: WirePixel>(image: Raster<P>, x: int, y: int, k: int)
    requires
        0 <= x < image.width,
        0 <= y < image.height,
        0 <= k < P::wire_size(),
    ensures
        ({
            let step = pixels::stride(image.width as int, 8 * P::wire_size());
            let at = (image.height - 1 - y) * step + P::wire_size() * x + k;
            &&& 0 <= at < encode::rows_bytes(image, image.height as int).len()
            &&& encode::rows_bytes(image, image.height as int)[at] == image.at(x, y).wire()[k]
        }),
{
    let size = P::wire_size();
    let step = pixels::stride(image.width as int, 8 * size);
    let i = size * x + k;
    P::lemma_wire_size_small();
    pixels::law_stride_is_tight(image.width, (8 * size) as nat);
    assert(image.width * (8 * size) == 8 * (image.width * size)) by (nonlinear_arith);
    assert(0 <= i < image.width * size) by (nonlinear_arith)
        requires
            0 <= x < image.width,
            0 <= k < size,
            i == size * x + k,
    ;
    assert(i == x * size + k) by (nonlinear_arith)
        requires
            i == size * x + k,
    ;
    vstd::arithmetic::div_mod::lemma_fundamental_div_mod_converse(i, size, x, k);
    lemma_stored_byte(image, image.height as int, image.height - 1 - y, i);
}

/// The pixel data of a file reaches to its end.
proof fn lemma_extent<P: WirePixel>(image: Raster<P>, dib: BmpDibHeader, pixel_offset: int)
    requires
        dib.width == image.width,
        dib.height == image.height,
        image.height >= 1,
    ensures
        pixels::pixels_end(dib, pixel_offset, 8 * P::wire_size()) <= pixel_offset
            + encode::rows_bytes(image, image.height as int).len(),
{
    let step = pixels::stride(image.width as int, 8 * P::wire_size());
    P::lemma_wire_size_small();
    lemma_stored_length(image, image.height as int);
    pixels::law_stride_is_tight(image.width, (8 * P::wire_size()) as nat);
    assert(image.height * step == (image.height - 1) * step + step) by (nonlinear_arith);
}

/// The 24-bit pixels of a file that the encoder wrote.
proof fn lemma_rgb_pixels(image: Raster<Srgb8>, dib: BmpDibHeader, file: Seq<u8>, offset: int)
    requires
        representable(image),
        dib.width == image.width,
        dib.height == image.height,
        !dib.top_down,
        0 <= offset <= file.len(),
        file.skip(offset) == encode::rows_bytes(image, image.height as int),
    ensures
        pixels::pixels_end(dib, offset, 24) <= file.len(),
        pixels::stored_image(pixels::TwentyFourBit, dib, file, offset) == image,
{
    let rows = encode::rows_bytes(image, image.height as int);
    lemma_extent(image, dib, offset);
    let format = pixels::TwentyFourBit;
    let value = |x: int, y: int|
        format.pixel(file, pixels::row_start(dib, offset, format.bits(), y), x);
    assert forall|x: int, y: int|
        0 <= x < image.width && 0 <= y < image.height implies #[trigger] image.at(x, y) == value(
        x,
        y,
    ) by {
        lemma_stored_pixel(image, x, y, 0);
        lemma_stored_pixel(image, x, y, 1);
        lemma_stored_pixel(image, x, y, 2);
        let at = (image.height - 1 - y) * pixels::stride(image.width as int, 24) + 3 * x;
        assert(rows[at] == file[offset + at]);
        assert(rows[at + 1] == file[offset + at + 1]);
        assert(rows[at + 2] == file[offset + at + 2]);
    }
    crate::image::lemma_tabulated(image, value);
}

/// Decoding what [`encode::encode`] wrote of an image without an alpha channel
/// gives the image back, pixel for pixel, with the resolution that was asked
/// for.
pub proof fn law_rgb_round_trip(image: Raster<Srgb8>, options: BmpEncodeOptions)
    requires
        representable(image),
        encode::encodable(image),
    ensures
        decode::decoded(encode::truecolor_file(image, options)) == Ok::<
            BmpDecodedModel,
            crate::error::IoError,
        >(
            BmpDecodedModel {
                image: BmpImageModel::Srgb8(image),
                metadata: written_metadata(
                    BmpBitDepth::TwentyFour,
                    BmpCompression::Uncompressed,
                    options,
                ),
            },
        ),
{
    let file = encode::truecolor_file(image, options);
    let rows = encode::rows_bytes(image, image.height as int);
    let size = encode::pixel_data_size(image);
    let resolution = encode::resolution_fields(options);
    let (width, height) = (image.width as u32, image.height as u32);
    let fh = encode::file_header_bytes((54 + size) as u32, 54);
    let ih = encode::info_header_bytes(width, height, 24, BI_RGB, size as u32, resolution, 0);
    Srgb8::lemma_parameters();
    assert(fh + ih + Seq::<u8>::empty() =~= fh + ih);
    assert(file == fh + ih + rows);
    lemma_headers_read_back(
        file,
        (54 + size) as u32,
        54,
        width,
        height,
        24,
        BI_RGB,
        size as u32,
        resolution,
        0,
        rows,
    );
    let dib = written_header(width, height, 24, BI_RGB, resolution, 0);
    lemma_rgb_pixels(image, dib, file, 54);
}

/// The masks that images with an alpha channel are written with.
pub open spec fn written_masks() -> BitfieldMasks {
    BitfieldMasks { r: 0x00FF_0000, g: 0x0000_FF00, b: 0x0000_00FF, a: 0xFF00_0000 }
}

/// The masks after the headers of a file that the encoder wrote.
proof fn lemma_masks_read_back(file: Seq<u8>, rows: Seq<u8>)
    requires
        54 <= file.len(),
        file.skip(54) == encode::mask_bytes() + rows,
    ensures
        70 <= file.len(),
        file.skip(70) == rows,
        masks::trailing_masks(file, 54) == Ok::<BitfieldMasks, crate::error::IoError>(
            written_masks(),
        ),
{
    reveal(encode::mask_bytes);
    let m = encode::mask_bytes();
    assert(m.len() == 16);
    assert(file.len() == 54 + (m + rows).len());
    assert(file.subrange(54, 70) =~= m) by {
        assert forall|i: int| 0 <= i < 16 implies file.subrange(54, 70)[i] == m[i] by {
            assert(file.skip(54)[i] == (m + rows)[i]);
        }
    }
    assert(file.skip(70) =~= rows) by {
        assert forall|i: int| 0 <= i < rows.len() implies file.skip(70)[i] == rows[i] by {
            assert(file.skip(54)[i + 16] == (m + rows)[i + 16]);
        }
    }
    assert(m.subrange(0, 4) =~= le::le32_bytes(0x00FF_0000));
    assert(m.subrange(4, 8) =~= le::le32_bytes(0x0000_FF00));
    assert(m.subrange(8, 12) =~= le::le32_bytes(0x0000_00FF));
    assert(m.subrange(12, 16) =~= le::le32_bytes(0xFF00_0000));
    lemma_field32(file, 54, m, 0, 0x00FF_0000);
    lemma_field32(file, 54, m, 4, 0x0000_FF00);
    lemma_field32(file, 54, m, 8, 0x0000_00FF);
    lemma_field32(file, 54, m, 12, 0xFF00_0000);
}

/// The written masks take a pixel apart into the bytes that it was written as.
proof fn lemma_rgba_pixel(data: Seq<u8>, row: int, x: int)
    ensures
        pixels::thirty_two_bit_alpha(written_masks()).pixel(data, row, x) == (Srgba8 {
            r: data[row + 4 * x + 2],
            g: data[row + 4 * x + 1],
            b: data[row + 4 * x],
            a: data[row + 4 * x + 3],
        }),
{
    let at = row + 4 * x;
    let value = le::le32(data, at);
    power2::lemma2_to64();
    le::lemma_le32_digits(data[at], data[at + 1], data[at + 2], data[at + 3]);
    masks::lemma_byte_mask(16, 0x00FF_0000, value);
    masks::lemma_byte_mask(8, 0x0000_FF00, value);
    masks::lemma_byte_mask(0, 0x0000_00FF, value);
    masks::lemma_byte_mask(24, 0xFF00_0000, value);
}

/// The 32-bit pixels of a file that the encoder wrote.
proof fn lemma_rgba_pixels(image: Raster<Srgba8>, dib: BmpDibHeader, file: Seq<u8>, offset: int)
    requires
        representable(image),
        dib.width == image.width,
        dib.height == image.height,
        !dib.top_down,
        0 <= offset <= file.len(),
        file.skip(offset) == encode::rows_bytes(image, image.height as int),
    ensures
        pixels::pixels_end(dib, offset, 32) <= file.len(),
        pixels::stored_image(
            pixels::thirty_two_bit_alpha(written_masks()),
            dib,
            file,
            offset,
        ) == image,
{
    let rows = encode::rows_bytes(image, image.height as int);
    lemma_extent(image, dib, offset);
    let format = pixels::thirty_two_bit_alpha(written_masks());
    let value = |x: int, y: int|
        format.pixel(file, pixels::row_start(dib, offset, format.bits(), y), x);
    assert forall|x: int, y: int|
        0 <= x < image.width && 0 <= y < image.height implies #[trigger] image.at(x, y) == value(
        x,
        y,
    ) by {
        lemma_stored_pixel(image, x, y, 0);
        lemma_stored_pixel(image, x, y, 1);
        lemma_stored_pixel(image, x, y, 2);
        lemma_stored_pixel(image, x, y, 3);
        let at = (image.height - 1 - y) * pixels::stride(image.width as int, 32) + 4 * x;
        assert(rows[at] == file[offset + at]);
        assert(rows[at + 1] == file[offset + at + 1]);
        assert(rows[at + 2] == file[offset + at + 2]);
        assert(rows[at + 3] == file[offset + at + 3]);
        lemma_rgba_pixel(file, pixels::row_start(dib, offset, 32, y), x);
    }
    crate::image::lemma_tabulated(image, value);
}

/// Decoding what [`encode::encode`] wrote of an image with an alpha channel
/// gives the image back, pixel for pixel and alpha included, with the
/// resolution that was asked for.
pub proof fn law_rgba_round_trip(image: Raster<Srgba8>, options: BmpEncodeOptions)
    requires
        representable(image),
        encode::encodable(image),
    ensures
        decode::decoded(encode::truecolor_file(image, options)) == Ok::<
            BmpDecodedModel,
            crate::error::IoError,
        >(
            BmpDecodedModel {
                image: BmpImageModel::Srgba8(image),
                metadata: written_metadata(
                    BmpBitDepth::ThirtyTwo,
                    BmpCompression::Bitfields,
                    options,
                ),
            },
        ),
{
    let file = encode::truecolor_file(image, options);
    let rows = encode::rows_bytes(image, image.height as int);
    let size = encode::pixel_data_size(image);
    let resolution = encode::resolution_fields(options);
    let (width, height) = (image.width as u32, image.height as u32);
    let fh = encode::file_header_bytes((70 + size) as u32, 70);
    let ih = encode::info_header_bytes(width, height, 32, BI_BITFIELDS, size as u32, resolution, 0);
    Srgba8::lemma_parameters();
    assert(fh + ih + encode::mask_bytes() + rows =~= fh + ih + (encode::mask_bytes() + rows));
    assert(file == fh + ih + (encode::mask_bytes() + rows));
    lemma_headers_read_back(
        file,
        (70 + size) as u32,
        70,
        width,
        height,
        32,
        BI_BITFIELDS,
        size as u32,
        resolution,
        0,
        encode::mask_bytes() + rows,
    );
    let dib = written_header(width, height, 32, BI_BITFIELDS, resolution, 0);
    lemma_masks_read_back(file, rows);
    lemma_rgba_pixels(image, dib, file, 70);
}

/// The colour table after the headers of a file that the encoder wrote.
proof fn lemma_table_reads_back(file: Seq<u8>, table: Seq<Srgba8>, rows: Seq<u8>)
    requires
        1 <= table.len() <= 256,
        54 <= file.len(),
        file.skip(54) == encode::table_bytes(table) + rows,
    ensures
        54 + 4 * table.len() <= file.len(),
        file.skip(54 + 4 * table.len() as int) == rows,
        palette::color_table(file, 54, 4, table.len() as int) == Ok::<
            Seq<Srgba8>,
            crate::error::IoError,
        >(kept_palette(table)),
{
    let t = encode::table_bytes(table);
    let n = table.len() as int;
    assert(t.len() == 4 * n);
    assert(file.len() == 54 + (t + rows).len());
    assert(file.skip(54 + 4 * n) =~= rows) by {
        assert forall|i: int| 0 <= i < rows.len() implies file.skip(54 + 4 * n)[i] == rows[i] by {
            assert(file.skip(54)[i + 4 * n] == (t + rows)[i + 4 * n]);
        }
    }
    assert(palette::entries_used(n) == n);
    let read = palette::color_table(file, 54, 4, n)->Ok_0;
    assert forall|i: int| 0 <= i < 256 implies read[i] == kept_palette(table)[i] by {
        if i < n {
            assert(file[54 + i * 4] == file.skip(54)[4 * i]);
            assert(file[54 + i * 4 + 1] == file.skip(54)[4 * i + 1]);
            assert(file[54 + i * 4 + 2] == file.skip(54)[4 * i + 2]);
            assert((t + rows)[4 * i] == t[4 * i]);
            assert((t + rows)[4 * i + 1] == t[4 * i + 1]);
            assert((t + rows)[4 * i + 2] == t[4 * i + 2]);
        }
    }
    assert(read =~= kept_palette(table));
}

/// The indices of a file that the encoder wrote.
proof fn lemma_index_pixels(image: Raster<Indexed8>, dib: BmpDibHeader, file: Seq<u8>, offset: int)
    requires
        representable(image),
        dib.width == image.width,
        dib.height == image.height,
        !dib.top_down,
        0 <= offset <= file.len(),
        file.skip(offset) == encode::rows_bytes(image, image.height as int),
    ensures
        pixels::pixels_end(dib, offset, 8) <= file.len(),
        pixels::stored_image(pixels::EightBit, dib, file, offset) == image,
{
    let rows = encode::rows_bytes(image, image.height as int);
    lemma_extent(image, dib, offset);
    let format = pixels::EightBit;
    let value = |x: int, y: int|
        format.pixel(file, pixels::row_start(dib, offset, format.bits(), y), x);
    assert forall|x: int, y: int|
        0 <= x < image.width && 0 <= y < image.height implies #[trigger] image.at(x, y) == value(
        x,
        y,
    ) by {
        lemma_stored_pixel(image, x, y, 0);
        let at = (image.height - 1 - y) * pixels::stride(image.width as int, 8) + x;
        assert(rows[at] == file[offset + at]);
    }
    crate::image::lemma_tabulated(image, value);
}

/// Decoding what [`encode::encode_indexed`] wrote gives the indices back
/// unchanged, and the palette with every entry made opaque and filled up with
/// opaque black.
pub proof fn law_indexed_round_trip(
    image: Raster<Indexed8>,
    table: Seq<Srgba8>,
    options: BmpEncodeOptions,
)
    requires
        representable(image),
        encode::palette_error(image, table) is None,
        encode::encodable_indexed(image, table),
    ensures
        decode::decoded(encode::indexed_file(image, table, options)) == Ok::<
            BmpDecodedModel,
            crate::error::IoError,
        >(
            BmpDecodedModel {
                image: BmpImageModel::Indexed8 { data: image, palette: kept_palette(table) },
                metadata: written_metadata(
                    BmpBitDepth::Eight,
                    BmpCompression::Uncompressed,
                    options,
                ),
            },
        ),
{
    let file = encode::indexed_file(image, table, options);
    let rows = encode::rows_bytes(image, image.height as int);
    let size = encode::pixel_data_size(image);
    let resolution = encode::resolution_fields(options);
    let (width, height) = (image.width as u32, image.height as u32);
    let offset = (54 + 4 * table.len()) as u32;
    let colors = table.len() as u32;
    let fh = encode::file_header_bytes((offset + size) as u32, offset);
    let ih = encode::info_header_bytes(width, height, 8, BI_RGB, size as u32, resolution, colors);
    assert(fh + ih + encode::table_bytes(table) + rows =~= fh + ih + (encode::table_bytes(table)
        + rows));
    assert(file == fh + ih + (encode::table_bytes(table) + rows));
    lemma_headers_read_back(
        file,
        (offset + size) as u32,
        offset,
        width,
        height,
        8,
        BI_RGB,
        size as u32,
        resolution,
        colors,
        encode::table_bytes(table) + rows,
    );
    let dib = written_header(width, height, 8, BI_RGB, resolution, colors);
    lemma_table_reads_back(file, table, rows);
    lemma_index_pixels(image, dib, file, offset as int);
}

/// Both dimensions of an image are positive and within the range that a header
/// can hold.
pub open spec fn representable_image(image: BmpImageModel) -> bool {
    match image {
        BmpImageModel::Indexed8 { data, .. } => representable(data),
        BmpImageModel::Srgb8(raster) => representable(raster),
        BmpImageModel::Srgba8(raster) => representable(raster),
    }
}

/// The image that comes back of a file: pixels come back as they were, and a
/// palette comes back opaque and filled up with black.
pub open spec fn read_back(image: BmpImageModel) -> BmpImageModel {
    match image {
        BmpImageModel::Indexed8 { data, palette } => BmpImageModel::Indexed8 {
            data,
            palette: kept_palette(palette),
        },
        _ => image,
    }
}

/// An image of any kind that is encoded and decoded again comes back.
pub proof fn law_image_round_trip(image: BmpImageModel, options: BmpEncodeOptions)
    requires
        representable_image(image),
        encode::image_error(image) is None,
        encode::encodable_image(image),
    ensures
        decode::decoded(encode::image_file(image, options)) matches Ok(d) && d.image == read_back(
            image,
        ) && d.metadata.resolution == kept_resolution(options),
{
    match image {
        BmpImageModel::Indexed8 { data, palette } => law_indexed_round_trip(data, palette, options),
        BmpImageModel::Srgb8(raster) => law_rgb_round_trip(raster, options),
        BmpImageModel::Srgba8(raster) => law_rgba_round_trip(raster, options),
    }
}

/// A file starts with its signature and with its own length.
pub open spec fn starts_with_size(file: Seq<u8>) -> bool {
    &&& file.len() >= 14
    &&& file[0] == 0x42
    &&& file[1] == 0x4D
    &&& le::le32(file, 2) == file.len()
}

proof fn lemma_starts_with_size(file: Seq<u8>, file_size: u32, pixel_offset: u32, rest: Seq<u8>)
    requires
        file == encode::file_header_bytes(file_size, pixel_offset) + rest,
        file_size == 14 + rest.len(),
    ensures
        starts_with_size(file),
{
    let fh = encode::file_header_bytes(file_size, pixel_offset);
    reveal(encode::file_header_bytes);
    assert(fh.subrange(2, 6) =~= le::le32_bytes(file_size));
    assert(file.subrange(0, 14) =~= fh);
    lemma_field32(file, 0, fh, 2, file_size);
}

/// A truecolour file states its own length, which is that of its headers and of
/// its rows.
pub proof fn law_truecolor_file_size<P: BmpPixel>(image: Raster<P>, options: BmpEncodeOptions)
    requires
        encode::encodable(image),
    ensures
        encode::truecolor_file(image, options).len() == encode::truecolor_offset::<P>()
            + encode::pixel_data_size(image),
        starts_with_size(encode::truecolor_file(image, options)),
{
    let file = encode::truecolor_file(image, options);
    let size = encode::pixel_data_size(image);
    let offset = encode::truecolor_offset::<P>();
    let compression = if P::BMP_HAS_ALPHA {
        BI_BITFIELDS
    } else {
        BI_RGB
    };
    let fh = encode::file_header_bytes((offset + size) as u32, offset as u32);
    let ih = encode::info_header_bytes(
        image.width as u32,
        image.height as u32,
        P::BMP_BIT_COUNT,
        compression,
        size as u32,
        encode::resolution_fields(options),
        0,
    );
    let masks = if P::BMP_HAS_ALPHA {
        encode::mask_bytes()
    } else {
        Seq::empty()
    };
    let rows = encode::rows_bytes(image, image.height as int);
    assert(fh.len() == 14) by {
        reveal(encode::file_header_bytes);
    }
    assert(ih.len() == 40) by {
        reveal(encode::info_header_bytes);
    }
    assert(encode::mask_bytes().len() == 16) by {
        reveal(encode::mask_bytes);
    }
    lemma_stored_length(image, image.height as int);
    let step = pixels::stride(image.width as int, 8 * P::wire_size());
    assert(image.height * step == step * image.height) by (nonlinear_arith);
    assert(0 <= step * image.height) by (nonlinear_arith)
        requires
            0 <= step,
            0 <= image.height,
    ;
    assert(file =~= fh + (ih + masks + rows));
    lemma_starts_with_size(file, (offset + size) as u32, offset as u32, ih + masks + rows);
}

/// An indexed file states its own length, which is that of its headers, of its
/// colour table and of its rows.
pub proof fn law_indexed_file_size(
    image: Raster<Indexed8>,
    table: Seq<Srgba8>,
    options: BmpEncodeOptions,
)
    requires
        encode::encodable_indexed(image, table),
    ensures
        encode::indexed_file(image, table, options).len() == 54 + 4 * table.len()
            + encode::pixel_data_size(image),
        starts_with_size(encode::indexed_file(image, table, options)),
{
    let file = encode::indexed_file(image, table, options);
    let size = encode::pixel_data_size(image);
    let offset = 54 + 4 * table.len();
    let fh = encode::file_header_bytes((offset + size) as u32, offset as u32);
    let ih = encode::info_header_bytes(
        image.width as u32,
        image.height as u32,
        8,
        BI_RGB,
        size as u32,
        encode::resolution_fields(options),
        table.len() as u32,
    );
    let entries = encode::table_bytes(table);
    let rows = encode::rows_bytes(image, image.height as int);
    assert(fh.len() == 14) by {
        reveal(encode::file_header_bytes);
    }
    assert(ih.len() == 40) by {
        reveal(encode::info_header_bytes);
    }
    lemma_stored_length(image, image.height as int);
    let step = pixels::stride(image.width as int, 8 * Indexed8::wire_size());
    assert(image.height * step == step * image.height) by (nonlinear_arith);
    assert(0 <= step * image.height) by (nonlinear_arith)
        requires
            0 <= step,
            0 <= image.height,
    ;
    assert(file =~= fh + (ih + entries + rows));
    lemma_starts_with_size(file, (offset + size) as u32, offset as u32, ih + entries + rows);
}

} // verus!
