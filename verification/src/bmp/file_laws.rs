//! What the bytes of a file say, and what is made of them.
//!
//! The laws here speak of numbers at fixed places of a file, as its format
//! defines them, and of the metadata and the pixels that come out.

use vstd::prelude::*;
use vstd::arithmetic::power2;
use crate::bmp::decode;
use crate::bmp::header;
use crate::bmp::header::BmpDibHeader;
use crate::bmp::le;
use crate::bmp::masks;
use crate::bmp::palette;
use crate::bmp::pixels;
use crate::bmp::pixels::RowFormat;
use crate::bmp::rle;
use crate::bmp::rle::RleFormat;
use crate::bmp::{BmpBitDepth, BmpCompression, BmpHeaderVersion, BmpImageModel};
use crate::pixel::Srgba8;

verus! {

/// The number that `n` bytes from `at` on hold, the lowest byte first.
pub open spec fn little(data: Seq<u8>, at: int, n: nat) -> int
    decreases n,
{
    if n == 0 {
        0
    } else {
        data[at] + 256 * little(data, at + 1, (n - 1) as nat)
    }
}

/// The signed number that 32 bits stand for in two's complement.
pub open spec fn twos_complement(bits: int) -> int {
    if bits < 0x8000_0000 {
        bits
    } else {
        bits - 0x1_0000_0000
    }
}

pub(crate) proof fn lemma_little(data: Seq<u8>, at: int)
    ensures
        little(data, at, 2) == le::le16(data, at),
        little(data, at, 4) == le::le32(data, at),
        twos_complement(little(data, at, 4)) == le::le32_signed(data, at),
{
    reveal_with_fuel(little, 5);
    assert(data[at + 1 + 1] == data[at + 2]);
    assert(data[at + 1 + 1 + 1] == data[at + 3]);
}

/// The size of the DIB header that a file states; it tells the version.
pub open spec fn header_size(data: Seq<u8>) -> int {
    little(data, 14, 4)
}

/// The width that a file states.
pub open spec fn width_field(data: Seq<u8>) -> int {
    if header_size(data) == 12 {
        little(data, 18, 2)
    } else {
        twos_complement(little(data, 18, 4))
    }
}

/// The height that a file states, negative for rows from the top down.
pub open spec fn height_field(data: Seq<u8>) -> int {
    if header_size(data) == 12 {
        little(data, 20, 2)
    } else {
        twos_complement(little(data, 22, 4))
    }
}

/// The number of rows.
pub open spec fn row_count(data: Seq<u8>) -> int {
    if height_field(data) < 0 {
        -height_field(data)
    } else {
        height_field(data)
    }
}

/// The number of planes that a file states.
pub open spec fn planes_field(data: Seq<u8>) -> int {
    if header_size(data) == 12 {
        little(data, 22, 2)
    } else {
        little(data, 26, 2)
    }
}

/// The bits per pixel that a file states.
pub open spec fn bits_field(data: Seq<u8>) -> int {
    if header_size(data) == 12 {
        little(data, 24, 2)
    } else {
        little(data, 28, 2)
    }
}

/// The compression that a file states; the oldest header states none.
pub open spec fn compression_field(data: Seq<u8>) -> int {
    if header_size(data) == 12 {
        0
    } else {
        little(data, 30, 4)
    }
}

/// The number of colours that a file states; the oldest header states none.
pub open spec fn colors_field(data: Seq<u8>) -> int {
    if header_size(data) == 12 {
        0
    } else {
        little(data, 46, 4)
    }
}

/// Where a file says that its pixels start.
pub open spec fn pixels_field(data: Seq<u8>) -> int {
    little(data, 10, 4)
}

/// The header of a file can be read: it has the signature, a known size, one
/// plane, a known number of bits per pixel, and dimensions that are not empty.
pub open spec fn has_header(data: Seq<u8>) -> bool {
    let size = header_size(data);
    let bits = bits_field(data);
    &&& 26 <= data.len()
    &&& data[0] == 0x42 && data[1] == 0x4D
    &&& size == 12 || size == 40 || size == 108 || size == 124
    &&& 14 + size <= data.len()
    &&& planes_field(data) == 1
    &&& bits == 1 || bits == 4 || bits == 8 || bits == 24 || (size != 12 && (bits == 16 || bits
        == 32))
    &&& 1 <= width_field(data)
    &&& height_field(data) != 0
}

proof fn lemma_header(data: Seq<u8>)
    ensures
        has_header(data) <==> header::file_header(data) is Ok && header::dib_header(data) is Ok,
        has_header(data) ==> {
            let dib = header::dib_header(data)->Ok_0;
            &&& header::file_header(data)->Ok_0.pixel_data_offset == pixels_field(data)
            &&& dib.wf()
            &&& dib.header_size == header_size(data)
            &&& dib.width == width_field(data)
            &&& dib.height == row_count(data)
            &&& dib.top_down <==> height_field(data) < 0
            &&& dib.bit_count == bits_field(data)
            &&& dib.compression == compression_field(data)
            &&& dib.colors_used == colors_field(data)
        },
{
    reveal(header::file_header);
    reveal(header::dib_header);
    lemma_little(data, 10);
    lemma_little(data, 14);
    lemma_little(data, 18);
    lemma_little(data, 20);
    lemma_little(data, 22);
    lemma_little(data, 24);
    lemma_little(data, 26);
    lemma_little(data, 28);
    lemma_little(data, 30);
    lemma_little(data, 46);
}

/// The bits per pixel that a source bit depth stands for.
pub open spec fn depth_bits(depth: BmpBitDepth) -> int {
    match depth {
        BmpBitDepth::One => 1,
        BmpBitDepth::Four => 4,
        BmpBitDepth::Eight => 8,
        BmpBitDepth::Sixteen => 16,
        BmpBitDepth::TwentyFour => 24,
        BmpBitDepth::ThirtyTwo => 32,
    }
}

/// The number by which a file states a compression method.
pub open spec fn method_number(compression: BmpCompression) -> int {
    match compression {
        BmpCompression::Uncompressed => 0,
        BmpCompression::Rle8 => 1,
        BmpCompression::Rle4 => 2,
        BmpCompression::Bitfields => 3,
    }
}

/// The number of bytes of a header version.
pub open spec fn version_size(version: BmpHeaderVersion) -> int {
    match version {
        BmpHeaderVersion::Core => 12,
        BmpHeaderVersion::Info => 40,
        BmpHeaderVersion::V4 => 108,
        BmpHeaderVersion::V5 => 124,
    }
}

/// The dimensions and the metadata of a decoded file are what its header
/// states: width, height without its sign, bits per pixel, compression, header
/// version, and the resolution unless both its numbers are zero.
pub proof fn law_header_is_reported(data: Seq<u8>)
    ensures
        decode::decoded(data) matches Ok(d) ==> {
            let x = little(data, 38, 4);
            let y = little(data, 42, 4);
            &&& has_header(data)
            &&& d.image.width() == width_field(data)
            &&& d.image.height() == row_count(data)
            &&& depth_bits(d.metadata.source_bit_depth) == bits_field(data)
            &&& method_number(d.metadata.compression) == compression_field(data)
            &&& version_size(d.metadata.header_version) == header_size(data)
            &&& d.metadata.resolution is None <==> header_size(data) == 12 || (x == 0 && y == 0)
            &&& d.metadata.resolution matches Some(r) ==> r.x_pixels_per_meter == x
                && r.y_pixels_per_meter == y
        },
{
    lemma_header(data);
    reveal(header::dib_header);
    lemma_little(data, 14);
    lemma_little(data, 38);
    lemma_little(data, 42);
    lemma_little(data, 30);
}

/// A decoded file has a profile exactly if its header is of the latest version,
/// announces an embedded profile, and names a stretch of bytes inside the file
/// that is not empty. The profile is those bytes, counted from the start of the
/// DIB header. The colour space tells the announcement.
pub proof fn law_profile_is_cut_out(data: Seq<u8>)
    ensures
        decode::decoded(data) matches Ok(d) ==> {
            let announced = header_size(data) == 124 && little(data, 70, 4) == 0x4D42_4544;
            let start = 14 + little(data, 126, 4);
            let end = start + little(data, 130, 4);
            &&& d.metadata.color_space is IccTagged <==> announced
            &&& d.metadata.icc_profile is Some <==> announced && start < end <= data.len()
            &&& d.metadata.icc_profile matches Some(profile) ==> profile == data.subrange(
                start,
                end,
            )
        },
{
    lemma_header(data);
    reveal(header::dib_header);
    lemma_little(data, 14);
    lemma_little(data, 70);
    lemma_little(data, 126);
    lemma_little(data, 130);
}

/// The number of bytes from one stored row to the next: whole groups of four.
pub open spec fn row_step(data: Seq<u8>) -> int {
    (width_field(data) * bits_field(data) + 31) / 32 * 4
}

/// The number among the stored rows of row `y` of the image: counted from the
/// last one for a positive height, and from the first one for a negative one.
pub open spec fn row_number(data: Seq<u8>, y: int) -> int {
    if height_field(data) > 0 {
        height_field(data) - 1 - y
    } else {
        y
    }
}

/// Where the uncompressed row `y` of the image starts.
pub open spec fn row_place(data: Seq<u8>, y: int) -> int {
    pixels_field(data) + row_number(data, y) * row_step(data)
}

proof fn lemma_rows(data: Seq<u8>, y: int)
    requires
        has_header(data),
    ensures
        ({
            let dib = header::dib_header(data)->Ok_0;
            let offset = header::file_header(data)->Ok_0.pixel_data_offset as int;
            &&& pixels::row_start(dib, offset, bits_field(data), y) == row_place(data, y)
            &&& pixels::stored_row(dib, y) == row_number(data, y)
            &&& pixels::stride(dib.width as int, bits_field(data)) == row_step(data)
        }),
{
    lemma_header(data);
}

proof fn lemma_stored_pixel<F: RowFormat>(
    format: F,
    dib: BmpDibHeader,
    data: Seq<u8>,
    offset: int,
    x: int,
    y: int,
)
    requires
        0 <= x < dib.width,
        0 <= y < dib.height,
    ensures
        pixels::stored_image(format, dib, data, offset).pixels[y * dib.width + x] == format.pixel(
            data,
            pixels::row_start(dib, offset, format.bits(), y),
            x,
        ),
{
    crate::image::lemma_index_in_area(x, y, dib.width as int, dib.height as int);
}

/// An uncompressed file of up to eight bits per pixel decodes to indices. Each
/// pixel is the bits of its row that stand at its place, the leftmost pixel in
/// the highest bits of the first byte.
pub proof fn law_stored_index(data: Seq<u8>, x: int, y: int)
    requires
        decode::decoded(data) is Ok,
        bits_field(data) <= 8,
        compression_field(data) == 0 || compression_field(data) == 3,
        0 <= x < width_field(data),
        0 <= y < row_count(data),
    ensures
        decode::decoded(data)->Ok_0.image matches BmpImageModel::Indexed8 { data: indices, .. } && {
            let p = indices.pixels[y * width_field(data) + x].0;
            let row = row_place(data, y);
            &&& bits_field(data) == 8 ==> p == data[row + x]
            &&& bits_field(data) == 4 && x % 2 == 0 ==> p == data[row + x / 2] / 16
            &&& bits_field(data) == 4 && x % 2 == 1 ==> p == data[row + x / 2] % 16
            &&& bits_field(data) == 1 ==> p == data[row + x / 8] as nat / power2::pow2(
                (7 - x % 8) as nat,
            ) % 2
        },
{
    lemma_header(data);
    lemma_rows(data, y);
    let dib = header::dib_header(data)->Ok_0;
    let offset = header::file_header(data)->Ok_0.pixel_data_offset as int;
    if bits_field(data) == 8 {
        lemma_stored_pixel(pixels::EightBit, dib, data, offset, x, y);
    } else if bits_field(data) == 4 {
        lemma_stored_pixel(pixels::FourBit, dib, data, offset, x, y);
    } else {
        lemma_stored_pixel(pixels::OneBit, dib, data, offset, x, y);
    }
}

/// A file of 24 bits per pixel decodes to colours. Each pixel is three bytes of
/// its row: blue, green and red.
pub proof fn law_stored_color(data: Seq<u8>, x: int, y: int)
    requires
        decode::decoded(data) is Ok,
        bits_field(data) == 24,
        0 <= x < width_field(data),
        0 <= y < row_count(data),
    ensures
        decode::decoded(data)->Ok_0.image matches BmpImageModel::Srgb8(raster) && {
            let p = raster.pixels[y * width_field(data) + x];
            let at = row_place(data, y) + 3 * x;
            p.b == data[at] && p.g == data[at + 1] && p.r == data[at + 2]
        },
{
    lemma_header(data);
    lemma_rows(data, y);
    let dib = header::dib_header(data)->Ok_0;
    let offset = header::file_header(data)->Ok_0.pixel_data_offset as int;
    lemma_stored_pixel(pixels::TwentyFourBit, dib, data, offset, x, y);
}

/// The mask of a channel: red, green, blue and alpha for `k` from 0 to 3. A file
/// with masks states them behind the first 40 bytes of its DIB header. Without
/// masks, 16 bits are three times five, and 32 bits three bytes, blue lowest.
pub open spec fn mask_field(data: Seq<u8>, k: int) -> int {
    if compression_field(data) == 3 {
        little(data, 54 + 4 * k, 4)
    } else if bits_field(data) == 16 {
        if k == 0 {
            0x7C00
        } else if k == 1 {
            0x03E0
        } else if k == 2 {
            0x001F
        } else {
            0
        }
    } else if k == 0 {
        0xFF_0000
    } else if k == 1 {
        0xFF00
    } else if k == 2 {
        0xFF
    } else {
        0
    }
}

proof fn lemma_masks(data: Seq<u8>)
    requires
        has_header(data),
        bits_field(data) == 16 || bits_field(data) == 32,
        compression_field(data) == 0 || compression_field(data) == 3,
    ensures
        ({
            let dib = header::dib_header(data)->Ok_0;
            let m = masks::effective_masks(dib, dib.bit_count, data);
            m matches Ok(m) ==> {
                &&& m.r == mask_field(data, 0)
                &&& m.g == mask_field(data, 1)
                &&& m.b == mask_field(data, 2)
                &&& 70 <= data.len() || header_size(data) > 40 || compression_field(data) == 0
                    ==> m.a == mask_field(data, 3)
            }
        }),
{
    lemma_header(data);
    reveal(header::dib_header);
    lemma_little(data, 14);
    lemma_little(data, 54);
    lemma_little(data, 58);
    lemma_little(data, 62);
    lemma_little(data, 66);
}

/// A file of 16 bits per pixel decodes to colours. Red is the number in the bits
/// of the pixel's word that the red mask selects, on the scale from 0 to 255,
/// green that of the green mask, and blue that of the blue mask.
pub proof fn law_stored_word_of_16_bits(data: Seq<u8>, x: int, y: int)
    requires
        decode::decoded(data) is Ok,
        bits_field(data) == 16,
        0 <= x < width_field(data),
        0 <= y < row_count(data),
    ensures
        decode::decoded(data)->Ok_0.image matches BmpImageModel::Srgb8(raster) && {
            let p = raster.pixels[y * width_field(data) + x];
            let word = little(data, row_place(data, y) + 2 * x, 2);
            &&& masks::selects(mask_field(data, 0), word, p.r as int)
            &&& masks::selects(mask_field(data, 1), word, p.g as int)
            &&& masks::selects(mask_field(data, 2), word, p.b as int)
        },
{
    lemma_header(data);
    lemma_rows(data, y);
    lemma_masks(data);
    let dib = header::dib_header(data)->Ok_0;
    let offset = header::file_header(data)->Ok_0.pixel_data_offset as int;
    let m = masks::effective_masks(dib, 16, data)->Ok_0;
    lemma_stored_pixel(pixels::sixteen_bit(m), dib, data, offset, x, y);
    let at = row_place(data, y) + 2 * x;
    lemma_little(data, at);
    let word = le::le16(data, at) as u32;
    masks::law_mask_selects_channel(m.r, word);
    masks::law_mask_selects_channel(m.g, word);
    masks::law_mask_selects_channel(m.b, word);
}

/// A file of 32 bits per pixel has an alpha mask: it states masks, the fourth of
/// them is not zero, and it stands in the header or in front of the pixels.
pub open spec fn has_alpha_mask(data: Seq<u8>) -> bool {
    compression_field(data) == 3 && mask_field(data, 3) != 0 && (header_size(data) > 40
        || pixels_field(data) >= 70)
}

/// A file of 32 bits per pixel decodes to colours, with alpha exactly if it has
/// an alpha mask. Each channel is the number in the bits of the pixel's word
/// that its mask selects, on the scale from 0 to 255.
pub proof fn law_stored_word_of_32_bits(data: Seq<u8>, x: int, y: int)
    requires
        decode::decoded(data) is Ok,
        bits_field(data) == 32,
        0 <= x < width_field(data),
        0 <= y < row_count(data),
    ensures
        ({
            let i = y * width_field(data) + x;
            let word = little(data, row_place(data, y) + 4 * x, 4);
            match decode::decoded(data)->Ok_0.image {
                BmpImageModel::Indexed8 { .. } => false,
                BmpImageModel::Srgb8(raster) => {
                    let p = raster.pixels[i];
                    &&& !has_alpha_mask(data)
                    &&& masks::selects(mask_field(data, 0), word, p.r as int)
                    &&& masks::selects(mask_field(data, 1), word, p.g as int)
                    &&& masks::selects(mask_field(data, 2), word, p.b as int)
                },
                BmpImageModel::Srgba8(raster) => {
                    let p = raster.pixels[i];
                    &&& has_alpha_mask(data)
                    &&& masks::selects(mask_field(data, 0), word, p.r as int)
                    &&& masks::selects(mask_field(data, 1), word, p.g as int)
                    &&& masks::selects(mask_field(data, 2), word, p.b as int)
                    &&& masks::selects(mask_field(data, 3), word, p.a as int)
                },
            }
        }),
{
    lemma_header(data);
    lemma_rows(data, y);
    lemma_masks(data);
    let dib = header::dib_header(data)->Ok_0;
    let offset = header::file_header(data)->Ok_0.pixel_data_offset as int;
    let m = masks::effective_masks(dib, 32, data)->Ok_0;
    lemma_stored_pixel(pixels::thirty_two_bit(m), dib, data, offset, x, y);
    lemma_stored_pixel(pixels::thirty_two_bit_alpha(m), dib, data, offset, x, y);
    lemma_extent(data);
    let at = row_place(data, y) + 4 * x;
    lemma_little(data, at);
    let word = le::le32(data, at);
    masks::law_mask_selects_channel(m.r, word);
    masks::law_mask_selects_channel(m.g, word);
    masks::law_mask_selects_channel(m.b, word);
    masks::law_mask_selects_channel(m.a, word);
}

/// Uncompressed rows lie inside the file: the last one at least up to its last
/// pixel.
pub open spec fn has_rows(data: Seq<u8>) -> bool {
    pixels_field(data) + (row_count(data) - 1) * row_step(data) + (width_field(data) * bits_field(
        data,
    ) + 7) / 8 <= data.len()
}

proof fn lemma_extent(data: Seq<u8>)
    requires
        has_header(data),
    ensures
        ({
            let dib = header::dib_header(data)->Ok_0;
            let offset = header::file_header(data)->Ok_0.pixel_data_offset as int;
            pixels::pixels_end(dib, offset, bits_field(data)) <= data.len() <==> has_rows(data)
        }),
        has_rows(data) ==> pixels_field(data) < data.len(),
{
    lemma_header(data);
    let (w, b, h) = (width_field(data), bits_field(data), row_count(data));
    assert(1 <= w * b) by (nonlinear_arith)
        requires
            1 <= w,
            1 <= b,
    ;
    let s = row_step(data);
    assert(0 <= (h - 1) * s) by (nonlinear_arith)
        requires
            1 <= h,
            0 <= s,
    ;
}

/// The number of entries of the colour table: as many as the file states, or as
/// there are indices if it states none. No more than 256 count.
pub open spec fn table_count(data: Seq<u8>) -> int {
    let stated = if colors_field(data) > 0 {
        colors_field(data)
    } else if bits_field(data) == 1 {
        2
    } else if bits_field(data) == 4 {
        16
    } else {
        256
    };
    if stated < 256 {
        stated
    } else {
        256
    }
}

/// The number of bytes of an entry of the colour table.
pub open spec fn entry_size(data: Seq<u8>) -> int {
    if header_size(data) == 12 {
        3
    } else {
        4
    }
}

/// The palette of a decoded file has 256 entries. Those that the colour table
/// holds, right behind the header, are blue, green and red in this order; the
/// others are black. All are opaque.
pub proof fn law_palette_is_the_table(data: Seq<u8>, i: int)
    requires
        decode::decoded(data) is Ok,
        0 <= i < 256,
    ensures
        decode::decoded(data)->Ok_0.image matches BmpImageModel::Indexed8 { palette, .. } ==> {
            let at = 14 + header_size(data) + i * entry_size(data);
            &&& palette.len() == 256
            &&& i < table_count(data) ==> palette[i] == (Srgba8 {
                r: data[at + 2],
                g: data[at + 1],
                b: data[at],
                a: 255,
            })
            &&& i >= table_count(data) ==> palette[i] == (Srgba8 { r: 0, g: 0, b: 0, a: 255 })
        },
{
    lemma_header(data);
}

/// What the stream of a run-length encoded file paints, row by row in the order
/// in which they are stored.
pub open spec fn painted_rows(data: Seq<u8>) -> Result<Seq<u8>, rle::RleFault> {
    let stream = data.skip(pixels_field(data));
    if compression_field(data) == 1 {
        rle::rle_indices(RleFormat::Rle8, stream, width_field(data), row_count(data))
    } else {
        rle::rle_indices(RleFormat::Rle4, stream, width_field(data), row_count(data))
    }
}

/// Pixel (x, y) of a run-length encoded file is the index that the stream paints
/// in column x of the stored row that holds row y: counted from the last stored
/// row for a positive height, and from the first one for a negative one.
pub proof fn law_painted_index(data: Seq<u8>, x: int, y: int)
    requires
        decode::decoded(data) is Ok,
        compression_field(data) == 1 || compression_field(data) == 2,
        0 <= x < width_field(data),
        0 <= y < row_count(data),
    ensures
        ({
            let w = width_field(data);
            let row = if height_field(data) > 0 {
                height_field(data) - 1 - y
            } else {
                y
            };
            decode::decoded(data)->Ok_0.image matches BmpImageModel::Indexed8 {
                data: indices,
                ..
            } && painted_rows(data) matches Ok(painted)
                && indices.pixels[y * w + x].0 == painted[row * w + x]
        }),
{
    lemma_header(data);
    lemma_rows(data, y);
    let dib = header::dib_header(data)->Ok_0;
    crate::image::lemma_index_in_area(x, y, dib.width as int, dib.height as int);
}

/// Stored row `row` of the uncompressed file `b` of eight bits per pixel holds in
/// column `x` the index that the stream of `a` paints there.
pub open spec fn stores_painted(a: Seq<u8>, b: Seq<u8>, x: int, row: int) -> bool {
    let w = width_field(a);
    painted_rows(a) matches Ok(painted) && painted[row * w + x] == b[pixels_field(b) + row * ((8 * w
        + 31) / 32 * 4) + x]
}

/// Run-length encoding is only another way to store rows: a run-length encoded
/// file, and an uncompressed file of eight bits per pixel with the same width and
/// height whose stored rows hold the indices that the stream paints, decode to
/// the same indices, for both signs of the height.
pub proof fn law_compressed_and_plain_agree(a: Seq<u8>, b: Seq<u8>)
    requires
        decode::decoded(a) is Ok,
        decode::decoded(b) is Ok,
        compression_field(a) == 1 || compression_field(a) == 2,
        compression_field(b) == 0,
        bits_field(b) == 8,
        width_field(a) == width_field(b),
        height_field(a) == height_field(b),
        forall|x: int, row: int|
            0 <= x < width_field(a) && 0 <= row < row_count(a) ==> #[trigger] stores_painted(
                a,
                b,
                x,
                row,
            ),
    ensures
        decode::decoded(a)->Ok_0.image matches BmpImageModel::Indexed8 { data: first, .. } && (
        decode::decoded(b)->Ok_0.image matches BmpImageModel::Indexed8 { data: second, .. }
            && first == second),
{
    lemma_header(a);
    lemma_header(b);
    let w = width_field(a);
    let h = row_count(a);
    let first = decode::decoded(a)->Ok_0.image->Indexed8_data;
    let second = decode::decoded(b)->Ok_0.image->Indexed8_data;
    assert forall|i: int| 0 <= i < first.pixels.len() implies first.pixels[i]
        == second.pixels[i] by {
        crate::image::lemma_position_of_index(i, w, h);
        let (x, y) = (i % w, i / w);
        law_painted_index(a, x, y);
        law_stored_index(b, x, y);
        assert(w * 8 == 8 * w);
        let row = row_number(a, y);
        assert(stores_painted(a, b, x, row));
    }
    assert(first.pixels =~= second.pixels);
}

/// A file decodes exactly if its header can be read, its compression is known
/// and goes with the bits per pixel, and what it needs lies inside it: the colour
/// table of an indexed image, the masks that follow the header, and the rows. A
/// run-length encoded stream has to lie inside the file and be free of faults,
/// and its pixels inside the address space.
pub proof fn law_file_decodes(data: Seq<u8>)
    ensures
        decode::decoded(data) is Ok <==> has_header(data) && {
            let bits = bits_field(data);
            let method = compression_field(data);
            let table_end = 14 + header_size(data) + table_count(data) * entry_size(data);
            &&& method <= 3
            &&& method == 1 ==> bits == 8
            &&& method == 2 ==> bits == 4
            &&& bits <= 8 ==> table_end <= data.len()
            &&& bits >= 16 && bits != 24 && method == 3 && header_size(data) == 40 ==> 66
                <= data.len()
            &&& method == 0 || method == 3 ==> has_rows(data)
            &&& method == 1 || method == 2 ==> pixels_field(data) <= data.len() && width_field(data)
                * row_count(data) <= usize::MAX && painted_rows(data) is Ok
        },
{
    lemma_header(data);
    if has_header(data) {
        lemma_extent(data);
    }
}

/// What a file needs besides its pixels lies inside it: the colour table of an
/// indexed image, and the masks that follow the header.
pub open spec fn has_tables(data: Seq<u8>) -> bool {
    let bits = bits_field(data);
    let table_end = 14 + header_size(data) + table_count(data) * entry_size(data);
    &&& bits <= 8 ==> table_end <= data.len()
    &&& (bits == 16 || bits == 32) && compression_field(data) == 3 && header_size(data) == 40 ==> 66
        <= data.len()
}

/// The kind of an error tells what is wrong with a file. An unknown header size
/// or compression is an unsupported feature. Pixels that do not lie inside the
/// file, a faulty stream, and a run-length encoded image beyond the address space
/// are a failure to decode. Everything else is an invalid format.
pub proof fn law_error_tells_what_is_wrong(data: Seq<u8>)
    ensures
        decode::decoded(data) matches Err(e) ==> {
            let size = header_size(data);
            let known = size == 12 || size == 40 || size == 108 || size == 124;
            let signed = data.len() >= 18 && data[0] == 0x42 && data[1] == 0x4D;
            let method = compression_field(data);
            &&& e is UnsupportedFeature <==> signed && (!known || has_header(data) && method > 3)
            &&& e is DecodeFailed <==> has_header(data) && has_tables(data) && {
                ||| (method == 0 || method == 3) && !has_rows(data)
                ||| (method == 1 && bits_field(data) == 8 || method == 2 && bits_field(data) == 4)
                    && pixels_field(data) <= data.len() && (width_field(data) * row_count(data)
                    > usize::MAX || painted_rows(data) is Err)
            }
            &&& e is UnsupportedFeature || e is DecodeFailed || e is InvalidFormat
        },
{
    lemma_header(data);
    reveal(header::file_header);
    reveal(header::dib_header);
    lemma_little(data, 14);
    if has_header(data) {
        lemma_extent(data);
    }
}

} // verus!
