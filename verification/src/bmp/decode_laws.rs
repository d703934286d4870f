//! What holds of every file that decodes.

use vstd::prelude::*;
use crate::bmp::decode;
use crate::bmp::encode;
use crate::bmp::header;
use crate::bmp::header::BmpDibHeader;
use crate::bmp::laws;
use crate::bmp::masks;
use crate::bmp::pixels;
use crate::bmp::rle;
use crate::bmp::rle::RleFormat;
use crate::bmp::{BmpEncodeOptions, BmpImageModel};
use crate::pixel::Srgba8;

verus! {

/// What holds of every decoded image: its pixels fill its dimensions, neither
/// dimension is zero, and a palette has 256 entries, all of them opaque.
pub open spec fn sound(image: BmpImageModel) -> bool {
    &&& 1 <= image.width() <= i32::MAX
    &&& 1 <= image.height() <= i32::MAX + 1
    &&& match image {
        BmpImageModel::Indexed8 { data, palette } => data.wf() && opaque_palette(palette),
        BmpImageModel::Srgb8(raster) => raster.wf(),
        BmpImageModel::Srgba8(raster) => raster.wf(),
    }
}

/// A palette of 256 opaque entries.
pub open spec fn opaque_palette(palette: Seq<Srgba8>) -> bool {
    palette.len() == 256 && forall|i: int| 0 <= i < 256 ==> (#[trigger] palette[i]).a == 255
}

/// Every image that decodes has the dimensions that its header states, and is
/// sound.
pub proof fn law_decoded_image_is_sound(data: Seq<u8>)
    ensures
        decode::decoded(data) matches Ok(d) ==> {
            &&& sound(d.image)
            &&& header::dib_header(data) matches Ok(dib) && d.image.width() == dib.width
                && d.image.height() == dib.height
        },
{
    header::law_parsed_header_is_valid(data);
}

/// The pixel type of a decoded image follows from its source: indices up to 8
/// bits per pixel, colour beyond, and colour with alpha only at 32 bits with
/// channel masks. Run-length encoding occurs only where indices have the width
/// that it is for.
pub proof fn law_decoded_pixel_type(data: Seq<u8>)
    ensures
        decode::decoded(data) matches Ok(d) ==> {
            let depth = d.metadata.source_bit_depth;
            let compression = d.metadata.compression;
            &&& d.image is Indexed8 <==> depth is One || depth is Four || depth is Eight
            &&& d.image is Srgba8 ==> depth is ThirtyTwo && compression is Bitfields
            &&& compression is Rle8 ==> depth is Eight
            &&& compression is Rle4 ==> depth is Four
        },
{
    header::law_parsed_header_is_valid(data);
}

/// A file of 32 bits per pixel decodes to an image with alpha exactly if its
/// alpha mask is not zero. Without masks in the header there is such a mask only
/// where four masks fit between the header and the pixels.
pub proof fn law_alpha_mask_decides(data: Seq<u8>)
    ensures
        decode::decoded(data) matches Ok(d) ==> header::file_header(data) matches Ok(file)
            ==> header::dib_header(data) matches Ok(dib) ==> dib.bit_count == 32 ==> {
            let offset = file.pixel_data_offset as int;
            &&& d.image is Srgba8 <==> (masks::effective_masks(dib, 32, data) matches Ok(m)
                && decode::alpha_mask(dib, m, offset) != 0)
            &&& d.image is Srgba8 ==> dib.v4_masks is Some || 14 + dib.header_size + 16 <= offset
        },
{
}

/// An ICC profile comes out only of a file with the latest header version, and
/// only together with the colour space that announces it. It is not empty.
pub proof fn law_profile_is_announced(data: Seq<u8>)
    ensures
        decode::decoded(data) matches Ok(d) ==> (d.metadata.icc_profile matches Some(profile)
            ==> d.metadata.color_space is IccTagged && d.metadata.header_version is V5
            && profile.len() > 0),
{
    reveal(header::dib_header);
}

/// Only the latest header version says anything about colour, and the oldest
/// one says nothing about resolution or compression either.
pub proof fn law_old_headers_say_little(data: Seq<u8>)
    ensures
        decode::decoded(data) matches Ok(d) ==> {
            let m = d.metadata;
            &&& !(m.header_version is V5) ==> m.color_space is Srgb
            &&& m.header_version is Core ==> m.resolution is None && m.compression is Uncompressed
        },
{
    reveal(header::dib_header);
}

/// The only errors of a decode are an invalid format, an unsupported feature
/// and inconsistent pixel data. None of them stems from reading or encoding.
pub proof fn law_decode_errors(data: Seq<u8>)
    ensures
        decode::decoded(data) matches Err(e) ==> e is InvalidFormat || e is UnsupportedFeature
            || e is DecodeFailed,
{
    reveal(header::file_header);
    reveal(header::dib_header);
}

/// Every file that decodes starts with the letters `BM`, and is long enough to
/// hold the shortest headers.
pub proof fn law_decoded_is_signed(data: Seq<u8>)
    ensures
        decode::decoded(data) is Ok ==> data.len() >= 26 && data[0] == 0x42 && data[1] == 0x4D,
{
    reveal(header::file_header);
    reveal(header::dib_header);
}

proof fn lemma_painting_keeps_bound(
    data: Seq<u8>,
    pos: int,
    width: int,
    height: int,
    x: int,
    y: int,
    out: Seq<u8>,
)
    requires
        forall|i: int| 0 <= i < out.len() ==> #[trigger] out[i] < 16,
    ensures
        rle::rle_painted(RleFormat::Rle4, data, pos, width, height, x, y, out) matches Ok(s)
            ==> forall|i: int| 0 <= i < s.len() ==> #[trigger] s[i] < 16,
    decreases data.len() + 1 - pos,
{
    if 0 <= pos && pos + 2 <= data.len() {
        let first = data[pos] as int;
        let second = data[pos + 1];
        let next = pos + 2;
        if first > 0 {
            if y < height {
                let ink = |i: int| rle::run_index(RleFormat::Rle4, second, i);
                let drawn = rle::painted(out, width, x, y, first, ink);
                lemma_painting_keeps_bound(data, next, width, height, x + first, y, drawn);
            }
        } else if second == 0 {
            lemma_painting_keeps_bound(data, next, width, height, 0, y + 1, out);
        } else if second == 2 && next + 2 <= data.len() {
            lemma_painting_keeps_bound(
                data,
                next + 2,
                width,
                height,
                x + data[next],
                y + data[next + 1],
                out,
            );
        } else if second > 2 {
            let count = second as int;
            let size = rle::literal_bytes(RleFormat::Rle4, count);
            if next + size <= data.len() && y < height {
                let ink = |i: int| rle::literal_index(RleFormat::Rle4, data, next, i);
                let drawn = rle::painted(out, width, x, y, count, ink);
                lemma_painting_keeps_bound(
                    data,
                    next + size + size % 2,
                    width,
                    height,
                    x + count,
                    y,
                    drawn,
                );
            }
        }
    }
}

/// Indices that are stored in less than a byte stay below what their width
/// allows: 2 for one bit, 16 for four bits, compressed or not.
pub proof fn law_indices_fit_depth(data: Seq<u8>)
    ensures
        decode::decoded(data) matches Ok(d) ==> d.image matches BmpImageModel::Indexed8 {
            data: indices,
            ..
        } ==> {
            &&& d.metadata.source_bit_depth is One ==> forall|i: int|
                0 <= i < indices.pixels.len() ==> (#[trigger] indices.pixels[i]).0 < 2
            &&& d.metadata.source_bit_depth is Four ==> forall|i: int|
                0 <= i < indices.pixels.len() ==> (#[trigger] indices.pixels[i]).0 < 16
        },
{
    header::law_parsed_header_is_valid(data);
    if let Ok(d) = decode::decoded(data) {
        let dib = header::dib_header(data)->Ok_0;
        let offset = header::file_header(data)->Ok_0.pixel_data_offset as int;
        if dib.bit_count == 4 && dib.compression == header::BI_RLE4 {
            let (w, h) = (dib.width as int, dib.height as int);
            let stream = data.skip(offset);
            let blank = Seq::new((w * h) as nat, |i: int| 0u8);
            lemma_painting_keeps_bound(stream, 0, w, h, 0, 0, blank);
            rle::law_rle_fills_image(RleFormat::Rle4, stream, w as nat, h as nat);
            let indices = rle::rle_indices(RleFormat::Rle4, stream, w, h)->Ok_0;
            let raster = d.image->Indexed8_data;
            assert forall|i: int| 0 <= i < raster.pixels.len() implies (
            #[trigger] raster.pixels[i]).0 < 16 by {
                crate::image::lemma_position_of_index(i, w, h);
                let (x, y) = (i % w, i / w);
                crate::image::lemma_index_in_area(x, pixels::stored_row(dib, y), w, h);
            }
        }
    }
}

/// Every image that decodes can be encoded, as far as its file can state its
/// size, and the new file holds the same image.
pub proof fn law_decoded_image_encodes_again(data: Seq<u8>, options: BmpEncodeOptions)
    ensures
        decode::decoded(data) matches Ok(d) ==> {
            &&& encode::image_error(d.image) is None
            &&& encode::encodable_image(d.image) && d.image.height() <= i32::MAX
                ==> (decode::decoded(encode::image_file(d.image, options)) matches Ok(again)
                && again.image == d.image)
        },
{
    law_decoded_image_is_sound(data);
    if let Ok(d) = decode::decoded(data) {
        if encode::encodable_image(d.image) && d.image.height() <= i32::MAX {
            laws::law_image_round_trip(d.image, options);
            if let BmpImageModel::Indexed8 { palette, .. } = d.image {
                assert(laws::kept_palette(palette) =~= palette);
            }
        }
    }
}

/// The same stored rows read from the top down are the image upside down.
pub proof fn law_row_order_flips<F: pixels::RowFormat>(
    format: F,
    dib: BmpDibHeader,
    data: Seq<u8>,
    pixel_offset: int,
    x: int,
    y: int,
)
    requires
        0 <= x < dib.width,
        0 <= y < dib.height,
    ensures
        ({
            let flipped = BmpDibHeader { top_down: !dib.top_down, ..dib };
            pixels::stored_image(format, flipped, data, pixel_offset).at(x, y)
                == pixels::stored_image(format, dib, data, pixel_offset).at(x, dib.height - 1 - y)
        }),
{
    let flipped = BmpDibHeader { top_down: !dib.top_down, ..dib };
    let (w, h) = (dib.width as nat, dib.height as nat);
    crate::image::lemma_tabulate_at(
        w,
        h,
        |cx: int, cy: int|
            format.pixel(data, pixels::row_start(flipped, pixel_offset, format.bits(), cy), cx),
        x,
        y,
    );
    crate::image::lemma_tabulate_at(
        w,
        h,
        |cx: int, cy: int|
            format.pixel(data, pixels::row_start(dib, pixel_offset, format.bits(), cy), cx),
        x,
        h - 1 - y,
    );
}

} // verus!
