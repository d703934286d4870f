//! What the bytes of a written file are.
//!
//! The laws here speak of numbers and bytes at fixed places of the files that
//! are written, as the format defines them.

use vstd::prelude::*;
use crate::bmp::encode;
use crate::bmp::encode::{BmpPixel, WirePixel};
use crate::bmp::file_laws;
use crate::bmp::file_laws::little;
use crate::bmp::laws;
use crate::bmp::le;
use crate::bmp::pixels;
use crate::bmp::{BmpEncodeOptions, BmpImageModel};
use crate::image::Raster;
use crate::pixel::{Indexed8, Srgb8, Srgba8};

verus! {

/// The number of bytes of a row of pixels, filled up to a multiple of four.
pub open spec fn padded(bytes: int) -> int {
    (bytes + 3) / 4 * 4
}

/// The resolution that options ask for, in both directions; zero if they ask for
/// none.
pub open spec fn asked_resolution(options: BmpEncodeOptions) -> (int, int) {
    match options.resolution {
        Some(r) => (r.x_pixels_per_meter as int, r.y_pixels_per_meter as int),
        None => (0, 0),
    }
}

/// A file has the headers of an image: its signature, its own length, where its
/// pixels start, a header of 40 bytes, the dimensions, one plane, the bits per
/// pixel, the compression, the length of the pixel data, the resolution and the
/// number of colours. The height is not negative: rows run from the bottom up.
pub open spec fn has_headers(
    file: Seq<u8>,
    offset: int,
    width: int,
    height: int,
    bits: int,
    compression: int,
    options: BmpEncodeOptions,
    colors: int,
) -> bool {
    let step = padded(width * (bits / 8));
    &&& file.len() == offset + step * height
    &&& file[0] == 0x42 && file[1] == 0x4D
    &&& little(file, 2, 4) == file.len()
    &&& little(file, 6, 4) == 0
    &&& little(file, 10, 4) == offset
    &&& little(file, 14, 4) == 40
    &&& little(file, 18, 4) == width
    &&& little(file, 22, 4) == height
    &&& little(file, 26, 2) == 1
    &&& little(file, 28, 2) == bits
    &&& little(file, 30, 4) == compression
    &&& little(file, 34, 4) == step * height
    &&& little(file, 38, 4) == asked_resolution(options).0
    &&& little(file, 42, 4) == asked_resolution(options).1
    &&& little(file, 46, 4) == colors
    &&& little(file, 50, 4) == 0
}

proof fn lemma_headers(
    file: Seq<u8>,
    file_size: u32,
    offset: u32,
    width: u32,
    height: u32,
    bits: u16,
    compression: u32,
    size: u32,
    options: BmpEncodeOptions,
    colors: u32,
    rest: Seq<u8>,
)
    requires
        file == encode::file_header_bytes(file_size, offset) + encode::info_header_bytes(
            width,
            height,
            bits,
            compression,
            size,
            encode::resolution_fields(options),
            colors,
        ) + rest,
        file_size == 54 + rest.len(),
        size == padded(width * (bits as int / 8)) * height,
        54 + rest.len() == offset + size,
    ensures
        has_headers(
            file,
            offset as int,
            width as int,
            height as int,
            bits as int,
            compression as int,
            options,
            colors as int,
        ),
        file.skip(54) == rest,
{
    let fh = encode::file_header_bytes(file_size, offset);
    let ih = encode::info_header_bytes(
        width,
        height,
        bits,
        compression,
        size,
        encode::resolution_fields(options),
        colors,
    );
    assert(ih.len() == 40) by {
        reveal(encode::info_header_bytes);
    }
    reveal(encode::file_header_bytes);
    assert(fh.len() == 14);
    laws::lemma_three_parts(file, fh, ih, rest);
    laws::lemma_info_fields(
        file,
        14,
        width,
        height,
        bits,
        compression,
        size,
        encode::resolution_fields(options),
        colors,
    );
    assert(fh.subrange(2, 6) =~= le::le32_bytes(file_size));
    assert(fh.subrange(6, 10) =~= le::le32_bytes(0));
    assert(fh.subrange(10, 14) =~= le::le32_bytes(offset));
    laws::lemma_field32(file, 0, fh, 2, file_size);
    laws::lemma_field32(file, 0, fh, 6, 0);
    laws::lemma_field32(file, 0, fh, 10, offset);
    assert(file[0] == fh[0] && file[1] == fh[1]);
    file_laws::lemma_little(file, 2);
    file_laws::lemma_little(file, 6);
    file_laws::lemma_little(file, 10);
    file_laws::lemma_little(file, 14);
    file_laws::lemma_little(file, 18);
    file_laws::lemma_little(file, 22);
    file_laws::lemma_little(file, 26);
    file_laws::lemma_little(file, 28);
    file_laws::lemma_little(file, 30);
    file_laws::lemma_little(file, 34);
    file_laws::lemma_little(file, 38);
    file_laws::lemma_little(file, 42);
    file_laws::lemma_little(file, 46);
    file_laws::lemma_little(file, 50);
}

proof fn lemma_step<P: WirePixel>(image: Raster<P>)
    ensures
        pixels::stride(image.width as int, 8 * P::wire_size()) == padded(
            image.width * P::wire_size(),
        ),
        encode::pixel_data_size(image) == padded(image.width * P::wire_size()) * image.height,
        encode::rows_bytes(image, image.height as int).len() == encode::pixel_data_size(image),
        0 <= encode::pixel_data_size(image),
{
    P::lemma_wire_size_small();
    let (w, s) = (image.width as int, P::wire_size());
    assert(w * (8 * s) == 8 * (w * s)) by (nonlinear_arith);
    assert(0 <= w * s) by (nonlinear_arith)
        requires
            0 <= w,
            1 <= s,
    ;
    laws::lemma_stored_length(image, image.height as int);
    let step = pixels::stride(w, 8 * s);
    assert(image.height * step == step * image.height) by (nonlinear_arith);
}

/// The bytes behind the pixels of a stored row are zero.
proof fn lemma_padding<P: WirePixel>(image: Raster<P>, row: int, i: int)
    requires
        0 <= row < image.height,
        image.width * P::wire_size() <= i < padded(image.width * P::wire_size()),
    ensures
        ({
            let at = row * padded(image.width * P::wire_size()) + i;
            &&& 0 <= at < encode::rows_bytes(image, image.height as int).len()
            &&& encode::rows_bytes(image, image.height as int)[at] == 0
        }),
{
    lemma_step(image);
    P::lemma_wire_size_small();
    assert(0 <= image.width * P::wire_size()) by (nonlinear_arith)
        requires
            0 <= image.width,
            1 <= P::wire_size(),
    ;
    laws::lemma_stored_byte(image, image.height as int, row, i);
}

/// A file of colours: the headers of 24 bits per pixel, then the rows from the
/// bottom up, each pixel as blue, green and red, each row filled up with zeros.
pub proof fn law_written_colors(
    image: Raster<Srgb8>,
    options: BmpEncodeOptions,
    x: int,
    y: int,
    pad: int,
)
    requires
        encode::encodable(image),
        image.wf(),
    ensures
        ({
            let file = encode::truecolor_file(image, options);
            let (w, h) = (image.width as int, image.height as int);
            let row = 54 + (h - 1 - y) * padded(w * 3);
            &&& has_headers(file, 54, w, h, 24, 0, options, 0)
            &&& 0 <= x < w && 0 <= y < h ==> {
                let p = image.pixels[y * w + x];
                file[row + 3 * x] == p.b && file[row + 3 * x + 1] == p.g && file[row + 3 * x + 2]
                    == p.r
            }
            &&& 0 <= y < h && w * 3 <= pad < padded(w * 3) ==> file[row + pad] == 0
        }),
{
    let file = encode::truecolor_file(image, options);
    let rows = encode::rows_bytes(image, image.height as int);
    let size = encode::pixel_data_size(image);
    let fh = encode::file_header_bytes((54 + size) as u32, 54);
    let ih = encode::info_header_bytes(
        image.width as u32,
        image.height as u32,
        24,
        0,
        size as u32,
        encode::resolution_fields(options),
        0,
    );
    lemma_step(image);
    Srgb8::lemma_parameters();
    assert(fh + ih + Seq::<u8>::empty() =~= fh + ih);
    assert(file == fh + ih + rows);
    lemma_headers(
        file,
        (54 + size) as u32,
        54,
        image.width as u32,
        image.height as u32,
        24,
        0,
        size as u32,
        options,
        0,
        rows,
    );
    let at = (image.height - 1 - y) * padded(image.width as int * 3);
    if 0 <= x < image.width && 0 <= y < image.height {
        laws::lemma_stored_pixel(image, x, y, 0);
        laws::lemma_stored_pixel(image, x, y, 1);
        laws::lemma_stored_pixel(image, x, y, 2);
        assert(file[54 + at + 3 * x] == file.skip(54)[at + 3 * x]);
        assert(file[54 + at + 3 * x + 1] == file.skip(54)[at + 3 * x + 1]);
        assert(file[54 + at + 3 * x + 2] == file.skip(54)[at + 3 * x + 2]);
    }
    if 0 <= y < image.height && image.width * 3 <= pad < padded(image.width as int * 3) {
        lemma_padding(image, image.height - 1 - y, pad);
        assert(file[54 + at + pad] == file.skip(54)[at + pad]);
    }
}

/// A file of colours with alpha: the headers of 32 bits per pixel, four masks,
/// then the rows from the bottom up, each pixel as blue, green, red and alpha.
pub proof fn law_written_colors_with_alpha(
    image: Raster<Srgba8>,
    options: BmpEncodeOptions,
    x: int,
    y: int,
)
    requires
        encode::encodable(image),
        image.wf(),
    ensures
        ({
            let file = encode::truecolor_file(image, options);
            let (w, h) = (image.width as int, image.height as int);
            let at = 70 + (h - 1 - y) * (4 * w) + 4 * x;
            &&& has_headers(file, 70, w, h, 32, 3, options, 0)
            &&& little(file, 54, 4) == 0x00FF_0000
            &&& little(file, 58, 4) == 0x0000_FF00
            &&& little(file, 62, 4) == 0x0000_00FF
            &&& little(file, 66, 4) == 0xFF00_0000
            &&& 0 <= x < w && 0 <= y < h ==> {
                let p = image.pixels[y * w + x];
                &&& file[at] == p.b && file[at + 1] == p.g
                &&& file[at + 2] == p.r && file[at + 3] == p.a
            }
        }),
{
    let file = encode::truecolor_file(image, options);
    let rows = encode::rows_bytes(image, image.height as int);
    let masks = encode::mask_bytes();
    let size = encode::pixel_data_size(image);
    let fh = encode::file_header_bytes((70 + size) as u32, 70);
    let ih = encode::info_header_bytes(
        image.width as u32,
        image.height as u32,
        32,
        3,
        size as u32,
        encode::resolution_fields(options),
        0,
    );
    lemma_step(image);
    Srgba8::lemma_parameters();
    reveal(encode::mask_bytes);
    assert(masks.len() == 16);
    assert(fh + ih + masks + rows =~= fh + ih + (masks + rows));
    assert(file == fh + ih + (masks + rows));
    lemma_headers(
        file,
        (70 + size) as u32,
        70,
        image.width as u32,
        image.height as u32,
        32,
        3,
        size as u32,
        options,
        0,
        masks + rows,
    );
    assert(file.subrange(54, 70) =~= masks) by {
        assert forall|i: int| 0 <= i < 16 implies file.subrange(54, 70)[i] == masks[i] by {
            assert(file.skip(54)[i] == (masks + rows)[i]);
        }
    }
    assert(masks.subrange(0, 4) =~= le::le32_bytes(0x00FF_0000));
    assert(masks.subrange(4, 8) =~= le::le32_bytes(0x0000_FF00));
    assert(masks.subrange(8, 12) =~= le::le32_bytes(0x0000_00FF));
    assert(masks.subrange(12, 16) =~= le::le32_bytes(0xFF00_0000));
    laws::lemma_field32(file, 54, masks, 0, 0x00FF_0000);
    laws::lemma_field32(file, 54, masks, 4, 0x0000_FF00);
    laws::lemma_field32(file, 54, masks, 8, 0x0000_00FF);
    laws::lemma_field32(file, 54, masks, 12, 0xFF00_0000);
    file_laws::lemma_little(file, 54);
    file_laws::lemma_little(file, 58);
    file_laws::lemma_little(file, 62);
    file_laws::lemma_little(file, 66);
    assert(padded(image.width as int * 4) == 4 * image.width);
    let at = (image.height - 1 - y) * (4 * image.width) + 4 * x;
    if 0 <= x < image.width && 0 <= y < image.height {
        laws::lemma_stored_pixel(image, x, y, 0);
        laws::lemma_stored_pixel(image, x, y, 1);
        laws::lemma_stored_pixel(image, x, y, 2);
        laws::lemma_stored_pixel(image, x, y, 3);
        assert forall|k: int| 0 <= k < 4 implies #[trigger] file[70 + at + k] == rows[at + k] by {
            assert(file.skip(54)[16 + at + k] == (masks + rows)[16 + at + k]);
        }
        assert(file[70 + at + 0] == rows[at + 0] && file[70 + at + 1] == rows[at + 1]);
        assert(file[70 + at + 2] == rows[at + 2] && file[70 + at + 3] == rows[at + 3]);
    }
}

/// A file of indices: the headers of eight bits per pixel, the colour table with
/// blue, green, red and a zero for each entry, then the rows from the bottom up,
/// each pixel as its index, each row filled up with zeros.
pub proof fn law_written_indices(
    image: Raster<Indexed8>,
    palette: Seq<Srgba8>,
    options: BmpEncodeOptions,
    x: int,
    y: int,
    pad: int,
    i: int,
)
    requires
        encode::encodable_indexed(image, palette),
        image.wf(),
    ensures
        ({
            let file = encode::indexed_file(image, palette, options);
            let (w, h) = (image.width as int, image.height as int);
            let offset = 54 + 4 * palette.len();
            let row = offset + (h - 1 - y) * padded(w);
            &&& has_headers(file, offset as int, w, h, 8, 0, options, palette.len() as int)
            &&& 0 <= i < palette.len() ==> {
                &&& file[54 + 4 * i] == palette[i].b && file[54 + 4 * i + 1] == palette[i].g
                &&& file[54 + 4 * i + 2] == palette[i].r && file[54 + 4 * i + 3] == 0
            }
            &&& 0 <= x < w && 0 <= y < h ==> file[row + x] == image.pixels[y * w + x].0
            &&& 0 <= y < h && w <= pad < padded(w) ==> file[row + pad] == 0
        }),
{
    let file = encode::indexed_file(image, palette, options);
    let rows = encode::rows_bytes(image, image.height as int);
    let table = encode::table_bytes(palette);
    let n = 4 * palette.len() as int;
    lemma_indexed_parts(image, palette, options);
    lemma_step(image);
    assert(Indexed8::wire_size() == 1);
    assert(image.width * Indexed8::wire_size() == image.width);
    if 0 <= i < palette.len() {
        lemma_part_byte(file, 54, table, rows, 4 * i);
        lemma_part_byte(file, 54, table, rows, 4 * i + 1);
        lemma_part_byte(file, 54, table, rows, 4 * i + 2);
        lemma_part_byte(file, 54, table, rows, 4 * i + 3);
    }
    let at = (image.height - 1 - y) * padded(image.width as int);
    if 0 <= x < image.width && 0 <= y < image.height {
        laws::lemma_stored_pixel(image, x, y, 0);
        lemma_part_byte(file, 54, table, rows, n + at + x);
    }
    if 0 <= y < image.height && image.width <= pad < padded(image.width as int) {
        lemma_padding(image, image.height - 1 - y, pad);
        lemma_part_byte(file, 54, table, rows, n + at + pad);
    }
}

proof fn lemma_part_byte(file: Seq<u8>, at: int, a: Seq<u8>, b: Seq<u8>, k: int)
    requires
        0 <= at <= file.len(),
        file.skip(at) == a + b,
        0 <= k < a.len() + b.len(),
    ensures
        k < a.len() ==> file[at + k] == a[k],
        k >= a.len() ==> file[at + k] == b[k - a.len()],
{
    assert(file.skip(at).len() == file.len() - at);
    assert(file.skip(at).len() == a.len() + b.len());
    assert(file.skip(at)[k] == file[at + k]);
}

proof fn lemma_indexed_parts(
    image: Raster<Indexed8>,
    palette: Seq<Srgba8>,
    options: BmpEncodeOptions,
)
    requires
        encode::encodable_indexed(image, palette),
    ensures
        ({
            let file = encode::indexed_file(image, palette, options);
            let table = encode::table_bytes(palette);
            let rows = encode::rows_bytes(image, image.height as int);
            &&& has_headers(
                file,
                54 + 4 * palette.len() as int,
                image.width as int,
                image.height as int,
                8,
                0,
                options,
                palette.len() as int,
            )
            &&& file.skip(54) == table + rows
            &&& table.len() == 4 * palette.len()
        }),
{
    let file = encode::indexed_file(image, palette, options);
    let rows = encode::rows_bytes(image, image.height as int);
    let table = encode::table_bytes(palette);
    let size = encode::pixel_data_size(image);
    let n = 4 * palette.len() as int;
    let fh = encode::file_header_bytes((54 + n + size) as u32, (54 + n) as u32);
    let ih = encode::info_header_bytes(
        image.width as u32,
        image.height as u32,
        8,
        0,
        size as u32,
        encode::resolution_fields(options),
        palette.len() as u32,
    );
    lemma_step(image);
    assert(fh + ih + table + rows =~= fh + ih + (table + rows));
    assert(file == fh + ih + (table + rows));
    lemma_headers(
        file,
        (54 + n + size) as u32,
        (54 + n) as u32,
        image.width as u32,
        image.height as u32,
        8,
        0,
        size as u32,
        options,
        palette.len() as u32,
        table + rows,
    );
}

/// An indexed image is refused exactly if its palette is empty or has more than
/// 256 entries, or a pixel has an index beyond the palette. The refusal stems
/// from encoding.
pub proof fn law_palette_has_every_index(image: Raster<Indexed8>, palette: Seq<Srgba8>)
    ensures
        encode::palette_error(image, palette) is None <==> 1 <= palette.len() <= 256 && forall|
            i: int,
        |
            0 <= i < image.pixels.len() ==> (#[trigger] image.pixels[i]).0 < palette.len(),
        encode::palette_error(image, palette) matches Some(e) ==> e is EncodeFailed,
{
}

/// Every image of a file is written as the kind of image that it is, and none is
/// refused whose palette has 256 entries.
pub proof fn law_image_is_written_by_kind(image: BmpImageModel, options: BmpEncodeOptions)
    ensures
        image matches BmpImageModel::Srgb8(raster) ==> encode::image_error(image) is None
            && encode::image_file(image, options) == encode::truecolor_file(raster, options),
        image matches BmpImageModel::Srgba8(raster) ==> encode::image_error(image) is None
            && encode::image_file(image, options) == encode::truecolor_file(raster, options),
        image matches BmpImageModel::Indexed8 { data, palette } ==> {
            &&& palette.len() == 256 ==> encode::image_error(image) is None
            &&& encode::image_file(image, options) == encode::indexed_file(data, palette, options)
        },
{
}

/// An image can be encoded exactly if its dimensions and the length of its file
/// fit in 32 bits.
pub proof fn law_what_fits_can_be_encoded(image: BmpImageModel)
    ensures
        encode::encodable_image(image) <==> {
            let (w, h) = (image.width() as int, image.height() as int);
            let length = match image {
                BmpImageModel::Indexed8 { palette, .. } => 54 + 4 * palette.len() + padded(w) * h,
                BmpImageModel::Srgb8(_) => 54 + padded(w * 3) * h,
                BmpImageModel::Srgba8(_) => 70 + padded(w * 4) * h,
            };
            w < 0x1_0000_0000 && h < 0x1_0000_0000 && length < 0x1_0000_0000
        },
{
    match image {
        BmpImageModel::Indexed8 { data, .. } => lemma_step(data),
        BmpImageModel::Srgb8(raster) => {
            lemma_step(raster);
            Srgb8::lemma_parameters();
        },
        BmpImageModel::Srgba8(raster) => {
            lemma_step(raster);
            Srgba8::lemma_parameters();
        },
    }
}

} // verus!
