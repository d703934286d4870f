//! What holds of rows and pixels as they are stored.

use vstd::prelude::*;
use vstd::arithmetic::power2;
use crate::bmp::decode;
use crate::bmp::header;
use crate::bmp::header::{BmpDibHeader, BI_RGB};
use crate::bmp::le;
use crate::bmp::masks;
use crate::bmp::palette;
use crate::bmp::pixels;
use crate::bmp::pixels::{EightBit, FourBit, OneBit, RowFormat, TwentyFourBit};
use crate::bmp::BmpImageModel;
use crate::image::Raster;
use crate::pixel::Srgb8;

verus! {

/// Stored row number `row` of one file is the mirrored row of the other: as far
/// from the last row as `row` is from the first.
pub open spec fn mirrored_row(
    a: Seq<u8>,
    b: Seq<u8>,
    dib: BmpDibHeader,
    pixel_offset: int,
    row: int,
) -> bool {
    let bits = dib.bit_count as int;
    let step = pixels::stride(dib.width as int, bits);
    pixels::same_bytes(
        a,
        pixel_offset + row * step,
        b,
        pixel_offset + (dib.height - 1 - row) * step,
        pixels::packed_bytes(dib.width as int, bits),
    )
}

/// Where the colour table of a file ends, or its header if there is none.
pub open spec fn table_end(dib: BmpDibHeader) -> int {
    if dib.bit_count <= 8 {
        14 + dib.header_size + palette::entries_used(palette::table_length(dib))
            * dib.color_table_entry_size
    } else {
        14 + dib.header_size as int
    }
}

/// File `b` is file `a` with its height negated and its rows in reverse order:
/// what stands before the pixels is the same but for the height. What stands
/// behind the pixels of a row, or behind the last row, does not matter.
pub open spec fn stored_in_reverse(
    a: Seq<u8>,
    b: Seq<u8>,
    dib: BmpDibHeader,
    pixel_offset: int,
) -> bool {
    &&& a.len() == b.len()
    &&& 26 <= pixel_offset <= a.len()
    &&& a.take(22) == b.take(22)
    &&& le::le32_signed(b, 22) == -le::le32_signed(a, 22)
    &&& a.subrange(26, pixel_offset) == b.subrange(26, pixel_offset)
    &&& forall|row: int|
        0 <= row < dib.height ==> #[trigger] mirrored_row(a, b, dib, pixel_offset, row)
}

proof fn lemma_reversed_image<F: RowFormat>(
    format: F,
    dib: BmpDibHeader,
    a: Seq<u8>,
    b: Seq<u8>,
    pixel_offset: int,
)
    requires
        !dib.top_down,
        format.bits() == dib.bit_count,
        forall|row: int|
            0 <= row < dib.height ==> #[trigger] mirrored_row(a, b, dib, pixel_offset, row),
    ensures
        pixels::stored_image(format, dib, a, pixel_offset) == pixels::stored_image(
            format,
            BmpDibHeader { top_down: true, ..dib },
            b,
            pixel_offset,
        ),
{
    let reversed = BmpDibHeader { top_down: true, ..dib };
    let (w, h) = (dib.width as nat, dib.height as nat);
    let f = |x: int, y: int|
        format.pixel(a, pixels::row_start(dib, pixel_offset, format.bits(), y), x);
    let g = |x: int, y: int|
        format.pixel(b, pixels::row_start(reversed, pixel_offset, format.bits(), y), x);
    let image = Raster::tabulate(w, h, f);
    assert forall|x: int, y: int| 0 <= x < w && 0 <= y < h implies #[trigger] image.at(x, y) == g(
        x,
        y,
    ) by {
        crate::image::lemma_tabulate_at(w, h, f, x, y);
        assert(mirrored_row(a, b, dib, pixel_offset, h - 1 - y));
        assert(h - 1 - (h - 1 - y) == y);
        format.pixel_is_local(
            a,
            pixels::row_start(dib, pixel_offset, format.bits(), y),
            b,
            pixels::row_start(reversed, pixel_offset, format.bits(), y),
            w as int,
            x,
        );
    }
    crate::image::lemma_tabulated(image, g);
}

proof fn lemma_reversed_header(a: Seq<u8>, b: Seq<u8>, dib: BmpDibHeader, pixel_offset: int)
    requires
        stored_in_reverse(a, b, dib, pixel_offset),
        header::dib_header(a) == Ok::<BmpDibHeader, crate::error::IoError>(dib),
        !dib.top_down,
        !(dib.header_version is Core),
        14 + dib.header_size <= pixel_offset,
    ensures
        header::file_header(b) == header::file_header(a),
        header::dib_header(b) == Ok::<BmpDibHeader, crate::error::IoError>(
            BmpDibHeader { top_down: true, ..dib },
        ),
{
    header::law_parsed_header_is_valid(a);
    reveal(header::file_header);
    reveal(header::dib_header);
    assert forall|i: int| 0 <= i < 22 implies #[trigger] a[i] == b[i] by {
        assert(a.take(22)[i] == b.take(22)[i]);
    }
    assert forall|i: int| 26 <= i < pixel_offset implies #[trigger] a[i] == b[i] by {
        assert(a.subrange(26, pixel_offset)[i - 26] == b.subrange(26, pixel_offset)[i - 26]);
    }
}

/// The direction of the rows does not matter: a file whose height is negated
/// and whose rows are stored in reverse order decodes to the same image, with
/// the same metadata.
pub proof fn law_row_direction_does_not_matter(a: Seq<u8>, b: Seq<u8>)
    requires
        header::file_header(a) matches Ok(file) && (header::dib_header(a) matches Ok(dib) && {
            &&& !dib.top_down
            &&& !(dib.header_version is Core)
            &&& dib.compression == BI_RGB
            &&& dib.icc_profile is None
            &&& table_end(dib) <= file.pixel_data_offset
            &&& stored_in_reverse(a, b, dib, file.pixel_data_offset as int)
        }),
    ensures
        decode::decoded(a) is Ok,
        decode::decoded(b) == decode::decoded(a),
{
    let dib = header::dib_header(a)->Ok_0;
    let offset = header::file_header(a)->Ok_0.pixel_data_offset as int;
    let reversed = BmpDibHeader { top_down: true, ..dib };
    header::law_parsed_header_is_valid(a);
    let count = palette::entries_used(palette::table_length(dib));
    assert(0 <= count * dib.color_table_entry_size) by (nonlinear_arith)
        requires
            0 <= count,
            0 <= dib.color_table_entry_size,
    ;
    lemma_reversed_header(a, b, dib, offset);
    assert(mirrored_row(a, b, dib, offset, dib.height - 1));
    let bits = dib.bit_count as int;
    assert(pixels::pixels_end(dib, offset, bits) <= a.len());
    if dib.bit_count <= 8 {
        let x = palette::image_palette(dib, a);
        let y = palette::image_palette(reversed, b);
        assert(x is Ok);
        assert(x->Ok_0 =~= y->Ok_0) by {
            assert forall|i: int| 0 <= i < 256 implies x->Ok_0[i] == y->Ok_0[i] by {
                if i < count {
                    let at = 14 + dib.header_size + 4 * i;
                    assert(at + 3 <= offset);
                    assert forall|j: int| at <= j < at + 3 implies #[trigger] a[j] == b[j] by {
                        assert(a.subrange(26, offset)[j - 26] == b.subrange(26, offset)[j - 26]);
                    }
                    assert(a[at] == b[at] && a[at + 1] == b[at + 1] && a[at + 2] == b[at + 2]);
                }
            }
        }
    }
    if dib.bit_count == 1 {
        lemma_reversed_image(OneBit, dib, a, b, offset);
    } else if dib.bit_count == 4 {
        lemma_reversed_image(FourBit, dib, a, b, offset);
    } else if dib.bit_count == 8 {
        lemma_reversed_image(EightBit, dib, a, b, offset);
    } else if dib.bit_count == 16 {
        lemma_reversed_image(pixels::sixteen_bit(masks::default_masks(16)), dib, a, b, offset);
    } else if dib.bit_count == 24 {
        lemma_reversed_image(TwentyFourBit, dib, a, b, offset);
    } else {
        lemma_reversed_image(pixels::thirty_two_bit(masks::default_masks(32)), dib, a, b, offset);
    }
}

/// Where the word of the 32-bit pixel in column `x` of row `y` starts.
pub open spec fn word_at(dib: BmpDibHeader, pixel_offset: int, x: int, y: int) -> int {
    pixels::row_start(dib, pixel_offset, 32, y) + 4 * x
}

/// The default masks take a pixel apart into the bytes of its word.
proof fn lemma_bgrx_pixel(data: Seq<u8>, row: int, x: int)
    ensures
        pixels::thirty_two_bit(masks::default_masks(32)).pixel(data, row, x) == (Srgb8 {
            r: data[row + 4 * x + 2],
            g: data[row + 4 * x + 1],
            b: data[row + 4 * x],
        }),
{
    let at = row + 4 * x;
    let value = le::le32(data, at);
    power2::lemma2_to64();
    le::lemma_le32_digits(data[at], data[at + 1], data[at + 2], data[at + 3]);
    masks::lemma_byte_mask(16, 0x00FF_0000, value);
    masks::lemma_byte_mask(8, 0x0000_FF00, value);
    masks::lemma_byte_mask(0, 0x0000_00FF, value);
}

/// Uncompressed 32-bit pixels hold blue, green, red and a byte that does not
/// count, and never give an image with alpha.
pub proof fn law_words_are_bgrx(dib: BmpDibHeader, data: Seq<u8>, pixel_offset: int)
    requires
        dib.compression == BI_RGB,
    ensures
        decode::thirty_two_bit_image(dib, data, pixel_offset) matches Ok(image) ==> (
        image matches BmpImageModel::Srgb8(raster) && raster.width == dib.width && raster.height
            == dib.height && raster.wf() && forall|x: int, y: int|
            0 <= x < dib.width && 0 <= y < dib.height ==> #[trigger] raster.at(x, y) == ({
                let at = word_at(dib, pixel_offset, x, y);
                Srgb8 { r: data[at + 2], g: data[at + 1], b: data[at] }
            })),
{
    if let Ok(image) = decode::thirty_two_bit_image(dib, data, pixel_offset) {
        let format = pixels::thirty_two_bit(masks::default_masks(32));
        let raster = image->Srgb8_0;
        assert forall|x: int, y: int|
            0 <= x < dib.width && 0 <= y < dib.height implies #[trigger] raster.at(x, y) == ({
            let at = word_at(dib, pixel_offset, x, y);
            Srgb8 { r: data[at + 2], g: data[at + 1], b: data[at] }
        }) by {
            crate::image::lemma_tabulate_at(
                dib.width as nat,
                dib.height as nat,
                |cx: int, cy: int|
                    format.pixel(data, pixels::row_start(dib, pixel_offset, format.bits(), cy), cx),
                x,
                y,
            );
            lemma_bgrx_pixel(data, pixels::row_start(dib, pixel_offset, 32, y), x);
        }
    }
}

/// Two files hold the same blue, green and red in the word of a pixel.
pub open spec fn same_color(
    a: Seq<u8>,
    b: Seq<u8>,
    dib: BmpDibHeader,
    pixel_offset: int,
    x: int,
    y: int,
) -> bool {
    let at = word_at(dib, pixel_offset, x, y);
    a[at] == b[at] && a[at + 1] == b[at + 1] && a[at + 2] == b[at + 2]
}

/// The fourth byte of a pixel does not count: uncompressed 32-bit pixels that
/// differ in no other byte give the same image, or the same error.
pub proof fn law_fourth_byte_does_not_count(
    dib: BmpDibHeader,
    a: Seq<u8>,
    b: Seq<u8>,
    pixel_offset: int,
)
    requires
        dib.compression == BI_RGB,
        a.len() == b.len(),
        forall|x: int, y: int|
            0 <= x < dib.width && 0 <= y < dib.height ==> #[trigger] same_color(
                a,
                b,
                dib,
                pixel_offset,
                x,
                y,
            ),
    ensures
        decode::thirty_two_bit_image(dib, a, pixel_offset) == decode::thirty_two_bit_image(
            dib,
            b,
            pixel_offset,
        ),
{
    law_words_are_bgrx(dib, a, pixel_offset);
    law_words_are_bgrx(dib, b, pixel_offset);
    if let Ok(image) = decode::thirty_two_bit_image(dib, a, pixel_offset) {
        let other = decode::thirty_two_bit_image(dib, b, pixel_offset)->Ok_0->Srgb8_0;
        let raster = image->Srgb8_0;
        let f = |x: int, y: int| other.at(x, y);
        assert forall|x: int, y: int|
            0 <= x < dib.width && 0 <= y < dib.height implies #[trigger] raster.at(x, y) == f(
            x,
            y,
        ) by {
            assert(same_color(a, b, dib, pixel_offset, x, y));
        }
        crate::image::lemma_tabulated(raster, f);
        crate::image::lemma_tabulated(other, f);
    }
}

/// The same of whole files: two uncompressed files of 32 bits per pixel with the
/// same headers that differ in no other byte of a pixel decode to the same
/// image, or fail alike.
pub proof fn law_fourth_bytes_of_file_do_not_count(a: Seq<u8>, b: Seq<u8>)
    requires
        a.len() == b.len(),
        header::file_header(b) == header::file_header(a),
        header::dib_header(b) == header::dib_header(a),
        header::file_header(a) matches Ok(file) && (header::dib_header(a) matches Ok(dib) && {
            &&& dib.bit_count == 32
            &&& dib.compression == BI_RGB
            &&& forall|x: int, y: int|
                0 <= x < dib.width && 0 <= y < dib.height ==> #[trigger] same_color(
                    a,
                    b,
                    dib,
                    file.pixel_data_offset as int,
                    x,
                    y,
                )
        }),
    ensures
        match decode::decoded(a) {
            Ok(d) => decode::decoded(b) matches Ok(e) && e.image == d.image,
            Err(e) => decode::decoded(b) == decode::decoded(a),
        },
{
    let dib = header::dib_header(a)->Ok_0;
    let offset = header::file_header(a)->Ok_0.pixel_data_offset as int;
    law_fourth_byte_does_not_count(dib, a, b, offset);
}

} // verus!
