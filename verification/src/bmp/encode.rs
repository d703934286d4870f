//! Encoding.
//!
//! Files are written with a `BITMAPINFOHEADER`, uncompressed, bottom-up, and
//! with rows padded to a multiple of four bytes.

use vstd::prelude::*;
use crate::bmp::bmp_pixel_sealed::Sealed;
use crate::bmp::header::{BI_BITFIELDS, BI_RGB};
use crate::bmp::le;
use crate::bmp::le::{write_u16_le, write_u32_le};
use crate::bmp::pixels;
use crate::bmp::pixels::row_stride;
use crate::bmp::{BmpEncodeOptions, BmpImage, BmpImageModel};
use crate::error;
use crate::error::{EncodeSource, IoError};
use crate::image::{Image, Raster};
use crate::pixel::{Indexed8, Srgb8, Srgba8};

verus! {

/// A pixel as it stands in a BMP file.
pub trait WirePixel: Copy {
    /// The bytes of the pixel.
    spec fn wire(self) -> Seq<u8>;

    /// The number of bytes that every pixel of this type takes.
    spec fn wire_size() -> int;

    /// Every pixel takes the same number of bytes.
    proof fn lemma_wire_size(self)
        ensures
            self.wire().len() == Self::wire_size(),
    ;

    /// A pixel takes one to four bytes.
    proof fn lemma_wire_size_small()
        ensures
            1 <= Self::wire_size() <= 4,
    ;

    /// Appends the bytes of the pixel.
    fn push_wire(&self, out: &mut Vec<u8>)
        ensures
            final(out)@ == old(out)@ + self.wire(),
    ;
}

impl WirePixel for Srgb8 {
    open spec fn wire(self) -> Seq<u8> {
        seq![self.b, self.g, self.r]
    }

    open spec fn wire_size() -> int {
        3
    }

    proof fn lemma_wire_size(self) {
    }

    proof fn lemma_wire_size_small() {
    }

    fn push_wire(&self, out: &mut Vec<u8>) {
        out.push(self.b);
        out.push(self.g);
        out.push(self.r);
        assert(out@ =~= old(out)@ + self.wire());
    }
}

impl WirePixel for Srgba8 {
    open spec fn wire(self) -> Seq<u8> {
        seq![self.b, self.g, self.r, self.a]
    }

    open spec fn wire_size() -> int {
        4
    }

    proof fn lemma_wire_size(self) {
    }

    proof fn lemma_wire_size_small() {
    }

    fn push_wire(&self, out: &mut Vec<u8>) {
        out.push(self.b);
        out.push(self.g);
        out.push(self.r);
        out.push(self.a);
        assert(out@ =~= old(out)@ + self.wire());
    }
}

impl WirePixel for Indexed8 {
    open spec fn wire(self) -> Seq<u8> {
        seq![self.0]
    }

    open spec fn wire_size() -> int {
        1
    }

    proof fn lemma_wire_size(self) {
    }

    proof fn lemma_wire_size_small() {
    }

    fn push_wire(&self, out: &mut Vec<u8>) {
        out.push(self.0);
        assert(out@ =~= old(out)@ + self.wire());
    }
}

/// Maps a pixel type to its BMP wire parameters.
///
/// This trait is **sealed**: it is implemented for exactly two pixel types
/// (`Srgb8` and `Srgba8`). Attempting to encode a type that does not implement
/// `BmpPixel` is a compile-time error.
///
/// | Pixel type | `BMP_BYTES_PER_PIXEL` | `BMP_BIT_COUNT` | Notes                  |
/// |------------|-----------------------|-----------------|------------------------|
/// | `Srgb8`    | 3                     | 24              | 24-bit BGR, no alpha   |
/// | `Srgba8`   | 4                     | 32              | 32-bit BGRA with alpha |
pub trait BmpPixel: Sealed + WirePixel {
    /// Number of bytes per pixel in the BMP file (3 for RGB, 4 for RGBA).
    const BMP_BYTES_PER_PIXEL: u32;

    /// Bits per pixel in the BMP header.
    const BMP_BIT_COUNT: u16;

    /// Whether to write `BI_BITFIELDS` compression with an alpha mask.
    const BMP_HAS_ALPHA: bool;

    /// The parameters fit together.
    proof fn lemma_parameters()
        ensures
            Self::BMP_BYTES_PER_PIXEL == Self::wire_size(),
            Self::BMP_BIT_COUNT == 8 * Self::wire_size(),
            Self::BMP_HAS_ALPHA <==> Self::wire_size() == 4,
    ;

    /// Writes this pixel in BMP wire format (BGR or BGRA) over the start of
    /// the slice, which must be at least `BMP_BYTES_PER_PIXEL` bytes long.
    fn write_bmp_bytes(&self, out: &mut [u8])
        requires
            old(out)@.len() >= Self::BMP_BYTES_PER_PIXEL,
        ensures
            final(out)@ == le::overwritten(old(out)@, 0, self.wire()),
    ;
}

impl Sealed for Srgb8 {

}

impl BmpPixel for Srgb8 {
    const BMP_BYTES_PER_PIXEL: u32 = 3;

    const BMP_BIT_COUNT: u16 = 24;

    const BMP_HAS_ALPHA: bool = false;

    proof fn lemma_parameters() {
    }

    fn write_bmp_bytes(&self, out: &mut [u8]) {
        out[0] = self.b;
        out[1] = self.g;
        out[2] = self.r;
        assert(out@ =~= le::overwritten(old(out)@, 0, self.wire()));
    }
}

impl Sealed for Srgba8 {

}

impl BmpPixel for Srgba8 {
    const BMP_BYTES_PER_PIXEL: u32 = 4;

    const BMP_BIT_COUNT: u16 = 32;

    const BMP_HAS_ALPHA: bool = true;

    proof fn lemma_parameters() {
    }

    fn write_bmp_bytes(&self, out: &mut [u8]) {
        out[0] = self.b;
        out[1] = self.g;
        out[2] = self.r;
        out[3] = self.a;
        assert(out@ =~= le::overwritten(old(out)@, 0, self.wire()));
    }
}

/// The 14 bytes of a file header.
#[verifier::opaque]
pub open spec fn file_header_bytes(file_size: u32, pixel_offset: u32) -> Seq<u8> {
    seq![0x42u8, 0x4Du8] + le::le32_bytes(file_size) + seq![0u8, 0u8, 0u8, 0u8] + le::le32_bytes(
        pixel_offset,
    )
}

/// The 40 bytes of a `BITMAPINFOHEADER`.
#[verifier::opaque]
pub open spec fn info_header_bytes(
    width: u32,
    height: u32,
    bit_count: u16,
    compression: u32,
    image_size: u32,
    resolution: (u32, u32),
    colors_used: u32,
) -> Seq<u8> {
    le::le32_bytes(40) + le::le32_bytes(width) + le::le32_bytes(height) + le::le16_bytes(1)
        + le::le16_bytes(bit_count) + le::le32_bytes(compression) + le::le32_bytes(image_size)
        + le::le32_bytes(resolution.0) + le::le32_bytes(resolution.1) + le::le32_bytes(colors_used)
        + le::le32_bytes(0)
}

/// The resolution fields that the options ask for: zero if unspecified.
pub open spec fn resolution_fields(options: BmpEncodeOptions) -> (u32, u32) {
    match options.resolution {
        Some(r) => (r.x_pixels_per_meter, r.y_pixels_per_meter),
        None => (0, 0),
    }
}

/// The masks that an image with an alpha channel is written with.
#[verifier::opaque]
pub open spec fn mask_bytes() -> Seq<u8> {
    le::le32_bytes(0x00FF_0000) + le::le32_bytes(0x0000_FF00) + le::le32_bytes(0x0000_00FF)
        + le::le32_bytes(0xFF00_0000)
}

/// Row `y` of an image as it stands in a file: the bytes of its pixels, then
/// zeros up to a multiple of four.
pub open spec fn row_bytes<P: WirePixel>(image: Raster<P>, y: int) -> Seq<u8> {
    let size = P::wire_size();
    Seq::new(
        pixels::stride(image.width as int, 8 * size) as nat,
        |i: int|
            if i < image.width * size {
                image.at(i / size, y).wire()[i % size]
            } else {
                0
            },
    )
}

/// The first `count` rows of an image as they stand in a file: the lowest row
/// first.
pub open spec fn rows_bytes<P: WirePixel>(image: Raster<P>, count: int) -> Seq<u8>
    decreases count,
{
    if count <= 0 {
        Seq::empty()
    } else {
        rows_bytes(image, count - 1) + row_bytes(image, image.height - count)
    }
}

/// The size of the pixel data.
pub open spec fn pixel_data_size<P: WirePixel>(image: Raster<P>) -> int {
    pixels::stride(image.width as int, 8 * P::wire_size()) * image.height
}

/// The dimensions and the size of a file fit the 32-bit fields that hold them.
pub open spec fn fits_fields<P: WirePixel>(image: Raster<P>, pixel_offset: int) -> bool {
    &&& image.width <= u32::MAX
    &&& image.height <= u32::MAX
    &&& pixel_offset + pixel_data_size(image) <= u32::MAX
}

/// Where the pixel data of a truecolour file starts: after the headers, and
/// the masks where there is an alpha channel.
pub open spec fn truecolor_offset<P: BmpPixel>() -> int {
    if P::BMP_HAS_ALPHA {
        70
    } else {
        54
    }
}

/// A truecolour image can be encoded if its file fits the fields of the
/// headers.
pub open spec fn encodable<P: BmpPixel>(image: Raster<P>) -> bool {
    fits_fields(image, truecolor_offset::<P>())
}

/// The file of a truecolour image.
pub open spec fn truecolor_file<P: BmpPixel>(
    image: Raster<P>,
    options: BmpEncodeOptions,
) -> Seq<u8> {
    let size = pixel_data_size(image);
    let offset = truecolor_offset::<P>();
    let compression = if P::BMP_HAS_ALPHA {
        BI_BITFIELDS
    } else {
        BI_RGB
    };
    file_header_bytes((offset + size) as u32, offset as u32) + info_header_bytes(
        image.width as u32,
        image.height as u32,
        P::BMP_BIT_COUNT,
        compression,
        size as u32,
        resolution_fields(options),
        0,
    ) + (if P::BMP_HAS_ALPHA {
        mask_bytes()
    } else {
        Seq::empty()
    }) + rows_bytes(image, image.height as int)
}

/// The bytes of a colour table: blue, green, red and a reserved zero for each
/// entry.
pub open spec fn table_bytes(palette: Seq<Srgba8>) -> Seq<u8> {
    Seq::new(
        4 * palette.len(),
        |i: int|
            if i % 4 == 0 {
                palette[i / 4].b
            } else if i % 4 == 1 {
                palette[i / 4].g
            } else if i % 4 == 2 {
                palette[i / 4].r
            } else {
                0
            },
    )
}

/// The error for an image that its palette cannot describe; `None` where it
/// can.
pub open spec fn palette_error(image: Raster<Indexed8>, palette: Seq<Srgba8>) -> Option<IoError> {
    if palette.len() == 0 || palette.len() > 256 {
        Some(error::encode_failure("palette must have 1\u{2013}256 entries"))
    } else if exists|i: int|
        0 <= i < image.pixels.len() && (#[trigger] image.pixels[i]).0 >= palette.len() {
        Some(error::encode_failure("pixel index exceeds palette size"))
    } else {
        None
    }
}

/// An indexed image can be encoded if its file fits the fields of the headers.
pub open spec fn encodable_indexed(image: Raster<Indexed8>, palette: Seq<Srgba8>) -> bool {
    fits_fields(image, 54 + 4 * palette.len() as int)
}

/// The file of an indexed image.
pub open spec fn indexed_file(
    image: Raster<Indexed8>,
    palette: Seq<Srgba8>,
    options: BmpEncodeOptions,
) -> Seq<u8> {
    let size = pixel_data_size(image);
    let offset = 54 + 4 * palette.len();
    file_header_bytes((offset + size) as u32, offset as u32) + info_header_bytes(
        image.width as u32,
        image.height as u32,
        8,
        BI_RGB,
        size as u32,
        resolution_fields(options),
        palette.len() as u32,
    ) + table_bytes(palette) + rows_bytes(image, image.height as int)
}

fn write_file_header(out: &mut Vec<u8>, file_size: u32, pixel_offset: u32)
    ensures
        final(out)@ == old(out)@ + file_header_bytes(file_size, pixel_offset),
{
    let mut header: Vec<u8> = vec![0u8; 14];
    header.set(0, 0x42);
    header.set(1, 0x4D);
    write_u32_le(header.as_mut_slice(), 2, file_size);
    write_u32_le(header.as_mut_slice(), 10, pixel_offset);
    reveal(file_header_bytes);
    assert(header@ =~= file_header_bytes(file_size, pixel_offset));
    out.append(&mut header);
}

fn write_info_header(
    out: &mut Vec<u8>,
    width: u32,
    height: u32,
    bit_count: u16,
    compression: u32,
    image_size: u32,
    options: &BmpEncodeOptions,
    colors_used: u32,
)
    ensures
        final(out)@ == old(out)@ + info_header_bytes(
            width,
            height,
            bit_count,
            compression,
            image_size,
            resolution_fields(*options),
            colors_used,
        ),
{
    let (x_res, y_res): (u32, u32) = match &options.resolution {
        Some(r) => (r.x_pixels_per_meter, r.y_pixels_per_meter),
        None => (0, 0),
    };
    let mut header: Vec<u8> = vec![0u8; 40];
    write_u32_le(header.as_mut_slice(), 0, 40);
    write_u32_le(header.as_mut_slice(), 4, width);
    write_u32_le(header.as_mut_slice(), 8, height);
    write_u16_le(header.as_mut_slice(), 12, 1);
    write_u16_le(header.as_mut_slice(), 14, bit_count);
    write_u32_le(header.as_mut_slice(), 16, compression);
    write_u32_le(header.as_mut_slice(), 20, image_size);
    write_u32_le(header.as_mut_slice(), 24, x_res);
    write_u32_le(header.as_mut_slice(), 28, y_res);
    write_u32_le(header.as_mut_slice(), 32, colors_used);
    reveal(info_header_bytes);
    assert(header@ =~= info_header_bytes(
        width,
        height,
        bit_count,
        compression,
        image_size,
        resolution_fields(*options),
        colors_used,
    ));
    out.append(&mut header);
}

fn write_masks(out: &mut Vec<u8>)
    ensures
        final(out)@ == old(out)@ + mask_bytes(),
{
    let mut masks: Vec<u8> = vec![0u8; 16];
    write_u32_le(masks.as_mut_slice(), 0, 0x00FF_0000);
    write_u32_le(masks.as_mut_slice(), 4, 0x0000_FF00);
    write_u32_le(masks.as_mut_slice(), 8, 0x0000_00FF);
    write_u32_le(masks.as_mut_slice(), 12, 0xFF00_0000);
    reveal(mask_bytes);
    assert(masks@ =~= mask_bytes());
    out.append(&mut masks);
}

/// Appends one row: its pixels, then padding.
fn write_row<P: WirePixel>(out: &mut Vec<u8>, image: &Image<P>, y: usize, size: usize, step: usize)
    requires
        y < image@.height,
        size == P::wire_size(),
        step == pixels::stride(image@.width as int, 8 * P::wire_size()),
    ensures
        final(out)@ == old(out)@ + row_bytes(image@, y as int),
{
    let width: usize = image.width();
    let ghost start = out@.len();
    let ghost row = row_bytes(image@, y as int);
    proof {
        P::lemma_wire_size_small();
        pixels::law_stride_is_tight(width as nat, (8 * size) as nat);
        assert(width * (8 * size) == 8 * (width * size)) by (nonlinear_arith);
        assert(0 <= width * size) by (nonlinear_arith);
    }
    let mut x: usize = 0;
    while x < width
        invariant
            y < image@.height,
            width == image@.width,
            size == P::wire_size(),
            1 <= size <= 4,
            row == row_bytes(image@, y as int),
            row.len() == step,
            width * size <= step,
            x <= width,
            old(out)@.len() == start,
            out@.len() == start + x * size,
            forall|i: int| 0 <= i < start ==> #[trigger] out@[i] == old(out)@[i],
            forall|i: int| 0 <= i < x * size ==> #[trigger] out@[start + i] == row[i],
        decreases width - x,
    {
        let p = image.pixel_at(x, y);
        let ghost before = out@;
        p.push_wire(out);
        proof {
            p.lemma_wire_size();
            assert((x + 1) * size == x * size + size) by (nonlinear_arith);
            assert((x + 1) * size <= width * size) by (nonlinear_arith)
                requires
                    x < width,
                    0 < size,
            ;
            assert forall|i: int| 0 <= i < (x + 1) * size implies #[trigger] out@[start + i]
                == row[i] by {
                if i < x * size {
                    assert(before[start + i] == row[i]);
                } else {
                    let k = i - x * size;
                    vstd::arithmetic::div_mod::lemma_fundamental_div_mod_converse(
                        i,
                        size as int,
                        x as int,
                        k,
                    );
                    assert(out@[start + i] == p.wire()[k]);
                }
            }
            assert forall|i: int| 0 <= i < start implies #[trigger] out@[i] == old(out)@[i] by {
                assert(before[i] == old(out)@[i]);
            }
        }
        x += 1;
    }
    let mut used: usize = width * size;
    while used < step
        invariant
            width == image@.width,
            size == P::wire_size(),
            row == row_bytes(image@, y as int),
            row.len() == step,
            width * size <= used <= step,
            old(out)@.len() == start,
            out@.len() == start + used,
            forall|i: int| 0 <= i < start ==> #[trigger] out@[i] == old(out)@[i],
            forall|i: int| 0 <= i < used ==> #[trigger] out@[start + i] == row[i],
        decreases step - used,
    {
        let ghost before = out@;
        out.push(0);
        proof {
            assert forall|i: int| 0 <= i < used + 1 implies #[trigger] out@[start + i] == row[
                i] by {
                if i < used {
                    assert(before[start + i] == row[i]);
                }
            }
            assert forall|i: int| 0 <= i < start implies #[trigger] out@[i] == old(out)@[i] by {
                assert(before[i] == old(out)@[i]);
            }
        }
        used += 1;
    }
    proof {
        assert forall|i: int| 0 <= i < out@.len() implies out@[i] == (old(out)@ + row)[i] by {
            if i >= start {
                assert(out@[start + (i - start)] == row[i - start]);
            }
        }
        assert(out@ =~= old(out)@ + row);
    }
}

/// Appends all rows, the lowest one first.
fn write_rows<P: WirePixel>(out: &mut Vec<u8>, image: &Image<P>, size: usize, step: usize)
    requires
        size == P::wire_size(),
        step == pixels::stride(image@.width as int, 8 * P::wire_size()),
    ensures
        final(out)@ == old(out)@ + rows_bytes(image@, image@.height as int),
{
    let height: usize = image.height();
    let mut count: usize = 0;
    assert(out@ =~= old(out)@ + rows_bytes(image@, 0));
    while count < height
        invariant
            height == image@.height,
            size == P::wire_size(),
            step == pixels::stride(image@.width as int, 8 * P::wire_size()),
            count <= height,
            out@ == old(out)@ + rows_bytes(image@, count as int),
        decreases height - count,
    {
        write_row(out, image, height - 1 - count, size, step);
        assert(out@ =~= old(out)@ + rows_bytes(image@, count + 1));
        count += 1;
    }
}

proof fn lemma_sizes<P: WirePixel>(image: Raster<P>, pixel_offset: int)
    requires
        fits_fields(image, pixel_offset),
        0 <= pixel_offset,
        image.height > 0,
    ensures
        0 <= pixels::stride(image.width as int, 8 * P::wire_size()) <= pixel_data_size(image),
        0 <= pixel_data_size(image) <= u32::MAX,
{
    P::lemma_wire_size_small();
    let step = pixels::stride(image.width as int, 8 * P::wire_size());
    assert(0 <= image.width * (8 * P::wire_size())) by (nonlinear_arith)
        requires
            0 <= image.width,
            1 <= P::wire_size(),
    ;
    assert(step <= step * image.height && 0 <= step * image.height) by (nonlinear_arith)
        requires
            0 <= step,
            1 <= image.height,
    ;
}

/// The size of the pixel data, which the headers hold as a 32-bit number.
fn stored_size<P: WirePixel>(image: &Image<P>, bit_count: u32, pixel_offset: u32) -> (size: u32)
    requires
        bit_count == 8 * P::wire_size(),
        fits_fields(image@, pixel_offset as int),
    ensures
        size == pixel_data_size(image@),
{
    if image.height() == 0 {
        assert(pixel_data_size(image@) == 0) by (nonlinear_arith)
            requires
                image@.height == 0,
                pixel_data_size(image@) == pixels::stride(
                    image@.width as int,
                    8 * P::wire_size(),
                ) * image@.height,
        ;
        return 0;
    }
    proof {
        lemma_sizes(image@, pixel_offset as int);
    }
    let step: usize = row_stride(image.width() as u32, bit_count);
    step as u32 * image.height() as u32
}

/// Appends the pixel data.
fn write_all_rows<P: WirePixel>(
    out: &mut Vec<u8>,
    image: &Image<P>,
    bit_count: u32,
    pixel_offset: u32,
)
    requires
        bit_count == 8 * P::wire_size(),
        fits_fields(image@, pixel_offset as int),
    ensures
        final(out)@ == old(out)@ + rows_bytes(image@, image@.height as int),
{
    if image.height() == 0 {
        assert(out@ =~= old(out)@ + rows_bytes(image@, 0));
        return;
    }
    proof {
        lemma_sizes(image@, pixel_offset as int);
    }
    let step: usize = row_stride(image.width() as u32, bit_count);
    write_rows(out, image, (bit_count / 8) as usize, step);
}

/// Appends a colour table.
fn write_table(out: &mut Vec<u8>, palette: &[Srgba8])
    ensures
        final(out)@ == old(out)@ + table_bytes(palette@),
{
    let mut i: usize = 0;
    assert(out@ =~= old(out)@ + table_bytes(palette@.take(0)));
    while i < palette.len()
        invariant
            i <= palette@.len(),
            out@ == old(out)@ + table_bytes(palette@.take(i as int)),
        decreases palette@.len() - i,
    {
        let entry: Srgba8 = palette[i];
        out.push(entry.b);
        out.push(entry.g);
        out.push(entry.r);
        out.push(0);
        assert(out@ =~= old(out)@ + table_bytes(palette@.take(i + 1)));
        i += 1;
    }
    assert(palette@.take(palette@.len() as int) =~= palette@);
}

/// Where the pixel data of a truecolour file starts.
fn truecolor_start<P: BmpPixel>() -> (offset: u32)
    ensures
        offset == truecolor_offset::<P>(),
{
    if P::BMP_HAS_ALPHA {
        70
    } else {
        54
    }
}

/// Tests whether the file of an image fits the 32-bit fields of the headers.
fn check_fields<P: WirePixel>(image: &Image<P>, bit_count: u32, pixel_offset: u32) -> (b: bool)
    requires
        bit_count == 8 * P::wire_size(),
    ensures
        b == fits_fields(image@, pixel_offset as int),
{
    proof {
        P::lemma_wire_size_small();
    }
    if image.width() > u32::MAX as usize || image.height() > u32::MAX as usize {
        return false;
    }
    let width: u128 = image.width() as u128;
    let height: u128 = image.height() as u128;
    assert(0 <= width * bit_count <= 0xFFFF_FFFF * 32) by (nonlinear_arith)
        requires
            0 <= width <= 0xFFFF_FFFF,
            8 <= bit_count <= 32,
    ;
    let step: u128 = (width * bit_count as u128 + 31) / 32 * 4;
    assert(0 <= step * height <= 0x4_0000_0000 * 0xFFFF_FFFF) by (nonlinear_arith)
        requires
            0 <= step <= 0x4_0000_0000,
            0 <= height <= 0xFFFF_FFFF,
    ;
    pixel_offset as u128 + step * height <= u32::MAX as u128
}

/// Tests whether a BMP file can hold an image: its size is a 32-bit field.
pub fn can_encode<P: BmpPixel>(image: &Image<P>) -> (b: bool)
    ensures
        b == encodable(image@),
{
    proof {
        P::lemma_parameters();
    }
    check_fields(image, P::BMP_BIT_COUNT as u32, truecolor_start::<P>())
}

/// Tests whether a BMP file can hold an indexed image with a palette of the
/// given length.
pub fn can_encode_indexed(image: &Image<Indexed8>, entries: usize) -> (b: bool)
    requires
        entries <= 256,
    ensures
        b == fits_fields(image@, 54 + 4 * entries),
{
    check_fields(image, 8, 54 + 4 * entries as u32)
}

/// Tests whether a BMP file can hold a decoded image.
pub fn can_encode_bmp_image(image: &BmpImage) -> (b: bool)
    ensures
        b == encodable_image(image@),
{
    match image {
        BmpImage::Indexed8 { data, .. } => can_encode_indexed(data, 256),
        BmpImage::Srgb8(img) => can_encode(img),
        BmpImage::Srgba8(img) => can_encode(img),
    }
}

/// Encodes an image to an in-memory BMP byte vector.
///
/// Only pixel types implementing [`BmpPixel`] can be encoded: [`Srgb8`]
/// (24-bit `BI_RGB`) and [`Srgba8`] (32-bit `BI_BITFIELDS` with explicit
/// channel masks).
pub fn encode<P: BmpPixel>(image: &Image<P>, options: &BmpEncodeOptions) -> (r: Result<
    Vec<u8>,
    IoError,
>)
    requires
        encodable(image@),
    ensures
        r matches Ok(bytes) && bytes@ == truecolor_file(image@, *options),
{
    let width: u32 = image.width() as u32;
    let height: u32 = image.height() as u32;
    proof {
        P::lemma_parameters();
        P::lemma_wire_size_small();
    }
    let data_size: u32 = stored_size(image, P::BMP_BIT_COUNT as u32, truecolor_start::<P>());
    let pixel_offset: u32 = truecolor_start::<P>();
    let compression: u32 = if P::BMP_HAS_ALPHA {
        BI_BITFIELDS
    } else {
        BI_RGB
    };
    let mut out: Vec<u8> = Vec::new();
    write_file_header(&mut out, pixel_offset + data_size, pixel_offset);
    write_info_header(
        &mut out,
        width,
        height,
        P::BMP_BIT_COUNT,
        compression,
        data_size,
        options,
        0,
    );
    if P::BMP_HAS_ALPHA {
        write_masks(&mut out);
    }
    write_all_rows(&mut out, image, P::BMP_BIT_COUNT as u32, pixel_offset);
    assert(out@ =~= truecolor_file(image@, *options));
    Ok(out)
}

/// Objects to a palette that cannot be written, or to indices beyond it.
pub fn check_palette(image: &Image<Indexed8>, palette: &[Srgba8]) -> (e: Option<IoError>)
    ensures
        e == palette_error(image@, palette@),
{
    if palette.len() == 0 || palette.len() > 256 {
        return Some(
            IoError::EncodeFailed {
                source: EncodeSource::Message("palette must have 1\u{2013}256 entries"),
            },
        );
    }
    let indices: &[Indexed8] = image.as_slice();
    let mut i: usize = 0;
    while i < indices.len()
        invariant
            indices@ == image@.pixels,
            0 < palette@.len() <= 256,
            i <= indices@.len(),
            forall|k: int| 0 <= k < i ==> (#[trigger] image@.pixels[k]).0 < palette@.len(),
        decreases indices@.len() - i,
    {
        if indices[i].0 as usize >= palette.len() {
            assert(image@.pixels[i as int].0 >= palette@.len());
            return Some(
                IoError::EncodeFailed {
                    source: EncodeSource::Message("pixel index exceeds palette size"),
                },
            );
        }
        i += 1;
    }
    None
}

/// Encodes a palette-indexed image to an in-memory BMP byte vector: an 8-bit
/// indexed BMP with a colour table.
///
/// # Errors
///
/// - The palette must have 1 to 256 entries.
/// - All pixel indices must be within the palette range.
pub fn encode_indexed(
    image: &Image<Indexed8>,
    palette: &[Srgba8],
    options: &BmpEncodeOptions,
) -> (r: Result<Vec<u8>, IoError>)
    requires
        palette_error(image@, palette@) is None ==> encodable_indexed(image@, palette@),
    ensures
        match palette_error(image@, palette@) {
            Some(e) => r == Err::<Vec<u8>, IoError>(e),
            None => r matches Ok(bytes) && bytes@ == indexed_file(image@, palette@, *options),
        },
{
    if let Some(e) = check_palette(image, palette) {
        return Err(e);
    }
    let width: u32 = image.width() as u32;
    let height: u32 = image.height() as u32;
    let pixel_offset: u32 = 54 + 4 * palette.len() as u32;
    let data_size: u32 = stored_size(image, 8, pixel_offset);
    let mut out: Vec<u8> = Vec::new();
    write_file_header(&mut out, pixel_offset + data_size, pixel_offset);
    write_info_header(
        &mut out,
        width,
        height,
        8,
        BI_RGB,
        data_size,
        options,
        palette.len() as u32,
    );
    write_table(&mut out, palette);
    write_all_rows(&mut out, image, 8, pixel_offset);
    assert(out@ =~= indexed_file(image@, palette@, *options));
    Ok(out)
}

/// The error for an image that cannot be encoded; `None` where it can.
pub open spec fn image_error(image: BmpImageModel) -> Option<IoError> {
    match image {
        BmpImageModel::Indexed8 { data, palette } => palette_error(data, palette),
        _ => None,
    }
}

/// Objects to an image that cannot be encoded. There is none: a palette of 256
/// entries has one for every index.
pub fn check_image(image: &BmpImage) -> (e: Option<IoError>)
    ensures
        e == image_error(image@),
{
    match image {
        BmpImage::Indexed8 { data, palette } => check_palette(data, palette.as_slice()),
        _ => None,
    }
}

/// A decoded image can be encoded if its file fits the fields of the headers.
pub open spec fn encodable_image(image: BmpImageModel) -> bool {
    match image {
        BmpImageModel::Indexed8 { data, palette } => encodable_indexed(data, palette),
        BmpImageModel::Srgb8(raster) => encodable(raster),
        BmpImageModel::Srgba8(raster) => encodable(raster),
    }
}

/// The file of a decoded image.
pub open spec fn image_file(image: BmpImageModel, options: BmpEncodeOptions) -> Seq<u8> {
    match image {
        BmpImageModel::Indexed8 { data, palette } => indexed_file(data, palette, options),
        BmpImageModel::Srgb8(raster) => truecolor_file(raster, options),
        BmpImageModel::Srgba8(raster) => truecolor_file(raster, options),
    }
}

/// Encodes a [`BmpImage`] back to BMP bytes: [`encode`] for the truecolour
/// variants and [`encode_indexed`] for the indexed one.
///
/// # Errors
///
/// An indexed image whose indices exceed its palette, as for
/// [`encode_indexed`].
pub fn encode_bmp_image(image: &BmpImage, options: &BmpEncodeOptions) -> (r: Result<
    Vec<u8>,
    IoError,
>)
    requires
        image_error(image@) is None ==> encodable_image(image@),
    ensures
        match image_error(image@) {
            Some(e) => r == Err::<Vec<u8>, IoError>(e),
            None => r matches Ok(bytes) && bytes@ == image_file(image@, *options),
        },
{
    match image {
        BmpImage::Indexed8 { data, palette } => encode_indexed(data, palette.as_slice(), options),
        BmpImage::Srgb8(img) => encode(img, options),
        BmpImage::Srgba8(img) => encode(img, options),
    }
}

/// Maps an I/O error of the output into `IoError::EncodeFailed`.
pub fn encode_error(e: std::io::Error) -> (r: IoError)
    ensures
        r == (IoError::EncodeFailed { source: EncodeSource::Io(e) }),
{
    IoError::EncodeFailed { source: EncodeSource::Io(e) }
}

} // verus!
