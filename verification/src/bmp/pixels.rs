//! Uncompressed pixel data.
//!
//! Rows are stored one after the other, each padded to a multiple of four
//! bytes, from the bottom of the image up unless the header says otherwise.

use vstd::prelude::*;
use crate::bmp::header::BmpDibHeader;
use crate::bmp::le;
use crate::bmp::masks;
use crate::bmp::masks::{extract_channel, mask_info, BitfieldMasks, MaskInfo};
use crate::bmp::rle;
use crate::error::{DecodeSource, IoError};
use crate::image::{Image, Raster};
use crate::pixel::{Indexed8, Srgb8, Srgba8};

verus! {

/// The number of bytes that a row takes: its pixels, padded to a multiple of
/// four bytes.
pub open spec fn stride(width: int, bits: int) -> int {
    (width * bits + 31) / 32 * 4
}

/// The number of bytes that hold the first `count` pixels of a row.
pub open spec fn packed_bytes(count: int, bits: int) -> int {
    (count * bits + 7) / 8
}

/// The stored row that holds row `y` of the image.
pub open spec fn stored_row(dib: BmpDibHeader, y: int) -> int {
    if dib.top_down {
        y
    } else {
        dib.height - 1 - y
    }
}

/// Where row `y` of the image starts in the file.
pub open spec fn row_start(dib: BmpDibHeader, pixel_offset: int, bits: int, y: int) -> int {
    pixel_offset + stored_row(dib, y) * stride(dib.width as int, bits)
}

/// Where the last pixel of the last stored row ends in the file.
pub open spec fn pixels_end(dib: BmpDibHeader, pixel_offset: int, bits: int) -> int {
    pixel_offset + (dib.height - 1) * stride(dib.width as int, bits) + packed_bytes(
        dib.width as int,
        bits,
    )
}

/// Bytes per row, padded to a multiple of four.
fn row_bytes(width: u32, bits_per_pixel: u32) -> (bytes: u64)
    ensures
        bytes == stride(width as int, bits_per_pixel as int),
{
    assert(0 <= width * bits_per_pixel <= 0xFFFF_FFFF * 0xFFFF_FFFF) by (nonlinear_arith)
        requires
            0 <= width <= 0xFFFF_FFFF,
            0 <= bits_per_pixel <= 0xFFFF_FFFF,
    ;
    (width as u64 * bits_per_pixel as u64 + 31) / 32 * 4
}

/// Computes the byte stride of a BMP row (padded to a 4-byte boundary).
pub fn row_stride(width: u32, bits_per_pixel: u32) -> (bytes: usize)
    requires
        stride(width as int, bits_per_pixel as int) <= usize::MAX,
    ensures
        bytes == stride(width as int, bits_per_pixel as int),
{
    row_bytes(width, bits_per_pixel) as usize
}

/// A row is a multiple of four bytes long, holds all of its pixels, and has
/// less than four bytes to spare.
pub proof fn law_stride_is_tight(width: nat, bits: nat)
    ensures
        stride(width as int, bits as int) % 4 == 0,
        packed_bytes(width as int, bits as int) <= stride(width as int, bits as int)
            < packed_bytes(width as int, bits as int) + 4,
{
    assert(0 <= width * bits) by (nonlinear_arith);
}

/// How the pixels of a row are packed.
pub trait RowFormat: Sized {
    /// The pixels that come out.
    type Pixel;

    /// Bits per pixel.
    spec fn bits(&self) -> int;

    /// What the reader relies on.
    spec fn wf(&self) -> bool;

    /// Pixel number `x` of the row that starts at `row`.
    spec fn pixel(&self, data: Seq<u8>, row: int, x: int) -> Self::Pixel;

    /// Reads pixel number `x` of the row that starts at `row`.
    fn read(&self, data: &[u8], row: usize, x: usize) -> (p: Self::Pixel)
        requires
            self.wf(),
            row + packed_bytes(x + 1, self.bits()) <= data@.len(),
        ensures
            p == self.pixel(data@, row as int, x as int),
    ;

    /// The bits per pixel, as a number.
    fn bit_count(&self) -> (b: u32)
        requires
            self.wf(),
        ensures
            b == self.bits(),
            1 <= b <= 32,
    ;

    /// A pixel is read from the bytes of its row alone, wherever they lie.
    proof fn pixel_is_local(&self, a: Seq<u8>, p: int, b: Seq<u8>, q: int, width: int, x: int)
        requires
            0 <= x < width,
            same_bytes(a, p, b, q, packed_bytes(width, self.bits())),
        ensures
            self.pixel(a, p, x) == self.pixel(b, q, x),
    ;
}

/// Two stretches of `n` bytes hold the same.
pub open spec fn same_bytes(a: Seq<u8>, p: int, b: Seq<u8>, q: int, n: int) -> bool {
    &&& 0 <= p && p + n <= a.len()
    &&& 0 <= q && q + n <= b.len()
    &&& a.subrange(p, p + n) == b.subrange(q, q + n)
}

/// Each byte of such stretches is the same.
pub proof fn lemma_same_byte(a: Seq<u8>, p: int, b: Seq<u8>, q: int, n: int, i: int)
    requires
        same_bytes(a, p, b, q, n),
        0 <= i < n,
    ensures
        a[p + i] == b[q + i],
{
    assert(a.subrange(p, p + n)[i] == a[p + i]);
    assert(b.subrange(q, q + n)[i] == b[q + i]);
}

/// One bit per pixel, the leftmost pixel in the highest bit.
pub struct OneBit;

/// Four bits per pixel, the left pixel in the high half of the byte.
pub struct FourBit;

/// One byte per pixel.
pub struct EightBit;

/// Two bytes per pixel, with channel masks.
pub struct SixteenBit {
    /// The red channel.
    pub r: MaskInfo,
    /// The green channel.
    pub g: MaskInfo,
    /// The blue channel.
    pub b: MaskInfo,
}

/// Three bytes per pixel: blue, green, red.
pub struct TwentyFourBit;

/// Four bytes per pixel, with channel masks, without alpha.
pub struct ThirtyTwoBit {
    /// The red channel.
    pub r: MaskInfo,
    /// The green channel.
    pub g: MaskInfo,
    /// The blue channel.
    pub b: MaskInfo,
}

/// Four bytes per pixel, with channel masks, with alpha.
pub struct ThirtyTwoBitAlpha {
    /// The red channel.
    pub r: MaskInfo,
    /// The green channel.
    pub g: MaskInfo,
    /// The blue channel.
    pub b: MaskInfo,
    /// The alpha channel.
    pub a: MaskInfo,
}

/// The channel lies inside a 32-bit word.
pub open spec fn channel_in_word(info: MaskInfo) -> bool {
    info.shift < 32 && info.bits <= 32
}

/// The bit of a byte that holds pixel number `x` of a row.
pub open spec fn bit_index(byte: u8, x: int) -> u8 {
    (byte as nat / vstd::arithmetic::power2::pow2((7 - x % 8) as nat) % 2) as u8
}

impl RowFormat for OneBit {
    type Pixel = Indexed8;

    open spec fn bits(&self) -> int {
        1
    }

    open spec fn wf(&self) -> bool {
        true
    }

    open spec fn pixel(&self, data: Seq<u8>, row: int, x: int) -> Indexed8 {
        Indexed8(bit_index(data[row + x / 8], x))
    }

    fn read(&self, data: &[u8], row: usize, x: usize) -> (p: Indexed8) {
        let limit: usize = data.len();
        let byte: u8 = data[row + x / 8];
        let drop: u8 = 7 - (x % 8) as u8;
        proof {
            vstd::bits::lemma_u8_shr_is_div(byte, drop);
        }
        Indexed8((byte >> drop) % 2)
    }

    fn bit_count(&self) -> (b: u32) {
        1
    }

    proof fn pixel_is_local(&self, a: Seq<u8>, p: int, b: Seq<u8>, q: int, width: int, x: int) {
        let n = packed_bytes(width, 1);
        lemma_same_byte(a, p, b, q, n, x / 8);
    }
}

impl RowFormat for FourBit {
    type Pixel = Indexed8;

    open spec fn bits(&self) -> int {
        4
    }

    open spec fn wf(&self) -> bool {
        true
    }

    open spec fn pixel(&self, data: Seq<u8>, row: int, x: int) -> Indexed8 {
        Indexed8(rle::nibble(data[row + x / 2], x))
    }

    fn read(&self, data: &[u8], row: usize, x: usize) -> (p: Indexed8) {
        let limit: usize = data.len();
        let byte: u8 = data[row + x / 2];
        if x % 2 == 0 {
            Indexed8(byte / 16)
        } else {
            Indexed8(byte % 16)
        }
    }

    fn bit_count(&self) -> (b: u32) {
        4
    }

    proof fn pixel_is_local(&self, a: Seq<u8>, p: int, b: Seq<u8>, q: int, width: int, x: int) {
        let n = packed_bytes(width, 4);
        lemma_same_byte(a, p, b, q, n, x / 2);
    }
}

impl RowFormat for EightBit {
    type Pixel = Indexed8;

    open spec fn bits(&self) -> int {
        8
    }

    open spec fn wf(&self) -> bool {
        true
    }

    open spec fn pixel(&self, data: Seq<u8>, row: int, x: int) -> Indexed8 {
        Indexed8(data[row + x])
    }

    fn read(&self, data: &[u8], row: usize, x: usize) -> (p: Indexed8) {
        let limit: usize = data.len();
        Indexed8(data[row + x])
    }

    fn bit_count(&self) -> (b: u32) {
        8
    }

    proof fn pixel_is_local(&self, a: Seq<u8>, p: int, b: Seq<u8>, q: int, width: int, x: int) {
        let n = packed_bytes(width, 8);
        lemma_same_byte(a, p, b, q, n, x);
    }
}

impl RowFormat for SixteenBit {
    type Pixel = Srgb8;

    open spec fn bits(&self) -> int {
        16
    }

    open spec fn wf(&self) -> bool {
        channel_in_word(self.r) && channel_in_word(self.g) && channel_in_word(self.b)
    }

    open spec fn pixel(&self, data: Seq<u8>, row: int, x: int) -> Srgb8 {
        let value = le::le16(data, row + 2 * x) as u32;
        Srgb8 {
            r: masks::channel(value, self.r),
            g: masks::channel(value, self.g),
            b: masks::channel(value, self.b),
        }
    }

    fn read(&self, data: &[u8], row: usize, x: usize) -> (p: Srgb8) {
        let limit: usize = data.len();
        let value: u32 = le::read_u16_le(data, row + 2 * x).unwrap() as u32;
        Srgb8::new(
            extract_channel(value, self.r),
            extract_channel(value, self.g),
            extract_channel(value, self.b),
        )
    }

    fn bit_count(&self) -> (b: u32) {
        16
    }

    proof fn pixel_is_local(&self, a: Seq<u8>, p: int, b: Seq<u8>, q: int, width: int, x: int) {
        let n = packed_bytes(width, 16);
        lemma_same_byte(a, p, b, q, n, 2 * x);
        lemma_same_byte(a, p, b, q, n, 2 * x + 1);
    }
}

impl RowFormat for TwentyFourBit {
    type Pixel = Srgb8;

    open spec fn bits(&self) -> int {
        24
    }

    open spec fn wf(&self) -> bool {
        true
    }

    open spec fn pixel(&self, data: Seq<u8>, row: int, x: int) -> Srgb8 {
        Srgb8 { r: data[row + 3 * x + 2], g: data[row + 3 * x + 1], b: data[row + 3 * x] }
    }

    fn read(&self, data: &[u8], row: usize, x: usize) -> (p: Srgb8) {
        let limit: usize = data.len();
        let at: usize = row + 3 * x;
        Srgb8::new(data[at + 2], data[at + 1], data[at])
    }

    fn bit_count(&self) -> (b: u32) {
        24
    }

    proof fn pixel_is_local(&self, a: Seq<u8>, p: int, b: Seq<u8>, q: int, width: int, x: int) {
        let n = packed_bytes(width, 24);
        lemma_same_byte(a, p, b, q, n, 3 * x);
        lemma_same_byte(a, p, b, q, n, 3 * x + 1);
        lemma_same_byte(a, p, b, q, n, 3 * x + 2);
    }
}

impl RowFormat for ThirtyTwoBit {
    type Pixel = Srgb8;

    open spec fn bits(&self) -> int {
        32
    }

    open spec fn wf(&self) -> bool {
        channel_in_word(self.r) && channel_in_word(self.g) && channel_in_word(self.b)
    }

    open spec fn pixel(&self, data: Seq<u8>, row: int, x: int) -> Srgb8 {
        let value = le::le32(data, row + 4 * x);
        Srgb8 {
            r: masks::channel(value, self.r),
            g: masks::channel(value, self.g),
            b: masks::channel(value, self.b),
        }
    }

    fn read(&self, data: &[u8], row: usize, x: usize) -> (p: Srgb8) {
        let limit: usize = data.len();
        let value: u32 = le::read_u32_le(data, row + 4 * x).unwrap();
        Srgb8::new(
            extract_channel(value, self.r),
            extract_channel(value, self.g),
            extract_channel(value, self.b),
        )
    }

    fn bit_count(&self) -> (b: u32) {
        32
    }

    proof fn pixel_is_local(&self, a: Seq<u8>, p: int, b: Seq<u8>, q: int, width: int, x: int) {
        let n = packed_bytes(width, 32);
        lemma_same_byte(a, p, b, q, n, 4 * x);
        lemma_same_byte(a, p, b, q, n, 4 * x + 1);
        lemma_same_byte(a, p, b, q, n, 4 * x + 2);
        lemma_same_byte(a, p, b, q, n, 4 * x + 3);
    }
}

impl RowFormat for ThirtyTwoBitAlpha {
    type Pixel = Srgba8;

    open spec fn bits(&self) -> int {
        32
    }

    open spec fn wf(&self) -> bool {
        channel_in_word(self.r) && channel_in_word(self.g) && channel_in_word(self.b)
            && channel_in_word(self.a)
    }

    open spec fn pixel(&self, data: Seq<u8>, row: int, x: int) -> Srgba8 {
        let value = le::le32(data, row + 4 * x);
        Srgba8 {
            r: masks::channel(value, self.r),
            g: masks::channel(value, self.g),
            b: masks::channel(value, self.b),
            a: masks::channel(value, self.a),
        }
    }

    fn read(&self, data: &[u8], row: usize, x: usize) -> (p: Srgba8) {
        let limit: usize = data.len();
        let value: u32 = le::read_u32_le(data, row + 4 * x).unwrap();
        Srgba8::new(
            extract_channel(value, self.r),
            extract_channel(value, self.g),
            extract_channel(value, self.b),
            extract_channel(value, self.a),
        )
    }

    fn bit_count(&self) -> (b: u32) {
        32
    }

    proof fn pixel_is_local(&self, a: Seq<u8>, p: int, b: Seq<u8>, q: int, width: int, x: int) {
        let n = packed_bytes(width, 32);
        lemma_same_byte(a, p, b, q, n, 4 * x);
        lemma_same_byte(a, p, b, q, n, 4 * x + 1);
        lemma_same_byte(a, p, b, q, n, 4 * x + 2);
        lemma_same_byte(a, p, b, q, n, 4 * x + 3);
    }
}

/// The 16-bit layout that a set of masks describes.
pub open spec fn sixteen_bit(m: BitfieldMasks) -> SixteenBit {
    SixteenBit {
        r: masks::mask_layout(m.r),
        g: masks::mask_layout(m.g),
        b: masks::mask_layout(m.b),
    }
}

/// The 32-bit layout without alpha that a set of masks describes.
pub open spec fn thirty_two_bit(m: BitfieldMasks) -> ThirtyTwoBit {
    ThirtyTwoBit {
        r: masks::mask_layout(m.r),
        g: masks::mask_layout(m.g),
        b: masks::mask_layout(m.b),
    }
}

/// The 32-bit layout with alpha that a set of masks describes.
pub open spec fn thirty_two_bit_alpha(m: BitfieldMasks) -> ThirtyTwoBitAlpha {
    ThirtyTwoBitAlpha {
        r: masks::mask_layout(m.r),
        g: masks::mask_layout(m.g),
        b: masks::mask_layout(m.b),
        a: masks::mask_layout(m.a),
    }
}

impl SixteenBit {
    /// The layout that a set of masks describes.
    pub fn from_masks(m: BitfieldMasks) -> (f: Self)
        ensures
            f == sixteen_bit(m),
            f.wf(),
    {
        proof {
            masks::lemma_mask_layout_in_word(m.r);
            masks::lemma_mask_layout_in_word(m.g);
            masks::lemma_mask_layout_in_word(m.b);
        }
        SixteenBit { r: mask_info(m.r), g: mask_info(m.g), b: mask_info(m.b) }
    }
}

impl ThirtyTwoBit {
    /// The layout that a set of masks describes.
    pub fn from_masks(m: BitfieldMasks) -> (f: Self)
        ensures
            f == thirty_two_bit(m),
            f.wf(),
    {
        proof {
            masks::lemma_mask_layout_in_word(m.r);
            masks::lemma_mask_layout_in_word(m.g);
            masks::lemma_mask_layout_in_word(m.b);
        }
        ThirtyTwoBit { r: mask_info(m.r), g: mask_info(m.g), b: mask_info(m.b) }
    }
}

impl ThirtyTwoBitAlpha {
    /// The layout that a set of masks describes.
    pub fn from_masks(m: BitfieldMasks) -> (f: Self)
        ensures
            f == thirty_two_bit_alpha(m),
            f.wf(),
    {
        proof {
            masks::lemma_mask_layout_in_word(m.r);
            masks::lemma_mask_layout_in_word(m.g);
            masks::lemma_mask_layout_in_word(m.b);
            masks::lemma_mask_layout_in_word(m.a);
        }
        ThirtyTwoBitAlpha {
            r: mask_info(m.r),
            g: mask_info(m.g),
            b: mask_info(m.b),
            a: mask_info(m.a),
        }
    }
}

/// The image that the stored rows hold, read in the given layout.
pub open spec fn stored_image<F: RowFormat>(
    format: F,
    dib: BmpDibHeader,
    data: Seq<u8>,
    pixel_offset: int,
) -> Raster<F::Pixel> {
    Raster::tabulate(
        dib.width as nat,
        dib.height as nat,
        |x: int, y: int|
            format.pixel(data, row_start(dib, pixel_offset, format.bits(), y), x),
    )
}

proof fn lemma_extent_fits(width: int, height: int, bits: int)
    requires
        1 <= width <= i32::MAX,
        1 <= height <= i32::MAX + 1,
        1 <= bits <= 32,
    ensures
        0 <= stride(width, bits) <= 0x1_FFFF_FFFC,
        0 <= packed_bytes(width, bits) <= stride(width, bits),
        0 <= (height - 1) * stride(width, bits) <= 0x7FFF_FFFF * 0x1_FFFF_FFFC,
        0xFFFF_FFFF + (height - 1) * stride(width, bits) + packed_bytes(width, bits) <= u64::MAX,
{
    assert(0 <= width * bits <= 0x7FFF_FFFF * 32) by (nonlinear_arith)
        requires
            1 <= width <= 0x7FFF_FFFF,
            1 <= bits <= 32,
    ;
    let s = stride(width, bits);
    assert(0 <= (height - 1) * s <= 0x7FFF_FFFF * 0x1_FFFF_FFFC) by (nonlinear_arith)
        requires
            0 <= height - 1 <= 0x7FFF_FFFF,
            0 <= s <= 0x1_FFFF_FFFC,
    ;
}

proof fn lemma_row_in_extent(dib: BmpDibHeader, pixel_offset: int, bits: int, x: int, y: int)
    requires
        dib.wf(),
        0 <= pixel_offset,
        1 <= bits <= 32,
        0 <= x < dib.width,
        0 <= y < dib.height,
    ensures
        0 <= row_start(dib, pixel_offset, bits, y),
        row_start(dib, pixel_offset, bits, y) + packed_bytes(x + 1, bits) <= pixels_end(
            dib,
            pixel_offset,
            bits,
        ),
{
    let s = stride(dib.width as int, bits);
    let r = stored_row(dib, y);
    lemma_extent_fits(dib.width as int, dib.height as int, bits);
    assert(0 <= r * s <= (dib.height - 1) * s) by (nonlinear_arith)
        requires
            0 <= r <= dib.height - 1,
            0 <= s,
    ;
    assert((x + 1) * bits <= dib.width * bits) by (nonlinear_arith)
        requires
            0 <= x < dib.width,
            1 <= bits,
    ;
}

/// Reads an uncompressed image. The only failure is a file that ends before
/// the last pixel, which is reported as `truncated`.
pub fn read_rows<F: RowFormat>(
    format: &F,
    dib: &BmpDibHeader,
    data: &[u8],
    pixel_offset: u32,
    truncated: &'static str,
) -> (r: Result<Image<F::Pixel>, IoError>)
    requires
        format.wf(),
        dib.wf(),
    ensures
        if pixels_end(*dib, pixel_offset as int, format.bits()) > data@.len() {
            r == Err::<Image<F::Pixel>, IoError>(crate::error::decode_failure(truncated))
        } else {
            r matches Ok(image) && image@ == stored_image(
                *format,
                *dib,
                data@,
                pixel_offset as int,
            )
        },
{
    let bits: u32 = format.bit_count();
    let limit: usize = data.len();
    let width: usize = dib.width as usize;
    let height: usize = dib.height as usize;
    proof {
        lemma_extent_fits(dib.width as int, dib.height as int, bits as int);
    }
    let step: u64 = row_bytes(dib.width, bits);
    assert(0 <= width * bits <= 0xFFFF_FFFF * 32) by (nonlinear_arith)
        requires
            0 <= width <= 0xFFFF_FFFF,
            1 <= bits <= 32,
    ;
    let end: u64 = pixel_offset as u64 + (dib.height as u64 - 1) * step + (dib.width as u64
        * bits as u64 + 7) / 8;
    if end > limit as u64 {
        return Err(IoError::DecodeFailed { source: DecodeSource::Message(truncated) });
    }
    let mut pixels: Vec<F::Pixel> = Vec::new();
    let ghost value = |x: int, y: int|
        format.pixel(data@, row_start(*dib, pixel_offset as int, format.bits(), y), x);
    let mut y: usize = 0;
    while y < height
        invariant
            dib.wf(),
            format.wf(),
            bits == format.bits(),
            1 <= bits <= 32,
            limit == data@.len(),
            width == dib.width,
            height == dib.height,
            step == stride(width as int, bits as int),
            pixels_end(*dib, pixel_offset as int, bits as int) <= limit,
            value == (|x: int, y: int|
                format.pixel(data@, row_start(*dib, pixel_offset as int, format.bits(), y), x)),
            y <= height,
            pixels@.len() == y * width,
            forall|cx: int, cy: int|
                0 <= cx < width && 0 <= cy < y ==> #[trigger] pixels@[cy * width + cx] == value(
                    cx,
                    cy,
                ),
        decreases height - y,
    {
        let row: u64 = if dib.top_down {
            y as u64
        } else {
            (height - 1 - y) as u64
        };
        proof {
            lemma_row_in_extent(*dib, pixel_offset as int, bits as int, 0, y as int);
            lemma_extent_fits(dib.width as int, dib.height as int, bits as int);
            assert(0 <= row * step <= (height - 1) * step) by (nonlinear_arith)
                requires
                    0 <= row <= height - 1,
                    0 <= step,
            ;
        }
        let start: usize = (pixel_offset as u64 + row * step) as usize;
        let mut x: usize = 0;
        while x < width
            invariant
                dib.wf(),
                format.wf(),
                bits == format.bits(),
                1 <= bits <= 32,
                limit == data@.len(),
                width == dib.width,
                height == dib.height,
                pixels_end(*dib, pixel_offset as int, bits as int) <= limit,
                value == (|x: int, y: int|
                    format.pixel(
                        data@,
                        row_start(*dib, pixel_offset as int, format.bits(), y),
                        x,
                    )),
                y < height,
                start == row_start(*dib, pixel_offset as int, bits as int, y as int),
                x <= width,
                pixels@.len() == y * width + x,
                forall|cx: int, cy: int|
                    0 <= cx < width && 0 <= cy < y ==> #[trigger] pixels@[cy * width + cx]
                        == value(cx, cy),
                forall|cx: int|
                    0 <= cx < x ==> #[trigger] pixels@[y * width + cx] == value(cx, y as int),
            decreases width - x,
        {
            proof {
                lemma_row_in_extent(*dib, pixel_offset as int, bits as int, x as int, y as int);
            }
            let p = format.read(data, start, x);
            let ghost before = pixels@;
            pixels.push(p);
            proof {
                assert(pixels@[y * width + x] == value(x as int, y as int));
                assert forall|cx: int, cy: int| 0 <= cx < width && 0 <= cy < y implies
                    #[trigger] pixels@[cy * width + cx] == value(cx, cy) by {
                    crate::image::lemma_index_in_area(cx, cy, width as int, y as int);
                    assert(width * y == y * width) by (nonlinear_arith);
                    assert(before[cy * width + cx] == value(cx, cy));
                }
            }
            x += 1;
        }
        proof {
            assert((y + 1) * width == y * width + width) by (nonlinear_arith);
            assert forall|cx: int, cy: int| 0 <= cx < width && 0 <= cy < y + 1 implies
                #[trigger] pixels@[cy * width + cx] == value(cx, cy) by {
                if cy == y {
                    assert(pixels@[y * width + cx] == value(cx, y as int));
                }
            }
        }
        y += 1;
    }
    assert(height * width == width * height) by (nonlinear_arith);
    match Image::from_vec(width, height, pixels) {
        Some(image) => {
            proof {
                assert forall|x: int, y: int|
                    0 <= x < image@.width && 0 <= y < image@.height implies #[trigger] image@.at(
                    x,
                    y,
                ) == value(x, y) by {
                    assert(image@.pixels[y * width + x] == value(x, y));
                }
                crate::image::lemma_tabulated(image@, value);
            }
            Ok(image)
        },
        None => Err(
            IoError::DecodeFailed {
                source: DecodeSource::Message("pixel count does not match image dimensions"),
            },
        ),
    }
}

} // verus!
