//! The colour table.

use vstd::prelude::*;
use crate::bmp::header::{BmpDibHeader, FILE_HEADER_SIZE};
use crate::error::IoError;
use crate::pixel::Srgba8;

verus! {

/// The number of palette entries that a table of `count` entries fills.
pub open spec fn entries_used(count: int) -> int {
    if count < 256 {
        count
    } else {
        256
    }
}

/// The palette of a colour table at `at`, or the error that it gives: `count`
/// entries in blue, green, red order, and opaque black beyond them.
pub open spec fn color_table(data: Seq<u8>, at: int, entry_size: int, count: int) -> Result<
    Seq<Srgba8>,
    IoError,
> {
    let used = entries_used(count);
    if used > 0 && data.len() < at + used * entry_size {
        Err(IoError::InvalidFormat { reason: "BMP file too short for color table" })
    } else {
        Ok(
            Seq::new(
                256,
                |i: int|
                    if i < used {
                        Srgba8 {
                            r: data[at + i * entry_size + 2],
                            g: data[at + i * entry_size + 1],
                            b: data[at + i * entry_size],
                            a: 255,
                        }
                    } else {
                        Srgba8 { r: 0, g: 0, b: 0, a: 255 }
                    },
            ),
        )
    }
}

/// The number of entries in the colour table of an indexed image.
pub open spec fn table_length(dib: BmpDibHeader) -> int {
    if dib.colors_used > 0 {
        dib.colors_used as int
    } else if dib.bit_count == 1 {
        2
    } else if dib.bit_count == 4 {
        16
    } else {
        256
    }
}

/// The palette of an indexed image, or the error that it gives.
pub open spec fn image_palette(dib: BmpDibHeader, data: Seq<u8>) -> Result<Seq<Srgba8>, IoError> {
    color_table(
        data,
        14 + dib.header_size,
        dib.color_table_entry_size as int,
        table_length(dib),
    )
}

/// Parses the colour table into a 256-entry palette.
///
/// `entry_size` is 3 for `BITMAPCOREHEADER` (BGR) or 4 for later headers, where
/// the fourth byte is reserved. Every entry is fully opaque, and entries beyond
/// the actual count are opaque black.
pub fn parse_color_table(data: &[u8], offset: usize, entry_size: u8, count: usize) -> (r: Result<
    Box<[Srgba8; 256]>,
    IoError,
>)
    requires
        entry_size >= 3,
    ensures
        match color_table(data@, offset as int, entry_size as int, count as int) {
            Ok(entries) => r matches Ok(palette) && palette@ == entries,
            Err(e) => r == Err::<Box<[Srgba8; 256]>, IoError>(e),
        },
{
    let used: usize = if count < 256 {
        count
    } else {
        256
    };
    let step: usize = entry_size as usize;
    let limit: usize = data.len();
    assert(used * step <= 256 * 255) by (nonlinear_arith)
        requires
            used <= 256,
            step <= 255,
    ;
    if used > 0 && (limit < used * step || offset > limit - used * step) {
        return Err(IoError::InvalidFormat { reason: "BMP file too short for color table" });
    }
    let mut palette: [Srgba8; 256] = [Srgba8 { r: 0, g: 0, b: 0, a: 255 };256];
    let mut i: usize = 0;
    while i < used
        invariant
            i <= used <= 256,
            step == entry_size,
            3 <= step <= 255,
            limit == data@.len(),
            offset + used * step <= limit || used == 0,
            used == entries_used(count as int),
            forall|k: int|
                0 <= k < 256 ==> #[trigger] palette@[k] == if k < i {
                    Srgba8 {
                        r: data@[offset + k * step + 2],
                        g: data@[offset + k * step + 1],
                        b: data@[offset + k * step],
                        a: 255,
                    }
                } else {
                    Srgba8 { r: 0, g: 0, b: 0, a: 255 }
                },
        decreases used - i,
    {
        assert(0 <= i * step && i * step + step <= used * step) by (nonlinear_arith)
            requires
                i < used,
                0 < step,
        ;
        let entry: usize = offset + i * step;
        palette[i] = Srgba8::new(data[entry + 2], data[entry + 1], data[entry], 255);
        i += 1;
    }
    proof {
        let entries = color_table(data@, offset as int, entry_size as int, count as int)->Ok_0;
        assert(palette@ =~= entries);
    }
    Ok(Box::new(palette))
}

/// Parses the palette of an indexed image.
pub fn parse_image_palette(dib: &BmpDibHeader, data: &[u8]) -> (r: Result<
    Box<[Srgba8; 256]>,
    IoError,
>)
    requires
        dib.wf(),
    ensures
        match image_palette(*dib, data@) {
            Ok(entries) => r matches Ok(palette) && palette@ == entries,
            Err(e) => r == Err::<Box<[Srgba8; 256]>, IoError>(e),
        },
{
    let count: usize = if dib.colors_used > 0 {
        dib.colors_used as usize
    } else if dib.bit_count == 1 {
        2
    } else if dib.bit_count == 4 {
        16
    } else {
        256
    };
    parse_color_table(
        data,
        FILE_HEADER_SIZE + dib.header_size as usize,
        dib.color_table_entry_size,
        count,
    )
}

} // verus!
