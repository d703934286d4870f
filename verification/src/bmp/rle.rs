//! Run-length encoded pixel data.
//!
//! A stream is a series of two-byte commands that move a cursor over the
//! image and paint indices at it. Rows are painted in file order, and what no
//! command paints stays index 0.

use vstd::prelude::*;
use crate::error::{DecodeSource, IoError};

verus! {

/// The two run-length encodings, named after the bits per index.
#[derive(Debug, Clone, Copy, PartialEq, Eq, Structural)]
pub enum RleFormat {
    /// One index per byte.
    Rle8,
    /// Two indices per byte, the high half first.
    Rle4,
}

/// What can be wrong with a run-length encoded stream.
#[derive(Debug, Clone, Copy, PartialEq, Eq, Structural)]
pub enum RleFault {
    /// A pixel was painted below the last row.
    OutOfBounds,
    /// The stream ends inside a cursor movement.
    DeltaTruncated,
    /// The stream ends inside a literal run.
    LiteralTruncated,
}

/// The error that reports a fault.
pub open spec fn rle_error(format: RleFormat, fault: RleFault) -> IoError {
    let msg: &'static str = match (format, fault) {
        (RleFormat::Rle8, RleFault::OutOfBounds) => "RLE8 data exceeds image bounds",
        (RleFormat::Rle8, RleFault::DeltaTruncated) => "RLE8 delta truncated",
        (RleFormat::Rle8, RleFault::LiteralTruncated) => "RLE8 absolute mode truncated",
        (RleFormat::Rle4, RleFault::OutOfBounds) => "RLE4 data exceeds image bounds",
        (RleFormat::Rle4, RleFault::DeltaTruncated) => "RLE4 delta truncated",
        (RleFormat::Rle4, RleFault::LiteralTruncated) => "RLE4 absolute mode truncated",
    };
    IoError::DecodeFailed { source: DecodeSource::Message(msg) }
}

/// The half of a byte that holds index number `i` of a packed series: the high
/// half for even `i`, the low half for odd `i`.
pub open spec fn nibble(byte: u8, i: int) -> u8 {
    if i % 2 == 0 {
        byte / 16
    } else {
        byte % 16
    }
}

/// Index number `i` of a run that repeats `byte`.
pub open spec fn run_index(format: RleFormat, byte: u8, i: int) -> u8 {
    match format {
        RleFormat::Rle8 => byte,
        RleFormat::Rle4 => nibble(byte, i),
    }
}

/// Index number `i` of a literal run whose bytes start at `at`.
pub open spec fn literal_index(format: RleFormat, data: Seq<u8>, at: int, i: int) -> u8 {
    match format {
        RleFormat::Rle8 => data[at + i],
        RleFormat::Rle4 => nibble(data[at + i / 2], i),
    }
}

/// The number of bytes that hold a literal run of `count` indices.
pub open spec fn literal_bytes(format: RleFormat, count: int) -> int {
    match format {
        RleFormat::Rle8 => count,
        RleFormat::Rle4 => (count + 1) / 2,
    }
}

/// `out` with `count` indices painted from column `x` of row `y` on, where
/// index number `i` is `ink(i)`. What would lie right of the image is dropped.
pub open spec fn painted(
    out: Seq<u8>,
    width: int,
    x: int,
    y: int,
    count: int,
    ink: spec_fn(int) -> u8,
) -> Seq<u8> {
    let start = y * width + x;
    Seq::new(
        out.len(),
        |i: int|
            if start <= i < start + count && i < y * width + width {
                ink(i - start)
            } else {
                out[i]
            },
    )
}

/// What the commands from `pos` on make of `out`, with the cursor in column
/// `x` of row `y`.
pub open spec fn rle_painted(
    format: RleFormat,
    data: Seq<u8>,
    pos: int,
    width: int,
    height: int,
    x: int,
    y: int,
    out: Seq<u8>,
) -> Result<Seq<u8>, RleFault>
    decreases data.len() + 1 - pos,
{
    if pos < 0 || pos + 2 > data.len() {
        // No further command.
        Ok(out)
    } else {
        let first = data[pos] as int;
        let second = data[pos + 1];
        let next = pos + 2;
        if first > 0 {
            // A run.
            if y >= height {
                Err(RleFault::OutOfBounds)
            } else {
                let drawn = painted(out, width, x, y, first, |i: int| run_index(format, second, i));
                rle_painted(format, data, next, width, height, x + first, y, drawn)
            }
        } else if second == 0 {
            // End of line.
            rle_painted(format, data, next, width, height, 0, y + 1, out)
        } else if second == 1 {
            // End of bitmap.
            Ok(out)
        } else if second == 2 {
            // Move the cursor.
            if next + 2 > data.len() {
                Err(RleFault::DeltaTruncated)
            } else {
                rle_painted(
                    format,
                    data,
                    next + 2,
                    width,
                    height,
                    x + data[next],
                    y + data[next + 1],
                    out,
                )
            }
        } else {
            // A literal run, padded to an even number of bytes.
            let count = second as int;
            let size = literal_bytes(format, count);
            if next >= data.len() {
                Err(RleFault::LiteralTruncated)
            } else if y >= height {
                Err(RleFault::OutOfBounds)
            } else if next + size > data.len() {
                Err(RleFault::LiteralTruncated)
            } else {
                let drawn = painted(
                    out,
                    width,
                    x,
                    y,
                    count,
                    |i: int| literal_index(format, data, next, i),
                );
                rle_painted(
                    format,
                    data,
                    next + size + size % 2,
                    width,
                    height,
                    x + count,
                    y,
                    drawn,
                )
            }
        }
    }
}

/// The indices that a stream paints, row by row in file order.
pub open spec fn rle_indices(
    format: RleFormat,
    data: Seq<u8>,
    width: int,
    height: int,
) -> Result<Seq<u8>, RleFault> {
    rle_painted(
        format,
        data,
        0,
        width,
        height,
        0,
        0,
        Seq::new((width * height) as nat, |i: int| 0u8),
    )
}

/// A cursor coordinate as the machine holds it: exact as far as it goes, and
/// beyond every image from there on.
spec fn clipped(v: int) -> int {
    if v <= usize::MAX {
        v
    } else {
        usize::MAX as int
    }
}

fn index_half(byte: u8, i: usize) -> (half: u8)
    ensures
        half == nibble(byte, i as int),
{
    if i % 2 == 0 {
        byte / 16
    } else {
        byte % 16
    }
}

/// Paints one index at column `x` of row `y`, unless that lies right of the
/// image. `start` is where the painting began and `i` how far it has come.
proof fn lemma_painted_step(
    out: Seq<u8>,
    width: int,
    height: int,
    x: int,
    y: int,
    i: int,
    ink: spec_fn(int) -> u8,
)
    requires
        out.len() == width * height,
        0 <= x,
        0 <= y < height,
        0 <= i,
        0 <= width,
    ensures
        x + i < width ==> 0 <= y * width + (x + i) < out.len() && painted(
            out,
            width,
            x,
            y,
            i + 1,
            ink,
        ) == painted(out, width, x, y, i, ink).update(y * width + (x + i), ink(i)),
        x + i >= width ==> painted(out, width, x, y, i + 1, ink) == painted(
            out,
            width,
            x,
            y,
            i,
            ink,
        ),
{
    if x + i < width {
        crate::image::lemma_index_in_area(x + i, y, width, height);
        assert(painted(out, width, x, y, i + 1, ink) =~= painted(out, width, x, y, i, ink).update(
            y * width + (x + i),
            ink(i),
        ));
    } else {
        assert(painted(out, width, x, y, i + 1, ink) =~= painted(out, width, x, y, i, ink));
    }
}

fn paint_run(
    format: RleFormat,
    out: &mut Vec<u8>,
    width: usize,
    height: usize,
    x: usize,
    y: usize,
    count: usize,
    byte: u8,
)
    requires
        old(out)@.len() == width * height,
        y < height,
        count <= 255,
    ensures
        final(out)@ == painted(
            old(out)@,
            width as int,
            x as int,
            y as int,
            count as int,
            |i: int| run_index(format, byte, i),
        ),
{
    let ghost ink = |i: int| run_index(format, byte, i);
    let ghost before = out@;
    let limit: usize = out.len();
    let mut i: usize = 0;
    assert(out@ =~= painted(before, width as int, x as int, y as int, 0, ink));
    while i < count
        invariant
            i <= count <= 255,
            y < height,
            before.len() == width * height,
            before.len() == limit,
            ink == (|i: int| run_index(format, byte, i)),
            out@ == painted(before, width as int, x as int, y as int, i as int, ink),
        decreases count - i,
    {
        let value: u8 = match format {
            RleFormat::Rle8 => byte,
            RleFormat::Rle4 => index_half(byte, i),
        };
        proof {
            lemma_painted_step(before, width as int, height as int, x as int, y as int, i as int, ink);
        }
        if x < width && i < width - x {
            proof {
                crate::image::lemma_index_in_area(x + i, y as int, width as int, height as int);
            }
            out[y * width + (x + i)] = value;
        }
        i += 1;
    }
}

fn paint_literal(
    format: RleFormat,
    out: &mut Vec<u8>,
    width: usize,
    height: usize,
    x: usize,
    y: usize,
    count: usize,
    data: &[u8],
    at: usize,
)
    requires
        old(out)@.len() == width * height,
        y < height,
        count <= 255,
        at + literal_bytes(format, count as int) <= data@.len(),
    ensures
        final(out)@ == painted(
            old(out)@,
            width as int,
            x as int,
            y as int,
            count as int,
            |i: int| literal_index(format, data@, at as int, i),
        ),
{
    let ghost ink = |i: int| literal_index(format, data@, at as int, i);
    let ghost before = out@;
    let limit: usize = out.len();
    let mut i: usize = 0;
    assert(out@ =~= painted(before, width as int, x as int, y as int, 0, ink));
    while i < count
        invariant
            i <= count <= 255,
            y < height,
            at + literal_bytes(format, count as int) <= data.len(),
            before.len() == width * height,
            before.len() == limit,
            ink == (|i: int| literal_index(format, data@, at as int, i)),
            out@ == painted(before, width as int, x as int, y as int, i as int, ink),
        decreases count - i,
    {
        let value: u8 = match format {
            RleFormat::Rle8 => data[at + i],
            RleFormat::Rle4 => index_half(data[at + i / 2], i),
        };
        proof {
            lemma_painted_step(before, width as int, height as int, x as int, y as int, i as int, ink);
        }
        if x < width && i < width - x {
            proof {
                crate::image::lemma_index_in_area(x + i, y as int, width as int, height as int);
            }
            out[y * width + (x + i)] = value;
        }
        i += 1;
    }
}

/// Painting right of every column the machine can name paints nothing.
proof fn lemma_painted_beyond(
    out: Seq<u8>,
    width: int,
    x: int,
    y: int,
    count: int,
    ink: spec_fn(int) -> u8,
)
    requires
        0 <= width <= usize::MAX,
        0 <= x,
    ensures
        painted(out, width, x, y, count, ink) == painted(out, width, clipped(x), y, count, ink),
{
    if x > usize::MAX {
        assert(painted(out, width, x, y, count, ink) =~= out);
        assert(painted(out, width, clipped(x), y, count, ink) =~= out);
    }
}

proof fn lemma_painting_keeps_length(
    format: RleFormat,
    data: Seq<u8>,
    pos: int,
    width: int,
    height: int,
    x: int,
    y: int,
    out: Seq<u8>,
)
    ensures
        rle_painted(format, data, pos, width, height, x, y, out) matches Ok(s) ==> s.len()
            == out.len(),
    decreases data.len() + 1 - pos,
{
    if 0 <= pos && pos + 2 <= data.len() {
        let first = data[pos] as int;
        let second = data[pos + 1];
        let next = pos + 2;
        if first > 0 {
            let drawn = painted(out, width, x, y, first, |i: int| run_index(format, second, i));
            lemma_painting_keeps_length(format, data, next, width, height, x + first, y, drawn);
        } else if second == 0 {
            lemma_painting_keeps_length(format, data, next, width, height, 0, y + 1, out);
        } else if second == 2 {
            if next + 2 <= data.len() {
                lemma_painting_keeps_length(
                    format,
                    data,
                    next + 2,
                    width,
                    height,
                    x + data[next],
                    y + data[next + 1],
                    out,
                );
            }
        } else if second > 2 {
            let count = second as int;
            let size = literal_bytes(format, count);
            let drawn = painted(
                out,
                width,
                x,
                y,
                count,
                |i: int| literal_index(format, data, next, i),
            );
            if next + size <= data.len() {
                lemma_painting_keeps_length(
                    format,
                    data,
                    next + size + size % 2,
                    width,
                    height,
                    x + count,
                    y,
                    drawn,
                );
            }
        }
    }
}

/// A stream that decompresses gives exactly one index per pixel, however few
/// of them it paints.
pub proof fn law_rle_fills_image(format: RleFormat, data: Seq<u8>, width: nat, height: nat)
    ensures
        rle_indices(format, data, width as int, height as int) matches Ok(s) ==> s.len() == width
            * height,
{
    lemma_painting_keeps_length(
        format,
        data,
        0,
        width as int,
        height as int,
        0,
        0,
        Seq::new((width * height) as nat, |i: int| 0u8),
    );
}

/// Decompresses a stream into one index per pixel, row by row in file order.
pub fn decompress(format: RleFormat, data: &[u8], width: usize, height: usize) -> (r: Result<
    Vec<u8>,
    RleFault,
>)
    requires
        width * height <= usize::MAX,
    ensures
        match rle_indices(format, data@, width as int, height as int) {
            Ok(indices) => r matches Ok(v) && v@ == indices,
            Err(fault) => r == Err::<Vec<u8>, RleFault>(fault),
        },
{
    let mut out: Vec<u8> = vec![0u8; width * height];
    let mut x: usize = 0;
    let mut y: usize = 0;
    let mut pos: usize = 0;
    let ghost mut gx: int = 0;
    let ghost mut gy: int = 0;
    let ghost goal = rle_indices(format, data@, width as int, height as int);
    assert(out@ =~= Seq::new((width * height) as nat, |i: int| 0u8));
    while pos < data.len() && data.len() - pos >= 2
        invariant_except_break
            goal == rle_painted(
                format,
                data@,
                pos as int,
                width as int,
                height as int,
                gx,
                gy,
                out@,
            ),
        invariant
            goal == rle_indices(format, data@, width as int, height as int),
            0 <= pos <= data.len(),
            out@.len() == width * height,
            0 <= gx,
            0 <= gy,
            x == clipped(gx),
            y == clipped(gy),
        ensures
            goal == Ok::<Seq<u8>, RleFault>(out@),
        decreases data@.len() - pos,
    {
        let first: u8 = data[pos];
        let second: u8 = data[pos + 1];
        pos += 2;
        if first > 0 {
            if y >= height {
                return Err(RleFault::OutOfBounds);
            }
            proof {
                lemma_painted_beyond(
                    out@,
                    width as int,
                    gx,
                    gy,
                    first as int,
                    |i: int| run_index(format, second, i),
                );
            }
            paint_run(format, &mut out, width, height, x, y, first as usize, second);
            x = x.saturating_add(first as usize);
            proof {
                gx = gx + first as int;
            }
        } else if second == 0 {
            x = 0;
            y = y.saturating_add(1);
            proof {
                gx = 0;
                gy = gy + 1;
            }
        } else if second == 1 {
            break;
        } else if second == 2 {
            if data.len() - pos < 2 {
                return Err(RleFault::DeltaTruncated);
            }
            x = x.saturating_add(data[pos] as usize);
            y = y.saturating_add(data[pos + 1] as usize);
            proof {
                gx = gx + data@[pos as int] as int;
                gy = gy + data@[pos + 1] as int;
            }
            pos += 2;
        } else {
            let count: usize = second as usize;
            let size: usize = match format {
                RleFormat::Rle8 => count,
                RleFormat::Rle4 => (count + 1) / 2,
            };
            if pos >= data.len() {
                return Err(RleFault::LiteralTruncated);
            }
            if y >= height {
                return Err(RleFault::OutOfBounds);
            }
            if data.len() - pos < size {
                return Err(RleFault::LiteralTruncated);
            }
            proof {
                lemma_painted_beyond(
                    out@,
                    width as int,
                    gx,
                    gy,
                    count as int,
                    |i: int| literal_index(format, data@, pos as int, i),
                );
            }
            paint_literal(format, &mut out, width, height, x, y, count, data, pos);
            x = x.saturating_add(count);
            proof {
                gx = gx + count as int;
            }
            assert(goal == rle_painted(
                format,
                data@,
                pos + size + size % 2,
                width as int,
                height as int,
                gx,
                gy,
                out@,
            ));
            pos += size;
            if size % 2 == 1 && pos < data.len() {
                pos += 1;
            }
        }
    }
    Ok(out)
}

fn rle_failed(format: RleFormat, fault: RleFault) -> (e: IoError)
    ensures
        e == rle_error(format, fault),
{
    let msg: &'static str = match (format, fault) {
        (RleFormat::Rle8, RleFault::OutOfBounds) => "RLE8 data exceeds image bounds",
        (RleFormat::Rle8, RleFault::DeltaTruncated) => "RLE8 delta truncated",
        (RleFormat::Rle8, RleFault::LiteralTruncated) => "RLE8 absolute mode truncated",
        (RleFormat::Rle4, RleFault::OutOfBounds) => "RLE4 data exceeds image bounds",
        (RleFormat::Rle4, RleFault::DeltaTruncated) => "RLE4 delta truncated",
        (RleFormat::Rle4, RleFault::LiteralTruncated) => "RLE4 absolute mode truncated",
    };
    IoError::DecodeFailed { source: DecodeSource::Message(msg) }
}

/// Decompresses RLE8 pixel data into a flat buffer of 8-bit indices.
pub fn decompress_rle8(data: &[u8], width: usize, height: usize) -> (r: Result<Vec<u8>, IoError>)
    requires
        width * height <= usize::MAX,
    ensures
        match rle_indices(RleFormat::Rle8, data@, width as int, height as int) {
            Ok(indices) => r matches Ok(v) && v@ == indices,
            Err(fault) => r == Err::<Vec<u8>, IoError>(rle_error(RleFormat::Rle8, fault)),
        },
{
    match decompress(RleFormat::Rle8, data, width, height) {
        Ok(v) => Ok(v),
        Err(fault) => Err(rle_failed(RleFormat::Rle8, fault)),
    }
}

/// Decompresses RLE4 pixel data into a flat buffer of 8-bit indices.
pub fn decompress_rle4(data: &[u8], width: usize, height: usize) -> (r: Result<Vec<u8>, IoError>)
    requires
        width * height <= usize::MAX,
    ensures
        match rle_indices(RleFormat::Rle4, data@, width as int, height as int) {
            Ok(indices) => r matches Ok(v) && v@ == indices,
            Err(fault) => r == Err::<Vec<u8>, IoError>(rle_error(RleFormat::Rle4, fault)),
        },
{
    match decompress(RleFormat::Rle4, data, width, height) {
        Ok(v) => Ok(v),
        Err(fault) => Err(rle_failed(RleFormat::Rle4, fault)),
    }
}

/// The commands from `pos` on include one that ends the bitmap.
pub open spec fn meets_end(format: RleFormat, data: Seq<u8>, pos: int) -> bool
    decreases data.len() + 1 - pos,
{
    if pos < 0 || pos + 2 > data.len() {
        false
    } else if data[pos] > 0 || data[pos + 1] == 0 {
        meets_end(format, data, pos + 2)
    } else if data[pos + 1] == 1 {
        true
    } else if data[pos + 1] == 2 {
        pos + 4 <= data.len() && meets_end(format, data, pos + 4)
    } else {
        let size = literal_bytes(format, data[pos + 1] as int);
        pos + 2 + size <= data.len() && meets_end(format, data, pos + 2 + size + size % 2)
    }
}

/// The stream from `pos` on is a series of whole commands, and none of them
/// ends the bitmap.
pub open spec fn whole_commands(format: RleFormat, data: Seq<u8>, pos: int) -> bool
    decreases data.len() + 1 - pos,
{
    if pos < 0 || pos > data.len() {
        false
    } else if pos == data.len() {
        true
    } else if pos + 2 > data.len() {
        false
    } else if data[pos] > 0 || data[pos + 1] == 0 {
        whole_commands(format, data, pos + 2)
    } else if data[pos + 1] == 1 {
        false
    } else if data[pos + 1] == 2 {
        pos + 4 <= data.len() && whole_commands(format, data, pos + 4)
    } else {
        let size = literal_bytes(format, data[pos + 1] as int);
        let end = pos + 2 + size + size % 2;
        end <= data.len() && whole_commands(format, data, end)
    }
}

/// The command that ends the bitmap stands first.
pub open spec fn starts_with_end(data: Seq<u8>) -> bool {
    data.len() >= 2 && data[0] == 0 && data[1] == 1
}

proof fn lemma_painting_ignores_rest(
    format: RleFormat,
    data: Seq<u8>,
    more: Seq<u8>,
    pos: int,
    width: int,
    height: int,
    x: int,
    y: int,
    out: Seq<u8>,
)
    requires
        meets_end(format, data, pos) || whole_commands(format, data, pos) && starts_with_end(more),
    ensures
        rle_painted(format, data + more, pos, width, height, x, y, out) == rle_painted(
            format,
            data,
            pos,
            width,
            height,
            x,
            y,
            out,
        ),
    decreases data.len() + 1 - pos,
{
    let all = data + more;
    if pos == data.len() {
        assert(all[pos] == more[0] && all[pos + 1] == more[1]);
    } else {
        let first = data[pos] as int;
        let second = data[pos + 1];
        let next = pos + 2;
        assert(all[pos] == data[pos] && all[pos + 1] == data[pos + 1]);
        if first > 0 {
            let drawn = painted(out, width, x, y, first, |i: int| run_index(format, second, i));
            lemma_painting_ignores_rest(
                format,
                data,
                more,
                next,
                width,
                height,
                x + first,
                y,
                drawn,
            );
        } else if second == 0 {
            lemma_painting_ignores_rest(format, data, more, next, width, height, 0, y + 1, out);
        } else if second == 2 {
            assert(all[next] == data[next] && all[next + 1] == data[next + 1]);
            lemma_painting_ignores_rest(
                format,
                data,
                more,
                next + 2,
                width,
                height,
                x + data[next],
                y + data[next + 1],
                out,
            );
        } else if second > 2 {
            let count = second as int;
            let size = literal_bytes(format, count);
            let ink = |i: int| literal_index(format, data, next, i);
            let ink_all = |i: int| literal_index(format, all, next, i);
            let drawn = painted(out, width, x, y, count, ink);
            assert(painted(out, width, x, y, count, ink_all) =~= drawn) by {
                assert forall|i: int| 0 <= i < count implies #[trigger] ink_all(i) == ink(i) by {
                    let at = match format {
                        RleFormat::Rle8 => next + i,
                        RleFormat::Rle4 => next + i / 2,
                    };
                    assert(all[at] == data[at]);
                }
            }
            lemma_painting_ignores_rest(
                format,
                data,
                more,
                next + size + size % 2,
                width,
                height,
                x + count,
                y,
                drawn,
            );
        }
    }
}

/// Nothing behind the command that ends a bitmap matters.
pub proof fn law_rle_stops_at_end(
    format: RleFormat,
    data: Seq<u8>,
    more: Seq<u8>,
    width: nat,
    height: nat,
)
    requires
        meets_end(format, data, 0),
    ensures
        rle_indices(format, data + more, width as int, height as int) == rle_indices(
            format,
            data,
            width as int,
            height as int,
        ),
{
    let blank = Seq::new((width * height) as nat, |i: int| 0u8);
    lemma_painting_ignores_rest(
        format,
        data,
        more,
        0,
        width as int,
        height as int,
        0,
        0,
        blank,
    );
}

/// The command that ends the bitmap may be left out: whole commands paint the
/// same whether or not it follows, and whatever follows it.
pub proof fn law_rle_end_is_optional(
    format: RleFormat,
    data: Seq<u8>,
    more: Seq<u8>,
    width: nat,
    height: nat,
)
    requires
        whole_commands(format, data, 0),
    ensures
        rle_indices(format, data + (seq![0u8, 1u8] + more), width as int, height as int)
            == rle_indices(format, data, width as int, height as int),
{
    let blank = Seq::new((width * height) as nat, |i: int| 0u8);
    lemma_painting_ignores_rest(
        format,
        data,
        seq![0u8, 1u8] + more,
        0,
        width as int,
        height as int,
        0,
        0,
        blank,
    );
}

} // verus!
