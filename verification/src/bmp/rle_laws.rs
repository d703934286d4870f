//! What run-length encoded streams paint.
//!
//! Any series of indices can be written as runs of one index each, and any image
//! as rows of such runs. The laws say what such streams paint, and that every
//! other command is short for some of them or moves between them.

use vstd::prelude::*;
use crate::bmp::rle;
use crate::bmp::rle::{RleFault, RleFormat};

verus! {

/// A stream that paints a series of indices, each as a run of one.
pub open spec fn singles(format: RleFormat, series: Seq<u8>) -> Seq<u8>
    decreases series.len(),
{
    if series.len() == 0 {
        Seq::empty()
    } else {
        let byte = match format {
            RleFormat::Rle8 => series[0],
            RleFormat::Rle4 => (16 * series[0]) as u8,
        };
        seq![1u8, byte] + singles(format, series.drop_first())
    }
}

/// A stream that paints rows, each of them closed by the end of a line.
pub open spec fn lines(format: RleFormat, rows: Seq<Seq<u8>>) -> Seq<u8>
    decreases rows.len(),
{
    if rows.len() == 0 {
        Seq::empty()
    } else {
        singles(format, rows[0]) + (seq![0u8, 0u8] + lines(format, rows.drop_first()))
    }
}

/// The indices of a series can be written in the given format.
pub open spec fn fits(format: RleFormat, series: Seq<u8>) -> bool {
    format is Rle4 ==> forall|i: int| 0 <= i < series.len() ==> #[trigger] series[i] < 16
}

/// The indices of every row can be written in the given format.
pub open spec fn rows_fit(format: RleFormat, rows: Seq<Seq<u8>>) -> bool {
    forall|r: int| 0 <= r < rows.len() ==> #[trigger] fits(format, rows[r])
}

/// What a whole stream makes of `out`, with the cursor in column `x` of row `y`.
spec fn run_from(
    format: RleFormat,
    stream: Seq<u8>,
    width: int,
    height: int,
    x: int,
    y: int,
    out: Seq<u8>,
) -> Result<Seq<u8>, RleFault> {
    rle::rle_painted(format, stream, 0, width, height, x, y, out)
}

proof fn lemma_suffix(
    format: RleFormat,
    data: Seq<u8>,
    start: int,
    pos: int,
    width: int,
    height: int,
    x: int,
    y: int,
    out: Seq<u8>,
)
    requires
        0 <= start <= data.len(),
        0 <= pos,
    ensures
        rle::rle_painted(format, data, start + pos, width, height, x, y, out) == rle::rle_painted(
            format,
            data.skip(start),
            pos,
            width,
            height,
            x,
            y,
            out,
        ),
    decreases data.len() + 1 - start - pos,
{
    let s = data.skip(start);
    if pos + 2 <= s.len() {
        let first = s[pos] as int;
        let second = s[pos + 1];
        let next = pos + 2;
        if first > 0 {
            let ink = |i: int| rle::run_index(format, second, i);
            let drawn = rle::painted(out, width, x, y, first, ink);
            lemma_suffix(format, data, start, next, width, height, x + first, y, drawn);
        } else if second == 0 {
            lemma_suffix(format, data, start, next, width, height, 0, y + 1, out);
        } else if second == 2 {
            if next + 2 <= s.len() {
                lemma_suffix(
                    format,
                    data,
                    start,
                    next + 2,
                    width,
                    height,
                    x + s[next],
                    y + s[next + 1],
                    out,
                );
            }
        } else if second > 2 {
            let count = second as int;
            let size = rle::literal_bytes(format, count);
            if next + size <= s.len() {
                let ink = |i: int| rle::literal_index(format, s, next, i);
                let other = |i: int| rle::literal_index(format, data, start + next, i);
                let drawn = rle::painted(out, width, x, y, count, ink);
                assert(rle::painted(out, width, x, y, count, other) =~= drawn) by {
                    assert forall|i: int| 0 <= i < count implies #[trigger] other(i) == ink(i) by {
                        let at = match format {
                            RleFormat::Rle8 => next + i,
                            RleFormat::Rle4 => next + i / 2,
                        };
                        assert(s[at] == data[start + at]);
                    }
                }
                lemma_suffix(
                    format,
                    data,
                    start,
                    next + size + size % 2,
                    width,
                    height,
                    x + count,
                    y,
                    drawn,
                );
            }
        }
    }
}

proof fn lemma_after(
    format: RleFormat,
    head: Seq<u8>,
    rest: Seq<u8>,
    width: int,
    height: int,
    x: int,
    y: int,
    out: Seq<u8>,
)
    ensures
        rle::rle_painted(format, head + rest, head.len() as int, width, height, x, y, out)
            == run_from(format, rest, width, height, x, y, out),
{
    assert((head + rest).skip(head.len() as int) =~= rest);
    lemma_suffix(format, head + rest, head.len() as int, 0, width, height, x, y, out);
}

proof fn lemma_end_of_line(
    format: RleFormat,
    rest: Seq<u8>,
    width: int,
    height: int,
    x: int,
    y: int,
    out: Seq<u8>,
)
    ensures
        run_from(format, seq![0u8, 0u8] + rest, width, height, x, y, out) == run_from(
            format,
            rest,
            width,
            height,
            0,
            y + 1,
            out,
        ),
{
    let s = seq![0u8, 0u8] + rest;
    assert(s[0] == 0 && s[1] == 0);
    lemma_after(format, seq![0u8, 0u8], rest, width, height, 0, y + 1, out);
}

/// `out` with a series painted from column `x` of row `y` on, as far as the row
/// goes.
spec fn with_series(out: Seq<u8>, width: int, x: int, y: int, series: Seq<u8>) -> Seq<u8> {
    Seq::new(
        out.len(),
        |i: int|
            if y * width + x <= i < y * width + x + series.len() && i < y * width + width {
                series[i - y * width - x]
            } else {
                out[i]
            },
    )
}

proof fn lemma_singles(
    format: RleFormat,
    series: Seq<u8>,
    rest: Seq<u8>,
    width: int,
    height: int,
    x: int,
    y: int,
    out: Seq<u8>,
)
    requires
        fits(format, series),
    ensures
        series.len() > 0 && y >= height ==> run_from(
            format,
            singles(format, series) + rest,
            width,
            height,
            x,
            y,
            out,
        ) == Err::<Seq<u8>, RleFault>(RleFault::OutOfBounds),
        series.len() == 0 || y < height ==> run_from(
            format,
            singles(format, series) + rest,
            width,
            height,
            x,
            y,
            out,
        ) == run_from(
            format,
            rest,
            width,
            height,
            x + series.len(),
            y,
            with_series(out, width, x, y, series),
        ),
    decreases series.len(),
{
    let stream = singles(format, series) + rest;
    if series.len() == 0 {
        assert(stream =~= rest);
        assert(with_series(out, width, x, y, series) =~= out);
    } else {
        let tail = series.drop_first();
        let more = singles(format, tail) + rest;
        let byte = match format {
            RleFormat::Rle8 => series[0],
            RleFormat::Rle4 => (16 * series[0]) as u8,
        };
        let head = seq![1u8, byte];
        assert(stream =~= head + more);
        assert(stream[0] == 1 && stream[1] == byte);
        if y < height {
            let ink = |i: int| rle::run_index(format, byte, i);
            let drawn = rle::painted(out, width, x, y, 1, ink);
            assert(ink(0) == series[0]);
            lemma_after(format, head, more, width, height, x + 1, y, drawn);
            assert(fits(format, tail)) by {
                assert forall|i: int| 0 <= i < tail.len() && format is Rle4 implies
                    #[trigger] tail[i] < 16 by {
                    assert(tail[i] == series[i + 1]);
                }
            }
            lemma_singles(format, tail, rest, width, height, x + 1, y, drawn);
            assert(with_series(drawn, width, x + 1, y, tail) =~= with_series(
                out,
                width,
                x,
                y,
                series,
            ));
        }
    }
}

/// `out` with rows painted from row `y` on.
spec fn with_rows(out: Seq<u8>, width: int, y: int, rows: Seq<Seq<u8>>) -> Seq<u8>
    decreases rows.len(),
{
    if rows.len() == 0 {
        out
    } else {
        with_rows(with_series(out, width, 0, y, rows[0]), width, y + 1, rows.drop_first())
    }
}

proof fn lemma_lines(
    format: RleFormat,
    rows: Seq<Seq<u8>>,
    rest: Seq<u8>,
    width: int,
    height: int,
    y: int,
    out: Seq<u8>,
)
    requires
        rows_fit(format, rows),
        y + rows.len() <= height,
    ensures
        run_from(format, lines(format, rows) + rest, width, height, 0, y, out) == run_from(
            format,
            rest,
            width,
            height,
            0,
            y + rows.len(),
            with_rows(out, width, y, rows),
        ),
    decreases rows.len(),
{
    if rows.len() == 0 {
        assert(lines(format, rows) + rest =~= rest);
    } else {
        let tail = rows.drop_first();
        let more = lines(format, tail) + rest;
        let stream = lines(format, rows) + rest;
        assert(stream =~= singles(format, rows[0]) + (seq![0u8, 0u8] + more));
        assert(fits(format, rows[0]));
        lemma_singles(format, rows[0], seq![0u8, 0u8] + more, width, height, 0, y, out);
        let drawn = with_series(out, width, 0, y, rows[0]);
        lemma_end_of_line(format, more, width, height, rows[0].len() as int, y, drawn);
        assert(rows_fit(format, tail)) by {
            assert forall|r: int| 0 <= r < tail.len() implies #[trigger] fits(format, tail[r]) by {
                assert(fits(format, rows[r + 1]));
            }
        }
        lemma_lines(format, tail, rest, width, height, y + 1, drawn);
    }
}

proof fn lemma_row_order(width: int, r: int, c: int, y: int)
    requires
        0 <= c < width,
    ensures
        r < y ==> r * width + c < y * width,
        r > y ==> r * width + c >= y * width + width,
{
    if r < y {
        assert(r * width + width <= y * width) by (nonlinear_arith)
            requires
                r + 1 <= y,
                0 < width,
        ;
    }
    if r > y {
        assert(y * width + width <= r * width) by (nonlinear_arith)
            requires
                y + 1 <= r,
                0 < width,
        ;
    }
}

proof fn lemma_with_series_at(
    out: Seq<u8>,
    width: int,
    height: int,
    x: int,
    y: int,
    series: Seq<u8>,
    r: int,
    c: int,
)
    requires
        out.len() == width * height,
        0 <= x,
        0 <= r < height,
        0 <= c < width,
    ensures
        with_series(out, width, x, y, series).len() == out.len(),
        with_series(out, width, x, y, series)[r * width + c] == if r == y && x <= c < x
            + series.len() {
            series[c - x]
        } else {
            out[r * width + c]
        },
{
    crate::image::lemma_index_in_area(c, r, width, height);
    lemma_row_order(width, r, c, y);
}

proof fn lemma_with_rows_at(
    out: Seq<u8>,
    width: int,
    height: int,
    y: int,
    rows: Seq<Seq<u8>>,
    r: int,
    c: int,
)
    requires
        out.len() == width * height,
        0 <= r < height,
        0 <= c < width,
    ensures
        with_rows(out, width, y, rows).len() == out.len(),
        with_rows(out, width, y, rows)[r * width + c] == if y <= r < y + rows.len() && c < rows[r
            - y].len() {
            rows[r - y][c]
        } else {
            out[r * width + c]
        },
    decreases rows.len(),
{
    if rows.len() > 0 {
        let drawn = with_series(out, width, 0, y, rows[0]);
        lemma_with_series_at(out, width, height, 0, y, rows[0], r, c);
        lemma_with_rows_at(drawn, width, height, y + 1, rows.drop_first(), r, c);
    }
}

spec fn blank(width: nat, height: nat) -> Seq<u8> {
    Seq::new((width * height) as nat, |i: int| 0u8)
}

proof fn lemma_blank_at(width: nat, height: nat, r: int, c: int)
    requires
        0 <= r < height,
        0 <= c < width,
    ensures
        blank(width, height).len() == width * height,
        blank(width, height)[r * width + c] == 0,
{
    crate::image::lemma_index_in_area(c, r, width as int, height as int);
}

/// Rows come out as they were written: a stream of rows paints in column `c` of
/// row `r` the index that the row has there. What lies right of the image is
/// dropped, and what is not painted is index 0.
pub proof fn law_rows_come_out(
    format: RleFormat,
    rows: Seq<Seq<u8>>,
    width: nat,
    height: nat,
    r: int,
    c: int,
)
    requires
        rows_fit(format, rows),
        rows.len() <= height,
        0 <= r < height,
        0 <= c < width,
    ensures
        rle::rle_indices(format, lines(format, rows), width as int, height as int) matches Ok(s)
            && s.len() == width * height && s[r * width + c] == if r < rows.len() && c
            < rows[r].len() {
            rows[r][c]
        } else {
            0
        },
{
    let (w, h) = (width as int, height as int);
    let out = blank(width, height);
    assert(lines(format, rows) + Seq::<u8>::empty() =~= lines(format, rows));
    lemma_lines(format, rows, Seq::empty(), w, h, 0, out);
    lemma_blank_at(width, height, r, c);
    lemma_with_rows_at(out, w, h, 0, rows, r, c);
}

/// Nothing can be painted below the last row.
pub proof fn law_painting_below_is_a_fault(
    format: RleFormat,
    rows: Seq<Seq<u8>>,
    series: Seq<u8>,
    rest: Seq<u8>,
    width: nat,
)
    requires
        rows_fit(format, rows),
        fits(format, series),
        series.len() > 0,
    ensures
        rle::rle_indices(
            format,
            lines(format, rows) + (singles(format, series) + rest),
            width as int,
            rows.len() as int,
        ) == Err::<Seq<u8>, RleFault>(RleFault::OutOfBounds),
{
    let (w, h) = (width as int, rows.len() as int);
    let out = blank(width, rows.len());
    lemma_lines(format, rows, singles(format, series) + rest, w, h, 0, out);
    let drawn = with_rows(out, w, 0, rows);
    lemma_singles(format, series, rest, w, h, 0, h, drawn);
}

/// A command that moves the cursor does so relative to where it stands: what is
/// painted next begins `dx` columns further right and `dy` rows further on.
pub proof fn law_moves_are_relative(
    format: RleFormat,
    rows: Seq<Seq<u8>>,
    before: Seq<u8>,
    dx: u8,
    dy: u8,
    after: Seq<u8>,
    width: nat,
    height: nat,
    r: int,
    c: int,
)
    requires
        rows_fit(format, rows),
        fits(format, before),
        fits(format, after),
        rows.len() + dy < height,
        0 <= r < height,
        0 <= c < width,
    ensures
        rle::rle_indices(
            format,
            lines(format, rows) + (singles(format, before) + (seq![0u8, 2u8, dx, dy] + singles(
                format,
                after,
            ))),
            width as int,
            height as int,
        ) matches Ok(s) && s[r * width + c] == {
            let x = before.len() + dx;
            let y = rows.len() + dy;
            if r == y && x <= c < x + after.len() {
                after[c - x]
            } else if r == rows.len() && c < before.len() {
                before[c]
            } else if r < rows.len() && c < rows[r].len() {
                rows[r][c]
            } else {
                0
            }
        },
{
    let (w, h) = (width as int, height as int);
    let out = blank(width, height);
    let k = rows.len() as int;
    let none = Seq::<u8>::empty();
    let last = singles(format, after);
    let jump = seq![0u8, 2u8, dx, dy];
    lemma_blank_at(width, height, r, c);
    lemma_lines(format, rows, singles(format, before) + (jump + last), w, h, 0, out);
    let first = with_rows(out, w, 0, rows);
    lemma_with_rows_at(out, w, h, 0, rows, r, c);
    lemma_singles(format, before, jump + last, w, h, 0, k, first);
    let second = with_series(first, w, 0, k, before);
    lemma_with_series_at(first, w, h, 0, k, before, r, c);
    let x = before.len() as int;
    let s = jump + last;
    assert(s[0] == 0 && s[1] == 2 && s[2] == dx && s[3] == dy);
    lemma_after(format, jump, last, w, h, x + dx, k + dy, second);
    assert(run_from(format, s, w, h, x, k, second) == run_from(
        format,
        last,
        w,
        h,
        x + dx,
        k + dy,
        second,
    ));
    assert(last + none =~= last);
    lemma_singles(format, after, none, w, h, x + dx, k + dy, second);
    lemma_with_series_at(second, w, h, x + dx, k + dy, after, r, c);
}

/// Two streams do the same wherever the cursor stands, so they do behind any
/// whole commands.
proof fn lemma_exchange(
    format: RleFormat,
    head: Seq<u8>,
    a: Seq<u8>,
    b: Seq<u8>,
    pos: int,
    width: int,
    height: int,
    x: int,
    y: int,
    out: Seq<u8>,
)
    requires
        rle::whole_commands(format, head, pos),
        forall|cx: int, cy: int, drawn: Seq<u8>|
            #[trigger] run_from(format, a, width, height, cx, cy, drawn) == run_from(
                format,
                b,
                width,
                height,
                cx,
                cy,
                drawn,
            ),
    ensures
        rle::rle_painted(format, head + a, pos, width, height, x, y, out) == rle::rle_painted(
            format,
            head + b,
            pos,
            width,
            height,
            x,
            y,
            out,
        ),
    decreases head.len() + 1 - pos,
{
    let (p, q) = (head + a, head + b);
    if pos == head.len() {
        lemma_after(format, head, a, width, height, x, y, out);
        lemma_after(format, head, b, width, height, x, y, out);
    } else {
        let first = head[pos] as int;
        let second = head[pos + 1];
        let next = pos + 2;
        assert(p[pos] == head[pos] && p[pos + 1] == head[pos + 1]);
        assert(q[pos] == head[pos] && q[pos + 1] == head[pos + 1]);
        if first > 0 {
            let ink = |i: int| rle::run_index(format, second, i);
            let drawn = rle::painted(out, width, x, y, first, ink);
            lemma_exchange(format, head, a, b, next, width, height, x + first, y, drawn);
        } else if second == 0 {
            lemma_exchange(format, head, a, b, next, width, height, 0, y + 1, out);
        } else if second == 2 {
            assert(p[next] == head[next] && p[next + 1] == head[next + 1]);
            assert(q[next] == head[next] && q[next + 1] == head[next + 1]);
            lemma_exchange(
                format,
                head,
                a,
                b,
                next + 2,
                width,
                height,
                x + head[next],
                y + head[next + 1],
                out,
            );
        } else {
            let count = second as int;
            let size = rle::literal_bytes(format, count);
            let ink = |i: int| rle::literal_index(format, head, next, i);
            let ink_p = |i: int| rle::literal_index(format, p, next, i);
            let ink_q = |i: int| rle::literal_index(format, q, next, i);
            let drawn = rle::painted(out, width, x, y, count, ink);
            assert forall|i: int| 0 <= i < count implies #[trigger] ink_p(i) == ink(i) && ink_q(i)
                == ink(i) by {
                let at = match format {
                    RleFormat::Rle8 => next + i,
                    RleFormat::Rle4 => next + i / 2,
                };
                assert(p[at] == head[at] && q[at] == head[at]);
            }
            assert(rle::painted(out, width, x, y, count, ink_p) =~= drawn);
            assert forall|i: int| 0 <= i < count implies #[trigger] ink_q(i) == ink(i) by {
                assert(ink_p(i) == ink(i));
            }
            assert(rle::painted(out, width, x, y, count, ink_q) =~= drawn);
            lemma_exchange(
                format,
                head,
                a,
                b,
                next + size + size % 2,
                width,
                height,
                x + count,
                y,
                drawn,
            );
        }
    }
}

/// The indices of a run: one byte over and over, or its two halves in turn, the
/// high half first.
pub open spec fn repeated(format: RleFormat, count: u8, byte: u8) -> Seq<u8> {
    Seq::new(
        count as nat,
        |i: int|
            match format {
                RleFormat::Rle8 => byte,
                RleFormat::Rle4 => if i % 2 == 0 {
                    byte / 16
                } else {
                    byte % 16
                },
            },
    )
}

/// A run is short for its indices one by one, wherever in a stream it stands.
pub proof fn law_run_is_repetition(
    format: RleFormat,
    head: Seq<u8>,
    count: u8,
    byte: u8,
    rest: Seq<u8>,
    width: nat,
    height: nat,
)
    requires
        rle::whole_commands(format, head, 0),
        count > 0,
    ensures
        rle::rle_indices(
            format,
            head + (seq![count, byte] + rest),
            width as int,
            height as int,
        ) == rle::rle_indices(
            format,
            head + (singles(format, repeated(format, count, byte)) + rest),
            width as int,
            height as int,
        ),
{
    let (w, h) = (width as int, height as int);
    let series = repeated(format, count, byte);
    let a = seq![count, byte] + rest;
    let b = singles(format, series) + rest;
    assert(fits(format, series));
    assert forall|x: int, y: int, out: Seq<u8>|
        #[trigger] run_from(format, a, w, h, x, y, out) == run_from(format, b, w, h, x, y, out) by {
        assert(a[0] == count && a[1] == byte);
        lemma_singles(format, series, rest, w, h, x, y, out);
        if y < h {
            let ink = |i: int| rle::run_index(format, byte, i);
            let drawn = rle::painted(out, w, x, y, count as int, ink);
            assert(drawn =~= with_series(out, w, x, y, series)) by {
                assert forall|i: int| 0 <= i < count implies #[trigger] ink(i) == series[i] by {}
            }
            lemma_after(format, seq![count, byte], rest, w, h, x + count, y, drawn);
        }
    }
    lemma_exchange(format, head, a, b, 0, w, h, 0, 0, blank(width, height));
}

/// The bytes of a literal run: one index each, or two, the first in the high
/// half. The last low half may be left open.
pub open spec fn holds_series(format: RleFormat, bytes: Seq<u8>, series: Seq<u8>) -> bool {
    match format {
        RleFormat::Rle8 => bytes == series,
        RleFormat::Rle4 => {
            &&& bytes.len() == (series.len() + 1) / 2
            &&& forall|i: int|
                0 <= i < series.len() ==> #[trigger] series[i] == if i % 2 == 0 {
                    bytes[i / 2] / 16
                } else {
                    bytes[i / 2] % 16
                }
        },
    }
}

/// A literal run is short for its indices one by one, wherever in a stream it
/// stands. Its bytes are filled up to an even number.
pub proof fn law_literal_is_series(
    format: RleFormat,
    head: Seq<u8>,
    series: Seq<u8>,
    bytes: Seq<u8>,
    fill: Seq<u8>,
    rest: Seq<u8>,
    width: nat,
    height: nat,
)
    requires
        rle::whole_commands(format, head, 0),
        3 <= series.len() <= 255,
        holds_series(format, bytes, series),
        fill.len() == bytes.len() % 2,
    ensures
        rle::rle_indices(
            format,
            head + (seq![0u8, series.len() as u8] + (bytes + (fill + rest))),
            width as int,
            height as int,
        ) == rle::rle_indices(
            format,
            head + (singles(format, series) + rest),
            width as int,
            height as int,
        ),
{
    let (w, h) = (width as int, height as int);
    let n = series.len() as int;
    let opening = seq![0u8, n as u8];
    let a = opening + (bytes + (fill + rest));
    let b = singles(format, series) + rest;
    assert(fits(format, series));
    assert forall|x: int, y: int, out: Seq<u8>|
        #[trigger] run_from(format, a, w, h, x, y, out) == run_from(format, b, w, h, x, y, out) by {
        assert(a[0] == 0 && a[1] == n as u8);
        lemma_singles(format, series, rest, w, h, x, y, out);
        assert(rle::literal_bytes(format, n) == bytes.len());
        if y < h {
            let ink = |i: int| rle::literal_index(format, a, 2, i);
            let drawn = rle::painted(out, w, x, y, n, ink);
            assert(drawn =~= with_series(out, w, x, y, series)) by {
                assert forall|i: int| 0 <= i < n implies #[trigger] ink(i) == series[i] by {
                    let at = match format {
                        RleFormat::Rle8 => i,
                        RleFormat::Rle4 => i / 2,
                    };
                    assert(a[2 + at] == bytes[at]);
                }
            }
            let all = opening + (bytes + fill);
            assert(a =~= all + rest);
            lemma_after(format, all, rest, w, h, x + n, y, drawn);
        }
    }
    lemma_exchange(format, head, a, b, 0, w, h, 0, 0, blank(width, height));
}

/// Where the cursor stands after whole commands that are free of faults.
proof fn lemma_goes_on(
    format: RleFormat,
    head: Seq<u8>,
    rest: Seq<u8>,
    pos: int,
    width: int,
    height: int,
    x: int,
    y: int,
    out: Seq<u8>,
) -> (place: (int, int))
    requires
        rle::whole_commands(format, head, pos),
        rle::rle_painted(format, head, pos, width, height, x, y, out) is Ok,
    ensures
        rle::rle_painted(format, head + rest, pos, width, height, x, y, out) == run_from(
            format,
            rest,
            width,
            height,
            place.0,
            place.1,
            rle::rle_painted(format, head, pos, width, height, x, y, out)->Ok_0,
        ),
    decreases head.len() + 1 - pos,
{
    let p = head + rest;
    if pos == head.len() {
        lemma_after(format, head, rest, width, height, x, y, out);
        (x, y)
    } else {
        let first = head[pos] as int;
        let second = head[pos + 1];
        let next = pos + 2;
        assert(p[pos] == head[pos] && p[pos + 1] == head[pos + 1]);
        if first > 0 {
            let ink = |i: int| rle::run_index(format, second, i);
            let drawn = rle::painted(out, width, x, y, first, ink);
            lemma_goes_on(format, head, rest, next, width, height, x + first, y, drawn)
        } else if second == 0 {
            lemma_goes_on(format, head, rest, next, width, height, 0, y + 1, out)
        } else if second == 2 {
            assert(p[next] == head[next] && p[next + 1] == head[next + 1]);
            lemma_goes_on(
                format,
                head,
                rest,
                next + 2,
                width,
                height,
                x + head[next],
                y + head[next + 1],
                out,
            )
        } else {
            let count = second as int;
            let size = rle::literal_bytes(format, count);
            let ink = |i: int| rle::literal_index(format, head, next, i);
            let ink_p = |i: int| rle::literal_index(format, p, next, i);
            let drawn = rle::painted(out, width, x, y, count, ink);
            assert forall|i: int| 0 <= i < count implies #[trigger] ink_p(i) == ink(i) by {
                let at = match format {
                    RleFormat::Rle8 => next + i,
                    RleFormat::Rle4 => next + i / 2,
                };
                assert(p[at] == head[at]);
            }
            assert(rle::painted(out, width, x, y, count, ink_p) =~= drawn);
            lemma_goes_on(
                format,
                head,
                rest,
                next + size + size % 2,
                width,
                height,
                x + count,
                y,
                drawn,
            )
        }
    }
}

/// A stream that ends inside a command is faulty: inside a move of the cursor,
/// or inside a literal run. A single byte at the end is no command.
pub proof fn law_cut_commands_are_faults(
    format: RleFormat,
    head: Seq<u8>,
    cut: Seq<u8>,
    count: u8,
    width: nat,
    height: nat,
)
    requires
        rle::whole_commands(format, head, 0),
        rle::rle_indices(format, head, width as int, height as int) is Ok,
    ensures
        cut.len() < 2 ==> rle::rle_indices(
            format,
            head + (seq![0u8, 2u8] + cut),
            width as int,
            height as int,
        ) == Err::<Seq<u8>, RleFault>(RleFault::DeltaTruncated),
        count >= 3 && cut.len() == 0 ==> rle::rle_indices(
            format,
            head + (seq![0u8, count] + cut),
            width as int,
            height as int,
        ) == Err::<Seq<u8>, RleFault>(RleFault::LiteralTruncated),
        count >= 3 && cut.len() < if format is Rle8 {
            count as int
        } else {
            (count + 1) / 2
        } ==> rle::rle_indices(
            format,
            head + (seq![0u8, count] + cut),
            width as int,
            height as int,
        ) is Err,
        cut.len() == 1 ==> rle::rle_indices(format, head + cut, width as int, height as int)
            == rle::rle_indices(format, head, width as int, height as int),
{
    let (w, h) = (width as int, height as int);
    let out = blank(width, height);
    let a = seq![0u8, 2u8] + cut;
    assert(a[0] == 0 && a[1] == 2);
    let place = lemma_goes_on(format, head, a, 0, w, h, 0, 0, out);
    let b = seq![0u8, count] + cut;
    assert(b[0] == 0 && b[1] == count);
    let place = lemma_goes_on(format, head, b, 0, w, h, 0, 0, out);
    let place = lemma_goes_on(format, head, cut, 0, w, h, 0, 0, out);
}

/// Every fault is a failure to decode, and no two faults are reported alike.
pub proof fn law_faults_are_told_apart(
    format: RleFormat,
    fault: RleFault,
    other_format: RleFormat,
    other_fault: RleFault,
)
    ensures
        rle::rle_error(format, fault) is DecodeFailed,
        rle::rle_error(format, fault) == rle::rle_error(other_format, other_fault) ==> format
            == other_format && fault == other_fault,
{
    reveal_strlit("RLE8 data exceeds image bounds");
    reveal_strlit("RLE8 delta truncated");
    reveal_strlit("RLE8 absolute mode truncated");
    reveal_strlit("RLE4 data exceeds image bounds");
    reveal_strlit("RLE4 delta truncated");
    reveal_strlit("RLE4 absolute mode truncated");
    assert("RLE8 delta truncated"@[3] != "RLE4 delta truncated"@[3]);
    assert("RLE8 data exceeds image bounds"@[3] != "RLE4 data exceeds image bounds"@[3]);
    assert("RLE8 absolute mode truncated"@[3] != "RLE4 absolute mode truncated"@[3]);
}

/// Moving paints nothing and is never a fault, however far it goes: neither the
/// end of a line nor a move of the cursor changes what was painted before.
pub proof fn law_moving_paints_nothing(
    format: RleFormat,
    head: Seq<u8>,
    dx: u8,
    dy: u8,
    width: nat,
    height: nat,
)
    requires
        rle::whole_commands(format, head, 0),
        rle::rle_indices(format, head, width as int, height as int) is Ok,
    ensures
        rle::rle_indices(format, head + seq![0u8, 0u8], width as int, height as int)
            == rle::rle_indices(format, head, width as int, height as int),
        rle::rle_indices(format, head + seq![0u8, 2u8, dx, dy], width as int, height as int)
            == rle::rle_indices(format, head, width as int, height as int),
{
    let (w, h) = (width as int, height as int);
    let out = blank(width, height);
    let drawn = rle::rle_indices(format, head, w, h)->Ok_0;
    let line = seq![0u8, 0u8];
    let (x, y) = lemma_goes_on(format, head, line, 0, w, h, 0, 0, out);
    assert(line[0] == 0 && line[1] == 0);
    assert(rle::rle_painted(format, line, 2, w, h, 0, y + 1, drawn) == Ok::<Seq<u8>, RleFault>(
        drawn,
    ));
    let jump = seq![0u8, 2u8, dx, dy];
    let (x, y) = lemma_goes_on(format, head, jump, 0, w, h, 0, 0, out);
    assert(jump[0] == 0 && jump[1] == 2);
    assert(rle::rle_painted(format, jump, 4, w, h, x + dx, y + dy, drawn) == Ok::<
        Seq<u8>,
        RleFault,
    >(drawn));
}

} // verus!
