//! The integer side of waveform rendering: which buckets feed a pixel
//! column, how far a bar reaches, and the RGB pixel buffer (3 bytes per
//! pixel, row-major, bars growing from the bottom up) drawn from per-column
//! bars over the dark background.

use vstd::prelude::*;
use vstd::arithmetic::div_mod::lemma_fundamental_div_mod_converse;
use crate::settings::DisplayStyle;

verus! {

/// Background color of the waveform view.
pub open spec fn background() -> [u8; 3] {
    [24u8, 24u8, 37u8]
}

/// The bar drawn in one pixel column: its reach in pixels (half the bar for
/// a mirrored style, the whole bar for top-half) and its color.
#[derive(Debug, Clone, Copy)]
pub struct ColumnBar {
    pub bar: usize,
    pub color: [u8; 3],
}

/// The rows `[top, bottom)` a bar covers before the image is turned upside
/// down: centered for the mirrored style, from row 0 for top-half; clipped
/// to the image.
pub open spec fn bar_rows(style: DisplayStyle, bar: nat, h: nat) -> (nat, nat) {
    match style {
        DisplayStyle::Mirrored => {
            let center = h / 2;
            let top = if center >= bar { (center - bar) as nat } else { 0nat };
            let bottom = if center + bar <= h { center + bar } else { h };
            (top, bottom)
        },
        DisplayStyle::TopHalf => (0nat, if bar <= h { bar } else { h }),
    }
}

/// The color of the pixel in row `y`, column `x` of the finished image:
/// the image is drawn top-down and then turned upside down, so row `y`
/// shows drawn row `h - 1 - y`.
pub open spec fn pixel_color(
    h: nat,
    style: DisplayStyle,
    columns: Seq<Option<ColumnBar>>,
    y: int,
    x: int,
) -> [u8; 3] {
    let drawn = h - 1 - y;
    match columns[x] {
        Some(c) => {
            let (top, bottom) = bar_rows(style, c.bar as nat, h);
            if top <= drawn < bottom {
                c.color
            } else {
                background()
            }
        },
        None => background(),
    }
}

fn pixel_at(h: usize, style: DisplayStyle, columns: &Vec<Option<ColumnBar>>, y: usize, x: usize) -> (r: [u8; 3])
    requires
        y < h,
        x < columns.len(),
    ensures
        r == pixel_color(h as nat, style, columns@, y as int, x as int),
{
    let drawn = h - 1 - y;
    match columns[x] {
        Some(c) => {
            let (top, bottom) = match style {
                DisplayStyle::Mirrored => {
                    let center = h / 2;
                    let top = if center >= c.bar { center - c.bar } else { 0 };
                    let bottom = if c.bar <= h - center { center + c.bar } else { h };
                    (top, bottom)
                },
                DisplayStyle::TopHalf => (0, if c.bar <= h { c.bar } else { h }),
            };
            if top <= drawn && drawn < bottom {
                c.color
            } else {
                [24u8, 24u8, 37u8]
            }
        },
        None => [24u8, 24u8, 37u8],
    }
}

proof fn lemma_pixel_index(w: int, y: int, x: int, k: int)
    requires
        w > 0,
        y >= 0,
        0 <= x < w,
        0 <= k < 3,
    ensures
        ((y * w + x) * 3 + k) / 3 == y * w + x,
        ((y * w + x) * 3 + k) % 3 == k,
        (y * w + x) / w == y,
        (y * w + x) % w == x,
{
    let p = y * w + x;
    lemma_fundamental_div_mod_converse(p * 3 + k, 3, p, k);
    lemma_fundamental_div_mod_converse(p, w, y, x);
}

/// Draws `columns` (one entry per pixel column, `None` for an empty column)
/// into a `w`×`h` RGB buffer: every pixel of a column's bar has the bar's
/// color, every other pixel the background.
pub fn rasterize(w: usize, h: usize, style: DisplayStyle, columns: &Vec<Option<ColumnBar>>) -> (r:
    Vec<u8>)
    requires
        columns.len() == w,
        w * h * 3 <= usize::MAX,
    ensures
        r.len() == w * h * 3,
        forall|y: int, x: int, k: int|
            0 <= y < h && 0 <= x < w && 0 <= k < 3 ==> #[trigger] r@[(y * w + x) * 3 + k] == pixel_color(
                h as nat,
                style,
                columns@,
                y,
                x,
            )[k],
{
    let mut buf: Vec<u8> = Vec::new();
    if w == 0 {
        return buf;
    }
    let mut y: usize = 0;
    while y < h
        invariant
            0 < w,
            columns.len() == w,
            w * h * 3 <= usize::MAX,
            y <= h,
            buf.len() == y * w * 3,
            forall|i: int|
                0 <= i < buf.len() ==> #[trigger] buf@[i] == pixel_color(
                    h as nat,
                    style,
                    columns@,
                    (i / 3) / (w as int),
                    (i / 3) % (w as int),
                )[i % 3],
        decreases h - y,
    {
        proof {
            assert(y * w * 3 + w * 3 == (y + 1) * w * 3) by (nonlinear_arith);
            assert((y + 1) * w * 3 <= h * w * 3) by (nonlinear_arith)
                requires
                    y + 1 <= h,
            ;
            assert(h * w * 3 == w * h * 3) by (nonlinear_arith);
        }
        let mut x: usize = 0;
        while x < w
            invariant
                0 < w,
                columns.len() == w,
                y < h,
                x <= w,
                (y + 1) * w * 3 <= usize::MAX,
                buf.len() == (y * w + x) * 3,
                forall|i: int|
                    0 <= i < buf.len() ==> #[trigger] buf@[i] == pixel_color(
                        h as nat,
                        style,
                        columns@,
                        (i / 3) / (w as int),
                        (i / 3) % (w as int),
                    )[i % 3],
            decreases w - x,
        {
            let c = pixel_at(h, style, columns, y, x);
            proof {
                assert((y * w + x) * 3 + 3 <= (y + 1) * w * 3) by (nonlinear_arith)
                    requires
                        x < w,
                ;
            }
            let ghost base = buf.len() as int;
            buf.push(c[0]);
            buf.push(c[1]);
            buf.push(c[2]);
            proof {
                assert forall|k: int| 0 <= k < 3 implies #[trigger] buf@[base + k] == pixel_color(
                    h as nat,
                    style,
                    columns@,
                    ((base + k) / 3) / (w as int),
                    ((base + k) / 3) % (w as int),
                )[(base + k) % 3] by {
                    lemma_pixel_index(w as int, y as int, x as int, k);
                }
                assert forall|i: int|
                    0 <= i < buf.len() implies #[trigger] buf@[i] == pixel_color(
                    h as nat,
                    style,
                    columns@,
                    (i / 3) / (w as int),
                    (i / 3) % (w as int),
                )[i % 3] by {
                    if i >= base {
                        let k = i - base;
                        assert(buf@[base + k] == buf@[i]);
                    }
                }
            }
            x = x + 1;
            proof {
                assert(((y * w + x) * 3) == (y * w + (x - 1)) * 3 + 3) by (nonlinear_arith);
            }
        }
        proof {
            assert((y * w + w) * 3 == (y + 1) * w * 3) by (nonlinear_arith);
        }
        y = y + 1;
    }
    proof {
        assert(h * w * 3 == w * h * 3) by (nonlinear_arith);
        assert forall|yy: int, xx: int, k: int|
            0 <= yy < h && 0 <= xx < w && 0 <= k < 3 implies #[trigger] buf@[(yy * w + xx) * 3 + k]
            == pixel_color(h as nat, style, columns@, yy, xx)[k] by {
            lemma_pixel_index(w as int, yy, xx, k);
            assert((yy * w + xx) * 3 + k < w * h * 3) by (nonlinear_arith)
                requires
                    0 <= yy < h,
                    0 <= xx < w,
                    0 <= k < 3,
            ;
        }
    }
    buf
}

// ── Column inputs ───────────────────────────────────────────────────────────

/// The part of the data that a viewport shows: `[start, min(end, len))`,
/// or `None` when that is empty.
pub fn slice_bounds(len: usize, start: usize, end: usize) -> (r: Option<(usize, usize)>)
    ensures
        ({
            let e = if end <= len { end } else { len };
            if start >= e {
                r is None
            } else {
                r == Some((start, e))
            }
        }),
{
    let e = if end <= len { end } else { len };
    if start >= e {
        None
    } else {
        Some((start, e))
    }
}

/// The bucket that pixel column `x` of `w` shows out of `slice_len`.
pub fn column_bucket(x: usize, slice_len: usize, w: usize) -> (r: usize)
    requires
        w > 0,
        x * slice_len <= usize::MAX,
    ensures
        r == (x * slice_len) / (w as int),
{
    (x * slice_len) / w
}

/// The buckets `[lo, hi]` averaged around `bucket` for a smoothing window of
/// `smoothing` buckets: half the window on each side, clipped to the data.
pub fn smoothing_window(bucket: usize, smoothing: u8, slice_len: usize) -> (r: (usize, usize))
    requires
        slice_len > 0,
        bucket + smoothing / 2 <= usize::MAX,
    ensures
        ({
            let half = smoothing / 2;
            &&& r.0 == if bucket >= half { bucket - half } else { 0 }
            &&& r.1 == if bucket + half <= slice_len - 1 { bucket + half } else { slice_len - 1 }
        }),
{
    let half = (smoothing / 2) as usize;
    let lo = if bucket >= half { bucket - half } else { 0 };
    let hi = if bucket + half <= slice_len - 1 { bucket + half } else { slice_len - 1 };
    (lo, hi)
}

// ── Laws of the drawn bars ──────────────────────────────────────────────────

/// A mirrored bar of reach `bar` covers, in drawing order, exactly the rows
/// within `bar` rows of the middle row `h / 2` (from `h / 2 - bar` up to
/// but not including `h / 2 + bar`), clipped to the image; since the image
/// is turned upside down, pixel row `y` shows drawn row `h - 1 - y`.
pub proof fn lemma_mirrored_bar_span(h: nat, columns: Seq<Option<ColumnBar>>, y: int, x: int)
    requires
        0 <= y < h,
        0 <= x < columns.len(),
        columns[x] is Some,
    ensures
        ({
            let c = columns[x]->0;
            let drawn = h - 1 - y;
            pixel_color(h, DisplayStyle::Mirrored, columns, y, x) == if (h / 2) as int - c.bar
                <= drawn && drawn < (h / 2) as int + c.bar {
                c.color
            } else {
                background()
            }
        }),
{
}

/// A mirrored bar reaching at least as far as the distance from the middle
/// row to the far edge colors its whole column.
pub proof fn lemma_full_mirrored_bar_fills_column(
    h: nat,
    columns: Seq<Option<ColumnBar>>,
    x: int,
)
    requires
        0 <= x < columns.len(),
        columns[x] is Some,
        columns[x]->0.bar + h / 2 >= h,
    ensures
        forall|y: int|
            0 <= y < h ==> #[trigger] pixel_color(h, DisplayStyle::Mirrored, columns, y, x)
                == columns[x]->0.color,
{
    assert forall|y: int| 0 <= y < h implies #[trigger] pixel_color(
        h,
        DisplayStyle::Mirrored,
        columns,
        y,
        x,
    ) == columns[x]->0.color by {
        lemma_mirrored_bar_span(h, columns, y, x);
    }
}

/// A top-half bar of reach `bar` colors exactly the bottom `bar` pixel rows
/// of its column (all of them when `bar >= h`).
pub proof fn lemma_top_half_bar_from_bottom(h: nat, columns: Seq<Option<ColumnBar>>, y: int, x: int)
    requires
        0 <= y < h,
        0 <= x < columns.len(),
        columns[x] is Some,
    ensures
        pixel_color(h, DisplayStyle::TopHalf, columns, y, x) == if y >= h - columns[x]->0.bar {
            columns[x]->0.color
        } else {
            background()
        },
{
}

/// An empty column is background from top to bottom, in either style.
pub proof fn lemma_empty_column_is_background(
    h: nat,
    style: DisplayStyle,
    columns: Seq<Option<ColumnBar>>,
    y: int,
    x: int,
)
    requires
        0 <= x < columns.len(),
        columns[x] is None,
    ensures
        pixel_color(h, style, columns, y, x) == background(),
{
}

} // verus!
