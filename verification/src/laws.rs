//! What holds of every blur, whatever the buffer, its width and height, the
//! radius and the options.

use crate::grid::blur_columns;
use crate::grid::blur_grid;
use crate::grid::blur_rows;
use crate::grid::grid_column;
use crate::grid::grid_row;
use crate::grid::lemma_in_grid;
use crate::grid::lemma_place;
use crate::kernel::channel_is;
use crate::kernel::same_channel;
use crate::kernel::within;
use crate::line::blurred_line;
use crate::line::lemma_line_close;
use crate::line::lemma_line_constant_channel;
use crate::line::lemma_line_same_channel;
use crate::options::Divisor;
use crate::options::Options;
use crate::pixel::Channel;
use crate::pixel::channel;
use crate::pixel::lemma_channels_determine_pixel;
use vstd::prelude::*;

verus! {

/// Whether channel `ch` has the value `c` in every pixel of the grid.
pub open spec fn grid_channel_is(s: Seq<u32>, w: int, h: int, ch: Channel, c: int) -> bool {
    forall|p: int| 0 <= p < w * h ==> #[trigger] channel(s[p], ch) == c
}

/// The place of row `y` and column `x` lies in the grid.
proof fn lemma_cell_in_grid(w: int, h: int, x: int, y: int)
    requires
        0 <= x < w,
        0 <= y < h,
    ensures
        0 <= y * w + x < w * h,
{
    assert(0 <= y * w + x < w * h) by (nonlinear_arith)
        requires
            0 <= x < w,
            0 <= y < h,
    ;
}

/// The horizontal pass keeps channels apart.
pub proof fn lemma_rows_same_channel(
    a: Seq<u32>,
    b: Seq<u32>,
    w: int,
    h: int,
    r: int,
    o: Options,
    ch: Channel,
)
    requires
        same_channel(a, b, ch),
        1 <= w,
        0 <= h,
        w * h <= a.len(),
        1 <= r <= 254,
    ensures
        same_channel(blur_rows(a, w, h, r, o), blur_rows(b, w, h, r, o), ch),
{
    let done_a = blur_rows(a, w, h, r, o);
    let done_b = blur_rows(b, w, h, r, o);
    assert forall|p: int| 0 <= p < a.len() implies channel(#[trigger] done_a[p], ch) == channel(
        done_b[p],
        ch,
    ) by {
        if p < w * h {
            lemma_place(p, w);
            lemma_in_grid(p, w, h);
            let y = p / w;
            let row_a = grid_row(a, w, y);
            let row_b = grid_row(b, w, y);
            assert(same_channel(row_a, row_b, ch)) by {
                assert forall|x: int| 0 <= x < w implies channel(#[trigger] row_a[x], ch)
                    == channel(row_b[x], ch) by {
                    lemma_cell_in_grid(w, h, x, y);
                    assert(channel(a[y * w + x], ch) == channel(b[y * w + x], ch));
                }
            }
            lemma_line_same_channel(row_a, row_b, r, o, ch);
            assert(channel(blurred_line(row_a, r, o)[p % w], ch) == channel(
                blurred_line(row_b, r, o)[p % w],
                ch,
            ));
        } else {
            assert(channel(a[p], ch) == channel(b[p], ch));
        }
    }
}

/// The vertical pass keeps channels apart.
pub proof fn lemma_columns_same_channel(
    a: Seq<u32>,
    b: Seq<u32>,
    w: int,
    h: int,
    r: int,
    o: Options,
    ch: Channel,
)
    requires
        same_channel(a, b, ch),
        1 <= w,
        0 <= h,
        w * h <= a.len(),
        1 <= r <= 254,
    ensures
        same_channel(blur_columns(a, w, h, r, o), blur_columns(b, w, h, r, o), ch),
{
    let done_a = blur_columns(a, w, h, r, o);
    let done_b = blur_columns(b, w, h, r, o);
    assert forall|p: int| 0 <= p < a.len() implies channel(#[trigger] done_a[p], ch) == channel(
        done_b[p],
        ch,
    ) by {
        if p < w * h {
            lemma_place(p, w);
            lemma_in_grid(p, w, h);
            let x = p % w;
            let column_a = grid_column(a, w, h, x);
            let column_b = grid_column(b, w, h, x);
            assert(same_channel(column_a, column_b, ch)) by {
                assert forall|y: int| 0 <= y < h implies channel(#[trigger] column_a[y], ch)
                    == channel(column_b[y], ch) by {
                    lemma_cell_in_grid(w, h, x, y);
                    assert(channel(a[y * w + x], ch) == channel(b[y * w + x], ch));
                }
            }
            lemma_line_same_channel(column_a, column_b, r, o, ch);
            assert(channel(blurred_line(column_a, r, o)[p / w], ch) == channel(
                blurred_line(column_b, r, o)[p / w],
                ch,
            ));
        } else {
            assert(channel(a[p], ch) == channel(b[p], ch));
        }
    }
}

/// Channel independence. What the blur makes of a channel depends on that
/// channel alone: two buffers that agree in channel `ch`, whatever their
/// other channels hold, agree in channel `ch` when blurred.
pub proof fn lemma_channel_independence(
    a: Seq<u32>,
    b: Seq<u32>,
    w: int,
    h: int,
    r: int,
    o: Options,
    ch: Channel,
)
    requires
        same_channel(a, b, ch),
        1 <= w,
        0 <= h,
        w * h <= a.len(),
        1 <= r <= 254,
    ensures
        same_channel(blur_grid(a, w, h, r, o), blur_grid(b, w, h, r, o), ch),
{
    lemma_rows_same_channel(a, b, w, h, r, o, ch);
    lemma_columns_same_channel(blur_rows(a, w, h, r, o), blur_rows(b, w, h, r, o), w, h, r, o, ch);
}

/// The horizontal pass keeps a channel that has one value all over the
/// grid.
pub proof fn lemma_rows_constant_channel(
    s: Seq<u32>,
    w: int,
    h: int,
    r: int,
    o: Options,
    ch: Channel,
    c: int,
)
    requires
        grid_channel_is(s, w, h, ch, c),
        1 <= w,
        0 <= h,
        w * h <= s.len(),
        1 <= r <= 254,
    ensures
        grid_channel_is(blur_rows(s, w, h, r, o), w, h, ch, c),
{
    let done = blur_rows(s, w, h, r, o);
    assert forall|p: int| 0 <= p < w * h implies #[trigger] channel(done[p], ch) == c by {
        lemma_place(p, w);
        lemma_in_grid(p, w, h);
        let y = p / w;
        let row = grid_row(s, w, y);
        assert(channel_is(row, ch, c)) by {
            assert forall|x: int| 0 <= x < w implies #[trigger] channel(row[x], ch) == c by {
                lemma_cell_in_grid(w, h, x, y);
                assert(channel(s[y * w + x], ch) == c);
            }
        }
        lemma_line_constant_channel(row, r, o, ch, c);
        assert(channel(blurred_line(row, r, o)[p % w], ch) == c);
    }
}

/// The vertical pass keeps a channel that has one value all over the grid.
pub proof fn lemma_columns_constant_channel(
    s: Seq<u32>,
    w: int,
    h: int,
    r: int,
    o: Options,
    ch: Channel,
    c: int,
)
    requires
        grid_channel_is(s, w, h, ch, c),
        1 <= w,
        0 <= h,
        w * h <= s.len(),
        1 <= r <= 254,
    ensures
        grid_channel_is(blur_columns(s, w, h, r, o), w, h, ch, c),
{
    let done = blur_columns(s, w, h, r, o);
    assert forall|p: int| 0 <= p < w * h implies #[trigger] channel(done[p], ch) == c by {
        lemma_place(p, w);
        lemma_in_grid(p, w, h);
        let x = p % w;
        let column = grid_column(s, w, h, x);
        assert(channel_is(column, ch, c)) by {
            assert forall|y: int| 0 <= y < h implies #[trigger] channel(column[y], ch) == c by {
                lemma_cell_in_grid(w, h, x, y);
                assert(channel(s[y * w + x], ch) == c);
            }
        }
        lemma_line_constant_channel(column, r, o, ch, c);
        assert(channel(blurred_line(column, r, o)[p / w], ch) == c);
    }
}

/// A channel that has one value all over the grid is left unchanged by the
/// blur, whatever the other channels hold.
pub proof fn lemma_constant_channel(
    s: Seq<u32>,
    w: int,
    h: int,
    r: int,
    o: Options,
    ch: Channel,
    c: int,
)
    requires
        grid_channel_is(s, w, h, ch, c),
        1 <= w,
        0 <= h,
        w * h <= s.len(),
        1 <= r <= 254,
    ensures
        grid_channel_is(blur_grid(s, w, h, r, o), w, h, ch, c),
{
    lemma_rows_constant_channel(s, w, h, r, o, ch, c);
    lemma_columns_constant_channel(blur_rows(s, w, h, r, o), w, h, r, o, ch, c);
}

/// Uniform-image invariance. A grid in which every pixel is `p` is left as
/// it is by the blur, and so is what lies behind the grid.
pub proof fn lemma_uniform_image(s: Seq<u32>, w: int, h: int, r: int, o: Options, p: u32)
    requires
        forall|i: int| 0 <= i < w * h ==> s[i] == p,
        1 <= w,
        0 <= h,
        w * h <= s.len(),
        1 <= r <= 254,
    ensures
        blur_grid(s, w, h, r, o) == s,
{
    let done = blur_grid(s, w, h, r, o);
    assert forall|ch: Channel| grid_channel_is(done, w, h, ch, channel(p, ch) as int) by {
        assert(grid_channel_is(s, w, h, ch, channel(p, ch) as int)) by {
            assert forall|i: int| 0 <= i < w * h implies #[trigger] channel(s[i], ch) == channel(
                p,
                ch,
            ) by {
                assert(s[i] == p);
            }
        }
        lemma_constant_channel(s, w, h, r, o, ch, channel(p, ch) as int);
    }
    assert forall|i: int| 0 <= i < s.len() implies done[i] == s[i] by {
        if i < w * h {
            assert(grid_channel_is(done, w, h, Channel::Alpha, channel(p, Channel::Alpha) as int));
            assert(grid_channel_is(done, w, h, Channel::Red, channel(p, Channel::Red) as int));
            assert(grid_channel_is(done, w, h, Channel::Green, channel(p, Channel::Green) as int));
            assert(grid_channel_is(done, w, h, Channel::Blue, channel(p, Channel::Blue) as int));
            assert(channel(done[i], Channel::Alpha) == channel(p, Channel::Alpha));
            assert(channel(done[i], Channel::Red) == channel(p, Channel::Red));
            assert(channel(done[i], Channel::Green) == channel(p, Channel::Green));
            assert(channel(done[i], Channel::Blue) == channel(p, Channel::Blue));
            lemma_channels_determine_pixel(done[i], p);
            assert(s[i] == p);
        }
    }
    assert(done =~= s);
}

/// A grid of one pixel is left as it is by the blur, whatever the radius.
pub proof fn lemma_single_pixel(s: Seq<u32>, r: int, o: Options)
    requires
        1 <= s.len(),
        1 <= r <= 254,
    ensures
        blur_grid(s, 1, 1, r, o) == s,
{
    lemma_uniform_image(s, 1, 1, r, o, s[0]);
}

/// The options with exact division.
pub open spec fn exact(blur_alpha: bool) -> Options {
    Options { blur_alpha, divisor: Divisor::Exact }
}

/// The options with multiplication and shift.
pub open spec fn shifted(blur_alpha: bool) -> Options {
    Options { blur_alpha, divisor: Divisor::MulShift }
}

/// The horizontal pass with multiply-and-shift against the one with exact
/// division: a difference of up to `d` grows to at most `d + 1`.
pub proof fn lemma_rows_close(
    a: Seq<u32>,
    b: Seq<u32>,
    w: int,
    h: int,
    r: int,
    blur_alpha: bool,
    ch: Channel,
    d: int,
)
    requires
        within(a, b, ch, d),
        0 <= d,
        1 <= w,
        0 <= h,
        w * h <= a.len(),
        1 <= r <= 254,
    ensures
        within(
            blur_rows(a, w, h, r, exact(blur_alpha)),
            blur_rows(b, w, h, r, shifted(blur_alpha)),
            ch,
            d + 1,
        ),
{
    let done_a = blur_rows(a, w, h, r, exact(blur_alpha));
    let done_b = blur_rows(b, w, h, r, shifted(blur_alpha));
    assert forall|p: int| 0 <= p < a.len() implies channel(#[trigger] done_a[p], ch) <= channel(
        done_b[p],
        ch,
    ) <= channel(done_a[p], ch) + d + 1 by {
        if p < w * h {
            lemma_place(p, w);
            lemma_in_grid(p, w, h);
            let y = p / w;
            let row_a = grid_row(a, w, y);
            let row_b = grid_row(b, w, y);
            assert(within(row_a, row_b, ch, d)) by {
                assert forall|x: int| 0 <= x < w implies channel(#[trigger] row_a[x], ch)
                    <= channel(row_b[x], ch) <= channel(row_a[x], ch) + d by {
                    lemma_cell_in_grid(w, h, x, y);
                    let q = y * w + x;
                    assert(channel(a[q], ch) <= channel(b[q], ch) <= channel(a[q], ch) + d);
                }
            }
            lemma_line_close(row_a, row_b, r, blur_alpha, ch, d);
            let line_a = blurred_line(row_a, r, exact(blur_alpha));
            let line_b = blurred_line(row_b, r, shifted(blur_alpha));
            assert(channel(line_a[p % w], ch) <= channel(line_b[p % w], ch) <= channel(
                line_a[p % w],
                ch,
            ) + d + 1);
        } else {
            assert(channel(a[p], ch) <= channel(b[p], ch) <= channel(a[p], ch) + d);
        }
    }
}

/// The vertical pass with multiply-and-shift against the one with exact
/// division: a difference of up to `d` grows to at most `d + 1`.
pub proof fn lemma_columns_close(
    a: Seq<u32>,
    b: Seq<u32>,
    w: int,
    h: int,
    r: int,
    blur_alpha: bool,
    ch: Channel,
    d: int,
)
    requires
        within(a, b, ch, d),
        0 <= d,
        1 <= w,
        0 <= h,
        w * h <= a.len(),
        1 <= r <= 254,
    ensures
        within(
            blur_columns(a, w, h, r, exact(blur_alpha)),
            blur_columns(b, w, h, r, shifted(blur_alpha)),
            ch,
            d + 1,
        ),
{
    let done_a = blur_columns(a, w, h, r, exact(blur_alpha));
    let done_b = blur_columns(b, w, h, r, shifted(blur_alpha));
    assert forall|p: int| 0 <= p < a.len() implies channel(#[trigger] done_a[p], ch) <= channel(
        done_b[p],
        ch,
    ) <= channel(done_a[p], ch) + d + 1 by {
        if p < w * h {
            lemma_place(p, w);
            lemma_in_grid(p, w, h);
            let x = p % w;
            let column_a = grid_column(a, w, h, x);
            let column_b = grid_column(b, w, h, x);
            assert(within(column_a, column_b, ch, d)) by {
                assert forall|y: int| 0 <= y < h implies channel(#[trigger] column_a[y], ch)
                    <= channel(column_b[y], ch) <= channel(column_a[y], ch) + d by {
                    lemma_cell_in_grid(w, h, x, y);
                    let q = y * w + x;
                    assert(channel(a[q], ch) <= channel(b[q], ch) <= channel(a[q], ch) + d);
                }
            }
            lemma_line_close(column_a, column_b, r, blur_alpha, ch, d);
            let line_a = blurred_line(column_a, r, exact(blur_alpha));
            let line_b = blurred_line(column_b, r, shifted(blur_alpha));
            assert(channel(line_a[p / w], ch) <= channel(line_b[p / w], ch) <= channel(
                line_a[p / w],
                ch,
            ) + d + 1);
        } else {
            assert(channel(a[p], ch) <= channel(b[p], ch) <= channel(a[p], ch) + d);
        }
    }
}

/// The two ways of dividing give nearly the same picture. In every channel
/// of every pixel, the blur with multiply-and-shift gives what the blur
/// with exact division gives, or up to two more: at most one more from each
/// pass.
pub proof fn lemma_divisor_strategies_close(
    s: Seq<u32>,
    w: int,
    h: int,
    r: int,
    blur_alpha: bool,
    ch: Channel,
)
    requires
        1 <= w,
        0 <= h,
        w * h <= s.len(),
        1 <= r <= 254,
    ensures
        within(
            blur_grid(s, w, h, r, exact(blur_alpha)),
            blur_grid(s, w, h, r, shifted(blur_alpha)),
            ch,
            2,
        ),
{
    assert(within(s, s, ch, 0));
    lemma_rows_close(s, s, w, h, r, blur_alpha, ch, 0);
    lemma_columns_close(
        blur_rows(s, w, h, r, exact(blur_alpha)),
        blur_rows(s, w, h, r, shifted(blur_alpha)),
        w,
        h,
        r,
        blur_alpha,
        ch,
        1,
    );
}

} // verus!
