//! The two passes: every row of a grid blurred, and every column.
//!
//! A pass takes the grid line by line. The lines of a pass share no pixel,
//! so what a pass writes into one line it never reads for another.

use crate::columns::column_line;
use crate::columns::column_lines;
use crate::columns::GridSlice;
use crate::columns::lemma_column_count;
use crate::columns::Line;
use crate::grid::blur_columns;
use crate::grid::blur_rows;
use crate::grid::grid_column;
use crate::grid::grid_row;
use crate::grid::lemma_cell;
use crate::grid::lemma_in_grid;
use crate::grid::lemma_place;
use crate::line::blur_line;
use crate::line::blur_line_recomputed;
use crate::line::blurred_line;
use crate::options::Options;
use crate::options::Scaler;
use vstd::prelude::*;

verus! {

/// How the weighted sums of the window are had for each pixel.
#[derive(Clone, Copy, Debug, PartialEq, Eq, Structural)]
pub enum Update {
    /// Kept up to date from one pixel to the next.
    Sliding,
    /// Computed afresh from the window.
    Recomputed,
}

/// Blurs one line the way `update` says. The result is the same either
/// way.
fn blur_one(src: &mut [u32], line: &Line, scaler: &Scaler, blur_alpha: bool, update: Update)
    requires
        line.fits(old(src)@.len() as int),
        line.count >= 1,
        scaler.wf(),
    ensures
        final(src)@ == line.scatter(
            old(src)@,
            blurred_line(
                line.cells(old(src)@),
                scaler.radius() as int,
                scaler.options(blur_alpha),
            ),
        ),
{
    match update {
        Update::Sliding => blur_line(src, line, scaler, blur_alpha),
        Update::Recomputed => blur_line_recomputed(src, line, scaler, blur_alpha),
    }
}

/// Blurs the first `rows` rows of `width` pixels each.
pub fn pass_rows(
    src: &mut [u32],
    width: usize,
    rows: usize,
    radius: u32,
    o: Options,
    update: Update,
)
    requires
        width >= 1,
        width * rows <= old(src)@.len(),
        1 <= radius <= 254,
    ensures
        final(src)@ == blur_rows(old(src)@, width as int, rows as int, radius as int, o),
{
    let ghost orig = src@;
    let ghost w = width as int;
    let ghost r = radius as int;
    let ghost done = blur_rows(orig, w, rows as int, r, o);
    let ghost len = orig.len() as int;
    let scaler = Scaler::new(radius, o.divisor);
    let mut y: usize = 0;
    let mut start: usize = 0;
    proof {
        assert(0 * w == 0) by (nonlinear_arith);
    }
    while y < rows
        invariant
            width >= 1,
            w == width,
            r == radius,
            1 <= radius <= 254,
            scaler.wf(),
            scaler.radius() == radius,
            scaler.options(o.blur_alpha) == o,
            w * rows <= len,
            len == orig.len(),
            src@.len() == len,
            done == blur_rows(orig, w, rows as int, r, o),
            y <= rows,
            start == y * w,
            forall|p: int|
                0 <= p < len ==> src@[p] == if p < y * w {
                    done[p]
                } else {
                    orig[p]
                },
        decreases rows - y,
    {
        let line = Line { start, stride: 1, count: width };
        let ghost before = src@;
        proof {
            assert((y + 1) * w == y * w + w) by (nonlinear_arith);
            assert((y + 1) * w <= w * rows) by (nonlinear_arith)
                requires
                    y + 1 <= rows,
                    w >= 0,
            ;
            assert(line.position(width - 1) == start + width - 1);
        }
        blur_one(src, &line, &scaler, o.blur_alpha, update);
        proof {
            let row = grid_row(orig, w, y as int);
            assert(line.cells(before) =~= row) by {
                assert forall|x: int| 0 <= x < w implies line.cells(before)[x] == row[x] by {
                    assert(line.position(x) == y * w + x);
                }
            }
            assert forall|p: int| 0 <= p < len implies src@[p] == if p < (y + 1) * w {
                done[p]
            } else {
                orig[p]
            } by {
                assert((p - start) % 1 == 0);
                assert((p - start) / 1 == p - start);
                if start <= p < start + w {
                    assert(line.contains(p));
                    assert(line.index_of(p) == p - start);
                    lemma_cell(w, p - start, y as int);
                } else {
                    assert(!line.contains(p));
                }
            }
            assert(start + width <= src.len());
        }
        start += width;
        y += 1;
    }
    proof {
        assert(rows * w == w * rows) by (nonlinear_arith);
        assert(src@ =~= done);
    }
}

/// Blurs the `width` columns of the first `height` rows.
pub fn pass_columns(
    src: &mut [u32],
    width: usize,
    height: usize,
    radius: u32,
    o: Options,
    update: Update,
)
    requires
        width >= 1,
        height >= 1,
        width * height <= old(src)@.len(),
        1 <= radius <= 254,
    ensures
        final(src)@ == blur_columns(old(src)@, width as int, height as int, radius as int, o),
{
    let ghost orig = src@;
    let ghost w = width as int;
    let ghost h = height as int;
    let ghost r = radius as int;
    let ghost done = blur_columns(orig, w, h, r, o);
    let ghost len = orig.len() as int;
    let scaler = Scaler::new(radius, o.divisor);
    let mut columns = src.columns_mut(width);
    let ghost all = columns@;
    let ghost mut x: int = 0;
    proof {
        assert(len >= 1) by (nonlinear_arith)
            requires
                w * h <= len,
                w >= 1,
                h >= 1,
        ;
        assert(len == src.len());
        assert(columns@ =~= all.subrange(0, w));
    }
    loop
        invariant
            width >= 1,
            height >= 1,
            w == width,
            h == height,
            r == radius,
            1 <= radius <= 254,
            scaler.wf(),
            scaler.radius() == radius,
            scaler.options(o.blur_alpha) == o,
            w * h <= len,
            1 <= len <= usize::MAX,
            len == orig.len(),
            src@.len() == len,
            done == blur_columns(orig, w, h, r, o),
            0 <= x <= w,
            columns.wf(),
            all == column_lines(len as usize, width),
            columns@ == all.subrange(x, w),
            forall|p: int|
                0 <= p < len ==> src@[p] == if p < w * h && p % w < x {
                    done[p]
                } else {
                    orig[p]
                },
        ensures
            x == w,
        decreases w - x,
    {
        let column = match columns.next() {
            Some(column) => column,
            None => {
                break ;
            },
        };
        let line = column.take(height);
        let ghost before = src@;
        proof {
            assert(column == all[x]);
            assert(column == column_line(len as usize, width, x as usize));
            lemma_column_count(len, w, x);
            assert((h - 1) * w + x < w * h) by (nonlinear_arith)
                requires
                    0 <= x < w,
                    h >= 1,
            ;
            assert(column.count >= h) by (nonlinear_arith)
                requires
                    x + column.count * w >= len,
                    (h - 1) * w + x < len,
                    w >= 1,
            ;
            assert(columns@ =~= all.subrange(x + 1, w));
        }
        blur_one(src, &line, &scaler, o.blur_alpha, update);
        proof {
            let column = grid_column(orig, w, h, x);
            assert(line.cells(before) =~= column) by {
                assert forall|y: int| 0 <= y < h implies line.cells(before)[y] == column[y] by {
                    lemma_cell(w, x, y);
                    assert(line.position(y) == y * w + x);
                    assert(0 <= y * w + x < w * h) by (nonlinear_arith)
                        requires
                            0 <= x < w,
                            0 <= y < h,
                    ;
                }
            }
            assert forall|p: int| 0 <= p < len implies src@[p] == if p < w * h && p % w < x + 1 {
                done[p]
            } else {
                orig[p]
            } by {
                lemma_place(p, w);
                lemma_in_grid(p, w, h);
                if p < w * h && p % w == x {
                    // p is cell p / w of the column
                    lemma_cell(w, 0, p / w);
                    assert(p - x == (p / w) * w + 0);
                    assert(line.contains(p));
                    assert(line.index_of(p) == p / w);
                } else if line.contains(p) {
                    // a cell of the column lies in the grid, in column x
                    line.lemma_position_of_contained(p);
                    let k = line.index_of(p);
                    assert(p == k * w + x);
                    lemma_cell(w, x, k);
                }
            }
            x = x + 1;
        }
    }
    proof {
        assert forall|p: int| 0 <= p < len implies src@[p] == done[p] by {
            lemma_place(p, w);
        }
        assert(src@ =~= done);
    }
}

} // verus!
