//! The blur of a whole grid: what the two passes make of a buffer.
//!
//! A grid of `w` by `h` pixels lies row by row in the first `w * h` places
//! of a buffer. The pixel of row `y` and column `x` lies at `y * w + x`.
//! What lies behind the grid belongs to no row and no column, and no pass
//! touches it.

use crate::line::blurred_line;
use crate::options::Options;
use vstd::arithmetic::div_mod::lemma_fundamental_div_mod;
use vstd::arithmetic::div_mod::lemma_fundamental_div_mod_converse;
use vstd::prelude::*;

verus! {

/// Row `y` of the grid.
pub open spec fn grid_row(s: Seq<u32>, w: int, y: int) -> Seq<u32> {
    Seq::new(w as nat, |x: int| s[y * w + x])
}

/// Column `x` of the grid.
pub open spec fn grid_column(s: Seq<u32>, w: int, h: int, x: int) -> Seq<u32> {
    Seq::new(h as nat, |y: int| s[y * w + x])
}

/// The buffer after the horizontal pass: every row of the grid blurred.
pub open spec fn blur_rows(s: Seq<u32>, w: int, h: int, r: int, o: Options) -> Seq<u32> {
    Seq::new(
        s.len(),
        |p: int|
            if p < w * h {
                blurred_line(grid_row(s, w, p / w), r, o)[p % w]
            } else {
                s[p]
            },
    )
}

/// The buffer after the vertical pass: every column of the grid blurred.
pub open spec fn blur_columns(s: Seq<u32>, w: int, h: int, r: int, o: Options) -> Seq<u32> {
    Seq::new(
        s.len(),
        |p: int|
            if p < w * h {
                blurred_line(grid_column(s, w, h, p % w), r, o)[p / w]
            } else {
                s[p]
            },
    )
}

/// The buffer after both passes: rows first, then columns.
pub open spec fn blur_grid(s: Seq<u32>, w: int, h: int, r: int, o: Options) -> Seq<u32> {
    blur_columns(blur_rows(s, w, h, r, o), w, h, r, o)
}

/// The place `y * w + x` is in row `y` and column `x`.
pub proof fn lemma_cell(w: int, x: int, y: int)
    requires
        0 <= x < w,
    ensures
        (y * w + x) / w == y,
        (y * w + x) % w == x,
{
    lemma_fundamental_div_mod_converse(y * w + x, w, y, x);
}

/// Every place has a row and a column, and lies where they say.
pub proof fn lemma_place(p: int, w: int)
    requires
        0 <= p,
        1 <= w,
    ensures
        p == (p / w) * w + p % w,
        0 <= p % w < w,
        0 <= p / w,
{
    lemma_fundamental_div_mod(p, w);
    assert(w * (p / w) == (p / w) * w) by (nonlinear_arith);
    assert(p / w >= 0) by (nonlinear_arith)
        requires
            p >= 0,
            w >= 1,
            p == w * (p / w) + p % w,
            0 <= p % w < w,
    ;
}

/// A place lies in the grid exactly if its row does.
pub proof fn lemma_in_grid(p: int, w: int, h: int)
    requires
        0 <= p,
        1 <= w,
        0 <= h,
    ensures
        p < w * h <==> p / w < h,
{
    lemma_place(p, w);
    let q = p / w;
    let m = p % w;
    assert(q < h ==> q * w + m < w * h) by (nonlinear_arith)
        requires
            0 <= m < w,
    ;
    assert(q >= h ==> q * w + m >= w * h) by (nonlinear_arith)
        requires
            0 <= m < w,
            0 <= h,
    ;
}

/// Whether a buffer of `len` pixels holds a grid of `width` by `height`.
pub fn holds_grid(len: usize, width: usize, height: usize) -> (b: bool)
    requires
        width >= 1,
    ensures
        b <==> width * height <= len,
{
    proof {
        lemma_in_grid(len as int, width as int, height as int);
    }
    len / width >= height
}

} // verus!
