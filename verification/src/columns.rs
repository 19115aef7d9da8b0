//! Grid line access: the rows and columns of a flat, row-major buffer as
//! sequences of positions.
//!
//! A line never holds the buffer. It is the arithmetic progression of the
//! positions of its cells; reading and writing go through the buffer, which
//! stays in one piece. Two different columns of one grid share no position,
//! so what is written through one is never seen through another.

use vstd::arithmetic::div_mod::lemma_fundamental_div_mod;
use vstd::arithmetic::div_mod::lemma_fundamental_div_mod_converse;
use vstd::prelude::*;

verus! {

/// The positions `start`, `start + stride`, `start + 2 * stride`, ..: `count`
/// of them.
#[derive(Clone, Copy, Debug, PartialEq, Eq, Structural)]
pub struct Line {
    /// The position of the first cell.
    pub start: usize,
    /// The distance from one cell to the next.
    pub stride: usize,
    /// The number of cells.
    pub count: usize,
}

impl Line {
    /// The position of the `k`-th cell.
    pub open spec fn position(&self, k: int) -> int {
        self.start + k * self.stride
    }

    /// Whether the cells are distinct.
    pub open spec fn wf(&self) -> bool {
        self.stride >= 1
    }

    /// Whether every cell lies in a buffer of `len` items.
    pub open spec fn fits(&self, len: int) -> bool {
        &&& self.wf()
        &&& self.count == 0 || self.position(self.count - 1) < len
    }

    /// Whether `p` is the position of one of the cells.
    pub open spec fn contains(&self, p: int) -> bool {
        &&& p >= self.start
        &&& (p - self.start) % (self.stride as int) == 0
        &&& (p - self.start) / (self.stride as int) < self.count
    }

    /// The cell that lies at position `p`, where one does.
    pub open spec fn index_of(&self, p: int) -> int {
        (p - self.start) / (self.stride as int)
    }

    /// The items of `s` in the cells of the line, in order.
    pub open spec fn cells<T>(&self, s: Seq<T>) -> Seq<T> {
        Seq::new(self.count as nat, |k: int| s[self.position(k)])
    }

    /// The buffer `s` with the cells of the line replaced by the items of
    /// `v`, in order, and everything else as it was.
    pub open spec fn scatter<T>(&self, s: Seq<T>, v: Seq<T>) -> Seq<T> {
        Seq::new(
            s.len(),
            |p: int|
                if self.contains(p) {
                    v[self.index_of(p)]
                } else {
                    s[p]
                },
        )
    }

    /// The cells of a line lie in order: a later cell has a larger position.
    pub proof fn lemma_position_monotone(&self, j: int, k: int)
        requires
            self.wf(),
            j < k,
        ensures
            self.position(j) < self.position(k),
            self.position(j) + self.stride <= self.position(k),
    {
        let s = self.stride as int;
        assert(j * s + s <= k * s) by (nonlinear_arith)
            requires
                j < k,
                s >= 1,
        ;
    }

    /// The position after that of cell `k` is that of cell `k + 1`.
    pub proof fn lemma_position_step(&self, k: int)
        ensures
            self.position(k + 1) == self.position(k) + self.stride,
    {
        let s = self.stride as int;
        assert((k + 1) * s == k * s + s) by (nonlinear_arith);
    }

    /// A cell's position belongs to the line, and leads back to the cell.
    pub proof fn lemma_contains_position(&self, k: int)
        requires
            self.wf(),
            0 <= k < self.count,
        ensures
            self.contains(self.position(k)),
            self.index_of(self.position(k)) == k,
    {
        let s = self.stride as int;
        lemma_fundamental_div_mod_converse(k * s, s, k, 0);
    }

    /// A position of the line is the position of the cell it leads to.
    pub proof fn lemma_position_of_contained(&self, p: int)
        requires
            self.wf(),
            self.contains(p),
        ensures
            0 <= self.index_of(p) < self.count,
            self.position(self.index_of(p)) == p,
    {
        let s = self.stride as int;
        let d = p - self.start;
        lemma_fundamental_div_mod(d, s);
        assert(s * (d / s) == (d / s) * s) by (nonlinear_arith);
        assert(d / s >= 0) by (nonlinear_arith)
            requires
                d >= 0,
                s >= 1,
                d == s * (d / s),
        ;
    }

    /// Every cell of a line that fits lies inside the buffer.
    pub proof fn lemma_position_in_bounds(&self, len: int, k: int)
        requires
            self.fits(len),
            0 <= k < self.count,
        ensures
            0 <= self.position(k) < len,
    {
        if k < self.count - 1 {
            self.lemma_position_monotone(k, self.count - 1);
        }
        let s = self.stride as int;
        assert(k * s >= 0) by (nonlinear_arith)
            requires
                k >= 0,
                s >= 1,
        ;
    }

    /// The number of cells.
    pub fn len(&self) -> (n: usize)
        ensures
            n == self.count,
    {
        self.count
    }

    /// The line cut down to its first `n` cells, or the whole line where it
    /// has no more than `n`.
    pub fn take(&self, n: usize) -> (l: Line)
        ensures
            l.start == self.start,
            l.stride == self.stride,
            l.count == if n < self.count {
                n
            } else {
                self.count
            },
    {
        Line {
            start: self.start,
            stride: self.stride,
            count: if n < self.count {
                n
            } else {
                self.count
            },
        }
    }

    /// The item of `buf` in cell `k`.
    pub fn get<'a, T>(&self, buf: &'a [T], k: usize) -> (item: &'a T)
        requires
            self.fits(buf@.len() as int),
            k < self.count,
        ensures
            *item == buf@[self.position(k as int)],
            *item == self.cells(buf@)[k as int],
    {
        proof {
            self.lemma_position_in_bounds(buf@.len() as int, k as int);
            assert(self.position(k as int) < buf.len());
            assert(0 <= k * self.stride) by (nonlinear_arith);
        }
        &buf[self.start + k * self.stride]
    }

    /// Puts `value` into cell `k` of `buf`. No other item of `buf` changes.
    pub fn set<T>(&self, buf: &mut [T], k: usize, value: T)
        requires
            self.fits(old(buf)@.len() as int),
            k < self.count,
        ensures
            final(buf)@ == old(buf)@.update(self.position(k as int), value),
    {
        proof {
            self.lemma_position_in_bounds(buf@.len() as int, k as int);
            assert(self.position(k as int) < buf.len());
            assert(0 <= k * self.stride) by (nonlinear_arith);
        }
        buf[self.start + k * self.stride] = value;
    }
}

/// The number of items in column `x` of `len` items laid out in rows of
/// `width`: the items at `x`, `x + width`, `x + 2 * width`, .. below `len`.
pub open spec fn column_count(len: int, width: int, x: int) -> int {
    if x < len {
        (len - x - 1) / width + 1
    } else {
        0
    }
}

/// Column `x` of `items` laid out in rows of `width`.
pub open spec fn column_of<T>(items: Seq<T>, x: int, width: int) -> Seq<T> {
    Seq::new(column_count(items.len() as int, width, x) as nat, |k: int| items[x + k * width])
}

/// The positions of column `x` in a buffer of `len` items laid out in rows
/// of `width`.
pub open spec fn column_line(len: usize, width: usize, x: usize) -> Line {
    Line {
        start: x,
        stride: width,
        count: column_count(len as int, width as int, x as int) as usize,
    }
}

/// A column has as many cells as fit below `len`, and no more.
pub proof fn lemma_column_count(len: int, width: int, x: int)
    requires
        0 <= x,
        0 <= len,
        1 <= width,
    ensures
        0 <= column_count(len, width, x) <= len,
        x < len ==> 1 <= column_count(len, width, x) <= len - x,
        x < len ==> x + (column_count(len, width, x) - 1) * width < len,
        x + column_count(len, width, x) * width >= len,
{
    if x < len {
        let a = len - x - 1;
        lemma_fundamental_div_mod(a, width);
        assert(width * (a / width) == (a / width) * width) by (nonlinear_arith);
        assert(0 <= a / width <= a) by (nonlinear_arith)
            requires
                a >= 0,
                width >= 1,
                a == (a / width) * width + a % width,
                0 <= a % width < width,
        ;
        assert((a / width + 1) * width == (a / width) * width + width) by (nonlinear_arith);
    } else {
        assert(0 * width == 0) by (nonlinear_arith);
    }
}

/// The line of a column fits the buffer it was made for, and its cells hold
/// the column.
pub proof fn lemma_column_line<T>(s: Seq<T>, width: usize, x: usize)
    requires
        1 <= width,
        s.len() <= usize::MAX,
    ensures
        column_line(s.len() as usize, width, x).fits(s.len() as int),
        column_line(s.len() as usize, width, x).cells(s) == column_of(s, x as int, width as int),
{
    lemma_column_count(s.len() as int, width as int, x as int);
    let line = column_line(s.len() as usize, width, x);
    assert(line.cells(s) =~= column_of(s, x as int, width as int));
}

/// Two different columns of one grid share no position.
pub proof fn lemma_columns_disjoint(len: usize, width: usize, x1: usize, x2: usize, p: int)
    requires
        x1 < width,
        x2 < width,
        x1 != x2,
    ensures
        !(column_line(len, width, x1).contains(p) && column_line(len, width, x2).contains(p)),
{
    let a = column_line(len, width, x1);
    let b = column_line(len, width, x2);
    if a.contains(p) && b.contains(p) {
        a.lemma_position_of_contained(p);
        b.lemma_position_of_contained(p);
        let w = width as int;
        lemma_fundamental_div_mod_converse(p, w, a.index_of(p), x1 as int);
        lemma_fundamental_div_mod_converse(p, w, b.index_of(p), x2 as int);
    }
}

/// Every position of the buffer belongs to a column: the one its place in
/// the row names.
pub proof fn lemma_columns_cover(len: usize, width: usize, p: int)
    requires
        1 <= width,
        0 <= p < len,
    ensures
        0 <= p % (width as int) < width,
        column_line(len, width, (p % (width as int)) as usize).contains(p),
{
    let w = width as int;
    let x = p % w;
    let q = p / w;
    lemma_fundamental_div_mod(p, w);
    assert(w * q == q * w) by (nonlinear_arith);
    assert(q >= 0) by (nonlinear_arith)
        requires
            p >= 0,
            w >= 1,
            p == q * w + x,
            0 <= x < w,
    ;
    lemma_fundamental_div_mod_converse(p - x, w, q, 0);
    // q is below the number of cells
    let a = len - x - 1;
    lemma_fundamental_div_mod(a, w);
    assert(q <= a / w) by (nonlinear_arith)
        requires
            q * w <= a,
            a == w * (a / w) + a % w,
            0 <= a % w < w,
            w >= 1,
    ;
    lemma_column_count(len as int, w, x);
}

/// A cursor over every `stride`-th item of a slice: the items still to come.
#[derive(Debug)]
pub struct SliceColumn<'a, T> {
    v: &'a [T],
    pos: usize,
    stride: usize,
    left: usize,
}

impl<'a, T> View for SliceColumn<'a, T> {
    type V = Seq<T>;

    /// The items still to come, in order.
    closed spec fn view(&self) -> Seq<T> {
        Seq::new(self.left as nat, |k: int| self.v@[self.pos + k * self.stride])
    }
}

impl<'a, T> SliceColumn<'a, T> {
    /// Whether every item still to come lies in the slice.
    pub closed spec fn wf(&self) -> bool {
        &&& self.stride >= 1
        &&& self.left == 0 || self.pos + (self.left - 1) * self.stride < self.v@.len()
    }

    /// A cursor over all items of `slice`.
    pub fn new(slice: &'a [T]) -> (c: Self)
        ensures
            c.wf(),
            c@ == slice@,
    {
        let c = SliceColumn { v: slice, pos: 0, stride: 1, left: slice.len() };
        assert(c@ =~= slice@);
        c
    }

    /// The number of items still to come.
    pub fn len(&self) -> (n: usize)
        ensures
            n == self@.len(),
    {
        self.left
    }

    /// The next item, if one is left.
    pub fn next(&mut self) -> (item: Option<&'a T>)
        requires
            old(self).wf(),
        ensures
            final(self).wf(),
            match item {
                Some(x) => {
                    &&& old(self)@.len() > 0
                    &&& *x == old(self)@[0]
                    &&& final(self)@ == old(self)@.drop_first()
                },
                None => {
                    &&& old(self)@.len() == 0
                    &&& final(self)@ == old(self)@
                },
            },
    {
        if self.left == 0 {
            return None;
        }
        let ghost before = *self;
        proof {
            let s = self.stride as int;
            assert(0 * s == 0) by (nonlinear_arith);
            assert(0 <= (self.left - 1) * s) by (nonlinear_arith)
                requires
                    self.left >= 1,
                    s >= 1,
            ;
            assert(self.pos < self.v.len());
        }
        let item = &self.v[self.pos];
        self.left = self.left - 1;
        if self.left > 0 {
            proof {
                let s = self.stride as int;
                assert((self.left) * s == (self.left - 1) * s + s) by (nonlinear_arith);
                assert(0 <= (self.left - 1) * s) by (nonlinear_arith)
                    requires
                        self.left >= 1,
                        s >= 1,
                ;
                assert(self.pos + self.stride < self.v.len());
            }
            self.pos = self.pos + self.stride;
        }
        proof {
            let s = self.stride as int;
            assert forall|k: int| 0 <= k < self.left implies self@[k] == before@[k + 1] by {
                assert((k + 1) * s == k * s + s) by (nonlinear_arith);
            }
            assert(self@ =~= before@.drop_first());
        }
        Some(item)
    }
}

/// A source of items laid out in rows, of which one column can be taken.
pub trait ColumnIter: Sized {
    /// What the source gives out.
    type Item;

    /// Whether the source is in order.
    spec fn well_formed(&self) -> bool;

    /// The items that the source still gives out.
    spec fn items(&self) -> Seq<Self::Item>;

    /// Column `x` of the items laid out in rows of `width`: the item at
    /// `x` and every `width`-th item after it.
    fn column(self, x: usize, width: usize) -> (c: Self)
        requires
            self.well_formed(),
            width >= 1,
        ensures
            c.well_formed(),
            c.items() == column_of(self.items(), x as int, width as int),
    ;
}

impl<'a, T> ColumnIter for SliceColumn<'a, T> {
    type Item = T;

    open spec fn well_formed(&self) -> bool {
        self.wf()
    }

    open spec fn items(&self) -> Seq<T> {
        self@
    }

    fn column(self, x: usize, width: usize) -> (c: Self) {
        if x >= self.left {
            let c = SliceColumn { v: self.v, pos: self.pos, stride: self.stride, left: 0 };
            assert(c@ =~= column_of(self@, x as int, width as int));
            return c;
        }
        let rest = self.left - x - 1;
        let left = rest / width + 1;
        proof {
            let s = self.stride as int;
            let w = width as int;
            lemma_column_count(self.left as int, w, x as int);
            let far = x + (left - 1) * w;
            assert(far <= self.left - 1);
            assert(0 <= x * s <= far * s <= (self.left - 1) * s) by (nonlinear_arith)
                requires
                    0 <= x <= far <= self.left - 1,
                    s >= 1,
            ;
            assert(self.pos + x * s < self.v.len());
            if left >= 2 {
                assert(far >= w) by (nonlinear_arith)
                    requires
                        far == x + (left - 1) * w,
                        left >= 2,
                        x >= 0,
                        w >= 1,
                ;
                assert(w * s <= far * s) by (nonlinear_arith)
                    requires
                        far >= w,
                        s >= 1,
                        w >= 1,
                ;
                assert(s * w == w * s) by (nonlinear_arith);
            }
        }
        let pos = self.pos + x * self.stride;
        let stride = if left >= 2 {
            self.stride * width
        } else {
            self.stride
        };
        let c = SliceColumn { v: self.v, pos, stride, left };
        proof {
            let s = self.stride as int;
            let w = width as int;
            let far = x + (left - 1) * w;
            assert forall|k: int| 0 <= k < left implies c@[k] == self@[x + k * w] by {
                if left >= 2 {
                    assert(x * s + k * (s * w) == (x + k * w) * s) by (nonlinear_arith);
                } else {
                    assert(x * s + 0 * s == (x + 0 * w) * s) by (nonlinear_arith);
                }
                assert(0 <= x + k * w <= far) by (nonlinear_arith)
                    requires
                        0 <= k <= left - 1,
                        w >= 1,
                        far == x + (left - 1) * w,
                        x >= 0,
                ;
            }
            assert(c@ =~= column_of(self@, x as int, width as int));
            assert(far * s <= (self.left - 1) * s) by (nonlinear_arith)
                requires
                    far <= self.left - 1,
                    s >= 1,
            ;
            if left >= 2 {
                assert(s * w >= 1) by (nonlinear_arith)
                    requires
                        s >= 1,
                        w >= 1,
                ;
                assert(x * s + (left - 1) * (s * w) == far * s) by (nonlinear_arith)
                    requires
                        far == x + (left - 1) * w,
                ;
                assert(c.pos + (c.left - 1) * c.stride == self.pos + far * s);
            } else {
                assert((left - 1) * s == 0) by (nonlinear_arith)
                    requires
                        left == 1,
                ;
                assert(far == x) by (nonlinear_arith)
                    requires
                        far == x + (left - 1) * w,
                        left == 1,
                ;
            }
            assert(c.wf());
        }
        c
    }
}

/// The columns of a slice laid out in rows of `width`, one after the other,
/// for reading.
#[derive(Debug)]
pub struct Columns<'a, T> {
    v: &'a [T],
    width: usize,
    x: usize,
}

impl<'a, T> View for Columns<'a, T> {
    type V = Seq<Seq<T>>;

    /// The columns still to come, each as the sequence of its items.
    closed spec fn view(&self) -> Seq<Seq<T>> {
        if self.v@.len() == 0 {
            Seq::empty()
        } else {
            Seq::new(
                (self.width - self.x) as nat,
                |k: int| column_of(self.v@, self.x + k, self.width as int),
            )
        }
    }
}

/// All columns of `items` laid out in rows of `width`. Nothing has a column
/// where there are no items.
pub open spec fn columns_of<T>(items: Seq<T>, width: int) -> Seq<Seq<T>> {
    if items.len() == 0 {
        Seq::empty()
    } else {
        Seq::new(width as nat, |x: int| column_of(items, x, width))
    }
}

impl<'a, T> Columns<'a, T> {
    /// Whether no more columns were given out than there are.
    pub closed spec fn wf(&self) -> bool {
        self.x <= self.width
    }

    /// The columns of `slice` laid out in rows of `width`.
    pub fn new(slice: &'a [T], width: usize) -> (c: Self)
        ensures
            c.wf(),
            c@ == columns_of(slice@, width as int),
    {
        let c = Columns { v: slice, width, x: 0 };
        assert(c@ =~= columns_of(slice@, width as int));
        c
    }

    /// The next column, if one is left.
    pub fn next(&mut self) -> (column: Option<SliceColumn<'a, T>>)
        requires
            old(self).wf(),
        ensures
            final(self).wf(),
            match column {
                Some(c) => {
                    &&& old(self)@.len() > 0
                    &&& c.wf()
                    &&& c@ == old(self)@[0]
                    &&& final(self)@ == old(self)@.drop_first()
                },
                None => {
                    &&& old(self)@.len() == 0
                    &&& final(self)@ == old(self)@
                },
            },
    {
        if self.v.len() == 0 || self.x == self.width {
            None
        } else {
            let ghost before = *self;
            self.x = self.x + 1;
            let c = self.v.column(self.x - 1, self.width);
            assert(self@ =~= before@.drop_first());
            Some(c)
        }
    }
}

/// The columns of a buffer laid out in rows of `width`, one after the
/// other, for writing: each is given out as the line of its positions.
#[derive(Debug)]
pub struct ColumnsMut {
    len: usize,
    width: usize,
    x: usize,
}

/// The lines of all columns of a buffer of `len` items laid out in rows of
/// `width`. Nothing has a column where there are no items.
pub open spec fn column_lines(len: usize, width: usize) -> Seq<Line> {
    if len == 0 {
        Seq::empty()
    } else {
        Seq::new(width as nat, |x: int| column_line(len, width, x as usize))
    }
}

impl View for ColumnsMut {
    type V = Seq<Line>;

    /// The lines of the columns still to come.
    closed spec fn view(&self) -> Seq<Line> {
        if self.len == 0 {
            Seq::empty()
        } else {
            Seq::new(
                (self.width - self.x) as nat,
                |k: int| column_line(self.len, self.width, (self.x + k) as usize),
            )
        }
    }
}

impl ColumnsMut {
    /// Whether no more columns were given out than there are.
    pub closed spec fn wf(&self) -> bool {
        self.x <= self.width
    }

    /// The columns of `slice` laid out in rows of `width`.
    pub fn new<T>(slice: &[T], width: usize) -> (c: Self)
        ensures
            c.wf(),
            c@ == column_lines(slice@.len() as usize, width),
    {
        let c = ColumnsMut { len: slice.len(), width, x: 0 };
        assert(c@ =~= column_lines(slice@.len() as usize, width));
        c
    }

    /// The line of the next column, if one is left.
    pub fn next(&mut self) -> (column: Option<Line>)
        requires
            old(self).wf(),
        ensures
            final(self).wf(),
            match column {
                Some(line) => {
                    &&& old(self)@.len() > 0
                    &&& line == old(self)@[0]
                    &&& final(self)@ == old(self)@.drop_first()
                },
                None => {
                    &&& old(self)@.len() == 0
                    &&& final(self)@ == old(self)@
                },
            },
    {
        if self.len == 0 || self.x == self.width {
            None
        } else {
            let ghost before = *self;
            let line = line_of_column(self.len, self.width, self.x);
            self.x = self.x + 1;
            assert(self@ =~= before@.drop_first());
            Some(line)
        }
    }
}

/// The line of column `x` of a buffer of `len` items laid out in rows of
/// `width`.
pub fn line_of_column(len: usize, width: usize, x: usize) -> (line: Line)
    requires
        width >= 1,
    ensures
        line == column_line(len, width, x),
        line.fits(len as int),
{
    proof {
        lemma_column_count(len as int, width as int, x as int);
    }
    let count = if x < len {
        (len - x - 1) / width + 1
    } else {
        0
    };
    Line { start: x, stride: width, count }
}

/// A slice seen as a grid of rows of a given width.
pub trait GridSlice<T> {
    /// The items of the grid, row by row.
    spec fn items(&self) -> Seq<T>;

    /// Column `x`, for reading.
    fn column(&self, x: usize, width: usize) -> (c: SliceColumn<'_, T>)
        requires
            width >= 1,
        ensures
            c.wf(),
            c@ == column_of(self.items(), x as int, width as int),
    ;

    /// Column `x`, for writing: the line of its positions.
    fn column_mut(&mut self, x: usize, width: usize) -> (line: Line)
        requires
            width >= 1,
        ensures
            final(self).items() == old(self).items(),
            line == column_line(old(self).items().len() as usize, width, x),
            line.fits(old(self).items().len() as int),
            line.cells(old(self).items()) == column_of(old(self).items(), x as int, width as int),
    ;

    /// All columns, for reading.
    fn columns(&self, width: usize) -> (c: Columns<'_, T>)
        ensures
            c.wf(),
            c@ == columns_of(self.items(), width as int),
    ;

    /// All columns, for writing.
    fn columns_mut(&mut self, width: usize) -> (c: ColumnsMut)
        ensures
            final(self).items() == old(self).items(),
            c.wf(),
            c@ == column_lines(old(self).items().len() as usize, width),
    ;
}

impl<T> GridSlice<T> for [T] {
    open spec fn items(&self) -> Seq<T> {
        self@
    }

    fn column(&self, x: usize, width: usize) -> (c: SliceColumn<'_, T>) {
        SliceColumn::new(self).column(x, width)
    }

    fn column_mut(&mut self, x: usize, width: usize) -> (line: Line) {
        proof {
            assert(self@.len() == self.len());
            lemma_column_line(self@, width, x);
        }
        line_of_column(self.len(), width, x)
    }

    fn columns(&self, width: usize) -> (c: Columns<'_, T>) {
        Columns::new(self, width)
    }

    fn columns_mut(&mut self, width: usize) -> (c: ColumnsMut) {
        ColumnsMut::new(self, width)
    }
}

} // verus!
