//! A spatial bucketing structure: a row-major grid of cells over a bounded
//! coordinate space, each cell holding the data that falls into that square
//! of space.
//!
//! The cell side is `bounds.max_y / rows` coordinate units, so cells are
//! square in the underlying coordinate system; the number of columns follows
//! from the aspect ratio of the bounds.

use vstd::prelude::*;

use crate::shared::Bounds;
use vstd::arithmetic::div_mod::lemma_div_pos_is_pos;
use vstd::arithmetic::div_mod::lemma_fundamental_div_mod;
use vstd::arithmetic::div_mod::lemma_multiply_divide_lt;

verus! {

/// How many columns a grid with this row count has over these bounds: the
/// smallest number that covers `max_x` with square cells.
pub open spec fn spec_grid_cols(rows: u32, bounds: Bounds) -> int {
    (bounds.max_x * rows + bounds.max_y - 1) as int / bounds.max_y as int
}

/// A spatial bucket grid.  `rows` determines the granularity; every cell is
/// `max_y / rows` coordinate units on each side.
pub struct GranularGrid<T> {
    pub rows: u32,
    pub cols: u32,
    pub bounds: Bounds,
    /// The flat, row-major cell storage; use `cell` and the methods to read
    /// and grow it consistently with the shape invariant.
    pub cells: Vec<Vec<T>>,
}

impl<T> GranularGrid<T> {
    /// The shape invariant: the dimensions agree with the bounds and the
    /// flat cell vector has exactly `rows * cols` entries.
    pub open spec fn wf(self) -> bool {
        &&& self.bounds.wf()
        &&& 1 <= self.rows
        &&& self.cols == spec_grid_cols(self.rows, self.bounds)
        &&& self.cells@.len() == self.rows * self.cols
    }

    /// The contents of the cell at `(row, col)`.
    pub open spec fn cell(self, row: int, col: int) -> Seq<T> {
        self.cells@[row * self.cols + col]@
    }

    /// The row of cells that covers the coordinate `y`.
    pub open spec fn spec_row_of(self, y: u32) -> int {
        (y * self.rows) as int / self.bounds.max_y as int
    }

    /// The column of cells that covers the coordinate `x`; the ratio is the
    /// same as for rows, which is what makes the cells square.
    pub open spec fn spec_col_of(self, x: u32) -> int {
        (x * self.rows) as int / self.bounds.max_y as int
    }

    /// An in-bounds coordinate falls in an in-range row.
    pub proof fn lemma_row_of_in_range(self, y: u32)
        requires
            self.wf(),
            y < self.bounds.max_y,
        ensures
            0 <= self.spec_row_of(y) < self.rows,
    {
        let r = self.rows as int;
        let my = self.bounds.max_y as int;
        assert(y * r < my * r) by (nonlinear_arith)
            requires
                0 <= y < my,
                r >= 1,
        ;
        assert(y * r >= 0) by (nonlinear_arith)
            requires
                y >= 0,
                r >= 0,
        ;
        lemma_div_pos_is_pos(y * r, my);
        lemma_multiply_divide_lt(y * r, my, r);
    }

    /// An in-bounds coordinate falls in an in-range column.
    pub proof fn lemma_col_of_in_range(self, x: u32)
        requires
            self.wf(),
            x < self.bounds.max_x,
        ensures
            0 <= self.spec_col_of(x) < self.cols,
    {
        let r = self.rows as int;
        let mx = self.bounds.max_x as int;
        let my = self.bounds.max_y as int;
        let cols = spec_grid_cols(self.rows, self.bounds);
        lemma_fundamental_div_mod(mx * r + my - 1, my);
        assert(cols * my >= mx * r);
        assert(x * r < mx * r && x * r >= 0) by (nonlinear_arith)
            requires
                0 <= x < mx,
                r >= 1,
        ;
        assert(x * r < my * cols);
        lemma_div_pos_is_pos(x * r, my);
        lemma_multiply_divide_lt(x * r, my, cols);
    }

    /// A fresh grid over the given bounds, every cell empty.
    pub fn new(rows: u32, bounds: &Bounds) -> (r: Self)
        requires
            bounds.wf(),
            1 <= rows,
            spec_grid_cols(rows, *bounds) <= u32::MAX,
            rows * spec_grid_cols(rows, *bounds) <= usize::MAX,
        ensures
            r.wf(),
            r.rows == rows,
            r.cols == spec_grid_cols(rows, *bounds),
            r.bounds == *bounds,
            forall|row: int, col: int|
                0 <= row < rows && 0 <= col < r.cols ==> r.cell(row, col).len() == 0,
    {
        proof {
            assert(bounds.max_x as int * rows as int + bounds.max_y <= u64::MAX)
                by (nonlinear_arith)
                requires
                    bounds.max_x <= u32::MAX,
                    rows <= u32::MAX,
                    bounds.max_y <= u32::MAX,
            ;
        }
        let cols_wide: u64 = (bounds.max_x as u64 * rows as u64 + bounds.max_y as u64 - 1)
            / bounds.max_y as u64;
        let cols: u32 = cols_wide as u32;
        proof {
            assert(rows as int * cols as int <= u64::MAX) by (nonlinear_arith)
                requires
                    rows <= u32::MAX,
                    cols <= u32::MAX,
            ;
        }
        let size: usize = (rows as u64 * cols as u64) as usize;
        let mut cells: Vec<Vec<T>> = Vec::new();
        let mut i: usize = 0;
        while i < size
            invariant
                i <= size,
                cells@.len() == i,
                forall|k: int| 0 <= k < i ==> (#[trigger] cells@[k])@.len() == 0,
            decreases size - i,
        {
            cells.push(Vec::new());
            i = i + 1;
        }
        let r = GranularGrid { rows, cols, bounds: *bounds, cells };
        proof {
            assert forall|row: int, col: int|
                0 <= row < rows && 0 <= col < r.cols implies r.cell(row, col).len() == 0 by {
                assert(0 <= row * r.cols + col < r.cells@.len()) by (nonlinear_arith)
                    requires
                        0 <= row < r.rows,
                        0 <= col < r.cols,
                        r.cells@.len() == r.rows * r.cols,
                ;
            }
        }
        r
    }

    /// The contents of the cell at a (row, col) index.
    pub fn get_int_index(&self, row: u32, col: u32) -> (r: &Vec<T>)
        requires
            self.wf(),
            row < self.rows,
            col < self.cols,
        ensures
            r@ == self.cell(row as int, col as int),
    {
        let n = self.cells.len();
        proof {
            assert(0 <= row * self.cols + col < self.cells@.len()) by (nonlinear_arith)
                requires
                    0 <= row < self.rows,
                    0 <= col < self.cols,
                    self.cells@.len() == self.rows * self.cols,
            ;
            assert(row as int * self.cols as int + col as int <= u32::MAX as int * u32::MAX as int
                + u32::MAX) by (nonlinear_arith)
                requires
                    0 <= row <= u32::MAX,
                    0 <= col <= u32::MAX,
                    self.cols <= u32::MAX,
            ;
        }
        &self.cells[(row as usize * self.cols as usize) + col as usize]
    }

    /// The row of cells that covers the coordinate `y`.
    pub fn row_of(&self, y: u32) -> (r: u32)
        requires
            self.wf(),
            y < self.bounds.max_y,
        ensures
            r == self.spec_row_of(y),
            r < self.rows,
    {
        proof {
            self.lemma_row_of_in_range(y);
            assert(y as int * self.rows as int <= u64::MAX) by (nonlinear_arith)
                requires
                    y <= u32::MAX,
                    self.rows <= u32::MAX,
            ;
        }
        ((y as u64 * self.rows as u64) / self.bounds.max_y as u64) as u32
    }

    /// The column of cells that covers the coordinate `x`.
    pub fn col_of(&self, x: u32) -> (r: u32)
        requires
            self.wf(),
            x < self.bounds.max_x,
        ensures
            r == self.spec_col_of(x),
            r < self.cols,
    {
        proof {
            self.lemma_col_of_in_range(x);
            assert(x as int * self.rows as int <= u64::MAX) by (nonlinear_arith)
                requires
                    x <= u32::MAX,
                    self.rows <= u32::MAX,
            ;
        }
        ((x as u64 * self.rows as u64) / self.bounds.max_y as u64) as u32
    }

    /// Append a value to the cell at a (row, col) index.
    pub fn push_at(&mut self, row: u32, col: u32, value: T)
        requires
            old(self).wf(),
            row < old(self).rows,
            col < old(self).cols,
        ensures
            final(self).wf(),
            final(self).rows == old(self).rows,
            final(self).cols == old(self).cols,
            final(self).bounds == old(self).bounds,
            final(self).cell(row as int, col as int) == old(self).cell(
                row as int,
                col as int,
            ).push(value),
            forall|r2: int, c2: int|
                0 <= r2 < old(self).rows && 0 <= c2 < old(self).cols && !(r2 == row && c2 == col)
                    ==> final(self).cell(r2, c2) == old(self).cell(r2, c2),
    {
        proof {
            assert(0 <= row * self.cols + col < self.cells@.len()) by (nonlinear_arith)
                requires
                    0 <= row < self.rows,
                    0 <= col < self.cols,
                    self.cells@.len() == self.rows * self.cols,
            ;
            assert(row as int * self.cols as int + col as int <= u32::MAX as int * u32::MAX as int
                + u32::MAX) by (nonlinear_arith)
                requires
                    0 <= row <= u32::MAX,
                    0 <= col <= u32::MAX,
                    self.cols <= u32::MAX,
            ;
        }
        let n = self.cells.len();
        let idx: usize = (row as usize * self.cols as usize) + col as usize;
        self.cells[idx].push(value);
        proof {
            assert forall|r2: int, c2: int|
                0 <= r2 < old(self).rows && 0 <= c2 < old(self).cols && !(r2 == row && c2 == col)
                    implies self.cell(r2, c2) == old(self).cell(r2, c2) by {
                assert(r2 * self.cols + c2 != row as int * self.cols as int + col as int)
                    by (nonlinear_arith)
                    requires
                        0 <= r2 < self.rows,
                        0 <= c2 < self.cols,
                        0 <= row < self.rows,
                        0 <= col < self.cols,
                        !(r2 == row && c2 == col),
                ;
                assert(0 <= r2 * self.cols + c2 < self.cells@.len()) by (nonlinear_arith)
                    requires
                        0 <= r2 < self.rows,
                        0 <= c2 < self.cols,
                        self.cells@.len() == self.rows * self.cols,
                ;
            }
        }
    }
}

} // verus!
