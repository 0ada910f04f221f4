//! Building the grid: the row-major sequence of cells.
//!
//! The area's height is split into `grid_rows(n)` bands and its width
//! into `grid_cols(n)` bands; cell `i` combines column band `i % cols`
//! with row band `i / cols`. Cells are emitted in row-major order and
//! cut off after exactly `n`, even mid-row when `cols * rows > n`.

use vstd::prelude::*;
use vstd::arithmetic::div_mod::lemma_mod_bound;
use vstd::arithmetic::div_mod::lemma_multiply_divide_lt;
use vstd::arithmetic::div_mod::lemma_div_pos_is_pos;
use crate::dims::grid_cols;
use crate::dims::grid_rows;
use crate::dims::grid_dims;
use crate::dims::lemma_grid_shape;
use crate::rect::Rect;
use crate::split::band_pos;
use crate::split::band_size;
use crate::split::split_extent;
use crate::split::lemma_band_within;
use crate::split::lemma_band_size_bounds;

verus! {

/// The x-coordinate of cell `i` in the grid for `(area, n, spacing)`.
pub open spec fn cell_x(area: Rect, n: int, spacing: int, i: int) -> int {
    band_pos(area.x as int, area.width as int, grid_cols(n), spacing, i % grid_cols(n))
}

/// The y-coordinate of cell `i`.
pub open spec fn cell_y(area: Rect, n: int, spacing: int, i: int) -> int {
    band_pos(area.y as int, area.height as int, grid_rows(n), spacing, i / grid_cols(n))
}

/// The width of cell `i`.
pub open spec fn cell_w(area: Rect, n: int, spacing: int, i: int) -> int {
    band_size(area.width as int, grid_cols(n), spacing, i % grid_cols(n))
}

/// The height of cell `i`.
pub open spec fn cell_h(area: Rect, n: int, spacing: int, i: int) -> int {
    band_size(area.height as int, grid_rows(n), spacing, i / grid_cols(n))
}

/// The horizontal gap between two cells that sit next to each other in
/// one row.
pub open spec fn h_gap(area: Rect, n: int, spacing: int) -> int {
    crate::split::band_gap(area.width as int, grid_cols(n), spacing)
}

/// The vertical gap between two rows of cells.
pub open spec fn v_gap(area: Rect, n: int, spacing: int) -> int {
    crate::split::band_gap(area.height as int, grid_rows(n), spacing)
}

/// `cell` is exactly cell `i` of the grid for `(area, n, spacing)`.
pub open spec fn cell_matches(cell: Rect, area: Rect, n: int, spacing: int, i: int) -> bool {
    &&& cell.x == cell_x(area, n, spacing, i)
    &&& cell.y == cell_y(area, n, spacing, i)
    &&& cell.width == cell_w(area, n, spacing, i)
    &&& cell.height == cell_h(area, n, spacing, i)
}

/// Every cell of the grid lies inside the area.
pub proof fn lemma_cell_within_area(area: Rect, n: int, spacing: int, i: int)
    requires
        area.wf(),
        1 <= n,
        0 <= spacing,
        0 <= i < n,
    ensures
        area.x <= cell_x(area, n, spacing, i),
        area.y <= cell_y(area, n, spacing, i),
        cell_x(area, n, spacing, i) + cell_w(area, n, spacing, i) <= area.right(),
        cell_y(area, n, spacing, i) + cell_h(area, n, spacing, i) <= area.bottom(),
        0 <= cell_w(area, n, spacing, i),
        0 <= cell_h(area, n, spacing, i),
{
    let cols: int = grid_cols(n);
    let rows: int = grid_rows(n);
    lemma_grid_shape(n);
    lemma_mod_bound(i, cols);
    lemma_multiply_divide_lt(i, cols, rows);
    lemma_div_pos_is_pos(i, cols);
    lemma_band_within(area.x as int, area.width as int, cols, spacing, i % cols);
    lemma_band_within(area.y as int, area.height as int, rows, spacing, i / cols);
    lemma_band_size_bounds(area.width as int, cols, spacing, i % cols);
    lemma_band_size_bounds(area.height as int, rows, spacing, i / cols);
}

/// A one-cell grid consists of the whole area: one row band and one
/// column band, each spanning its full extent.
pub proof fn lemma_single_cell(area: Rect, spacing: int)
    requires
        area.wf(),
        0 <= spacing,
    ensures
        cell_x(area, 1, spacing, 0) == area.x,
        cell_y(area, 1, spacing, 0) == area.y,
        cell_w(area, 1, spacing, 0) == area.width,
        cell_h(area, 1, spacing, 0) == area.height,
{
    lemma_grid_shape(1);
    assert(grid_cols(1) == 1);
    assert(grid_rows(1) == 1);
}

/// Partitions `area` into an automatic grid of `n` cells.
///
/// The grid has `ceil(sqrt(n))` columns and as many rows as those
/// columns need to hold `n` cells. Cells come back in row-major order
/// (left to right, then top to bottom), exactly `n` of them, each one
/// pinned to the column and row bands of the proportional split.
pub fn auto_grid(area: Rect, n: usize, spacing: u16) -> (cells: Vec<Rect>)
    requires
        area.wf(),
        n <= u16::MAX as usize,
    ensures
        cells@.len() == n,
        forall|i: int|
            0 <= i < n ==> cell_matches(#[trigger] cells@[i], area, n as int, spacing as int, i),
        forall|i: int|
            0 <= i < n ==> {
                &&& area.x <= #[trigger] cells@[i].x
                &&& area.y <= cells@[i].y
                &&& cells@[i].right() <= area.right()
                &&& cells@[i].bottom() <= area.bottom()
                &&& cells@[i].wf()
            },
        n == 1 ==> cells@[0] == area,
{
    let mut cells: Vec<Rect> = Vec::new();
    if n == 0 {
        return cells;
    }
    let (cols, rows) = grid_dims(n);
    let xs: Vec<(u16, u16)> = split_extent(area.x, area.width, cols, spacing);
    let ys: Vec<(u16, u16)> = split_extent(area.y, area.height, rows, spacing);
    let mut i: usize = 0;
    while i < n
        invariant
            i <= n,
            1 <= n <= u16::MAX as usize,
            area.wf(),
            cols == grid_cols(n as int),
            rows == grid_rows(n as int),
            1 <= cols,
            1 <= rows,
            n <= cols * rows,
            xs@.len() == cols as int,
            ys@.len() == rows as int,
            forall|j: int|
                0 <= j < cols ==> (#[trigger] xs@[j]).0 == band_pos(
                    area.x as int,
                    area.width as int,
                    cols as int,
                    spacing as int,
                    j,
                ) && xs@[j].1 == band_size(area.width as int, cols as int, spacing as int, j),
            forall|j: int|
                0 <= j < rows ==> (#[trigger] ys@[j]).0 == band_pos(
                    area.y as int,
                    area.height as int,
                    rows as int,
                    spacing as int,
                    j,
                ) && ys@[j].1 == band_size(area.height as int, rows as int, spacing as int, j),
            cells@.len() == i as int,
            forall|j: int|
                0 <= j < i ==> cell_matches(
                    #[trigger] cells@[j],
                    area,
                    n as int,
                    spacing as int,
                    j,
                ),
        decreases n - i,
    {
        proof {
            lemma_mod_bound(i as int, cols as int);
            lemma_multiply_divide_lt(i as int, cols as int, rows as int);
            lemma_div_pos_is_pos(i as int, cols as int);
        }
        let r: usize = i / (cols as usize);
        let c: usize = i % (cols as usize);
        let col_band: (u16, u16) = xs[c];
        let row_band: (u16, u16) = ys[r];
        cells.push(
            Rect { x: col_band.0, y: row_band.0, width: col_band.1, height: row_band.1 },
        );
        i = i + 1;
    }
    proof {
        assert forall|j: int| 0 <= j < n implies {
            &&& area.x <= #[trigger] cells@[j].x
            &&& area.y <= cells@[j].y
            &&& cells@[j].right() <= area.right()
            &&& cells@[j].bottom() <= area.bottom()
            &&& cells@[j].wf()
        } by {
            lemma_cell_within_area(area, n as int, spacing as int, j);
        }
        if n == 1 {
            lemma_single_cell(area, spacing as int);
        }
    }
    cells
}

} // verus!
