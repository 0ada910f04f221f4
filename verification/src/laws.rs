//! The structural laws of the grid partition.
//!
//! These proof functions state, over the cell model of [`crate::grid`],
//! how neighbouring cells relate to each other and how the partition
//! reacts to a change of spacing. Together with the contract of
//! [`crate::grid::auto_grid`] they pin down the row-major layout.

use vstd::prelude::*;
use vstd::arithmetic::div_mod::lemma_fundamental_div_mod;
use vstd::arithmetic::div_mod::lemma_fundamental_div_mod_converse;
use vstd::arithmetic::div_mod::lemma_mod_bound;
use vstd::arithmetic::div_mod::lemma_multiply_divide_lt;
use vstd::arithmetic::div_mod::lemma_div_pos_is_pos;
use crate::dims::grid_cols;
use crate::dims::grid_rows;
use crate::dims::lemma_grid_shape;
use crate::grid::cell_h;
use crate::grid::cell_w;
use crate::grid::cell_x;
use crate::grid::cell_y;
use crate::grid::h_gap;
use crate::grid::v_gap;
use crate::rect::Rect;
use crate::split::lemma_band_avail_bounds;
use crate::split::lemma_band_monotone_in_spacing;
use crate::split::lemma_band_size_bounds;

verus! {

/// Row-major order. Two consecutive cells either sit in one row — then
/// they share their y-coordinate and height and the second starts one
/// horizontal gap after the first ends — or the second opens the next
/// row: it returns to the area's left edge and its row band starts one
/// vertical gap below the previous row band's end. The y-coordinate
/// strictly increases across a row boundary whenever the previous row
/// has any height or the rows are separated by a positive gap.
pub proof fn lemma_row_major(area: Rect, n: int, spacing: int, i: int)
    requires
        area.wf(),
        0 <= spacing,
        0 <= i,
        i + 1 < n,
    ensures
        (i + 1) % grid_cols(n) != 0 ==> {
            &&& cell_y(area, n, spacing, i + 1) == cell_y(area, n, spacing, i)
            &&& cell_h(area, n, spacing, i + 1) == cell_h(area, n, spacing, i)
            &&& cell_x(area, n, spacing, i + 1) == cell_x(area, n, spacing, i) + cell_w(
                area,
                n,
                spacing,
                i,
            ) + h_gap(area, n, spacing)
            &&& cell_x(area, n, spacing, i) + cell_w(area, n, spacing, i) <= cell_x(
                area,
                n,
                spacing,
                i + 1,
            )
        },
        (i + 1) % grid_cols(n) == 0 ==> {
            &&& cell_x(area, n, spacing, i + 1) == area.x
            &&& cell_y(area, n, spacing, i + 1) == cell_y(area, n, spacing, i) + cell_h(
                area,
                n,
                spacing,
                i,
            ) + v_gap(area, n, spacing)
            &&& cell_y(area, n, spacing, i) <= cell_y(area, n, spacing, i + 1)
        },
        (i + 1) % grid_cols(n) == 0 && 0 < cell_h(area, n, spacing, i) + v_gap(area, n, spacing)
            ==> cell_y(area, n, spacing, i) < cell_y(area, n, spacing, i + 1),
{
    let cols: int = grid_cols(n);
    let rows: int = grid_rows(n);
    let q: int = i / cols;
    let c: int = i % cols;
    lemma_grid_shape(n);
    lemma_fundamental_div_mod(i, cols);
    lemma_mod_bound(i, cols);
    lemma_div_pos_is_pos(i, cols);
    lemma_band_avail_bounds(area.width as int, cols, spacing);
    lemma_band_avail_bounds(area.height as int, rows, spacing);
    lemma_band_size_bounds(area.width as int, cols, spacing, c);
    lemma_band_size_bounds(area.height as int, rows, spacing, q);
    if c + 1 < cols {
        // Same row: i + 1 keeps quotient q and moves to column c + 1.
        assert(i + 1 == q * cols + (c + 1)) by (nonlinear_arith)
            requires
                i == cols * q + c,
        ;
        lemma_fundamental_div_mod_converse(i + 1, cols, q, c + 1);
    } else {
        // Row boundary: i + 1 opens row q + 1 at column 0.
        assert(i + 1 == (q + 1) * cols + 0) by (nonlinear_arith)
            requires
                i == cols * q + c,
                c + 1 == cols,
        ;
        lemma_fundamental_div_mod_converse(i + 1, cols, q + 1, 0);
    }
}

/// Spacing monotonicity. For a fixed area and cell count, raising the
/// spacing never widens or heightens any cell, and never narrows the
/// gap between neighbouring cells or rows.
pub proof fn lemma_spacing_monotone(area: Rect, n: int, spacing1: int, spacing2: int, i: int)
    requires
        area.wf(),
        1 <= n,
        0 <= spacing1 <= spacing2,
        0 <= i < n,
    ensures
        cell_w(area, n, spacing2, i) <= cell_w(area, n, spacing1, i),
        cell_h(area, n, spacing2, i) <= cell_h(area, n, spacing1, i),
        h_gap(area, n, spacing1) <= h_gap(area, n, spacing2),
        v_gap(area, n, spacing1) <= v_gap(area, n, spacing2),
{
    let cols: int = grid_cols(n);
    let rows: int = grid_rows(n);
    lemma_grid_shape(n);
    lemma_mod_bound(i, cols);
    lemma_multiply_divide_lt(i, cols, rows);
    lemma_div_pos_is_pos(i, cols);
    lemma_band_monotone_in_spacing(area.width as int, cols, spacing1, spacing2, i % cols);
    lemma_band_monotone_in_spacing(area.height as int, rows, spacing1, spacing2, i / cols);
}

} // verus!
