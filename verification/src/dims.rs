//! Choosing the grid shape from the cell count.
//!
//! For `n >= 1` cells the grid uses `cols = ceil(sqrt(n))` columns and
//! `rows = ceil(n / cols)` rows, the square root rounded up to the next
//! integer. This makes the shape as close to square as the rule allows
//! and always provides at least `n` slots (`cols * rows >= n`).

use vstd::prelude::*;

verus! {

/// The smallest `c >= lo` with `c * c >= n`, by counting upward.
pub open spec fn ceil_sqrt_from(n: int, lo: int) -> int
    decreases n - lo
        when 1 <= lo
{
    if lo * lo >= n {
        lo
    } else {
        proof {
            assert(lo < n) by (nonlinear_arith)
                requires
                    1 <= lo,
                    lo * lo < n,
            ;
        }
        ceil_sqrt_from(n, lo + 1)
    }
}

/// The column count for `n` cells: the ceiling of the square root of `n`.
pub open spec fn grid_cols(n: int) -> int {
    ceil_sqrt_from(n, 1)
}

/// The row count for `n` cells: the ceiling of `n / grid_cols(n)`.
pub open spec fn grid_rows(n: int) -> int {
    (n + grid_cols(n) - 1) / grid_cols(n)
}

/// `ceil_sqrt_from(n, lo)` really is a ceiling square root: it squares to
/// at least `n` while its predecessor squares to less than `n`.
proof fn lemma_ceil_sqrt_from(n: int, lo: int)
    requires
        1 <= lo,
        (lo - 1) * (lo - 1) < n,
    ensures
        lo <= ceil_sqrt_from(n, lo),
        n <= ceil_sqrt_from(n, lo) * ceil_sqrt_from(n, lo),
        (ceil_sqrt_from(n, lo) - 1) * (ceil_sqrt_from(n, lo) - 1) < n,
    decreases n - lo,
{
    if lo * lo < n {
        assert(lo < n) by (nonlinear_arith)
            requires
                1 <= lo,
                lo * lo < n,
        ;
        lemma_ceil_sqrt_from(n, lo + 1);
    }
}

/// The bounds that the grid shape guarantees: at least one column and one
/// row, enough slots for every cell, and no more rows than columns.
pub proof fn lemma_grid_shape(n: int)
    requires
        1 <= n,
    ensures
        1 <= grid_cols(n),
        n <= grid_cols(n) * grid_cols(n),
        (grid_cols(n) - 1) * (grid_cols(n) - 1) < n,
        1 <= grid_rows(n),
        grid_rows(n) <= grid_cols(n),
        grid_rows(n) <= n,
        n <= grid_cols(n) * grid_rows(n),
{
    lemma_ceil_sqrt_from(n, 1);
    let c: int = grid_cols(n);
    let r: int = grid_rows(n);
    vstd::arithmetic::div_mod::lemma_fundamental_div_mod(n + c - 1, c);
    vstd::arithmetic::div_mod::lemma_mod_bound(n + c - 1, c);
    // n + c - 1 == c * r + (n + c - 1) % c with the remainder below c,
    // so c * r covers at least n and r stays within the claimed bounds.
    assert(n <= c * r && c * r <= n + c - 1);
    assert(1 <= r) by (nonlinear_arith)
        requires
            1 <= c,
            1 <= n,
            n <= c * r,
    ;
    assert(r <= c) by (nonlinear_arith)
        requires
            1 <= c,
            n <= c * c,
            c * r <= n + c - 1,
    ;
    assert(r <= n) by (nonlinear_arith)
        requires
            1 <= c,
            1 <= n,
            c * r <= n + c - 1,
    ;
}

/// Whether `c * c >= n`, computed without overflowing.
fn square_at_least(c: u16, n: usize) -> (r: bool)
    ensures
        r == ((c as int) * (c as int) >= n as int),
{
    proof {
        assert((c as int) * (c as int) <= 0xffff * 0xffff) by (nonlinear_arith)
            requires
                c <= 0xffff,
        ;
    }
    (c as usize) * (c as usize) >= n
}

/// Computes the grid shape for `n` cells: `cols` is the ceiling of the
/// square root of `n`, `rows` the ceiling of `n / cols`.
pub fn grid_dims(n: usize) -> (shape: (u16, u16))
    requires
        1 <= n,
        n <= u16::MAX as usize,
    ensures
        shape.0 == grid_cols(n as int),
        shape.1 == grid_rows(n as int),
        1 <= shape.0,
        1 <= shape.1,
        n <= shape.0 * shape.1,
{
    let mut c: u16 = 1;
    while !square_at_least(c, n)
        invariant
            1 <= c <= 256,
            1 <= n <= 0xffff,
            grid_cols(n as int) == ceil_sqrt_from(n as int, c as int),
        decreases 256 - c,
    {
        assert(c < 256) by (nonlinear_arith)
            requires
                0 <= c,
                (c as int) * (c as int) < n <= 0xffff,
        ;
        assert(ceil_sqrt_from(n as int, c as int) == ceil_sqrt_from(n as int, c as int + 1));
        c = c + 1;
    }
    proof {
        lemma_grid_shape(n as int);
    }
    let rows: usize = (n + (c as usize) - 1) / (c as usize);
    (c, rows as u16)
}

} // verus!
