//! Splitting one extent into equal proportional bands.
//!
//! An extent of length `extent` starting at `start` is divided into `k`
//! bands separated by a gap. The requested spacing is first clamped so
//! that the `k - 1` gaps never exceed the extent; what remains after the
//! gaps is divided evenly, earlier bands receiving one extra unit each
//! until the remainder is used up. Bands are laid out consecutively, one
//! gap between neighbours, so the last band ends at or before
//! `start + extent`.

use vstd::prelude::*;
use vstd::arithmetic::div_mod::lemma_fundamental_div_mod;
use vstd::arithmetic::div_mod::lemma_fundamental_div_mod_converse;
use vstd::arithmetic::div_mod::lemma_div_is_ordered;
use vstd::arithmetic::div_mod::lemma_mod_bound;
use vstd::arithmetic::mul::lemma_mul_inequality;
use vstd::arithmetic::mul::lemma_mul_nonnegative;

verus! {

/// The gap laid between two neighbouring bands: the requested spacing,
/// clamped so that `k - 1` gaps fit into the extent.
pub open spec fn band_gap(extent: int, k: int, spacing: int) -> int {
    if k <= 1 {
        0
    } else {
        vstd::math::min(spacing, extent / (k - 1))
    }
}

/// The length left for the bands themselves once the gaps are taken out.
pub open spec fn band_avail(extent: int, k: int, spacing: int) -> int {
    extent - (k - 1) * band_gap(extent, k, spacing)
}

/// The length of band `i` of `k`: an even share of the divisible length,
/// plus one unit for the first `band_avail % k` bands.
pub open spec fn band_size(extent: int, k: int, spacing: int, i: int) -> int {
    let avail: int = band_avail(extent, k, spacing);
    avail / k + if i < avail % k {
        1int
    } else {
        0int
    }
}

/// The starting coordinate of band `i` of `k`: each band begins one gap
/// after the previous one ends.
pub open spec fn band_pos(start: int, extent: int, k: int, spacing: int, i: int) -> int
    decreases i,
{
    if i <= 0 {
        start
    } else {
        band_pos(start, extent, k, spacing, i - 1) + band_size(extent, k, spacing, i - 1)
            + band_gap(extent, k, spacing)
    }
}

/// The clamped gap is between zero and the requested spacing, and the
/// divisible length stays between zero and the extent.
pub proof fn lemma_band_avail_bounds(extent: int, k: int, spacing: int)
    requires
        1 <= k,
        0 <= extent,
        0 <= spacing,
    ensures
        0 <= band_gap(extent, k, spacing) <= spacing,
        0 <= band_avail(extent, k, spacing) <= extent,
        (k - 1) * band_gap(extent, k, spacing) <= extent,
{
    let g: int = band_gap(extent, k, spacing);
    if k == 1 {
        assert((k - 1) * g == 0);
    } else {
        lemma_fundamental_div_mod(extent, k - 1);
        lemma_mod_bound(extent, k - 1);
        assert(0 <= extent / (k - 1)) by (nonlinear_arith)
            requires
                0 <= extent,
                1 <= k - 1,
        ;
        lemma_mul_inequality(g, extent / (k - 1), k - 1);
        assert((extent / (k - 1)) * (k - 1) <= extent);
        lemma_mul_nonnegative(k - 1, g);
    }
}

/// Closed form for a band's start: `i` even shares, the extra units of
/// the first `min(i, remainder)` bands, and `i` gaps past `start`.
proof fn lemma_band_pos_closed(start: int, extent: int, k: int, spacing: int, i: int)
    requires
        1 <= k,
        0 <= extent,
        0 <= spacing,
        0 <= i <= k,
    ensures
        band_pos(start, extent, k, spacing, i) == start + i * (band_avail(extent, k, spacing) / k
            + band_gap(extent, k, spacing)) + vstd::math::min(
            i,
            band_avail(extent, k, spacing) % k,
        ),
    decreases i,
{
    let avail: int = band_avail(extent, k, spacing);
    let share: int = avail / k + band_gap(extent, k, spacing);
    lemma_band_avail_bounds(extent, k, spacing);
    lemma_mod_bound(avail, k);
    if i == 0 {
        assert(0 * share == 0) by (nonlinear_arith);
    } else {
        lemma_band_pos_closed(start, extent, k, spacing, i - 1);
        assert((i - 1) * share + share == i * share) by (nonlinear_arith);
    }
}

/// Every band is at least empty and no longer than the divisible length.
pub proof fn lemma_band_size_bounds(extent: int, k: int, spacing: int, i: int)
    requires
        1 <= k,
        0 <= extent,
        0 <= spacing,
        0 <= i,
    ensures
        0 <= band_size(extent, k, spacing, i),
        band_size(extent, k, spacing, i) <= band_avail(extent, k, spacing),
        band_size(extent, k, spacing, i) <= extent,
{
    let avail: int = band_avail(extent, k, spacing);
    lemma_band_avail_bounds(extent, k, spacing);
    lemma_fundamental_div_mod(avail, k);
    lemma_mod_bound(avail, k);
    assert(0 <= avail / k) by (nonlinear_arith)
        requires
            0 <= avail,
            1 <= k,
    ;
    // avail == k * (avail / k) + avail % k, so one share plus one extra
    // unit never exceeds avail.
    assert(avail / k <= k * (avail / k)) by (nonlinear_arith)
        requires
            1 <= k,
            0 <= avail / k,
    ;
}

/// Every band lies inside the split extent: it starts at or after
/// `start` and ends at or before `start + extent`.
pub proof fn lemma_band_within(start: int, extent: int, k: int, spacing: int, i: int)
    requires
        1 <= k,
        0 <= extent,
        0 <= spacing,
        0 <= i < k,
    ensures
        start <= band_pos(start, extent, k, spacing, i),
        band_pos(start, extent, k, spacing, i) + band_size(extent, k, spacing, i) <= start
            + extent,
{
    let avail: int = band_avail(extent, k, spacing);
    let gap: int = band_gap(extent, k, spacing);
    let q: int = avail / k;
    let r: int = avail % k;
    lemma_band_avail_bounds(extent, k, spacing);
    lemma_band_size_bounds(extent, k, spacing, i);
    lemma_band_pos_closed(start, extent, k, spacing, i);
    lemma_fundamental_div_mod(avail, k);
    lemma_mod_bound(avail, k);
    assert(0 <= q) by (nonlinear_arith)
        requires
            0 <= avail,
            1 <= k,
            q == avail / k,
    ;
    lemma_mul_nonnegative(i, q + gap);
    // i shares fit below k - 1 shares, and k even parts plus the
    // remainder reassemble the divisible length exactly.
    lemma_mul_inequality(i, k - 1, q + gap);
    assert((k - 1) * (q + gap) == k * q + (k - 1) * gap - q) by (nonlinear_arith);
}

/// Each band's length written as a single ceiling division: band `i`
/// gets `(avail + k - 1 - i) / k` units.
proof fn lemma_band_size_ceil_form(extent: int, k: int, spacing: int, i: int)
    requires
        1 <= k,
        0 <= extent,
        0 <= spacing,
        0 <= i < k,
    ensures
        band_size(extent, k, spacing, i) == (band_avail(extent, k, spacing) + k - 1 - i) / k,
{
    let avail: int = band_avail(extent, k, spacing);
    let q: int = avail / k;
    let r: int = avail % k;
    lemma_band_avail_bounds(extent, k, spacing);
    lemma_fundamental_div_mod(avail, k);
    lemma_mod_bound(avail, k);
    if i < r {
        assert(avail + k - 1 - i == (q + 1) * k + (r - 1 - i)) by (nonlinear_arith)
            requires
                avail == k * q + r,
        ;
        lemma_fundamental_div_mod_converse(avail + k - 1 - i, k, q + 1, r - 1 - i);
    } else {
        assert(avail + k - 1 - i == q * k + (r + k - 1 - i)) by (nonlinear_arith)
            requires
                avail == k * q + r,
        ;
        lemma_fundamental_div_mod_converse(avail + k - 1 - i, k, q, r + k - 1 - i);
    }
}

/// Growing the requested spacing never grows a band and never shrinks
/// the gap between neighbouring bands.
pub proof fn lemma_band_monotone_in_spacing(
    extent: int,
    k: int,
    spacing1: int,
    spacing2: int,
    i: int,
)
    requires
        1 <= k,
        0 <= extent,
        0 <= spacing1 <= spacing2,
        0 <= i < k,
    ensures
        band_gap(extent, k, spacing1) <= band_gap(extent, k, spacing2),
        band_size(extent, k, spacing2, i) <= band_size(extent, k, spacing1, i),
{
    let g1: int = band_gap(extent, k, spacing1);
    let g2: int = band_gap(extent, k, spacing2);
    lemma_band_avail_bounds(extent, k, spacing1);
    lemma_band_avail_bounds(extent, k, spacing2);
    lemma_mul_inequality(g1, g2, k - 1);
    lemma_band_size_ceil_form(extent, k, spacing1, i);
    lemma_band_size_ceil_form(extent, k, spacing2, i);
    lemma_div_is_ordered(
        band_avail(extent, k, spacing2) + k - 1 - i,
        band_avail(extent, k, spacing1) + k - 1 - i,
        k,
    );
}

/// Splits the extent `[start, start + extent)` into `k` bands, returned
/// as `(position, length)` pairs ordered by position.
pub fn split_extent(start: u16, extent: u16, k: u16, spacing: u16) -> (bands: Vec<(u16, u16)>)
    requires
        1 <= k,
        start + extent <= u16::MAX,
    ensures
        bands@.len() == k as int,
        forall|i: int|
            0 <= i < k ==> bands@[i].0 == band_pos(
                start as int,
                extent as int,
                k as int,
                spacing as int,
                i,
            ),
        forall|i: int|
            0 <= i < k ==> bands@[i].1 == band_size(extent as int, k as int, spacing as int, i),
{
    let gaps: usize = (k - 1) as usize;
    let gap: usize = if gaps == 0 {
        0
    } else {
        let limit: usize = (extent as usize) / gaps;
        if (spacing as usize) < limit {
            spacing as usize
        } else {
            limit
        }
    };
    proof {
        lemma_band_avail_bounds(extent as int, k as int, spacing as int);
        assert(gap == band_gap(extent as int, k as int, spacing as int));
        lemma_mul_nonnegative(gaps as int, gap as int);
    }
    let avail: usize = (extent as usize) - gaps * gap;
    let base: usize = avail / (k as usize);
    let rem: usize = avail % (k as usize);
    let mut bands: Vec<(u16, u16)> = Vec::new();
    let mut pos: usize = start as usize;
    let mut i: usize = 0;
    while i < k as usize
        invariant
            i <= k,
            1 <= k,
            start + extent <= u16::MAX,
            gap == band_gap(extent as int, k as int, spacing as int),
            avail == band_avail(extent as int, k as int, spacing as int),
            base == avail as int / k as int,
            rem == avail as int % k as int,
            avail <= extent,
            pos == band_pos(start as int, extent as int, k as int, spacing as int, i as int),
            bands@.len() == i as int,
            forall|j: int|
                0 <= j < i ==> bands@[j].0 == band_pos(
                    start as int,
                    extent as int,
                    k as int,
                    spacing as int,
                    j,
                ),
            forall|j: int|
                0 <= j < i ==> bands@[j].1 == band_size(
                    extent as int,
                    k as int,
                    spacing as int,
                    j,
                ),
        decreases k - i,
    {
        let size: usize = if i < rem {
            base + 1
        } else {
            base
        };
        proof {
            lemma_band_within(start as int, extent as int, k as int, spacing as int, i as int);
            lemma_band_size_bounds(extent as int, k as int, spacing as int, i as int);
            assert(size == band_size(extent as int, k as int, spacing as int, i as int));
        }
        bands.push((pos as u16, size as u16));
        pos = pos + size + gap;
        i = i + 1;
    }
    bands
}

} // verus!
