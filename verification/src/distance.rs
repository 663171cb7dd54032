//! Euclidean distance over normalized rows, in fixed point.
//!
//! The distance between two rows is the integer square root of the sum of
//! squared coordinate differences. With values normalized to `[0, SCALE]`
//! and at most `MAX_COLS` coordinates, every intermediate fits in `u64`
//! and the result is at most `DIST_BOUND`.
use vstd::prelude::*;

verus! {

use crate::DIST_BOUND;
use crate::MAX_COLS;
use crate::SCALE;

/// The integer square root: the largest `r` with `r * r <= s`.
pub open spec fn isqrt_spec(s: int) -> int
    decreases s,
{
    if s <= 0 {
        0
    } else {
        let r = isqrt_spec(s - 1);
        if (r + 1) * (r + 1) <= s {
            r + 1
        } else {
            r
        }
    }
}

/// The integer square root is sandwiched between the two consecutive
/// squares around `s`.
pub proof fn lemma_isqrt_bounds(s: int)
    requires
        s >= 0,
    ensures
        0 <= isqrt_spec(s),
        isqrt_spec(s) * isqrt_spec(s) <= s,
        s < (isqrt_spec(s) + 1) * (isqrt_spec(s) + 1),
    decreases s,
{
    if s > 0 {
        lemma_isqrt_bounds(s - 1);
        let r = isqrt_spec(s - 1);
        if (r + 1) * (r + 1) <= s {
            assert(s < ((r + 1) + 1) * ((r + 1) + 1)) by (nonlinear_arith)
                requires s - 1 < (r + 1) * (r + 1), r >= 0;
        }
    }
}

/// Any `r` sandwiched between the consecutive squares around `s` is the
/// integer square root of `s`.
pub proof fn lemma_isqrt_unique(s: int, r: int)
    requires
        s >= 0,
        r >= 0,
        r * r <= s,
        s < (r + 1) * (r + 1),
    ensures
        r == isqrt_spec(s),
{
    lemma_isqrt_bounds(s);
    let q = isqrt_spec(s);
    assert(r == q) by (nonlinear_arith)
        requires
            r >= 0,
            q >= 0,
            r * r <= s,
            s < (r + 1) * (r + 1),
            q * q <= s,
            s < (q + 1) * (q + 1);
}

/// Computes the integer square root of `s` by binary search.
pub fn isqrt_u64(s: u64) -> (r: u64)
    ensures
        r as int == isqrt_spec(s as int),
        r * r <= s,
{
    let mut lo: u64 = 0;
    let mut hi: u64 = 0x1_0000_0000;
    while lo + 1 < hi
        invariant
            lo < hi <= 0x1_0000_0000,
            (lo as int) * (lo as int) <= s as int,
            (s as int) < (hi as int) * (hi as int),
        decreases hi - lo,
    {
        let mid = lo + (hi - lo) / 2;
        assert((mid as int) * (mid as int) <= 0xffffffffffffffff) by (nonlinear_arith)
            requires mid < 0x1_0000_0000u64;
        if mid * mid <= s {
            lo = mid;
        } else {
            hi = mid;
        }
    }
    proof {
        lemma_isqrt_unique(s as int, lo as int);
    }
    lo
}

/// The squared difference of one pair of coordinates.
pub open spec fn sq_diff(a: int, b: int) -> int {
    (a - b) * (a - b)
}

/// The sum of squared differences over the first `m` coordinates.
pub open spec fn sq_diff_sum_upto(a: Seq<i64>, b: Seq<i64>, m: int) -> int
    decreases m,
{
    if m <= 0 {
        0
    } else {
        sq_diff_sum_upto(a, b, m - 1) + sq_diff(a[m - 1] as int, b[m - 1] as int)
    }
}

/// The sum of squared coordinate differences of two rows.
pub open spec fn sq_diff_sum(a: Seq<i64>, b: Seq<i64>) -> int {
    sq_diff_sum_upto(a, b, a.len() as int)
}

/// The fixed-point Euclidean distance between two rows.
pub open spec fn dist_spec(a: Seq<i64>, b: Seq<i64>) -> int {
    isqrt_spec(sq_diff_sum(a, b))
}

/// Whether every value of the row lies in the normalized range.
pub open spec fn row_in_unit(a: Seq<i64>) -> bool {
    forall|c: int| 0 <= c < a.len() ==> 0 <= #[trigger] a[c] <= SCALE
}

/// A partial sum of squared differences of normalized values grows by at
/// most `SCALE * SCALE` per coordinate.
pub proof fn lemma_sq_diff_sum_bound(a: Seq<i64>, b: Seq<i64>, m: int)
    requires
        0 <= m <= a.len(),
        m <= b.len(),
        row_in_unit(a),
        row_in_unit(b),
    ensures
        0 <= sq_diff_sum_upto(a, b, m),
        sq_diff_sum_upto(a, b, m) <= m * (SCALE * SCALE),
    decreases m,
{
    if m > 0 {
        lemma_sq_diff_sum_bound(a, b, m - 1);
        let x = a[m - 1] as int;
        let y = b[m - 1] as int;
        assert(0 <= sq_diff(x, y) <= SCALE * SCALE) by (nonlinear_arith)
            requires 0 <= x <= SCALE, 0 <= y <= SCALE;
        assert((m - 1) * (SCALE * SCALE) + SCALE * SCALE == m * (SCALE * SCALE))
            by (nonlinear_arith);
    }
}

/// The distance between rows of normalized values is at most `DIST_BOUND`.
pub proof fn lemma_dist_bound(a: Seq<i64>, b: Seq<i64>)
    requires
        a.len() == b.len(),
        a.len() <= MAX_COLS,
        row_in_unit(a),
        row_in_unit(b),
    ensures
        0 <= dist_spec(a, b) <= DIST_BOUND,
{
    lemma_sq_diff_sum_bound(a, b, a.len() as int);
    let s = sq_diff_sum(a, b);
    assert(s <= MAX_COLS * (SCALE * SCALE)) by (nonlinear_arith)
        requires
            s <= a.len() * (SCALE * SCALE),
            a.len() <= MAX_COLS;
    lemma_isqrt_bounds(s);
    let r = isqrt_spec(s);
    assert(r <= DIST_BOUND) by (nonlinear_arith)
        requires
            r >= 0,
            r * r <= s,
            s <= 1000000000000000000;
}

/// A partial sum of squared differences does not depend on the order of
/// the two rows.
pub proof fn lemma_sq_diff_sum_symmetric(a: Seq<i64>, b: Seq<i64>, m: int)
    ensures
        sq_diff_sum_upto(a, b, m) == sq_diff_sum_upto(b, a, m),
    decreases m,
{
    if m > 0 {
        lemma_sq_diff_sum_symmetric(a, b, m - 1);
        let x = a[m - 1] as int;
        let y = b[m - 1] as int;
        assert((x - y) * (x - y) == (y - x) * (y - x)) by (nonlinear_arith);
    }
}

/// The distance between two rows does not depend on their order.
pub proof fn lemma_dist_symmetric(a: Seq<i64>, b: Seq<i64>)
    requires
        a.len() == b.len(),
    ensures
        dist_spec(a, b) == dist_spec(b, a),
{
    lemma_sq_diff_sum_symmetric(a, b, a.len() as int);
}

/// Computes the fixed-point Euclidean distance between two rows.
pub fn euclidean_distance(a: &Vec<i64>, b: &Vec<i64>) -> (d: u64)
    requires
        a@.len() == b@.len(),
        a@.len() <= MAX_COLS,
        row_in_unit(a@),
        row_in_unit(b@),
    ensures
        d as int == dist_spec(a@, b@),
        d <= DIST_BOUND,
{
    let mut sum: u64 = 0;
    let n = a.len();
    for c in 0..n
        invariant
            n == a@.len() == b@.len(),
            n <= MAX_COLS,
            row_in_unit(a@),
            row_in_unit(b@),
            sum as int == sq_diff_sum_upto(a@, b@, c as int),
            sum as int <= c * (SCALE * SCALE),
    {
        let x = a[c];
        let y = b[c];
        let diff: i64 = x - y;
        assert(0 <= diff * diff <= SCALE * SCALE) by (nonlinear_arith)
            requires -SCALE <= diff <= SCALE;
        let sq: u64 = (diff * diff) as u64;
        assert((c as int) * (SCALE * SCALE) + SCALE * SCALE == (c + 1) * (SCALE * SCALE))
            by (nonlinear_arith);
        assert((c + 1) * (SCALE * SCALE) <= MAX_COLS * (SCALE * SCALE)) by (nonlinear_arith)
            requires c + 1 <= MAX_COLS;
        sum = sum + sq;
    }
    proof {
        lemma_dist_bound(a@, b@);
    }
    isqrt_u64(sum)
}

} // verus!
