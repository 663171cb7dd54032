//! Packed triangular indexing.
//!
//! All unordered pairs `(i, j)` with `i < j < n` are laid out in one flat
//! sequence, row-major in `i` then `j`. `tri_index` is the single
//! authoritative mapping from a pair to its slot; it is a bijection onto
//! `[0, n*(n-1)/2)`, which the lemmas below establish.
use vstd::prelude::*;

verus! {

use vstd::arithmetic::div_mod::lemma_fundamental_div_mod;

/// The number of unordered pairs over `n` rows.
pub open spec fn pair_count(n: int) -> int {
    n * (n - 1) / 2
}

/// The slot at which row `i`'s pairs start: the number of pairs `(a, b)`
/// with `a < i`.
pub open spec fn row_base(i: int, n: int) -> int {
    i * n - i * (i + 1) / 2
}

/// The slot of the pair `(i, j)`, for `i < j < n`.
pub open spec fn tri_index(i: int, j: int, n: int) -> int {
    row_base(i, n) + j - i - 1
}

/// A product of two consecutive integers is even.
pub proof fn lemma_consecutive_product_even(i: int)
    ensures
        2 * (i * (i + 1) / 2) == i * (i + 1),
{
    let q = i / 2;
    let r = i % 2;
    lemma_fundamental_div_mod(i, 2);
    if r == 0 {
        assert(i * (i + 1) == 2 * (q * (i + 1))) by (nonlinear_arith)
            requires i == 2 * q;
    } else {
        assert(i * (i + 1) == 2 * ((2 * q + 1) * (q + 1))) by (nonlinear_arith)
            requires i == 2 * q + 1;
    }
    let m = i * (i + 1) / 2;
    let p = i * (i + 1);
    lemma_fundamental_div_mod(p, 2);
    assert(p % 2 == 0);
    assert(2 * m == p);
}

/// Twice the pair count, with the division resolved.
pub proof fn lemma_pair_count_double(n: int)
    ensures
        2 * pair_count(n) == n * (n - 1),
{
    lemma_consecutive_product_even(n - 1);
    assert((n - 1) * n == n * (n - 1)) by (nonlinear_arith);
    assert((n - 1) * ((n - 1) + 1) == n * (n - 1)) by (nonlinear_arith);
}

/// Twice a row base, with the division resolved.
pub proof fn lemma_row_base_double(i: int, n: int)
    ensures
        2 * row_base(i, n) == 2 * i * n - i * (i + 1),
{
    lemma_consecutive_product_even(i);
    assert(2 * (i * n) == 2 * i * n) by (nonlinear_arith);
}

/// Each row's block starts right after the previous row's last slot.
pub proof fn lemma_row_base_step(i: int, n: int)
    requires
        0 <= i < n,
    ensures
        row_base(i + 1, n) == row_base(i, n) + (n - i - 1),
{
    lemma_row_base_double(i, n);
    lemma_row_base_double(i + 1, n);
    assert((2 * (i + 1) * n - (i + 1) * (i + 2)) == (2 * i * n - i * (i + 1)) + 2 * (n - i - 1))
        by (nonlinear_arith);
}

/// The pair count is never negative.
pub proof fn lemma_pair_count_nonneg(m: int)
    requires
        m >= 0,
    ensures
        pair_count(m) >= 0,
{
    lemma_pair_count_double(m);
    assert(m * (m - 1) >= 0) by (nonlinear_arith)
        requires m >= 0;
}

/// The pair count grows with the row count.
pub proof fn lemma_pair_count_mono(a: int, b: int)
    requires
        0 <= a <= b,
    ensures
        pair_count(a) <= pair_count(b),
{
    lemma_pair_count_double(a);
    lemma_pair_count_double(b);
    assert(a * (a - 1) <= b * (b - 1)) by (nonlinear_arith)
        requires 0 <= a <= b;
}

/// A row count whose pair count fits in 64 bits is itself small.
pub proof fn lemma_n_small(n: int)
    requires
        n >= 0,
        pair_count(n) <= 0xffffffffffffffff,
    ensures
        n <= 0x2_0000_0000,
{
    if n > 0x2_0000_0000 {
        lemma_pair_count_double(n);
        assert(n * (n - 1) > 0x1_ffff_ffff_ffff_fffe) by (nonlinear_arith)
            requires n >= 0x2_0000_0001;
    }
}

/// The zeroth row's block starts at slot zero.
pub proof fn lemma_row_base_zero(n: int)
    ensures
        row_base(0, n) == 0,
{
    assert(0 * n == 0) by (nonlinear_arith);
}

/// Past the last row, the next block would start at the pair count: the
/// blocks tile `[0, pair_count(n))` exactly.
pub proof fn lemma_row_base_full(n: int)
    ensures
        row_base(n, n) == pair_count(n),
{
    lemma_row_base_double(n, n);
    lemma_pair_count_double(n);
    assert(2 * n * n - n * (n + 1) == n * (n - 1)) by (nonlinear_arith);
}

/// Row bases increase: a later row starts strictly after the whole block
/// of an earlier one.
pub proof fn lemma_row_base_gap(i1: int, i2: int, n: int)
    requires
        0 <= i1 < i2 < n,
    ensures
        row_base(i2, n) >= row_base(i1, n) + (n - i1 - 1),
    decreases i2 - i1,
{
    if i2 == i1 + 1 {
        lemma_row_base_step(i1, n);
    } else {
        lemma_row_base_gap(i1 + 1, i2, n);
        lemma_row_base_step(i1, n);
    }
}

/// Row `i`'s block lies entirely below the pair count.
pub proof fn lemma_row_end(i: int, n: int)
    requires
        0 <= i < n,
    ensures
        row_base(i, n) + (n - i - 1) <= pair_count(n),
{
    lemma_row_base_double(i, n);
    lemma_pair_count_double(n);
    assert(2 * i * n - i * (i + 1) + 2 * (n - i - 1) <= n * (n - 1)) by (nonlinear_arith)
        requires 0 <= i < n;
}

/// The slot of a valid pair lies in `[0, pair_count(n))`.
pub proof fn lemma_tri_index_range(i: int, j: int, n: int)
    requires
        0 <= i < j < n,
    ensures
        0 <= tri_index(i, j, n),
        tri_index(i, j, n) < pair_count(n),
{
    if i > 0 {
        lemma_row_base_gap(0, i, n);
    }
    assert(row_base(0, n) == 0);
    lemma_row_end(i, n);
}

/// Slots follow the row-major order of pairs strictly, so distinct pairs
/// get distinct slots: the packing has no collisions.
pub proof fn lemma_tri_index_order(i1: int, j1: int, i2: int, j2: int, n: int)
    requires
        0 <= i1 < j1 < n,
        0 <= i2 < j2 < n,
        i1 < i2 || (i1 == i2 && j1 < j2),
    ensures
        tri_index(i1, j1, n) < tri_index(i2, j2, n),
{
    if i1 < i2 {
        lemma_row_base_gap(i1, i2, n);
    }
}

/// Every slot below the pair count is the slot of some valid pair: the
/// packing has no gaps.
pub proof fn lemma_tri_index_covers(s: int, n: int)
    requires
        0 <= s < pair_count(n),
        n >= 0,
    ensures
        exists|p: (int, int)| 0 <= p.0 < p.1 < n && tri_index(p.0, p.1, n) == s,
    decreases s,
{
    lemma_pair_count_double(n);
    if n <= 1 {
        assert(n * (n - 1) <= 0) by (nonlinear_arith)
            requires 0 <= n <= 1;
    }
    assert(n >= 2);
    if s == 0 {
        assert(row_base(0, n) == 0);
        let p = (0int, 1int);
        assert(0 <= p.0 < p.1 < n && tri_index(p.0, p.1, n) == 0);
    } else {
        lemma_tri_index_covers(s - 1, n);
        let q = choose|q: (int, int)| 0 <= q.0 < q.1 < n && tri_index(q.0, q.1, n) == s - 1;
        let (i, j) = q;
        if j < n - 1 {
            let p = (i, j + 1);
            assert(0 <= p.0 < p.1 < n && tri_index(p.0, p.1, n) == s);
        } else {
            if i == n - 2 {
                // the last pair of all; its slot is pair_count - 1, so s
                // would reach pair_count
                lemma_row_base_double(n - 2, n);
                assert(2 * (n - 2) * n - (n - 2) * (n - 1) == n * (n - 1) - 2)
                    by (nonlinear_arith);
                assert(false);
            }
            lemma_row_base_step(i, n);
            let p = (i + 1, i + 2);
            assert(tri_index(p.0, p.1, n) == row_base(i + 1, n));
            assert(0 <= p.0 < p.1 < n && tri_index(p.0, p.1, n) == s);
        }
    }
}

/// Computes the slot of the pair `(i, j)`.
pub fn pair_index(i: usize, j: usize, n: usize) -> (r: usize)
    requires
        i < j,
        j < n,
        pair_count(n as int) <= usize::MAX,
    ensures
        r as int == tri_index(i as int, j as int, n as int),
        r < pair_count(n as int),
{
    proof {
        lemma_tri_index_range(i as int, j as int, n as int);
        lemma_row_base_double(i as int, n as int);
    }
    let ii = i as u128;
    let nn = n as u128;
    let jj = j as u128;
    assert(ii * nn <= 0xffffffffffffffffffffffffffffffffu128) by (nonlinear_arith)
        requires ii <= 0xffffffffffffffffu128, nn <= 0xffffffffffffffffu128;
    assert(ii * (ii + 1) <= 0xffffffffffffffffffffffffffffffffu128) by (nonlinear_arith)
        requires ii <= 0xffffffffffffffffu128;
    let half: u128 = ii * (ii + 1) / 2;
    assert(ii * nn >= ii * (ii + 1)) by (nonlinear_arith)
        requires nn >= ii + 1, ii >= 0;
    proof {
        lemma_consecutive_product_even(ii as int);
    }
    let base: u128 = ii * nn - half;
    let slot: u128 = base + jj - ii - 1;
    assert(slot == tri_index(i as int, j as int, n as int));
    slot as usize
}

} // verus!
