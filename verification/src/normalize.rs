//! Per-row normalization to the unit interval.
//!
//! Each row is rescaled independently: with `lo` and `hi` its own minimum
//! and maximum, a value `v` becomes `(v - lo) * SCALE / (hi - lo)`, so the
//! row occupies exactly `[0, SCALE]`. A constant row has no range to
//! scale by; its values are mapped to `0` (a deliberate policy: the
//! degenerate divisor is never used).
use vstd::prelude::*;

verus! {

use crate::SCALE;
use crate::VALUE_LIMIT;
use crate::distance::row_in_unit;

/// The smallest value of a row (`0` for an empty row).
pub open spec fn seq_min(s: Seq<i64>) -> int
    decreases s.len(),
{
    if s.len() == 0 {
        0
    } else if s.len() == 1 {
        s[0] as int
    } else {
        let m = seq_min(s.drop_last());
        if (s.last() as int) < m {
            s.last() as int
        } else {
            m
        }
    }
}

/// The largest value of a row (`0` for an empty row).
pub open spec fn seq_max(s: Seq<i64>) -> int
    decreases s.len(),
{
    if s.len() == 0 {
        0
    } else if s.len() == 1 {
        s[0] as int
    } else {
        let m = seq_max(s.drop_last());
        if (s.last() as int) > m {
            s.last() as int
        } else {
            m
        }
    }
}

/// What one value becomes under per-row rescaling by the row's own range.
pub open spec fn normalized_value(v: int, lo: int, hi: int) -> int {
    if hi <= lo {
        0
    } else {
        (v - lo) * SCALE / (hi - lo)
    }
}

/// Every value of a row lies between the row's minimum and maximum.
pub proof fn lemma_min_max_le(s: Seq<i64>, c: int)
    requires
        0 <= c < s.len(),
    ensures
        seq_min(s) <= s[c] as int,
        s[c] as int <= seq_max(s),
    decreases s.len(),
{
    if s.len() > 1 && c < s.len() - 1 {
        lemma_min_max_le(s.drop_last(), c);
    }
}

/// A rescaled value lies in `[0, SCALE]`; the row minimum maps to `0` and,
/// for a row with any range at all, the row maximum maps to `SCALE`.
pub proof fn lemma_normalized_in_unit(v: int, lo: int, hi: int)
    requires
        lo <= v <= hi,
    ensures
        0 <= normalized_value(v, lo, hi) <= SCALE,
        normalized_value(lo, lo, hi) == 0,
        lo < hi ==> normalized_value(hi, lo, hi) == SCALE,
{
    if lo < hi {
        let d = hi - lo;
        let num = (v - lo) * SCALE;
        assert(0 <= num && num <= SCALE * d) by (nonlinear_arith)
            requires
                num == (v - lo) * SCALE,
                d == hi - lo,
                lo <= v <= hi,
                SCALE > 0;
        assert(0 <= num / d) by (nonlinear_arith)
            requires num >= 0, d > 0;
        vstd::arithmetic::div_mod::lemma_div_is_ordered(num, SCALE * d, d);
        vstd::arithmetic::div_mod::lemma_div_by_multiple(SCALE as int, d);
        assert(num / d <= SCALE);
        assert((lo - lo) * SCALE == 0) by (nonlinear_arith);
        vstd::arithmetic::div_mod::lemma_div_of0(d);
        assert((hi - lo) * SCALE == SCALE * d) by (nonlinear_arith)
            requires d == hi - lo;
    }
}

/// The row minimum and maximum stay within any bound that every value of
/// the row meets.
pub proof fn lemma_min_max_bounds(s: Seq<i64>, b: int)
    requires
        s.len() > 0,
        forall|c: int| 0 <= c < s.len() ==> -b <= #[trigger] s[c] as int <= b,
    ensures
        -b <= seq_min(s),
        seq_min(s) <= seq_max(s),
        seq_max(s) <= b,
    decreases s.len(),
{
    if s.len() > 1 {
        lemma_min_max_bounds(s.drop_last(), b);
    }
}

/// Whether every value of a raw row lies within `VALUE_LIMIT`.
pub open spec fn row_bounded(s: Seq<i64>) -> bool {
    forall|c: int| 0 <= c < s.len() ==> -VALUE_LIMIT <= #[trigger] s[c] <= VALUE_LIMIT
}

/// Rescales one row to `[0, SCALE]` by its own minimum and maximum; a
/// constant row becomes all zeros.
pub fn scale_row(row: &Vec<i64>) -> (out: Vec<i64>)
    requires
        row_bounded(row@),
    ensures
        out@.len() == row@.len(),
        forall|c: int|
            0 <= c < out@.len() ==> #[trigger] out@[c] as int == normalized_value(
                row@[c] as int,
                seq_min(row@),
                seq_max(row@),
            ),
        row_in_unit(out@),
{
    let n = row.len();
    let mut out: Vec<i64> = Vec::new();
    if n == 0 {
        return out;
    }
    let mut lo: i64 = row[0];
    let mut hi: i64 = row[0];
    let mut i: usize = 1;
    while i < n
        invariant
            1 <= i <= n,
            n == row@.len(),
            row_bounded(row@),
            lo as int == seq_min(row@.take(i as int)),
            hi as int == seq_max(row@.take(i as int)),
        decreases n - i,
    {
        let v = row[i];
        proof {
            assert(row@.take(i as int + 1).drop_last() =~= row@.take(i as int));
        }
        if v < lo {
            lo = v;
        }
        if v > hi {
            hi = v;
        }
        i = i + 1;
    }
    proof {
        assert(row@.take(n as int) =~= row@);
    }
    let mut j: usize = 0;
    while j < n
        invariant
            0 <= j <= n,
            n == row@.len(),
            out@.len() == j,
            row_bounded(row@),
            lo as int == seq_min(row@),
            hi as int == seq_max(row@),
            forall|c: int|
                0 <= c < j ==> #[trigger] out@[c] as int == normalized_value(
                    row@[c] as int,
                    seq_min(row@),
                    seq_max(row@),
                ) && 0 <= out@[c] <= SCALE,
        decreases n - j,
    {
        let v = row[j];
        proof {
            lemma_min_max_le(row@, j as int);
            lemma_min_max_bounds(row@, VALUE_LIMIT as int);
            lemma_normalized_in_unit(row@[j as int] as int, seq_min(row@), seq_max(row@));
        }
        let scaled: i64 = if hi <= lo {
            0
        } else {
            assert(0 <= (v - lo) * SCALE <= 2 * VALUE_LIMIT * SCALE) by (nonlinear_arith)
                requires 0 <= v - lo <= 2 * VALUE_LIMIT, SCALE > 0;
            ((v - lo) * SCALE) / (hi - lo)
        };
        out.push(scaled);
        j = j + 1;
    }
    out
}

} // verus!
