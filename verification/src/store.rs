//! The packed pairwise-distance cache.
//!
//! After normalization, the distance between every unordered pair of rows
//! is computed once and held in a flat vector of exactly `n*(n-1)/2`
//! slots, addressed through `tri::tri_index`. Lookups canonicalize the
//! pair order, so reads are symmetric in the two row indexes.
use vstd::prelude::*;

verus! {

use crate::DIST_BOUND;
use crate::MAX_COLS;
use crate::distance::dist_spec;
use crate::distance::euclidean_distance;
use crate::distance::lemma_dist_symmetric;
use crate::distance::row_in_unit;
use crate::tri::lemma_row_base_full;
use crate::tri::lemma_row_base_step;
use crate::tri::lemma_row_base_zero;
use crate::tri::lemma_tri_index_order;
use crate::tri::lemma_tri_index_range;
use crate::tri::pair_count;
use crate::tri::pair_index;
use crate::tri::row_base;
use crate::tri::tri_index;

/// Whether every row of the table has exactly `cols` values.
pub open spec fn rows_uniform(data: Seq<Vec<i64>>, cols: int) -> bool {
    forall|r: int| 0 <= r < data.len() ==> #[trigger] data[r]@.len() == cols
}

/// Whether every row of the table is normalized to `[0, SCALE]`.
pub open spec fn rows_normalized(data: Seq<Vec<i64>>) -> bool {
    forall|r: int| 0 <= r < data.len() ==> row_in_unit(#[trigger] data[r]@)
}

/// The flat cache of all pairwise row distances.
pub struct DistanceStore {
    /// The number of rows the cache was built over.
    pub n: usize,
    /// The packed distances; slot `tri_index(i, j, n)` holds the distance
    /// between rows `i` and `j`, for `i < j`.
    pub d: Vec<u64>,
}

impl DistanceStore {
    /// The cache holds exactly one slot per unordered pair, each within
    /// `DIST_BOUND`.
    pub open spec fn wf(self) -> bool {
        &&& self.d@.len() == pair_count(self.n as int)
        &&& forall|p: int| 0 <= p < self.d@.len() ==> #[trigger] self.d@[p] <= DIST_BOUND
    }

    /// The stored distance between rows `i` and `j`, read with the pair
    /// in canonical order.
    pub open spec fn pair_dist(self, i: int, j: int) -> int {
        if i < j {
            self.d@[tri_index(i, j, self.n as int)] as int
        } else {
            self.d@[tri_index(j, i, self.n as int)] as int
        }
    }

    /// Whether the cache holds exactly the distances of the given table.
    pub open spec fn matches(self, data: Seq<Vec<i64>>) -> bool {
        &&& self.n == data.len()
        &&& forall|i: int, j: int|
            0 <= i < j < data.len() ==> #[trigger] self.d@[tri_index(i, j, self.n as int)] as int
                == dist_spec(data[i]@, data[j]@)
    }

    /// Reads are symmetric: the slot of a pair does not depend on the
    /// order in which the two rows are named.
    pub proof fn lemma_pair_dist_symmetric(self, i: int, j: int)
        ensures
            self.pair_dist(i, j) == self.pair_dist(j, i),
    {
    }

    /// A canonicalized read returns the distance of the two rows, within
    /// `DIST_BOUND`.
    pub proof fn lemma_pair_dist_matches(self, data: Seq<Vec<i64>>, i: int, j: int)
        requires
            self.wf(),
            self.matches(data),
            0 <= i < data.len(),
            0 <= j < data.len(),
            i != j,
            forall|r: int| 0 <= r < data.len() ==> #[trigger] data[r]@.len() == data[0]@.len(),
        ensures
            self.pair_dist(i, j) == dist_spec(data[i]@, data[j]@),
            0 <= self.pair_dist(i, j) <= DIST_BOUND,
    {
        if i < j {
            lemma_tri_index_range(i, j, self.n as int);
        } else {
            lemma_tri_index_range(j, i, self.n as int);
            lemma_dist_symmetric(data[i]@, data[j]@);
        }
    }

    /// An empty cache over no rows.
    pub fn empty() -> (s: DistanceStore)
        ensures
            s.wf(),
            s.n == 0,
    {
        DistanceStore { n: 0, d: Vec::new() }
    }

    /// The number of slots.
    pub fn len(&self) -> (l: usize)
        ensures
            l as int == self.d@.len(),
    {
        self.d.len()
    }

    /// The number of rows the cache was built over.
    pub fn row_count(&self) -> (r: usize)
        ensures
            r == self.n,
    {
        self.n
    }

    /// Builds the cache over a normalized table: every unordered pair's
    /// distance, computed once, in row-major order.
    pub fn build(data: &Vec<Vec<i64>>) -> (s: DistanceStore)
        requires
            rows_uniform(data@, if data@.len() == 0 { 0int } else { data@[0]@.len() as int }),
            data@.len() > 0 ==> data@[0]@.len() <= MAX_COLS,
            rows_normalized(data@),
            pair_count(data@.len() as int) <= usize::MAX,
        ensures
            s.wf(),
            s.matches(data@),
    {
        let n = data.len();
        let mut d: Vec<u64> = Vec::new();
        proof {
            lemma_row_base_zero(n as int);
        }
        let mut i: usize = 0;
        while i < n
            invariant
                i <= n,
                n == data@.len(),
                rows_uniform(data@, if n == 0 { 0int } else { data@[0]@.len() as int }),
                n > 0 ==> data@[0]@.len() <= MAX_COLS,
                rows_normalized(data@),
                pair_count(n as int) <= usize::MAX,
                d@.len() == row_base(i as int, n as int),
                forall|p: int| 0 <= p < d@.len() ==> #[trigger] d@[p] <= DIST_BOUND,
                forall|a: int, b: int|
                    0 <= a < b < n && a < i ==> #[trigger] d@[tri_index(a, b, n as int)] as int
                        == dist_spec(data@[a]@, data@[b]@),
            decreases n - i,
        {
            let mut j: usize = i + 1;
            while j < n
                invariant
                    i < j <= n,
                    i < n,
                    n == data@.len(),
                    rows_uniform(data@, if n == 0 { 0int } else { data@[0]@.len() as int }),
                    n > 0 ==> data@[0]@.len() <= MAX_COLS,
                    rows_normalized(data@),
                    pair_count(n as int) <= usize::MAX,
                    d@.len() == tri_index(i as int, j as int, n as int),
                    forall|p: int| 0 <= p < d@.len() ==> #[trigger] d@[p] <= DIST_BOUND,
                    forall|a: int, b: int|
                        0 <= a < b < n && (a < i || (a == i && b < j)) ==> #[trigger] d@[
                            tri_index(a, b, n as int)] as int == dist_spec(data@[a]@, data@[b]@),
                decreases n - j,
            {
                proof {
                    lemma_tri_index_range(i as int, j as int, n as int);
                }
                let dist = euclidean_distance(&data[i], &data[j]);
                d.push(dist);
                proof {
                    assert forall|a: int, b: int|
                        0 <= a < b < n && (a < i || (a == i && b < j + 1)) implies #[trigger] d@[
                        tri_index(a, b, n as int)] as int == dist_spec(data@[a]@, data@[b]@) by {
                        lemma_tri_index_range(a, b, n as int);
                        if a < i || b < j {
                            lemma_tri_index_order(a, b, i as int, j as int, n as int);
                        }
                    }
                }
                j = j + 1;
            }
            proof {
                lemma_row_base_step(i as int, n as int);
            }
            i = i + 1;
        }
        proof {
            lemma_row_base_full(n as int);
        }
        DistanceStore { n, d }
    }

    /// Looks up the distance between two distinct rows, canonicalizing
    /// the pair order.
    pub fn get(&self, i: usize, j: usize) -> (dist: u64)
        requires
            self.wf(),
            i < self.n,
            j < self.n,
            i != j,
        ensures
            dist as int == self.pair_dist(i as int, j as int),
            dist <= DIST_BOUND,
    {
        let total = self.d.len();
        assert(pair_count(self.n as int) <= usize::MAX);
        let slot = if i < j {
            pair_index(i, j, self.n)
        } else {
            pair_index(j, i, self.n)
        };
        assert(slot < total);
        self.d[slot]
    }
}

} // verus!
