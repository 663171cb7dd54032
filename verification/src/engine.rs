//! The annealing engine: cluster assignment, per-cluster energy cache,
//! and the exact cooling schedule, advanced one proposed move at a time.
//!
//! The engine owns the table, the packed distance cache, the assignment
//! and the cached energies. A caller drives the iteration loop: it asks
//! for a proposal, evaluates the probabilistic acceptance test on the
//! energy change (floating-point work that stays outside), and either
//! applies the move or leaves the state untouched. Between calls the
//! cached energies always match a from-scratch recomputation.
use vstd::prelude::*;
use rand::rngs::StdRng;

verus! {

use crate::ConfigError;
use crate::DIST_BOUND;
use crate::MAX_COLS;
use crate::VALUE_LIMIT;
use crate::energy::cluster_energy;
use crate::energy::lemma_ascending_len;
use crate::energy::lemma_cluster_energy_bound;
use crate::energy::lemma_members_props;
use crate::energy::lemma_members_update_other;
use crate::energy::lemma_pairs_energy_bound;
use crate::energy::lemma_row_links_bound;
use crate::energy::lemma_row_links_prefix;
use crate::energy::lemma_total_update_two;
use crate::energy::members;
use crate::energy::pairs_energy;
use crate::energy::row_links;
use crate::energy::total_energy;
use crate::normalize::normalized_value;
use crate::normalize::row_bounded;
use crate::normalize::scale_row;
use crate::normalize::seq_max;
use crate::normalize::seq_min;
use crate::rng_source::UNIT_DRAW_BOUND;
use crate::rng_source::rng_below;
use crate::rng_source::rng_from_seed;
use crate::rng_source::rng_unit;
use crate::store::DistanceStore;
use crate::store::rows_normalized;
use crate::store::rows_uniform;
use crate::temperature::Temperature;
use crate::tri::lemma_n_small;
use crate::tri::pair_count;

/// The width every row of a table must share.
pub open spec fn table_cols(data: Seq<Vec<i64>>) -> int {
    if data.len() == 0 {
        0
    } else {
        data[0]@.len() as int
    }
}

/// Whether every row's values lie within `VALUE_LIMIT`.
pub open spec fn rows_bounded(data: Seq<Vec<i64>>) -> bool {
    forall|r: int| 0 <= r < data.len() ==> row_bounded(#[trigger] data[r]@)
}

/// The first configuration or input-shape violation, in a fixed order of
/// checks; `None` when the input is accepted.
pub open spec fn config_error(
    rownames: Seq<String>,
    data: Seq<Vec<i64>>,
    k: int,
    initial: int,
    cool_num: int,
    cool_den: int,
) -> Option<ConfigError> {
    if k == 0 {
        Some(ConfigError::NoClusters)
    } else if initial == 0 {
        Some(ConfigError::ZeroTemperature)
    } else if !(1 <= cool_num < cool_den) {
        Some(ConfigError::BadCooling)
    } else if rownames.len() != data.len() {
        Some(ConfigError::NameCountMismatch)
    } else if !rows_uniform(data, table_cols(data)) {
        Some(ConfigError::RaggedRow)
    } else if table_cols(data) > MAX_COLS {
        Some(ConfigError::RowTooWide)
    } else if !rows_bounded(data) {
        Some(ConfigError::ValueOutOfRange)
    } else if pair_count(data.len() as int) > usize::MAX {
        Some(ConfigError::TooManyRows)
    } else {
        None
    }
}

/// The clustering engine.
pub struct SimulatedAnnealing {
    /// The row vectors: raw at construction, normalized after
    /// `scale_01`.
    pub data: Vec<Vec<i64>>,
    /// The name of each row.
    pub rownames: Vec<String>,
    /// The cluster count.
    pub k: usize,
    /// The cluster id of each row.
    pub clusters: Vec<usize>,
    /// The cached energy of each cluster.
    pub clusters_energy: Vec<u128>,
    /// The exact cooling schedule.
    pub temp: Temperature,
    /// The packed pairwise distances, built by `scale_01`.
    pub store: DistanceStore,
    /// The seeded random source for proposals.
    pub rng: StdRng,
}

impl SimulatedAnnealing {
    /// The number of rows.
    pub open spec fn n(self) -> int {
        self.data@.len() as int
    }

    /// Shape invariants that hold from construction on.
    pub open spec fn wf_base(self) -> bool {
        &&& self.rownames@.len() == self.n()
        &&& self.clusters@.len() == self.n()
        &&& self.k >= 1
        &&& self.clusters_energy@.len() == self.k
        &&& forall|r: int| 0 <= r < self.n() ==> (#[trigger] self.clusters@[r]) < self.k
        &&& rows_uniform(self.data@, table_cols(self.data@))
        &&& table_cols(self.data@) <= MAX_COLS
        &&& rows_bounded(self.data@)
        &&& pair_count(self.n()) <= usize::MAX
        &&& self.temp.wf()
    }

    /// Holds once `scale_01` has run: the rows are normalized and the
    /// distance cache matches them.
    pub open spec fn prepared(self) -> bool {
        &&& self.wf_base()
        &&& rows_normalized(self.data@)
        &&& self.store.wf()
        &&& self.store.matches(self.data@)
    }

    /// Holds once the energy cache is initialized, and between moves
    /// ever after: every cached energy equals a from-scratch
    /// recomputation for its cluster.
    pub open spec fn ready(self) -> bool {
        &&& self.prepared()
        &&& forall|c: int|
            0 <= c < self.k ==> #[trigger] self.clusters_energy@[c] as int == cluster_energy(
                self.store,
                self.clusters@,
                c,
            )
    }

    /// Builds an engine over a table: validates the configuration and
    /// the input shape, assigns every row a random cluster in `[0, k)`
    /// from the seeded source, and leaves normalization to `scale_01`.
    pub fn new(
        rownames: Vec<String>,
        data: Vec<Vec<i64>>,
        k: usize,
        initial_temp: u64,
        cool_num: u64,
        cool_den: u64,
        seed: u64,
    ) -> (r: Result<SimulatedAnnealing, ConfigError>)
        ensures
            match r {
                Result::Ok(eng) => {
                    &&& config_error(
                        rownames@,
                        data@,
                        k as int,
                        initial_temp as int,
                        cool_num as int,
                        cool_den as int,
                    ) is None
                    &&& eng.wf_base()
                    &&& eng.data@ == data@
                    &&& eng.rownames@ == rownames@
                    &&& eng.k == k
                    &&& eng.temp == (Temperature {
                        initial: initial_temp,
                        cool_num,
                        cool_den,
                        steps: 0,
                    })
                    &&& forall|c: int| 0 <= c < k ==> #[trigger] eng.clusters_energy@[c] == 0
                },
                Result::Err(e) => Some(e) == config_error(
                    rownames@,
                    data@,
                    k as int,
                    initial_temp as int,
                    cool_num as int,
                    cool_den as int,
                ),
            },
    {
        if k == 0 {
            return Err(ConfigError::NoClusters);
        }
        let temp = match Temperature::new(initial_temp, cool_num, cool_den) {
            Ok(t) => t,
            Err(e) => {
                return Err(e);
            },
        };
        if rownames.len() != data.len() {
            return Err(ConfigError::NameCountMismatch);
        }
        let n = data.len();
        let cols = if n == 0 {
            0
        } else {
            data[0].len()
        };
        let mut r: usize = 0;
        while r < n
            invariant
                r <= n,
                n == data@.len(),
                cols as int == table_cols(data@),
                forall|i: int| 0 <= i < r ==> #[trigger] data@[i]@.len() == cols,
            decreases n - r,
        {
            if data[r].len() != cols {
                return Err(ConfigError::RaggedRow);
            }
            r = r + 1;
        }
        if cols > MAX_COLS {
            return Err(ConfigError::RowTooWide);
        }
        let mut r: usize = 0;
        while r < n
            invariant
                r <= n,
                n == data@.len(),
                forall|i: int| 0 <= i < r ==> row_bounded(#[trigger] data@[i]@),
            decreases n - r,
        {
            let row = &data[r];
            let m = row.len();
            let mut c: usize = 0;
            while c < m
                invariant
                    c <= m,
                    m == row@.len(),
                    row@ == data@[r as int]@,
                    r < n == data@.len(),
                    forall|i: int| 0 <= i < c ==> -VALUE_LIMIT <= #[trigger] row@[i] <= VALUE_LIMIT,
                decreases m - c,
            {
                let v = row[c];
                if v < -VALUE_LIMIT || v > VALUE_LIMIT {
                    return Err(ConfigError::ValueOutOfRange);
                }
                c = c + 1;
            }
            r = r + 1;
        }
        if n >= 2 {
            let nn = n as u128;
            assert(nn * (nn - 1) <= 0xffffffffffffffffffffffffffffffffu128) by (nonlinear_arith)
                requires nn <= 0xffffffffffffffffu128;
            let pc = nn * (nn - 1) / 2;
            assert(pc as int == pair_count(n as int));
            if pc > usize::MAX as u128 {
                return Err(ConfigError::TooManyRows);
            }
        } else {
            assert(pair_count(n as int) == 0) by (nonlinear_arith)
                requires 0 <= n < 2;
        }
        let mut rng = rng_from_seed(seed);
        let mut clusters: Vec<usize> = Vec::new();
        let mut r: usize = 0;
        while r < n
            invariant
                r <= n,
                clusters@.len() == r,
                k >= 1,
                forall|i: int| 0 <= i < r ==> (#[trigger] clusters@[i]) < k,
            decreases n - r,
        {
            let c = rng_below(&mut rng, k);
            clusters.push(c);
            r = r + 1;
        }
        let mut clusters_energy: Vec<u128> = Vec::new();
        let mut c: usize = 0;
        while c < k
            invariant
                c <= k,
                clusters_energy@.len() == c,
                forall|i: int| 0 <= i < c ==> #[trigger] clusters_energy@[i] == 0,
            decreases k - c,
        {
            clusters_energy.push(0);
            c = c + 1;
        }
        Ok(
            SimulatedAnnealing {
                data,
                rownames,
                k,
                clusters,
                clusters_energy,
                temp,
                store: DistanceStore::empty(),
                rng,
            },
        )
    }

    /// Normalizes every row to `[0, SCALE]` by its own range, then
    /// builds the pairwise distance cache over the normalized rows.
    pub fn scale_01(&mut self)
        requires
            old(self).wf_base(),
        ensures
            final(self).prepared(),
            final(self).rownames@ == old(self).rownames@,
            final(self).k == old(self).k,
            final(self).clusters@ == old(self).clusters@,
            final(self).clusters_energy@ == old(self).clusters_energy@,
            final(self).temp == old(self).temp,
            final(self).data@.len() == old(self).data@.len(),
            forall|r: int|
                0 <= r < final(self).data@.len() ==> #[trigger] final(self).data@[r]@.len() == old(
                    self,
                ).data@[r]@.len(),
            forall|r: int, c: int|
                0 <= r < final(self).data@.len() && 0 <= c < final(self).data@[r]@.len()
                    ==> #[trigger] final(self).data@[r]@[c] as int == normalized_value(
                    old(self).data@[r]@[c] as int,
                    seq_min(old(self).data@[r]@),
                    seq_max(old(self).data@[r]@),
                ),
    {
        let n = self.data.len();
        let ghost orig = self.data@;
        let mut r: usize = 0;
        while r < n
            invariant
                r <= n,
                self.data@.len() == n == orig.len(),
                self.rownames@ == old(self).rownames@,
                self.k == old(self).k,
                self.clusters@ == old(self).clusters@,
                self.clusters_energy@ == old(self).clusters_energy@,
                self.temp == old(self).temp,
                self.rng == old(self).rng,
                old(self).wf_base(),
                orig == old(self).data@,
                rows_uniform(orig, table_cols(orig)),
                rows_bounded(orig),
                forall|i: int| r <= i < n ==> #[trigger] self.data@[i] == orig[i],
                forall|i: int|
                    0 <= i < r ==> #[trigger] self.data@[i]@.len() == orig[i]@.len()
                        && crate::distance::row_in_unit(self.data@[i]@),
                forall|i: int, c: int|
                    0 <= i < r && 0 <= c < self.data@[i]@.len() ==> #[trigger] self.data@[i]@[c]
                        as int == normalized_value(
                        orig[i]@[c] as int,
                        seq_min(orig[i]@),
                        seq_max(orig[i]@),
                    ),
            decreases n - r,
        {
            let scaled = scale_row(&self.data[r]);
            self.data.set(r, scaled);
            r = r + 1;
        }
        proof {
            assert(table_cols(self.data@) == table_cols(orig));
            assert forall|i: int| 0 <= i < n implies #[trigger] self.data@[i]@.len() == table_cols(
                self.data@,
            ) by {
                assert(orig[i]@.len() == table_cols(orig));
            }
        }
        let built = DistanceStore::build(&self.data);
        self.store = built;
        proof {
            assert forall|i: int| 0 <= i < n implies row_bounded(#[trigger] self.data@[i]@) by {
                assert(crate::distance::row_in_unit(self.data@[i]@));
            }
        }
    }

    /// Collects the rows currently assigned to one cluster, in
    /// ascending order.
    fn cluster_rows(&self, clus: usize) -> (ids: Vec<usize>)
        ensures
            ids@ == members(self.clusters@, clus as int),
    {
        let n = self.clusters.len();
        let mut ids: Vec<usize> = Vec::new();
        let mut i: usize = 0;
        while i < n
            invariant
                i <= n,
                ids@ == members(self.clusters@.take(i as int), clus as int),
            decreases n - i,
        {
            proof {
                assert(self.clusters@.take(i as int + 1).drop_last() =~= self.clusters@.take(
                    i as int,
                ));
            }
            if self.clusters[i] == clus {
                ids.push(i);
            }
            i = i + 1;
        }
        proof {
            assert(self.clusters@.take(n as int) =~= self.clusters@);
        }
        ids
    }

    /// Collects the rows that cluster `clus` would hold if row `row`
    /// carried cluster id `to`, in ascending order; the committed
    /// assignment is left untouched.
    fn cluster_rows_moved(&self, clus: usize, row: usize, to: usize) -> (ids: Vec<usize>)
        requires
            row < self.clusters@.len(),
        ensures
            ids@ == members(self.clusters@.update(row as int, to), clus as int),
    {
        let ghost upd = self.clusters@.update(row as int, to);
        let n = self.clusters.len();
        let mut ids: Vec<usize> = Vec::new();
        let mut i: usize = 0;
        while i < n
            invariant
                i <= n,
                ids@ == members(upd.take(i as int), clus as int),
            decreases n - i,
        {
            proof {
                assert(upd.take(i as int + 1).drop_last() =~= upd.take(i as int));
            }
            let ci = if i == row {
                to
            } else {
                self.clusters[i]
            };
            if ci == clus {
                ids.push(i);
            }
            i = i + 1;
        }
        proof {
            assert(upd.take(n as int) =~= upd);
        }
        ids
    }

    /// Sums the cached distances over every unordered pair of the listed
    /// rows.
    fn sum_pairs(&self, ids: &Vec<usize>) -> (e: u128)
        requires
            self.store.wf(),
            forall|a: int| 0 <= a < ids@.len() ==> (#[trigger] ids@[a]) < self.store.n,
            forall|x: int, y: int| 0 <= x < y < ids@.len() ==> ids@[x] < ids@[y],
        ensures
            e as int == pairs_energy(self.store, ids@),
            e as int <= pair_count(ids@.len() as int) * (DIST_BOUND as int),
    {
        let _slots = self.store.len();
        proof {
            lemma_n_small(self.store.n as int);
            lemma_ascending_len(ids@, self.store.n as int);
            crate::tri::lemma_pair_count_mono(ids@.len() as int, self.store.n as int);
        }
        let m = ids.len();
        let mut e: u128 = 0;
        let mut t: usize = 0;
        while t < m
            invariant
                t <= m,
                e as int == pairs_energy(self.store, ids@.take(t as int)),
            decreases m - t,
        {
            let b = ids[t];
            proof {
                assert forall|a: int| 0 <= a < t implies (#[trigger] ids@[a]) < self.store.n
                    && ids@[a] as int != b as int by {
                    assert(ids@[a] < ids@[t as int]);
                }
                lemma_pairs_energy_bound(self.store, ids@.take(t as int));
                crate::tri::lemma_pair_count_mono(t as int, self.store.n as int);
            }
            let mut a: usize = 0;
            while a < t
                invariant
                    a <= t,
                    e as int == pairs_energy(self.store, ids@.take(t as int)) + row_links(
                        self.store,
                        ids@,
                        a as int,
                        b as int,
                    ),
                decreases t - a,
            {
                proof {
                    lemma_row_links_bound(self.store, ids@, a as int + 1, b as int);
                    lemma_row_links_bound(self.store, ids@, a as int, b as int);
                    assert(pair_count(t as int) * (DIST_BOUND as int) <= 0xffffffffffffffffint * (
                    DIST_BOUND as int)) by (nonlinear_arith)
                        requires 0 <= pair_count(t as int) <= 0xffffffffffffffffint;
                    assert((a as int + 1) * (DIST_BOUND as int) <= 0x200000001int * (
                    DIST_BOUND as int)) by (nonlinear_arith)
                        requires 0 <= a as int + 1 <= 0x200000001int;
                }
                let d = self.store.get(ids[a], b);
                e = e + (d as u128);
                a = a + 1;
            }
            proof {
                lemma_row_links_prefix(
                    self.store,
                    ids@,
                    ids@.take(t as int),
                    t as int,
                    b as int,
                );
                assert(ids@.take(t as int + 1).drop_last() =~= ids@.take(t as int));
                assert(ids@.take(t as int + 1).last() == b);
                lemma_pairs_energy_bound(self.store, ids@.take(t as int + 1));
            }
            t = t + 1;
        }
        proof {
            assert(ids@.take(m as int) =~= ids@);
            lemma_pairs_energy_bound(self.store, ids@);
        }
        e
    }

    /// Recomputes the energy of one cluster from scratch: the sum of
    /// cached pairwise distances over its current members.
    pub fn calc_ek(&self, clus: usize) -> (e: u128)
        requires
            self.prepared(),
        ensures
            e as int == cluster_energy(self.store, self.clusters@, clus as int),
            e as int <= pair_count(self.n()) * (DIST_BOUND as int),
    {
        let ids = self.cluster_rows(clus);
        proof {
            lemma_members_props(self.clusters@, clus as int);
            lemma_ascending_len(ids@, self.n());
            crate::tri::lemma_pair_count_nonneg(ids@.len() as int);
            crate::tri::lemma_pair_count_mono(ids@.len() as int, self.n());
            assert(pair_count(ids@.len() as int) * (DIST_BOUND as int) <= pair_count(self.n()) * (
            DIST_BOUND as int)) by (nonlinear_arith)
                requires 0 <= pair_count(ids@.len() as int) <= pair_count(self.n());
        }
        self.sum_pairs(&ids)
    }

    /// The energy one cluster would have if row `row` carried cluster id
    /// `to`; the committed assignment is left untouched.
    fn calc_ek_moved(&self, clus: usize, row: usize, to: usize) -> (e: u128)
        requires
            self.prepared(),
            row < self.n(),
            to < self.k,
        ensures
            e as int == cluster_energy(
                self.store,
                self.clusters@.update(row as int, to),
                clus as int,
            ),
            e as int <= pair_count(self.n()) * (DIST_BOUND as int),
    {
        let ids = self.cluster_rows_moved(clus, row, to);
        proof {
            let upd = self.clusters@.update(row as int, to);
            lemma_members_props(upd, clus as int);
            lemma_ascending_len(ids@, self.n());
            crate::tri::lemma_pair_count_nonneg(ids@.len() as int);
            crate::tri::lemma_pair_count_mono(ids@.len() as int, self.n());
            assert(pair_count(ids@.len() as int) * (DIST_BOUND as int) <= pair_count(self.n()) * (
            DIST_BOUND as int)) by (nonlinear_arith)
                requires 0 <= pair_count(ids@.len() as int) <= pair_count(self.n());
        }
        self.sum_pairs(&ids)
    }

    /// Fills the energy cache with a full from-scratch pass over every
    /// cluster: the state the iteration loop starts from.
    pub fn init_energies(&mut self)
        requires
            old(self).prepared(),
        ensures
            final(self).ready(),
            final(self).data@ == old(self).data@,
            final(self).rownames@ == old(self).rownames@,
            final(self).k == old(self).k,
            final(self).clusters@ == old(self).clusters@,
            final(self).store == old(self).store,
            final(self).temp == old(self).temp,
            final(self).rng == old(self).rng,
    {
        let k = self.k;
        let mut c: usize = 0;
        while c < k
            invariant
                c <= k,
                self.data@ == old(self).data@,
                self.rownames@ == old(self).rownames@,
                self.k == old(self).k == k,
                self.clusters@ == old(self).clusters@,
                self.store == old(self).store,
                self.temp == old(self).temp,
                self.rng == old(self).rng,
                self.clusters_energy@.len() == k,
                self.prepared(),
                forall|i: int|
                    0 <= i < c ==> #[trigger] self.clusters_energy@[i] as int == cluster_energy(
                        self.store,
                        self.clusters@,
                        i,
                    ),
            decreases k - c,
        {
            let e = self.calc_ek(c);
            self.clusters_energy.set(c, e);
            c = c + 1;
        }
    }

    /// Draws a proposed move from the seeded source: a row chosen
    /// uniformly from all rows, and a target cluster chosen uniformly
    /// from the clusters other than the row's current one (picking over
    /// `k - 1` ids and shifting past the current id, so no resampling is
    /// needed and the target always differs).
    pub fn propose(&mut self) -> (p: (usize, usize))
        requires
            old(self).wf_base(),
            old(self).n() >= 1,
            old(self).k >= 2,
        ensures
            p.0 < old(self).n(),
            p.1 < old(self).k,
            p.1 as int != old(self).clusters@[p.0 as int],
            final(self).data@ == old(self).data@,
            final(self).rownames@ == old(self).rownames@,
            final(self).k == old(self).k,
            final(self).clusters@ == old(self).clusters@,
            final(self).clusters_energy@ == old(self).clusters_energy@,
            final(self).store == old(self).store,
            final(self).temp == old(self).temp,
    {
        let n = self.data.len();
        let row = rng_below(&mut self.rng, n);
        let from = self.clusters[row];
        let d = rng_below(&mut self.rng, self.k - 1);
        let to = if d < from {
            d
        } else {
            d + 1
        };
        (row, to)
    }

    /// Draws one value for the unit interval: the caller divides by
    /// `UNIT_DRAW_BOUND` to obtain the uniform variate of the
    /// acceptance test.
    pub fn draw_unit(&mut self) -> (u: u64)
        ensures
            u < UNIT_DRAW_BOUND,
            final(self).data@ == old(self).data@,
            final(self).rownames@ == old(self).rownames@,
            final(self).k == old(self).k,
            final(self).clusters@ == old(self).clusters@,
            final(self).clusters_energy@ == old(self).clusters_energy@,
            final(self).store == old(self).store,
            final(self).temp == old(self).temp,
    {
        rng_unit(&mut self.rng)
    }

    /// The change of summed energy that moving row `row` to cluster `to`
    /// would cause, against a from-scratch account of both assignments;
    /// the committed state is left untouched. Negative means the move
    /// improves the objective (the average over `k` clusters orders the
    /// same way as the sum).
    pub fn move_delta(&self, row: usize, to: usize) -> (delta: i128)
        requires
            self.ready(),
            row < self.n(),
            to < self.k,
            to as int != self.clusters@[row as int],
        ensures
            delta as int == total_energy(
                self.store,
                self.clusters@.update(row as int, to),
                self.k as int,
            ) - total_energy(self.store, self.clusters@, self.k as int),
    {
        let from = self.clusters[row];
        let ef = self.clusters_energy[from];
        let et = self.clusters_energy[to];
        let ef2 = self.calc_ek_moved(from, row, to);
        let et2 = self.calc_ek_moved(to, row, to);
        proof {
            let upd = self.clusters@.update(row as int, to);
            lemma_cluster_energy_bound(self.store, self.clusters@, from as int);
            lemma_cluster_energy_bound(self.store, self.clusters@, to as int);
            assert(pair_count(self.n()) * (DIST_BOUND as int) <= 0xffffffffffffffffint * (
            DIST_BOUND as int)) by (nonlinear_arith)
                requires 0 <= pair_count(self.n()) <= 0xffffffffffffffffint;
            assert forall|c: int|
                0 <= c < self.k && c != from as int && c != to as int implies cluster_energy(
                self.store,
                upd,
                c,
            ) == cluster_energy(self.store, self.clusters@, c) by {
                lemma_members_update_other(self.clusters@, row as int, to, c);
            }
            lemma_total_update_two(
                self.store,
                self.clusters@,
                upd,
                self.k as int,
                from as int,
                to as int,
            );
        }
        (ef2 as i128 - ef as i128) + (et2 as i128 - et as i128)
    }

    /// Commits a move: reassigns the row and refreshes exactly the two
    /// affected clusters' cached energies; every other cached energy is
    /// reused unchanged, and the cache again matches a from-scratch
    /// recomputation.
    pub fn apply_move(&mut self, row: usize, to: usize)
        requires
            old(self).ready(),
            row < old(self).n(),
            to < old(self).k,
            to as int != old(self).clusters@[row as int],
        ensures
            final(self).ready(),
            final(self).clusters@ == old(self).clusters@.update(row as int, to),
            final(self).data@ == old(self).data@,
            final(self).rownames@ == old(self).rownames@,
            final(self).k == old(self).k,
            final(self).store == old(self).store,
            final(self).temp == old(self).temp,
            final(self).rng == old(self).rng,
            final(self).clusters_energy@.len() == old(self).clusters_energy@.len(),
            forall|c: int|
                0 <= c < old(self).k && c != old(self).clusters@[row as int] as int && c != to as int
                    ==> #[trigger] final(self).clusters_energy@[c] == old(self).clusters_energy@[c],
    {
        let from = self.clusters[row];
        let ef2 = self.calc_ek_moved(from, row, to);
        let et2 = self.calc_ek_moved(to, row, to);
        self.clusters.set(row, to);
        self.clusters_energy.set(from, ef2);
        self.clusters_energy.set(to, et2);
        proof {
            let upd = old(self).clusters@.update(row as int, to);
            assert forall|c: int|
                0 <= c < self.k implies #[trigger] self.clusters_energy@[c] as int
                == cluster_energy(self.store, self.clusters@, c) by {
                if c != from as int && c != to as int {
                    lemma_members_update_other(old(self).clusters@, row as int, to, c);
                }
            }
        }
    }

    /// Forces one row into a cluster, refreshing the affected cached
    /// energies; a row already in that cluster is left as it is.
    pub fn set_cluster(&mut self, row: usize, c: usize)
        requires
            old(self).ready(),
            row < old(self).n(),
            c < old(self).k,
        ensures
            final(self).ready(),
            final(self).clusters@ == old(self).clusters@.update(row as int, c),
            final(self).data@ == old(self).data@,
            final(self).rownames@ == old(self).rownames@,
            final(self).k == old(self).k,
            final(self).store == old(self).store,
            final(self).temp == old(self).temp,
    {
        if self.clusters[row] == c {
            proof {
                assert(old(self).clusters@.update(row as int, c) =~= old(self).clusters@);
            }
        } else {
            self.apply_move(row, c);
        }
    }

    /// Takes the unconditional end-of-iteration cooling step.
    pub fn cool_down(&mut self)
        requires
            old(self).temp.steps < usize::MAX,
        ensures
            final(self).temp.steps == old(self).temp.steps + 1,
            final(self).temp.initial == old(self).temp.initial,
            final(self).temp.cool_num == old(self).temp.cool_num,
            final(self).temp.cool_den == old(self).temp.cool_den,
            final(self).data@ == old(self).data@,
            final(self).rownames@ == old(self).rownames@,
            final(self).k == old(self).k,
            final(self).clusters@ == old(self).clusters@,
            final(self).clusters_energy@ == old(self).clusters_energy@,
            final(self).store == old(self).store,
            final(self).rng == old(self).rng,
    {
        self.temp.step();
    }

    /// Between iterations the cache is trustworthy: a cached cluster
    /// energy equals the from-scratch recomputation and is nonnegative.
    pub proof fn lemma_cache_matches_recomputation(self, c: int)
        requires
            self.ready(),
            0 <= c < self.k,
        ensures
            self.clusters_energy@[c] as int == cluster_energy(self.store, self.clusters@, c),
            cluster_energy(self.store, self.clusters@, c) >= 0,
    {
        lemma_cluster_energy_bound(self.store, self.clusters@, c);
    }

    /// The number of rows.
    pub fn n_rows(&self) -> (r: usize)
        ensures
            r as int == self.n(),
    {
        self.data.len()
    }

    /// The cluster count.
    pub fn cluster_count(&self) -> (r: usize)
        ensures
            r == self.k,
    {
        self.k
    }

    /// The cluster id of one row.
    pub fn cluster_of(&self, row: usize) -> (c: usize)
        requires
            self.wf_base(),
            row < self.n(),
        ensures
            c == self.clusters@[row as int],
    {
        self.clusters[row]
    }

    /// The whole assignment, one cluster id per row.
    pub fn assignment(&self) -> (a: &Vec<usize>)
        ensures
            a@ == self.clusters@,
    {
        &self.clusters
    }

    /// The row names.
    pub fn names(&self) -> (r: &Vec<String>)
        ensures
            r@ == self.rownames@,
    {
        &self.rownames
    }

    /// The cached energy of one cluster.
    pub fn energy_of(&self, c: usize) -> (e: u128)
        requires
            c < self.clusters_energy@.len(),
        ensures
            e == self.clusters_energy@[c as int],
    {
        self.clusters_energy[c]
    }

    /// The cooling schedule's state.
    pub fn temperature(&self) -> (t: &Temperature)
        ensures
            t == self.temp,
    {
        &self.temp
    }

    /// The number of completed iterations: one cooling step each.
    pub fn iterations(&self) -> (t: usize)
        ensures
            t == self.temp.steps,
    {
        self.temp.steps_taken()
    }
}

} // verus!
