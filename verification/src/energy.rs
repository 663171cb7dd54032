//! Cluster energy: the sum of cached pairwise distances over every
//! unordered pair of rows assigned to one cluster.
//!
//! The model works over the member list of a cluster (row indexes in
//! ascending order) and sums the packed distances over its pairs. The
//! lemmas bound an energy by the pair count, and show that moving one row
//! between two clusters leaves every other cluster's energy unchanged.
use vstd::prelude::*;

verus! {

use crate::DIST_BOUND;
use crate::store::DistanceStore;
use crate::tri::lemma_tri_index_range;
use crate::tri::pair_count;

/// The rows assigned to cluster `c`, in ascending order.
pub open spec fn members(clusters: Seq<usize>, c: int) -> Seq<usize>
    decreases clusters.len(),
{
    if clusters.len() == 0 {
        Seq::empty()
    } else {
        let pre = members(clusters.drop_last(), c);
        if clusters.last() as int == c {
            pre.push((clusters.len() - 1) as usize)
        } else {
            pre
        }
    }
}

/// The sum of distances from each of the first `m` listed rows to row `b`.
pub open spec fn row_links(s: DistanceStore, ids: Seq<usize>, m: int, b: int) -> int
    decreases m,
{
    if m <= 0 {
        0
    } else {
        row_links(s, ids, m - 1, b) + s.pair_dist(ids[m - 1] as int, b)
    }
}

/// The sum of distances over every unordered pair of listed rows.
pub open spec fn pairs_energy(s: DistanceStore, ids: Seq<usize>) -> int
    decreases ids.len(),
{
    if ids.len() == 0 {
        0
    } else {
        pairs_energy(s, ids.drop_last()) + row_links(
            s,
            ids.drop_last(),
            ids.len() - 1,
            ids.last() as int,
        )
    }
}

/// The energy of cluster `c` under the given assignment.
pub open spec fn cluster_energy(s: DistanceStore, clusters: Seq<usize>, c: int) -> int {
    pairs_energy(s, members(clusters, c))
}

/// The summed energy of clusters `0 .. k`.
pub open spec fn total_energy(s: DistanceStore, clusters: Seq<usize>, k: int) -> int
    decreases k,
{
    if k <= 0 {
        0
    } else {
        total_energy(s, clusters, k - 1) + cluster_energy(s, clusters, k - 1)
    }
}

/// Member lists hold rows of the assignment that carry cluster `c`, in
/// strictly ascending order.
pub proof fn lemma_members_props(clusters: Seq<usize>, c: int)
    requires
        clusters.len() <= usize::MAX,
    ensures
        members(clusters, c).len() <= clusters.len(),
        forall|x: int|
            0 <= x < members(clusters, c).len() ==> #[trigger] members(clusters, c)[x]
                < clusters.len() && clusters[members(clusters, c)[x] as int] as int == c,
        forall|x: int, y: int|
            0 <= x < y < members(clusters, c).len() ==> members(clusters, c)[x] < members(
                clusters,
                c,
            )[y],
    decreases clusters.len(),
{
    if clusters.len() > 0 {
        let pre_cl = clusters.drop_last();
        lemma_members_props(pre_cl, c);
        let pre = members(pre_cl, c);
        let ids = members(clusters, c);
        if clusters.last() as int == c {
            assert(ids =~= pre.push((clusters.len() - 1) as usize));
        } else {
            assert(ids =~= pre);
        }
        assert forall|x: int|
            0 <= x < ids.len() implies #[trigger] ids[x] < clusters.len() && clusters[ids[x] as int]
            as int == c by {
            if x < pre.len() {
                assert(ids[x] == pre[x]);
                assert(pre[x] < pre_cl.len());
                assert(clusters[pre[x] as int] == pre_cl[pre[x] as int]);
            } else {
                assert(clusters.last() as int == c);
                assert(ids[x] == (clusters.len() - 1) as usize);
            }
        }
        assert forall|x: int, y: int| 0 <= x < y < ids.len() implies ids[x] < ids[y] by {
            if y < pre.len() {
                assert(ids[x] == pre[x] && ids[y] == pre[y]);
            } else {
                assert(ids[y] == (clusters.len() - 1) as usize);
                assert(ids[x] == pre[x]);
                assert(pre[x] < pre_cl.len());
            }
        }
    }
}

/// A strictly ascending list of row indexes below `n` has at most `n`
/// entries.
pub proof fn lemma_ascending_len(ids: Seq<usize>, n: int)
    requires
        n >= 0,
        forall|a: int| 0 <= a < ids.len() ==> (#[trigger] ids[a]) < n,
        forall|x: int, y: int| 0 <= x < y < ids.len() ==> ids[x] < ids[y],
    ensures
        ids.len() <= n,
    decreases ids.len(),
{
    if ids.len() > 0 {
        let pre = ids.drop_last();
        assert forall|a: int| 0 <= a < pre.len() implies (#[trigger] pre[a]) < ids.last() as int by {
            assert(ids[a] < ids.last());
        }
        lemma_ascending_len(pre, ids.last() as int);
    }
}

/// `row_links` reads only the first `m` listed rows, so any two lists
/// that agree there sum alike.
pub proof fn lemma_row_links_prefix(
    s: DistanceStore,
    ids1: Seq<usize>,
    ids2: Seq<usize>,
    m: int,
    b: int,
)
    requires
        m <= ids1.len(),
        m <= ids2.len(),
        forall|a: int| 0 <= a < m ==> ids1[a] == ids2[a],
    ensures
        row_links(s, ids1, m, b) == row_links(s, ids2, m, b),
    decreases m,
{
    if m > 0 {
        lemma_row_links_prefix(s, ids1, ids2, m - 1, b);
    }
}

/// Each link is a cached distance in `[0, DIST_BOUND]`, so a row's links
/// sum to at most `m * DIST_BOUND`.
pub proof fn lemma_row_links_bound(s: DistanceStore, ids: Seq<usize>, m: int, b: int)
    requires
        s.wf(),
        0 <= m <= ids.len(),
        0 <= b < s.n,
        forall|a: int| 0 <= a < m ==> #[trigger] ids[a] < s.n && ids[a] as int != b,
    ensures
        0 <= row_links(s, ids, m, b),
        row_links(s, ids, m, b) <= m * (DIST_BOUND as int),
    decreases m,
{
    if m > 0 {
        lemma_row_links_bound(s, ids, m - 1, b);
        let i = ids[m - 1] as int;
        if i < b {
            lemma_tri_index_range(i, b, s.n as int);
        } else {
            lemma_tri_index_range(b, i, s.n as int);
        }
        assert((m - 1) * (DIST_BOUND as int) + DIST_BOUND as int == m * (DIST_BOUND as int))
            by (nonlinear_arith);
    }
}

/// The energy over a list of distinct rows is nonnegative and at most
/// one `DIST_BOUND` per unordered pair.
pub proof fn lemma_pairs_energy_bound(s: DistanceStore, ids: Seq<usize>)
    requires
        s.wf(),
        forall|a: int| 0 <= a < ids.len() ==> #[trigger] ids[a] < s.n,
        forall|x: int, y: int| 0 <= x < y < ids.len() ==> ids[x] < ids[y],
    ensures
        0 <= pairs_energy(s, ids),
        pairs_energy(s, ids) <= pair_count(ids.len() as int) * (DIST_BOUND as int),
    decreases ids.len(),
{
    let m = ids.len() as int;
    if m == 0 {
        assert(pair_count(0) == 0) by (nonlinear_arith);
    } else {
        let pre = ids.drop_last();
        lemma_pairs_energy_bound(s, pre);
        lemma_row_links_bound(s, pre, m - 1, ids.last() as int);
        assert(pair_count(m - 1) + (m - 1) == pair_count(m)) by {
            crate::tri::lemma_pair_count_double(m);
            crate::tri::lemma_pair_count_double(m - 1);
            assert((m - 1) * (m - 2) + 2 * (m - 1) == m * (m - 1)) by (nonlinear_arith);
        }
        assert((pair_count(m - 1) + (m - 1)) * (DIST_BOUND as int) == pair_count(m - 1) * (
        DIST_BOUND as int) + (m - 1) * (DIST_BOUND as int)) by (nonlinear_arith);
    }
}

/// The energy of a cluster is nonnegative, and at most one `DIST_BOUND`
/// per unordered pair of its members.
pub proof fn lemma_cluster_energy_bound(s: DistanceStore, clusters: Seq<usize>, c: int)
    requires
        s.wf(),
        clusters.len() == s.n,
    ensures
        0 <= cluster_energy(s, clusters, c),
        cluster_energy(s, clusters, c) <= pair_count(members(clusters, c).len() as int) * (
        DIST_BOUND as int),
        cluster_energy(s, clusters, c) <= pair_count(s.n as int) * (DIST_BOUND as int),
{
    lemma_members_props(clusters, c);
    let ids = members(clusters, c);
    lemma_pairs_energy_bound(s, ids);
    crate::tri::lemma_pair_count_mono(ids.len() as int, s.n as int);
    assert(pair_count(ids.len() as int) * (DIST_BOUND as int) <= pair_count(s.n as int) * (
    DIST_BOUND as int)) by (nonlinear_arith)
        requires pair_count(ids.len() as int) <= pair_count(s.n as int), DIST_BOUND > 0;
}

/// An empty or singleton cluster has energy exactly zero.
pub proof fn lemma_small_cluster_energy_zero(s: DistanceStore, clusters: Seq<usize>, c: int)
    requires
        members(clusters, c).len() <= 1,
    ensures
        cluster_energy(s, clusters, c) == 0,
{
    let ids = members(clusters, c);
    if ids.len() == 1 {
        assert(pairs_energy(s, ids) == pairs_energy(s, ids.drop_last()) + row_links(
            s,
            ids.drop_last(),
            0,
            ids.last() as int,
        ));
    }
}

/// Reassigning one row touches no other cluster's member list.
pub proof fn lemma_members_update_other(clusters: Seq<usize>, r: int, t: usize, c: int)
    requires
        0 <= r < clusters.len(),
        c != clusters[r] as int,
        c != t as int,
    ensures
        members(clusters.update(r, t), c) == members(clusters, c),
    decreases clusters.len(),
{
    let cl2 = clusters.update(r, t);
    let last = clusters.len() - 1;
    if r == last {
        assert(cl2.drop_last() =~= clusters.drop_last());
    } else {
        assert(cl2.drop_last() =~= clusters.drop_last().update(r, t));
        lemma_members_update_other(clusters.drop_last(), r, t, c);
    }
}

/// Reassigning one row changes the summed energy by exactly the changes
/// of the two clusters involved.
pub proof fn lemma_total_update_two(
    s: DistanceStore,
    cl1: Seq<usize>,
    cl2: Seq<usize>,
    k: int,
    f: int,
    t: int,
)
    requires
        0 <= f < k,
        0 <= t < k,
        f != t,
        forall|c: int|
            0 <= c < k && c != f && c != t ==> cluster_energy(s, cl2, c) == cluster_energy(
                s,
                cl1,
                c,
            ),
    ensures
        total_energy(s, cl2, k) - total_energy(s, cl1, k) == (cluster_energy(s, cl2, f)
            - cluster_energy(s, cl1, f)) + (cluster_energy(s, cl2, t) - cluster_energy(s, cl1, t)),
    decreases k,
{
    if f < k - 1 && t < k - 1 {
        lemma_total_update_two(s, cl1, cl2, k - 1, f, t);
    } else if f == k - 1 {
        lemma_total_update_one(s, cl1, cl2, k - 1, t);
    } else {
        lemma_total_update_one(s, cl1, cl2, k - 1, f);
    }
}

/// Changing the assignment inside a single cluster changes the summed
/// energy by exactly that cluster's change.
pub proof fn lemma_total_update_one(s: DistanceStore, cl1: Seq<usize>, cl2: Seq<usize>, k: int, f: int)
    requires
        0 <= f < k,
        forall|c: int|
            0 <= c < k && c != f ==> cluster_energy(s, cl2, c) == cluster_energy(s, cl1, c),
    ensures
        total_energy(s, cl2, k) - total_energy(s, cl1, k) == cluster_energy(s, cl2, f)
            - cluster_energy(s, cl1, f),
    decreases k,
{
    if f < k - 1 {
        lemma_total_update_one(s, cl1, cl2, k - 1, f);
    } else {
        lemma_total_equal_below(s, cl1, cl2, k - 1);
    }
}

/// Assignments whose clusters below `k` all have equal energy have equal
/// summed energy below `k`.
pub proof fn lemma_total_equal_below(s: DistanceStore, cl1: Seq<usize>, cl2: Seq<usize>, k: int)
    requires
        forall|c: int| 0 <= c < k ==> cluster_energy(s, cl2, c) == cluster_energy(s, cl1, c),
    ensures
        total_energy(s, cl2, k) == total_energy(s, cl1, k),
    decreases k,
{
    if k > 0 {
        lemma_total_equal_below(s, cl1, cl2, k - 1);
    }
}

} // verus!
