use simulated_annealing::distance::euclidean_distance;
use simulated_annealing::distance::isqrt_u64;
use simulated_annealing::store::DistanceStore;
use simulated_annealing::tri::pair_index;

#[test]
fn isqrt_small_values() {
    assert_eq!(isqrt_u64(0), 0);
    assert_eq!(isqrt_u64(1), 1);
    assert_eq!(isqrt_u64(2), 1);
    assert_eq!(isqrt_u64(3), 1);
    assert_eq!(isqrt_u64(4), 2);
    assert_eq!(isqrt_u64(15), 3);
    assert_eq!(isqrt_u64(16), 4);
}

#[test]
fn isqrt_large_values() {
    assert_eq!(isqrt_u64(1_000_000_000_000_000_000), 1_000_000_000);
    assert_eq!(isqrt_u64(999_999_999_999_999_999), 999_999_999);
    assert_eq!(isqrt_u64(u64::MAX), 4_294_967_295);
}

#[test]
fn euclidean_distance_three_four_five() {
    let a: Vec<i64> = vec![0, 0];
    let b: Vec<i64> = vec![300_000, 400_000];
    assert_eq!(euclidean_distance(&a, &b), 500_000);
    assert_eq!(euclidean_distance(&b, &a), 500_000);
}

#[test]
fn euclidean_distance_of_identical_rows_is_zero() {
    let a: Vec<i64> = vec![123, 456, 789];
    assert_eq!(euclidean_distance(&a, &a), 0);
}

#[test]
fn pair_index_enumerates_row_major_without_gaps() {
    // n = 4: all six pairs, in row-major order of (i, j)
    let expect: Vec<((usize, usize), usize)> = vec![
        ((0, 1), 0),
        ((0, 2), 1),
        ((0, 3), 2),
        ((1, 2), 3),
        ((1, 3), 4),
        ((2, 3), 5),
    ];
    let mut seen = vec![false; 6];
    for ((i, j), s) in expect {
        let got = pair_index(i, j, 4);
        assert_eq!(got, s, "slot of ({}, {})", i, j);
        assert!(!seen[got], "no collisions");
        seen[got] = true;
    }
    assert!(seen.iter().all(|b| *b), "no gaps");
}

#[test]
fn store_size_is_n_choose_2() {
    // five normalized rows of one value each
    let data: Vec<Vec<i64>> = vec![vec![0], vec![250_000], vec![500_000], vec![750_000], vec![
        1_000_000,
    ]];
    let s = DistanceStore::build(&data);
    assert_eq!(s.len(), 5 * 4 / 2);
    assert_eq!(s.row_count(), 5);
}

#[test]
fn store_lookup_is_symmetric_and_exact() {
    let data: Vec<Vec<i64>> = vec![
        vec![0, 0],
        vec![300_000, 400_000],
        vec![1_000_000, 0],
        vec![0, 1_000_000],
    ];
    let s = DistanceStore::build(&data);
    for i in 0..4usize {
        for j in 0..4usize {
            if i != j {
                assert_eq!(s.get(i, j), s.get(j, i), "symmetric at ({}, {})", i, j);
            }
        }
    }
    assert_eq!(s.get(0, 1), 500_000);
    assert_eq!(s.get(1, 0), 500_000);
    // distance between the two unit corners: sqrt(2) * SCALE, truncated
    assert_eq!(s.get(2, 3), 1_414_213);
}
