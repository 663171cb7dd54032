use simulated_annealing::ConfigError;
use simulated_annealing::engine::SimulatedAnnealing;
use simulated_annealing::temperature::Temperature;

fn names(n: usize) -> Vec<String> {
    (0..n).map(|i| format!("row{}", i)).collect()
}

fn small_table() -> Vec<Vec<i64>> {
    // twelve rows, three columns, two loose groups and a stray middle
    let mut data: Vec<Vec<i64>> = Vec::new();
    for r in 0..12i64 {
        if r < 6 {
            data.push(vec![10 * r, 5 * r, r]);
        } else {
            data.push(vec![1000 - r, 900 + 10 * r, 500 + 3 * r]);
        }
    }
    data
}

fn build(k: usize, seed: u64) -> SimulatedAnnealing {
    let mut sim =
        SimulatedAnnealing::new(names(12), small_table(), k, 20_000_000, 9995, 10000, seed)
            .unwrap();
    sim.scale_01();
    sim.init_energies();
    sim
}

#[test]
fn empty_and_singleton_clusters_have_zero_energy() {
    let mut sim = build(5, 3);
    // rows 0 and 1 to cluster 0, row 2 alone to cluster 1, the rest to 2
    for r in 0..12usize {
        let c = if r < 2 {
            0
        } else if r == 2 {
            1
        } else {
            2
        };
        sim.set_cluster(r, c);
    }
    assert_eq!(sim.calc_ek(1), 0, "a singleton cluster has energy zero");
    assert_eq!(sim.calc_ek(3), 0, "an empty cluster has energy zero");
    assert_eq!(sim.calc_ek(4), 0, "an empty cluster has energy zero");
    assert!(sim.calc_ek(0) > 0);
    assert!(sim.calc_ek(2) > 0);
}

#[test]
fn pair_cluster_energy_is_the_pair_distance() {
    let mut sim = build(4, 9);
    for r in 0..12usize {
        let c = if r == 3 || r == 8 { 2 } else { 0 };
        sim.set_cluster(r, c);
    }
    let d = simulated_annealing::distance::euclidean_distance(&sim.data[3], &sim.data[8]);
    assert_eq!(sim.calc_ek(2), d as u128);
}

#[test]
fn annealing_run_keeps_assignment_valid_and_cache_consistent() {
    let mut sim = build(3, 42);
    let k = sim.cluster_count();
    let cool: f64 = 0.9995;
    let mut temp: f64 = 20.0;
    let max_iter: usize = 300;
    let mut accepted: usize = 0;
    for _ in 0..max_iter {
        let (row, to) = sim.propose();
        assert!(row < sim.n_rows());
        assert!(to < k);
        assert_ne!(to, sim.cluster_of(row), "a proposal never is a no-op");
        let delta = sim.move_delta(row, to);
        let delta_avg = delta as f64 / k as f64 / 1e6;
        let accept = if delta < 0 {
            true
        } else {
            let u = sim.draw_unit() as f64 / 9007199254740992.0;
            (-(delta_avg / temp)).exp() > u
        };
        if accept {
            sim.apply_move(row, to);
            accepted += 1;
        }
        sim.cool_down();
        temp *= cool;
    }
    assert_eq!(sim.iterations(), max_iter);
    // every row's cluster id is a valid index
    for r in 0..sim.n_rows() {
        assert!(sim.assignment()[r] < k);
    }
    // the energy cache matches a from-scratch recomputation
    for c in 0..k {
        assert_eq!(sim.energy_of(c), sim.calc_ek(c));
    }
    // the schedule advanced once per iteration, unconditionally, and the
    // floating mirror of the exact schedule is initial * cool^t
    assert!(accepted <= max_iter);
    assert_eq!(sim.temperature().steps_taken(), max_iter);
    let expected = 20.0f64 * cool.powi(max_iter as i32);
    assert!((temp - expected).abs() < 1e-9);
}

#[test]
fn move_delta_matches_recomputation_and_leaves_state_alone() {
    let mut sim = build(3, 5);
    let before: Vec<usize> = sim.assignment().clone();
    let (row, to) = sim.propose();
    let old_total: u128 = (0..3).map(|c| sim.calc_ek(c)).sum();
    let delta = sim.move_delta(row, to);
    assert_eq!(sim.assignment(), &before, "evaluating a move commits nothing");
    sim.apply_move(row, to);
    let new_total: u128 = (0..3).map(|c| sim.calc_ek(c)).sum();
    assert_eq!(new_total as i128 - old_total as i128, delta);
}

#[test]
fn same_seed_same_initial_assignment() {
    let a = build(4, 77);
    let b = build(4, 77);
    assert_eq!(a.assignment(), b.assignment());
}

#[test]
fn initial_assignment_lies_below_k() {
    for seed in 0..20u64 {
        let sim = SimulatedAnnealing::new(
            names(12),
            small_table(),
            5,
            20_000_000,
            9995,
            10000,
            seed,
        )
        .unwrap();
        for r in 0..12usize {
            assert!(sim.assignment()[r] < 5);
        }
    }
}

#[test]
fn unit_draws_stay_below_their_bound() {
    let mut sim = build(2, 11);
    for _ in 0..200 {
        assert!(sim.draw_unit() < 9007199254740992);
    }
}

#[test]
fn config_errors_are_reported_before_a_run() {
    let e = SimulatedAnnealing::new(names(3), small_table()[0..3].to_vec(), 0, 1, 1, 2, 0);
    assert!(matches!(e, Err(ConfigError::NoClusters)));

    let e = SimulatedAnnealing::new(names(3), small_table()[0..3].to_vec(), 2, 0, 1, 2, 0);
    assert!(matches!(e, Err(ConfigError::ZeroTemperature)));

    let e = SimulatedAnnealing::new(names(3), small_table()[0..3].to_vec(), 2, 5, 3, 3, 0);
    assert!(matches!(e, Err(ConfigError::BadCooling)));

    let e = SimulatedAnnealing::new(names(4), small_table()[0..3].to_vec(), 2, 5, 1, 2, 0);
    assert!(matches!(e, Err(ConfigError::NameCountMismatch)));

    let ragged: Vec<Vec<i64>> = vec![vec![1, 2, 3], vec![4, 5]];
    let e = SimulatedAnnealing::new(names(2), ragged, 2, 5, 1, 2, 0);
    assert!(matches!(e, Err(ConfigError::RaggedRow)));

    let wide: Vec<Vec<i64>> = vec![vec![0; 1_000_001]];
    let e = SimulatedAnnealing::new(names(1), wide, 2, 5, 1, 2, 0);
    assert!(matches!(e, Err(ConfigError::RowTooWide)));

    let huge: Vec<Vec<i64>> = vec![vec![0], vec![2_000_000_000_000]];
    let e = SimulatedAnnealing::new(names(2), huge, 2, 5, 1, 2, 0);
    assert!(matches!(e, Err(ConfigError::ValueOutOfRange)));
}

#[test]
fn temperature_validation_and_step_count() {
    assert!(matches!(
        Temperature::new(0, 1, 2),
        Err(ConfigError::ZeroTemperature)
    ));
    assert!(matches!(
        Temperature::new(5, 0, 2),
        Err(ConfigError::BadCooling)
    ));
    assert!(matches!(
        Temperature::new(5, 2, 2),
        Err(ConfigError::BadCooling)
    ));
    assert!(matches!(
        Temperature::new(5, 3, 2),
        Err(ConfigError::BadCooling)
    ));
    let mut t = Temperature::new(5, 9995, 10000).unwrap();
    assert_eq!(t.steps_taken(), 0);
    for _ in 0..5 {
        t.step();
    }
    assert_eq!(t.steps_taken(), 5);
    assert_eq!(t.initial_value(), 5);
    assert_eq!(t.cooling(), (9995, 10000));
}
