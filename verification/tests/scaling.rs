use simulated_annealing::SCALE;
use simulated_annealing::engine::SimulatedAnnealing;
use simulated_annealing::normalize::scale_row;

fn fixed(vals: &[f64]) -> Vec<i64> {
    vals.iter().map(|v| (v * 10000.0).round() as i64).collect()
}

fn names(n: usize) -> Vec<String> {
    (0..n).map(|i| format!("gene{}", i)).collect()
}

#[test]
fn tes_scale01() {
    let exp5: Vec<f64> = vec![
        0.6989, 0.0000, 0.0968, 0.3333, 0.4301, 1.0000, 0.7419, 0.7419, 0.6022, 0.7634, 0.1720,
        0.4301, 0.5161, 0.7634, 0.6989, 0.6559,
    ];
    let exp7: Vec<f64> = vec![
        0.0803, 0.0000, 0.2867, 0.5849, 0.9679, 1.0000, 0.7775, 0.7156, 0.5505, 0.5459, 0.4518,
        0.6193, 0.8440, 0.8532, 0.9335, 0.7752,
    ];
    // eight rows; rows 5 and 7 carry the two profiles under test, scaled
    // by an affine map that per-row normalization undoes exactly
    let mut data: Vec<Vec<i64>> = Vec::new();
    for r in 0..8usize {
        if r == 5 {
            data.push(fixed(&exp5));
        } else if r == 7 {
            data.push(fixed(&exp7));
        } else {
            data.push((0..16).map(|c| (c as i64) * (r as i64 + 1)).collect());
        }
    }
    let mut obj =
        SimulatedAnnealing::new(names(8), data, 9, 1_000_000_000, 9995, 10000, 1).unwrap();
    obj.scale_01();
    obj.init_energies();
    let mut dist: f64 = 0.0;
    for i in 0..exp5.len() {
        let got5 = obj.data[5][i] as f64 / SCALE as f64;
        let got7 = obj.data[7][i] as f64 / SCALE as f64;
        assert!(
            (got5 - exp5[i]).abs() < 1e-4,
            "Mismatch in gene 5 at index {}: got {}, expected {}",
            i,
            got5,
            exp5[i]
        );
        assert!(
            (got7 - exp7[i]).abs() < 1e-4,
            "Mismatch in gene 7 at index {}: got {}, expected {}",
            i,
            got7,
            exp7[i]
        );
        dist += (got7 - got5) * (got7 - got5);
    }
    dist = dist.sqrt();
    for r in 0..8usize {
        if r == 5 || r == 7 {
            obj.set_cluster(r, 8);
        } else {
            obj.set_cluster(r, 0);
        }
    }
    let ek = obj.calc_ek(8) as f64 / SCALE as f64;
    assert!(
        (ek - dist).abs() < 1e-4,
        "the distance in cluster 8 (genes 5 and 7)"
    );
}

#[test]
fn scale_row_exact_values() {
    let row: Vec<i64> = vec![2, 4, 6];
    let out = scale_row(&row);
    assert_eq!(out, vec![0, 500_000, 1_000_000]);
}

#[test]
fn scale_row_negative_values() {
    let row: Vec<i64> = vec![-5, 0, 5];
    let out = scale_row(&row);
    assert_eq!(out, vec![0, 500_000, 1_000_000]);
}

#[test]
fn scale_row_constant_row_maps_to_zero() {
    let row: Vec<i64> = vec![7, 7, 7, 7];
    let out = scale_row(&row);
    assert_eq!(out, vec![0, 0, 0, 0]);
}

#[test]
fn scale_row_empty() {
    let row: Vec<i64> = Vec::new();
    let out = scale_row(&row);
    assert!(out.is_empty());
}

#[test]
fn scale_row_stays_in_unit_interval() {
    let row: Vec<i64> = vec![133, -999_999, 123_456_789, 0, 42, -1, 987_654_321_000];
    let out = scale_row(&row);
    assert_eq!(out.len(), row.len());
    for v in &out {
        assert!(0 <= *v && *v <= SCALE);
    }
    // the row minimum lands on 0 and the maximum on SCALE
    assert_eq!(out[1], 0);
    assert_eq!(out[6], SCALE);
}
