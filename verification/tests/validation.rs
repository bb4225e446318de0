//! The robustness checks: partitions, ranks, discoveries, bootstraps and trial counts. The floating
//! point around them stands here.

use quant_engine::validation::basis::{
    basis_satisfied, deflation_basis_satisfied, missing_basis_prereqs, BASIS_QE439_TRIAL_BASIS,
    DEFLATION_BASIS_VERSION, REQUIRED_DEFLATION_BASIS,
};
use quant_engine::validation::combinatorics::{combinations, n_choose_k};
use quant_engine::validation::cpcv::{
    balanced_partition_count, cpcv_path_count, cpcv_paths, gate_passes, start_of,
    DEFAULT_MIN_PATHS,
};
use quant_engine::validation::ic::{
    doubled_ranks, folds_sign_consistent, forward_window, gather, ids_where, primary_horizon,
    pvalue_order, screen_catalogue, step_up_mask, Judgement, ScreenFacts, Sign, Verdict,
};
use quant_engine::validation::nulls::{
    bootstrap_draws, bootstrap_positions, entry_positions, position_changes, shuffle_order,
};
use quant_engine::validation::pbo::{cscv_partitions, judge_partition, overfit_count};
use quant_engine::validation::spa::{exceed_count, stationary_indices, usable_length, BlockStep};
use quant_engine::validation::steer::{
    available_feature_space, coverage_floor_ok, effective_trials, effective_trials_with_features,
    CAPACITY_FLOOR_USD, COST_STRESS_MULTIPLIER_FLOOR_PERCENT, DSR_CUTOFF_FLOOR_PERCENT,
    MAX_TURNOVER_CAP_FLOOR_PERCENT, MIN_OCCUPIED_NICHES, PBO_CUTOFF_FLOOR_PERCENT,
};
use quant_engine::validation::ValidationError;

// ---- floating point ------------------------------------------------------------------------------

/// A key that orders numbers; both zeros have one key.
fn key(x: f64) -> u64 {
    let bits = (x + 0.0).to_bits();
    if bits >> 63 == 1 {
        !bits
    } else {
        bits | (1 << 63)
    }
}

fn maybe_key(x: f64) -> Option<u64> {
    if x.is_nan() {
        None
    } else {
        Some(key(x))
    }
}

fn approx(a: f64, b: f64, tol: f64) {
    assert!((a - b).abs() < tol, "{a} !~ {b} (tol {tol})");
}

fn mean(xs: &[f64]) -> f64 {
    if xs.is_empty() {
        return 0.0;
    }
    xs.iter().sum::<f64>() / xs.len() as f64
}

fn variance(xs: &[f64], ddof: usize) -> f64 {
    if xs.len() <= ddof {
        return 0.0;
    }
    let m = mean(xs);
    xs.iter().map(|x| (x - m).powi(2)).sum::<f64>() / (xs.len() - ddof) as f64
}

fn sharpe_ratio(xs: &[f64]) -> f64 {
    let sd = variance(xs, 1).sqrt();
    if sd <= 0.0 {
        return 0.0;
    }
    mean(xs) / sd
}

fn erf(x: f64) -> f64 {
    let sign = if x < 0.0 { -1.0 } else { 1.0 };
    let x = x.abs();
    let t = 1.0 / (1.0 + 0.327_591_1 * x);
    let y = 1.0
        - (((((1.061_405_429 * t - 1.453_152_027) * t) + 1.421_413_741) * t - 0.284_496_736) * t
            + 0.254_829_592)
            * t
            * (-x * x).exp();
    sign * y
}

fn normal_cdf(x: f64) -> f64 {
    0.5 * (1.0 + erf(x / std::f64::consts::SQRT_2))
}

/// A small generator with a 64-bit state, seeded per task.
struct Rng {
    state: u64,
}

impl Rng {
    fn new(seed: u64, task: u64) -> Self {
        Self { state: seed ^ task.wrapping_mul(0x9E37_79B9_7F4A_7C15) }
    }

    fn next_u64(&mut self) -> u64 {
        self.state = self.state.wrapping_add(0x9E37_79B9_7F4A_7C15);
        let mut z = self.state;
        z = (z ^ (z >> 30)).wrapping_mul(0xBF58_476D_1CE4_E5B9);
        z = (z ^ (z >> 27)).wrapping_mul(0x94D0_49BB_1331_11EB);
        z ^ (z >> 31)
    }

    fn unit(&mut self) -> f64 {
        (self.next_u64() >> 11) as f64 / (1u64 << 53) as f64
    }
}

// ---- basis ---------------------------------------------------------------------------------------

#[test]
fn compiled_basis_satisfies_every_prerequisite() {
    assert!(deflation_basis_satisfied());
    assert_eq!(DEFLATION_BASIS_VERSION, REQUIRED_DEFLATION_BASIS);
    assert_eq!(DEFLATION_BASIS_VERSION, 0b11111);
    assert!(missing_basis_prereqs(DEFLATION_BASIS_VERSION).is_empty());
}

#[test]
fn a_partial_landing_is_not_satisfied_and_names_the_gap() {
    let partial = REQUIRED_DEFLATION_BASIS & !BASIS_QE439_TRIAL_BASIS;
    assert!(!basis_satisfied(partial));
    let missing = missing_basis_prereqs(partial);
    assert_eq!(missing, vec!["QE-439 DSR trial basis"]);

    assert!(!basis_satisfied(0));
    assert_eq!(missing_basis_prereqs(0).len(), 5);
}

// ---- combinatorics -------------------------------------------------------------------------------

#[test]
fn combinations_are_complete_and_balanced() {
    let c = combinations(4, 2);
    assert_eq!(c.len(), 6);
    assert!(c.contains(&vec![0, 1]) && c.contains(&vec![2, 3]));
}

#[test]
fn combinations_are_listed_in_order() {
    assert_eq!(
        combinations(4, 3),
        vec![vec![0, 1, 2], vec![0, 1, 3], vec![0, 2, 3], vec![1, 2, 3]]
    );
    assert_eq!(combinations(3, 0), vec![Vec::<usize>::new()]);
    assert!(combinations(3, 4).is_empty());
    assert_eq!(combinations(3, 3), vec![vec![0, 1, 2]]);
}

#[test]
fn counts_of_subsets_saturate() {
    assert_eq!(n_choose_k(10, 3), 120);
    assert_eq!(n_choose_k(10, 7), 120);
    assert_eq!(n_choose_k(10, 0), 1);
    assert_eq!(n_choose_k(3, 4), 0);
    assert_eq!(n_choose_k(usize::MAX, 1), usize::MAX);
    assert_eq!(n_choose_k(1_000, 500), usize::MAX);
}

// ---- cross-validation paths ----------------------------------------------------------------------

#[test]
fn path_count_matches_lopez_de_prado_formula() {
    assert_eq!(balanced_partition_count(2), 2);
    assert_eq!(cpcv_path_count(2), 1);
    assert_eq!(balanced_partition_count(4), 6);
    assert_eq!(cpcv_path_count(4), 3);
    assert_eq!(balanced_partition_count(6), 20);
    assert_eq!(cpcv_path_count(6), 10);
    assert_eq!(balanced_partition_count(8), 70);
    assert_eq!(cpcv_path_count(8), 35);
    assert_eq!(balanced_partition_count(3), 0);
    assert_eq!(cpcv_path_count(0), 0);
}

#[test]
fn path_counts_are_in_proportion() {
    for blocks in 0..=usize::BITS as usize {
        let paths = cpcv_path_count(blocks) as u128;
        let partitions = balanced_partition_count(blocks) as u128;
        assert_eq!(paths * blocks as u128, partitions * (blocks / 2) as u128);
        assert_eq!(partitions == 0, blocks < 2 || blocks % 2 != 0);
    }
    assert_eq!(cpcv_path_count(32), 300_540_195);
    assert_eq!(balanced_partition_count(10_000), usize::MAX);
}

#[test]
fn cpcv_paths_are_window_disjoint_under_purge_embargo() {
    let lookback = 5;
    let label_horizon = 2;
    let embargo = lookback;
    let paths = cpcv_paths(240, 6, lookback, label_horizon, embargo).unwrap();
    assert_eq!(paths.len(), 20);
    for p in &paths {
        assert_eq!(p.test.len(), 3);
        assert!(!p.train.is_empty());
        assert!(p.windows_disjoint(lookback, label_horizon));
    }
    for b in 0..6 {
        let block = start_of(b, 6, 240)..start_of(b + 1, 6, 240);
        let holding = paths.iter().filter(|p| p.test.contains(&block)).count();
        assert_eq!(holding, cpcv_path_count(6));
    }
    let naive = cpcv_paths(240, 6, 0, 0, 0).unwrap();
    assert!(naive
        .iter()
        .any(|p| !p.windows_disjoint(lookback, label_horizon)));
}

#[test]
fn cpcv_paths_reject_odd_or_too_few_blocks() {
    assert!(matches!(
        cpcv_paths(240, 3, 1, 1, 1),
        Err(ValidationError::OddBlockCount(3))
    ));
    assert!(matches!(
        cpcv_paths(240, 0, 1, 1, 1),
        Err(ValidationError::OddBlockCount(0))
    ));
    assert!(matches!(
        cpcv_paths(4, 6, 1, 1, 1),
        Err(ValidationError::EmptyMatrix)
    ));
}

#[test]
fn cpcv_path_set_is_deterministic() {
    let a = cpcv_paths(300, 6, 4, 1, 4).unwrap();
    let b = cpcv_paths(300, 6, 4, 1, 4).unwrap();
    assert_eq!(a, b);
}

#[test]
fn held_out_positions_follow_the_blocks() {
    let paths = cpcv_paths(12, 4, 0, 0, 0).unwrap();
    assert_eq!(paths[0].test, vec![0..3, 3..6]);
    assert_eq!(paths[0].train, vec![6, 7, 8, 9, 10, 11]);
    assert_eq!(paths[1].held_out(12), vec![0, 1, 2, 6, 7, 8]);
    assert_eq!(paths[1].held_out(7), vec![0, 1, 2, 6]);
    assert_eq!(start_of(3, 4, 10), 7);
    // A train bar within the purge before or the purge and embargo after a held-out block is left out.
    let purged = cpcv_paths(12, 2, 1, 1, 1).unwrap();
    assert_eq!(purged[0].test, vec![0..6]);
    assert_eq!(purged[0].train, vec![9, 10, 11]);
    assert_eq!(purged[1].train, vec![0, 1, 2, 3]);
}

fn percentile(xs: &[f64], q: f64) -> f64 {
    if xs.is_empty() {
        return 0.0;
    }
    let mut sorted = xs.to_vec();
    sorted.sort_by(|a, b| a.total_cmp(b));
    if sorted.len() == 1 {
        return sorted[0];
    }
    let pos = q.clamp(0.0, 1.0) * (sorted.len() - 1) as f64;
    let (lo, hi) = (pos.floor() as usize, pos.ceil() as usize);
    sorted[lo] + (sorted[hi] - sorted[lo]) * (pos - lo as f64)
}

#[test]
fn gate_decides_on_lower_percentile_and_fails_closed() {
    let passes = |dsrs: &[f64]| gate_passes(dsrs.len(), 4, percentile(dsrs, 0.05) >= 0.95);
    assert!(passes(&[0.99; 8]));
    let mut skewed = vec![0.99; 8];
    skewed[0] = 0.10;
    assert!(percentile(&skewed, 0.5) >= 0.95);
    assert!(!passes(&skewed));
    assert!(!passes(&[0.999, 0.999, 0.999]));
}

#[test]
fn empty_distribution_is_neutral_and_fails_the_gate_closed() {
    assert_eq!(percentile(&[], 0.05), 0.0);
    assert!(!gate_passes(0, DEFAULT_MIN_PATHS, percentile(&[], 0.05) >= 0.95));
    assert!(!gate_passes(0, DEFAULT_MIN_PATHS, true));
}

// ---- trials --------------------------------------------------------------------------------------

#[test]
fn effective_trials_multiplies_the_three_axes() {
    assert_eq!(effective_trials(100, 50, 4), 20_000);
    assert_eq!(effective_trials(0, 50, 4), 0);
    assert_eq!(effective_trials(usize::MAX, 2, 1), usize::MAX);
}

#[test]
fn feature_space_is_catalogue_plus_evolved_and_saturating() {
    assert_eq!(available_feature_space(24, 8), 32);
    assert_eq!(available_feature_space(usize::MAX, 8), usize::MAX);
}

#[test]
fn deflation_scaling_is_monotone_non_decreasing_in_every_knob() {
    let base = effective_trials_with_features(45, 40, 4, 24);
    assert!(effective_trials_with_features(45, 40, 4, 48) >= base);
    assert!(effective_trials_with_features(45, 80, 4, 24) >= base);
    assert!(effective_trials_with_features(45, 40, 8, 24) >= base);
    assert!(effective_trials_with_features(90, 40, 4, 24) >= base);
    assert_eq!(
        effective_trials_with_features(45, 40, 4, 0),
        effective_trials(45, 40, 4)
    );
    assert!(
        effective_trials_with_features(45, 40, 4, 25)
            > effective_trials_with_features(45, 40, 4, 24)
    );
}

#[test]
fn archive_coverage_records_and_floors() {
    assert!(coverage_floor_ok(MIN_OCCUPIED_NICHES));
    assert!(coverage_floor_ok(20));
    assert!(!coverage_floor_ok(MIN_OCCUPIED_NICHES - 1));
    assert!(!coverage_floor_ok(1));
}

#[test]
fn blocklist_floors_match_the_compiled_source_consts() {
    let share = |percent: u32| percent as f64 / 100.0;
    assert_eq!(CAPACITY_FLOOR_USD, 250_000);
    assert!((share(MAX_TURNOVER_CAP_FLOOR_PERCENT) - 0.25).abs() < 1e-12);
    assert!((share(COST_STRESS_MULTIPLIER_FLOOR_PERCENT) - 1.0).abs() < 1e-12);
    assert!((share(DSR_CUTOFF_FLOOR_PERCENT) - 0.95).abs() < 1e-12);
    assert!((share(PBO_CUTOFF_FLOOR_PERCENT) - 0.5).abs() < 1e-12);
}

// ---- information coefficient ---------------------------------------------------------------------

fn pearson(a: &[usize], b: &[usize]) -> Option<f64> {
    let n = a.len();
    if n < 2 {
        return None;
    }
    // Half of each doubled rank, as a number.
    let a: Vec<f64> = a.iter().map(|&r| r as f64 / 2.0).collect();
    let b: Vec<f64> = b.iter().map(|&r| r as f64 / 2.0).collect();
    let (ma, mb) = (mean(&a), mean(&b));
    let (mut cov, mut va, mut vb) = (0.0, 0.0, 0.0);
    for i in 0..n {
        let (da, db) = (a[i] - ma, b[i] - mb);
        cov += da * db;
        va += da * da;
        vb += db * db;
    }
    if va <= 0.0 || vb <= 0.0 {
        return None;
    }
    Some(cov / (va.sqrt() * vb.sqrt()))
}

fn ic_at(signal: &[f64], forward: &[f64], positions: &[usize]) -> (Option<f64>, usize) {
    let finite = |xs: &[f64]| xs.iter().map(|x| x.is_finite()).collect::<Vec<bool>>();
    let at = gather(&finite(signal), &finite(forward), positions);
    let keys = |xs: &[f64]| at.iter().map(|&i| key(xs[i])).collect::<Vec<u64>>();
    let ic = pearson(&doubled_ranks(&keys(signal)), &doubled_ranks(&keys(forward)));
    (ic, at.len())
}

fn rank_ic(signal: &[f64], forward: &[f64]) -> Option<f64> {
    let n = signal.len().min(forward.len());
    ic_at(signal, forward, &(0..n).collect::<Vec<usize>>()).0
}

fn forward_returns(net: &[f64], horizon: usize) -> Vec<f64> {
    (0..net.len())
        .map(|t| match forward_window(net.len(), t, horizon) {
            Some((first, last)) => net[first..=last].iter().sum(),
            None => f64::NAN,
        })
        .collect()
}

fn below_lines(pvalues: &[f64], order: &[usize], q: f64) -> Vec<bool> {
    let m = pvalues.len();
    order
        .iter()
        .enumerate()
        .map(|(rank, &i)| pvalues[i] <= ((rank + 1) as f64 / m as f64) * q)
        .collect()
}

fn benjamini_hochberg(pvalues: &[f64], q: f64) -> Vec<bool> {
    let keys: Vec<u64> = pvalues.iter().map(|&p| key(p)).collect();
    let order = quant_engine::order::ascending_order(&keys);
    step_up_mask(&order, &below_lines(pvalues, &order, q))
}

#[test]
fn rank_ic_perfect_monotone_is_plus_one() {
    let x: Vec<f64> = (0..50).map(|i| i as f64).collect();
    let y: Vec<f64> = (0..50).map(|i| (i as f64).powi(3) + 1.0).collect();
    approx(rank_ic(&x, &y).unwrap(), 1.0, 1e-12);
}

#[test]
fn rank_ic_perfect_anti_monotone_is_minus_one() {
    let x: Vec<f64> = (0..50).map(|i| i as f64).collect();
    let y: Vec<f64> = (0..50).map(|i| -(i as f64)).collect();
    approx(rank_ic(&x, &y).unwrap(), -1.0, 1e-12);
}

#[test]
fn rank_ic_handles_ties_via_average_ranks() {
    let x = [0.0, 0.0, 1.0, 1.0, 2.0, 2.0, 3.0, 3.0];
    let y = [0.1, 0.2, 0.9, 1.1, 1.8, 2.2, 2.9, 3.1];
    let ic = rank_ic(&x, &y).unwrap();
    assert!(ic > 0.95);
    assert_eq!(doubled_ranks(&[5, 5, 9, 9, 7, 1]), vec![3, 3, 9, 9, 6, 0]);
}

#[test]
fn rank_ic_drops_non_finite_and_needs_dispersion() {
    let x = [1.0, f64::NAN, 3.0, 4.0];
    let y = [10.0, 20.0, f64::NAN, 40.0];
    approx(rank_ic(&x, &y).unwrap(), 1.0, 1e-12);
    assert!(rank_ic(&[2.0, 2.0, 2.0], &[1.0, 2.0, 3.0]).is_none());
    assert!(rank_ic(&[1.0], &[1.0]).is_none());
}

#[test]
fn rank_ic_independent_noise_is_near_zero() {
    let mut rng = Rng::new(20260717, 0);
    let x: Vec<f64> = (0..2000).map(|_| rng.unit()).collect();
    let y: Vec<f64> = (0..2000).map(|_| rng.unit()).collect();
    approx(rank_ic(&x, &y).unwrap(), 0.0, 0.05);
}

#[test]
fn forward_returns_are_causal_next_h_sum() {
    let net = [0.0, 1.0, 2.0, 3.0, 4.0];
    let f1 = forward_returns(&net, 1);
    approx(f1[0], 1.0, 1e-12);
    approx(f1[3], 4.0, 1e-12);
    assert!(f1[4].is_nan());
    let f2 = forward_returns(&net, 2);
    approx(f2[0], 1.0 + 2.0, 1e-12);
    approx(f2[2], 3.0 + 4.0, 1e-12);
    assert!(f2[3].is_nan() && f2[4].is_nan());
    assert!(forward_returns(&net, 0).iter().all(|v| v.is_nan()));
    assert_eq!(forward_window(5, usize::MAX, 1), None);
    assert_eq!(forward_window(5, 1, usize::MAX), None);
}

#[test]
fn bh_all_reject_when_all_below_line() {
    let p = [0.01, 0.02, 0.03, 0.04];
    assert_eq!(benjamini_hochberg(&p, 0.05), vec![true, true, true, true]);
}

#[test]
fn bh_single_reject_and_input_order_preserved() {
    let p = [0.7, 0.8, 0.001, 0.9];
    assert_eq!(
        benjamini_hochberg(&p, 0.05),
        vec![false, false, true, false]
    );
}

#[test]
fn bh_step_up_rejects_a_middling_p_below_a_larger_one() {
    let p = [0.001, 0.02, 0.049, 0.5];
    assert_eq!(benjamini_hochberg(&p, 0.05), vec![true, true, false, false]);
    assert!(benjamini_hochberg(&[], 0.05).is_empty());
    // A value over its own line is a discovery where a later one is under its line.
    assert_eq!(step_up_mask(&[1, 0, 2], &[false, true, false]), vec![true, true, false]);
}

fn sign(ic: f64) -> Sign {
    if ic > 0.0 {
        Sign::Positive
    } else if ic < 0.0 {
        Sign::Negative
    } else {
        Sign::Zero
    }
}

fn consistent(a: Option<f64>, b: Option<f64>, ratio: f64) -> bool {
    let comparable = match (a, b) {
        (Some(a), Some(b)) => {
            let (lo, hi) = (a.abs().min(b.abs()), a.abs().max(b.abs()));
            hi > 0.0 && lo / hi >= ratio
        }
        _ => false,
    };
    folds_sign_consistent(a.map(sign), b.map(sign), comparable)
}

#[test]
fn sign_consistency_same_sign_comparable_passes_flip_fails() {
    assert!(consistent(Some(0.20), Some(0.16), 0.5));
    assert!(!consistent(Some(0.20), Some(-0.18), 0.5));
    assert!(!consistent(Some(0.20), Some(0.05), 0.5));
    assert!(!consistent(Some(0.20), None, 0.5));
    assert!(consistent(Some(-0.20), Some(-0.20), 0.5));
    assert!(!consistent(Some(0.0), Some(0.0), 0.5));
}

#[test]
fn screen_admits_predictive_flags_signflip_drops_noise() {
    let n = 4000usize;
    let half = n / 2;
    let fold_a: Vec<usize> = (0..half).collect();
    let fold_b: Vec<usize> = (half..n).collect();
    let mut rng = Rng::new(42, 0);
    let hidden: Vec<f64> = (0..n).map(|_| rng.unit() - 0.5).collect();
    let mut net = vec![0.0f64; n];
    for t in 1..n {
        net[t] = 0.9 * hidden[t - 1] + 0.1 * (rng.unit() - 0.5);
    }
    let bucket = |t: usize| ((hidden[t] + 0.5) * 5.0).floor().clamp(0.0, 4.0);
    let predictive: Vec<f64> = (0..n).map(bucket).collect();
    let signflip: Vec<f64> = (0..n)
        .map(|t| if t < half { bucket(t) } else { 4.0 - bucket(t) })
        .collect();
    let noise: Vec<f64> = (0..n).map(|_| (rng.unit() * 5.0).floor()).collect();

    let horizons = [1usize, 4];
    let forwards: Vec<Vec<f64>> = horizons.iter().map(|&h| forward_returns(&net, h)).collect();
    let union: Vec<usize> = (0..n).collect();
    let mut facts = Vec::new();
    let mut pvalues = Vec::new();
    for (id, values) in [("predictive", &predictive), ("signflip", &signflip), ("noise", &noise)] {
        let ics: Vec<(Option<f64>, Option<f64>)> = forwards
            .iter()
            .map(|f| (ic_at(values, f, &fold_a).0, ic_at(values, f, &fold_b).0))
            .collect();
        let replicated = |(a, b): (Option<f64>, Option<f64>)| {
            a.map_or(0.0, f64::abs).min(b.map_or(0.0, f64::abs))
        };
        let scores: Vec<u64> = ics.iter().map(|&p| key(replicated(p))).collect();
        let best = primary_horizon(&scores).unwrap();
        assert!(horizons[best] == 1 || horizons[best] == 4);
        let (ic, count) = ic_at(values, &forwards[best], &union);
        let z = ic.unwrap().abs() * ((count - 1) as f64).sqrt();
        let pvalue = (2.0 * (1.0 - normal_cdf(z))).clamp(0.0, 1.0);
        facts.push(ScreenFacts {
            id: id.to_owned(),
            weak: replicated(ics[best]) < 0.05,
            consistent: consistent(ics[best].0, ics[best].1, 0.5),
            pvalue_key: key(pvalue),
        });
        pvalues.push(pvalue);
    }
    let order = pvalue_order(&facts);
    let judged = screen_catalogue(&facts, &below_lines(&pvalues, &order, 0.05));
    assert_eq!(judged[0].verdict, Verdict::Admit);
    assert_eq!(judged[1].verdict, Verdict::Flag);
    assert_eq!(judged[2].verdict, Verdict::Drop);
    assert!(facts[0].consistent && judged[0].passes_fdr);
    assert!(!judged[2].passes_fdr);
    assert_eq!(ids_where(&facts, &judged, Verdict::Admit), vec!["predictive"]);
    assert_eq!(ids_where(&facts, &judged, Verdict::Flag), vec!["signflip"]);
    assert_eq!(ids_where(&facts, &judged, Verdict::Drop), vec!["noise"]);
}

#[test]
fn the_first_of_equal_horizons_is_primary() {
    assert_eq!(primary_horizon(&[]), None);
    assert_eq!(primary_horizon(&[3, 9, 9, 1]), Some(1));
    let facts = [ScreenFacts {
        id: "x".to_owned(),
        weak: true,
        consistent: true,
        pvalue_key: 0,
    }];
    assert_eq!(
        screen_catalogue(&facts, &[true]),
        vec![Judgement { passes_fdr: true, verdict: Verdict::Drop }]
    );
}

// ---- null models ---------------------------------------------------------------------------------

fn label_shuffle_returns(xs: &[f64], seed: u64) -> Vec<f64> {
    let mut rng = Rng::new(seed, 0);
    let draws: Vec<u64> = (1..xs.len()).map(|_| rng.next_u64()).collect();
    shuffle_order(xs.len(), &draws).iter().map(|&i| xs[i]).collect()
}

fn block_bootstrap_returns(xs: &[f64], block_len: usize, seed: u64) -> Vec<f64> {
    let mut rng = Rng::new(seed, 0);
    let draws: Vec<u64> =
        (0..bootstrap_draws(xs.len(), block_len)).map(|_| rng.next_u64()).collect();
    bootstrap_positions(xs.len(), block_len, &draws).iter().map(|&i| xs[i]).collect()
}

fn random_positions(n: usize, turnover: f64, seed: u64) -> Vec<bool> {
    let mut rng = Rng::new(seed, 0);
    let first = rng.unit() < 0.5;
    let flips: Vec<bool> = (0..n).map(|_| rng.unit() < turnover).collect();
    entry_positions(first, &flips)
}

fn random_entry_returns(market: &[f64], turnover: f64, seed: u64) -> Vec<f64> {
    random_positions(market.len(), turnover, seed)
        .iter()
        .zip(market)
        .map(|(&long, &r)| if long { r } else { 0.0 })
        .collect()
}

#[test]
fn random_entry_is_deterministic_per_seed() {
    let market: Vec<f64> = (0..200).map(|i| 0.001 * ((i % 7) as f64 - 3.0)).collect();
    let a = random_entry_returns(&market, 0.2, 5);
    let b = random_entry_returns(&market, 0.2, 5);
    assert_eq!(a, b);
    assert_ne!(a, random_entry_returns(&market, 0.2, 6));
    assert_eq!(
        entry_positions(false, &[false, true, false, true]),
        vec![false, true, true, false]
    );
}

#[test]
fn label_shuffle_is_a_seeded_permutation_preserving_the_marginal() {
    let xs: Vec<f64> = (0..200).map(|i| 0.001 * ((i % 13) as f64 - 6.0)).collect();
    let a = label_shuffle_returns(&xs, 42);
    let b = label_shuffle_returns(&xs, 42);
    assert_eq!(a, b);
    assert_eq!(a.len(), xs.len());
    let sum = |v: &[f64]| v.iter().sum::<f64>();
    let sq = |v: &[f64]| v.iter().map(|x| x * x).sum::<f64>();
    approx(sum(&a), sum(&xs), 1e-9);
    approx(sq(&a), sq(&xs), 1e-9);
    assert_ne!(a, label_shuffle_returns(&xs, 43));
    assert_ne!(a, xs);
    // From the top: position 2 with draw 4 % 3 = 1, then position 1 with draw 3 % 2 = 1.
    assert_eq!(shuffle_order(3, &[4, 3]), vec![0, 2, 1]);
    assert_eq!(shuffle_order(0, &[]), Vec::<usize>::new());
}

#[test]
fn block_bootstrap_is_seeded_and_length_preserving() {
    let xs: Vec<f64> = (0..100).map(|i| 0.01 * (i as f64)).collect();
    let a = block_bootstrap_returns(&xs, 10, 7);
    let b = block_bootstrap_returns(&xs, 10, 7);
    assert_eq!(a, b);
    assert_eq!(a.len(), xs.len());
    assert!(a.iter().all(|x| xs.contains(x)));
    let consec = a
        .windows(2)
        .filter(|w| (w[1] - w[0] - 0.01).abs() < 1e-9)
        .count();
    assert!(consec as f64 / (a.len() - 1) as f64 > 0.7);
    assert_eq!(block_bootstrap_returns(&xs, 0, 1).len(), xs.len());
    assert_eq!(block_bootstrap_returns(&xs, 999, 1).len(), xs.len());
    assert!(block_bootstrap_returns(&[], 5, 1).is_empty());
    assert_eq!(block_bootstrap_returns(&xs, 0, 1), xs);
    assert_eq!(block_bootstrap_returns(&xs, 100, 5), xs);
    assert_eq!(bootstrap_draws(2, 0), 1);
    assert_eq!(bootstrap_positions(2, 0, &[1]), vec![0, 1]);
    assert_eq!(bootstrap_draws(7, 3), 3);
    assert_eq!(bootstrap_positions(7, 3, &[4, 10, 2]), vec![4, 5, 6, 0, 1, 2, 2]);
}

#[test]
fn random_entry_turnover_tracks_target() {
    let market: Vec<f64> = (0..5_000).map(|i| 0.001 * ((i % 3) as f64)).collect();
    let target = 0.3;
    let positions = random_positions(market.len(), target, 11);
    let realised = position_changes(&positions) as f64 / (positions.len() - 1) as f64;
    approx(realised, target, 0.03);
    assert_eq!(
        random_entry_returns(&market, target, 11).len(),
        market.len()
    );
    assert_eq!(position_changes(&[]), 0);
    assert_eq!(position_changes(&[true]), 0);
    assert_eq!(position_changes(&[true, false, false, true]), 2);
}

// ---- overfitting ---------------------------------------------------------------------------------

fn pbo(matrix: &[Vec<f64>], blocks: usize) -> Result<f64, ValidationError> {
    let columns = matrix.first().map_or(0, Vec::len);
    let partitions = cscv_partitions(matrix.len(), columns, blocks)?;
    let performance = |rows: &[usize]| -> Vec<Option<u64>> {
        (0..columns)
            .map(|k| {
                let col: Vec<f64> = rows.iter().map(|&t| matrix[t][k]).collect();
                maybe_key(sharpe_ratio(&col))
            })
            .collect()
    };
    let outcomes: Vec<_> = partitions
        .iter()
        .map(|p| judge_partition(&performance(&p.in_sample), &performance(&p.out_of_sample)))
        .collect();
    Ok(overfit_count(&outcomes) as f64 / outcomes.len() as f64)
}

#[test]
fn odd_or_tiny_block_count_is_rejected() {
    let m = vec![vec![0.01, 0.02]; 8];
    assert!(matches!(pbo(&m, 3), Err(ValidationError::OddBlockCount(3))));
    assert!(matches!(pbo(&m, 0), Err(ValidationError::OddBlockCount(0))));
    assert!(matches!(pbo(&m, 10), Err(ValidationError::EmptyMatrix)));
    assert!(matches!(pbo(&[], 2), Err(ValidationError::EmptyMatrix)));
}

#[test]
fn genuinely_robust_matrix_has_low_pbo() {
    let matrix: Vec<Vec<f64>> = (0..40)
        .map(|i| vec![0.02 + 0.001 * ((i % 4) as f64), 0.0, -0.01, 0.001])
        .collect();
    assert_eq!(pbo(&matrix, 6).unwrap(), 0.0);
}

#[test]
fn overfit_matrix_has_high_pbo() {
    let t = 40;
    let matrix: Vec<Vec<f64>> = (0..t)
        .map(|i| {
            let osc = 0.01 * ((i % 3) as f64 - 1.0);
            if i < t / 2 {
                vec![0.05 + osc, -0.05 + osc]
            } else {
                vec![-0.05 + osc, 0.05 + osc]
            }
        })
        .collect();
    assert_eq!(pbo(&matrix, 2).unwrap(), 1.0);
}

#[test]
fn assess_propagates_cscv_errors() {
    let trials = vec![vec![0.01, 0.02]; 8];
    assert!(matches!(pbo(&trials, 3), Err(ValidationError::OddBlockCount(3))));
}

#[test]
fn partitions_are_judged_by_rank() {
    let p = cscv_partitions(5, 2, 2).unwrap();
    assert_eq!(p.len(), 2);
    assert_eq!(p[0].in_sample, vec![0, 1]);
    assert_eq!(p[0].out_of_sample, vec![2, 3, 4]);
    let o = judge_partition(&[Some(1), Some(7), Some(7)], &[Some(5), Some(4), None]);
    assert_eq!((o.best, o.rank, o.overfit), (1, 1, true));
    let o = judge_partition(&[None, Some(9), Some(1)], &[Some(5), Some(4), Some(3)]);
    assert_eq!((o.best, o.rank, o.overfit), (0, 3, false));
}

// ---- data snooping -------------------------------------------------------------------------------

fn reality_check_pvalue(excess: &[Vec<f64>], resamples: usize, seed: u64) -> f64 {
    let lengths: Vec<usize> = excess.iter().map(Vec::len).collect();
    let t = match usable_length(&lengths) {
        Some(t) => t,
        None => return 1.0,
    };
    let sqrt_t = (t as f64).sqrt();
    let means: Vec<f64> = excess.iter().map(|d| mean(&d[..t])).collect();
    let observed = means.iter().map(|m| sqrt_t * m).fold(f64::NEG_INFINITY, f64::max);
    let q = 0.2;
    let maxima: Vec<Option<u64>> = (0..resamples)
        .map(|b| {
            let mut rng = Rng::new(seed, b as u64);
            let first = rng.next_u64();
            let steps: Vec<BlockStep> = (0..t)
                .map(|_| {
                    if rng.unit() < q {
                        BlockStep::Jump(rng.next_u64())
                    } else {
                        BlockStep::Continue
                    }
                })
                .collect();
            let idx = stationary_indices(t, first, &steps);
            let best = (0..excess.len())
                .map(|k| {
                    let m = idx.iter().map(|&i| excess[k][i]).sum::<f64>() / t as f64;
                    sqrt_t * (m - means[k])
                })
                .fold(f64::NEG_INFINITY, f64::max);
            maybe_key(best)
        })
        .collect();
    exceed_count(&maxima, maybe_key(observed)) as f64 / resamples as f64
}

fn ramp(offset: f64, n: usize) -> Vec<f64> {
    (0..n).map(|i| offset + 0.01 * ((i % 5) as f64 - 2.0)).collect()
}

fn population() -> Vec<Vec<f64>> {
    let mut excess = vec![ramp(0.02, 200)];
    for k in 0..9 {
        excess.push(ramp(0.0, 200).iter().map(|x| x + 0.0001 * k as f64).collect());
    }
    excess
}

#[test]
fn genuine_edge_has_low_pvalue() {
    let p = reality_check_pvalue(&population(), 1_000, 42);
    assert!(p < 0.05, "genuine edge should reject the null, got p={p}");
}

#[test]
fn no_edge_has_high_pvalue() {
    let excess: Vec<Vec<f64>> = (0..10).map(|_| ramp(0.0, 200)).collect();
    let p = reality_check_pvalue(&excess, 1_000, 7);
    assert!(p > 0.10, "pure noise should not reject the null, got p={p}");
}

#[test]
fn pvalue_is_deterministic_per_seed() {
    let excess: Vec<Vec<f64>> = (0..5).map(|k| ramp(0.001 * k as f64, 120)).collect();
    assert_eq!(
        reality_check_pvalue(&excess, 1_000, 99),
        reality_check_pvalue(&excess, 1_000, 99)
    );
}

#[test]
fn all_models_recentred_is_conservative_spa_lower() {
    let base = population();
    let p_base = reality_check_pvalue(&base, 1_000, 123);
    let mut with_decoy = base.clone();
    with_decoy.push((0..200).map(|i| 0.5 * ((i % 5) as f64 - 2.0)).collect());
    let p_decoy = reality_check_pvalue(&with_decoy, 1_000, 123);
    assert!(p_decoy >= p_base);
    assert!(p_decoy > p_base, "p_base={p_base}, p_decoy={p_decoy}");
}

#[test]
fn empty_or_short_input_does_not_reject() {
    assert_eq!(reality_check_pvalue(&[], 1_000, 1), 1.0);
    assert_eq!(reality_check_pvalue(&[vec![0.1]], 1_000, 1), 1.0);
    assert_eq!(usable_length(&[5, 3, 4]), Some(3));
    assert_eq!(usable_length(&[5, 1]), None);
}

#[test]
fn resampled_rows_wrap_and_jump() {
    assert_eq!(
        stationary_indices(
            4,
            6,
            &[BlockStep::Continue, BlockStep::Continue, BlockStep::Jump(9)]
        ),
        vec![2, 3, 0, 1]
    );
    assert_eq!(exceed_count(&[Some(3), None, Some(2), Some(5)], Some(3)), 2);
    assert_eq!(exceed_count(&[Some(3)], None), 0);
}
