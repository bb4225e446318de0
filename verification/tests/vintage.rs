//! Vintages: seals, checks, schema boundary and the repository. A content is written as its debug text;
//! figures go in and out as doubles.

use std::collections::BTreeMap;

use quant_engine::signal::catalogue::CatalogueConfig;
use quant_engine::signal::feature::{CatalogueIdentity, FeatureSchema};
use quant_engine::signal::genome::{
    Clause, ExitParams, Genome, RiskParams, RuleSet, CLAUSES_PER_SET, REP_VERSION,
};
use quant_engine::signal::indicator::CATALOGUE_VERSION;
use quant_engine::vintage::content::{
    content_hash, Vintage, VintageContent, VintageError, VINTAGE_FORMAT_VERSION,
};
use quant_engine::vintage::evidence::{
    CpcvSummary, HoldoutReturnSeries, PromotionVerdict, SealEvidence, SealedCriterion,
};
use quant_engine::vintage::figure::{find_not_finite, Figure};
use quant_engine::vintage::provenance::{
    DataProvenance, HoldoutSplit, RegimeShare, ResearchProvenance, SteerDelta, TimeRange,
};
use quant_engine::vintage::repository::VintageRepository;
use quant_engine::vintage::schema::{
    assert_schema, assert_schema_with_pool, CATALOGUE_SCHEMA_VERSION, GENOME_REP_VERSION,
    MARKET_STORE_SCHEMA_VERSION, VINTAGE_SCHEMA_VERSION,
};

const HASH_STABLE_SCALE: f64 = 1e12;

fn fig(x: f64) -> Figure {
    Figure { bits: x.to_bits() }
}

fn val(f: Figure) -> f64 {
    f64::from_bits(f.bits)
}

fn figs(xs: &[f64]) -> Vec<Figure> {
    xs.iter().map(|&x| fig(x)).collect()
}

fn hash_stable(value: f64) -> f64 {
    if value.is_finite() {
        (value * HASH_STABLE_SCALE).round() / HASH_STABLE_SCALE
    } else {
        value
    }
}

fn encode(content: &VintageContent) -> Vec<u8> {
    format!("{content:?}").into_bytes()
}

fn seal(content: VintageContent) -> Result<Vintage, VintageError> {
    let rounded: Vec<Figure> =
        content.figures().into_iter().map(|f| fig(hash_stable(val(f)))).collect();
    let mut canonical = content.clone();
    canonical.canonicalize(&rounded);
    let encoded = encode(&canonical);
    Vintage::seal(content, &rounded, &encoded)
}

/// What a written vintage reads back as.
fn reload(vintage: &Vintage) -> Result<Vintage, VintageError> {
    let loaded = vintage.clone();
    loaded.verify(&encode(&loaded.content))?;
    Ok(loaded)
}

fn genome(hold: u16) -> Genome {
    let off = Clause { enabled: false, feature: 0, lo: 0, hi: 0 };
    let mut clauses = [off; CLAUSES_PER_SET];
    clauses[0] = Clause { enabled: true, feature: 0, lo: 1, hi: 2 };
    Genome {
        version: REP_VERSION,
        long_entry: RuleSet { clauses, min_satisfied: 1 },
        short_entry: RuleSet { clauses: [off; CLAUSES_PER_SET], min_satisfied: 1 },
        exit: ExitParams { max_holding_bars: hold, exit_on_opposite: false },
        risk: RiskParams { size_bps: 5_000 },
    }
}

fn content() -> VintageContent {
    VintageContent {
        format_version: VINTAGE_FORMAT_VERSION,
        vintage_id: "2024-06-vintage".to_string(),
        chromosomes: vec![genome(10), genome(25)],
        weights: figs(&[0.6, 0.4]),
        worst_case_loss: Some(fig(0.28)),
        catalogue: CatalogueIdentity::current(),
        seal_evidence: SealEvidence {
            dsr: fig(0.8),
            pbo: fig(0.1),
            spa_pvalue: fig(0.02),
            n_trials: 64,
            realised_turnover: fig(0.5),
            capacity_usd: fig(1_500_000.0),
            cost_stress_net_min: Some(fig(0.12)),
            ..SealEvidence::default()
        },
        holdout_series: HoldoutReturnSeries { returns: figs(&[0.01, -0.02, 0.03]) },
        provenance: ResearchProvenance::default(),
    }
}

#[test]
fn round_trips_with_stable_verifiable_hash() {
    let sealed = seal(content()).unwrap();
    let loaded = reload(&sealed).unwrap();
    assert_eq!(loaded, sealed);
    assert_eq!(loaded.content_hash, sealed.content_hash);
    let resealed = seal(content()).unwrap();
    assert_eq!(resealed.content_hash, sealed.content_hash);
    assert_eq!(sealed.content_hash.len(), 64);
    assert!(sealed.content_hash.chars().all(|c| c.is_ascii_hexdigit()));
}

#[test]
fn tampering_with_content_fails_verification() {
    let mut sealed = seal(content()).unwrap();
    sealed.content.weights[0] = fig(0.99);
    let err = sealed.verify(&encode(&sealed.content)).unwrap_err();
    assert!(matches!(err, VintageError::HashMismatch { .. }));
    assert!(matches!(
        reload(&sealed),
        Err(VintageError::HashMismatch { .. })
    ));
}

#[test]
fn vintage_carries_worst_case_loss_and_rejects_an_invalid_one() {
    let sealed = seal(content()).unwrap();
    assert_eq!(sealed.content.worst_case_loss, Some(fig(0.28)));
    let loaded = reload(&sealed).unwrap();
    assert_eq!(loaded.content.worst_case_loss, Some(fig(0.28)));

    let mut other = content();
    other.worst_case_loss = Some(fig(0.40));
    assert_ne!(seal(other).unwrap().content_hash, sealed.content_hash);

    let mut negative = content();
    negative.worst_case_loss = Some(fig(-0.1));
    assert!(matches!(
        seal(negative),
        Err(VintageError::InvalidWorstCaseLoss { .. })
    ));
    let mut zero = content();
    zero.worst_case_loss = Some(fig(-0.0));
    assert!(seal(zero).is_ok());
    let mut infinite = content();
    infinite.worst_case_loss = Some(fig(f64::INFINITY));
    assert!(matches!(
        seal(infinite),
        Err(VintageError::InvalidWorstCaseLoss { value }) if val(value) == f64::INFINITY
    ));
}

#[test]
fn seal_evidence_is_part_of_the_hash_and_round_trips() {
    let base = seal(content()).unwrap();
    let mut other = content();
    other.seal_evidence.dsr = fig(1.9);
    assert_ne!(seal(other).unwrap().content_hash, base.content_hash);

    let mut cap = content();
    cap.seal_evidence.capacity_usd = fig(42.0);
    assert_ne!(seal(cap).unwrap().content_hash, base.content_hash);

    let loaded = reload(&base).unwrap();
    assert_eq!(loaded.content.seal_evidence, base.content.seal_evidence);
    assert_eq!(
        loaded.content.seal_evidence.cost_stress_net_min,
        Some(fig(0.12))
    );

    let mut bad = content();
    bad.seal_evidence.capacity_usd = fig(f64::INFINITY);
    assert!(matches!(
        seal(bad),
        Err(VintageError::NonFiniteEvidence { field: "capacity_usd", .. })
    ));
}

fn summary() -> CpcvSummary {
    CpcvSummary {
        blocks: 6,
        n_paths: 20,
        median_sharpe: fig(0.12),
        sharpe_iqr_lo: fig(0.08),
        sharpe_iqr_hi: fig(0.16),
        sharpe_p05: fig(0.03),
        sharpe_p95: fig(0.20),
        median_dsr: fig(0.97),
        dsr_p05: fig(0.91),
        frac_dsr_ge_floor: fig(0.85),
        path_sharpes: figs(&[0.10, 0.12, 0.14]),
        path_dsrs: figs(&[0.96, 0.97, 0.98]),
    }
}

#[test]
fn cpcv_summary_is_part_of_the_hash_and_round_trips() {
    let base = seal(content()).unwrap();
    let mut withc = content();
    withc.seal_evidence.cpcv = Some(summary());
    let sealed = seal(withc).unwrap();
    assert_ne!(sealed.content_hash, base.content_hash);

    let loaded = reload(&sealed).unwrap();
    assert_eq!(loaded.content.seal_evidence.cpcv, Some(summary()));

    let mut bad = content();
    let mut bad_summary = loaded.content.seal_evidence.cpcv.clone().unwrap();
    bad_summary.path_sharpes[1] = fig(f64::NAN);
    bad.seal_evidence.cpcv = Some(bad_summary);
    assert!(matches!(
        seal(bad),
        Err(VintageError::NonFiniteEvidence { field: "cpcv.path_sharpes", .. })
    ));
}

#[test]
fn every_named_figure_is_checked() {
    let named = |change: fn(&mut SealEvidence)| {
        let mut c = content();
        c.seal_evidence.cpcv = Some(summary());
        c.seal_evidence.promotion = Some(verdict(true));
        change(&mut c.seal_evidence);
        match seal(c) {
            Err(VintageError::NonFiniteEvidence { field, value }) => {
                assert!(val(value).is_nan());
                field
            }
            other => panic!("expected a refused figure, got {other:?}"),
        }
    };
    const NAN: f64 = f64::NAN;
    assert_eq!(named(|e| e.dsr = fig(NAN)), "dsr");
    assert_eq!(named(|e| e.pbo = fig(NAN)), "pbo");
    assert_eq!(named(|e| e.spa_pvalue = fig(NAN)), "spa_pvalue");
    assert_eq!(named(|e| e.realised_turnover = fig(NAN)), "realised_turnover");
    assert_eq!(named(|e| e.cost_stress_net_min = Some(fig(NAN))), "cost_stress_net_min");
    assert_eq!(named(|e| e.uncensored_pbo = Some(fig(NAN))), "uncensored_pbo");
    assert_eq!(named(|e| e.ic = Some(fig(NAN))), "ic");
    assert_eq!(named(|e| e.fdr = Some(fig(NAN))), "fdr");
    assert_eq!(
        named(|e| e.cpcv.as_mut().unwrap().sharpe_p95 = fig(NAN)),
        "cpcv.sharpe_p95"
    );
    assert_eq!(
        named(|e| e.cpcv.as_mut().unwrap().frac_dsr_ge_floor = fig(NAN)),
        "cpcv.frac_dsr_ge_floor"
    );
    assert_eq!(
        named(|e| e.cpcv.as_mut().unwrap().path_dsrs[2] = fig(NAN)),
        "cpcv.path_dsrs"
    );
    assert_eq!(
        named(|e| e.promotion.as_mut().unwrap().criteria[1].value = fig(NAN)),
        "promotion.value"
    );
    assert_eq!(
        named(|e| e.promotion.as_mut().unwrap().criteria[0].threshold = fig(NAN)),
        "promotion.threshold"
    );
    // The first in the order of the checks is reported.
    assert_eq!(
        named(|e| {
            e.fdr = Some(fig(NAN));
            e.pbo = fig(NAN);
        }),
        "pbo"
    );
}

fn verdict(promoted: bool) -> PromotionVerdict {
    PromotionVerdict {
        promoted,
        criteria: vec![
            SealedCriterion {
                name: "dsr_exceeds_threshold".to_string(),
                passed: promoted,
                value: fig(if promoted { 0.98 } else { 0.80 }),
                threshold: fig(0.95),
            },
            SealedCriterion {
                name: "pbo_below_overfit_threshold".to_string(),
                passed: true,
                value: fig(0.10),
                threshold: fig(0.5),
            },
        ],
    }
}

#[test]
fn sealed_verdict_recovers_promoted_and_thresholds_without_the_run_doc() {
    let mut c = content();
    c.seal_evidence.promotion = Some(verdict(true));
    let sealed = seal(c).unwrap();
    let loaded = reload(&sealed).unwrap();
    assert!(loaded.content.seal_evidence.is_promoted());
    let v = loaded.content.seal_evidence.promotion.as_ref().unwrap();
    assert!(v.promoted);
    let dsr_crit = v
        .criteria
        .iter()
        .find(|c| c.name == "dsr_exceeds_threshold")
        .expect("the DSR criterion is sealed");
    assert_eq!(val(dsr_crit.threshold), 0.95);
    assert!(dsr_crit.passed);
}

#[test]
fn a_drifted_threshold_constant_does_not_change_a_sealed_verdict() {
    let mut c = content();
    c.seal_evidence.promotion = Some(verdict(true));
    let sealed = seal(c).unwrap();
    let loaded = reload(&sealed).unwrap();
    let dsr_crit = loaded
        .content
        .seal_evidence
        .promotion
        .as_ref()
        .unwrap()
        .criteria
        .iter()
        .find(|c| c.name == "dsr_exceeds_threshold")
        .unwrap();
    assert_eq!(val(dsr_crit.threshold), 0.95);
    assert_eq!(val(dsr_crit.value), 0.98);
    loaded.verify(&encode(&loaded.content)).unwrap();
}

/// A repository in memory: the files by path.
struct Disk {
    repo: VintageRepository,
    files: BTreeMap<String, Vintage>,
}

impl Disk {
    fn new(root: &str) -> Disk {
        Disk { repo: VintageRepository::new(root.to_owned()), files: BTreeMap::new() }
    }

    fn write(&mut self, vintage: &Vintage) -> String {
        let path = self.repo.path_for(&vintage.content.vintage_id);
        self.files.insert(path.clone(), vintage.clone());
        path
    }

    fn load(&self, id: &str) -> Result<Vintage, VintageError> {
        let vintage = match self.files.get(&self.repo.path_for(id)) {
            Some(vintage) => vintage.clone(),
            None => return Err(VintageError::Io("no such file".to_owned())),
        };
        VintageRepository::check_loaded(&vintage, &encode(&vintage.content))?;
        Ok(vintage)
    }
}

#[test]
fn a_failed_candidate_is_written_but_marked_non_promotable() {
    let mut c = content();
    c.seal_evidence.promotion = Some(verdict(false));
    let sealed = seal(c).unwrap();
    assert!(!sealed.content.seal_evidence.is_promoted());
    let mut disk = Disk::new("/tmp/vintages");
    disk.write(&sealed);
    let loaded = disk.load(&sealed.content.vintage_id).unwrap();
    assert!(!loaded.content.seal_evidence.is_promoted());
}

#[test]
fn verdict_is_part_of_the_hash_and_absent_is_byte_identical() {
    let base = seal(content()).unwrap();
    assert!(base.content.seal_evidence.promotion.is_none());
    assert!(!base.content.seal_evidence.is_promoted());
    let mut promoted = content();
    promoted.seal_evidence.promotion = Some(verdict(true));
    let mut failed = content();
    failed.seal_evidence.promotion = Some(verdict(false));
    assert_ne!(
        seal(promoted).unwrap().content_hash,
        seal(failed).unwrap().content_hash
    );
}

#[test]
fn holdout_series_is_part_of_the_hash_and_addressable() {
    let base = seal(content()).unwrap();
    let mut other = content();
    other.holdout_series.returns = figs(&[0.05, 0.05, 0.05]);
    let changed = seal(other).unwrap();
    assert_ne!(changed.content_hash, base.content_hash);

    let handle_of = |v: &Vintage| {
        let xs: Vec<f64> = v.content.holdout_series.returns.iter().map(|&f| val(f)).collect();
        content_hash(&format!("{{\"returns\":{xs:?}}}").into_bytes())
    };
    let handle = handle_of(&base);
    assert_eq!(handle.len(), 64);
    assert!(handle.chars().all(|c| c.is_ascii_hexdigit()));
    assert_eq!(handle, handle_of(&base));
    assert_ne!(handle, handle_of(&changed));

    let loaded = reload(&base).unwrap();
    assert_eq!(loaded.content.holdout_series, base.content.holdout_series);

    let mut bad = content();
    bad.holdout_series.returns = figs(&[0.01, f64::NAN]);
    assert!(matches!(
        seal(bad),
        Err(VintageError::NonFiniteHoldoutReturn { index: 1, .. })
    ));
}

#[test]
fn provenance_is_part_of_the_hash_and_downstream_fields_round_trip() {
    let base = seal(content()).unwrap();
    let mut synth = content();
    synth.provenance.data_provenance = DataProvenance::Synthetic;
    assert_ne!(seal(synth).unwrap().content_hash, base.content_hash);

    let mut populated = content();
    populated.provenance.holdout_split = HoldoutSplit {
        holdout_range: Some(TimeRange {
            start: "2021-06-01".to_string(),
            end: "2021-07-01".to_string(),
        }),
        train_range: Some(TimeRange {
            start: "2020-01-01".to_string(),
            end: "2021-05-01".to_string(),
        }),
        embargo_bars: 24,
    };
    populated.provenance.regime_composition = vec![
        RegimeShare { regime: "trend".to_string(), bars: 300 },
        RegimeShare { regime: "chop".to_string(), bars: 120 },
    ];
    populated.provenance.consultation_count = 3;
    populated.provenance.steer_delta = Some(SteerDelta {
        indicator_subset_hash: "a".repeat(64),
        generations: 40,
        population: 12,
        windows: 6,
        folds: 4,
    });
    let sealed = seal(populated).unwrap();
    assert_ne!(sealed.content_hash, base.content_hash);
    let loaded = reload(&sealed).unwrap();
    assert_eq!(loaded.content.provenance, sealed.content.provenance);
    assert_eq!(loaded.content.provenance.consultation_count, 3);
}

#[test]
fn seal_is_invariant_to_sub_precision_noise() {
    let clean = seal(content()).unwrap();
    let mut noisy = content();
    let add = |f: &mut Figure, x: f64| *f = fig(val(*f) + x);
    add(&mut noisy.weights[0], 1e-15);
    add(&mut noisy.weights[1], -3e-15);
    add(&mut noisy.seal_evidence.dsr, 2e-15);
    add(&mut noisy.holdout_series.returns[0], 1e-14);
    if let Some(l) = noisy.worst_case_loss.as_mut() {
        add(l, 1e-15);
    }
    let sealed = seal(noisy).unwrap();
    assert_eq!(sealed.content_hash, clean.content_hash);
    assert_eq!(sealed.content, clean.content);
    assert_eq!(seal(sealed.content.clone()).unwrap(), sealed);
    reload(&sealed).unwrap();
}

#[test]
fn seal_canonicalises_a_non_hash_stable_field_to_its_rounded_twin() {
    let raw = 0.123_456_789_012_999_f64;
    let rounded = (raw * HASH_STABLE_SCALE).round() / HASH_STABLE_SCALE;
    assert_ne!(raw, rounded);
    let summary = |sharpe: f64| CpcvSummary {
        blocks: 6,
        n_paths: 20,
        median_sharpe: fig(sharpe),
        path_sharpes: figs(&[sharpe]),
        path_dsrs: figs(&[0.97]),
        ..CpcvSummary::default()
    };
    let mut noisy = content();
    noisy.seal_evidence.cpcv = Some(summary(raw));
    let mut twin = content();
    twin.seal_evidence.cpcv = Some(summary(rounded));
    assert_eq!(
        seal(noisy).unwrap().content_hash,
        seal(twin).unwrap().content_hash
    );
}

#[test]
fn figures_go_out_and_in_in_one_order() {
    let mut c = content();
    c.seal_evidence.ic = Some(fig(0.07));
    c.seal_evidence.cpcv = Some(summary());
    c.seal_evidence.promotion = Some(verdict(true));
    let before = c.figures();
    assert_eq!(before.len(), 2 + 1 + 3 + 5 + 2 + 8 + 3 + 3 + 4);
    assert_eq!(before[0], fig(0.6));
    assert_eq!(before[2], fig(0.28));
    assert_eq!(before[3], fig(0.01));
    assert_eq!(before[11], fig(0.12));
    assert_eq!(before[12], fig(0.07));
    assert_eq!(before[30], fig(0.5));

    let numbered: Vec<Figure> = (0..before.len()).map(|i| fig(i as f64)).collect();
    let mut d = c.clone();
    d.canonicalize(&numbered);
    assert_eq!(d.figures(), numbered);
    assert_eq!(val(d.weights[1]), 1.0);
    assert_eq!(d.worst_case_loss.map(val), Some(2.0));
    assert_eq!(val(d.holdout_series.returns[2]), 5.0);
    assert_eq!(val(d.seal_evidence.capacity_usd), 10.0);
    assert_eq!(val(d.seal_evidence.cpcv.as_ref().unwrap().path_dsrs[0]), 24.0);
    assert_eq!(val(d.seal_evidence.promotion.as_ref().unwrap().criteria[1].threshold), 30.0);
    assert_eq!(d.seal_evidence.promotion.as_ref().unwrap().criteria[1].name,
        "pbo_below_overfit_threshold");
    assert_eq!(d.seal_evidence.uncensored_pbo, None);
    d.canonicalize(&before);
    assert_eq!(d, c);
}

#[test]
fn seal_rejects_non_finite_and_misaligned_weights() {
    let mut bad = content();
    bad.weights[1] = fig(f64::NAN);
    assert!(matches!(
        seal(bad),
        Err(VintageError::NonFiniteWeight { index: 1, .. })
    ));
    let mut misaligned = content();
    misaligned.weights.pop();
    assert!(matches!(
        seal(misaligned),
        Err(VintageError::WeightChromosomeMismatch { weights: 1, chromosomes: 2 })
    ));
}

#[test]
fn figures_are_told_apart_by_their_bits() {
    for x in [0.0, -0.0, 1.0, -1.0, f64::MAX, f64::MIN, f64::MIN_POSITIVE, 5e-324, -5e-324] {
        assert!(fig(x).is_finite());
        assert_eq!(fig(x).is_below_zero(), x < 0.0);
    }
    for x in [f64::NAN, -f64::NAN, f64::INFINITY, f64::NEG_INFINITY] {
        assert!(!fig(x).is_finite());
    }
    assert_eq!(find_not_finite(&figs(&[1.0, 2.0])), None);
    assert_eq!(find_not_finite(&figs(&[1.0, f64::NAN, f64::INFINITY])), Some(1));
}

#[test]
fn format_version_is_part_of_the_hash() {
    let base = seal(content()).unwrap();
    let mut other = content();
    other.format_version = VINTAGE_FORMAT_VERSION + 1;
    let bumped = seal(other).unwrap();
    assert_ne!(bumped.content_hash, base.content_hash);
    assert_eq!(VINTAGE_FORMAT_VERSION, 8);
}

#[test]
fn content_hash_is_the_sha256_in_hexadecimal() {
    assert_eq!(
        content_hash(&b"abc".to_vec()),
        "ba7816bf8f01cfea414140de5dae2223b00361a396177a9cb410ff61f20015ad"
    );
    assert_eq!(
        content_hash(&Vec::new()),
        "e3b0c44298fc1c149afbf4c8996fb92427ae41e4649b934ca495991b7852b855"
    );
}

#[test]
fn strategies_are_named_by_position() {
    let mut c = content();
    assert_eq!(c.strategy_ids(), vec!["0", "1"]);
    c.chromosomes = vec![genome(1); 11];
    assert_eq!(c.strategy_ids()[10], "10");
    c.chromosomes.clear();
    assert!(c.strategy_ids().is_empty());
}

#[test]
fn repository_lists_sealed_vintages_sorted_skipping_strays() {
    assert!(VintageRepository::listing_order(&Vec::new()).is_empty());
    let ids = vec!["zzz-late".to_owned(), "aaa-early".to_owned()];
    let order = VintageRepository::listing_order(&ids);
    let listed: Vec<&str> = order.iter().map(|&i| ids[i].as_str()).collect();
    assert_eq!(listed, vec!["aaa-early", "zzz-late"]);
    assert!(VintageRepository::is_vintage_file("aaa-early.json"));
    assert!(!VintageRepository::is_vintage_file("README.txt"));
    assert!(!VintageRepository::is_vintage_file(".json"));
    assert!(!VintageRepository::is_vintage_file("json"));
    assert!(VintageRepository::is_vintage_file("..json"));
    // A stray file that reads as a vintage but whose hash does not verify is skipped.
    let mut stray = seal(content()).unwrap();
    stray.content_hash = "0".repeat(64);
    assert!(reload(&stray).is_err());
}

#[test]
fn repository_round_trips_from_disk() {
    let mut disk = Disk::new("/tmp/vintages");
    let sealed = seal(content()).unwrap();
    let path = disk.write(&sealed);
    assert_eq!(path, "/tmp/vintages/2024-06-vintage.json");
    let loaded = disk.load(&sealed.content.vintage_id).unwrap();
    assert_eq!(loaded, sealed);
    assert!(matches!(disk.load("other"), Err(VintageError::Io(_))));
}

#[test]
fn paths_join_like_directories() {
    let repo = |root: &str| VintageRepository::new(root.to_owned());
    assert_eq!(repo("a").path_for("x"), "a/x.json");
    assert_eq!(repo("a/").path_for("x"), "a/x.json");
    assert_eq!(repo("").path_for("x"), "x.json");
    assert_eq!(repo("a").path_for("/x"), "/x.json");
    assert_eq!(repo("a").path_for(""), "a/.json");
    assert_eq!(repo("a").clone().root(), "a");
}

// ---- schema boundary -----------------------------------------------------------------------------

fn content_with(catalogue: CatalogueIdentity) -> VintageContent {
    VintageContent {
        vintage_id: "schema-test".to_string(),
        chromosomes: vec![genome(10)],
        weights: figs(&[1.0]),
        worst_case_loss: None,
        catalogue,
        seal_evidence: SealEvidence::default(),
        holdout_series: HoldoutReturnSeries::default(),
        ..content()
    }
}

fn through_disk(content: VintageContent) -> Result<Vintage, VintageError> {
    let mut disk = Disk::new("repo");
    disk.write(&seal(content).unwrap());
    disk.load("schema-test")
}

#[test]
fn current_catalogue_vintage_loads() {
    let loaded = through_disk(content_with(CatalogueIdentity::current())).unwrap();
    assert_eq!(loaded.content.catalogue, CatalogueIdentity::current());
}

#[test]
fn same_width_version_bump_is_rejected_on_load() {
    let mut bumped = CatalogueIdentity::current();
    bumped.catalogue_version += 1;
    assert!(matches!(
        through_disk(content_with(bumped)),
        Err(VintageError::SchemaMismatch { .. })
    ));
}

#[test]
fn reordering_indicators_changes_the_hash_and_is_rejected() {
    let schema = FeatureSchema::from_catalogue(&CatalogueConfig::default());
    let mut ids = schema.ids().to_vec();
    assert!(ids.len() >= 2);
    ids.swap(0, 1);
    let original = CatalogueIdentity::hash_ids(schema.ids());
    let reordered = CatalogueIdentity::hash_ids(&ids);
    assert_ne!(original, reordered);
    let reordered_identity = CatalogueIdentity {
        catalogue_version: schema.version(),
        num_states: schema.num_states(),
        id_hash: reordered,
        formula_pool: Vec::new(),
    };
    assert!(matches!(
        through_disk(content_with(reordered_identity)),
        Err(VintageError::SchemaMismatch { .. })
    ));
}

fn formula_hash(name: &str) -> String {
    content_hash(&name.as_bytes().to_vec())
}

fn pool() -> Vec<String> {
    let mut v = vec![formula_hash("(rank close 20)"), formula_hash("(zscore high 50)")];
    v.sort();
    v
}

#[test]
fn a_tampered_formula_pool_is_rejected_at_the_load_boundary() {
    let good_pool = pool();
    let sanctioned = CatalogueIdentity::current().with_formula_pool(good_pool.clone());
    assert_eq!(
        sanctioned,
        CatalogueIdentity::current().with_formula_pool(good_pool.clone())
    );
    let mut tampered_pool = good_pool.clone();
    tampered_pool[0] = formula_hash("(rank close 50)");
    assert_ne!(tampered_pool, good_pool);
    let tampered = CatalogueIdentity::current().with_formula_pool(tampered_pool);
    assert_ne!(tampered, sanctioned);

    match through_disk(content_with(tampered.clone())) {
        Err(VintageError::SchemaMismatch { expected, found }) => {
            assert_eq!(expected, CatalogueIdentity::current());
            assert_eq!(found, tampered);
            assert!(!found.formula_pool.is_empty());
        }
        other => panic!("a tampered pool must be rejected, got {other:?}"),
    }
    assert!(through_disk(content_with(CatalogueIdentity::current())).is_ok());
}

#[test]
fn pool_vintage_loads_with_sanctioned_pool_and_fails_closed_otherwise() {
    let sanctioned = pool();
    let content = content_with(CatalogueIdentity::current_with_pool(sanctioned.clone()));
    assert!(assert_schema_with_pool(&content, &sanctioned).is_ok());
    let mut reversed = sanctioned.clone();
    reversed.reverse();
    assert!(assert_schema_with_pool(&content, &reversed).is_ok());
    assert!(matches!(
        assert_schema(&content),
        Err(VintageError::SchemaMismatch { .. })
    ));
    let mut drifted = sanctioned.clone();
    drifted[0] = formula_hash("(rank close 50)");
    assert!(matches!(
        assert_schema_with_pool(&content, &drifted),
        Err(VintageError::SchemaMismatch { .. })
    ));
    assert!(matches!(
        assert_schema_with_pool(&content, &[]),
        Err(VintageError::SchemaMismatch { .. })
    ));
}

#[test]
fn wrong_genome_rep_version_is_rejected_on_load() {
    let mut content = content_with(CatalogueIdentity::current());
    content.chromosomes[0].version = GENOME_REP_VERSION + 1;
    assert!(matches!(
        through_disk(content),
        Err(VintageError::GenomeRepMismatch { index: 0, found, .. })
            if found == GENOME_REP_VERSION + 1
    ));
}

#[test]
fn registry_versions_track_their_sources() {
    assert_eq!(CATALOGUE_SCHEMA_VERSION, CATALOGUE_VERSION);
    assert_eq!(GENOME_REP_VERSION, REP_VERSION);
    assert_eq!(VINTAGE_SCHEMA_VERSION, VINTAGE_FORMAT_VERSION);
    assert_eq!(
        MARKET_STORE_SCHEMA_VERSION,
        quant_engine::storage::schema::SCHEMA_VERSION
    );
}

// ---- steering ------------------------------------------------------------------------------------

#[test]
fn the_subset_hash_is_one_of_a_set() {
    let t = |xs: &[&str]| xs.iter().map(|x| x.to_string()).collect::<Vec<String>>();
    let hash = SteerDelta::subset_hash(&t(&["rsi_14", "ema_9"]), &t(&["f1"]));
    assert_eq!(hash.len(), 64);
    assert!(hash.chars().all(|c| c.is_ascii_digit() || ('a'..='f').contains(&c)));
    assert_eq!(
        hash,
        content_hash(&b"cat:ema_9\0cat:rsi_14\0evo:f1\0".to_vec())
    );
    assert_eq!(
        hash,
        SteerDelta::subset_hash(&t(&["ema_9", "rsi_14", "ema_9"]), &t(&["f1", "f1"]))
    );
    assert_ne!(hash, SteerDelta::subset_hash(&t(&["rsi_14", "ema_9", "f1"]), &t(&[])));
    assert_eq!(SteerDelta::subset_hash(&[], &[]), content_hash(&Vec::new()));
    let delta = SteerDelta::from_parts(&t(&["ema_9", "rsi_14"]), &t(&["f1"]), 40, 12, 6, 4);
    assert_eq!(
        delta,
        SteerDelta {
            indicator_subset_hash: hash,
            generations: 40,
            population: 12,
            windows: 6,
            folds: 4,
        }
    );
}
