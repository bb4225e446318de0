//! The indicators: windows, quantisers, price and flow kernels, formulas and the catalogue.

use quant_engine::decimal::{Dec, Reading};
use quant_engine::domain::{Bar, Price, Qty, Resolution, Timestamp};
use quant_engine::signal::bars::{Bars, Sample};
use quant_engine::signal::catalogue::{
    catalogue, seed_catalogue_subset, seed_indicators, CatalogueConfig, CompiledFormula,
};
use quant_engine::signal::crate_name;
use quant_engine::signal::expr::{max_lookback, BinOp, Expr, Field, UnOp, WinOp};
use quant_engine::signal::feature::{assemble_batch, CatalogueIdentity, FeatureSchema};
use quant_engine::signal::indicator::{
    compute_batch, ArithmeticFault, FlowKind, FlowSource, Indicator, CATALOGUE_VERSION,
};
use quant_engine::signal::price::PriceKind;
use quant_engine::signal::quant::{QState, Quantiser};
use quant_engine::signal::roll::Roll;
use rust_decimal::{Decimal, MathematicalOps};

const MIN: i64 = 60_000;

fn d(n: i64) -> Dec {
    Dec::from_int(n)
}

fn decimal(x: Dec) -> Decimal {
    Decimal::from_i128_with_scale(x.mantissa(), x.scale())
}

fn value(r: Reading) -> Decimal {
    match r {
        Reading::Value(x) => decimal(x),
        other => panic!("no value: {other:?}"),
    }
}

/// Positive, gently oscillating prices with every scalar present.
fn series(n: usize) -> Vec<Sample> {
    (0..n)
        .map(|i| {
            let k = i as i64;
            let base = 100 + (k % 7) * 3 - (k % 3) * 2 + k / 5;
            let high = base + 5 + (k % 4);
            let low = base - 5 - (k % 5);
            let close = base + (k % 3) - 1;
            let bar = Bar::new(
                Timestamp::from_millis(k * 5 * MIN),
                Resolution::M5,
                Price::new(d(base)).unwrap(),
                Price::new(d(high)).unwrap(),
                Price::new(d(low)).unwrap(),
                Price::new(d(close)).unwrap(),
                Qty::new(d(10 + (k % 6))).unwrap(),
                1 + (i % 4) as u64,
            )
            .unwrap();
            Sample {
                bar,
                funding: Some(Dec::scaled((k % 5) - 2, 4)),
                open_interest: Some(d(1000 + k * 7)),
                premium: Some(Dec::scaled((k % 3) - 1, 4)),
            }
        })
        .collect()
}

/// Replaces every field of a sample with markedly different values.
fn perturb(s: &Sample) -> Sample {
    let b = &s.bar;
    let bump = |p: Price| Price::new(p.get().checked_add(d(50)).unwrap()).unwrap();
    let bar = Bar::new(
        b.open_time(),
        b.resolution(),
        bump(b.open()),
        bump(b.high()),
        bump(b.low()),
        bump(b.close()),
        Qty::new(b.volume().get().checked_add(d(100)).unwrap()).unwrap(),
        b.trades() + 7,
    )
    .unwrap();
    Sample {
        bar,
        funding: Some(d(1)),
        open_interest: Some(d(999_999)),
        premium: Some(d(1)),
    }
}

fn boxed(e: Expr) -> Box<Expr> {
    Box::new(e)
}

fn window(op: WinOp, field: Field, cap: usize) -> Expr {
    Expr::Window(op, boxed(Expr::Input(field)), cap)
}

// ---- the package -----------------------------------------------------------------------------

#[test]
fn crate_name_is_set() {
    assert_eq!(crate_name(), "qe-signal");
}

// ---- windows ---------------------------------------------------------------------------------

#[test]
fn evicts_oldest_at_capacity() {
    let mut r = Roll::new(3);
    for v in [1, 2, 3, 4] {
        r.push(d(v));
    }
    assert!(r.is_full());
    assert_eq!(r.first(), Some(d(2)));
    assert_eq!(r.last(), Some(d(4)));
    assert_eq!(decimal(r.sum().unwrap()), Decimal::from(9));
}

#[test]
fn stats_are_exact() {
    let mut r = Roll::new(4);
    for v in [2, 4, 4, 6] {
        r.push(d(v));
    }
    assert_eq!(decimal(r.sum().unwrap()), Decimal::from(16));
    assert_eq!(value(r.mean()), Decimal::from(4));
    assert_eq!(r.max(), Some(d(6)));
    assert_eq!(r.min(), Some(d(2)));
    assert_eq!(value(r.std_pop()), Decimal::from(2).sqrt().unwrap());
    assert_eq!(value(r.mean_abs_dev()), Decimal::from(1));
}

#[test]
fn an_empty_window_has_no_statistics() {
    let mut r = Roll::new(2);
    assert_eq!(r.mean(), Reading::Undefined);
    assert_eq!(r.std_pop(), Reading::Undefined);
    assert_eq!(r.mean_abs_dev(), Reading::Undefined);
    assert_eq!(r.max(), None);
    assert_eq!(r.min(), None);
    assert_eq!(decimal(r.sum().unwrap()), Decimal::ZERO);
    r.push(d(7));
    r.clear();
    assert_eq!(r.len(), 0);
    assert_eq!(r.cap(), 2);
}

#[test]
fn a_window_of_no_bars_spans_one() {
    let mut r = Roll::new(0);
    assert_eq!(r.cap(), 1);
    r.push(d(1));
    r.push(d(2));
    assert_eq!(r.values(), vec![d(2)]);
}

// ---- quantisers ------------------------------------------------------------------------------

#[test]
fn linear_bins_and_clamps() {
    let q = Quantiser::Linear {
        min: d(0),
        max: d(100),
        states: 4,
    };
    assert_eq!(q.states(), 4);
    assert_eq!(q.quantise(d(-5)).unwrap().index(), 0);
    assert_eq!(q.quantise(d(0)).unwrap().index(), 0);
    assert_eq!(q.quantise(d(24)).unwrap().index(), 0);
    assert_eq!(q.quantise(d(25)).unwrap().index(), 1);
    assert_eq!(q.quantise(d(75)).unwrap().index(), 3);
    assert_eq!(q.quantise(d(100)).unwrap().index(), 3);
    assert_eq!(q.quantise(d(200)).unwrap().index(), 3);
    let indices: Vec<u16> = (-10..=110).map(|v| q.quantise(d(v)).unwrap().index()).collect();
    assert!(indices.windows(2).all(|w| w[0] <= w[1]));
}

#[test]
fn bands_count_edges_below() {
    let q = Quantiser::Bands {
        edges: vec![d(-1), d(0), d(1)],
    };
    assert_eq!(q.states(), 4);
    assert_eq!(q.quantise(d(-2)).unwrap().index(), 0);
    assert_eq!(q.quantise(Dec::scaled(-5, 1)).unwrap().index(), 1);
    assert_eq!(q.quantise(d(0)).unwrap().index(), 1);
    assert_eq!(q.quantise(Dec::scaled(5, 1)).unwrap().index(), 2);
    assert_eq!(q.quantise(d(5)).unwrap().index(), 3);
}

#[test]
fn a_degenerate_range_has_one_state() {
    let q = Quantiser::Linear {
        min: d(0),
        max: d(100),
        states: 0,
    };
    assert_eq!(q.states(), 1);
    assert_eq!(q.quantise(d(99)).unwrap().index(), 0);
    let flat = Quantiser::Linear {
        min: d(3),
        max: d(3),
        states: 5,
    };
    assert_eq!(flat.quantise(d(7)).unwrap().index(), 0);
}

#[test]
fn a_larger_value_is_in_no_lower_state() {
    let tiny = Dec::new(1, 28).unwrap();
    for (min, max, states) in [
        (d(0), d(3), 7),
        (d(-1), Dec::scaled(7, 1), 65_535),
        (d(0), tiny, 3),
        (Dec::scaled(1, 3), Dec::new(79_228_162_514_264_337_593_543_950_335, 1).unwrap(), 9),
    ] {
        let q = Quantiser::Linear { min, max, states };
        let width = max.checked_sub(min).unwrap();
        let mut last = 0;
        for i in -5..2_005 {
            let share = d(i).checked_div(d(1_999)).unwrap();
            let Some(value) = width.checked_mul(share).and_then(|x| x.checked_add(min)) else {
                continue;
            };
            if let Some(state) = q.quantise(value) {
                assert!(state.index() >= last);
                last = state.index();
            }
        }
        assert!(last == states - 1);
    }
}

#[test]
fn a_range_too_wide_to_measure_has_no_bin() {
    let top = Dec::new(79_228_162_514_264_337_593_543_950_335, 0).unwrap();
    let q = Quantiser::Linear {
        min: top.negated(),
        max: top,
        states: 5,
    };
    assert_eq!(q.quantise(d(0)), None);
    let mut k = Indicator::flow("wide", 1, q, FlowSource::Funding, FlowKind::Latest);
    assert_eq!(
        k.update(&sample(Some(0), None, None, 0)),
        Err(ArithmeticFault)
    );
}

// ---- price kernels ---------------------------------------------------------------------------

fn bar(o: i64, h: i64, l: i64, c: i64, v: i64, i: i64) -> Sample {
    Sample::from_bar(
        Bar::new(
            Timestamp::from_millis(i * 5 * MIN),
            Resolution::M5,
            Price::new(d(o)).unwrap(),
            Price::new(d(h)).unwrap(),
            Price::new(d(l)).unwrap(),
            Price::new(d(c)).unwrap(),
            Qty::new(d(v)).unwrap(),
            1,
        )
        .unwrap(),
    )
}

fn run(kind: PriceKind, cap: usize, samples: &[Sample]) -> Option<Decimal> {
    let mut bars = Bars::new(cap);
    let mut last = None;
    for s in samples {
        assert!(bars.observe(&s.bar));
        if bars.is_full() {
            last = match kind.value(&bars) {
                Reading::Value(x) => Some(decimal(x)),
                Reading::Undefined => None,
                Reading::Fault => panic!("out of range"),
            };
        }
    }
    last
}

#[test]
fn sma_ratio_matches_hand_computed() {
    let s = vec![
        bar(10, 10, 10, 10, 1, 0),
        bar(20, 20, 20, 20, 1, 1),
        bar(30, 30, 30, 30, 1, 2),
    ];
    assert_eq!(run(PriceKind::SmaRatio, 3, &s), Some(Decimal::from(50)));
}

#[test]
fn rsi_all_gains_is_100() {
    let s: Vec<Sample> = (0..5)
        .map(|i| bar(10 + i, 10 + i, 10 + i, 10 + i, 1, i))
        .collect();
    assert_eq!(run(PriceKind::Rsi, 5, &s), Some(Decimal::from(100)));
}

#[test]
fn stoch_k_at_top_and_bottom() {
    let top = vec![bar(15, 20, 10, 15, 1, 0), bar(15, 20, 10, 20, 1, 1)];
    assert_eq!(run(PriceKind::StochK, 2, &top), Some(Decimal::from(100)));
    let bottom = vec![bar(15, 20, 10, 15, 1, 0), bar(15, 20, 10, 10, 1, 1)];
    assert_eq!(run(PriceKind::StochK, 2, &bottom), Some(Decimal::from(0)));
}

#[test]
fn roc_is_percent_over_window() {
    let s = vec![
        bar(100, 100, 100, 100, 1, 0),
        bar(0, 0, 0, 0, 1, 1),
        bar(110, 110, 110, 110, 1, 2),
    ];
    assert_eq!(run(PriceKind::Roc, 3, &s), Some(Decimal::from(10)));
}

#[test]
fn quantises_through_the_kernel() {
    let mut k = Indicator::price(
        "rsi",
        5,
        Quantiser::Linear {
            min: d(0),
            max: d(100),
            states: 5,
        },
        PriceKind::Rsi,
    );
    let mut out: Option<QState> = None;
    for i in 0..5 {
        let s = bar(10 + i, 10 + i, 10 + i, 10 + i, 1, i);
        if let Some(state) = k.update(&s).unwrap() {
            out = Some(state);
        }
    }
    assert_eq!(out.unwrap().index(), 4);
}

/// Four bars whose kernels can be worked out by hand.
fn four_bars() -> Vec<Sample> {
    vec![
        bar(10, 12, 8, 10, 4, 0),
        bar(10, 14, 10, 12, 2, 1),
        bar(12, 12, 6, 6, 2, 2),
        bar(6, 10, 6, 9, 8, 3),
    ]
}

#[test]
fn kernels_have_hand_computed_values() {
    let s = four_bars();
    let at = |k: PriceKind| run(k, 4, &s).unwrap();
    // Gains 2 + 3, losses 6: 100 * 5 / 11.
    assert_eq!(
        at(PriceKind::Rsi).round_dp(8),
        (Decimal::from(500) / Decimal::from(11)).round_dp(8)
    );
    // Highest 14, lowest 6, close 9.
    assert_eq!(at(PriceKind::StochK), Decimal::new(375, 1));
    assert_eq!(at(PriceKind::WilliamsR), Decimal::new(-625, 1));
    // From 10 to 9.
    assert_eq!(at(PriceKind::Roc), Decimal::from(-10));
    // Volumes 4, 2, 2, 8 have the mean 4.
    assert_eq!(at(PriceKind::VolumeRatio), Decimal::from(2));
    // The close rises on volume 2, falls on 2, rises on 8.
    assert_eq!(
        at(PriceKind::SignedVolumeRatio),
        Decimal::from(8) / Decimal::from(12)
    );
    // The highest high is two bars old, the lowest low is the newest bar: 100 / 3 - 100.
    assert_eq!(at(PriceKind::AroonOsc).round_dp(6), Decimal::new(-66_666_667, 6));
    // True ranges 4, 6 and 4 over the close 9.
    assert_eq!(at(PriceKind::AtrPct).round_dp(6), Decimal::new(51_851_852, 6));
    // Money flow volumes 0, 0, -2 and 4 over the volume 16.
    assert_eq!(at(PriceKind::Cmf), Decimal::new(125, 3));
    // Typical prices 10, 12, 8 and 25/3: flows 24 + 200/3 up, 16 down.
    assert_eq!(at(PriceKind::Mfi).round_dp(6), Decimal::from(85));
    assert_eq!(at(PriceKind::Cci).round_dp(6), Decimal::new(-58_823_529, 6));
}

#[test]
fn a_flat_window_has_no_direction() {
    let s: Vec<Sample> = (0..30).map(|i| bar(10, 10, 10, 10, 1, i)).collect();
    assert_eq!(run(PriceKind::SmaRatio, 4, &s), Some(Decimal::ZERO));
    assert_eq!(run(PriceKind::EmaRatio, 4, &s), Some(Decimal::ZERO));
    assert_eq!(run(PriceKind::Roc, 4, &s), Some(Decimal::ZERO));
    assert_eq!(run(PriceKind::AtrPct, 4, &s), Some(Decimal::ZERO));
    assert_eq!(run(PriceKind::BbBandwidth, 4, &s), Some(Decimal::ZERO));
    assert_eq!(run(PriceKind::VolumeRatio, 4, &s), Some(Decimal::ONE));
}

// ---- flow kernels ----------------------------------------------------------------------------

fn sample(funding: Option<i64>, oi: Option<i64>, premium: Option<i64>, i: i64) -> Sample {
    let p = Price::new(d(100)).unwrap();
    Sample {
        bar: Bar::new(
            Timestamp::from_millis(i * 5 * MIN),
            Resolution::M5,
            p,
            p,
            p,
            p,
            Qty::new(d(1)).unwrap(),
            1,
        )
        .unwrap(),
        funding: funding.map(|f| Dec::scaled(f, 4)),
        open_interest: oi.map(Dec::from_int),
        premium: premium.map(|p| Dec::scaled(p, 4)),
    }
}

fn rate_quantiser(states: u16) -> Quantiser {
    Quantiser::Linear {
        min: Dec::scaled(-1, 2),
        max: Dec::scaled(1, 2),
        states,
    }
}

#[test]
fn funding_state_quantises_the_latest_rate() {
    let mut k = Indicator::flow(
        "funding_state",
        1,
        rate_quantiser(5),
        FlowSource::Funding,
        FlowKind::Latest,
    );
    let out = k.update(&sample(Some(50), None, None, 0)).unwrap();
    assert!(out.is_some());
    assert!(out.unwrap().index() >= 3);
}

#[test]
fn flow_indicator_skips_steps_with_absent_scalar() {
    let mut k = Indicator::flow(
        "funding_avg_8",
        8,
        rate_quantiser(5),
        FlowSource::Funding,
        FlowKind::Mean,
    );
    for i in 0..7 {
        assert!(k.update(&sample(Some(10), None, None, i)).unwrap().is_none());
    }
    assert!(k.update(&sample(None, None, None, 7)).unwrap().is_none());
    assert!(k.update(&sample(Some(10), None, None, 8)).unwrap().is_some());
}

#[test]
fn flow_factors_are_in_the_catalogue() {
    let ids: Vec<String> = catalogue(&CatalogueConfig::default())
        .iter()
        .map(|i| i.spec().id)
        .collect();
    for want in [
        "funding_state",
        "funding_avg_8",
        "oi_roc_10",
        "premium_state",
    ] {
        assert!(ids.contains(&want.to_owned()), "missing {want}");
    }
}

#[test]
fn a_change_from_nothing_says_nothing() {
    let mut k = Indicator::flow(
        "oi_roc",
        2,
        rate_quantiser(5),
        FlowSource::OpenInterest,
        FlowKind::Roc,
    );
    assert_eq!(k.update(&sample(None, Some(0), None, 0)), Ok(None));
    assert_eq!(k.update(&sample(None, Some(5), None, 1)), Ok(None));
    assert!(k.update(&sample(None, Some(6), None, 2)).unwrap().is_some());
}

// ---- formulas --------------------------------------------------------------------------------

#[test]
fn max_lookback_recursion() {
    assert_eq!(max_lookback(&Expr::Input(Field::Close)), 1);
    assert_eq!(max_lookback(&Expr::Const(d(7))), 0);
    assert_eq!(
        max_lookback(&Expr::Unary(UnOp::Neg, boxed(Expr::Input(Field::Close)))),
        1
    );
    let bin = Expr::Binary(
        BinOp::Sub,
        boxed(window(WinOp::Mean, Field::Close, 20)),
        boxed(Expr::Input(Field::High)),
    );
    assert_eq!(max_lookback(&bin), 20);
    assert_eq!(max_lookback(&window(WinOp::Mean, Field::Close, 20)), 20);
    assert_eq!(max_lookback(&window(WinOp::Max, Field::High, 14)), 14);
    assert_eq!(
        max_lookback(&Expr::Window(
            WinOp::Lag,
            boxed(Expr::Input(Field::Close)),
            2
        )),
        2
    );
    let nested = Expr::Window(WinOp::Mean, boxed(window(WinOp::Max, Field::High, 4)), 3);
    assert_eq!(max_lookback(&nested), (3 - 1) + 4);
}

#[test]
fn seed_lookbacks_match_the_catalogue() {
    let want = [
        ("sma_ratio_20", 20usize),
        ("volume_ratio_20", 20),
        ("return_1", 2),
        ("roc_10", 11),
        ("stoch_k_14", 14),
    ];
    for (id, expr, _q) in seed_catalogue_subset(5) {
        let expect = want.iter().find(|(w, _)| *w == id).unwrap().1;
        assert_eq!(max_lookback(&expr), expect, "lookback for {id}");
    }
}

#[test]
fn ac1_batch_equals_streaming_for_every_seed() {
    let samples = series(80);
    for mut ind in seed_indicators(5) {
        let batch = compute_batch(&mut ind, &samples);
        ind.reset();
        let streamed: Vec<_> = samples.iter().map(|s| ind.update(s)).collect();
        assert_eq!(batch, streamed, "batch and streaming differ for {}", ind.spec().id);
        ind.reset();
        let again: Vec<_> = samples.iter().map(|s| ind.update(s)).collect();
        assert_eq!(batch, again, "not reproducible for {}", ind.spec().id);
    }
}

fn warms_at_its_lookback(indicators: Vec<Indicator>) {
    let samples = series(120);
    for mut ind in indicators {
        let lookback = ind.spec().lookback;
        let id = ind.spec().id;
        for (i, s) in samples.iter().enumerate() {
            let out = ind.update(s).unwrap();
            if i + 1 < lookback {
                assert!(out.is_none(), "{id} emitted before lookback at i={i}");
            } else if i + 1 == lookback {
                assert!(out.is_some(), "{id} did not emit at exactly lookback");
                break;
            }
        }
    }
}

fn forgets_what_left_its_window(indicators: Vec<Indicator>) {
    let base = series(120);
    for mut ind in indicators {
        let lookback = ind.spec().lookback;
        let id = ind.spec().id;

        let first = compute_batch(&mut ind, &base);
        let last_state = *first.last().unwrap();

        let mut perturbed = base.clone();
        let idx = perturbed.len() - 1 - lookback;
        perturbed[idx] = perturb(&perturbed[idx]);

        ind.reset();
        let after = compute_batch(&mut ind, &perturbed);
        assert_eq!(
            *after.last().unwrap(),
            last_state,
            "{id}: latest output changed by an out-of-window sample"
        );
    }
}

#[test]
fn expr_ac2_warmup_emits_none_until_exactly_lookback_then_some() {
    warms_at_its_lookback(seed_indicators(5));
}

#[test]
fn expr_ac2_latest_output_independent_of_out_of_window_samples() {
    forgets_what_left_its_window(seed_indicators(5));
}

#[test]
fn seed_reproduces_catalogue_byte_for_byte() {
    let cfg = CatalogueConfig::default();
    let samples = series(120);
    let mut cat = catalogue(&cfg);

    for (id, expr, q) in seed_catalogue_subset(cfg.states) {
        let cat_ind = cat
            .iter_mut()
            .find(|i| i.spec().id == id)
            .unwrap_or_else(|| panic!("catalogue missing {id}"));
        let cat_out = compute_batch(cat_ind, &samples);

        let mut expr_ind = Indicator::compile(id, &expr, q);
        let expr_out = compute_batch(&mut expr_ind, &samples);

        assert_eq!(
            cat_out, expr_out,
            "Expr twin diverges from catalogue for {id}"
        );
        assert!(
            expr_out.iter().any(|r| matches!(r, Ok(Some(_)))),
            "{id}: equivalence over an all-None stream is vacuous"
        );
    }
}

#[test]
fn seam_is_default_off_no_golden_moved() {
    let cfg = CatalogueConfig::default();
    let cat_ids: Vec<String> = catalogue(&cfg).iter().map(|i| i.spec().id).collect();
    assert_eq!(cat_ids.len(), 22, "default catalogue size changed");
    assert_eq!(CATALOGUE_VERSION, 1);

    let identity_now = CatalogueIdentity::from_config(&cfg);
    assert_eq!(
        identity_now,
        CatalogueIdentity::current(),
        "catalogue identity moved"
    );

    assert_eq!(FeatureSchema::from_catalogue(&cfg).len(), 22);
}

// ---- the catalogue ---------------------------------------------------------------------------

#[test]
fn catalogue_has_at_least_twenty_indicators_with_unique_ids() {
    let cat = catalogue(&CatalogueConfig::default());
    assert!(cat.len() >= 20, "catalogue has {} indicators", cat.len());
    let mut ids: Vec<String> = cat.iter().map(|i| i.spec().id).collect();
    let total = ids.len();
    ids.sort();
    ids.dedup();
    assert_eq!(ids.len(), total, "indicator ids must be unique");
}

#[test]
fn every_indicator_respects_configured_state_count() {
    let cfg = CatalogueConfig {
        states: 7,
        formula_pool: Vec::new(),
    };
    for ind in catalogue(&cfg) {
        assert_eq!(ind.spec().num_states, 7, "{}", ind.spec().id);
    }
}

#[test]
fn fewer_than_two_states_are_two() {
    for states in [0, 1] {
        let cfg = CatalogueConfig {
            states,
            formula_pool: Vec::new(),
        };
        for ind in catalogue(&cfg) {
            assert_eq!(ind.spec().num_states, 2, "{}", ind.spec().id);
        }
        assert_eq!(FeatureSchema::from_catalogue(&cfg).num_states(), 2);
    }
}

/// A formula under an identifier: how far the close is from its mean, in standard deviations.
fn pooled(id: &str, states: u16) -> CompiledFormula {
    CompiledFormula {
        id: id.to_owned(),
        expr: Expr::Binary(
            BinOp::Div,
            boxed(Expr::Binary(
                BinOp::Sub,
                boxed(Expr::Input(Field::Close)),
                boxed(window(WinOp::Mean, Field::Close, 10)),
            )),
            boxed(window(WinOp::Std, Field::Close, 10)),
        ),
        quantiser: Quantiser::Linear {
            min: d(-4),
            max: d(4),
            states,
        },
    }
}

#[test]
fn a_pooled_formula_changes_the_identity_and_is_causal() {
    let plain = CatalogueConfig::default();
    let base_ids: Vec<String> = catalogue(&plain).iter().map(|i| i.spec().id).collect();
    let base_identity = CatalogueIdentity::from_config(&plain);
    assert!(base_identity.formula_pool.is_empty());
    assert_eq!(FeatureSchema::from_catalogue(&plain).len(), base_ids.len());

    let id = "ab".repeat(32);
    let cfg = CatalogueConfig {
        states: plain.states,
        formula_pool: vec![pooled(&id, plain.states)],
    };
    let ids: Vec<String> = catalogue(&cfg).iter().map(|i| i.spec().id).collect();
    assert_eq!(ids.len(), base_ids.len() + 1);
    assert_eq!(ids.last().unwrap(), &id);

    let identity = CatalogueIdentity::from_config(&cfg);
    assert_ne!(identity, base_identity);
    assert_ne!(identity.id_hash, base_identity.id_hash);
    assert_eq!(identity.formula_pool, vec![id.clone()]);
    assert_eq!(CatalogueIdentity::current_with_pool(vec![id]), identity);

    let mut injected = catalogue(&cfg).pop().unwrap();
    let lookback = injected.spec().lookback;
    assert_eq!(lookback, 10);
    let out = compute_batch(&mut injected, &series(120));
    assert!(out[..lookback - 1].iter().all(|r| *r == Ok(None)));
    let states: Vec<u16> = out[lookback - 1..]
        .iter()
        .map(|r| r.unwrap().unwrap().index())
        .collect();
    assert!(states.iter().any(|&s| s != states[0]));
}

#[test]
fn a_longer_pooled_formula_keeps_vectors_incomplete_longer() {
    let mut long = pooled("aa", 5);
    long.expr = window(WinOp::Mean, Field::Close, 40);
    long.quantiser = Quantiser::Linear { min: d(0), max: d(1000), states: 5 };
    let cfg = CatalogueConfig { states: 5, formula_pool: vec![long] };
    assert_eq!(FeatureSchema::from_catalogue(&cfg).max_lookback(), 40);
    let vectors = assemble_batch(&cfg, &series(60));
    assert!(vectors[..39].iter().all(|v| !v.as_ref().unwrap().is_complete()));
    assert_eq!(vectors[38].as_ref().unwrap().states[22], None);
    assert!(vectors[39].as_ref().unwrap().states[22].is_some());
}

#[test]
fn pooled_formulas_are_appended_in_ascending_order() {
    let cfg = CatalogueConfig {
        states: 5,
        formula_pool: vec![pooled("zz", 5), pooled("aa", 5), pooled("mm", 5)],
    };
    let ids: Vec<String> = catalogue(&cfg).iter().map(|i| i.spec().id).collect();
    assert_eq!(ids[22..], ["aa", "mm", "zz"]);
    assert_eq!(
        CatalogueIdentity::from_config(&cfg).formula_pool,
        ["aa", "mm", "zz"]
    );
    let other = CatalogueConfig {
        states: 5,
        formula_pool: vec![pooled("mm", 5), pooled("zz", 5), pooled("aa", 5)],
    };
    assert_eq!(
        CatalogueIdentity::from_config(&cfg),
        CatalogueIdentity::from_config(&other)
    );
    assert_eq!(
        CatalogueIdentity::current()
            .with_formula_pool(vec!["b".to_owned(), "a".to_owned()])
            .formula_pool,
        ["a", "b"]
    );
}

#[test]
fn ac1_batch_equals_streaming_for_every_indicator() {
    let cfg = CatalogueConfig::default();
    let samples = series(80);
    for mut ind in catalogue(&cfg) {
        let batch = compute_batch(&mut ind, &samples);
        ind.reset();
        let streamed: Vec<_> = samples.iter().map(|s| ind.update(s)).collect();
        assert_eq!(batch, streamed, "batch and streaming differ for {}", ind.spec().id);
    }
}

#[test]
fn mod_ac2_warmup_emits_none_until_exactly_lookback_then_some() {
    warms_at_its_lookback(catalogue(&CatalogueConfig::default()));
}

#[test]
fn mod_ac2_latest_output_independent_of_out_of_window_samples() {
    forgets_what_left_its_window(catalogue(&CatalogueConfig::default()));
}
