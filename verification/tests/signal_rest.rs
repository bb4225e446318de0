//! Feature vectors, bar reconstruction and regimes.

use quant_engine::decimal::Dec;
use quant_engine::domain::{Bar, Price, Qty, Resolution, Timestamp};
use quant_engine::signal::bars::Sample;
use quant_engine::signal::catalogue::{catalogue, max_lookback, CatalogueConfig};
use quant_engine::signal::feature::{
    assemble_batch, CatalogueIdentity, FeatureAssembler, FeatureSchema, FeatureVector,
};
use quant_engine::signal::indicator::CATALOGUE_VERSION;
use quant_engine::signal::quant::QState;
use quant_engine::signal::reconstruct::{
    reconstruct_batch, reconstruct_tiers, BarReconstructor, ReconError,
};
use quant_engine::signal::regime::{
    label_bars, middle_of, tally_regimes, Middle, Regime, TrendState, VolState,
    DEFAULT_REGIME_WINDOW,
};

const MIN: i64 = 60_000;

fn price(n: i64) -> Price {
    Price::new(Dec::from_int(n)).unwrap()
}

fn qty(n: i64) -> Qty {
    Qty::new(Dec::from_int(n)).unwrap()
}

// ---- feature vectors -------------------------------------------------------------------------

fn series(n: usize) -> Vec<Sample> {
    (0..n)
        .map(|i| {
            let i = i as i64;
            let base = 100 + (i % 7) * 3 + i / 5;
            let bar = Bar::new(
                Timestamp::from_millis(i * 5 * MIN),
                Resolution::M5,
                price(base),
                price(base + 6),
                price(base - 6),
                price(base + (i % 3) - 1),
                qty(10 + (i % 5)),
                1,
            )
            .unwrap();
            Sample {
                bar,
                funding: Some(Dec::scaled((i % 5) - 2, 4)),
                open_interest: Some(Dec::from_int(1000 + i * 7)),
                premium: Some(Dec::scaled((i % 3) - 1, 4)),
            }
        })
        .collect()
}

fn vectors(cfg: &CatalogueConfig, samples: &[Sample]) -> Vec<FeatureVector> {
    assemble_batch(cfg, samples)
        .into_iter()
        .map(|r| r.unwrap())
        .collect()
}

#[test]
fn schema_matches_catalogue() {
    let cfg = CatalogueConfig::default();
    let schema = FeatureSchema::from_catalogue(&cfg);
    assert_eq!(schema.len(), catalogue(&cfg).len());
    assert!(schema.len() >= 20);
    assert_eq!(schema.version(), CATALOGUE_VERSION);
    assert!(schema.ids().contains(&"rsi_14".to_owned()));
    assert_eq!(schema.max_lookback(), max_lookback(&cfg));
}

#[test]
fn ac_batch_equals_streaming() {
    let cfg = CatalogueConfig::default();
    let samples = series(80);

    let batch = vectors(&cfg, &samples);

    let mut assembler = FeatureAssembler::new(&cfg);
    let streamed: Vec<FeatureVector> = samples.iter().map(|s| assembler.push(s).unwrap()).collect();

    assert_eq!(batch, streamed);
    assert_eq!(batch, vectors(&cfg, &samples));
}

#[test]
fn a_reset_assembler_starts_over() {
    let cfg = CatalogueConfig::default();
    let samples = series(50);
    let mut assembler = FeatureAssembler::new(&cfg);
    let first: Vec<FeatureVector> = samples.iter().map(|s| assembler.push(s).unwrap()).collect();
    assembler.reset();
    let second: Vec<FeatureVector> = samples.iter().map(|s| assembler.push(s).unwrap()).collect();
    assert_eq!(first, second);
    assert_eq!(assembler.schema(), FeatureSchema::from_catalogue(&cfg));
}

#[test]
fn a_vector_does_not_depend_on_samples_older_than_the_lookback() {
    let cfg = CatalogueConfig::default();
    let samples = series(80);
    let n = max_lookback(&cfg);
    let full = vectors(&cfg, &samples);
    let recent = vectors(&cfg, &samples[80 - n..]);
    assert!(full[79].is_complete());
    assert_eq!(full[79], recent[n - 1]);
    let short = vectors(&cfg, &samples[81 - n..]);
    assert_ne!(full[79], short[n - 2]);
}

#[test]
fn vectors_become_complete_after_max_lookback() {
    let cfg = CatalogueConfig::default();
    let samples = series(80);
    let schema = FeatureSchema::from_catalogue(&cfg);
    let vectors = vectors(&cfg, &samples);

    assert!(!vectors[schema.max_lookback() - 2].is_complete());
    assert!(vectors[schema.max_lookback() - 1].is_complete());
    assert!(vectors.last().unwrap().is_complete());
}

#[test]
fn byte_codec_round_trips() {
    let v = FeatureVector {
        time_ms: 1_700_000_000_000,
        states: vec![
            Some(QState::from_index(3)),
            None,
            Some(QState::from_index(0)),
        ],
    };
    let bytes = v.to_bytes();
    let back = FeatureVector::from_bytes(&bytes, 3).unwrap();
    assert_eq!(back, v);
    assert!(FeatureVector::from_bytes(&bytes, 2).is_none());
}

#[test]
fn the_byte_layout_is_big_endian() {
    let v = FeatureVector {
        time_ms: 0x0102_0304_0506_0708,
        states: vec![Some(QState::from_index(0x0A0B)), None],
    };
    assert_eq!(
        v.to_bytes(),
        vec![1, 2, 3, 4, 5, 6, 7, 8, 0x0A, 0x0B, 0xFF, 0xFF]
    );
    assert!(FeatureVector::from_bytes(&[0; 7], 0).is_none());
}

#[test]
fn complete_vector_round_trips_through_bytes() {
    let cfg = CatalogueConfig::default();
    let samples = series(80);
    let width = FeatureSchema::from_catalogue(&cfg).len();
    let v = vectors(&cfg, &samples).pop().unwrap();
    assert!(v.is_complete());
    assert_eq!(FeatureVector::from_bytes(&v.to_bytes(), width).unwrap(), v);
}

#[test]
fn the_identity_hash_is_a_digest_of_the_ordered_identifiers() {
    let one = CatalogueIdentity::hash_ids(&["a".to_owned(), "b".to_owned()]);
    let other = CatalogueIdentity::hash_ids(&["b".to_owned(), "a".to_owned()]);
    let joined = CatalogueIdentity::hash_ids(&["ab".to_owned()]);
    assert_eq!(one.len(), 64);
    assert!(one.chars().all(|c| c.is_ascii_hexdigit()));
    assert_ne!(one, other);
    assert_ne!(one, joined);
}

// ---- bar reconstruction ----------------------------------------------------------------------

fn base_bar(open_min: i64, o: i64, h: i64, l: i64, c: i64, v: i64, trades: u64) -> Bar {
    Bar::new(
        Timestamp::from_millis(open_min * MIN),
        Resolution::M5,
        price(o),
        price(h),
        price(l),
        price(c),
        qty(v),
        trades,
    )
    .unwrap()
}

fn six_5m() -> Vec<Bar> {
    vec![
        base_bar(0, 100, 105, 99, 104, 10, 1),
        base_bar(5, 104, 110, 103, 108, 12, 2),
        base_bar(10, 108, 109, 101, 102, 8, 1),
        base_bar(15, 102, 107, 100, 106, 9, 3),
        base_bar(20, 106, 112, 105, 111, 11, 2),
        base_bar(25, 111, 113, 95, 97, 20, 5),
    ]
}

#[test]
fn rolls_up_one_window_to_hand_computed_values() {
    let bars = six_5m();
    let out = reconstruct_batch(&bars, Resolution::M5, Resolution::M30).unwrap();
    assert_eq!(out.len(), 1);
    let b = &out[0];
    assert_eq!(b.resolution(), Resolution::M30);
    assert_eq!(b.open_time(), Timestamp::from_millis(0));
    assert_eq!(b.open().get(), Dec::from_int(100));
    assert_eq!(b.high().get(), Dec::from_int(113));
    assert_eq!(b.low().get(), Dec::from_int(95));
    assert_eq!(b.close().get(), Dec::from_int(97));
    assert_eq!(b.volume().get(), Dec::from_int(70));
    assert_eq!(b.trades(), 14);
}

#[test]
fn batch_equals_streaming_parity() {
    let mut bars = six_5m();
    bars.extend((6..14).map(|i| base_bar(i * 5, 100 + i, 120 + i, 90, 100 + i, 5, 1)));

    let batch = reconstruct_batch(&bars, Resolution::M5, Resolution::M30).unwrap();

    let mut recon = BarReconstructor::new(Resolution::M5, Resolution::M30).unwrap();
    let mut streamed = Vec::new();
    for bar in &bars {
        if let Some(done) = recon.push(bar).unwrap() {
            streamed.push(done);
        }
    }
    if let Some(done) = recon.finish().unwrap() {
        streamed.push(done);
    }

    assert_eq!(batch, streamed);
    assert_eq!(batch.len(), 3);
    assert_eq!(batch[0].open_time(), Timestamp::from_millis(0));
    assert_eq!(batch[1].open_time(), Timestamp::from_millis(30 * MIN));
    assert_eq!(batch[2].open_time(), Timestamp::from_millis(60 * MIN));
}

#[test]
fn each_window_holds_just_its_own_bars() {
    let bars: Vec<Bar> = [-31, -30, -4, 0, 5, 29, 65, 70, 88, 89]
        .iter()
        .map(|&m| base_bar(m, 100 + m, 140 + m, 50, 110 + m, 1, 1))
        .collect();
    let out = reconstruct_batch(&bars, Resolution::M5, Resolution::M30).unwrap();
    assert_eq!(out.len(), 4);
    for bar in &out {
        let start = bar.open_time().millis();
        let inside: Vec<Bar> = bars
            .iter()
            .filter(|b| b.open_time().millis().div_euclid(30 * MIN) * 30 * MIN == start)
            .cloned()
            .collect();
        let alone = reconstruct_batch(&inside, Resolution::M5, Resolution::M30).unwrap();
        assert_eq!(alone, vec![*bar]);
    }
}

#[test]
fn windows_align_to_epoch_boundary_not_first_bar() {
    let bars = vec![
        base_bar(2, 100, 100, 100, 100, 1, 1),
        base_bar(7, 100, 101, 99, 100, 1, 1),
    ];
    let out = reconstruct_batch(&bars, Resolution::M5, Resolution::M30).unwrap();
    assert_eq!(out.len(), 1);
    assert_eq!(out[0].open_time(), Timestamp::from_millis(0));
}

#[test]
fn windows_before_the_epoch_align_downwards() {
    let bars = vec![base_bar(-5, 100, 100, 100, 100, 1, 1)];
    let out = reconstruct_batch(&bars, Resolution::M5, Resolution::M30).unwrap();
    assert_eq!(out[0].open_time(), Timestamp::from_millis(-30 * MIN));
}

#[test]
fn reconstruct_tiers_yields_all_configured_tiers() {
    let bars: Vec<Bar> = (0..48)
        .map(|i| base_bar(i * 5, 100, 100, 100, 100, 1, 1))
        .collect();
    let out =
        reconstruct_tiers(&bars, Resolution::M5, &[Resolution::M30, Resolution::H4]).unwrap();
    let m30 = out
        .iter()
        .filter(|b| b.resolution() == Resolution::M30)
        .count();
    let h4 = out
        .iter()
        .filter(|b| b.resolution() == Resolution::H4)
        .count();
    assert_eq!(m30, 8);
    assert_eq!(h4, 1);
}

#[test]
fn rejects_non_coarser_target() {
    assert_eq!(
        BarReconstructor::new(Resolution::M30, Resolution::M5).unwrap_err(),
        ReconError::TargetNotCoarser {
            base: Resolution::M30,
            target: Resolution::M5
        }
    );
    assert_eq!(
        BarReconstructor::new(Resolution::M5, Resolution::M5).unwrap_err(),
        ReconError::TargetNotCoarser {
            base: Resolution::M5,
            target: Resolution::M5
        }
    );
}

#[test]
fn rejects_wrong_resolution_input() {
    let mut recon = BarReconstructor::new(Resolution::M5, Resolution::M30).unwrap();
    let wrong = base_bar_res(Resolution::M15, 0);
    assert_eq!(
        recon.push(&wrong).unwrap_err(),
        ReconError::UnexpectedResolution {
            expected: Resolution::M5,
            found: Resolution::M15
        }
    );
}

fn base_bar_res(res: Resolution, open_min: i64) -> Bar {
    Bar::new(
        Timestamp::from_millis(open_min * MIN),
        res,
        price(100),
        price(100),
        price(100),
        price(100),
        qty(1),
        1,
    )
    .unwrap()
}

#[test]
fn a_count_of_trades_out_of_range_is_refused() {
    let bars = vec![
        base_bar(0, 100, 100, 100, 100, 1, u64::MAX),
        base_bar(5, 100, 100, 100, 100, 1, 1),
    ];
    assert_eq!(
        reconstruct_batch(&bars, Resolution::M5, Resolution::M30),
        Err(ReconError::OutOfRange)
    );
}

// ---- regimes ---------------------------------------------------------------------------------

/// A key that orders like the number.
fn key(x: f64) -> u64 {
    let bits = (x + 0.0).to_bits();
    if bits >> 63 == 1 {
        !bits
    } else {
        bits | (1 << 63)
    }
}

fn number(k: u64) -> f64 {
    if k >> 63 == 1 {
        f64::from_bits(k & !(1 << 63))
    } else {
        f64::from_bits(!k)
    }
}

/// Labels the closes: the statistics in floating point, the rest by the library.
fn label_closes(closes: &[f64], window: usize, threshold: f64) -> Vec<Option<Regime>> {
    let n = closes.len();
    let w = window.max(1);
    let mut vols = Vec::new();
    let mut trending = Vec::new();
    for i in w..n {
        let rets: Vec<f64> = (i - w + 1..=i)
            .map(|k| (closes[k] / closes[k - 1]).ln())
            .collect();
        let mean = rets.iter().sum::<f64>() / w as f64;
        let var = rets.iter().map(|r| (r - mean).powi(2)).sum::<f64>() / w as f64;
        vols.push(key(var.sqrt()));
        let net = (closes[i] - closes[i - w]).abs();
        let path: f64 = (i - w + 1..=i)
            .map(|k| (closes[k] - closes[k - 1]).abs())
            .sum();
        trending.push((if path > 0.0 { net / path } else { 0.0 }) >= threshold);
    }
    let median = match middle_of(&vols) {
        Middle::Nothing => key(0.0),
        Middle::One(k) => k,
        Middle::Two(a, b) => key((number(a) + number(b)) / 2.0),
    };
    label_bars(n, window, &vols, median, &trending)
}

fn defaults(closes: &[f64]) -> Vec<Option<Regime>> {
    label_closes(closes, DEFAULT_REGIME_WINDOW, 0.5)
}

fn uptrend_closes(n: usize) -> Vec<f64> {
    let mut p = 100.0;
    (0..n)
        .map(|_| {
            let out = p;
            p *= 1.005;
            out
        })
        .collect()
}

fn choppy_closes(n: usize, amp: f64) -> Vec<f64> {
    (0..n)
        .map(|i| if i % 2 == 0 { 100.0 } else { 100.0 + amp })
        .collect()
}

#[test]
fn warmup_bars_are_unlabelled() {
    let labels = defaults(&uptrend_closes(40));
    assert_eq!(labels.len(), 40);
    assert!(labels[..DEFAULT_REGIME_WINDOW].iter().all(|l| l.is_none()));
    assert!(labels[DEFAULT_REGIME_WINDOW..].iter().all(|l| l.is_some()));
}

#[test]
fn smooth_trend_labels_trending_chop_labels_choppy() {
    let trend = defaults(&uptrend_closes(120));
    assert!(trend
        .iter()
        .flatten()
        .all(|r| r.trend == TrendState::Trending));

    let chop = defaults(&choppy_closes(120, 1.0));
    assert!(chop.iter().flatten().all(|r| r.trend == TrendState::Choppy));
}

#[test]
fn vol_median_split_separates_low_and_high_vol() {
    let mut closes = uptrend_closes(120);
    closes.extend(choppy_closes(60, 5.0));
    let labels = defaults(&closes);

    let vol_rate = |range: std::ops::Range<usize>| -> f64 {
        let deep: Vec<VolState> = range.filter_map(|i| labels[i].map(|r| r.vol)).collect();
        deep.iter().filter(|v| **v == VolState::Volatile).count() as f64 / deep.len() as f64
    };
    let low_seg = vol_rate(30..100);
    let high_seg = vol_rate(140..180);
    assert_eq!(high_seg, 1.0, "the high-vol segment is entirely Volatile");
    assert!(
        high_seg > low_seg,
        "high-vol segment Volatile-rate {high_seg} should exceed low-vol {low_seg}"
    );
}

#[test]
fn per_regime_expectancy_table_distinguishes_regimes() {
    let mut closes = uptrend_closes(100);
    closes.extend(choppy_closes(100, 5.0));
    let labels = defaults(&closes);

    let gains: Vec<f64> = (0..closes.len())
        .map(|i| {
            let prev = if i == 0 { 100.0 } else { closes[i - 1] };
            let r = (closes[i] / prev).ln();
            match labels[i].map(|x| x.trend) {
                Some(TrendState::Trending) => r,
                Some(TrendState::Choppy) => -r.abs(),
                None => 0.0,
            }
        })
        .collect();
    let positive: Vec<bool> = gains.iter().map(|g| *g > 0.0).collect();

    let table = tally_regimes(&positive, &labels);

    assert_eq!(table.labelled() + table.unlabelled, closes.len());
    assert!(!table.rows.is_empty());

    let mean = |trend: TrendState| -> Vec<f64> {
        table
            .rows
            .iter()
            .filter(|r| r.regime.trend == trend)
            .map(|r| r.bars.iter().map(|i| gains[*i]).sum::<f64>() / r.bars.len() as f64)
            .collect()
    };
    let trend_mean = mean(TrendState::Trending)
        .into_iter()
        .fold(f64::NEG_INFINITY, f64::max);
    let chop_mean = mean(TrendState::Choppy)
        .into_iter()
        .fold(f64::INFINITY, f64::min);
    assert!(
        trend_mean > chop_mean,
        "trending expectancy {trend_mean} should beat choppy {chop_mean}"
    );
}

#[test]
fn labelling_is_deterministic_and_table_reconciles() {
    let closes = uptrend_closes(90);
    let a = defaults(&closes);
    let b = defaults(&closes);
    assert_eq!(a, b);

    let gains = vec![0.01f64; closes.len()];
    let positive: Vec<bool> = gains.iter().map(|g| *g > 0.0).collect();
    let table = tally_regimes(&positive, &a);
    assert_eq!(table.labelled() + table.unlabelled, closes.len());
    for row in &table.rows {
        let total: f64 = row.bars.iter().map(|i| gains[*i]).sum();
        assert!((total / row.bars.len() as f64 - 0.01).abs() < 1e-12);
        assert!((row.wins as f64 / row.bars.len() as f64 - 1.0).abs() < 1e-12);
    }
}

#[test]
fn the_rows_of_a_tally_ascend_and_hold_their_bars() {
    let calm = Regime::new(VolState::Calm, TrendState::Choppy);
    let wild = Regime::new(VolState::Volatile, TrendState::Trending);
    let labels = [Some(wild), None, Some(calm), Some(wild), Some(wild)];
    let table = tally_regimes(&[true, true, false, false], &labels);
    assert_eq!(table.unlabelled, 1);
    assert_eq!(table.rows.len(), 2);
    assert_eq!(table.row(calm), Some(0));
    assert_eq!(table.row(wild), Some(1));
    assert_eq!(
        table.row(Regime::new(VolState::Calm, TrendState::Trending)),
        None
    );
    assert_eq!(table.rows[1].bars, vec![0, 3]);
    assert_eq!(table.rows[1].wins, 1);
    assert_eq!(table.rows[0].wins, 0);
    assert_eq!(table.labelled(), 3);
}

#[test]
fn the_middle_of_a_list() {
    assert_eq!(middle_of(&[]), Middle::Nothing);
    assert_eq!(middle_of(&[9, 1, 5]), Middle::One(5));
    assert_eq!(middle_of(&[9, 1, 5, 3]), Middle::Two(3, 5));
}
