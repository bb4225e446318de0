//! The stores: keys, scans, coverage, provenance, schema versions and the derived-state cache. The
//! tables are ordered maps in memory.

use std::collections::BTreeMap;

use quant_engine::decimal::Dec;
use quant_engine::domain::{Bar, FundingRateSample, InstrumentId, Price, Qty, Resolution, Timestamp};
use quant_engine::storage::cache::{
    decode_cache_value, encode_cache_value, get_indicator_state, get_recon_bar, stale_keys,
    IndicatorKey,
};
use quant_engine::storage::coverage::{
    coverage, coverage_pairs, provenance_segments, CoverageRow, PairListing,
};
use quant_engine::storage::key::{
    bar_key, bar_prefix, order_i64, series_key, series_prefix, time_from_key,
};
use quant_engine::storage::provenance::{
    batch_segments, store_provenance_summary, Calibration, Provenance, ProvenanceSegment,
    ProvenanceSummary,
};
use quant_engine::storage::records::{FuturesMetrics, PremiumSample};
use quant_engine::storage::schema::{
    check_or_init_schema, lineage_key, lineage_of_key, parse_u32, read_schema_version,
    record_lineage, SchemaAction, SchemaError, SCHEMA_VERSION, SYNTHETIC_SCHEMA_VERSION,
};
use quant_engine::storage::table::{
    bar_instruments, bar_keys, count_bars_in_range, coverage_bounds, scan_series,
};

fn inst(s: &str) -> InstrumentId {
    InstrumentId::new(s).unwrap()
}

fn price(n: i64) -> Price {
    Price::new(Dec::from_int(n)).unwrap()
}

fn at(secs: i64) -> Timestamp {
    Timestamp::from_secs(secs)
}

fn bar(res: Resolution, secs: i64, base: i64) -> Bar {
    Bar::new(
        at(secs),
        res,
        price(base),
        price(base + 10),
        price(base - 10),
        price(base),
        Qty::new(Dec::from_int(1)).unwrap(),
        1,
    )
    .unwrap()
}

type Table<V> = BTreeMap<Vec<u8>, V>;

fn under<V: Clone>(table: &Table<V>, prefix: &[u8]) -> Vec<(Vec<u8>, V)> {
    table
        .iter()
        .filter(|(k, _)| k.starts_with(prefix))
        .map(|(k, v)| (k.clone(), v.clone()))
        .collect()
}

fn scan<V: Clone>(table: &Table<V>, prefix: &[u8], from: Timestamp, to: Timestamp) -> Vec<V> {
    let rows: Vec<Result<(Vec<u8>, V), String>> =
        under(table, prefix).into_iter().map(Ok).collect();
    scan_series(rows, from, to).unwrap()
}

/// A market store in memory.
#[derive(Default)]
struct Store {
    bars: Table<Bar>,
    segments: Table<ProvenanceSegment>,
    meta: BTreeMap<String, String>,
}

impl Store {
    fn open() -> Store {
        let mut store = Store::default();
        store.reopen(SCHEMA_VERSION).unwrap();
        store
    }

    fn reopen(&mut self, expected: u32) -> Result<(), SchemaError> {
        let found = self.meta.get("schema_version").map(String::as_str);
        match check_or_init_schema(found, expected)? {
            SchemaAction::Record(text) => {
                self.meta.insert("schema_version".to_owned(), text);
            }
            SchemaAction::Keep => {}
        }
        Ok(())
    }

    fn schema_version(&self) -> Result<u32, SchemaError> {
        read_schema_version(self.meta.get("schema_version").map(String::as_str))
    }

    fn put_bars(&mut self, id: &InstrumentId, bars: &[Bar]) {
        for (key, bar) in bar_keys(id, bars).into_iter().zip(bars) {
            self.bars.insert(key, *bar);
        }
    }

    fn put_bars_with_provenance(
        &mut self,
        id: &InstrumentId,
        bars: &[Bar],
        provenance: Provenance,
        calibration: Calibration,
    ) {
        self.put_bars(id, bars);
        for write in batch_segments(bars, provenance, calibration) {
            self.segments
                .insert(bar_key(id, write.resolution, write.start), write.segment);
        }
    }

    fn get_bar(&self, id: &InstrumentId, res: Resolution, t: Timestamp) -> Option<Bar> {
        self.bars.get(&bar_key(id, res, t)).copied()
    }

    fn scan_bars(
        &self,
        id: &InstrumentId,
        res: Resolution,
        from: Timestamp,
        to: Timestamp,
    ) -> Vec<Bar> {
        scan(&self.bars, &bar_prefix(id, res), from, to)
    }

    fn keys(&self, id: &InstrumentId, res: Resolution) -> Vec<Vec<u8>> {
        under(&self.bars, &bar_prefix(id, res)).into_iter().map(|(k, _)| k).collect()
    }

    fn coverage_bounds(
        &self,
        id: &InstrumentId,
        res: Resolution,
    ) -> Option<(Timestamp, Timestamp, usize)> {
        coverage_bounds(&self.keys(id, res))
    }

    fn coverage(&self, ids: &[InstrumentId]) -> Vec<CoverageRow> {
        let pairs: Vec<PairListing> = coverage_pairs(ids)
            .into_iter()
            .map(|(instrument, resolution)| PairListing {
                bars: self.keys(&instrument, resolution),
                segments: under(&self.segments, &bar_prefix(&instrument, resolution)),
                instrument,
                resolution,
            })
            .collect();
        coverage(&pairs)
    }

    fn provenance_segments(
        &self,
        id: &InstrumentId,
        res: Resolution,
    ) -> Vec<(Timestamp, Timestamp, Provenance, Calibration)> {
        provenance_segments(&under(&self.segments, &bar_prefix(id, res)))
    }

    fn summary(&self, ids: &[InstrumentId], res: Resolution) -> ProvenanceSummary {
        let facts: Vec<(Vec<Provenance>, bool)> = ids
            .iter()
            .map(|id| {
                let origins = self.provenance_segments(id, res).iter().map(|s| s.2).collect();
                (origins, self.coverage_bounds(id, res).is_some())
            })
            .collect();
        store_provenance_summary(&facts)
    }

    fn record_lineage(&mut self, id: &str) -> bool {
        let key = lineage_key(id);
        let fresh = record_lineage(self.meta.get(&key).map(String::as_str));
        if fresh {
            self.meta.insert(key, "1".to_owned());
        }
        fresh
    }

    fn has_lineage(&self, id: &str) -> bool {
        self.meta.contains_key(&lineage_key(id))
    }

    fn lineages(&self) -> Vec<String> {
        self.meta.keys().filter_map(|k| lineage_of_key(k)).collect()
    }
}

// ---- keys ----------------------------------------------------------------------------------------

#[test]
fn time_ordering_is_preserved_in_bytes_including_negatives() {
    let a = order_i64(-1_000);
    let b = order_i64(0);
    let c = order_i64(1_000);
    assert!(a < b && b < c);
    assert_eq!(order_i64(i64::MIN), vec![0; 8]);
    assert_eq!(order_i64(0), vec![0x80, 0, 0, 0, 0, 0, 0, 0]);
    assert_eq!(order_i64(i64::MAX), vec![0xff; 8]);
}

#[test]
fn time_round_trips_through_key() {
    let k = series_key(&inst("BTCUSDT"), Timestamp::from_millis(1_700_000_000_123));
    assert_eq!(time_from_key(&k).millis(), 1_700_000_000_123);
    let neg = bar_key(
        &inst("ETHUSDT"),
        Resolution::M5,
        Timestamp::from_millis(-42),
    );
    assert_eq!(time_from_key(&neg).millis(), -42);
}

#[test]
fn prefixes_isolate_instruments_and_resolutions() {
    let btc = bar_prefix(&inst("BTCUSDT"), Resolution::M5);
    let eth = bar_prefix(&inst("ETHUSDT"), Resolution::M5);
    let btc_h1 = bar_prefix(&inst("BTCUSDT"), Resolution::H1);
    assert!(!btc.starts_with(&eth) && !eth.starts_with(&btc));
    assert_ne!(btc, btc_h1);
    let k = bar_key(&inst("BTCUSDT"), Resolution::M5, Timestamp::from_secs(1));
    assert!(k.starts_with(&btc));
    assert!(series_key(&inst("A"), at(0)).starts_with(&series_prefix(&inst("A"))));
    assert!(!series_key(&inst("AB"), at(0)).starts_with(&series_prefix(&inst("A"))));
}

// ---- bars ----------------------------------------------------------------------------------------

#[test]
fn bars_round_trip_and_range_scan() {
    let mut store = Store::open();
    let id = inst("BTCUSDT");
    let res = Resolution::M5;
    let bars = vec![bar(res, 100, 100), bar(res, 200, 110), bar(res, 300, 120)];
    store.put_bars(&id, &bars);

    assert_eq!(store.get_bar(&id, res, at(200)), Some(bars[1].clone()));
    assert_eq!(store.get_bar(&id, res, at(250)), None);

    assert_eq!(
        store.scan_bars(&id, res, at(150), at(300)),
        vec![bars[1].clone()]
    );
    assert_eq!(store.scan_bars(&id, res, at(0), at(1_000)), bars);
    assert_eq!(
        store.scan_bars(&id, res, at(100), at(201)),
        vec![bars[0].clone(), bars[1].clone()]
    );
    assert!(store.scan_bars(&id, res, at(400), at(500)).is_empty());
}

#[test]
fn bars_scan_isolates_instrument_and_resolution() {
    let mut store = Store::open();
    let btc = inst("BTCUSDT");
    let eth = inst("ETHUSDT");
    store.put_bars(&btc, &[bar(Resolution::M5, 100, 100)]);
    store.put_bars(&eth, &[bar(Resolution::M5, 100, 200)]);
    store.put_bars(&btc, &[bar(Resolution::H1, 100, 300)]);

    let btc_m5 = store.scan_bars(&btc, Resolution::M5, at(0), at(1_000));
    assert_eq!(btc_m5.len(), 1);
    assert_eq!(btc_m5[0].open(), price(100));
}

#[test]
fn bars_scan_isolates_prefix_substring_instruments() {
    let mut store = Store::open();
    let short = inst("BTC");
    let long = inst("BTCUSDT");
    store.put_bars(
        &short,
        &[bar(Resolution::M5, 100, 100), bar(Resolution::M5, 200, 101)],
    );
    store.put_bars(
        &long,
        &[
            bar(Resolution::M5, 100, 200),
            bar(Resolution::M5, 200, 201),
            bar(Resolution::M5, 300, 202),
        ],
    );

    let s = store.scan_bars(&short, Resolution::M5, at(0), at(10_000));
    let l = store.scan_bars(&long, Resolution::M5, at(0), at(10_000));
    assert_eq!(s.len(), 2);
    assert_eq!(l.len(), 3);
    assert!(s
        .iter()
        .all(|b| b.open() == price(100) || b.open() == price(101)));
    assert!(l
        .iter()
        .all(|b| !b.open().get().less_than(Dec::from_int(200))));
    let keys: Vec<Vec<u8>> = store.bars.keys().cloned().collect();
    assert_eq!(bar_instruments(&keys), vec![short, long]);
}

#[test]
fn reads_are_concurrent() {
    let mut store = Store::open();
    let id = inst("BTCUSDT");
    let bars: Vec<Bar> = (0..50).map(|i| bar(Resolution::M5, 100 + i, 100)).collect();
    store.put_bars(&id, &bars);
    // Reads borrow the store together and see the same bars.
    let readers: Vec<&Store> = (0..4).map(|_| &store).collect();
    for reader in readers {
        assert_eq!(
            reader.scan_bars(&id, Resolution::M5, at(0), at(10_000)).len(),
            50
        );
    }
}

#[test]
fn instruments_are_listed_once_and_odd_keys_skipped() {
    let keys = vec![
        vec![0x00],
        bar_key(&inst("AAA"), Resolution::M5, at(1)),
        bar_key(&inst("AAA"), Resolution::H1, at(1)),
        vec![b'B', b'-', 0x00, 1],
        vec![0xff, 0xfe],
        bar_key(&inst("ZZZ"), Resolution::M5, at(1)),
    ];
    assert_eq!(bar_instruments(&keys), vec![inst("AAA"), inst("ZZZ")]);
}

// ---- series --------------------------------------------------------------------------------------

#[test]
fn funding_round_trip_and_scan() {
    let id = inst("BTCUSDT");
    let mk = |secs: i64, r: i64| FundingRateSample {
        instrument: id.clone(),
        time: at(secs),
        rate: Dec::scaled(r, 4),
    };
    let samples = vec![mk(100, 1), mk(200, -2), mk(300, 3)];
    let table: Table<FundingRateSample> = samples
        .iter()
        .map(|s| (series_key(&s.instrument, s.time), s.clone()))
        .collect();
    assert_eq!(table.get(&series_key(&id, at(200))), Some(&samples[1]));
    assert_eq!(
        scan(&table, &series_prefix(&id), at(150), at(350)),
        vec![samples[1].clone(), samples[2].clone()]
    );
}

#[test]
fn premium_round_trip_and_scan() {
    let id = inst("BTCUSDT");
    let mk = |secs: i64, p: i64| PremiumSample {
        instrument: id.clone(),
        time: at(secs),
        premium: Dec::scaled(p, 3),
    };
    let samples = vec![mk(100, 1), mk(200, -2)];
    let table: Table<PremiumSample> = samples
        .iter()
        .map(|s| (series_key(&s.instrument, s.time), s.clone()))
        .collect();
    assert_eq!(table.get(&series_key(&id, at(100))), Some(&samples[0]));
    assert_eq!(scan(&table, &series_prefix(&id), at(0), at(1_000)), samples);
}

#[test]
fn futures_metrics_round_trip_and_scan() {
    let id = inst("BTCUSDT");
    let mk = |secs: i64| FuturesMetrics {
        instrument: id.clone(),
        time: at(secs),
        long_short_ratio: Dec::scaled(125, 2),
        open_interest: Dec::from_int(1_000),
        taker_buy_sell_ratio: Dec::scaled(98, 2),
    };
    let samples = vec![mk(100), mk(200)];
    let table: Table<FuturesMetrics> = samples
        .iter()
        .map(|s| (series_key(&s.instrument, s.time), s.clone()))
        .collect();
    assert_eq!(table.get(&series_key(&id, at(200))), Some(&samples[1]));
    assert_eq!(scan(&table, &series_prefix(&id), at(0), at(1_000)), samples);
}

// ---- schema --------------------------------------------------------------------------------------

#[test]
fn schema_version_is_recorded_and_reopen_succeeds() {
    let mut store = Store::open();
    assert_eq!(store.schema_version().unwrap(), SCHEMA_VERSION);
    store.reopen(SCHEMA_VERSION).unwrap();
    assert_eq!(store.schema_version().unwrap(), SCHEMA_VERSION);
}

#[test]
fn schema_version_recorded_and_reopen_succeeds() {
    let mut store = Store::default();
    store.reopen(SYNTHETIC_SCHEMA_VERSION).unwrap();
    assert_eq!(store.schema_version().unwrap(), SYNTHETIC_SCHEMA_VERSION);
    store.reopen(SYNTHETIC_SCHEMA_VERSION).unwrap();
    assert_eq!(store.schema_version().unwrap(), SYNTHETIC_SCHEMA_VERSION);
}

#[test]
fn schema_version_mismatch_is_detected_on_open() {
    let mut store = Store::default();
    store.meta.insert("schema_version".to_owned(), "999".to_owned());
    match store.reopen(SCHEMA_VERSION) {
        Err(SchemaError::Mismatch { expected, found }) => {
            assert_eq!(expected, SCHEMA_VERSION);
            assert_eq!(found, 999);
        }
        other => panic!("expected a mismatch, got {other:?}"),
    }
}

#[test]
fn corrupt_schema_version_record_is_rejected() {
    let mut store = Store::default();
    store
        .meta
        .insert("schema_version".to_owned(), "not-a-number".to_owned());
    match store.reopen(SCHEMA_VERSION) {
        Err(SchemaError::Corrupt(s)) => assert_eq!(s, "not-a-number"),
        other => panic!("expected a corrupt record, got {other:?}"),
    }
    assert!(matches!(read_schema_version(None), Err(SchemaError::Corrupt(s)) if s == "missing"));
}

#[test]
fn versions_parse_like_numbers() {
    assert_eq!(parse_u32("0"), Some(0));
    assert_eq!(parse_u32("+7"), Some(7));
    assert_eq!(parse_u32("007"), Some(7));
    assert_eq!(parse_u32("4294967295"), Some(u32::MAX));
    assert_eq!(parse_u32("4294967296"), None);
    assert_eq!(parse_u32(""), None);
    assert_eq!(parse_u32("+"), None);
    assert_eq!(parse_u32("-1"), None);
    assert_eq!(parse_u32("1 "), None);
    assert_eq!(parse_u32("99999999999999999999999"), None);
}

#[test]
fn lineage_ledger_records_idempotently_and_lists() {
    let mut store = Store::open();
    assert!(!store.has_lineage("vintage-a"));
    assert!(store.record_lineage("vintage-a"));
    assert!(!store.record_lineage("vintage-a"));
    assert!(store.has_lineage("vintage-a"));
    assert!(store.record_lineage("vintage-b"));
    let mut ids = store.lineages();
    ids.sort();
    assert_eq!(ids, vec!["vintage-a".to_owned(), "vintage-b".to_owned()]);
}

#[test]
fn lineage_ledger_is_independent_of_schema_version_key() {
    let mut store = Store::open();
    store.record_lineage("v1");
    assert_eq!(store.schema_version().unwrap(), SCHEMA_VERSION);
    assert_eq!(store.lineages(), vec!["v1".to_owned()]);
}

// ---- provenance ----------------------------------------------------------------------------------

#[test]
fn summary_folds_real_synthetic_mixed_unknown_empty() {
    let (real, synthetic, unknown) = (Provenance::Real, Provenance::Synthetic, Provenance::Unknown);
    assert_eq!(
        ProvenanceSummary::from_provenances(&[]),
        ProvenanceSummary::Empty
    );
    assert_eq!(
        ProvenanceSummary::from_provenances(&[real, real]),
        ProvenanceSummary::Real
    );
    assert_eq!(
        ProvenanceSummary::from_provenances(&[synthetic]),
        ProvenanceSummary::Synthetic
    );
    assert_eq!(
        ProvenanceSummary::from_provenances(&[real, synthetic]),
        ProvenanceSummary::Mixed
    );
    assert_eq!(
        ProvenanceSummary::from_provenances(&[unknown, unknown]),
        ProvenanceSummary::Unknown
    );
    assert_eq!(
        ProvenanceSummary::from_provenances(&[real, unknown]),
        ProvenanceSummary::Mixed
    );
}

#[test]
fn segment_round_trips() {
    let seg = ProvenanceSegment {
        end_ms: 42,
        provenance: Provenance::Synthetic,
        calibration: Calibration::Uncalibrated,
    };
    let back = seg.clone();
    assert_eq!(seg, back);
    assert_eq!(Provenance::Real.as_str(), "real");
    assert!(!Calibration::Uncalibrated.is_calibrated());
    assert!(Calibration::Calibrated.is_calibrated());
}

#[test]
fn provenance_tags_survive_and_summarise() {
    let mut store = Store::open();
    let id = inst("BTCUSDT");
    let res = Resolution::M5;
    store.put_bars_with_provenance(
        &id,
        &[bar(res, 100, 100), bar(res, 200, 110)],
        Provenance::Synthetic,
        Calibration::Uncalibrated,
    );
    let segs = store.provenance_segments(&id, res);
    assert_eq!(segs.len(), 1);
    assert_eq!(segs[0].2, Provenance::Synthetic);
    assert_eq!(segs[0].3, Calibration::Uncalibrated);
    assert_eq!(
        store.summary(std::slice::from_ref(&id), res),
        ProvenanceSummary::Synthetic
    );
    let rows = store.coverage(std::slice::from_ref(&id));
    assert_eq!(rows.len(), 1);
    assert_eq!(rows[0].provenance, "synthetic");
    assert!(!rows[0].calibrated);
    assert_eq!(rows[0].bars, 2);
}

#[test]
fn mixed_store_reports_multiple_contiguous_rows_never_blended() {
    let mut store = Store::open();
    let id = inst("BTCUSDT");
    let res = Resolution::M5;
    store.put_bars_with_provenance(
        &id,
        &[bar(res, 100, 100), bar(res, 200, 110)],
        Provenance::Real,
        Calibration::Uncalibrated,
    );
    store.put_bars_with_provenance(
        &id,
        &[bar(res, 300, 120), bar(res, 400, 130)],
        Provenance::Synthetic,
        Calibration::Uncalibrated,
    );
    let rows = store.coverage(std::slice::from_ref(&id));
    assert_eq!(rows.len(), 2);
    assert_eq!(rows[0].provenance, "real");
    assert_eq!(
        (rows[0].from, rows[0].to, rows[0].bars),
        (100_000, 200_000, 2)
    );
    assert_eq!(rows[1].provenance, "synthetic");
    assert_eq!(
        (rows[1].from, rows[1].to, rows[1].bars),
        (300_000, 400_000, 2)
    );
    assert_eq!(store.summary(&[id], res), ProvenanceSummary::Mixed);
}

#[test]
fn retagging_provenance_does_not_drift_bar_identity() {
    let mut store = Store::open();
    let id = inst("BTCUSDT");
    let res = Resolution::M5;
    let bars = [bar(res, 100, 100), bar(res, 200, 110)];
    store.put_bars(&id, &bars);
    let before = store.coverage_bounds(&id, res);
    let bar_before = store.get_bar(&id, res, Timestamp::from_secs(100));
    store.put_bars_with_provenance(&id, &bars, Provenance::Real, Calibration::Uncalibrated);
    assert_eq!(store.coverage_bounds(&id, res), before);
    assert_eq!(store.get_bar(&id, res, Timestamp::from_secs(100)), bar_before);
}

#[test]
fn a_batch_of_several_resolutions_writes_a_segment_each() {
    let bars = [
        bar(Resolution::H1, 7_200, 1_000),
        bar(Resolution::M5, 900, 100),
        bar(Resolution::M5, 300, 100),
        bar(Resolution::H1, 3_600, 1_000),
    ];
    let writes = batch_segments(&bars, Provenance::Real, Calibration::Calibrated);
    assert_eq!(writes.len(), 2);
    assert_eq!(writes[0].resolution, Resolution::M5);
    assert_eq!(writes[0].start, at(300));
    assert_eq!(writes[0].segment.end_ms, 900_000);
    assert_eq!(writes[1].resolution, Resolution::H1);
    assert_eq!(writes[1].start, at(3_600));
    assert_eq!(writes[1].segment.end_ms, 7_200_000);
    assert!(batch_segments(&[], Provenance::Real, Calibration::Calibrated).is_empty());
}

#[test]
fn untagged_bars_are_summarised_as_unknown() {
    let mut store = Store::open();
    let res = Resolution::M5;
    store.put_bars(&inst("OLD"), &[bar(res, 100, 100)]);
    assert_eq!(store.summary(&[inst("OLD")], res), ProvenanceSummary::Unknown);
    assert_eq!(store.summary(&[inst("NONE")], res), ProvenanceSummary::Empty);
    store.put_bars_with_provenance(
        &inst("NEW"),
        &[bar(res, 100, 100)],
        Provenance::Real,
        Calibration::Calibrated,
    );
    assert_eq!(
        store.summary(&[inst("OLD"), inst("NEW")], res),
        ProvenanceSummary::Mixed
    );
    assert_eq!(
        store.summary(&[inst("NONE"), inst("NEW")], res),
        ProvenanceSummary::Real
    );
}

// ---- coverage ------------------------------------------------------------------------------------

#[test]
fn coverage_bounds_reports_range_and_count_from_keys() {
    let mut store = Store::open();
    let id = inst("BTCUSDT");
    assert_eq!(store.coverage_bounds(&id, Resolution::M5), None);
    store.put_bars(
        &id,
        &[
            bar(Resolution::M5, 100, 100),
            bar(Resolution::M5, 200, 110),
            bar(Resolution::M5, 300, 120),
        ],
    );
    store.put_bars(&id, &[bar(Resolution::H1, 3600, 200)]);
    assert_eq!(
        store.coverage_bounds(&id, Resolution::M5),
        Some((
            Timestamp::from_millis(100_000),
            Timestamp::from_millis(300_000),
            3
        )),
    );
    assert_eq!(
        store.coverage_bounds(&id, Resolution::H1),
        Some((
            Timestamp::from_millis(3_600_000),
            Timestamp::from_millis(3_600_000),
            1
        )),
    );
    assert_eq!(store.coverage_bounds(&id, Resolution::D1), None);
    let keys = store.keys(&id, Resolution::M5);
    assert_eq!(count_bars_in_range(&keys, at(100), at(200)), 2);
    assert_eq!(count_bars_in_range(&keys, at(101), at(199)), 0);
}

#[test]
fn coverage_path_never_decodes_bar_values() {
    let mut store = Store::open();
    let id = inst("BTCUSDT");
    let res = Resolution::M5;
    store.put_bars(&id, &[bar(res, 100, 100), bar(res, 200, 110)]);
    // The coverage functions see keys only; a value that does not decode is no value to them.
    assert_eq!(
        store.coverage_bounds(&id, res),
        Some((
            Timestamp::from_millis(100_000),
            Timestamp::from_millis(200_000),
            2
        )),
    );
    assert_eq!(
        store.coverage(std::slice::from_ref(&id)),
        vec![CoverageRow {
            symbol: "BTCUSDT".to_owned(),
            resolution: res.as_str().to_owned(),
            from: 100_000,
            to: 200_000,
            bars: 2,
            provenance: "unknown".to_owned(),
            calibrated: false,
        }],
    );
    // A scan that meets a value that does not decode fails.
    let rows: Vec<Result<(Vec<u8>, Bar), String>> = vec![
        Ok((bar_key(&id, res, at(100)), bar(res, 100, 100))),
        Err("not json".to_owned()),
    ];
    assert!(scan_series(
        rows,
        Timestamp::from_millis(i64::MIN),
        Timestamp::from_millis(i64::MAX)
    )
    .is_err());
}

#[test]
fn a_scan_stops_before_what_it_does_not_need() {
    let id = inst("BTCUSDT");
    let res = Resolution::M5;
    let rows: Vec<Result<(Vec<u8>, i32), &str>> = vec![
        Ok((bar_key(&id, res, at(100)), 1)),
        Ok((bar_key(&id, res, at(300)), 2)),
        Err("never reached"),
    ];
    assert_eq!(scan_series(rows, at(0), at(300)), Ok(vec![1]));
}

#[test]
fn coverage_pairs_list_every_resolution() {
    let pairs = coverage_pairs(&[inst("B"), inst("A")]);
    assert_eq!(pairs.len(), 14);
    assert_eq!(pairs[0], (inst("B"), Resolution::M5));
    assert_eq!(pairs[6], (inst("B"), Resolution::D1));
    assert_eq!(pairs[7], (inst("A"), Resolution::M5));
}

// ---- derived state -------------------------------------------------------------------------------

fn state_key<'a>(id: &'a InstrumentId, indicator: &'a str, t: i64) -> IndicatorKey<'a> {
    IndicatorKey {
        instrument: id,
        resolution: Resolution::M5,
        indicator_id: indicator,
        lookback: 14,
        time: at(t),
    }
}

#[test]
fn cache_value_round_trips_including_empty_and_binary() {
    for (lin, state) in [
        ("abc", &b"hello"[..]),
        ("", &b""[..]),
        ("lineage-1", &[0u8, 1, 2, 255, 0, 7][..]),
    ] {
        let enc = encode_cache_value(lin, state);
        let (dl, ds) = decode_cache_value(&enc).unwrap();
        assert_eq!(dl, lin);
        assert_eq!(ds, state);
    }
    assert_eq!(encode_cache_value("ab", &[9]), vec![0, 0, 0, 2, b'a', b'b', 9]);
}

#[test]
fn decode_rejects_truncated_value() {
    assert!(decode_cache_value(&[0, 0]).is_none());
    assert!(decode_cache_value(&[0, 0, 0, 9, b'x']).is_none());
    assert!(decode_cache_value(&[0, 0, 0, 1, 0xff]).is_none());
}

#[test]
fn indicator_state_is_byte_identical_round_trip() {
    let id = inst("BTCUSDT");
    let mut table: Table<Vec<u8>> = Table::new();
    let k = state_key(&id, "rsi", 100);
    let computed: Vec<u8> = vec![0, 1, 2, 250, 0, 99, 255];
    table.insert(k.encode(), encode_cache_value("lineage-A", &computed));
    let read = |table: &Table<Vec<u8>>, k: &IndicatorKey, lineage: &str| {
        get_indicator_state(table.get(&k.encode()).map(Vec::as_slice), lineage)
    };
    assert_eq!(
        read(&table, &k, "lineage-A").as_deref(),
        Some(computed.as_slice())
    );
    let k2 = state_key(&id, "ema", 200);
    table.insert(k2.encode(), encode_cache_value("lineage-A", &[]));
    assert_eq!(read(&table, &k2, "lineage-A"), Some(vec![]));
}

#[test]
fn stale_source_is_detected_and_not_served() {
    let stored = encode_cache_value("lineage-A", &[1, 2, 3]);
    assert_eq!(
        get_indicator_state(Some(&stored), "lineage-A"),
        Some(vec![1, 2, 3])
    );
    assert_eq!(get_indicator_state(Some(&stored), "lineage-B"), None);
    assert_eq!(get_indicator_state(None, "lineage-A"), None);
}

#[test]
fn invalidate_stale_indicators_evicts_only_mismatched_entries() {
    let id = inst("BTCUSDT");
    let old = state_key(&id, "rsi", 100).encode();
    let fresh = state_key(&id, "rsi", 200).encode();
    let mut table: Table<Vec<u8>> = Table::new();
    table.insert(old.clone(), encode_cache_value("lineage-A", &[9]));
    table.insert(fresh.clone(), encode_cache_value("lineage-B", &[8]));
    let listing = |table: &Table<Vec<u8>>| under(table, &[]);

    let stale = stale_keys(&listing(&table), "lineage-B");
    assert_eq!(stale.len(), 1);
    for k in &stale {
        table.remove(k);
    }
    assert_eq!(
        get_indicator_state(table.get(&old).map(Vec::as_slice), "lineage-A"),
        None
    );
    assert_eq!(
        get_indicator_state(table.get(&fresh).map(Vec::as_slice), "lineage-B"),
        Some(vec![8])
    );
    assert_eq!(stale_keys(&listing(&table), "lineage-B").len(), 0);
    assert_eq!(stale_keys(&[(vec![1], vec![0, 0])], "x"), vec![vec![1]]);
}

#[test]
fn recon_bars_round_trip_scan_and_lineage_check() {
    let id = inst("BTCUSDT");
    let res = Resolution::H4;
    let bars = vec![bar(res, 100, 100), bar(res, 200, 110), bar(res, 300, 120)];
    let table: Table<(String, Bar)> = bar_keys(&id, &bars)
        .into_iter()
        .zip(&bars)
        .map(|(k, b)| (k, ("lineage-A".to_owned(), *b)))
        .collect();
    let stored = table
        .get(&bar_key(&id, res, at(200)))
        .map(|(lineage, bar)| (lineage.as_str(), *bar));
    assert_eq!(get_recon_bar(stored, "lineage-A"), Some(bars[1].clone()));
    assert_eq!(get_recon_bar(stored, "lineage-B"), None);
    assert_eq!(get_recon_bar(None, "lineage-A"), None);

    let in_range = |from: i64, to: i64| -> Vec<Bar> {
        scan(&table, &bar_prefix(&id, res), at(from), at(to))
            .into_iter()
            .map(|(_, b)| b)
            .collect()
    };
    assert_eq!(in_range(150, 300), vec![bars[1].clone()]);
    assert_eq!(in_range(0, 1_000), bars);
}
