//! Which bars a market store covers, read off the keys alone.

use vstd::prelude::*;

use crate::domain::{InstrumentId, Resolution, Timestamp, RESOLUTION_COUNT};
use crate::storage::key::{time_from_key, time_of};
use crate::storage::provenance::{
    resolution_at, Calibration, Provenance, ProvenanceSegment,
};
use crate::storage::table::{
    count_bars_in_range, count_between, coverage_bounds, law_count_between_counts_keys,
};

verus! {

/// The range and number of the bars of one instrument and resolution, for one run of bars with a
/// common origin.
#[derive(Debug, Clone, PartialEq, Eq)]
pub struct CoverageRow {
    /// The instrument's symbol.
    pub symbol: String,
    /// The resolution's short code.
    pub resolution: String,
    /// The earliest open time, in milliseconds.
    pub from: i64,
    /// The latest open time, in milliseconds.
    pub to: i64,
    /// The number of bars from the earliest to the latest open time.
    pub bars: usize,
    /// The origin of the bars.
    pub provenance: String,
    /// Whether the inputs were measured.
    pub calibrated: bool,
}

/// What a [`CoverageRow`] holds.
#[verifier::ext_equal]
pub struct CoverageModel {
    /// The instrument's symbol.
    pub symbol: Seq<char>,
    /// The resolution's short code.
    pub resolution: Seq<char>,
    /// The earliest open time, in milliseconds.
    pub from: int,
    /// The latest open time, in milliseconds.
    pub to: int,
    /// The number of bars from the earliest to the latest open time.
    pub bars: int,
    /// The origin of the bars.
    pub provenance: Seq<char>,
    /// Whether the inputs were measured.
    pub calibrated: bool,
}

impl View for CoverageRow {
    type V = CoverageModel;

    open spec fn view(&self) -> CoverageModel {
        CoverageModel {
            symbol: self.symbol@,
            resolution: self.resolution@,
            from: self.from as int,
            to: self.to as int,
            bars: self.bars as int,
            provenance: self.provenance@,
            calibrated: self.calibrated,
        }
    }
}

/// What some rows hold.
pub open spec fn coverage_models(rows: Seq<CoverageRow>) -> Seq<CoverageModel> {
    Seq::new(rows.len(), |i: int| rows[i]@)
}

/// What a store lists for one instrument and resolution: the keys of the bars and the segments, both
/// in ascending order of the keys.
#[derive(Debug)]
pub struct PairListing {
    /// The instrument.
    pub instrument: InstrumentId,
    /// The resolution.
    pub resolution: Resolution,
    /// The keys of the bars.
    pub bars: Vec<Vec<u8>>,
    /// The segments under their keys.
    pub segments: Vec<(Vec<u8>, ProvenanceSegment)>,
}

impl PairListing {
    /// Whether every key ends in a time.
    pub open spec fn well_formed(self) -> bool {
        &&& forall|i: int| 0 <= i < self.bars@.len() ==> (#[trigger] self.bars@[i])@.len() >= 8
        &&& forall|i: int|
            0 <= i < self.segments@.len() ==> (#[trigger] self.segments@[i]).0@.len() >= 8
    }

    /// The row of one segment.
    pub open spec fn segment_row(self, segment: (Vec<u8>, ProvenanceSegment)) -> CoverageModel {
        let from = time_of(segment.0@);
        let to = segment.1.end_ms as int;
        CoverageModel {
            symbol: self.instrument@,
            resolution: self.resolution.code(),
            from,
            to,
            bars: count_between(self.bars@, self.bars@.len(), from, to),
            provenance: segment.1.provenance.code(),
            calibrated: segment.1.calibration == Calibration::Calibrated,
        }
    }

    /// The rows: none without bars, a single untagged one without segments, and one per segment
    /// otherwise.
    pub open spec fn rows(self) -> Seq<CoverageModel> {
        if self.bars@.len() == 0 {
            Seq::empty()
        } else if self.segments@.len() == 0 {
            seq![
                CoverageModel {
                    symbol: self.instrument@,
                    resolution: self.resolution.code(),
                    from: time_of(self.bars@.first()@),
                    to: time_of(self.bars@.last()@),
                    bars: self.bars@.len() as int,
                    provenance: Provenance::Unknown.code(),
                    calibrated: false,
                },
            ]
        } else {
            Seq::new(self.segments@.len(), |i: int| self.segment_row(self.segments@[i]))
        }
    }
}

/// The rows of the first `n` listings, one after the other.
pub open spec fn rows_of(pairs: Seq<PairListing>, n: nat) -> Seq<CoverageModel>
    decreases n,
{
    if n == 0 {
        Seq::empty()
    } else {
        rows_of(pairs, (n - 1) as nat) + pairs[n - 1].rows()
    }
}

/// Bars of different origins are never blended into one row: with segments there is one row per
/// segment, each with that segment's origin.
pub proof fn law_origins_are_never_blended(pair: PairListing, i: int)
    requires
        pair.bars@.len() > 0,
        0 <= i < pair.segments@.len(),
    ensures
        pair.rows().len() == pair.segments@.len(),
        pair.rows()[i].provenance == pair.segments@[i].1.provenance.code(),
        pair.rows()[i].from == time_of(pair.segments@[i].0@),
        pair.rows()[i].to == pair.segments@[i].1.end_ms,
{
}

/// A row tells of its own pair: the symbol and the resolution, and of a segment its origin, its calibration
/// and the bars of the pair from its first open time to its last. Bars without a segment make one row, of
/// unknown origin and never calibrated, over all of them; without a bar there is no row.
pub proof fn law_rows_tell_of_their_pair(pair: PairListing, i: int)
    requires
        0 <= i < pair.rows().len(),
    ensures
        ({
            let row = pair.rows()[i];
            &&& pair.bars@.len() > 0
            &&& row.symbol == pair.instrument@
            &&& row.resolution == pair.resolution.code()
            &&& pair.segments@.len() > 0 ==> {
                let s = pair.segments@[i];
                &&& i < pair.segments@.len()
                &&& row.calibrated == (s.1.calibration == Calibration::Calibrated)
                &&& row.bars == Set::new(
                    |k: int|
                        0 <= k < pair.bars@.len() && time_of(s.0@) <= time_of(pair.bars@[k]@)
                            && time_of(pair.bars@[k]@) <= s.1.end_ms,
                ).len()
            }
            &&& pair.segments@.len() == 0 ==> {
                &&& i == 0
                &&& row.from == time_of(pair.bars@[0]@)
                &&& row.to == time_of(pair.bars@[pair.bars@.len() - 1]@)
                &&& row.bars == pair.bars@.len()
                &&& row.provenance == "unknown"@
                &&& !row.calibrated
            }
        }),
{
    if pair.segments@.len() > 0 {
        let s = pair.segments@[i];
        law_count_between_counts_keys(
            pair.bars@,
            pair.bars@.len(),
            time_of(s.0@),
            s.1.end_ms as int,
        );
        assert(Set::new(
            |k: int|
                0 <= k < pair.bars@.len() && time_of(s.0@) <= time_of(pair.bars@[k]@) && time_of(
                    pair.bars@[k]@,
                ) <= s.1.end_ms,
        ) =~= Set::new(
            |k: int|
                0 <= k < pair.bars@.len() && time_of(s.0@) <= time_of(pair.bars@[k]@) && time_of(
                    pair.bars@[k]@,
                ) <= s.1.end_ms as int,
        ));
    }
}

/// The rows of several pairs are those of each, pair after pair.
pub proof fn law_rows_are_listed_pair_by_pair(pairs: Seq<PairListing>, n: nat)
    requires
        n <= pairs.len(),
    ensures
        rows_of(pairs, n) == Seq::new(n, |i: int| pairs[i].rows()).flatten(),
    decreases n,
{
    let all = Seq::new(n, |i: int| pairs[i].rows());
    if n == 0 {
        assert(all =~= Seq::empty());
    } else {
        law_rows_are_listed_pair_by_pair(pairs, (n - 1) as nat);
        let before = Seq::new((n - 1) as nat, |i: int| pairs[i].rows());
        assert(all =~= before.push(pairs[n - 1].rows()));
        before.lemma_flatten_push(pairs[n - 1].rows());
    }
}

/// The segments of one instrument and resolution: first and last open time, origin and calibration.
pub fn provenance_segments(rows: &[(Vec<u8>, ProvenanceSegment)]) -> (r: Vec<
    (Timestamp, Timestamp, Provenance, Calibration),
>)
    requires
        forall|i: int| 0 <= i < rows.len() ==> (#[trigger] rows[i]).0@.len() >= 8,
    ensures
        r.len() == rows.len(),
        forall|i: int|
            0 <= i < rows.len() ==> {
                let s = #[trigger] r[i];
                &&& s.0.ms == time_of(rows[i].0@)
                &&& s.1.ms == rows[i].1.end_ms
                &&& s.2 == rows[i].1.provenance
                &&& s.3 == rows[i].1.calibration
            },
{
    let mut out: Vec<(Timestamp, Timestamp, Provenance, Calibration)> = Vec::new();
    let mut i: usize = 0;
    while i < rows.len()
        invariant
            i <= rows.len(),
            forall|j: int| 0 <= j < rows.len() ==> (#[trigger] rows[j]).0@.len() >= 8,
            out.len() == i,
            forall|j: int|
                0 <= j < i ==> {
                    let s = #[trigger] out[j];
                    &&& s.0.ms == time_of(rows[j].0@)
                    &&& s.1.ms == rows[j].1.end_ms
                    &&& s.2 == rows[j].1.provenance
                    &&& s.3 == rows[j].1.calibration
                },
        decreases rows.len() - i,
    {
        out.push(
            (
                time_from_key(rows[i].0.as_slice()),
                Timestamp::from_millis(rows[i].1.end_ms),
                rows[i].1.provenance,
                rows[i].1.calibration,
            ),
        );
        i = i + 1;
    }
    out
}

/// Appends the rows of one listing.
fn add_rows(rows: &mut Vec<CoverageRow>, pair: &PairListing)
    requires
        pair.well_formed(),
    ensures
        coverage_models(final(rows)@) == coverage_models(old(rows)@) + pair.rows(),
{
    let ghost before = coverage_models(rows@);
    match coverage_bounds(pair.bars.as_slice()) {
        None => {
            assert(coverage_models(rows@) =~= before + pair.rows());
        },
        Some((first, last, bars)) => {
            if pair.segments.len() == 0 {
                rows.push(
                    CoverageRow {
                        symbol: pair.instrument.as_str().to_owned(),
                        resolution: pair.resolution.as_str().to_owned(),
                        from: first.millis(),
                        to: last.millis(),
                        bars,
                        provenance: Provenance::Unknown.as_str().to_owned(),
                        calibrated: false,
                    },
                );
                assert(coverage_models(rows@) =~= before + pair.rows());
                return;
            }
            let segments: Vec<(Timestamp, Timestamp, Provenance, Calibration)> =
                provenance_segments(pair.segments.as_slice());
            let mut i: usize = 0;
            while i < segments.len()
                invariant
                    i <= segments.len() == pair.segments.len(),
                    pair.well_formed(),
                    pair.bars.len() > 0,
                    forall|j: int|
                        0 <= j < segments.len() ==> {
                            let s = #[trigger] segments[j];
                            &&& s.0.ms == time_of(pair.segments[j].0@)
                            &&& s.1.ms == pair.segments[j].1.end_ms
                            &&& s.2 == pair.segments[j].1.provenance
                            &&& s.3 == pair.segments[j].1.calibration
                        },
                    coverage_models(rows@) =~= before + pair.rows().take(i as int),
                decreases segments.len() - i,
            {
                let ghost here = coverage_models(rows@);
                let (from, to, provenance, calibration) = segments[i];
                let bars: usize = count_bars_in_range(pair.bars.as_slice(), from, to);
                rows.push(
                    CoverageRow {
                        symbol: pair.instrument.as_str().to_owned(),
                        resolution: pair.resolution.as_str().to_owned(),
                        from: from.millis(),
                        to: to.millis(),
                        bars,
                        provenance: provenance.as_str().to_owned(),
                        calibrated: calibration.is_calibrated(),
                    },
                );
                proof {
                    assert(coverage_models(rows@) =~= here.push(rows@.last()@));
                    assert(rows@.last()@ =~= pair.rows()[i as int]);
                }
                i = i + 1;
            }
            assert(coverage_models(rows@) =~= before + pair.rows());
        },
    }
}

/// The coverage of a store, given what it lists for every instrument and resolution in question.
pub fn coverage(pairs: &[PairListing]) -> (r: Vec<CoverageRow>)
    requires
        forall|i: int| 0 <= i < pairs.len() ==> (#[trigger] pairs[i]).well_formed(),
    ensures
        coverage_models(r@) == rows_of(pairs@, pairs@.len()),
{
    let mut rows: Vec<CoverageRow> = Vec::new();
    let mut i: usize = 0;
    assert(coverage_models(rows@) =~= Seq::empty());
    while i < pairs.len()
        invariant
            i <= pairs.len(),
            forall|j: int| 0 <= j < pairs.len() ==> (#[trigger] pairs[j]).well_formed(),
            coverage_models(rows@) == rows_of(pairs@, i as nat),
        decreases pairs.len() - i,
    {
        add_rows(&mut rows, &pairs[i]);
        i = i + 1;
    }
    rows
}

/// The pairs to ask a store for, in order: every instrument with every resolution, shortest first.
pub fn coverage_pairs(instruments: &[InstrumentId]) -> (r: Vec<(InstrumentId, Resolution)>)
    ensures
        r.len() == instruments.len() * RESOLUTION_COUNT,
        forall|i: int|
            0 <= i < r.len() ==> (#[trigger] r[i]).0@ == instruments[i / RESOLUTION_COUNT as int]@
                && r[i].1 == resolution_at(i % RESOLUTION_COUNT as int),
{
    let mut out: Vec<(InstrumentId, Resolution)> = Vec::new();
    let mut i: usize = 0;
    while i < instruments.len()
        invariant
            i <= instruments.len(),
            out.len() == 7 * i,
            forall|j: int|
                0 <= j < out.len() ==> (#[trigger] out[j]).0@ == instruments[j / 7]@ && out[j].1
                    == resolution_at(j % 7),
        decreases instruments.len() - i,
    {
        let mut k: u8 = 0;
        while k < RESOLUTION_COUNT
            invariant
                k <= RESOLUTION_COUNT,
                i < instruments.len(),
                out.len() == 7 * i + k,
                forall|j: int|
                    0 <= j < out.len() ==> (#[trigger] out[j]).0@ == instruments[j / 7]@
                        && out[j].1 == resolution_at(j % 7),
            decreases RESOLUTION_COUNT - k,
        {
            out.push((instruments[i].clone(), Resolution::at_position(k)));
            k = k + 1;
        }
        i = i + 1;
    }
    out
}

} // verus!
