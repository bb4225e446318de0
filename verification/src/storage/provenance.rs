//! Where bars come from, recorded per run beside the bars.

use vstd::prelude::*;

use crate::domain::{Bar, Resolution, Timestamp, RESOLUTION_COUNT};

verus! {

/// The origin of a run of bars.
#[derive(Debug, Clone, Copy, PartialEq, Eq, Structural)]
pub enum Provenance {
    /// Market data.
    Real,
    /// Generated data.
    Synthetic,
    /// Data that was never tagged.
    Unknown,
}

impl Default for Provenance {
    fn default() -> (r: Provenance)
        ensures
            r == Provenance::Unknown,
    {
        Provenance::Unknown
    }
}

impl Provenance {
    /// The identifier used on the wire.
    pub open spec fn code(self) -> Seq<char> {
        match self {
            Provenance::Real => "real"@,
            Provenance::Synthetic => "synthetic"@,
            Provenance::Unknown => "unknown"@,
        }
    }

    /// The identifier used on the wire.
    pub fn as_str(self) -> (r: &'static str)
        ensures
            r@ == self.code(),
    {
        match self {
            Provenance::Real => "real",
            Provenance::Synthetic => "synthetic",
            Provenance::Unknown => "unknown",
        }
    }
}

/// Whether slippage, impact and volume inputs were measured.
#[derive(Debug, Clone, Copy, PartialEq, Eq, Structural)]
pub enum Calibration {
    /// They were measured.
    Calibrated,
    /// They were left at their defaults.
    Uncalibrated,
}

impl Default for Calibration {
    fn default() -> (r: Calibration)
        ensures
            r == Calibration::Uncalibrated,
    {
        Calibration::Uncalibrated
    }
}

impl Calibration {
    /// Whether the inputs were measured.
    pub fn is_calibrated(self) -> (r: bool)
        ensures
            r == (self == Calibration::Calibrated),
    {
        match self {
            Calibration::Calibrated => true,
            Calibration::Uncalibrated => false,
        }
    }
}

/// One run of bars with a common origin. It is stored under the key of its first bar.
#[derive(Debug, Clone, Copy, PartialEq, Eq, Structural)]
pub struct ProvenanceSegment {
    /// The open time of the last bar, in milliseconds.
    pub end_ms: i64,
    /// The origin.
    pub provenance: Provenance,
    /// Whether the inputs were measured.
    pub calibration: Calibration,
}

/// What the origins of a set of bars come to.
#[derive(Debug, Clone, Copy, PartialEq, Eq, Structural)]
pub enum ProvenanceSummary {
    /// There are no bars.
    Empty,
    /// Every bar is market data.
    Real,
    /// Every bar is generated.
    Synthetic,
    /// Bars of different origins.
    Mixed,
    /// No bar was ever tagged.
    Unknown,
}

/// The summary of some origins: that of all of them if they agree, and a mix if any two differ.
pub open spec fn summary_of(items: Seq<Provenance>) -> ProvenanceSummary {
    if items.len() == 0 {
        ProvenanceSummary::Empty
    } else if exists|i: int, j: int|
        0 <= i < items.len() && 0 <= j < items.len() && #[trigger] items[i] != #[trigger] items[j] {
        ProvenanceSummary::Mixed
    } else {
        match items[0] {
            Provenance::Real => ProvenanceSummary::Real,
            Provenance::Synthetic => ProvenanceSummary::Synthetic,
            Provenance::Unknown => ProvenanceSummary::Unknown,
        }
    }
}

/// A store is summarised as market data only if every origin is market data.
pub proof fn law_real_only_if_all_real(items: Seq<Provenance>)
    ensures
        summary_of(items) == ProvenanceSummary::Real <==> items.len() > 0 && forall|i: int|
            0 <= i < items.len() ==> #[trigger] items[i] == Provenance::Real,
{
    if summary_of(items) == ProvenanceSummary::Real {
        assert forall|i: int| 0 <= i < items.len() implies #[trigger] items[i]
            == Provenance::Real by {
            assert(items[0] == Provenance::Real);
        }
    }
}

/// A summary names an origin exactly if there are bars and all of them have it; two that differ make a mix.
pub proof fn law_summary_names_the_common_origin(items: Seq<Provenance>)
    ensures
        summary_of(items) == ProvenanceSummary::Empty <==> items.len() == 0,
        summary_of(items) == ProvenanceSummary::Synthetic <==> items.len() > 0 && forall|i: int|
            0 <= i < items.len() ==> #[trigger] items[i] == Provenance::Synthetic,
        summary_of(items) == ProvenanceSummary::Unknown <==> items.len() > 0 && forall|i: int|
            0 <= i < items.len() ==> #[trigger] items[i] == Provenance::Unknown,
        forall|i: int, j: int|
            0 <= i < items.len() && 0 <= j < items.len() && #[trigger] items[i]
                != #[trigger] items[j] ==> summary_of(items) == ProvenanceSummary::Mixed,
{
    if items.len() > 0 {
        let first = items[0];
        assert(forall|i: int|
            0 <= i < items.len() && summary_of(items) != ProvenanceSummary::Mixed
                ==> #[trigger] items[i] == first);
    }
}

/// The order of the origins does not matter for the summary.
pub proof fn law_summary_ignores_order(a: Seq<Provenance>, b: Seq<Provenance>)
    requires
        forall|p: Provenance| #[trigger] a.contains(p) <==> b.contains(p),
    ensures
        summary_of(a) == summary_of(b),
{
    if a.len() > 0 {
        assert(a.contains(a[0]));
        assert(b.contains(a[0]));
    }
    if b.len() > 0 {
        assert(b.contains(b[0]));
        assert(a.contains(b[0]));
    }
    if exists|i: int, j: int|
        0 <= i < a.len() && 0 <= j < a.len() && #[trigger] a[i] != #[trigger] a[j] {
        let (i, j) = choose|i: int, j: int|
            0 <= i < a.len() && 0 <= j < a.len() && #[trigger] a[i] != #[trigger] a[j];
        assert(a.contains(a[i]) && a.contains(a[j]));
        assert(b.contains(a[i]) && b.contains(a[j]));
        let k = choose|k: int| 0 <= k < b.len() && b[k] == a[i];
        let l = choose|l: int| 0 <= l < b.len() && b[l] == a[j];
        assert(b[k] != b[l]);
    }
    if exists|i: int, j: int|
        0 <= i < b.len() && 0 <= j < b.len() && #[trigger] b[i] != #[trigger] b[j] {
        let (i, j) = choose|i: int, j: int|
            0 <= i < b.len() && 0 <= j < b.len() && #[trigger] b[i] != #[trigger] b[j];
        assert(b.contains(b[i]) && b.contains(b[j]));
        assert(a.contains(b[i]) && a.contains(b[j]));
        let k = choose|k: int| 0 <= k < a.len() && a[k] == b[i];
        let l = choose|l: int| 0 <= l < a.len() && a[l] == b[j];
        assert(a[k] != a[l]);
    }
}

impl ProvenanceSummary {
    /// Summarises some origins.
    pub fn from_provenances(items: &[Provenance]) -> (r: ProvenanceSummary)
        ensures
            r == summary_of(items@),
    {
        if items.len() == 0 {
            return ProvenanceSummary::Empty;
        }
        let first: Provenance = items[0];
        let mut i: usize = 1;
        while i < items.len()
            invariant
                1 <= i <= items.len(),
                first == items[0],
                forall|j: int| 0 <= j < i ==> #[trigger] items[j] == first,
            decreases items.len() - i,
        {
            if items[i] != first {
                assert(items@[i as int] != items@[0]);
                return ProvenanceSummary::Mixed;
            }
            i = i + 1;
        }
        match first {
            Provenance::Real => ProvenanceSummary::Real,
            Provenance::Synthetic => ProvenanceSummary::Synthetic,
            Provenance::Unknown => ProvenanceSummary::Unknown,
        }
    }
}

// ---- the segments of a batch ---------------------------------------------------------------------

/// The earliest and the latest open time of the bars of a resolution.
pub open spec fn span_of(bars: Seq<Bar>, resolution: Resolution) -> Option<(i64, i64)>
    decreases bars.len(),
{
    if bars.len() == 0 {
        None
    } else {
        let before = span_of(bars.drop_last(), resolution);
        let bar = bars.last()@;
        if bar.resolution != resolution {
            before
        } else {
            match before {
                None => Some((bar.open_time, bar.open_time)),
                Some((first, last)) => Some(
                    (
                        if bar.open_time < first {
                            bar.open_time
                        } else {
                            first
                        },
                        if bar.open_time > last {
                            bar.open_time
                        } else {
                            last
                        },
                    ),
                ),
            }
        }
    }
}

/// The span of a resolution covers all of its bars, and starts and ends with one.
pub proof fn law_span_covers_its_bars(bars: Seq<Bar>, resolution: Resolution)
    ensures
        match span_of(bars, resolution) {
            None => forall|i: int| 0 <= i < bars.len() ==> (#[trigger] bars[i])@.resolution != resolution,
            Some((first, last)) => {
                &&& forall|i: int|
                    0 <= i < bars.len() && (#[trigger] bars[i])@.resolution == resolution ==> first
                        <= bars[i]@.open_time <= last
                &&& exists|i: int|
                    0 <= i < bars.len() && (#[trigger] bars[i])@.resolution == resolution
                        && bars[i]@.open_time == first
                &&& exists|i: int|
                    0 <= i < bars.len() && (#[trigger] bars[i])@.resolution == resolution
                        && bars[i]@.open_time == last
            },
        },
    decreases bars.len(),
{
    if bars.len() > 0 {
        let rest = bars.drop_last();
        law_span_covers_its_bars(rest, resolution);
        let n = bars.len() - 1;
        assert(bars[n] == bars.last());
        assert forall|i: int| 0 <= i < n implies #[trigger] bars[i] == rest[i] by {}
        if let Some((first, last)) = span_of(rest, resolution) {
            let a = choose|i: int|
                0 <= i < rest.len() && (#[trigger] rest[i])@.resolution == resolution
                    && rest[i]@.open_time == first;
            let b = choose|i: int|
                0 <= i < rest.len() && (#[trigger] rest[i])@.resolution == resolution
                    && rest[i]@.open_time == last;
            assert(bars[a] == rest[a] && bars[b] == rest[b]);
        }
    }
}

/// A segment and where it is stored.
#[derive(Debug, Clone, Copy, PartialEq, Eq, Structural)]
pub struct SegmentWrite {
    /// The resolution of the segment's bars.
    pub resolution: Resolution,
    /// The open time of the first bar.
    pub start: Timestamp,
    /// The segment.
    pub segment: ProvenanceSegment,
}

/// The segments of the first `k` resolutions, shortest first: one for each resolution with a bar.
pub open spec fn segments_of(
    bars: Seq<Bar>,
    provenance: Provenance,
    calibration: Calibration,
    k: nat,
) -> Seq<SegmentWrite>
    decreases k,
{
    if k == 0 {
        Seq::empty()
    } else {
        let before = segments_of(bars, provenance, calibration, (k - 1) as nat);
        let resolution = resolution_at(k - 1);
        match span_of(bars, resolution) {
            None => before,
            Some((first, last)) => before.push(
                SegmentWrite {
                    resolution,
                    start: Timestamp { ms: first },
                    segment: ProvenanceSegment { end_ms: last, provenance, calibration },
                },
            ),
        }
    }
}

/// A batch makes one segment for every resolution that it has a bar of, shortest first: from the earliest
/// open time to the latest, with the origin and the calibration of the batch.
pub proof fn law_segments_cover_the_batch(
    bars: Seq<Bar>,
    provenance: Provenance,
    calibration: Calibration,
    k: nat,
)
    requires
        k <= 7,
    ensures
        ({
            let all = segments_of(bars, provenance, calibration, k);
            &&& forall|i: int|
                0 <= i < all.len() ==> {
                    let s = #[trigger] all[i];
                    &&& s.segment.provenance == provenance
                    &&& s.segment.calibration == calibration
                    &&& s.resolution.position() < k
                    &&& span_of(bars, s.resolution) == Some((s.start.ms, s.segment.end_ms))
                }
            &&& forall|i: int, j: int|
                0 <= i < j < all.len() ==> (#[trigger] all[i]).resolution.length() < (
                #[trigger] all[j]).resolution.length()
            &&& forall|b: int|
                0 <= b < bars.len() && (#[trigger] bars[b])@.resolution.position() < k ==> exists|
                    i: int,
                |
                    0 <= i < all.len() && (#[trigger] all[i]).resolution == bars[b]@.resolution
        }),
    decreases k,
{
    if k > 0 {
        let m = (k - 1) as nat;
        law_segments_cover_the_batch(bars, provenance, calibration, m);
        let before = segments_of(bars, provenance, calibration, m);
        let all = segments_of(bars, provenance, calibration, k);
        let here = resolution_at(m as int);
        assert(here.position() == m);
        law_span_covers_its_bars(bars, here);
        assert forall|i: int| 0 <= i < all.len() implies {
            let s = #[trigger] all[i];
            &&& s.segment.provenance == provenance
            &&& s.segment.calibration == calibration
            &&& s.resolution.position() < k
            &&& span_of(bars, s.resolution) == Some((s.start.ms, s.segment.end_ms))
        } by {
            if i < before.len() {
                assert(all[i] == before[i]);
            }
        }
        assert forall|i: int, j: int| 0 <= i < j < all.len() implies (
        #[trigger] all[i]).resolution.length() < (#[trigger] all[j]).resolution.length() by {
            assert(all[i] == before[i]);
            if j < before.len() {
                assert(all[j] == before[j]);
            }
        }
        assert forall|b: int|
            0 <= b < bars.len() && (#[trigger] bars[b])@.resolution.position() < k implies exists|
            i: int,
        |
            0 <= i < all.len() && (#[trigger] all[i]).resolution == bars[b]@.resolution by {
            if bars[b]@.resolution.position() == m {
                assert(bars[b]@.resolution == here);
                assert(all[before.len() as int].resolution == here);
            } else {
                let i = choose|i: int|
                    0 <= i < before.len() && (#[trigger] before[i]).resolution
                        == bars[b]@.resolution;
                assert(all[i] == before[i]);
            }
        }
    }
}

/// The resolution at a position, shortest first.
pub open spec fn resolution_at(position: int) -> Resolution {
    if position == 0 {
        Resolution::M5
    } else if position == 1 {
        Resolution::M15
    } else if position == 2 {
        Resolution::M30
    } else if position == 3 {
        Resolution::H1
    } else if position == 4 {
        Resolution::H4
    } else if position == 5 {
        Resolution::H12
    } else {
        Resolution::D1
    }
}

/// The segments to record for a batch of bars: one for each resolution that occurs in it, from the
/// earliest to the latest open time.
pub fn batch_segments(bars: &[Bar], provenance: Provenance, calibration: Calibration) -> (r: Vec<
    SegmentWrite,
>)
    ensures
        r@ == segments_of(bars@, provenance, calibration, RESOLUTION_COUNT as nat),
{
    let mut out: Vec<SegmentWrite> = Vec::new();
    let mut k: u8 = 0;
    while k < RESOLUTION_COUNT
        invariant
            k <= RESOLUTION_COUNT,
            out@ == segments_of(bars@, provenance, calibration, k as nat),
        decreases RESOLUTION_COUNT - k,
    {
        let resolution: Resolution = Resolution::at_position(k);
        assert(resolution == resolution_at(k as int));
        let mut span: Option<(i64, i64)> = None;
        let mut i: usize = 0;
        while i < bars.len()
            invariant
                i <= bars.len(),
                span == span_of(bars@.take(i as int), resolution),
            decreases bars.len() - i,
        {
            assert(bars@.take(i + 1).drop_last() =~= bars@.take(i as int));
            if bars[i].resolution() == resolution {
                let t: i64 = bars[i].open_time().millis();
                span =
                match span {
                    None => Some((t, t)),
                    Some((first, last)) => Some(
                        (
                            if t < first {
                                t
                            } else {
                                first
                            },
                            if t > last {
                                t
                            } else {
                                last
                            },
                        ),
                    ),
                };
            }
            i = i + 1;
        }
        assert(bars@.take(i as int) =~= bars@);
        if let Some((first, last)) = span {
            out.push(
                SegmentWrite {
                    resolution,
                    start: Timestamp::from_millis(first),
                    segment: ProvenanceSegment { end_ms: last, provenance, calibration },
                },
            );
        }
        k = k + 1;
    }
    out
}

/// What one instrument contributes to a summary: the origins of its segments; if it has none, that it
/// was never tagged, as long as it has bars.
pub open spec fn contribution_of(segments: Seq<Provenance>, has_bars: bool) -> Seq<Provenance> {
    if segments.len() > 0 {
        segments
    } else if has_bars {
        seq![Provenance::Unknown]
    } else {
        Seq::empty()
    }
}

/// What the first `n` instruments contribute.
pub open spec fn contributions(
    instruments: Seq<(Vec<Provenance>, bool)>,
    n: nat,
) -> Seq<Provenance>
    decreases n,
{
    if n == 0 {
        Seq::empty()
    } else {
        contributions(instruments, (n - 1) as nat) + contribution_of(
            instruments[n - 1].0@,
            instruments[n - 1].1,
        )
    }
}

/// An instrument contributes the origins of its segments, or that it was never tagged where it has bars and
/// no segment; instrument after instrument.
pub proof fn law_contributions_are_of_each_instrument(
    instruments: Seq<(Vec<Provenance>, bool)>,
    n: nat,
)
    requires
        n <= instruments.len(),
    ensures
        contributions(instruments, n) == Seq::new(
            n,
            |i: int|
                if instruments[i].0@.len() == 0 && instruments[i].1 {
                    seq![Provenance::Unknown]
                } else {
                    instruments[i].0@
                },
        ).flatten(),
    decreases n,
{
    let f = |i: int|
        if instruments[i].0@.len() == 0 && instruments[i].1 {
            seq![Provenance::Unknown]
        } else {
            instruments[i].0@
        };
    let all = Seq::new(n, f);
    if n == 0 {
        assert(all =~= Seq::empty());
    } else {
        law_contributions_are_of_each_instrument(instruments, (n - 1) as nat);
        let before = Seq::new((n - 1) as nat, f);
        assert(all =~= before.push(f(n - 1)));
        before.lemma_flatten_push(f(n - 1));
        assert(contribution_of(instruments[n - 1].0@, instruments[n - 1].1) =~= f(n - 1));
    }
}

/// Summarises the origins of several instruments' bars. Each instrument is given by the origins of its
/// segments and whether it has any bar.
pub fn store_provenance_summary(instruments: &[(Vec<Provenance>, bool)]) -> (r: ProvenanceSummary)
    ensures
        r == summary_of(contributions(instruments@, instruments@.len())),
{
    let mut all: Vec<Provenance> = Vec::new();
    let mut i: usize = 0;
    while i < instruments.len()
        invariant
            i <= instruments.len(),
            all@ == contributions(instruments@, i as nat),
        decreases instruments.len() - i,
    {
        let ghost before = all@;
        let segments: &Vec<Provenance> = &instruments[i].0;
        if segments.len() == 0 {
            if instruments[i].1 {
                all.push(Provenance::Unknown);
            }
            assert(all@ =~= before + contribution_of(segments@, instruments@[i as int].1));
        } else {
            let mut j: usize = 0;
            while j < segments.len()
                invariant
                    j <= segments.len(),
                    all@ =~= before + segments@.take(j as int),
                decreases segments.len() - j,
            {
                all.push(segments[j]);
                j = j + 1;
            }
            assert(all@ =~= before + segments@);
        }
        i = i + 1;
    }
    ProvenanceSummary::from_provenances(all.as_slice())
}

/// Untagged bars keep a store from being summarised as market data.
pub proof fn law_untagged_bars_are_never_real(instruments: Seq<(Vec<Provenance>, bool)>, i: int)
    requires
        0 <= i < instruments.len(),
        instruments[i].0@.len() == 0,
        instruments[i].1,
    ensures
        summary_of(contributions(instruments, instruments.len())) != ProvenanceSummary::Real,
        summary_of(contributions(instruments, instruments.len())) != ProvenanceSummary::Synthetic,
{
    lemma_unknown_contributed(instruments, i, instruments.len());
    let all = contributions(instruments, instruments.len());
    law_real_only_if_all_real(all);
    let k = choose|k: int| 0 <= k < all.len() && all[k] == Provenance::Unknown;
    assert(all[k] == Provenance::Unknown);
    if summary_of(all) == ProvenanceSummary::Synthetic {
        assert(all[0] == all[k]);
    }
}

proof fn lemma_unknown_contributed(instruments: Seq<(Vec<Provenance>, bool)>, i: int, n: nat)
    requires
        0 <= i < n <= instruments.len(),
        instruments[i].0@.len() == 0,
        instruments[i].1,
    ensures
        contributions(instruments, n).contains(Provenance::Unknown),
    decreases n,
{
    let before = contributions(instruments, (n - 1) as nat);
    let here = contribution_of(instruments[n - 1].0@, instruments[n - 1].1);
    if i == n - 1 {
        assert((before + here)[before.len() as int] == Provenance::Unknown);
    } else {
        lemma_unknown_contributed(instruments, i, (n - 1) as nat);
        let k = choose|k: int| 0 <= k < before.len() && before[k] == Provenance::Unknown;
        assert((before + here)[k] == Provenance::Unknown);
    }
}

} // verus!
