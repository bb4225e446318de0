//! Rolling base bars up to a coarser resolution.
//!
//! Windows are aligned to the epoch. One incremental fold ([`step`]) drives both the streaming
//! [`BarReconstructor`] and [`reconstruct_batch`], so the two cannot differ.

use vstd::prelude::*;

use crate::decimal::{
    add_results, dec_lt, decimal_sum, law_order_is_total, law_order_is_transitive, plus, Dec,
};
use crate::domain::{
    lemma_bar_valid, within, Bar, BarData, DomainError, Price, Qty, Resolution, Timestamp,
    MINUTE_MS,
};

verus! {

/// Why bars could not be rolled up.
#[derive(Debug, Clone, Copy, PartialEq, Eq)]
pub enum ReconError {
    /// The target is not coarser than the base.
    TargetNotCoarser {
        /// The base resolution.
        base: Resolution,
        /// The requested target.
        target: Resolution,
    },
    /// The target is not a multiple of the base, so that boundaries would not align.
    TargetNotMultiple {
        /// The base resolution.
        base: Resolution,
        /// The requested target.
        target: Resolution,
    },
    /// An input bar does not have the base resolution.
    UnexpectedResolution {
        /// The base resolution.
        expected: Resolution,
        /// The bar's resolution.
        found: Resolution,
    },
    /// A rolled-up bar is not a valid bar.
    InvalidBar(DomainError),
    /// A window's start, its volume or its number of trades leaves the representable range.
    OutOfRange,
}

/// The length of a resolution in milliseconds.
pub open spec fn length_ms(r: Resolution) -> int {
    r.length() * MINUTE_MS
}

/// The start of the window of length `len` that an instant falls into.
pub open spec fn window_start(t: int, len: int) -> int {
    t / len * len
}

/// A window that holds one bar.
pub open spec fn opened(bar: BarData, start: int, target: Resolution) -> BarData {
    BarData { open_time: start as i64, resolution: target, ..bar }
}

/// A window with one more bar: the first open, the highest high, the lowest low, the last close, and
/// the sums of volumes and trades; none if a sum is out of range.
pub open spec fn with_bar(w: BarData, bar: BarData) -> Option<BarData> {
    match plus(Some(w.volume), Some(bar.volume)) {
        Some(volume) if w.trades + bar.trades <= u64::MAX => Some(
            BarData {
                high: if dec_lt(w.high, bar.high) {
                    bar.high
                } else {
                    w.high
                },
                low: if dec_lt(bar.low, w.low) {
                    bar.low
                } else {
                    w.low
                },
                close: bar.close,
                volume,
                trades: (w.trades + bar.trades) as u64,
                ..w
            },
        ),
        _ => None,
    }
}

/// One step: the open window after one more bar, and the window that the bar completed, if any.
pub open spec fn step(
    current: Option<BarData>,
    base: Resolution,
    target: Resolution,
    bar: BarData,
) -> (Option<BarData>, Result<Option<BarData>, ReconError>) {
    let start = window_start(bar.open_time as int, length_ms(target));
    if bar.resolution != base {
        (
            current,
            Err(ReconError::UnexpectedResolution { expected: base, found: bar.resolution }),
        )
    } else if start < i64::MIN {
        (current, Err(ReconError::OutOfRange))
    } else {
        match current {
            Some(w) if w.open_time == start => match with_bar(w, bar) {
                Some(next) => (Some(next), Ok(None)),
                None => (current, Err(ReconError::OutOfRange)),
            },
            _ => (Some(opened(bar, start, target)), Ok(current)),
        }
    }
}

/// What bars hold.
pub open spec fn contents(bars: Seq<Bar>) -> Seq<BarData> {
    Seq::new(bars.len(), |i: int| bars[i]@)
}

/// What an optional bar holds.
pub open spec fn content(bar: Option<Bar>) -> Option<BarData> {
    match bar {
        Some(b) => Some(b@),
        None => None,
    }
}

/// What the result of a step holds.
pub open spec fn step_result(r: Result<Option<Bar>, ReconError>) -> Result<
    Option<BarData>,
    ReconError,
> {
    match r {
        Ok(b) => Ok(content(b)),
        Err(e) => Err(e),
    }
}

/// A sequence with one more element, if there is one.
pub open spec fn with_completed(out: Seq<BarData>, done: Option<BarData>) -> Seq<BarData> {
    match done {
        Some(b) => out.push(b),
        None => out,
    }
}

/// A series of bars, one after the other: the windows completed and the window still open, or the
/// first error.
pub open spec fn run(bars: Seq<BarData>, base: Resolution, target: Resolution) -> Result<
    (Seq<BarData>, Option<BarData>),
    ReconError,
>
    decreases bars.len(),
{
    if bars.len() == 0 {
        Ok((Seq::empty(), None))
    } else {
        match run(bars.drop_last(), base, target) {
            Ok((out, current)) => {
                let (next, done) = step(current, base, target, bars.last());
                match done {
                    Ok(b) => Ok((with_completed(out, b), next)),
                    Err(e) => Err(e),
                }
            },
            Err(e) => Err(e),
        }
    }
}

/// Why `base` cannot be rolled up to `target`, if so.
pub open spec fn target_error(base: Resolution, target: Resolution) -> Option<ReconError> {
    if target.length() <= base.length() {
        Some(ReconError::TargetNotCoarser { base, target })
    } else if target.length() % base.length() != 0 {
        Some(ReconError::TargetNotMultiple { base, target })
    } else {
        None
    }
}

/// The roll-up of a series of bars: every window completed, and the last one.
pub open spec fn rolled_up(bars: Seq<BarData>, base: Resolution, target: Resolution) -> Result<
    Seq<BarData>,
    ReconError,
> {
    match target_error(base, target) {
        Some(e) => Err(e),
        None => match run(bars, base, target) {
            Ok((out, current)) => Ok(with_completed(out, current)),
            Err(e) => Err(e),
        },
    }
}

/// The roll-ups to several resolutions, one after the other, or the first error.
pub open spec fn rolled_up_tiers(
    bars: Seq<BarData>,
    base: Resolution,
    tiers: Seq<Resolution>,
) -> Result<Seq<BarData>, ReconError>
    decreases tiers.len(),
{
    if tiers.len() == 0 {
        Ok(Seq::empty())
    } else {
        match rolled_up_tiers(bars, base, tiers.drop_last()) {
            Ok(before) => match rolled_up(bars, base, tiers.last()) {
                Ok(last) => Ok(before + last),
                Err(e) => Err(e),
            },
            Err(e) => Err(e),
        }
    }
}

// ---- laws ----------------------------------------------------------------------------------------

/// A coarser resolution is always a multiple of a finer one.
pub proof fn law_coarser_is_a_multiple(base: Resolution, target: Resolution)
    ensures
        !(target_error(base, target) matches Some(ReconError::TargetNotMultiple { .. })),
        target_error(base, target) is None <==> target.length() > base.length(),
{
}

/// The sum of the trades.
pub open spec fn total_trades(bars: Seq<BarData>) -> int
    decreases bars.len(),
{
    if bars.len() == 0 {
        0
    } else {
        total_trades(bars.drop_last()) + bars.last().trades
    }
}

/// The trades of an optional window.
pub open spec fn open_trades(current: Option<BarData>) -> int {
    match current {
        Some(w) => w.trades as int,
        None => 0,
    }
}

proof fn lemma_trades_kept(bars: Seq<BarData>, base: Resolution, target: Resolution)
    ensures
        run(bars, base, target) matches Ok((out, current)) ==> total_trades(out) + open_trades(
            current,
        ) == total_trades(bars),
    decreases bars.len(),
{
    if bars.len() > 0 {
        lemma_trades_kept(bars.drop_last(), base, target);
        if let Ok((out, current)) = run(bars.drop_last(), base, target) {
            if let Some(w) = current {
                assert(out.push(w).drop_last() =~= out);
            }
        }
    }
}

/// No trade is lost or counted twice: the rolled-up bars have as many trades as the base bars.
pub proof fn law_trades_are_conserved(bars: Seq<BarData>, base: Resolution, target: Resolution)
    ensures
        rolled_up(bars, base, target) matches Ok(out) ==> total_trades(out) == total_trades(bars),
{
    lemma_trades_kept(bars, base, target);
    if let Ok((out, current)) = run(bars, base, target) {
        if let Some(w) = current {
            assert(out.push(w).drop_last() =~= out);
        }
    }
}

/// Whether a bar is one of the target resolution that starts on a window boundary.
pub open spec fn is_aligned(bar: BarData, target: Resolution) -> bool {
    bar.resolution == target && bar.open_time as int % length_ms(target) == 0
}

/// A window's start lies on a boundary, and the instant in the window.
pub proof fn law_window_start(t: int, len: int)
    requires
        len > 0,
    ensures
        window_start(t, len) % len == 0,
        window_start(t, len) <= t < window_start(t, len) + len,
{
    assert((t / len * len) % len == 0) by (nonlinear_arith)
        requires
            len > 0,
    ;
    assert(t / len * len <= t < t / len * len + len) by (nonlinear_arith)
        requires
            len > 0,
    ;
}

proof fn lemma_run_aligned(bars: Seq<BarData>, base: Resolution, target: Resolution)
    ensures
        run(bars, base, target) matches Ok((out, current)) ==> (forall|i: int|
            0 <= i < out.len() ==> is_aligned(#[trigger] out[i], target)) && (current matches Some(
            w,
        ) ==> is_aligned(w, target)),
    decreases bars.len(),
{
    if bars.len() > 0 {
        lemma_run_aligned(bars.drop_last(), base, target);
        law_window_start(bars.last().open_time as int, length_ms(target));
    }
}

/// Every rolled-up bar has the target resolution and starts on a window boundary of the epoch.
pub proof fn law_windows_align_to_the_epoch(
    bars: Seq<BarData>,
    base: Resolution,
    target: Resolution,
)
    ensures
        rolled_up(bars, base, target) matches Ok(out) ==> forall|i: int|
            0 <= i < out.len() ==> is_aligned(#[trigger] out[i], target),
{
    lemma_run_aligned(bars, base, target);
}

/// Whether the bars are in ascending order of their open times.
pub open spec fn ascending(bars: Seq<BarData>) -> bool {
    forall|i: int, j: int|
        0 <= i <= j < bars.len() ==> (#[trigger] bars[i]).open_time <= (#[trigger] bars[j]).open_time
}

/// Whether the bars are in strictly ascending order of their open times.
pub open spec fn strictly_ascending(bars: Seq<BarData>) -> bool {
    forall|i: int, j: int|
        0 <= i < j < bars.len() ==> (#[trigger] bars[i]).open_time < (#[trigger] bars[j]).open_time
}

/// Windows start in the order of the instants that fall into them.
proof fn lemma_window_start_ascends(early: int, late: int, len: int)
    requires
        early <= late,
        len > 0,
    ensures
        window_start(early, len) <= window_start(late, len),
{
    assert(early / len * len <= late / len * len) by (nonlinear_arith)
        requires
            early <= late,
            len > 0,
    ;
}

proof fn lemma_run_ascends(bars: Seq<BarData>, base: Resolution, target: Resolution)
    requires
        ascending(bars),
    ensures
        run(bars, base, target) matches Ok((out, current)) ==> {
            &&& strictly_ascending(with_completed(out, current))
            &&& bars.len() == 0 ==> current is None && out.len() == 0
            &&& bars.len() > 0 ==> current is Some && current->0.open_time == window_start(
                bars.last().open_time as int,
                length_ms(target),
            )
        },
    decreases bars.len(),
{
    if bars.len() > 0 {
        let rest = bars.drop_last();
        assert forall|i: int, j: int| 0 <= i <= j < rest.len() implies (
        #[trigger] rest[i]).open_time <= (#[trigger] rest[j]).open_time by {
            assert(rest[i] == bars[i] && rest[j] == bars[j]);
        }
        lemma_run_ascends(rest, base, target);
        if let Ok((out, current)) = run(rest, base, target) {
            let len = length_ms(target);
            let start = window_start(bars.last().open_time as int, len);
            law_window_start(bars.last().open_time as int, len);
            if rest.len() > 0 && start >= i64::MIN {
                let prev = rest.last().open_time as int;
                assert(rest.last() == bars[bars.len() - 2]);
                assert(prev <= bars.last().open_time);
                let t = bars.last().open_time as int;
                lemma_window_start_ascends(prev, t, len);
                let w = current->0;
                let closed = out.push(w);
                if w.open_time != start {
                    let all = closed.push(opened(bars.last(), start, target));
                    assert forall|i: int, j: int| 0 <= i < j < all.len() implies (
                    #[trigger] all[i]).open_time < (#[trigger] all[j]).open_time by {
                        assert(closed[closed.len() - 1] == w);
                        if j < closed.len() {
                            assert(closed[i].open_time < closed[j].open_time);
                        } else if i < closed.len() - 1 {
                            assert(closed[i].open_time < closed[closed.len() - 1].open_time);
                        }
                    }
                } else if let Some(next) = with_bar(w, bars.last()) {
                    let all = out.push(next);
                    assert forall|i: int, j: int| 0 <= i < j < all.len() implies (
                    #[trigger] all[i]).open_time < (#[trigger] all[j]).open_time by {
                        assert(closed[i].open_time < closed[j].open_time);
                    }
                }
            }
        }
    }
}

/// Bars in ascending order roll up to bars in strictly ascending order: one bar per window.
pub proof fn law_one_bar_per_window(bars: Seq<BarData>, base: Resolution, target: Resolution)
    requires
        ascending(bars),
    ensures
        rolled_up(bars, base, target) matches Ok(out) ==> strictly_ascending(out),
{
    lemma_run_ascends(bars, base, target);
}

/// A window filled with bars one after the other.
pub open spec fn filled(bars: Seq<BarData>, start: int, target: Resolution) -> Option<BarData>
    decreases bars.len(),
{
    if bars.len() <= 1 {
        Some(opened(bars.last(), start, target))
    } else {
        match filled(bars.drop_last(), start, target) {
            Some(w) => with_bar(w, bars.last()),
            None => None,
        }
    }
}

/// A rolled-up bar has the first bar's open, the last bar's close, a high that is no lower than any
/// bar's and is one of theirs, and a low that is no higher than any bar's and is one of theirs.
pub proof fn law_window_aggregates_its_bars(bars: Seq<BarData>, start: int, target: Resolution)
    requires
        bars.len() > 0,
        forall|i: int|
            0 <= i < bars.len() ==> (#[trigger] bars[i]).high.wf() && bars[i].low.wf(),
    ensures
        filled(bars, start, target) matches Some(w) ==> {
            &&& w.open == bars.first().open
            &&& w.close == bars.last().close
            &&& w.trades == total_trades(bars)
            &&& forall|i: int|
                0 <= i < bars.len() ==> !dec_lt(w.high, (#[trigger] bars[i]).high) && !dec_lt(
                    bars[i].low,
                    w.low,
                )
            &&& exists|i: int| 0 <= i < bars.len() && w.high == (#[trigger] bars[i]).high
            &&& exists|i: int| 0 <= i < bars.len() && w.low == (#[trigger] bars[i]).low
        },
    decreases bars.len(),
{
    let last = bars.last();
    assert(last == bars[bars.len() - 1]);
    if bars.len() == 1 {
        assert(bars[0] == last);
        assert(total_trades(bars.drop_last()) == 0);
        law_order_is_total(last.high, last.high);
        law_order_is_total(last.low, last.low);
    } else {
        let rest = bars.drop_last();
        assert forall|i: int| 0 <= i < rest.len() implies (#[trigger] rest[i]).high.wf()
            && rest[i].low.wf() by {
            assert(rest[i] == bars[i]);
        }
        law_window_aggregates_its_bars(rest, start, target);
        if let Some(v) = filled(rest, start, target) {
            if let Some(w) = with_bar(v, last) {
                let h = choose|i: int| 0 <= i < rest.len() && v.high == (#[trigger] rest[i]).high;
                let l = choose|i: int| 0 <= i < rest.len() && v.low == (#[trigger] rest[i]).low;
                assert(bars[h].high == v.high);
                assert(bars[l].low == v.low);
                assert forall|i: int| 0 <= i < bars.len() implies !dec_lt(
                    w.high,
                    (#[trigger] bars[i]).high,
                ) && !dec_lt(bars[i].low, w.low) by {
                    if i < rest.len() {
                        assert(rest[i] == bars[i]);
                        if dec_lt(w.high, bars[i].high) {
                            law_order_is_transitive(w.high, bars[i].high, v.high);
                            law_order_is_total(w.high, v.high);
                        }
                        if dec_lt(bars[i].low, w.low) {
                            law_order_is_transitive(bars[i].low, w.low, v.low);
                        }
                    } else {
                        law_order_is_total(last.high, last.high);
                        law_order_is_total(last.low, last.low);
                    }
                }
            }
        }
    }
}

/// One more bar of a window moves the high up and the low down if it goes beyond them, adds its volume and
/// its trades, and gives the close; the open and the start stay those of the first bar. It does not fit if
/// one of the sums is out of range.
pub proof fn law_window_takes_one_more_bar(
    bars: Seq<BarData>,
    bar: BarData,
    start: int,
    target: Resolution,
)
    requires
        bars.len() > 0,
        filled(bars, start, target) is Some,
    ensures
        ({
            let w = filled(bars, start, target)->0;
            let next = filled(bars.push(bar), start, target);
            &&& next is Some <==> decimal_sum(w.volume, bar.volume) is Some && w.trades + bar.trades
                <= u64::MAX
            &&& next matches Some(v) ==> {
                &&& v.open == w.open
                &&& v.open_time == w.open_time
                &&& v.resolution == w.resolution
                &&& v.close == bar.close
                &&& Some(v.volume) == decimal_sum(w.volume, bar.volume)
                &&& v.trades == w.trades + bar.trades
                &&& dec_lt(w.high, bar.high) ==> v.high == bar.high
                &&& !dec_lt(w.high, bar.high) ==> v.high == w.high
                &&& dec_lt(bar.low, w.low) ==> v.low == bar.low
                &&& !dec_lt(bar.low, w.low) ==> v.low == w.low
            }
        }),
{
    assert(bars.push(bar).drop_last() =~= bars);
}

/// The bars, in their order, whose window starts at `start`.
pub open spec fn in_window(bars: Seq<BarData>, start: int, target: Resolution) -> Seq<BarData>
    decreases bars.len(),
{
    if bars.len() == 0 {
        Seq::empty()
    } else {
        let before = in_window(bars.drop_last(), start, target);
        if window_start(bars.last().open_time as int, length_ms(target)) == start {
            before.push(bars.last())
        } else {
            before
        }
    }
}

/// Whether a rolled-up bar is the window filled with the base bars that fall into it, of which there
/// is at least one.
pub open spec fn is_filled_from(w: BarData, bars: Seq<BarData>, target: Resolution) -> bool {
    let start = w.open_time as int;
    let inside = in_window(bars, start, target);
    inside.len() > 0 && filled(inside, start, target) == Some(w)
}

proof fn lemma_none_in_window(bars: Seq<BarData>, start: int, target: Resolution)
    requires
        forall|i: int|
            0 <= i < bars.len() ==> window_start(
                (#[trigger] bars[i]).open_time as int,
                length_ms(target),
            ) != start,
    ensures
        in_window(bars, start, target).len() == 0,
    decreases bars.len(),
{
    if bars.len() > 0 {
        let rest = bars.drop_last();
        assert forall|i: int| 0 <= i < rest.len() implies window_start(
            (#[trigger] rest[i]).open_time as int,
            length_ms(target),
        ) != start by {
            assert(rest[i] == bars[i]);
        }
        lemma_none_in_window(rest, start, target);
        assert(bars.last() == bars[bars.len() - 1]);
    }
}

proof fn lemma_run_fills(bars: Seq<BarData>, base: Resolution, target: Resolution)
    requires
        ascending(bars),
    ensures
        run(bars, base, target) matches Ok((out, current)) ==> forall|j: int|
            0 <= j < with_completed(out, current).len() ==> is_filled_from(
                #[trigger] with_completed(out, current)[j],
                bars,
                target,
            ),
    decreases bars.len(),
{
    if bars.len() > 0 && run(bars, base, target) is Ok {
        let rest = bars.drop_last();
        let last = bars.last();
        let len = length_ms(target);
        let start = window_start(last.open_time as int, len);
        assert forall|i: int, j: int| 0 <= i <= j < rest.len() implies (
        #[trigger] rest[i]).open_time <= (#[trigger] rest[j]).open_time by {
            assert(rest[i] == bars[i] && rest[j] == bars[j]);
        }
        lemma_run_fills(rest, base, target);
        lemma_run_ascends(rest, base, target);
        lemma_run_ascends(bars, base, target);
        law_window_start(last.open_time as int, len);
        let (out, current) = run(rest, base, target)->Ok_0;
        let (now, next) = run(bars, base, target)->Ok_0;
        let before = with_completed(out, current);
        let all = with_completed(now, next);
        let folded = current is Some && current->0.open_time == start;
        // Every window but the one that the last bar falls into is as before.
        assert forall|j: int| 0 <= j < all.len() implies is_filled_from(
            #[trigger] all[j],
            bars,
            target,
        ) by {
            if j < all.len() - 1 {
                assert(all[all.len() - 1].open_time == start);
                assert(all[j].open_time < all[all.len() - 1].open_time);
                assert(all[j] == before[j]);
                assert(is_filled_from(before[j], rest, target));
            } else if folded {
                assert(all[j] == next->0);
                assert(before[j] == current->0);
                assert(is_filled_from(before[j], rest, target));
                let inside = in_window(rest, start, target);
                assert(inside.push(last).drop_last() =~= inside);
            } else {
                assert forall|i: int| 0 <= i < rest.len() implies window_start(
                    (#[trigger] rest[i]).open_time as int,
                    len,
                ) != start by {
                    let newest = rest.last().open_time as int;
                    assert(rest.last() == rest[rest.len() - 1]);
                    assert(rest.last() == bars[bars.len() - 2]);
                    lemma_window_start_ascends(rest[i].open_time as int, newest, len);
                    lemma_window_start_ascends(newest, last.open_time as int, len);
                }
                lemma_none_in_window(rest, start, target);
                let inside = in_window(rest, start, target);
                assert(in_window(bars, start, target) == inside.push(last));
                assert(inside.push(last).last() == last);
            }
        }
    }
}

/// Bars in ascending order roll up window by window: each rolled-up bar is its window filled with
/// exactly the base bars that fall into it, in their order.
pub proof fn law_rolled_up_bars_are_their_windows(
    bars: Seq<BarData>,
    base: Resolution,
    target: Resolution,
)
    requires
        ascending(bars),
    ensures
        rolled_up(bars, base, target) matches Ok(out) ==> forall|j: int|
            0 <= j < out.len() ==> is_filled_from(#[trigger] out[j], bars, target),
{
    lemma_run_fills(bars, base, target);
}

proof fn lemma_run_covers(bars: Seq<BarData>, base: Resolution, target: Resolution, i: int)
    requires
        0 <= i < bars.len(),
    ensures
        run(bars, base, target) matches Ok((out, current)) ==> exists|j: int|
            0 <= j < with_completed(out, current).len() && (#[trigger] with_completed(
                out,
                current,
            )[j]).open_time == window_start(bars[i].open_time as int, length_ms(target)),
    decreases bars.len(),
{
    if run(bars, base, target) is Ok {
        let rest = bars.drop_last();
        let last = bars.last();
        let len = length_ms(target);
        law_window_start(last.open_time as int, len);
        let (out, current) = run(rest, base, target)->Ok_0;
        let (now, next) = run(bars, base, target)->Ok_0;
        let before = with_completed(out, current);
        let all = with_completed(now, next);
        let start = window_start(bars[i].open_time as int, len);
        if i < rest.len() {
            lemma_run_covers(rest, base, target, i);
            assert(rest[i] == bars[i]);
            let j = choose|j: int|
                0 <= j < before.len() && (#[trigger] before[j]).open_time == start;
            assert(all[j].open_time == before[j].open_time);
        } else {
            assert(all[all.len() - 1].open_time == start);
        }
    }
}

/// Every base bar falls into the window of one of the rolled-up bars.
pub proof fn law_every_bar_is_rolled_up(
    bars: Seq<BarData>,
    base: Resolution,
    target: Resolution,
    i: int,
)
    requires
        0 <= i < bars.len(),
    ensures
        rolled_up(bars, base, target) matches Ok(out) ==> exists|j: int|
            0 <= j < out.len() && (#[trigger] out[j]).open_time == window_start(
                bars[i].open_time as int,
                length_ms(target),
            ),
{
    lemma_run_covers(bars, base, target, i);
    if let Ok(out) = rolled_up(bars, base, target) {
        let (done, current) = run(bars, base, target)->Ok_0;
        let start = window_start(bars[i].open_time as int, length_ms(target));
        let j = choose|j: int|
            0 <= j < with_completed(done, current).len() && (#[trigger] with_completed(
                done,
                current,
            )[j]).open_time == start;
        assert(out[j].open_time == start);
    }
}

// ---- the reconstructor ---------------------------------------------------------------------------

/// An incremental roll-up: fed base bars, it hands out a coarser bar whenever one is complete.
#[derive(Debug, Clone, Copy)]
pub struct BarReconstructor {
    base: Resolution,
    target: Resolution,
    current: Option<Bar>,
}

impl View for BarReconstructor {
    type V = Option<BarData>;

    closed spec fn view(&self) -> Option<BarData> {
        content(self.current)
    }
}

/// The start of the window that an instant falls into, if it is in range.
fn start_of(t: i64, target: Resolution) -> (r: Option<i64>)
    ensures
        match r {
            Some(start) => start == window_start(t as int, length_ms(target)),
            None => window_start(t as int, length_ms(target)) < i64::MIN,
        },
{
    let len: i64 = target.minutes() as i64 * MINUTE_MS;
    let wide: i128 = t as i128;
    let rem: i128 = if wide >= 0 {
        wide % len as i128
    } else {
        // The remainder of a negative number, brought into `[0, len)`.
        let behind: i128 = (-wide) % len as i128;
        if behind == 0 {
            0
        } else {
            len as i128 - behind
        }
    };
    let start: i128 = wide - rem;
    proof {
        let x = t as int;
        let n = len as int;
        law_window_start(x, n);
        if x >= 0 {
            assert(x / n * n + x % n == x) by (nonlinear_arith)
                requires
                    n > 0,
            ;
        } else {
            let y = -x;
            assert(y / n * n + y % n == y) by (nonlinear_arith)
                requires
                    n > 0,
            ;
            let s = start as int;
            // `start` is a multiple of the length, and the instant is less than one length after it.
            let k = if y % n == 0 {
                -(y / n)
            } else {
                -(y / n) - 1
            };
            assert(s == k * n) by (nonlinear_arith)
                requires
                    y / n * n + y % n == y,
                    x == -y,
                    y % n == 0 ==> s == x && k == -(y / n),
                    y % n != 0 ==> s == x - (n - y % n) && k == -(y / n) - 1,
            ;
            assert(x / n == k) by (nonlinear_arith)
                requires
                    s == k * n,
                    s <= x < s + n,
                    n > 0,
            ;
        }
    }
    if start >= i64::MIN as i128 {
        Some(start as i64)
    } else {
        None
    }
}

/// The window with one more bar; none if a sum is out of range.
fn fold_bar(w: &Bar, bar: &Bar) -> (r: Option<Bar>)
    ensures
        content(r) == with_bar(w@, bar@),
{
    proof {
        use_type_invariant(w);
        use_type_invariant(bar);
        lemma_bar_valid(*w);
        lemma_bar_valid(*bar);
    }
    let high: Price = if w.high().get().less_than(bar.high().get()) {
        bar.high()
    } else {
        w.high()
    };
    let low: Price = if bar.low().get().less_than(w.low().get()) {
        bar.low()
    } else {
        w.low()
    };
    let volume: Option<Dec> = add_results(Some(w.volume().get()), Some(bar.volume().get()));
    let trades: Option<u64> = w.trades().checked_add(bar.trades());
    match (volume, trades) {
        (Some(v), Some(t)) => match Qty::new(v) {
            Ok(q) => {
                proof {
                    lemma_fold_is_consistent(w@, bar@, high@, low@);
                }
                match Bar::new(
                    w.open_time(),
                    w.resolution(),
                    w.open(),
                    high,
                    low,
                    bar.close(),
                    q,
                    t,
                ) {
                    Ok(b) => Some(b),
                    Err(_) => None,
                }
            },
            Err(_) => None,
        },
        _ => None,
    }
}

/// A window stays consistent when a consistent bar is folded into it.
proof fn lemma_fold_is_consistent(w: BarData, bar: BarData, high: Dec, low: Dec)
    requires
        w.consistent(),
        bar.consistent(),
        w.open.wf() && w.high.wf() && w.low.wf(),
        bar.close.wf() && bar.high.wf() && bar.low.wf(),
        high == (if dec_lt(w.high, bar.high) {
            bar.high
        } else {
            w.high
        }),
        low == (if dec_lt(bar.low, w.low) {
            bar.low
        } else {
            w.low
        }),
    ensures
        within(low, w.open, high),
        within(low, bar.close, high),
{
    if dec_lt(w.open, low) {
        law_order_is_transitive(w.open, low, w.low);
    }
    if dec_lt(high, w.open) {
        law_order_is_transitive(high, w.open, w.high);
        law_order_is_total(high, w.high);
    }
    if dec_lt(bar.close, low) {
        law_order_is_total(bar.low, low);
        law_order_is_transitive(bar.close, low, bar.low);
    }
    if dec_lt(high, bar.close) {
        law_order_is_transitive(high, bar.close, bar.high);
    }
}

impl BarReconstructor {
    /// The resolution of the bars fed.
    pub closed spec fn base(self) -> Resolution {
        self.base
    }

    /// The resolution of the bars handed out.
    pub closed spec fn target(self) -> Resolution {
        self.target
    }

    /// A reconstructor from `base` to `target`, which must be coarser.
    pub fn new(base: Resolution, target: Resolution) -> (r: Result<BarReconstructor, ReconError>)
        ensures
            match target_error(base, target) {
                Some(e) => r == Err::<BarReconstructor, ReconError>(e),
                None => r matches Ok(recon) && recon@ is None && recon.base() == base
                    && recon.target() == target,
            },
    {
        if target.minutes() <= base.minutes() {
            return Err(ReconError::TargetNotCoarser { base, target });
        }
        if target.minutes() % base.minutes() != 0 {
            return Err(ReconError::TargetNotMultiple { base, target });
        }
        Ok(BarReconstructor { base, target, current: None })
    }

    /// Feeds one base bar. Returns a coarser bar if this one opens a new window and so completes the
    /// window before.
    pub fn push(&mut self, bar: &Bar) -> (r: Result<Option<Bar>, ReconError>)
        ensures
            (final(self)@, step_result(r)) == step(
                old(self)@,
                old(self).base(),
                old(self).target(),
                bar@,
            ),
            final(self).base() == old(self).base(),
            final(self).target() == old(self).target(),
    {
        if bar.resolution() != self.base {
            return Err(
                ReconError::UnexpectedResolution { expected: self.base, found: bar.resolution() },
            );
        }
        let start: i64 = match start_of(bar.open_time().millis(), self.target) {
            Some(start) => start,
            None => {
                return Err(ReconError::OutOfRange);
            },
        };
        if let Some(w) = self.current {
            if w.open_time().millis() == start {
                return match fold_bar(&w, bar) {
                    Some(next) => {
                        self.current = Some(next);
                        Ok(None)
                    },
                    None => Err(ReconError::OutOfRange),
                };
            }
        }
        proof {
            use_type_invariant(bar);
            lemma_bar_valid(*bar);
        }
        let completed: Option<Bar> = self.current;
        match Bar::new(
            Timestamp::from_millis(start),
            self.target,
            bar.open(),
            bar.high(),
            bar.low(),
            bar.close(),
            bar.volume(),
            bar.trades(),
        ) {
            Ok(b) => {
                self.current = Some(b);
                Ok(completed)
            },
            Err(e) => Err(ReconError::InvalidBar(e)),
        }
    }

    /// Hands out the window still open, if any.
    pub fn finish(&mut self) -> (r: Result<Option<Bar>, ReconError>)
        ensures
            final(self)@ is None,
            step_result(r) == Ok::<Option<BarData>, ReconError>(old(self)@),
            final(self).base() == old(self).base(),
            final(self).target() == old(self).target(),
    {
        let completed: Option<Bar> = self.current;
        self.current = None;
        Ok(completed)
    }
}

/// What the roll-up of a series holds.
pub open spec fn batch_result(r: Result<Vec<Bar>, ReconError>) -> Result<Seq<BarData>, ReconError> {
    match r {
        Ok(v) => Ok(contents(v@)),
        Err(e) => Err(e),
    }
}

/// Once a series has an error, every longer series has it.
proof fn lemma_error_persists(
    bars: Seq<BarData>,
    n: int,
    base: Resolution,
    target: Resolution,
)
    requires
        0 <= n <= bars.len(),
        run(bars.take(n), base, target) is Err,
    ensures
        run(bars, base, target) == run(bars.take(n), base, target),
    decreases bars.len(),
{
    if n == bars.len() {
        assert(bars.take(n) =~= bars);
    } else {
        assert(bars.drop_last().take(n) =~= bars.take(n));
        lemma_error_persists(bars.drop_last(), n, base, target);
    }
}

/// Rolls a series of base bars up to one coarser resolution: every bar pushed through a
/// [`BarReconstructor`], then its `finish`.
pub fn reconstruct_batch(base_bars: &[Bar], base: Resolution, target: Resolution) -> (r: Result<
    Vec<Bar>,
    ReconError,
>)
    ensures
        batch_result(r) == rolled_up(contents(base_bars@), base, target),
{
    let mut recon: BarReconstructor = match BarReconstructor::new(base, target) {
        Ok(recon) => recon,
        Err(e) => {
            return Err(e);
        },
    };
    let ghost bars = contents(base_bars@);
    let mut out: Vec<Bar> = Vec::new();
    let mut i: usize = 0;
    assert(contents(out@) =~= Seq::empty());
    while i < base_bars.len()
        invariant
            i <= base_bars.len(),
            bars == contents(base_bars@),
            recon.base() == base,
            recon.target() == target,
            target_error(base, target) is None,
            run(bars.take(i as int), base, target) == Ok::<_, ReconError>(
                (contents(out@), recon@),
            ),
        decreases base_bars.len() - i,
    {
        let ghost before = contents(out@);
        proof {
            assert(bars.take(i + 1).drop_last() =~= bars.take(i as int));
            assert(bars.take(i + 1).last() == base_bars@[i as int]@);
        }
        match recon.push(&base_bars[i]) {
            Ok(Some(done)) => {
                out.push(done);
                assert(contents(out@) =~= before.push(done@));
            },
            Ok(None) => {},
            Err(e) => {
                proof {
                    lemma_error_persists(bars, i + 1, base, target);
                }
                return Err(e);
            },
        }
        i = i + 1;
    }
    assert(bars.take(i as int) =~= bars);
    let ghost before = contents(out@);
    match recon.finish() {
        Ok(Some(done)) => {
            out.push(done);
            assert(contents(out@) =~= before.push(done@));
        },
        Ok(None) => {},
        Err(e) => {
            return Err(e);
        },
    }
    Ok(out)
}

proof fn lemma_tier_error_persists(
    bars: Seq<BarData>,
    base: Resolution,
    tiers: Seq<Resolution>,
    n: int,
)
    requires
        0 <= n <= tiers.len(),
        rolled_up_tiers(bars, base, tiers.take(n)) is Err,
    ensures
        rolled_up_tiers(bars, base, tiers) == rolled_up_tiers(bars, base, tiers.take(n)),
    decreases tiers.len(),
{
    if n == tiers.len() {
        assert(tiers.take(n) =~= tiers);
    } else {
        assert(tiers.drop_last().take(n) =~= tiers.take(n));
        lemma_tier_error_persists(bars, base, tiers.drop_last(), n);
    }
}

/// Rolls a series of base bars up to every resolution of `tiers`, one tier after the other.
pub fn reconstruct_tiers(base_bars: &[Bar], base: Resolution, tiers: &[Resolution]) -> (r: Result<
    Vec<Bar>,
    ReconError,
>)
    ensures
        batch_result(r) == rolled_up_tiers(contents(base_bars@), base, tiers@),
{
    let ghost bars = contents(base_bars@);
    let mut out: Vec<Bar> = Vec::new();
    let mut i: usize = 0;
    assert(contents(out@) =~= Seq::empty());
    while i < tiers.len()
        invariant
            i <= tiers.len(),
            bars == contents(base_bars@),
            rolled_up_tiers(bars, base, tiers@.take(i as int)) == Ok::<_, ReconError>(
                contents(out@),
            ),
        decreases tiers.len() - i,
    {
        let ghost before = contents(out@);
        proof {
            assert(tiers@.take(i + 1).drop_last() =~= tiers@.take(i as int));
            assert(tiers@.take(i + 1).last() == tiers@[i as int]);
        }
        match reconstruct_batch(base_bars, base, tiers[i]) {
            Ok(tier) => {
                let mut k: usize = 0;
                while k < tier.len()
                    invariant
                        k <= tier.len(),
                        contents(out@) =~= before + contents(tier@).take(k as int),
                    decreases tier.len() - k,
                {
                    let ghost here = contents(out@);
                    out.push(tier[k]);
                    assert(contents(out@) =~= here.push(tier@[k as int]@));
                    k = k + 1;
                }
                assert(contents(out@) =~= before + contents(tier@));
            },
            Err(e) => {
                proof {
                    lemma_tier_error_persists(bars, base, tiers@, i + 1);
                }
                return Err(e);
            },
        }
        i = i + 1;
    }
    assert(tiers@.take(i as int) =~= tiers@);
    Ok(out)
}

} // verus!
