//! The price and volume indicators: what each of them reads off a full window of bars.
//!
//! Every value is a function of the window alone, so an indicator's latest output depends on exactly
//! the bars of its window.

use vstd::prelude::*;

use crate::decimal::{
    add_results, average, dec_lt, divide_results, mean, minus, multiply_results, over, plus,
    read_result, reading, subtract_results, times, total, unsign_result, unsigned, Dec, Reading,
};
use crate::signal::bars::{Bars, Window};
use crate::signal::roll::{
    largest, root_of, smallest, variance, variance_of, window_mean_abs_dev, window_std,
};

verus! {

/// The period of the fast average in the MACD histogram.
pub const MACD_FAST: usize = 12;

/// The period of the slow average in the MACD histogram.
pub const MACD_SLOW: usize = 26;

/// How many MACD values the signal line averages.
pub const MACD_SIGNAL: usize = 9;

/// Which value an indicator reads off its window.
#[derive(Debug, Clone, Copy, PartialEq, Eq, Structural)]
pub enum PriceKind {
    /// Percentage distance of the last close from the mean close.
    SmaRatio,
    /// Percentage distance of the last close from the windowed exponential average.
    EmaRatio,
    /// Relative strength index.
    Rsi,
    /// Stochastic %K.
    StochK,
    /// Williams %R.
    WilliamsR,
    /// Percentage change of the close over the window.
    Roc,
    /// Commodity channel index.
    Cci,
    /// Position of the last close within the Bollinger band.
    BbPercent,
    /// Width of the Bollinger band in percent of the mean.
    BbBandwidth,
    /// Money flow index.
    Mfi,
    /// Aroon oscillator.
    AroonOsc,
    /// Average true range in percent of the last close.
    AtrPct,
    /// Standard deviation of the simple returns, in percent.
    StdReturns,
    /// Last volume over the mean volume.
    VolumeRatio,
    /// Volume signed by the close's direction, over the total volume.
    SignedVolumeRatio,
    /// Chaikin money flow.
    Cmf,
    /// MACD histogram in percent of the last close.
    MacdHist,
}

// ---- shared pieces -------------------------------------------------------------------------------

/// One hundred.
pub open spec fn hundred() -> Option<Dec> {
    Some(Dec::whole(100))
}

/// The percentage change from `from` to `to`; undefined from zero.
pub open spec fn pct_change(from: Dec, to: Dec) -> Reading {
    if from.m() == 0 {
        Reading::Undefined
    } else {
        reading(
            times(minus(over(Some(to), Some(from)), Some(Dec::whole(1))), hundred()),
        )
    }
}

/// [`pct_change`] from a result.
pub open spec fn pct_change_from(from: Option<Dec>, to: Dec) -> Reading {
    match from {
        Some(x) => pct_change(x, to),
        None => Reading::Fault,
    }
}

/// `100 - 100 / (1 + up / down)`, or 100 if there is no `down`.
pub open spec fn balance_index(up: Option<Dec>, down: Option<Dec>) -> Reading {
    if up is None || down is None {
        Reading::Fault
    } else if down->0.m() == 0 {
        Reading::Value(Dec::whole(100))
    } else {
        reading(
            minus(hundred(), over(hundred(), plus(Some(Dec::whole(1)), over(up, down)))),
        )
    }
}

/// The smoothing factor of an exponential average over `period` values.
pub open spec fn smoothing(period: int) -> Option<Dec> {
    over(Some(Dec::whole(2)), Some(Dec::whole(period + 1)))
}

/// The exponential average of `values`, seeded with the first of them.
pub open spec fn ema(values: Seq<Dec>, k: Option<Dec>) -> Option<Dec>
    decreases values.len(),
{
    if values.len() <= 1 {
        Some(values[0])
    } else {
        let before = ema(values.drop_last(), k);
        plus(before, times(k, minus(Some(values.last()), before)))
    }
}

/// A quotient by a number that must not be zero to be defined.
pub open spec fn guarded_ratio(a: Option<Dec>, b: Option<Dec>) -> Reading {
    if a is None || b is None {
        Reading::Fault
    } else if b->0.m() == 0 {
        Reading::Undefined
    } else {
        reading(over(a, b))
    }
}

fn one_hundred() -> (r: Option<Dec>)
    ensures
        r == hundred(),
{
    Some(Dec::from_int(100))
}

/// Computes [`pct_change`].
pub fn pct_change_of(from: Dec, to: Dec) -> (r: Reading)
    ensures
        r == pct_change(from, to),
{
    if from.is_zero() {
        Reading::Undefined
    } else {
        read_result(
            multiply_results(
                subtract_results(to.checked_div(from), Some(Dec::from_int(1))),
                one_hundred(),
            ),
        )
    }
}

fn balance_index_of(up: Option<Dec>, down: Option<Dec>) -> (r: Reading)
    ensures
        r == balance_index(up, down),
{
    match (up, down) {
        (Some(u), Some(d)) => {
            if d.is_zero() {
                Reading::Value(Dec::from_int(100))
            } else {
                read_result(
                    subtract_results(
                        one_hundred(),
                        divide_results(
                            one_hundred(),
                            add_results(Some(Dec::from_int(1)), u.checked_div(d)),
                        ),
                    ),
                )
            }
        },
        _ => Reading::Fault,
    }
}

fn guarded_ratio_of(a: Option<Dec>, b: Option<Dec>) -> (r: Reading)
    ensures
        r == guarded_ratio(a, b),
{
    match (a, b) {
        (Some(x), Some(y)) => {
            if y.is_zero() {
                Reading::Undefined
            } else {
                read_result(x.checked_div(y))
            }
        },
        _ => Reading::Fault,
    }
}

fn smoothing_of(period: usize) -> (r: Option<Dec>)
    ensures
        r == smoothing(period as int),
{
    divide_results(Some(Dec::from_int(2)), Some(Dec::from_wide(period as i128 + 1)))
}

/// The exponential average of `values[from..to]`.
fn ema_of(values: &Vec<Dec>, from: usize, to: usize, k: Option<Dec>) -> (r: Option<Dec>)
    requires
        from < to <= values.len(),
    ensures
        r == ema(values@.subrange(from as int, to as int), k),
{
    let mut acc: Option<Dec> = Some(values[from]);
    let mut i: usize = from + 1;
    assert(values@.subrange(from as int, from + 1)[0] == values@[from as int]);
    while i < to
        invariant
            from + 1 <= i <= to <= values.len(),
            acc == ema(values@.subrange(from as int, i as int), k),
        decreases to - i,
    {
        assert(values@.subrange(from as int, i + 1).drop_last() =~= values@.subrange(
            from as int,
            i as int,
        ));
        assert(values@.subrange(from as int, i + 1).last() == values@[i as int]);
        acc = add_results(acc, multiply_results(k, subtract_results(Some(values[i]), acc)));
        i = i + 1;
    }
    acc
}

// ---- averages and momentum -----------------------------------------------------------------------

/// See [`PriceKind::SmaRatio`].
pub open spec fn sma_ratio(w: Window) -> Reading {
    pct_change_from(mean(w.close), w.close.last())
}

/// See [`PriceKind::EmaRatio`].
pub open spec fn ema_ratio(w: Window) -> Reading {
    pct_change_from(ema(w.close, smoothing(w.close.len() as int)), w.close.last())
}

/// See [`PriceKind::Roc`].
pub open spec fn roc(w: Window) -> Reading {
    pct_change(w.close.first(), w.close.last())
}

/// The summed rises and the summed falls between neighbouring values.
pub open spec fn rises_and_falls(c: Seq<Dec>) -> (Option<Dec>, Option<Dec>)
    decreases c.len(),
{
    if c.len() < 2 {
        (Some(Dec::whole(0)), Some(Dec::whole(0)))
    } else {
        let (up, down) = rises_and_falls(c.drop_last());
        match minus(Some(c.last()), Some(c[c.len() - 2])) {
            Some(d) => if d.m() >= 0 {
                (plus(up, Some(d)), down)
            } else {
                (up, plus(down, Some(Dec::of(-d.m(), d.s()))))
            },
            None => (None, None),
        }
    }
}

/// See [`PriceKind::Rsi`].
pub open spec fn rsi(w: Window) -> Reading {
    let (up, down) = rises_and_falls(w.close);
    balance_index(up, down)
}

fn sma_ratio_of(b: &Bars, last: Dec) -> (r: Reading)
    requires
        b@.close.len() > 0,
        last == b@.close.last(),
    ensures
        r == sma_ratio(b@),
{
    match average(&b.close().values()) {
        Some(m) => pct_change_of(m, last),
        None => Reading::Fault,
    }
}

fn ema_ratio_of(b: &Bars, last: Dec) -> (r: Reading)
    requires
        b@.close.len() > 0,
        last == b@.close.last(),
    ensures
        r == ema_ratio(b@),
{
    let c: Vec<Dec> = b.close().values();
    assert(c@.subrange(0, c@.len() as int) =~= c@);
    match ema_of(&c, 0, c.len(), smoothing_of(c.len())) {
        Some(m) => pct_change_of(m, last),
        None => Reading::Fault,
    }
}

fn rsi_of(b: &Bars) -> (r: Reading)
    requires
        b@.close.len() > 0,
    ensures
        r == rsi(b@),
{
    let c: Vec<Dec> = b.close().values();
    let mut up: Option<Dec> = Some(Dec::from_int(0));
    let mut down: Option<Dec> = Some(Dec::from_int(0));
    let mut i: usize = 1;
    while i < c.len()
        invariant
            1 <= i <= c.len(),
            (up, down) == rises_and_falls(c@.take(i as int)),
        decreases c.len() - i,
    {
        assert(c@.take(i + 1).drop_last() =~= c@.take(i as int));
        match c[i].checked_sub(c[i - 1]) {
            Some(d) => {
                if d.is_negative() {
                    down = add_results(down, Some(d.negated()));
                } else {
                    up = add_results(up, Some(d));
                }
            },
            None => {
                up = None;
                down = None;
            },
        }
        i = i + 1;
    }
    assert(c@.take(i as int) =~= c@);
    balance_index_of(up, down)
}

// ---- channel positions ---------------------------------------------------------------------------

/// The share of `part` in `range` times `factor`, or `middle` if the range is empty.
pub open spec fn channel_position(
    part: Option<Dec>,
    range: Option<Dec>,
    factor: Dec,
    middle: Option<Dec>,
) -> Reading {
    match range {
        Some(x) => if x.m() == 0 {
            reading(middle)
        } else {
            reading(times(over(part, range), Some(factor)))
        },
        None => Reading::Fault,
    }
}

/// See [`PriceKind::StochK`].
pub open spec fn stoch_k(w: Window) -> Reading {
    let hi = largest(w.high);
    let lo = smallest(w.low);
    channel_position(
        minus(Some(w.close.last()), Some(lo)),
        minus(Some(hi), Some(lo)),
        Dec::whole(100),
        over(hundred(), Some(Dec::whole(2))),
    )
}

/// See [`PriceKind::WilliamsR`].
pub open spec fn williams_r(w: Window) -> Reading {
    let hi = largest(w.high);
    let lo = smallest(w.low);
    channel_position(
        minus(Some(hi), Some(w.close.last())),
        minus(Some(hi), Some(lo)),
        Dec::whole(-100),
        over(Some(Dec::whole(-100)), Some(Dec::whole(2))),
    )
}

fn channel_position_of(
    part: Option<Dec>,
    range: Option<Dec>,
    factor: Dec,
    middle: Option<Dec>,
) -> (r: Reading)
    ensures
        r == channel_position(part, range, factor, middle),
{
    match range {
        Some(x) => {
            if x.is_zero() {
                read_result(middle)
            } else {
                read_result(multiply_results(divide_results(part, range), Some(factor)))
            }
        },
        None => Reading::Fault,
    }
}

fn stoch_k_of(hi: Dec, lo: Dec, last: Dec) -> (r: Reading)
    ensures
        forall|w: Window|
            hi == largest(w.high) && lo == smallest(w.low) && last == w.close.last() ==> r
                == #[trigger] stoch_k(w),
{
    channel_position_of(
        last.checked_sub(lo),
        hi.checked_sub(lo),
        Dec::from_int(100),
        divide_results(one_hundred(), Some(Dec::from_int(2))),
    )
}

fn williams_r_of(hi: Dec, lo: Dec, last: Dec) -> (r: Reading)
    ensures
        forall|w: Window|
            hi == largest(w.high) && lo == smallest(w.low) && last == w.close.last() ==> r
                == #[trigger] williams_r(w),
{
    channel_position_of(
        hi.checked_sub(last),
        hi.checked_sub(lo),
        Dec::from_int(-100),
        divide_results(Some(Dec::from_int(-100)), Some(Dec::from_int(2))),
    )
}

/// See [`PriceKind::Cci`].
pub open spec fn cci(w: Window) -> Reading {
    match mean(w.typical) {
        None => Reading::Fault,
        Some(sma) => match window_mean_abs_dev(w.typical) {
            Reading::Undefined => Reading::Undefined,
            Reading::Fault => Reading::Fault,
            Reading::Value(mad) => if mad.m() == 0 {
                Reading::Value(Dec::whole(0))
            } else {
                reading(
                    over(
                        minus(Some(w.typical.last()), Some(sma)),
                        times(Some(Dec::of(15, 3)), Some(mad)),
                    ),
                )
            },
        },
    }
}

fn cci_of(b: &Bars) -> (r: Reading)
    requires
        b@.typical.len() > 0,
    ensures
        r == cci(b@),
{
    let tp: Dec = match b.typical().last() {
        Some(x) => x,
        None => {
            return Reading::Undefined;
        },
    };
    let sma: Dec = match b.typical().mean() {
        Reading::Value(x) => x,
        _ => {
            return Reading::Fault;
        },
    };
    match b.typical().mean_abs_dev() {
        Reading::Undefined => Reading::Undefined,
        Reading::Fault => Reading::Fault,
        Reading::Value(mad) => {
            if mad.is_zero() {
                Reading::Value(Dec::from_int(0))
            } else {
                read_result(
                    divide_results(tp.checked_sub(sma), Dec::scaled(15, 3).checked_mul(mad)),
                )
            }
        },
    }
}

/// The lower edge of the Bollinger band.
pub open spec fn band_lower(c: Seq<Dec>, sd: Dec) -> Option<Dec> {
    minus(mean(c), times(Some(Dec::whole(2)), Some(sd)))
}

/// The upper edge of the Bollinger band.
pub open spec fn band_upper(c: Seq<Dec>, sd: Dec) -> Option<Dec> {
    plus(mean(c), times(Some(Dec::whole(2)), Some(sd)))
}

/// See [`PriceKind::BbPercent`].
pub open spec fn bb_percent(w: Window) -> Reading {
    match window_std(w.close) {
        Reading::Undefined => Reading::Undefined,
        Reading::Fault => Reading::Fault,
        Reading::Value(sd) => {
            let lower = band_lower(w.close, sd);
            let upper = band_upper(w.close, sd);
            match minus(upper, lower) {
                Some(width) => if width.m() == 0 {
                    Reading::Value(Dec::of(5, 1))
                } else {
                    reading(over(minus(Some(w.close.last()), lower), Some(width)))
                },
                None => Reading::Fault,
            }
        },
    }
}

/// See [`PriceKind::BbBandwidth`].
pub open spec fn bb_bandwidth(w: Window) -> Reading {
    match window_std(w.close) {
        Reading::Undefined => Reading::Undefined,
        Reading::Fault => Reading::Fault,
        Reading::Value(sd) => {
            let lower = band_lower(w.close, sd);
            let upper = band_upper(w.close, sd);
            if lower is None || upper is None {
                Reading::Fault
            } else if mean(w.close)->0.m() == 0 {
                Reading::Undefined
            } else {
                reading(times(over(minus(upper, lower), mean(w.close)), hundred()))
            }
        },
    }
}

fn bb_percent_of(b: &Bars, last: Dec) -> (r: Reading)
    requires
        b@.close.len() > 0,
        last == b@.close.last(),
    ensures
        r == bb_percent(b@),
{
    match b.close().std_pop() {
        Reading::Undefined => Reading::Undefined,
        Reading::Fault => Reading::Fault,
        Reading::Value(sd) => {
            let centre: Option<Dec> = average(&b.close().values());
            let twice: Option<Dec> = Dec::from_int(2).checked_mul(sd);
            let lower: Option<Dec> = subtract_results(centre, twice);
            let upper: Option<Dec> = add_results(centre, twice);
            match subtract_results(upper, lower) {
                Some(width) => {
                    if width.is_zero() {
                        Reading::Value(Dec::scaled(5, 1))
                    } else {
                        read_result(
                            divide_results(subtract_results(Some(last), lower), Some(width)),
                        )
                    }
                },
                None => Reading::Fault,
            }
        },
    }
}

fn bb_bandwidth_of(b: &Bars) -> (r: Reading)
    requires
        b@.close.len() > 0,
    ensures
        r == bb_bandwidth(b@),
{
    match b.close().std_pop() {
        Reading::Undefined => Reading::Undefined,
        Reading::Fault => Reading::Fault,
        Reading::Value(sd) => {
            let centre: Option<Dec> = average(&b.close().values());
            let twice: Option<Dec> = Dec::from_int(2).checked_mul(sd);
            let lower: Option<Dec> = subtract_results(centre, twice);
            let upper: Option<Dec> = add_results(centre, twice);
            match (centre, lower, upper) {
                (Some(m), Some(lo), Some(up)) => {
                    if m.is_zero() {
                        Reading::Undefined
                    } else {
                        read_result(
                            multiply_results(
                                divide_results(up.checked_sub(lo), Some(m)),
                                one_hundred(),
                            ),
                        )
                    }
                },
                _ => Reading::Fault,
            }
        },
    }
}

// ---- flows of money and volume -------------------------------------------------------------------

/// The summed money flow of the steps on which the typical price rose, and of those on which it
/// fell.
pub open spec fn money_flows(tp: Seq<Dec>, vol: Seq<Dec>) -> (Option<Dec>, Option<Dec>)
    decreases tp.len(),
{
    if tp.len() < 2 {
        (Some(Dec::whole(0)), Some(Dec::whole(0)))
    } else {
        let (up, down) = money_flows(tp.drop_last(), vol.drop_last());
        let flow = times(Some(tp.last()), Some(vol.last()));
        if flow is None {
            (None, None)
        } else if dec_lt(tp[tp.len() - 2], tp.last()) {
            (plus(up, flow), down)
        } else if dec_lt(tp.last(), tp[tp.len() - 2]) {
            (up, plus(down, flow))
        } else {
            (up, down)
        }
    }
}

/// See [`PriceKind::Mfi`].
pub open spec fn mfi(w: Window) -> Reading {
    let (up, down) = money_flows(w.typical, w.volume);
    balance_index(up, down)
}

/// The volume signed by the close's direction, and the total volume, from the second bar on.
pub open spec fn signed_volumes(c: Seq<Dec>, vol: Seq<Dec>) -> (Option<Dec>, Option<Dec>)
    decreases c.len(),
{
    if c.len() < 2 {
        (Some(Dec::whole(0)), Some(Dec::whole(0)))
    } else {
        let (signed, all) = signed_volumes(c.drop_last(), vol.drop_last());
        let v = Some(vol.last());
        if dec_lt(c[c.len() - 2], c.last()) {
            (plus(signed, v), plus(all, v))
        } else if dec_lt(c.last(), c[c.len() - 2]) {
            (minus(signed, v), plus(all, v))
        } else {
            (signed, plus(all, v))
        }
    }
}

/// See [`PriceKind::SignedVolumeRatio`].
pub open spec fn signed_volume_ratio(w: Window) -> Reading {
    let (signed, all) = signed_volumes(w.close, w.volume);
    guarded_ratio(signed, all)
}

/// See [`PriceKind::VolumeRatio`].
pub open spec fn volume_ratio(w: Window) -> Reading {
    guarded_ratio(Some(w.volume.last()), mean(w.volume))
}

/// Where the close lies between low and high, from -1 to 1; 0 if they are the same.
pub open spec fn close_location(high: Dec, low: Dec, close: Dec) -> Option<Dec> {
    match minus(Some(high), Some(low)) {
        Some(range) => if range.m() == 0 {
            Some(Dec::whole(0))
        } else {
            over(
                minus(minus(Some(close), Some(low)), minus(Some(high), Some(close))),
                Some(range),
            )
        },
        None => None,
    }
}

/// The volume weighted by [`close_location`], and the total volume.
pub open spec fn located_volumes(w: Window) -> (Option<Dec>, Option<Dec>)
    decreases w.high.len(),
{
    if w.high.len() == 0 {
        (Some(Dec::whole(0)), Some(Dec::whole(0)))
    } else {
        let (mfv, all) = located_volumes(
            Window {
                close: w.close.drop_last(),
                high: w.high.drop_last(),
                low: w.low.drop_last(),
                volume: w.volume.drop_last(),
                typical: w.typical,
            },
        );
        let mfm = close_location(w.high.last(), w.low.last(), w.close.last());
        let v = Some(w.volume.last());
        (plus(mfv, times(mfm, v)), plus(all, v))
    }
}

/// See [`PriceKind::Cmf`].
pub open spec fn cmf(w: Window) -> Reading {
    let (mfv, all) = located_volumes(w);
    guarded_ratio(mfv, all)
}

fn mfi_of(b: &Bars) -> (r: Reading)
    requires
        b@.typical.len() > 0,
        b@.has_len(b@.typical.len() as int),
    ensures
        r == mfi(b@),
{
    let tp: Vec<Dec> = b.typical().values();
    let vol: Vec<Dec> = b.volume().values();
    let mut up: Option<Dec> = Some(Dec::from_int(0));
    let mut down: Option<Dec> = Some(Dec::from_int(0));
    let mut i: usize = 1;
    while i < tp.len()
        invariant
            1 <= i <= tp.len(),
            tp.len() == vol.len(),
            (up, down) == money_flows(tp@.take(i as int), vol@.take(i as int)),
        decreases tp.len() - i,
    {
        assert(tp@.take(i + 1).drop_last() =~= tp@.take(i as int));
        assert(vol@.take(i + 1).drop_last() =~= vol@.take(i as int));
        let flow: Option<Dec> = tp[i].checked_mul(vol[i]);
        if flow.is_none() {
            up = None;
            down = None;
        } else if tp[i - 1].less_than(tp[i]) {
            up = add_results(up, flow);
        } else if tp[i].less_than(tp[i - 1]) {
            down = add_results(down, flow);
        }
        i = i + 1;
    }
    assert(tp@.take(i as int) =~= tp@);
    assert(vol@.take(i as int) =~= vol@);
    balance_index_of(up, down)
}

fn signed_volume_ratio_of(b: &Bars) -> (r: Reading)
    requires
        b@.close.len() > 0,
        b@.has_len(b@.close.len() as int),
    ensures
        r == signed_volume_ratio(b@),
{
    let c: Vec<Dec> = b.close().values();
    let vol: Vec<Dec> = b.volume().values();
    let mut signed: Option<Dec> = Some(Dec::from_int(0));
    let mut all: Option<Dec> = Some(Dec::from_int(0));
    let mut i: usize = 1;
    while i < c.len()
        invariant
            1 <= i <= c.len(),
            c.len() == vol.len(),
            (signed, all) == signed_volumes(c@.take(i as int), vol@.take(i as int)),
        decreases c.len() - i,
    {
        assert(c@.take(i + 1).drop_last() =~= c@.take(i as int));
        assert(vol@.take(i + 1).drop_last() =~= vol@.take(i as int));
        all = add_results(all, Some(vol[i]));
        if c[i - 1].less_than(c[i]) {
            signed = add_results(signed, Some(vol[i]));
        } else if c[i].less_than(c[i - 1]) {
            signed = subtract_results(signed, Some(vol[i]));
        }
        i = i + 1;
    }
    assert(c@.take(i as int) =~= c@);
    assert(vol@.take(i as int) =~= vol@);
    guarded_ratio_of(signed, all)
}

fn close_location_of(high: Dec, low: Dec, close: Dec) -> (r: Option<Dec>)
    ensures
        r == close_location(high, low, close),
{
    match high.checked_sub(low) {
        Some(range) => {
            if range.is_zero() {
                Some(Dec::from_int(0))
            } else {
                divide_results(
                    subtract_results(close.checked_sub(low), high.checked_sub(close)),
                    Some(range),
                )
            }
        },
        None => None,
    }
}

/// The first `n` bars of a window, as far as [`located_volumes`] reads them.
spec fn leading(w: Window, n: int) -> Window {
    Window {
        close: w.close.take(n),
        high: w.high.take(n),
        low: w.low.take(n),
        volume: w.volume.take(n),
        typical: w.typical,
    }
}

fn cmf_of(b: &Bars) -> (r: Reading)
    requires
        b@.has_len(b@.close.len() as int),
    ensures
        r == cmf(b@),
{
    let h: Vec<Dec> = b.high().values();
    let l: Vec<Dec> = b.low().values();
    let c: Vec<Dec> = b.close().values();
    let v: Vec<Dec> = b.volume().values();
    let mut mfv: Option<Dec> = Some(Dec::from_int(0));
    let mut all: Option<Dec> = Some(Dec::from_int(0));
    let mut i: usize = 0;
    while i < h.len()
        invariant
            i <= h.len(),
            h@ == b@.high,
            l@ == b@.low,
            c@ == b@.close,
            v@ == b@.volume,
            b@.has_len(h@.len() as int),
            (mfv, all) == located_volumes(leading(b@, i as int)),
        decreases h.len() - i,
    {
        proof {
            let next = leading(b@, i + 1);
            let here = leading(b@, i as int);
            assert(next.close.drop_last() =~= here.close);
            assert(next.high.drop_last() =~= here.high);
            assert(next.low.drop_last() =~= here.low);
            assert(next.volume.drop_last() =~= here.volume);
        }
        let mfm: Option<Dec> = close_location_of(h[i], l[i], c[i]);
        mfv = add_results(mfv, multiply_results(mfm, Some(v[i])));
        all = add_results(all, Some(v[i]));
        i = i + 1;
    }
    proof {
        let here = leading(b@, i as int);
        assert(here.close =~= b@.close);
        assert(here.high =~= b@.high);
        assert(here.low =~= b@.low);
        assert(here.volume =~= b@.volume);
    }
    guarded_ratio_of(mfv, all)
}

fn volume_ratio_of(b: &Bars) -> (r: Reading)
    requires
        b@.volume.len() > 0,
    ensures
        r == volume_ratio(b@),
{
    guarded_ratio_of(b.volume().last(), average(&b.volume().values()))
}

// ---- extremes ------------------------------------------------------------------------------------

/// The position of the largest value, the newest one of equals.
pub open spec fn newest_high(s: Seq<Dec>) -> int
    decreases s.len(),
{
    if s.len() <= 1 {
        0
    } else if dec_lt(s.last(), s[newest_high(s.drop_last())]) {
        newest_high(s.drop_last())
    } else {
        s.len() - 1
    }
}

/// The position of the smallest value, the newest one of equals.
pub open spec fn newest_low(s: Seq<Dec>) -> int
    decreases s.len(),
{
    if s.len() <= 1 {
        0
    } else if dec_lt(s[newest_low(s.drop_last())], s.last()) {
        newest_low(s.drop_last())
    } else {
        s.len() - 1
    }
}

/// How recent a position is, from 0 to 100.
pub open spec fn recency(n: int, position: int) -> Option<Dec> {
    let span = Some(Dec::whole(n - 1));
    times(over(minus(span, Some(Dec::whole(n - 1 - position))), span), hundred())
}

/// See [`PriceKind::AroonOsc`].
pub open spec fn aroon_osc(w: Window) -> Reading {
    let n = w.high.len() as int;
    if n < 2 {
        Reading::Undefined
    } else {
        reading(minus(recency(n, newest_high(w.high)), recency(n, newest_low(w.low))))
    }
}

fn recency_of(n: usize, position: usize) -> (r: Option<Dec>)
    requires
        position < n,
    ensures
        r == recency(n as int, position as int),
{
    let span: Option<Dec> = Some(Dec::from_count(n - 1));
    multiply_results(
        divide_results(subtract_results(span, Some(Dec::from_count(n - 1 - position))), span),
        one_hundred(),
    )
}

fn aroon_osc_of(b: &Bars) -> (r: Reading)
    requires
        b@.has_len(b@.high.len() as int),
    ensures
        r == aroon_osc(b@),
{
    let highs: Vec<Dec> = b.high().values();
    let lows: Vec<Dec> = b.low().values();
    let n: usize = highs.len();
    if n < 2 {
        return Reading::Undefined;
    }
    let mut hh: usize = 0;
    let mut ll: usize = 0;
    let mut i: usize = 1;
    while i < n
        invariant
            1 <= i <= n == highs.len() == lows.len(),
            hh < i,
            ll < i,
            hh == newest_high(highs@.take(i as int)),
            ll == newest_low(lows@.take(i as int)),
        decreases n - i,
    {
        assert(highs@.take(i + 1).drop_last() =~= highs@.take(i as int));
        assert(lows@.take(i + 1).drop_last() =~= lows@.take(i as int));
        if !highs[i].less_than(highs[hh]) {
            hh = i;
        }
        if !lows[ll].less_than(lows[i]) {
            ll = i;
        }
        i = i + 1;
    }
    assert(highs@.take(i as int) =~= highs@);
    assert(lows@.take(i as int) =~= lows@);
    read_result(subtract_results(recency_of(n, hh), recency_of(n, ll)))
}

/// The larger of two results, the first one of equals.
pub open spec fn larger(a: Option<Dec>, b: Option<Dec>) -> Option<Dec> {
    match (a, b) {
        (Some(x), Some(y)) => if dec_lt(x, y) {
            Some(y)
        } else {
            Some(x)
        },
        _ => None,
    }
}

/// The true range of a bar after a close of `before`.
pub open spec fn true_range(high: Dec, low: Dec, before: Dec) -> Option<Dec> {
    larger(
        larger(
            minus(Some(high), Some(low)),
            unsigned(minus(Some(high), Some(before))),
        ),
        unsigned(minus(Some(low), Some(before))),
    )
}

/// The summed true ranges, from the second bar on.
pub open spec fn true_ranges(h: Seq<Dec>, l: Seq<Dec>, c: Seq<Dec>) -> Option<Dec>
    decreases h.len(),
{
    if h.len() < 2 {
        Some(Dec::whole(0))
    } else {
        plus(
            true_ranges(h.drop_last(), l.drop_last(), c.drop_last()),
            true_range(h.last(), l.last(), c[c.len() - 2]),
        )
    }
}

/// A result in percent of a number that must not be zero to be defined.
pub open spec fn percent_of(v: Option<Dec>, base: Dec) -> Reading {
    if v is None {
        Reading::Fault
    } else if base.m() == 0 {
        Reading::Undefined
    } else {
        reading(times(over(v, Some(base)), hundred()))
    }
}

/// See [`PriceKind::AtrPct`].
pub open spec fn atr_pct(w: Window) -> Reading {
    percent_of(
        over(true_ranges(w.high, w.low, w.close), Some(Dec::whole(w.high.len() - 1))),
        w.close.last(),
    )
}

fn larger_of(a: Option<Dec>, b: Option<Dec>) -> (r: Option<Dec>)
    ensures
        r == larger(a, b),
{
    match (a, b) {
        (Some(x), Some(y)) => {
            if x.less_than(y) {
                Some(y)
            } else {
                Some(x)
            }
        },
        _ => None,
    }
}

fn true_range_of(high: Dec, low: Dec, before: Dec) -> (r: Option<Dec>)
    ensures
        r == true_range(high, low, before),
{
    larger_of(
        larger_of(high.checked_sub(low), unsign_result(high.checked_sub(before))),
        unsign_result(low.checked_sub(before)),
    )
}

fn percent_of_base(v: Option<Dec>, base: Dec) -> (r: Reading)
    ensures
        r == percent_of(v, base),
{
    match v {
        Some(x) => {
            if base.is_zero() {
                Reading::Undefined
            } else {
                read_result(multiply_results(x.checked_div(base), one_hundred()))
            }
        },
        None => Reading::Fault,
    }
}

fn atr_pct_of(b: &Bars, last: Dec) -> (r: Reading)
    requires
        b@.high.len() > 0,
        b@.has_len(b@.high.len() as int),
        last == b@.close.last(),
    ensures
        r == atr_pct(b@),
{
    let h: Vec<Dec> = b.high().values();
    let l: Vec<Dec> = b.low().values();
    let c: Vec<Dec> = b.close().values();
    let mut sum: Option<Dec> = Some(Dec::from_int(0));
    let mut i: usize = 1;
    while i < h.len()
        invariant
            1 <= i <= h.len(),
            h.len() == l.len() == c.len(),
            sum == true_ranges(h@.take(i as int), l@.take(i as int), c@.take(i as int)),
        decreases h.len() - i,
    {
        assert(h@.take(i + 1).drop_last() =~= h@.take(i as int));
        assert(l@.take(i + 1).drop_last() =~= l@.take(i as int));
        assert(c@.take(i + 1).drop_last() =~= c@.take(i as int));
        sum = add_results(sum, true_range_of(h[i], l[i], c[i - 1]));
        i = i + 1;
    }
    assert(h@.take(i as int) =~= h@);
    assert(l@.take(i as int) =~= l@);
    assert(c@.take(i as int) =~= c@);
    let atr: Option<Dec> = divide_results(sum, Some(Dec::from_count(h.len() - 1)));
    percent_of_base(atr, last)
}

// ---- dispersion of returns -----------------------------------------------------------------------

/// What reading the simple returns off a series came to.
pub enum Returns {
    /// The returns.
    Series(Seq<Dec>),
    /// A base price of zero was met.
    Undefined,
    /// A return was out of range.
    Fault,
}

/// The simple returns between neighbouring values, as far as they can be formed in order.
pub open spec fn simple_returns(c: Seq<Dec>) -> Returns
    decreases c.len(),
{
    if c.len() < 2 {
        Returns::Series(Seq::empty())
    } else {
        match simple_returns(c.drop_last()) {
            Returns::Series(s) => {
                let base = c[c.len() - 2];
                if base.m() == 0 {
                    Returns::Undefined
                } else {
                    match minus(over(Some(c.last()), Some(base)), Some(Dec::whole(1))) {
                        Some(x) => Returns::Series(s.push(x)),
                        None => Returns::Fault,
                    }
                }
            },
            other => other,
        }
    }
}

/// A reading in percent.
pub open spec fn in_percent(v: Reading) -> Reading {
    match v {
        Reading::Value(x) => reading(times(Some(x), hundred())),
        other => other,
    }
}

/// See [`PriceKind::StdReturns`].
pub open spec fn std_returns(w: Window) -> Reading {
    match simple_returns(w.close) {
        Returns::Series(s) => in_percent(root_of(variance(s))),
        Returns::Undefined => Reading::Undefined,
        Returns::Fault => Reading::Fault,
    }
}

/// A series cut short by an undefined or faulty return stays so when it goes on.
proof fn lemma_returns_stay_cut(c: Seq<Dec>, i: int)
    requires
        0 <= i <= c.len(),
        !(simple_returns(c.take(i)) is Series),
    ensures
        simple_returns(c) == simple_returns(c.take(i)),
    decreases c.len() - i,
{
    if i == c.len() {
        assert(c.take(i) =~= c);
    } else {
        assert(c.take(i + 1).drop_last() =~= c.take(i));
        lemma_returns_stay_cut(c, i + 1);
    }
}

fn std_returns_of(b: &Bars) -> (r: Reading)
    requires
        b@.close.len() > 0,
    ensures
        r == std_returns(b@),
{
    let c: Vec<Dec> = b.close().values();
    let mut rets: Vec<Dec> = Vec::new();
    let mut i: usize = 1;
    while i < c.len()
        invariant
            1 <= i <= c.len(),
            c@ == b@.close,
            simple_returns(c@.take(i as int)) == Returns::Series(rets@),
        decreases c.len() - i,
    {
        assert(c@.take(i + 1).drop_last() =~= c@.take(i as int));
        if c[i - 1].is_zero() {
            proof {
                lemma_returns_stay_cut(c@, i + 1);
            }
            return Reading::Undefined;
        }
        let ret: Option<Dec> = subtract_results(c[i].checked_div(c[i - 1]), Some(Dec::from_int(1)));
        match ret {
            Some(x) => {
                rets.push(x);
            },
            None => {
                proof {
                    lemma_returns_stay_cut(c@, i + 1);
                }
                return Reading::Fault;
            },
        }
        i = i + 1;
    }
    assert(c@.take(i as int) =~= c@);
    match variance_of(&rets) {
        Some(v) => match v.sqrt() {
            Reading::Value(x) => read_result(multiply_results(Some(x), one_hundred())),
            other => other,
        },
        None => Reading::Fault,
    }
}

// ---- MACD ----------------------------------------------------------------------------------------

/// The MACD value at position `end` of the closes.
pub open spec fn macd_at(c: Seq<Dec>, end: int) -> Option<Dec> {
    minus(
        ema(c.subrange(end + 1 - MACD_FAST, end + 1), smoothing(MACD_FAST as int)),
        ema(c.subrange(end + 1 - MACD_SLOW, end + 1), smoothing(MACD_SLOW as int)),
    )
}

/// The MACD values from the first position with a full slow window up to `end`, or `None` once one
/// of them is out of range.
pub open spec fn macd_line(c: Seq<Dec>, end: int) -> Option<Seq<Dec>>
    decreases end,
{
    if end < MACD_SLOW {
        Some(Seq::empty())
    } else {
        match (macd_line(c, end - 1), macd_at(c, end - 1)) {
            (Some(line), Some(x)) => Some(line.push(x)),
            _ => None,
        }
    }
}

/// See [`PriceKind::MacdHist`].
pub open spec fn macd_hist(w: Window) -> Reading {
    let c = w.close;
    if c.len() < MACD_SLOW + MACD_SIGNAL - 1 {
        Reading::Undefined
    } else {
        match macd_line(c, c.len() as int) {
            Some(line) => percent_of(minus(Some(line.last()), mean(line)), c.last()),
            None => Reading::Fault,
        }
    }
}

/// A MACD line that broke off stays broken off.
proof fn lemma_macd_line_stays_cut(c: Seq<Dec>, i: int, end: int)
    requires
        i <= end,
        macd_line(c, i) is None,
    ensures
        macd_line(c, end) is None,
    decreases end - i,
{
    if i < end {
        assert(i >= MACD_SLOW);
        assert(macd_line(c, i + 1) is None);
        lemma_macd_line_stays_cut(c, i + 1, end);
    }
}

fn macd_hist_of(b: &Bars, last: Dec) -> (r: Reading)
    requires
        b@.close.len() > 0,
        last == b@.close.last(),
    ensures
        r == macd_hist(b@),
{
    let c: Vec<Dec> = b.close().values();
    if c.len() < MACD_SLOW + MACD_SIGNAL - 1 {
        return Reading::Undefined;
    }
    let fast_k: Option<Dec> = smoothing_of(MACD_FAST);
    let slow_k: Option<Dec> = smoothing_of(MACD_SLOW);
    let mut line: Vec<Dec> = Vec::new();
    let mut end: usize = MACD_SLOW - 1;
    while end < c.len()
        invariant
            MACD_SLOW - 1 <= end <= c.len(),
            c.len() >= MACD_SLOW + MACD_SIGNAL - 1,
            c@ == b@.close,
            fast_k == smoothing(MACD_FAST as int),
            slow_k == smoothing(MACD_SLOW as int),
            macd_line(c@, end as int) == Some(line@),
            line.len() == end + 1 - MACD_SLOW,
        decreases c.len() - end,
    {
        let fast: Option<Dec> = ema_of(&c, end + 1 - MACD_FAST, end + 1, fast_k);
        let slow: Option<Dec> = ema_of(&c, end + 1 - MACD_SLOW, end + 1, slow_k);
        assert(macd_line(c@, end + 1) == match macd_at(c@, end as int) {
            Some(x) => Some(line@.push(x)),
            None => None,
        });
        match subtract_results(fast, slow) {
            Some(x) => {
                line.push(x);
            },
            None => {
                proof {
                    lemma_macd_line_stays_cut(c@, end + 1, c@.len() as int);
                }
                return Reading::Fault;
            },
        }
        end = end + 1;
    }
    let newest: Dec = line[line.len() - 1];
    percent_of_base(subtract_results(Some(newest), average(&line)), last)
}

// ---- one entry point -----------------------------------------------------------------------------

/// The value of `kind` on a window.
pub open spec fn price_value(kind: PriceKind, w: Window) -> Reading {
    match kind {
        PriceKind::SmaRatio => sma_ratio(w),
        PriceKind::EmaRatio => ema_ratio(w),
        PriceKind::Rsi => rsi(w),
        PriceKind::StochK => stoch_k(w),
        PriceKind::WilliamsR => williams_r(w),
        PriceKind::Roc => roc(w),
        PriceKind::Cci => cci(w),
        PriceKind::BbPercent => bb_percent(w),
        PriceKind::BbBandwidth => bb_bandwidth(w),
        PriceKind::Mfi => mfi(w),
        PriceKind::AroonOsc => aroon_osc(w),
        PriceKind::AtrPct => atr_pct(w),
        PriceKind::StdReturns => std_returns(w),
        PriceKind::VolumeRatio => volume_ratio(w),
        PriceKind::SignedVolumeRatio => signed_volume_ratio(w),
        PriceKind::Cmf => cmf(w),
        PriceKind::MacdHist => macd_hist(w),
    }
}

impl PriceKind {
    /// The value on the bars in view.
    pub fn value(self, b: &Bars) -> (r: Reading)
        requires
            b@.close.len() > 0,
        ensures
            r == price_value(self, b@),
    {
        // Asking for the span says that every column holds one entry per bar.
        let _ = b.cap();
        let last: Dec = match b.close().last() {
            Some(x) => x,
            None => {
                return Reading::Undefined;
            },
        };
        match self {
            PriceKind::SmaRatio => sma_ratio_of(b, last),
            PriceKind::EmaRatio => ema_ratio_of(b, last),
            PriceKind::Rsi => rsi_of(b),
            PriceKind::StochK => match (b.high().max(), b.low().min()) {
                (Some(hi), Some(lo)) => stoch_k_of(hi, lo, last),
                _ => Reading::Undefined,
            },
            PriceKind::WilliamsR => match (b.high().max(), b.low().min()) {
                (Some(hi), Some(lo)) => williams_r_of(hi, lo, last),
                _ => Reading::Undefined,
            },
            PriceKind::Roc => match b.close().first() {
                Some(first) => pct_change_of(first, last),
                None => Reading::Undefined,
            },
            PriceKind::Cci => cci_of(b),
            PriceKind::BbPercent => bb_percent_of(b, last),
            PriceKind::BbBandwidth => bb_bandwidth_of(b),
            PriceKind::Mfi => mfi_of(b),
            PriceKind::AroonOsc => aroon_osc_of(b),
            PriceKind::AtrPct => atr_pct_of(b, last),
            PriceKind::StdReturns => std_returns_of(b),
            PriceKind::VolumeRatio => volume_ratio_of(b),
            PriceKind::SignedVolumeRatio => signed_volume_ratio_of(b),
            PriceKind::Cmf => cmf_of(b),
            PriceKind::MacdHist => macd_hist_of(b, last),
        }
    }
}

} // verus!
