//! What the price indicators say of the market: which way they point, and where they lie.
//!
//! The values are computed with decimals that round. The laws hold of every arithmetic that is
//! [`faithful`].

use vstd::prelude::*;

use crate::decimal::{
    dec_lt, decimal_difference, decimal_product, decimal_quotient, decimal_sum, difference_facts, law_order_is_total,
    law_order_is_transitive, lemma_lt_at_max_scale, lemma_of, lemma_pow10_bounded, lemma_pow10_max, lemma_wf, magnitude,
    mean, minus, no_larger, over, plus, pow10, product_facts, quotient_facts, sum_facts, times,
    total, Dec, Reading, MAX_SCALE,
};
use crate::signal::bars::Window;
use crate::signal::price::{
    balance_index, close_location, ema, macd_line, money_flows, newest_high, newest_low,
    pct_change, percent_of, price_value, rises_and_falls, signed_volumes, simple_returns,
    smoothing, true_range, true_ranges, PriceKind, Returns,
};
use crate::signal::roll::{largest, smallest, window_mean_abs_dev, window_std};

verus! {

/// Whether the operations on decimals are what their facts say of every pair of numbers, and round by
/// the value of the exact result alone: a larger result is not rounded to a smaller number.
pub open spec fn faithful() -> bool {
    &&& forall|a: Dec, b: Dec|
        a.wf() && b.wf() ==> sum_facts(a, b, #[trigger] decimal_sum(a, b))
    &&& forall|a: Dec, b: Dec|
        a.wf() && b.wf() ==> difference_facts(a, b, #[trigger] decimal_difference(a, b))
    &&& forall|a: Dec, b: Dec|
        a.wf() && b.wf() ==> product_facts(a, b, #[trigger] decimal_product(a, b))
    &&& forall|a: Dec, b: Dec|
        a.wf() && b.wf() ==> quotient_facts(a, b, #[trigger] decimal_quotient(a, b))
    &&& forall|a: Dec, b: Dec, c: Dec|
        a.wf() && b.wf() && c.wf() && !dec_lt(b, c) ==> no_larger(
            #[trigger] decimal_sum(a, c),
            #[trigger] decimal_sum(a, b),
        )
    &&& forall|a: Dec, b: Dec, c: Dec|
        a.wf() && b.wf() && c.wf() && b.m() <= 0 && !dec_lt(a, c) ==> no_larger(
            #[trigger] decimal_product(a, b),
            #[trigger] decimal_product(c, b),
        )
    &&& forall|a: Dec, b: Dec|
        a.wf() && b.wf() && b.m() >= pow10(b.s()) && a.m() >= 0 ==> (
        #[trigger] decimal_quotient(a, b) matches Some(x) ==> !dec_lt(a, x))
    &&& forall|a: Dec, b: Dec|
        a.wf() && b.wf() && b.m() >= pow10(b.s()) && a.m() <= 0 ==> (
        #[trigger] decimal_quotient(a, b) matches Some(x) ==> !dec_lt(x, a))
}

/// A number less itself is nothing.
proof fn lemma_nothing_left(a: Dec)
    requires
        faithful(),
        a.wf(),
    ensures
        decimal_difference(a, a) is Some,
        decimal_difference(a, a)->0.m() == 0,
        decimal_difference(a, a)->0.wf(),
{
    lemma_wf(a);
    assert(difference_facts(a, a, decimal_difference(a, a)));
    lemma_of(-a.m(), a.s());
    assert(pow10(0) == 1);
    assert(a.at_scale(a.s()) == a.m()) by (nonlinear_arith)
        requires
            a.at_scale(a.s()) == a.m() * pow10(0),
            pow10(0) == 1,
    ;
    lemma_of(0, a.s());
}

/// The sign of a number by its order with a zero.
proof fn lemma_sign(z: Dec, x: Dec)
    requires
        z.wf(),
        x.wf(),
        z.m() == 0,
    ensures
        !dec_lt(z, x) ==> x.m() <= 0,
        !dec_lt(x, z) ==> x.m() >= 0,
        x.m() <= 0 ==> !dec_lt(z, x),
        x.m() >= 0 ==> !dec_lt(x, z),
{
    lemma_wf(z);
    lemma_wf(x);
    lemma_pow10_bounded(z.s());
    lemma_pow10_bounded(x.s());
    let p = pow10(z.s());
    assert(z.m() * pow10(x.s()) == 0) by (nonlinear_arith)
        requires
            z.m() == 0,
    ;
    assert(x.m() > 0 ==> x.m() * p > 0) by (nonlinear_arith)
        requires
            p >= 1,
    ;
    assert(x.m() < 0 ==> x.m() * p < 0) by (nonlinear_arith)
        requires
            p >= 1,
    ;
    assert(x.m() == 0 ==> x.m() * p == 0) by (nonlinear_arith);
}

/// A difference from a number that is no smaller is not positive.
proof fn lemma_less_is_not_positive(low: Dec, high: Dec)
    requires
        faithful(),
        low.wf(),
        high.wf(),
        !dec_lt(high, low),
    ensures
        decimal_difference(low, high) matches Some(x) ==> x.wf() && x.m() <= 0,
{
    lemma_nothing_left(high);
    let zero = decimal_difference(high, high);
    assert(difference_facts(high, high, zero));
    assert(no_larger(decimal_difference(low, high), zero));
    if let Some(x) = decimal_difference(low, high) {
        lemma_sign(zero->0, x);
    }
}

// ---- exponential averages ------------------------------------------------------------------------

/// The smoothing factor over `period` values is two parts in one more than the period, rounded to 28
/// decimals.
pub proof fn law_smoothing_is_two_in_period_and_one(period: int)
    requires
        faithful(),
        1 <= period < 0xffff_ffff,
    ensures
        smoothing(period) is Some,
        smoothing(period)->0.wf(),
        smoothing(period)->0.m() >= 0,
        2 * magnitude(
            smoothing(period)->0.at_scale(MAX_SCALE as nat) * (period + 1) - 2 * pow10(
                MAX_SCALE as nat,
            ),
        ) <= period + 1,
{
    lemma_of(2, 0);
    lemma_of(period + 1, 0);
    let a = Dec::whole(2);
    let b = Dec::whole(period + 1);
    assert(quotient_facts(a, b, decimal_quotient(a, b)));
}

/// The faster of two averages has the larger smoothing factor.
proof fn lemma_faster_is_larger(fast: int, slow: int)
    requires
        faithful(),
        1 <= fast < slow <= 1000,
    ensures
        smoothing(fast) is Some,
        smoothing(slow) is Some,
        smoothing(fast)->0.wf(),
        smoothing(slow)->0.wf(),
        !dec_lt(smoothing(fast)->0, smoothing(slow)->0),
{
    law_smoothing_is_two_in_period_and_one(fast);
    law_smoothing_is_two_in_period_and_one(slow);
    let f = smoothing(fast)->0;
    let s = smoothing(slow)->0;
    lemma_pow10_max();
    lemma_lt_at_max_scale(f, s);
    let vf = f.at_scale(MAX_SCALE as nat);
    let vs = s.at_scale(MAX_SCALE as nat);
    let t = pow10(MAX_SCALE as nat);
    assert(vs <= vf) by (nonlinear_arith)
        requires
            2 * (2 * t - vf * (fast + 1)) <= fast + 1,
            2 * (vs * (slow + 1) - 2 * t) <= slow + 1,
            1 <= fast < slow <= 1000,
            t >= 10_000_000_000,
    ;
}

/// An exponential average moves towards the newest value by the smoothing factor's share of the distance,
/// and starts at the first value.
pub proof fn law_average_moves_towards_the_newest(values: Seq<Dec>, x: Dec, k: Option<Dec>)
    ensures
        ema(seq![x], k) == Some(x),
        values.len() > 0 ==> ema(values.push(x), k) == plus(
            ema(values, k),
            times(k, minus(Some(x), ema(values, k))),
        ),
{
    if values.len() > 0 {
        assert(values.push(x).drop_last() =~= values);
    }
}

/// The exponential average of one price over and over is that price, whatever the smoothing.
pub proof fn law_average_of_a_flat_series(values: Seq<Dec>, c: Dec, k: Option<Dec>)
    requires
        faithful(),
        values.len() > 0,
        c.wf(),
        c.m() != 0,
        k is Some,
        k->0.wf(),
        forall|i: int| 0 <= i < values.len() ==> #[trigger] values[i] == c,
    ensures
        ema(values, k) == Some(c),
    decreases values.len(),
{
    if values.len() == 1 {
        assert(values[0] == c);
    } else {
        let rest = values.drop_last();
        assert forall|i: int| 0 <= i < rest.len() implies #[trigger] rest[i] == c by {
            assert(rest[i] == values[i]);
        }
        law_average_of_a_flat_series(rest, c, k);
        assert(values.last() == values[values.len() - 1]);
        lemma_nothing_left(c);
        let d = decimal_difference(c, c)->0;
        assert(product_facts(k->0, d, decimal_product(k->0, d)));
        lemma_of(0, 0);
        assert(sum_facts(c, Dec::whole(0), decimal_sum(c, Dec::whole(0))));
    }
}

// ---- MACD ----------------------------------------------------------------------------------------

/// The average of a series that is flat up to its last price: one step from the flat price.
proof fn lemma_one_step(values: Seq<Dec>, c: Dec, k: Option<Dec>)
    requires
        faithful(),
        values.len() >= 2,
        c.wf(),
        c.m() != 0,
        k is Some,
        k->0.wf(),
        forall|i: int| 0 <= i < values.len() - 1 ==> #[trigger] values[i] == c,
    ensures
        ema(values, k) == plus(Some(c), times(k, minus(Some(values.last()), Some(c)))),
{
    let rest = values.drop_last();
    assert forall|i: int| 0 <= i < rest.len() implies #[trigger] rest[i] == c by {
        assert(rest[i] == values[i]);
    }
    law_average_of_a_flat_series(rest, c, k);
}

/// The MACD line over prices that do not move is nothing throughout.
proof fn lemma_flat_line(closes: Seq<Dec>, c: Dec, end: int)
    requires
        faithful(),
        26 - 1 <= end <= closes.len(),
        c.wf(),
        c.m() != 0,
        forall|i: int| 0 <= i < end ==> #[trigger] closes[i] == c,
    ensures
        macd_line(closes, end) is Some,
        macd_line(closes, end)->0.len() == end + 1 - 26,
        forall|i: int|
            0 <= i < end + 1 - 26 ==> (#[trigger] macd_line(closes, end)->0[i]).wf() && macd_line(
                closes,
                end,
            )->0[i].m() == 0,
    decreases end,
{
    if end >= 26 {
        lemma_flat_line(closes, c, end - 1);
        law_smoothing_is_two_in_period_and_one(12);
        law_smoothing_is_two_in_period_and_one(26);
        law_average_of_a_flat_series(closes.subrange(end - 12, end), c, smoothing(12));
        law_average_of_a_flat_series(closes.subrange(end - 26, end), c, smoothing(26));
        lemma_nothing_left(c);
    }
}

/// The sum of nothings is nothing, and with one more number it is that number.
proof fn lemma_total_of_nothings(line: Seq<Dec>)
    requires
        faithful(),
        forall|i: int|
            0 <= i < line.len() ==> (#[trigger] line[i]).wf() && line[i].m() == 0,
    ensures
        total(line) is Some,
        total(line)->0.wf(),
        total(line)->0.m() == 0,
    decreases line.len(),
{
    lemma_of(0, 0);
    if line.len() > 0 {
        let rest = line.drop_last();
        assert forall|i: int| 0 <= i < rest.len() implies (#[trigger] rest[i]).wf() && rest[i].m()
            == 0 by {
            assert(rest[i] == line[i]);
        }
        lemma_total_of_nothings(rest);
        assert(line.last() == line[line.len() - 1]);
        let a = total(rest)->0;
        assert(sum_facts(a, line.last(), decimal_sum(a, line.last())));
    }
}

/// A number less its `n`th part has the number's sign, and so has what that is in percent of a price.
proof fn lemma_rest_keeps_sign(x: Dec, n: int, price: Dec)
    requires
        faithful(),
        x.wf(),
        price.wf(),
        price.m() > 0,
        1 <= n < 0x1_0000_0000,
    ensures
        ({
            let v = minus(Some(x), over(Some(x), Some(Dec::whole(n))));
            percent_of(v, price) matches Reading::Value(r) ==> r.wf() && (x.m() >= 0 ==> r.m()
                >= 0) && (x.m() <= 0 ==> r.m() <= 0)
        }),
{
    let by = Dec::whole(n);
    lemma_of(n, 0);
    lemma_of(100, 0);
    lemma_of(0, 0);
    assert(pow10(0) == 1);
    let q = decimal_quotient(x, by);
    assert(quotient_facts(x, by, q));
    if let Some(part) = q {
        let v = decimal_difference(x, part);
        assert(difference_facts(x, part, v));
        if x.m() <= 0 {
            lemma_less_is_not_positive(x, part);
        }
        if let Some(rest) = v {
            let share = decimal_quotient(rest, price);
            assert(quotient_facts(rest, price, share));
            let zero = Dec::whole(0);
            assert(quotient_facts(zero, price, decimal_quotient(zero, price)));
            if let Some(y) = share {
                let hundred = Dec::whole(100);
                assert(product_facts(y, hundred, decimal_product(y, hundred)));
                assert(product_facts(zero, hundred, decimal_product(zero, hundred)));
                if x.m() <= 0 {
                    lemma_sign(zero, rest);
                    assert(no_larger(share, decimal_quotient(zero, price)));
                    lemma_sign(zero, y);
                    assert(no_larger(
                        decimal_product(y, hundred),
                        decimal_product(zero, hundred),
                    ));
                    if let Some(r) = decimal_product(y, hundred) {
                        lemma_sign(zero, r);
                    }
                }
            }
        }
    }
}

/// The MACD histogram turns with the price: where the closes do not move up to the last, it is not
/// negative if the last close is above them, and not positive if it is below. The average over 12 closes
/// is ahead of the average over 26, and the newest MACD value is ahead of its own average.
pub proof fn law_histogram_turns_with_the_price(w: Window, c: Dec)
    requires
        faithful(),
        34 <= w.close.len() < 0x1_0000_0000,
        c.wf(),
        c.m() > 0,
        forall|i: int| 0 <= i < w.close.len() - 1 ==> #[trigger] w.close[i] == c,
        w.close.last().wf(),
        w.close.last().m() > 0,
    ensures
        price_value(PriceKind::MacdHist, w) matches Reading::Value(r) ==> {
            &&& dec_lt(c, w.close.last()) ==> r.m() >= 0
            &&& dec_lt(w.close.last(), c) ==> r.m() <= 0
            &&& w.close.last() == c ==> r.m() == 0
        },
{
    let closes = w.close;
    let n = closes.len() as int;
    let last = closes.last();
    lemma_flat_line(closes, c, n - 1);
    lemma_faster_is_larger(12, 26);
    let before = macd_line(closes, n - 1)->0;
    lemma_one_step(closes.subrange(n - 12, n), c, smoothing(12));
    lemma_one_step(closes.subrange(n - 26, n), c, smoothing(26));
    let kf = smoothing(12)->0;
    let ks = smoothing(26)->0;
    let d = decimal_difference(last, c);
    assert(difference_facts(last, c, d));
    law_order_is_total(c, last);
    if dec_lt(last, c) || last == c {
        lemma_less_is_not_positive(last, c);
    }
    if macd_line(closes, n) is Some && d is Some {
        let step = d->0;
        let tf = decimal_product(kf, step);
        let ts = decimal_product(ks, step);
        assert(product_facts(kf, step, tf));
        assert(product_facts(ks, step, ts));
        let fast = plus(Some(c), tf);
        let slow = plus(Some(c), ts);
        assert(macd_line(closes, n) == Some(before.push(minus(fast, slow)->0)));
        assert(sum_facts(c, tf->0, fast));
        assert(sum_facts(c, ts->0, slow));
        let x = minus(fast, slow)->0;
        assert(difference_facts(fast->0, slow->0, minus(fast, slow)));
        if step.m() >= 0 {
            assert(no_larger(ts, tf));
            assert(no_larger(decimal_sum(c, ts->0), decimal_sum(c, tf->0)));
            assert(x.m() >= 0);
        }
        if step.m() <= 0 {
            assert(no_larger(tf, ts));
            assert(no_larger(decimal_sum(c, tf->0), decimal_sum(c, ts->0)));
            lemma_less_is_not_positive(fast->0, slow->0);
        }
        let line = before.push(x);
        assert(line.drop_last() =~= before);
        lemma_total_of_nothings(before);
        assert(sum_facts(total(before)->0, x, decimal_sum(total(before)->0, x)));
        assert(mean(line) == over(Some(x), Some(Dec::whole(n + 1 - 26))));
        lemma_rest_keeps_sign(x, n + 1 - 26, last);
    }
}

/// The MACD line has a value for every close with 26 closes behind it: the average of the 12 newest closes
/// less the average of the 26 newest. The histogram is the newest value less the mean of all of them, in
/// percent of the last close, and undefined below 34 closes.
pub proof fn law_histogram_is_fast_less_slow(w: Window)
    ensures
        w.close.len() < 34 ==> price_value(PriceKind::MacdHist, w) == Reading::Undefined,
        w.close.len() >= 34 ==> match macd_line(w.close, w.close.len() as int) {
            Some(line) => {
                &&& line.len() == w.close.len() - 25
                &&& forall|j: int|
                    0 <= j < line.len() ==> Some(#[trigger] line[j]) == minus(
                        ema(w.close.subrange(j + 14, j + 26), smoothing(12)),
                        ema(w.close.subrange(j, j + 26), smoothing(26)),
                    )
                &&& price_value(PriceKind::MacdHist, w) == percent_of(
                    minus(Some(line.last()), mean(line)),
                    w.close.last(),
                )
            },
            None => price_value(PriceKind::MacdHist, w) == Reading::Fault,
        },
{
    if w.close.len() >= 34 {
        lemma_line_entries(w.close, w.close.len() as int);
    }
}

proof fn lemma_line_entries(closes: Seq<Dec>, end: int)
    requires
        25 <= end <= closes.len(),
    ensures
        macd_line(closes, end) matches Some(line) ==> line.len() == end - 25 && forall|j: int|
            0 <= j < line.len() ==> Some(#[trigger] line[j]) == minus(
                ema(closes.subrange(j + 14, j + 26), smoothing(12)),
                ema(closes.subrange(j, j + 26), smoothing(26)),
            ),
    decreases end,
{
    if end >= 26 {
        lemma_line_entries(closes, end - 1);
    }
}

// ---- percentages and bands -----------------------------------------------------------------------

/// Percentages are of a hundred: `k` times a number is `100 k` percent of it, and `100 (k - 1)` percent
/// above it. Nothing is a percentage of zero, nor above it.
pub proof fn law_percentages_are_of_a_hundred(m: int, s: nat, k: int)
    requires
        faithful(),
        0 < m,
        0 < k <= 1_000_000_000,
        s <= MAX_SCALE,
        crate::decimal::fits(k * m),
        crate::decimal::fits(m),
    ensures
        percent_of(Some(Dec::of(k * m, s)), Dec::of(m, s)) == Reading::Value(Dec::whole(100 * k)),
        pct_change(Dec::of(m, s), Dec::of(k * m, s)) == Reading::Value(Dec::whole(100 * (k - 1))),
        percent_of(Some(Dec::of(k * m, s)), Dec::of(0, s)) == Reading::Undefined,
        pct_change(Dec::of(0, s), Dec::of(k * m, s)) == Reading::Undefined,
{
    lemma_of(m, s);
    lemma_of(0, s);
    lemma_of(k * m, s);
    lemma_of(k, 0);
    lemma_of(1, 0);
    lemma_of(k - 1, 0);
    lemma_of(100, 0);
    lemma_of(0, 0);
    assert(pow10(0) == 1);
    let a = Dec::of(k * m, s);
    let b = Dec::of(m, s);
    assert(quotient_facts(a, b, decimal_quotient(a, b)));
    assert((k * m) % m == 0 && (k * m) / m == k && k * m > 0) by (nonlinear_arith)
        requires
            m > 0,
            k > 0,
    ;
    assert(decimal_quotient(a, b) == Some(Dec::whole(k)));
    assert(product_facts(
        Dec::whole(k),
        Dec::whole(100),
        decimal_product(Dec::whole(k), Dec::whole(100)),
    ));
    assert(difference_facts(
        Dec::whole(k),
        Dec::whole(1),
        decimal_difference(Dec::whole(k), Dec::whole(1)),
    ));
    assert(decimal_difference(Dec::whole(k), Dec::whole(1)) == Some(Dec::whole(k - 1)));
    assert(product_facts(
        Dec::whole(k - 1),
        Dec::whole(100),
        decimal_product(Dec::whole(k - 1), Dec::whole(100)),
    ));
}

/// The change in percent goes up with the price it ends at.
pub proof fn law_change_follows_the_price(from: Dec, low: Dec, high: Dec)
    requires
        faithful(),
        from.wf(),
        low.wf(),
        high.wf(),
        from.m() > 0,
        !dec_lt(high, low),
    ensures
        pct_change(from, low) matches Reading::Value(x) ==> (pct_change(from, high) matches
            Reading::Value(y) ==> !dec_lt(y, x)),
{
    let one = Dec::whole(1);
    let hundred = Dec::whole(100);
    lemma_of(1, 0);
    lemma_of(100, 0);
    let a = decimal_quotient(low, from);
    let b = decimal_quotient(high, from);
    assert(quotient_facts(low, from, a));
    assert(quotient_facts(high, from, b));
    assert(no_larger(a, b));
    if a is Some && b is Some {
        let x = decimal_difference(a->0, one);
        let y = decimal_difference(b->0, one);
        assert(difference_facts(a->0, one, x));
        assert(difference_facts(b->0, one, y));
        assert(no_larger(x, y));
        if x is Some && y is Some {
            let v = decimal_product(y->0, hundred);
            assert(product_facts(y->0, hundred, v));
            assert(no_larger(decimal_product(x->0, hundred), v));
        }
    }
}

/// The rate of change compares the first close of the window with the last, the ratios compare the mean
/// and the exponential average of all closes with the last.
pub proof fn law_ratios_compare_with_the_last_close(w: Window)
    requires
        w.close.len() > 0,
    ensures
        price_value(PriceKind::Roc, w) == pct_change(w.close[0], w.close[w.close.len() - 1]),
        mean(w.close) matches Some(m) ==> price_value(PriceKind::SmaRatio, w) == pct_change(
            m,
            w.close[w.close.len() - 1],
        ),
        ema(w.close, smoothing(w.close.len() as int)) matches Some(m) ==> price_value(
            PriceKind::EmaRatio,
            w,
        ) == pct_change(m, w.close[w.close.len() - 1]),
{
}

/// The Bollinger band reaches two standard deviations to either side of the mean: a close at its lower edge
/// is at 0, one at its upper edge at 1, one in between in between, and in a band without width at one half.
pub proof fn law_close_lies_within_the_band(w: Window, sd: Dec, lower: Dec, upper: Dec)
    requires
        faithful(),
        w.close.last().wf(),
        lower.wf(),
        upper.wf(),
        window_std(w.close) == Reading::Value(sd),
        minus(mean(w.close), times(Some(Dec::whole(2)), Some(sd))) == Some(lower),
        plus(mean(w.close), times(Some(Dec::whole(2)), Some(sd))) == Some(upper),
        !dec_lt(upper, lower),
    ensures
        price_value(PriceKind::BbPercent, w) matches Reading::Value(x) ==> {
            let width = decimal_difference(upper, lower)->0;
            &&& width.m() == 0 ==> x == Dec::of(5, 1)
            &&& width.m() > 0 && !dec_lt(w.close.last(), lower) ==> x.m() >= 0
            &&& width.m() > 0 && !dec_lt(upper, w.close.last()) ==> x.m() <= pow10(x.s())
            &&& width.m() > 0 && w.close.last() == lower ==> x.m() == 0
            &&& width.m() > 0 && w.close.last() == upper ==> x == Dec::whole(1)
        },
{
    let last = w.close.last();
    let width = decimal_difference(upper, lower);
    let part = decimal_difference(last, lower);
    assert(difference_facts(upper, lower, width));
    assert(difference_facts(last, lower, part));
    lemma_nothing_left(lower);
    if part is Some && width is Some {
        lemma_wf(width->0);
        assert(quotient_facts(part->0, width->0, decimal_quotient(part->0, width->0)));
        lemma_of(0, 0);
        let m = width->0.m();
        assert(m > 0 ==> m % m == 0 && m / m == 1) by (nonlinear_arith);
    }
}

/// The band's width is in percent of the mean: with a mean of `4 a` and a standard deviation of `a j`, the
/// band is `4 a j` wide, `100 j` percent.
pub proof fn law_bandwidth_is_four_deviations(w: Window, a: int, j: int)
    requires
        faithful(),
        0 < a <= 1_000_000_000,
        0 < j <= 1_000_000_000,
        mean(w.close) == Some(Dec::whole(4 * a)),
        window_std(w.close) == Reading::Value(Dec::whole(a * j)),
    ensures
        price_value(PriceKind::BbBandwidth, w) == Reading::Value(Dec::whole(100 * j)),
{
    assert(0 < a * j <= 1_000_000_000_000_000_000) by (nonlinear_arith)
        requires
            0 < a <= 1_000_000_000,
            0 < j <= 1_000_000_000,
    ;
    let aj = a * j;
    lemma_exact_wholes(2, aj);
    assert(times(Some(Dec::whole(2)), Some(Dec::whole(aj))) == Some(Dec::whole(2 * aj)));
    lemma_exact_wholes(4 * a, 2 * aj);
    assert(minus(mean(w.close), Some(Dec::whole(2 * aj))) == Some(Dec::whole(4 * a - 2 * aj)));
    assert(plus(mean(w.close), Some(Dec::whole(2 * aj))) == Some(Dec::whole(4 * a + 2 * aj)));
    lemma_exact_wholes(4 * a + 2 * aj, 4 * a - 2 * aj);
    let whole = 4 * a;
    assert(4 * aj == j * whole) by (nonlinear_arith)
        requires
            aj == a * j,
            whole == 4 * a,
    ;
    assert((j * whole) % whole == 0 && (j * whole) / whole == j) by (nonlinear_arith)
        requires
            whole > 0,
    ;
    lemma_of(4 * aj, 0);
    lemma_of(4 * a, 0);
    lemma_of(j, 0);
    assert(quotient_facts(
        Dec::whole(4 * aj),
        Dec::whole(4 * a),
        decimal_quotient(Dec::whole(4 * aj), Dec::whole(4 * a)),
    ));
    lemma_exact_wholes(j, 100);
}

/// Sums, differences and products of whole numbers are exact, as far as they fit.
proof fn lemma_exact_wholes(x: int, y: int)
    requires
        faithful(),
        magnitude(x) <= 10_000_000_000_000_000_000,
        magnitude(y) <= 10_000_000_000_000_000_000,
    ensures
        y != 0 || x != 0 ==> decimal_sum(Dec::whole(x), Dec::whole(y)) == Some(Dec::whole(x + y)),
        decimal_difference(Dec::whole(x), Dec::whole(y)) == Some(Dec::whole(x - y)),
        magnitude(x * y) <= 10_000_000_000_000_000_000 ==> decimal_product(
            Dec::whole(x),
            Dec::whole(y),
        ) == Some(Dec::whole(x * y)),
{
    lemma_of(x, 0);
    lemma_of(y, 0);
    assert(pow10(0) == 1);
    let a = Dec::whole(x);
    let b = Dec::whole(y);
    assert(sum_facts(a, b, decimal_sum(a, b)));
    assert(difference_facts(a, b, decimal_difference(a, b)));
    assert(product_facts(a, b, decimal_product(a, b)));
    assert(x == 0 || y == 0 ==> x * y == 0) by (nonlinear_arith);
    assert(x != 0 && y != 0 ==> x * y != 0) by (nonlinear_arith);
}

/// The simple returns are those of neighbouring closes: each close over the one before, less one. There is
/// none from a close of zero.
pub proof fn law_returns_are_of_neighbours(c: Seq<Dec>, i: int)
    requires
        0 <= i < c.len() - 1,
    ensures
        simple_returns(c) matches Returns::Series(s) ==> s.len() == c.len() - 1 && Some(s[i])
            == minus(over(Some(c[i + 1]), Some(c[i])), Some(Dec::whole(1))),
        c[i].m() == 0 ==> !(simple_returns(c) is Series),
    decreases c.len(),
{
    let rest = c.drop_last();
    lemma_one_return_per_step(c);
    lemma_one_return_per_step(rest);
    if i < rest.len() - 1 {
        law_returns_are_of_neighbours(rest, i);
        assert(rest[i] == c[i] && rest[i + 1] == c[i + 1]);
    }
}

proof fn lemma_one_return_per_step(c: Seq<Dec>)
    requires
        c.len() > 0,
    ensures
        simple_returns(c) matches Returns::Series(s) ==> s.len() == c.len() - 1,
    decreases c.len(),
{
    if c.len() >= 2 {
        lemma_one_return_per_step(c.drop_last());
    }
}

/// The dispersion of returns is the standard deviation of the returns as a window of their own, in percent.
pub proof fn law_dispersion_is_that_of_the_returns(w: Window, s: Seq<Dec>)
    requires
        w.close.len() >= 2,
        simple_returns(w.close) == Returns::Series(s),
        s.len() > 0,
    ensures
        price_value(PriceKind::StdReturns, w) == match window_std(s) {
            Reading::Value(x) => match times(Some(x), Some(Dec::whole(100))) {
                Some(y) => Reading::Value(y),
                None => Reading::Fault,
            },
            Reading::Undefined => Reading::Undefined,
            Reading::Fault => Reading::Fault,
        },
{
}

// ---- oscillators ---------------------------------------------------------------------------------

/// The balance of gains and losses lies at 100 without a loss, at 0 without a gain, and at 50 where the two
/// are the same.
pub proof fn law_balance_of_gains_and_losses(up: Dec, down: Dec)
    requires
        faithful(),
        up.wf(),
        down.wf(),
        up.m() >= 0,
        down.m() >= 0,
    ensures
        down.m() == 0 ==> balance_index(Some(up), Some(down)) == Reading::Value(Dec::whole(100)),
        up.m() == 0 && down.m() > 0 ==> balance_index(Some(up), Some(down)) == Reading::Value(
            Dec::whole(0),
        ),
        up == down && down.m() > 0 ==> balance_index(Some(up), Some(down)) == Reading::Value(
            Dec::whole(50),
        ),
{
    lemma_wf(up);
    lemma_of(0, 0);
    lemma_of(1, 0);
    lemma_of(2, 0);
    lemma_of(100, 0);
    assert(quotient_facts(up, down, decimal_quotient(up, down)));
    let m = down.m();
    assert(m > 0 ==> m % m == 0 && m / m == 1) by (nonlinear_arith);
    lemma_exact_wholes(1, 1);
    lemma_exact_wholes(1, 0);
    lemma_exact_wholes(100, 50);
    lemma_exact_wholes(100, 100);
    let hundred = Dec::whole(100);
    assert(quotient_facts(
        hundred,
        Dec::whole(2),
        decimal_quotient(hundred, Dec::whole(2)),
    ));
    assert(quotient_facts(
        hundred,
        Dec::whole(1),
        decimal_quotient(hundred, Dec::whole(1)),
    ));
}

/// One more close adds its rise to the gains, or its fall to the losses, and never to both.
pub proof fn law_gains_and_losses_take_turns(c: Seq<Dec>, x: Dec)
    requires
        c.len() > 0,
    ensures
        ({
            let (up, down) = rises_and_falls(c);
            let (more_up, more_down) = rises_and_falls(c.push(x));
            match minus(Some(x), Some(c.last())) {
                Some(d) => if d.m() >= 0 {
                    more_up == plus(up, Some(d)) && more_down == down
                } else {
                    more_up == up && more_down == plus(down, Some(Dec::of(-d.m(), d.s())))
                },
                None => more_up is None && more_down is None,
            }
        }),
        rises_and_falls(seq![x]) == (Some(Dec::whole(0)), Some(Dec::whole(0))),
{
    assert(c.push(x).drop_last() =~= c);
    assert(c.push(x)[c.len() - 1] == c.last());
}

/// One more bar adds its money flow to the rises if its typical price rose, to the falls if it fell, and to
/// neither if it stayed.
pub proof fn law_money_follows_the_typical_price(tp: Seq<Dec>, vol: Seq<Dec>, x: Dec, v: Dec)
    requires
        tp.len() > 0,
        vol.len() == tp.len(),
        times(Some(x), Some(v)) is Some,
    ensures
        ({
            let (up, down) = money_flows(tp, vol);
            let (more_up, more_down) = money_flows(tp.push(x), vol.push(v));
            let flow = times(Some(x), Some(v));
            &&& dec_lt(tp.last(), x) ==> more_up == plus(up, flow) && more_down == down
            &&& dec_lt(x, tp.last()) && !dec_lt(tp.last(), x) ==> more_up == up && more_down
                == plus(down, flow)
            &&& !dec_lt(tp.last(), x) && !dec_lt(x, tp.last()) ==> more_up == up && more_down
                == down
        }),
{
    assert(tp.push(x).drop_last() =~= tp);
    assert(vol.push(v).drop_last() =~= vol);
    assert(tp.push(x)[tp.len() - 1] == tp.last());
}

/// One more bar adds its volume to the total, and to the signed sum if the close rose; it takes it from the
/// signed sum if the close fell, and leaves that alone if the close stayed.
pub proof fn law_volume_takes_the_sign_of_the_move(c: Seq<Dec>, vol: Seq<Dec>, x: Dec, v: Dec)
    requires
        c.len() > 0,
        vol.len() == c.len(),
    ensures
        ({
            let (signed, all) = signed_volumes(c, vol);
            let (more_signed, more_all) = signed_volumes(c.push(x), vol.push(v));
            &&& more_all == plus(all, Some(v))
            &&& dec_lt(c.last(), x) ==> more_signed == plus(signed, Some(v))
            &&& dec_lt(x, c.last()) && !dec_lt(c.last(), x) ==> more_signed == minus(
                signed,
                Some(v),
            )
            &&& !dec_lt(c.last(), x) && !dec_lt(x, c.last()) ==> more_signed == signed
        }),
{
    assert(c.push(x).drop_last() =~= c);
    assert(vol.push(v).drop_last() =~= vol);
    assert(c.push(x)[c.len() - 1] == c.last());
}

/// Stochastic %K lies between 0 at the lowest low and 100 at the highest high; Williams %R is -100 at the
/// lowest low and 0 at the highest high. Without a range they are in the middle.
pub proof fn law_channel_ends(w: Window, hi: Dec, lo: Dec)
    requires
        faithful(),
        hi.wf(),
        lo.wf(),
        w.close.last().wf(),
        hi == largest(w.high),
        lo == smallest(w.low),
        decimal_difference(hi, lo) is Some,
        !dec_lt(hi, lo),
    ensures
        decimal_difference(hi, lo)->0.m() == 0 ==> price_value(PriceKind::StochK, w)
            == Reading::Value(Dec::whole(50)),
        decimal_difference(hi, lo)->0.m() > 0 && w.close.last() == hi ==> price_value(
            PriceKind::StochK,
            w,
        ) == Reading::Value(Dec::whole(100)) && price_value(PriceKind::WilliamsR, w)
            == Reading::Value(Dec::whole(0)),
        decimal_difference(hi, lo)->0.m() > 0 && w.close.last() == lo ==> price_value(
            PriceKind::StochK,
            w,
        ) == Reading::Value(Dec::whole(0)) && price_value(PriceKind::WilliamsR, w)
            == Reading::Value(Dec::whole(-100)),
        !dec_lt(w.close.last(), lo) && !dec_lt(hi, w.close.last()) && decimal_difference(
            hi,
            lo,
        )->0.m() > 0 ==> (price_value(PriceKind::StochK, w) matches Reading::Value(x) ==> x.m()
            >= 0 && !dec_lt(Dec::whole(100), x)),
{
    let last = w.close.last();
    let range = decimal_difference(hi, lo)->0;
    assert(difference_facts(hi, lo, Some(range)));
    lemma_nothing_left(hi);
    lemma_nothing_left(lo);
    lemma_of(0, 0);
    lemma_of(1, 0);
    lemma_of(2, 0);
    lemma_of(100, 0);
    lemma_of(-100, 0);
    lemma_exact_wholes(1, 100);
    lemma_exact_wholes(1, -100);
    lemma_exact_wholes(0, 100);
    lemma_exact_wholes(0, -100);
    let hundred = Dec::whole(100);
    assert(quotient_facts(
        hundred,
        Dec::whole(2),
        decimal_quotient(hundred, Dec::whole(2)),
    ));
    lemma_wf(range);
    let m = range.m();
    assert(m > 0 ==> m % m == 0 && m / m == 1) by (nonlinear_arith);
    assert(quotient_facts(range, range, decimal_quotient(range, range)));
    let zero_hi = decimal_difference(hi, hi)->0;
    let zero_lo = decimal_difference(lo, lo)->0;
    assert(quotient_facts(zero_hi, range, decimal_quotient(zero_hi, range)));
    assert(quotient_facts(zero_lo, range, decimal_quotient(zero_lo, range)));
    let part = decimal_difference(last, lo);
    assert(difference_facts(last, lo, part));
    if part is Some && m > 0 && !dec_lt(last, lo) && !dec_lt(hi, last) {
        assert(no_larger(part, Some(range)));
        let share = decimal_quotient(part->0, range);
        assert(quotient_facts(part->0, range, share));
        if share is Some {
            assert(product_facts(share->0, hundred, decimal_product(share->0, hundred)));
        }
    }
}

/// The newest highest high: none is above it, and every later one is below it.
pub proof fn law_newest_high_is_highest(s: Seq<Dec>)
    requires
        s.len() > 0,
        forall|i: int| 0 <= i < s.len() ==> (#[trigger] s[i]).wf(),
    ensures
        0 <= newest_high(s) < s.len(),
        forall|i: int| 0 <= i < s.len() ==> !dec_lt(s[newest_high(s)], #[trigger] s[i]),
        forall|i: int| newest_high(s) < i < s.len() ==> dec_lt(#[trigger] s[i], s[newest_high(s)]),
    decreases s.len(),
{
    let last = s.last();
    assert(last == s[s.len() - 1]);
    law_order_is_total(last, last);
    if s.len() == 1 {
        assert(s[0] == last);
    } else {
        let rest = s.drop_last();
        assert forall|i: int| 0 <= i < rest.len() implies (#[trigger] rest[i]).wf() by {
            assert(rest[i] == s[i]);
        }
        law_newest_high_is_highest(rest);
        let top = rest[newest_high(rest)];
        assert(top == s[newest_high(rest)]);
        assert forall|i: int| 0 <= i < s.len() implies !dec_lt(s[newest_high(s)], #[trigger] s[i]) by {
            if i < rest.len() {
                assert(rest[i] == s[i]);
                if !dec_lt(last, top) && dec_lt(last, s[i]) {
                    law_order_is_transitive(last, s[i], top);
                }
            } else {
                law_order_is_total(last, top);
            }
        }
        assert forall|i: int| newest_high(s) < i < s.len() implies dec_lt(
            #[trigger] s[i],
            s[newest_high(s)],
        ) by {
            if i < rest.len() {
                assert(rest[i] == s[i]);
            }
        }
    }
}

/// The newest lowest low: none is below it, and every later one is above it.
pub proof fn law_newest_low_is_lowest(s: Seq<Dec>)
    requires
        s.len() > 0,
        forall|i: int| 0 <= i < s.len() ==> (#[trigger] s[i]).wf(),
    ensures
        0 <= newest_low(s) < s.len(),
        forall|i: int| 0 <= i < s.len() ==> !dec_lt(#[trigger] s[i], s[newest_low(s)]),
        forall|i: int| newest_low(s) < i < s.len() ==> dec_lt(s[newest_low(s)], #[trigger] s[i]),
    decreases s.len(),
{
    let last = s.last();
    assert(last == s[s.len() - 1]);
    law_order_is_total(last, last);
    if s.len() == 1 {
        assert(s[0] == last);
    } else {
        let rest = s.drop_last();
        assert forall|i: int| 0 <= i < rest.len() implies (#[trigger] rest[i]).wf() by {
            assert(rest[i] == s[i]);
        }
        law_newest_low_is_lowest(rest);
        let bottom = rest[newest_low(rest)];
        assert(bottom == s[newest_low(rest)]);
        assert forall|i: int| 0 <= i < s.len() implies !dec_lt(#[trigger] s[i], s[newest_low(s)]) by {
            if i < rest.len() {
                assert(rest[i] == s[i]);
                if !dec_lt(bottom, last) && dec_lt(s[i], last) {
                    law_order_is_transitive(s[i], last, bottom);
                }
            } else {
                law_order_is_total(last, bottom);
            }
        }
        assert forall|i: int| newest_low(s) < i < s.len() implies dec_lt(
            s[newest_low(s)],
            #[trigger] s[i],
        ) by {
            if i < rest.len() {
                assert(rest[i] == s[i]);
            }
        }
    }
}

/// The Aroon oscillator is 100 where the newest bar has the highest high and the oldest the lowest low, and
/// -100 the other way round.
pub proof fn law_aroon_ends(w: Window)
    requires
        faithful(),
        2 <= w.high.len() < 1_000_000_000_000,
    ensures
        ({
            let n = w.high.len() as int;
            let hh = newest_high(w.high);
            let ll = newest_low(w.low);
            &&& hh == n - 1 && ll == 0 ==> price_value(PriceKind::AroonOsc, w) == Reading::Value(
                Dec::whole(100),
            )
            &&& hh == 0 && ll == n - 1 ==> price_value(PriceKind::AroonOsc, w) == Reading::Value(
                Dec::whole(-100),
            )
        }),
{
    let span = w.high.len() - 1;
    lemma_exact_wholes(span, 0);
    lemma_exact_wholes(span, span);
    lemma_exact_wholes(1, 100);
    lemma_exact_wholes(0, 100);
    lemma_exact_wholes(100, 0);
    lemma_exact_wholes(0, 100);
    lemma_of(span, 0);
    lemma_of(0, 0);
    lemma_of(1, 0);
    assert(span % span == 0 && span / span == 1) by (nonlinear_arith)
        requires
            span > 0,
    ;
    let d = Dec::whole(span);
    assert(quotient_facts(d, d, decimal_quotient(d, d)));
    assert(quotient_facts(Dec::whole(0), d, decimal_quotient(Dec::whole(0), d)));
}

/// The true range is the largest of the bar's own range and the two distances from the close before.
pub proof fn law_true_range_is_the_largest(high: Dec, low: Dec, before: Dec)
    requires
        faithful(),
        high.wf(),
        low.wf(),
        before.wf(),
    ensures
        true_range(high, low, before) matches Some(x) ==> {
            let a = decimal_difference(high, low)->0;
            let b = decimal_difference(high, before)->0;
            let c = decimal_difference(low, before)->0;
            &&& !dec_lt(x, a)
            &&& !dec_lt(x, Dec::of(magnitude(b.m()), b.s()))
            &&& !dec_lt(x, Dec::of(magnitude(c.m()), c.s()))
            &&& x == a || x == Dec::of(magnitude(b.m()), b.s()) || x == Dec::of(
                magnitude(c.m()),
                c.s(),
            )
        },
{
    assert(difference_facts(high, low, decimal_difference(high, low)));
    assert(difference_facts(high, before, decimal_difference(high, before)));
    assert(difference_facts(low, before, decimal_difference(low, before)));
    if true_range(high, low, before) is Some {
        let a = decimal_difference(high, low)->0;
        let b = decimal_difference(high, before)->0;
        let c = decimal_difference(low, before)->0;
        lemma_wf(b);
        lemma_wf(c);
        let p = Dec::of(magnitude(b.m()), b.s());
        let q = Dec::of(magnitude(c.m()), c.s());
        lemma_of(magnitude(b.m()), b.s());
        lemma_of(magnitude(c.m()), c.s());
        law_order_is_total(a, p);
        law_order_is_total(p, p);
        law_order_is_total(q, q);
        law_order_is_total(a, q);
        law_order_is_total(p, q);
        if dec_lt(a, p) && dec_lt(p, q) {
            law_order_is_transitive(a, p, q);
        }
        if !dec_lt(a, p) && dec_lt(a, q) && dec_lt(q, p) {
            law_order_is_transitive(a, q, p);
        }
    }
}

/// A close at the high is located at 1 and one half way, or in a bar without a range, at 0.
pub proof fn law_close_location(high: Dec, low: Dec, close: Dec)
    requires
        faithful(),
        high.wf(),
        low.wf(),
        close.wf(),
        decimal_difference(high, low) is Some,
        decimal_difference(high, low)->0.m() >= 0,
    ensures
        decimal_difference(high, low)->0.m() == 0 ==> close_location(high, low, close) == Some(
            Dec::whole(0),
        ),
        decimal_difference(high, low)->0.m() > 0 && close == high ==> close_location(
            high,
            low,
            close,
        ) == Some(Dec::whole(1)),
        decimal_difference(high, low)->0.m() > 0 && decimal_difference(close, low)
            == decimal_difference(high, close) && decimal_difference(close, low) is Some
            ==> close_location(high, low, close) == Some(Dec::whole(0)),
{
    lemma_nothing_left(high);
    let range = decimal_difference(high, low)->0;
    assert(difference_facts(high, low, Some(range)));
    let zero = decimal_difference(high, high)->0;
    assert(difference_facts(range, zero, decimal_difference(range, zero)));
    lemma_wf(range);
    let m = range.m();
    assert(m > 0 ==> m % m == 0 && m / m == 1) by (nonlinear_arith);
    assert(quotient_facts(range, range, decimal_quotient(range, range)));
    let part = decimal_difference(close, low);
    assert(difference_facts(close, low, part));
    if part is Some {
        lemma_nothing_left(part->0);
        let nothing = decimal_difference(part->0, part->0)->0;
        assert(quotient_facts(nothing, range, decimal_quotient(nothing, range)));
    }
}

/// The volume ratio is the last volume over the mean volume, and the average true range the mean of the true
/// ranges, from the second bar on, in percent of the last close.
pub proof fn law_volume_and_range_ratios(w: Window, m: Dec)
    requires
        w.volume.len() > 0,
        w.high.len() > 1,
        mean(w.volume) == Some(m),
    ensures
        m.m() != 0 ==> price_value(PriceKind::VolumeRatio, w) == (match over(
            Some(w.volume[w.volume.len() - 1]),
            Some(m),
        ) {
            Some(x) => Reading::Value(x),
            None => Reading::Fault,
        }),
        m.m() == 0 ==> price_value(PriceKind::VolumeRatio, w) == Reading::Undefined,
        price_value(PriceKind::AtrPct, w) == percent_of(
            over(true_ranges(w.high, w.low, w.close), Some(Dec::whole(w.high.len() - 1))),
            w.close[w.close.len() - 1],
        ),
{
}

/// One more bar adds the true range that it has after the close before it.
pub proof fn law_true_ranges_add_up(
    h: Seq<Dec>,
    l: Seq<Dec>,
    c: Seq<Dec>,
    high: Dec,
    low: Dec,
    close: Dec,
)
    requires
        h.len() > 0,
        l.len() == h.len(),
        c.len() == h.len(),
    ensures
        true_ranges(h.push(high), l.push(low), c.push(close)) == plus(
            true_ranges(h, l, c),
            true_range(high, low, c[c.len() - 1]),
        ),
        true_ranges(seq![high], seq![low], seq![close]) == Some(Dec::whole(0)),
{
    assert(h.push(high).drop_last() =~= h);
    assert(l.push(low).drop_last() =~= l);
    assert(c.push(close).drop_last() =~= c);
}

/// The commodity channel index has the sign of the last typical price's distance from the mean, and is zero
/// where the typical prices do not vary.
pub proof fn law_channel_index_has_the_sign_of_the_distance(w: Window, sma: Dec, mad: Dec)
    requires
        faithful(),
        w.typical.last().wf(),
        sma.wf(),
        mad.wf(),
        mad.m() >= 0,
        mean(w.typical) == Some(sma),
        window_mean_abs_dev(w.typical) == Reading::Value(mad),
    ensures
        mad.m() == 0 ==> price_value(PriceKind::Cci, w) == Reading::Value(Dec::whole(0)),
        price_value(PriceKind::Cci, w) matches Reading::Value(x) ==> {
            &&& !dec_lt(w.typical.last(), sma) ==> x.m() >= 0
            &&& !dec_lt(sma, w.typical.last()) ==> x.m() <= 0
        },
{
    let last = w.typical.last();
    lemma_of(15, 3);
    lemma_of(0, 0);
    let unit = Dec::of(15, 3);
    let part = decimal_difference(last, sma);
    let scale = decimal_product(unit, mad);
    assert(difference_facts(last, sma, part));
    assert(product_facts(unit, mad, scale));
    if !dec_lt(sma, last) {
        lemma_less_is_not_positive(last, sma);
    }
    if mad.m() > 0 && part is Some && scale is Some {
        let q = decimal_quotient(part->0, scale->0);
        assert(quotient_facts(part->0, scale->0, q));
        if q is Some && scale->0.m() > 0 {
            let zero = Dec::whole(0);
            let none = decimal_quotient(zero, scale->0);
            assert(quotient_facts(zero, scale->0, none));
            if part->0.m() <= 0 {
                lemma_sign(zero, part->0);
                assert(no_larger(q, none));
                lemma_sign(zero, q->0);
            }
        }
    }
}

} // verus!
