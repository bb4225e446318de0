//! Laws of the indicators over whole series of samples: what their windows hold, when they first
//! speak, that nothing older than the lookback matters, and which formulas agree with which built-in
//! indicators.

use vstd::prelude::*;

use crate::decimal::{
    dec_lt, lemma_of, lemma_pow10_positive, magnitude, mean, minus, over, pow10, reading, Dec,
    Reading,
};
use crate::domain::BarData;
use crate::signal::bars::{lemma_window_slides, typical_price, window_of, Sample};
use crate::signal::catalogue::{
    pct_change_expr, roc_expr, sma_ratio_expr, stoch_k_expr, volume_ratio_expr, window_expr,
};
use crate::signal::expr::{
    binary_reading, field_value, fresh, lookback, run, BinOp, Expr, Field, WinOp,
};
use crate::signal::indicator::{
    flow_indicator, flow_value, formula_indicator, price_indicator, quantised, scalar_of,
    ArithmeticFault, FlowKind, FlowSource, IndicatorModel, KernelModel,
};
use crate::signal::price::{pct_change, price_value, PriceKind};
use crate::signal::quant::{QState, QuantiserModel};
use crate::signal::reference::{
    in_range, law_interpreter_matches_reference, law_nothing_older_matters, law_reset_is_fresh,
    reading_at, values_of, windows_read_bars,
};
use crate::signal::roll::{largest, last_n, lemma_last_n_slides, smallest};

verus! {

/// The bars of some samples.
pub open spec fn bars_of(h: Seq<Sample>) -> Seq<BarData> {
    Seq::new(h.len(), |i: int| h[i].bar@)
}

/// Whether every sample's typical price is in range.
pub open spec fn typical_in_range(h: Seq<Sample>) -> bool {
    forall|i: int| 0 <= i < h.len() ==> typical_price((#[trigger] h[i]).bar@) is Some
}

/// The scalars that are present in some samples, in order.
pub open spec fn present_scalars(source: FlowSource, h: Seq<Sample>) -> Seq<Dec>
    decreases h.len(),
{
    if h.len() == 0 {
        Seq::empty()
    } else {
        match scalar_of(source, h.last()) {
            Some(x) => present_scalars(source, h.drop_last()).push(x),
            None => present_scalars(source, h.drop_last()),
        }
    }
}

/// A price indicator's window holds the fields of the last `cap` bars.
pub proof fn law_price_window_is_last_bars(
    id: Seq<char>,
    cap: int,
    q: QuantiserModel,
    kind: PriceKind,
    h: Seq<Sample>,
)
    requires
        cap >= 1,
        typical_in_range(h),
    ensures
        price_indicator(id, cap, q, kind).after(h) == (IndicatorModel {
            id,
            quantiser: q,
            kernel: KernelModel::Price(kind, window_of(last_n(bars_of(h), cap)), cap),
        }),
    decreases h.len(),
{
    if h.len() == 0 {
        let w = window_of(last_n(bars_of(h), cap));
        assert(w.close =~= Seq::empty());
        assert(w.high =~= Seq::empty());
        assert(w.low =~= Seq::empty());
        assert(w.volume =~= Seq::empty());
        assert(w.typical =~= Seq::empty());
    } else {
        let t = h.drop_last();
        assert forall|i: int| 0 <= i < t.len() implies typical_price(
            (#[trigger] t[i]).bar@,
        ) is Some by {
            assert(t[i] == h[i]);
        }
        law_price_window_is_last_bars(id, cap, q, kind, t);
        assert(h.last() == h[h.len() - 1]);
        lemma_window_slides(bars_of(t), h.last().bar@, cap);
        assert(bars_of(t).push(h.last().bar@) =~= bars_of(h));
    }
}

/// What a price indicator says to the last of a series of samples: nothing while fewer than `cap`
/// have been seen, and from then on the quantised value on the last `cap` bars.
pub proof fn law_price_output(
    id: Seq<char>,
    cap: int,
    q: QuantiserModel,
    kind: PriceKind,
    h: Seq<Sample>,
)
    requires
        cap >= 1,
        h.len() > 0,
        typical_in_range(h),
    ensures
        h.len() < cap ==> price_indicator(id, cap, q, kind).output(h) == Ok::<
            Option<QState>,
            ArithmeticFault,
        >(None),
        h.len() >= cap ==> price_indicator(id, cap, q, kind).output(h) == quantised(
            q,
            price_value(kind, window_of(last_n(bars_of(h), cap))),
        ),
{
    let t = h.drop_last();
    assert forall|i: int| 0 <= i < t.len() implies typical_price((#[trigger] t[i]).bar@) is Some by {
        assert(t[i] == h[i]);
    }
    law_price_window_is_last_bars(id, cap, q, kind, t);
    assert(h.last() == h[h.len() - 1]);
    lemma_window_slides(bars_of(t), h.last().bar@, cap);
    assert(bars_of(t).push(h.last().bar@) =~= bars_of(h));
}

/// A price indicator's output depends on the last `cap` bars and on nothing older.
pub proof fn law_price_ignores_older_bars(
    id: Seq<char>,
    cap: int,
    q: QuantiserModel,
    kind: PriceKind,
    h1: Seq<Sample>,
    h2: Seq<Sample>,
)
    requires
        cap >= 1,
        h1.len() >= cap,
        h2.len() >= cap,
        typical_in_range(h1),
        typical_in_range(h2),
        last_n(h1, cap) == last_n(h2, cap),
    ensures
        price_indicator(id, cap, q, kind).output(h1) == price_indicator(id, cap, q, kind).output(h2),
{
    law_price_output(id, cap, q, kind, h1);
    law_price_output(id, cap, q, kind, h2);
    let a = last_n(bars_of(h1), cap);
    let b = last_n(bars_of(h2), cap);
    assert forall|i: int| 0 <= i < cap implies a[i] == b[i] by {
        assert(a[i] == last_n(h1, cap)[i].bar@);
        assert(b[i] == last_n(h2, cap)[i].bar@);
    }
    assert(a =~= b);
}

/// A flow factor's window holds the last `cap` scalars that were present; what it says is undefined
/// until there are `cap` of them.
pub proof fn law_flow_window_is_last_scalars(
    id: Seq<char>,
    cap: int,
    q: QuantiserModel,
    source: FlowSource,
    kind: FlowKind,
    h: Seq<Sample>,
)
    requires
        cap >= 1,
    ensures
        flow_indicator(id, cap, q, source, kind).after(h) == (IndicatorModel {
            id,
            quantiser: q,
            kernel: KernelModel::Flow(source, kind, last_n(present_scalars(source, h), cap), cap),
        }),
        h.len() > 0 ==> flow_indicator(id, cap, q, source, kind).output(h) == (if present_scalars(
            source,
            h,
        ).len() < cap {
            Ok::<Option<QState>, ArithmeticFault>(None)
        } else {
            quantised(q, flow_value(kind, last_n(present_scalars(source, h), cap)))
        }),
    decreases h.len(),
{
    if h.len() > 0 {
        law_flow_window_is_last_scalars(id, cap, q, source, kind, h.drop_last());
        if let Some(x) = scalar_of(source, h.last()) {
            lemma_last_n_slides(present_scalars(source, h.drop_last()), x, cap);
        }
    }
}

/// Whether every sample carries the scalar that a flow factor reads.
pub open spec fn is_dense(source: FlowSource, h: Seq<Sample>) -> bool {
    forall|i: int| 0 <= i < h.len() ==> scalar_of(source, #[trigger] h[i]) is Some
}

/// Where every sample carries its scalar, there is one scalar per sample.
proof fn lemma_dense_scalars(source: FlowSource, h: Seq<Sample>)
    requires
        is_dense(source, h),
    ensures
        present_scalars(source, h) == Seq::new(h.len(), |i: int| scalar_of(source, h[i])->0),
    decreases h.len(),
{
    let want = Seq::new(h.len(), |i: int| scalar_of(source, h[i])->0);
    if h.len() > 0 {
        let t = h.drop_last();
        assert forall|i: int| 0 <= i < t.len() implies scalar_of(source, #[trigger] t[i]) is Some by {
            assert(t[i] == h[i]);
        }
        lemma_dense_scalars(source, t);
        assert(h.last() == h[h.len() - 1]);
    }
    assert(present_scalars(source, h) =~= want);
}

/// Where every sample carries its scalar, a flow factor's output depends on the last `cap` samples and
/// on nothing older.
pub proof fn law_flow_ignores_older_samples(
    id: Seq<char>,
    cap: int,
    q: QuantiserModel,
    source: FlowSource,
    kind: FlowKind,
    h1: Seq<Sample>,
    h2: Seq<Sample>,
)
    requires
        cap >= 1,
        h1.len() >= cap,
        h2.len() >= cap,
        is_dense(source, h1),
        is_dense(source, h2),
        last_n(h1, cap) == last_n(h2, cap),
    ensures
        flow_indicator(id, cap, q, source, kind).output(h1) == flow_indicator(
            id,
            cap,
            q,
            source,
            kind,
        ).output(h2),
{
    law_flow_window_is_last_scalars(id, cap, q, source, kind, h1);
    law_flow_window_is_last_scalars(id, cap, q, source, kind, h2);
    lemma_dense_scalars(source, h1);
    lemma_dense_scalars(source, h2);
    let a = last_n(present_scalars(source, h1), cap);
    let b = last_n(present_scalars(source, h2), cap);
    assert forall|i: int| 0 <= i < cap implies a[i] == b[i] by {
        assert(a[i] == scalar_of(source, last_n(h1, cap)[i])->0);
        assert(b[i] == scalar_of(source, last_n(h2, cap)[i])->0);
    }
    assert(a =~= b);
}

/// A formula indicator says what the quantised reading of its formula is.
pub proof fn law_formula_output(id: Seq<char>, e: Expr, q: QuantiserModel, h: Seq<Sample>)
    requires
        h.len() > 0,
    ensures
        formula_indicator(id, e, q).output(h) == quantised(q, reading_at(e, h)),
{
    lemma_formula_after(id, e, q, h.drop_last());
    law_interpreter_matches_reference(e, h);
}

/// A formula indicator's output depends on as many of the last bars as its lookback says, and on
/// nothing older.
pub proof fn law_formula_ignores_older_bars(
    id: Seq<char>,
    e: Expr,
    q: QuantiserModel,
    h1: Seq<Sample>,
    h2: Seq<Sample>,
)
    requires
        h1.len() > 0,
        h2.len() > 0,
        windows_read_bars(e),
        in_range(e, h1),
        in_range(e, h2),
        h1.len() >= lookback(e),
        h2.len() >= lookback(e),
        last_n(h1, lookback(e) as int) == last_n(h2, lookback(e) as int),
    ensures
        formula_indicator(id, e, q).output(h1) == formula_indicator(id, e, q).output(h2),
{
    law_formula_output(id, e, q, h1);
    law_formula_output(id, e, q, h2);
    law_nothing_older_matters(e, h1, h2);
}

proof fn lemma_formula_after(id: Seq<char>, e: Expr, q: QuantiserModel, h: Seq<Sample>)
    ensures
        formula_indicator(id, e, q).after(h) == (IndicatorModel {
            id,
            quantiser: q,
            kernel: KernelModel::Formula(run(fresh(e), h), lookback(e) as int),
        }),
    decreases h.len(),
{
    if h.len() > 0 {
        lemma_formula_after(id, e, q, h.drop_last());
    }
}

/// Resetting an indicator that was fresh brings it back there, whatever it was fed: the price
/// indicators.
pub proof fn law_price_reset(
    id: Seq<char>,
    cap: int,
    q: QuantiserModel,
    kind: PriceKind,
    h: Seq<Sample>,
)
    ensures
        price_indicator(id, cap, q, kind).after(h).reset() == price_indicator(id, cap, q, kind),
    decreases h.len(),
{
    if h.len() > 0 {
        law_price_reset(id, cap, q, kind, h.drop_last());
    }
}

/// Resetting an indicator that was fresh brings it back there, whatever it was fed: the flow factors.
pub proof fn law_flow_reset(
    id: Seq<char>,
    cap: int,
    q: QuantiserModel,
    source: FlowSource,
    kind: FlowKind,
    h: Seq<Sample>,
)
    ensures
        flow_indicator(id, cap, q, source, kind).after(h).reset() == flow_indicator(
            id,
            cap,
            q,
            source,
            kind,
        ),
    decreases h.len(),
{
    if h.len() > 0 {
        law_flow_reset(id, cap, q, source, kind, h.drop_last());
    }
}

/// Resetting an indicator that was fresh brings it back there, whatever it was fed: the formulas.
pub proof fn law_formula_reset(id: Seq<char>, e: Expr, q: QuantiserModel, h: Seq<Sample>)
    ensures
        formula_indicator(id, e, q).after(h).reset() == formula_indicator(id, e, q),
{
    lemma_formula_after(id, e, q, h);
    law_reset_is_fresh(e, h);
}

// ---- formulas that agree with built-in indicators ------------------------------------------------

/// The values of a field over a history, for a field that is always in range.
proof fn lemma_field_values(f: Field, h: Seq<Sample>)
    requires
        f != Field::Typical,
    ensures
        values_of(Expr::Input(f), h) == Seq::new(h.len(), |i: int| field_value(f, h[i])->0),
    decreases h.len(),
{
    let want = Seq::new(h.len(), |i: int| field_value(f, h[i])->0);
    if h.len() == 0 {
        assert(values_of(Expr::Input(f), h) =~= want);
    } else {
        lemma_field_values(f, h.drop_last());
        assert(h.last() == h[h.len() - 1]);
        assert(reading_at(Expr::Input(f), h) == Reading::Value(field_value(f, h.last())->0));
        assert(values_of(Expr::Input(f), h) =~= want);
    }
}

/// A window over a field holds that field of the last bars.
proof fn lemma_field_window(f: Field, h: Seq<Sample>, cap: int)
    requires
        f != Field::Typical,
        1 <= cap <= h.len(),
    ensures
        ({
            let w = window_of(last_n(bars_of(h), cap));
            last_n(values_of(Expr::Input(f), h), cap) == (match f {
                Field::Close => w.close,
                Field::High => w.high,
                Field::Low => w.low,
                Field::Volume => w.volume,
                Field::Typical => w.typical,
            })
        }),
        last_n(values_of(Expr::Input(f), h), cap).len() == cap,
{
    lemma_field_values(f, h);
    let w = window_of(last_n(bars_of(h), cap));
    let v = last_n(values_of(Expr::Input(f), h), cap);
    match f {
        Field::Close => {
            assert(v =~= w.close);
        },
        Field::High => {
            assert(v =~= w.high);
        },
        Field::Low => {
            assert(v =~= w.low);
        },
        Field::Volume => {
            assert(v =~= w.volume);
        },
        Field::Typical => {},
    }
}

/// Whether a number is too close to zero to divide by.
pub open spec fn near_zero(x: Dec) -> bool {
    dec_lt(Dec::of(magnitude(x.m()), x.s()), Dec::of(1, 9))
}

/// Zero is near zero.
proof fn lemma_zero_is_near_zero(x: Dec)
    requires
        x.wf(),
        x.m() == 0,
    ensures
        near_zero(x),
{
    crate::decimal::lemma_wf(x);
    lemma_of(0, x.s());
    lemma_of(1, 9);
    lemma_pow10_positive(x.s());
    let p = pow10(9);
    assert(0 * p == 0);
}

/// The formula of `roc_10` and `return_1` agrees with the built-in indicator wherever the oldest
/// close of the window is not too close to zero to divide by.
pub proof fn law_roc_formula_agrees(cap: usize, h: Seq<Sample>)
    requires
        1 <= cap <= h.len(),
        ({
            let first = window_of(last_n(bars_of(h), cap as int)).close.first();
            first.wf() && !near_zero(first)
        }),
    ensures
        reading_at(roc_expr(cap), h) == price_value(
            PriceKind::Roc,
            window_of(last_n(bars_of(h), cap as int)),
        ),
{
    let w = window_of(last_n(bars_of(h), cap as int));
    let close = Expr::Input(Field::Close);
    let lag = window_expr(WinOp::Lag, Field::Close, cap);
    lemma_field_window(Field::Close, h, cap as int);
    assert(reading_at(close, h) == Reading::Value(h.last().bar@.close));
    assert(w.close.last() == h.last().bar@.close);
    assert(reading_at(lag, h) == Reading::Value(w.close.first()));
    if w.close.first().m() == 0 {
        lemma_zero_is_near_zero(w.close.first());
    }
    lemma_pct_change_reading(close, lag, h, w.close.last(), w.close.first());
}

/// What the percentage-change formula reads off two values.
proof fn lemma_pct_change_reading(a: Expr, b: Expr, h: Seq<Sample>, to: Dec, from: Dec)
    requires
        reading_at(a, h) == Reading::Value(to),
        reading_at(b, h) == Reading::Value(from),
        !near_zero(from),
        from.m() != 0,
    ensures
        reading_at(pct_change_expr(a, b), h) == pct_change(from, to),
{
    let ratio = Expr::Binary(BinOp::Div, Box::new(a), Box::new(b));
    let one = Expr::Const(Dec::whole(1));
    let less = Expr::Binary(BinOp::Sub, Box::new(ratio), Box::new(one));
    let hundred_expr = Expr::Const(Dec::whole(100));
    assert(reading_at(ratio, h) == reading(over(Some(to), Some(from))));
    assert(reading_at(one, h) == Reading::Value(Dec::whole(1)));
    assert(reading_at(less, h) == reading(
        minus(over(Some(to), Some(from)), Some(Dec::whole(1))),
    ));
    assert(reading_at(hundred_expr, h) == Reading::Value(Dec::whole(100)));
    assert(reading_at(pct_change_expr(a, b), h) == binary_reading(
        BinOp::Mul,
        reading_at(less, h),
        reading_at(hundred_expr, h),
    ));
}

/// The formula of `sma_ratio_20` agrees with the built-in indicator wherever the mean close is not
/// too close to zero to divide by.
pub proof fn law_sma_ratio_formula_agrees(h: Seq<Sample>)
    requires
        h.len() >= 20,
        ({
            let m = mean(window_of(last_n(bars_of(h), 20)).close);
            m is Some ==> m->0.wf() && !near_zero(m->0)
        }),
    ensures
        reading_at(sma_ratio_expr(), h) == price_value(
            PriceKind::SmaRatio,
            window_of(last_n(bars_of(h), 20)),
        ),
{
    let w = window_of(last_n(bars_of(h), 20));
    let close = Expr::Input(Field::Close);
    let avg = window_expr(WinOp::Mean, Field::Close, 20);
    lemma_field_window(Field::Close, h, 20);
    assert(reading_at(close, h) == Reading::Value(h.last().bar@.close));
    assert(w.close.last() == h.last().bar@.close);
    assert(reading_at(avg, h) == reading(mean(w.close)));
    match mean(w.close) {
        Some(m) => {
            if m.m() == 0 {
                lemma_zero_is_near_zero(m);
            }
            lemma_pct_change_reading(close, avg, h, w.close.last(), m);
        },
        None => {
            let ratio = Expr::Binary(BinOp::Div, Box::new(close), Box::new(avg));
            let one = Expr::Const(Dec::whole(1));
            let less = Expr::Binary(BinOp::Sub, Box::new(ratio), Box::new(one));
            assert(reading_at(ratio, h) is Fault);
            assert(reading_at(less, h) is Fault);
        },
    }
}

/// The formula of `volume_ratio_20` agrees with the built-in indicator wherever the mean volume is
/// not too close to zero to divide by.
pub proof fn law_volume_ratio_formula_agrees(h: Seq<Sample>)
    requires
        h.len() >= 20,
        ({
            let m = mean(window_of(last_n(bars_of(h), 20)).volume);
            m is Some ==> m->0.wf() && !near_zero(m->0)
        }),
    ensures
        reading_at(volume_ratio_expr(), h) == price_value(
            PriceKind::VolumeRatio,
            window_of(last_n(bars_of(h), 20)),
        ),
{
    let w = window_of(last_n(bars_of(h), 20));
    let volume = Expr::Input(Field::Volume);
    let avg = window_expr(WinOp::Mean, Field::Volume, 20);
    lemma_field_window(Field::Volume, h, 20);
    assert(reading_at(volume, h) == Reading::Value(h.last().bar@.volume));
    assert(w.volume.last() == h.last().bar@.volume);
    assert(reading_at(avg, h) == reading(mean(w.volume)));
    if let Some(m) = mean(w.volume) {
        if m.m() == 0 {
            lemma_zero_is_near_zero(m);
        }
    }
}

/// The formula of `stoch_k_14` agrees with the built-in indicator wherever the window's range is not
/// too close to zero to divide by.
pub proof fn law_stoch_k_formula_agrees(h: Seq<Sample>)
    requires
        h.len() >= 14,
        ({
            let w = window_of(last_n(bars_of(h), 14));
            let range = minus(Some(largest(w.high)), Some(smallest(w.low)));
            range is Some ==> range->0.wf() && !near_zero(range->0)
        }),
    ensures
        reading_at(stoch_k_expr(), h) == price_value(
            PriceKind::StochK,
            window_of(last_n(bars_of(h), 14)),
        ),
{
    let w = window_of(last_n(bars_of(h), 14));
    let close = Expr::Input(Field::Close);
    let min_low = window_expr(WinOp::Min, Field::Low, 14);
    let max_high = window_expr(WinOp::Max, Field::High, 14);
    lemma_field_window(Field::Close, h, 14);
    lemma_field_window(Field::Low, h, 14);
    lemma_field_window(Field::High, h, 14);
    let c = w.close.last();
    let lo = smallest(w.low);
    let hi = largest(w.high);
    assert(reading_at(close, h) == Reading::Value(h.last().bar@.close));
    assert(c == h.last().bar@.close);
    assert(reading_at(Expr::Input(Field::Low), h) is Value);
    assert(reading_at(Expr::Input(Field::High), h) is Value);
    assert(reading_at(min_low, h) == Reading::Value(lo));
    assert(reading_at(max_high, h) == Reading::Value(hi));
    let numer = Expr::Binary(BinOp::Sub, Box::new(close), Box::new(min_low));
    let range = Expr::Binary(BinOp::Sub, Box::new(max_high), Box::new(min_low));
    let share = Expr::Binary(BinOp::Div, Box::new(numer), Box::new(range));
    assert(reading_at(numer, h) == reading(minus(Some(c), Some(lo))));
    assert(reading_at(range, h) == reading(minus(Some(hi), Some(lo))));
    assert(reading_at(share, h) == binary_reading(
        BinOp::Div,
        reading_at(numer, h),
        reading_at(range, h),
    ));
    if let Some(x) = minus(Some(hi), Some(lo)) {
        if x.m() == 0 {
            lemma_zero_is_near_zero(x);
        }
    }
    assert(reading_at(Expr::Const(Dec::whole(100)), h) == Reading::Value(Dec::whole(100)));
    assert(reading_at(stoch_k_expr(), h) == binary_reading(
        BinOp::Mul,
        reading_at(share, h),
        Reading::Value(Dec::whole(100)),
    ));
}

} // verus!
