//! The catalogue: the fixed set of price and flow indicators, followed by injected formulas.

use vstd::prelude::*;

use crate::decimal::Dec;
use crate::signal::bars::Window;
use crate::signal::expr::{lookback, BinOp, Expr, Field, Period, WinOp};
use crate::signal::indicator::{
    flow_indicator, formula_indicator, price_indicator, FlowKind, FlowSource, Indicator,
    IndicatorModel, KernelModel,
};
use crate::signal::price::PriceKind;
use crate::signal::quant::{Quantiser, QuantiserModel};
use crate::text::{is_stable_order, positions, stable_order, views};

verus! {

/// A formula to be injected into the catalogue, under its identifier and with its quantiser.
#[derive(Debug)]
pub struct CompiledFormula {
    /// The identifier.
    pub id: String,
    /// The formula.
    pub expr: Expr,
    /// The quantiser its value is put through.
    pub quantiser: Quantiser,
}

impl Clone for CompiledFormula {
    fn clone(&self) -> (r: CompiledFormula)
        ensures
            r.id@ == self.id@,
            r.expr == self.expr,
            r.quantiser@ == self.quantiser@,
    {
        CompiledFormula {
            id: self.id.clone(),
            expr: self.expr.clone(),
            quantiser: self.quantiser.clone(),
        }
    }
}

/// How to build the catalogue.
#[derive(Debug)]
pub struct CatalogueConfig {
    /// The number of discrete states of every built-in indicator.
    pub states: u16,
    /// The formulas to inject.
    pub formula_pool: Vec<CompiledFormula>,
}

impl Default for CatalogueConfig {
    fn default() -> (r: CatalogueConfig)
        ensures
            r.states == 5,
            r.formula_pool@ == Seq::<CompiledFormula>::empty(),
    {
        CatalogueConfig { states: 5, formula_pool: Vec::new() }
    }
}

impl CatalogueConfig {
    /// The number of states really used: at least two.
    pub open spec fn effective_states(self) -> u16 {
        if self.states < 2 {
            2
        } else {
            self.states
        }
    }

    /// Whether every formula of the pool can be compiled.
    pub open spec fn compilable(self) -> bool {
        forall|i: int|
            0 <= i < self.formula_pool@.len() ==> {
                &&& lookback((#[trigger] self.formula_pool@[i]).expr) <= usize::MAX
                &&& self.formula_pool@[i].quantiser@.states() <= u16::MAX
            }
    }

    /// The number of states really used: at least two.
    pub fn states(&self) -> (r: u16)
        ensures
            r == self.effective_states(),
    {
        if self.states < 2 {
            2
        } else {
            self.states
        }
    }
}

// ---- quantisers ----------------------------------------------------------------------------------

/// Equal-width bins between two integers.
pub open spec fn lin(min: int, max: int, states: u16) -> QuantiserModel {
    QuantiserModel::Linear { min: Dec::whole(min), max: Dec::whole(max), states }
}

/// Equal-width bins between two fractions with the same scale.
pub open spec fn lin_scaled(min: int, max: int, scale: nat, states: u16) -> QuantiserModel {
    QuantiserModel::Linear { min: Dec::of(min, scale), max: Dec::of(max, scale), states }
}

fn linear(min: i64, max: i64, states: u16) -> (r: Quantiser)
    ensures
        r@ == lin(min as int, max as int, states),
        r@.states() <= u16::MAX,
{
    Quantiser::Linear { min: Dec::from_int(min), max: Dec::from_int(max), states }
}

fn linear_scaled(min: i64, max: i64, scale: u32, states: u16) -> (r: Quantiser)
    requires
        scale <= crate::decimal::MAX_SCALE,
    ensures
        r@ == lin_scaled(min as int, max as int, scale as nat, states),
        r@.states() <= u16::MAX,
{
    Quantiser::Linear { min: Dec::scaled(min, scale), max: Dec::scaled(max, scale), states }
}

// ---- the fixed indicators ------------------------------------------------------------------------

/// What some indicators hold.
pub open spec fn models(indicators: Seq<Indicator>) -> Seq<IndicatorModel> {
    Seq::new(indicators.len(), |i: int| indicators[i]@)
}

/// The price and volume indicators, after `base`.
pub open spec fn with_price_indicators(base: Seq<IndicatorModel>, s: u16) -> Seq<IndicatorModel> {
    base.push(price_indicator("sma_ratio_20"@, 20, lin(-10, 10, s), PriceKind::SmaRatio)).push(
        price_indicator("ema_ratio_20"@, 20, lin(-10, 10, s), PriceKind::EmaRatio),
    ).push(price_indicator("rsi_14"@, 15, lin(0, 100, s), PriceKind::Rsi)).push(
        price_indicator("stoch_k_14"@, 14, lin(0, 100, s), PriceKind::StochK),
    ).push(price_indicator("williams_r_14"@, 14, lin(-100, 0, s), PriceKind::WilliamsR)).push(
        price_indicator("roc_10"@, 11, lin(-25, 25, s), PriceKind::Roc),
    ).push(price_indicator("return_1"@, 2, lin(-5, 5, s), PriceKind::Roc)).push(
        price_indicator("cci_20"@, 20, lin(-200, 200, s), PriceKind::Cci),
    ).push(
        price_indicator("bb_percent_20"@, 20, lin_scaled(-5, 15, 1, s), PriceKind::BbPercent),
    ).push(price_indicator("bb_bandwidth_20"@, 20, lin(0, 20, s), PriceKind::BbBandwidth)).push(
        price_indicator("mfi_14"@, 15, lin(0, 100, s), PriceKind::Mfi),
    ).push(price_indicator("aroon_osc_25"@, 25, lin(-100, 100, s), PriceKind::AroonOsc)).push(
        price_indicator("atr_pct_14"@, 15, lin(0, 10, s), PriceKind::AtrPct),
    ).push(price_indicator("std_returns_20"@, 21, lin(0, 10, s), PriceKind::StdReturns)).push(
        price_indicator("volume_ratio_20"@, 20, lin(0, 4, s), PriceKind::VolumeRatio),
    ).push(
        price_indicator(
            "signed_volume_ratio_14"@,
            15,
            lin(-1, 1, s),
            PriceKind::SignedVolumeRatio,
        ),
    ).push(price_indicator("cmf_20"@, 20, lin(-1, 1, s), PriceKind::Cmf)).push(
        price_indicator("macd_hist_12_26_9"@, 34, lin(-2, 2, s), PriceKind::MacdHist),
    )
}

/// The funding, open-interest and premium factors, after `base`.
pub open spec fn with_flow_indicators(base: Seq<IndicatorModel>, s: u16) -> Seq<IndicatorModel> {
    base.push(
        flow_indicator(
            "funding_state"@,
            1,
            lin_scaled(-1, 1, 2, s),
            FlowSource::Funding,
            FlowKind::Latest,
        ),
    ).push(
        flow_indicator(
            "funding_avg_8"@,
            8,
            lin_scaled(-1, 1, 2, s),
            FlowSource::Funding,
            FlowKind::Mean,
        ),
    ).push(
        flow_indicator(
            "oi_roc_10"@,
            11,
            lin(-25, 25, s),
            FlowSource::OpenInterest,
            FlowKind::Roc,
        ),
    ).push(
        flow_indicator(
            "premium_state"@,
            1,
            lin_scaled(-1, 1, 2, s),
            FlowSource::Premium,
            FlowKind::Latest,
        ),
    )
}

/// The fixed indicators, fresh.
pub open spec fn fixed_indicators(s: u16) -> Seq<IndicatorModel> {
    with_flow_indicators(with_price_indicators(Seq::empty(), s), s)
}

/// The price indicator at a place of the catalogue is known by its identifier, spans as many bars, reads the
/// value of its kind, and quantises it between the two bounds, given as mantissas at one scale.
pub open spec fn is_price_entry(
    m: IndicatorModel,
    id: Seq<char>,
    span: int,
    kind: PriceKind,
    bounds: (int, int, nat),
    states: u16,
) -> bool {
    &&& m.id == id
    &&& m.kernel == KernelModel::Price(kind, Window::empty(), span)
    &&& m.quantiser == QuantiserModel::Linear {
        min: Dec::of(bounds.0, bounds.2),
        max: Dec::of(bounds.1, bounds.2),
        states,
    }
}

/// What is read over how many bars under every identifier of the fixed price indicators, and between which
/// bounds it is quantised. Those that compare neighbouring bars span one bar more than their period.
pub proof fn law_price_indicators_are_listed(s: u16)
    ensures
        fixed_indicators(s).len() == 22,
        is_price_entry(
            fixed_indicators(s)[0],
            "sma_ratio_20"@,
            20,
            PriceKind::SmaRatio,
            (-10, 10, 0),
            s,
        ),
        is_price_entry(
            fixed_indicators(s)[1],
            "ema_ratio_20"@,
            20,
            PriceKind::EmaRatio,
            (-10, 10, 0),
            s,
        ),
        is_price_entry(
            fixed_indicators(s)[2],
            "rsi_14"@,
            15,
            PriceKind::Rsi,
            (0, 100, 0),
            s,
        ),
        is_price_entry(
            fixed_indicators(s)[3],
            "stoch_k_14"@,
            14,
            PriceKind::StochK,
            (0, 100, 0),
            s,
        ),
        is_price_entry(
            fixed_indicators(s)[4],
            "williams_r_14"@,
            14,
            PriceKind::WilliamsR,
            (-100, 0, 0),
            s,
        ),
        is_price_entry(
            fixed_indicators(s)[5],
            "roc_10"@,
            11,
            PriceKind::Roc,
            (-25, 25, 0),
            s,
        ),
        is_price_entry(
            fixed_indicators(s)[6],
            "return_1"@,
            2,
            PriceKind::Roc,
            (-5, 5, 0),
            s,
        ),
        is_price_entry(
            fixed_indicators(s)[7],
            "cci_20"@,
            20,
            PriceKind::Cci,
            (-200, 200, 0),
            s,
        ),
        is_price_entry(
            fixed_indicators(s)[8],
            "bb_percent_20"@,
            20,
            PriceKind::BbPercent,
            (-5, 15, 1),
            s,
        ),
        is_price_entry(
            fixed_indicators(s)[9],
            "bb_bandwidth_20"@,
            20,
            PriceKind::BbBandwidth,
            (0, 20, 0),
            s,
        ),
        is_price_entry(
            fixed_indicators(s)[10],
            "mfi_14"@,
            15,
            PriceKind::Mfi,
            (0, 100, 0),
            s,
        ),
        is_price_entry(
            fixed_indicators(s)[11],
            "aroon_osc_25"@,
            25,
            PriceKind::AroonOsc,
            (-100, 100, 0),
            s,
        ),
        is_price_entry(
            fixed_indicators(s)[12],
            "atr_pct_14"@,
            15,
            PriceKind::AtrPct,
            (0, 10, 0),
            s,
        ),
        is_price_entry(
            fixed_indicators(s)[13],
            "std_returns_20"@,
            21,
            PriceKind::StdReturns,
            (0, 10, 0),
            s,
        ),
        is_price_entry(
            fixed_indicators(s)[14],
            "volume_ratio_20"@,
            20,
            PriceKind::VolumeRatio,
            (0, 4, 0),
            s,
        ),
        is_price_entry(
            fixed_indicators(s)[15],
            "signed_volume_ratio_14"@,
            15,
            PriceKind::SignedVolumeRatio,
            (-1, 1, 0),
            s,
        ),
        is_price_entry(
            fixed_indicators(s)[16],
            "cmf_20"@,
            20,
            PriceKind::Cmf,
            (-1, 1, 0),
            s,
        ),
        is_price_entry(
            fixed_indicators(s)[17],
            "macd_hist_12_26_9"@,
            34,
            PriceKind::MacdHist,
            (-2, 2, 0),
            s,
        ),
{
}

/// What the fixed flow factors read, over how many values, and between which bounds it is quantised.
pub proof fn law_flow_factors_are_listed(s: u16)
    ensures
        fixed_indicators(s)[18].id == "funding_state"@,
        fixed_indicators(s)[18].kernel == KernelModel::Flow(
            FlowSource::Funding,
            FlowKind::Latest,
            Seq::empty(),
            1,
        ),
        fixed_indicators(s)[18].quantiser == (QuantiserModel::Linear {
            min: Dec::of(-1, 2),
            max: Dec::of(1, 2),
            states: s,
        }),
        fixed_indicators(s)[19].id == "funding_avg_8"@,
        fixed_indicators(s)[19].kernel == KernelModel::Flow(
            FlowSource::Funding,
            FlowKind::Mean,
            Seq::empty(),
            8,
        ),
        fixed_indicators(s)[19].quantiser == (QuantiserModel::Linear {
            min: Dec::of(-1, 2),
            max: Dec::of(1, 2),
            states: s,
        }),
        fixed_indicators(s)[20].id == "oi_roc_10"@,
        fixed_indicators(s)[20].kernel == KernelModel::Flow(
            FlowSource::OpenInterest,
            FlowKind::Roc,
            Seq::empty(),
            11,
        ),
        fixed_indicators(s)[20].quantiser == (QuantiserModel::Linear {
            min: Dec::of(-25, 0),
            max: Dec::of(25, 0),
            states: s,
        }),
        fixed_indicators(s)[21].id == "premium_state"@,
        fixed_indicators(s)[21].kernel == KernelModel::Flow(
            FlowSource::Premium,
            FlowKind::Latest,
            Seq::empty(),
            1,
        ),
        fixed_indicators(s)[21].quantiser == (QuantiserModel::Linear {
            min: Dec::of(-1, 2),
            max: Dec::of(1, 2),
            states: s,
        }),
{
}

fn add_price(
    out: &mut Vec<Indicator>,
    id: &str,
    lookback: usize,
    quantiser: Quantiser,
    kind: PriceKind,
)
    requires
        lookback >= 1,
        quantiser@.states() <= u16::MAX,
    ensures
        models(final(out)@) == models(old(out)@).push(
            price_indicator(id@, lookback as int, quantiser@, kind),
        ),
{
    let ghost before = models(out@);
    out.push(Indicator::price(id, lookback, quantiser, kind));
    assert(models(out@) =~= before.push(out@.last()@));
}

fn add_flow(
    out: &mut Vec<Indicator>,
    id: &str,
    lookback: usize,
    quantiser: Quantiser,
    source: FlowSource,
    kind: FlowKind,
)
    requires
        lookback >= 1,
        quantiser@.states() <= u16::MAX,
    ensures
        models(final(out)@) == models(old(out)@).push(
            flow_indicator(id@, lookback as int, quantiser@, source, kind),
        ),
{
    let ghost before = models(out@);
    out.push(Indicator::flow(id, lookback, quantiser, source, kind));
    assert(models(out@) =~= before.push(out@.last()@));
}

/// Appends every price and volume indicator.
pub fn extend_with_price(out: &mut Vec<Indicator>, s: u16)
    ensures
        models(final(out)@) == with_price_indicators(models(old(out)@), s),
{
    add_price(out, "sma_ratio_20", 20, linear(-10, 10, s), PriceKind::SmaRatio);
    add_price(out, "ema_ratio_20", 20, linear(-10, 10, s), PriceKind::EmaRatio);
    add_price(out, "rsi_14", 15, linear(0, 100, s), PriceKind::Rsi);
    add_price(out, "stoch_k_14", 14, linear(0, 100, s), PriceKind::StochK);
    add_price(out, "williams_r_14", 14, linear(-100, 0, s), PriceKind::WilliamsR);
    add_price(out, "roc_10", 11, linear(-25, 25, s), PriceKind::Roc);
    add_price(out, "return_1", 2, linear(-5, 5, s), PriceKind::Roc);
    add_price(out, "cci_20", 20, linear(-200, 200, s), PriceKind::Cci);
    add_price(out, "bb_percent_20", 20, linear_scaled(-5, 15, 1, s), PriceKind::BbPercent);
    add_price(out, "bb_bandwidth_20", 20, linear(0, 20, s), PriceKind::BbBandwidth);
    add_price(out, "mfi_14", 15, linear(0, 100, s), PriceKind::Mfi);
    add_price(out, "aroon_osc_25", 25, linear(-100, 100, s), PriceKind::AroonOsc);
    add_price(out, "atr_pct_14", 15, linear(0, 10, s), PriceKind::AtrPct);
    add_price(out, "std_returns_20", 21, linear(0, 10, s), PriceKind::StdReturns);
    add_price(out, "volume_ratio_20", 20, linear(0, 4, s), PriceKind::VolumeRatio);
    add_price(
        out,
        "signed_volume_ratio_14",
        15,
        linear(-1, 1, s),
        PriceKind::SignedVolumeRatio,
    );
    add_price(out, "cmf_20", 20, linear(-1, 1, s), PriceKind::Cmf);
    add_price(out, "macd_hist_12_26_9", 34, linear(-2, 2, s), PriceKind::MacdHist);
}

/// Appends every funding, open-interest and premium factor.
pub fn extend_with_flow(out: &mut Vec<Indicator>, s: u16)
    ensures
        models(final(out)@) == with_flow_indicators(models(old(out)@), s),
{
    add_flow(
        out,
        "funding_state",
        1,
        linear_scaled(-1, 1, 2, s),
        FlowSource::Funding,
        FlowKind::Latest,
    );
    add_flow(
        out,
        "funding_avg_8",
        8,
        linear_scaled(-1, 1, 2, s),
        FlowSource::Funding,
        FlowKind::Mean,
    );
    add_flow(
        out,
        "oi_roc_10",
        11,
        linear(-25, 25, s),
        FlowSource::OpenInterest,
        FlowKind::Roc,
    );
    add_flow(
        out,
        "premium_state",
        1,
        linear_scaled(-1, 1, 2, s),
        FlowSource::Premium,
        FlowKind::Latest,
    );
}

// ---- the whole catalogue -------------------------------------------------------------------------

/// The identifiers of a pool.
pub open spec fn pool_ids(pool: Seq<CompiledFormula>) -> Seq<Seq<char>> {
    Seq::new(pool.len(), |i: int| pool[i].id@)
}

/// The fixed indicators, then the pool's formulas in the given order.
pub open spec fn catalogue_in_order(cfg: CatalogueConfig, order: Seq<int>) -> Seq<IndicatorModel> {
    let pool = cfg.formula_pool@;
    fixed_indicators(cfg.effective_states()) + Seq::new(
        order.len(),
        |a: int|
            formula_indicator(
                pool[order[a]].id@,
                pool[order[a]].expr,
                pool[order[a]].quantiser@,
            ),
    )
}

/// Whether `m` is the catalogue of `cfg`: the fixed indicators, then the pool's formulas in ascending
/// order of their identifiers.
pub open spec fn is_catalogue(cfg: CatalogueConfig, m: Seq<IndicatorModel>) -> bool {
    exists|order: Seq<int>|
        is_stable_order(pool_ids(cfg.formula_pool@), order) && m == #[trigger] catalogue_in_order(
            cfg,
            order,
        )
}

/// Builds the catalogue.
pub fn catalogue(cfg: &CatalogueConfig) -> (r: Vec<Indicator>)
    requires
        cfg.compilable(),
    ensures
        is_catalogue(*cfg, models(r@)),
        r.len() == 22 + cfg.formula_pool.len(),
{
    let s: u16 = cfg.states();
    let mut out: Vec<Indicator> = Vec::new();
    assert(models(out@) =~= Seq::empty());
    extend_with_price(&mut out, s);
    extend_with_flow(&mut out, s);
    let ghost fixed = models(out@);
    let pool: &Vec<CompiledFormula> = &cfg.formula_pool;
    let mut ids: Vec<String> = Vec::new();
    let mut i: usize = 0;
    while i < pool.len()
        invariant
            i <= pool.len(),
            ids.len() == i,
            forall|j: int| 0 <= j < i ==> (#[trigger] ids[j])@ == pool[j].id@,
        decreases pool.len() - i,
    {
        ids.push(pool[i].id.clone());
        i = i + 1;
    }
    assert(views(ids@) =~= pool_ids(pool@));
    let order: Vec<usize> = stable_order(&ids);
    let ghost at = positions(order@);
    let mut a: usize = 0;
    assert(models(out@) =~= catalogue_in_order(*cfg, at.take(0)));
    while a < order.len()
        invariant
            a <= order.len(),
            cfg.compilable(),
            *pool == cfg.formula_pool,
            at == positions(order@),
            is_stable_order(pool_ids(pool@), at),
            fixed == fixed_indicators(cfg.effective_states()),
            models(out@) == catalogue_in_order(*cfg, at.take(a as int)),
        decreases order.len() - a,
    {
        assert(0 <= at[a as int] < pool.len());
        let f: &CompiledFormula = &pool[order[a]];
        let ghost before = models(out@);
        out.push(Indicator::compile(f.id.as_str(), &f.expr, f.quantiser.clone()));
        proof {
            assert(models(out@) =~= before.push(out@.last()@));
            assert(at.take(a + 1) =~= at.take(a as int).push(at[a as int]));
            assert(models(out@) =~= catalogue_in_order(*cfg, at.take(a + 1)));
        }
        a = a + 1;
    }
    assert(at.take(a as int) =~= at);
    assert(is_catalogue(*cfg, models(out@)));
    assert(models(out@).len() == out@.len());
    out
}

/// The largest declared lookback of some indicators; 0 if there are none.
pub open spec fn largest_lookback(m: Seq<IndicatorModel>) -> int
    decreases m.len(),
{
    if m.len() == 0 {
        0
    } else {
        let before = largest_lookback(m.drop_last());
        let last = m.last().kernel.lookback();
        if last >= before {
            last
        } else {
            before
        }
    }
}

/// The largest lookback is one of those declared, and none declared is larger.
pub proof fn law_largest_lookback_is_largest(m: Seq<IndicatorModel>, i: int)
    requires
        m.len() > 0,
        forall|k: int| 0 <= k < m.len() ==> (#[trigger] m[k]).kernel.lookback() >= 0,
    ensures
        0 <= i < m.len() ==> m[i].kernel.lookback() <= largest_lookback(m),
        exists|k: int| 0 <= k < m.len() && (#[trigger] m[k]).kernel.lookback() == largest_lookback(m),
    decreases m.len(),
{
    let rest = m.drop_last();
    assert(m.last() == m[m.len() - 1]);
    if rest.len() > 0 {
        assert forall|k: int| 0 <= k < rest.len() implies (#[trigger] rest[k]).kernel.lookback()
            >= 0 by {
            assert(rest[k] == m[k]);
        }
        law_largest_lookback_is_largest(rest, i);
        let k = choose|k: int|
            0 <= k < rest.len() && (#[trigger] rest[k]).kernel.lookback() == largest_lookback(rest);
        assert(m[k] == rest[k]);
        if 0 <= i < rest.len() {
            assert(m[i] == rest[i]);
        }
    }
}

/// The largest declared lookback across the catalogue.
pub fn max_lookback(cfg: &CatalogueConfig) -> (r: usize)
    requires
        cfg.compilable(),
    ensures
        exists|m: Seq<IndicatorModel>| #[trigger]
            is_catalogue(*cfg, m) && r == largest_lookback(m),
{
    let cat: Vec<Indicator> = catalogue(cfg);
    let ghost m = models(cat@);
    let mut best: usize = 0;
    let mut i: usize = 0;
    while i < cat.len()
        invariant
            i <= cat.len(),
            m == models(cat@),
            best == largest_lookback(m.take(i as int)),
        decreases cat.len() - i,
    {
        assert(m.take(i + 1).drop_last() =~= m.take(i as int));
        assert(m.take(i + 1).last() == cat@[i as int]@);
        let n: usize = cat[i].spec().lookback;
        if n >= best {
            best = n;
        }
        i = i + 1;
    }
    assert(m.take(i as int) =~= m);
    best
}

// ---- formulas that reproduce catalogue indicators ------------------------------------------------

/// `(a / b - 1) * 100` as a formula.
pub open spec fn pct_change_expr(a: Expr, b: Expr) -> Expr {
    Expr::Binary(
        BinOp::Mul,
        Box::new(
            Expr::Binary(
                BinOp::Sub,
                Box::new(Expr::Binary(BinOp::Div, Box::new(a), Box::new(b))),
                Box::new(Expr::Const(Dec::whole(1))),
            ),
        ),
        Box::new(Expr::Const(Dec::whole(100))),
    )
}

/// A window over a field as a formula.
pub open spec fn window_expr(op: WinOp, field: Field, cap: Period) -> Expr {
    Expr::Window(op, Box::new(Expr::Input(field)), cap)
}

/// The formula of `sma_ratio_20`.
pub open spec fn sma_ratio_expr() -> Expr {
    pct_change_expr(Expr::Input(Field::Close), window_expr(WinOp::Mean, Field::Close, 20))
}

/// The formula of `volume_ratio_20`.
pub open spec fn volume_ratio_expr() -> Expr {
    Expr::Binary(
        BinOp::Div,
        Box::new(Expr::Input(Field::Volume)),
        Box::new(window_expr(WinOp::Mean, Field::Volume, 20)),
    )
}

/// The formula of `return_1` (capacity 2) and of `roc_10` (capacity 11).
pub open spec fn roc_expr(cap: Period) -> Expr {
    pct_change_expr(Expr::Input(Field::Close), window_expr(WinOp::Lag, Field::Close, cap))
}

/// The formula of `stoch_k_14`.
pub open spec fn stoch_k_expr() -> Expr {
    let min_low = window_expr(WinOp::Min, Field::Low, 14);
    let max_high = window_expr(WinOp::Max, Field::High, 14);
    Expr::Binary(
        BinOp::Mul,
        Box::new(
            Expr::Binary(
                BinOp::Div,
                Box::new(
                    Expr::Binary(
                        BinOp::Sub,
                        Box::new(Expr::Input(Field::Close)),
                        Box::new(min_low),
                    ),
                ),
                Box::new(Expr::Binary(BinOp::Sub, Box::new(max_high), Box::new(min_low))),
            ),
        ),
        Box::new(Expr::Const(Dec::whole(100))),
    )
}

fn pct_change_of(a: Expr, b: Expr) -> (r: Expr)
    ensures
        r == pct_change_expr(a, b),
{
    Expr::Binary(
        BinOp::Mul,
        Box::new(
            Expr::Binary(
                BinOp::Sub,
                Box::new(Expr::Binary(BinOp::Div, Box::new(a), Box::new(b))),
                Box::new(Expr::Const(Dec::from_int(1))),
            ),
        ),
        Box::new(Expr::Const(Dec::from_int(100))),
    )
}

fn window_of_field(op: WinOp, field: Field, cap: Period) -> (r: Expr)
    ensures
        r == window_expr(op, field, cap),
{
    Expr::Window(op, Box::new(Expr::Input(field)), cap)
}

/// The five catalogue indicators that are reproduced by formulas: identifier, formula, quantiser.
pub fn seed_catalogue_subset(states: u16) -> (r: Vec<(&'static str, Expr, Quantiser)>)
    ensures
        r.len() == 5,
        r[0].0@ == "sma_ratio_20"@ && r[0].1 == sma_ratio_expr() && r[0].2@ == lin(-10, 10, states),
        r[1].0@ == "volume_ratio_20"@ && r[1].1 == volume_ratio_expr() && r[1].2@ == lin(
            0,
            4,
            states,
        ),
        r[2].0@ == "return_1"@ && r[2].1 == roc_expr(2) && r[2].2@ == lin(-5, 5, states),
        r[3].0@ == "roc_10"@ && r[3].1 == roc_expr(11) && r[3].2@ == lin(-25, 25, states),
        r[4].0@ == "stoch_k_14"@ && r[4].1 == stoch_k_expr() && r[4].2@ == lin(0, 100, states),
{
    let mut out: Vec<(&'static str, Expr, Quantiser)> = Vec::new();
    out.push(
        (
            "sma_ratio_20",
            pct_change_of(
                Expr::Input(Field::Close),
                window_of_field(WinOp::Mean, Field::Close, 20),
            ),
            linear(-10, 10, states),
        ),
    );
    out.push(
        (
            "volume_ratio_20",
            Expr::Binary(
                BinOp::Div,
                Box::new(Expr::Input(Field::Volume)),
                Box::new(window_of_field(WinOp::Mean, Field::Volume, 20)),
            ),
            linear(0, 4, states),
        ),
    );
    out.push(
        (
            "return_1",
            pct_change_of(
                Expr::Input(Field::Close),
                window_of_field(WinOp::Lag, Field::Close, 2),
            ),
            linear(-5, 5, states),
        ),
    );
    out.push(
        (
            "roc_10",
            pct_change_of(
                Expr::Input(Field::Close),
                window_of_field(WinOp::Lag, Field::Close, 11),
            ),
            linear(-25, 25, states),
        ),
    );
    let numer: Expr = Expr::Binary(
        BinOp::Sub,
        Box::new(Expr::Input(Field::Close)),
        Box::new(window_of_field(WinOp::Min, Field::Low, 14)),
    );
    let range: Expr = Expr::Binary(
        BinOp::Sub,
        Box::new(window_of_field(WinOp::Max, Field::High, 14)),
        Box::new(window_of_field(WinOp::Min, Field::Low, 14)),
    );
    out.push(
        (
            "stoch_k_14",
            Expr::Binary(
                BinOp::Mul,
                Box::new(Expr::Binary(BinOp::Div, Box::new(numer), Box::new(range))),
                Box::new(Expr::Const(Dec::from_int(100))),
            ),
            linear(0, 100, states),
        ),
    );
    out
}

/// The lookbacks of the seeds' formulas are the ones the catalogue declares.
pub proof fn law_seed_lookbacks()
    ensures
        lookback(sma_ratio_expr()) == 20,
        lookback(volume_ratio_expr()) == 20,
        lookback(roc_expr(2)) == 2,
        lookback(roc_expr(11)) == 11,
        lookback(stoch_k_expr()) == 14,
{
    reveal_with_fuel(lookback, 6);
}

/// The seeds' formulas, compiled.
pub fn seed_indicators(states: u16) -> (r: Vec<Indicator>)
    ensures
        models(r@) == seq![
            formula_indicator("sma_ratio_20"@, sma_ratio_expr(), lin(-10, 10, states)),
            formula_indicator("volume_ratio_20"@, volume_ratio_expr(), lin(0, 4, states)),
            formula_indicator("return_1"@, roc_expr(2), lin(-5, 5, states)),
            formula_indicator("roc_10"@, roc_expr(11), lin(-25, 25, states)),
            formula_indicator("stoch_k_14"@, stoch_k_expr(), lin(0, 100, states)),
        ],
{
    proof {
        law_seed_lookbacks();
    }
    let seeds: Vec<(&'static str, Expr, Quantiser)> = seed_catalogue_subset(states);
    let mut out: Vec<Indicator> = Vec::new();
    out.push(Indicator::compile(seeds[0].0, &seeds[0].1, seeds[0].2.clone()));
    out.push(Indicator::compile(seeds[1].0, &seeds[1].1, seeds[1].2.clone()));
    out.push(Indicator::compile(seeds[2].0, &seeds[2].1, seeds[2].2.clone()));
    out.push(Indicator::compile(seeds[3].0, &seeds[3].1, seeds[3].2.clone()));
    out.push(Indicator::compile(seeds[4].0, &seeds[4].1, seeds[4].2.clone()));
    out
}

} // verus!
