//! Quantised, finite-lookback indicators, and the catalogue of them.
//!
//! One `update` drives both batch and streaming use, so the two cannot differ. The state of an
//! indicator is a set of windows over its last inputs ([`KernelModel`]), and [`kernel_step`] says how
//! one more sample moves it and what is then read off it.

use vstd::prelude::*;

use crate::decimal::{reading, Dec, Reading};
use crate::signal::bars::{typical_price, Bars, Sample, Window};
use crate::signal::expr::{
    self, clear_node, compile_node, emptied, eval, fresh, lookback, step, Expr, Node, NodeModel,
};
use crate::signal::price::{pct_change, pct_change_of, price_value, PriceKind};
use crate::signal::quant::{QState, Quantiser, QuantiserModel};
use crate::signal::roll::{last_n, window_mean, Roll};

verus! {

/// The version of the catalogue.
pub const CATALOGUE_VERSION: u32 = 1;

/// A number on the way to a result left the representable range.
#[derive(Debug, Clone, Copy, PartialEq, Eq, Structural)]
pub struct ArithmeticFault;

/// What an indicator declares about itself.
#[derive(Debug, PartialEq, Eq)]
pub struct IndicatorSpec {
    /// A stable identifier, such as `rsi_14`.
    pub id: String,
    /// The exact number of most recent observed inputs that the latest output depends on: bars for
    /// the price indicators, present scalars for the flow factors.
    pub lookback: usize,
    /// The number of discrete states.
    pub num_states: u16,
}

/// Which scalar of a sample a flow factor reads.
#[derive(Debug, Clone, Copy, PartialEq, Eq, Structural)]
pub enum FlowSource {
    /// The funding rate.
    Funding,
    /// The open interest.
    OpenInterest,
    /// The premium over the underlier.
    Premium,
}

/// Which value a flow factor reads off its window.
#[derive(Debug, Clone, Copy, PartialEq, Eq, Structural)]
pub enum FlowKind {
    /// The newest value.
    Latest,
    /// The mean.
    Mean,
    /// The percentage change over the window.
    Roc,
}

/// The scalar that a flow factor reads off a sample.
pub open spec fn scalar_of(source: FlowSource, sample: Sample) -> Option<Dec> {
    match source {
        FlowSource::Funding => sample.funding,
        FlowSource::OpenInterest => sample.open_interest,
        FlowSource::Premium => sample.premium,
    }
}

/// The value of a flow factor on a full window.
pub open spec fn flow_value(kind: FlowKind, w: Seq<Dec>) -> Reading {
    match kind {
        FlowKind::Latest => Reading::Value(w.last()),
        FlowKind::Mean => window_mean(w),
        FlowKind::Roc => pct_change(w.first(), w.last()),
    }
}

/// A flow factor reads the scalar it is named after and no other: its latest value, the mean of the window,
/// or the change in percent from the oldest value of the window to the newest.
pub proof fn law_flow_reads_its_scalar(sample: Sample, w: Seq<Dec>)
    requires
        w.len() > 0,
    ensures
        scalar_of(FlowSource::Funding, sample) == sample.funding,
        scalar_of(FlowSource::OpenInterest, sample) == sample.open_interest,
        scalar_of(FlowSource::Premium, sample) == sample.premium,
        flow_value(FlowKind::Latest, w) == Reading::Value(w[w.len() - 1]),
        crate::decimal::mean(w) matches Some(x) ==> flow_value(FlowKind::Mean, w) == Reading::Value(x),
        flow_value(FlowKind::Roc, w) == pct_change(w[0], w[w.len() - 1]),
{
}

/// A state comes out exactly of a value that has one: an undefined reading has none, and a reading out of
/// range is a fault.
pub proof fn law_only_values_have_states(q: QuantiserModel, v: Reading)
    ensures
        quantised(q, v) is Err <==> v is Fault || (v is Value && q.state_of(v->Value_0) is None),
        quantised(q, v) == Ok::<Option<QState>, ArithmeticFault>(None) <==> v is Undefined,
        v matches Reading::Value(x) ==> (q.state_of(x) matches Some(s) ==> quantised(q, v) == Ok::<
            Option<QState>,
            ArithmeticFault,
        >(Some(s))),
{
}

/// What an indicator computes, with its live windows.
#[derive(Debug)]
pub enum Kernel {
    /// A price indicator over a rolling view of bars.
    Price(PriceKind, Bars),
    /// A flow factor over a window of one scalar.
    Flow(FlowSource, FlowKind, Roll),
    /// A formula and its lookback.
    Formula(Node, usize),
}

/// What a [`Kernel`] holds.
pub enum KernelModel {
    /// The kind of value, the window, and how many bars it spans.
    Price(PriceKind, Window, int),
    /// The scalar, the kind of value, the window, and how many scalars it spans.
    Flow(FlowSource, FlowKind, Seq<Dec>, int),
    /// The compiled formula and its lookback.
    Formula(NodeModel, int),
}

impl View for Kernel {
    type V = KernelModel;

    open spec fn view(&self) -> KernelModel {
        match self {
            Kernel::Price(kind, bars) => KernelModel::Price(*kind, bars@, bars.capacity()),
            Kernel::Flow(source, kind, roll) => KernelModel::Flow(
                *source,
                *kind,
                roll@,
                roll.capacity(),
            ),
            Kernel::Formula(node, lookback) => KernelModel::Formula(
                node.model(),
                *lookback as int,
            ),
        }
    }
}

impl KernelModel {
    /// The declared lookback.
    pub open spec fn lookback(self) -> int {
        match self {
            KernelModel::Price(_, _, cap) => cap,
            KernelModel::Flow(_, _, _, cap) => cap,
            KernelModel::Formula(_, n) => n,
        }
    }

    /// The same kernel with every window empty.
    pub open spec fn cleared(self) -> KernelModel {
        match self {
            KernelModel::Price(kind, _, cap) => KernelModel::Price(kind, Window::empty(), cap),
            KernelModel::Flow(source, kind, _, cap) => KernelModel::Flow(
                source,
                kind,
                Seq::empty(),
                cap,
            ),
            KernelModel::Formula(node, n) => KernelModel::Formula(emptied(node), n),
        }
    }
}

/// One step of a kernel: its state after one more sample, and what is read off it there.
pub open spec fn kernel_step(k: KernelModel, sample: Sample) -> (KernelModel, Reading) {
    match k {
        KernelModel::Price(kind, w, cap) => match typical_price(sample.bar@) {
            Some(typical) => {
                let next = w.slide(sample.bar@, typical, cap);
                (
                    KernelModel::Price(kind, next, cap),
                    if next.close.len() == cap {
                        price_value(kind, next)
                    } else {
                        Reading::Undefined
                    },
                )
            },
            None => (k, Reading::Fault),
        },
        KernelModel::Flow(source, kind, w, cap) => {
            let next = match scalar_of(source, sample) {
                Some(x) => last_n(w.push(x), cap),
                None => w,
            };
            (
                KernelModel::Flow(source, kind, next, cap),
                if next.len() == cap {
                    flow_value(kind, next)
                } else {
                    Reading::Undefined
                },
            )
        },
        KernelModel::Formula(node, n) => {
            let (next, v) = step(node, sample);
            (KernelModel::Formula(next, n), v)
        },
    }
}

/// The state that a reading is quantised to: none where the reading is undefined.
pub open spec fn quantised(q: QuantiserModel, v: Reading) -> Result<Option<QState>, ArithmeticFault> {
    match v {
        Reading::Undefined => Ok(None),
        Reading::Fault => Err(ArithmeticFault),
        Reading::Value(x) => match q.state_of(x) {
            Some(s) => Ok(Some(s)),
            None => Err(ArithmeticFault),
        },
    }
}

/// A quantised, finite-lookback indicator.
#[derive(Debug)]
pub struct Indicator {
    id: String,
    quantiser: Quantiser,
    kernel: Kernel,
}

/// What an [`Indicator`] holds.
pub struct IndicatorModel {
    /// The identifier.
    pub id: Seq<char>,
    /// The quantiser.
    pub quantiser: QuantiserModel,
    /// The kernel and its windows.
    pub kernel: KernelModel,
}

impl View for Indicator {
    type V = IndicatorModel;

    closed spec fn view(&self) -> IndicatorModel {
        IndicatorModel { id: self.id@, quantiser: self.quantiser@, kernel: self.kernel@ }
    }
}

impl IndicatorModel {
    /// One step: the indicator after one more sample, and the state it is then in.
    pub open spec fn updated(self, sample: Sample) -> (IndicatorModel, Result<
        Option<QState>,
        ArithmeticFault,
    >) {
        let (kernel, v) = kernel_step(self.kernel, sample);
        (IndicatorModel { kernel, ..self }, quantised(self.quantiser, v))
    }

    /// The indicator with every window empty.
    pub open spec fn reset(self) -> IndicatorModel {
        IndicatorModel { kernel: self.kernel.cleared(), ..self }
    }

    /// The indicator after a series of samples.
    pub open spec fn after(self, samples: Seq<Sample>) -> IndicatorModel
        decreases samples.len(),
    {
        if samples.len() == 0 {
            self
        } else {
            self.after(samples.drop_last()).updated(samples.last()).0
        }
    }

    /// What the indicator says to the last of a series of samples.
    pub open spec fn output(self, samples: Seq<Sample>) -> Result<Option<QState>, ArithmeticFault> {
        self.after(samples.drop_last()).updated(samples.last()).1
    }
}

/// A fresh price indicator.
pub open spec fn price_indicator(
    id: Seq<char>,
    lookback: int,
    quantiser: QuantiserModel,
    kind: PriceKind,
) -> IndicatorModel {
    IndicatorModel {
        id,
        quantiser,
        kernel: KernelModel::Price(kind, Window::empty(), lookback),
    }
}

/// A fresh flow factor.
pub open spec fn flow_indicator(
    id: Seq<char>,
    lookback: int,
    quantiser: QuantiserModel,
    source: FlowSource,
    kind: FlowKind,
) -> IndicatorModel {
    IndicatorModel {
        id,
        quantiser,
        kernel: KernelModel::Flow(source, kind, Seq::empty(), lookback),
    }
}

/// A fresh formula indicator.
pub open spec fn formula_indicator(
    id: Seq<char>,
    expr: Expr,
    quantiser: QuantiserModel,
) -> IndicatorModel {
    IndicatorModel {
        id,
        quantiser,
        kernel: KernelModel::Formula(fresh(expr), lookback(expr) as int),
    }
}

impl Indicator {
    /// What holds of every indicator that exists at run time.
    #[verifier::type_invariant]
    pub closed spec fn valid(self) -> bool {
        self.quantiser@.states() <= u16::MAX
    }

    /// A fresh price indicator.
    pub fn price(id: &str, lookback: usize, quantiser: Quantiser, kind: PriceKind) -> (r: Indicator)
        requires
            lookback >= 1,
            quantiser@.states() <= u16::MAX,
        ensures
            r@ == price_indicator(id@, lookback as int, quantiser@, kind),
    {
        Indicator { id: id.to_owned(), quantiser, kernel: Kernel::Price(kind, Bars::new(lookback)) }
    }

    /// A fresh flow factor.
    pub fn flow(
        id: &str,
        lookback: usize,
        quantiser: Quantiser,
        source: FlowSource,
        kind: FlowKind,
    ) -> (r: Indicator)
        requires
            lookback >= 1,
            quantiser@.states() <= u16::MAX,
        ensures
            r@ == flow_indicator(id@, lookback as int, quantiser@, source, kind),
    {
        Indicator {
            id: id.to_owned(),
            quantiser,
            kernel: Kernel::Flow(source, kind, Roll::new(lookback)),
        }
    }

    /// A formula, compiled to an indicator. Its lookback is the formula's.
    pub fn compile(id: &str, expr: &Expr, quantiser: Quantiser) -> (r: Indicator)
        requires
            lookback(*expr) <= usize::MAX,
            quantiser@.states() <= u16::MAX,
        ensures
            r@ == formula_indicator(id@, *expr, quantiser@),
    {
        Indicator {
            id: id.to_owned(),
            quantiser,
            kernel: Kernel::Formula(compile_node(expr), expr::max_lookback(expr)),
        }
    }

    /// What the indicator declares about itself.
    pub fn spec(&self) -> (r: IndicatorSpec)
        ensures
            r.id@ == self@.id,
            r.lookback == self@.kernel.lookback(),
            r.num_states == self@.quantiser.states(),
    {
        proof {
            use_type_invariant(self);
        }
        let lookback: usize = match &self.kernel {
            Kernel::Price(_, bars) => bars.cap(),
            Kernel::Flow(_, _, roll) => roll.cap(),
            Kernel::Formula(_, n) => *n,
        };
        IndicatorSpec { id: self.id.clone(), lookback, num_states: self.quantiser.states() }
    }

    /// Feeds one sample, in time order. Returns the quantised state once there is one.
    pub fn update(&mut self, sample: &Sample) -> (r: Result<Option<QState>, ArithmeticFault>)
        ensures
            (final(self)@, r) == old(self)@.updated(*sample),
    {
        proof {
            use_type_invariant(&*self);
        }
        let mut kernel: Kernel = Kernel::Formula(Node::Const(Dec::from_int(0)), 0);
        std::mem::swap(&mut kernel, &mut self.kernel);
        let (next, v) = advance(kernel, sample);
        self.kernel = next;
        match v {
            Reading::Undefined => Ok(None),
            Reading::Fault => Err(ArithmeticFault),
            Reading::Value(x) => match self.quantiser.quantise(x) {
                Some(s) => Ok(Some(s)),
                None => Err(ArithmeticFault),
            },
        }
    }

    /// Brings the indicator back to its state before the first sample.
    pub fn reset(&mut self)
        ensures
            final(self)@ == old(self)@.reset(),
    {
        proof {
            use_type_invariant(&*self);
        }
        let mut kernel: Kernel = Kernel::Formula(Node::Const(Dec::from_int(0)), 0);
        std::mem::swap(&mut kernel, &mut self.kernel);
        self.kernel =
        match kernel {
            Kernel::Price(kind, bars) => {
                let mut bars = bars;
                bars.clear();
                Kernel::Price(kind, bars)
            },
            Kernel::Flow(source, kind, roll) => {
                let mut roll = roll;
                roll.clear();
                Kernel::Flow(source, kind, roll)
            },
            Kernel::Formula(node, n) => Kernel::Formula(clear_node(node), n),
        };
    }
}

/// Advances a kernel by one sample. Returns the kernel and what is read off it.
fn advance(kernel: Kernel, sample: &Sample) -> (r: (Kernel, Reading))
    ensures
        (r.0@, r.1) == kernel_step(kernel@, *sample),
{
    match kernel {
        Kernel::Price(kind, bars) => {
            let mut bars = bars;
            let cap: usize = bars.cap();
            if bars.observe(&sample.bar) {
                let v: Reading = if bars.is_full() {
                    kind.value(&bars)
                } else {
                    Reading::Undefined
                };
                (Kernel::Price(kind, bars), v)
            } else {
                (Kernel::Price(kind, bars), Reading::Fault)
            }
        },
        Kernel::Flow(source, kind, roll) => {
            let mut roll = roll;
            let cap: usize = roll.cap();
            let scalar: Option<Dec> = match source {
                FlowSource::Funding => sample.funding,
                FlowSource::OpenInterest => sample.open_interest,
                FlowSource::Premium => sample.premium,
            };
            if let Some(x) = scalar {
                roll.push(x);
            }
            let v: Reading = if roll.is_full() {
                match (kind, roll.first(), roll.last()) {
                    (FlowKind::Latest, _, Some(x)) => Reading::Value(x),
                    (FlowKind::Mean, _, _) => roll.mean(),
                    (FlowKind::Roc, Some(first), Some(last)) => pct_change_of(first, last),
                    _ => Reading::Undefined,
                }
            } else {
                Reading::Undefined
            };
            (Kernel::Flow(source, kind, roll), v)
        },
        Kernel::Formula(node, n) => {
            let (next, v) = eval(node, sample);
            (Kernel::Formula(next, n), v)
        },
    }
}

/// Runs an indicator over a series of samples: what it says to each of them. This is the streaming
/// update, one sample after the other.
pub fn compute_batch(indicator: &mut Indicator, samples: &[Sample]) -> (r: Vec<
    Result<Option<QState>, ArithmeticFault>,
>)
    ensures
        r.len() == samples.len(),
        final(indicator)@ == old(indicator)@.after(samples@),
        forall|i: int|
            0 <= i < samples.len() ==> #[trigger] r[i] == old(indicator)@.output(
                samples@.take(i + 1),
            ),
{
    let mut out: Vec<Result<Option<QState>, ArithmeticFault>> = Vec::new();
    let ghost start = indicator@;
    let mut i: usize = 0;
    assert(samples@.take(0) =~= Seq::empty());
    while i < samples.len()
        invariant
            i <= samples.len(),
            out.len() == i,
            indicator@ == start.after(samples@.take(i as int)),
            forall|j: int|
                0 <= j < i ==> #[trigger] out[j] == start.output(samples@.take(j + 1)),
        decreases samples.len() - i,
    {
        assert(samples@.take(i + 1).drop_last() =~= samples@.take(i as int));
        out.push(indicator.update(&samples[i]));
        i = i + 1;
    }
    assert(samples@.take(i as int) =~= samples@);
    out
}

} // verus!
