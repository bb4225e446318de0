//! Point-wise quantisation of a continuous value into a discrete state.
//!
//! Point-wise on purpose: no rolling quantiles and no fit over a data set, so a state never depends
//! on anything but the value it was computed from.

use vstd::prelude::*;

use crate::count::{lemma_no_position, lemma_one_more_position, positions};
use crate::decimal::{
    dec_lt, decimal_difference, decimal_product, decimal_quotient, difference_facts,
    divide_results, lemma_of, lemma_pow10_positive, lemma_whole_units_keep_order, minus,
    multiply_results, no_larger, over, pow10, product_facts, quotient_facts, times, whole_units,
    Dec,
};

verus! {

/// A discrete indicator state.
#[derive(Debug, Clone, Copy, PartialEq, Eq, PartialOrd, Ord, Hash, Structural)]
pub struct QState {
    bucket: u16,
}

impl QState {
    /// The 0-based bucket index.
    pub closed spec fn bucket(self) -> u16 {
        self.bucket
    }

    /// The state of a bucket.
    pub closed spec fn of(bucket: u16) -> QState {
        QState { bucket }
    }

    /// The 0-based bucket index.
    pub fn index(self) -> (r: u16)
        ensures
            r == self.bucket(),
    {
        self.bucket
    }

    /// The state with the given bucket index.
    pub fn from_index(bucket: u16) -> (r: QState)
        ensures
            r == QState::of(bucket),
            r.bucket() == bucket,
    {
        QState { bucket }
    }
}

/// A state is its bucket index, and the other way round.
pub proof fn law_state_is_its_index(state: QState, bucket: u16)
    ensures
        QState::of(bucket).bucket() == bucket,
        QState::of(state.bucket()) == state,
{
}

/// Maps a continuous value to a [`QState`].
#[derive(Debug, PartialEq, Eq)]
pub enum Quantiser {
    /// Equal-width bins over `[min, max]`; values outside are clamped into range.
    Linear {
        /// Lower bound of the range.
        min: Dec,
        /// Upper bound of the range.
        max: Dec,
        /// Number of bins.
        states: u16,
    },
    /// Ascending interior thresholds: the bucket is the number of `edges` below the value.
    Bands {
        /// The interior edges.
        edges: Vec<Dec>,
    },
}

/// What a [`Quantiser`] holds.
pub enum QuantiserModel {
    /// Equal-width bins.
    Linear {
        /// Lower bound of the range.
        min: Dec,
        /// Upper bound of the range.
        max: Dec,
        /// Number of bins.
        states: u16,
    },
    /// Interior thresholds.
    Bands {
        /// The interior edges.
        edges: Seq<Dec>,
    },
}

impl View for Quantiser {
    type V = QuantiserModel;

    open spec fn view(&self) -> QuantiserModel {
        match self {
            Quantiser::Linear { min, max, states } => QuantiserModel::Linear {
                min: *min,
                max: *max,
                states: *states,
            },
            Quantiser::Bands { edges } => QuantiserModel::Bands { edges: edges@ },
        }
    }
}

/// How many of `edges` are below `value`.
pub open spec fn edges_below(edges: Seq<Dec>, value: Dec) -> nat
    decreases edges.len(),
{
    if edges.len() == 0 {
        0
    } else {
        edges_below(edges.drop_last(), value) + (if dec_lt(edges.last(), value) {
            1nat
        } else {
            0nat
        })
    }
}

/// The number of bins a linear quantiser really has.
pub open spec fn bins(states: u16) -> u16 {
    if states == 0 {
        1
    } else {
        states
    }
}

/// Where `value` lies in `[min, max]`, in bins.
pub open spec fn bin_position(min: Dec, max: Dec, states: u16, value: Dec) -> Option<Dec> {
    times(
        over(minus(Some(value), Some(min)), minus(Some(max), Some(min))),
        Some(Dec::whole(bins(states) as int)),
    )
}

/// The bin that a position falls into: its whole part, at most the last bin.
pub open spec fn bin_at(position: Dec, states: u16) -> u16 {
    let bucket = (whole_units(position) % 0x1_0000) as u16;
    if bucket < bins(states) {
        bucket
    } else {
        (bins(states) - 1) as u16
    }
}

impl QuantiserModel {
    /// How many states there are.
    pub open spec fn states(self) -> int {
        match self {
            QuantiserModel::Linear { states, .. } => bins(states) as int,
            QuantiserModel::Bands { edges } => edges.len() as int + 1,
        }
    }

    /// The state of `value`; `None` if finding its bin needs a number out of range.
    pub open spec fn state_of(self, value: Dec) -> Option<QState> {
        match self {
            QuantiserModel::Linear { min, max, states } => {
                if !dec_lt(min, max) || !dec_lt(min, value) {
                    Some(QState::of(0))
                } else if !dec_lt(value, max) {
                    Some(QState::of((bins(states) - 1) as u16))
                } else {
                    match bin_position(min, max, states, value) {
                        Some(position) => Some(QState::of(bin_at(position, states))),
                        None => None,
                    }
                }
            },
            QuantiserModel::Bands { edges } => Some(QState::of(edges_below(edges, value) as u16)),
        }
    }
}

/// No more edges are below a value than there are edges.
pub proof fn lemma_edges_below_bounded(edges: Seq<Dec>, value: Dec)
    ensures
        edges_below(edges, value) <= edges.len(),
    decreases edges.len(),
{
    if edges.len() > 0 {
        lemma_edges_below_bounded(edges.drop_last(), value);
    }
}

/// The band of a value is the number of edges below it; a value at an edge is in the band under it.
pub proof fn law_band_counts_the_edges_below(edges: Seq<Dec>, value: Dec)
    ensures
        edges_below(edges, value) == Set::new(
            |i: int| 0 <= i < edges.len() && dec_lt(edges[i], value),
        ).len(),
        edges.len() < u16::MAX ==> (QuantiserModel::Bands { edges }).state_of(value) is Some && (
        QuantiserModel::Bands { edges }).state_of(value)->0.bucket() == edges_below(edges, value),
    decreases edges.len(),
{
    let n = edges.len() as int;
    let p = |i: int| dec_lt(edges[i], value);
    assert(Set::new(|i: int| 0 <= i < edges.len() && dec_lt(edges[i], value)) =~= positions(n, p));
    lemma_edges_below_bounded(edges, value);
    if n == 0 {
        lemma_no_position(p);
    } else {
        let rest = edges.drop_last();
        law_band_counts_the_edges_below(rest, value);
        assert(Set::new(|i: int| 0 <= i < rest.len() && dec_lt(rest[i], value)) =~= positions(
            n - 1,
            p,
        ));
        lemma_one_more_position(n, p);
    }
}

/// Within its range, a linear quantiser puts a value into the bin that the value's share of the range, times
/// the number of bins, falls into.
pub proof fn law_bins_are_of_equal_width(min: Dec, max: Dec, states: u16, value: Dec, share: Dec, at: Dec)
    requires
        states > 0,
        dec_lt(min, max),
        dec_lt(min, value),
        dec_lt(value, max),
        over(minus(Some(value), Some(min)), minus(Some(max), Some(min))) == Some(share),
        times(Some(share), Some(Dec::whole(states as int))) == Some(at),
        0 <= at.m(),
        at.m() / pow10(at.s()) <= states,
    ensures
        ({
            let q = QuantiserModel::Linear { min, max, states };
            let floor = at.m() / pow10(at.s());
            &&& q.state_of(value) is Some
            &&& floor < states ==> q.state_of(value)->0.bucket() == floor
            &&& floor == states ==> q.state_of(value)->0.bucket() == states - 1
            &&& q.states() == states
        }),
{
    lemma_pow10_positive(at.s());
    assert(at.m() / pow10(at.s()) >= 0) by (nonlinear_arith)
        requires
            at.m() >= 0,
            pow10(at.s()) >= 1,
    ;
}

/// A value is always put into one of the quantiser's states.
pub proof fn law_state_in_range(q: QuantiserModel, value: Dec)
    requires
        q.states() <= u16::MAX,
    ensures
        q.state_of(value) matches Some(s) ==> s.bucket() < q.states(),
{
    match q {
        QuantiserModel::Linear { .. } => {},
        QuantiserModel::Bands { edges } => {
            lemma_edges_below_bounded(edges, value);
        },
    }
}

/// With ascending edges a larger value is never put into a lower band.
pub proof fn law_bands_are_monotone(edges: Seq<Dec>, low: Dec, high: Dec)
    requires
        low.wf(),
        high.wf(),
        forall|i: int| 0 <= i < edges.len() ==> (#[trigger] edges[i]).wf(),
        !dec_lt(high, low),
    ensures
        edges_below(edges, low) <= edges_below(edges, high),
    decreases edges.len(),
{
    if edges.len() > 0 {
        assert(edges.last() == edges[edges.len() - 1]);
        if dec_lt(edges.last(), low) {
            crate::decimal::law_order_is_transitive(edges.last(), low, high);
        }
        assert forall|i: int| 0 <= i < edges.drop_last().len() implies (
        #[trigger] edges.drop_last()[i]).wf() by {
            assert(edges.drop_last()[i] == edges[i]);
        }
        law_bands_are_monotone(edges.drop_last(), low, high);
    }
}

/// With ascending edges a larger value is never put into a state with a lower index.
pub proof fn law_band_states_are_monotone(edges: Seq<Dec>, low: Dec, high: Dec)
    requires
        edges.len() < u16::MAX,
        low.wf(),
        high.wf(),
        forall|i: int| 0 <= i < edges.len() ==> (#[trigger] edges[i]).wf(),
        !dec_lt(high, low),
    ensures
        ({
            let q = QuantiserModel::Bands { edges };
            &&& q.state_of(low) matches Some(a) && a.bucket() == edges_below(edges, low)
            &&& q.state_of(high) matches Some(b) && b.bucket() == edges_below(edges, high)
            &&& q.state_of(low)->0.bucket() <= q.state_of(high)->0.bucket() < q.states()
        }),
{
    lemma_edges_below_bounded(edges, low);
    lemma_edges_below_bounded(edges, high);
    law_bands_are_monotone(edges, low, high);
}

/// A linear quantiser puts what is at or below its range into the first state, what is at or above it into
/// the last, and everything into the first where the range is empty.
pub proof fn law_linear_ends(min: Dec, max: Dec, states: u16, value: Dec)
    ensures
        ({
            let q = QuantiserModel::Linear { min, max, states };
            &&& !dec_lt(min, max) || !dec_lt(min, value) ==> q.state_of(value) == Some(QState::of(0))
            &&& dec_lt(min, max) && dec_lt(min, value) && !dec_lt(value, max) ==> q.state_of(value)
                == Some(QState::of((q.states() - 1) as u16))
        }),
{
}

/// A value at or above the range of a linear quantiser is put into no lower state than any other, and one
/// at or below the range into no higher.
pub proof fn law_linear_is_monotone_at_the_ends(
    min: Dec,
    max: Dec,
    states: u16,
    low: Dec,
    high: Dec,
)
    requires
        min.wf(),
        max.wf(),
        low.wf(),
        high.wf(),
        !dec_lt(high, low),
        !dec_lt(min, max) || !dec_lt(min, low) || !dec_lt(high, max),
    ensures
        ({
            let q = QuantiserModel::Linear { min, max, states };
            q.state_of(low) is Some && q.state_of(high) is Some ==> q.state_of(low)->0.bucket()
                <= q.state_of(high)->0.bucket() < q.states()
        }),
{
    let q = QuantiserModel::Linear { min, max, states };
    law_state_in_range(q, low);
    law_state_in_range(q, high);
    if dec_lt(min, max) && dec_lt(min, low) {
        crate::decimal::law_order_is_transitive(min, low, high);
    }
}

/// Within the range of a linear quantiser the bin follows the position: a position that is no smaller gives
/// no lower bin.
pub proof fn law_bins_follow_positions(low: Dec, high: Dec, states: u16)
    requires
        0 <= whole_units(low) <= whole_units(high) < 0x1_0000,
    ensures
        bin_at(low, states) <= bin_at(high, states) < bins(states),
{
}

/// Whether `a` is no higher a state than `b`, where both are states.
pub open spec fn no_higher(a: Option<QState>, b: Option<QState>) -> bool {
    a is Some && b is Some ==> a->0.bucket() <= b->0.bucket()
}

/// Within the range of a linear quantiser, a value that is no larger is put into no higher state. What is
/// required is what is known of the difference, the quotient and the product that the larger value's
/// position is found by.
proof fn lemma_linear_keeps_order(min: Dec, max: Dec, states: u16, low: Dec, high: Dec)
    requires
        min.wf(),
        max.wf(),
        low.wf(),
        high.wf(),
        dec_lt(min, high),
        dec_lt(high, max),
        !dec_lt(high, low),
        ({
            let bins = Dec::whole(bins(states) as int);
            let whole = minus(Some(max), Some(min));
            let part = minus(Some(high), Some(min));
            let share = over(part, whole);
            &&& difference_facts(max, min, whole)
            &&& difference_facts(high, min, part)
            &&& part is Some && whole is Some ==> quotient_facts(part->0, whole->0, share)
            &&& share is Some ==> product_facts(share->0, bins, times(share, Some(bins)))
        }),
    ensures
        ({
            let q = QuantiserModel::Linear { min, max, states };
            no_higher(q.state_of(low), q.state_of(high))
        }),
{
    let q = QuantiserModel::Linear { min, max, states };
    let n = bins(states) as int;
    let whole = minus(Some(max), Some(min));
    let part = minus(Some(high), Some(min));
    let share = over(part, whole);
    let position = times(share, Some(Dec::whole(n)));
    crate::decimal::law_order_is_total(min, max);
    crate::decimal::law_order_is_total(high, max);
    crate::decimal::law_order_is_transitive(min, high, max);
    if !dec_lt(low, max) {
        crate::decimal::law_order_is_transitive(high, max, low);
    }
    if dec_lt(min, low) && position is Some && bin_position(min, max, states, low) is Some {
        let low_part = decimal_difference(low, min);
        let low_share = decimal_quotient(low_part->0, whole->0);
        let low_position = decimal_product(low_share->0, Dec::whole(n));
        assert(no_larger(low_part, part));
        assert(no_larger(decimal_difference(high, min), whole));
        assert(whole->0.m() > 0);
        assert(no_larger(low_share, share));
        assert(share->0.m() <= pow10(share->0.s()));
        lemma_of(n, 0);
        assert(no_larger(low_position, position));
        let p = position->0;
        assert(pow10(0) == 1);
        lemma_pow10_positive(p.s());
        assert(p.m() / pow10(p.s()) <= n) by (nonlinear_arith)
            requires
                p.m() <= n * pow10(p.s()),
                pow10(p.s()) >= 1,
        ;
        lemma_whole_units_keep_order(low_position->0, p);
        law_bins_follow_positions(low_position->0, p, states);
    }
}

impl Quantiser {
    /// The number of states this quantiser produces.
    pub fn states(&self) -> (r: u16)
        requires
            self@.states() <= u16::MAX,
        ensures
            r == self@.states(),
    {
        match self {
            Quantiser::Linear { states, .. } => {
                if *states == 0 {
                    1
                } else {
                    *states
                }
            },
            Quantiser::Bands { edges } => edges.len() as u16 + 1,
        }
    }

    /// Quantises `value`; `None` if finding its bin needs a number out of range.
    /// A value that is no larger is put into no higher state.
    pub fn quantise(&self, value: Dec) -> (r: Option<QState>)
        requires
            self@.states() <= u16::MAX,
        ensures
            r == self@.state_of(value),
            r matches Some(s) ==> s.bucket() < self@.states(),
            forall|low: Dec|
                low.wf() && !dec_lt(value, low) ==> no_higher(#[trigger] self@.state_of(low), r),
    {
        proof {
            law_state_in_range(self@, value);
        }
        match self {
            Quantiser::Linear { min, max, states } => {
                let last: u16 = if *states == 0 {
                    0
                } else {
                    *states - 1
                };
                proof {
                    use_type_invariant(&value);
                    use_type_invariant(min);
                    use_type_invariant(max);
                    assert forall|low: Dec|
                        low.wf() && !dec_lt(value, low) && (!dec_lt(*min, *max) || !dec_lt(
                            *min,
                            value,
                        ) || !dec_lt(value, *max)) implies no_higher(
                        #[trigger] self@.state_of(low),
                        self@.state_of(value),
                    ) by {
                        if dec_lt(*min, *max) && dec_lt(*min, low) {
                            crate::decimal::law_order_is_transitive(*min, low, value);
                        }
                        law_linear_is_monotone_at_the_ends(*min, *max, *states, low, value);
                    }
                }
                if !min.less_than(*max) || !min.less_than(value) {
                    return Some(QState::from_index(0));
                }
                if !value.less_than(*max) {
                    return Some(QState::from_index(last));
                }
                let share: Option<Dec> = divide_results(
                    value.checked_sub(*min),
                    max.checked_sub(*min),
                );
                let position: Option<Dec> = multiply_results(
                    share,
                    Some(Dec::from_int(last as i64 + 1)),
                );
                proof {
                    assert forall|low: Dec| low.wf() && !dec_lt(value, low) implies no_higher(
                        #[trigger] self@.state_of(low),
                        self@.state_of(value),
                    ) by {
                        lemma_linear_keeps_order(*min, *max, *states, low, value);
                    }
                }
                match position {
                    Some(p) => {
                        let bucket: u16 = (p.units() % 0x1_0000) as u16;
                        if bucket <= last {
                            Some(QState::from_index(bucket))
                        } else {
                            Some(QState::from_index(last))
                        }
                    },
                    None => None,
                }
            },
            Quantiser::Bands { edges } => {
                let mut below: u16 = 0;
                let mut i: usize = 0;
                while i < edges.len()
                    invariant
                        i <= edges.len() < u16::MAX,
                        forall|j: int| 0 <= j < i ==> (#[trigger] edges[j]).wf(),
                        below <= i,
                        below == edges_below(edges@.take(i as int), value),
                    decreases edges.len() - i,
                {
                    assert(edges@.take(i + 1).drop_last() =~= edges@.take(i as int));
                    let edge: Dec = edges[i];
                    proof {
                        use_type_invariant(&edge);
                    }
                    if edge.less_than(value) {
                        below = below + 1;
                    }
                    i = i + 1;
                }
                assert(edges@.take(i as int) =~= edges@);
                proof {
                    use_type_invariant(&value);
                    assert forall|low: Dec| low.wf() && !dec_lt(value, low) implies no_higher(
                        #[trigger] self@.state_of(low),
                        self@.state_of(value),
                    ) by {
                        law_band_states_are_monotone(edges@, low, value);
                    }
                }
                Some(QState::from_index(below))
            },
        }
    }
}

impl Clone for Quantiser {
    fn clone(&self) -> (r: Quantiser)
        ensures
            r@ == self@,
    {
        match self {
            Quantiser::Linear { min, max, states } => Quantiser::Linear {
                min: *min,
                max: *max,
                states: *states,
            },
            Quantiser::Bands { edges } => {
                let mut copy: Vec<Dec> = Vec::new();
                let mut i: usize = 0;
                while i < edges.len()
                    invariant
                        i <= edges.len(),
                        copy@ =~= edges@.take(i as int),
                    decreases edges.len() - i,
                {
                    copy.push(edges[i]);
                    i = i + 1;
                }
                assert(copy@ =~= edges@);
                Quantiser::Bands { edges: copy }
            },
        }
    }
}

} // verus!
