//! Market regimes: a volatility axis and a trend axis, and a tally of a return series by regime.
//!
//! The rolling statistics behind the axes are floating-point numbers. They enter here as what the
//! labels depend on: a key per bar that orders bars by volatility, the key of the median, and whether
//! a bar's efficiency ratio reaches the threshold.

use vstd::prelude::*;

use crate::count::{lemma_no_position, lemma_one_more_position, positions};
use crate::order::{
    ascending_order, is_key_order, keys_in_order, law_key_order_is_onto, lemma_ordered_keys_ascend,
};

verus! {

/// The default rolling window, in bars.
pub const DEFAULT_REGIME_WINDOW: usize = 20;

/// The volatility axis of a [`Regime`].
#[derive(Debug, Clone, Copy, PartialEq, Eq, PartialOrd, Ord, Hash, Structural)]
pub enum VolState {
    /// At or below the median rolling volatility.
    Calm,
    /// Above the median rolling volatility.
    Volatile,
}

/// The trend axis of a [`Regime`].
#[derive(Debug, Clone, Copy, PartialEq, Eq, PartialOrd, Ord, Hash, Structural)]
pub enum TrendState {
    /// The efficiency ratio reaches the threshold.
    Trending,
    /// The efficiency ratio is below the threshold.
    Choppy,
}

/// A market regime: one of four.
#[derive(Debug, Clone, Copy, PartialEq, Eq, PartialOrd, Ord, Hash, Structural)]
pub struct Regime {
    /// The volatility state.
    pub vol: VolState,
    /// The trend state.
    pub trend: TrendState,
}

impl Regime {
    /// The position among the regimes in ascending order.
    pub open spec fn position(self) -> int {
        (match self.vol {
            VolState::Calm => 0int,
            VolState::Volatile => 2,
        }) + (match self.trend {
            TrendState::Trending => 0int,
            TrendState::Choppy => 1,
        })
    }

    /// The regime with these states.
    pub fn new(vol: VolState, trend: TrendState) -> (r: Regime)
        ensures
            r == (Regime { vol, trend }),
    {
        Regime { vol, trend }
    }
}

/// The regimes in ascending order.
pub open spec fn all_regimes() -> Seq<Regime> {
    seq![
        Regime { vol: VolState::Calm, trend: TrendState::Trending },
        Regime { vol: VolState::Calm, trend: TrendState::Choppy },
        Regime { vol: VolState::Volatile, trend: TrendState::Trending },
        Regime { vol: VolState::Volatile, trend: TrendState::Choppy },
    ]
}

/// The list of regimes holds every regime at its position.
pub proof fn law_regimes_are_listed(regime: Regime)
    ensures
        0 <= regime.position() < 4,
        all_regimes()[regime.position()] == regime,
        all_regimes().len() == 4,
{
}

// ---- the median split ----------------------------------------------------------------------------

/// The middle of a sorted list.
#[derive(Debug, Clone, Copy, PartialEq, Eq, Structural)]
pub enum Middle {
    /// The list is empty.
    Nothing,
    /// The one element in the middle of an odd number of elements.
    One(u64),
    /// The two elements in the middle of an even number of elements.
    Two(u64, u64),
}

/// The middle of a sorted list.
pub open spec fn middle(s: Seq<u64>) -> Middle {
    let mid = s.len() as int / 2;
    if s.len() == 0 {
        Middle::Nothing
    } else if s.len() % 2 == 1 {
        Middle::One(s[mid])
    } else {
        Middle::Two(s[mid - 1], s[mid])
    }
}

/// Whether `m` is the middle of the keys in ascending order.
pub open spec fn is_middle_of(keys: Seq<u64>, m: Middle) -> bool {
    exists|order: Seq<usize>| #[trigger]
        is_key_order(keys, order, 0, keys.len() as int) && m == middle(keys_in_order(keys, order))
}

/// At most half of the keys are below the middle, and at most half of them above: there is one middle of
/// an odd number of keys, two neighbours of an even number, and none without a key.
pub proof fn law_middle_halves_the_keys(keys: Seq<u64>, m: Middle)
    requires
        keys.len() <= usize::MAX,
        is_middle_of(keys, m),
    ensures
        m is Nothing <==> keys.len() == 0,
        m is One <==> keys.len() % 2 == 1,
        m matches Middle::One(x) ==> keys.contains(x) && Set::new(
            |i: int| 0 <= i < keys.len() && keys[i] < x,
        ).len() <= keys.len() / 2 && Set::new(
            |i: int| 0 <= i < keys.len() && keys[i] > x,
        ).len() <= keys.len() / 2,
        m matches Middle::Two(x, y) ==> x <= y && keys.contains(x) && keys.contains(y) && Set::new(
            |i: int| 0 <= i < keys.len() && keys[i] < y,
        ).len() <= keys.len() / 2 && Set::new(
            |i: int| 0 <= i < keys.len() && keys[i] > x,
        ).len() <= keys.len() / 2,
{
    let order = choose|order: Seq<usize>| #[trigger]
        is_key_order(keys, order, 0, keys.len() as int) && m == middle(keys_in_order(keys, order));
    let s = keys_in_order(keys, order);
    let n = keys.len() as int;
    let mid = n / 2;
    lemma_ordered_keys_ascend(keys, order, 0, n);
    if n > 0 {
        assert(0 <= order[mid] < n);
        assert(keys[order[mid] as int] == s[mid]);
        let below = Set::new(|i: int| 0 <= i < keys.len() && keys[i] < s[mid]);
        assert forall|a: int| mid <= a < n implies !below.contains(#[trigger] order[a] as int) by {
            assert(s[mid] <= s[a]);
        }
        lemma_some_of_the_order(keys, order, 0, mid, below);
        let from = if n % 2 == 1 {
            mid
        } else {
            mid - 1
        };
        assert(0 <= order[from] < n);
        assert(keys[order[from] as int] == s[from]);
        let above = Set::new(|i: int| 0 <= i < keys.len() && keys[i] > s[from]);
        assert forall|a: int| 0 <= a <= from implies !above.contains(#[trigger] order[a] as int) by {
            assert(s[a] <= s[from]);
        }
        lemma_some_of_the_order(keys, order, from + 1, n, above);
        assert(s[from] <= s[mid]);
    }
}

/// Positions that only some ranks of an order name are no more than those ranks.
proof fn lemma_some_of_the_order(
    keys: Seq<u64>,
    order: Seq<usize>,
    lo: int,
    hi: int,
    chosen: Set<int>,
)
    requires
        keys.len() <= usize::MAX,
        is_key_order(keys, order, 0, keys.len() as int),
        0 <= lo <= hi <= order.len(),
        forall|i: int| #[trigger] chosen.contains(i) ==> 0 <= i < keys.len(),
        forall|a: int|
            0 <= a < order.len() && !(lo <= a < hi) ==> !chosen.contains(#[trigger] order[a] as int),
    ensures
        chosen.len() <= hi - lo,
{
    let part = order.subrange(lo, hi).map_values(|p: usize| p as int);
    part.lemma_cardinality_of_set();
    vstd::seq_lib::seq_to_set_is_finite(part);
    assert forall|i: int| chosen.contains(i) implies part.to_set().contains(i) by {
        law_key_order_is_onto(keys, order, 0, keys.len() as int, i);
        let a = choose|a: int| 0 <= a < order.len() && order[a] == i as usize;
        assert(chosen.contains(order[a] as int));
        assert(part[a - lo] == i);
    }
    vstd::set_lib::lemma_len_subset(chosen, part.to_set());
}

/// The middle of the keys: the element or the two elements that a median is taken of.
pub fn middle_of(keys: &[u64]) -> (r: Middle)
    ensures
        is_middle_of(keys@, r),
{
    let order: Vec<usize> = ascending_order(keys);
    assert(is_key_order(keys@, order@, 0, keys@.len() as int));
    if order.len() == 0 {
        return Middle::Nothing;
    }
    let mid: usize = order.len() / 2;
    assert(0 <= order@[mid as int] < keys@.len());
    if order.len() % 2 == 1 {
        Middle::One(keys[order[mid]])
    } else {
        assert(0 <= order@[mid - 1] < keys@.len());
        Middle::Two(keys[order[mid - 1]], keys[order[mid]])
    }
}

// ---- labels --------------------------------------------------------------------------------------

/// The number of bars without a label: the window, at least one.
pub open spec fn warm_up(window: int) -> int {
    if window < 1 {
        1
    } else {
        window
    }
}

/// The label of a bar whose volatility and efficiency are known.
pub open spec fn label(volatility: u64, median: u64, trending: bool) -> Regime {
    Regime {
        vol: if volatility > median {
            VolState::Volatile
        } else {
            VolState::Calm
        },
        trend: if trending {
            TrendState::Trending
        } else {
            TrendState::Choppy
        },
    }
}

/// A bar is volatile exactly if its volatility is above the median, and trending exactly if its efficiency
/// reaches the threshold; the two axes do not mix. The warm-up is the window, and at least one bar.
pub proof fn law_label_reads_its_axes(volatility: u64, median: u64, trending: bool, window: int)
    ensures
        label(volatility, median, trending).vol == VolState::Volatile <==> volatility > median,
        label(volatility, median, trending).vol == VolState::Calm <==> volatility <= median,
        label(volatility, median, trending).trend == TrendState::Trending <==> trending,
        warm_up(window) >= 1,
        window >= 1 ==> warm_up(window) == window,
        window < 1 ==> warm_up(window) == 1,
{
}

/// Labels `bars` bars. The first `window` of them (at least one) have no label; bar `i` after them is
/// volatile if its key `volatility[i - window]` is above the median's, and trending if
/// `trending[i - window]` says so.
pub fn label_bars(
    bars: usize,
    window: usize,
    volatility: &[u64],
    median: u64,
    trending: &[bool],
) -> (r: Vec<Option<Regime>>)
    requires
        bars > warm_up(window as int) ==> volatility.len() == bars - warm_up(window as int)
            && trending.len() == volatility.len(),
    ensures
        r.len() == bars,
        forall|i: int|
            0 <= i < bars && i < warm_up(window as int) ==> #[trigger] r[i] is None,
        forall|i: int|
            warm_up(window as int) <= i < bars ==> #[trigger] r[i] == Some(
                label(
                    volatility[i - warm_up(window as int)],
                    median,
                    trending[i - warm_up(window as int)],
                ),
            ),
{
    let w: usize = if window < 1 {
        1
    } else {
        window
    };
    let mut out: Vec<Option<Regime>> = Vec::new();
    let mut i: usize = 0;
    while i < bars
        invariant
            i <= bars,
            w == warm_up(window as int),
            bars > w ==> volatility.len() == bars - w && trending.len() == volatility.len(),
            out.len() == i,
            forall|j: int| 0 <= j < i && j < w ==> #[trigger] out[j] is None,
            forall|j: int|
                w <= j < i ==> #[trigger] out[j] == Some(
                    label(volatility[j - w], median, trending[j - w]),
                ),
        decreases bars - i,
    {
        if i < w {
            out.push(None);
        } else {
            let vol: VolState = if volatility[i - w] > median {
                VolState::Volatile
            } else {
                VolState::Calm
            };
            let trend: TrendState = if trending[i - w] {
                TrendState::Trending
            } else {
                TrendState::Choppy
            };
            out.push(Some(Regime { vol, trend }));
        }
        i = i + 1;
    }
    out
}

// ---- the tally -----------------------------------------------------------------------------------

/// The bars of one regime.
#[derive(Debug, PartialEq, Eq)]
pub struct RegimeRow {
    /// The regime.
    pub regime: Regime,
    /// The positions of its bars, ascending.
    pub bars: Vec<usize>,
    /// How many of them have a positive return.
    pub wins: usize,
}

/// The bars of a series by regime.
#[derive(Debug, PartialEq, Eq)]
pub struct RegimeTally {
    /// One row per regime that occurs, in ascending order of the regimes.
    pub rows: Vec<RegimeRow>,
    /// How many bars have no label.
    pub unlabelled: usize,
}

/// What a [`RegimeRow`] holds.
#[verifier::ext_equal]
pub struct RowModel {
    /// The regime.
    pub regime: Regime,
    /// The positions of its bars, ascending.
    pub bars: Seq<usize>,
    /// How many of them have a positive return.
    pub wins: int,
}

impl View for RegimeRow {
    type V = RowModel;

    open spec fn view(&self) -> RowModel {
        RowModel { regime: self.regime, bars: self.bars@, wins: self.wins as int }
    }
}

/// The positions of the first `n` labels that carry a regime, ascending.
pub open spec fn bars_of(labels: Seq<Option<Regime>>, n: nat, regime: Regime) -> Seq<usize>
    decreases n,
{
    if n == 0 {
        Seq::empty()
    } else {
        let before = bars_of(labels, (n - 1) as nat, regime);
        if labels[n - 1] == Some(regime) {
            before.push((n - 1) as usize)
        } else {
            before
        }
    }
}

/// How many of the first `n` labels carry a regime and a positive return.
pub open spec fn wins_of(
    labels: Seq<Option<Regime>>,
    positive: Seq<bool>,
    n: nat,
    regime: Regime,
) -> int
    decreases n,
{
    if n == 0 {
        0
    } else {
        wins_of(labels, positive, (n - 1) as nat, regime) + (if labels[n - 1] == Some(regime)
            && positive[n - 1] {
            1int
        } else {
            0
        })
    }
}

/// How many of the first `n` labels are missing.
pub open spec fn missing(labels: Seq<Option<Regime>>, n: nat) -> int
    decreases n,
{
    if n == 0 {
        0
    } else {
        missing(labels, (n - 1) as nat) + (if labels[n - 1] is None {
            1int
        } else {
            0
        })
    }
}

/// The rows of the first `k` regimes, those without a bar left out.
pub open spec fn rows_of(
    labels: Seq<Option<Regime>>,
    positive: Seq<bool>,
    n: nat,
    k: nat,
) -> Seq<RowModel>
    decreases k,
{
    if k == 0 {
        Seq::empty()
    } else {
        let before = rows_of(labels, positive, n, (k - 1) as nat);
        let regime = all_regimes()[k - 1];
        let bars = bars_of(labels, n, regime);
        if bars.len() == 0 {
            before
        } else {
            before.push(RowModel { regime, bars, wins: wins_of(labels, positive, n, regime) })
        }
    }
}

/// What some rows hold.
pub open spec fn row_models(rows: Seq<RegimeRow>) -> Seq<RowModel> {
    Seq::new(rows.len(), |i: int| rows[i]@)
}

/// The number of bars in some rows.
pub open spec fn bars_in(rows: Seq<RowModel>) -> int
    decreases rows.len(),
{
    if rows.len() == 0 {
        0
    } else {
        bars_in(rows.drop_last()) + rows.last().bars.len()
    }
}

/// The shorter of two lengths.
pub open spec fn aligned(returns: nat, labels: nat) -> nat {
    if returns <= labels {
        returns
    } else {
        labels
    }
}

/// Every bar is in one row or unlabelled: the rows and the unlabelled bars add up to the series.
pub proof fn law_tally_reconciles(labels: Seq<Option<Regime>>, positive: Seq<bool>, n: nat)
    ensures
        bars_in(rows_of(labels, positive, n, 4)) + missing(labels, n) == n,
{
    lemma_counts_add_up(labels, n);
    lemma_rows_add_up(labels, positive, n, 4);
    reveal_with_fuel(count_of_first, 5);
}

/// The number of bars in the first `k` regimes.
spec fn count_of_first(labels: Seq<Option<Regime>>, n: nat, k: nat) -> int
    decreases k,
{
    if k == 0 {
        0
    } else {
        count_of_first(labels, n, (k - 1) as nat) + bars_of(labels, n, all_regimes()[k - 1]).len()
    }
}

proof fn lemma_rows_add_up(labels: Seq<Option<Regime>>, positive: Seq<bool>, n: nat, k: nat)
    ensures
        bars_in(rows_of(labels, positive, n, k)) == count_of_first(labels, n, k),
    decreases k,
{
    if k > 0 {
        lemma_rows_add_up(labels, positive, n, (k - 1) as nat);
        let before = rows_of(labels, positive, n, (k - 1) as nat);
        let all = rows_of(labels, positive, n, k);
        if bars_of(labels, n, all_regimes()[k - 1]).len() > 0 {
            assert(all.drop_last() =~= before);
        }
    }
}

proof fn lemma_counts_add_up(labels: Seq<Option<Regime>>, n: nat)
    ensures
        bars_of(labels, n, all_regimes()[0]).len() + bars_of(labels, n, all_regimes()[1]).len()
            + bars_of(labels, n, all_regimes()[2]).len() + bars_of(
            labels,
            n,
            all_regimes()[3],
        ).len() + missing(labels, n) == n,
    decreases n,
{
    if n > 0 {
        lemma_counts_add_up(labels, (n - 1) as nat);
        if let Some(regime) = labels[n - 1] {
            law_regimes_are_listed(regime);
        }
    }
}

/// The bars of a regime are exactly those whose label carries it, in ascending order.
pub proof fn law_bars_carry_their_regime(labels: Seq<Option<Regime>>, n: nat, regime: Regime)
    requires
        n <= labels.len(),
        n <= usize::MAX,
    ensures
        forall|k: int|
            0 <= k < bars_of(labels, n, regime).len() ==> (#[trigger] bars_of(
                labels,
                n,
                regime,
            )[k]) < n && labels[bars_of(labels, n, regime)[k] as int] == Some(regime),
        forall|j: int, k: int|
            0 <= j < k < bars_of(labels, n, regime).len() ==> #[trigger] bars_of(
                labels,
                n,
                regime,
            )[j] < #[trigger] bars_of(labels, n, regime)[k],
        forall|i: int|
            0 <= i < n && #[trigger] labels[i] == Some(regime) ==> bars_of(
                labels,
                n,
                regime,
            ).contains(i as usize),
    decreases n,
{
    if n > 0 {
        let m = (n - 1) as nat;
        law_bars_carry_their_regime(labels, m, regime);
        let before = bars_of(labels, m, regime);
        let all = bars_of(labels, n, regime);
        assert forall|i: int|
            0 <= i < n && #[trigger] labels[i] == Some(regime) implies all.contains(
            i as usize,
        ) by {
            if i < m {
                let k = choose|k: int| 0 <= k < before.len() && before[k] == i as usize;
                assert(all[k] == i as usize);
            } else {
                assert(all[before.len() as int] == i as usize);
            }
        }
        assert forall|k: int| 0 <= k < all.len() implies (#[trigger] all[k]) < n
            && labels[all[k] as int] == Some(regime) by {
            if k < before.len() {
                assert(all[k] == before[k]);
            }
        }
        assert forall|j: int, k: int| 0 <= j < k < all.len() implies #[trigger] all[j]
            < #[trigger] all[k] by {
            assert(all[j] == before[j]);
            if k < before.len() {
                assert(all[k] == before[k]);
            }
        }
    }
}

/// The wins of a regime are the bars of that regime, and no other, with a positive return.
pub proof fn law_wins_are_own_bars(
    labels: Seq<Option<Regime>>,
    positive: Seq<bool>,
    n: nat,
    regime: Regime,
)
    requires
        n <= labels.len(),
        n <= positive.len(),
        n <= usize::MAX,
    ensures
        wins_of(labels, positive, n, regime) == Set::new(
            |k: int|
                0 <= k < bars_of(labels, n, regime).len() && positive[bars_of(
                    labels,
                    n,
                    regime,
                )[k] as int],
        ).len(),
        0 <= wins_of(labels, positive, n, regime) <= bars_of(labels, n, regime).len(),
    decreases n,
{
    let bars = bars_of(labels, n, regime);
    let p = |k: int| positive[bars[k] as int];
    assert(Set::new(
        |k: int|
            0 <= k < bars_of(labels, n, regime).len() && positive[bars_of(
                labels,
                n,
                regime,
            )[k] as int],
    ) =~= positions(bars.len() as int, p));
    if n == 0 {
        lemma_no_position(p);
    } else {
        let m = (n - 1) as nat;
        let before = bars_of(labels, m, regime);
        law_wins_are_own_bars(labels, positive, m, regime);
        let own = Set::new(
            |k: int|
                0 <= k < bars_of(labels, m, regime).len() && positive[bars_of(
                    labels,
                    m,
                    regime,
                )[k] as int],
        );
        assert(own =~= positions(before.len() as int, p)) by {
            assert forall|k: int| 0 <= k < before.len() implies before[k] == #[trigger] bars[k] by {}
        }
        if labels[n - 1] == Some(regime) {
            lemma_one_more_position(bars.len() as int, p);
        }
    }
}

/// Every regime that occurs has one row, in ascending order of the regimes: calm before volatile, and
/// trending before choppy. A row holds the bars of its own regime and counts the wins among them.
pub proof fn law_rows_tell_their_regimes(
    labels: Seq<Option<Regime>>,
    positive: Seq<bool>,
    n: nat,
)
    requires
        n <= labels.len(),
        n <= positive.len(),
        n <= usize::MAX,
    ensures
        forall|k: int|
            0 <= k < rows_of(labels, positive, n, 4).len() ==> {
                let row = #[trigger] rows_of(labels, positive, n, 4)[k];
                &&& row.bars.len() > 0
                &&& forall|x: int|
                    0 <= x < row.bars.len() ==> (#[trigger] row.bars[x]) < n
                        && labels[row.bars[x] as int] == Some(row.regime)
                &&& forall|i: int|
                    0 <= i < n && #[trigger] labels[i] == Some(row.regime) ==> row.bars.contains(
                        i as usize,
                    )
                &&& forall|x: int, y: int|
                    0 <= x < y < row.bars.len() ==> #[trigger] row.bars[x] < #[trigger] row.bars[y]
                &&& row.wins == Set::new(
                    |x: int| 0 <= x < row.bars.len() && positive[row.bars[x] as int],
                ).len()
                &&& row.wins <= row.bars.len()
            },
        forall|i: int|
            0 <= i < n && #[trigger] labels[i] is Some ==> exists|k: int|
                0 <= k < rows_of(labels, positive, n, 4).len() && (#[trigger] rows_of(
                    labels,
                    positive,
                    n,
                    4,
                )[k]).regime == labels[i]->0,
        forall|j: int, k: int|
            0 <= j < k < rows_of(labels, positive, n, 4).len() ==> {
                let a = (#[trigger] rows_of(labels, positive, n, 4)[j]).regime;
                let b = (#[trigger] rows_of(labels, positive, n, 4)[k]).regime;
                ||| a.vol == VolState::Calm && b.vol == VolState::Volatile
                ||| a.vol == b.vol && a.trend == TrendState::Trending && b.trend
                    == TrendState::Choppy
            },
{
    lemma_rows_are_listed(labels, positive, n, 4);
    let rows = rows_of(labels, positive, n, 4);
    assert forall|k: int| 0 <= k < rows.len() implies {
        let row = #[trigger] rows[k];
        &&& row.bars.len() > 0
        &&& forall|x: int|
            0 <= x < row.bars.len() ==> (#[trigger] row.bars[x]) < n && labels[row.bars[x] as int]
                == Some(row.regime)
        &&& forall|i: int|
            0 <= i < n && #[trigger] labels[i] == Some(row.regime) ==> row.bars.contains(i as usize)
        &&& forall|x: int, y: int|
            0 <= x < y < row.bars.len() ==> #[trigger] row.bars[x] < #[trigger] row.bars[y]
        &&& row.wins == Set::new(
            |x: int| 0 <= x < row.bars.len() && positive[row.bars[x] as int],
        ).len()
        &&& row.wins <= row.bars.len()
    } by {
        let row = rows[k];
        law_bars_carry_their_regime(labels, n, row.regime);
        law_wins_are_own_bars(labels, positive, n, row.regime);
        assert(Set::new(|x: int| 0 <= x < row.bars.len() && positive[row.bars[x] as int])
            =~= Set::new(
            |x: int|
                0 <= x < bars_of(labels, n, row.regime).len() && positive[bars_of(
                    labels,
                    n,
                    row.regime,
                )[x] as int],
        ));
    }
    assert forall|i: int| 0 <= i < n && #[trigger] labels[i] is Some implies exists|k: int|
        0 <= k < rows.len() && (#[trigger] rows[k]).regime == labels[i]->0 by {
        let regime = labels[i]->0;
        law_regimes_are_listed(regime);
        law_bars_carry_their_regime(labels, n, regime);
        assert(bars_of(labels, n, regime).contains(i as usize));
        lemma_regime_has_row(labels, positive, n, 4, regime);
    }
}

proof fn lemma_regime_has_row(
    labels: Seq<Option<Regime>>,
    positive: Seq<bool>,
    n: nat,
    k: nat,
    regime: Regime,
)
    requires
        regime.position() < k <= 4,
        bars_of(labels, n, regime).len() > 0,
    ensures
        exists|j: int|
            0 <= j < rows_of(labels, positive, n, k).len() && (#[trigger] rows_of(
                labels,
                positive,
                n,
                k,
            )[j]).regime == regime,
    decreases k,
{
    let before = rows_of(labels, positive, n, (k - 1) as nat);
    let all = rows_of(labels, positive, n, k);
    law_regimes_are_listed(regime);
    if regime.position() == k - 1 {
        assert(all[before.len() as int].regime == regime);
    } else {
        lemma_regime_has_row(labels, positive, n, (k - 1) as nat, regime);
        let j = choose|j: int| 0 <= j < before.len() && (#[trigger] before[j]).regime == regime;
        assert(all[j].regime == regime);
    }
}

proof fn lemma_rows_are_listed(
    labels: Seq<Option<Regime>>,
    positive: Seq<bool>,
    n: nat,
    k: nat,
)
    requires
        k <= 4,
    ensures
        forall|j: int|
            0 <= j < rows_of(labels, positive, n, k).len() ==> {
                let row = #[trigger] rows_of(labels, positive, n, k)[j];
                &&& row.regime.position() < k
                &&& row.bars == bars_of(labels, n, row.regime)
                &&& row.wins == wins_of(labels, positive, n, row.regime)
                &&& row.bars.len() > 0
            },
        forall|i: int, j: int|
            0 <= i < j < rows_of(labels, positive, n, k).len() ==> (#[trigger] rows_of(
                labels,
                positive,
                n,
                k,
            )[i]).regime.position() < (#[trigger] rows_of(
                labels,
                positive,
                n,
                k,
            )[j]).regime.position(),
    decreases k,
{
    if k > 0 {
        let m = (k - 1) as nat;
        lemma_rows_are_listed(labels, positive, n, m);
        let before = rows_of(labels, positive, n, m);
        let all = rows_of(labels, positive, n, k);
        let regime = all_regimes()[m as int];
        assert(regime.position() == m);
        assert forall|j: int| 0 <= j < all.len() implies {
            let row = #[trigger] all[j];
            &&& row.regime.position() < k
            &&& row.bars == bars_of(labels, n, row.regime)
            &&& row.wins == wins_of(labels, positive, n, row.regime)
            &&& row.bars.len() > 0
        } by {
            if j < before.len() {
                assert(all[j] == before[j]);
            }
        }
        assert forall|i: int, j: int| 0 <= i < j < all.len() implies (
        #[trigger] all[i]).regime.position() < (#[trigger] all[j]).regime.position() by {
            assert(all[i] == before[i]);
            if j < before.len() {
                assert(all[j] == before[j]);
            }
        }
    }
}

/// The unlabelled bars are those without a label.
pub proof fn law_missing_counts_bars(labels: Seq<Option<Regime>>, n: nat)
    requires
        n <= labels.len(),
    ensures
        missing(labels, n) == Set::new(|i: int| 0 <= i < n && labels[i] is None).len(),
    decreases n,
{
    let p = |i: int| labels[i] is None;
    assert(Set::new(|i: int| 0 <= i < n && labels[i] is None) =~= positions(n as int, p));
    if n == 0 {
        lemma_no_position(p);
    } else {
        law_missing_counts_bars(labels, (n - 1) as nat);
        assert(Set::new(|i: int| 0 <= i < n - 1 && labels[i] is None) =~= positions(n - 1, p));
        lemma_one_more_position(n as int, p);
    }
}

/// The wins in some rows.
pub open spec fn wins_in(rows: Seq<RowModel>) -> int
    decreases rows.len(),
{
    if rows.len() == 0 {
        0
    } else {
        wins_in(rows.drop_last()) + rows.last().wins
    }
}

/// No win is lost or counted twice: the wins over all rows are the labelled bars with a positive return.
pub proof fn law_wins_reconcile(labels: Seq<Option<Regime>>, positive: Seq<bool>, n: nat)
    requires
        n <= labels.len(),
        n <= positive.len(),
        n <= usize::MAX,
    ensures
        wins_in(rows_of(labels, positive, n, 4)) == Set::new(
            |i: int| 0 <= i < n && labels[i] is Some && positive[i],
        ).len(),
{
    reveal_with_fuel(wins_in, 5);
    lemma_row_wins_add_up(labels, positive, n, 1);
    lemma_row_wins_add_up(labels, positive, n, 2);
    lemma_row_wins_add_up(labels, positive, n, 3);
    lemma_row_wins_add_up(labels, positive, n, 4);
    lemma_wins_split(labels, positive, n);
}

proof fn lemma_row_wins_add_up(labels: Seq<Option<Regime>>, positive: Seq<bool>, n: nat, k: nat)
    requires
        0 < k <= 4,
        n <= labels.len(),
        n <= positive.len(),
        n <= usize::MAX,
    ensures
        wins_in(rows_of(labels, positive, n, k)) == wins_in(
            rows_of(labels, positive, n, (k - 1) as nat),
        ) + wins_of(labels, positive, n, all_regimes()[k - 1]),
        wins_in(rows_of(labels, positive, n, 0)) == 0,
{
    let before = rows_of(labels, positive, n, (k - 1) as nat);
    let all = rows_of(labels, positive, n, k);
    law_wins_are_own_bars(labels, positive, n, all_regimes()[k - 1]);
    if bars_of(labels, n, all_regimes()[k - 1]).len() > 0 {
        assert(all.drop_last() =~= before);
    }
}

proof fn lemma_wins_split(labels: Seq<Option<Regime>>, positive: Seq<bool>, n: nat)
    requires
        n <= labels.len(),
        n <= positive.len(),
    ensures
        wins_of(labels, positive, n, all_regimes()[0]) + wins_of(
            labels,
            positive,
            n,
            all_regimes()[1],
        ) + wins_of(labels, positive, n, all_regimes()[2]) + wins_of(
            labels,
            positive,
            n,
            all_regimes()[3],
        ) == Set::new(|i: int| 0 <= i < n && labels[i] is Some && positive[i]).len(),
    decreases n,
{
    let p = |i: int| labels[i] is Some && positive[i];
    assert(Set::new(|i: int| 0 <= i < n && labels[i] is Some && positive[i]) =~= positions(
        n as int,
        p,
    ));
    if n == 0 {
        lemma_no_position(p);
    } else {
        lemma_wins_split(labels, positive, (n - 1) as nat);
        assert(Set::new(|i: int| 0 <= i < n - 1 && labels[i] is Some && positive[i])
            =~= positions(n - 1, p));
        lemma_one_more_position(n as int, p);
        if let Some(regime) = labels[n - 1] {
            law_regimes_are_listed(regime);
        }
    }
}

/// The bars of one regime among the first `n`.
fn row_for(labels: &[Option<Regime>], positive: &[bool], n: usize, regime: Regime) -> (r: RegimeRow)
    requires
        n <= labels.len(),
        n <= positive.len(),
    ensures
        r@ == (RowModel {
            regime,
            bars: bars_of(labels@, n as nat, regime),
            wins: wins_of(labels@, positive@, n as nat, regime),
        }),
{
    let mut bars: Vec<usize> = Vec::new();
    let mut wins: usize = 0;
    let mut i: usize = 0;
    while i < n
        invariant
            i <= n <= labels.len(),
            n <= positive.len(),
            bars@ == bars_of(labels@, i as nat, regime),
            wins <= i,
            wins == wins_of(labels@, positive@, i as nat, regime),
        decreases n - i,
    {
        if let Some(found) = labels[i] {
            if found == regime {
                bars.push(i);
                if positive[i] {
                    wins = wins + 1;
                }
            }
        }
        i = i + 1;
    }
    RegimeRow { regime, bars, wins }
}

/// Adds the row of a regime, unless it has no bar.
fn add_row(rows: &mut Vec<RegimeRow>, row: RegimeRow)
    ensures
        row_models(final(rows)@) == (if row@.bars.len() == 0 {
            row_models(old(rows)@)
        } else {
            row_models(old(rows)@).push(row@)
        }),
{
    let ghost before = row_models(rows@);
    if row.bars.len() > 0 {
        rows.push(row);
        assert(row_models(rows@) =~= before.push(row@));
    }
}

/// Sorts a series of bars by regime. Labels and returns are paired up to the shorter of the two; of a
/// return only its being positive matters here.
pub fn tally_regimes(positive: &[bool], labels: &[Option<Regime>]) -> (r: RegimeTally)
    ensures
        ({
            let n = aligned(positive@.len(), labels@.len());
            &&& row_models(r.rows@) == rows_of(labels@, positive@, n, 4)
            &&& r.unlabelled == missing(labels@, n)
        }),
{
    let n: usize = if positive.len() <= labels.len() {
        positive.len()
    } else {
        labels.len()
    };
    let mut rows: Vec<RegimeRow> = Vec::new();
    proof {
        assert(row_models(rows@) =~= Seq::empty());
        reveal_with_fuel(rows_of, 5);
    }
    let calm_trend: Regime = Regime::new(VolState::Calm, TrendState::Trending);
    add_row(&mut rows, row_for(labels, positive, n, calm_trend));
    let calm_chop: Regime = Regime::new(VolState::Calm, TrendState::Choppy);
    add_row(&mut rows, row_for(labels, positive, n, calm_chop));
    let volatile_trend: Regime = Regime::new(VolState::Volatile, TrendState::Trending);
    add_row(&mut rows, row_for(labels, positive, n, volatile_trend));
    let volatile_chop: Regime = Regime::new(VolState::Volatile, TrendState::Choppy);
    add_row(&mut rows, row_for(labels, positive, n, volatile_chop));
    let mut unlabelled: usize = 0;
    let mut i: usize = 0;
    while i < n
        invariant
            i <= n <= labels.len(),
            unlabelled <= i,
            unlabelled == missing(labels@, i as nat),
        decreases n - i,
    {
        if labels[i].is_none() {
            unlabelled = unlabelled + 1;
        }
        i = i + 1;
    }
    RegimeTally { rows, unlabelled }
}

impl RegimeTally {
    /// The position of the row of a regime, if there is one.
    pub fn row(&self, regime: Regime) -> (r: Option<usize>)
        ensures
            match r {
                Some(i) => i < self.rows.len() && self.rows[i as int].regime == regime && forall|j: int|
                    0 <= j < i ==> (#[trigger] self.rows[j]).regime != regime,
                None => forall|j: int|
                    0 <= j < self.rows.len() ==> (#[trigger] self.rows[j]).regime != regime,
            },
    {
        let mut i: usize = 0;
        while i < self.rows.len()
            invariant
                i <= self.rows.len(),
                forall|j: int| 0 <= j < i ==> (#[trigger] self.rows[j]).regime != regime,
            decreases self.rows.len() - i,
        {
            if self.rows[i].regime == regime {
                return Some(i);
            }
            i = i + 1;
        }
        None
    }

    /// The number of labelled bars.
    pub fn labelled(&self) -> (r: usize)
        requires
            bars_in(row_models(self.rows@)) <= usize::MAX,
        ensures
            r == bars_in(row_models(self.rows@)),
    {
        let ghost all = row_models(self.rows@);
        let mut total: usize = 0;
        let mut i: usize = 0;
        assert(all.take(0) =~= Seq::empty());
        while i < self.rows.len()
            invariant
                i <= self.rows.len(),
                all == row_models(self.rows@),
                bars_in(all) <= usize::MAX,
                total == bars_in(all.take(i as int)),
            decreases self.rows.len() - i,
        {
            proof {
                assert(all.take(i + 1).drop_last() =~= all.take(i as int));
                assert(all.take(i + 1).last() == self.rows@[i as int]@);
                lemma_bars_in_monotone(all, i + 1);
            }
            total = total + self.rows[i].bars.len();
            i = i + 1;
        }
        assert(all.take(i as int) =~= all);
        total
    }
}

proof fn lemma_bars_in_monotone(rows: Seq<RowModel>, k: int)
    requires
        0 <= k <= rows.len(),
    ensures
        bars_in(rows.take(k)) <= bars_in(rows),
    decreases rows.len(),
{
    if k == rows.len() {
        assert(rows.take(k) =~= rows);
    } else {
        assert(rows.drop_last().take(k) =~= rows.take(k));
        lemma_bars_in_monotone(rows.drop_last(), k);
    }
}

} // verus!
