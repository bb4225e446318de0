//! Screening indicators by their information coefficient: ranks, false-discovery control and verdicts.

use vstd::prelude::*;

use crate::text::views;
use crate::order::{
    ascending_order, is_key_order, key_before, keys_in_order, law_key_order_is_onto,
    lemma_ordered_keys_ascend,
};

verus! {

// ---- ranks ---------------------------------------------------------------------------------------

/// Whether `[p, q]` is where a sorted list holds `x`.
pub open spec fn is_tie_group(s: Seq<u64>, p: int, q: int, x: u64) -> bool {
    &&& 0 <= p <= q < s.len()
    &&& forall|i: int| 0 <= i < s.len() ==> (#[trigger] s[i] == x <==> p <= i <= q)
}

/// Whether `r` is the sum of the first and the last position that a sorted list holds `x` at.
pub open spec fn is_doubled_rank(s: Seq<u64>, x: u64, r: int) -> bool {
    exists|p: int, q: int| #[trigger] is_tie_group(s, p, q, x) && r == p + q
}

/// Twice the average rank of every key: the sum of the first and the last position that the key holds
/// in ascending order, counted from zero.
pub fn doubled_ranks(keys: &[u64]) -> (r: Vec<usize>)
    requires
        2 * keys.len() <= usize::MAX,
    ensures
        r.len() == keys.len(),
        exists|order: Seq<usize>| #[trigger]
            is_key_order(keys@, order, 0, keys@.len() as int) && (forall|k: int|
                0 <= k < keys.len() ==> is_doubled_rank(
                    keys_in_order(keys@, order),
                    keys[k],
                    #[trigger] r[k] as int,
                )),
        forall|k: int|
            0 <= k < keys.len() ==> #[trigger] r[k] == Set::new(
                |i: int| 0 <= i < keys@.len() && keys@[i] < keys@[k],
            ).len() + Set::new(|i: int| 0 <= i < keys@.len() && keys@[i] <= keys@[k]).len() - 1,
{
    let n: usize = keys.len();
    let order: Vec<usize> = ascending_order(keys);
    let ghost s = keys_in_order(keys@, order@);
    proof {
        lemma_ordered_keys_ascend(keys@, order@, 0, keys@.len() as int);
    }
    let mut ranks: Vec<usize> = Vec::new();
    let mut z: usize = 0;
    while z < n
        invariant
            z <= n,
            ranks.len() == z,
        decreases n - z,
    {
        ranks.push(0);
        z = z + 1;
    }
    let mut i: usize = 0;
    while i < n
        invariant
            i <= n == keys.len() == order.len() == ranks.len(),
            2 * n <= usize::MAX,
            is_key_order(keys@, order@, 0, keys@.len() as int),
            s == keys_in_order(keys@, order@),
            forall|a: int, b: int| 0 <= a <= b < s.len() ==> #[trigger] s[a] <= #[trigger] s[b],
            // A tie group is never cut in two.
            0 < i < n ==> s[i - 1] < s[i as int],
            forall|a: int|
                0 <= a < i ==> is_doubled_rank(
                    s,
                    s[a],
                    #[trigger] ranks@[order@[a] as int] as int,
                ),
        decreases n - i,
    {
        assert(0 <= order@[i as int] < n);
        let x: u64 = keys[order[i]];
        assert(x == s[i as int]);
        let mut j: usize = i + 1;
        let mut same: bool = true;
        while same && j < n
            invariant
                i < j <= n == keys.len() == order.len(),
                is_key_order(keys@, order@, 0, keys@.len() as int),
                s == keys_in_order(keys@, order@),
                forall|a: int| i <= a < j ==> #[trigger] s[a] == x,
                !same ==> j < n && s[j as int] != x,
            decreases n - j + (if same {
                1int
            } else {
                0int
            }),
        {
            assert(0 <= order@[j as int] < n);
            assert(s[j as int] == keys@[order@[j as int] as int]);
            if keys[order[j]] == x {
                j = j + 1;
            } else {
                same = false;
            }
        }
        let ghost p = i as int;
        let ghost q = j - 1;
        assert(is_tie_group(s, p, q, x)) by {
            assert forall|a: int| 0 <= a < s.len() implies (#[trigger] s[a] == x <==> p <= a
                <= q) by {
                if a < i {
                    assert(s[a] <= s[i - 1]);
                }
                if a >= j {
                    assert(s[j as int] <= s[a]);
                    assert(s[i as int] <= s[j as int]);
                }
            }
        }
        let ghost before = ranks@;
        let mut k: usize = i;
        while k < j
            invariant
                i <= k <= j <= n == keys.len() == order.len() == ranks.len(),
                i < j,
                2 * n <= usize::MAX,
                p == i,
                q == j - 1,
                before.len() == n,
                is_key_order(keys@, order@, 0, keys@.len() as int),
                forall|a: int| i <= a < k ==> #[trigger] ranks@[order@[a] as int] == p + q,
                forall|a: int|
                    0 <= a < i ==> #[trigger] ranks@[order@[a] as int] == before[order@[a] as int],
            decreases j - k,
        {
            let at: usize = order[k];
            let ghost here = ranks@;
            assert(0 <= at < n);
            ranks.set(at, i + j - 1);
            assert forall|a: int| 0 <= a < k implies #[trigger] order@[a] != at by {
                assert(key_before(keys@, order@[a] as int, order@[k as int] as int));
            }
            assert forall|a: int| i <= a < k + 1 implies #[trigger] ranks@[order@[a] as int]
                == p + q by {
                assert(0 <= order@[a] < n);
                if a < k {
                    assert(ranks@[order@[a] as int] == here[order@[a] as int]);
                }
            }
            assert forall|a: int| 0 <= a < i implies #[trigger] ranks@[order@[a] as int]
                == before[order@[a] as int] by {
                assert(0 <= order@[a] < n);
                assert(ranks@[order@[a] as int] == here[order@[a] as int]);
            }
            k = k + 1;
        }
        assert forall|a: int| 0 <= a < j implies is_doubled_rank(
            s,
            s[a],
            #[trigger] ranks@[order@[a] as int] as int,
        ) by {
            if a < i {
                assert(ranks@[order@[a] as int] == before[order@[a] as int]);
            } else {
                assert(s[a] == x);
                assert(ranks@[order@[a] as int] == p + q);
            }
        }
        i = j;
    }
    proof {
        assert forall|k: int| 0 <= k < keys.len() implies is_doubled_rank(
            s,
            keys[k],
            #[trigger] ranks[k] as int,
        ) by {
            law_key_order_is_onto(keys@, order@, 0, keys@.len() as int, k);
            let a = choose|a: int| 0 <= a < order@.len() && order@[a] == k as usize;
            assert(order@[a] as int == k);
            assert(s[a] == keys@[k]);
            assert(ranks@[order@[a] as int] == ranks@[k]);
        }
        assert(is_key_order(keys@, order@, 0, keys@.len() as int));
        assert forall|k: int| 0 <= k < keys.len() implies #[trigger] ranks[k] == Set::new(
            |i: int| 0 <= i < keys@.len() && keys@[i] < keys@[k],
        ).len() + Set::new(|i: int| 0 <= i < keys@.len() && keys@[i] <= keys@[k]).len() - 1 by {
            law_doubled_rank_counts_keys(keys@, order@, k, ranks[k] as int);
        }
    }
    ranks
}

/// Twice the average rank of a key is the number of smaller keys and the number of keys that are no larger,
/// less one: half of the keys that it ties with rank below it and half above.
pub proof fn law_doubled_rank_counts_keys(keys: Seq<u64>, order: Seq<usize>, k: int, r: int)
    requires
        keys.len() <= usize::MAX,
        is_key_order(keys, order, 0, keys.len() as int),
        0 <= k < keys.len(),
        is_doubled_rank(keys_in_order(keys, order), keys[k], r),
    ensures
        r == Set::new(|i: int| 0 <= i < keys.len() && keys[i] < keys[k]).len() + Set::new(
            |i: int| 0 <= i < keys.len() && keys[i] <= keys[k],
        ).len() - 1,
{
    let s = keys_in_order(keys, order);
    let x = keys[k];
    lemma_ordered_keys_ascend(keys, order, 0, keys.len() as int);
    let (p, q) = choose|p: int, q: int| #[trigger] is_tie_group(s, p, q, x) && r == p + q;
    let smaller = Set::new(|i: int| 0 <= i < keys.len() && keys[i] < keys[k]);
    let upto = Set::new(|i: int| 0 <= i < keys.len() && keys[i] <= keys[k]);
    assert(s[p] == x && s[q] == x);
    assert forall|a: int| 0 <= a < s.len() implies (#[trigger] s[a] < x <==> a < p) && (s[a] <= x
        <==> a <= q) by {
        if a < p {
            assert(s[a] <= s[p]);
        }
        if a > q {
            assert(s[q] <= s[a]);
        }
    }
    assert forall|a: int| 0 <= a < order.len() implies (smaller.contains(
        #[trigger] order[a] as int,
    ) <==> a < p) && (upto.contains(order[a] as int) <==> a < q + 1) by {
        assert(0 <= order[a] < keys.len());
        assert(s[a] == keys[order[a] as int]);
    }
    lemma_leading_keys(keys, order, p, smaller);
    lemma_leading_keys(keys, order, q + 1, upto);
}

/// The first positions of an order are as many as they are, and they are a set of positions exactly if the
/// set holds those and no others.
proof fn lemma_leading_keys(keys: Seq<u64>, order: Seq<usize>, n: int, chosen: Set<int>)
    requires
        keys.len() <= usize::MAX,
        is_key_order(keys, order, 0, keys.len() as int),
        0 <= n <= order.len(),
        forall|i: int| #[trigger] chosen.contains(i) ==> 0 <= i < keys.len(),
        forall|a: int|
            0 <= a < order.len() ==> (chosen.contains(#[trigger] order[a] as int) <==> a < n),
    ensures
        chosen.len() == n,
{
    let first = order.take(n).map_values(|p: usize| p as int);
    assert(first.no_duplicates()) by {
        assert forall|a: int, b: int| 0 <= a < b < first.len() implies first[a] != first[b] by {
            assert(key_before(keys, order[a] as int, order[b] as int));
        }
    }
    assert(first.to_set() =~= chosen) by {
        assert forall|i: int| chosen.contains(i) implies first.to_set().contains(i) by {
            law_key_order_is_onto(keys, order, 0, keys.len() as int, i);
            let a = choose|a: int| 0 <= a < order.len() && order[a] == i as usize;
            assert(chosen.contains(order[a] as int));
            assert(first[a] == i);
        }
        assert forall|i: int| first.to_set().contains(i) implies chosen.contains(i) by {
            let a = choose|a: int| 0 <= a < first.len() && first[a] == i;
            assert(chosen.contains(order[a] as int));
        }
    }
    first.unique_seq_to_set();
}

// ---- pairing -------------------------------------------------------------------------------------

/// Of the first `n` positions given, those at which both series have a usable value.
pub open spec fn usable(
    positions: Seq<usize>,
    signal: Seq<bool>,
    forward: Seq<bool>,
    n: nat,
) -> Seq<usize>
    decreases n,
{
    if n == 0 {
        Seq::empty()
    } else {
        let before = usable(positions, signal, forward, (n - 1) as nat);
        let p = positions[n - 1];
        if p < signal.len() && p < forward.len() && signal[p as int] && forward[p as int] {
            before.push(p)
        } else {
            before
        }
    }
}

/// What is gathered are the given positions at which both series are in range and usable, in the order
/// given, and no other.
pub proof fn law_gathered_positions_are_usable(
    positions: Seq<usize>,
    signal: Seq<bool>,
    forward: Seq<bool>,
    n: nat,
)
    requires
        n <= positions.len(),
    ensures
        usable(positions, signal, forward, n) == positions.take(n as int).filter(
            |p: usize|
                p < signal.len() && p < forward.len() && signal[p as int] && forward[p as int],
        ),
    decreases n,
{
    reveal(Seq::filter);
    if n == 0 {
        assert(positions.take(0) =~= Seq::empty());
    } else {
        law_gathered_positions_are_usable(positions, signal, forward, (n - 1) as nat);
        assert(positions.take(n as int).drop_last() =~= positions.take(n - 1));
        assert(positions.take(n as int).last() == positions[n - 1]);
    }
}

/// The positions at which both series are in range and finite, in the order given.
pub fn gather(signal_finite: &[bool], forward_finite: &[bool], positions: &[usize]) -> (r: Vec<
    usize,
>)
    ensures
        r@ == usable(positions@, signal_finite@, forward_finite@, positions@.len()),
{
    let mut out: Vec<usize> = Vec::new();
    let mut i: usize = 0;
    while i < positions.len()
        invariant
            i <= positions.len(),
            out@ == usable(positions@, signal_finite@, forward_finite@, i as nat),
        decreases positions.len() - i,
    {
        let p: usize = positions[i];
        if p < signal_finite.len() && p < forward_finite.len() && signal_finite[p]
            && forward_finite[p] {
            out.push(p);
        }
        i = i + 1;
    }
    out
}

/// The bars whose net returns a forward return sums up: the `horizon` bars after bar `t`. None if they
/// are not all in the series, or there are none.
pub fn forward_window(bars: usize, t: usize, horizon: usize) -> (r: Option<(usize, usize)>)
    ensures
        r == (if horizon > 0 && t + horizon < bars {
            Some(((t + 1) as usize, (t + horizon) as usize))
        } else {
            None::<(usize, usize)>
        }),
{
    if horizon == 0 || t >= bars || horizon >= bars - t {
        None
    } else {
        Some((t + 1, t + horizon))
    }
}

/// A forward return never reads the bar it belongs to, nor one before.
pub proof fn law_forward_window_is_causal(bars: int, t: int, horizon: int, first: int, last: int)
    requires
        horizon > 0,
        t + horizon < bars,
        first == t + 1,
        last == t + horizon,
    ensures
        t < first <= last < bars,
        last - first + 1 == horizon,
{
}

// ---- the information horizon ---------------------------------------------------------------------

/// The position of the largest score, the first of them where several are as large.
pub open spec fn is_first_largest(scores: Seq<u64>, i: int) -> bool {
    &&& 0 <= i < scores.len()
    &&& forall|j: int| 0 <= j < scores.len() ==> #[trigger] scores[j] <= scores[i]
    &&& forall|j: int| 0 <= j < i ==> #[trigger] scores[j] < scores[i]
}

/// The horizon with the largest replicated magnitude, the first of them where several are as large;
/// none without a horizon.
pub fn primary_horizon(scores: &[u64]) -> (r: Option<usize>)
    ensures
        match r {
            Some(i) => is_first_largest(scores@, i as int),
            None => scores.len() == 0,
        },
{
    if scores.len() == 0 {
        return None;
    }
    let mut best: usize = 0;
    let mut i: usize = 1;
    while i < scores.len()
        invariant
            1 <= i <= scores.len(),
            best < i,
            forall|j: int| 0 <= j < i ==> #[trigger] scores[j] <= scores[best as int],
            forall|j: int| 0 <= j < best ==> #[trigger] scores[j] < scores[best as int],
        decreases scores.len() - i,
    {
        if scores[i] > scores[best] {
            best = i;
        }
        i = i + 1;
    }
    Some(best)
}

/// The sign of a coefficient.
#[derive(Debug, Clone, Copy, PartialEq, Eq, Structural)]
pub enum Sign {
    /// Below zero.
    Negative,
    /// Zero.
    Zero,
    /// Above zero.
    Positive,
}

/// Whether two folds agree: both have a coefficient, neither is zero, they have one sign, and their
/// magnitudes are comparable.
pub fn folds_sign_consistent(a: Option<Sign>, b: Option<Sign>, comparable: bool) -> (r: bool)
    ensures
        r == (a is Some && a == b && a != Some(Sign::Zero) && comparable),
{
    match (a, b) {
        (Some(Sign::Positive), Some(Sign::Positive)) => comparable,
        (Some(Sign::Negative), Some(Sign::Negative)) => comparable,
        _ => false,
    }
}

// ---- false-discovery control ---------------------------------------------------------------------

/// The number of discoveries: the largest rank whose value is under its line.
pub open spec fn discoveries(below_line: Seq<bool>) -> int
    decreases below_line.len(),
{
    if below_line.len() == 0 {
        0
    } else if below_line.last() {
        below_line.len() as int
    } else {
        discoveries(below_line.drop_last())
    }
}

/// The number of discoveries is a rank whose value is under its line, and no later one is.
pub proof fn law_discoveries_is_the_last_below(below_line: Seq<bool>)
    ensures
        0 <= discoveries(below_line) <= below_line.len(),
        discoveries(below_line) > 0 ==> below_line[discoveries(below_line) - 1],
        forall|i: int| discoveries(below_line) <= i < below_line.len() ==> !#[trigger] below_line[i],
    decreases below_line.len(),
{
    if below_line.len() > 0 && !below_line.last() {
        let rest = below_line.drop_last();
        law_discoveries_is_the_last_below(rest);
        assert forall|i: int| discoveries(below_line) <= i < below_line.len() implies
            !#[trigger] below_line[i] by {
            if i < rest.len() {
                assert(rest[i] == below_line[i]);
            }
        }
    }
}

/// The discoveries among some hypotheses: those of the first ranks, up to the largest rank whose value
/// is under its line. `order` lists the hypotheses by rank.
pub fn step_up_mask(order: &[usize], below_line: &[bool]) -> (r: Vec<bool>)
    requires
        order.len() == below_line.len(),
        forall|a: int| 0 <= a < order.len() ==> #[trigger] order[a] < order.len(),
        forall|a: int, b: int|
            0 <= a < b < order.len() ==> #[trigger] order[a] != #[trigger] order[b],
    ensures
        r.len() == order.len(),
        forall|a: int|
            0 <= a < order.len() ==> #[trigger] r[order[a] as int] == (a < discoveries(
                below_line@,
            )),
{
    let n: usize = order.len();
    let mut found: usize = 0;
    let mut i: usize = 0;
    assert(below_line@.take(0) =~= Seq::empty());
    while i < n
        invariant
            i <= n == below_line.len(),
            found == discoveries(below_line@.take(i as int)),
            found <= i,
        decreases n - i,
    {
        assert(below_line@.take(i + 1).drop_last() =~= below_line@.take(i as int));
        assert(below_line@.take(i + 1).last() == below_line@[i as int]);
        if below_line[i] {
            found = i + 1;
        }
        i = i + 1;
    }
    assert(below_line@.take(i as int) =~= below_line@);
    let mut mask: Vec<bool> = Vec::new();
    let mut z: usize = 0;
    while z < n
        invariant
            z <= n,
            mask.len() == z,
            forall|k: int| 0 <= k < z ==> !#[trigger] mask[k],
        decreases n - z,
    {
        mask.push(false);
        z = z + 1;
    }
    let mut a: usize = 0;
    while a < found
        invariant
            a <= found <= n == order.len() == mask.len(),
            forall|x: int| 0 <= x < order.len() ==> #[trigger] order[x] < order.len(),
            forall|x: int, y: int|
                0 <= x < y < order.len() ==> #[trigger] order[x] != #[trigger] order[y],
            forall|x: int| 0 <= x < order.len() ==> #[trigger] mask@[order[x] as int] == (x < a),
        decreases found - a,
    {
        let at: usize = order[a];
        let ghost here = mask@;
        mask.set(at, true);
        assert forall|x: int| 0 <= x < order.len() implies #[trigger] mask@[order[x] as int] == (x
            < a + 1) by {
            if x != a {
                assert(order[x] != at) by {
                    if x < a {
                        assert(order[x] != order[a as int]);
                    } else {
                        assert(order[a as int] != order[x]);
                    }
                }
                assert(mask@[order[x] as int] == here[order[x] as int]);
            }
        }
        a = a + 1;
    }
    mask
}

// ---- verdicts ------------------------------------------------------------------------------------

/// What becomes of an indicator.
#[derive(Debug, Clone, Copy, PartialEq, Eq, Structural)]
pub enum Verdict {
    /// Its folds agree and it is a discovery.
    Admit,
    /// It has signal, but its folds disagree or it is no discovery.
    Flag,
    /// It has no signal.
    Drop,
}

/// The verdict on an indicator.
pub open spec fn verdict_of(weak: bool, consistent: bool, passes_fdr: bool) -> Verdict {
    if weak {
        Verdict::Drop
    } else if consistent && passes_fdr {
        Verdict::Admit
    } else {
        Verdict::Flag
    }
}

/// What the verdict on an indicator depends on.
#[derive(Debug)]
pub struct ScreenFacts {
    /// The indicator.
    pub id: String,
    /// Whether its replicated magnitude is below the bar of noise.
    pub weak: bool,
    /// Whether its folds agree.
    pub consistent: bool,
    /// A key that orders the indicators by their p-values.
    pub pvalue_key: u64,
}

/// The verdict on an indicator, and whether it is a discovery.
#[derive(Debug, Clone, Copy, PartialEq, Eq, Structural)]
pub struct Judgement {
    /// Whether it is a discovery.
    pub passes_fdr: bool,
    /// The verdict.
    pub verdict: Verdict,
}

/// The keys of some indicators.
pub open spec fn pvalue_keys(facts: Seq<ScreenFacts>) -> Seq<u64> {
    Seq::new(facts.len(), |i: int| facts[i].pvalue_key)
}

/// Ranks are by ascending p-value: the indicator of an earlier rank has no larger p-value, of equal ones
/// the earlier indicator ranks first, and every indicator has exactly one rank.
pub proof fn law_ranks_ascend_by_pvalue(facts: Seq<ScreenFacts>, order: Seq<usize>)
    requires
        is_key_order(pvalue_keys(facts), order, 0, facts.len() as int),
        facts.len() <= usize::MAX,
    ensures
        order.len() == facts.len(),
        forall|a: int| 0 <= a < order.len() ==> #[trigger] order[a] < facts.len(),
        forall|a: int, b: int|
            0 <= a < b < order.len() ==> {
                let x = facts[#[trigger] order[a] as int].pvalue_key;
                let y = facts[#[trigger] order[b] as int].pvalue_key;
                x < y || (x == y && order[a] < order[b])
            },
        forall|i: int| 0 <= i < facts.len() ==> order.contains(#[trigger] (i as usize)),
{
    let keys = pvalue_keys(facts);
    assert forall|a: int, b: int| 0 <= a < b < order.len() implies {
        let x = facts[#[trigger] order[a] as int].pvalue_key;
        let y = facts[#[trigger] order[b] as int].pvalue_key;
        x < y || (x == y && order[a] < order[b])
    } by {
        assert(0 <= order[a] < facts.len());
        assert(0 <= order[b] < facts.len());
        assert(key_before(keys, order[a] as int, order[b] as int));
    }
    assert forall|i: int| 0 <= i < facts.len() implies order.contains(#[trigger] (i as usize)) by {
        law_key_order_is_onto(keys, order, 0, facts.len() as int, i);
    }
}

/// The indicators by rank of their p-values, smallest first.
pub fn pvalue_order(facts: &[ScreenFacts]) -> (r: Vec<usize>)
    ensures
        is_key_order(pvalue_keys(facts@), r@, 0, facts@.len() as int),
        r.len() == facts.len(),
        forall|a: int| 0 <= a < r.len() ==> #[trigger] r[a] < facts.len(),
        forall|a: int, b: int|
            0 <= a < b < r.len() ==> {
                let x = facts[#[trigger] r[a] as int].pvalue_key;
                let y = facts[#[trigger] r[b] as int].pvalue_key;
                x < y || (x == y && r[a] < r[b])
            },
        forall|i: int| 0 <= i < facts.len() ==> r@.contains(#[trigger] (i as usize)),
{
    let mut keys: Vec<u64> = Vec::new();
    let mut i: usize = 0;
    while i < facts.len()
        invariant
            i <= facts.len(),
            keys@ =~= pvalue_keys(facts@).take(i as int),
        decreases facts.len() - i,
    {
        keys.push(facts[i].pvalue_key);
        i = i + 1;
    }
    assert(keys@ =~= pvalue_keys(facts@));
    let order: Vec<usize> = ascending_order(keys.as_slice());
    proof {
        law_ranks_ascend_by_pvalue(facts@, order@);
    }
    order
}

/// The judgement on an indicator.
pub open spec fn judgement_of(facts: ScreenFacts, passes_fdr: bool) -> Judgement {
    Judgement { passes_fdr, verdict: verdict_of(facts.weak, facts.consistent, passes_fdr) }
}

/// The rank of an indicator.
spec fn rank_of(order: Seq<usize>, i: int) -> int {
    choose|a: int| 0 <= a < order.len() && #[trigger] order[a] == i
}

/// The false-discovery control goes by the p-values: as many indicators pass as the largest rank under
/// its line says, and where one passes every one with a smaller p-value passes, and every earlier one
/// with the same.
pub proof fn law_screen_controls_false_discoveries(
    facts: Seq<ScreenFacts>,
    below_line: Seq<bool>,
    order: Seq<usize>,
    judged: Seq<Judgement>,
)
    requires
        facts.len() <= usize::MAX,
        below_line.len() == facts.len() == judged.len(),
        is_key_order(pvalue_keys(facts), order, 0, facts.len() as int),
        forall|a: int|
            0 <= a < order.len() ==> #[trigger] judged[order[a] as int] == judgement_of(
                facts[order[a] as int],
                a < discoveries(below_line),
            ),
    ensures
        forall|i: int, j: int|
            0 <= i < facts.len() && 0 <= j < facts.len() && (#[trigger] judged[i]).passes_fdr && (
            facts[j].pvalue_key < facts[i].pvalue_key || (facts[j].pvalue_key
                == facts[i].pvalue_key && j < i)) ==> (#[trigger] judged[j]).passes_fdr,
        Set::new(|i: int| 0 <= i < judged.len() && judged[i].passes_fdr).len() == discoveries(
            below_line,
        ),
        forall|i: int|
            0 <= i < facts.len() ==> ((#[trigger] judged[i]).verdict == Verdict::Drop
                <==> facts[i].weak),
        forall|i: int|
            0 <= i < facts.len() ==> ((#[trigger] judged[i]).verdict == Verdict::Admit
                <==> !facts[i].weak && facts[i].consistent && judged[i].passes_fdr),
{
    let found = discoveries(below_line);
    law_ranks_ascend_by_pvalue(facts, order);
    law_discoveries_is_the_last_below(below_line);
    assert forall|i: int| 0 <= i < facts.len() implies {
        let a = #[trigger] rank_of(order, i);
        0 <= a < order.len() && order[a] == i && judged[i] == judgement_of(facts[i], a < found)
    } by {
        assert(order.contains(i as usize));
        let k = choose|k: int| 0 <= k < order.len() && order[k] == i as usize;
        assert(order[k] == i);
        let a = rank_of(order, i);
        assert(judged[order[a] as int] == judgement_of(facts[i], a < found));
    }
    assert forall|i: int| 0 <= i < facts.len() implies #[trigger] judged[i] == judgement_of(
        facts[i],
        rank_of(order, i) < found,
    ) by {}
    assert forall|i: int, j: int|
        0 <= i < facts.len() && 0 <= j < facts.len() && (#[trigger] judged[i]).passes_fdr && (
        facts[j].pvalue_key < facts[i].pvalue_key || (facts[j].pvalue_key == facts[i].pvalue_key
            && j < i)) implies (#[trigger] judged[j]).passes_fdr by {
        let a = rank_of(order, i);
        let b = rank_of(order, j);
        if a < b {
            assert(order[a] == i && order[b] == j);
        }
    }
    // The discoveries are the indicators of the first ranks.
    let first = order.take(found).map_values(|p: usize| p as int);
    let passing = Set::new(|i: int| 0 <= i < judged.len() && judged[i].passes_fdr);
    assert(first.no_duplicates()) by {
        assert forall|a: int, b: int| 0 <= a < b < first.len() implies first[a] != first[b] by {
            assert(order[a] != order[b]);
        }
    }
    assert(first.to_set() =~= passing) by {
        assert forall|i: int| passing.contains(i) implies first.to_set().contains(i) by {
            assert(first[rank_of(order, i)] == i);
        }
        assert forall|i: int| first.to_set().contains(i) implies passing.contains(i) by {
            let a = choose|a: int| 0 <= a < first.len() && first[a] == i;
            assert(judged[order[a] as int] == judgement_of(facts[order[a] as int], a < found));
        }
    }
    first.unique_seq_to_set();
}

/// Judges every indicator. `below_line` says of every rank, from the smallest p-value on, whether the
/// p-value of that rank is under its line.
pub fn screen_catalogue(facts: &[ScreenFacts], below_line: &[bool]) -> (r: Vec<Judgement>)
    requires
        below_line.len() == facts.len(),
    ensures
        r.len() == facts.len(),
        exists|order: Seq<usize>| #[trigger]
            is_key_order(pvalue_keys(facts@), order, 0, facts@.len() as int) && forall|a: int|
                0 <= a < order.len() ==> #[trigger] r[order[a] as int] == judgement_of(
                    facts[order[a] as int],
                    a < discoveries(below_line@),
                ),
        // A smaller p-value than a discovery's is a discovery too, and so is the earlier of two equal ones.
        forall|i: int, j: int|
            0 <= i < facts.len() && 0 <= j < facts.len() && (#[trigger] r[i]).passes_fdr && (
            facts[j].pvalue_key < facts[i].pvalue_key || (facts[j].pvalue_key
                == facts[i].pvalue_key && j < i)) ==> (#[trigger] r[j]).passes_fdr,
        // There are as many discoveries as the largest rank under its line says.
        Set::new(|i: int| 0 <= i < r@.len() && r@[i].passes_fdr).len() == discoveries(below_line@),
        forall|i: int|
            0 <= i < facts.len() ==> ((#[trigger] r[i]).verdict == Verdict::Drop <==> facts[i].weak),
        forall|i: int|
            0 <= i < facts.len() ==> ((#[trigger] r[i]).verdict == Verdict::Admit
                <==> !facts[i].weak && facts[i].consistent && r[i].passes_fdr),
{
    let order: Vec<usize> = pvalue_order(facts);
    let ghost keys = pvalue_keys(facts@);
    assert forall|a: int, b: int| 0 <= a < b < order.len() implies #[trigger] order@[a]
        != #[trigger] order@[b] by {
        assert(key_before(keys, order@[a] as int, order@[b] as int));
    }
    let mask: Vec<bool> = step_up_mask(order.as_slice(), below_line);
    let mut out: Vec<Judgement> = Vec::new();
    let mut i: usize = 0;
    while i < facts.len()
        invariant
            i <= facts.len() == mask.len(),
            out.len() == i,
            forall|k: int| 0 <= k < i ==> #[trigger] out[k] == judgement_of(facts[k], mask[k]),
        decreases facts.len() - i,
    {
        let passes_fdr: bool = mask[i];
        let verdict: Verdict = if facts[i].weak {
            Verdict::Drop
        } else if facts[i].consistent && passes_fdr {
            Verdict::Admit
        } else {
            Verdict::Flag
        };
        out.push(Judgement { passes_fdr, verdict });
        i = i + 1;
    }
    assert(is_key_order(keys, order@, 0, facts@.len() as int));
    assert forall|a: int| 0 <= a < order@.len() implies #[trigger] out@[order@[a] as int]
        == judgement_of(facts@[order@[a] as int], a < discoveries(below_line@)) by {
        assert(0 <= order@[a] < facts@.len());
        assert(mask@[order@[a] as int] == (a < discoveries(below_line@)));
    }
    proof {
        law_screen_controls_false_discoveries(facts@, below_line@, order@, out@);
    }
    out
}

/// An indicator without signal is dropped whatever else holds of it, and none is admitted that is not
/// a discovery whose folds agree.
pub proof fn law_admission_needs_everything(weak: bool, consistent: bool, passes_fdr: bool)
    ensures
        verdict_of(weak, consistent, passes_fdr) == Verdict::Admit <==> !weak && consistent
            && passes_fdr,
        verdict_of(weak, consistent, passes_fdr) == Verdict::Drop <==> weak,
{
}

/// The identifiers of the first `n` indicators with a verdict, in order.
pub open spec fn ids_with(
    facts: Seq<ScreenFacts>,
    judged: Seq<Judgement>,
    v: Verdict,
    n: nat,
) -> Seq<Seq<char>>
    decreases n,
{
    if n == 0 {
        Seq::empty()
    } else {
        let before = ids_with(facts, judged, v, (n - 1) as nat);
        if judged[n - 1].verdict == v {
            before.push(facts[n - 1].id@)
        } else {
            before
        }
    }
}

/// The identifiers listed under a verdict are those of the indicators with that verdict, in their order.
pub proof fn law_ids_are_those_with_the_verdict(
    facts: Seq<ScreenFacts>,
    judged: Seq<Judgement>,
    v: Verdict,
    n: nat,
)
    requires
        n <= facts.len(),
        n <= judged.len(),
    ensures
        ids_with(facts, judged, v, n) == Seq::new(n, |i: int| i).filter(
            |i: int| judged[i].verdict == v,
        ).map_values(|i: int| facts[i].id@),
    decreases n,
{
    reveal(Seq::filter);
    let p = |i: int| judged[i].verdict == v;
    let f = |i: int| facts[i].id@;
    let all = Seq::new(n, |i: int| i);
    if n == 0 {
        assert(all.filter(p).map_values(f) =~= Seq::empty());
    } else {
        law_ids_are_those_with_the_verdict(facts, judged, v, (n - 1) as nat);
        let rest = Seq::new((n - 1) as nat, |i: int| i);
        assert(all.drop_last() =~= rest);
        assert(all.last() == n - 1);
        if p(n - 1) {
            assert(rest.filter(p).push(n - 1).map_values(f) =~= rest.filter(p).map_values(f).push(
                f(n - 1),
            ));
        }
    }
}

/// The identifiers of the indicators with a verdict, in order.
pub fn ids_where(facts: &[ScreenFacts], judged: &[Judgement], v: Verdict) -> (r: Vec<String>)
    requires
        judged.len() == facts.len(),
    ensures
        views(r@) == ids_with(facts@, judged@, v, facts@.len()),
{
    let mut out: Vec<String> = Vec::new();
    let mut i: usize = 0;
    assert(views(out@) =~= Seq::empty());
    while i < facts.len()
        invariant
            i <= facts.len() == judged.len(),
            views(out@) == ids_with(facts@, judged@, v, i as nat),
        decreases facts.len() - i,
    {
        let ghost before = views(out@);
        if judged[i].verdict == v {
            out.push(facts[i].id.clone());
            assert(views(out@) =~= before.push(facts@[i as int].id@));
        }
        i = i + 1;
    }
    out
}

} // verus!
