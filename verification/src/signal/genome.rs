//! The strategy genome: a fixed vector of genes that encodes a bounded set of rules over quantised
//! states.
//!
//! A genome has one bank of entry rules per direction, and fixed exit and risk genes. A rule (a
//! [`Clause`]) asks whether one feature's state lies in a band; a bank ([`RuleSet`]) fires when enough
//! of its enabled rules hold. Operators may push genes out of their domain and then call
//! [`Genome::repair`].

use std::collections::BTreeSet;

use vstd::prelude::*;

use crate::count::{lemma_no_position, lemma_one_more_position, positions};
use crate::decimal::{
    add_results, dec_lt, fits, lemma_lt_at_max_scale, lemma_of, lemma_pow10_bounded,
    lemma_pow10_max, magnitude, minus, multiply_results, over, plus, pow10, subtract_results,
    times, Dec, MAX_SCALE,
};
use crate::domain::Direction;
use crate::signal::feature::{FeatureSchema, FeatureVector, SchemaModel};
use crate::signal::quant::QState;

verus! {

broadcast use {
    vstd::std_specs::btree::group_btree_axioms,
    vstd::laws_cmp::group_laws_cmp,
};

/// The version of the representation, stamped into every genome.
pub const REP_VERSION: u16 = 1;

/// The number of clauses in each entry bank.
pub const CLAUSES_PER_SET: usize = 4;

/// The upper bound of `risk.size_bps`, in basis points of the allowed capital.
pub const MAX_SIZE_BPS: u16 = 10_000;

/// The smallest entry strength, 0.5.
pub open spec fn strength_floor() -> Dec {
    Dec::of(5, 1)
}

/// The smallest entry strength: a bank that fires always sizes at least at this fraction.
pub fn graded_strength_floor() -> (r: Dec)
    ensures
        r == strength_floor(),
{
    Dec::scaled(5, 1)
}

// ---- rules ---------------------------------------------------------------------------------------

/// A band condition on one quantised state: the state of `feature` is in `[lo, hi]`.
#[derive(Debug, Clone, Copy, PartialEq, Eq, Structural)]
pub struct Clause {
    /// Whether the clause takes part.
    pub enabled: bool,
    /// Which feature of the schema it reads.
    pub feature: u16,
    /// The lowest state of the band.
    pub lo: u16,
    /// The highest state of the band.
    pub hi: u16,
}

/// The state of a feature: none if there is no such slot or it is not warm.
pub open spec fn state_at(states: Seq<Option<QState>>, feature: u16) -> Option<QState> {
    if feature < states.len() {
        states[feature as int]
    } else {
        None
    }
}

impl Clause {
    /// Whether the clause holds: it is enabled, its feature is warm, and the state is in the band.
    pub open spec fn holds(self, states: Seq<Option<QState>>) -> bool {
        &&& self.enabled
        &&& state_at(states, self.feature) matches Some(s) && self.lo <= s.bucket() <= self.hi
    }

    /// The most conviction that the clause can carry: 1 for a single state, growing by 1 with every
    /// two more states in the band.
    pub open spec fn cap(self) -> int {
        1 + (if self.hi >= self.lo {
            (self.hi - self.lo) / 2
        } else {
            0
        })
    }

    /// The conviction that the clause carries: nothing if it does not hold, 1 at either edge of the
    /// band, and one more with every step towards its centre.
    pub open spec fn contribution(self, states: Seq<Option<QState>>) -> int {
        if self.holds(states) {
            let s = state_at(states, self.feature)->0.bucket();
            1 + (if s - self.lo <= self.hi - s {
                s - self.lo
            } else {
                self.hi - s
            })
        } else {
            0
        }
    }

    /// The state that the clause looks at.
    fn state(&self, features: &FeatureVector) -> (r: Option<QState>)
        ensures
            r == state_at(features.states@, self.feature),
    {
        if (self.feature as usize) < features.states.len() {
            features.states[self.feature as usize]
        } else {
            None
        }
    }

    /// Whether the clause holds: it is enabled, its feature is warm, and the state is in the band. A
    /// slot that is missing or not warm never satisfies it.
    pub fn satisfied(&self, features: &FeatureVector) -> (r: bool)
        ensures
            r == self.holds(features.states@),
    {
        if !self.enabled {
            return false;
        }
        match self.state(features) {
            Some(state) => {
                let s: u16 = state.index();
                self.lo <= s && s <= self.hi
            },
            None => false,
        }
    }
}

/// A bank of rules: it fires when at least `min_satisfied` of its enabled clauses hold.
#[derive(Debug, Clone, Copy, PartialEq, Eq)]
pub struct RuleSet {
    /// The clauses.
    pub clauses: [Clause; CLAUSES_PER_SET],
    /// How many enabled clauses must hold; on evaluation it is brought into the range from 1 to the
    /// number of enabled clauses.
    pub min_satisfied: u8,
}

/// What a [`RuleSet`] holds.
#[verifier::ext_equal]
pub struct BankModel {
    /// The clauses.
    pub clauses: Seq<Clause>,
    /// How many enabled clauses must hold.
    pub min_satisfied: u8,
}

impl View for RuleSet {
    type V = BankModel;

    open spec fn view(&self) -> BankModel {
        BankModel { clauses: self.clauses@, min_satisfied: self.min_satisfied }
    }
}

/// How many clauses are enabled.
pub open spec fn enabled_count(clauses: Seq<Clause>) -> int
    decreases clauses.len(),
{
    if clauses.len() == 0 {
        0
    } else {
        enabled_count(clauses.drop_last()) + (if clauses.last().enabled {
            1int
        } else {
            0
        })
    }
}

/// How many clauses hold.
pub open spec fn held_count(clauses: Seq<Clause>, states: Seq<Option<QState>>) -> int
    decreases clauses.len(),
{
    if clauses.len() == 0 {
        0
    } else {
        held_count(clauses.drop_last(), states) + (if clauses.last().holds(states) {
            1int
        } else {
            0
        })
    }
}

/// The sum of the enabled clauses' caps.
pub open spec fn cap_total(clauses: Seq<Clause>) -> int
    decreases clauses.len(),
{
    if clauses.len() == 0 {
        0
    } else {
        cap_total(clauses.drop_last()) + (if clauses.last().enabled {
            clauses.last().cap()
        } else {
            0
        })
    }
}

/// The sum of the clauses' contributions.
pub open spec fn contribution_total(clauses: Seq<Clause>, states: Seq<Option<QState>>) -> int
    decreases clauses.len(),
{
    if clauses.len() == 0 {
        0
    } else {
        contribution_total(clauses.drop_last(), states) + clauses.last().contribution(states)
    }
}

/// A number brought into `[low, high]`.
pub open spec fn clamped(x: int, low: int, high: int) -> int {
    if x < low {
        low
    } else if x > high {
        high
    } else {
        x
    }
}

impl BankModel {
    /// Whether the bank fires.
    pub open spec fn fires(self, states: Seq<Option<QState>>) -> bool {
        let active = enabled_count(self.clauses);
        active > 0 && held_count(self.clauses, states) >= clamped(
            self.min_satisfied as int,
            1,
            active,
        )
    }
}

/// What the counts and sums over a bank can be.
proof fn lemma_bank_totals(clauses: Seq<Clause>, states: Seq<Option<QState>>)
    ensures
        0 <= held_count(clauses, states) <= enabled_count(clauses) <= clauses.len(),
        held_count(clauses, states) <= contribution_total(clauses, states) <= cap_total(clauses),
        enabled_count(clauses) <= cap_total(clauses) <= 0x8000 * clauses.len(),
        held_count(clauses, states) == 0 <==> contribution_total(clauses, states) == 0,
        enabled_count(clauses) == 0 <==> cap_total(clauses) == 0,
    decreases clauses.len(),
{
    if clauses.len() > 0 {
        lemma_bank_totals(clauses.drop_last(), states);
    }
}

/// A bank that fires carries some conviction; one without an enabled clause never fires.
pub proof fn law_firing_bank_has_conviction(bank: BankModel, states: Seq<Option<QState>>)
    ensures
        bank.fires(states) ==> contribution_total(bank.clauses, states) > 0,
        enabled_count(bank.clauses) == 0 ==> !bank.fires(states),
        0 <= contribution_total(bank.clauses, states) <= cap_total(bank.clauses),
{
    lemma_bank_totals(bank.clauses, states);
}

/// A bank never fires on a vector without a warm slot.
pub proof fn law_no_warm_slot_never_fires(bank: BankModel, states: Seq<Option<QState>>)
    requires
        forall|i: int| 0 <= i < states.len() ==> #[trigger] states[i] is None,
    ensures
        !bank.fires(states),
{
    lemma_nothing_holds(bank.clauses, states);
}

proof fn lemma_nothing_holds(clauses: Seq<Clause>, states: Seq<Option<QState>>)
    requires
        forall|i: int| 0 <= i < states.len() ==> #[trigger] states[i] is None,
    ensures
        held_count(clauses, states) == 0,
    decreases clauses.len(),
{
    if clauses.len() > 0 {
        lemma_nothing_holds(clauses.drop_last(), states);
    }
}

/// The enabled clauses are counted one by one, and so are those that hold: the enabled ones whose feature
/// has a state, and one within the band, both ends of it included.
pub proof fn law_clauses_are_counted(clauses: Seq<Clause>, states: Seq<Option<QState>>)
    ensures
        enabled_count(clauses) == Set::new(
            |i: int| 0 <= i < clauses.len() && clauses[i].enabled,
        ).len(),
        held_count(clauses, states) == Set::new(
            |i: int|
                0 <= i < clauses.len() && clauses[i].enabled && clauses[i].feature < states.len()
                    && states[clauses[i].feature as int] is Some && clauses[i].lo
                    <= states[clauses[i].feature as int]->0.bucket() <= clauses[i].hi,
        ).len(),
    decreases clauses.len(),
{
    let n = clauses.len() as int;
    let p = |i: int| clauses[i].enabled;
    let q = |i: int|
        clauses[i].enabled && clauses[i].feature < states.len()
            && states[clauses[i].feature as int] is Some && clauses[i].lo
            <= states[clauses[i].feature as int]->0.bucket() <= clauses[i].hi;
    assert(Set::new(|i: int| 0 <= i < clauses.len() && clauses[i].enabled) =~= positions(n, p));
    assert(Set::new(
        |i: int|
            0 <= i < clauses.len() && clauses[i].enabled && clauses[i].feature < states.len()
                && states[clauses[i].feature as int] is Some && clauses[i].lo
                <= states[clauses[i].feature as int]->0.bucket() <= clauses[i].hi,
    ) =~= positions(n, q));
    if n == 0 {
        lemma_no_position(p);
        lemma_no_position(q);
    } else {
        let rest = clauses.drop_last();
        law_clauses_are_counted(rest, states);
        assert(Set::new(|i: int| 0 <= i < rest.len() && rest[i].enabled) =~= positions(n - 1, p));
        assert(Set::new(
            |i: int|
                0 <= i < rest.len() && rest[i].enabled && rest[i].feature < states.len()
                    && states[rest[i].feature as int] is Some && rest[i].lo
                    <= states[rest[i].feature as int]->0.bucket() <= rest[i].hi,
        ) =~= positions(n - 1, q));
        lemma_one_more_position(n, p);
        lemma_one_more_position(n, q);
    }
}

/// A bank fires exactly if some clause holds, and either as many hold as it asks for or all the enabled
/// ones do.
pub proof fn law_bank_fires_when_enough_hold(bank: BankModel, states: Seq<Option<QState>>)
    ensures
        bank.fires(states) <==> {
            let held = Set::new(
                |i: int|
                    0 <= i < bank.clauses.len() && bank.clauses[i].enabled
                        && bank.clauses[i].feature < states.len()
                        && states[bank.clauses[i].feature as int] is Some && bank.clauses[i].lo
                        <= states[bank.clauses[i].feature as int]->0.bucket()
                        <= bank.clauses[i].hi,
            ).len();
            let enabled = Set::new(
                |i: int| 0 <= i < bank.clauses.len() && bank.clauses[i].enabled,
            ).len();
            held >= 1 && (held >= bank.min_satisfied || held == enabled)
        },
{
    law_clauses_are_counted(bank.clauses, states);
    lemma_bank_totals(bank.clauses, states);
}

/// A clause that holds contributes the number of states from the nearer edge of its band to the state, that
/// edge and the state included: one at an edge, and all that the clause can carry at the centre. One that
/// does not hold contributes nothing.
pub proof fn law_contribution_grows_to_the_centre(c: Clause, states: Seq<Option<QState>>)
    ensures
        c.contribution(states) > 0 <==> c.enabled && c.feature < states.len()
            && states[c.feature as int] is Some && c.lo <= states[c.feature as int]->0.bucket()
            <= c.hi,
        c.contribution(states) >= 0,
        c.contribution(states) > 0 ==> {
            let s = states[c.feature as int]->0.bucket();
            let d = c.contribution(states);
            &&& c.lo + (d - 1) <= s <= c.hi - (d - 1)
            &&& s == c.lo + (d - 1) || s == c.hi - (d - 1)
            &&& d <= c.cap()
            &&& d == c.cap() <==> -1 <= (s - c.lo) - (c.hi - s) <= 1
        },
        c.cap() >= 1,
        c.lo > c.hi ==> c.cap() == 1,
{
}

/// The sums behind a conviction are those of the clauses one by one: one more clause adds its contribution,
/// and its cap if it is enabled.
pub proof fn law_conviction_adds_up(clauses: Seq<Clause>, c: Clause, states: Seq<Option<QState>>)
    ensures
        contribution_total(clauses.push(c), states) == contribution_total(clauses, states)
            + c.contribution(states),
        cap_total(clauses.push(c)) == cap_total(clauses) + (if c.enabled {
            c.cap()
        } else {
            0
        }),
        contribution_total(Seq::empty(), states) == 0,
        cap_total(Seq::empty()) == 0,
{
    assert(clauses.push(c).drop_last() =~= clauses);
}

/// Whether `x` is `num / den` rounded to the nearest number with 28 decimals.
pub open spec fn is_rounded_share(num: int, den: int, x: Dec) -> bool {
    &&& x.wf()
    &&& x.m() >= 0
    &&& 2 * magnitude(x.at_scale(MAX_SCALE as nat) * den - num * pow10(MAX_SCALE as nat)) <= den
}

/// The conviction of a bank: the share of the enabled clauses' caps that the contributions make up, 0
/// when no clause is enabled.
pub open spec fn conviction_of(bank: BankModel, states: Seq<Option<QState>>) -> Option<Dec> {
    if cap_total(bank.clauses) == 0 {
        Some(Dec::whole(0))
    } else {
        over(
            Some(Dec::whole(contribution_total(bank.clauses, states))),
            Some(Dec::whole(cap_total(bank.clauses))),
        )
    }
}

/// What is known of a bank's conviction as a number: it is the share rounded to 28 decimals, exactly 1
/// where every clause contributes all it can, and exactly 0 where none contributes.
pub open spec fn conviction_facts(bank: BankModel, states: Seq<Option<QState>>, c: Dec) -> bool {
    let num = contribution_total(bank.clauses, states);
    let den = cap_total(bank.clauses);
    &&& c.wf()
    &&& den > 0 ==> is_rounded_share(num, den, c)
    &&& num == den > 0 ==> c == Dec::whole(1)
    &&& num == 0 ==> c == Dec::whole(0)
}

impl RuleSet {
    /// The number of enabled clauses.
    pub fn active_count(&self) -> (r: usize)
        ensures
            r == enabled_count(self@.clauses),
            r <= CLAUSES_PER_SET,
    {
        let ghost all = self.clauses@;
        let mut n: usize = 0;
        let mut i: usize = 0;
        while i < CLAUSES_PER_SET
            invariant
                i <= CLAUSES_PER_SET,
                all == self.clauses@,
                n <= i,
                n == enabled_count(all.take(i as int)),
            decreases CLAUSES_PER_SET - i,
        {
            assert(all.take(i + 1).drop_last() =~= all.take(i as int));
            if self.clauses[i].enabled {
                n = n + 1;
            }
            i = i + 1;
        }
        assert(all.take(i as int) =~= all);
        n
    }

    /// Whether the bank fires. A bank with no enabled clause never does.
    pub fn fires(&self, features: &FeatureVector) -> (r: bool)
        ensures
            r == self@.fires(features.states@),
    {
        let active: usize = self.active_count();
        if active == 0 {
            return false;
        }
        let ghost all = self.clauses@;
        let ghost states = features.states@;
        let mut n: usize = 0;
        let mut i: usize = 0;
        while i < CLAUSES_PER_SET
            invariant
                i <= CLAUSES_PER_SET,
                all == self.clauses@,
                states == features.states@,
                n <= i,
                n == held_count(all.take(i as int), states),
            decreases CLAUSES_PER_SET - i,
        {
            assert(all.take(i + 1).drop_last() =~= all.take(i as int));
            if self.clauses[i].satisfied(features) {
                n = n + 1;
            }
            i = i + 1;
        }
        assert(all.take(i as int) =~= all);
        let wanted: usize = self.min_satisfied as usize;
        let threshold: usize = if wanted < 1 {
            1
        } else if wanted > active {
            active
        } else {
            wanted
        };
        n >= threshold
    }

    /// The two integers whose quotient is the bank's conviction: the sum of the clauses' contributions
    /// and the sum of the enabled clauses' caps.
    pub fn conviction_parts(&self, features: &FeatureVector) -> (r: (u32, u32))
        ensures
            r.0 == contribution_total(self@.clauses, features.states@),
            r.1 == cap_total(self@.clauses),
            r.0 <= r.1,
    {
        let ghost all = self.clauses@;
        let ghost states = features.states@;
        let mut num: u32 = 0;
        let mut den: u32 = 0;
        let mut i: usize = 0;
        while i < CLAUSES_PER_SET
            invariant
                i <= CLAUSES_PER_SET,
                all == self.clauses@,
                states == features.states@,
                num == contribution_total(all.take(i as int), states),
                den == cap_total(all.take(i as int)),
                num <= 0x1_0000 * i,
                den <= 0x1_0000 * i,
            decreases CLAUSES_PER_SET - i,
        {
            assert(all.take(i + 1).drop_last() =~= all.take(i as int));
            let c: Clause = self.clauses[i];
            if c.enabled {
                let span: u16 = if c.hi >= c.lo {
                    c.hi - c.lo
                } else {
                    0
                };
                den = den + 1 + (span / 2) as u32;
                if c.satisfied(features) {
                    if let Some(state) = c.state(features) {
                        let s: u16 = state.index();
                        let depth: u16 = if s - c.lo <= c.hi - s {
                            s - c.lo
                        } else {
                            c.hi - s
                        };
                        num = num + 1 + depth as u32;
                    }
                }
            }
            i = i + 1;
        }
        assert(all.take(i as int) =~= all);
        proof {
            lemma_bank_totals(all, states);
        }
        (num, den)
    }

    /// The graded conviction of the bank, in `[0, 1]`: the share of the enabled clauses' caps that
    /// their contributions make up. It is 0 when no clause is enabled.
    pub fn graded_conviction(&self, features: &FeatureVector) -> (r: Dec)
        ensures
            conviction_of(self@, features.states@) == Some(r),
            conviction_facts(self@, features.states@, r),
    {
        proof {
            lemma_bank_totals(self@.clauses, features.states@);
        }
        let (num, den) = self.conviction_parts(features);
        if den == 0 {
            return Dec::from_int(0);
        }
        proof {
            lemma_of(num as int, 0);
            lemma_of(den as int, 0);
            lemma_of(0, 0);
        }
        match Dec::from_int(num as i64).checked_div(Dec::from_int(den as i64)) {
            Some(x) => x,
            None => Dec::from_int(0),
        }
    }
}

// ---- what a conviction is worth ------------------------------------------------------------------

/// The mantissa that a number in `[0, 1]` has at scale 28, and what follows of its own mantissa.
proof fn lemma_share_bounds(num: int, den: int, x: Dec)
    requires
        is_rounded_share(num, den, x),
        0 <= num <= den,
        0 < den < 0x1_0000_0000,
    ensures
        0 <= x.at_scale(MAX_SCALE as nat) <= pow10(MAX_SCALE as nat),
        0 <= x.m() <= pow10(x.s()),
        x.s() <= MAX_SCALE,
{
    crate::decimal::lemma_wf(x);
    lemma_pow10_max();
    lemma_pow10_bounded(x.s());
    lemma_pow10_bounded((MAX_SCALE - x.s()) as nat);
    let t = pow10(MAX_SCALE as nat);
    let v = x.at_scale(MAX_SCALE as nat);
    let up = pow10((MAX_SCALE - x.s()) as nat);
    assert(0 <= x.m() * up) by (nonlinear_arith)
        requires
            x.m() >= 0,
            up >= 1,
    ;
    assert(v <= t) by (nonlinear_arith)
        requires
            2 * (v * den - num * t) <= den,
            0 <= num <= den,
            den > 0,
            t >= 1,
    ;
    let p = pow10(x.s());
    assert(x.m() <= p) by (nonlinear_arith)
        requires
            x.m() * up <= t,
            p * up == t,
            up >= 1,
    ;
}

/// A larger numerator over the same denominator is a strictly larger conviction; a conviction is
/// positive exactly if its numerator is, and never above 1.
pub proof fn law_conviction_is_ordinal(num1: int, num2: int, den: int, x: Dec, y: Dec)
    requires
        0 <= num1 <= den,
        0 <= num2 <= den,
        0 < den < 0x1_0000_0000,
        is_rounded_share(num1, den, x),
        is_rounded_share(num2, den, y),
    ensures
        num1 < num2 ==> dec_lt(x, y),
        num1 > 0 <==> x.m() > 0,
        !dec_lt(Dec::whole(1), x),
        !dec_lt(x, Dec::whole(0)),
{
    lemma_share_bounds(num1, den, x);
    lemma_share_bounds(num2, den, y);
    lemma_lt_at_max_scale(x, y);
    lemma_of(1, 0);
    lemma_of(0, 0);
    lemma_lt_at_max_scale(Dec::whole(1), x);
    lemma_lt_at_max_scale(x, Dec::whole(0));
    lemma_pow10_max();
    lemma_pow10_bounded((MAX_SCALE - x.s()) as nat);
    let t = pow10(MAX_SCALE as nat);
    let vx = x.at_scale(MAX_SCALE as nat);
    let vy = y.at_scale(MAX_SCALE as nat);
    if num1 < num2 {
        assert(vx < vy) by (nonlinear_arith)
            requires
                2 * (vx * den - num1 * t) <= den,
                2 * (num2 * t - vy * den) <= den,
                num1 + 1 <= num2,
                0 < den < t,
        ;
    }
    if num1 > 0 {
        assert(vx > 0) by (nonlinear_arith)
            requires
                2 * (num1 * t - vx * den) <= den,
                num1 >= 1,
                0 < den < t,
        ;
        if x.m() == 0 {
            assert(vx == 0) by (nonlinear_arith)
                requires
                    x.m() == 0,
                    vx == x.m() * pow10((MAX_SCALE - x.s()) as nat),
            ;
        }
    } else {
        assert(vx <= 0) by (nonlinear_arith)
            requires
                2 * (vx * den) <= den,
                den > 0,
        ;
        let up = pow10((MAX_SCALE - x.s()) as nat);
        assert(x.m() <= 0) by (nonlinear_arith)
            requires
                x.m() * up <= 0,
                up >= 1,
        ;
    }
}

/// The entry strength that a conviction is worth: half of full size, and the other half in proportion
/// to the conviction.
pub open spec fn strength_of(conviction: Dec) -> Option<Dec> {
    plus(
        Some(strength_floor()),
        times(minus(Some(Dec::whole(1)), Some(strength_floor())), Some(conviction)),
    )
}

/// Whether `r` is `0.5 + 0.5 * conviction`, up to half a unit in the 28th decimal.
pub open spec fn is_graded_strength(conviction: Dec, r: Dec) -> bool {
    &&& r.wf()
    &&& magnitude(
        10 * r.at_scale(MAX_SCALE as nat) - 5 * pow10(MAX_SCALE as nat) - 5 * conviction.at_scale(
            MAX_SCALE as nat,
        ),
    ) <= 5
}

/// Whether a conviction is in `[0, 1]`.
pub open spec fn is_share(x: Dec) -> bool {
    &&& x.wf()
    &&& x.m() >= 0
    &&& x.at_scale(MAX_SCALE as nat) <= pow10(MAX_SCALE as nat)
}

/// A strength is never below the floor and never above 1, and one that comes from a larger conviction
/// over the same denominator is strictly larger.
pub proof fn law_strength_is_graded(
    num1: int,
    num2: int,
    den: int,
    x: Dec,
    y: Dec,
    r: Dec,
    q: Dec,
)
    requires
        0 <= num1 <= den,
        0 <= num2 <= den,
        0 < den < 0x1_0000_0000,
        is_rounded_share(num1, den, x),
        is_rounded_share(num2, den, y),
        is_graded_strength(x, r),
        is_graded_strength(y, q),
    ensures
        !dec_lt(r, strength_floor()),
        !dec_lt(Dec::whole(1), r),
        num1 < num2 ==> dec_lt(r, q),
{
    lemma_share_bounds(num1, den, x);
    lemma_share_bounds(num2, den, y);
    lemma_of(5, 1);
    lemma_of(1, 0);
    lemma_lt_at_max_scale(r, strength_floor());
    lemma_lt_at_max_scale(Dec::whole(1), r);
    lemma_lt_at_max_scale(r, q);
    lemma_pow10_max();
    assert(pow10(MAX_SCALE as nat) == 10 * pow10(27));
    let t = pow10(MAX_SCALE as nat);
    let vx = x.at_scale(MAX_SCALE as nat);
    let vy = y.at_scale(MAX_SCALE as nat);
    if num1 < num2 {
        assert(vx + 2 < vy) by (nonlinear_arith)
            requires
                2 * (vx * den - num1 * t) <= den,
                2 * (num2 * t - vy * den) <= den,
                num1 + 1 <= num2,
                0 < den,
                4 * den < t,
        ;
    }
}

/// A strength is one half and half of the conviction, to within half a unit of the last decimal: none is
/// worth exactly one half, and a full one exactly 1.
pub proof fn law_strength_is_half_and_half_the_conviction(conviction: Dec, r: Dec)
    requires
        conviction.wf(),
        is_graded_strength(conviction, r),
    ensures
        -1 <= 2 * r.at_scale(28) - pow10(28) - conviction.at_scale(28) <= 1,
        conviction == Dec::whole(0) ==> 2 * r.at_scale(28) == pow10(28),
        conviction == Dec::whole(1) ==> r.at_scale(28) == pow10(28),
{
    lemma_of(0, 0);
    lemma_of(1, 0);
    assert(pow10(28) == 10 * pow10(27));
    assert(0 * pow10(28) == 0);
}

/// What multiplying a conviction by one half and adding it to one half comes to.
proof fn lemma_strength(c: Dec, p: Option<Dec>, r: Option<Dec>)
    requires
        is_share(c),
        crate::decimal::product_facts(Dec::of(5, 1), c, p),
        p is Some ==> crate::decimal::sum_facts(Dec::of(5, 1), p->0, r),
    ensures
        p is Some,
        r is Some,
        is_graded_strength(c, r->0),
{
    crate::decimal::lemma_wf(c);
    lemma_of(5, 1);
    lemma_of(0, 0);
    lemma_pow10_max();
    let big = MAX_SCALE as nat;
    let t = pow10(big);
    let up = pow10((big - c.s()) as nat);
    lemma_pow10_bounded(c.s());
    lemma_pow10_bounded((big - c.s()) as nat);
    assert(pow10(big) == 10 * pow10(27));
    let floor = Dec::of(5, 1);
    assert(floor.at_scale(big) == 5 * pow10(27));
    let v = c.at_scale(big);
    let low = pow10(c.s());
    assert(c.m() <= low) by (nonlinear_arith)
        requires
            c.m() * up <= t,
            low * up == t,
            up >= 1,
    ;
    let s = 1 + c.s();
    if c.m() == 0 {
        assert(v == 0) by (nonlinear_arith)
            requires
                c.m() == 0,
                v == c.m() * up,
        ;
        assert(r == Some(floor));
    } else if s <= big {
        // The product is exact, and so is the sum.
        let m = 5 * c.m();
        lemma_of(m, s);
        assert(p == Some(Dec::of(m, s)));
        assert(pow10(s) == 10 * low);
        lemma_pow10_bounded(s);
        let half = 5 * low;
        assert(floor.at_scale(s) == half);
        assert(pow10(0) == 1);
        assert(Dec::of(m, s).at_scale(s) == m);
        assert(r == Some(Dec::of(half + m, s)));
        lemma_of(half + m, s);
        let up2 = pow10((big - s) as nat);
        assert(up == 10 * up2);
        assert((half + m) * up2 == 5 * pow10(27) + 5 * c.m() * up2) by (nonlinear_arith)
            requires
                half == 5 * low,
                m == 5 * c.m(),
                low * up == 10 * pow10(27),
                up == 10 * up2,
        ;
        assert(v == 10 * (c.m() * up2)) by (nonlinear_arith)
            requires
                v == c.m() * up,
                up == 10 * up2,
        ;
        assert(5 * c.m() * up2 == 5 * (c.m() * up2)) by (nonlinear_arith);
    } else {
        assert(c.s() == big);
        assert(pow10(0) == 1);
        assert(pow10(1) == 10) by {
            reveal_with_fuel(pow10, 2);
        }
        assert(v == c.m()) by (nonlinear_arith)
            requires
                v == c.m() * up,
                up == 1,
        ;
        let x = p->0;
        crate::decimal::lemma_wf(x);
        let ten = pow10((s - big) as nat);
        assert(ten == 10);
        assert(x.m() * ten == 10 * x.m()) by (nonlinear_arith)
            requires
                ten == 10,
        ;
        if x.m() == 0 {
            assert(r == Some(floor));
        } else {
            assert(x.s() == big);
            let one = pow10((big - x.s()) as nat);
            assert(x.at_scale(big) == x.m()) by (nonlinear_arith)
                requires
                    x.at_scale(big) == x.m() * one,
                    one == 1,
            ;
            assert(x.m() <= 5 * pow10(27));
            assert(r == Some(Dec::of(5 * pow10(27) + x.m(), big)));
            let sum = Dec::of(5 * pow10(27) + x.m(), big);
            lemma_of(5 * pow10(27) + x.m(), big);
            assert(sum.at_scale(big) == sum.m()) by (nonlinear_arith)
                requires
                    sum.at_scale(big) == sum.m() * one,
                    one == 1,
            ;
        }
    }
}

// ---- positions and decisions ---------------------------------------------------------------------

/// The exit genes.
#[derive(Debug, Clone, Copy, PartialEq, Eq, Structural)]
pub struct ExitParams {
    /// A position is closed once it has been held for this many bars.
    pub max_holding_bars: u16,
    /// Whether a position is closed when the opposite bank fires.
    pub exit_on_opposite: bool,
}

/// The risk genes.
#[derive(Debug, Clone, Copy, PartialEq, Eq, Structural)]
pub struct RiskParams {
    /// The target notional in basis points of the allowed capital, from 1 to [`MAX_SIZE_BPS`].
    pub size_bps: u16,
}

/// The position that a decision is asked about.
#[derive(Debug, Clone, Copy, PartialEq, Eq, Structural)]
pub struct PositionState {
    /// The direction held; `None` when flat.
    pub dir: Option<Direction>,
    /// How many bars the position has been held, 0 on the bar of the entry.
    pub bars_held: u16,
}

/// What a genome says to one bar.
#[derive(Debug, Clone, Copy, PartialEq, Eq, Structural)]
pub enum Decision {
    /// Do nothing.
    Hold,
    /// Open a position.
    Enter(Direction),
    /// Close the position.
    Exit,
}

impl PositionState {
    /// A flat position.
    pub open spec fn nothing() -> PositionState {
        PositionState { dir: None, bars_held: 0 }
    }

    /// The position one bar later, given the decision taken.
    pub open spec fn advanced(self, decision: Decision) -> PositionState {
        match decision {
            Decision::Enter(dir) => PositionState { dir: Some(dir), bars_held: 0 },
            Decision::Exit => PositionState::nothing(),
            Decision::Hold => match self.dir {
                Some(dir) => PositionState {
                    dir: Some(dir),
                    bars_held: (self.bars_held + 1) as u16,
                },
                None => PositionState::nothing(),
            },
        }
    }

    /// A flat position.
    pub fn flat() -> (r: PositionState)
        ensures
            r == PositionState::nothing(),
    {
        PositionState { dir: None, bars_held: 0 }
    }

    /// A position held for some bars.
    pub fn held(dir: Direction, bars_held: u16) -> (r: PositionState)
        ensures
            r == (PositionState { dir: Some(dir), bars_held }),
    {
        PositionState { dir: Some(dir), bars_held }
    }

    /// The position one bar later, given the decision taken on this one.
    pub fn advance(self, decision: Decision) -> (r: PositionState)
        requires
            decision == Decision::Hold && self.dir is Some ==> self.bars_held < u16::MAX,
        ensures
            r == self.advanced(decision),
    {
        match decision {
            Decision::Enter(dir) => PositionState::held(dir, 0),
            Decision::Exit => PositionState::flat(),
            Decision::Hold => match self.dir {
                Some(dir) => PositionState::held(dir, self.bars_held + 1),
                None => PositionState::flat(),
            },
        }
    }
}

// ---- the genome ----------------------------------------------------------------------------------

/// A strategy genome: an entry bank per direction, exit genes and risk genes.
#[derive(Debug, Clone, Copy, PartialEq, Eq)]
pub struct Genome {
    /// The version of the representation.
    pub version: u16,
    /// The bank that permits a long entry.
    pub long_entry: RuleSet,
    /// The bank that permits a short entry.
    pub short_entry: RuleSet,
    /// The exit genes.
    pub exit: ExitParams,
    /// The risk genes.
    pub risk: RiskParams,
}

/// What a [`Genome`] holds.
#[verifier::ext_equal]
pub struct GenomeModel {
    /// The version of the representation.
    pub version: u16,
    /// The bank that permits a long entry.
    pub long_entry: BankModel,
    /// The bank that permits a short entry.
    pub short_entry: BankModel,
    /// The exit genes.
    pub exit: ExitParams,
    /// The risk genes.
    pub risk: RiskParams,
}

impl View for Genome {
    type V = GenomeModel;

    open spec fn view(&self) -> GenomeModel {
        GenomeModel {
            version: self.version,
            long_entry: self.long_entry@,
            short_entry: self.short_entry@,
            exit: self.exit,
            risk: self.risk,
        }
    }
}

/// Whether a bank's genes are in their domain. Without any feature there is no bound on the clauses.
pub open spec fn bank_is_valid(bank: BankModel, schema: SchemaModel) -> bool {
    &&& 1 <= bank.min_satisfied <= CLAUSES_PER_SET
    &&& schema.ids.len() > 0 ==> forall|i: int|
        0 <= i < bank.clauses.len() ==> {
            let c = #[trigger] bank.clauses[i];
            c.feature < schema.ids.len() && c.hi < schema.num_states && c.lo <= c.hi
        }
}

/// A clause with every gene brought into its domain.
pub open spec fn repaired_clause(c: Clause, schema: SchemaModel) -> Clause {
    let max_feature = ((schema.ids.len() - 1) % 0x1_0000) as u16;
    let max_state = (schema.num_states - 1) as u16;
    let hi = if c.hi > max_state {
        max_state
    } else {
        c.hi
    };
    Clause {
        enabled: c.enabled,
        feature: if c.feature > max_feature {
            max_feature
        } else {
            c.feature
        },
        lo: if c.lo > hi {
            hi
        } else {
            c.lo
        },
        hi,
    }
}

/// A bank with every gene brought into its domain.
pub open spec fn repaired_bank(bank: BankModel, schema: SchemaModel) -> BankModel {
    BankModel {
        clauses: if schema.ids.len() == 0 {
            bank.clauses
        } else {
            Seq::new(bank.clauses.len(), |i: int| repaired_clause(bank.clauses[i], schema))
        },
        min_satisfied: clamped(bank.min_satisfied as int, 1, CLAUSES_PER_SET as int) as u8,
    }
}

impl GenomeModel {
    /// The bank that permits an entry in a direction.
    pub open spec fn bank(self, dir: Direction) -> BankModel {
        match dir {
            Direction::Long => self.long_entry,
            Direction::Short => self.short_entry,
        }
    }

    /// The bank of the opposite direction.
    pub open spec fn opposite_bank(self, dir: Direction) -> BankModel {
        match dir {
            Direction::Long => self.short_entry,
            Direction::Short => self.long_entry,
        }
    }

    /// The decision. When flat, one bank firing alone is an entry in its direction. When a position is
    /// held, it is closed at the holding cap, and where the genome says so when the opposite bank
    /// fires.
    pub open spec fn decision(
        self,
        states: Seq<Option<QState>>,
        position: PositionState,
    ) -> Decision {
        match position.dir {
            None => {
                let long = self.long_entry.fires(states);
                let short = self.short_entry.fires(states);
                if long && !short {
                    Decision::Enter(Direction::Long)
                } else if short && !long {
                    Decision::Enter(Direction::Short)
                } else {
                    Decision::Hold
                }
            },
            Some(dir) => {
                if position.bars_held >= self.exit.max_holding_bars {
                    Decision::Exit
                } else if self.exit.exit_on_opposite && self.opposite_bank(dir).fires(states) {
                    Decision::Exit
                } else {
                    Decision::Hold
                }
            },
        }
    }

    /// Whether every gene is in its domain.
    pub open spec fn is_valid(self, schema: SchemaModel) -> bool {
        &&& 1 <= self.risk.size_bps <= MAX_SIZE_BPS
        &&& self.exit.max_holding_bars >= 1
        &&& bank_is_valid(self.long_entry, schema)
        &&& bank_is_valid(self.short_entry, schema)
    }

    /// The genome with every gene brought into its domain.
    pub open spec fn repaired(self, schema: SchemaModel) -> GenomeModel {
        GenomeModel {
            version: REP_VERSION,
            long_entry: repaired_bank(self.long_entry, schema),
            short_entry: repaired_bank(self.short_entry, schema),
            exit: ExitParams {
                max_holding_bars: if self.exit.max_holding_bars == 0 {
                    1
                } else {
                    self.exit.max_holding_bars
                },
                exit_on_opposite: self.exit.exit_on_opposite,
            },
            risk: RiskParams {
                size_bps: clamped(self.risk.size_bps as int, 1, MAX_SIZE_BPS as int) as u16,
            },
        }
    }

    /// The features that enabled clauses refer to.
    pub open spec fn features(self) -> Set<u16> {
        Set::new(
            |f: u16|
                refers_to(self.long_entry.clauses, f) || refers_to(self.short_entry.clauses, f),
        )
    }
}

/// Whether an enabled clause refers to a feature.
pub open spec fn refers_to(clauses: Seq<Clause>, feature: u16) -> bool {
    exists|i: int|
        0 <= i < clauses.len() && (#[trigger] clauses[i]).enabled && clauses[i].feature == feature
}

/// Repairing a genome makes it valid, and repairing it again changes nothing.
pub proof fn law_repair_is_valid_and_idempotent(g: GenomeModel, schema: SchemaModel)
    requires
        schema.num_states >= 1,
    ensures
        g.repaired(schema).is_valid(schema),
        g.repaired(schema).repaired(schema) == g.repaired(schema),
{
    let once = g.repaired(schema);
    let twice = once.repaired(schema);
    assert(twice.long_entry.clauses =~= once.long_entry.clauses);
    assert(twice.short_entry.clauses =~= once.short_entry.clauses);
}

/// A valid genome of the current version is left as it is, for a schema of at most 65536 features.
pub proof fn law_repair_keeps_valid_genomes(g: GenomeModel, schema: SchemaModel)
    requires
        g.is_valid(schema),
        g.version == REP_VERSION,
        schema.ids.len() <= 0x1_0000,
    ensures
        g.repaired(schema) == g,
{
    let once = g.repaired(schema);
    assert(once.long_entry.clauses =~= g.long_entry.clauses);
    assert(once.short_entry.clauses =~= g.short_entry.clauses);
}

/// A decision fits the position: an entry comes only when flat, an exit only when a position is held.
/// If both banks fire, or neither, there is no entry.
pub proof fn law_decision_fits_position(
    g: GenomeModel,
    states: Seq<Option<QState>>,
    position: PositionState,
)
    ensures
        position.dir is None ==> g.decision(states, position) != Decision::Exit,
        position.dir is Some ==> !(g.decision(states, position) is Enter),
        position.dir is None && g.long_entry.fires(states) == g.short_entry.fires(states)
            ==> g.decision(states, position) == Decision::Hold,
{
}

/// A flat position is opened in the direction whose bank fires alone. A held one is closed at its holding
/// cap. Below the cap it is closed only where the genome exits on the opposite signal: a long exactly if
/// the short bank fires, and a short exactly if the long bank fires.
pub proof fn law_decision_follows_the_banks(
    g: GenomeModel,
    states: Seq<Option<QState>>,
    position: PositionState,
)
    ensures
        position.dir is None ==> {
            &&& g.decision(states, position) == Decision::Enter(Direction::Long)
                <==> g.long_entry.fires(states) && !g.short_entry.fires(states)
            &&& g.decision(states, position) == Decision::Enter(Direction::Short)
                <==> g.short_entry.fires(states) && !g.long_entry.fires(states)
        },
        position.dir is Some && position.bars_held >= g.exit.max_holding_bars ==> g.decision(
            states,
            position,
        ) == Decision::Exit,
        position.dir is Some && position.bars_held < g.exit.max_holding_bars
            && !g.exit.exit_on_opposite ==> g.decision(states, position) == Decision::Hold,
        position.dir == Some(Direction::Long) && position.bars_held < g.exit.max_holding_bars
            && g.exit.exit_on_opposite ==> g.decision(states, position) == (
        if g.short_entry.fires(states) {
            Decision::Exit
        } else {
            Decision::Hold
        }),
        position.dir == Some(Direction::Short) && position.bars_held < g.exit.max_holding_bars
            && g.exit.exit_on_opposite ==> g.decision(states, position) == (
        if g.long_entry.fires(states) {
            Decision::Exit
        } else {
            Decision::Hold
        }),
{
}

/// The two directions are treated alike: with the banks exchanged and the held direction turned, the
/// decision is the same, an entry turned with them.
pub proof fn law_directions_are_symmetric(
    g: GenomeModel,
    states: Seq<Option<QState>>,
    bars_held: u16,
)
    ensures
        ({
            let turned = GenomeModel { long_entry: g.short_entry, short_entry: g.long_entry, ..g };
            let flat = PositionState { dir: None, bars_held };
            let long = PositionState { dir: Some(Direction::Long), bars_held };
            let short = PositionState { dir: Some(Direction::Short), bars_held };
            &&& g.decision(states, long) == turned.decision(states, short)
            &&& g.decision(states, short) == turned.decision(states, long)
            &&& g.decision(states, flat) == Decision::Enter(Direction::Long) <==> turned.decision(
                states,
                flat,
            ) == Decision::Enter(Direction::Short)
            &&& g.decision(states, flat) == Decision::Hold <==> turned.decision(states, flat)
                == Decision::Hold
            &&& g.bank(Direction::Long) == turned.bank(Direction::Short)
            &&& g.bank(Direction::Short) == turned.bank(Direction::Long)
            &&& g.bank(Direction::Long) == g.long_entry
        }),
{
}

/// A position moves on by the decision: an entry starts one at its first bar, an exit ends it, and holding
/// one adds a bar and keeps its direction; a flat one stays flat while held.
pub proof fn law_position_moves_on(position: PositionState, decision: Decision)
    ensures
        decision matches Decision::Enter(dir) ==> position.advanced(decision).dir == Some(dir)
            && position.advanced(decision).bars_held == 0,
        decision == Decision::Exit ==> position.advanced(decision).dir is None && position.advanced(
            decision,
        ).bars_held == 0,
        decision == Decision::Hold ==> position.advanced(decision).dir == position.dir,
        decision == Decision::Hold && position.dir is Some && position.bars_held < u16::MAX
            ==> position.advanced(decision).bars_held == position.bars_held + 1,
        decision == Decision::Hold && position.dir is None ==> position.advanced(decision).bars_held
            == 0,
        PositionState::nothing().dir is None && PositionState::nothing().bars_held == 0,
{
}

/// Repairing takes every gene to the nearest value in its domain and leaves every other gene alone.
pub proof fn law_repair_takes_the_nearest(g: GenomeModel, schema: SchemaModel, i: int, long: bool)
    requires
        1 <= schema.num_states,
        0 < schema.ids.len() <= 0x1_0000,
        0 <= i < g.long_entry.clauses.len(),
        0 <= i < g.short_entry.clauses.len(),
    ensures
        ({
            let r = g.repaired(schema);
            let was = if long {
                g.long_entry
            } else {
                g.short_entry
            };
            let is = if long {
                r.long_entry
            } else {
                r.short_entry
            };
            let c = was.clauses[i];
            let d = is.clauses[i];
            &&& is.clauses.len() == was.clauses.len()
            &&& d.enabled == c.enabled
            &&& c.feature < schema.ids.len() ==> d.feature == c.feature
            &&& c.feature >= schema.ids.len() ==> d.feature == schema.ids.len() - 1
            &&& c.hi < schema.num_states ==> d.hi == c.hi
            &&& c.hi >= schema.num_states ==> d.hi == schema.num_states - 1
            &&& c.lo <= d.hi ==> d.lo == c.lo
            &&& c.lo > d.hi ==> d.lo == d.hi
            &&& was.min_satisfied == 0 ==> is.min_satisfied == 1
            &&& 1 <= was.min_satisfied <= 4 ==> is.min_satisfied == was.min_satisfied
            &&& was.min_satisfied > 4 ==> is.min_satisfied == 4
            &&& r.version == REP_VERSION
            &&& g.risk.size_bps == 0 ==> r.risk.size_bps == 1
            &&& 1 <= g.risk.size_bps <= 10_000 ==> r.risk.size_bps == g.risk.size_bps
            &&& g.risk.size_bps > 10_000 ==> r.risk.size_bps == 10_000
            &&& g.exit.max_holding_bars == 0 ==> r.exit.max_holding_bars == 1
            &&& g.exit.max_holding_bars > 0 ==> r.exit.max_holding_bars == g.exit.max_holding_bars
            &&& r.exit.exit_on_opposite == g.exit.exit_on_opposite
        }),
{
}

/// A genome refers to a feature exactly if an enabled clause of either bank reads it.
pub proof fn law_features_are_those_read(g: GenomeModel, f: u16)
    ensures
        g.features().contains(f) <==> (exists|i: int|
            0 <= i < g.long_entry.clauses.len() && (#[trigger] g.long_entry.clauses[i]).enabled
                && g.long_entry.clauses[i].feature == f) || (exists|i: int|
            0 <= i < g.short_entry.clauses.len() && (#[trigger] g.short_entry.clauses[i]).enabled
                && g.short_entry.clauses[i].feature == f),
{
}

/// No position outlives the holding cap: advancing by the genome's own decision keeps `bars_held`
/// within `max_holding_bars`.
pub proof fn law_position_stays_within_cap(
    g: GenomeModel,
    states: Seq<Option<QState>>,
    position: PositionState,
)
    requires
        position.dir is Some ==> position.bars_held <= g.exit.max_holding_bars,
    ensures
        ({
            let next = position.advanced(g.decision(states, position));
            next.dir is Some ==> next.bars_held <= g.exit.max_holding_bars
        }),
{
}

/// A genome refers to no more features than it has clauses.
proof fn lemma_features_bounded(g: GenomeModel)
    requires
        g.long_entry.clauses.len() == CLAUSES_PER_SET,
        g.short_entry.clauses.len() == CLAUSES_PER_SET,
    ensures
        g.features().finite(),
        g.features().len() <= 2 * CLAUSES_PER_SET,
{
    let named = Seq::new(
        8,
        |i: int|
            if i < 4 {
                g.long_entry.clauses[i].feature
            } else {
                g.short_entry.clauses[i - 4].feature
            },
    );
    named.lemma_cardinality_of_set();
    vstd::seq_lib::seq_to_set_is_finite(named);
    assert forall|f: u16| g.features().contains(f) implies named.to_set().contains(f) by {
        if refers_to(g.long_entry.clauses, f) {
            let i = choose|i: int|
                0 <= i < g.long_entry.clauses.len() && (
                #[trigger] g.long_entry.clauses[i]).enabled && g.long_entry.clauses[i].feature == f;
            assert(named[i] == f);
        } else {
            let i = choose|i: int|
                0 <= i < g.short_entry.clauses.len() && (
                #[trigger] g.short_entry.clauses[i]).enabled && g.short_entry.clauses[i].feature
                    == f;
            assert(named[i + 4] == f);
        }
    }
    vstd::set_lib::lemma_len_subset(g.features(), named.to_set());
}

/// Whether a bank's genes are in their domain.
fn bank_fits(bank: &RuleSet, schema: &FeatureSchema) -> (r: bool)
    ensures
        r == bank_is_valid(bank@, schema@),
{
    let wanted: usize = bank.min_satisfied as usize;
    if wanted < 1 || wanted > CLAUSES_PER_SET {
        return false;
    }
    let len: usize = schema.len();
    let num_states: u16 = schema.num_states();
    if len == 0 {
        return true;
    }
    let mut i: usize = 0;
    while i < CLAUSES_PER_SET
        invariant
            i <= CLAUSES_PER_SET,
            len == schema@.ids.len() > 0,
            num_states == schema@.num_states,
            forall|j: int|
                0 <= j < i ==> {
                    let c = #[trigger] bank@.clauses[j];
                    c.feature < len && c.hi < num_states && c.lo <= c.hi
                },
        decreases CLAUSES_PER_SET - i,
    {
        let c: Clause = bank.clauses[i];
        assert(c == bank@.clauses[i as int]);
        if c.feature as usize >= len || c.hi >= num_states || c.lo > c.hi {
            return false;
        }
        i = i + 1;
    }
    true
}

/// A clause with every gene brought into its domain.
fn repair_clause(c: Clause, schema: &FeatureSchema) -> (r: Clause)
    requires
        schema@.ids.len() > 0,
    ensures
        r == repaired_clause(c, schema@),
{
    let max_feature: u16 = ((schema.len() - 1) % 0x1_0000) as u16;
    let max_state: u16 = schema.num_states() - 1;
    let hi: u16 = if c.hi > max_state {
        max_state
    } else {
        c.hi
    };
    Clause {
        enabled: c.enabled,
        feature: if c.feature > max_feature {
            max_feature
        } else {
            c.feature
        },
        lo: if c.lo > hi {
            hi
        } else {
            c.lo
        },
        hi,
    }
}

/// A bank with every gene brought into its domain.
fn repair_bank(bank: &RuleSet, schema: &FeatureSchema) -> (r: RuleSet)
    ensures
        r@ == repaired_bank(bank@, schema@),
{
    let min_satisfied: u8 = if bank.min_satisfied < 1 {
        1
    } else if bank.min_satisfied > 4 {
        4
    } else {
        bank.min_satisfied
    };
    let clauses: [Clause; CLAUSES_PER_SET] = if schema.len() == 0 {
        bank.clauses
    } else {
        [
            repair_clause(bank.clauses[0], schema),
            repair_clause(bank.clauses[1], schema),
            repair_clause(bank.clauses[2], schema),
            repair_clause(bank.clauses[3], schema),
        ]
    };
    let r = RuleSet { clauses, min_satisfied };
    assert(r@.clauses =~= repaired_bank(bank@, schema@).clauses);
    r
}

/// Which features one more clause adds.
proof fn lemma_one_more_clause(clauses: Seq<Clause>, c: Clause, f: u16)
    ensures
        refers_to(clauses.push(c), f) == (refers_to(clauses, f) || (c.enabled && c.feature == f)),
{
    let longer = clauses.push(c);
    if refers_to(clauses, f) {
        let i = choose|i: int|
            0 <= i < clauses.len() && (#[trigger] clauses[i]).enabled && clauses[i].feature == f;
        assert(longer[i] == clauses[i]);
    }
    assert(longer[clauses.len() as int] == c);
    if refers_to(longer, f) {
        let i = choose|i: int|
            0 <= i < longer.len() && (#[trigger] longer[i]).enabled && longer[i].feature == f;
        if i < clauses.len() {
            assert(clauses[i] == longer[i]);
        }
    }
}

/// Adds the features that a bank's enabled clauses refer to.
fn add_features(out: &mut BTreeSet<u16>, bank: &RuleSet)
    ensures
        final(out)@ == old(out)@.union(Set::new(|f: u16| refers_to(bank@.clauses, f))),
{
    let ghost before = out@;
    let ghost all = bank@.clauses;
    let mut i: usize = 0;
    assert(out@ =~= before.union(Set::new(|f: u16| refers_to(all.take(0), f))));
    while i < CLAUSES_PER_SET
        invariant
            i <= CLAUSES_PER_SET,
            all == bank@.clauses,
            out@ == before.union(Set::new(|f: u16| refers_to(all.take(i as int), f))),
        decreases CLAUSES_PER_SET - i,
    {
        let c: Clause = bank.clauses[i];
        let ghost here = out@;
        if c.enabled {
            out.insert(c.feature);
        }
        proof {
            let next = all.take(i + 1);
            assert(next =~= all.take(i as int).push(c));
            assert forall|f: u16|
                out@.contains(f) == before.union(
                    Set::new(|g: u16| refers_to(next, g)),
                ).contains(f) by {
                lemma_one_more_clause(all.take(i as int), c, f);
            }
            assert(out@ =~= before.union(Set::new(|f: u16| refers_to(next, f))));
        }
        i = i + 1;
    }
    assert(all.take(i as int) =~= all);
}

impl Genome {
    /// Decides what to do on a bar, given its features and the current position.
    pub fn decide(&self, features: &FeatureVector, position: PositionState) -> (r: Decision)
        ensures
            r == self@.decision(features.states@, position),
    {
        match position.dir {
            None => {
                let long: bool = self.long_entry.fires(features);
                let short: bool = self.short_entry.fires(features);
                if long && !short {
                    Decision::Enter(Direction::Long)
                } else if short && !long {
                    Decision::Enter(Direction::Short)
                } else {
                    Decision::Hold
                }
            },
            Some(dir) => {
                if position.bars_held >= self.exit.max_holding_bars {
                    return Decision::Exit;
                }
                if self.exit.exit_on_opposite {
                    let fires: bool = match dir {
                        Direction::Long => self.short_entry.fires(features),
                        Direction::Short => self.long_entry.fires(features),
                    };
                    if fires {
                        return Decision::Exit;
                    }
                }
                Decision::Hold
            },
        }
    }

    /// The graded conviction of the bank that permits an entry in `dir`, in `[0, 1]`.
    pub fn entry_conviction(&self, features: &FeatureVector, dir: Direction) -> (r: Dec)
        ensures
            conviction_of(self@.bank(dir), features.states@) == Some(r),
            conviction_facts(self@.bank(dir), features.states@, r),
    {
        match dir {
            Direction::Long => self.long_entry.graded_conviction(features),
            Direction::Short => self.short_entry.graded_conviction(features),
        }
    }

    /// The graded entry strength for an entry in `dir`, in `[0.5, 1]`: the floor, and the rest in
    /// proportion to the bank's conviction.
    pub fn entry_strength(&self, features: &FeatureVector, dir: Direction) -> (r: Dec)
        ensures
            conviction_of(self@.bank(dir), features.states@) matches Some(c) && strength_of(c)
                == Some(r) && conviction_facts(self@.bank(dir), features.states@, c)
                && is_graded_strength(c, r),
            !dec_lt(r, strength_floor()),
            !dec_lt(Dec::whole(1), r),
    {
        let floor: Dec = graded_strength_floor();
        let conviction: Dec = self.entry_conviction(features, dir);
        proof {
            let bank = self@.bank(dir);
            let num = contribution_total(bank.clauses, features.states@);
            let den = cap_total(bank.clauses);
            lemma_bank_totals(bank.clauses, features.states@);
            assert(bank.clauses.len() == 4);
            if den > 0 {
                lemma_share_bounds(num, den, conviction);
            } else {
                lemma_of(0, 0);
                lemma_pow10_max();
            }
            lemma_of(5, 1);
            lemma_of(1, 0);
            assert(pow10(0) == 1 && pow10(1) == 10) by {
                reveal_with_fuel(pow10, 2);
            }
        }
        let rest: Option<Dec> = subtract_results(Some(Dec::from_int(1)), Some(floor));
        assert(rest == Some(Dec::of(5, 1)));
        let share: Option<Dec> = multiply_results(rest, Some(conviction));
        let r: Option<Dec> = add_results(Some(floor), share);
        proof {
            lemma_strength(conviction, share, r);
            lemma_pow10_max();
            assert(pow10(MAX_SCALE as nat) == 10 * pow10(27));
            lemma_lt_at_max_scale(r->0, strength_floor());
            lemma_lt_at_max_scale(Dec::whole(1), r->0);
        }
        match r {
            Some(x) => x,
            None => floor,
        }
    }

    /// Whether every gene is in its domain for `schema`.
    pub fn is_valid(&self, schema: &FeatureSchema) -> (r: bool)
        ensures
            r == self@.is_valid(schema@),
    {
        self.risk.size_bps >= 1 && self.risk.size_bps <= MAX_SIZE_BPS
            && self.exit.max_holding_bars != 0 && bank_fits(&self.long_entry, schema) && bank_fits(
            &self.short_entry,
            schema,
        )
    }

    /// Brings every gene into its domain for `schema`, and the version to [`REP_VERSION`].
    pub fn repair(&mut self, schema: &FeatureSchema)
        ensures
            final(self)@ == old(self)@.repaired(schema@),
            final(self)@.is_valid(schema@),
    {
        let ghost before = self@;
        let num_states: u16 = schema.num_states();
        proof {
            law_repair_is_valid_and_idempotent(before, schema@);
        }
        self.version = REP_VERSION;
        if self.risk.size_bps < 1 {
            self.risk.size_bps = 1;
        } else if self.risk.size_bps > MAX_SIZE_BPS {
            self.risk.size_bps = MAX_SIZE_BPS;
        }
        if self.exit.max_holding_bars == 0 {
            self.exit.max_holding_bars = 1;
        }
        self.long_entry = repair_bank(&self.long_entry, schema);
        self.short_entry = repair_bank(&self.short_entry, schema);
        assert(self@ =~= before.repaired(schema@));
    }

    /// The features that enabled clauses of either bank refer to.
    pub fn referenced_features(&self) -> (r: BTreeSet<u16>)
        ensures
            r@ == self@.features(),
    {
        let mut out: BTreeSet<u16> = BTreeSet::new();
        add_features(&mut out, &self.long_entry);
        add_features(&mut out, &self.short_entry);
        assert(out@ =~= self@.features());
        out
    }

    /// A measure of complexity: the number of enabled clauses, and the number of distinct features
    /// they refer to.
    pub fn mdl_complexity(&self) -> (r: u32)
        ensures
            r == enabled_count(self@.long_entry.clauses) + enabled_count(self@.short_entry.clauses)
                + self@.features().len(),
    {
        let enabled: usize = self.long_entry.active_count() + self.short_entry.active_count();
        let distinct: usize = self.referenced_features().len();
        proof {
            lemma_features_bounded(self@);
        }
        (enabled + distinct) as u32
    }
}

} // verus!
