//! The figures the promotion of a vintage was decided on, carried in the artefact so that nothing
//! downstream computes them again.

use vstd::prelude::*;

use crate::vintage::figure::{option_figures, refill, refill_option, Figure};

verus! {

/// The spread of out-of-sample results over the held-out paths of a cross-validation.
#[derive(Debug, Clone, PartialEq, Eq, Default)]
pub struct CpcvSummary {
    /// The number of blocks the series was split into.
    pub blocks: u32,
    /// The number of held-out paths.
    pub n_paths: u32,
    /// The median Sharpe ratio.
    pub median_sharpe: Figure,
    /// The lower quartile of the Sharpe ratios.
    pub sharpe_iqr_lo: Figure,
    /// The upper quartile of the Sharpe ratios.
    pub sharpe_iqr_hi: Figure,
    /// The fifth percentile of the Sharpe ratios.
    pub sharpe_p05: Figure,
    /// The ninety-fifth percentile of the Sharpe ratios.
    pub sharpe_p95: Figure,
    /// The median deflated Sharpe ratio.
    pub median_dsr: Figure,
    /// The fifth percentile of the deflated Sharpe ratios, on which the promotion is decided.
    pub dsr_p05: Figure,
    /// The share of paths whose deflated Sharpe ratio reaches the floor.
    pub frac_dsr_ge_floor: Figure,
    /// The Sharpe ratio of each path.
    pub path_sharpes: Vec<Figure>,
    /// The deflated Sharpe ratio of each path.
    pub path_dsrs: Vec<Figure>,
}

/// One criterion of the promotion, with the threshold it was judged against.
#[derive(Debug, Clone, PartialEq, Eq, Default)]
pub struct SealedCriterion {
    /// The criterion.
    pub name: String,
    /// Whether it was met.
    pub passed: bool,
    /// The value that was judged.
    pub value: Figure,
    /// The threshold it was judged against.
    pub threshold: Figure,
}

/// Whether to promote, and why.
#[derive(Debug, Clone, PartialEq, Eq, Default)]
pub struct PromotionVerdict {
    /// Whether every criterion was met.
    pub promoted: bool,
    /// The criteria in the order in which they were judged.
    pub criteria: Vec<SealedCriterion>,
}

/// The returns of the deployed ensemble over the holdout, net of costs.
#[derive(Debug, Clone, PartialEq, Eq, Default)]
pub struct HoldoutReturnSeries {
    /// One return for each bar.
    pub returns: Vec<Figure>,
}

/// The figures the promotion of a vintage was decided on.
#[derive(Debug, Clone, PartialEq, Eq, Default)]
pub struct SealEvidence {
    /// The deflated Sharpe ratio.
    pub dsr: Figure,
    /// The probability of overfitting.
    pub pbo: Figure,
    /// The data-snooping p-value.
    pub spa_pvalue: Figure,
    /// The number of trials the ratio was deflated against.
    pub n_trials: u64,
    /// The turnover of the deployed ensemble.
    pub realised_turnover: Figure,
    /// The capital the deployed ensemble can carry.
    pub capacity_usd: Figure,
    /// The lesser of the net results under single and double costs, where they were stressed.
    pub cost_stress_net_min: Option<Figure>,
    /// The probability of overfitting over every candidate, where a search reported it.
    pub uncensored_pbo: Option<Figure>,
    /// The information coefficient, where factors were screened.
    pub ic: Option<Figure>,
    /// The false-discovery level, where factors were screened.
    pub fdr: Option<Figure>,
    /// The spread over held-out paths, where there was a cross-validation.
    pub cpcv: Option<CpcvSummary>,
    /// The verdict, where one was sealed.
    pub promotion: Option<PromotionVerdict>,
}

impl SealEvidence {
    /// Whether a verdict was sealed and it is to promote. A vintage without a verdict is not promoted.
    pub open spec fn promoted(self) -> bool {
        self.promotion matches Some(verdict) && verdict.promoted
    }

    /// Whether a verdict was sealed and it is to promote.
    pub fn is_promoted(&self) -> (r: bool)
        ensures
            r == self.promoted(),
    {
        match &self.promotion {
            Some(verdict) => verdict.promoted,
            None => false,
        }
    }
}

/// A figure and the name it goes by.
pub type Named = (Seq<char>, Figure);

/// Figures that go by one name.
pub open spec fn all_named(name: Seq<char>, figures: Seq<Figure>) -> Seq<Named> {
    Seq::new(figures.len(), |i: int| (name, figures[i]))
}

/// An optional figure under a name.
pub open spec fn option_named(name: Seq<char>, o: Option<Figure>) -> Seq<Named> {
    match o {
        Some(f) => seq![(name, f)],
        None => Seq::empty(),
    }
}

/// The single figures of a cross-validation summary.
pub open spec fn summary_fields(c: CpcvSummary) -> Seq<Named> {
    seq![
        ("cpcv.median_sharpe"@, c.median_sharpe),
        ("cpcv.sharpe_iqr_lo"@, c.sharpe_iqr_lo),
        ("cpcv.sharpe_iqr_hi"@, c.sharpe_iqr_hi),
        ("cpcv.sharpe_p05"@, c.sharpe_p05),
        ("cpcv.sharpe_p95"@, c.sharpe_p95),
        ("cpcv.median_dsr"@, c.median_dsr),
        ("cpcv.dsr_p05"@, c.dsr_p05),
        ("cpcv.frac_dsr_ge_floor"@, c.frac_dsr_ge_floor),
    ]
}

/// Every figure of a cross-validation summary.
pub open spec fn cpcv_fields(c: CpcvSummary) -> Seq<Named> {
    summary_fields(c) + all_named("cpcv.path_sharpes"@, c.path_sharpes@) + all_named(
        "cpcv.path_dsrs"@,
        c.path_dsrs@,
    )
}

/// The figures of some criteria: of each its value, then its threshold.
pub open spec fn criteria_fields(criteria: Seq<SealedCriterion>) -> Seq<Named> {
    Seq::new(
        2 * criteria.len(),
        |i: int|
            if i % 2 == 0 {
                ("promotion.value"@, criteria[i / 2].value)
            } else {
                ("promotion.threshold"@, criteria[i / 2].threshold)
            },
    )
}

/// The figures every vintage carries.
pub open spec fn scalar_fields(ev: SealEvidence) -> Seq<Named> {
    seq![
        ("dsr"@, ev.dsr),
        ("pbo"@, ev.pbo),
        ("spa_pvalue"@, ev.spa_pvalue),
        ("realised_turnover"@, ev.realised_turnover),
        ("capacity_usd"@, ev.capacity_usd),
    ]
}

/// The figures some vintages carry, in so far as this one does.
pub open spec fn optional_fields(ev: SealEvidence) -> Seq<Named> {
    option_named("cost_stress_net_min"@, ev.cost_stress_net_min) + option_named(
        "uncensored_pbo"@,
        ev.uncensored_pbo,
    ) + option_named("ic"@, ev.ic) + option_named("fdr"@, ev.fdr)
}

/// The figures of a cross-validation, if there was one.
pub open spec fn spread_fields(ev: SealEvidence) -> Seq<Named> {
    match ev.cpcv {
        Some(c) => cpcv_fields(c),
        None => Seq::empty(),
    }
}

/// The figures of a verdict, if there is one.
pub open spec fn verdict_fields(ev: SealEvidence) -> Seq<Named> {
    match ev.promotion {
        Some(verdict) => criteria_fields(verdict.criteria@),
        None => Seq::empty(),
    }
}

/// Every figure of the evidence and the name it goes by, in the order in which they are checked.
pub open spec fn evidence_fields(ev: SealEvidence) -> Seq<Named> {
    scalar_fields(ev) + optional_fields(ev) + spread_fields(ev) + verdict_fields(ev)
}

/// Figures without their names.
pub open spec fn figures_of(fields: Seq<Named>) -> Seq<Figure> {
    Seq::new(fields.len(), |i: int| fields[i].1)
}

/// A listing of named figures.
pub struct NamedFigures {
    names: Vec<&'static str>,
    figures: Vec<Figure>,
}

impl View for NamedFigures {
    type V = Seq<Named>;

    closed spec fn view(&self) -> Seq<Named> {
        Seq::new(self.names@.len(), |i: int| (self.names@[i]@, self.figures@[i]))
    }
}

impl NamedFigures {
    #[verifier::type_invariant]
    closed spec fn aligned(self) -> bool {
        self.names@.len() == self.figures@.len()
    }

    fn new() -> (r: NamedFigures)
        ensures
            r@ == Seq::<Named>::empty(),
    {
        let r = NamedFigures { names: Vec::new(), figures: Vec::new() };
        assert(r@ =~= Seq::empty());
        r
    }

    fn pushed(self, name: &'static str, figure: Figure) -> (r: NamedFigures)
        ensures
            r@ == self@.push((name@, figure)),
    {
        proof {
            use_type_invariant(&self);
        }
        let ghost before = self@;
        let NamedFigures { mut names, mut figures } = self;
        names.push(name);
        figures.push(figure);
        let r = NamedFigures { names, figures };
        assert(r@ =~= before.push((name@, figure)));
        r
    }

    fn with_all(self, name: &'static str, more: &Vec<Figure>) -> (r: NamedFigures)
        ensures
            r@ == self@ + all_named(name@, more@),
    {
        let ghost before = self@;
        let mut out: NamedFigures = self;
        let mut i: usize = 0;
        assert(out@ =~= before + all_named(name@, more@).take(0));
        while i < more.len()
            invariant
                i <= more.len(),
                out@ =~= before + all_named(name@, more@).take(i as int),
            decreases more.len() - i,
        {
            out = out.pushed(name, more[i]);
            i = i + 1;
        }
        assert(out@ =~= before + all_named(name@, more@));
        out
    }

    fn with_option(self, name: &'static str, figure: Option<Figure>) -> (r: NamedFigures)
        ensures
            r@ == self@ + option_named(name@, figure),
    {
        let ghost before = self@;
        match figure {
            Some(f) => {
                let r = self.pushed(name, f);
                assert(r@ =~= before + option_named(name@, figure));
                r
            },
            None => {
                assert(before =~= before + option_named(name@, figure));
                self
            },
        }
    }

    /// How many figures there are.
    pub fn len(&self) -> (r: usize)
        ensures
            r == self@.len(),
    {
        self.names.len()
    }

    /// The name at a position.
    pub fn name(&self, i: usize) -> (r: &'static str)
        requires
            i < self@.len(),
        ensures
            r@ == self@[i as int].0,
    {
        self.names[i]
    }

    /// The figures.
    pub fn figures(&self) -> (r: &[Figure])
        ensures
            r@ == figures_of(self@),
    {
        proof {
            use_type_invariant(self);
            assert(self.figures@ =~= figures_of(self@));
        }
        self.figures.as_slice()
    }
}

/// The figures every vintage carries.
fn list_scalars(ev: &SealEvidence) -> (r: NamedFigures)
    ensures
        r@ == scalar_fields(*ev),
{
    let out = NamedFigures::new();
    let out = out.pushed("dsr", ev.dsr);
    let out = out.pushed("pbo", ev.pbo);
    let out = out.pushed("spa_pvalue", ev.spa_pvalue);
    let out = out.pushed("realised_turnover", ev.realised_turnover);
    let out = out.pushed("capacity_usd", ev.capacity_usd);
    assert(out@ =~= scalar_fields(*ev));
    out
}

/// Lists the figures some vintages carry.
fn list_options(out: NamedFigures, ev: &SealEvidence) -> (r: NamedFigures)
    ensures
        r@ == out@ + optional_fields(*ev),
{
    let ghost a = option_named("cost_stress_net_min"@, ev.cost_stress_net_min);
    let ghost b = option_named("uncensored_pbo"@, ev.uncensored_pbo);
    let ghost c = option_named("ic"@, ev.ic);
    let ghost d = option_named("fdr"@, ev.fdr);
    let first = out.with_option("cost_stress_net_min", ev.cost_stress_net_min);
    let second = first.with_option("uncensored_pbo", ev.uncensored_pbo);
    let third = second.with_option("ic", ev.ic);
    let fourth = third.with_option("fdr", ev.fdr);
    proof {
        lemma_four_parts(out@, a, b, c, d);
    }
    fourth
}

/// Appending four parts one after the other appends the four together.
proof fn lemma_four_parts(s: Seq<Named>, a: Seq<Named>, b: Seq<Named>, c: Seq<Named>, d: Seq<Named>)
    ensures
        s + a + b + c + d == s + (a + b + c + d),
{
    assert(s + a + b + c + d =~= s + (a + b + c + d));
}

/// The single figures of a cross-validation summary.
fn list_summary(out: NamedFigures, c: &CpcvSummary) -> (r: NamedFigures)
    ensures
        r@ == out@ + summary_fields(*c),
{
    let ghost before = out@;
    let out = out.pushed("cpcv.median_sharpe", c.median_sharpe);
    let out = out.pushed("cpcv.sharpe_iqr_lo", c.sharpe_iqr_lo);
    let out = out.pushed("cpcv.sharpe_iqr_hi", c.sharpe_iqr_hi);
    let out = out.pushed("cpcv.sharpe_p05", c.sharpe_p05);
    let out = out.pushed("cpcv.sharpe_p95", c.sharpe_p95);
    let out = out.pushed("cpcv.median_dsr", c.median_dsr);
    let out = out.pushed("cpcv.dsr_p05", c.dsr_p05);
    let out = out.pushed("cpcv.frac_dsr_ge_floor", c.frac_dsr_ge_floor);
    assert(out@ =~= before + summary_fields(*c));
    out
}

/// Lists the figures of a cross-validation summary.
fn list_spread(out: NamedFigures, c: &CpcvSummary) -> (r: NamedFigures)
    ensures
        r@ == out@ + cpcv_fields(*c),
{
    let ghost before = out@;
    let first = list_summary(out, c);
    let second = first.with_all("cpcv.path_sharpes", &c.path_sharpes);
    let third = second.with_all("cpcv.path_dsrs", &c.path_dsrs);
    proof {
        lemma_four_parts(
            before,
            summary_fields(*c),
            all_named("cpcv.path_sharpes"@, c.path_sharpes@),
            all_named("cpcv.path_dsrs"@, c.path_dsrs@),
            Seq::empty(),
        );
        assert(third@ + Seq::<Named>::empty() =~= third@);
        assert(cpcv_fields(*c) + Seq::<Named>::empty() =~= cpcv_fields(*c));
    }
    third
}

/// Lists the figures of some criteria.
fn list_criteria(out: NamedFigures, criteria: &Vec<SealedCriterion>) -> (r: NamedFigures)
    ensures
        r@ == out@ + criteria_fields(criteria@),
{
    let ghost before = out@;
    let ghost all = criteria_fields(criteria@);
    let mut list: NamedFigures = out;
    let mut i: usize = 0;
    assert(list@ =~= before + all.take(0));
    while i < criteria.len()
        invariant
            i <= criteria.len(),
            all == criteria_fields(criteria@),
            list@ =~= before + all.take(2 * i),
        decreases criteria.len() - i,
    {
        list = list.pushed("promotion.value", criteria[i].value);
        list = list.pushed("promotion.threshold", criteria[i].threshold);
        proof {
            let at = 2 * i;
            assert(at % 2 == 0 && at / 2 == i as int);
            assert((at + 1) % 2 == 1 && (at + 1) / 2 == i as int);
            assert(all.take(at + 2) =~= all.take(at).push(all[at]).push(all[at + 1]));
        }
        i = i + 1;
    }
    assert(all.take(2 * i) =~= all);
    list
}

/// Every figure of the evidence and the name it goes by.
pub fn list_evidence(ev: &SealEvidence) -> (r: NamedFigures)
    ensures
        r@ == evidence_fields(*ev),
{
    let out: NamedFigures = list_options(list_scalars(ev), ev);
    let ghost before = out@;
    let out: NamedFigures = match &ev.cpcv {
        Some(c) => list_spread(out, c),
        None => {
            assert(before =~= before + spread_fields(*ev));
            out
        },
    };
    assert(out@ == before + spread_fields(*ev));
    let ghost before = out@;
    let out: NamedFigures = match &ev.promotion {
        Some(verdict) => list_criteria(out, &verdict.criteria),
        None => {
            assert(before =~= before + verdict_fields(*ev));
            out
        },
    };
    assert(out@ == before + verdict_fields(*ev));
    out
}

/// Whether two criteria are the same but for their figures.
pub open spec fn same_criterion(a: SealedCriterion, b: SealedCriterion) -> bool {
    a.name@ == b.name@ && a.passed == b.passed
}

/// Whether two cross-validation summaries are the same but for their figures.
pub open spec fn same_spread(a: CpcvSummary, b: CpcvSummary) -> bool {
    &&& a.blocks == b.blocks
    &&& a.n_paths == b.n_paths
    &&& a.path_sharpes@.len() == b.path_sharpes@.len()
    &&& a.path_dsrs@.len() == b.path_dsrs@.len()
}

/// Whether two verdicts are the same but for their figures.
pub open spec fn same_verdict(a: PromotionVerdict, b: PromotionVerdict) -> bool {
    &&& a.promoted == b.promoted
    &&& a.criteria@.len() == b.criteria@.len()
    &&& forall|i: int|
        0 <= i < a.criteria@.len() ==> same_criterion(#[trigger] a.criteria@[i], b.criteria@[i])
}

/// Whether two pieces of evidence are the same but for their figures.
pub open spec fn same_evidence(a: SealEvidence, b: SealEvidence) -> bool {
    &&& a.n_trials == b.n_trials
    &&& a.cost_stress_net_min is Some <==> b.cost_stress_net_min is Some
    &&& a.uncensored_pbo is Some <==> b.uncensored_pbo is Some
    &&& a.ic is Some <==> b.ic is Some
    &&& a.fdr is Some <==> b.fdr is Some
    &&& match (a.cpcv, b.cpcv) {
        (Some(x), Some(y)) => same_spread(x, y),
        (None, None) => true,
        _ => false,
    }
    &&& match (a.promotion, b.promotion) {
        (Some(x), Some(y)) => same_verdict(x, y),
        (None, None) => true,
        _ => false,
    }
}

/// Puts the figures from `k` on in place of those of a cross-validation summary.
fn refill_spread(c: &mut CpcvSummary, from: &[Figure], k: usize)
    requires
        k + cpcv_fields(*old(c)).len() <= from.len(),
    ensures
        figures_of(cpcv_fields(*final(c))) == from@.subrange(
            k as int,
            k + cpcv_fields(*old(c)).len(),
        ),
        same_spread(*old(c), *final(c)),
{
    let ghost n = cpcv_fields(*c).len();
    c.median_sharpe = from[k];
    c.sharpe_iqr_lo = from[k + 1];
    c.sharpe_iqr_hi = from[k + 2];
    c.sharpe_p05 = from[k + 3];
    c.sharpe_p95 = from[k + 4];
    c.median_dsr = from[k + 5];
    c.dsr_p05 = from[k + 6];
    c.frac_dsr_ge_floor = from[k + 7];
    let sharpes: usize = c.path_sharpes.len();
    refill(&mut c.path_sharpes, from, k + 8);
    refill(&mut c.path_dsrs, from, k + 8 + sharpes);
    assert(figures_of(cpcv_fields(*c)) =~= from@.subrange(k as int, k + n));
}

/// Puts the figures from `k` on in place of those of some criteria.
fn refill_criteria(criteria: &mut Vec<SealedCriterion>, from: &[Figure], k: usize)
    requires
        k + 2 * old(criteria).len() <= from.len(),
    ensures
        figures_of(criteria_fields(final(criteria)@)) == from@.subrange(
            k as int,
            k + 2 * old(criteria).len(),
        ),
        final(criteria)@.len() == old(criteria)@.len(),
        forall|i: int|
            0 <= i < old(criteria)@.len() ==> same_criterion(
                #[trigger] old(criteria)@[i],
                final(criteria)@[i],
            ),
{
    let n: usize = criteria.len();
    let ghost before = criteria@;
    let mut i: usize = 0;
    while i < n
        invariant
            i <= n == criteria.len(),
            n == before.len(),
            k + 2 * n <= from.len(),
            forall|j: int| 0 <= j < n ==> same_criterion(#[trigger] before[j], criteria@[j]),
            forall|j: int|
                0 <= j < i ==> (#[trigger] criteria@[j]).value == from@[k + 2 * j]
                    && criteria@[j].threshold == from@[k + 2 * j + 1],
        decreases n - i,
    {
        let name: String = criteria[i].name.clone();
        let passed: bool = criteria[i].passed;
        criteria.set(
            i,
            SealedCriterion {
                name,
                passed,
                value: from[k + 2 * i],
                threshold: from[k + 2 * i + 1],
            },
        );
        i = i + 1;
    }
    assert(figures_of(criteria_fields(criteria@)) =~= from@.subrange(k as int, k + 2 * n)) by {
        assert forall|j: int| 0 <= j < 2 * n implies figures_of(criteria_fields(criteria@))[j]
            == from@.subrange(k as int, k + 2 * n)[j] by {
            let c = criteria@[j / 2];
            if j % 2 == 0 {
                assert(c.value == from@[k + 2 * (j / 2)]);
            } else {
                assert(c.threshold == from@[k + 2 * (j / 2) + 1]);
            }
        }
    }
}

/// Puts the figures from `k` on in place of the optional ones, and returns where the figures behind
/// them begin.
fn refill_options(ev: &mut SealEvidence, from: &[Figure], k: usize) -> (r: usize)
    requires
        k + optional_fields(*old(ev)).len() <= from.len(),
    ensures
        r == k + optional_fields(*old(ev)).len(),
        figures_of(optional_fields(*final(ev))) == from@.subrange(k as int, r as int),
        same_evidence(*old(ev), *final(ev)),
        scalar_fields(*final(ev)) == scalar_fields(*old(ev)),
        final(ev).cpcv == old(ev).cpcv,
        final(ev).promotion == old(ev).promotion,
{
    proof {
        lemma_option_figures(ev.cost_stress_net_min, "cost_stress_net_min"@);
        lemma_option_figures(ev.uncensored_pbo, "uncensored_pbo"@);
        lemma_option_figures(ev.ic, "ic"@);
        lemma_option_figures(ev.fdr, "fdr"@);
    }
    let a: usize = refill_option(&mut ev.cost_stress_net_min, from, k);
    let b: usize = refill_option(&mut ev.uncensored_pbo, from, a);
    let c: usize = refill_option(&mut ev.ic, from, b);
    let d: usize = refill_option(&mut ev.fdr, from, c);
    proof {
        lemma_option_figures(ev.cost_stress_net_min, "cost_stress_net_min"@);
        lemma_option_figures(ev.uncensored_pbo, "uncensored_pbo"@);
        lemma_option_figures(ev.ic, "ic"@);
        lemma_option_figures(ev.fdr, "fdr"@);
        let w = option_named("cost_stress_net_min"@, ev.cost_stress_net_min);
        let x = option_named("uncensored_pbo"@, ev.uncensored_pbo);
        let y = option_named("ic"@, ev.ic);
        let z = option_named("fdr"@, ev.fdr);
        assert(figures_of(w + x + y + z) =~= figures_of(w) + figures_of(x) + figures_of(y)
            + figures_of(z));
        assert(from@.subrange(k as int, a as int) + from@.subrange(a as int, b as int)
            + from@.subrange(b as int, c as int) + from@.subrange(c as int, d as int)
            =~= from@.subrange(k as int, d as int));
    }
    d
}

/// Puts the figures from `k` on in place of those of the evidence.
pub fn refill_evidence(ev: &mut SealEvidence, from: &[Figure], k: usize)
    requires
        k + evidence_fields(*old(ev)).len() <= from.len(),
    ensures
        figures_of(evidence_fields(*final(ev))) == from@.subrange(
            k as int,
            k + evidence_fields(*old(ev)).len(),
        ),
        same_evidence(*old(ev), *final(ev)),
{
    let ghost before = *ev;
    let ghost n = evidence_fields(before).len() as int;
    let ghost o = optional_fields(before).len() as int;
    let ghost s = spread_fields(before).len() as int;
    let ghost v = verdict_fields(before).len() as int;
    assert(n == 5 + o + s + v);
    ev.dsr = from[k];
    ev.pbo = from[k + 1];
    ev.spa_pvalue = from[k + 2];
    ev.realised_turnover = from[k + 3];
    ev.capacity_usd = from[k + 4];
    assert(figures_of(scalar_fields(*ev)) =~= from@.subrange(k as int, k + 5));
    let at: usize = refill_options(ev, from, k + 5);
    let ghost options = *ev;
    let at: usize = match ev.cpcv.take() {
        Some(c) => {
            let mut c: CpcvSummary = c;
            let end: usize = at + 8 + c.path_sharpes.len() + c.path_dsrs.len();
            refill_spread(&mut c, from, at);
            ev.cpcv = Some(c);
            end
        },
        None => {
            assert(figures_of(spread_fields(*ev)) =~= from@.subrange(at as int, at as int));
            at
        },
    };
    assert(at == k + 5 + o + s);
    match ev.promotion.take() {
        Some(verdict) => {
            let mut verdict: PromotionVerdict = verdict;
            refill_criteria(&mut verdict.criteria, from, at);
            ev.promotion = Some(verdict);
        },
        None => {
            assert(figures_of(verdict_fields(*ev)) =~= from@.subrange(at as int, at as int));
        },
    }
    proof {
        assert(scalar_fields(*ev) == scalar_fields(options));
        assert(optional_fields(*ev) == optional_fields(options));
        lemma_parts_in_place(*ev, from@, k as int, o, s, v);
    }
}

/// Where each part of the evidence holds its stretch of the figures, the whole does.
proof fn lemma_parts_in_place(
    ev: SealEvidence,
    from: Seq<Figure>,
    k: int,
    o: int,
    s: int,
    v: int,
)
    requires
        0 <= k,
        0 <= o,
        0 <= s,
        0 <= v,
        k + 5 + o + s + v <= from.len(),
        figures_of(scalar_fields(ev)) == from.subrange(k, k + 5),
        figures_of(optional_fields(ev)) == from.subrange(k + 5, k + 5 + o),
        figures_of(spread_fields(ev)) == from.subrange(k + 5 + o, k + 5 + o + s),
        figures_of(verdict_fields(ev)) == from.subrange(k + 5 + o + s, k + 5 + o + s + v),
    ensures
        figures_of(evidence_fields(ev)) == from.subrange(k, k + 5 + o + s + v),
{
    let w = scalar_fields(ev);
    let x = optional_fields(ev);
    let y = spread_fields(ev);
    let z = verdict_fields(ev);
    assert(figures_of(w + x + y + z) =~= figures_of(w) + figures_of(x) + figures_of(y) + figures_of(z));
    assert(figures_of(w) + figures_of(x) + figures_of(y) + figures_of(z) =~= from.subrange(
        k,
        k + 5 + o + s + v,
    ));
}

/// An optional figure under a name is that figure.
proof fn lemma_option_figures(o: Option<Figure>, name: Seq<char>)
    ensures
        figures_of(option_named(name, o)) =~= option_figures(o),
{
}

/// Two pieces of evidence that are the same as a third but for their figures are so as each other.
pub proof fn lemma_same_as_one(one: SealEvidence, a: SealEvidence, b: SealEvidence)
    requires
        same_evidence(one, a),
        same_evidence(one, b),
    ensures
        same_evidence(a, b),
{
    if let (Some(v), Some(x), Some(y)) = (one.promotion, a.promotion, b.promotion) {
        assert forall|i: int| 0 <= i < x.criteria@.len() implies same_criterion(
            #[trigger] x.criteria@[i],
            y.criteria@[i],
        ) by {
            assert(same_criterion(v.criteria@[i], x.criteria@[i]));
            assert(same_criterion(v.criteria@[i], y.criteria@[i]));
        }
    }
}

/// Evidence that is the same but for its figures lists its figures under the same names.
pub proof fn law_names_do_not_depend_on_figures(a: SealEvidence, b: SealEvidence)
    requires
        same_evidence(a, b),
    ensures
        evidence_fields(a).len() == evidence_fields(b).len(),
        forall|i: int|
            0 <= i < evidence_fields(a).len() ==> (#[trigger] evidence_fields(a)[i]).0
                == evidence_fields(b)[i].0,
{
    assert(optional_fields(a).len() == optional_fields(b).len());
    assert(spread_fields(a).len() == spread_fields(b).len());
    assert forall|i: int| 0 <= i < evidence_fields(a).len() implies (#[trigger] evidence_fields(a)[i]).0
        == evidence_fields(b)[i].0 by {
        let o = 5 + optional_fields(a).len();
        let s = o + spread_fields(a).len();
        if i < 5 {
            assert(evidence_fields(a)[i] == scalar_fields(a)[i]);
        } else if i < o {
            assert(evidence_fields(a)[i] == optional_fields(a)[i - 5]);
        } else if i < s {
            assert(evidence_fields(a)[i] == spread_fields(a)[i - o]);
        } else {
            assert(evidence_fields(a)[i] == verdict_fields(a)[i - s]);
        }
    }
}

/// A vintage whose verdict is missing, or is not to promote, is not promoted.
pub proof fn law_promotion_needs_a_verdict(ev: SealEvidence)
    ensures
        ev.promotion is None ==> !ev.promoted(),
        ev.promoted() ==> ev.promotion is Some && ev.promotion->0.promoted,
{
}

/// Whether a figure is listed under a name.
pub open spec fn lists(fields: Seq<Named>, name: Seq<char>, f: Figure) -> bool {
    exists|i: int| 0 <= i < fields.len() && #[trigger] fields[i] == (name, f)
}

proof fn lemma_part_is_listed(front: Seq<Named>, part: Seq<Named>, back: Seq<Named>, k: int)
    requires
        0 <= k < part.len(),
    ensures
        lists(front + part + back, part[k].0, part[k].1),
{
    let all = front + part + back;
    assert(all[front.len() + k] == part[k]);
    assert(all[front.len() + k] == (part[k].0, part[k].1));
}

/// Every figure that a promotion is decided on is listed, under its own name: the five that every vintage
/// carries and each of the optional ones that this one carries.
pub proof fn law_every_figure_is_listed(ev: SealEvidence)
    ensures
        lists(evidence_fields(ev), "dsr"@, ev.dsr),
        lists(evidence_fields(ev), "pbo"@, ev.pbo),
        lists(evidence_fields(ev), "spa_pvalue"@, ev.spa_pvalue),
        lists(evidence_fields(ev), "realised_turnover"@, ev.realised_turnover),
        lists(evidence_fields(ev), "capacity_usd"@, ev.capacity_usd),
        ev.cost_stress_net_min matches Some(f) ==> lists(
            evidence_fields(ev),
            "cost_stress_net_min"@,
            f,
        ),
        ev.uncensored_pbo matches Some(f) ==> lists(evidence_fields(ev), "uncensored_pbo"@, f),
        ev.ic matches Some(f) ==> lists(evidence_fields(ev), "ic"@, f),
        ev.fdr matches Some(f) ==> lists(evidence_fields(ev), "fdr"@, f),
{
    let none = Seq::<Named>::empty();
    let a = scalar_fields(ev);
    let o = optional_fields(ev);
    let all = evidence_fields(ev);
    let behind = spread_fields(ev) + verdict_fields(ev);
    assert(all =~= none + a + (o + behind));
    assert(all =~= a + o + behind);
    lemma_part_is_listed(none, a, o + behind, 0);
    lemma_part_is_listed(none, a, o + behind, 1);
    lemma_part_is_listed(none, a, o + behind, 2);
    lemma_part_is_listed(none, a, o + behind, 3);
    lemma_part_is_listed(none, a, o + behind, 4);
    let p = option_named("cost_stress_net_min"@, ev.cost_stress_net_min);
    let q = option_named("uncensored_pbo"@, ev.uncensored_pbo);
    let r = option_named("ic"@, ev.ic);
    let s = option_named("fdr"@, ev.fdr);
    if ev.cost_stress_net_min is Some {
        assert(o[0] == p[0]);
        lemma_part_is_listed(a, o, behind, 0);
    }
    if ev.uncensored_pbo is Some {
        let k = p.len() as int;
        assert(o[k] == q[0]);
        lemma_part_is_listed(a, o, behind, k);
    }
    if ev.ic is Some {
        let k = (p.len() + q.len()) as int;
        assert(o[k] == r[0]);
        lemma_part_is_listed(a, o, behind, k);
    }
    if ev.fdr is Some {
        let k = (p.len() + q.len() + r.len()) as int;
        assert(o[k] == s[0]);
        lemma_part_is_listed(a, o, behind, k);
    }
}

/// Every figure of a cross-validation is listed, under its own name: the summary, and one for each path.
pub proof fn law_every_path_figure_is_listed(ev: SealEvidence, c: CpcvSummary, i: int)
    requires
        ev.cpcv == Some(c),
    ensures
        lists(evidence_fields(ev), "cpcv.median_sharpe"@, c.median_sharpe),
        lists(evidence_fields(ev), "cpcv.sharpe_iqr_lo"@, c.sharpe_iqr_lo),
        lists(evidence_fields(ev), "cpcv.sharpe_iqr_hi"@, c.sharpe_iqr_hi),
        lists(evidence_fields(ev), "cpcv.sharpe_p05"@, c.sharpe_p05),
        lists(evidence_fields(ev), "cpcv.sharpe_p95"@, c.sharpe_p95),
        lists(evidence_fields(ev), "cpcv.median_dsr"@, c.median_dsr),
        lists(evidence_fields(ev), "cpcv.dsr_p05"@, c.dsr_p05),
        lists(evidence_fields(ev), "cpcv.frac_dsr_ge_floor"@, c.frac_dsr_ge_floor),
        0 <= i < c.path_sharpes@.len() ==> lists(
            evidence_fields(ev),
            "cpcv.path_sharpes"@,
            c.path_sharpes@[i],
        ),
        0 <= i < c.path_dsrs@.len() ==> lists(
            evidence_fields(ev),
            "cpcv.path_dsrs"@,
            c.path_dsrs@[i],
        ),
{
    let front = scalar_fields(ev) + optional_fields(ev);
    let part = spread_fields(ev);
    let back = verdict_fields(ev);
    let sum = summary_fields(c);
    lemma_part_is_listed(front, part, back, 0);
    lemma_part_is_listed(front, part, back, 1);
    lemma_part_is_listed(front, part, back, 2);
    lemma_part_is_listed(front, part, back, 3);
    lemma_part_is_listed(front, part, back, 4);
    lemma_part_is_listed(front, part, back, 5);
    lemma_part_is_listed(front, part, back, 6);
    lemma_part_is_listed(front, part, back, 7);
    assert(part[0] == sum[0] && part[1] == sum[1] && part[2] == sum[2] && part[3] == sum[3]);
    assert(part[4] == sum[4] && part[5] == sum[5] && part[6] == sum[6] && part[7] == sum[7]);
    if 0 <= i < c.path_sharpes@.len() {
        let k = 8 + i;
        assert(part[k] == ("cpcv.path_sharpes"@, c.path_sharpes@[i]));
        lemma_part_is_listed(front, part, back, k);
    }
    if 0 <= i < c.path_dsrs@.len() {
        let k = 8 + c.path_sharpes@.len() + i;
        assert(part[k] == ("cpcv.path_dsrs"@, c.path_dsrs@[i]));
        lemma_part_is_listed(front, part, back, k);
    }
}

/// Of every criterion of the verdict the value and the threshold are listed, under their own names.
pub proof fn law_every_criterion_is_listed(ev: SealEvidence, verdict: PromotionVerdict, i: int)
    requires
        ev.promotion == Some(verdict),
        0 <= i < verdict.criteria@.len(),
    ensures
        lists(evidence_fields(ev), "promotion.value"@, verdict.criteria@[i].value),
        lists(evidence_fields(ev), "promotion.threshold"@, verdict.criteria@[i].threshold),
{
    let front = scalar_fields(ev) + optional_fields(ev) + spread_fields(ev);
    let part = verdict_fields(ev);
    let none = Seq::<Named>::empty();
    assert(evidence_fields(ev) =~= front + part + none);
    assert(part[2 * i] == ("promotion.value"@, verdict.criteria@[i].value));
    assert(part[2 * i + 1] == ("promotion.threshold"@, verdict.criteria@[i].threshold));
    lemma_part_is_listed(front, part, none, 2 * i);
    lemma_part_is_listed(front, part, none, 2 * i + 1);
}

} // verus!
