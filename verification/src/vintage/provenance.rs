//! Where a vintage comes from: its data, its holdout, and how its search was steered.

use vstd::prelude::*;

use crate::bytes::sha256_of;
use crate::signal::feature::{
    hash_texts, is_zero_free, law_terminated_bytes_tell_listings_apart, terminated_bytes,
    texts_hash,
};
use crate::text::{
    ascending, distinct_sorted, is_hex_digit, joined, law_ascending_lists_the_set,
    law_hex_is_injective, views,
};

verus! {

/// Where the bars of a vintage come from.
#[derive(Debug, Clone, Copy, PartialEq, Eq, Default, Structural)]
pub enum DataProvenance {
    /// The market.
    #[default]
    Real,
    /// A generator.
    Synthetic,
    /// Both, labelled.
    Mixed,
}

/// A range of labels, the first included and the last not.
#[derive(Debug, Clone, PartialEq, Eq, Default)]
pub struct TimeRange {
    /// The first label.
    pub start: String,
    /// The label after the last.
    pub end: String,
}

/// How the data was split into training and holdout.
#[derive(Debug, Clone, PartialEq, Eq, Default)]
pub struct HoldoutSplit {
    /// The holdout.
    pub holdout_range: Option<TimeRange>,
    /// The training data.
    pub train_range: Option<TimeRange>,
    /// The number of bars left out between the two.
    pub embargo_bars: u64,
}

/// How many bars of the holdout belong to one regime.
#[derive(Debug, Clone, PartialEq, Eq, Default)]
pub struct RegimeShare {
    /// The regime.
    pub regime: String,
    /// The number of bars.
    pub bars: u64,
}

/// How a search was steered.
#[derive(Debug, Clone, PartialEq, Eq, Default)]
pub struct SteerDelta {
    /// The hash of the set of indicators in play.
    pub indicator_subset_hash: String,
    /// The number of generations.
    pub generations: u64,
    /// The population.
    pub population: u64,
    /// The number of walk-forward windows.
    pub windows: u64,
    /// The number of folds.
    pub folds: u64,
}

/// Where a vintage comes from.
#[derive(Debug, Clone, PartialEq, Eq, Default)]
pub struct ResearchProvenance {
    /// Where the bars come from.
    pub data_provenance: DataProvenance,
    /// How the data was split.
    pub holdout_split: HoldoutSplit,
    /// The regimes of the holdout.
    pub regime_composition: Vec<RegimeShare>,
    /// How often the holdout was consulted.
    pub consultation_count: u64,
    /// How the search was steered, where it was.
    pub steer_delta: Option<SteerDelta>,
}

/// Texts with a prefix in front of each.
pub open spec fn prefixed(prefix: Seq<char>, texts: Seq<Seq<char>>) -> Seq<Seq<char>> {
    Seq::new(texts.len(), |i: int| prefix + texts[i])
}

/// The set of indicators in play: catalogue indicators and evolved formulas, told apart by a prefix.
pub open spec fn subset_items(catalogue: Seq<Seq<char>>, evolved: Seq<Seq<char>>) -> Set<Seq<char>> {
    (prefixed("cat:"@, catalogue) + prefixed("evo:"@, evolved)).to_set()
}

/// The bytes that the set of indicators in play is hashed over.
pub open spec fn subset_bytes(catalogue: Seq<Seq<char>>, evolved: Seq<Seq<char>>) -> Seq<u8> {
    terminated_bytes(ascending(subset_items(catalogue, evolved)))
}

/// The hash of the set of indicators in play.
pub open spec fn subset_hash_text(catalogue: Seq<Seq<char>>, evolved: Seq<Seq<char>>) -> Seq<char> {
    texts_hash(ascending(subset_items(catalogue, evolved)))
}

/// Appends texts with a prefix in front of each.
fn push_prefixed(out: &mut Vec<String>, prefix: &str, texts: &[String])
    ensures
        views(final(out)@) == views(old(out)@) + prefixed(prefix@, views(texts@)),
{
    let ghost before = views(out@);
    let ghost all = prefixed(prefix@, views(texts@));
    let mut i: usize = 0;
    assert(views(out@) =~= before + all.take(0));
    while i < texts.len()
        invariant
            i <= texts.len(),
            all == prefixed(prefix@, views(texts@)),
            views(out@) =~= before + all.take(i as int),
        decreases texts.len() - i,
    {
        let ghost so_far = views(out@);
        out.push(joined(prefix, texts[i].as_str()));
        assert(views(out@) =~= so_far.push(all[i as int]));
        i = i + 1;
    }
    assert(all.take(i as int) =~= all);
}

impl SteerDelta {
    /// The hash of the set of indicators in play: the catalogue indicators and the evolved formulas,
    /// whatever order they are listed in and however often.
    pub fn subset_hash(catalogue_ids: &[String], evolved_formula_hashes: &[String]) -> (r: String)
        ensures
            r@ == subset_hash_text(views(catalogue_ids@), views(evolved_formula_hashes@)),
            r@.len() == 64,
            forall|i: int| 0 <= i < r@.len() ==> is_hex_digit(#[trigger] r@[i]),
    {
        let mut items: Vec<String> = Vec::new();
        assert(views(items@) =~= Seq::empty());
        push_prefixed(&mut items, "cat:", catalogue_ids);
        push_prefixed(&mut items, "evo:", evolved_formula_hashes);
        assert(views(items@) =~= prefixed("cat:"@, views(catalogue_ids@)) + prefixed(
            "evo:"@,
            views(evolved_formula_hashes@),
        ));
        let listed: Vec<String> = distinct_sorted(&items);
        hash_texts(listed.as_slice())
    }

    /// The record of a search steered to these indicators with this budget.
    pub fn from_parts(
        catalogue_ids: &[String],
        evolved_formula_hashes: &[String],
        generations: u64,
        population: u64,
        windows: u64,
        folds: u64,
    ) -> (r: SteerDelta)
        ensures
            r.indicator_subset_hash@ == subset_hash_text(
                views(catalogue_ids@),
                views(evolved_formula_hashes@),
            ),
            r.indicator_subset_hash@.len() == 64,
            forall|i: int|
                0 <= i < 64 ==> is_hex_digit(#[trigger] r.indicator_subset_hash@[i]),
            r.generations == generations,
            r.population == population,
            r.windows == windows,
            r.folds == folds,
    {
        SteerDelta {
            indicator_subset_hash: SteerDelta::subset_hash(catalogue_ids, evolved_formula_hashes),
            generations,
            population,
            windows,
            folds,
        }
    }
}

/// The hash is one of a set: neither the order of the listings nor a repetition in them shows.
pub proof fn law_subset_hash_is_of_a_set(
    a: Seq<Seq<char>>,
    b: Seq<Seq<char>>,
    x: Seq<Seq<char>>,
    y: Seq<Seq<char>>,
)
    requires
        a.to_set() == b.to_set(),
        x.to_set() == y.to_set(),
    ensures
        subset_hash_text(a, x) == subset_hash_text(b, y),
{
    lemma_same_items(a, b, x, y);
}

proof fn lemma_same_items(
    a: Seq<Seq<char>>,
    b: Seq<Seq<char>>,
    x: Seq<Seq<char>>,
    y: Seq<Seq<char>>,
)
    requires
        a.to_set() == b.to_set(),
        x.to_set() == y.to_set(),
    ensures
        subset_items(a, x) == subset_items(b, y),
{
    assert forall|t: Seq<char>| subset_items(a, x).contains(t) implies subset_items(
        b,
        y,
    ).contains(t) by {
        lemma_subset_items(a, x, b, y, t);
    }
    assert forall|t: Seq<char>| subset_items(b, y).contains(t) implies subset_items(
        a,
        x,
    ).contains(t) by {
        lemma_subset_items(b, y, a, x, t);
    }
    assert(subset_items(a, x) =~= subset_items(b, y));
}

proof fn lemma_subset_items(
    a: Seq<Seq<char>>,
    x: Seq<Seq<char>>,
    b: Seq<Seq<char>>,
    y: Seq<Seq<char>>,
    t: Seq<char>,
)
    requires
        a.to_set() == b.to_set(),
        x.to_set() == y.to_set(),
        subset_items(a, x).contains(t),
    ensures
        subset_items(b, y).contains(t),
{
    let here = prefixed("cat:"@, a) + prefixed("evo:"@, x);
    let there = prefixed("cat:"@, b) + prefixed("evo:"@, y);
    let i = choose|i: int| 0 <= i < here.len() && here[i] == t;
    if i < a.len() {
        assert(a.to_set().contains(a[i]));
        assert(b.contains(a[i]));
        let j = choose|j: int| 0 <= j < b.len() && b[j] == a[i];
        assert(there[j] == t);
    } else {
        let k = i - a.len();
        assert(x.to_set().contains(x[k]));
        assert(y.contains(x[k]));
        let j = choose|j: int| 0 <= j < y.len() && y[j] == x[k];
        assert(there[b.len() + j] == t);
    }
}

/// Whether none of some texts has the character zero in it.
pub open spec fn are_zero_free(texts: Seq<Seq<char>>) -> bool {
    forall|i: int| 0 <= i < texts.len() ==> is_zero_free(#[trigger] texts[i])
}

proof fn lemma_items(catalogue: Seq<Seq<char>>, evolved: Seq<Seq<char>>, t: Seq<char>)
    ensures
        subset_items(catalogue, evolved).contains("cat:"@ + t) <==> catalogue.contains(t),
        subset_items(catalogue, evolved).contains("evo:"@ + t) <==> evolved.contains(t),
{
    reveal_strlit("cat:");
    reveal_strlit("evo:");
    let cat = prefixed("cat:"@, catalogue);
    let evo = prefixed("evo:"@, evolved);
    let all = cat + evo;
    let c = "cat:"@ + t;
    let e = "evo:"@ + t;
    assert(c[0] == 'c' && e[0] == 'e');
    assert forall|i: int| 0 <= i < all.len() implies (if i < cat.len() {
        #[trigger] all[i] == "cat:"@ + catalogue[i] && all[i][0] == 'c'
    } else {
        all[i] == "evo:"@ + evolved[i - cat.len()] && all[i][0] == 'e'
    }) by {}
    if catalogue.contains(t) {
        let i = choose|i: int| 0 <= i < catalogue.len() && catalogue[i] == t;
        assert(all[i] == c);
    }
    if evolved.contains(t) {
        let i = choose|i: int| 0 <= i < evolved.len() && evolved[i] == t;
        assert(all[cat.len() + i] == e);
    }
    if all.contains(c) {
        let i = choose|i: int| 0 <= i < all.len() && all[i] == c;
        assert(catalogue[i] =~= all[i].skip(4));
        assert(t =~= c.skip(4));
    }
    if all.contains(e) {
        let i = choose|i: int| 0 <= i < all.len() && all[i] == e;
        assert(evolved[i - cat.len()] =~= all[i].skip(4));
        assert(t =~= e.skip(4));
    }
}

proof fn lemma_items_are_zero_free(catalogue: Seq<Seq<char>>, evolved: Seq<Seq<char>>)
    requires
        are_zero_free(catalogue),
        are_zero_free(evolved),
    ensures
        are_zero_free(ascending(subset_items(catalogue, evolved))),
{
    reveal_strlit("cat:");
    reveal_strlit("evo:");
    let cat = prefixed("cat:"@, catalogue);
    let all = cat + prefixed("evo:"@, evolved);
    law_ascending_lists_the_set(all);
    let s = ascending(subset_items(catalogue, evolved));
    assert forall|i: int| 0 <= i < s.len() implies is_zero_free(#[trigger] s[i]) by {
        assert(s.to_set().contains(s[i]));
        assert(all.contains(s[i]));
        let k = choose|k: int| 0 <= k < all.len() && all[k] == s[i];
        if k < cat.len() {
            assert(is_zero_free(catalogue[k]));
            assert forall|j: int| 0 <= j < s[i].len() implies #[trigger] s[i][j] != '\0' by {
                if j >= 4 {
                    assert(s[i][j] == catalogue[k][j - 4]);
                }
            }
        } else {
            let e = k - cat.len();
            assert(is_zero_free(evolved[e]));
            assert forall|j: int| 0 <= j < s[i].len() implies #[trigger] s[i][j] != '\0' by {
                if j >= 4 {
                    assert(s[i][j] == evolved[e][j - 4]);
                }
            }
        }
    }
}

/// Different sets of identifiers without the character zero are hashed over different bytes, also where an
/// identifier only moves from the catalogue to the evolved ones; so the hashes are the same only where the
/// sets are, or where SHA-256 gives different bytes the same digest.
pub proof fn law_different_sets_are_hashed_apart(
    a: Seq<Seq<char>>,
    x: Seq<Seq<char>>,
    b: Seq<Seq<char>>,
    y: Seq<Seq<char>>,
)
    requires
        are_zero_free(a),
        are_zero_free(x),
        are_zero_free(b),
        are_zero_free(y),
    ensures
        subset_bytes(a, x) == subset_bytes(b, y) <==> a.to_set() == b.to_set() && x.to_set()
            == y.to_set(),
        subset_hash_text(a, x) == subset_hash_text(b, y) <==> sha256_of(subset_bytes(a, x))
            == sha256_of(subset_bytes(b, y)),
{
    if a.to_set() == b.to_set() && x.to_set() == y.to_set() {
        lemma_same_items(a, b, x, y);
    }
    if subset_bytes(a, x) == subset_bytes(b, y) {
        lemma_items_are_zero_free(a, x);
        lemma_items_are_zero_free(b, y);
        law_terminated_bytes_tell_listings_apart(
            ascending(subset_items(a, x)),
            ascending(subset_items(b, y)),
        );
        law_ascending_lists_the_set(prefixed("cat:"@, a) + prefixed("evo:"@, x));
        law_ascending_lists_the_set(prefixed("cat:"@, b) + prefixed("evo:"@, y));
        assert(subset_items(a, x) == subset_items(b, y));
        assert forall|t: Seq<char>| a.to_set().contains(t) <==> b.to_set().contains(t) by {
            lemma_items(a, x, t);
            lemma_items(b, y, t);
        }
        assert forall|t: Seq<char>| x.to_set().contains(t) <==> y.to_set().contains(t) by {
            lemma_items(a, x, t);
            lemma_items(b, y, t);
        }
        assert(a.to_set() =~= b.to_set());
        assert(x.to_set() =~= y.to_set());
    }
    if subset_hash_text(a, x) == subset_hash_text(b, y) {
        law_hex_is_injective(sha256_of(subset_bytes(a, x)), sha256_of(subset_bytes(b, y)));
    }
}

} // verus!
