//! The content of a vintage, its checks, and its seal.

use vstd::prelude::*;

use crate::bytes::{sha256, sha256_of};
use crate::signal::feature::CatalogueIdentity;
use crate::signal::genome::Genome;
use crate::text::{decimal_text, hex, hex_text, push_number, text_equal};
use crate::vintage::evidence::{
    evidence_fields, figures_of, list_evidence, refill_evidence, same_evidence,
    HoldoutReturnSeries, NamedFigures, SealEvidence,
};
use crate::vintage::figure::{
    find_not_finite, first_not_finite, option_figures, refill, refill_option, Figure,
};
use crate::vintage::provenance::ResearchProvenance;

verus! {

/// The version of the artefact's format.
pub const VINTAGE_FORMAT_VERSION: u16 = 8;

/// Why a vintage was refused.
#[derive(Debug)]
pub enum VintageError {
    /// It could not be written as text.
    Serialize(String),
    /// It could not be read from text.
    Deserialize(String),
    /// Its content is not what was sealed.
    HashMismatch {
        /// The hash it carries.
        stored: String,
        /// The hash of its content.
        recomputed: String,
    },
    /// It has not one weight for each chromosome.
    WeightChromosomeMismatch {
        /// The number of weights.
        weights: usize,
        /// The number of chromosomes.
        chromosomes: usize,
    },
    /// A weight is not finite.
    NonFiniteWeight {
        /// Which.
        index: usize,
        /// The weight.
        value: Figure,
    },
    /// The worst-case loss is not finite or lies below zero.
    InvalidWorstCaseLoss {
        /// The loss.
        value: Figure,
    },
    /// A return of the holdout is not finite.
    NonFiniteHoldoutReturn {
        /// Which.
        index: usize,
        /// The return.
        value: Figure,
    },
    /// A figure of the evidence is not finite.
    NonFiniteEvidence {
        /// Its name.
        field: &'static str,
        /// The figure.
        value: Figure,
    },
    /// It was sealed against another catalogue.
    SchemaMismatch {
        /// The catalogue of this library.
        expected: CatalogueIdentity,
        /// The catalogue it was sealed against.
        found: CatalogueIdentity,
    },
    /// A chromosome has another representation.
    GenomeRepMismatch {
        /// Which.
        index: usize,
        /// The representation of this library.
        expected: u16,
        /// The representation of the chromosome.
        found: u16,
    },
    /// It could not be read or written.
    Io(String),
}

/// What is wrong with the structure of a vintage.
pub enum Fault {
    /// So many weights for so many chromosomes.
    Misaligned(int, int),
    /// The weight at a position is not finite.
    Weight(int, Figure),
    /// The worst-case loss is not finite or lies below zero.
    Loss(Figure),
    /// The return at a position is not finite.
    Return(int, Figure),
    /// The figure of this name is not finite.
    Evidence(Seq<char>, Figure),
}

/// The fault an error reports, if it reports one.
pub open spec fn reported(e: VintageError) -> Option<Fault> {
    match e {
        VintageError::WeightChromosomeMismatch { weights, chromosomes } => Some(
            Fault::Misaligned(weights as int, chromosomes as int),
        ),
        VintageError::NonFiniteWeight { index, value } => Some(Fault::Weight(index as int, value)),
        VintageError::InvalidWorstCaseLoss { value } => Some(Fault::Loss(value)),
        VintageError::NonFiniteHoldoutReturn { index, value } => Some(
            Fault::Return(index as int, value),
        ),
        VintageError::NonFiniteEvidence { field, value } => Some(Fault::Evidence(field@, value)),
        _ => None,
    }
}

/// What a vintage holds, in so far as its checks read it. The calibration, slippage, sizing, shock
/// and lineage records ride along in the written form only.
#[derive(Debug, Clone, PartialEq, Eq)]
pub struct VintageContent {
    /// The version of the format.
    pub format_version: u16,
    /// The name of the vintage.
    pub vintage_id: String,
    /// The strategies.
    pub chromosomes: Vec<Genome>,
    /// The weight of each strategy.
    pub weights: Vec<Figure>,
    /// The loss of capital under the worst scenario, where scenarios were run.
    pub worst_case_loss: Option<Figure>,
    /// The catalogue the strategies were sealed against.
    pub catalogue: CatalogueIdentity,
    /// The figures the promotion was decided on.
    pub seal_evidence: SealEvidence,
    /// The returns over the holdout.
    pub holdout_series: HoldoutReturnSeries,
    /// Where the vintage comes from.
    pub provenance: ResearchProvenance,
}

/// Every figure of a vintage, in the order in which they are brought to the hashed precision.
pub open spec fn figures(c: VintageContent) -> Seq<Figure> {
    c.weights@ + option_figures(c.worst_case_loss) + c.holdout_series.returns@ + figures_of(
        evidence_fields(c.seal_evidence),
    )
}

/// Whether two contents are the same but for their figures.
pub open spec fn same_content(a: VintageContent, b: VintageContent) -> bool {
    &&& a.format_version == b.format_version
    &&& a.vintage_id@ == b.vintage_id@
    &&& a.chromosomes@ == b.chromosomes@
    &&& a.weights@.len() == b.weights@.len()
    &&& a.worst_case_loss is Some <==> b.worst_case_loss is Some
    &&& a.catalogue@ == b.catalogue@
    &&& same_evidence(a.seal_evidence, b.seal_evidence)
    &&& a.holdout_series.returns@.len() == b.holdout_series.returns@.len()
    &&& a.provenance == b.provenance
}

/// Whether `after` is `before` with `rounded` in place of its figures.
pub open spec fn is_canonical(
    before: VintageContent,
    rounded: Seq<Figure>,
    after: VintageContent,
) -> bool {
    same_content(before, after) && figures(after) == rounded
}

/// What is wrong with the structure of a vintage: the first of its faults in the order of the checks.
pub open spec fn fault_of(c: VintageContent) -> Option<Fault> {
    let fields = evidence_fields(c.seal_evidence);
    if c.weights@.len() != c.chromosomes@.len() {
        Some(Fault::Misaligned(c.weights@.len() as int, c.chromosomes@.len() as int))
    } else if let Some(p) = first_not_finite(c.weights@, 0) {
        Some(Fault::Weight(p, c.weights@[p]))
    } else if c.worst_case_loss matches Some(loss) && (!loss.finite() || loss.below_zero()) {
        Some(Fault::Loss(c.worst_case_loss->0))
    } else if let Some(p) = first_not_finite(c.holdout_series.returns@, 0) {
        Some(Fault::Return(p, c.holdout_series.returns@[p]))
    } else if let Some(p) = first_not_finite(figures_of(fields), 0) {
        Some(Fault::Evidence(fields[p].0, fields[p].1))
    } else {
        None
    }
}

/// Whether `r` is the verdict on sealing a content with `rounded` in place of its figures, which then
/// writes as `encoded`: the first of its faults, or the vintage with that content and that hash.
pub open spec fn is_seal_verdict(
    content: VintageContent,
    rounded: Seq<Figure>,
    encoded: Seq<u8>,
    r: Result<Vintage, VintageError>,
) -> bool {
    exists|c: VintageContent| #[trigger]
        is_canonical(content, rounded, c) && match fault_of(c) {
            None => r matches Ok(v) && v.content == c && v.content_hash@ == content_hash_text(
                encoded,
            ),
            Some(fault) => r matches Err(e) && reported(e) == Some(fault),
        }
}

/// The hash of a vintage written as these bytes: their SHA-256 in hexadecimal.
pub open spec fn content_hash_text(encoded: Seq<u8>) -> Seq<char> {
    hex_text(sha256_of(encoded))
}

/// Computes [`content_hash_text`]. This is also the handle under which a holdout series written as
/// these bytes is found.
pub fn content_hash(encoded: &Vec<u8>) -> (r: String)
    ensures
        r@ == content_hash_text(encoded@),
        r@.len() == 64,
{
    let digest: Vec<u8> = sha256(encoded);
    proof {
        crate::text::lemma_hex_len(digest@);
    }
    hex(&digest)
}

impl VintageContent {
    /// The name of each strategy: its position.
    pub fn strategy_ids(&self) -> (r: Vec<String>)
        ensures
            r.len() == self.chromosomes.len(),
            forall|i: int| 0 <= i < r.len() ==> (#[trigger] r[i])@ == decimal_text(i as nat),
    {
        let mut out: Vec<String> = Vec::new();
        let mut i: usize = 0;
        while i < self.chromosomes.len()
            invariant
                i <= self.chromosomes.len(),
                out.len() == i,
                forall|j: int| 0 <= j < i ==> (#[trigger] out[j])@ == decimal_text(j as nat),
            decreases self.chromosomes.len() - i,
        {
            let mut text: String = String::new();
            push_number(&mut text, i as u64);
            assert(text@ =~= decimal_text(i as nat));
            out.push(text);
            i = i + 1;
        }
        out
    }

    /// Every figure of the vintage, in the order in which [`VintageContent::canonicalize`] takes them.
    pub fn figures(&self) -> (r: Vec<Figure>)
        ensures
            r@ == figures(*self),
    {
        let mut out: Vec<Figure> = Vec::new();
        push_figures(&mut out, self.weights.as_slice());
        if let Some(loss) = self.worst_case_loss {
            out.push(loss);
        }
        assert(out@ =~= self.weights@ + option_figures(self.worst_case_loss));
        push_figures(&mut out, self.holdout_series.returns.as_slice());
        let evidence: NamedFigures = list_evidence(&self.seal_evidence);
        push_figures(&mut out, evidence.figures());
        out
    }

    /// Puts `rounded` in place of the figures, one for one in the order of [`VintageContent::figures`],
    /// and changes nothing else. A vintage is hashed only after each of its figures was replaced by
    /// itself at the hashed precision.
    pub fn canonicalize(&mut self, rounded: &Vec<Figure>)
        requires
            rounded@.len() == figures(*old(self)).len(),
        ensures
            is_canonical(*old(self), rounded@, *final(self)),
    {
        let ghost before = *self;
        let ghost a = before.weights@.len() as int;
        let ghost b = a + option_figures(before.worst_case_loss).len();
        let ghost c = b + before.holdout_series.returns@.len();
        let ghost d = c + evidence_fields(before.seal_evidence).len();
        let weights: usize = self.weights.len();
        refill(&mut self.weights, rounded.as_slice(), 0);
        let at: usize = refill_option(&mut self.worst_case_loss, rounded.as_slice(), weights);
        let bars: usize = self.holdout_series.returns.len();
        refill(&mut self.holdout_series.returns, rounded.as_slice(), at);
        assert(at + bars == c && c <= rounded.len());
        refill_evidence(&mut self.seal_evidence, rounded.as_slice(), at + bars);
        assert(rounded@.subrange(0, a) + rounded@.subrange(a, b) + rounded@.subrange(b, c)
            + rounded@.subrange(c, d) =~= rounded@);
    }

    /// Checks the structure: one weight for each chromosome, every figure finite, no loss below zero.
    pub fn validate(&self) -> (r: Result<(), VintageError>)
        ensures
            match fault_of(*self) {
                None => r == Ok::<(), VintageError>(()),
                Some(fault) => r matches Err(e) && reported(e) == Some(fault),
            },
    {
        if self.weights.len() != self.chromosomes.len() {
            return Err(
                VintageError::WeightChromosomeMismatch {
                    weights: self.weights.len(),
                    chromosomes: self.chromosomes.len(),
                },
            );
        }
        proof {
            crate::vintage::figure::law_first_not_finite(self.weights@, 0);
            crate::vintage::figure::law_first_not_finite(self.holdout_series.returns@, 0);
        }
        if let Some(index) = find_not_finite(self.weights.as_slice()) {
            return Err(VintageError::NonFiniteWeight { index, value: self.weights[index] });
        }
        if let Some(value) = self.worst_case_loss {
            if !value.is_finite() || value.is_below_zero() {
                return Err(VintageError::InvalidWorstCaseLoss { value });
            }
        }
        if let Some(index) = find_not_finite(self.holdout_series.returns.as_slice()) {
            return Err(
                VintageError::NonFiniteHoldoutReturn {
                    index,
                    value: self.holdout_series.returns[index],
                },
            );
        }
        let evidence: NamedFigures = list_evidence(&self.seal_evidence);
        proof {
            crate::vintage::figure::law_first_not_finite(figures_of(evidence@), 0);
        }
        if let Some(index) = find_not_finite(evidence.figures()) {
            return Err(
                VintageError::NonFiniteEvidence {
                    field: evidence.name(index),
                    value: evidence.figures()[index],
                },
            );
        }
        Ok(())
    }
}

/// Appends figures.
fn push_figures(out: &mut Vec<Figure>, more: &[Figure])
    ensures
        final(out)@ == old(out)@ + more@,
{
    let ghost before = out@;
    let mut i: usize = 0;
    while i < more.len()
        invariant
            i <= more.len(),
            out@ =~= before + more@.take(i as int),
        decreases more.len() - i,
    {
        out.push(more[i]);
        i = i + 1;
    }
    assert(more@.take(i as int) =~= more@);
}

/// A sealed vintage: its content and the hash that pins it.
#[derive(Debug, Clone, PartialEq, Eq)]
pub struct Vintage {
    /// The content.
    pub content: VintageContent,
    /// The hash of the content as it was written when it was sealed.
    pub content_hash: String,
}

impl Vintage {
    /// Seals a content: puts `rounded` in place of its figures, checks its structure, and pins the hash
    /// of `encoded`, which is what it then writes as.
    pub fn seal(content: VintageContent, rounded: &Vec<Figure>, encoded: &Vec<u8>) -> (r: Result<
        Vintage,
        VintageError,
    >)
        requires
            rounded@.len() == figures(content).len(),
        ensures
            is_seal_verdict(content, rounded@, encoded@, r),
    {
        let mut content: VintageContent = content;
        let ghost before = content;
        content.canonicalize(rounded);
        assert(is_canonical(before, rounded@, content));
        match content.validate() {
            Ok(_) => Ok(Vintage { content, content_hash: content_hash(encoded) }),
            Err(e) => Err(e),
        }
    }

    /// Checks that the content, which writes as `encoded`, is the one that was sealed.
    pub fn verify(&self, encoded: &Vec<u8>) -> (r: Result<(), VintageError>)
        ensures
            match r {
                Ok(_) => self.content_hash@ == content_hash_text(encoded@),
                Err(e) => self.content_hash@ != content_hash_text(encoded@) && (e matches
                    VintageError::HashMismatch { stored, recomputed } && stored@
                    == self.content_hash@ && recomputed@ == content_hash_text(encoded@)),
            },
    {
        let recomputed: String = content_hash(encoded);
        if text_equal(recomputed.as_str(), self.content_hash.as_str()) {
            Ok(())
        } else {
            Err(VintageError::HashMismatch { stored: self.content_hash.clone(), recomputed })
        }
    }
}

/// What was sealed has no fault: one weight for each chromosome, every figure finite, and no loss
/// below zero.
pub proof fn law_sealed_content_is_sound(c: VintageContent)
    requires
        fault_of(c) is None,
    ensures
        c.weights@.len() == c.chromosomes@.len(),
        forall|i: int| 0 <= i < figures(c).len() ==> (#[trigger] figures(c)[i]).finite(),
        c.worst_case_loss matches Some(loss) ==> !loss.below_zero(),
{
    let w = c.weights@;
    let l = option_figures(c.worst_case_loss);
    let h = c.holdout_series.returns@;
    let e = figures_of(evidence_fields(c.seal_evidence));
    crate::vintage::figure::law_first_not_finite(w, 0);
    crate::vintage::figure::law_first_not_finite(h, 0);
    crate::vintage::figure::law_first_not_finite(e, 0);
    assert forall|i: int| 0 <= i < figures(c).len() implies (#[trigger] figures(c)[i]).finite() by {
        if i < w.len() {
            assert(figures(c)[i] == w[i]);
        } else if i < w.len() + l.len() {
            assert(figures(c)[i] == l[i - w.len()]);
        } else if i < w.len() + l.len() + h.len() {
            assert(figures(c)[i] == h[i - w.len() - l.len()]);
        } else {
            assert(figures(c)[i] == e[i - w.len() - l.len() - h.len()]);
        }
    }
}

/// Its figures and what else it holds pin a content: two that agree in both agree figure by figure.
pub proof fn law_figures_pin_the_content(a: VintageContent, b: VintageContent)
    requires
        same_content(a, b),
        figures(a) == figures(b),
    ensures
        a.weights@ == b.weights@,
        a.worst_case_loss == b.worst_case_loss,
        a.holdout_series.returns@ == b.holdout_series.returns@,
        evidence_fields(a.seal_evidence) == evidence_fields(b.seal_evidence),
{
    let x = evidence_fields(a.seal_evidence);
    let y = evidence_fields(b.seal_evidence);
    crate::vintage::evidence::law_names_do_not_depend_on_figures(a.seal_evidence, b.seal_evidence);
    let w = a.weights@.len() as int;
    let l = w + option_figures(a.worst_case_loss).len();
    let h = l + a.holdout_series.returns@.len();
    let n = h + x.len();
    assert(a.weights@ =~= figures(a).subrange(0, w));
    assert(b.weights@ =~= figures(b).subrange(0, w));
    assert(option_figures(a.worst_case_loss) =~= figures(a).subrange(w, l));
    assert(option_figures(b.worst_case_loss) =~= figures(b).subrange(w, l));
    if a.worst_case_loss is Some {
        assert(option_figures(a.worst_case_loss)[0] == a.worst_case_loss->0);
        assert(option_figures(b.worst_case_loss)[0] == b.worst_case_loss->0);
    }
    assert(a.holdout_series.returns@ =~= figures(a).subrange(l, h));
    assert(b.holdout_series.returns@ =~= figures(b).subrange(l, h));
    assert(figures_of(x) =~= figures(a).subrange(h, n));
    assert(figures_of(y) =~= figures(b).subrange(h, n));
    assert forall|i: int| 0 <= i < x.len() implies x[i] == y[i] by {
        assert(figures_of(x)[i] == figures_of(y)[i]);
    }
    assert(x =~= y);
}

/// The verdict on a content follows from what is sealed: two contents that are the same with the same
/// figures in place have the same fault, so that sealing again what was sealed changes nothing.
pub proof fn law_sealing_is_determined(
    before: VintageContent,
    rounded: Seq<Figure>,
    a: VintageContent,
    b: VintageContent,
)
    requires
        is_canonical(before, rounded, a),
        is_canonical(before, rounded, b),
    ensures
        fault_of(a) == fault_of(b),
        is_canonical(a, rounded, a),
        is_canonical(a, rounded, b),
{
    crate::vintage::evidence::lemma_same_as_one(
        before.seal_evidence,
        a.seal_evidence,
        b.seal_evidence,
    );
    law_figures_pin_the_content(a, b);
}

/// What rounding removes does not show in a seal: two contents that are the same but for their figures, and
/// whose figures round alike, are both sealed or both refused; where they are sealed it is with the same
/// content, every figure as it was rounded and nothing else changed, and under the same hash. The seal
/// verifies, and sealing what was sealed gives the same vintage again.
pub proof fn law_seal_ignores_what_rounding_removes(
    a: VintageContent,
    b: VintageContent,
    rounded: Seq<Figure>,
    encoded: Seq<u8>,
    ra: Result<Vintage, VintageError>,
    rb: Result<Vintage, VintageError>,
    again: Result<Vintage, VintageError>,
)
    requires
        same_content(a, b),
        is_seal_verdict(a, rounded, encoded, ra),
        is_seal_verdict(b, rounded, encoded, rb),
        ra matches Ok(v) ==> is_seal_verdict(v.content, rounded, encoded, again),
    ensures
        ra is Ok <==> rb is Ok,
        ra matches Ok(v) ==> {
            &&& is_canonical(a, rounded, v.content)
            &&& is_canonical(v.content, rounded, rb->Ok_0.content)
            &&& v.content_hash@ == content_hash_text(encoded)
            &&& rb->Ok_0.content_hash@ == v.content_hash@
            &&& again matches Ok(w) && is_canonical(v.content, rounded, w.content)
                && w.content_hash@ == v.content_hash@
        },
        ra matches Err(e) ==> reported(rb->Err_0) == reported(e),
{
    let ca = choose|c: VintageContent| #[trigger]
        is_canonical(a, rounded, c) && match fault_of(c) {
            None => ra matches Ok(v) && v.content == c && v.content_hash@ == content_hash_text(
                encoded,
            ),
            Some(fault) => ra matches Err(e) && reported(e) == Some(fault),
        };
    let cb = choose|c: VintageContent| #[trigger]
        is_canonical(b, rounded, c) && match fault_of(c) {
            None => rb matches Ok(v) && v.content == c && v.content_hash@ == content_hash_text(
                encoded,
            ),
            Some(fault) => rb matches Err(e) && reported(e) == Some(fault),
        };
    lemma_same_content_chains(a, b, cb);
    law_sealing_is_determined(a, rounded, ca, cb);
    if ra is Ok {
        let cc = choose|c: VintageContent| #[trigger]
            is_canonical(ca, rounded, c) && match fault_of(c) {
                None => again matches Ok(v) && v.content == c && v.content_hash@
                    == content_hash_text(encoded),
                Some(fault) => again matches Err(e) && reported(e) == Some(fault),
            };
        law_sealing_is_determined(ca, rounded, ca, cc);
    }
}

proof fn lemma_same_content_chains(a: VintageContent, b: VintageContent, c: VintageContent)
    requires
        same_content(a, b),
        same_content(b, c),
    ensures
        same_content(a, c),
{
    crate::vintage::evidence::lemma_same_as_one(a.seal_evidence, b.seal_evidence, a.seal_evidence);
    crate::vintage::evidence::lemma_same_as_one(b.seal_evidence, a.seal_evidence, c.seal_evidence);
}

/// A figure that is not finite, wherever it stands, is a fault.
pub proof fn law_every_figure_is_checked(c: VintageContent, i: int)
    requires
        0 <= i < figures(c).len(),
        !figures(c)[i].finite(),
    ensures
        fault_of(c) is Some,
{
    if fault_of(c) is None {
        law_sealed_content_is_sound(c);
    }
}

/// A seal holds for the bytes it was made over, and for other bytes only where their hash is the same.
pub proof fn law_seal_detects_changes(sealed: Seq<u8>, loaded: Seq<u8>)
    ensures
        sealed == loaded ==> content_hash_text(sealed) == content_hash_text(loaded),
        content_hash_text(sealed) == content_hash_text(loaded) <==> sha256_of(sealed) == sha256_of(
            loaded,
        ),
{
    if content_hash_text(sealed) == content_hash_text(loaded) {
        crate::text::law_hex_is_injective(sha256_of(sealed), sha256_of(loaded));
    }
}

/// A fault names what is wrong, and nothing is wrong in front of it: the weights first, in number and then
/// one by one, then the loss, then the returns, then the figures of the evidence in their order.
pub proof fn law_first_fault_is_named(c: VintageContent)
    ensures
        (fault_of(c) is Some && fault_of(c)->0 is Misaligned) <==> c.weights@.len()
            != c.chromosomes@.len(),
        match fault_of(c) {
            None => true,
            Some(Fault::Misaligned(weights, chromosomes)) => weights == c.weights@.len()
                && chromosomes == c.chromosomes@.len(),
            Some(Fault::Weight(i, f)) => 0 <= i < c.weights@.len() && f == c.weights@[i]
                && !f.finite() && forall|j: int| 0 <= j < i ==> (#[trigger] c.weights@[j]).finite(),
            Some(Fault::Loss(f)) => c.worst_case_loss == Some(f) && (!f.finite() || f.below_zero())
                && forall|j: int|
                0 <= j < c.weights@.len() ==> (#[trigger] c.weights@[j]).finite(),
            Some(Fault::Return(i, f)) => {
                &&& 0 <= i < c.holdout_series.returns@.len()
                &&& f == c.holdout_series.returns@[i]
                &&& !f.finite()
                &&& forall|j: int|
                    0 <= j < i ==> (#[trigger] c.holdout_series.returns@[j]).finite()
                &&& forall|j: int|
                    0 <= j < c.weights@.len() ==> (#[trigger] c.weights@[j]).finite()
                &&& c.worst_case_loss matches Some(loss) ==> loss.finite() && !loss.below_zero()
            },
            Some(Fault::Evidence(name, f)) => {
                &&& !f.finite()
                &&& crate::vintage::evidence::lists(evidence_fields(c.seal_evidence), name, f)
                &&& forall|j: int|
                    0 <= j < c.weights@.len() ==> (#[trigger] c.weights@[j]).finite()
                &&& forall|j: int|
                    0 <= j < c.holdout_series.returns@.len() ==> (
                    #[trigger] c.holdout_series.returns@[j]).finite()
                &&& c.worst_case_loss matches Some(loss) ==> loss.finite() && !loss.below_zero()
            },
        },
{
    let fields = evidence_fields(c.seal_evidence);
    let e = figures_of(fields);
    crate::vintage::figure::law_first_not_finite(c.weights@, 0);
    crate::vintage::figure::law_first_not_finite(c.holdout_series.returns@, 0);
    crate::vintage::figure::law_first_not_finite(e, 0);
    if let Some(p) = first_not_finite(e, 0) {
        assert(fields[p] == (fields[p].0, fields[p].1));
    }
}

/// A content without a fault has as many weights as chromosomes, a worst-case loss that is a number and not
/// below zero where it has one, and nothing but finite figures: weights, returns and evidence alike.
pub proof fn law_sound_content_is_finite_throughout(
    c: VintageContent,
    i: int,
    name: Seq<char>,
    f: Figure,
)
    requires
        fault_of(c) is None,
    ensures
        c.weights@.len() == c.chromosomes@.len(),
        0 <= i < c.weights@.len() ==> c.weights@[i].finite(),
        0 <= i < c.holdout_series.returns@.len() ==> c.holdout_series.returns@[i].finite(),
        c.worst_case_loss matches Some(loss) ==> loss.finite() && !loss.below_zero(),
        crate::vintage::evidence::lists(evidence_fields(c.seal_evidence), name, f) ==> f.finite(),
{
    let fields = evidence_fields(c.seal_evidence);
    let e = figures_of(fields);
    crate::vintage::figure::law_first_not_finite(c.weights@, 0);
    crate::vintage::figure::law_first_not_finite(c.holdout_series.returns@, 0);
    crate::vintage::figure::law_first_not_finite(e, 0);
    if crate::vintage::evidence::lists(fields, name, f) {
        let k = choose|k: int| 0 <= k < fields.len() && #[trigger] fields[k] == (name, f);
        assert(e[k] == f);
    }
}

/// The figures of a content are its weights, its loss where it has one, its returns and its evidence, one
/// behind the other.
pub proof fn law_figures_are_listed_in_order(c: VintageContent, i: int)
    ensures
        ({
            let all = figures(c);
            let w = c.weights@.len();
            let l = if c.worst_case_loss is Some {
                1nat
            } else {
                0nat
            };
            let h = c.holdout_series.returns@.len();
            &&& 0 <= i < w ==> all[i] == c.weights@[i]
            &&& c.worst_case_loss matches Some(loss) ==> all[w as int] == loss
            &&& 0 <= i < h ==> all[w + l + i] == c.holdout_series.returns@[i]
            &&& 0 <= i < evidence_fields(c.seal_evidence).len() ==> all[w + l + h + i]
                == evidence_fields(c.seal_evidence)[i].1
            &&& all.len() == w + l + h + evidence_fields(c.seal_evidence).len()
        }),
{
}

} // verus!
