//! The versions of everything that is kept, and the checks a vintage passes when it is loaded.

use vstd::prelude::*;

use crate::signal::feature::{identity_of, CatalogueIdentity, IdentityModel};
use crate::signal::genome::{Genome, REP_VERSION};
use crate::signal::indicator::CATALOGUE_VERSION;
use crate::text::{is_sorted_listing, text_equal, views};
use crate::vintage::content::{VintageContent, VintageError, VINTAGE_FORMAT_VERSION};

verus! {

/// The version of the catalogue pinned in every vintage.
pub const CATALOGUE_SCHEMA_VERSION: u32 = CATALOGUE_VERSION;

/// The version of the representation of chromosomes.
pub const GENOME_REP_VERSION: u16 = REP_VERSION;

/// The version of the vintage format.
pub const VINTAGE_SCHEMA_VERSION: u16 = VINTAGE_FORMAT_VERSION;

/// The version of the market store.
pub const MARKET_STORE_SCHEMA_VERSION: u32 = 1;

/// The first position from `from` on of a chromosome with another representation.
pub open spec fn first_other_rep(chromosomes: Seq<Genome>, from: int) -> Option<int>
    decreases chromosomes.len() - from,
{
    if from < 0 || from >= chromosomes.len() {
        None
    } else if chromosomes[from].version != GENOME_REP_VERSION {
        Some(from)
    } else {
        first_other_rep(chromosomes, from + 1)
    }
}

/// Whether `r` is the verdict on a vintage where the catalogue is to be `expected`: refused for its
/// catalogue, else for its first chromosome with another representation, else accepted.
pub open spec fn is_schema_verdict(
    content: VintageContent,
    expected: IdentityModel,
    r: Result<(), VintageError>,
) -> bool {
    if content.catalogue@ != expected {
        r matches Err(VintageError::SchemaMismatch { expected: e, found }) && e@ == expected
            && found@ == content.catalogue@
    } else {
        match first_other_rep(content.chromosomes@, 0) {
            Some(p) => r matches Err(
                VintageError::GenomeRepMismatch { index, expected: e, found },
            ) && index == p && e == GENOME_REP_VERSION && found
                == content.chromosomes@[p].version,
            None => r == Ok::<(), VintageError>(()),
        }
    }
}

/// Whether two texts lists are the same.
fn same_texts(a: &Vec<String>, b: &Vec<String>) -> (r: bool)
    ensures
        r == (views(a@) == views(b@)),
{
    if a.len() != b.len() {
        assert(views(a@).len() != views(b@).len());
        return false;
    }
    let mut i: usize = 0;
    while i < a.len()
        invariant
            i <= a.len() == b.len(),
            forall|j: int| 0 <= j < i ==> #[trigger] views(a@)[j] == views(b@)[j],
        decreases a.len() - i,
    {
        if !text_equal(a[i].as_str(), b[i].as_str()) {
            assert(views(a@)[i as int] != views(b@)[i as int]);
            return false;
        }
        i = i + 1;
    }
    assert(views(a@) =~= views(b@));
    true
}

/// Whether two catalogues are the same.
fn same_identity(a: &CatalogueIdentity, b: &CatalogueIdentity) -> (r: bool)
    ensures
        r == (a@ == b@),
{
    a.catalogue_version == b.catalogue_version && a.num_states == b.num_states && text_equal(
        a.id_hash.as_str(),
        b.id_hash.as_str(),
    ) && same_texts(&a.formula_pool, &b.formula_pool)
}

/// Checks that a vintage was sealed against the catalogue `expected`, and that each of its
/// chromosomes has the representation of this library.
fn assert_schema_against(content: &VintageContent, expected: &CatalogueIdentity) -> (r: Result<
    (),
    VintageError,
>)
    ensures
        is_schema_verdict(*content, expected@, r),
{
    if !same_identity(&content.catalogue, expected) {
        return Err(
            VintageError::SchemaMismatch {
                expected: expected.clone(),
                found: content.catalogue.clone(),
            },
        );
    }
    let mut index: usize = 0;
    while index < content.chromosomes.len()
        invariant
            index <= content.chromosomes.len(),
            content.catalogue@ == expected@,
            first_other_rep(content.chromosomes@, 0) == first_other_rep(
                content.chromosomes@,
                index as int,
            ),
        decreases content.chromosomes.len() - index,
    {
        let found: u16 = content.chromosomes[index].version;
        if found != GENOME_REP_VERSION {
            return Err(
                VintageError::GenomeRepMismatch { index, expected: GENOME_REP_VERSION, found },
            );
        }
        index = index + 1;
    }
    Ok(())
}

/// Checks that a vintage was sealed against the catalogue of this library, without evolved formulas,
/// and that each of its chromosomes has the representation of this library.
pub fn assert_schema(content: &VintageContent) -> (r: Result<(), VintageError>)
    ensures
        is_schema_verdict(*content, identity_of(5, Seq::empty()), r),
{
    assert_schema_against(content, &CatalogueIdentity::current())
}

/// Checks the same against the catalogue widened by the formulas of a pool, in whatever order their
/// hashes are listed.
pub fn assert_schema_with_pool(
    content: &VintageContent,
    sanctioned_pool_hashes: &[String],
) -> (r: Result<(), VintageError>)
    ensures
        exists|pool: Seq<Seq<char>>|
            is_sorted_listing(views(sanctioned_pool_hashes@), pool) && #[trigger] is_schema_verdict(
                *content,
                identity_of(5, pool),
                r,
            ),
{
    let mut pool: Vec<String> = Vec::new();
    let mut i: usize = 0;
    while i < sanctioned_pool_hashes.len()
        invariant
            i <= sanctioned_pool_hashes.len(),
            views(pool@) =~= views(sanctioned_pool_hashes@).take(i as int),
        decreases sanctioned_pool_hashes.len() - i,
    {
        let ghost before = views(pool@);
        pool.push(sanctioned_pool_hashes[i].clone());
        assert(views(pool@) =~= before.push(sanctioned_pool_hashes@[i as int]@));
        i = i + 1;
    }
    assert(views(pool@) =~= views(sanctioned_pool_hashes@));
    let expected: CatalogueIdentity = CatalogueIdentity::current_with_pool(pool);
    let r: Result<(), VintageError> = assert_schema_against(content, &expected);
    assert(is_schema_verdict(*content, identity_of(5, expected@.formula_pool), r));
    r
}

/// Only an exact match loads: another version, another number of states, another order of the
/// indicators, a formula more or less, or a chromosome of another representation is refused.
pub proof fn law_only_an_exact_match_loads(
    content: VintageContent,
    expected: IdentityModel,
    r: Result<(), VintageError>,
)
    requires
        is_schema_verdict(content, expected, r),
    ensures
        r is Ok <==> content.catalogue@ == expected && forall|i: int|
            0 <= i < content.chromosomes@.len() ==> (#[trigger] content.chromosomes@[i]).version
                == GENOME_REP_VERSION,
        content.catalogue@.catalogue_version != expected.catalogue_version ==> r is Err,
        content.catalogue@.num_states != expected.num_states ==> r is Err,
        content.catalogue@.id_hash != expected.id_hash ==> r is Err,
        content.catalogue@.formula_pool != expected.formula_pool ==> r is Err,
{
    lemma_first_other_rep(content.chromosomes@, 0);
}

/// A vintage with evolved formulas passes no check that names none.
pub proof fn law_pool_fails_the_plain_check(
    content: VintageContent,
    pool: Seq<Seq<char>>,
    r: Result<(), VintageError>,
)
    requires
        content.catalogue@ == identity_of(5, pool),
        pool.len() > 0,
        is_schema_verdict(content, identity_of(5, Seq::empty()), r),
    ensures
        r is Err,
{
    assert(content.catalogue@.formula_pool != identity_of(5, Seq::empty()).formula_pool);
}

proof fn lemma_first_other_rep(chromosomes: Seq<Genome>, from: int)
    requires
        0 <= from,
    ensures
        match first_other_rep(chromosomes, from) {
            Some(p) => from <= p < chromosomes.len() && chromosomes[p].version
                != GENOME_REP_VERSION,
            None => forall|i: int|
                from <= i < chromosomes.len() ==> (#[trigger] chromosomes[i]).version
                    == GENOME_REP_VERSION,
        },
    decreases chromosomes.len() - from,
{
    if from < chromosomes.len() && chromosomes[from].version == GENOME_REP_VERSION {
        lemma_first_other_rep(chromosomes, from + 1);
    }
}

/// A refusal says what it refuses: another catalogue with both of them, or the first chromosome of another
/// representation with its position; the catalogue is judged first.
pub proof fn law_refusal_names_the_mismatch(
    content: VintageContent,
    expected: IdentityModel,
    r: Result<(), VintageError>,
)
    requires
        is_schema_verdict(content, expected, r),
    ensures
        content.catalogue@ != expected ==> (r matches Err(e) && e is SchemaMismatch),
        r matches Err(VintageError::GenomeRepMismatch { index, expected: want, found })
            ==> content.catalogue@ == expected && index < content.chromosomes@.len() && want
            == GENOME_REP_VERSION && found == content.chromosomes@[index as int].version && found
            != GENOME_REP_VERSION && forall|j: int|
            0 <= j < index ==> (#[trigger] content.chromosomes@[j]).version == GENOME_REP_VERSION,
{
    lemma_first_other_rep(content.chromosomes@, 0);
    lemma_none_before(content.chromosomes@, 0);
}

proof fn lemma_none_before(chromosomes: Seq<Genome>, from: int)
    requires
        0 <= from,
    ensures
        first_other_rep(chromosomes, from) matches Some(p) ==> forall|i: int|
            from <= i < p ==> (#[trigger] chromosomes[i]).version == GENOME_REP_VERSION,
    decreases chromosomes.len() - from,
{
    if from < chromosomes.len() && chromosomes[from].version == GENOME_REP_VERSION {
        lemma_none_before(chromosomes, from + 1);
    }
}

} // verus!
