//! The prerequisites that a production campaign needs, one bit each.

use vstd::prelude::*;

verus! {

/// The bit of ensemble-correlation deflation.
pub const BASIS_QE430_ENSEMBLE_CORR: u32 = 1;

/// The bit of the slow reference oracle.
pub const BASIS_QE432_REFERENCE_ORACLE: u32 = 2;

/// The bit of screening by information coefficient.
pub const BASIS_QE434_IC_SCREEN: u32 = 4;

/// The bit of parsimony.
pub const BASIS_QE436_MDL: u32 = 8;

/// The bit of the trial basis.
pub const BASIS_QE439_TRIAL_BASIS: u32 = 16;

/// Every bit that a production campaign needs.
pub const REQUIRED_DEFLATION_BASIS: u32 = 31;

/// The bits that this build has.
pub const DEFLATION_BASIS_VERSION: u32 = 31;

/// Whether a version has a prerequisite.
pub open spec fn has(version: u32, bit: u32) -> bool {
    version & bit != 0
}

/// Whether a version has every prerequisite.
pub open spec fn has_all(version: u32) -> bool {
    &&& has(version, BASIS_QE430_ENSEMBLE_CORR)
    &&& has(version, BASIS_QE432_REFERENCE_ORACLE)
    &&& has(version, BASIS_QE434_IC_SCREEN)
    &&& has(version, BASIS_QE436_MDL)
    &&& has(version, BASIS_QE439_TRIAL_BASIS)
}

/// A list with one more name, if that is missing.
pub open spec fn with_missing(
    names: Seq<Seq<char>>,
    version: u32,
    bit: u32,
    name: Seq<char>,
) -> Seq<Seq<char>> {
    if has(version, bit) {
        names
    } else {
        names.push(name)
    }
}

/// The names of the prerequisites that a version does not have.
pub open spec fn missing(version: u32) -> Seq<Seq<char>> {
    let a = with_missing(
        Seq::empty(),
        version,
        BASIS_QE430_ENSEMBLE_CORR,
        "QE-430 ensemble-correlation deflation"@,
    );
    let b = with_missing(
        a,
        version,
        BASIS_QE432_REFERENCE_ORACLE,
        "QE-432 slow reference oracle"@,
    );
    let c = with_missing(b, version, BASIS_QE434_IC_SCREEN, "QE-434 IC screening"@);
    let d = with_missing(c, version, BASIS_QE436_MDL, "QE-436 parsimony/MDL"@);
    with_missing(d, version, BASIS_QE439_TRIAL_BASIS, "QE-439 DSR trial basis"@)
}

/// A version has every prerequisite exactly if none is missing.
pub proof fn law_satisfied_iff_nothing_missing(version: u32)
    ensures
        has_all(version) <==> missing(version).len() == 0,
{
}

/// One name is missing for every one of the five lowest bits that is not set, and that name is listed.
pub proof fn law_missing_names_the_bits(version: u32)
    ensures
        missing(version).len() == (if version & 1 == 0 {
            1int
        } else {
            0
        }) + (if version & 2 == 0 {
            1int
        } else {
            0
        }) + (if version & 4 == 0 {
            1int
        } else {
            0
        }) + (if version & 8 == 0 {
            1int
        } else {
            0
        }) + (if version & 16 == 0 {
            1int
        } else {
            0
        }),
        version & 1 == 0 ==> missing(version).first() == "QE-430 ensemble-correlation deflation"@,
        version & 2 == 0 ==> missing(version).contains("QE-432 slow reference oracle"@),
        version & 4 == 0 ==> missing(version).contains("QE-434 IC screening"@),
        version & 8 == 0 ==> missing(version).contains("QE-436 parsimony/MDL"@),
        version & 16 == 0 ==> missing(version).last() == "QE-439 DSR trial basis"@,
{
    let a = with_missing(
        Seq::empty(),
        version,
        BASIS_QE430_ENSEMBLE_CORR,
        "QE-430 ensemble-correlation deflation"@,
    );
    let b = with_missing(
        a,
        version,
        BASIS_QE432_REFERENCE_ORACLE,
        "QE-432 slow reference oracle"@,
    );
    let c = with_missing(b, version, BASIS_QE434_IC_SCREEN, "QE-434 IC screening"@);
    let all = missing(version);
    if version & 2 == 0 {
        assert(all[a.len() as int] == "QE-432 slow reference oracle"@);
    }
    if version & 4 == 0 {
        assert(all[b.len() as int] == "QE-434 IC screening"@);
    }
    if version & 8 == 0 {
        assert(all[c.len() as int] == "QE-436 parsimony/MDL"@);
    }
}

/// Whether a version has every prerequisite bit.
pub fn basis_satisfied(version: u32) -> (r: bool)
    ensures
        r == has_all(version),
        r == (version & REQUIRED_DEFLATION_BASIS == REQUIRED_DEFLATION_BASIS),
{
    assert(version & 31 == 31 <==> version & 1 != 0 && version & 2 != 0 && version & 4 != 0
        && version & 8 != 0 && version & 16 != 0) by (bit_vector);
    version & REQUIRED_DEFLATION_BASIS == REQUIRED_DEFLATION_BASIS
}

/// Whether this build has every prerequisite.
pub fn deflation_basis_satisfied() -> (r: bool)
    ensures
        r,
{
    assert(31u32 & 31 == 31) by (bit_vector);
    basis_satisfied(DEFLATION_BASIS_VERSION)
}

/// The views of some names.
pub open spec fn name_views(names: Seq<&'static str>) -> Seq<Seq<char>> {
    Seq::new(names.len(), |i: int| names[i]@)
}

/// Adds a name, if that is missing.
fn add_missing(names: &mut Vec<&'static str>, version: u32, bit: u32, name: &'static str)
    ensures
        name_views(final(names)@) == with_missing(name_views(old(names)@), version, bit, name@),
{
    let ghost before = name_views(names@);
    if version & bit == 0 {
        names.push(name);
        assert(name_views(names@) =~= before.push(name@));
    }
}

/// The names of the prerequisites that a version does not have.
pub fn missing_basis_prereqs(version: u32) -> (r: Vec<&'static str>)
    ensures
        name_views(r@) == missing(version),
{
    let mut names: Vec<&'static str> = Vec::new();
    assert(name_views(names@) =~= Seq::empty());
    add_missing(
        &mut names,
        version,
        BASIS_QE430_ENSEMBLE_CORR,
        "QE-430 ensemble-correlation deflation",
    );
    add_missing(
        &mut names,
        version,
        BASIS_QE432_REFERENCE_ORACLE,
        "QE-432 slow reference oracle",
    );
    add_missing(&mut names, version, BASIS_QE434_IC_SCREEN, "QE-434 IC screening");
    add_missing(&mut names, version, BASIS_QE436_MDL, "QE-436 parsimony/MDL");
    add_missing(&mut names, version, BASIS_QE439_TRIAL_BASIS, "QE-439 DSR trial basis");
    names
}

} // verus!
