//! The trial counts that results are deflated against, and the floors that steering cannot lower.

use vstd::prelude::*;

verus! {

/// The number of cells of the descriptor space: 5 families, 3 timescales, 3 complexities.
pub const DESCRIPTOR_SPACE_CELLS: usize = 45;

/// The smallest number of occupied niches.
pub const MIN_OCCUPIED_NICHES: usize = 5;

/// The smallest number of walk-forward windows.
pub const MIN_WFO_WINDOWS: usize = 4;

/// The smallest number of cross-validation folds.
pub const MIN_WFO_FOLDS: usize = 2;

/// The floor of the capacity, in dollars.
pub const CAPACITY_FLOOR_USD: i64 = 250_000;

/// The floor of the holdout, in bars.
pub const HOLDOUT_FLOOR: usize = 250;

/// The floor of the embargo, in bars.
pub const EMBARGO_FLOOR: usize = 1;

/// The floor of the purge, in bars.
pub const PURGE_FLOOR: usize = 1;

/// The floor of the friction multiplier, in percent.
pub const COST_STRESS_MULTIPLIER_FLOOR_PERCENT: u32 = 100;

/// The floor of the turnover cap, in percent.
pub const MAX_TURNOVER_CAP_FLOOR_PERCENT: u32 = 25;

/// The floor of the deflated-Sharpe cutoff, in percent.
pub const DSR_CUTOFF_FLOOR_PERCENT: u32 = 95;

/// The floor of the overfitting-probability cutoff, in percent.
pub const PBO_CUTOFF_FLOOR_PERCENT: u32 = 50;

/// The floor of the false-discovery threshold, in percent.
pub const IC_FDR_THRESHOLD_FLOOR_PERCENT: u32 = 10;

/// An integer, or the largest machine integer if it is larger.
pub open spec fn saturated(x: int) -> int {
    if x <= usize::MAX {
        x
    } else {
        usize::MAX as int
    }
}

/// The product of two numbers, or the largest machine integer if it is larger.
fn saturating_product(a: usize, b: usize) -> (r: usize)
    ensures
        r == saturated(a * b),
{
    match a.checked_mul(b) {
        Some(p) => p,
        None => usize::MAX,
    }
}

/// The number of trials: cells, generations and windows multiplied, saturating at every step.
pub open spec fn trials(cells: int, generations: int, windows: int) -> int {
    saturated(saturated(cells * generations) * windows)
}

/// The number of trials that an archive's cells, generations and windows amount to.
pub fn effective_trials(cells: usize, generations: usize, windows: usize) -> (r: usize)
    ensures
        r == trials(cells as int, generations as int, windows as int),
{
    saturating_product(saturating_product(cells, generations), windows)
}

/// The number of features that a search may refer to: those of the catalogue and the evolved ones.
pub fn available_feature_space(catalogue_count: usize, evolved_count: usize) -> (r: usize)
    ensures
        r == saturated(catalogue_count + evolved_count),
{
    match catalogue_count.checked_add(evolved_count) {
        Some(sum) => sum,
        None => usize::MAX,
    }
}

/// The number of trials, scaled by the size of the feature space, which counts as at least one.
pub open spec fn trials_with_features(
    cells: int,
    generations: int,
    windows: int,
    features: int,
) -> int {
    saturated(
        trials(cells, generations, windows) * (if features < 1 {
            1
        } else {
            features
        }),
    )
}

/// The number of trials, scaled by the size of the feature space that the search may refer to.
pub fn effective_trials_with_features(
    cells: usize,
    generations: usize,
    windows: usize,
    feature_space: usize,
) -> (r: usize)
    ensures
        r == trials_with_features(
            cells as int,
            generations as int,
            windows as int,
            feature_space as int,
        ),
{
    let features: usize = if feature_space < 1 {
        1
    } else {
        feature_space
    };
    saturating_product(effective_trials(cells, generations, windows), features)
}

proof fn lemma_products_grow(a: int, b: int, c: int, d: int)
    requires
        0 <= a <= c,
        0 <= b <= d,
    ensures
        0 <= a * b <= c * d,
{
    assert(0 <= a * b <= c * d) by (nonlinear_arith)
        requires
            0 <= a <= c,
            0 <= b <= d,
    ;
}

/// The number of trials is the product of its factors, as far as a machine integer holds it, and the
/// largest machine integer beyond; a feature space counts as at least one feature.
pub proof fn law_trials_multiply(cells: int, generations: int, windows: int, features: int)
    requires
        0 <= cells,
        0 <= generations,
        0 < windows,
        0 < features,
    ensures
        cells * generations * windows <= usize::MAX ==> trials(cells, generations, windows) == cells
            * generations * windows,
        cells * generations * windows > usize::MAX ==> trials(cells, generations, windows)
            == usize::MAX,
        cells * generations * windows * features <= usize::MAX ==> trials_with_features(
            cells,
            generations,
            windows,
            features,
        ) == cells * generations * windows * features,
        cells * generations * windows * features > usize::MAX ==> trials_with_features(
            cells,
            generations,
            windows,
            features,
        ) == usize::MAX,
        trials(cells, generations, 0) == 0,
{
    let top = usize::MAX as int;
    let a = cells * generations;
    lemma_products_grow(cells, generations, cells, generations);
    assert(a <= a * windows && 0 <= a * windows) by (nonlinear_arith)
        requires
            a >= 0,
            windows >= 1,
    ;
    assert(a > top ==> top * windows >= top) by (nonlinear_arith)
        requires
            windows >= 1,
            top >= 0,
    ;
    let b = a * windows;
    assert(b <= b * features) by (nonlinear_arith)
        requires
            b >= 0,
            features >= 1,
    ;
    assert(top * features >= top) by (nonlinear_arith)
        requires
            features >= 1,
            top >= 0,
    ;
    assert(saturated(a) * 0 == 0) by (nonlinear_arith);
    assert(a > top && top * windows == top ==> windows == 1) by (nonlinear_arith)
        requires
            top > 0,
            windows >= 1,
    ;
}

/// Raising any of the knobs never lowers the number of trials.
pub proof fn law_trials_never_fall(
    cells: int,
    generations: int,
    windows: int,
    features: int,
    cells2: int,
    generations2: int,
    windows2: int,
    features2: int,
)
    requires
        0 <= cells <= cells2,
        0 <= generations <= generations2,
        0 <= windows <= windows2,
        0 <= features <= features2,
    ensures
        trials(cells, generations, windows) <= trials(cells2, generations2, windows2),
        trials_with_features(cells, generations, windows, features) <= trials_with_features(
            cells2,
            generations2,
            windows2,
            features2,
        ),
{
    lemma_products_grow(cells, generations, cells2, generations2);
    lemma_products_grow(
        saturated(cells * generations),
        windows,
        saturated(cells2 * generations2),
        windows2,
    );
    let f = if features < 1 {
        1
    } else {
        features
    };
    let g = if features2 < 1 {
        1
    } else {
        features2
    };
    lemma_products_grow(
        trials(cells, generations, windows),
        f,
        trials(cells2, generations2, windows2),
        g,
    );
}

/// Without any feature the number of trials is the plain one: it is never under-counted.
pub proof fn law_no_features_never_undercount(
    cells: int,
    generations: int,
    windows: int,
    features: int,
)
    requires
        0 <= cells,
        0 <= generations,
        0 <= windows,
        0 <= features,
    ensures
        trials_with_features(cells, generations, windows, 0) == trials(cells, generations, windows),
        trials_with_features(cells, generations, windows, features) >= trials(
            cells,
            generations,
            windows,
        ),
{
    law_trials_never_fall(
        cells,
        generations,
        windows,
        0,
        cells,
        generations,
        windows,
        features,
    );
}

/// Whether an archive has enough occupied niches.
pub fn coverage_floor_ok(occupied_niches: usize) -> (r: bool)
    ensures
        r == (occupied_niches >= MIN_OCCUPIED_NICHES),
{
    occupied_niches >= MIN_OCCUPIED_NICHES
}

} // verus!
