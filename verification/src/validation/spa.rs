//! The data-snooping test: the resampled rows, and the count behind the p-value.

use vstd::prelude::*;

use crate::count::{lemma_no_position, lemma_one_more_position, positions};

verus! {

/// The number of periods that every series has; none if there is no series, or one has fewer than two.
pub open spec fn is_usable_length(lengths: Seq<usize>, t: int) -> bool {
    &&& lengths.len() > 0
    &&& t >= 2
    &&& forall|i: int| 0 <= i < lengths.len() ==> t <= #[trigger] lengths[i]
    &&& exists|i: int| 0 <= i < lengths.len() && t == #[trigger] lengths[i]
}

/// The length to test at: that of the shortest series. None if there is no series, or the shortest has
/// fewer than two periods, and nothing can be said against the null.
pub fn usable_length(lengths: &[usize]) -> (r: Option<usize>)
    ensures
        match r {
            Some(t) => is_usable_length(lengths@, t as int),
            None => forall|t: int| !#[trigger] is_usable_length(lengths@, t),
        },
{
    if lengths.len() == 0 {
        return None;
    }
    let mut least: usize = lengths[0];
    let mut i: usize = 1;
    while i < lengths.len()
        invariant
            1 <= i <= lengths.len(),
            forall|j: int| 0 <= j < i ==> least <= #[trigger] lengths[j],
            exists|j: int| 0 <= j < i && least == #[trigger] lengths[j],
        decreases lengths.len() - i,
    {
        if lengths[i] < least {
            least = lengths[i];
            assert(lengths@[i as int] == least);
        }
        i = i + 1;
    }
    if least < 2 {
        None
    } else {
        Some(least)
    }
}

/// What comes after a row in a stationary bootstrap.
#[derive(Debug, Clone, Copy, PartialEq, Eq, Structural)]
pub enum BlockStep {
    /// The next row of the block, or the first row after the last.
    Continue,
    /// A new block, where the draw says.
    Jump(u64),
}

/// The row that stands at position `i` of a stationary bootstrap.
pub open spec fn bootstrap_row(t: int, first: u64, steps: Seq<BlockStep>, i: nat) -> int
    decreases i,
{
    if i == 0 {
        first as int % t
    } else {
        match steps[i - 1] {
            BlockStep::Continue => (bootstrap_row(t, first, steps, (i - 1) as nat) + 1) % t,
            BlockStep::Jump(draw) => draw as int % t,
        }
    }
}

/// A row of a stationary bootstrap is followed by its neighbour, the last by the first, unless a new block
/// is drawn. The first row is drawn too.
pub proof fn law_rows_follow_their_block(t: int, first: u64, steps: Seq<BlockStep>, i: nat)
    requires
        t > 0,
        i < steps.len(),
    ensures
        bootstrap_row(t, first, steps, 0) == first as int % t,
        0 <= bootstrap_row(t, first, steps, i) < t,
        steps[i as int] == BlockStep::Continue ==> bootstrap_row(t, first, steps, i + 1) == (
        if bootstrap_row(t, first, steps, i) == t - 1 {
            0
        } else {
            bootstrap_row(t, first, steps, i) + 1
        }),
        steps[i as int] matches BlockStep::Jump(draw) ==> bootstrap_row(t, first, steps, i + 1)
            == draw as int % t,
    decreases i,
{
    if i > 0 {
        law_rows_follow_their_block(t, first, steps, (i - 1) as nat);
    }
    let row = bootstrap_row(t, first, steps, i);
    assert(0 <= first as int % t < t);
    if row + 1 < t {
        vstd::arithmetic::div_mod::lemma_small_mod((row + 1) as nat, t as nat);
    } else {
        vstd::arithmetic::div_mod::lemma_mod_self_0(t);
    }
}

/// The rows of a stationary bootstrap over `t` periods, given the draw of the first row and what comes
/// after every row.
pub fn stationary_indices(t: usize, first: u64, steps: &[BlockStep]) -> (r: Vec<usize>)
    requires
        t > 0,
        steps.len() + 1 >= t,
    ensures
        r.len() == t,
        forall|i: int|
            0 <= i < t ==> #[trigger] r[i] == bootstrap_row(t as int, first, steps@, i as nat)
                && r[i] < t,
{
    let mut out: Vec<usize> = Vec::new();
    let mut row: usize = (first % t as u64) as usize;
    let mut i: usize = 0;
    while i < t
        invariant
            i <= t,
            t > 0,
            steps.len() + 1 >= t,
            row < t,
            row == bootstrap_row(t as int, first, steps@, i as nat) || i == t,
            out.len() == i,
            forall|k: int|
                0 <= k < i ==> #[trigger] out[k] == bootstrap_row(
                    t as int,
                    first,
                    steps@,
                    k as nat,
                ) && out[k] < t,
        decreases t - i,
    {
        out.push(row);
        proof {
            if row + 1 < t {
                vstd::arithmetic::div_mod::lemma_small_mod((row + 1) as nat, t as nat);
            } else {
                vstd::arithmetic::div_mod::lemma_mod_self_0(t as int);
            }
        }
        if i + 1 < t {
            row =
            match steps[i] {
                BlockStep::Continue => if row + 1 == t {
                    0
                } else {
                    row + 1
                },
                BlockStep::Jump(draw) => (draw % t as u64) as usize,
            };
        }
        i = i + 1;
    }
    out
}

/// Whether a resampled maximum reaches the observed one. One that is not a number compares with
/// nothing.
pub open spec fn reaches(v: Option<u64>, observed: Option<u64>) -> bool {
    v is Some && observed is Some && v->0 >= observed->0
}

/// How many of the first `n` resampled maxima reach the observed one.
pub open spec fn reaching(maxima: Seq<Option<u64>>, observed: Option<u64>, n: nat) -> int
    decreases n,
{
    if n == 0 {
        0
    } else {
        reaching(maxima, observed, (n - 1) as nat) + (if reaches(maxima[n - 1], observed) {
            1int
        } else {
            0
        })
    }
}

/// The count of the maxima that reach the observed one is the number of positions that hold one at least as
/// large; nothing reaches, or is reached by, what is not a number.
pub proof fn law_reaching_counts_positions(
    maxima: Seq<Option<u64>>,
    observed: Option<u64>,
    n: nat,
)
    requires
        n <= maxima.len(),
    ensures
        observed matches Some(o) ==> reaching(maxima, observed, n) == Set::new(
            |i: int| 0 <= i < n && maxima[i] is Some && maxima[i]->0 >= o,
        ).len(),
        observed is None ==> reaching(maxima, observed, n) == 0,
    decreases n,
{
    let o = observed->0;
    let p = |i: int| maxima[i] is Some && maxima[i]->0 >= o;
    assert(Set::new(|i: int| 0 <= i < n && maxima[i] is Some && maxima[i]->0 >= o) =~= positions(
        n as int,
        p,
    ));
    if n == 0 {
        lemma_no_position(p);
    } else {
        law_reaching_counts_positions(maxima, observed, (n - 1) as nat);
        assert(Set::new(|i: int| 0 <= i < n - 1 && maxima[i] is Some && maxima[i]->0 >= o)
            =~= positions(n - 1, p));
        lemma_one_more_position(n as int, p);
    }
}

/// How many resampled maxima reach the observed one. Their share is the p-value. The maxima are given
/// by keys that order them.
pub fn exceed_count(maxima: &[Option<u64>], observed: Option<u64>) -> (r: usize)
    ensures
        r == reaching(maxima@, observed, maxima@.len()),
        observed matches Some(o) ==> r == Set::new(
            |i: int| 0 <= i < maxima@.len() && maxima@[i] is Some && maxima@[i]->0 >= o,
        ).len(),
        observed is None ==> r == 0,
        r <= maxima.len(),
{
    proof {
        law_reaching_counts_positions(maxima@, observed, maxima@.len());
    }
    let mut count: usize = 0;
    let mut i: usize = 0;
    while i < maxima.len()
        invariant
            i <= maxima.len(),
            count <= i,
            count == reaching(maxima@, observed, i as nat),
        decreases maxima.len() - i,
    {
        if let (Some(v), Some(o)) = (maxima[i], observed) {
            if v >= o {
                count = count + 1;
            }
        }
        i = i + 1;
    }
    count
}

} // verus!
