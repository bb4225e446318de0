//! The probability of backtest overfitting: partitions of time, and whether what was best in one half
//! is good in the other.

use vstd::prelude::*;

use crate::count::{
    lemma_no_position, lemma_one_more_position, lemma_positions_split, positions,
};
use crate::validation::combinatorics::{
    combinations, law_listed_are_subsets, lists, subsets_from,
};
use crate::validation::cpcv::{block_start, is_balanced, start_of};
use crate::validation::ValidationError;

verus! {

/// The rows of one partition.
#[derive(Debug, PartialEq, Eq)]
pub struct Partition {
    /// The rows in the chosen blocks, ascending.
    pub in_sample: Vec<usize>,
    /// The other rows, ascending.
    pub out_of_sample: Vec<usize>,
}

/// Whether a row lies in one of the chosen blocks.
pub open spec fn is_chosen(row: int, chosen: Seq<usize>, blocks: int, rows: int) -> bool {
    exists|i: int|
        0 <= i < chosen.len() && block_start(#[trigger] chosen[i] as int, blocks, rows) <= row
            < block_start(chosen[i] + 1, blocks, rows)
}

/// The rows below `n` that are chosen, or those that are not.
pub open spec fn rows_below(
    n: nat,
    chosen: Seq<usize>,
    blocks: int,
    rows: int,
    inside: bool,
) -> Seq<usize>
    decreases n,
{
    if n == 0 {
        Seq::empty()
    } else {
        let before = rows_below((n - 1) as nat, chosen, blocks, rows, inside);
        if is_chosen(n - 1, chosen, blocks, rows) == inside {
            before.push((n - 1) as usize)
        } else {
            before
        }
    }
}

/// Every row is in the sample or out of it, and never both.
pub proof fn law_partition_is_exact(
    n: nat,
    chosen: Seq<usize>,
    blocks: int,
    rows: int,
    row: int,
    inside: bool,
)
    requires
        n <= usize::MAX,
        0 <= row < n,
    ensures
        rows_below(n, chosen, blocks, rows, inside).contains(row as usize) <==> is_chosen(
            row,
            chosen,
            blocks,
            rows,
        ) == inside,
        rows_below(n, chosen, blocks, rows, true).len() + rows_below(
            n,
            chosen,
            blocks,
            rows,
            false,
        ).len() == n,
    decreases n,
{
    let before = rows_below((n - 1) as nat, chosen, blocks, rows, inside);
    let all = rows_below(n, chosen, blocks, rows, inside);
    lemma_rows_bounded((n - 1) as nat, chosen, blocks, rows, inside);
    lemma_rows_counted(n, chosen, blocks, rows);
    if row == n - 1 {
        if is_chosen(row, chosen, blocks, rows) == inside {
            assert(all[before.len() as int] == row as usize);
        } else if all.contains(row as usize) {
            let k = choose|k: int| 0 <= k < all.len() && all[k] == row as usize;
            assert(before[k] < n - 1);
        }
    } else {
        law_partition_is_exact((n - 1) as nat, chosen, blocks, rows, row, inside);
        if before.contains(row as usize) {
            let k = choose|k: int| 0 <= k < before.len() && before[k] == row as usize;
            assert(all[k] == row as usize);
        }
        if all.contains(row as usize) {
            let k = choose|k: int| 0 <= k < all.len() && all[k] == row as usize;
            assert(before[k] == row as usize);
        }
    }
}

/// A partition's sample is made of the rows of the chosen blocks, a block being the rows from
/// `b * rows / blocks` up to where the next one starts; the other rows are out of it. Both are ascending.
pub proof fn law_sample_is_the_chosen_blocks(
    n: nat,
    chosen: Seq<usize>,
    blocks: int,
    rows: int,
    row: int,
)
    requires
        n <= usize::MAX,
        0 <= row < n,
    ensures
        rows_below(n, chosen, blocks, rows, true).contains(row as usize) <==> exists|i: int|
            0 <= i < chosen.len() && (#[trigger] chosen[i]) * rows / blocks <= row < (chosen[i] + 1)
                * rows / blocks,
        rows_below(n, chosen, blocks, rows, false).contains(row as usize) <==> !(exists|i: int|
            0 <= i < chosen.len() && (#[trigger] chosen[i]) * rows / blocks <= row < (chosen[i] + 1)
                * rows / blocks),
        forall|inside: bool, a: int, b: int|
            0 <= a < b < rows_below(n, chosen, blocks, rows, inside).len()
                ==> #[trigger] rows_below(n, chosen, blocks, rows, inside)[a]
                < #[trigger] rows_below(n, chosen, blocks, rows, inside)[b],
{
    law_partition_is_exact(n, chosen, blocks, rows, row, true);
    law_partition_is_exact(n, chosen, blocks, rows, row, false);
    lemma_rows_ascend(n, chosen, blocks, rows, true);
    lemma_rows_ascend(n, chosen, blocks, rows, false);
    if is_chosen(row, chosen, blocks, rows) {
        let i = choose|i: int|
            0 <= i < chosen.len() && block_start(#[trigger] chosen[i] as int, blocks, rows) <= row
                < block_start(chosen[i] + 1, blocks, rows);
        assert(chosen[i] * rows / blocks <= row);
    }
}

proof fn lemma_rows_ascend(n: nat, chosen: Seq<usize>, blocks: int, rows: int, inside: bool)
    requires
        n <= usize::MAX,
    ensures
        forall|a: int, b: int|
            0 <= a < b < rows_below(n, chosen, blocks, rows, inside).len()
                ==> #[trigger] rows_below(n, chosen, blocks, rows, inside)[a]
                < #[trigger] rows_below(n, chosen, blocks, rows, inside)[b],
    decreases n,
{
    if n > 0 {
        let m = (n - 1) as nat;
        lemma_rows_ascend(m, chosen, blocks, rows, inside);
        lemma_rows_bounded(m, chosen, blocks, rows, inside);
        let before = rows_below(m, chosen, blocks, rows, inside);
        let all = rows_below(n, chosen, blocks, rows, inside);
        assert forall|a: int, b: int| 0 <= a < b < all.len() implies #[trigger] all[a]
            < #[trigger] all[b] by {
            assert(all[a] == before[a]);
            if b < before.len() {
                assert(all[b] == before[b]);
            }
        }
    }
}

proof fn lemma_rows_bounded(n: nat, chosen: Seq<usize>, blocks: int, rows: int, inside: bool)
    requires
        n <= usize::MAX,
    ensures
        forall|k: int|
            0 <= k < rows_below(n, chosen, blocks, rows, inside).len() ==> #[trigger] rows_below(
                n,
                chosen,
                blocks,
                rows,
                inside,
            )[k] < n,
    decreases n,
{
    if n > 0 {
        lemma_rows_bounded((n - 1) as nat, chosen, blocks, rows, inside);
        let before = rows_below((n - 1) as nat, chosen, blocks, rows, inside);
        let all = rows_below(n, chosen, blocks, rows, inside);
        assert forall|k: int| 0 <= k < all.len() implies #[trigger] all[k] < n by {
            if k < before.len() {
                assert(before[k] < n - 1);
            }
        }
    }
}

proof fn lemma_rows_counted(n: nat, chosen: Seq<usize>, blocks: int, rows: int)
    ensures
        rows_below(n, chosen, blocks, rows, true).len() + rows_below(
            n,
            chosen,
            blocks,
            rows,
            false,
        ).len() == n,
    decreases n,
{
    if n > 0 {
        lemma_rows_counted((n - 1) as nat, chosen, blocks, rows);
    }
}

/// Whether a row lies in one of the chosen blocks.
fn chosen_row(row: usize, chosen: &Vec<usize>, blocks: usize, rows: usize) -> (r: bool)
    requires
        0 < blocks <= rows,
        forall|i: int| 0 <= i < chosen.len() ==> #[trigger] chosen[i] < blocks,
    ensures
        r == is_chosen(row as int, chosen@, blocks as int, rows as int),
{
    let mut i: usize = 0;
    while i < chosen.len()
        invariant
            i <= chosen.len(),
            0 < blocks <= rows,
            forall|j: int| 0 <= j < chosen.len() ==> #[trigger] chosen[j] < blocks,
            forall|j: int|
                0 <= j < i ==> !(block_start(
                    #[trigger] chosen[j] as int,
                    blocks as int,
                    rows as int,
                ) <= row < block_start(chosen[j] + 1, blocks as int, rows as int)),
        decreases chosen.len() - i,
    {
        let b: usize = chosen[i];
        if start_of(b, blocks, rows) <= row && row < start_of(b + 1, blocks, rows) {
            assert(block_start(chosen@[i as int] as int, blocks as int, rows as int) <= row);
            return true;
        }
        i = i + 1;
    }
    false
}

/// Whether some partitions are those of every balanced choice of blocks, in dictionary order.
pub open spec fn are_partitions(parts: Seq<Partition>, rows: int, blocks: int) -> bool {
    let chosen = subsets_from(0, blocks as nat, (blocks / 2) as nat);
    &&& parts.len() == chosen.len()
    &&& forall|i: int|
        0 <= i < parts.len() ==> (#[trigger] parts[i]).in_sample@ == rows_below(
            rows as nat,
            chosen[i],
            blocks,
            rows,
            true,
        ) && parts[i].out_of_sample@ == rows_below(rows as nat, chosen[i], blocks, rows, false)
}

/// Every partition samples half of the blocks: its sample holds the rows of as many distinct blocks, the
/// other rows are out of it, and no row is lost.
pub proof fn law_partitions_sample_half_of_the_blocks(
    parts: Seq<Partition>,
    rows: int,
    blocks: int,
    i: int,
    row: int,
)
    requires
        is_balanced(blocks),
        blocks <= rows <= usize::MAX,
        are_partitions(parts, rows, blocks),
        0 <= i < parts.len(),
        0 <= row < rows,
    ensures
        ({
            let chosen = subsets_from(0, blocks as nat, (blocks / 2) as nat)[i];
            let sampled = exists|k: int|
                0 <= k < chosen.len() && (#[trigger] chosen[k]) * rows / blocks <= row < (chosen[k]
                    + 1) * rows / blocks;
            &&& parts[i].in_sample@.contains(row as usize) <==> sampled
            &&& parts[i].out_of_sample@.contains(row as usize) <==> !sampled
            &&& parts[i].in_sample.len() + parts[i].out_of_sample.len() == rows
            &&& chosen.len() == blocks / 2
        }),
{
    let chosen = subsets_from(0, blocks as nat, (blocks / 2) as nat)[i];
    law_listed_are_subsets(0, blocks as nat, (blocks / 2) as nat, i);
    law_sample_is_the_chosen_blocks(rows as nat, chosen, blocks, rows, row);
    law_partition_is_exact(rows as nat, chosen, blocks, rows, row, true);
}

/// The partitions of a matrix with `rows` rows and `columns` columns into `blocks` blocks: one for
/// every choice of half of the blocks.
pub fn cscv_partitions(rows: usize, columns: usize, blocks: usize) -> (r: Result<
    Vec<Partition>,
    ValidationError,
>)
    ensures
        !is_balanced(blocks as int) ==> r == Err::<Vec<Partition>, ValidationError>(
            ValidationError::OddBlockCount(blocks),
        ),
        is_balanced(blocks as int) && (rows < blocks || columns == 0) ==> r == Err::<
            Vec<Partition>,
            ValidationError,
        >(ValidationError::EmptyMatrix),
        is_balanced(blocks as int) && rows >= blocks && columns > 0 ==> (r matches Ok(parts)
            && are_partitions(parts@, rows as int, blocks as int)),
{
    if blocks < 2 || blocks % 2 != 0 {
        return Err(ValidationError::OddBlockCount(blocks));
    }
    if rows < blocks || columns == 0 {
        return Err(ValidationError::EmptyMatrix);
    }
    let chosen: Vec<Vec<usize>> = combinations(blocks, blocks / 2);
    let ghost all = subsets_from(0, blocks as nat, (blocks / 2) as nat);
    let mut out: Vec<Partition> = Vec::new();
    let mut i: usize = 0;
    while i < chosen.len()
        invariant
            i <= chosen.len(),
            0 < blocks <= rows,
            lists(chosen@) == all,
            all == subsets_from(0, blocks as nat, (blocks / 2) as nat),
            out.len() == i,
            forall|k: int|
                0 <= k < i ==> (#[trigger] out[k]).in_sample@ == rows_below(
                    rows as nat,
                    all[k],
                    blocks as int,
                    rows as int,
                    true,
                ) && out[k].out_of_sample@ == rows_below(
                    rows as nat,
                    all[k],
                    blocks as int,
                    rows as int,
                    false,
                ),
        decreases chosen.len() - i,
    {
        let picked: &Vec<usize> = &chosen[i];
        proof {
            assert(lists(chosen@)[i as int] == picked@);
            law_listed_are_subsets(0, blocks as nat, (blocks / 2) as nat, i as int);
        }
        let mut in_sample: Vec<usize> = Vec::new();
        let mut out_of_sample: Vec<usize> = Vec::new();
        let mut row: usize = 0;
        while row < rows
            invariant
                row <= rows,
                0 < blocks <= rows,
                forall|j: int| 0 <= j < picked.len() ==> #[trigger] picked[j] < blocks,
                in_sample@ == rows_below(
                    row as nat,
                    picked@,
                    blocks as int,
                    rows as int,
                    true,
                ),
                out_of_sample@ == rows_below(
                    row as nat,
                    picked@,
                    blocks as int,
                    rows as int,
                    false,
                ),
            decreases rows - row,
        {
            if chosen_row(row, picked, blocks, rows) {
                in_sample.push(row);
            } else {
                out_of_sample.push(row);
            }
            row = row + 1;
        }
        out.push(Partition { in_sample, out_of_sample });
        i = i + 1;
    }
    Ok(out)
}

// ---- who is best ---------------------------------------------------------------------------------

/// Whether one performance is larger than another. One that is not a number compares with nothing.
pub open spec fn larger(a: Option<u64>, b: Option<u64>) -> bool {
    a is Some && b is Some && a->0 > b->0
}

/// The best of the first `n` performances: each of them replaces the best so far if it is larger.
pub open spec fn best_of(xs: Seq<Option<u64>>, n: nat) -> int
    decreases n,
{
    if n <= 1 {
        0
    } else {
        let b = best_of(xs, (n - 1) as nat);
        if larger(xs[n - 1], xs[b]) {
            n - 1
        } else {
            b
        }
    }
}

/// The best is the first of the largest among the performances that are numbers; where the first
/// performance is not a number, nothing compares with it and it stays the best.
pub proof fn law_best_is_the_first_largest(xs: Seq<Option<u64>>, n: nat)
    requires
        1 <= n <= xs.len(),
    ensures
        0 <= best_of(xs, n) < n,
        xs[0] is None ==> best_of(xs, n) == 0,
        xs[0] is Some ==> xs[best_of(xs, n)] is Some,
        xs[0] is Some ==> forall|i: int|
            0 <= i < n && #[trigger] xs[i] is Some ==> xs[i]->0 <= xs[best_of(xs, n)]->0,
        xs[0] is Some ==> forall|i: int|
            0 <= i < best_of(xs, n) && #[trigger] xs[i] is Some ==> xs[i]->0 < xs[best_of(
                xs,
                n,
            )]->0,
    decreases n,
{
    if n > 1 {
        law_best_is_the_first_largest(xs, (n - 1) as nat);
    }
}

/// How many of the first `n` performances are below a given one.
pub open spec fn count_below(xs: Seq<Option<u64>>, x: Option<u64>, n: nat) -> int
    decreases n,
{
    if n == 0 {
        0
    } else {
        count_below(xs, x, (n - 1) as nat) + (if larger(x, xs[n - 1]) {
            1int
        } else {
            0
        })
    }
}

/// The count of the performances below a given one is the number of positions that hold a smaller
/// number; below one that is not a number there is none.
pub proof fn law_count_below_counts_positions(xs: Seq<Option<u64>>, x: Option<u64>, n: nat)
    requires
        n <= xs.len(),
    ensures
        x matches Some(v) ==> count_below(xs, x, n) == Set::new(
            |i: int| 0 <= i < n && xs[i] is Some && xs[i]->0 < v,
        ).len(),
        x is None ==> count_below(xs, x, n) == 0,
    decreases n,
{
    let v = x->0;
    let p = |i: int| xs[i] is Some && xs[i]->0 < v;
    let counted = Set::new(|i: int| 0 <= i < n && xs[i] is Some && xs[i]->0 < v);
    assert(counted =~= positions(n as int, p));
    if n == 0 {
        lemma_no_position(p);
    } else {
        law_count_below_counts_positions(xs, x, (n - 1) as nat);
        lemma_one_more_position(n as int, p);
        let before = Set::new(|i: int| 0 <= i < n - 1 && xs[i] is Some && xs[i]->0 < v);
        assert(before =~= positions(n - 1, p));
    }
}

/// How the strategy that was best in the sample does out of it.
#[derive(Debug, Clone, Copy, PartialEq, Eq, Structural)]
pub struct Outcome {
    /// The strategy that was best in the sample.
    pub best: usize,
    /// Its rank out of the sample, from 1 for the worst.
    pub rank: usize,
    /// Whether its rank is in the lower half: its relative rank `rank / (n + 1)` is at most one half.
    pub overfit: bool,
}

/// Ranks out of the sample the strategy that was best in it. The performances are given by keys that
/// order them, none for one that is not a number.
pub fn judge_partition(in_sample: &[Option<u64>], out_of_sample: &[Option<u64>]) -> (r: Outcome)
    requires
        0 < in_sample.len() == out_of_sample.len() < usize::MAX / 2,
    ensures
        r.best == best_of(in_sample@, in_sample@.len()),
        r.best < in_sample.len(),
        r.rank == 1 + count_below(
            out_of_sample@,
            out_of_sample[r.best as int],
            out_of_sample@.len(),
        ),
        out_of_sample[r.best as int] matches Some(v) ==> r.rank == 1 + Set::new(
            |i: int|
                0 <= i < out_of_sample@.len() && out_of_sample@[i] is Some && out_of_sample@[i]->0
                    < v,
        ).len(),
        out_of_sample[r.best as int] is None ==> r.rank == 1,
        in_sample[0] is Some ==> in_sample[r.best as int] is Some && forall|i: int|
            0 <= i < in_sample.len() && #[trigger] in_sample[i] is Some ==> in_sample[i]->0
                <= in_sample[r.best as int]->0 && (i < r.best ==> in_sample[i]->0
                < in_sample[r.best as int]->0),
        in_sample[0] is None ==> r.best == 0,
        1 <= r.rank <= in_sample.len(),
        r.overfit == (2 * r.rank <= in_sample.len() + 1),
{
    let n: usize = in_sample.len();
    let mut best: usize = 0;
    let mut i: usize = 1;
    while i < n
        invariant
            1 <= i <= n == in_sample.len(),
            best < i,
            best == best_of(in_sample@, i as nat),
        decreases n - i,
    {
        if let (Some(x), Some(y)) = (in_sample[i], in_sample[best]) {
            if x > y {
                best = i;
            }
        }
        i = i + 1;
    }
    let mut below: usize = 0;
    let mut k: usize = 0;
    while k < n
        invariant
            k <= n == out_of_sample.len(),
            best < n,
            below <= k,
            k > best ==> below < k,
            below == count_below(out_of_sample@, out_of_sample@[best as int], k as nat),
        decreases n - k,
    {
        if let (Some(x), Some(y)) = (out_of_sample[best], out_of_sample[k]) {
            if y < x {
                below = below + 1;
            }
        }
        k = k + 1;
    }
    proof {
        law_best_is_the_first_largest(in_sample@, in_sample@.len());
        law_count_below_counts_positions(
            out_of_sample@,
            out_of_sample@[best as int],
            out_of_sample@.len(),
        );
    }
    let rank: usize = below + 1;
    Outcome { best, rank, overfit: 2 * rank <= n + 1 }
}

/// How many outcomes of the first `n` are overfit.
pub open spec fn overfit_below(outcomes: Seq<Outcome>, n: nat) -> int
    decreases n,
{
    if n == 0 {
        0
    } else {
        overfit_below(outcomes, (n - 1) as nat) + (if outcomes[n - 1].overfit {
            1int
        } else {
            0
        })
    }
}

/// The count of the overfit outcomes is the number of positions that hold one, wherever they stand: with
/// the number of positions that hold one that is not overfit it makes up all of them.
pub proof fn law_overfit_counts_positions(outcomes: Seq<Outcome>, n: nat)
    requires
        n <= outcomes.len(),
    ensures
        overfit_below(outcomes, n) == Set::new(
            |i: int| 0 <= i < n && outcomes[i].overfit,
        ).len(),
        overfit_below(outcomes, n) + Set::new(|i: int| 0 <= i < n && !outcomes[i].overfit).len()
            == n,
    decreases n,
{
    let p = |i: int| outcomes[i].overfit;
    let q = |i: int| !p(i);
    assert(Set::new(|i: int| 0 <= i < n && outcomes[i].overfit) =~= positions(n as int, p));
    assert(Set::new(|i: int| 0 <= i < n && !outcomes[i].overfit) =~= positions(n as int, q));
    lemma_positions_split(n as int, p);
    if n == 0 {
        lemma_no_position(p);
    } else {
        law_overfit_counts_positions(outcomes, (n - 1) as nat);
        lemma_one_more_position(n as int, p);
        assert(Set::new(|i: int| 0 <= i < n - 1 && outcomes[i].overfit) =~= positions(n - 1, p));
    }
}

/// How many outcomes are overfit. Their share is the probability of backtest overfitting.
pub fn overfit_count(outcomes: &[Outcome]) -> (r: usize)
    ensures
        r == overfit_below(outcomes@, outcomes@.len()),
        r == Set::new(|i: int| 0 <= i < outcomes@.len() && outcomes@[i].overfit).len(),
        r <= outcomes.len(),
{
    proof {
        law_overfit_counts_positions(outcomes@, outcomes@.len());
    }
    let mut count: usize = 0;
    let mut i: usize = 0;
    while i < outcomes.len()
        invariant
            i <= outcomes.len(),
            count <= i,
            count == overfit_below(outcomes@, i as nat),
        decreases outcomes.len() - i,
    {
        if outcomes[i].overfit {
            count = count + 1;
        }
        i = i + 1;
    }
    count
}

} // verus!
