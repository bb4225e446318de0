//! Combinatorial purged cross-validation: the geometry of the held-out paths.
//!
//! Time is split into blocks. Every balanced choice of half of them is held out in turn, and what is
//! left to train on keeps a distance from every held-out block.

use std::ops::Range;

use vstd::arithmetic::power2::{lemma2_to64, lemma_pow2_strictly_increases, lemma_pow2_unfold};
use vstd::prelude::*;

use crate::validation::combinatorics::{
    choose_count, combinations, law_choose_absorbs, law_listed_are_subsets,
    lemma_choose_is_at_most_half_of_all, lemma_choose_positive,
    law_numbers_are_in_equally_many_subsets, law_subsets_are_counted, lists, lists_with,
    n_choose_k, subsets_from,
};
use crate::validation::steer::saturated;
use crate::validation::ValidationError;

verus! {

/// The smallest number of held-out paths for a powered verdict.
pub const DEFAULT_MIN_PATHS: usize = 4;

/// Whether a number of blocks can be split in two halves.
pub open spec fn is_balanced(blocks: int) -> bool {
    blocks >= 2 && blocks % 2 == 0
}

/// The number of choices of half of the blocks; none for an odd number of blocks or fewer than two.
pub open spec fn partitions(blocks: nat) -> nat {
    if is_balanced(blocks as int) {
        choose_count(blocks, blocks / 2)
    } else {
        0
    }
}

/// The number of full-length paths; none for an odd number of blocks or fewer than two.
pub open spec fn full_paths(blocks: nat) -> nat {
    if is_balanced(blocks as int) {
        choose_count((blocks - 1) as nat, (blocks / 2 - 1) as nat)
    } else {
        0
    }
}

/// The number of balanced partitions: the choices of half of the blocks. None for an odd number of
/// blocks or fewer than two.
pub fn balanced_partition_count(blocks: usize) -> (r: usize)
    ensures
        r == saturated(partitions(blocks as nat) as int),
{
    if blocks < 2 || blocks % 2 != 0 {
        return 0;
    }
    n_choose_k(blocks, blocks / 2)
}

/// The number of full-length paths that the partitions can be put together to. None for an odd number
/// of blocks or fewer than two.
pub fn cpcv_path_count(blocks: usize) -> (r: usize)
    ensures
        r == saturated(full_paths(blocks as nat) as int),
{
    if blocks < 2 || blocks % 2 != 0 {
        return 0;
    }
    n_choose_k(blocks - 1, blocks / 2 - 1)
}

/// Every block is held out in the same share of the partitions: with `S` blocks, the paths are
/// `C(S, S/2) * (S/2) / S`. Both counts are zero for an odd number of blocks or fewer than two.
pub proof fn law_path_count_formula(blocks: nat)
    ensures
        full_paths(blocks) * blocks == partitions(blocks) * (blocks / 2),
        !is_balanced(blocks as int) ==> full_paths(blocks) == 0 && partitions(blocks) == 0,
        is_balanced(blocks as int) ==> 1 <= full_paths(blocks) <= partitions(blocks),
{
    if is_balanced(blocks as int) {
        let half = blocks / 2;
        law_choose_absorbs(blocks, half);
        lemma_choose_positive((blocks - 1) as nat, (half - 1) as nat);
        assert(full_paths(blocks) * blocks == partitions(blocks) * half) by (nonlinear_arith)
            requires
                half * partitions(blocks) == blocks * full_paths(blocks),
        ;
    } else {
        assert(0 * blocks == 0 * (blocks / 2)) by (nonlinear_arith);
    }
}

/// The counts that [`balanced_partition_count`] and [`cpcv_path_count`] return are in the same
/// proportion, wherever the machine integers hold the number of partitions.
pub proof fn law_counts_keep_the_formula(blocks: usize)
    requires
        partitions(blocks as nat) <= usize::MAX,
    ensures
        saturated(full_paths(blocks as nat) as int) * blocks == saturated(
            partitions(blocks as nat) as int,
        ) * (blocks / 2),
{
    law_path_count_formula(blocks as nat);
}

/// With no more blocks than a machine integer has bits, the counts are exact.
pub proof fn law_counts_fit(blocks: usize)
    requires
        blocks <= usize::BITS,
    ensures
        full_paths(blocks as nat) <= partitions(blocks as nat) <= usize::MAX,
{
    law_path_count_formula(blocks as nat);
    if is_balanced(blocks as int) {
        lemma_choose_is_at_most_half_of_all(blocks as nat, (blocks / 2) as nat);
        lemma2_to64();
        if blocks < 64 {
            lemma_pow2_strictly_increases((blocks - 1) as nat, 63);
        }
        if blocks < 32 {
            lemma_pow2_strictly_increases((blocks - 1) as nat, 31);
        }
        lemma_pow2_unfold(64);
        lemma_pow2_unfold(32);
    }
}

// ---- blocks --------------------------------------------------------------------------------------

/// Where block `b` of `blocks` starts over `n` observations; block `b` ends where block `b + 1` starts.
pub open spec fn block_start(b: int, blocks: int, n: int) -> int {
    b * n / blocks
}

/// The blocks cover the observations without a gap, and each holds at least one of them.
pub proof fn law_blocks_partition(b: int, blocks: int, n: int)
    requires
        0 <= b < blocks <= n,
    ensures
        block_start(0, blocks, n) == 0,
        block_start(blocks, blocks, n) == n,
        0 <= block_start(b, blocks, n) < block_start(b + 1, blocks, n) <= n,
{
    assert(0 * n / blocks == 0) by (nonlinear_arith)
        requires
            blocks > 0,
    ;
    assert(blocks * n / blocks == n) by (nonlinear_arith)
        requires
            blocks > 0,
    ;
    assert((b + 1) * n == b * n + n) by (nonlinear_arith);
    assert(b * n >= 0) by (nonlinear_arith)
        requires
            b >= 0,
            n >= 0,
    ;
    let x = b * n;
    let y = (b + 1) * n;
    assert(0 <= x / blocks < y / blocks) by (nonlinear_arith)
        requires
            y == x + n,
            n >= blocks,
            blocks > 0,
            x >= 0,
    ;
    assert(y <= blocks * n) by (nonlinear_arith)
        requires
            y == (b + 1) * n,
            b + 1 <= blocks,
            n >= 0,
    ;
    assert(y / blocks <= n) by (nonlinear_arith)
        requires
            y <= blocks * n,
            blocks > 0,
    ;
}

/// The blocks are as even as whole observations allow: their lengths differ by at most one.
pub proof fn law_blocks_are_even(b: int, blocks: int, n: int)
    requires
        0 <= b < blocks <= n,
    ensures
        n / blocks <= block_start(b + 1, blocks, n) - block_start(b, blocks, n) <= n / blocks + 1,
        b * n - blocks < block_start(b, blocks, n) * blocks <= b * n,
{
    let x = b * n;
    let y = (b + 1) * n;
    assert(y == x + n) by (nonlinear_arith)
        requires
            x == b * n,
            y == (b + 1) * n,
    ;
    vstd::arithmetic::div_mod::lemma_fundamental_div_mod(x, blocks);
    vstd::arithmetic::div_mod::lemma_fundamental_div_mod(y, blocks);
    vstd::arithmetic::div_mod::lemma_fundamental_div_mod(n, blocks);
    let p = x / blocks;
    let q = y / blocks;
    let m = n / blocks;
    let e = x % blocks;
    let f = y % blocks;
    let g = n % blocks;
    assert(m <= q - p <= m + 1) by (nonlinear_arith)
        requires
            x == blocks * p + e,
            y == blocks * q + f,
            n == blocks * m + g,
            y == x + n,
            0 <= e < blocks,
            0 <= f < blocks,
            0 <= g < blocks,
    ;
    assert(p * blocks == blocks * p) by (nonlinear_arith);
}

/// Where a block starts.
pub fn start_of(b: usize, blocks: usize, n: usize) -> (r: usize)
    requires
        b <= blocks <= n,
        blocks > 0,
    ensures
        r == block_start(b as int, blocks as int, n as int),
{
    proof {
        if b < blocks {
            law_blocks_partition(b as int, blocks as int, n as int);
        } else {
            law_blocks_partition(0, blocks as int, n as int);
        }
        assert(0 <= b * n <= 0xffff_ffff_ffff_ffff * 0xffff_ffff_ffff_ffff) by (nonlinear_arith)
            requires
                0 <= b <= 0xffff_ffff_ffff_ffff,
                0 <= n <= 0xffff_ffff_ffff_ffff,
        ;
    }
    ((b as u128 * n as u128) / blocks as u128) as usize
}

// ---- paths ---------------------------------------------------------------------------------------

/// One split: the blocks held out, and what is left to train on.
#[derive(Debug, Clone, PartialEq, Eq)]
pub struct CpcvPath {
    /// The held-out ranges, ascending.
    pub test: Vec<Range<usize>>,
    /// The observations to train on, ascending.
    pub train: Vec<usize>,
}

/// Whether an observation is clear of a held-out range: before it by more than `purge`, or after it by
/// at least `purge + embargo`.
pub open spec fn is_clear(i: int, r: Range<usize>, purge: int, embargo: int) -> bool {
    i < r.start - purge || i >= r.end + purge + embargo
}

/// Whether an observation is clear of every held-out range.
pub open spec fn is_clear_of_all(
    i: int,
    test: Seq<Range<usize>>,
    purge: int,
    embargo: int,
) -> bool {
    forall|k: int| 0 <= k < test.len() ==> is_clear(i, #[trigger] test[k], purge, embargo)
}

/// The first observations below `n` that are clear of every held-out range.
pub open spec fn clear_below(n: nat, test: Seq<Range<usize>>, purge: int, embargo: int) -> Seq<usize>
    decreases n,
{
    if n == 0 {
        Seq::empty()
    } else {
        let before = clear_below((n - 1) as nat, test, purge, embargo);
        if is_clear_of_all(n - 1, test, purge, embargo) {
            before.push((n - 1) as usize)
        } else {
            before
        }
    }
}

/// The ranges of the chosen blocks.
pub open spec fn ranges_of(chosen: Seq<usize>, blocks: int, n: int) -> Seq<Range<usize>> {
    Seq::new(
        chosen.len(),
        |i: int|
            Range {
                start: block_start(chosen[i] as int, blocks, n) as usize,
                end: block_start(chosen[i] + 1, blocks, n) as usize,
            },
    )
}

/// What a [`CpcvPath`] holds.
#[verifier::ext_equal]
pub struct PathModel {
    /// The held-out ranges.
    pub test: Seq<Range<usize>>,
    /// The observations to train on.
    pub train: Seq<usize>,
}

impl View for CpcvPath {
    type V = PathModel;

    open spec fn view(&self) -> PathModel {
        PathModel { test: self.test@, train: self.train@ }
    }
}

/// The path that holds out the chosen blocks.
pub open spec fn path_of(
    chosen: Seq<usize>,
    n: int,
    blocks: int,
    purge: int,
    embargo: int,
) -> PathModel {
    let test = ranges_of(chosen, blocks, n);
    PathModel { test, train: clear_below(n as nat, test, purge, embargo) }
}

impl PathModel {
    /// Whether every observation to train on is more than `span` away from every held-out one.
    pub open spec fn windows_disjoint(self, span: int) -> bool {
        forall|a: int, k: int, te: int|
            0 <= a < self.train.len() && 0 <= k < self.test.len() && #[trigger] in_range(
                te,
                self.test[k],
            ) ==> distance(#[trigger] self.train[a] as int, te) > span
    }
}

/// Whether an observation is in a range.
pub open spec fn in_range(te: int, r: Range<usize>) -> bool {
    r.start <= te < r.end
}

/// How far apart two observations are.
pub open spec fn distance(a: int, b: int) -> int {
    if a < b {
        b - a
    } else {
        a - b
    }
}

proof fn lemma_clear_below(n: nat, test: Seq<Range<usize>>, purge: int, embargo: int, a: int)
    requires
        n <= usize::MAX,
        0 <= a < clear_below(n, test, purge, embargo).len(),
    ensures
        clear_below(n, test, purge, embargo)[a] < n,
        is_clear_of_all(clear_below(n, test, purge, embargo)[a] as int, test, purge, embargo),
    decreases n,
{
    if n > 0 {
        let before = clear_below((n - 1) as nat, test, purge, embargo);
        if a < before.len() {
            lemma_clear_below((n - 1) as nat, test, purge, embargo, a);
        }
    }
}

/// No path leaks: what is trained on is further away from everything held out than lookback and label
/// horizon together.
pub proof fn law_paths_do_not_leak(
    chosen: Seq<usize>,
    n: int,
    blocks: int,
    lookback: int,
    label_horizon: int,
    embargo: int,
)
    requires
        0 <= n <= usize::MAX,
        0 <= embargo,
        0 <= lookback,
        0 <= label_horizon,
    ensures
        path_of(chosen, n, blocks, lookback + label_horizon, embargo).windows_disjoint(
            lookback + label_horizon,
        ),
{
    let span = lookback + label_horizon;
    let p = path_of(chosen, n, blocks, span, embargo);
    assert forall|a: int, k: int, te: int|
        0 <= a < p.train.len() && 0 <= k < p.test.len() && #[trigger] in_range(
            te,
            p.test[k],
        ) implies distance(#[trigger] p.train[a] as int, te) > span by {
        lemma_clear_below(n as nat, p.test, span, embargo, a);
        assert(is_clear(p.train[a] as int, p.test[k], span, embargo));
    }
}

/// Every observation clear of what is held out is trained on.
pub proof fn law_everything_clear_is_trained_on(
    n: nat,
    test: Seq<Range<usize>>,
    purge: int,
    embargo: int,
    i: int,
)
    requires
        n <= usize::MAX,
        0 <= i < n,
        is_clear_of_all(i, test, purge, embargo),
    ensures
        clear_below(n, test, purge, embargo).contains(i as usize),
    decreases n,
{
    let before = clear_below((n - 1) as nat, test, purge, embargo);
    let all = clear_below(n, test, purge, embargo);
    if i == n - 1 {
        assert(all[before.len() as int] == i as usize);
    } else {
        law_everything_clear_is_trained_on((n - 1) as nat, test, purge, embargo, i);
        let k = choose|k: int| 0 <= k < before.len() && before[k] == i as usize;
        assert(all[k] == i as usize);
    }
}

/// An observation is trained on exactly if it is before every held-out block by more than the purge, or
/// behind it by at least the purge and the embargo. Those trained on are in ascending order, and the
/// blocks held out are the chosen ones.
pub proof fn law_training_keeps_its_distance(
    chosen: Seq<usize>,
    n: int,
    blocks: int,
    purge: int,
    embargo: int,
    i: int,
)
    requires
        0 <= i < n <= usize::MAX,
        0 < blocks <= n,
        forall|k: int| 0 <= k < chosen.len() ==> #[trigger] chosen[k] < blocks,
    ensures
        ({
            let path = path_of(chosen, n, blocks, purge, embargo);
            &&& path.train.contains(i as usize) <==> (forall|k: int|
                0 <= k < path.test.len() ==> i + purge < (#[trigger] path.test[k]).start || i
                    >= path.test[k].end + purge + embargo)
            &&& forall|a: int, b: int|
                0 <= a < b < path.train.len() ==> #[trigger] path.train[a] < #[trigger] path.train[b]
            &&& forall|a: int| 0 <= a < path.train.len() ==> #[trigger] path.train[a] < n
            &&& path.test.len() == chosen.len()
            &&& forall|k: int|
                0 <= k < chosen.len() ==> (#[trigger] path.test[k]).start == chosen[k] * n / blocks
                    && path.test[k].end == (chosen[k] + 1) * n / blocks
        }),
{
    let path = path_of(chosen, n, blocks, purge, embargo);
    let test = path.test;
    assert forall|k: int| 0 <= k < chosen.len() implies (#[trigger] path.test[k]).start == chosen[k]
        * n / blocks && path.test[k].end == (chosen[k] + 1) * n / blocks by {
        assert(chosen[k] < blocks);
        law_blocks_partition(chosen[k] as int, blocks, n);
    }
    lemma_clear_ascends(n as nat, test, purge, embargo);
    if path.train.contains(i as usize) {
        let a = choose|a: int| 0 <= a < path.train.len() && path.train[a] == i as usize;
        lemma_clear_below(n as nat, test, purge, embargo, a);
        assert forall|k: int| 0 <= k < test.len() implies i + purge < (#[trigger] test[k]).start
            || i >= test[k].end + purge + embargo by {
            assert(is_clear(i, test[k], purge, embargo));
        }
    }
    if forall|k: int|
        0 <= k < test.len() ==> i + purge < (#[trigger] test[k]).start || i >= test[k].end + purge
            + embargo {
        law_everything_clear_is_trained_on(n as nat, test, purge, embargo, i);
    }
}

proof fn lemma_clear_ascends(n: nat, test: Seq<Range<usize>>, purge: int, embargo: int)
    requires
        n <= usize::MAX,
    ensures
        forall|a: int|
            0 <= a < clear_below(n, test, purge, embargo).len() ==> #[trigger] clear_below(
                n,
                test,
                purge,
                embargo,
            )[a] < n,
        forall|a: int, b: int|
            0 <= a < b < clear_below(n, test, purge, embargo).len() ==> #[trigger] clear_below(
                n,
                test,
                purge,
                embargo,
            )[a] < #[trigger] clear_below(n, test, purge, embargo)[b],
    decreases n,
{
    if n > 0 {
        lemma_clear_ascends((n - 1) as nat, test, purge, embargo);
        let before = clear_below((n - 1) as nat, test, purge, embargo);
        let all = clear_below(n, test, purge, embargo);
        assert forall|a: int, b: int| 0 <= a < b < all.len() implies #[trigger] all[a]
            < #[trigger] all[b] by {
            assert(all[a] == before[a]);
            if b < before.len() {
                assert(all[b] == before[b]);
            }
        }
        assert forall|a: int| 0 <= a < all.len() implies #[trigger] all[a] < n by {
            if a < before.len() {
                assert(all[a] == before[a]);
            }
        }
    }
}

/// Windows are disjoint exactly if no observation trained on is within the span of a held-out one.
pub proof fn law_disjoint_windows_keep_apart(path: PathModel, span: int)
    ensures
        path.windows_disjoint(span) <==> (forall|a: int, k: int, te: int|
            0 <= a < path.train.len() && 0 <= k < path.test.len() && (
            #[trigger] path.test[k]).start <= te < path.test[k].end ==> #[trigger] distance(
                path.train[a] as int,
                te,
            ) > span),
        forall|a: int, b: int|
            #[trigger] distance(a, b) > span <==> b - a > span || a - b > span || span < 0,
{
    if path.windows_disjoint(span) {
        assert forall|a: int, k: int, te: int|
            0 <= a < path.train.len() && 0 <= k < path.test.len() && (
            #[trigger] path.test[k]).start <= te < path.test[k].end implies #[trigger] distance(
            path.train[a] as int,
            te,
        ) > span by {
            assert(in_range(te, path.test[k]));
        }
    }
    if forall|a: int, k: int, te: int|
        0 <= a < path.train.len() && 0 <= k < path.test.len() && (#[trigger] path.test[k]).start
            <= te < path.test[k].end ==> #[trigger] distance(path.train[a] as int, te) > span {
        assert forall|a: int, k: int, te: int|
            0 <= a < path.train.len() && 0 <= k < path.test.len() && #[trigger] in_range(
                te,
                path.test[k],
            ) implies distance(#[trigger] path.train[a] as int, te) > span by {
            assert(path.test[k].start <= te < path.test[k].end);
        }
    }
}

/// What some paths hold.
pub open spec fn path_models(paths: Seq<CpcvPath>) -> Seq<PathModel> {
    Seq::new(paths.len(), |i: int| paths[i]@)
}

/// The paths of every balanced partition, in dictionary order of the blocks held out.
pub open spec fn all_paths(n: int, blocks: int, purge: int, embargo: int) -> Seq<PathModel> {
    let chosen = subsets_from(0, blocks as nat, (blocks / 2) as nat);
    Seq::new(chosen.len(), |i: int| path_of(chosen[i], n, blocks, purge, embargo))
}

/// There is one path for each balanced partition.
pub proof fn law_one_path_per_partition(n: int, blocks: int, purge: int, embargo: int)
    requires
        is_balanced(blocks),
    ensures
        all_paths(n, blocks, purge, embargo).len() == partitions(blocks as nat),
{
    law_subsets_are_counted(0, blocks as nat, (blocks / 2) as nat);
}

/// Of every path: what is trained on is just what keeps the purge, and behind a held-out block the embargo
/// too, from everything that the path holds out; and half of the blocks are held out.
pub proof fn law_every_path_keeps_its_distance(
    n: int,
    blocks: int,
    purge: int,
    embargo: int,
    p: int,
    i: int,
)
    requires
        is_balanced(blocks),
        0 <= i < n <= usize::MAX,
        blocks <= n,
        0 <= p < all_paths(n, blocks, purge, embargo).len(),
    ensures
        ({
            let path = all_paths(n, blocks, purge, embargo)[p];
            &&& path.test.len() == blocks / 2
            &&& path.train.contains(i as usize) <==> (forall|k: int|
                0 <= k < path.test.len() ==> i + purge < (#[trigger] path.test[k]).start || i
                    >= path.test[k].end + purge + embargo)
            &&& forall|k: int|
                0 <= k < path.test.len() ==> exists|b: int|
                    0 <= b < blocks && (#[trigger] path.test[k]).start == #[trigger] (b * n) / blocks
                        && path.test[k].end == (b + 1) * n / blocks
        }),
{
    let chosen = subsets_from(0, blocks as nat, (blocks / 2) as nat)[p];
    law_listed_are_subsets(0, blocks as nat, (blocks / 2) as nat, p);
    law_training_keeps_its_distance(chosen, n, blocks, purge, embargo, i);
    let path = all_paths(n, blocks, purge, embargo)[p];
    assert forall|k: int| 0 <= k < path.test.len() implies exists|b: int|
        0 <= b < blocks && (#[trigger] path.test[k]).start == #[trigger] (b * n) / blocks
            && path.test[k].end == (b + 1) * n / blocks by {
        let b = chosen[k] as int;
        assert(path.test[k].start == (b * n) / blocks);
    }
}

/// The observations of a block.
pub open spec fn block_range(b: int, blocks: int, n: int) -> Range<usize> {
    Range {
        start: block_start(b, blocks, n) as usize,
        end: block_start(b + 1, blocks, n) as usize,
    }
}

/// How many of some paths hold out a range.
pub open spec fn paths_holding_out(paths: Seq<PathModel>, r: Range<usize>) -> int
    decreases paths.len(),
{
    if paths.len() == 0 {
        0
    } else {
        paths_holding_out(paths.drop_last(), r) + (if paths.last().test.contains(r) {
            1int
        } else {
            0
        })
    }
}

/// A path holds out a block exactly if the block is among those chosen for it.
proof fn lemma_chosen_is_held_out(
    chosen: Seq<usize>,
    n: int,
    blocks: int,
    purge: int,
    embargo: int,
    b: usize,
)
    requires
        0 < blocks <= n <= usize::MAX,
        b < blocks,
        forall|i: int| 0 <= i < chosen.len() ==> #[trigger] chosen[i] < blocks,
    ensures
        path_of(chosen, n, blocks, purge, embargo).test.contains(block_range(b as int, blocks, n))
            <==> chosen.contains(b),
{
    let test = ranges_of(chosen, blocks, n);
    let r = block_range(b as int, blocks, n);
    law_blocks_partition(b as int, blocks, n);
    if chosen.contains(b) {
        let i = choose|i: int| 0 <= i < chosen.len() && chosen[i] == b;
        assert(test[i] == r);
    }
    if test.contains(r) {
        let i = choose|i: int| 0 <= i < test.len() && test[i] == r;
        let c = chosen[i];
        law_blocks_partition(c as int, blocks, n);
        if c < b {
            lemma_blocks_are_apart(c as int, b as int, blocks, n);
        }
        if b < c {
            lemma_blocks_are_apart(b as int, c as int, blocks, n);
        }
    }
}

/// A block starts where an earlier one has ended, or later.
proof fn lemma_blocks_are_apart(a: int, b: int, blocks: int, n: int)
    requires
        0 <= a < b < blocks <= n,
    ensures
        block_start(a, blocks, n) < block_start(a + 1, blocks, n) <= block_start(b, blocks, n),
    decreases b - a,
{
    law_blocks_partition(a, blocks, n);
    if a + 1 < b {
        lemma_blocks_are_apart(a + 1, b, blocks, n);
    }
}

proof fn lemma_paths_follow_choices(
    all: Seq<Seq<usize>>,
    n: int,
    blocks: int,
    purge: int,
    embargo: int,
    b: usize,
)
    requires
        0 < blocks <= n <= usize::MAX,
        b < blocks,
        forall|i: int, j: int|
            0 <= i < all.len() && 0 <= j < all[i].len() ==> #[trigger] all[i][j] < blocks,
    ensures
        paths_holding_out(
            Seq::new(all.len(), |i: int| path_of(all[i], n, blocks, purge, embargo)),
            block_range(b as int, blocks, n),
        ) == lists_with(all, b),
    decreases all.len(),
{
    if all.len() > 0 {
        let paths = Seq::new(all.len(), |i: int| path_of(all[i], n, blocks, purge, embargo));
        let rest = all.drop_last();
        assert(paths.drop_last() =~= Seq::new(
            rest.len(),
            |i: int| path_of(rest[i], n, blocks, purge, embargo),
        ));
        assert(all.last() == all[all.len() - 1]);
        assert forall|i: int, j: int| 0 <= i < rest.len() && 0 <= j < rest[i].len() implies
            #[trigger] rest[i][j] < blocks by {
            assert(rest[i] == all[i]);
            assert(all[i][j] < blocks);
        }
        assert forall|j: int| 0 <= j < all.last().len() implies #[trigger] all.last()[j]
            < blocks by {
            assert(all[all.len() - 1][j] < blocks);
        }
        lemma_paths_follow_choices(rest, n, blocks, purge, embargo, b);
        lemma_chosen_is_held_out(all.last(), n, blocks, purge, embargo, b);
    }
}

/// The number of full-length paths is also the number of paths that hold out any one given block, so that
/// they can be put together to that many full-length ones.
pub proof fn law_each_block_is_held_out_path_count_times(
    n: int,
    blocks: int,
    purge: int,
    embargo: int,
    b: usize,
)
    requires
        is_balanced(blocks),
        blocks <= n <= usize::MAX,
        b < blocks,
    ensures
        paths_holding_out(
            all_paths(n, blocks, purge, embargo),
            block_range(b as int, blocks, n),
        ) == full_paths(blocks as nat),
{
    let k = (blocks / 2) as nat;
    let all = subsets_from(0, blocks as nat, k);
    assert forall|i: int, j: int| 0 <= i < all.len() && 0 <= j < all[i].len() implies
        #[trigger] all[i][j] < blocks by {
        law_listed_are_subsets(0, blocks as nat, k, i);
    }
    lemma_paths_follow_choices(all, n, blocks, purge, embargo, b);
    law_numbers_are_in_equally_many_subsets(0, blocks as nat, k, b);
}

impl CpcvPath {
    /// Whether every observation to train on is more than `lookback + label_horizon` away from every
    /// held-out one.
    pub fn windows_disjoint(&self, lookback: usize, label_horizon: usize) -> (r: bool)
        ensures
            r == self@.windows_disjoint(lookback + label_horizon),
    {
        let span: u128 = lookback as u128 + label_horizon as u128;
        let mut a: usize = 0;
        while a < self.train.len()
            invariant
                a <= self.train.len(),
                span == lookback + label_horizon,
                forall|b: int, k: int, te: int|
                    0 <= b < a && 0 <= k < self@.test.len() && #[trigger] in_range(
                        te,
                        self@.test[k],
                    ) ==> distance(#[trigger] self@.train[b] as int, te) > span,
            decreases self.train.len() - a,
        {
            let tr: usize = self.train[a];
            let mut k: usize = 0;
            while k < self.test.len()
                invariant
                    k <= self.test.len(),
                    a < self.train.len(),
                    tr == self.train@[a as int],
                    span == lookback + label_horizon,
                    forall|j: int, te: int|
                        0 <= j < k && #[trigger] in_range(te, self@.test[j]) ==> distance(
                            tr as int,
                            te,
                        ) > span,
                decreases self.test.len() - k,
            {
                let start: usize = self.test[k].start;
                let end: usize = self.test[k].end;
                let mut te: usize = start;
                while te < end
                    invariant
                        start == self.test@[k as int].start,
                        end == self.test@[k as int].end,
                        start <= te,
                        te <= end || start >= end,
                        k < self.test.len(),
                        a < self.train.len(),
                        tr == self.train@[a as int],
                        span == lookback + label_horizon,
                        forall|u: int| start <= u < te ==> #[trigger] distance(tr as int, u) > span,
                    decreases end - te,
                {
                    let gap: usize = if tr < te {
                        te - tr
                    } else {
                        tr - te
                    };
                    assert(gap == distance(tr as int, te as int));
                    if gap as u128 <= span {
                        proof {
                            let m = self@;
                            assert(in_range(te as int, m.test[k as int]));
                            assert(distance(m.train[a as int] as int, te as int) <= span);
                            assert(!m.windows_disjoint(span as int));
                        }
                        return false;
                    }
                    te = te + 1;
                }
                assert forall|u: int| #[trigger] in_range(u, self@.test[k as int]) implies distance(
                    tr as int,
                    u,
                ) > span by {}
                k = k + 1;
            }
            a = a + 1;
        }
        true
    }

    /// The positions of the held-out observations in a series of a given length, in order.
    pub fn held_out(&self, len: usize) -> (r: Vec<usize>)
        ensures
            r@ == positions_in(self@.test, self@.test.len(), len as int),
    {
        let mut out: Vec<usize> = Vec::new();
        let mut k: usize = 0;
        while k < self.test.len()
            invariant
                k <= self.test.len(),
                out@ == positions_in(self.test@, k as nat, len as int),
            decreases self.test.len() - k,
        {
            let start: usize = self.test[k].start;
            let end: usize = self.test[k].end;
            let ghost before = out@;
            let mut i: usize = start;
            assert(out@ =~= before + below(start as int, start as int, len as int));
            while i < end
                invariant
                    start <= i,
                    i <= end || start >= end,
                    start >= end ==> i == start,
                    out@ == before + below(start as int, i as int, len as int),
                decreases end - i,
            {
                if i < len {
                    let ghost here = out@;
                    out.push(i);
                    assert(out@ =~= before + below(start as int, i + 1, len as int));
                }
                i = i + 1;
            }
            proof {
                if start >= end {
                    assert(below(start as int, start as int, len as int) =~= below(
                        start as int,
                        end as int,
                        len as int,
                    ));
                }
            }
            k = k + 1;
        }
        out
    }
}

/// The numbers from `start` up to `end` that are below `len`.
pub open spec fn below(start: int, end: int, len: int) -> Seq<usize>
    decreases end - start,
{
    if end <= start {
        Seq::empty()
    } else {
        let before = below(start, end - 1, len);
        if end - 1 < len {
            before.push((end - 1) as usize)
        } else {
            before
        }
    }
}

/// The positions in the first `n` ranges that are below `len`, one range after the other.
pub open spec fn positions_in(test: Seq<Range<usize>>, n: nat, len: int) -> Seq<usize>
    decreases n,
{
    if n == 0 {
        Seq::empty()
    } else {
        positions_in(test, (n - 1) as nat, len) + below(
            test[n - 1].start as int,
            test[n - 1].end as int,
            len,
        )
    }
}

/// The numbers from `start` up to `end` below `len` are consecutive.
pub proof fn law_below_is_consecutive(start: int, end: int, len: int)
    requires
        0 <= start,
        end <= usize::MAX,
    ensures
        below(start, end, len).len() == (if len < start || end <= start {
            0
        } else if end <= len {
            end - start
        } else {
            len - start
        }),
        forall|j: int|
            0 <= j < below(start, end, len).len() ==> #[trigger] below(start, end, len)[j] == start
                + j,
    decreases end - start,
{
    if end > start {
        law_below_is_consecutive(start, end - 1, len);
    }
}

/// The positions held out are those of the ranges that the series reaches, range after range.
pub proof fn law_held_out_positions(test: Seq<Range<usize>>, n: nat, len: int, x: usize)
    requires
        n <= test.len(),
        len <= usize::MAX,
    ensures
        positions_in(test, n, len).contains(x) <==> x < len && exists|k: int|
            0 <= k < n && (#[trigger] test[k]).start <= x < test[k].end,
        n > 0 ==> positions_in(test, n, len).len() == positions_in(test, (n - 1) as nat, len).len()
            + below(test[n - 1].start as int, test[n - 1].end as int, len).len() && positions_in(
            test,
            (n - 1) as nat,
            len,
        ).is_prefix_of(positions_in(test, n, len)),
    decreases n,
{
    if n > 0 {
        let m = (n - 1) as nat;
        law_held_out_positions(test, m, len, x);
        let before = positions_in(test, m, len);
        let r = test[n - 1];
        let more = below(r.start as int, r.end as int, len);
        let all = positions_in(test, n, len);
        law_below_is_consecutive(r.start as int, r.end as int, len);
        assert(before.is_prefix_of(all));
        if all.contains(x) {
            let j = choose|j: int| 0 <= j < all.len() && all[j] == x;
            if j < before.len() {
                assert(before[j] == x);
                let k = choose|k: int| 0 <= k < m && (#[trigger] test[k]).start <= x < test[k].end;
                assert(test[k].start <= x < test[k].end);
            } else {
                assert(more[j - before.len()] == x);
                assert(test[m as int].start <= x < test[m as int].end);
            }
        }
        if x < len && exists|k: int| 0 <= k < n && (#[trigger] test[k]).start <= x < test[k].end {
            let k = choose|k: int| 0 <= k < n && (#[trigger] test[k]).start <= x < test[k].end;
            if k < m {
                assert(before.contains(x));
                let j = choose|j: int| 0 <= j < before.len() && before[j] == x;
                assert(all[j] == x);
            } else {
                let j = x - r.start;
                assert(more[j] == x);
                assert(all[before.len() + j] == x);
            }
        }
    }
}

/// Whether an observation is clear of every held-out range.
fn clear_of_all(i: usize, test: &Vec<Range<usize>>, purge: u128, embargo: usize) -> (r: bool)
    requires
        purge <= 2 * usize::MAX,
    ensures
        r == is_clear_of_all(i as int, test@, purge as int, embargo as int),
{
    let mut k: usize = 0;
    while k < test.len()
        invariant
            k <= test.len(),
            purge <= 2 * usize::MAX,
            forall|j: int|
                0 <= j < k ==> is_clear(i as int, #[trigger] test@[j], purge as int, embargo as int),
        decreases test.len() - k,
    {
        let start: u128 = test[k].start as u128;
        let end: u128 = test[k].end as u128;
        let here: u128 = i as u128;
        if here + purge >= start && here < end + purge + embargo as u128 {
            assert(!is_clear(i as int, test@[k as int], purge as int, embargo as int));
            return false;
        }
        k = k + 1;
    }
    true
}

/// The path that holds out the chosen blocks.
fn path_for(chosen: &Vec<usize>, n_obs: usize, blocks: usize, purge: u128, embargo: usize) -> (r:
    CpcvPath)
    requires
        0 < blocks <= n_obs,
        forall|i: int| 0 <= i < chosen.len() ==> #[trigger] chosen[i] < blocks,
        purge <= 2 * usize::MAX,
    ensures
        r@ == path_of(chosen@, n_obs as int, blocks as int, purge as int, embargo as int),
{
    let ghost want = ranges_of(chosen@, blocks as int, n_obs as int);
    let mut test: Vec<Range<usize>> = Vec::new();
    let mut i: usize = 0;
    while i < chosen.len()
        invariant
            i <= chosen.len(),
            0 < blocks <= n_obs,
            forall|j: int| 0 <= j < chosen.len() ==> #[trigger] chosen[j] < blocks,
            want == ranges_of(chosen@, blocks as int, n_obs as int),
            test@ =~= want.take(i as int),
        decreases chosen.len() - i,
    {
        let b: usize = chosen[i];
        test.push(
            Range { start: start_of(b, blocks, n_obs), end: start_of(b + 1, blocks, n_obs) },
        );
        i = i + 1;
    }
    assert(test@ =~= want);
    let mut train: Vec<usize> = Vec::new();
    let mut t: usize = 0;
    while t < n_obs
        invariant
            t <= n_obs,
            purge <= 2 * usize::MAX,
            train@ == clear_below(t as nat, test@, purge as int, embargo as int),
        decreases n_obs - t,
    {
        if clear_of_all(t, &test, purge, embargo) {
            train.push(t);
        }
        t = t + 1;
    }
    CpcvPath { test, train }
}

/// The held-out paths over `n_obs` observations in `blocks` blocks: one for every choice of half of
/// the blocks, with what lies within `lookback + label_horizon` of a held-out block, and `embargo` more
/// behind it, kept from training.
pub fn cpcv_paths(
    n_obs: usize,
    blocks: usize,
    lookback: usize,
    label_horizon: usize,
    embargo: usize,
) -> (r: Result<Vec<CpcvPath>, ValidationError>)
    ensures
        !is_balanced(blocks as int) ==> r == Err::<Vec<CpcvPath>, ValidationError>(
            ValidationError::OddBlockCount(blocks),
        ),
        is_balanced(blocks as int) && n_obs < blocks ==> r == Err::<Vec<CpcvPath>, ValidationError>(
            ValidationError::EmptyMatrix,
        ),
        is_balanced(blocks as int) && n_obs >= blocks ==> (r matches Ok(paths) && path_models(
            paths@,
        ) == all_paths(
            n_obs as int,
            blocks as int,
            lookback + label_horizon,
            embargo as int,
        )),
{
    if blocks < 2 || blocks % 2 != 0 {
        return Err(ValidationError::OddBlockCount(blocks));
    }
    if n_obs < blocks {
        return Err(ValidationError::EmptyMatrix);
    }
    let purge: u128 = lookback as u128 + label_horizon as u128;
    let chosen: Vec<Vec<usize>> = combinations(blocks, blocks / 2);
    let ghost all = subsets_from(0, blocks as nat, (blocks / 2) as nat);
    let ghost want = all_paths(n_obs as int, blocks as int, purge as int, embargo as int);
    let mut out: Vec<CpcvPath> = Vec::new();
    let mut i: usize = 0;
    while i < chosen.len()
        invariant
            i <= chosen.len(),
            0 < blocks <= n_obs,
            purge == lookback + label_horizon,
            lists(chosen@) == all,
            all == subsets_from(0, blocks as nat, (blocks / 2) as nat),
            want == all_paths(n_obs as int, blocks as int, purge as int, embargo as int),
            path_models(out@) =~= want.take(i as int),
        decreases chosen.len() - i,
    {
        let ghost before = path_models(out@);
        proof {
            assert(lists(chosen@)[i as int] == chosen@[i as int]@);
            law_listed_are_subsets(0, blocks as nat, (blocks / 2) as nat, i as int);
        }
        out.push(path_for(&chosen[i], n_obs, blocks, purge, embargo));
        assert(path_models(out@) =~= before.push(out@.last()@));
        i = i + 1;
    }
    assert(path_models(out@) =~= want);
    Ok(out)
}

/// Whether a distribution is good enough to promote on: it has enough paths, and its lower percentile
/// reaches the floor. With too few paths nothing is promoted.
pub fn gate_passes(n_paths: usize, min_paths: usize, percentile_reaches_floor: bool) -> (r: bool)
    ensures
        r == (n_paths >= min_paths && percentile_reaches_floor),
{
    if n_paths < min_paths {
        return false;
    }
    percentile_reaches_floor
}

} // verus!
