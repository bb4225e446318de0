//! Null models: shuffles, block bootstraps and random positions, given the random draws they rest on.

use vstd::prelude::*;

use crate::count::{lemma_no_position, lemma_one_more_position, positions};

verus! {

// ---- shuffling -----------------------------------------------------------------------------------

/// A list with two of its elements exchanged.
pub open spec fn swapped(s: Seq<usize>, i: int, j: int) -> Seq<usize> {
    s.update(i, s[j]).update(j, s[i])
}

/// The positions below `n` after the first `k` exchanges of a shuffle: from the last position down,
/// each is exchanged with the one that its draw names among those up to it.
pub open spec fn shuffled(n: nat, draws: Seq<u64>, k: nat) -> Seq<usize>
    decreases k,
{
    if k == 0 {
        Seq::new(n, |i: int| i as usize)
    } else {
        let i = n - k;
        swapped(shuffled(n, draws, (k - 1) as nat), i, draws[k - 1] as int % (i + 1))
    }
}

/// Exchanging two elements keeps what a list holds.
proof fn lemma_swap_keeps(s: Seq<usize>, i: int, j: int)
    requires
        0 <= i < s.len(),
        0 <= j < s.len(),
    ensures
        swapped(s, i, j).len() == s.len(),
        forall|x: usize| #[trigger] swapped(s, i, j).contains(x) <==> s.contains(x),
        s.no_duplicates() ==> swapped(s, i, j).no_duplicates(),
{
    let t = swapped(s, i, j);
    assert forall|x: usize| t.contains(x) implies s.contains(x) by {
        let k = choose|k: int| 0 <= k < t.len() && t[k] == x;
        if k == j {
            assert(s[i] == x);
        } else if k == i {
            assert(s[j] == x);
        } else {
            assert(s[k] == x);
        }
    }
    assert forall|x: usize| s.contains(x) implies t.contains(x) by {
        let k = choose|k: int| 0 <= k < s.len() && s[k] == x;
        if k == i {
            assert(t[j] == x);
        } else if k == j {
            if i == j {
                assert(t[j] == x);
            } else {
                assert(t[i] == x);
            }
        } else {
            assert(t[k] == x);
        }
    }
}

/// A shuffle is a permutation: every position occurs in it, and none twice.
pub proof fn law_shuffle_is_a_permutation(n: nat, draws: Seq<u64>, k: nat)
    requires
        n <= usize::MAX,
        k == 0 || k < n,
    ensures
        shuffled(n, draws, k).len() == n,
        shuffled(n, draws, k).no_duplicates(),
        forall|x: usize| #[trigger] shuffled(n, draws, k).contains(x) <==> x < n,
    decreases k,
{
    if k == 0 {
        let s = shuffled(n, draws, 0);
        assert forall|x: usize| x < n implies s.contains(x) by {
            assert(s[x as int] == x);
        }
        assert forall|x: usize| s.contains(x) implies x < n by {
            let i = choose|i: int| 0 <= i < s.len() && s[i] == x;
            assert(s[i] == i as usize);
        }
    } else {
        law_shuffle_is_a_permutation(n, draws, (k - 1) as nat);
        let i = n - k;
        let j = draws[k - 1] as int % (i + 1);
        let before = shuffled(n, draws, (k - 1) as nat);
        lemma_swap_keeps(before, i, j);
        assert(shuffled(n, draws, k) == swapped(before, i, j));
        assert forall|x: usize| #[trigger] shuffled(n, draws, k).contains(x) <==> x < n by {
            assert(swapped(before, i, j).contains(x) <==> before.contains(x));
        }
    }
}

/// The shuffle goes from the last position down. Its draw names, among the positions up to it, the element
/// that a position gets and keeps; that element's place takes the one that stood there, and no other
/// element moves.
pub proof fn law_draw_names_the_element(n: nat, draws: Seq<u64>, k: nat, other: int)
    requires
        0 < k < n <= usize::MAX,
        0 <= other < n,
    ensures
        ({
            let before = shuffled(n, draws, (k - 1) as nat);
            let after = shuffled(n, draws, k);
            let at = n - k;
            let drawn = draws[k - 1] as int % (n - k + 1);
            &&& 0 <= drawn <= at
            &&& after[at] == before[drawn]
            &&& after[drawn] == before[at]
            &&& other != at && other != drawn ==> after[other] == before[other]
            &&& shuffled(n, draws, 0)[other] == other
        }),
{
    law_shuffle_is_a_permutation(n, draws, (k - 1) as nat);
}

/// A seeded permutation of the positions below `n`: the Fisher–Yates shuffle with the given draws, one
/// for each position but the first, from the last position down.
pub fn shuffle_order(n: usize, draws: &[u64]) -> (r: Vec<usize>)
    requires
        n > 0 ==> draws.len() >= n - 1,
    ensures
        n == 0 ==> r.len() == 0,
        n > 0 ==> r@ == shuffled(n as nat, draws@, (n - 1) as nat),
        r.len() == n,
{
    let mut out: Vec<usize> = Vec::new();
    let mut z: usize = 0;
    while z < n
        invariant
            z <= n,
            out.len() == z,
            forall|k: int| 0 <= k < z ==> #[trigger] out[k] == k,
        decreases n - z,
    {
        out.push(z);
        z = z + 1;
    }
    assert(out@ =~= shuffled(n as nat, draws@, 0));
    if n == 0 {
        return out;
    }
    let mut i: usize = n - 1;
    while i > 0
        invariant
            i < n,
            draws.len() >= n - 1,
            out.len() == n,
            out@ == shuffled(n as nat, draws@, (n - 1 - i) as nat),
        decreases i,
    {
        let at: usize = n - 1 - i;
        let j: usize = (draws[at] % (i as u64 + 1)) as usize;
        let x: usize = out[i];
        let y: usize = out[j];
        let ghost before = out@;
        out.set(i, y);
        out.set(j, x);
        proof {
            assert(out@ =~= swapped(before, i as int, j as int));
            let k = (n - i) as nat;
            assert(n - k == i);
            assert((k - 1) as nat == (n - 1 - i) as nat);
        }
        i = i - 1;
    }
    out
}

// ---- block bootstrap -----------------------------------------------------------------------------

/// The length of a block: the whole series where none is given or more is asked for than there is.
pub open spec fn block_length(block_len: int, t: int) -> int {
    if block_len < 1 || block_len > t {
        t
    } else {
        block_len
    }
}

/// The number of draws that a block bootstrap of `t` observations needs.
pub open spec fn blocks_needed(block_len: int, t: int) -> int {
    (t + block_length(block_len, t) - 1) / block_length(block_len, t)
}

/// The observation that stands at position `i` of a block bootstrap: so far into the block that its
/// draw starts.
pub open spec fn resampled(i: int, block_len: int, t: int, draws: Seq<u64>) -> int {
    let block = block_length(block_len, t);
    draws[i / block] as int % (t - block + 1) + i % block
}

/// The number of draws that a block bootstrap needs.
pub fn bootstrap_draws(t: usize, block_len: usize) -> (r: usize)
    ensures
        t == 0 ==> r == 0,
        t > 0 ==> r == blocks_needed(block_len as int, t as int),
{
    if t == 0 {
        return 0;
    }
    let block: usize = if block_len < 1 || block_len > t {
        t
    } else {
        block_len
    };
    let whole: usize = t / block;
    let rest: usize = t % block;
    proof {
        let b = block as int;
        let x = t as int;
        assert(x == x / b * b + x % b) by (nonlinear_arith)
            requires
                b > 0,
        ;
        if x % b == 0 {
            assert((x + b - 1) / b == x / b) by (nonlinear_arith)
                requires
                    x == x / b * b,
                    b > 0,
            ;
        } else {
            assert((x + b - 1) / b == x / b + 1) by (nonlinear_arith)
                requires
                    x == x / b * b + x % b,
                    0 < x % b < b,
                    b > 0,
            ;
            assert(x / b < x) by (nonlinear_arith)
                requires
                    x == x / b * b + x % b,
                    0 < x % b < b,
                    b > 1,
                    x > 0,
            ;
        }
    }
    if rest == 0 {
        whole
    } else {
        whole + 1
    }
}

/// The observations of a moving-block bootstrap, by position: blocks of `block_len` neighbours, each
/// starting where its draw says, cut off at the length of the series. A length of zero is that of the
/// series.
pub fn bootstrap_positions(t: usize, block_len: usize, draws: &[u64]) -> (r: Vec<usize>)
    requires
        t > 0 ==> draws.len() >= blocks_needed(block_len as int, t as int),
    ensures
        r.len() == t,
        forall|i: int|
            0 <= i < t ==> #[trigger] r[i] == resampled(i, block_len as int, t as int, draws@)
                && r[i] < t,
{
    let mut out: Vec<usize> = Vec::new();
    if t == 0 {
        return out;
    }
    let block: usize = if block_len < 1 || block_len > t {
        t
    } else {
        block_len
    };
    let starts: usize = t - block + 1;
    let mut i: usize = 0;
    while i < t
        invariant
            i <= t,
            0 < block <= t,
            block == block_length(block_len as int, t as int),
            starts == t - block + 1,
            draws.len() >= blocks_needed(block_len as int, t as int),
            out.len() == i,
            forall|k: int|
                0 <= k < i ==> #[trigger] out[k] == resampled(
                    k,
                    block_len as int,
                    t as int,
                    draws@,
                ) && out[k] < t,
        decreases t - i,
    {
        proof {
            let b = block as int;
            let x = i as int;
            let n = t as int;
            assert(x / b < (n + b - 1) / b) by (nonlinear_arith)
                requires
                    0 <= x < n,
                    b > 0,
            ;
            assert(0 <= x / b <= x) by (nonlinear_arith)
                requires
                    0 <= x,
                    b > 0,
            ;
        }
        let d: u64 = draws[i / block];
        let start: usize = (d % starts as u64) as usize;
        out.push(start + i % block);
        i = i + 1;
    }
    out
}

/// A block length of zero, or of at least the length of the series, takes one draw, and gives the series
/// itself back whatever was drawn.
pub proof fn law_one_block_is_the_series(i: int, block_len: int, t: int, draws: Seq<u64>)
    requires
        0 <= i < t,
        block_len == 0 || block_len >= t,
    ensures
        resampled(i, block_len, t, draws) == i,
        blocks_needed(block_len, t) == 1,
{
    let d = draws[i / t] as int;
    assert(d % 1 == 0);
    assert(i % t == i) by (nonlinear_arith)
        requires
            0 <= i < t,
    ;
    assert((t + t - 1) / t == 1) by (nonlinear_arith)
        requires
            t > 0,
    ;
}

/// A block bootstrap is made of blocks of neighbours: each starts where its draw says, among the starts
/// from which a whole block fits, and goes on observation by observation. As many blocks are drawn as are
/// needed to reach the length of the series, and no more.
pub proof fn law_blocks_are_of_neighbours(i: int, block_len: int, t: int, draws: Seq<u64>)
    requires
        0 <= i < t,
        1 <= block_len <= t,
    ensures
        i % block_len == 0 ==> resampled(i, block_len, t, draws) == draws[i / block_len] as int % (t
            - block_len + 1),
        (i + 1) % block_len != 0 ==> resampled(i + 1, block_len, t, draws) == resampled(
            i,
            block_len,
            t,
            draws,
        ) + 1,
        0 <= resampled(i, block_len, t, draws) < t,
        (blocks_needed(block_len, t) - 1) * block_len < t <= blocks_needed(block_len, t)
            * block_len,
{
    let b = block_len;
    let q = (t + b - 1) / b;
    assert((q - 1) * b < t <= q * b) by (nonlinear_arith)
        requires
            q == (t + b - 1) / b,
            b >= 1,
            t >= 1,
    ;
    if (i + 1) % b != 0 {
        vstd::arithmetic::div_mod::lemma_fundamental_div_mod(i, b);
        vstd::arithmetic::div_mod::lemma_fundamental_div_mod(i + 1, b);
        let x = i / b;
        let y = (i + 1) / b;
        let r = i % b;
        let s = (i + 1) % b;
        assert(x == y && s == r + 1) by (nonlinear_arith)
            requires
                i == b * x + r,
                i + 1 == b * y + s,
                0 <= r < b,
                0 < s < b,
        ;
    }
}

// ---- random positions ----------------------------------------------------------------------------

/// Whether a position is long after the first `n` periods: each flip turns it round.
pub open spec fn is_long(first: bool, flips: Seq<bool>, n: nat) -> bool
    decreases n,
{
    if n == 0 {
        first
    } else {
        is_long(first, flips, (n - 1) as nat) != flips[n - 1]
    }
}

/// The positions of a random entry, given where it starts and in which periods it turns round.
pub fn entry_positions(first: bool, flips: &[bool]) -> (r: Vec<bool>)
    ensures
        r.len() == flips.len(),
        forall|i: int|
            0 <= i < flips.len() ==> #[trigger] r[i] == is_long(first, flips@, (i + 1) as nat),
{
    let mut out: Vec<bool> = Vec::new();
    let mut long: bool = first;
    let mut i: usize = 0;
    while i < flips.len()
        invariant
            i <= flips.len(),
            out.len() == i,
            long == is_long(first, flips@, i as nat),
            forall|k: int|
                0 <= k < i ==> #[trigger] out[k] == is_long(first, flips@, (k + 1) as nat),
        decreases flips.len() - i,
    {
        if flips[i] {
            long = !long;
        }
        out.push(long);
        i = i + 1;
    }
    out
}

/// How many of the first `n` positions differ from the one before.
pub open spec fn changes_in(positions: Seq<bool>, n: nat) -> int
    decreases n,
{
    if n <= 1 {
        0
    } else {
        changes_in(positions, (n - 1) as nat) + (if positions[n - 1] != positions[n - 2] {
            1int
        } else {
            0
        })
    }
}

/// How many positions differ from the one before. Their share is the realised turnover.
pub fn position_changes(positions: &[bool]) -> (r: usize)
    ensures
        r == changes_in(positions@, positions@.len()),
        r == Set::new(
            |i: int| 1 <= i < positions@.len() && positions@[i] != positions@[i - 1],
        ).len(),
{
    proof {
        law_changes_count_positions(positions@, positions@.len());
    }
    let mut count: usize = 0;
    let mut i: usize = 1;
    while i < positions.len()
        invariant
            1 <= i,
            positions.len() == 0 || i <= positions.len(),
            positions.len() == 0 ==> i == 1,
            count < i,
            count == changes_in(positions@, i as nat),
        decreases positions.len() - i,
    {
        if positions[i] != positions[i - 1] {
            count = count + 1;
        }
        i = i + 1;
    }
    count
}

/// The changes are the positions, from the second on, that differ from the one before.
pub proof fn law_changes_count_positions(held: Seq<bool>, n: nat)
    requires
        n <= held.len(),
    ensures
        changes_in(held, n) == Set::new(|i: int| 1 <= i < n && held[i] != held[i - 1]).len(),
    decreases n,
{
    let p = |i: int| i >= 1 && held[i] != held[i - 1];
    assert(Set::new(|i: int| 1 <= i < n && held[i] != held[i - 1]) =~= positions(n as int, p));
    if n <= 1 {
        lemma_no_position(p);
        if n == 1 {
            lemma_one_more_position(1, p);
        }
    } else {
        law_changes_count_positions(held, (n - 1) as nat);
        assert(Set::new(|i: int| 1 <= i < n - 1 && held[i] != held[i - 1]) =~= positions(
            n - 1,
            p,
        ));
        lemma_one_more_position(n as int, p);
    }
}

/// A position starts as given and changes exactly in the periods in which it turns round.
pub proof fn law_positions_change_when_flipped(first: bool, flips: Seq<bool>, i: int)
    requires
        0 <= i < flips.len(),
    ensures
        is_long(first, flips, 0) == first,
        is_long(first, flips, (i + 1) as nat) != is_long(first, flips, i as nat) <==> flips[i],
{
}

} // verus!
