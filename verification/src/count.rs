//! Counting the positions at which something holds.

use vstd::prelude::*;

verus! {

/// The positions below `n` at which `p` holds.
pub open spec fn positions(n: int, p: spec_fn(int) -> bool) -> Set<int> {
    Set::new(|i: int| 0 <= i < n && p(i))
}

/// There are finitely many positions below `n`, and one position more counts exactly if `p` holds there.
pub proof fn lemma_one_more_position(n: int, p: spec_fn(int) -> bool)
    requires
        n > 0,
    ensures
        positions(n, p).finite(),
        positions(n - 1, p).finite(),
        positions(n, p).len() == positions(n - 1, p).len() + (if p(n - 1) {
            1int
        } else {
            0
        }),
{
    let before = positions(n - 1, p);
    let all = positions(n, p);
    vstd::set_lib::lemma_int_range(0, n);
    vstd::set_lib::lemma_len_subset(before, vstd::set_lib::set_int_range(0, n));
    vstd::set_lib::lemma_len_subset(all, vstd::set_lib::set_int_range(0, n));
    if p(n - 1) {
        assert(all =~= before.insert(n - 1));
    } else {
        assert(all =~= before);
    }
}

/// There is no position below zero.
pub proof fn lemma_no_position(p: spec_fn(int) -> bool)
    ensures
        positions(0, p).finite(),
        positions(0, p).len() == 0,
{
    assert(positions(0, p) =~= Set::empty());
}

/// Every position is one at which `p` holds or one at which it does not.
pub proof fn lemma_positions_split(n: int, p: spec_fn(int) -> bool)
    requires
        n >= 0,
    ensures
        positions(n, p).finite(),
        positions(n, |i: int| !p(i)).finite(),
        positions(n, p).len() + positions(n, |i: int| !p(i)).len() == n,
    decreases n,
{
    let q = |i: int| !p(i);
    if n == 0 {
        lemma_no_position(p);
        lemma_no_position(q);
    } else {
        lemma_positions_split(n - 1, p);
        lemma_one_more_position(n, p);
        lemma_one_more_position(n, q);
    }
}

} // verus!
