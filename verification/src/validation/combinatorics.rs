//! Counting and listing subsets.

use vstd::arithmetic::power2::{lemma_pow2_pos, lemma_pow2_unfold, pow2};
use vstd::prelude::*;

use crate::validation::steer::saturated;

verus! {

/// The number of subsets with `k` of `n` elements.
pub open spec fn choose_count(n: nat, k: nat) -> nat
    decreases n,
{
    if k == 0 {
        1
    } else if n == 0 {
        0
    } else {
        choose_count((n - 1) as nat, (k - 1) as nat) + choose_count((n - 1) as nat, k)
    }
}

/// There is no subset larger than the set, and one that is as large.
pub proof fn lemma_choose_ends(n: nat, k: nat)
    ensures
        k > n ==> choose_count(n, k) == 0,
        choose_count(n, n) == 1,
    decreases n,
{
    if n > 0 {
        lemma_choose_ends((n - 1) as nat, k);
        lemma_choose_ends((n - 1) as nat, (k - 1) as nat);
        lemma_choose_ends((n - 1) as nat, n);
    }
}

/// There is a subset of every size up to that of the set.
pub proof fn lemma_choose_positive(n: nat, k: nat)
    requires
        k <= n,
    ensures
        choose_count(n, k) >= 1,
    decreases n,
{
    if k > 0 {
        lemma_choose_positive((n - 1) as nat, (k - 1) as nat);
    }
}

/// No size has more than half of all the subsets of a set with an element.
pub proof fn lemma_choose_is_at_most_half_of_all(n: nat, k: nat)
    requires
        n > 0,
    ensures
        choose_count(n, k) <= pow2((n - 1) as nat),
    decreases n,
{
    let m = (n - 1) as nat;
    lemma_pow2_pos(m);
    if k > 0 {
        if m == 0 {
            lemma_choose_ends(0, k);
            assert(choose_count(0, (k - 1) as nat) <= 1);
        } else {
            lemma_choose_is_at_most_half_of_all(m, (k - 1) as nat);
            lemma_choose_is_at_most_half_of_all(m, k);
            lemma_pow2_unfold(m);
        }
    }
}

/// `(k + 1) * C(n, k + 1) = (n - k) * C(n, k)`.
pub proof fn lemma_choose_step(n: nat, k: nat)
    requires
        k <= n,
    ensures
        (k + 1) * choose_count(n, k + 1) == (n - k) * choose_count(n, k),
    decreases n,
{
    if k == n {
        lemma_choose_ends(n, n + 1);
        assert((k + 1) * choose_count(n, k + 1) == 0) by (nonlinear_arith)
            requires
                choose_count(n, k + 1) == 0,
        ;
        assert((n - k) * choose_count(n, k) == 0) by (nonlinear_arith)
            requires
                n == k,
        ;
    } else {
        let m = (n - 1) as nat;
        lemma_choose_step(m, k);
        let a = choose_count(m, k) as int;
        let b = choose_count(m, k + 1) as int;
        let ik = k as int;
        let im = m as int;
        if k == 0 {
            assert(choose_count(n, 1) == a + b);
            assert((k + 1) * choose_count(n, k + 1) == (n - k) * choose_count(n, k)) by (
            nonlinear_arith)
                requires
                    k == 0,
                    a == 1,
                    choose_count(n, k + 1) == a + b,
                    choose_count(n, k) == 1,
                    (ik + 1) * b == (im - ik) * a,
                    ik == 0,
                    im == n - 1,
            ;
        } else {
            let j = (k - 1) as nat;
            lemma_choose_step(m, j);
            let c = choose_count(m, j) as int;
            assert(choose_count(n, k + 1) == a + b);
            assert(choose_count(n, k) == c + a);
            assert((k + 1) * choose_count(n, k + 1) == (n - k) * choose_count(n, k)) by (
            nonlinear_arith)
                requires
                    choose_count(n, k + 1) == a + b,
                    choose_count(n, k) == c + a,
                    (ik + 1) * b == (im - ik) * a,
                    ik * a == (im - ik + 1) * c,
                    ik == k,
                    im == n - 1,
            ;
        }
    }
}

/// As many elements can be left out as can be taken.
pub proof fn law_choose_is_symmetric(n: nat, k: nat)
    requires
        k <= n,
    ensures
        choose_count(n, k) == choose_count(n, (n - k) as nat),
    decreases n,
{
    if n > 0 && 0 < k < n {
        law_choose_is_symmetric((n - 1) as nat, (k - 1) as nat);
        law_choose_is_symmetric((n - 1) as nat, k);
    } else {
        lemma_choose_ends(n, n);
    }
}

/// `k * C(n, k) = n * C(n - 1, k - 1)`.
pub proof fn law_choose_absorbs(n: nat, k: nat)
    requires
        1 <= k <= n,
    ensures
        k * choose_count(n, k) == n * choose_count((n - 1) as nat, (k - 1) as nat),
{
    let m = (n - 1) as nat;
    let j = (k - 1) as nat;
    lemma_choose_step(m, j);
    let a = choose_count(m, j) as int;
    let b = choose_count(m, k) as int;
    assert(choose_count(n, k) == a + b);
    assert(k * choose_count(n, k) == n * choose_count((n - 1) as nat, (k - 1) as nat)) by (
    nonlinear_arith)
        requires
            choose_count(n, k) == a + b,
            choose_count((n - 1) as nat, (k - 1) as nat) == a,
            (j as int + 1) * b == (m - j as int) * a,
            j == k - 1,
            m == n - 1,
    ;
}

/// Up to the middle, taking more elements leaves more subsets.
proof fn lemma_choose_grows(n: nat, i: nat, k: nat)
    requires
        i <= k,
        2 * k <= n,
    ensures
        1 <= choose_count(n, i) <= choose_count(n, k),
    decreases k,
{
    if k == 0 {
    } else if i == k {
        lemma_choose_grows(n, 0, (k - 1) as nat);
        lemma_choose_grows(n, (k - 1) as nat, (k - 1) as nat);
        lemma_one_more(n, (k - 1) as nat);
    } else {
        lemma_choose_grows(n, i, (k - 1) as nat);
        lemma_one_more(n, (k - 1) as nat);
    }
}

proof fn lemma_one_more(n: nat, k: nat)
    requires
        2 * (k + 1) <= n,
    ensures
        choose_count(n, k) <= choose_count(n, k + 1),
{
    lemma_choose_step(n, k);
    let a = choose_count(n, k) as int;
    let b = choose_count(n, k + 1) as int;
    assert(a <= b) by (nonlinear_arith)
        requires
            (k + 1) * b == (n - k) * a,
            2 * (k + 1) <= n,
            a >= 0,
            b >= 0,
    ;
}

/// The number of subsets with `k` of `n` elements, or the largest machine integer if there are more.
pub fn n_choose_k(n: usize, k: usize) -> (r: usize)
    ensures
        r == saturated(choose_count(n as nat, k as nat) as int),
{
    if k > n {
        proof {
            lemma_choose_ends(n as nat, k as nat);
        }
        return 0;
    }
    proof {
        law_choose_is_symmetric(n as nat, k as nat);
    }
    let few: usize = if k <= n - k {
        k
    } else {
        n - k
    };
    let mut num: u128 = 1;
    let mut i: usize = 0;
    while i < few
        invariant
            i <= few,
            2 * few <= n,
            choose_count(n as nat, few as nat) == choose_count(n as nat, k as nat),
            num == choose_count(n as nat, i as nat),
            num <= usize::MAX,
        decreases few - i,
    {
        proof {
            lemma_choose_step(n as nat, i as nat);
        }
        let ghost a = num as int;
        let ghost b = choose_count(n as nat, (i + 1) as nat) as int;
        let ghost d = i as int + 1;
        let ghost e = n as int - i;
        assert(a * e <= 0xffff_ffff_ffff_ffff * 0xffff_ffff_ffff_ffff) by (nonlinear_arith)
            requires
                0 <= a <= 0xffff_ffff_ffff_ffff,
                0 <= e <= 0xffff_ffff_ffff_ffff,
        ;
        assert(a * e == b * d) by (nonlinear_arith)
            requires
                d * b == e * a,
        ;
        assert((a * e) / d == b) by (nonlinear_arith)
            requires
                a * e == b * d,
                d > 0,
        ;
        num = num * ((n - i) as u128) / (i as u128 + 1);
        if num > usize::MAX as u128 {
            proof {
                lemma_choose_grows(n as nat, (i + 1) as nat, few as nat);
            }
            return usize::MAX;
        }
        i = i + 1;
    }
    num as usize
}

// ---- listing subsets -----------------------------------------------------------------------------

/// Every element of a list, behind `head`.
pub open spec fn behind(head: Seq<usize>, tails: Seq<Seq<usize>>) -> Seq<Seq<usize>> {
    Seq::new(tails.len(), |i: int| head + tails[i])
}

/// The ascending sequences of `k` numbers in `[lo, n)`, in dictionary order.
pub open spec fn subsets_from(lo: nat, n: nat, k: nat) -> Seq<Seq<usize>>
    decreases n - lo,
{
    if k == 0 {
        seq![Seq::<usize>::empty()]
    } else if lo >= n {
        Seq::empty()
    } else {
        behind(seq![lo as usize], subsets_from(lo + 1, n, (k - 1) as nat)) + subsets_from(
            lo + 1,
            n,
            k,
        )
    }
}

/// Whether a sequence is `k` ascending numbers in `[lo, n)`.
pub open spec fn is_subset(s: Seq<usize>, lo: int, n: int, k: int) -> bool {
    &&& s.len() == k
    &&& forall|i: int| 0 <= i < s.len() ==> lo <= #[trigger] s[i] < n
    &&& forall|i: int, j: int| 0 <= i < j < s.len() ==> #[trigger] s[i] < #[trigger] s[j]
}

/// There are as many subsets in the list as there are subsets.
pub proof fn law_subsets_are_counted(lo: nat, n: nat, k: nat)
    requires
        lo <= n,
    ensures
        subsets_from(lo, n, k).len() == choose_count((n - lo) as nat, k),
    decreases n - lo,
{
    if k > 0 && lo < n {
        law_subsets_are_counted(lo + 1, n, (k - 1) as nat);
        law_subsets_are_counted(lo + 1, n, k);
    }
}

/// Every element of the list is a subset.
pub proof fn law_listed_are_subsets(lo: nat, n: nat, k: nat, i: int)
    requires
        n <= usize::MAX,
        0 <= i < subsets_from(lo, n, k).len(),
    ensures
        is_subset(subsets_from(lo, n, k)[i], lo as int, n as int, k as int),
    decreases n - lo,
{
    if k > 0 && lo < n {
        let first = subsets_from(lo + 1, n, (k - 1) as nat);
        if i < first.len() {
            law_listed_are_subsets(lo + 1, n, (k - 1) as nat, i);
            let s = seq![lo as usize] + first[i];
            assert(subsets_from(lo, n, k)[i] == s);
            assert forall|a: int, b: int| 0 <= a < b < s.len() implies #[trigger] s[a]
                < #[trigger] s[b] by {
                if a == 0 {
                    assert(s[b] == first[i][b - 1]);
                } else {
                    assert(s[a] == first[i][a - 1] && s[b] == first[i][b - 1]);
                }
            }
            assert forall|a: int| 0 <= a < s.len() implies lo <= #[trigger] s[a] < n by {
                if a > 0 {
                    assert(s[a] == first[i][a - 1]);
                }
            }
        } else {
            law_listed_are_subsets(lo + 1, n, k, i - first.len());
        }
    }
}

/// Every subset is in the list.
pub proof fn law_every_subset_is_listed(s: Seq<usize>, lo: nat, n: nat, k: nat)
    requires
        n <= usize::MAX,
        is_subset(s, lo as int, n as int, k as int),
    ensures
        subsets_from(lo, n, k).contains(s),
    decreases n - lo,
{
    let all = subsets_from(lo, n, k);
    if k == 0 {
        assert(s =~= Seq::empty());
        assert(all[0] == s);
    } else {
        assert(s[0] < n);
        let first = subsets_from(lo + 1, n, (k - 1) as nat);
        let second = subsets_from(lo + 1, n, k);
        if s[0] == lo {
            let t = s.drop_first();
            assert forall|i: int| 0 <= i < t.len() implies lo + 1 <= #[trigger] t[i] < n by {
                assert(t[i] == s[i + 1]);
                assert(s[0] < s[i + 1]);
            }
            assert forall|i: int, j: int| 0 <= i < j < t.len() implies #[trigger] t[i]
                < #[trigger] t[j] by {
                assert(t[i] == s[i + 1] && t[j] == s[j + 1]);
            }
            law_every_subset_is_listed(t, lo + 1, n, (k - 1) as nat);
            let i = choose|i: int| 0 <= i < first.len() && first[i] == t;
            assert(s =~= seq![lo as usize] + t);
            assert(all[i] == s);
        } else {
            assert forall|i: int| 0 <= i < s.len() implies lo + 1 <= #[trigger] s[i] < n by {
                if i > 0 {
                    assert(s[0] < s[i]);
                }
            }
            law_every_subset_is_listed(s, lo + 1, n, k);
            let i = choose|i: int| 0 <= i < second.len() && second[i] == s;
            assert(all[first.len() + i] == s);
        }
    }
}

/// The list is in dictionary order: of two subsets, the one listed first has the smaller number where
/// they first differ.
pub proof fn law_subsets_are_in_order(lo: nat, n: nat, k: nat, i: int, j: int)
    requires
        n <= usize::MAX,
        0 <= i < j < subsets_from(lo, n, k).len(),
    ensures
        exists|p: int|
            0 <= p < k && (forall|q: int|
                0 <= q < p ==> subsets_from(lo, n, k)[i][q] == subsets_from(lo, n, k)[j][q])
                && #[trigger] subsets_from(lo, n, k)[i][p] < subsets_from(lo, n, k)[j][p],
    decreases n - lo,
{
    let all = subsets_from(lo, n, k);
    if k > 0 && lo < n {
        let first = subsets_from(lo + 1, n, (k - 1) as nat);
        let second = subsets_from(lo + 1, n, k);
        if j < first.len() {
            law_subsets_are_in_order(lo + 1, n, (k - 1) as nat, i, j);
            let p = choose|p: int|
                0 <= p < k - 1 && (forall|q: int| 0 <= q < p ==> first[i][q] == first[j][q])
                    && #[trigger] first[i][p] < first[j][p];
            law_listed_are_subsets(lo + 1, n, (k - 1) as nat, i);
            law_listed_are_subsets(lo + 1, n, (k - 1) as nat, j);
            assert(all[i] == seq![lo as usize] + first[i]);
            assert(all[j] == seq![lo as usize] + first[j]);
            assert forall|q: int| 0 <= q < p + 1 implies all[i][q] == all[j][q] by {
                if q > 0 {
                    assert(all[i][q] == first[i][q - 1]);
                    assert(all[j][q] == first[j][q - 1]);
                }
            }
            assert(all[i][p + 1] == first[i][p]);
            assert(all[j][p + 1] == first[j][p]);
        } else if i >= first.len() {
            let a = i - first.len();
            let b = j - first.len();
            law_subsets_are_in_order(lo + 1, n, k, a, b);
            assert(all[i] == second[a] && all[j] == second[b]);
            let p = choose|p: int|
                0 <= p < k && (forall|q: int| 0 <= q < p ==> second[a][q] == second[b][q])
                    && #[trigger] second[a][p] < second[b][p];
            assert(all[i][p] < all[j][p]);
        } else {
            law_listed_are_subsets(lo + 1, n, k, j - first.len());
            assert(all[i] == seq![lo as usize] + first[i]);
            assert(all[i][0] < all[j][0]);
        }
    }
}

/// How many of the lists have a number in them.
pub open spec fn lists_with(all: Seq<Seq<usize>>, b: usize) -> int
    decreases all.len(),
{
    if all.len() == 0 {
        0
    } else {
        lists_with(all.drop_last(), b) + (if all.last().contains(b) {
            1int
        } else {
            0
        })
    }
}

proof fn lemma_lists_with_both(x: Seq<Seq<usize>>, y: Seq<Seq<usize>>, b: usize)
    ensures
        lists_with(x + y, b) == lists_with(x, b) + lists_with(y, b),
    decreases y.len(),
{
    if y.len() == 0 {
        assert(x + y =~= x);
    } else {
        assert((x + y).drop_last() =~= x + y.drop_last());
        assert((x + y).last() == y.last());
        lemma_lists_with_both(x, y.drop_last(), b);
    }
}

/// Putting the same number in front of every list puts it into all of them, and changes nothing for
/// another number.
proof fn lemma_lists_with_behind(lo: usize, tails: Seq<Seq<usize>>, b: usize)
    ensures
        lists_with(behind(seq![lo], tails), b) == (if lo == b {
            tails.len() as int
        } else {
            lists_with(tails, b)
        }),
    decreases tails.len(),
{
    if tails.len() > 0 {
        let all = behind(seq![lo], tails);
        assert(all.drop_last() =~= behind(seq![lo], tails.drop_last()));
        lemma_lists_with_behind(lo, tails.drop_last(), b);
        let t = tails.last();
        assert(all.last() == seq![lo] + t);
        if lo == b {
            assert(all.last()[0] == b);
        } else {
            if t.contains(b) {
                let i = choose|i: int| 0 <= i < t.len() && t[i] == b;
                assert(all.last()[i + 1] == b);
            }
            if all.last().contains(b) {
                let i = choose|i: int| 0 <= i < all.last().len() && all.last()[i] == b;
                assert(t[i - 1] == b);
            }
        }
    }
}

proof fn lemma_lists_without(all: Seq<Seq<usize>>, b: usize)
    requires
        forall|i: int| 0 <= i < all.len() ==> !(#[trigger] all[i]).contains(b),
    ensures
        lists_with(all, b) == 0,
    decreases all.len(),
{
    if all.len() > 0 {
        assert(all.last() == all[all.len() - 1]);
        assert forall|i: int| 0 <= i < all.drop_last().len() implies !(
        #[trigger] all.drop_last()[i]).contains(b) by {
            assert(all.drop_last()[i] == all[i]);
        }
        lemma_lists_without(all.drop_last(), b);
    }
}

/// Every number is in the same number of subsets: of those with `k` of the numbers in `[lo, n)`, a given
/// number is in as many as there are ways to choose the other `k - 1`.
pub proof fn law_numbers_are_in_equally_many_subsets(lo: nat, n: nat, k: nat, b: usize)
    requires
        n <= usize::MAX,
        lo <= b < n,
        k >= 1,
    ensures
        lists_with(subsets_from(lo, n, k), b) == choose_count((n - lo - 1) as nat, (k - 1) as nat),
    decreases n - lo,
{
    let first = subsets_from(lo + 1, n, (k - 1) as nat);
    let second = subsets_from(lo + 1, n, k);
    lemma_lists_with_both(behind(seq![lo as usize], first), second, b);
    lemma_lists_with_behind(lo as usize, first, b);
    if b == lo {
        law_subsets_are_counted(lo + 1, n, (k - 1) as nat);
        assert forall|i: int| 0 <= i < second.len() implies !(#[trigger] second[i]).contains(b) by {
            law_listed_are_subsets(lo + 1, n, k, i);
        }
        lemma_lists_without(second, b);
    } else {
        law_numbers_are_in_equally_many_subsets(lo + 1, n, k, b);
        if k == 1 {
            assert(first =~= seq![Seq::<usize>::empty()]);
            lemma_lists_without(first, b);
        } else {
            law_numbers_are_in_equally_many_subsets(lo + 1, n, (k - 1) as nat, b);
        }
    }
}

/// The views of some lists of numbers.
pub open spec fn lists(v: Seq<Vec<usize>>) -> Seq<Seq<usize>> {
    Seq::new(v.len(), |i: int| v[i]@)
}

/// A copy of some numbers.
fn copy_of(v: &Vec<usize>) -> (r: Vec<usize>)
    ensures
        r@ == v@,
{
    let mut out: Vec<usize> = Vec::new();
    let mut i: usize = 0;
    while i < v.len()
        invariant
            i <= v.len(),
            out@ =~= v@.take(i as int),
        decreases v.len() - i,
    {
        out.push(v[i]);
        i = i + 1;
    }
    assert(out@ =~= v@);
    out
}

/// Appends every subset from `[lo, n)` with `k` elements, behind `head`.
fn append_subsets(out: &mut Vec<Vec<usize>>, head: &Vec<usize>, lo: usize, n: usize, k: usize)
    ensures
        lists(final(out)@) == lists(old(out)@) + behind(
            head@,
            subsets_from(lo as nat, n as nat, k as nat),
        ),
    decreases n - lo,
{
    let ghost before = lists(out@);
    let ghost want = behind(head@, subsets_from(lo as nat, n as nat, k as nat));
    if k == 0 {
        out.push(copy_of(head));
        assert(head@ + Seq::<usize>::empty() =~= head@);
        assert(lists(out@) =~= before.push(head@));
        assert(lists(out@) =~= before + want);
    } else if lo < n {
        let mut longer: Vec<usize> = copy_of(head);
        longer.push(lo);
        append_subsets(out, &longer, lo + 1, n, k - 1);
        append_subsets(out, head, lo + 1, n, k);
        proof {
            let first = subsets_from((lo + 1) as nat, n as nat, (k - 1) as nat);
            let second = subsets_from((lo + 1) as nat, n as nat, k as nat);
            assert forall|i: int| 0 <= i < first.len() implies longer@ + first[i] =~= head@ + (
            seq![lo] + first[i]) by {}
            assert(behind(longer@, first) + behind(head@, second) =~= want);
            assert(lists(out@) =~= before + want);
        }
    } else {
        assert(lists(out@) =~= before + want);
    }
}

/// All subsets with `k` of the numbers below `n`, each ascending, in dictionary order. For `k = 0` that
/// is the empty set.
pub fn combinations(n: usize, k: usize) -> (r: Vec<Vec<usize>>)
    ensures
        lists(r@) == subsets_from(0, n as nat, k as nat),
{
    let mut out: Vec<Vec<usize>> = Vec::new();
    if k > n {
        proof {
            law_subsets_are_counted(0, n as nat, k as nat);
            lemma_choose_ends(n as nat, k as nat);
            assert(lists(out@) =~= subsets_from(0, n as nat, k as nat));
        }
        return out;
    }
    let head: Vec<usize> = Vec::new();
    append_subsets(&mut out, &head, 0, n, k);
    proof {
        let all = subsets_from(0, n as nat, k as nat);
        assert forall|i: int| 0 <= i < all.len() implies Seq::<usize>::empty() + all[i]
            =~= all[i] by {}
        assert(lists(out@) =~= all);
    }
    out
}

} // verus!
