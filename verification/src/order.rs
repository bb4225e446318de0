//! Sorting by key.

use vstd::prelude::*;

verus! {

/// Whether position `i` comes before position `j`: by its key, and by itself where the keys are equal.
pub open spec fn key_before(keys: Seq<u64>, i: int, j: int) -> bool {
    keys[i] < keys[j] || (keys[i] == keys[j] && i < j)
}

/// Whether `order` names every position in `[lo, hi)` once, in ascending order of the keys, equal keys
/// in the order in which they stand.
pub open spec fn is_key_order(keys: Seq<u64>, order: Seq<usize>, lo: int, hi: int) -> bool {
    &&& order.len() == hi - lo
    &&& forall|a: int| 0 <= a < order.len() ==> lo <= #[trigger] order[a] < hi
    &&& forall|a: int, b: int|
        0 <= a < b < order.len() ==> key_before(
            keys,
            #[trigger] order[a] as int,
            #[trigger] order[b] as int,
        )
}

/// A list that names as many positions as there are, in strict order, names every one of them.
pub proof fn law_key_order_is_onto(keys: Seq<u64>, order: Seq<usize>, lo: int, hi: int, p: int)
    requires
        is_key_order(keys, order, lo, hi),
        0 <= lo <= p < hi <= usize::MAX,
    ensures
        order.contains(p as usize),
{
    let ints = Seq::new(order.len(), |a: int| order[a] as int);
    assert(ints.no_duplicates()) by {
        assert forall|a: int, b: int| 0 <= a < b < ints.len() implies ints[a] != ints[b] by {
            assert(key_before(keys, order[a] as int, order[b] as int));
        }
    }
    ints.unique_seq_to_set();
    assert forall|x: int| ints.to_set().contains(x) implies lo <= x < hi by {
        let a = choose|a: int| 0 <= a < ints.len() && ints[a] == x;
        assert(lo <= order[a] < hi);
    }
    vstd::set_lib::lemma_int_range(lo, hi);
    vstd::set_lib::lemma_subset_equality(ints.to_set(), vstd::set_lib::set_int_range(lo, hi));
    assert(ints.to_set().contains(p));
    let a = choose|a: int| 0 <= a < ints.len() && ints[a] == p;
    assert(order[a] == p as usize);
}

/// Merges the orders of two neighbouring ranges.
fn merged(keys: &[u64], a: Vec<usize>, b: Vec<usize>, Ghost(lo): Ghost<int>, Ghost(mid): Ghost<int>, Ghost(hi): Ghost<int>) -> (r: Vec<usize>)
    requires
        0 <= lo <= mid <= hi <= keys.len(),
        is_key_order(keys@, a@, lo, mid),
        is_key_order(keys@, b@, mid, hi),
    ensures
        is_key_order(keys@, r@, lo, hi),
{
    let mut out: Vec<usize> = Vec::new();
    let mut i: usize = 0;
    let mut j: usize = 0;
    while i < a.len() || j < b.len()
        invariant
            0 <= lo <= mid <= hi <= keys.len(),
            is_key_order(keys@, a@, lo, mid),
            is_key_order(keys@, b@, mid, hi),
            i <= a.len(),
            j <= b.len(),
            out.len() == i + j,
            forall|x: int| 0 <= x < out.len() ==> lo <= #[trigger] out[x] < hi,
            forall|x: int, y: int|
                0 <= x < y < out.len() ==> key_before(
                    keys@,
                    #[trigger] out[x] as int,
                    #[trigger] out[y] as int,
                ),
            forall|x: int, y: int|
                0 <= x < out.len() && i <= y < a.len() ==> key_before(
                    keys@,
                    #[trigger] out[x] as int,
                    #[trigger] a[y] as int,
                ),
            forall|x: int, y: int|
                0 <= x < out.len() && j <= y < b.len() ==> key_before(
                    keys@,
                    #[trigger] out[x] as int,
                    #[trigger] b[y] as int,
                ),
        decreases a.len() - i + b.len() - j,
    {
        let take_first: bool = if i < a.len() {
            assert(lo <= a@[i as int] < mid);
            if j < b.len() {
                assert(mid <= b@[j as int] < hi);
                keys[a[i]] <= keys[b[j]]
            } else {
                true
            }
        } else {
            false
        };
        if take_first {
            let p: usize = a[i];
            assert forall|y: int| j <= y < b.len() implies key_before(
                keys@,
                p as int,
                #[trigger] b@[y] as int,
            ) by {
                assert(mid <= b@[y] < hi);
                if y > j {
                    assert(key_before(keys@, b@[j as int] as int, b@[y] as int));
                }
            }
            out.push(p);
            i = i + 1;
        } else {
            let p: usize = b[j];
            assert(mid <= p < hi);
            assert forall|y: int| i <= y < a.len() implies key_before(
                keys@,
                p as int,
                #[trigger] a@[y] as int,
            ) by {
                assert(lo <= a@[y] < mid);
                if y > i {
                    assert(key_before(keys@, a@[i as int] as int, a@[y] as int));
                }
            }
            out.push(p);
            j = j + 1;
        }
    }
    out
}

/// The order of the positions in `[lo, hi)`.
fn order_of(keys: &[u64], lo: usize, hi: usize) -> (r: Vec<usize>)
    requires
        lo <= hi <= keys.len(),
    ensures
        is_key_order(keys@, r@, lo as int, hi as int),
    decreases hi - lo,
{
    if hi - lo <= 1 {
        let mut out: Vec<usize> = Vec::new();
        if hi > lo {
            out.push(lo);
        }
        return out;
    }
    let mid: usize = lo + (hi - lo) / 2;
    let a: Vec<usize> = order_of(keys, lo, mid);
    let b: Vec<usize> = order_of(keys, mid, hi);
    merged(keys, a, b, Ghost(lo as int), Ghost(mid as int), Ghost(hi as int))
}

/// The positions of the keys in ascending order of the keys, equal keys in the order in which they
/// stand.
pub fn ascending_order(keys: &[u64]) -> (r: Vec<usize>)
    ensures
        is_key_order(keys@, r@, 0, keys@.len() as int),
{
    order_of(keys, 0, keys.len())
}

/// The keys in the order of a listing.
pub open spec fn keys_in_order(keys: Seq<u64>, order: Seq<usize>) -> Seq<u64> {
    Seq::new(order.len(), |a: int| keys[order[a] as int])
}

/// The keys in the order of an ascending listing ascend.
pub proof fn lemma_ordered_keys_ascend(keys: Seq<u64>, order: Seq<usize>, lo: int, hi: int)
    requires
        is_key_order(keys, order, lo, hi),
    ensures
        forall|a: int, b: int|
            0 <= a <= b < order.len() ==> #[trigger] keys_in_order(keys, order)[a]
                <= #[trigger] keys_in_order(keys, order)[b],
{
    let s = keys_in_order(keys, order);
    assert forall|a: int, b: int| 0 <= a <= b < order.len() implies #[trigger] s[a]
        <= #[trigger] s[b] by {
        if a < b {
            assert(key_before(keys, order[a] as int, order[b] as int));
        }
    }
}

} // verus!
