//! Text: ordering, stable sorting, numbers in decimal, bytes in hexadecimal.

use vstd::prelude::*;

verus! {

// ---- order ---------------------------------------------------------------------------------------

/// Whether `a` comes before `b` in dictionary order.
pub open spec fn text_lt(a: Seq<char>, b: Seq<char>) -> bool
    decreases a.len(),
{
    if b.len() == 0 {
        false
    } else if a.len() == 0 {
        true
    } else if a[0] != b[0] {
        a[0] < b[0]
    } else {
        text_lt(a.drop_first(), b.drop_first())
    }
}

/// Dictionary order is total.
pub proof fn law_text_order_is_total(a: Seq<char>, b: Seq<char>)
    ensures
        !text_lt(a, a),
        text_lt(a, b) || text_lt(b, a) || a == b,
        !(text_lt(a, b) && text_lt(b, a)),
        text_lt(a, b) ==> a != b,
    decreases a.len(),
{
    if a.len() > 0 {
        law_text_order_is_total(a.drop_first(), a.drop_first());
        if b.len() > 0 {
            law_text_order_is_total(a.drop_first(), b.drop_first());
            if a[0] == b[0] && a.drop_first() == b.drop_first() {
                assert(a =~= seq![a[0]] + a.drop_first());
                assert(b =~= seq![b[0]] + b.drop_first());
            }
        }
    } else if b.len() == 0 {
        assert(a =~= b);
    }
}

/// Dictionary order is transitive.
pub proof fn law_text_order_is_transitive(a: Seq<char>, b: Seq<char>, c: Seq<char>)
    requires
        text_lt(a, b),
        text_lt(b, c),
    ensures
        text_lt(a, c),
    decreases a.len(),
{
    if a.len() > 0 && b.len() > 0 && c.len() > 0 && a[0] == b[0] && b[0] == c[0] {
        law_text_order_is_transitive(a.drop_first(), b.drop_first(), c.drop_first());
    }
}

/// Dictionary order goes by the first character in which two texts differ, the smaller one first; a text
/// comes before every longer one that begins with it.
pub proof fn law_first_difference_decides(a: Seq<char>, b: Seq<char>, k: int)
    requires
        0 <= k <= a.len(),
        k <= b.len(),
        forall|i: int| 0 <= i < k ==> #[trigger] a[i] == b[i],
    ensures
        k < a.len() && k < b.len() && a[k] != b[k] ==> (text_lt(a, b) <==> a[k] < b[k]),
        k == a.len() ==> (text_lt(a, b) <==> a.len() < b.len()),
        k == b.len() ==> !text_lt(a, b),
    decreases k,
{
    if k > 0 {
        let x = a.drop_first();
        let y = b.drop_first();
        assert(a[0] == b[0]);
        assert forall|i: int| 0 <= i < k - 1 implies #[trigger] x[i] == y[i] by {
            assert(a[i + 1] == b[i + 1]);
        }
        law_first_difference_decides(x, y, k - 1);
    }
}

/// Whether `a` comes before `b` in dictionary order.
pub fn text_less(a: &str, b: &str) -> (r: bool)
    ensures
        r == text_lt(a@, b@),
{
    let n: usize = a.unicode_len();
    let m: usize = b.unicode_len();
    let mut i: usize = 0;
    assert(a@.skip(0) =~= a@);
    assert(b@.skip(0) =~= b@);
    while i < n && i < m
        invariant
            i <= n == a@.len(),
            i <= m == b@.len(),
            text_lt(a@, b@) == text_lt(a@.skip(i as int), b@.skip(i as int)),
        decreases n - i,
    {
        let x: char = a.get_char(i);
        let y: char = b.get_char(i);
        if x != y {
            return x < y;
        }
        assert(a@.skip(i as int).drop_first() =~= a@.skip(i + 1));
        assert(b@.skip(i as int).drop_first() =~= b@.skip(i + 1));
        i = i + 1;
    }
    i < m
}

/// Whether the two texts are the same.
pub fn text_equal(a: &str, b: &str) -> (r: bool)
    ensures
        r == (a@ == b@),
{
    proof {
        law_text_order_is_total(a@, b@);
    }
    !text_less(a, b) && !text_less(b, a)
}

// ---- stable sorting ------------------------------------------------------------------------------

/// Whether item `i` comes before item `j`: by its key, and among equal keys by its position.
pub open spec fn comes_before(keys: Seq<Seq<char>>, i: int, j: int) -> bool {
    text_lt(keys[i], keys[j]) || (keys[i] == keys[j] && i < j)
}

/// Whether `order` lists every position of `keys` once, in ascending order of the keys, equal keys in
/// the order in which they stand.
pub open spec fn is_stable_order(keys: Seq<Seq<char>>, order: Seq<int>) -> bool {
    &&& order.len() == keys.len()
    &&& forall|a: int| 0 <= a < order.len() ==> 0 <= #[trigger] order[a] < keys.len()
    &&& forall|a: int, b: int|
        0 <= a < b < order.len() ==> comes_before(keys, #[trigger] order[a], #[trigger] order[b])
}

/// A stable order names every text once, in dictionary order, and equal texts in the order in which they
/// stand.
pub proof fn law_stable_order_ascends(keys: Seq<Seq<char>>, order: Seq<int>, a: int, b: int)
    requires
        is_stable_order(keys, order),
        0 <= a < b < order.len(),
    ensures
        order.len() == keys.len(),
        0 <= order[a] < keys.len(),
        0 <= order[b] < keys.len(),
        text_lt(keys[order[a]], keys[order[b]]) || (keys[order[a]] == keys[order[b]] && order[a]
            < order[b]),
{
    assert(comes_before(keys, order[a], order[b]));
}

/// The views of some texts.
pub open spec fn views(texts: Seq<String>) -> Seq<Seq<char>> {
    Seq::new(texts.len(), |i: int| texts[i]@)
}

/// The positions of some indices as integers.
pub open spec fn positions(indices: Seq<usize>) -> Seq<int> {
    Seq::new(indices.len(), |i: int| indices[i] as int)
}

/// [`comes_before`] is transitive.
proof fn lemma_before_transitive(keys: Seq<Seq<char>>, i: int, j: int, k: int)
    requires
        comes_before(keys, i, j),
        comes_before(keys, j, k),
    ensures
        comes_before(keys, i, k),
{
    if text_lt(keys[i], keys[j]) && text_lt(keys[j], keys[k]) {
        law_text_order_is_transitive(keys[i], keys[j], keys[k]);
    }
}

/// A listing of distinct positions of the first `n` keys with position `n` put in at its place is one
/// of the first `n + 1` keys.
proof fn lemma_insertion(keys: Seq<Seq<char>>, order: Seq<int>, n: int, p: int)
    requires
        0 <= n < keys.len(),
        0 <= p <= order.len(),
        is_stable_order(keys.take(n), order),
        p > 0 ==> !text_lt(keys[n], keys[order[p - 1]]),
        forall|q: int| p <= q < order.len() ==> text_lt(keys[n], keys[#[trigger] order[q]]),
    ensures
        is_stable_order(keys.take(n + 1), order.insert(p, n)),
{
    let next = order.insert(p, n);
    let shorter = keys.take(n);
    let longer = keys.take(n + 1);
    assert forall|a: int| 0 <= a < order.len() implies 0 <= #[trigger] order[a] < n && keys[order[a]]
        == shorter[order[a]] by {}
    assert forall|a: int, b: int| 0 <= a < b < next.len() implies comes_before(
        longer,
        #[trigger] next[a],
        #[trigger] next[b],
    ) by {
        if b == p {
            // Everything in front of the new position comes before it.
            law_text_order_is_total(keys[n], keys[order[p - 1]]);
            assert(comes_before(longer, order[p - 1], n));
            if a < p - 1 {
                assert(comes_before(shorter, order[a], order[p - 1]));
                lemma_before_transitive(longer, order[a], order[p - 1], n);
            }
        } else if a == p {
            assert(next[b] == order[b - 1]);
        } else {
            let a0 = if a < p {
                a
            } else {
                a - 1
            };
            let b0 = if b < p {
                b
            } else {
                b - 1
            };
            assert(comes_before(shorter, order[a0], order[b0]));
        }
    }
}

/// The positions of `texts` in ascending order of the texts, equal texts in the order in which they
/// stand.
pub fn stable_order(texts: &Vec<String>) -> (r: Vec<usize>)
    ensures
        is_stable_order(views(texts@), positions(r@)),
{
    let mut order: Vec<usize> = Vec::new();
    let mut k: usize = 0;
    let ghost keys = views(texts@);
    assert(is_stable_order(keys.take(0), positions(order@)));
    while k < texts.len()
        invariant
            k <= texts.len(),
            keys == views(texts@),
            order.len() == k,
            is_stable_order(keys.take(k as int), positions(order@)),
        decreases texts.len() - k,
    {
        let mut p: usize = order.len();
        let ghost listed = positions(order@);
        assert forall|a: int| 0 <= a < order@.len() implies #[trigger] order@[a] < k by {
            assert(listed[a] < k);
        }
        let mut searching: bool = true;
        while searching && p > 0
            invariant
                k < texts.len(),
                p <= order.len(),
                keys == views(texts@),
                listed == positions(order@),
                forall|a: int| 0 <= a < order@.len() ==> #[trigger] order@[a] < k,
                forall|q: int|
                    p <= q < listed.len() ==> text_lt(keys[k as int], keys[#[trigger] listed[q]]),
                !searching ==> p > 0 && !text_lt(keys[k as int], keys[listed[p - 1]]),
            decreases p + (if searching { 1int } else { 0int }),
        {
            let other: usize = order[p - 1];
            assert(listed[p - 1] == other);
            if text_less(texts[k].as_str(), texts[other].as_str()) {
                p = p - 1;
            } else {
                searching = false;
            }
        }
        proof {
            lemma_insertion(keys, listed, k as int, p as int);
        }
        order.insert(p, k);
        assert(positions(order@) =~= listed.insert(p as int, k as int));
        k = k + 1;
    }
    assert(keys.take(k as int) =~= keys);
    order
}

/// The keys in the order of a listing.
pub open spec fn listed(keys: Seq<Seq<char>>, order: Seq<int>) -> Seq<Seq<char>> {
    Seq::new(order.len(), |a: int| keys[order[a]])
}

/// Whether `out` holds the keys in ascending order.
pub open spec fn is_sorted_listing(keys: Seq<Seq<char>>, out: Seq<Seq<char>>) -> bool {
    exists|order: Seq<int>| is_stable_order(keys, order) && out == #[trigger] listed(keys, order)
}

/// A stable order names every position.
proof fn lemma_stable_order_is_onto(keys: Seq<Seq<char>>, order: Seq<int>, p: int)
    requires
        is_stable_order(keys, order),
        0 <= p < keys.len(),
    ensures
        order.contains(p),
{
    let n = keys.len() as int;
    assert(order.no_duplicates()) by {
        assert forall|a: int, b: int|
            0 <= a < b < order.len() implies order[a] != order[b] by {
            assert(comes_before(keys, order[a], order[b]));
            law_text_order_is_total(keys[order[a]], keys[order[b]]);
        }
    }
    order.unique_seq_to_set();
    assert forall|x: int| order.to_set().contains(x) implies 0 <= x < n by {
        let a = choose|a: int| 0 <= a < order.len() && order[a] == x;
        assert(0 <= order[a] < keys.len());
    }
    vstd::set_lib::lemma_int_range(0, n);
    vstd::set_lib::lemma_subset_equality(order.to_set(), vstd::set_lib::set_int_range(0, n));
    assert(order.to_set().contains(p));
}

/// There is only one stable order.
pub proof fn law_stable_order_is_unique(keys: Seq<Seq<char>>, x: Seq<int>, y: Seq<int>)
    requires
        is_stable_order(keys, x),
        is_stable_order(keys, y),
    ensures
        x == y,
{
    assert forall|a: int| 0 <= a < x.len() implies x[a] == y[a] by {
        lemma_stable_orders_agree(keys, x, y, a);
    }
    assert(x =~= y);
}

proof fn lemma_stable_orders_agree(keys: Seq<Seq<char>>, x: Seq<int>, y: Seq<int>, a: int)
    requires
        is_stable_order(keys, x),
        is_stable_order(keys, y),
        0 <= a < x.len(),
    ensures
        forall|b: int| 0 <= b <= a ==> x[b] == y[b],
    decreases a,
{
    if a > 0 {
        lemma_stable_orders_agree(keys, x, y, a - 1);
    }
    if x[a] != y[a] {
        lemma_stable_order_is_onto(keys, y, x[a]);
        lemma_stable_order_is_onto(keys, x, y[a]);
        let b = choose|b: int| 0 <= b < y.len() && y[b] == x[a];
        let c = choose|c: int| 0 <= c < x.len() && x[c] == y[a];
        // A position that both orders already named is named once only.
        if b < a {
            assert(comes_before(keys, x[b], x[a]));
            law_text_order_is_total(keys[x[b]], keys[x[a]]);
        }
        if c < a {
            assert(comes_before(keys, y[c], y[a]));
            law_text_order_is_total(keys[y[c]], keys[y[a]]);
        }
        assert(comes_before(keys, y[a], y[b]));
        assert(comes_before(keys, x[a], x[c]));
        law_text_order_is_total(keys[x[a]], keys[y[a]]);
    }
}

/// The texts in ascending order.
pub fn sorted_texts(texts: &Vec<String>) -> (r: Vec<String>)
    ensures
        is_sorted_listing(views(texts@), views(r@)),
        r.len() == texts.len(),
{
    let order: Vec<usize> = stable_order(texts);
    let ghost keys = views(texts@);
    let ghost at = positions(order@);
    let mut out: Vec<String> = Vec::new();
    let mut a: usize = 0;
    while a < order.len()
        invariant
            a <= order.len() == texts.len(),
            keys == views(texts@),
            at == positions(order@),
            is_stable_order(keys, at),
            views(out@) =~= listed(keys, at).take(a as int),
        decreases order.len() - a,
    {
        assert(0 <= at[a as int] < keys.len());
        let ghost before = views(out@);
        out.push(texts[order[a]].clone());
        assert(views(out@) =~= before.push(keys[at[a as int]]));
        a = a + 1;
    }
    assert(views(out@) =~= listed(keys, at));
    out
}

// ---- distinct texts in order ---------------------------------------------------------------------

/// Whether the texts stand in ascending order, each once.
pub open spec fn is_ascending(s: Seq<Seq<char>>) -> bool {
    forall|i: int, j: int| 0 <= i < j < s.len() ==> text_lt(#[trigger] s[i], #[trigger] s[j])
}

/// The texts of a set in ascending order.
pub open spec fn ascending(items: Set<Seq<char>>) -> Seq<Seq<char>> {
    choose|s: Seq<Seq<char>>| is_ascending(s) && #[trigger] s.to_set() == items
}

/// Ascending texts with one more put in its place.
spec fn put_in_place(s: Seq<Seq<char>>, t: Seq<char>) -> Seq<Seq<char>>
    decreases s.len(),
{
    if s.len() == 0 {
        seq![t]
    } else if s[0] == t {
        s
    } else if text_lt(t, s[0]) {
        seq![t] + s
    } else {
        seq![s[0]] + put_in_place(s.drop_first(), t)
    }
}

proof fn lemma_put_in_place(s: Seq<Seq<char>>, t: Seq<char>)
    requires
        is_ascending(s),
    ensures
        is_ascending(put_in_place(s, t)),
        forall|x: Seq<char>| #[trigger]
            put_in_place(s, t).contains(x) <==> s.contains(x) || x == t,
    decreases s.len(),
{
    let out = put_in_place(s, t);
    if s.len() == 0 {
        assert(out[0] == t);
    } else if s[0] == t {
        assert(s.contains(s[0]));
    } else if text_lt(t, s[0]) {
        assert forall|i: int, j: int| 0 <= i < j < out.len() implies text_lt(
            #[trigger] out[i],
            #[trigger] out[j],
        ) by {
            assert(out[j] == s[j - 1]);
            if i > 0 {
                assert(out[i] == s[i - 1]);
            } else if j > 1 {
                law_text_order_is_transitive(t, s[0], s[j - 1]);
            }
        }
        assert forall|x: Seq<char>| #[trigger] out.contains(x) <==> s.contains(x) || x == t by {
            lemma_contains_behind(t, s, x);
        }
    } else {
        let rest = s.drop_first();
        assert forall|i: int, j: int| 0 <= i < j < rest.len() implies text_lt(
            #[trigger] rest[i],
            #[trigger] rest[j],
        ) by {
            assert(rest[i] == s[i + 1] && rest[j] == s[j + 1]);
        }
        lemma_put_in_place(rest, t);
        law_text_order_is_total(s[0], t);
        let tail = put_in_place(rest, t);
        assert forall|i: int, j: int| 0 <= i < j < out.len() implies text_lt(
            #[trigger] out[i],
            #[trigger] out[j],
        ) by {
            assert(out[j] == tail[j - 1]);
            if i > 0 {
                assert(out[i] == tail[i - 1]);
            } else {
                assert(tail.contains(tail[j - 1]));
                if tail[j - 1] != t {
                    let k = choose|k: int| 0 <= k < rest.len() && rest[k] == tail[j - 1];
                    assert(text_lt(s[0], s[k + 1]));
                }
            }
        }
        assert forall|x: Seq<char>| #[trigger] out.contains(x) <==> s.contains(x) || x == t by {
            lemma_contains_behind(s[0], tail, x);
            lemma_contains_behind(s[0], rest, x);
            assert(s =~= seq![s[0]] + rest);
        }
    }
}

proof fn lemma_contains_behind(head: Seq<char>, tail: Seq<Seq<char>>, x: Seq<char>)
    ensures
        (seq![head] + tail).contains(x) <==> x == head || tail.contains(x),
{
    let all = seq![head] + tail;
    assert(all[0] == head);
    if tail.contains(x) {
        let i = choose|i: int| 0 <= i < tail.len() && tail[i] == x;
        assert(all[i + 1] == x);
    }
    if all.contains(x) {
        let i = choose|i: int| 0 <= i < all.len() && all[i] == x;
        if i > 0 {
            assert(tail[i - 1] == x);
        }
    }
}

proof fn lemma_ascending_exists(keys: Seq<Seq<char>>) -> (s: Seq<Seq<char>>)
    ensures
        is_ascending(s),
        s.to_set() == keys.to_set(),
    decreases keys.len(),
{
    if keys.len() == 0 {
        keys
    } else {
        let before = lemma_ascending_exists(keys.drop_last());
        let t = keys.last();
        lemma_put_in_place(before, t);
        let s = put_in_place(before, t);
        assert forall|x: Seq<char>| s.to_set().contains(x) <==> keys.to_set().contains(x) by {
            assert(s.contains(x) <==> before.to_set().contains(x) || x == t);
            if keys.contains(x) {
                let i = choose|i: int| 0 <= i < keys.len() && keys[i] == x;
                if i < keys.len() - 1 {
                    assert(keys.drop_last()[i] == x);
                }
            }
            if keys.drop_last().contains(x) {
                let i = choose|i: int| 0 <= i < keys.drop_last().len() && keys.drop_last()[i] == x;
                assert(keys[i] == x);
            }
            assert(keys[keys.len() - 1] == t);
        }
        assert(s.to_set() =~= keys.to_set());
        s
    }
}

/// The texts that are listed anywhere have an ascending listing, which holds just them.
pub proof fn law_ascending_lists_the_set(keys: Seq<Seq<char>>)
    ensures
        is_ascending(ascending(keys.to_set())),
        ascending(keys.to_set()).to_set() == keys.to_set(),
{
    let s = lemma_ascending_exists(keys);
    assert(is_ascending(s) && s.to_set() == keys.to_set());
}

/// A set of texts has only one ascending listing.
pub proof fn law_ascending_is_unique(a: Seq<Seq<char>>, b: Seq<Seq<char>>)
    requires
        is_ascending(a),
        is_ascending(b),
        a.to_set() == b.to_set(),
    ensures
        a == b,
    decreases a.len(),
{
    if a.len() == 0 {
        if b.len() > 0 {
            assert(b.to_set().contains(b[0]));
            assert(a.contains(b[0]));
        }
        assert(a =~= b);
    } else {
        assert(a.to_set().contains(a[0]));
        assert(b.contains(a[0]));
        let j = choose|j: int| 0 <= j < b.len() && b[j] == a[0];
        assert(b.to_set().contains(b[0]));
        assert(a.contains(b[0]));
        let i = choose|i: int| 0 <= i < a.len() && a[i] == b[0];
        // The first text of each listing is the least of the set.
        law_text_order_is_total(a[0], b[0]);
        if i > 0 {
            assert(text_lt(a[0], a[i]));
        }
        if j > 0 {
            assert(text_lt(b[0], b[j]));
        }
        assert(a[0] == b[0]);
        let x = a.drop_first();
        let y = b.drop_first();
        assert forall|t: Seq<char>| x.to_set().contains(t) implies y.to_set().contains(t) by {
            lemma_rest_of_ascending(a, b, t);
        }
        assert forall|t: Seq<char>| y.to_set().contains(t) implies x.to_set().contains(t) by {
            lemma_rest_of_ascending(b, a, t);
        }
        assert(x.to_set() =~= y.to_set());
        assert forall|p: int, q: int| 0 <= p < q < x.len() implies text_lt(
            #[trigger] x[p],
            #[trigger] x[q],
        ) by {
            assert(text_lt(a[p + 1], a[q + 1]));
        }
        assert forall|p: int, q: int| 0 <= p < q < y.len() implies text_lt(
            #[trigger] y[p],
            #[trigger] y[q],
        ) by {
            assert(text_lt(b[p + 1], b[q + 1]));
        }
        law_ascending_is_unique(x, y);
        assert(a =~= seq![a[0]] + x);
        assert(b =~= seq![b[0]] + y);
    }
}

/// What stands behind the first text of one listing stands behind the first of the other.
proof fn lemma_rest_of_ascending(a: Seq<Seq<char>>, b: Seq<Seq<char>>, t: Seq<char>)
    requires
        is_ascending(a),
        a.len() > 0,
        b.len() > 0,
        a[0] == b[0],
        a.to_set() == b.to_set(),
        a.drop_first().to_set().contains(t),
    ensures
        b.drop_first().to_set().contains(t),
{
    let x = a.drop_first();
    let p = choose|p: int| 0 <= p < x.len() && x[p] == t;
    assert(a[p + 1] == t);
    assert(text_lt(a[0], a[p + 1]));
    law_text_order_is_total(a[0], t);
    assert(a.to_set().contains(t));
    assert(b.contains(t));
    let q = choose|q: int| 0 <= q < b.len() && b[q] == t;
    assert(b.drop_first()[q - 1] == t);
}

/// The texts in ascending order, each once.
pub fn distinct_sorted(texts: &Vec<String>) -> (r: Vec<String>)
    ensures
        views(r@) == ascending(views(texts@).to_set()),
        is_ascending(views(r@)),
        views(r@).to_set() == views(texts@).to_set(),
{
    let order: Vec<usize> = stable_order(texts);
    let ghost keys = views(texts@);
    let ghost at = positions(order@);
    let mut out: Vec<String> = Vec::new();
    let mut a: usize = 0;
    while a < order.len()
        invariant
            a <= order.len() == texts.len(),
            keys == views(texts@),
            at == positions(order@),
            is_stable_order(keys, at),
            is_ascending(views(out@)),
            forall|i: int|
                0 <= i < a ==> views(out@).contains(keys[#[trigger] at[i]]),
            forall|t: Seq<char>| #[trigger]
                views(out@).contains(t) ==> keys.contains(t),
            a > 0 ==> out.len() > 0 && views(out@).last() == keys[at[a - 1]],
            a == 0 ==> out.len() == 0,
        decreases order.len() - a,
    {
        assert(0 <= at[a as int] < keys.len());
        let ghost before = views(out@);
        let ghost next = keys[at[a as int]];
        let n: usize = out.len();
        if n > 0 && text_equal(out[n - 1].as_str(), texts[order[a]].as_str()) {
            assert(before.last() == next);
            assert(before[before.len() - 1] == next);
        } else {
            out.push(texts[order[a]].clone());
            assert(views(out@) =~= before.push(next));
            proof {
                if a > 0 {
                    assert(comes_before(keys, at[a - 1], at[a as int]));
                    assert(text_lt(before.last(), next));
                }
                assert forall|i: int, j: int| 0 <= i < j < views(out@).len() implies text_lt(
                    #[trigger] views(out@)[i],
                    #[trigger] views(out@)[j],
                ) by {
                    if j == before.len() {
                        if i < before.len() - 1 {
                            assert(text_lt(before[i], before[before.len() - 1]));
                            law_text_order_is_transitive(before[i], before.last(), next);
                        }
                    } else {
                        assert(text_lt(before[i], before[j]));
                    }
                }
                assert forall|i: int| 0 <= i < a + 1 implies views(out@).contains(
                    keys[#[trigger] at[i]],
                ) by {
                    if i < a {
                        let p = choose|p: int| 0 <= p < before.len() && before[p] == keys[at[i]];
                        assert(views(out@)[p] == keys[at[i]]);
                    } else {
                        assert(views(out@)[before.len() as int] == next);
                    }
                }
                assert forall|t: Seq<char>| #[trigger] views(out@).contains(t) implies keys.contains(
                    t,
                ) by {
                    let p = choose|p: int| 0 <= p < views(out@).len() && views(out@)[p] == t;
                    if p < before.len() {
                        assert(before[p] == t);
                        assert(before.contains(t));
                    }
                }
            }
        }
        a = a + 1;
    }
    proof {
        let s = views(out@);
        assert forall|t: Seq<char>| keys.to_set().contains(t) implies s.to_set().contains(t) by {
            let p = choose|p: int| 0 <= p < keys.len() && keys[p] == t;
            lemma_stable_order_is_onto(keys, at, p);
            let i = choose|i: int| 0 <= i < at.len() && at[i] == p;
            assert(s.contains(keys[at[i]]));
        }
        assert forall|t: Seq<char>| s.to_set().contains(t) implies keys.to_set().contains(t) by {
            assert(s.contains(t));
        }
        assert(s.to_set() =~= keys.to_set());
        let chosen = ascending(keys.to_set());
        assert(is_ascending(s) && s.to_set() == keys.to_set());
        law_ascending_is_unique(s, chosen);
    }
    out
}

// ---- building text -------------------------------------------------------------------------------

/// `String::push`: appends a character. Trusted: that the text afterwards is the text before with the
/// character at its end.
pub assume_specification[ String::push ](s: &mut String, c: char)
    ensures
        final(s)@ == old(s)@.push(c),
;

/// The character of a digit below 16.
pub open spec fn digit(d: int) -> char {
    if d == 0 {
        '0'
    } else if d == 1 {
        '1'
    } else if d == 2 {
        '2'
    } else if d == 3 {
        '3'
    } else if d == 4 {
        '4'
    } else if d == 5 {
        '5'
    } else if d == 6 {
        '6'
    } else if d == 7 {
        '7'
    } else if d == 8 {
        '8'
    } else if d == 9 {
        '9'
    } else if d == 10 {
        'a'
    } else if d == 11 {
        'b'
    } else if d == 12 {
        'c'
    } else if d == 13 {
        'd'
    } else if d == 14 {
        'e'
    } else {
        'f'
    }
}

fn digit_char(d: u8) -> (r: char)
    ensures
        r == digit(d as int),
{
    match d {
        0 => '0',
        1 => '1',
        2 => '2',
        3 => '3',
        4 => '4',
        5 => '5',
        6 => '6',
        7 => '7',
        8 => '8',
        9 => '9',
        10 => 'a',
        11 => 'b',
        12 => 'c',
        13 => 'd',
        14 => 'e',
        _ => 'f',
    }
}

/// A number in decimal, without leading zeros.
pub open spec fn decimal_text(n: nat) -> Seq<char>
    decreases n,
{
    if n < 10 {
        seq![digit(n as int)]
    } else {
        decimal_text(n / 10).push(digit((n % 10) as int))
    }
}

/// A signed number in decimal.
pub open spec fn signed_text(n: int) -> Seq<char> {
    if n < 0 {
        seq!['-'] + decimal_text((-n) as nat)
    } else {
        decimal_text(n as nat)
    }
}

/// Different numbers have different decimal texts.
pub proof fn law_decimal_is_injective(a: nat, b: nat)
    requires
        decimal_text(a) == decimal_text(b),
    ensures
        a == b,
    decreases a,
{
    let x = decimal_text(a);
    let y = decimal_text(b);
    lemma_decimal_not_empty(a / 10);
    lemma_decimal_not_empty(b / 10);
    assert(x.last() == digit((a % 10) as int));
    assert(y.last() == digit((b % 10) as int));
    assert(a % 10 == b % 10);
    if a >= 10 {
        assert(x.drop_last() =~= decimal_text(a / 10));
        assert(y.drop_last() =~= decimal_text(b / 10));
        law_decimal_is_injective(a / 10, b / 10);
    }
}

proof fn lemma_decimal_not_empty(n: nat)
    ensures
        decimal_text(n).len() > 0,
{
}

/// A decimal text is made of digits alone.
proof fn lemma_decimal_is_digits(n: nat)
    ensures
        forall|i: int| 0 <= i < decimal_text(n).len() ==> '0' <= #[trigger] decimal_text(n)[i] <= '9',
    decreases n,
{
    let t = decimal_text(n);
    if n >= 10 {
        lemma_decimal_is_digits(n / 10);
        assert forall|i: int| 0 <= i < t.len() implies '0' <= #[trigger] t[i] <= '9' by {
            if i < t.len() - 1 {
                assert(t[i] == decimal_text(n / 10)[i]);
            } else {
                assert(t[i] == digit((n % 10) as int));
            }
        }
    } else {
        assert(t[0] == digit(n as int));
    }
}

/// Different signed numbers have different texts.
pub proof fn law_signed_is_injective(a: int, b: int)
    requires
        signed_text(a) == signed_text(b),
    ensures
        a == b,
{
    let x = signed_text(a);
    let y = signed_text(b);
    lemma_decimal_not_empty(a as nat);
    lemma_decimal_not_empty(b as nat);
    lemma_decimal_is_digits(a as nat);
    lemma_decimal_is_digits(b as nat);
    if a < 0 {
        assert(x[0] == '-');
        assert(b < 0);
        assert(x.skip(1) =~= decimal_text((-a) as nat));
        assert(y.skip(1) =~= decimal_text((-b) as nat));
        law_decimal_is_injective((-a) as nat, (-b) as nat);
    } else {
        assert('0' <= x[0]);
        assert(b >= 0) by {
            if b < 0 {
                assert(y[0] == '-');
            }
        }
        law_decimal_is_injective(a as nat, b as nat);
    }
}

/// Two signed numbers with a dash between them can be read back: the first one ends at the first dash that
/// is not its sign.
pub proof fn law_signed_texts_with_a_dash(a: int, b: int, c: int, d: int)
    requires
        signed_text(a) + seq!['-'] + signed_text(b) == signed_text(c) + seq!['-'] + signed_text(d),
    ensures
        a == c,
        b == d,
{
    let x = signed_text(a);
    let y = signed_text(c);
    let left = x + seq!['-'] + signed_text(b);
    let right = y + seq!['-'] + signed_text(d);
    lemma_digits_behind_the_sign(a);
    lemma_digits_behind_the_sign(c);
    let n = x.len() as int;
    let m = y.len() as int;
    assert(left[n] == '-');
    assert(right[m] == '-');
    if n < m {
        assert(right[n] == y[n]);
    }
    if m < n {
        assert(left[m] == x[m]);
    }
    assert(left.take(n) =~= x);
    assert(right.take(m) =~= y);
    assert(left.skip(n + 1) =~= signed_text(b));
    assert(right.skip(m + 1) =~= signed_text(d));
    law_signed_is_injective(a, c);
    law_signed_is_injective(b, d);
}

/// Behind a sign, if there is one, a signed text is made of digits; it has at least one.
proof fn lemma_digits_behind_the_sign(n: int)
    ensures
        signed_text(n).len() > 0,
        forall|i: int| 1 <= i < signed_text(n).len() ==> '0' <= #[trigger] signed_text(n)[i] <= '9',
{
    let t = signed_text(n);
    if n < 0 {
        lemma_decimal_is_digits((-n) as nat);
        assert forall|i: int| 1 <= i < t.len() implies '0' <= #[trigger] t[i] <= '9' by {
            assert(t[i] == decimal_text((-n) as nat)[i - 1]);
        }
    } else {
        lemma_decimal_not_empty(n as nat);
        lemma_decimal_is_digits(n as nat);
    }
}

/// Appends a number in decimal.
pub fn push_number(out: &mut String, n: u64)
    ensures
        final(out)@ == old(out)@ + decimal_text(n as nat),
    decreases n,
{
    let ghost before = out@;
    if n < 10 {
        out.push(digit_char(n as u8));
    } else {
        push_number(out, n / 10);
        out.push(digit_char((n % 10) as u8));
    }
    assert(out@ =~= before + decimal_text(n as nat));
}

/// Appends a signed number in decimal.
pub fn push_signed(out: &mut String, n: i64)
    ensures
        final(out)@ == old(out)@ + signed_text(n as int),
{
    let ghost before = out@;
    if n < 0 {
        out.push('-');
        let magnitude: u64 = (-(n as i128)) as u64;
        push_number(out, magnitude);
    } else {
        push_number(out, n as u64);
    }
    assert(out@ =~= before + signed_text(n as int));
}

/// A decimal text spells its number digit by digit, the last one the units, and a negative number is its
/// magnitude behind a dash.
pub proof fn law_decimal_spells_the_number(n: nat)
    ensures
        decimal_text(n).last() as int == '0' as int + n % 10,
        n >= 10 ==> decimal_text(n).drop_last() == decimal_text(n / 10),
        n < 10 ==> decimal_text(n).len() == 1,
        n > 0 ==> signed_text(-(n as int)) == seq!['-'] + decimal_text(n),
        signed_text(n as int) == decimal_text(n),
{
    if n >= 10 {
        assert(decimal_text(n).drop_last() =~= decimal_text(n / 10));
    }
}

/// Bytes in lower-case hexadecimal, two characters each.
pub open spec fn hex_text(bytes: Seq<u8>) -> Seq<char>
    decreases bytes.len(),
{
    if bytes.len() == 0 {
        Seq::empty()
    } else {
        hex_text(bytes.drop_last()).push(digit(bytes.last() as int / 16)).push(
            digit(bytes.last() as int % 16),
        )
    }
}

/// Hexadecimal text has two characters per byte.
pub proof fn lemma_hex_len(bytes: Seq<u8>)
    ensures
        hex_text(bytes).len() == 2 * bytes.len(),
    decreases bytes.len(),
{
    if bytes.len() > 0 {
        lemma_hex_len(bytes.drop_last());
    }
}

/// Whether a character is a digit of lower-case hexadecimal.
pub open spec fn is_hex_digit(c: char) -> bool {
    '0' <= c <= '9' || 'a' <= c <= 'f'
}

/// Hexadecimal text is made of lower-case hexadecimal digits.
pub proof fn lemma_hex_digits(bytes: Seq<u8>)
    ensures
        forall|i: int| 0 <= i < hex_text(bytes).len() ==> is_hex_digit(#[trigger] hex_text(bytes)[i]),
    decreases bytes.len(),
{
    if bytes.len() > 0 {
        lemma_hex_digits(bytes.drop_last());
        let before = hex_text(bytes.drop_last());
        let all = hex_text(bytes);
        assert forall|i: int| 0 <= i < all.len() implies is_hex_digit(#[trigger] all[i]) by {
            if i < before.len() {
                assert(all[i] == before[i]);
            }
        }
    }
}

/// Different bytes have different hexadecimal texts.
pub proof fn law_hex_is_injective(a: Seq<u8>, b: Seq<u8>)
    requires
        hex_text(a) == hex_text(b),
    ensures
        a == b,
    decreases a.len(),
{
    lemma_hex_len(a);
    lemma_hex_len(b);
    if a.len() > 0 {
        let x = hex_text(a);
        let y = hex_text(b);
        let n = x.len() as int;
        assert(x[n - 1] == digit(a.last() as int % 16) && x[n - 2] == digit(a.last() as int / 16));
        assert(y[n - 1] == digit(b.last() as int % 16) && y[n - 2] == digit(b.last() as int / 16));
        assert(a.last() as int % 16 == b.last() as int % 16);
        assert(a.last() as int / 16 == b.last() as int / 16);
        assert(x.take(n - 2) =~= hex_text(a.drop_last()));
        assert(y.take(n - 2) =~= hex_text(b.drop_last()));
        law_hex_is_injective(a.drop_last(), b.drop_last());
        assert(a =~= a.drop_last().push(a.last()));
        assert(b =~= b.drop_last().push(b.last()));
    } else {
        assert(a =~= b);
    }
}

/// Bytes in lower-case hexadecimal.
pub fn hex(bytes: &Vec<u8>) -> (r: String)
    ensures
        r@ == hex_text(bytes@),
{
    let mut out: String = String::new();
    let mut i: usize = 0;
    while i < bytes.len()
        invariant
            i <= bytes.len(),
            out@ == hex_text(bytes@.take(i as int)),
        decreases bytes.len() - i,
    {
        assert(bytes@.take(i + 1).drop_last() =~= bytes@.take(i as int));
        out.push(digit_char(bytes[i] / 16));
        out.push(digit_char(bytes[i] % 16));
        i = i + 1;
    }
    assert(bytes@.take(i as int) =~= bytes@);
    out
}

/// A character with its ASCII capitals lowered.
pub open spec fn lowered(c: char) -> char {
    if 'A' <= c <= 'Z' {
        ((c as u8 + 32) as u8) as char
    } else {
        c
    }
}

/// Text with its ASCII capitals lowered.
pub open spec fn lower_text(s: Seq<char>) -> Seq<char> {
    Seq::new(s.len(), |i: int| lowered(s[i]))
}

/// Text with its ASCII capitals lowered.
pub fn to_lower(s: &str) -> (r: String)
    ensures
        r@ == lower_text(s@),
{
    let n: usize = s.unicode_len();
    let mut out: String = String::new();
    let mut i: usize = 0;
    while i < n
        invariant
            i <= n == s@.len(),
            out@ =~= lower_text(s@).take(i as int),
        decreases n - i,
    {
        let c: char = s.get_char(i);
        if 'A' <= c && c <= 'Z' {
            out.push(((c as u8) + 32) as char);
        } else {
            out.push(c);
        }
        i = i + 1;
    }
    assert(out@ =~= lower_text(s@));
    out
}

/// The text of two texts, one after the other.
pub fn joined(a: &str, b: &str) -> (r: String)
    ensures
        r@ == a@ + b@,
{
    let mut out: String = a.to_owned();
    out.append(b);
    out
}

} // verus!
