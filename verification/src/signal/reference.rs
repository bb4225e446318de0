//! What a formula means, read off the whole history, and the laws that tie the interpreter to it.

use vstd::prelude::*;

use crate::decimal::{reading, Dec, Reading};
use crate::signal::bars::Sample;
use crate::signal::expr::{
    binary_reading, compile_node, emptied, eval, field_value, fresh, lookback, run, step,
    unary_reading, window_len, window_reading, Expr, Node, NodeModel,
};
use crate::signal::roll::{last_n, lemma_last_n_slides};

verus! {

/// What `e` reads at the last bar of a history.
pub open spec fn reading_at(e: Expr, h: Seq<Sample>) -> Reading
    decreases e, h.len(), 0nat,
{
    match e {
        Expr::Input(f) => reading(field_value(f, h.last())),
        Expr::Const(c) => Reading::Value(c),
        Expr::Unary(op, c) => unary_reading(op, reading_at(*c, h)),
        Expr::Binary(op, a, b) => binary_reading(op, reading_at(*a, h), reading_at(*b, h)),
        Expr::Window(op, c, cap) => window_reading(
            op,
            last_n(values_of(*c, h), window_len(cap)),
            window_len(cap),
            reading_at(*c, h),
        ),
    }
}

/// The values that `e` took over a history, bar by bar, leaving out the bars where it had none.
pub open spec fn values_of(e: Expr, h: Seq<Sample>) -> Seq<Dec>
    decreases e, h.len(), 1nat,
{
    if h.len() == 0 {
        Seq::empty()
    } else {
        match reading_at(e, h) {
            Reading::Value(x) => values_of(e, h.drop_last()).push(x),
            _ => values_of(e, h.drop_last()),
        }
    }
}

/// The compiled tree that a history leaves behind.
pub open spec fn node_after(e: Expr, h: Seq<Sample>) -> NodeModel
    decreases e,
{
    match e {
        Expr::Input(f) => NodeModel::Input(f),
        Expr::Const(c) => NodeModel::Const(c),
        Expr::Unary(op, c) => NodeModel::Unary(op, Box::new(node_after(*c, h))),
        Expr::Binary(op, a, b) => NodeModel::Binary(
            op,
            Box::new(node_after(*a, h)),
            Box::new(node_after(*b, h)),
        ),
        Expr::Window(op, c, cap) => NodeModel::Window(
            op,
            Box::new(node_after(*c, h)),
            last_n(values_of(*c, h), window_len(cap)),
            window_len(cap),
        ),
    }
}

/// The tree of an empty history is the freshly compiled one.
proof fn lemma_node_after_nothing(e: Expr)
    ensures
        node_after(e, Seq::empty()) == fresh(e),
    decreases e,
{
    match e {
        Expr::Unary(op, c) => {
            lemma_node_after_nothing(*c);
        },
        Expr::Binary(op, a, b) => {
            lemma_node_after_nothing(*a);
            lemma_node_after_nothing(*b);
        },
        Expr::Window(op, c, cap) => {
            lemma_node_after_nothing(*c);
            assert(values_of(*c, Seq::empty()) =~= Seq::empty());
        },
        _ => {},
    }
}

/// One step takes the tree of a history to that of the longer history, and reads what the formula
/// means there.
proof fn lemma_step_follows(e: Expr, h: Seq<Sample>)
    requires
        h.len() > 0,
    ensures
        step(node_after(e, h.drop_last()), h.last()) == (node_after(e, h), reading_at(e, h)),
    decreases e,
{
    match e {
        Expr::Unary(op, c) => {
            lemma_step_follows(*c, h);
        },
        Expr::Binary(op, a, b) => {
            lemma_step_follows(*a, h);
            lemma_step_follows(*b, h);
        },
        Expr::Window(op, c, cap) => {
            lemma_step_follows(*c, h);
            let before = values_of(*c, h.drop_last());
            if let Reading::Value(x) = reading_at(*c, h) {
                lemma_last_n_slides(before, x, window_len(cap));
            }
        },
        _ => {},
    }
}

/// Running a freshly compiled formula over a history leaves the tree of that history.
proof fn lemma_run_follows(e: Expr, h: Seq<Sample>)
    ensures
        run(fresh(e), h) == node_after(e, h),
    decreases h.len(),
{
    if h.len() == 0 {
        lemma_node_after_nothing(e);
        assert(h =~= Seq::empty());
    } else {
        lemma_run_follows(e, h.drop_last());
        lemma_step_follows(e, h);
    }
}

/// The interpreter, run bar by bar from a fresh start, reads at every bar what the formula means
/// there.
pub proof fn law_interpreter_matches_reference(e: Expr, h: Seq<Sample>)
    requires
        h.len() > 0,
    ensures
        step(run(fresh(e), h.drop_last()), h.last()).1 == reading_at(e, h),
{
    lemma_run_follows(e, h.drop_last());
    lemma_step_follows(e, h);
}

/// Emptying a formula's windows brings it back to its fresh state, whatever it was run over.
pub proof fn law_reset_is_fresh(e: Expr, h: Seq<Sample>)
    ensures
        emptied(run(fresh(e), h)) == fresh(e),
{
    lemma_run_follows(e, h);
    lemma_emptied(e, h);
}

proof fn lemma_emptied(e: Expr, h: Seq<Sample>)
    ensures
        emptied(node_after(e, h)) == fresh(e),
    decreases e,
{
    match e {
        Expr::Unary(op, c) => {
            lemma_emptied(*c, h);
        },
        Expr::Binary(op, a, b) => {
            lemma_emptied(*a, h);
            lemma_emptied(*b, h);
        },
        Expr::Window(op, c, cap) => {
            lemma_emptied(*c, h);
        },
        _ => {},
    }
}

// ---- lookback ------------------------------------------------------------------------------------

/// Whether no window of `e` is over a formula that reads no bar at all.
pub open spec fn windows_read_bars(e: Expr) -> bool
    decreases e,
{
    match e {
        Expr::Input(_) => true,
        Expr::Const(_) => true,
        Expr::Unary(_, c) => windows_read_bars(*c),
        Expr::Binary(_, a, b) => windows_read_bars(*a) && windows_read_bars(*b),
        Expr::Window(_, c, _) => windows_read_bars(*c) && lookback(*c) >= 1,
    }
}

/// Whether neither `e` nor a part of it leaves the representable range at any bar of a history.
pub open spec fn in_range(e: Expr, h: Seq<Sample>) -> bool
    decreases e,
{
    &&& forall|k: int| 1 <= k <= h.len() ==> !(#[trigger] reading_at(e, h.take(k)) is Fault)
    &&& match e {
        Expr::Input(_) => true,
        Expr::Const(_) => true,
        Expr::Unary(_, c) => in_range(*c, h),
        Expr::Binary(_, a, b) => in_range(*a, h) && in_range(*b, h),
        Expr::Window(_, c, _) => in_range(*c, h),
    }
}

proof fn lemma_in_range_prefix(e: Expr, h: Seq<Sample>, n: int)
    requires
        0 <= n <= h.len(),
        in_range(e, h),
    ensures
        in_range(e, h.take(n)),
    decreases e,
{
    assert forall|k: int| 1 <= k <= h.take(n).len() implies !(#[trigger] reading_at(
        e,
        h.take(n).take(k),
    ) is Fault) by {
        assert(h.take(n).take(k) =~= h.take(k));
    }
    match e {
        Expr::Unary(op, c) => {
            lemma_in_range_prefix(*c, h, n);
        },
        Expr::Binary(op, a, b) => {
            lemma_in_range_prefix(*a, h, n);
            lemma_in_range_prefix(*b, h, n);
        },
        Expr::Window(op, c, cap) => {
            lemma_in_range_prefix(*c, h, n);
        },
        _ => {},
    }
}

proof fn lemma_in_range_here(e: Expr, h: Seq<Sample>)
    requires
        h.len() > 0,
        in_range(e, h),
    ensures
        !(reading_at(e, h) is Fault),
{
    assert(h.take(h.len() as int) =~= h);
    assert(!(reading_at(e, h.take(h.len() as int)) is Fault));
}

/// How many values a formula has had after `n` bars, if it has had one at every bar from its
/// lookback on.
spec fn warm_count(e: Expr, n: int) -> int {
    let first = if lookback(e) == 0 {
        1
    } else {
        lookback(e) as int
    };
    if n < first {
        0
    } else {
        n - first + 1
    }
}

proof fn lemma_values_count(e: Expr, h: Seq<Sample>)
    requires
        windows_read_bars(e),
        in_range(e, h),
    ensures
        values_of(e, h).len() == warm_count(e, h.len() as int),
    decreases e, h.len(), 1nat,
{
    if h.len() > 0 {
        let t = h.drop_last();
        assert(t =~= h.take(h.len() - 1));
        lemma_in_range_prefix(e, h, h.len() - 1);
        lemma_values_count(e, t);
        law_defined_from_lookback_on(e, h);
    }
}

/// A formula has a value at a bar exactly if at least as many bars have been seen as its lookback
/// says.
pub proof fn law_defined_from_lookback_on(e: Expr, h: Seq<Sample>)
    requires
        h.len() > 0,
        windows_read_bars(e),
        in_range(e, h),
    ensures
        reading_at(e, h) is Value <==> h.len() >= lookback(e),
        reading_at(e, h) is Undefined <==> h.len() < lookback(e),
    decreases e, h.len(), 0nat,
{
    lemma_in_range_here(e, h);
    match e {
        Expr::Unary(op, c) => {
            law_defined_from_lookback_on(*c, h);
        },
        Expr::Binary(op, a, b) => {
            law_defined_from_lookback_on(*a, h);
            law_defined_from_lookback_on(*b, h);
        },
        Expr::Window(op, c, cap) => {
            law_defined_from_lookback_on(*c, h);
            lemma_values_count(*c, h);
        },
        _ => {},
    }
}

proof fn lemma_few_values(e: Expr, h: Seq<Sample>)
    ensures
        values_of(e, h).len() <= warm_count(e, h.len() as int),
    decreases e, h.len(), 1nat,
{
    if h.len() > 0 {
        lemma_few_values(e, h.drop_last());
        law_no_value_before_lookback(e, h);
    }
}

/// A formula has no value before as many bars have been seen as its lookback says, whatever it is made of
/// and whether or not it leaves the representable range.
pub proof fn law_no_value_before_lookback(e: Expr, h: Seq<Sample>)
    requires
        h.len() > 0,
    ensures
        reading_at(e, h) is Value ==> h.len() >= lookback(e),
    decreases e, h.len(), 0nat,
{
    match e {
        Expr::Unary(op, c) => {
            law_no_value_before_lookback(*c, h);
        },
        Expr::Binary(op, a, b) => {
            law_no_value_before_lookback(*a, h);
            law_no_value_before_lookback(*b, h);
        },
        Expr::Window(op, c, cap) => {
            law_no_value_before_lookback(*c, h);
            lemma_few_values(*c, h);
        },
        _ => {},
    }
}

/// From its lookback on a formula has a value at every bar, so the last values are those at the last
/// bars.
proof fn lemma_last_values(e: Expr, h: Seq<Sample>, n: int, i: int)
    requires
        windows_read_bars(e),
        in_range(e, h),
        lookback(e) >= 1,
        1 <= n,
        h.len() >= lookback(e) + n - 1,
        0 <= i < n,
    ensures
        last_n(values_of(e, h), n).len() == n,
        reading_at(e, h.take(h.len() - n + 1 + i)) == Reading::Value(
            last_n(values_of(e, h), n)[i],
        ),
    decreases n - i,
{
    lemma_values_count(e, h);
    law_defined_from_lookback_on(e, h);
    let t = h.drop_last();
    if i == n - 1 {
        assert(h.take(h.len() as int) =~= h);
    } else {
        assert(t =~= h.take(h.len() - 1));
        lemma_in_range_prefix(e, h, h.len() - 1);
        lemma_values_count(e, t);
        lemma_last_values(e, t, n - 1, i);
        assert(t.take(t.len() - (n - 1) + 1 + i) =~= h.take(h.len() - n + 1 + i));
        let vt = values_of(e, t);
        let vh = values_of(e, h);
        assert(vh =~= vt.push(vh.last()));
        assert(last_n(vh, n)[i] == vh[vh.len() - n + i]);
        assert(last_n(vt, n - 1)[i] == vt[vt.len() - (n - 1) + i]);
    }
}

/// The latest value of a formula depends on the last `lookback` bars and on nothing older: two
/// histories that agree on those bars give the same reading.
pub proof fn law_nothing_older_matters(e: Expr, h1: Seq<Sample>, h2: Seq<Sample>)
    requires
        h1.len() > 0,
        h2.len() > 0,
        windows_read_bars(e),
        in_range(e, h1),
        in_range(e, h2),
        h1.len() >= lookback(e),
        h2.len() >= lookback(e),
        last_n(h1, lookback(e) as int) == last_n(h2, lookback(e) as int),
    ensures
        reading_at(e, h1) == reading_at(e, h2),
    decreases e,
{
    let n = lookback(e) as int;
    match e {
        Expr::Input(f) => {
            assert(h1.last() == last_n(h1, 1).last());
            assert(h2.last() == last_n(h2, 1).last());
        },
        Expr::Const(_) => {},
        Expr::Unary(op, c) => {
            law_nothing_older_matters(*c, h1, h2);
        },
        Expr::Binary(op, a, b) => {
            lemma_agree_on_fewer(h1, h2, n, lookback(*a) as int);
            lemma_agree_on_fewer(h1, h2, n, lookback(*b) as int);
            law_nothing_older_matters(*a, h1, h2);
            law_nothing_older_matters(*b, h1, h2);
        },
        Expr::Window(op, c, cap) => {
            let w = window_len(cap);
            let l = lookback(*c) as int;
            lemma_agree_on_fewer(h1, h2, n, l);
            law_nothing_older_matters(*c, h1, h2);
            let a = last_n(values_of(*c, h1), w);
            let b = last_n(values_of(*c, h2), w);
            lemma_last_values(*c, h1, w, 0);
            lemma_last_values(*c, h2, w, 0);
            assert forall|i: int| 0 <= i < w implies a[i] == b[i] by {
                let k1 = h1.len() - w + 1 + i;
                let k2 = h2.len() - w + 1 + i;
                lemma_last_values(*c, h1, w, i);
                lemma_last_values(*c, h2, w, i);
                lemma_in_range_prefix(*c, h1, k1);
                lemma_in_range_prefix(*c, h2, k2);
                lemma_agree_further_back(h1, h2, n, w - 1 - i, l);
                assert(k1 >= l && k2 >= l);
                law_nothing_older_matters(*c, h1.take(k1), h2.take(k2));
            }
            assert(a =~= b);
        },
    }
}

/// Histories that agree on the last `n` bars agree on fewer.
proof fn lemma_agree_on_fewer(h1: Seq<Sample>, h2: Seq<Sample>, n: int, m: int)
    requires
        0 <= m <= n <= h1.len(),
        n <= h2.len(),
        last_n(h1, n) == last_n(h2, n),
    ensures
        last_n(h1, m) == last_n(h2, m),
{
    assert forall|i: int| 0 <= i < m implies last_n(h1, m)[i] == last_n(h2, m)[i] by {
        assert(last_n(h1, m)[i] == last_n(h1, n)[n - m + i]);
        assert(last_n(h2, m)[i] == last_n(h2, n)[n - m + i]);
    }
    assert(last_n(h1, m) =~= last_n(h2, m));
}

/// Histories that agree on the last `n` bars still do, on fewer, once the same number of bars is cut
/// off both.
proof fn lemma_agree_further_back(h1: Seq<Sample>, h2: Seq<Sample>, n: int, cut: int, m: int)
    requires
        0 <= cut,
        0 <= m,
        cut + m <= n <= h1.len(),
        n <= h2.len(),
        last_n(h1, n) == last_n(h2, n),
    ensures
        last_n(h1.take(h1.len() - cut), m) == last_n(h2.take(h2.len() - cut), m),
{
    let a = last_n(h1.take(h1.len() - cut), m);
    let b = last_n(h2.take(h2.len() - cut), m);
    assert forall|i: int| 0 <= i < m implies a[i] == b[i] by {
        assert(a[i] == last_n(h1, n)[n - cut - m + i]);
        assert(b[i] == last_n(h2, n)[n - cut - m + i]);
    }
    assert(a =~= b);
}

/// Runs a formula over a series of bars: what it reads at each of them.
pub fn eval_stream(expr: &Expr, samples: &[Sample]) -> (r: Vec<Reading>)
    ensures
        r.len() == samples.len(),
        forall|i: int|
            0 <= i < samples.len() ==> #[trigger] r[i] == reading_at(*expr, samples@.take(i + 1)),
{
    let mut root: Node = compile_node(expr);
    let mut out: Vec<Reading> = Vec::new();
    let mut i: usize = 0;
    proof {
        lemma_node_after_nothing(*expr);
        assert(samples@.take(0) =~= Seq::empty());
    }
    while i < samples.len()
        invariant
            i <= samples.len(),
            out.len() == i,
            root.model() == node_after(*expr, samples@.take(i as int)),
            forall|j: int|
                0 <= j < i ==> #[trigger] out[j] == reading_at(*expr, samples@.take(j + 1)),
        decreases samples.len() - i,
    {
        proof {
            lemma_step_follows(*expr, samples@.take(i + 1));
            assert(samples@.take(i + 1).drop_last() =~= samples@.take(i as int));
        }
        let (next, v) = eval(root, &samples[i]);
        root = next;
        out.push(v);
        i = i + 1;
    }
    out
}

} // verus!
