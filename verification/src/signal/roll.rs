//! A fixed-capacity window over exact decimals, the substrate of every finite-window indicator: a
//! value read from it depends on the last `cap` pushes and on nothing older.

use vstd::prelude::*;

use std::collections::VecDeque;

use crate::decimal::{
    add_results, average, dec_lt, divide_results, law_order_is_total, law_order_is_transitive,
    mean, minus, multiply_results, over, plus, read_result, reading, square_root, subtract_results,
    sum_all, times, total, unsign_result, unsigned, Dec, Reading,
};

verus! {

/// The last `n` items of a sequence, or all of it if it is shorter.
pub open spec fn last_n<A>(s: Seq<A>, n: int) -> Seq<A> {
    if s.len() <= n {
        s
    } else {
        s.skip(s.len() - n)
    }
}

/// Sliding a window of the last `n` items along by one item is the window of the longer sequence.
pub proof fn lemma_last_n_slides<A>(s: Seq<A>, x: A, n: int)
    requires
        n >= 1,
    ensures
        last_n(last_n(s, n).push(x), n) == last_n(s.push(x), n),
{
    assert(last_n(last_n(s, n).push(x), n) =~= last_n(s.push(x), n));
}

/// The largest of a sequence, the last one of equals.
pub open spec fn largest(s: Seq<Dec>) -> Dec
    decreases s.len(),
{
    if s.len() <= 1 {
        s[0]
    } else if dec_lt(s.last(), largest(s.drop_last())) {
        largest(s.drop_last())
    } else {
        s.last()
    }
}

/// The smallest of a sequence, the first one of equals.
pub open spec fn smallest(s: Seq<Dec>) -> Dec
    decreases s.len(),
{
    if s.len() <= 1 {
        s[0]
    } else if dec_lt(s.last(), smallest(s.drop_last())) {
        s.last()
    } else {
        smallest(s.drop_last())
    }
}

/// [`largest`] is one of the items, and none is above it.
pub proof fn law_largest_is_maximum(s: Seq<Dec>)
    requires
        s.len() > 0,
        forall|i: int| 0 <= i < s.len() ==> (#[trigger] s[i]).wf(),
    ensures
        s.contains(largest(s)),
        largest(s).wf(),
        forall|i: int| 0 <= i < s.len() ==> !dec_lt(largest(s), #[trigger] s[i]),
    decreases s.len(),
{
    if s.len() == 1 {
        assert(s.contains(s[0]));
    } else {
        let t = s.drop_last();
        assert forall|i: int| 0 <= i < t.len() implies (#[trigger] t[i]).wf() by {
            assert(t[i] == s[i]);
        }
        law_largest_is_maximum(t);
        let j = choose|j: int| 0 <= j < t.len() && t[j] == largest(t);
        assert(s[j] == largest(t));
        assert(s[s.len() - 1] == s.last());
        assert forall|i: int| 0 <= i < s.len() implies !dec_lt(largest(s), #[trigger] s[i]) by {
            if i < t.len() {
                assert(t[i] == s[i]);
                if dec_lt(largest(s), s[i]) {
                    if largest(s) == s.last() {
                        law_order_is_transitive(s.last(), s[i], largest(t));
                    }
                }
            } else if dec_lt(largest(s), s[i]) {
                law_order_is_total(largest(s), s[i]);
            }
        }
    }
}

/// [`smallest`] is one of the items, and none is below it.
pub proof fn law_smallest_is_minimum(s: Seq<Dec>)
    requires
        s.len() > 0,
        forall|i: int| 0 <= i < s.len() ==> (#[trigger] s[i]).wf(),
    ensures
        s.contains(smallest(s)),
        smallest(s).wf(),
        forall|i: int| 0 <= i < s.len() ==> !dec_lt(#[trigger] s[i], smallest(s)),
    decreases s.len(),
{
    if s.len() == 1 {
        assert(s.contains(s[0]));
    } else {
        let t = s.drop_last();
        assert forall|i: int| 0 <= i < t.len() implies (#[trigger] t[i]).wf() by {
            assert(t[i] == s[i]);
        }
        law_smallest_is_minimum(t);
        let j = choose|j: int| 0 <= j < t.len() && t[j] == smallest(t);
        assert(s[j] == smallest(t));
        assert(s[s.len() - 1] == s.last());
        assert forall|i: int| 0 <= i < s.len() implies !dec_lt(#[trigger] s[i], smallest(s)) by {
            if i < t.len() {
                assert(t[i] == s[i]);
                if dec_lt(s[i], smallest(s)) {
                    if smallest(s) == s.last() {
                        law_order_is_total(s.last(), smallest(t));
                        law_order_is_transitive(s[i], s.last(), smallest(t));
                    }
                }
            } else if dec_lt(s[i], smallest(s)) {
                law_order_is_total(s[i], smallest(s));
            }
        }
    }
}

/// The sum of the squared distances from `centre`, added up from zero in order.
pub open spec fn squares_about(s: Seq<Dec>, centre: Option<Dec>) -> Option<Dec>
    decreases s.len(),
{
    if s.len() == 0 {
        Some(Dec::whole(0))
    } else {
        let d = minus(Some(s.last()), centre);
        plus(squares_about(s.drop_last(), centre), times(d, d))
    }
}

/// The sum of the distances from `centre`, added up from zero in order.
pub open spec fn distances_about(s: Seq<Dec>, centre: Option<Dec>) -> Option<Dec>
    decreases s.len(),
{
    if s.len() == 0 {
        Some(Dec::whole(0))
    } else {
        plus(
            distances_about(s.drop_last(), centre),
            unsigned(minus(Some(s.last()), centre)),
        )
    }
}

/// The square root of a result.
pub open spec fn root_of(v: Option<Dec>) -> Reading {
    match v {
        Some(x) => square_root(x),
        None => Reading::Fault,
    }
}

/// The mean of the squared distances from the mean.
pub open spec fn variance(s: Seq<Dec>) -> Option<Dec> {
    over(squares_about(s, mean(s)), Some(Dec::whole(s.len() as int)))
}

/// The mean of a window.
pub open spec fn window_mean(s: Seq<Dec>) -> Reading {
    if s.len() == 0 {
        Reading::Undefined
    } else {
        reading(mean(s))
    }
}

/// The population standard deviation of a window.
pub open spec fn window_std(s: Seq<Dec>) -> Reading {
    if s.len() == 0 {
        Reading::Undefined
    } else {
        root_of(variance(s))
    }
}

/// The mean distance from the mean of a window.
pub open spec fn window_mean_abs_dev(s: Seq<Dec>) -> Reading {
    if s.len() == 0 {
        Reading::Undefined
    } else {
        reading(over(distances_about(s, mean(s)), Some(Dec::whole(s.len() as int))))
    }
}

/// Computes [`variance`].
pub fn variance_of(values: &Vec<Dec>) -> (r: Option<Dec>)
    ensures
        r == variance(values@),
        values.len() > 0 && r is Some ==> r->0.m() >= 0,
{
    let centre: Option<Dec> = average(values);
    let mut acc: Option<Dec> = Some(Dec::from_int(0));
    let mut i: usize = 0;
    proof {
        crate::decimal::lemma_of(0, 0);
    }
    while i < values.len()
        invariant
            i <= values.len(),
            centre == mean(values@),
            acc == squares_about(values@.take(i as int), centre),
            acc is Some ==> acc->0.m() >= 0,
        decreases values.len() - i,
    {
        assert(values@.take(i + 1).drop_last() =~= values@.take(i as int));
        let d: Option<Dec> = subtract_results(Some(values[i]), centre);
        let sq: Option<Dec> = multiply_results(d, d);
        acc = add_results(acc, sq);
        i = i + 1;
    }
    assert(values@.take(i as int) =~= values@);
    proof {
        crate::decimal::lemma_of(values.len() as int, 0);
    }
    divide_results(acc, Some(Dec::from_count(values.len())))
}

/// A bounded window of the most recent values. Pushing onto a full window drops the oldest.
#[derive(Debug)]
pub struct Roll {
    cap: usize,
    buf: VecDeque<Dec>,
}

impl View for Roll {
    type V = Seq<Dec>;

    closed spec fn view(&self) -> Seq<Dec> {
        self.buf@
    }
}

impl Roll {
    /// How many values the window can hold.
    pub closed spec fn capacity(self) -> int {
        self.cap as int
    }

    /// Whether the window holds as many values as it can.
    pub open spec fn full(self) -> bool {
        self@.len() == self.capacity()
    }

    /// What holds of every window that exists at run time.
    #[verifier::type_invariant]
    pub closed spec fn valid(self) -> bool {
        1 <= self.cap && self.buf@.len() <= self.cap
    }

    /// An empty window for `cap` values, or for one if `cap` is zero.
    pub fn new(cap: usize) -> (r: Roll)
        ensures
            r@ == Seq::<Dec>::empty(),
            r.capacity() == (if cap == 0 {
                1int
            } else {
                cap as int
            }),
    {
        Roll {
            cap: if cap == 0 {
                1
            } else {
                cap
            },
            buf: VecDeque::new(),
        }
    }

    /// Pushes a value, dropping the oldest if the window is full.
    pub fn push(&mut self, v: Dec)
        ensures
            final(self).capacity() == old(self).capacity(),
            final(self)@ == last_n(old(self)@.push(v), old(self).capacity()),
    {
        proof {
            use_type_invariant(&*self);
        }
        let ghost before = self.buf@;
        let mut buf: VecDeque<Dec> = VecDeque::new();
        std::mem::swap(&mut buf, &mut self.buf);
        if buf.len() == self.cap {
            let _ = buf.pop_front();
        }
        buf.push_back(v);
        self.buf = buf;
        assert(self.buf@ =~= last_n(before.push(v), self.cap as int));
    }

    /// Whether the window holds as many values as it can.
    pub fn is_full(&self) -> (r: bool)
        ensures
            r == self.full(),
    {
        self.buf.len() == self.cap
    }

    /// How many values the window can hold.
    pub fn cap(&self) -> (r: usize)
        ensures
            r == self.capacity(),
            r >= 1,
            self@.len() <= r,
    {
        proof {
            use_type_invariant(self);
        }
        self.cap
    }

    /// How many values the window holds.
    pub fn len(&self) -> (r: usize)
        ensures
            r == self@.len(),
    {
        self.buf.len()
    }

    /// Empties the window.
    pub fn clear(&mut self)
        ensures
            final(self).capacity() == old(self).capacity(),
            final(self)@ == Seq::<Dec>::empty(),
    {
        proof {
            use_type_invariant(&*self);
        }
        self.buf = VecDeque::new();
    }

    /// The most recently pushed value, if there is one.
    pub fn last(&self) -> (r: Option<Dec>)
        ensures
            r == (if self@.len() == 0 {
                None::<Dec>
            } else {
                Some(self@.last())
            }),
    {
        let n: usize = self.buf.len();
        if n == 0 {
            None
        } else {
            Some(self.buf[n - 1])
        }
    }

    /// The oldest value, if there is one.
    pub fn first(&self) -> (r: Option<Dec>)
        ensures
            r == (if self@.len() == 0 {
                None::<Dec>
            } else {
                Some(self@.first())
            }),
    {
        if self.buf.len() == 0 {
            None
        } else {
            Some(self.buf[0])
        }
    }

    /// The values, oldest first.
    pub fn values(&self) -> (r: Vec<Dec>)
        ensures
            r@ == self@,
    {
        let mut out: Vec<Dec> = Vec::new();
        let mut i: usize = 0;
        while i < self.buf.len()
            invariant
                i <= self.buf@.len(),
                out@ =~= self.buf@.take(i as int),
            decreases self.buf@.len() - i,
        {
            out.push(self.buf[i]);
            i = i + 1;
        }
        assert(out@ =~= self.buf@);
        out
    }

    /// The sum of the values, or `None` if it is out of range.
    pub fn sum(&self) -> (r: Option<Dec>)
        ensures
            r == total(self@),
    {
        sum_all(&self.values())
    }

    /// The mean of the values; undefined if there are none.
    pub fn mean(&self) -> (r: Reading)
        ensures
            r == window_mean(self@),
    {
        if self.buf.len() == 0 {
            Reading::Undefined
        } else {
            read_result(average(&self.values()))
        }
    }

    /// The largest value, the newest one of equals.
    pub fn max(&self) -> (r: Option<Dec>)
        ensures
            r == (if self@.len() == 0 {
                None::<Dec>
            } else {
                Some(largest(self@))
            }),
    {
        let n: usize = self.buf.len();
        if n == 0 {
            return None;
        }
        let mut m: Dec = self.buf[0];
        let mut i: usize = 1;
        assert(self.buf@.take(1)[0] == self.buf@[0]);
        while i < n
            invariant
                1 <= i <= n == self.buf@.len(),
                m == largest(self.buf@.take(i as int)),
            decreases n - i,
        {
            assert(self.buf@.take(i + 1).drop_last() =~= self.buf@.take(i as int));
            let v: Dec = self.buf[i];
            if !v.less_than(m) {
                m = v;
            }
            i = i + 1;
        }
        assert(self.buf@.take(i as int) =~= self.buf@);
        Some(m)
    }

    /// The smallest value, the oldest one of equals.
    pub fn min(&self) -> (r: Option<Dec>)
        ensures
            r == (if self@.len() == 0 {
                None::<Dec>
            } else {
                Some(smallest(self@))
            }),
    {
        let n: usize = self.buf.len();
        if n == 0 {
            return None;
        }
        let mut m: Dec = self.buf[0];
        let mut i: usize = 1;
        assert(self.buf@.take(1)[0] == self.buf@[0]);
        while i < n
            invariant
                1 <= i <= n == self.buf@.len(),
                m == smallest(self.buf@.take(i as int)),
            decreases n - i,
        {
            assert(self.buf@.take(i + 1).drop_last() =~= self.buf@.take(i as int));
            let v: Dec = self.buf[i];
            if v.less_than(m) {
                m = v;
            }
            i = i + 1;
        }
        assert(self.buf@.take(i as int) =~= self.buf@);
        Some(m)
    }

    /// The population standard deviation; undefined if there are no values, and only then.
    pub fn std_pop(&self) -> (r: Reading)
        ensures
            r == window_std(self@),
            r is Undefined <==> self@.len() == 0,
    {
        if self.buf.len() == 0 {
            return Reading::Undefined;
        }
        match variance_of(&self.values()) {
            Some(v) => v.sqrt(),
            None => Reading::Fault,
        }
    }

    /// The mean distance from the mean; undefined if there are no values.
    pub fn mean_abs_dev(&self) -> (r: Reading)
        ensures
            r == window_mean_abs_dev(self@),
    {
        if self.buf.len() == 0 {
            return Reading::Undefined;
        }
        let values: Vec<Dec> = self.values();
        let centre: Option<Dec> = average(&values);
        let mut acc: Option<Dec> = Some(Dec::from_int(0));
        let mut i: usize = 0;
        while i < values.len()
            invariant
                i <= values.len(),
                acc == distances_about(values@.take(i as int), centre),
            decreases values.len() - i,
        {
            assert(values@.take(i + 1).drop_last() =~= values@.take(i as int));
            let d: Option<Dec> = unsign_result(subtract_results(Some(values[i]), centre));
            acc = add_results(acc, d);
            i = i + 1;
        }
        assert(values@.take(i as int) =~= values@);
        read_result(divide_results(acc, Some(Dec::from_count(values.len()))))
    }
}

/// A window keeps the newest items, in their order, and no more than it can hold.
pub proof fn law_window_keeps_the_newest<A>(s: Seq<A>, n: int, i: int)
    requires
        n >= 0,
    ensures
        last_n(s, n).len() == (if s.len() <= n {
            s.len() as int
        } else {
            n
        }),
        0 <= i < last_n(s, n).len() ==> last_n(s, n)[i] == s[s.len() - last_n(s, n).len() + i],
{
}

} // verus!
