//! Requests to a venue and the keys their responses are cached under.

use vstd::prelude::*;
use vstd::relations::{antisymmetric, reflexive, sorted_by, strongly_connected, total_ordering, transitive};

use crate::domain::{InstrumentId, TimeInterval};
use crate::text::{
    law_signed_texts_with_a_dash, law_text_order_is_total, law_text_order_is_transitive, push_signed, signed_text, text_equal,
    text_less, text_lt,
};
use crate::venue::cache::CacheKey;

verus! {

/// A named query parameter and its value.
pub type Param = (Seq<char>, Seq<char>);

/// Whether `a` does not come after `b`: by the name, then by the value.
pub open spec fn param_le(a: Param, b: Param) -> bool {
    ||| text_lt(a.0, b.0)
    ||| a.0 == b.0 && (a.1 == b.1 || text_lt(a.1, b.1))
}

/// The order of parameters.
pub open spec fn param_order() -> spec_fn(Param, Param) -> bool {
    |a: Param, b: Param| param_le(a, b)
}

/// The order of parameters is total.
pub proof fn law_param_order_is_total()
    ensures
        total_ordering(param_order()),
{
    let leq = param_order();
    assert(reflexive(leq));
    assert forall|a: Param, b: Param| #[trigger] leq(a, b) && #[trigger] leq(b, a) implies a
        == b by {
        law_text_order_is_total(a.0, b.0);
        law_text_order_is_total(a.1, b.1);
    }
    assert(antisymmetric(leq));
    assert forall|a: Param, b: Param, c: Param| #[trigger] leq(a, b) && #[trigger] leq(b, c) implies leq(
        a,
        c,
    ) by {
        if text_lt(a.0, b.0) && text_lt(b.0, c.0) {
            law_text_order_is_transitive(a.0, b.0, c.0);
        }
        if text_lt(a.1, b.1) && text_lt(b.1, c.1) {
            law_text_order_is_transitive(a.1, b.1, c.1);
        }
    }
    assert(transitive(leq));
    assert forall|a: Param, b: Param| #[trigger] leq(a, b) || #[trigger] leq(b, a) by {
        law_text_order_is_total(a.0, b.0);
        law_text_order_is_total(a.1, b.1);
    }
    assert(strongly_connected(leq));
}

/// A parameter as text.
pub open spec fn param_text(p: Param) -> Seq<char> {
    p.0 + "="@ + p.1
}

/// Parameters as text, one after the other with an ampersand between.
pub open spec fn query_text(params: Seq<Param>) -> Seq<char>
    decreases params.len(),
{
    if params.len() == 0 {
        Seq::empty()
    } else if params.len() == 1 {
        param_text(params[0])
    } else {
        query_text(params.drop_last()) + "&"@ + param_text(params.last())
    }
}

/// The parameters of a request.
pub open spec fn param_views(params: Seq<(String, String)>) -> Seq<Param> {
    Seq::new(params.len(), |i: int| (params[i].0@, params[i].1@))
}

/// The key of a request: path, instrument, parameters in ascending order, and the bounds of the span.
pub open spec fn key_text(
    endpoint: Seq<char>,
    instrument: Seq<char>,
    params: Seq<Param>,
    start: int,
    end: int,
) -> Seq<char> {
    endpoint + "|"@ + instrument + "|"@ + query_text(params.sort_by(param_order())) + "|"@
        + signed_text(start) + "-"@ + signed_text(end)
}

/// The address of a request: the base, the path, and the parameters in the order in which they stand
/// after a question mark where there are any.
pub open spec fn url_text(base: Seq<char>, endpoint: Seq<char>, params: Seq<Param>) -> Seq<char> {
    if params.len() == 0 {
        base + endpoint
    } else {
        base + endpoint + "?"@ + query_text(params)
    }
}

/// A request to a venue about one span of data.
#[derive(Debug, Clone, PartialEq, Eq)]
pub struct VenueRequest {
    /// The path, such as `/fapi/v1/klines`.
    pub endpoint: String,
    /// The instrument the request is about.
    pub instrument: InstrumentId,
    /// The query parameters.
    pub params: Vec<(String, String)>,
    /// The span of data the request covers.
    pub window: TimeInterval,
    /// The weight the request costs.
    pub weight: u32,
}

/// Whether the first parameter comes before the second.
fn param_less(a: &(String, String), b: &(String, String)) -> (r: bool)
    ensures
        r == !param_le((b.0@, b.1@), (a.0@, a.1@)),
{
    proof {
        law_text_order_is_total(a.0@, b.0@);
        law_text_order_is_total(a.1@, b.1@);
    }
    if text_less(a.0.as_str(), b.0.as_str()) {
        true
    } else {
        text_equal(a.0.as_str(), b.0.as_str()) && text_less(a.1.as_str(), b.1.as_str())
    }
}

/// The parameters at some positions.
spec fn params_at(params: Seq<Param>, order: Seq<usize>) -> Seq<Param> {
    Seq::new(order.len(), |i: int| params[order[i] as int])
}

/// A parameter put into a sorted listing at its place leaves it sorted.
proof fn lemma_param_insertion(s: Seq<Param>, p: int, x: Param)
    requires
        sorted_by(s, param_order()),
        0 <= p <= s.len(),
        p > 0 ==> param_le(s[p - 1], x),
        p < s.len() ==> param_le(x, s[p]),
    ensures
        sorted_by(s.insert(p, x), param_order()),
        s.insert(p, x).to_multiset() == s.to_multiset().insert(x),
{
    let leq = param_order();
    let t = s.insert(p, x);
    law_param_order_is_total();
    vstd::seq_lib::to_multiset_insert(s, p, x);
    assert forall|i: int, j: int| 0 <= i < j < t.len() implies #[trigger] leq(t[i], t[j]) by {
        if j == p {
            if i < p - 1 {
                assert(leq(s[i], s[p - 1]));
                assert(leq(s[p - 1], x));
            }
        } else if i == p {
            if j - 1 > p {
                assert(leq(s[p], s[j - 1]));
                assert(leq(x, s[p]));
            }
        } else {
            let a = if i < p {
                i
            } else {
                i - 1
            };
            let b = if j < p {
                j
            } else {
                j - 1
            };
            assert(leq(s[a], s[b]));
        }
    }
}

/// The positions of the parameters in ascending order of the parameters.
fn ascending_params(params: &Vec<(String, String)>) -> (r: Vec<usize>)
    ensures
        r.len() == params.len(),
        forall|i: int| 0 <= i < r.len() ==> #[trigger] r[i] < params.len(),
        params_at(param_views(params@), r@) == param_views(params@).sort_by(param_order()),
{
    let ghost all = param_views(params@);
    let ghost leq = param_order();
    let mut order: Vec<usize> = Vec::new();
    let mut k: usize = 0;
    proof {
        assert(params_at(all, order@) =~= Seq::empty());
        assert(all.take(0) =~= Seq::empty());
    }
    while k < params.len()
        invariant
            k <= params.len(),
            all == param_views(params@),
            leq == param_order(),
            order.len() == k,
            forall|i: int| 0 <= i < order.len() ==> #[trigger] order[i] < params.len(),
            sorted_by(params_at(all, order@), leq),
            params_at(all, order@).to_multiset() == all.take(k as int).to_multiset(),
        decreases params.len() - k,
    {
        let ghost sorted = params_at(all, order@);
        let mut p: usize = order.len();
        let mut searching: bool = true;
        while searching && p > 0
            invariant
                k < params.len(),
                p <= order.len(),
                all == param_views(params@),
                sorted == params_at(all, order@),
                forall|i: int| 0 <= i < order.len() ==> #[trigger] order[i] < params.len(),
                p < order.len() ==> param_le(all[k as int], sorted[p as int]),
                !searching ==> p > 0 && param_le(sorted[p - 1], all[k as int]),
            decreases p + (if searching { 1int } else { 0int }),
        {
            let other: usize = order[p - 1];
            if param_less(&params[k], &params[other]) {
                proof {
                    law_text_order_is_total(all[k as int].0, sorted[p - 1].0);
                    law_text_order_is_total(all[k as int].1, sorted[p - 1].1);
                }
                p = p - 1;
            } else {
                searching = false;
            }
        }
        proof {
            lemma_param_insertion(sorted, p as int, all[k as int]);
            assert(all.take(k + 1) =~= all.take(k as int).push(all[k as int]));
            vstd::seq_lib::to_multiset_build(all.take(k as int), all[k as int]);
        }
        order.insert(p, k);
        assert(params_at(all, order@) =~= sorted.insert(p as int, all[k as int]));
        k = k + 1;
    }
    proof {
        assert(all.take(k as int) =~= all);
        law_param_order_is_total();
        all.lemma_sort_by_ensures(leq);
        vstd::seq_lib::lemma_sorted_unique(
            params_at(all, order@),
            all.sort_by(leq),
            leq,
        );
    }
    order
}

/// Appends the parameters at some positions as query text.
fn push_query(out: &mut String, params: &Vec<(String, String)>, order: &Vec<usize>)
    requires
        forall|i: int| 0 <= i < order.len() ==> #[trigger] order[i] < params.len(),
    ensures
        final(out)@ == old(out)@ + query_text(params_at(param_views(params@), order@)),
{
    let ghost before = out@;
    let ghost all = param_views(params@);
    let ghost listed = params_at(all, order@);
    let mut i: usize = 0;
    assert(listed.take(0) =~= Seq::empty());
    assert(out@ =~= before + query_text(listed.take(0)));
    while i < order.len()
        invariant
            i <= order.len(),
            all == param_views(params@),
            listed == params_at(all, order@),
            forall|j: int| 0 <= j < order.len() ==> #[trigger] order[j] < params.len(),
            out@ == before + query_text(listed.take(i as int)),
        decreases order.len() - i,
    {
        let ghost so_far = out@;
        let param = &params[order[i]];
        if i > 0 {
            out.append("&");
        }
        out.append(param.0.as_str());
        out.append("=");
        out.append(param.1.as_str());
        proof {
            let next = listed.take(i + 1);
            assert(next.drop_last() =~= listed.take(i as int));
            assert(next.last() == (param.0@, param.1@));
            assert(param_text(next.last()) == param.0@ + "="@ + param.1@);
            if i == 0 {
                assert(listed.take(0) =~= Seq::empty());
                assert(next[0] == next.last());
                assert(out@ =~= before + query_text(next));
            } else {
                assert(out@ =~= before + query_text(next));
            }
        }
        i = i + 1;
    }
    assert(listed.take(i as int) =~= listed);
}

impl VenueRequest {
    /// The key the response to this request is cached under.
    pub open spec fn key(self) -> Seq<char> {
        key_text(
            self.endpoint@,
            self.instrument@,
            param_views(self.params@),
            self.window.start_ms(),
            self.window.end_ms(),
        )
    }

    /// Whether the span lies wholly in the past at `now_ms`, so that what it holds no longer changes.
    pub fn is_closed_window(&self, now_ms: i64) -> (r: bool)
        ensures
            r == (self.window.end_ms() <= now_ms),
    {
        self.window.end().millis() <= now_ms
    }

    /// The key the response to this request is cached under.
    pub fn cache_key(&self) -> (r: CacheKey)
        ensures
            r@ == self.key(),
    {
        let order: Vec<usize> = ascending_params(&self.params);
        let mut out: String = self.endpoint.as_str().to_owned();
        out.append("|");
        out.append(self.instrument.as_str());
        out.append("|");
        push_query(&mut out, &self.params, &order);
        out.append("|");
        push_signed(&mut out, self.window.start().millis());
        out.append("-");
        push_signed(&mut out, self.window.end().millis());
        out
    }

    /// The address of this request below `base`.
    pub fn url(&self, base: &str) -> (r: String)
        ensures
            r@ == url_text(base@, self.endpoint@, param_views(self.params@)),
    {
        let mut out: String = base.to_owned();
        out.append(self.endpoint.as_str());
        if self.params.len() > 0 {
            out.append("?");
            let mut order: Vec<usize> = Vec::new();
            let mut i: usize = 0;
            while i < self.params.len()
                invariant
                    i <= self.params.len(),
                    order.len() == i,
                    forall|j: int| 0 <= j < i ==> #[trigger] order[j] == j,
                decreases self.params.len() - i,
            {
                order.push(i);
                i = i + 1;
            }
            assert(params_at(param_views(self.params@), order@) =~= param_views(self.params@));
            push_query(&mut out, &self.params, &order);
        }
        out
    }
}

/// The order in which a caller lists the parameters does not show in the key.
pub proof fn law_key_ignores_parameter_order(
    endpoint: Seq<char>,
    instrument: Seq<char>,
    a: Seq<Param>,
    b: Seq<Param>,
    start: int,
    end: int,
)
    requires
        a.to_multiset() == b.to_multiset(),
    ensures
        key_text(endpoint, instrument, a, start, end) == key_text(
            endpoint,
            instrument,
            b,
            start,
            end,
        ),
{
    let leq = param_order();
    law_param_order_is_total();
    a.lemma_sort_by_ensures(leq);
    b.lemma_sort_by_ensures(leq);
    vstd::seq_lib::lemma_sorted_unique(a.sort_by(leq), b.sort_by(leq), leq);
}

/// What stands between the same texts tells the whole apart.
proof fn lemma_middle_shows(front: Seq<char>, x: Seq<char>, y: Seq<char>, back: Seq<char>)
    requires
        front + x + back == front + y + back,
    ensures
        x == y,
{
    let left = front + x + back;
    let right = front + y + back;
    assert(left.len() == right.len());
    let n = front.len() as int;
    assert(left.subrange(n, n + x.len()) =~= x);
    assert(right.subrange(n, n + y.len()) =~= y);
}

proof fn lemma_regroup(a: Seq<char>, b: Seq<char>, c: Seq<char>)
    ensures
        a + b + c == a + (b + c),
{
    assert(a + b + c =~= a + (b + c));
}

/// The key is the path, what is between it and the span, and the span.
proof fn lemma_key_parts(
    endpoint: Seq<char>,
    instrument: Seq<char>,
    params: Seq<Param>,
    start: int,
    end: int,
)
    ensures
        ({
            let query = query_text(params.sort_by(param_order()));
            let span = signed_text(start) + "-"@ + signed_text(end);
            let back = "|"@ + (query + "|"@ + span);
            let key = key_text(endpoint, instrument, params, start, end);
            &&& key == endpoint + ("|"@ + instrument + back)
            &&& key == endpoint + "|"@ + instrument + back
            &&& key == endpoint + "|"@ + instrument + "|"@ + query + "|"@ + span
        }),
{
    let query = query_text(params.sort_by(param_order()));
    let a = signed_text(start);
    let b = signed_text(end);
    let span = a + "-"@ + b;
    let front = endpoint + "|"@ + instrument;
    let all = front + "|"@ + query + "|"@;
    lemma_regroup(all, a, "-"@);
    lemma_regroup(all, a + "-"@, b);
    lemma_regroup(front + "|"@ + query, "|"@, span);
    lemma_regroup(front + "|"@, query, "|"@ + span);
    lemma_regroup(front, "|"@, query + ("|"@ + span));
    lemma_regroup(query, "|"@, span);
    let back = "|"@ + (query + "|"@ + span);
    lemma_regroup(endpoint, "|"@, instrument);
    lemma_regroup(endpoint, "|"@ + instrument, back);
}

/// Two requests that differ in one of path, instrument and span have different keys, so that no response is
/// served for another.
pub proof fn law_key_tells_requests_apart(
    endpoint: Seq<char>,
    instrument: Seq<char>,
    params: Seq<Param>,
    start: int,
    end: int,
    other: Seq<char>,
    start2: int,
    end2: int,
)
    ensures
        key_text(endpoint, instrument, params, start, end) == key_text(
            other,
            instrument,
            params,
            start,
            end,
        ) ==> endpoint == other,
        key_text(endpoint, instrument, params, start, end) == key_text(
            endpoint,
            other,
            params,
            start,
            end,
        ) ==> instrument == other,
        key_text(endpoint, instrument, params, start, end) == key_text(
            endpoint,
            instrument,
            params,
            start2,
            end2,
        ) ==> start == start2 && end == end2,
{
    let query = query_text(params.sort_by(param_order()));
    let span = signed_text(start) + "-"@ + signed_text(end);
    let span2 = signed_text(start2) + "-"@ + signed_text(end2);
    let back = "|"@ + (query + "|"@ + span);
    let none = Seq::<char>::empty();
    lemma_key_parts(endpoint, instrument, params, start, end);
    lemma_key_parts(other, instrument, params, start, end);
    lemma_key_parts(endpoint, other, params, start, end);
    lemma_key_parts(endpoint, instrument, params, start2, end2);
    let key = key_text(endpoint, instrument, params, start, end);
    if key == key_text(other, instrument, params, start, end) {
        assert(none + endpoint =~= endpoint);
        assert(none + other =~= other);
        lemma_middle_shows(none, endpoint, other, "|"@ + instrument + back);
    }
    if key == key_text(endpoint, other, params, start, end) {
        lemma_middle_shows(endpoint + "|"@, instrument, other, back);
    }
    if key == key_text(endpoint, instrument, params, start2, end2) {
        let front = endpoint + "|"@ + instrument + "|"@ + query + "|"@;
        assert(front + span + none =~= front + span);
        assert(front + span2 + none =~= front + span2);
        lemma_middle_shows(front, span, span2, none);
        reveal_strlit("-");
        assert("-"@ =~= seq!['-']);
        law_signed_texts_with_a_dash(start, end, start2, end2);
    }
}

/// Two requests whose parameters read differently, in ascending order, have different keys.
pub proof fn law_key_shows_the_parameters(
    endpoint: Seq<char>,
    instrument: Seq<char>,
    params: Seq<Param>,
    other: Seq<Param>,
    start: int,
    end: int,
)
    requires
        key_text(endpoint, instrument, params, start, end) == key_text(
            endpoint,
            instrument,
            other,
            start,
            end,
        ),
    ensures
        query_text(params.sort_by(param_order())) == query_text(other.sort_by(param_order())),
{
    let span = signed_text(start) + "-"@ + signed_text(end);
    let front = endpoint + "|"@ + instrument + "|"@;
    let a = query_text(params.sort_by(param_order()));
    let b = query_text(other.sort_by(param_order()));
    lemma_key_parts(endpoint, instrument, params, start, end);
    lemma_key_parts(endpoint, instrument, other, start, end);
    lemma_regroup(front + a, "|"@, span);
    lemma_regroup(front + b, "|"@, span);
    lemma_middle_shows(front, a, b, "|"@ + span);
}

/// The query has every parameter as its name, an equals sign and its value, with an ampersand between
/// neighbours.
pub proof fn law_query_joins_its_parameters(params: Seq<Param>, p: Param)
    ensures
        query_text(seq![p]) == p.0 + "="@ + p.1,
        params.len() > 0 ==> query_text(params.push(p)) == query_text(params) + "&"@ + (p.0 + "="@
            + p.1),
        query_text(Seq::empty()) == Seq::<char>::empty(),
{
    if params.len() > 0 {
        assert(params.push(p).drop_last() =~= params);
    }
}

} // verus!
