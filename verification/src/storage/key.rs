//! Byte keys whose dictionary order is the order in which rows are to be scanned.
//!
//! A key ends in its time, shifted so that byte order is time order, also below zero. Symbols hold
//! ASCII letters and digits only, so the zero byte that ends them never occurs within one.

use vstd::prelude::*;
use vstd::utf8::encode_utf8;

use crate::bytes::{
    be_bytes, be_value, bytes_lt, from_order_preserving, law_big_endian_preserves_order,
    lemma_be_len, lemma_be_round_trip, lemma_common_prefix, lemma_pow256_values, order_preserving,
    push_be, push_text, read_be, starts_with, to_order_preserving,
};
use crate::domain::{is_symbol, is_symbol_char, InstrumentId, Resolution, Timestamp};

verus! {

/// The byte that ends a symbol.
pub const DELIM: u8 = 0x00;

// ---- what the keys are ---------------------------------------------------------------------------

/// A time as eight bytes whose order is the order of the times.
pub open spec fn order_bytes(t: int) -> Seq<u8> {
    be_bytes(order_preserving(t), 8)
}

/// The prefix shared by all rows of an instrument: `symbol ‖ 0`.
pub open spec fn series_prefix_of(symbol: Seq<char>) -> Seq<u8> {
    encode_utf8(symbol).push(DELIM)
}

/// The key of a row: `symbol ‖ 0 ‖ time`.
pub open spec fn series_key_of(symbol: Seq<char>, t: int) -> Seq<u8> {
    series_prefix_of(symbol) + order_bytes(t)
}

/// The prefix shared by all bars of an instrument and resolution: `symbol ‖ 0 ‖ resolution`.
pub open spec fn bar_prefix_of(symbol: Seq<char>, r: Resolution) -> Seq<u8> {
    series_prefix_of(symbol).push(r.position())
}

/// The key of a bar: `symbol ‖ 0 ‖ resolution ‖ time`.
pub open spec fn bar_key_of(symbol: Seq<char>, r: Resolution, t: int) -> Seq<u8> {
    bar_prefix_of(symbol, r) + order_bytes(t)
}

/// A text behind its length in two bytes.
pub open spec fn prefixed_text(text: Seq<char>) -> Seq<u8> {
    be_bytes(encode_utf8(text).len() as int, 2) + encode_utf8(text)
}

/// The key of an indicator state: `len ‖ symbol ‖ resolution ‖ len ‖ id ‖ lookback ‖ time`, with
/// two-byte lengths and a four-byte lookback.
pub open spec fn indicator_key_of(
    symbol: Seq<char>,
    r: Resolution,
    id: Seq<char>,
    lookback: int,
    t: int,
) -> Seq<u8> {
    prefixed_text(symbol).push(r.position()) + prefixed_text(id) + be_bytes(lookback, 4)
        + order_bytes(t)
}

/// The time in the last eight bytes of a key.
pub open spec fn time_of(key: Seq<u8>) -> int {
    be_value(key.subrange(key.len() - 8, key.len() as int)) - 0x8000_0000_0000_0000
}

// ---- laws ----------------------------------------------------------------------------------------

/// Whether an integer is a 64-bit time.
pub open spec fn is_time(t: int) -> bool {
    i64::MIN <= t <= i64::MAX
}

/// Times are ordered as their bytes are, also below zero.
pub proof fn law_time_bytes_are_ordered(a: int, b: int)
    requires
        is_time(a),
        is_time(b),
    ensures
        bytes_lt(order_bytes(a), order_bytes(b)) <==> a < b,
        order_bytes(a).len() == 8,
{
    lemma_pow256_values();
    law_big_endian_preserves_order(order_preserving(a), order_preserving(b), 8);
    lemma_be_len(order_preserving(a), 8);
}

/// Under one prefix, keys are ordered as their times are.
pub proof fn law_keys_sort_by_time(prefix: Seq<u8>, a: int, b: int)
    requires
        is_time(a),
        is_time(b),
    ensures
        bytes_lt(prefix + order_bytes(a), prefix + order_bytes(b)) <==> a < b,
{
    lemma_common_prefix(prefix, order_bytes(a), order_bytes(b));
    law_time_bytes_are_ordered(a, b);
}

/// The time that a key was made of is read off its end.
pub proof fn law_time_survives_key(prefix: Seq<u8>, t: int)
    requires
        is_time(t),
    ensures
        time_of(prefix + order_bytes(t)) == t,
        (prefix + order_bytes(t)).len() == prefix.len() + 8,
{
    lemma_pow256_values();
    lemma_be_round_trip(order_preserving(t), 8);
    let key = prefix + order_bytes(t);
    assert(key.subrange(key.len() - 8, key.len() as int) =~= order_bytes(t));
}

/// The bytes of a symbol: one per character, none of them zero.
pub proof fn lemma_symbol_bytes(symbol: Seq<char>)
    requires
        is_symbol(symbol),
    ensures
        encode_utf8(symbol).len() == symbol.len(),
        forall|i: int| 0 <= i < symbol.len() ==> #[trigger] encode_utf8(symbol)[i] != DELIM,
{
    assert(vstd::utf8::is_ascii_chars(symbol)) by {
        assert forall|i: int| 0 <= i < symbol.len() implies '\0' <= #[trigger] symbol[i]
            <= '\u{7f}' by {
            assert(is_symbol_char(symbol[i]));
        }
    }
    vstd::utf8::is_ascii_chars_encode_utf8(symbol);
    assert forall|i: int| 0 <= i < symbol.len() implies #[trigger] encode_utf8(symbol)[i]
        != DELIM by {
        assert(is_symbol_char(symbol[i]));
        assert(symbol[i] as u8 == encode_utf8(symbol)[i]);
    }
}

/// Symbols with the same bytes are the same.
proof fn lemma_symbols_by_bytes(a: Seq<char>, b: Seq<char>)
    requires
        encode_utf8(a) == encode_utf8(b),
    ensures
        a == b,
{
    vstd::utf8::encode_utf8_decode_utf8(a);
    vstd::utf8::encode_utf8_decode_utf8(b);
}

/// A row of one instrument starts with the prefix of another only if the two are the same, also where
/// one symbol is the beginning of the other.
pub proof fn law_series_prefixes_isolate(a: Seq<char>, rest: Seq<u8>, b: Seq<char>)
    requires
        is_symbol(a),
        is_symbol(b),
    ensures
        starts_with(series_prefix_of(a) + rest, series_prefix_of(b)) <==> a == b,
{
    let x = encode_utf8(a);
    let y = encode_utf8(b);
    lemma_symbol_bytes(a);
    lemma_symbol_bytes(b);
    let key = series_prefix_of(a) + rest;
    let p = series_prefix_of(b);
    if starts_with(key, p) {
        let head = key.take(p.len() as int);
        if x.len() < y.len() {
            assert(head[x.len() as int] == DELIM);
            assert(p[x.len() as int] == y[x.len() as int]);
            assert(false);
        }
        if x.len() > y.len() {
            assert(head[y.len() as int] == x[y.len() as int]);
            assert(p[y.len() as int] == DELIM);
            assert(false);
        }
        assert(x =~= y) by {
            assert forall|i: int| 0 <= i < x.len() implies x[i] == y[i] by {
                assert(head[i] == x[i]);
                assert(p[i] == y[i]);
            }
        }
        lemma_symbols_by_bytes(a, b);
    }
    if a == b {
        assert(key.take(p.len() as int) =~= p);
    }
}

/// A bar's key starts with the prefix of an instrument and resolution exactly if it is a bar of them.
pub proof fn law_bar_prefixes_isolate(
    a: Seq<char>,
    r: Resolution,
    t: int,
    b: Seq<char>,
    q: Resolution,
)
    requires
        is_symbol(a),
        is_symbol(b),
    ensures
        starts_with(bar_key_of(a, r, t), bar_prefix_of(b, q)) <==> a == b && r == q,
{
    let key = bar_key_of(a, r, t);
    let p = bar_prefix_of(b, q);
    let rest = seq![r.position()] + order_bytes(t);
    assert(key =~= series_prefix_of(a) + rest);
    law_series_prefixes_isolate(a, rest, b);
    if starts_with(key, p) {
        let s = series_prefix_of(b);
        assert(p.take(s.len() as int) =~= s);
        assert(key.take(s.len() as int) =~= key.take(p.len() as int).take(s.len() as int));
        assert(starts_with(key, s));
        assert(key.take(p.len() as int)[s.len() as int] == p[s.len() as int]);
        assert(key[s.len() as int] == r.position());
    }
    if a == b && r == q {
        assert(key.take(p.len() as int) =~= p);
    }
}

/// Different bars have different keys.
pub proof fn law_bar_keys_differ(
    a: Seq<char>,
    r: Resolution,
    t: int,
    b: Seq<char>,
    q: Resolution,
    u: int,
)
    requires
        is_symbol(a),
        is_symbol(b),
        is_time(t),
        is_time(u),
    ensures
        bar_key_of(a, r, t) == bar_key_of(b, q, u) <==> a == b && r == q && t == u,
{
    if bar_key_of(a, r, t) == bar_key_of(b, q, u) {
        law_bar_prefixes_isolate(b, q, u, b, q);
        law_bar_prefixes_isolate(a, r, t, b, q);
        law_time_survives_key(bar_prefix_of(a, r), t);
        law_time_survives_key(bar_prefix_of(b, q), u);
    }
}

/// Different rows of a series have different keys.
pub proof fn law_series_keys_differ(a: Seq<char>, t: int, b: Seq<char>, u: int)
    requires
        is_symbol(a),
        is_symbol(b),
        is_time(t),
        is_time(u),
    ensures
        series_key_of(a, t) == series_key_of(b, u) <==> a == b && t == u,
{
    if series_key_of(a, t) == series_key_of(b, u) {
        law_series_prefixes_isolate(b, order_bytes(u), b);
        law_series_prefixes_isolate(a, order_bytes(t), b);
        law_time_survives_key(series_prefix_of(a), t);
        law_time_survives_key(series_prefix_of(b), u);
    }
}

/// Two texts behind their lengths, followed by more bytes, are told apart.
proof fn lemma_prefixed_text_splits(a: Seq<char>, x: Seq<u8>, b: Seq<char>, y: Seq<u8>)
    requires
        encode_utf8(a).len() < 0x1_0000,
        encode_utf8(b).len() < 0x1_0000,
        prefixed_text(a) + x == prefixed_text(b) + y,
    ensures
        a == b,
        x == y,
{
    let s = encode_utf8(a);
    let t = encode_utf8(b);
    let key = prefixed_text(a) + x;
    let yek = prefixed_text(b) + y;
    lemma_pow256_values();
    lemma_be_round_trip(s.len() as int, 2);
    lemma_be_round_trip(t.len() as int, 2);
    assert(key.subrange(0, 2) =~= be_bytes(s.len() as int, 2));
    assert(yek.subrange(0, 2) =~= be_bytes(t.len() as int, 2));
    assert(key.subrange(2, 2 + s.len() as int) =~= s);
    assert(yek.subrange(2, 2 + t.len() as int) =~= t);
    lemma_symbols_by_bytes(a, b);
    assert(key.subrange(2 + s.len() as int, key.len() as int) =~= x);
    assert(yek.subrange(2 + t.len() as int, yek.len() as int) =~= y);
}

/// Different indicator states have different keys, as long as symbol and identifier are shorter than
/// 65536 bytes.
pub proof fn law_indicator_keys_differ(
    a: Seq<char>,
    r: Resolution,
    id: Seq<char>,
    n: int,
    t: int,
    b: Seq<char>,
    q: Resolution,
    jd: Seq<char>,
    m: int,
    u: int,
)
    requires
        encode_utf8(a).len() < 0x1_0000,
        encode_utf8(b).len() < 0x1_0000,
        encode_utf8(id).len() < 0x1_0000,
        encode_utf8(jd).len() < 0x1_0000,
        0 <= n <= u32::MAX,
        0 <= m <= u32::MAX,
        is_time(t),
        is_time(u),
    ensures
        indicator_key_of(a, r, id, n, t) == indicator_key_of(b, q, jd, m, u) <==> a == b && r == q
            && id == jd && n == m && t == u,
{
    let key = indicator_key_of(a, r, id, n, t);
    let yek = indicator_key_of(b, q, jd, m, u);
    if key == yek {
        let x3 = be_bytes(n, 4) + order_bytes(t);
        let y3 = be_bytes(m, 4) + order_bytes(u);
        let x1 = seq![r.position()] + (prefixed_text(id) + x3);
        let y1 = seq![q.position()] + (prefixed_text(jd) + y3);
        assert(key =~= prefixed_text(a) + x1);
        assert(yek =~= prefixed_text(b) + y1);
        lemma_prefixed_text_splits(a, x1, b, y1);
        assert(x1[0] == y1[0]);
        assert(x1.skip(1) =~= prefixed_text(id) + x3);
        assert(y1.skip(1) =~= prefixed_text(jd) + y3);
        lemma_prefixed_text_splits(id, x3, jd, y3);
        lemma_pow256_values();
        lemma_be_round_trip(n, 4);
        lemma_be_round_trip(m, 4);
        assert(x3.take(4) =~= be_bytes(n, 4));
        assert(y3.take(4) =~= be_bytes(m, 4));
        law_time_survives_key(be_bytes(n, 4), t);
        law_time_survives_key(be_bytes(m, 4), u);
    }
}

// ---- making and reading keys ---------------------------------------------------------------------

/// A time as eight bytes whose order is the order of the times.
pub fn order_i64(v: i64) -> (r: Vec<u8>)
    ensures
        r@ == order_bytes(v as int),
        r.len() == 8,
{
    let mut out: Vec<u8> = Vec::new();
    push_be(&mut out, to_order_preserving(v), 8);
    proof {
        lemma_be_len(order_preserving(v as int), 8);
    }
    assert(out@ =~= order_bytes(v as int));
    out
}

/// Appends a time as eight bytes whose order is the order of the times.
fn push_time(out: &mut Vec<u8>, time: Timestamp)
    ensures
        final(out)@ == old(out)@ + order_bytes(time.ms as int),
{
    push_be(out, to_order_preserving(time.millis()), 8);
}

/// The prefix shared by all rows of an instrument.
pub fn series_prefix(instrument: &InstrumentId) -> (r: Vec<u8>)
    ensures
        r@ == series_prefix_of(instrument@),
        is_symbol(instrument@),
{
    let mut k: Vec<u8> = Vec::new();
    push_text(&mut k, instrument.as_str());
    k.push(DELIM);
    assert(k@ =~= series_prefix_of(instrument@));
    k
}

/// The key of a funding, premium or futures row.
pub fn series_key(instrument: &InstrumentId, time: Timestamp) -> (r: Vec<u8>)
    ensures
        r@ == series_key_of(instrument@, time.ms as int),
        is_symbol(instrument@),
{
    let mut k: Vec<u8> = series_prefix(instrument);
    push_time(&mut k, time);
    k
}

/// The prefix shared by all bars of an instrument and resolution.
pub fn bar_prefix(instrument: &InstrumentId, resolution: Resolution) -> (r: Vec<u8>)
    ensures
        r@ == bar_prefix_of(instrument@, resolution),
        is_symbol(instrument@),
{
    let mut k: Vec<u8> = series_prefix(instrument);
    k.push(resolution.ordinal());
    k
}

/// The key of a bar.
pub fn bar_key(instrument: &InstrumentId, resolution: Resolution, time: Timestamp) -> (r: Vec<u8>)
    ensures
        r@ == bar_key_of(instrument@, resolution, time.ms as int),
        is_symbol(instrument@),
{
    let mut k: Vec<u8> = bar_prefix(instrument, resolution);
    push_time(&mut k, time);
    k
}

/// Appends a text behind its length in two bytes.
fn push_prefixed_text(out: &mut Vec<u8>, text: &str)
    ensures
        final(out)@ == old(out)@ + prefixed_text(text@),
{
    let ghost before = out@;
    let len: usize = text.as_bytes().len();
    push_be(out, len as u64, 2);
    push_text(out, text);
    assert(out@ =~= before + prefixed_text(text@));
}

/// The key of an indicator state. Its parts stand behind their lengths, so that no two of them run
/// into each other.
pub fn indicator_key(
    instrument: &InstrumentId,
    resolution: Resolution,
    indicator_id: &str,
    lookback: u32,
    time: Timestamp,
) -> (r: Vec<u8>)
    ensures
        r@ == indicator_key_of(
            instrument@,
            resolution,
            indicator_id@,
            lookback as int,
            time.ms as int,
        ),
{
    let mut k: Vec<u8> = Vec::new();
    push_prefixed_text(&mut k, instrument.as_str());
    k.push(resolution.ordinal());
    push_prefixed_text(&mut k, indicator_id);
    push_be(&mut k, lookback as u64, 4);
    push_time(&mut k, time);
    assert(k@ =~= indicator_key_of(
        instrument@,
        resolution,
        indicator_id@,
        lookback as int,
        time.ms as int,
    ));
    k
}

/// The time in the last eight bytes of a key.
pub fn time_from_key(key: &[u8]) -> (r: Timestamp)
    requires
        key.len() >= 8,
    ensures
        r.ms == time_of(key@),
{
    let n: usize = key.len();
    Timestamp::from_millis(from_order_preserving(read_be(key, n - 8, n)))
}

} // verus!
