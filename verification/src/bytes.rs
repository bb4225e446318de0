//! Bytes: big-endian numbers, dictionary order, UTF-8 and digests.

use vstd::prelude::*;
use vstd::utf8::{decode_utf8, encode_utf8, valid_utf8};

use sha2::Digest;

verus! {

// ---- big-endian numbers --------------------------------------------------------------------------

/// `256^w`.
pub open spec fn pow256(w: nat) -> int
    decreases w,
{
    if w == 0 {
        1
    } else {
        256 * pow256((w - 1) as nat)
    }
}

/// The last `w` bytes of `n`, most significant first.
pub open spec fn be_bytes(n: int, w: nat) -> Seq<u8>
    decreases w,
{
    if w == 0 {
        Seq::empty()
    } else {
        be_bytes(n / 256, (w - 1) as nat).push((n % 256) as u8)
    }
}

/// The number that some bytes spell, most significant first.
pub open spec fn be_value(s: Seq<u8>) -> int
    decreases s.len(),
{
    if s.len() == 0 {
        0
    } else {
        be_value(s.drop_last()) * 256 + s.last()
    }
}

/// A number written in `w` bytes takes `w` bytes, and reads back as itself if it fits.
pub proof fn lemma_be_round_trip(n: int, w: nat)
    requires
        0 <= n < pow256(w),
    ensures
        be_bytes(n, w).len() == w,
        be_value(be_bytes(n, w)) == n,
    decreases w,
{
    if w > 0 {
        lemma_be_round_trip(n / 256, (w - 1) as nat);
        assert(be_bytes(n, w).drop_last() =~= be_bytes(n / 256, (w - 1) as nat));
    }
}

/// The length of a number written in `w` bytes.
pub proof fn lemma_be_len(n: int, w: nat)
    ensures
        be_bytes(n, w).len() == w,
    decreases w,
{
    if w > 0 {
        lemma_be_len(n / 256, (w - 1) as nat);
    }
}

/// Bytes read as a number and written again are the same bytes.
pub proof fn lemma_be_value_round_trip(s: Seq<u8>)
    ensures
        0 <= be_value(s) < pow256(s.len()),
        be_bytes(be_value(s), s.len()) == s,
    decreases s.len(),
{
    if s.len() > 0 {
        lemma_be_value_round_trip(s.drop_last());
        assert(be_value(s) / 256 == be_value(s.drop_last()));
        assert(be_bytes(be_value(s), s.len()) =~= s);
    } else {
        assert(be_bytes(0, 0) =~= s);
    }
}

/// `256^2`, `256^4` and `256^8`, written out.
pub proof fn lemma_pow256_values()
    ensures
        pow256(2) == 0x1_0000,
        pow256(4) == 0x1_0000_0000,
        pow256(8) == 0x1_0000_0000_0000_0000,
{
    reveal_with_fuel(pow256, 9);
}

/// Appends the last `w` bytes of `n`, most significant first.
pub fn push_be(out: &mut Vec<u8>, n: u64, w: u8)
    ensures
        final(out)@ == old(out)@ + be_bytes(n as int, w as nat),
    decreases w,
{
    let ghost before = out@;
    if w > 0 {
        push_be(out, n / 256, w - 1);
        out.push((n % 256) as u8);
    }
    assert(out@ =~= before + be_bytes(n as int, w as nat));
}

/// Reads the number spelt by `bytes[from..to]`, at most eight bytes.
pub fn read_be(bytes: &[u8], from: usize, to: usize) -> (r: u64)
    requires
        from <= to <= bytes.len(),
        to - from <= 8,
    ensures
        r == be_value(bytes@.subrange(from as int, to as int)),
{
    let mut acc: u64 = 0;
    let mut i: usize = from;
    assert(bytes@.subrange(from as int, from as int) =~= Seq::empty());
    while i < to
        invariant
            from <= i <= to <= bytes.len(),
            to - from <= 8,
            acc == be_value(bytes@.subrange(from as int, i as int)),
        decreases to - i,
    {
        let ghost here = bytes@.subrange(from as int, i as int);
        let ghost next = bytes@.subrange(from as int, i + 1);
        proof {
            assert(next.drop_last() =~= here);
            assert(next.last() == bytes@[i as int]);
            lemma_be_value_round_trip(next);
            lemma_pow256_monotone(next.len(), 8);
            lemma_pow256_values();
        }
        acc = acc * 256 + bytes[i] as u64;
        i = i + 1;
    }
    acc
}

/// Powers of 256 grow.
proof fn lemma_pow256_monotone(a: nat, b: nat)
    requires
        a <= b,
    ensures
        1 <= pow256(a) <= pow256(b),
    decreases b,
{
    if a < b {
        lemma_pow256_monotone(a, (b - 1) as nat);
    } else if a > 0 {
        lemma_pow256_monotone((a - 1) as nat, (a - 1) as nat);
    }
}

// ---- signed numbers ------------------------------------------------------------------------------

/// A signed 64-bit number as its two's complement.
pub open spec fn twos_complement(v: int) -> int {
    if v < 0 {
        v + 0x1_0000_0000_0000_0000
    } else {
        v
    }
}

/// A signed 64-bit number shifted so that its order is that of the unsigned numbers.
pub open spec fn order_preserving(v: int) -> int {
    v + 0x8000_0000_0000_0000
}

/// Computes [`twos_complement`].
pub fn to_twos_complement(v: i64) -> (r: u64)
    ensures
        r == twos_complement(v as int),
{
    if v < 0 {
        (v as i128 + 0x1_0000_0000_0000_0000) as u64
    } else {
        v as u64
    }
}

/// The signed 64-bit number with a given two's complement.
pub open spec fn signed_of(n: int) -> int {
    if n >= 0x8000_0000_0000_0000 {
        n - 0x1_0000_0000_0000_0000
    } else {
        n
    }
}

/// Computes [`signed_of`].
pub fn from_twos_complement(n: u64) -> (r: i64)
    ensures
        r == signed_of(n as int),
{
    if n >= 0x8000_0000_0000_0000 {
        (n as i128 - 0x1_0000_0000_0000_0000) as i64
    } else {
        n as i64
    }
}

/// Computes [`order_preserving`].
pub fn to_order_preserving(v: i64) -> (r: u64)
    ensures
        r == order_preserving(v as int),
{
    (v as i128 + 0x8000_0000_0000_0000) as u64
}

/// The signed number whose [`order_preserving`] image is `n`.
pub fn from_order_preserving(n: u64) -> (r: i64)
    ensures
        order_preserving(r as int) == n,
{
    (n as i128 - 0x8000_0000_0000_0000) as i64
}

// ---- dictionary order ----------------------------------------------------------------------------

/// Whether `a` comes before `b` in dictionary order of the bytes.
pub open spec fn bytes_lt(a: Seq<u8>, b: Seq<u8>) -> bool
    decreases a.len(),
{
    if b.len() == 0 {
        false
    } else if a.len() == 0 {
        true
    } else if a[0] != b[0] {
        a[0] < b[0]
    } else {
        bytes_lt(a.drop_first(), b.drop_first())
    }
}

/// Of two different byte sequences exactly one comes before the other.
pub proof fn law_bytes_order_is_total(a: Seq<u8>, b: Seq<u8>)
    ensures
        !bytes_lt(a, a),
        a != b ==> bytes_lt(a, b) || bytes_lt(b, a),
        !(bytes_lt(a, b) && bytes_lt(b, a)),
    decreases a.len(),
{
    if a.len() == 0 {
        if b.len() == 0 {
            assert(a =~= b);
        }
    } else {
        law_bytes_order_is_total(a.drop_first(), a.drop_first());
        if b.len() > 0 {
            law_bytes_order_is_total(a.drop_first(), b.drop_first());
            if a[0] == b[0] && a.drop_first() == b.drop_first() {
                assert(a =~= seq![a[0]] + a.drop_first());
                assert(b =~= seq![b[0]] + b.drop_first());
            }
        }
    }
}

/// What comes before something comes before everything after it.
pub proof fn law_bytes_order_is_transitive(a: Seq<u8>, b: Seq<u8>, c: Seq<u8>)
    requires
        bytes_lt(a, b),
        bytes_lt(b, c),
    ensures
        bytes_lt(a, c),
    decreases a.len(),
{
    if a.len() > 0 && a[0] == b[0] && b[0] == c[0] {
        law_bytes_order_is_transitive(a.drop_first(), b.drop_first(), c.drop_first());
    }
}

/// A common prefix does not matter for the order.
pub proof fn lemma_common_prefix(p: Seq<u8>, a: Seq<u8>, b: Seq<u8>)
    ensures
        bytes_lt(p + a, p + b) == bytes_lt(a, b),
    decreases p.len(),
{
    if p.len() == 0 {
        assert(p + a =~= a);
        assert(p + b =~= b);
    } else {
        lemma_common_prefix(p.drop_first(), a, b);
        assert((p + a).drop_first() =~= p.drop_first() + a);
        assert((p + b).drop_first() =~= p.drop_first() + b);
    }
}

/// Numbers written in the same number of bytes are ordered as their bytes are.
pub proof fn law_big_endian_preserves_order(m: int, n: int, w: nat)
    requires
        0 <= m < pow256(w),
        0 <= n < pow256(w),
    ensures
        bytes_lt(be_bytes(m, w), be_bytes(n, w)) <==> m < n,
    decreases w,
{
    if w > 0 {
        let a = be_bytes(m / 256, (w - 1) as nat);
        let b = be_bytes(n / 256, (w - 1) as nat);
        law_big_endian_preserves_order(m / 256, n / 256, (w - 1) as nat);
        lemma_be_round_trip(m / 256, (w - 1) as nat);
        lemma_be_round_trip(n / 256, (w - 1) as nat);
        lemma_append_last(a, b, (m % 256) as u8, (n % 256) as u8);
    }
}

/// How the order of two sequences of one length goes on when each gets one more byte.
proof fn lemma_append_last(a: Seq<u8>, b: Seq<u8>, x: u8, y: u8)
    requires
        a.len() == b.len(),
    ensures
        bytes_lt(a.push(x), b.push(y)) == (bytes_lt(a, b) || (a == b && x < y)),
    decreases a.len(),
{
    reveal_with_fuel(bytes_lt, 2);
    if a.len() == 0 {
        assert(a =~= b);
        assert(a.push(x).drop_first() =~= Seq::empty());
        assert(b.push(y).drop_first() =~= Seq::empty());
    } else {
        assert(a.push(x).drop_first() =~= a.drop_first().push(x));
        assert(b.push(y).drop_first() =~= b.drop_first().push(y));
        lemma_append_last(a.drop_first(), b.drop_first(), x, y);
        if a[0] == b[0] && a.drop_first() == b.drop_first() {
            assert(a =~= seq![a[0]] + a.drop_first());
            assert(b =~= seq![b[0]] + b.drop_first());
        }
    }
}

/// Whether `s` starts with `p`.
pub open spec fn starts_with(s: Seq<u8>, p: Seq<u8>) -> bool {
    p.len() <= s.len() && s.take(p.len() as int) == p
}

// ---- text and digests ----------------------------------------------------------------------------

/// Appends the UTF-8 bytes of a text.
pub fn push_text(out: &mut Vec<u8>, text: &str)
    ensures
        final(out)@ == old(out)@ + encode_utf8(text@),
{
    let ghost before = out@;
    let bytes: &[u8] = text.as_bytes();
    let mut i: usize = 0;
    while i < bytes.len()
        invariant
            i <= bytes@.len(),
            out@ == before + bytes@.take(i as int),
        decreases bytes@.len() - i,
    {
        assert(bytes@.take(i + 1) =~= bytes@.take(i as int).push(bytes@[i as int]));
        out.push(bytes[i]);
        assert(out@ =~= before + bytes@.take(i + 1));
        i = i + 1;
    }
    assert(bytes@.take(i as int) =~= bytes@);
}

/// Appends bytes.
pub fn push_bytes(out: &mut Vec<u8>, bytes: &[u8])
    ensures
        final(out)@ == old(out)@ + bytes@,
{
    let ghost before = out@;
    let mut i: usize = 0;
    while i < bytes.len()
        invariant
            i <= bytes.len(),
            out@ == before + bytes@.take(i as int),
        decreases bytes.len() - i,
    {
        assert(bytes@.take(i + 1) =~= bytes@.take(i as int).push(bytes@[i as int]));
        out.push(bytes[i]);
        assert(out@ =~= before + bytes@.take(i + 1));
        i = i + 1;
    }
    assert(bytes@.take(i as int) =~= bytes@);
}

/// The bytes `bytes[from..to]`.
pub fn slice_of(bytes: &[u8], from: usize, to: usize) -> (r: Vec<u8>)
    requires
        from <= to <= bytes.len(),
    ensures
        r@ == bytes@.subrange(from as int, to as int),
{
    let mut out: Vec<u8> = Vec::new();
    let mut i: usize = from;
    while i < to
        invariant
            from <= i <= to <= bytes.len(),
            out@ =~= bytes@.subrange(from as int, i as int),
        decreases to - i,
    {
        out.push(bytes[i]);
        i = i + 1;
    }
    out
}

/// `String::from_utf8`. Trusted: that it succeeds on valid UTF-8 and on nothing else, and that the
/// text is what the bytes encode.
#[verifier::external_body]
fn outside_text(bytes: Vec<u8>) -> (r: Option<String>)
    ensures
        r is Some <==> valid_utf8(bytes@),
        r is Some ==> r->Some_0@ == decode_utf8(bytes@),
{
    String::from_utf8(bytes).ok()
}

/// The text that some bytes encode, if they are valid UTF-8.
pub fn text_of(bytes: Vec<u8>) -> (r: Option<String>)
    ensures
        match r {
            Some(s) => valid_utf8(bytes@) && s@ == decode_utf8(bytes@) && encode_utf8(s@) == bytes@,
            None => !valid_utf8(bytes@),
        },
{
    proof {
        if valid_utf8(bytes@) {
            vstd::utf8::decode_utf8_encode_utf8(bytes@);
        }
    }
    outside_text(bytes)
}

/// The SHA-256 digest of some bytes, as `sha2::Sha256::digest` computes it.
pub uninterp spec fn sha256_of(bytes: Seq<u8>) -> Seq<u8>;

/// `sha2::Sha256::digest`. Trusted: that the digest is a function of the bytes, 32 bytes long.
#[verifier::external_body]
pub(crate) fn sha256(bytes: &Vec<u8>) -> (r: Vec<u8>)
    ensures
        r@ == sha256_of(bytes@),
        r@.len() == 32,
{
    sha2::Sha256::digest(bytes.as_slice()).to_vec()
}

} // verus!
