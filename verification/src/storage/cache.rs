//! The synthetic store's cache: every entry carries the lineage it was derived from, and is served
//! only to a reader with the same lineage.

use vstd::prelude::*;
use vstd::utf8::{decode_utf8, encode_utf8, valid_utf8};

use crate::bytes::{
    be_bytes, be_value, lemma_be_round_trip, lemma_be_value_round_trip, lemma_pow256_values,
    push_be, push_bytes, push_text, read_be, slice_of, text_of,
};
use crate::domain::{Bar, InstrumentId, Resolution, Timestamp};
use crate::storage::key::{indicator_key, indicator_key_of};
use crate::text::text_equal;

verus! {

/// What identifies an indicator state in the cache.
#[derive(Debug, Clone, Copy)]
pub struct IndicatorKey<'a> {
    /// The instrument.
    pub instrument: &'a InstrumentId,
    /// The resolution of the bars that the indicator was computed on.
    pub resolution: Resolution,
    /// The indicator.
    pub indicator_id: &'a str,
    /// The indicator's lookback.
    pub lookback: u32,
    /// The time of the bar that the state is for.
    pub time: Timestamp,
}

impl IndicatorKey<'_> {
    /// The key's bytes.
    pub fn encode(&self) -> (r: Vec<u8>)
        ensures
            r@ == indicator_key_of(
                self.instrument@,
                self.resolution,
                self.indicator_id@,
                self.lookback as int,
                self.time.ms as int,
            ),
    {
        indicator_key(
            self.instrument,
            self.resolution,
            self.indicator_id,
            self.lookback,
            self.time,
        )
    }
}

/// A cached state: the lineage behind its length in four bytes, then the state as it is.
pub open spec fn cache_value(lineage: Seq<char>, state: Seq<u8>) -> Seq<u8> {
    be_bytes(encode_utf8(lineage).len() as int, 4) + encode_utf8(lineage) + state
}

/// The lineage and the state that some bytes hold; none if they are malformed.
pub open spec fn cache_parts(bytes: Seq<u8>) -> Option<(Seq<char>, Seq<u8>)> {
    if bytes.len() < 4 {
        None
    } else {
        let len = be_value(bytes.subrange(0, 4));
        if 4 + len > bytes.len() {
            None
        } else {
            let lineage = bytes.subrange(4, 4 + len);
            if valid_utf8(lineage) {
                Some((decode_utf8(lineage), bytes.subrange(4 + len, bytes.len() as int)))
            } else {
                None
            }
        }
    }
}

/// A cached state is read back byte by byte, with its lineage, as long as the lineage is shorter than
/// `2^32` bytes.
pub proof fn law_cache_value_round_trips(lineage: Seq<char>, state: Seq<u8>)
    requires
        encode_utf8(lineage).len() < 0x1_0000_0000,
    ensures
        cache_parts(cache_value(lineage, state)) == Some((lineage, state)),
{
    let bytes = cache_value(lineage, state);
    let text = encode_utf8(lineage);
    lemma_pow256_values();
    lemma_be_round_trip(text.len() as int, 4);
    assert(bytes.subrange(0, 4) =~= be_bytes(text.len() as int, 4));
    assert(bytes.subrange(4, 4 + text.len() as int) =~= text);
    assert(bytes.subrange(4 + text.len() as int, bytes.len() as int) =~= state);
    vstd::utf8::encode_utf8_valid_utf8(lineage);
    vstd::utf8::encode_utf8_decode_utf8(lineage);
}

/// The bytes of a cached state.
pub fn encode_cache_value(lineage: &str, state: &[u8]) -> (r: Vec<u8>)
    ensures
        r@ == cache_value(lineage@, state@),
{
    let mut out: Vec<u8> = Vec::new();
    push_be(&mut out, lineage.as_bytes().len() as u64, 4);
    push_text(&mut out, lineage);
    push_bytes(&mut out, state);
    assert(out@ =~= cache_value(lineage@, state@));
    out
}

/// The lineage and the state that some bytes hold; `None` if they are malformed.
pub fn decode_cache_value(bytes: &[u8]) -> (r: Option<(String, Vec<u8>)>)
    ensures
        match r {
            Some((lineage, state)) => cache_parts(bytes@) == Some((lineage@, state@)),
            None => cache_parts(bytes@) is None,
        },
{
    let n: usize = bytes.len();
    if n < 4 {
        return None;
    }
    proof {
        lemma_be_value_round_trip(bytes@.subrange(0, 4));
        lemma_pow256_values();
    }
    let len: u64 = read_be(bytes, 0, 4);
    if len > (n - 4) as u64 {
        return None;
    }
    let split: usize = 4 + len as usize;
    match text_of(slice_of(bytes, 4, split)) {
        Some(lineage) => Some((lineage, slice_of(bytes, split, n))),
        None => None,
    }
}

/// What is served of a cached state to a reader with a lineage: the state if it was derived from that
/// lineage, nothing if it is absent, stale or malformed.
pub open spec fn served(stored: Option<Seq<u8>>, current: Seq<char>) -> Option<Seq<u8>> {
    match stored {
        None => None,
        Some(bytes) => match cache_parts(bytes) {
            Some((lineage, state)) if lineage == current => Some(state),
            _ => None,
        },
    }
}

/// Serves a cached state to a reader with a lineage. An entry that was derived from another lineage is
/// stale and not served.
pub fn get_indicator_state(stored: Option<&[u8]>, current_lineage: &str) -> (r: Option<Vec<u8>>)
    ensures
        match stored {
            None => r is None,
            Some(bytes) => match r {
                Some(state) => served(Some(bytes@), current_lineage@) == Some(state@),
                None => served(Some(bytes@), current_lineage@) is None,
            },
        },
{
    match stored {
        Some(bytes) => match decode_cache_value(bytes) {
            Some((lineage, state)) => {
                if text_equal(lineage.as_str(), current_lineage) {
                    Some(state)
                } else {
                    None
                }
            },
            None => None,
        },
        None => None,
    }
}

/// What was cached for a lineage is served to readers with that lineage, byte by byte, and to no one
/// else.
pub proof fn law_cache_serves_only_its_lineage(
    lineage: Seq<char>,
    state: Seq<u8>,
    current: Seq<char>,
)
    requires
        encode_utf8(lineage).len() < 0x1_0000_0000,
    ensures
        served(Some(cache_value(lineage, state)), current) == (if lineage == current {
            Some(state)
        } else {
            None::<Seq<u8>>
        }),
{
    law_cache_value_round_trips(lineage, state);
}

/// The positions of the first `n` entries that a reader with a lineage would not be served.
pub open spec fn stale_positions(
    entries: Seq<(Vec<u8>, Vec<u8>)>,
    current: Seq<char>,
    n: nat,
) -> Seq<int>
    decreases n,
{
    if n == 0 {
        Seq::empty()
    } else {
        let before = stale_positions(entries, current, (n - 1) as nat);
        if served(Some(entries[n - 1].1@), current) is None {
            before.push(n - 1)
        } else {
            before
        }
    }
}

/// The keys of the entries to evict: those that a reader with the current lineage would not be served.
pub fn stale_keys(entries: &[(Vec<u8>, Vec<u8>)], current_lineage: &str) -> (r: Vec<Vec<u8>>)
    ensures
        r.len() == stale_positions(entries@, current_lineage@, entries@.len()).len(),
        forall|i: int|
            0 <= i < r.len() ==> (#[trigger] r[i])@ == entries[stale_positions(
                entries@,
                current_lineage@,
                entries@.len(),
            )[i]].0@,
{
    let mut out: Vec<Vec<u8>> = Vec::new();
    let mut i: usize = 0;
    while i < entries.len()
        invariant
            i <= entries.len(),
            out.len() == stale_positions(entries@, current_lineage@, i as nat).len(),
            forall|j: int|
                0 <= j < out.len() ==> (#[trigger] out[j])@ == entries[stale_positions(
                    entries@,
                    current_lineage@,
                    i as nat,
                )[j]].0@,
        decreases entries.len() - i,
    {
        if get_indicator_state(Some(entries[i].1.as_slice()), current_lineage).is_none() {
            let key: Vec<u8> = slice_of(entries[i].0.as_slice(), 0, entries[i].0.len());
            assert(key@ =~= entries@[i as int].0@);
            out.push(key);
        }
        i = i + 1;
    }
    out
}

/// Evicting takes exactly the entries that would not be served.
pub proof fn law_eviction_is_exact(
    entries: Seq<(Vec<u8>, Vec<u8>)>,
    current: Seq<char>,
    n: nat,
    i: int,
)
    requires
        n <= entries.len(),
        0 <= i < n,
    ensures
        stale_positions(entries, current, n).contains(i) <==> served(
            Some(entries[i].1@),
            current,
        ) is None,
    decreases n,
{
    let before = stale_positions(entries, current, (n - 1) as nat);
    let all = stale_positions(entries, current, n);
    lemma_stale_bounded(entries, current, (n - 1) as nat);
    if i == n - 1 {
        if served(Some(entries[i].1@), current) is None {
            assert(all[before.len() as int] == i);
        }
    } else {
        law_eviction_is_exact(entries, current, (n - 1) as nat, i);
        if before.contains(i) {
            let k = choose|k: int| 0 <= k < before.len() && before[k] == i;
            assert(all[k] == i);
        }
        if all.contains(i) {
            let k = choose|k: int| 0 <= k < all.len() && all[k] == i;
            assert(before[k] == i);
        }
    }
}

/// The entries to evict are taken in the order in which they stand, each once.
pub proof fn law_stale_entries_keep_their_order(
    entries: Seq<(Vec<u8>, Vec<u8>)>,
    current: Seq<char>,
    n: nat,
)
    requires
        n <= entries.len(),
    ensures
        stale_positions(entries, current, n) == Seq::new(n, |i: int| i).filter(
            |i: int| served(Some(entries[i].1@), current) is None,
        ),
    decreases n,
{
    reveal(Seq::filter);
    let all = Seq::new(n, |i: int| i);
    if n == 0 {
        assert(all =~= Seq::empty());
    } else {
        law_stale_entries_keep_their_order(entries, current, (n - 1) as nat);
        assert(all.drop_last() =~= Seq::new((n - 1) as nat, |i: int| i));
    }
}

proof fn lemma_stale_bounded(entries: Seq<(Vec<u8>, Vec<u8>)>, current: Seq<char>, n: nat)
    ensures
        forall|k: int|
            0 <= k < stale_positions(entries, current, n).len() ==> 0 <= #[trigger] stale_positions(
                entries,
                current,
                n,
            )[k] < n,
    decreases n,
{
    if n > 0 {
        lemma_stale_bounded(entries, current, (n - 1) as nat);
        let before = stale_positions(entries, current, (n - 1) as nat);
        let all = stale_positions(entries, current, n);
        assert forall|k: int| 0 <= k < all.len() implies 0 <= #[trigger] all[k] < n by {
            if k < before.len() {
                assert(all[k] == before[k]);
            }
        }
    }
}

/// Serves a reconstructed bar to a reader with a lineage: only if it was derived from that lineage.
pub fn get_recon_bar(stored: Option<(&str, Bar)>, current_lineage: &str) -> (r: Option<Bar>)
    ensures
        r == (match stored {
            Some((lineage, bar)) if lineage@ == current_lineage@ => Some(bar),
            _ => None,
        }),
{
    match stored {
        Some((lineage, bar)) => {
            if text_equal(lineage, current_lineage) {
                Some(bar)
            } else {
                None
            }
        },
        None => None,
    }
}

} // verus!
