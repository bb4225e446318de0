//! Ordered tables: what is written, what a scan lists, and what is read off a listing.

use vstd::prelude::*;
use vstd::utf8::{decode_utf8, encode_utf8, valid_utf8};

use crate::count::{lemma_no_position, lemma_one_more_position, positions};
use crate::bytes::{bytes_lt, law_bytes_order_is_transitive, slice_of, starts_with, text_of};
use crate::domain::{is_symbol, Bar, InstrumentId, Resolution, Timestamp};
use crate::storage::key::{
    bar_key, bar_key_of, bar_prefix_of, is_time, law_bar_prefixes_isolate, law_keys_sort_by_time,
    law_series_prefixes_isolate, law_time_survives_key, order_bytes, series_key_of,
    series_prefix_of, time_from_key, time_of, DELIM,
};

verus! {

// ---- tables --------------------------------------------------------------------------------------

/// A table after some writes, one after the other.
pub open spec fn written<V>(
    table: Map<Seq<u8>, V>,
    keys: Seq<Seq<u8>>,
    values: Seq<V>,
) -> Map<Seq<u8>, V>
    decreases keys.len(),
{
    if keys.len() == 0 {
        table
    } else {
        written(table, keys.drop_last(), values.drop_last()).insert(keys.last(), values.last())
    }
}

/// Whether `rows` lists the part of a table under a prefix, in ascending order of the keys.
pub open spec fn is_listing<V>(
    table: Map<Seq<u8>, V>,
    prefix: Seq<u8>,
    rows: Seq<(Seq<u8>, V)>,
) -> bool {
    &&& forall|i: int|
        0 <= i < rows.len() ==> table.dom().contains((#[trigger] rows[i]).0) && table[rows[i].0]
            == rows[i].1 && starts_with(rows[i].0, prefix)
    &&& forall|i: int, j: int|
        0 <= i < j < rows.len() ==> bytes_lt((#[trigger] rows[i]).0, (#[trigger] rows[j]).0)
    &&& forall|k: Seq<u8>|
        #[trigger] table.dom().contains(k) && starts_with(k, prefix) ==> exists|i: int|
            0 <= i < rows.len() && (#[trigger] rows[i]).0 == k
}

/// What is read under a key is the last value that was written there.
pub proof fn law_read_returns_last_write<V>(
    table: Map<Seq<u8>, V>,
    keys: Seq<Seq<u8>>,
    values: Seq<V>,
    i: int,
)
    requires
        keys.len() == values.len(),
        0 <= i < keys.len(),
        forall|j: int| i < j < keys.len() ==> #[trigger] keys[j] != keys[i],
    ensures
        written(table, keys, values).dom().contains(keys[i]),
        written(table, keys, values)[keys[i]] == values[i],
    decreases keys.len(),
{
    if i < keys.len() - 1 {
        assert(keys[keys.len() - 1] != keys[i]);
        let k = keys.drop_last();
        assert forall|j: int| i < j < k.len() implies #[trigger] k[j] != k[i] by {
            assert(k[j] == keys[j]);
        }
        law_read_returns_last_write(table, k, values.drop_last(), i);
    }
}

/// Writing leaves every other key as it was.
pub proof fn law_write_leaves_other_keys<V>(
    table: Map<Seq<u8>, V>,
    keys: Seq<Seq<u8>>,
    values: Seq<V>,
    k: Seq<u8>,
)
    requires
        !keys.contains(k),
    ensures
        written(table, keys, values).dom().contains(k) == table.dom().contains(k),
        table.dom().contains(k) ==> written(table, keys, values)[k] == table[k],
    decreases keys.len(),
{
    if keys.len() > 0 {
        assert(keys[keys.len() - 1] != k);
        assert forall|i: int| 0 <= i < keys.drop_last().len() implies keys.drop_last()[i] != k by {
            assert(keys[i] != k);
        }
        law_write_leaves_other_keys(table, keys.drop_last(), values.drop_last(), k);
    }
}

/// The keys that bars are written under.
pub fn bar_keys(instrument: &InstrumentId, bars: &[Bar]) -> (r: Vec<Vec<u8>>)
    ensures
        r.len() == bars.len(),
        forall|i: int|
            0 <= i < bars.len() ==> (#[trigger] r[i])@ == bar_key_of(
                instrument@,
                bars[i]@.resolution,
                bars[i]@.open_time as int,
            ),
{
    let mut out: Vec<Vec<u8>> = Vec::new();
    let mut i: usize = 0;
    while i < bars.len()
        invariant
            i <= bars.len(),
            out.len() == i,
            forall|j: int|
                0 <= j < i ==> (#[trigger] out[j])@ == bar_key_of(
                    instrument@,
                    bars[j]@.resolution,
                    bars[j]@.open_time as int,
                ),
        decreases bars.len() - i,
    {
        out.push(bar_key(instrument, bars[i].resolution(), bars[i].open_time()));
        i = i + 1;
    }
    out
}

// ---- range scans ---------------------------------------------------------------------------------

/// What a scan over `[from, to)` returns of some rows: it goes through them in order, stops at the
/// first one at or after `to`, and passes over those before `from`.
pub open spec fn scanned<V>(rows: Seq<(Seq<u8>, V)>, from: int, to: int) -> Seq<V>
    decreases rows.len(),
{
    if rows.len() == 0 || time_of(rows[0].0) >= to {
        Seq::empty()
    } else {
        let rest = scanned(rows.drop_first(), from, to);
        if time_of(rows[0].0) >= from {
            seq![rows[0].1] + rest
        } else {
            rest
        }
    }
}

/// The rows of a listing that some read errors come up in: those in front of the first error, and the
/// error.
pub open spec fn readable<T, E>(rows: Seq<Result<(Vec<u8>, T), E>>) -> (
    Seq<(Seq<u8>, T)>,
    Option<E>,
)
    decreases rows.len(),
{
    if rows.len() == 0 {
        (Seq::empty(), None)
    } else {
        match rows[0] {
            Err(e) => (Seq::empty(), Some(e)),
            Ok((k, v)) => {
                let (rest, e) = readable(rows.drop_first());
                (seq![(k@, v)] + rest, e)
            },
        }
    }
}

/// What a scan returns of rows that may fail to be read: an error is met if no row in front of it
/// stops the scan.
pub open spec fn scan_outcome<T, E>(
    rows: Seq<Result<(Vec<u8>, T), E>>,
    from: int,
    to: int,
) -> Result<Seq<T>, E>
    decreases rows.len(),
{
    if rows.len() == 0 {
        Ok(Seq::empty())
    } else {
        match rows[0] {
            Err(e) => Err(e),
            Ok((k, v)) => if time_of(k@) >= to {
                Ok(Seq::empty())
            } else {
                match scan_outcome(rows.drop_first(), from, to) {
                    Err(e) => Err(e),
                    Ok(rest) => Ok(
                        if time_of(k@) >= from {
                            seq![v] + rest
                        } else {
                            rest
                        },
                    ),
                }
            },
        }
    }
}

/// Without a read error, a scan returns what [`scanned`] says.
pub proof fn law_scan_without_errors<T, E>(
    rows: Seq<Result<(Vec<u8>, T), E>>,
    from: int,
    to: int,
)
    requires
        readable(rows).1 is None,
    ensures
        scan_outcome(rows, from, to) == Ok::<Seq<T>, E>(scanned(readable(rows).0, from, to)),
    decreases rows.len(),
{
    if rows.len() > 0 {
        law_scan_without_errors(rows.drop_first(), from, to);
        let all = readable(rows).0;
        assert(all.drop_first() =~= readable(rows.drop_first()).0);
    }
}

/// Whether the keys of some rows are one prefix with ascending times behind it.
pub open spec fn is_series<V>(rows: Seq<(Seq<u8>, V)>, prefix: Seq<u8>) -> bool {
    &&& forall|i: int|
        0 <= i < rows.len() ==> is_time(time_of((#[trigger] rows[i]).0)) && rows[i].0 == prefix
            + order_bytes(time_of(rows[i].0))
    &&& forall|i: int, j: int|
        0 <= i < j < rows.len() ==> bytes_lt((#[trigger] rows[i]).0, (#[trigger] rows[j]).0)
}

/// The rows of a series are in ascending order of their times.
pub proof fn law_series_is_chronological<V>(
    rows: Seq<(Seq<u8>, V)>,
    prefix: Seq<u8>,
    i: int,
    j: int,
)
    requires
        is_series(rows, prefix),
        0 <= i < j < rows.len(),
    ensures
        time_of(rows[i].0) < time_of(rows[j].0),
{
    law_keys_sort_by_time(prefix, time_of(rows[i].0), time_of(rows[j].0));
}

/// The values of the rows in a range of times.
pub open spec fn in_range<V>(rows: Seq<(Seq<u8>, V)>, from: int, to: int) -> Seq<V>
    decreases rows.len(),
{
    if rows.len() == 0 {
        Seq::empty()
    } else {
        let rest = in_range(rows.drop_first(), from, to);
        if from <= time_of(rows[0].0) < to {
            seq![rows[0].1] + rest
        } else {
            rest
        }
    }
}

/// Of a series, a scan returns every row in `[from, to)`, in chronological order, and no other.
pub proof fn law_scan_is_the_range<V>(
    rows: Seq<(Seq<u8>, V)>,
    prefix: Seq<u8>,
    from: int,
    to: int,
)
    requires
        is_series(rows, prefix),
    ensures
        scanned(rows, from, to) == in_range(rows, from, to),
    decreases rows.len(),
{
    if rows.len() > 0 {
        let rest = rows.drop_first();
        assert(is_series(rest, prefix)) by {
            assert forall|i: int| 0 <= i < rest.len() implies is_time(
                time_of((#[trigger] rest[i]).0),
            ) && rest[i].0 == prefix + order_bytes(time_of(rest[i].0)) by {
                assert(rest[i] == rows[i + 1]);
            }
            assert forall|i: int, j: int| 0 <= i < j < rest.len() implies bytes_lt(
                (#[trigger] rest[i]).0,
                (#[trigger] rest[j]).0,
            ) by {
                assert(rest[i] == rows[i + 1] && rest[j] == rows[j + 1]);
            }
        }
        if time_of(rows[0].0) >= to {
            assert forall|i: int| 0 <= i < rest.len() implies time_of((#[trigger] rest[i]).0)
                >= to by {
                law_series_is_chronological(rows, prefix, 0, i + 1);
            }
            lemma_nothing_in_range(rest, from, to);
        } else {
            law_scan_is_the_range(rest, prefix, from, to);
        }
    }
}

proof fn lemma_nothing_in_range<V>(rows: Seq<(Seq<u8>, V)>, from: int, to: int)
    requires
        forall|i: int| 0 <= i < rows.len() ==> time_of((#[trigger] rows[i]).0) >= to,
    ensures
        in_range(rows, from, to) == Seq::<V>::empty(),
    decreases rows.len(),
{
    if rows.len() > 0 {
        let rest = rows.drop_first();
        assert forall|i: int| 0 <= i < rest.len() implies time_of((#[trigger] rest[i]).0) >= to by {
            assert(rest[i] == rows[i + 1]);
        }
        lemma_nothing_in_range(rest, from, to);
    }
}

/// A value is among those in a range if its row is.
proof fn lemma_in_range_contains<V>(rows: Seq<(Seq<u8>, V)>, from: int, to: int, i: int)
    requires
        0 <= i < rows.len(),
        from <= time_of(rows[i].0) < to,
    ensures
        in_range(rows, from, to).contains(rows[i].1),
    decreases rows.len(),
{
    let rest = in_range(rows.drop_first(), from, to);
    let all = in_range(rows, from, to);
    if i == 0 {
        assert(all[0] == rows[0].1);
    } else {
        lemma_in_range_contains(rows.drop_first(), from, to, i - 1);
        let k = choose|k: int| 0 <= k < rest.len() && rest[k] == rows[i].1;
        if from <= time_of(rows[0].0) < to {
            assert(all[k + 1] == rest[k]);
        }
    }
}

/// Whether every row of a table is a bar under its key.
pub open spec fn holds_bars<V>(table: Map<Seq<u8>, V>) -> bool {
    forall|k: Seq<u8>|
        #[trigger] table.dom().contains(k) ==> exists|s: Seq<char>, r: Resolution, t: int|
            is_symbol(s) && is_time(t) && k == #[trigger] bar_key_of(s, r, t)
}

/// Writing bars of an instrument under their keys leaves a bar table one.
pub proof fn law_written_bars_keep_a_bar_table<V>(
    table: Map<Seq<u8>, V>,
    symbol: Seq<char>,
    bars: Seq<Bar>,
    keys: Seq<Seq<u8>>,
    values: Seq<V>,
)
    requires
        holds_bars(table),
        is_symbol(symbol),
        keys.len() == bars.len(),
        forall|i: int|
            0 <= i < keys.len() ==> #[trigger] keys[i] == bar_key_of(
                symbol,
                bars[i]@.resolution,
                bars[i]@.open_time as int,
            ),
    ensures
        holds_bars(written(table, keys, values)),
    decreases keys.len(),
{
    if keys.len() > 0 {
        let n = keys.len() - 1;
        let k = keys.drop_last();
        let b = bars.drop_last();
        assert forall|i: int| 0 <= i < k.len() implies #[trigger] k[i] == bar_key_of(
            symbol,
            b[i]@.resolution,
            b[i]@.open_time as int,
        ) by {
            assert(k[i] == keys[i] && b[i] == bars[i]);
        }
        law_written_bars_keep_a_bar_table(table, symbol, b, k, values.drop_last());
        assert(keys[n] == bar_key_of(symbol, bars[n]@.resolution, bars[n]@.open_time as int));
    }
}

/// A scan over the listing of a bar table returns every bar of that instrument and resolution whose
/// time is in `[from, to)`: what was written is read back.
pub proof fn law_scan_finds_every_bar<V>(
    table: Map<Seq<u8>, V>,
    symbol: Seq<char>,
    resolution: Resolution,
    rows: Seq<(Seq<u8>, V)>,
    from: int,
    to: int,
    t: int,
)
    requires
        holds_bars(table),
        is_symbol(symbol),
        is_listing(table, bar_prefix_of(symbol, resolution), rows),
        is_time(t),
        from <= t < to,
        table.dom().contains(bar_key_of(symbol, resolution, t)),
    ensures
        is_series(rows, bar_prefix_of(symbol, resolution)),
        scanned(rows, from, to) == in_range(rows, from, to),
        scanned(rows, from, to).contains(table[bar_key_of(symbol, resolution, t)]),
{
    let prefix = bar_prefix_of(symbol, resolution);
    lemma_bar_listing_is_series(table, symbol, resolution, rows);
    law_scan_is_the_range(rows, prefix, from, to);
    let k = bar_key_of(symbol, resolution, t);
    law_bar_prefixes_isolate(symbol, resolution, t, symbol, resolution);
    let i = choose|i: int| 0 <= i < rows.len() && (#[trigger] rows[i]).0 == k;
    law_time_survives_key(prefix, t);
    lemma_in_range_contains(rows, from, to, i);
}

/// The listing of an instrument's bars is a series.
pub proof fn lemma_bar_listing_is_series<V>(
    table: Map<Seq<u8>, V>,
    symbol: Seq<char>,
    resolution: Resolution,
    rows: Seq<(Seq<u8>, V)>,
)
    requires
        holds_bars(table),
        is_symbol(symbol),
        is_listing(table, bar_prefix_of(symbol, resolution), rows),
    ensures
        is_series(rows, bar_prefix_of(symbol, resolution)),
{
    let prefix = bar_prefix_of(symbol, resolution);
    assert forall|i: int| 0 <= i < rows.len() implies is_time(time_of((#[trigger] rows[i]).0))
        && rows[i].0 == prefix + order_bytes(time_of(rows[i].0)) by {
        let k = rows[i].0;
        assert(table.dom().contains(k));
        let (s, r, t) = choose|s: Seq<char>, r: Resolution, t: int|
            is_symbol(s) && is_time(t) && k == #[trigger] bar_key_of(s, r, t);
        law_bar_prefixes_isolate(s, r, t, symbol, resolution);
        law_time_survives_key(prefix, t);
    }
}

/// The number of leading rows before an instant.
spec fn leading<V>(rows: Seq<(Seq<u8>, V)>, t: int) -> int
    decreases rows.len(),
{
    if rows.len() == 0 || time_of(rows[0].0) >= t {
        0
    } else {
        1 + leading(rows.drop_first(), t)
    }
}

/// Of a series, a scan returns a run of neighbouring rows, in their order: all those from the first instant
/// on and before the last, and no other.
pub proof fn law_scan_is_a_run_of_rows<V>(
    rows: Seq<(Seq<u8>, V)>,
    prefix: Seq<u8>,
    from: int,
    to: int,
)
    requires
        is_series(rows, prefix),
    ensures
        exists|a: int, b: int|
            0 <= a <= b <= rows.len() && scanned(rows, from, to) == (#[trigger] rows.subrange(
                a,
                b,
            )).map_values(|row: (Seq<u8>, V)| row.1) && forall|i: int|
                0 <= i < rows.len() ==> (a <= i < b <==> from <= time_of((#[trigger] rows[i]).0)
                    && time_of(rows[i].0) < to),
{
    let b = leading(rows, to);
    let a = if leading(rows, from) <= b {
        leading(rows, from)
    } else {
        b
    };
    lemma_leading(rows, prefix, from);
    lemma_leading(rows, prefix, to);
    lemma_scan_from_leading(rows, prefix, from, to);
    let run = rows.subrange(a, b);
    assert(scanned(rows, from, to) =~= run.map_values(|row: (Seq<u8>, V)| row.1));
}

proof fn lemma_rest_is_series<V>(rows: Seq<(Seq<u8>, V)>, prefix: Seq<u8>)
    requires
        is_series(rows, prefix),
        rows.len() > 0,
    ensures
        is_series(rows.drop_first(), prefix),
{
    let rest = rows.drop_first();
    assert forall|i: int| 0 <= i < rest.len() implies is_time(time_of((#[trigger] rest[i]).0))
        && rest[i].0 == prefix + order_bytes(time_of(rest[i].0)) by {
        assert(rest[i] == rows[i + 1]);
    }
    assert forall|i: int, j: int| 0 <= i < j < rest.len() implies bytes_lt(
        (#[trigger] rest[i]).0,
        (#[trigger] rest[j]).0,
    ) by {
        assert(rest[i] == rows[i + 1] && rest[j] == rows[j + 1]);
    }
}

proof fn lemma_leading<V>(rows: Seq<(Seq<u8>, V)>, prefix: Seq<u8>, t: int)
    requires
        is_series(rows, prefix),
    ensures
        0 <= leading(rows, t) <= rows.len(),
        forall|i: int|
            0 <= i < rows.len() ==> (time_of((#[trigger] rows[i]).0) < t <==> i < leading(rows, t)),
    decreases rows.len(),
{
    if rows.len() > 0 {
        let rest = rows.drop_first();
        lemma_rest_is_series(rows, prefix);
        lemma_leading(rest, prefix, t);
        assert forall|i: int| 0 <= i < rows.len() implies (time_of((#[trigger] rows[i]).0) < t
            <==> i < leading(rows, t)) by {
            if i > 0 {
                assert(rows[i] == rest[i - 1]);
                law_series_is_chronological(rows, prefix, 0, i);
            }
        }
    }
}

proof fn lemma_scan_from_leading<V>(
    rows: Seq<(Seq<u8>, V)>,
    prefix: Seq<u8>,
    from: int,
    to: int,
)
    requires
        is_series(rows, prefix),
    ensures
        ({
            let b = leading(rows, to);
            let a = if leading(rows, from) <= b {
                leading(rows, from)
            } else {
                b
            };
            scanned(rows, from, to) == Seq::new((b - a) as nat, |k: int| rows[a + k].1)
        }),
    decreases rows.len(),
{
    let b = leading(rows, to);
    let a = if leading(rows, from) <= b {
        leading(rows, from)
    } else {
        b
    };
    lemma_leading(rows, prefix, from);
    lemma_leading(rows, prefix, to);
    if rows.len() > 0 && time_of(rows[0].0) < to {
        let rest = rows.drop_first();
        lemma_rest_is_series(rows, prefix);
        lemma_scan_from_leading(rest, prefix, from, to);
        lemma_leading(rest, prefix, from);
        if time_of(rows[0].0) >= from && rest.len() > 0 {
            law_series_is_chronological(rows, prefix, 0, 1);
            assert(rest[0] == rows[1]);
        }
        assert(forall|i: int| 0 <= i < rest.len() ==> rest[i] == rows[i + 1]);
    }
    assert(scanned(rows, from, to) =~= Seq::new((b - a) as nat, |k: int| rows[a + k].1));
}

/// A scan fails exactly if it meets a row that cannot be read before one at or after its end: what lies
/// behind its end cannot fail it.
pub proof fn law_scan_meets_errors_before_its_end<T, E>(
    rows: Seq<Result<(Vec<u8>, T), E>>,
    from: int,
    to: int,
    i: int,
)
    requires
        0 <= i < rows.len(),
        forall|j: int|
            0 <= j < i ==> (#[trigger] rows[j]) is Ok && time_of(rows[j]->Ok_0.0@) < to,
    ensures
        rows[i] matches Err(e) ==> scan_outcome(rows, from, to) == Err::<Seq<T>, E>(e),
        rows[i] is Ok && time_of(rows[i]->Ok_0.0@) >= to ==> scan_outcome(rows, from, to) is Ok,
    decreases i,
{
    if i > 0 {
        let rest = rows.drop_first();
        assert(rows[0] is Ok && time_of(rows[0]->Ok_0.0@) < to);
        assert forall|j: int| 0 <= j < i - 1 implies (#[trigger] rest[j]) is Ok && time_of(
            rest[j]->Ok_0.0@,
        ) < to by {
            assert(rest[j] == rows[j + 1]);
        }
        law_scan_meets_errors_before_its_end(rest, from, to, i - 1);
        assert(rest[i - 1] == rows[i]);
    }
}

/// Whether every row of a table is a sample of some instrument's series under its key.
pub open spec fn holds_samples<V>(table: Map<Seq<u8>, V>) -> bool {
    forall|k: Seq<u8>|
        #[trigger] table.dom().contains(k) ==> exists|s: Seq<char>, t: int|
            is_symbol(s) && is_time(t) && k == #[trigger] series_key_of(s, t)
}

/// A scan over the listing of a table of samples returns every sample of that instrument whose time is
/// in `[from, to)`: what was written is read back.
pub proof fn law_scan_finds_every_sample<V>(
    table: Map<Seq<u8>, V>,
    symbol: Seq<char>,
    rows: Seq<(Seq<u8>, V)>,
    from: int,
    to: int,
    t: int,
)
    requires
        holds_samples(table),
        is_symbol(symbol),
        is_listing(table, series_prefix_of(symbol), rows),
        is_time(t),
        from <= t < to,
        table.dom().contains(series_key_of(symbol, t)),
    ensures
        is_series(rows, series_prefix_of(symbol)),
        scanned(rows, from, to) == in_range(rows, from, to),
        scanned(rows, from, to).contains(table[series_key_of(symbol, t)]),
{
    let prefix = series_prefix_of(symbol);
    assert forall|i: int| 0 <= i < rows.len() implies is_time(time_of((#[trigger] rows[i]).0))
        && rows[i].0 == prefix + order_bytes(time_of(rows[i].0)) by {
        let k = rows[i].0;
        assert(table.dom().contains(k));
        let (s, u) = choose|s: Seq<char>, u: int|
            is_symbol(s) && is_time(u) && k == #[trigger] series_key_of(s, u);
        law_series_prefixes_isolate(s, order_bytes(u), symbol);
        law_time_survives_key(prefix, u);
    }
    law_scan_is_the_range(rows, prefix, from, to);
    let k = series_key_of(symbol, t);
    law_series_prefixes_isolate(symbol, order_bytes(t), symbol);
    let i = choose|i: int| 0 <= i < rows.len() && (#[trigger] rows[i]).0 == k;
    law_time_survives_key(prefix, t);
    lemma_in_range_contains(rows, from, to, i);
}

/// Scans rows over `[from, to)`. The rows are those under one prefix, in ascending order of their
/// keys; reading one of them may have failed.
pub fn scan_series<T, E>(
    rows: Vec<Result<(Vec<u8>, T), E>>,
    from: Timestamp,
    to: Timestamp,
) -> (r: Result<Vec<T>, E>)
    requires
        forall|i: int|
            0 <= i < rows.len() ==> (#[trigger] rows[i] matches Ok(row) ==> row.0@.len() >= 8),
    ensures
        match r {
            Ok(out) => scan_outcome(rows@, from.ms as int, to.ms as int) == Ok::<Seq<T>, E>(out@),
            Err(e) => scan_outcome(rows@, from.ms as int, to.ms as int) == Err::<Seq<T>, E>(e),
        },
{
    let ghost all = rows@;
    let ghost lo = from.ms as int;
    let ghost hi = to.ms as int;
    let mut queue: Vec<Result<(Vec<u8>, T), E>> = rows;
    // Turned round, so that taking from the end takes the rows in order.
    let mut turned: Vec<Result<(Vec<u8>, T), E>> = Vec::new();
    while queue.len() > 0
        invariant
            queue.len() + turned.len() == all.len(),
            queue@ =~= all.take(queue.len() as int),
            turned@ =~= all.skip(queue.len() as int).reverse(),
        decreases queue.len(),
    {
        if let Some(row) = queue.pop() {
            turned.push(row);
        }
    }
    let mut out: Vec<T> = Vec::new();
    assert(turned@ =~= all.reverse());
    assert(all.skip(0) =~= all);
    let ghost mut n: int = 0;
    while turned.len() > 0
        invariant
            0 <= n <= all.len(),
            all == rows@,
            turned.len() == all.len() - n,
            turned@ =~= all.skip(n).reverse(),
            lo == from.ms,
            hi == to.ms,
            forall|i: int|
                0 <= i < all.len() ==> (#[trigger] all[i] matches Ok(row) ==> row.0@.len() >= 8),
            scan_outcome(all, lo, hi) == (match scan_outcome(all.skip(n), lo, hi) {
                Ok(rest) => Ok::<Seq<T>, E>(out@ + rest),
                Err(e) => Err::<Seq<T>, E>(e),
            }),
        decreases turned.len(),
    {
        let ghost here = all.skip(n);
        assert(turned@.last() == here[0]);
        assert(here[0] == all[n]);
        assert(here.drop_first() =~= all.skip(n + 1));
        if let Some(row) = turned.pop() {
            match row {
                Err(e) => {
                    return Err(e);
                },
                Ok((k, v)) => {
                    let t: i64 = time_from_key(k.as_slice()).millis();
                    if t >= to.millis() {
                        assert(out@ + Seq::<T>::empty() =~= out@);
                        return Ok(out);
                    }
                    let ghost before = out@;
                    if t >= from.millis() {
                        out.push(v);
                        proof {
                            if let Ok(rest) = scan_outcome(here.drop_first(), lo, hi) {
                                assert(before + (seq![v] + rest) =~= out@ + rest);
                            }
                        }
                    }
                },
            }
        }
        proof {
            n = n + 1;
        }
    }
    assert(all.skip(n) =~= Seq::empty());
    assert(out@ + Seq::<T>::empty() =~= out@);
    Ok(out)
}

// ---- key-only queries ----------------------------------------------------------------------------

/// The earliest and the latest open time of the bars listed, and their number. The keys are those
/// under one prefix in ascending order.
pub fn coverage_bounds(keys: &[Vec<u8>]) -> (r: Option<(Timestamp, Timestamp, usize)>)
    requires
        forall|i: int| 0 <= i < keys.len() ==> (#[trigger] keys[i])@.len() >= 8,
    ensures
        match r {
            None => keys.len() == 0,
            Some((first, last, count)) => {
                &&& keys.len() > 0
                &&& first.ms == time_of(keys[0]@)
                &&& last.ms == time_of(keys[keys.len() - 1]@)
                &&& count == keys.len()
            },
        },
{
    if keys.len() == 0 {
        None
    } else {
        Some(
            (
                time_from_key(keys[0].as_slice()),
                time_from_key(keys[keys.len() - 1].as_slice()),
                keys.len(),
            ),
        )
    }
}

/// How many of the first `n` keys have a time in `[from, to]`.
pub open spec fn count_between(keys: Seq<Vec<u8>>, n: nat, from: int, to: int) -> int
    decreases n,
{
    if n == 0 {
        0
    } else {
        count_between(keys, (n - 1) as nat, from, to) + (if from <= time_of(keys[n - 1]@) <= to {
            1int
        } else {
            0
        })
    }
}

/// The bars counted are those with an open time from the first instant to the last, both included.
pub proof fn law_count_between_counts_keys(keys: Seq<Vec<u8>>, n: nat, from: int, to: int)
    requires
        n <= keys.len(),
    ensures
        count_between(keys, n, from, to) == Set::new(
            |i: int| 0 <= i < n && from <= time_of(keys[i]@) && time_of(keys[i]@) <= to,
        ).len(),
    decreases n,
{
    let p = |i: int| from <= time_of(keys[i]@) && time_of(keys[i]@) <= to;
    assert(Set::new(|i: int| 0 <= i < n && from <= time_of(keys[i]@) && time_of(keys[i]@) <= to)
        =~= positions(n as int, p));
    if n == 0 {
        lemma_no_position(p);
    } else {
        law_count_between_counts_keys(keys, (n - 1) as nat, from, to);
        assert(Set::new(
            |i: int| 0 <= i < n - 1 && from <= time_of(keys[i]@) && time_of(keys[i]@) <= to,
        ) =~= positions(n - 1, p));
        lemma_one_more_position(n as int, p);
    }
}

/// How many of the bars listed have an open time in `[from, to]`, both ends included.
pub fn count_bars_in_range(keys: &[Vec<u8>], from: Timestamp, to: Timestamp) -> (r: usize)
    requires
        forall|i: int| 0 <= i < keys.len() ==> (#[trigger] keys[i])@.len() >= 8,
    ensures
        r == count_between(keys@, keys@.len(), from.ms as int, to.ms as int),
        r <= keys.len(),
{
    let mut count: usize = 0;
    let mut i: usize = 0;
    while i < keys.len()
        invariant
            i <= keys.len(),
            forall|j: int| 0 <= j < keys.len() ==> (#[trigger] keys[j])@.len() >= 8,
            count <= i,
            count == count_between(keys@, i as nat, from.ms as int, to.ms as int),
        decreases keys.len() - i,
    {
        let t: i64 = time_from_key(keys[i].as_slice()).millis();
        if t >= from.millis() && t <= to.millis() {
            count = count + 1;
        }
        i = i + 1;
    }
    count
}

// ---- the instruments that have bars --------------------------------------------------------------

/// The bytes of a key in front of its first zero byte, or all of them.
pub open spec fn symbol_bytes(key: Seq<u8>) -> Seq<u8>
    decreases key.len(),
{
    if key.len() == 0 || key[0] == DELIM {
        Seq::empty()
    } else {
        seq![key[0]] + symbol_bytes(key.drop_first())
    }
}

/// The symbol of a key, if it is a valid one.
pub open spec fn symbol_of(key: Seq<u8>) -> Option<Seq<char>> {
    let bytes = symbol_bytes(key);
    if valid_utf8(bytes) && is_symbol(decode_utf8(bytes)) {
        Some(decode_utf8(bytes))
    } else {
        None
    }
}

/// The symbols of the first `n` keys, each left out where it is the one before.
pub open spec fn symbols_of(keys: Seq<Vec<u8>>, n: nat) -> Seq<Seq<char>>
    decreases n,
{
    if n == 0 {
        Seq::empty()
    } else {
        let before = symbols_of(keys, (n - 1) as nat);
        match symbol_of(keys[n - 1]@) {
            None => before,
            Some(s) => if before.len() > 0 && before.last() == s {
                before
            } else {
                before.push(s)
            },
        }
    }
}

/// The symbol of a bar's key is the instrument's.
pub proof fn law_symbol_survives_key(symbol: Seq<char>, rest: Seq<u8>)
    requires
        is_symbol(symbol),
    ensures
        symbol_of(series_prefix_of(symbol) + rest) == Some(symbol),
{
    crate::storage::key::lemma_symbol_bytes(symbol);
    let bytes = encode_utf8(symbol);
    lemma_symbol_bytes_stop(bytes, rest);
    assert(series_prefix_of(symbol) + rest =~= bytes + (seq![DELIM] + rest));
    vstd::utf8::encode_utf8_valid_utf8(symbol);
    vstd::utf8::encode_utf8_decode_utf8(symbol);
}

proof fn lemma_symbol_bytes_stop(bytes: Seq<u8>, rest: Seq<u8>)
    requires
        forall|i: int| 0 <= i < bytes.len() ==> #[trigger] bytes[i] != DELIM,
    ensures
        symbol_bytes(bytes + (seq![DELIM] + rest)) == bytes,
    decreases bytes.len(),
{
    let key = bytes + (seq![DELIM] + rest);
    if bytes.len() == 0 {
        assert(key[0] == DELIM);
        assert(symbol_bytes(key) =~= bytes);
    } else {
        let tail = bytes.drop_first();
        assert forall|i: int| 0 <= i < tail.len() implies #[trigger] tail[i] != DELIM by {
            assert(tail[i] == bytes[i + 1]);
        }
        lemma_symbol_bytes_stop(tail, rest);
        assert(key.drop_first() =~= tail + (seq![DELIM] + rest));
        assert(key[0] == bytes[0]);
        assert(symbol_bytes(key) =~= bytes);
    }
}

/// Symbols are ordered as the keys that start with them.
proof fn lemma_symbols_follow_keys(x: Seq<u8>, xs: Seq<u8>, y: Seq<u8>, ys: Seq<u8>)
    requires
        forall|i: int| 0 <= i < x.len() ==> #[trigger] x[i] != DELIM,
        forall|i: int| 0 <= i < y.len() ==> #[trigger] y[i] != DELIM,
        bytes_lt(x + (seq![DELIM] + xs), y + (seq![DELIM] + ys)),
        x != y,
    ensures
        bytes_lt(x, y),
    decreases x.len(),
{
    let a = x + (seq![DELIM] + xs);
    let b = y + (seq![DELIM] + ys);
    if x.len() == 0 {
        if y.len() == 0 {
            assert(x =~= y);
        }
    } else {
        assert(a[0] == x[0]);
        if y.len() == 0 {
            assert(b[0] == DELIM);
        } else {
            assert(b[0] == y[0]);
            if x[0] == y[0] {
                assert(a.drop_first() =~= x.drop_first() + (seq![DELIM] + xs));
                assert(b.drop_first() =~= y.drop_first() + (seq![DELIM] + ys));
                if x.drop_first() == y.drop_first() {
                    assert(x =~= seq![x[0]] + x.drop_first());
                    assert(y =~= seq![y[0]] + y.drop_first());
                }
                assert forall|i: int| 0 <= i < x.drop_first().len() implies
                    #[trigger] x.drop_first()[i] != DELIM by {
                    assert(x.drop_first()[i] == x[i + 1]);
                }
                assert forall|i: int| 0 <= i < y.drop_first().len() implies
                    #[trigger] y.drop_first()[i] != DELIM by {
                    assert(y.drop_first()[i] == y[i + 1]);
                }
                lemma_symbols_follow_keys(x.drop_first(), xs, y.drop_first(), ys);
            }
        }
    }
}

/// Whether a key is that of some instrument's row.
pub open spec fn is_row_key(key: Seq<u8>) -> bool {
    exists|s: Seq<char>, rest: Seq<u8>|
        is_symbol(s) && key == #[trigger] (series_prefix_of(s) + rest)
}

/// Of row keys in ascending order, every instrument is listed, in ascending order and once only.
pub proof fn law_instruments_are_listed_once(keys: Seq<Vec<u8>>, n: nat)
    requires
        n <= keys.len(),
        forall|i: int| 0 <= i < n ==> is_row_key((#[trigger] keys[i])@),
        forall|i: int, j: int|
            0 <= i < j < n ==> bytes_lt((#[trigger] keys[i])@, (#[trigger] keys[j])@),
    ensures
        forall|i: int| 0 <= i < n ==> symbols_of(keys, n).contains(symbol_of((#[trigger] keys[i])@)->0),
        forall|i: int, j: int|
            0 <= i < j < symbols_of(keys, n).len() ==> bytes_lt(
                encode_utf8(#[trigger] symbols_of(keys, n)[i]),
                encode_utf8(#[trigger] symbols_of(keys, n)[j]),
            ),
        n > 0 ==> symbols_of(keys, n).len() > 0 && symbols_of(keys, n).last() == symbol_of(
            keys[n - 1]@,
        )->0,
    decreases n,
{
    if n > 0 {
        law_instruments_are_listed_once(keys, (n - 1) as nat);
        let before = symbols_of(keys, (n - 1) as nat);
        let all = symbols_of(keys, n);
        assert(is_row_key(keys[n - 1]@));
        let (s, rest) = choose|s: Seq<char>, rest: Seq<u8>|
            is_symbol(s) && keys[n - 1]@ == #[trigger] (series_prefix_of(s) + rest);
        law_symbol_survives_key(s, rest);
        if n > 1 {
            assert(is_row_key(keys[n - 2]@));
            let (p, tail) = choose|p: Seq<char>, tail: Seq<u8>|
                is_symbol(p) && keys[n - 2]@ == #[trigger] (series_prefix_of(p) + tail);
            law_symbol_survives_key(p, tail);
            if p != s {
                crate::storage::key::lemma_symbol_bytes(p);
                crate::storage::key::lemma_symbol_bytes(s);
                if encode_utf8(p) == encode_utf8(s) {
                    vstd::utf8::encode_utf8_decode_utf8(p);
                    vstd::utf8::encode_utf8_decode_utf8(s);
                }
                assert(keys[n - 2]@ =~= encode_utf8(p) + (seq![DELIM] + tail));
                assert(keys[n - 1]@ =~= encode_utf8(s) + (seq![DELIM] + rest));
                lemma_symbols_follow_keys(encode_utf8(p), tail, encode_utf8(s), rest);
                assert forall|i: int, j: int| 0 <= i < j < all.len() implies bytes_lt(
                    encode_utf8(#[trigger] all[i]),
                    encode_utf8(#[trigger] all[j]),
                ) by {
                    if j == before.len() && i < before.len() - 1 {
                        assert(bytes_lt(
                            encode_utf8(before[i]),
                            encode_utf8(before[before.len() - 1]),
                        ));
                        law_bytes_order_is_transitive(
                            encode_utf8(before[i]),
                            encode_utf8(p),
                            encode_utf8(s),
                        );
                    }
                }
            }
        }
        assert forall|i: int| 0 <= i < n implies all.contains(
            symbol_of((#[trigger] keys[i])@)->0,
        ) by {
            if i < n - 1 {
                let k = choose|k: int| 0 <= k < before.len() && before[k] == symbol_of(keys[i]@)->0;
                assert(all[k] == before[k]);
            } else {
                assert(all[all.len() - 1] == s);
            }
        }
    }
}

/// The bytes of a key in front of its first zero byte, or all of them.
fn symbol_part(key: &[u8]) -> (r: Vec<u8>)
    ensures
        r@ == symbol_bytes(key@),
{
    let mut end: usize = 0;
    assert(key@.skip(0) =~= key@);
    assert(key@.take(0) + symbol_bytes(key@) =~= symbol_bytes(key@));
    while end < key.len() && key[end] != DELIM
        invariant
            end <= key.len(),
            symbol_bytes(key@) == key@.take(end as int) + symbol_bytes(key@.skip(end as int)),
        decreases key.len() - end,
    {
        proof {
            let here = key@.skip(end as int);
            assert(here[0] == key@[end as int]);
            assert(here.drop_first() =~= key@.skip(end + 1));
            assert(key@.take(end as int) + (seq![here[0]] + symbol_bytes(key@.skip(end + 1)))
                =~= key@.take(end + 1) + symbol_bytes(key@.skip(end + 1)));
        }
        end = end + 1;
    }
    proof {
        let here = key@.skip(end as int);
        if end < key.len() {
            assert(here[0] == DELIM);
        }
        assert(symbol_bytes(here) =~= Seq::empty());
        assert(key@.take(end as int) + Seq::<u8>::empty() =~= key@.take(end as int));
        assert(key@.subrange(0, end as int) =~= key@.take(end as int));
    }
    slice_of(key, 0, end)
}

/// The names of some instruments.
pub open spec fn names(instruments: Seq<InstrumentId>) -> Seq<Seq<char>> {
    Seq::new(instruments.len(), |i: int| instruments[i]@)
}

/// The instruments that have at least one bar. The keys are those of all bars in ascending order; one
/// whose symbol is not valid is passed over.
pub fn bar_instruments(keys: &[Vec<u8>]) -> (r: Vec<InstrumentId>)
    ensures
        names(r@) == symbols_of(keys@, keys@.len()),
{
    let mut out: Vec<InstrumentId> = Vec::new();
    let mut i: usize = 0;
    assert(names(out@) =~= Seq::empty());
    while i < keys.len()
        invariant
            i <= keys.len(),
            names(out@) == symbols_of(keys@, i as nat),
        decreases keys.len() - i,
    {
        let ghost before = names(out@);
        if let Some(symbol) = text_of(symbol_part(keys[i].as_slice())) {
            if let Ok(instrument) = InstrumentId::new(symbol.as_str()) {
                let repeated: bool = if out.len() == 0 {
                    false
                } else {
                    out[out.len() - 1].same(&instrument)
                };
                if !repeated {
                    out.push(instrument);
                    assert(names(out@) =~= before.push(instrument@));
                }
            }
        }
        i = i + 1;
    }
    out
}

} // verus!
