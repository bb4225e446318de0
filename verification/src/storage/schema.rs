//! The records of a store's `meta` table: its schema version and the ledger of persisted vintages.

use vstd::prelude::*;

use crate::text::{decimal_text, push_number};

verus! {

/// The schema version of the market store.
pub const SCHEMA_VERSION: u32 = 1;

/// The schema version of the synthetic store.
pub const SYNTHETIC_SCHEMA_VERSION: u32 = 1;

/// Why a store's recorded version was refused.
#[derive(Debug, PartialEq, Eq)]
pub enum SchemaError {
    /// Another version is recorded.
    Mismatch {
        /// The version expected.
        expected: u32,
        /// The version found.
        found: u32,
    },
    /// The record is missing or not a number.
    Corrupt(String),
}

/// Whether a character is a decimal digit.
pub open spec fn is_digit(c: char) -> bool {
    '0' <= c <= '9'
}

/// The number that some digits spell.
pub open spec fn digits_value(s: Seq<char>) -> int
    decreases s.len(),
{
    if s.len() == 0 {
        0
    } else {
        digits_value(s.drop_last()) * 10 + (s.last() as int - '0' as int)
    }
}

/// The digits of a number that may be written with a plus sign.
pub open spec fn without_plus(s: Seq<char>) -> Seq<char> {
    if s.len() > 1 && s[0] == '+' {
        s.skip(1)
    } else {
        s
    }
}

/// The 32-bit number that a text spells: digits only, at least one, behind an optional plus sign.
pub open spec fn parsed_u32(s: Seq<char>) -> Option<u32> {
    let d = without_plus(s);
    if d.len() > 0 && (forall|i: int| 0 <= i < d.len() ==> is_digit(#[trigger] d[i]))
        && digits_value(d) <= u32::MAX {
        Some(digits_value(d) as u32)
    } else {
        None
    }
}

proof fn lemma_digits_grow(s: Seq<char>, n: int)
    requires
        0 <= n <= s.len(),
        forall|i: int| 0 <= i < s.len() ==> is_digit(#[trigger] s[i]),
    ensures
        0 <= digits_value(s.take(n)) <= digits_value(s),
    decreases s.len(),
{
    if s.len() > 0 {
        let rest = s.drop_last();
        assert forall|i: int| 0 <= i < rest.len() implies is_digit(#[trigger] rest[i]) by {
            assert(rest[i] == s[i]);
        }
        assert(is_digit(s[s.len() - 1]));
        if n == s.len() {
            assert(s.take(n) =~= s);
            lemma_digits_grow(rest, 0);
        } else {
            assert(rest.take(n) =~= s.take(n));
            lemma_digits_grow(rest, n);
        }
    } else {
        assert(s.take(n) =~= s);
    }
}

/// Computes [`parsed_u32`].
pub fn parse_u32(text: &str) -> (r: Option<u32>)
    ensures
        r == parsed_u32(text@),
{
    let len: usize = text.unicode_len();
    let start: usize = if len > 1 && text.get_char(0) == '+' {
        1
    } else {
        0
    };
    let ghost d = without_plus(text@);
    assert(d =~= text@.skip(start as int));
    if len == 0 {
        return None;
    }
    let mut value: u64 = 0;
    let mut i: usize = start;
    assert(d.take(0) =~= Seq::empty());
    while i < len
        invariant
            start <= i <= len == text@.len(),
            d == text@.skip(start as int),
            d == without_plus(text@),
            d.len() > 0,
            value <= u32::MAX,
            value == digits_value(d.take(i - start)),
            forall|j: int| 0 <= j < i - start ==> is_digit(#[trigger] d[j]),
        decreases len - i,
    {
        let c: char = text.get_char(i);
        let ghost k = i - start;
        assert(d[k] == c);
        if !('0' <= c && c <= '9') {
            assert(!is_digit(d[k]));
            return None;
        }
        assert(d.take(k + 1).drop_last() =~= d.take(k));
        value = value * 10 + (c as u64 - '0' as u64);
        if value > u32::MAX as u64 {
            proof {
                if forall|j: int| 0 <= j < d.len() ==> is_digit(#[trigger] d[j]) {
                    lemma_digits_grow(d, k + 1);
                }
            }
            return None;
        }
        i = i + 1;
    }
    assert(d.take(i - start) =~= d);
    Some(value as u32)
}

/// A number written in decimal is parsed back.
pub proof fn law_parse_reads_back(n: u32)
    ensures
        parsed_u32(decimal_text(n as nat)) == Some(n),
{
    lemma_decimal_text(n as nat);
    let s = decimal_text(n as nat);
    assert(is_digit(s[0]));
}

proof fn lemma_decimal_text(n: nat)
    ensures
        decimal_text(n).len() > 0,
        forall|i: int| 0 <= i < decimal_text(n).len() ==> is_digit(#[trigger] decimal_text(n)[i]),
        digits_value(decimal_text(n)) == n,
    decreases n,
{
    let s = decimal_text(n);
    if n >= 10 {
        lemma_decimal_text(n / 10);
        assert(s.drop_last() =~= decimal_text(n / 10));
    } else {
        assert(s.drop_last() =~= Seq::empty());
        reveal_with_fuel(digits_value, 2);
    }
    assert(s.last() as int == '0' as int + n % 10);
}

/// What opening a store comes to.
#[derive(Debug, PartialEq, Eq)]
pub enum SchemaAction {
    /// The recorded version is the one expected.
    Keep,
    /// Nothing is recorded yet: this is to be recorded.
    Record(String),
}

/// Checks the recorded version of a store. A fresh store, with nothing recorded, gets the expected
/// version; another version and a record that is no number are refused.
pub fn check_or_init_schema(found: Option<&str>, expected: u32) -> (r: Result<
    SchemaAction,
    SchemaError,
>)
    ensures
        match found {
            None => r matches Ok(SchemaAction::Record(text)) && text@ == decimal_text(
                expected as nat,
            ),
            Some(text) => match parsed_u32(text@) {
                None => r matches Err(SchemaError::Corrupt(t)) && t@ == text@,
                Some(v) => if v == expected {
                    r matches Ok(SchemaAction::Keep)
                } else {
                    r == Err::<SchemaAction, SchemaError>(
                        SchemaError::Mismatch { expected, found: v },
                    )
                },
            },
        },
{
    match found {
        Some(text) => match parse_u32(text) {
            Some(v) => {
                if v != expected {
                    return Err(SchemaError::Mismatch { expected, found: v });
                }
                Ok(SchemaAction::Keep)
            },
            None => Err(SchemaError::Corrupt(text.to_owned())),
        },
        None => {
            let mut text: String = String::new();
            push_number(&mut text, expected as u64);
            assert(text@ =~= decimal_text(expected as nat));
            Ok(SchemaAction::Record(text))
        },
    }
}

/// The version recorded in a store.
pub fn read_schema_version(found: Option<&str>) -> (r: Result<u32, SchemaError>)
    ensures
        match found {
            None => r matches Err(SchemaError::Corrupt(t)) && t@ == "missing"@,
            Some(text) => match parsed_u32(text@) {
                None => r matches Err(SchemaError::Corrupt(t)) && t@ == text@,
                Some(v) => r == Ok::<u32, SchemaError>(v),
            },
        },
{
    match found {
        Some(text) => match parse_u32(text) {
            Some(v) => Ok(v),
            None => Err(SchemaError::Corrupt(text.to_owned())),
        },
        None => Err(SchemaError::Corrupt("missing".to_owned())),
    }
}

/// A store that was opened once is opened again by the same version, and refused by every other.
pub proof fn law_reopening_checks_the_version(recorded: u32, expected: u32)
    ensures
        parsed_u32(decimal_text(recorded as nat)) == Some(recorded),
        parsed_u32(decimal_text(recorded as nat)) == Some(expected) <==> recorded == expected,
{
    law_parse_reads_back(recorded);
}

// ---- the ledger of vintages ----------------------------------------------------------------------

/// The prefix of the ledger's keys.
pub open spec fn lineage_prefix() -> Seq<char> {
    "lineage:"@
}

/// The key of a vintage in the ledger.
pub open spec fn lineage_key_of(id: Seq<char>) -> Seq<char> {
    lineage_prefix() + id
}

/// The key of a vintage in the ledger.
pub fn lineage_key(lineage_id: &str) -> (r: String)
    ensures
        r@ == lineage_key_of(lineage_id@),
{
    crate::text::joined("lineage:", lineage_id)
}

/// The key under which a store's version is recorded.
pub open spec fn version_key() -> Seq<char> {
    "schema_version"@
}

/// No vintage is recorded under the key of the version, and different vintages have different keys.
pub proof fn law_ledger_keys_are_apart(a: Seq<char>, b: Seq<char>)
    ensures
        lineage_key_of(a) != version_key(),
        lineage_key_of(a) == lineage_key_of(b) <==> a == b,
{
    reveal_strlit("lineage:");
    reveal_strlit("schema_version");
    let p = lineage_prefix();
    assert(lineage_key_of(a)[0] == 'l');
    assert(version_key()[0] == 's');
    assert(lineage_key_of(a).skip(p.len() as int) =~= a);
    assert(lineage_key_of(b).skip(p.len() as int) =~= b);
}

/// What recording a vintage comes to: whether its key is to be written, which is also whether it was
/// newly recorded.
pub fn record_lineage(existing: Option<&str>) -> (r: bool)
    ensures
        r == (existing is None),
{
    existing.is_none()
}

/// The vintage recorded under a key of the ledger; none for a key of something else.
pub fn lineage_of_key(key: &str) -> (r: Option<String>)
    ensures
        match r {
            Some(id) => key@ == lineage_key_of(id@),
            None => forall|id: Seq<char>| key@ != #[trigger] lineage_key_of(id),
        },
{
    let prefix: &str = "lineage:";
    let n: usize = prefix.unicode_len();
    let len: usize = key.unicode_len();
    if len < n {
        return None;
    }
    let mut i: usize = 0;
    while i < n
        invariant
            i <= n <= len,
            n == prefix@.len(),
            len == key@.len(),
            prefix@ == lineage_prefix(),
            forall|j: int| 0 <= j < i ==> key@[j] == prefix@[j],
        decreases n - i,
    {
        if key.get_char(i) != prefix.get_char(i) {
            assert forall|id: Seq<char>| key@ != #[trigger] lineage_key_of(id) by {
                assert(lineage_key_of(id)[i as int] == prefix@[i as int]);
            }
            return None;
        }
        i = i + 1;
    }
    let mut out: String = String::new();
    while i < len
        invariant
            n <= i <= len == key@.len(),
            out@ =~= key@.subrange(n as int, i as int),
        decreases len - i,
    {
        out.push(key.get_char(i));
        i = i + 1;
    }
    assert(key@ =~= lineage_key_of(out@));
    Some(out)
}

/// Only digits are a number, behind a plus sign or not: an empty text, a sign alone and any other character
/// are refused. A digit more is ten times the number and the digit.
pub proof fn law_only_digits_are_a_number(s: Seq<char>, c: char)
    ensures
        parsed_u32(Seq::<char>::empty()) is None,
        parsed_u32(seq!['+']) is None,
        parsed_u32(s) is Some ==> s.len() > 0 && forall|i: int|
            1 <= i < s.len() ==> '0' <= #[trigger] s[i] <= '9',
        parsed_u32(s) is Some ==> '0' <= s[0] <= '9' || (s[0] == '+' && s.len() > 1),
        parsed_u32(s) is Some && '0' <= c <= '9' ==> parsed_u32(s.push(c)) == (if parsed_u32(s)->0
            * 10 + (c as int - '0' as int) <= u32::MAX {
            Some((parsed_u32(s)->0 * 10 + (c as int - '0' as int)) as u32)
        } else {
            None
        }),
{
    let d = without_plus(s);
    let plus = seq!['+'];
    assert(!is_digit(plus[0]));
    if parsed_u32(s) is Some {
        assert forall|i: int| 1 <= i < s.len() implies '0' <= #[trigger] s[i] <= '9' by {
            if s.len() > 1 && s[0] == '+' {
                assert(is_digit(d[i - 1]));
            } else {
                assert(is_digit(d[i]));
            }
        }
        if !(s.len() > 1 && s[0] == '+') {
            assert(is_digit(d[0]));
        }
        lemma_digits_grow(d, 0);
        assert(digits_value(d.push(c)) == digits_value(d) * 10 + (c as int - '0' as int)) by {
            assert(d.push(c).drop_last() =~= d);
        }
        let more = s.push(c);
        assert(without_plus(more) =~= d.push(c));
        if '0' <= c <= '9' {
            assert forall|i: int| 0 <= i < d.push(c).len() implies is_digit(
                #[trigger] d.push(c)[i],
            ) by {
                if i < d.len() {
                    assert(is_digit(d[i]));
                }
            }
        }
    }
}

} // verus!
