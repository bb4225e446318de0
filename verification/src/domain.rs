//! The values every part of the library speaks of: instants, resolutions, instruments, prices,
//! quantities and bars.

use vstd::prelude::*;

use crate::decimal::{dec_lt, Dec};

verus! {

/// Milliseconds in one minute.
pub const MINUTE_MS: i64 = 60_000;

/// Why a domain value was refused.
#[derive(Debug, Clone, Copy, PartialEq, Eq, Structural)]
pub enum DomainError {
    /// A price below zero.
    NegativePrice,
    /// A quantity below zero.
    NegativeQuantity,
    /// A bar whose open or close lies outside its low-high range.
    InconsistentBar,
    /// An instrument symbol that is empty or holds anything but ASCII letters and digits.
    InvalidInstrument,
    /// An interval that ends before it starts.
    InvalidInterval,
}

/// An instant, in milliseconds since the epoch.
#[derive(Debug, Clone, Copy, PartialEq, Eq, PartialOrd, Ord, Hash, Structural)]
pub struct Timestamp {
    /// Milliseconds since the epoch.
    pub ms: i64,
}

impl Timestamp {
    /// The instant `ms` milliseconds after the epoch.
    pub fn from_millis(ms: i64) -> (t: Timestamp)
        ensures
            t.ms == ms,
    {
        Timestamp { ms }
    }

    /// The instant `secs` seconds after the epoch.
    pub fn from_secs(secs: i64) -> (t: Timestamp)
        requires
            i64::MIN <= secs * 1000 <= i64::MAX,
        ensures
            t.ms == secs * 1000,
    {
        Timestamp { ms: secs * 1000 }
    }

    /// Milliseconds since the epoch.
    pub fn millis(self) -> (ms: i64)
        ensures
            ms == self.ms,
    {
        self.ms
    }
}

/// A half-open span of time, `[start, end)`.
#[derive(Debug, Clone, Copy, PartialEq, Eq, Structural)]
pub struct TimeInterval {
    start: Timestamp,
    end: Timestamp,
}

impl TimeInterval {
    /// The first instant of the span, in milliseconds since the epoch.
    pub closed spec fn start_ms(self) -> int {
        self.start.ms as int
    }

    /// The first instant after the span, in milliseconds since the epoch.
    pub closed spec fn end_ms(self) -> int {
        self.end.ms as int
    }

    #[verifier::type_invariant]
    closed spec fn ordered(self) -> bool {
        self.start.ms <= self.end.ms
    }

    /// The span from `start` up to `end`.
    pub fn new(start: Timestamp, end: Timestamp) -> (r: Result<TimeInterval, DomainError>)
        ensures
            start.ms <= end.ms ==> (r matches Ok(i) && i.start_ms() == start.ms && i.end_ms()
                == end.ms),
            start.ms > end.ms ==> r == Err::<TimeInterval, DomainError>(
                DomainError::InvalidInterval,
            ),
    {
        if start.ms <= end.ms {
            Ok(TimeInterval { start, end })
        } else {
            Err(DomainError::InvalidInterval)
        }
    }

    /// The first instant of the span.
    pub fn start(&self) -> (t: Timestamp)
        ensures
            t.ms == self.start_ms(),
    {
        self.start
    }

    /// The first instant after the span.
    pub fn end(&self) -> (t: Timestamp)
        ensures
            t.ms == self.end_ms(),
    {
        self.end
    }
}

/// How long one bar lasts.
#[derive(Debug, Clone, Copy, PartialEq, Eq, Hash, Structural)]
pub enum Resolution {
    /// Five minutes.
    M5,
    /// Fifteen minutes.
    M15,
    /// Thirty minutes.
    M30,
    /// One hour.
    H1,
    /// Four hours.
    H4,
    /// Twelve hours.
    H12,
    /// One day.
    D1,
}

/// How many resolutions there are.
pub const RESOLUTION_COUNT: u8 = 7;

impl Resolution {
    /// The position among the resolutions, shortest first.
    pub open spec fn position(self) -> u8 {
        match self {
            Resolution::M5 => 0,
            Resolution::M15 => 1,
            Resolution::M30 => 2,
            Resolution::H1 => 3,
            Resolution::H4 => 4,
            Resolution::H12 => 5,
            Resolution::D1 => 6,
        }
    }

    /// The length in minutes.
    pub open spec fn length(self) -> u32 {
        match self {
            Resolution::M5 => 5,
            Resolution::M15 => 15,
            Resolution::M30 => 30,
            Resolution::H1 => 60,
            Resolution::H4 => 240,
            Resolution::H12 => 720,
            Resolution::D1 => 1440,
        }
    }

    /// The short code.
    pub open spec fn code(self) -> Seq<char> {
        match self {
            Resolution::M5 => "5m"@,
            Resolution::M15 => "15m"@,
            Resolution::M30 => "30m"@,
            Resolution::H1 => "1h"@,
            Resolution::H4 => "4h"@,
            Resolution::H12 => "12h"@,
            Resolution::D1 => "1d"@,
        }
    }

    /// The position among the resolutions, shortest first.
    pub fn ordinal(self) -> (r: u8)
        ensures
            r == self.position(),
            r < RESOLUTION_COUNT,
    {
        match self {
            Resolution::M5 => 0,
            Resolution::M15 => 1,
            Resolution::M30 => 2,
            Resolution::H1 => 3,
            Resolution::H4 => 4,
            Resolution::H12 => 5,
            Resolution::D1 => 6,
        }
    }

    /// The resolution at a position, shortest first.
    pub fn at_position(position: u8) -> (r: Resolution)
        requires
            position < RESOLUTION_COUNT,
        ensures
            r.position() == position,
    {
        match position {
            0 => Resolution::M5,
            1 => Resolution::M15,
            2 => Resolution::M30,
            3 => Resolution::H1,
            4 => Resolution::H4,
            5 => Resolution::H12,
            _ => Resolution::D1,
        }
    }

    /// The length in minutes.
    pub fn minutes(self) -> (r: u32)
        ensures
            r == self.length(),
            5 <= r <= 1440,
    {
        match self {
            Resolution::M5 => 5,
            Resolution::M15 => 15,
            Resolution::M30 => 30,
            Resolution::H1 => 60,
            Resolution::H4 => 240,
            Resolution::H12 => 720,
            Resolution::D1 => 1440,
        }
    }

    /// The short code, such as `1h`.
    pub fn as_str(self) -> (r: &'static str)
        ensures
            r@ == self.code(),
    {
        match self {
            Resolution::M5 => "5m",
            Resolution::M15 => "15m",
            Resolution::M30 => "30m",
            Resolution::H1 => "1h",
            Resolution::H4 => "4h",
            Resolution::H12 => "12h",
            Resolution::D1 => "1d",
        }
    }
}

/// Resolutions are told apart by their position.
pub proof fn law_resolution_positions_differ(a: Resolution, b: Resolution)
    ensures
        a.position() == b.position() <==> a == b,
        a.position() < b.position() <==> a.length() < b.length(),
{
}

/// The side of a position.
#[derive(Debug, Clone, Copy, PartialEq, Eq, Hash, Structural)]
pub enum Direction {
    /// Gains when the price rises.
    Long,
    /// Gains when the price falls.
    Short,
}

/// The side of a fill.
#[derive(Debug, Clone, Copy, PartialEq, Eq, Hash, Structural)]
pub enum Side {
    /// A purchase.
    Buy,
    /// A sale.
    Sell,
}

/// Whether `c` is an ASCII letter or digit.
pub open spec fn is_symbol_char(c: char) -> bool {
    ||| '0' <= c <= '9'
    ||| 'A' <= c <= 'Z'
    ||| 'a' <= c <= 'z'
}

/// Whether `s` can name an instrument: not empty, ASCII letters and digits only.
pub open spec fn is_symbol(s: Seq<char>) -> bool {
    &&& s.len() > 0
    &&& forall|i: int| 0 <= i < s.len() ==> is_symbol_char(#[trigger] s[i])
}

/// The name of an instrument.
#[derive(Debug, PartialEq, Eq, Hash)]
pub struct InstrumentId {
    symbol: String,
}

impl View for InstrumentId {
    type V = Seq<char>;

    closed spec fn view(&self) -> Seq<char> {
        self.symbol@
    }
}

impl InstrumentId {
    #[verifier::type_invariant]
    closed spec fn valid(self) -> bool {
        is_symbol(self.symbol@)
    }

    /// The instrument named `symbol`.
    pub fn new(symbol: &str) -> (r: Result<InstrumentId, DomainError>)
        ensures
            is_symbol(symbol@) ==> (r matches Ok(i) && i@ == symbol@),
            !is_symbol(symbol@) ==> r == Err::<InstrumentId, DomainError>(
                DomainError::InvalidInstrument,
            ),
    {
        let n: usize = symbol.unicode_len();
        if n == 0 {
            return Err(DomainError::InvalidInstrument);
        }
        let mut i: usize = 0;
        while i < n
            invariant
                i <= n == symbol@.len(),
                forall|j: int| 0 <= j < i ==> is_symbol_char(#[trigger] symbol@[j]),
            decreases n - i,
        {
            let c: char = symbol.get_char(i);
            if !(('0' <= c && c <= '9') || ('A' <= c && c <= 'Z') || ('a' <= c && c <= 'z')) {
                assert(!is_symbol_char(symbol@[i as int]));
                return Err(DomainError::InvalidInstrument);
            }
            i = i + 1;
        }
        Ok(InstrumentId { symbol: symbol.to_owned() })
    }

    /// The symbol.
    pub fn as_str(&self) -> (r: &str)
        ensures
            r@ == self@,
            is_symbol(r@),
    {
        proof {
            use_type_invariant(self);
        }
        self.symbol.as_str()
    }

    /// Whether the two name the same instrument.
    pub fn same(&self, other: &InstrumentId) -> (r: bool)
        ensures
            r == (self@ == other@),
    {
        self.symbol == other.symbol
    }
}

impl Clone for InstrumentId {
    fn clone(&self) -> (r: InstrumentId)
        ensures
            r@ == self@,
    {
        proof {
            use_type_invariant(self);
        }
        InstrumentId { symbol: self.symbol.clone() }
    }
}

/// A price, never below zero.
#[derive(Debug, Clone, Copy, PartialEq, Eq)]
pub struct Price {
    value: Dec,
}

impl View for Price {
    type V = Dec;

    closed spec fn view(&self) -> Dec {
        self.value
    }
}

impl Price {
    #[verifier::type_invariant]
    closed spec fn valid(self) -> bool {
        self.value.wf() && self.value.m() >= 0
    }

    /// A price of `value`.
    pub fn new(value: Dec) -> (r: Result<Price, DomainError>)
        ensures
            value.m() >= 0 ==> (r matches Ok(p) && p@ == value),
            value.m() < 0 ==> r == Err::<Price, DomainError>(DomainError::NegativePrice),
    {
        proof {
            use_type_invariant(&value);
        }
        if value.is_negative() {
            Err(DomainError::NegativePrice)
        } else {
            Ok(Price { value })
        }
    }

    /// The number.
    pub fn get(self) -> (r: Dec)
        ensures
            r == self@,
            r.wf(),
            r.m() >= 0,
    {
        proof {
            use_type_invariant(&self);
        }
        self.value
    }
}

/// A quantity, never below zero.
#[derive(Debug, Clone, Copy, PartialEq, Eq)]
pub struct Qty {
    value: Dec,
}

impl View for Qty {
    type V = Dec;

    closed spec fn view(&self) -> Dec {
        self.value
    }
}

impl Qty {
    #[verifier::type_invariant]
    closed spec fn valid(self) -> bool {
        self.value.wf() && self.value.m() >= 0
    }

    /// A quantity of `value`.
    pub fn new(value: Dec) -> (r: Result<Qty, DomainError>)
        ensures
            value.m() >= 0 ==> (r matches Ok(q) && q@ == value),
            value.m() < 0 ==> r == Err::<Qty, DomainError>(DomainError::NegativeQuantity),
    {
        proof {
            use_type_invariant(&value);
        }
        if value.is_negative() {
            Err(DomainError::NegativeQuantity)
        } else {
            Ok(Qty { value })
        }
    }

    /// The number.
    pub fn get(self) -> (r: Dec)
        ensures
            r == self@,
            r.wf(),
            r.m() >= 0,
    {
        proof {
            use_type_invariant(&self);
        }
        self.value
    }
}

/// What a bar records.
pub struct BarData {
    /// When the bar opened, in milliseconds since the epoch.
    pub open_time: i64,
    /// How long the bar lasts.
    pub resolution: Resolution,
    /// The first price.
    pub open: Dec,
    /// The highest price.
    pub high: Dec,
    /// The lowest price.
    pub low: Dec,
    /// The last price.
    pub close: Dec,
    /// The quantity traded.
    pub volume: Dec,
    /// The number of trades.
    pub trades: u64,
}

/// Whether `price` lies between `low` and `high`.
pub open spec fn within(low: Dec, price: Dec, high: Dec) -> bool {
    !dec_lt(price, low) && !dec_lt(high, price)
}

impl BarData {
    /// Whether open and close lie between low and high.
    pub open spec fn consistent(self) -> bool {
        within(self.low, self.open, self.high) && within(self.low, self.close, self.high)
    }
}

/// A bar is consistent exactly if neither its open nor its close is below its low or above its high.
pub proof fn law_bar_lies_between_its_extremes(bar: BarData)
    ensures
        bar.consistent() <==> !dec_lt(bar.open, bar.low) && !dec_lt(bar.high, bar.open) && !dec_lt(
            bar.close,
            bar.low,
        ) && !dec_lt(bar.high, bar.close),
{
}

/// Open, high, low, close, volume and trade count over one span of time.
#[derive(Debug, Clone, Copy, PartialEq, Eq)]
pub struct Bar {
    open_time: Timestamp,
    resolution: Resolution,
    open: Price,
    high: Price,
    low: Price,
    close: Price,
    volume: Qty,
    trades: u64,
}

impl View for Bar {
    type V = BarData;

    closed spec fn view(&self) -> BarData {
        BarData {
            open_time: self.open_time.ms,
            resolution: self.resolution,
            open: self.open@,
            high: self.high@,
            low: self.low@,
            close: self.close@,
            volume: self.volume@,
            trades: self.trades,
        }
    }
}

impl Bar {
    /// What holds of every bar that exists at run time.
    #[verifier::type_invariant]
    pub closed spec fn valid(self) -> bool {
        &&& self@.consistent()
        &&& self@.open.wf() && self@.high.wf() && self@.low.wf() && self@.close.wf()
        &&& self@.volume.wf() && self@.volume.m() >= 0
    }

    /// The bar with these contents; open and close must lie between low and high.
    pub fn new(
        open_time: Timestamp,
        resolution: Resolution,
        open: Price,
        high: Price,
        low: Price,
        close: Price,
        volume: Qty,
        trades: u64,
    ) -> (r: Result<Bar, DomainError>)
        ensures
            ({
                let data = BarData {
                    open_time: open_time.ms,
                    resolution,
                    open: open@,
                    high: high@,
                    low: low@,
                    close: close@,
                    volume: volume@,
                    trades,
                };
                &&& data.consistent() ==> (r matches Ok(b) && b@ == data)
                &&& !data.consistent() ==> r == Err::<Bar, DomainError>(
                    DomainError::InconsistentBar,
                )
            }),
    {
        proof {
            use_type_invariant(&volume);
        }
        let l: Dec = low.get();
        let h: Dec = high.get();
        let o: Dec = open.get();
        let c: Dec = close.get();
        if o.less_than(l) || h.less_than(o) || c.less_than(l) || h.less_than(c) {
            return Err(DomainError::InconsistentBar);
        }
        Ok(Bar { open_time, resolution, open, high, low, close, volume, trades })
    }

    /// When the bar opened.
    pub fn open_time(&self) -> (r: Timestamp)
        ensures
            r.ms == self@.open_time,
    {
        self.open_time
    }

    /// How long the bar lasts.
    pub fn resolution(&self) -> (r: Resolution)
        ensures
            r == self@.resolution,
    {
        self.resolution
    }

    /// The first price.
    pub fn open(&self) -> (r: Price)
        ensures
            r@ == self@.open,
    {
        self.open
    }

    /// The highest price.
    pub fn high(&self) -> (r: Price)
        ensures
            r@ == self@.high,
    {
        self.high
    }

    /// The lowest price.
    pub fn low(&self) -> (r: Price)
        ensures
            r@ == self@.low,
    {
        self.low
    }

    /// The last price.
    pub fn close(&self) -> (r: Price)
        ensures
            r@ == self@.close,
    {
        self.close
    }

    /// The quantity traded.
    pub fn volume(&self) -> (r: Qty)
        ensures
            r@ == self@.volume,
    {
        self.volume
    }

    /// The number of trades.
    pub fn trades(&self) -> (r: u64)
        ensures
            r == self@.trades,
    {
        self.trades
    }
}

/// What a valid bar's contents satisfy.
pub proof fn lemma_bar_valid(bar: Bar)
    requires
        bar.valid(),
    ensures
        bar@.consistent(),
        bar@.open.wf() && bar@.high.wf() && bar@.low.wf() && bar@.close.wf(),
        bar@.volume.wf() && bar@.volume.m() >= 0,
{
}

/// A funding rate at an instant.
#[derive(Debug, Clone, PartialEq, Eq)]
pub struct FundingRateSample {
    /// The instrument the rate applies to.
    pub instrument: InstrumentId,
    /// When the rate was posted.
    pub time: Timestamp,
    /// The rate, a signed fraction.
    pub rate: Dec,
}

} // verus!
