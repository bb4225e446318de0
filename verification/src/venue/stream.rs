//! The public streams of a venue: their tiers, channels, names and expected spacing.

use vstd::prelude::*;

use crate::domain::{InstrumentId, Resolution, MINUTE_MS};
use crate::text::{joined, lower_text, to_lower};

verus! {

/// The spacing of mark-price messages in milliseconds.
pub const MARK_PRICE_CADENCE_MS: i64 = 1_000;

/// The spacing of order-book snapshots in milliseconds.
pub const DEPTH20_CADENCE_MS: i64 = 100;

/// The tier a stream belongs to. Each tier has a connection of its own.
#[derive(Debug, Clone, Copy, PartialEq, Eq, Hash, PartialOrd, Ord, Structural)]
pub enum StreamTier {
    /// Candles and mark prices.
    Market,
    /// Top of book, order-book snapshots and trades.
    Realtime,
}

impl StreamTier {
    /// Every tier.
    pub const ALL: [StreamTier; 2] = [StreamTier::Market, StreamTier::Realtime];
}

/// What a stream carries.
#[derive(Debug, Clone, Copy, PartialEq, Eq, Hash, Structural)]
pub enum StreamChannel {
    /// Candles of one resolution.
    Kline(Resolution),
    /// The mark price, every second.
    MarkPrice,
    /// Best bid and ask, whenever they change.
    BookTicker,
    /// The first twenty levels of the order book, ten times a second.
    Depth20,
    /// Aggregated trades, whenever there are any.
    AggTrade,
}

impl StreamChannel {
    /// The expected spacing in milliseconds, where there is one.
    pub open spec fn cadence(self) -> Option<i64> {
        match self {
            StreamChannel::Kline(resolution) => Some((resolution.length() * MINUTE_MS) as i64),
            StreamChannel::MarkPrice => Some(MARK_PRICE_CADENCE_MS),
            StreamChannel::Depth20 => Some(DEPTH20_CADENCE_MS),
            StreamChannel::BookTicker | StreamChannel::AggTrade => None,
        }
    }

    /// The part of a stream's name that names the channel.
    pub open spec fn suffix_text(self) -> Seq<char> {
        match self {
            StreamChannel::Kline(resolution) => "kline_"@ + resolution.code(),
            StreamChannel::MarkPrice => "markPrice@1s"@,
            StreamChannel::BookTicker => "bookTicker"@,
            StreamChannel::Depth20 => "depth20@100ms"@,
            StreamChannel::AggTrade => "aggTrade"@,
        }
    }

    /// The tier the channel belongs to.
    pub open spec fn tier(self) -> StreamTier {
        match self {
            StreamChannel::Kline(_) | StreamChannel::MarkPrice => StreamTier::Market,
            StreamChannel::BookTicker | StreamChannel::Depth20 | StreamChannel::AggTrade =>
                StreamTier::Realtime,
        }
    }

    /// The expected spacing in milliseconds; `None` for a channel that speaks only when something
    /// happens, where a silence is no hole.
    pub fn cadence_ms(self) -> (r: Option<i64>)
        ensures
            r == self.cadence(),
    {
        match self {
            StreamChannel::Kline(resolution) => Some(resolution.minutes() as i64 * MINUTE_MS),
            StreamChannel::MarkPrice => Some(MARK_PRICE_CADENCE_MS),
            StreamChannel::Depth20 => Some(DEPTH20_CADENCE_MS),
            StreamChannel::BookTicker => None,
            StreamChannel::AggTrade => None,
        }
    }

    /// The part of a stream's name that names the channel, such as `kline_5m`.
    pub fn suffix(self) -> (r: String)
        ensures
            r@ == self.suffix_text(),
    {
        match self {
            StreamChannel::Kline(resolution) => joined("kline_", resolution.as_str()),
            StreamChannel::MarkPrice => "markPrice@1s".to_owned(),
            StreamChannel::BookTicker => "bookTicker".to_owned(),
            StreamChannel::Depth20 => "depth20@100ms".to_owned(),
            StreamChannel::AggTrade => "aggTrade".to_owned(),
        }
    }
}

/// One stream of a venue.
#[derive(Debug, PartialEq, Eq, Hash)]
pub struct Subscription {
    /// The instrument.
    pub instrument: InstrumentId,
    /// The channel.
    pub channel: StreamChannel,
}

impl View for Subscription {
    type V = (Seq<char>, StreamChannel);

    open spec fn view(&self) -> (Seq<char>, StreamChannel) {
        (self.instrument@, self.channel)
    }
}

impl Clone for Subscription {
    fn clone(&self) -> (r: Subscription)
        ensures
            r@ == self@,
    {
        Subscription { instrument: self.instrument.clone(), channel: self.channel }
    }
}

/// The name of a stream: the symbol in lower case, an at sign, the channel.
pub open spec fn stream_text(sub: (Seq<char>, StreamChannel)) -> Seq<char> {
    lower_text(sub.0) + "@"@ + sub.1.suffix_text()
}

impl Subscription {
    /// The stream of `channel` for `instrument`.
    pub fn new(instrument: InstrumentId, channel: StreamChannel) -> (r: Subscription)
        ensures
            r@ == (instrument@, channel),
    {
        Subscription { instrument, channel }
    }

    /// The candles of `instrument`.
    pub fn kline(instrument: InstrumentId, resolution: Resolution) -> (r: Subscription)
        ensures
            r@ == (instrument@, StreamChannel::Kline(resolution)),
    {
        Subscription::new(instrument, StreamChannel::Kline(resolution))
    }

    /// The mark price of `instrument`.
    pub fn mark_price(instrument: InstrumentId) -> (r: Subscription)
        ensures
            r@ == (instrument@, StreamChannel::MarkPrice),
    {
        Subscription::new(instrument, StreamChannel::MarkPrice)
    }

    /// The best bid and ask of `instrument`.
    pub fn book_ticker(instrument: InstrumentId) -> (r: Subscription)
        ensures
            r@ == (instrument@, StreamChannel::BookTicker),
    {
        Subscription::new(instrument, StreamChannel::BookTicker)
    }

    /// The order book of `instrument`.
    pub fn depth20(instrument: InstrumentId) -> (r: Subscription)
        ensures
            r@ == (instrument@, StreamChannel::Depth20),
    {
        Subscription::new(instrument, StreamChannel::Depth20)
    }

    /// The trades of `instrument`.
    pub fn agg_trade(instrument: InstrumentId) -> (r: Subscription)
        ensures
            r@ == (instrument@, StreamChannel::AggTrade),
    {
        Subscription::new(instrument, StreamChannel::AggTrade)
    }

    /// The tier this stream belongs to.
    pub fn tier(&self) -> (r: StreamTier)
        ensures
            r == self.channel.tier(),
    {
        match self.channel {
            StreamChannel::Kline(_) => StreamTier::Market,
            StreamChannel::MarkPrice => StreamTier::Market,
            StreamChannel::BookTicker => StreamTier::Realtime,
            StreamChannel::Depth20 => StreamTier::Realtime,
            StreamChannel::AggTrade => StreamTier::Realtime,
        }
    }

    /// The name of the stream, such as `btcusdt@kline_5m`.
    pub fn stream_name(&self) -> (r: String)
        ensures
            r@ == stream_text(self@),
    {
        let mut out: String = to_lower(self.instrument.as_str());
        out.append("@");
        out.append(self.channel.suffix().as_str());
        out
    }

    /// Whether the two are the same stream.
    pub fn same(&self, other: &Subscription) -> (r: bool)
        ensures
            r == (self@ == other@),
    {
        self.instrument.same(&other.instrument) && self.channel == other.channel
    }
}

/// One message of a stream.
#[derive(Debug, Clone, PartialEq, Eq)]
pub struct StreamMessage {
    /// The stream it came on.
    pub subscription: Subscription,
    /// When the venue sent it, in milliseconds since the epoch.
    pub event_time_ms: i64,
    /// What it says, undecoded.
    pub payload: String,
}

/// A hole in a stream.
#[derive(Debug, PartialEq, Eq)]
pub struct Gap {
    /// The name of the stream.
    pub stream: String,
    /// The time of the last message before the hole.
    pub from_ms: i64,
    /// The time of the first message after the hole.
    pub to_ms: i64,
}

impl Clone for Gap {
    fn clone(&self) -> (r: Gap)
        ensures
            r.stream@ == self.stream@,
            r.from_ms == self.from_ms,
            r.to_ms == self.to_ms,
    {
        Gap { stream: self.stream.clone(), from_ms: self.from_ms, to_ms: self.to_ms }
    }
}

impl Gap {
    /// How long the hole is, in milliseconds.
    pub fn missed_ms(&self) -> (r: i64)
        requires
            i64::MIN <= self.to_ms - self.from_ms <= i64::MAX,
        ensures
            r == self.to_ms - self.from_ms,
    {
        self.to_ms - self.from_ms
    }
}

/// Whether a message at `now` on a channel of this spacing, the one before at `last`, shows a hole.
pub open spec fn is_hole(cadence: Option<i64>, last: int, now: int) -> bool {
    cadence matches Some(ms) && now - last > ms
}

/// A message exactly one spacing after the one before shows no hole, and a channel without a spacing
/// never shows one.
pub proof fn law_contiguous_messages_show_no_hole(channel: StreamChannel, last: int, now: int)
    ensures
        channel.cadence() matches Some(ms) && now - last <= ms ==> !is_hole(
            channel.cadence(),
            last,
            now,
        ),
        channel.cadence() matches Some(ms) && now - last > ms ==> is_hole(
            channel.cadence(),
            last,
            now,
        ),
        channel.cadence() is None ==> !is_hole(channel.cadence(), last, now),
        channel.cadence() is None <==> channel is BookTicker || channel is AggTrade,
{
}

/// The spacing that a channel promises: a candle's length, a second for the mark price, a tenth of one for
/// the order book, and none for what comes whenever it changes.
pub proof fn law_channels_keep_their_spacing(channel: StreamChannel)
    ensures
        channel matches StreamChannel::Kline(resolution) ==> channel.cadence() == Some(
            (resolution.length() * 60_000) as i64,
        ),
        channel == StreamChannel::MarkPrice ==> channel.cadence() == Some(1_000i64),
        channel == StreamChannel::Depth20 ==> channel.cadence() == Some(100i64),
        channel == StreamChannel::BookTicker || channel == StreamChannel::AggTrade
            ==> channel.cadence() is None,
{
}

/// Candles and mark prices come on the market tier, everything that follows the book on the realtime tier.
pub proof fn law_channels_belong_to_their_tier(channel: StreamChannel)
    ensures
        channel.tier() == StreamTier::Market <==> channel is Kline || channel is MarkPrice,
        channel.tier() == StreamTier::Realtime <==> channel is BookTicker || channel is Depth20
            || channel is AggTrade,
{
}

} // verus!
