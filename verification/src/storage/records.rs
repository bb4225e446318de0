//! Market-data records beyond bars and funding rates.

use vstd::prelude::*;

use crate::decimal::Dec;
use crate::domain::{InstrumentId, Timestamp};

verus! {

/// A perpetual's premium over its underlier.
#[derive(Debug, Clone, PartialEq, Eq)]
pub struct PremiumSample {
    /// The instrument.
    pub instrument: InstrumentId,
    /// When the sample was taken.
    pub time: Timestamp,
    /// The premium as a signed fraction: positive when the perpetual trades above spot.
    pub premium: Dec,
}

/// Futures positioning at a point in time.
#[derive(Debug, Clone, PartialEq, Eq)]
pub struct FuturesMetrics {
    /// The instrument.
    pub instrument: InstrumentId,
    /// When the metrics were sampled.
    pub time: Timestamp,
    /// The long/short account ratio of the top traders.
    pub long_short_ratio: Dec,
    /// The open interest.
    pub open_interest: Dec,
    /// The ratio of taker buys to taker sells.
    pub taker_buy_sell_ratio: Dec,
}

} // verus!
