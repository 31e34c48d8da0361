//! The values that move between the components: stored datapoints and the samples of
//! the fallback source.

use crate::error::EngineError;
use vstd::prelude::*;

verus! {

/// The most samples the fallback source returns in one answer.
pub const KRAKEN_MAX_DATAPOINTS: u16 = 720;

/// Prices are whole numbers of one part in this many of the quote currency.
pub const PRICE_SCALE: i64 = 100_000_000;

/// One sample of the fallback source. Only `close` is used as a price.
#[derive(Clone, Copy, Debug, PartialEq, Eq, Structural)]
pub struct KrakenDatapoint {
    pub timestamp: i64,
    pub open: i64,
    pub high: i64,
    pub low: i64,
    pub close: i64,
    pub vwap: i64,
    pub volume: i64,
    pub count: u16,
}

/// The sampling granularities the fallback source offers.
#[derive(Clone, Copy, Debug, PartialEq, Eq, Structural)]
pub enum KrakenInterval {
    Minute,
    FiveMinutes,
    FifteenMinutes,
    HalfHour,
    Hour,
    FourHours,
    Day,
    Week,
    HalfMonth,
}

impl KrakenInterval {
    /// The length of the interval in minutes.
    pub open spec fn spec_minutes(self) -> u16 {
        match self {
            KrakenInterval::Minute => 1,
            KrakenInterval::FiveMinutes => 5,
            KrakenInterval::FifteenMinutes => 15,
            KrakenInterval::HalfHour => 30,
            KrakenInterval::Hour => 60,
            KrakenInterval::FourHours => 240,
            KrakenInterval::Day => 1440,
            KrakenInterval::Week => 10080,
            KrakenInterval::HalfMonth => 21600,
        }
    }

    /// The length of the interval in minutes.
    #[verifier::when_used_as_spec(spec_minutes)]
    pub fn minutes(self) -> (m: u16)
        ensures
            m == self.spec_minutes(),
            m >= 1,
    {
        match self {
            KrakenInterval::Minute => 1,
            KrakenInterval::FiveMinutes => 5,
            KrakenInterval::FifteenMinutes => 15,
            KrakenInterval::HalfHour => 30,
            KrakenInterval::Hour => 60,
            KrakenInterval::FourHours => 240,
            KrakenInterval::Day => 1440,
            KrakenInterval::Week => 10080,
            KrakenInterval::HalfMonth => 21600,
        }
    }

    /// The length of the interval in seconds.
    pub fn seconds(self) -> (s: i64)
        ensures
            s == 60 * self.spec_minutes(),
            s >= 60,
    {
        60 * (self.minutes() as i64)
    }

    /// The interval of the given length in minutes, if the source offers it.
    pub fn from_minutes(minutes: u16) -> (r: Option<KrakenInterval>)
        ensures
            match r {
                Some(i) => i.spec_minutes() == minutes,
                None => forall|i: KrakenInterval| i.spec_minutes() != minutes,
            },
    {
        match minutes {
            1 => Some(KrakenInterval::Minute),
            5 => Some(KrakenInterval::FiveMinutes),
            15 => Some(KrakenInterval::FifteenMinutes),
            30 => Some(KrakenInterval::HalfHour),
            60 => Some(KrakenInterval::Hour),
            240 => Some(KrakenInterval::FourHours),
            1440 => Some(KrakenInterval::Day),
            10080 => Some(KrakenInterval::Week),
            21600 => Some(KrakenInterval::HalfMonth),
            _ => None,
        }
    }
}

impl Default for KrakenInterval {
    /// The granularity that matches the engine's own sampling period.
    fn default() -> (i: KrakenInterval)
        ensures
            i == KrakenInterval::FiveMinutes,
    {
        KrakenInterval::FiveMinutes
    }
}

/// A price at a point in time. Its identity is its position in a series.
#[derive(Clone, Copy, Debug, PartialEq, Eq, Structural)]
pub struct Datapoint {
    pub price: i64,
    pub timestamp: i64,
}

/// The two ways a point in time is given.
#[derive(Clone, Copy, Debug, PartialEq, Eq, Structural)]
pub enum TimeType {
    /// A calendar instant: whole seconds since the epoch and the nanoseconds after them.
    DateTime { secs: i64, nanos: u32 },
    /// Whole seconds since the epoch.
    Timestamp(i64),
}

impl TimeType {
    /// The whole seconds since the epoch.
    pub open spec fn spec_seconds(self) -> i64 {
        match self {
            TimeType::DateTime { secs, nanos } => secs,
            TimeType::Timestamp(t) => t,
        }
    }

    /// The whole seconds since the epoch.
    #[verifier::when_used_as_spec(spec_seconds)]
    pub fn seconds(self) -> (s: i64)
        ensures
            s == self.spec_seconds(),
    {
        match self {
            TimeType::DateTime { secs, nanos } => secs,
            TimeType::Timestamp(t) => t,
        }
    }
}

impl Datapoint {
    /// A datapoint of the given price at the given time. It never fails.
    pub fn new(price: i64, time: TimeType) -> (r: Result<Datapoint, EngineError>)
        ensures
            r == Ok::<Datapoint, EngineError>(
                (Datapoint { price: price, timestamp: time.spec_seconds() }),
            ),
    {
        let timestamp = match time {
            TimeType::DateTime { secs, nanos } => secs,
            TimeType::Timestamp(timestamp) => timestamp,
        };
        Ok(Datapoint { price, timestamp })
    }

    /// The datapoint that the closing price of a fallback sample stands for.
    pub open spec fn spec_from_kraken(sample: KrakenDatapoint) -> Datapoint {
        Datapoint { price: sample.close, timestamp: sample.timestamp }
    }

    /// The datapoint that the closing price of a fallback sample stands for.
    pub fn from_kraken(sample: &KrakenDatapoint) -> (d: Datapoint)
        ensures
            d == Self::spec_from_kraken(*sample),
    {
        Datapoint { price: sample.close, timestamp: sample.timestamp }
    }
}

/// The timestamps of a sequence of datapoints, in order.
pub open spec fn timestamps_of(points: Seq<Datapoint>) -> Seq<int> {
    Seq::new(points.len(), |i: int| points[i].timestamp as int)
}

/// Whether every timestamp is above the one before it.
pub open spec fn strictly_increasing(points: Seq<Datapoint>) -> bool {
    forall|i: int, j: int| 0 <= i < j < points.len() ==> points[i].timestamp < points[j].timestamp
}

/// Whether no timestamp is below the one before it.
pub open spec fn ascending(points: Seq<Datapoint>) -> bool {
    forall|i: int, j: int| 0 <= i <= j < points.len() ==> points[i].timestamp <= points[j].timestamp
}

} // verus!
