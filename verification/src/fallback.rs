//! The fallback source: what to ask it, and how its answer is read into samples.

use crate::datapoint::{KrakenDatapoint, KrakenInterval};
use crate::decimal::{decimal_value, parse_decimal};
use crate::error::EngineError;
use crate::pair::Pair;
use vstd::prelude::*;
use vstd::string::*;

verus! {

/// One row of an answer as it was decoded. A field is `None` where the row held no
/// value of the kind that is expected there: a whole number for the timestamp and
/// the count, text for the others.
pub struct FallbackRow {
    pub timestamp: Option<i64>,
    pub open: Option<String>,
    pub high: Option<String>,
    pub low: Option<String>,
    pub close: Option<String>,
    pub vwap: Option<String>,
    pub volume: Option<String>,
    pub count: Option<u64>,
}

/// An answer of the fallback source as it was decoded.
pub struct FallbackResponse {
    /// The length of the list of errors; `None` where the answer holds no such list.
    pub errors: Option<usize>,
    /// The rows for the pair that was asked for; `None` where the answer holds no
    /// list of rows for it.
    pub rows: Option<Vec<FallbackRow>>,
}

/// The price that a field of text stands for.
pub open spec fn field_value(field: Option<String>) -> Option<int> {
    match field {
        Some(text) => decimal_value(text@),
        None => None,
    }
}

/// The sample a row stands for, if every field of it is there and reads as a number.
pub open spec fn decoded_row(row: FallbackRow) -> Option<KrakenDatapoint> {
    if row.timestamp is Some && field_value(row.open) is Some && field_value(row.high) is Some
        && field_value(row.low) is Some && field_value(row.close) is Some && field_value(
        row.vwap,
    ) is Some && field_value(row.volume) is Some && row.count is Some {
        Some(
            KrakenDatapoint {
                timestamp: row.timestamp->0,
                open: field_value(row.open)->0 as i64,
                high: field_value(row.high)->0 as i64,
                low: field_value(row.low)->0 as i64,
                close: field_value(row.close)->0 as i64,
                vwap: field_value(row.vwap)->0 as i64,
                volume: field_value(row.volume)->0 as i64,
                count: (row.count->0 % 0x1_0000) as u16,
            },
        )
    } else {
        None
    }
}

/// Whether every row stands for a sample.
pub open spec fn all_rows_decode(rows: Seq<FallbackRow>) -> bool {
    forall|i: int| 0 <= i < rows.len() ==> decoded_row(#[trigger] rows[i]) is Some
}

/// The samples the rows stand for, in their order.
pub open spec fn decoded_rows(rows: Seq<FallbackRow>) -> Seq<KrakenDatapoint> {
    Seq::new(rows.len(), |i: int| decoded_row(rows[i])->0)
}

/// The samples an answer stands for, or why it stands for none: an answer without
/// a list of errors or without rows, or with a row that does not read as a sample,
/// is malformed; one that lists errors is a refusal of the source.
pub open spec fn decoded(response: FallbackResponse) -> Result<Seq<KrakenDatapoint>, EngineError> {
    if response.errors is None {
        Err(EngineError::FallbackFormatError)
    } else if response.errors->0 > 0 {
        Err(EngineError::FallbackUnavailable)
    } else if response.rows is None || !all_rows_decode(response.rows->0@) {
        Err(EngineError::FallbackFormatError)
    } else {
        Ok(decoded_rows(response.rows->0@))
    }
}

/// Reads one field of text as a price.
fn read_field(field: &Option<String>) -> (r: Option<i64>)
    ensures
        match field_value(*field) {
            Some(v) => r == Some(v as i64),
            None => r is None,
        },
{
    match field {
        Some(text) => parse_decimal(text.as_str()),
        None => None,
    }
}

/// Reads one row as a sample.
pub fn read_row(row: &FallbackRow) -> (r: Option<KrakenDatapoint>)
    ensures
        r == decoded_row(*row),
{
    let timestamp = match row.timestamp {
        Some(t) => t,
        None => return None,
    };
    let open = match read_field(&row.open) {
        Some(v) => v,
        None => return None,
    };
    let high = match read_field(&row.high) {
        Some(v) => v,
        None => return None,
    };
    let low = match read_field(&row.low) {
        Some(v) => v,
        None => return None,
    };
    let close = match read_field(&row.close) {
        Some(v) => v,
        None => return None,
    };
    let vwap = match read_field(&row.vwap) {
        Some(v) => v,
        None => return None,
    };
    let volume = match read_field(&row.volume) {
        Some(v) => v,
        None => return None,
    };
    let count = match row.count {
        Some(c) => (c % 0x1_0000) as u16,
        None => return None,
    };
    Some(KrakenDatapoint { timestamp, open, high, low, close, vwap, volume, count })
}

/// Reads the samples out of an answer of the fallback source. Nothing is returned
/// of an answer of which any part is malformed.
///
/// A price is read from text that is an optional sign, digits, and optionally a
/// point and further digits, with at least one digit before or after the point.
/// The source writes its prices so. Text of another form makes the answer
/// malformed: a number with an exponent, an infinity, a value that is not a number.
pub fn fetch_kraken_datapoints(response: &FallbackResponse) -> (r: Result<
    Vec<KrakenDatapoint>,
    EngineError,
>)
    ensures
        match decoded(*response) {
            Ok(samples) => r is Ok && r->Ok_0@ == samples,
            Err(e) => r == Err::<Vec<KrakenDatapoint>, EngineError>(e),
        },
{
    let errors = match response.errors {
        Some(n) => n,
        None => return Err(EngineError::FallbackFormatError),
    };
    if errors > 0 {
        return Err(EngineError::FallbackUnavailable);
    }
    let rows = match &response.rows {
        Some(rows) => rows,
        None => return Err(EngineError::FallbackFormatError),
    };
    let mut datapoints: Vec<KrakenDatapoint> = Vec::new();
    let mut i: usize = 0;
    while i < rows.len()
        invariant
            i <= rows.len(),
            response.errors == Some(0usize),
            response.rows is Some,
            response.rows->0@ == rows@,
            datapoints@.len() == i,
            forall|k: int| 0 <= k < i ==> decoded_row(#[trigger] rows@[k]) == Some(datapoints@[k]),
        decreases rows.len() - i,
    {
        match read_row(&rows[i]) {
            Some(sample) => datapoints.push(sample),
            None => {
                proof {
                    assert(decoded_row(rows@[i as int]) is None);
                }
                return Err(EngineError::FallbackFormatError);
            },
        }
        i = i + 1;
    }
    proof {
        assert(datapoints@ =~= decoded_rows(rows@));
    }
    Ok(datapoints)
}

/// The length of an interval in minutes as the fallback source reads it.
pub open spec fn spec_interval_text(interval: KrakenInterval) -> Seq<char> {
    match interval {
        KrakenInterval::Minute => "1"@,
        KrakenInterval::FiveMinutes => "5"@,
        KrakenInterval::FifteenMinutes => "15"@,
        KrakenInterval::HalfHour => "30"@,
        KrakenInterval::Hour => "60"@,
        KrakenInterval::FourHours => "240"@,
        KrakenInterval::Day => "1440"@,
        KrakenInterval::Week => "10080"@,
        KrakenInterval::HalfMonth => "21600"@,
    }
}

/// The length of an interval in minutes as the fallback source reads it.
pub fn interval_text(interval: KrakenInterval) -> (text: &'static str)
    ensures
        text@ == spec_interval_text(interval),
{
    match interval {
        KrakenInterval::Minute => "1",
        KrakenInterval::FiveMinutes => "5",
        KrakenInterval::FifteenMinutes => "15",
        KrakenInterval::HalfHour => "30",
        KrakenInterval::Hour => "60",
        KrakenInterval::FourHours => "240",
        KrakenInterval::Day => "1440",
        KrakenInterval::Week => "10080",
        KrakenInterval::HalfMonth => "21600",
    }
}

/// The address to ask for the samples of a pair at an interval.
pub open spec fn request_address(name: Seq<char>, interval: KrakenInterval) -> Seq<char> {
    "https://api.kraken.com/0/public/OHLC?pair="@ + name + "&interval="@ + spec_interval_text(
        interval,
    )
}

/// The address to ask the fallback source for the samples of `pair` at `interval`.
/// A pair that the source does not list cannot be asked for.
pub fn fallback_request(pair: &Pair, interval: &KrakenInterval) -> (r: Result<String, EngineError>)
    ensures
        pair.fallback_name is None ==> r == Err::<String, EngineError>(EngineError::NoFallbackName),
        pair.fallback_name is Some ==> r is Ok && r->Ok_0@ == request_address(
            pair.fallback_name->0@,
            *interval,
        ),
{
    match &pair.fallback_name {
        None => Err(EngineError::NoFallbackName),
        Some(name) => {
            let mut address = "https://api.kraken.com/0/public/OHLC?pair=".to_owned();
            address.append(name.as_str());
            address.append("&interval=");
            address.append(interval_text(*interval));
            Ok(address)
        },
    }
}

} // verus!
