//! Collected prices: from the answers of the price source to datapoints, and from
//! datapoints to what is written to the store.

use crate::clock::{collection_timestamp, nanos_representable, nearest_minute, representable, NANOS_PER_SEC};
use crate::datapoint::{Datapoint, PRICE_SCALE};
use crate::decimal::{decimal_text, decimal_value, format_decimal, parse_decimal, pow10};
use crate::error::EngineError;
use crate::pair::Pair;
use crate::series::Series;
use vstd::prelude::*;
use vstd::string::*;

verus! {

/// The price, in parts of `PRICE_SCALE`, that a quoted amount stands for, where
/// the amount is counted in the smallest unit of a coin of `decimals` decimal
/// places. A remainder is cut off.
pub open spec fn quote_price(raw: int, decimals: nat) -> int {
    (raw * PRICE_SCALE) / pow10(decimals)
}

/// Powers of ten multiply as their exponents add.
pub proof fn lemma_pow10_adds(a: nat, b: nat)
    ensures
        pow10(a + b) == pow10(a) * pow10(b),
        pow10(a) >= 1,
    decreases a,
{
    if a == 0 {
        assert(pow10(b) == 1 * pow10(b)) by (nonlinear_arith);
    } else {
        lemma_pow10_adds((a - 1) as nat, b);
        assert(pow10(a + b) == 10 * pow10((a - 1 + b) as nat));
        assert(10 * (pow10((a - 1) as nat) * pow10(b)) == (10 * pow10((a - 1) as nat)) * pow10(b))
            by (nonlinear_arith);
    }
}

/// A larger exponent gives no smaller a power of ten.
pub proof fn lemma_pow10_grows(a: nat, b: nat)
    requires
        a <= b,
    ensures
        1 <= pow10(a) <= pow10(b),
{
    lemma_pow10_adds(a, (b - a) as nat);
    lemma_pow10_adds((b - a) as nat, 0);
    assert(pow10(a) <= pow10(a) * pow10((b - a) as nat)) by (nonlinear_arith)
        requires
            pow10(a) >= 1,
            pow10((b - a) as nat) >= 1,
    ;
}

/// Ten to the power of `n`, if 128 bits hold it. It is the amount that stands for
/// one whole coin of `n` decimal places.
pub fn power_of_ten(n: u32) -> (r: Option<u128>)
    ensures
        match r {
            Some(p) => p == pow10(n as nat),
            None => pow10(n as nat) > u128::MAX,
        },
{
    let mut power: u128 = 1;
    let mut i: u32 = 0;
    while i < n
        invariant
            i <= n,
            power == pow10(i as nat),
        decreases n - i,
    {
        if power > u128::MAX / 10 {
            proof {
                lemma_pow10_grows((i + 1) as nat, n as nat);
            }
            return None;
        }
        power = power * 10;
        i = i + 1;
    }
    Some(power)
}

/// The price that a quoted amount stands for; `None` if 64 bits do not hold it.
pub fn quote_to_price(raw: u128, decimals: u32) -> (r: Option<i64>)
    ensures
        r == (if quote_price(raw as int, decimals as nat) <= i64::MAX {
            Some(quote_price(raw as int, decimals as nat) as i64)
        } else {
            None
        }),
{
    proof {
        crate::decimal::lemma_pow10_eight();
    }
    if decimals >= 8 {
        proof {
            lemma_pow10_adds(8, (decimals - 8) as nat);
            lemma_pow10_grows(0, (decimals - 8) as nat);
            let rest = pow10((decimals - 8) as nat);
            assert(raw * PRICE_SCALE >= 0) by (nonlinear_arith)
                requires
                    raw >= 0,
                    PRICE_SCALE > 0,
            ;
            vstd::arithmetic::div_mod::lemma_div_denominator(raw * PRICE_SCALE, PRICE_SCALE as int, rest);
            vstd::arithmetic::div_mod::lemma_div_multiples_vanish(raw as int, PRICE_SCALE as int);
            assert(raw * PRICE_SCALE == PRICE_SCALE * raw) by (nonlinear_arith);
            assert(quote_price(raw as int, decimals as nat) == raw as int / rest);
        }
        let price: u128 = match power_of_ten(decimals - 8) {
            Some(divisor) => raw / divisor,
            None => {
                proof {
                    vstd::arithmetic::div_mod::lemma_basic_div(
                        raw as int,
                        pow10((decimals - 8) as nat),
                    );
                }
                0
            },
        };
        if price > 0x7fff_ffff_ffff_ffff {
            None
        } else {
            Some(price as i64)
        }
    } else {
        let factor = match power_of_ten(8 - decimals) {
            Some(f) => f,
            None => {
                proof {
                    lemma_pow10_grows((8 - decimals) as nat, 8);
                }
                return None;
            },
        };
        proof {
            lemma_pow10_adds((8 - decimals) as nat, decimals as nat);
            lemma_pow10_grows((8 - decimals) as nat, 8);
            lemma_pow10_grows(0, decimals as nat);
            let unit = pow10(decimals as nat);
            assert(raw * PRICE_SCALE == unit * (raw * factor)) by (nonlinear_arith)
                requires
                    PRICE_SCALE == factor * unit,
            ;
            vstd::arithmetic::div_mod::lemma_div_multiples_vanish(raw * factor, unit);
            assert(quote_price(raw as int, decimals as nat) == raw * factor);
            assert(raw * factor >= raw) by (nonlinear_arith)
                requires
                    factor >= 1,
                    raw >= 0,
            ;
        }
        if raw > 0x7fff_ffff_ffff_ffff {
            return None;
        }
        proof {
            assert(raw * factor <= 0x7fff_ffff_ffff_ffff * 100_000_000) by (nonlinear_arith)
                requires
                    0 <= raw <= 0x7fff_ffff_ffff_ffff,
                    1 <= factor <= 100_000_000,
            ;
        }
        let price: u128 = raw * factor;
        if price > 0x7fff_ffff_ffff_ffff {
            None
        } else {
            Some(price as i64)
        }
    }
}

/// A price that was collected for a pair of the table.
#[derive(Clone, Copy, Debug, PartialEq, Eq, Structural)]
pub struct CollectedPrice {
    /// The place of the pair in the table of supported pairs.
    pub pair: usize,
    /// The price, in parts of `PRICE_SCALE`.
    pub price: i64,
}

/// The price collected for the `i`-th pair, if the source answered for it and the
/// answer stands for a price.
pub open spec fn collected(pairs: Seq<Pair>, quotes: Seq<Option<u128>>, i: int) -> Option<
    CollectedPrice,
> {
    if quotes[i] is Some && quote_price(quotes[i]->0 as int, pairs[i].price_decimals as nat)
        <= i64::MAX {
        Some(
            CollectedPrice {
                pair: i as usize,
                price: quote_price(quotes[i]->0 as int, pairs[i].price_decimals as nat) as i64,
            },
        )
    } else {
        None
    }
}

/// The prices collected for the first `n` pairs, in the order of the table. A pair
/// for which the source failed is skipped; the prices of the others stay with
/// their pairs.
pub open spec fn collected_prices(pairs: Seq<Pair>, quotes: Seq<Option<u128>>, n: int) -> Seq<
    CollectedPrice,
>
    decreases n,
{
    if n <= 0 {
        Seq::empty()
    } else {
        let rest = collected_prices(pairs, quotes, n - 1);
        match collected(pairs, quotes, n - 1) {
            Some(c) => rest.push(c),
            None => rest,
        }
    }
}

/// Turns the answers of the price source into prices. `quotes` holds for each
/// pair, in the order of the table, the amount that the source quoted for one unit,
/// or `None` where it failed.
pub fn fetch_prices(pairs: &Vec<Pair>, quotes: &Vec<Option<u128>>) -> (prices: Vec<CollectedPrice>)
    ensures
        prices@ == collected_prices(
            pairs@,
            quotes@,
            if pairs@.len() <= quotes@.len() {
                pairs@.len() as int
            } else {
                quotes@.len() as int
            },
        ),
{
    let n = if pairs.len() <= quotes.len() {
        pairs.len()
    } else {
        quotes.len()
    };
    let mut prices: Vec<CollectedPrice> = Vec::new();
    let mut i: usize = 0;
    while i < n
        invariant
            i <= n,
            n <= pairs.len(),
            n <= quotes.len(),
            prices@ == collected_prices(pairs@, quotes@, i as int),
        decreases n - i,
    {
        match quotes[i] {
            Some(raw) => {
                match quote_to_price(raw, pairs[i].price_decimals) {
                    Some(price) => prices.push(CollectedPrice { pair: i, price }),
                    None => {},
                }
            },
            None => {},
        }
        i = i + 1;
    }
    prices
}

/// A datapoint that was collected for a pair of the table.
#[derive(Clone, Copy, Debug, PartialEq, Eq, Structural)]
pub struct CollectedDatapoint {
    /// The place of the pair in the table of supported pairs.
    pub pair: usize,
    /// The datapoint to store for it.
    pub datapoint: Datapoint,
}

/// The datapoints of one collection cycle: each collected price at the same
/// timestamp.
pub open spec fn stamped(prices: Seq<CollectedPrice>, timestamp: i64) -> Seq<CollectedDatapoint> {
    Seq::new(
        prices.len(),
        |i: int|
            CollectedDatapoint {
                pair: prices[i].pair,
                datapoint: Datapoint { price: prices[i].price, timestamp: timestamp },
            },
    )
}

/// Makes the datapoints of one collection cycle. All prices of a cycle are stored
/// under one timestamp, the whole minute nearest to the time of collection.
/// `None` where that time cannot be rounded.
pub fn collect_prices(prices: &Vec<CollectedPrice>, secs: i64, nanos: u32) -> (r: Option<
    Vec<CollectedDatapoint>,
>)
    ensures
        r is Some <==> nanos < NANOS_PER_SEC && representable(secs as int) && nanos_representable(
            secs as int,
            nanos as int,
        ),
        r is Some ==> r->0@ == stamped(prices@, nearest_minute(secs as int, nanos as int) as i64),
{
    let timestamp = match collection_timestamp(secs, nanos) {
        Some(t) => t,
        None => return None,
    };
    let mut out: Vec<CollectedDatapoint> = Vec::new();
    let mut i: usize = 0;
    while i < prices.len()
        invariant
            i <= prices.len(),
            out@.len() == i,
            forall|k: int|
                0 <= k < i ==> out@[k] == (CollectedDatapoint {
                    pair: prices@[k].pair,
                    datapoint: Datapoint { price: prices@[k].price, timestamp: timestamp },
                }),
        decreases prices.len() - i,
    {
        let c = prices[i];
        out.push(
            CollectedDatapoint {
                pair: c.pair,
                datapoint: Datapoint { price: c.price, timestamp },
            },
        );
        i = i + 1;
    }
    proof {
        assert(out@ =~= stamped(prices@, timestamp));
    }
    Some(out)
}

/// What a collection cycle came to.
#[derive(Clone, Debug, PartialEq, Eq)]
pub struct CycleOutcome {
    /// The pairs whose datapoint was stored, by their place in the table of
    /// supported pairs, in the order of the cycle.
    pub stored: Vec<usize>,
    /// The timestamp to announce the new prices with: that of the first datapoint
    /// that was stored; `None` where none was, and nothing is to be announced.
    pub notify: Option<i64>,
}

/// The pairs among the first `n` of a cycle whose write succeeded, in order.
/// `written` holds for each datapoint of the cycle whether it was stored.
pub open spec fn stored_pairs(
    collected: Seq<CollectedDatapoint>,
    written: Seq<bool>,
    n: int,
) -> Seq<usize>
    decreases n,
{
    if n <= 0 {
        Seq::empty()
    } else {
        let rest = stored_pairs(collected, written, n - 1);
        if written[n - 1] {
            rest.push(collected[n - 1].pair)
        } else {
            rest
        }
    }
}

/// The timestamp of the first datapoint among the first `n` of a cycle whose
/// write succeeded.
pub open spec fn first_stored_timestamp(
    collected: Seq<CollectedDatapoint>,
    written: Seq<bool>,
    n: int,
) -> Option<i64>
    decreases n,
{
    if n <= 0 {
        None
    } else {
        match first_stored_timestamp(collected, written, n - 1) {
            Some(t) => Some(t),
            None => if written[n - 1] {
                Some(collected[n - 1].datapoint.timestamp)
            } else {
                None
            },
        }
    }
}

/// Sums a collection cycle up. `written` holds, for each datapoint of the cycle in
/// order, whether the store took it. A failed write concerns its own pair only:
/// every pair whose write succeeded counts as stored, whatever became of the
/// others, and the new prices are announced if at least one was stored.
pub fn cycle_outcome(collected: &Vec<CollectedDatapoint>, written: &Vec<bool>) -> (outcome:
    CycleOutcome)
    ensures
        outcome.stored@ == stored_pairs(
            collected@,
            written@,
            if collected@.len() <= written@.len() {
                collected@.len() as int
            } else {
                written@.len() as int
            },
        ),
        outcome.notify == first_stored_timestamp(
            collected@,
            written@,
            if collected@.len() <= written@.len() {
                collected@.len() as int
            } else {
                written@.len() as int
            },
        ),
{
    let n = if collected.len() <= written.len() {
        collected.len()
    } else {
        written.len()
    };
    let mut stored: Vec<usize> = Vec::new();
    let mut notify: Option<i64> = None;
    let mut i: usize = 0;
    while i < n
        invariant
            i <= n,
            n <= collected.len(),
            n <= written.len(),
            stored@ == stored_pairs(collected@, written@, i as int),
            notify == first_stored_timestamp(collected@, written@, i as int),
        decreases n - i,
    {
        if written[i] {
            stored.push(collected[i].pair);
            if notify.is_none() {
                notify = Some(collected[i].datapoint.timestamp);
            }
        }
        i = i + 1;
    }
    CycleOutcome { stored, notify }
}

/// One pair's failure never holds back another: of the first `n` datapoints of a
/// cycle, each one whose write succeeded has its pair among the stored ones.
/// Something is announced exactly if something was stored, and where all
/// datapoints of the cycle carry one timestamp, it is announced with that one.
pub proof fn lemma_cycle_outcome(
    collected: Seq<CollectedDatapoint>,
    written: Seq<bool>,
    n: int,
    timestamp: i64,
)
    requires
        0 <= n <= collected.len(),
        n <= written.len(),
    ensures
        forall|i: int|
            0 <= i < n && written[i] ==> stored_pairs(collected, written, n).contains(
                (#[trigger] collected[i]).pair,
            ),
        stored_pairs(collected, written, n).len() <= n,
        first_stored_timestamp(collected, written, n) is Some <==> stored_pairs(
            collected,
            written,
            n,
        ).len() > 0,
        (forall|i: int| 0 <= i < n ==> (#[trigger] collected[i]).datapoint.timestamp == timestamp)
            && first_stored_timestamp(collected, written, n) is Some ==> first_stored_timestamp(
            collected,
            written,
            n,
        ) == Some(timestamp),
    decreases n,
{
    if n > 0 {
        lemma_cycle_outcome(collected, written, n - 1, timestamp);
        let rest = stored_pairs(collected, written, n - 1);
        let all = stored_pairs(collected, written, n);
        assert forall|i: int| 0 <= i < n && written[i] implies all.contains(
            (#[trigger] collected[i]).pair,
        ) by {
            if i < n - 1 {
                assert(rest.contains(collected[i].pair));
                let k = choose|k: int| 0 <= k < rest.len() && rest[k] == collected[i].pair;
                assert(all[k] == rest[k]);
            } else {
                assert(all[all.len() - 1] == collected[i].pair);
            }
        }
    }
}

/// The prices of the datapoints, in order.
pub open spec fn prices_of(datapoints: Seq<Datapoint>) -> Seq<i64> {
    Seq::new(datapoints.len(), |i: int| datapoints[i].price)
}

/// The timestamps of the datapoints, in order.
pub open spec fn stamps_of(datapoints: Seq<Datapoint>) -> Seq<i64> {
    Seq::new(datapoints.len(), |i: int| datapoints[i].timestamp)
}

/// The two lists that are pushed to the store for a batch of datapoints: the
/// prices, then the timestamps. They have the same length and the same order.
pub fn store_columns(datapoints: &Vec<Datapoint>) -> (r: (Vec<i64>, Vec<i64>))
    ensures
        r.0@ == prices_of(datapoints@),
        r.1@ == stamps_of(datapoints@),
        r.0@.len() == r.1@.len(),
{
    let mut prices: Vec<i64> = Vec::new();
    let mut timestamps: Vec<i64> = Vec::new();
    let mut i: usize = 0;
    while i < datapoints.len()
        invariant
            i <= datapoints.len(),
            prices@ == prices_of(datapoints@.take(i as int)),
            timestamps@ == stamps_of(datapoints@.take(i as int)),
        decreases datapoints.len() - i,
    {
        prices.push(datapoints[i].price);
        timestamps.push(datapoints[i].timestamp);
        proof {
            assert(prices@ =~= prices_of(datapoints@.take(i + 1)));
            assert(timestamps@ =~= stamps_of(datapoints@.take(i + 1)));
        }
        i = i + 1;
    }
    proof {
        assert(datapoints@.take(datapoints.len() as int) =~= datapoints@);
    }
    (prices, timestamps)
}

/// The prices of a batch of datapoints as the store holds them: as decimal numbers
/// in text, one for each datapoint, in order.
pub fn price_texts(datapoints: &Vec<Datapoint>) -> (texts: Vec<String>)
    ensures
        texts@.len() == datapoints@.len(),
        forall|i: int|
            0 <= i < texts@.len() ==> (#[trigger] texts@[i])@ == decimal_text(
                datapoints@[i].price as int,
            ),
{
    let mut texts: Vec<String> = Vec::new();
    let mut i: usize = 0;
    while i < datapoints.len()
        invariant
            i <= datapoints.len(),
            texts@.len() == i,
            forall|k: int|
                0 <= k < i ==> (#[trigger] texts@[k])@ == decimal_text(datapoints@[k].price as int),
        decreases datapoints.len() - i,
    {
        texts.push(format_decimal(datapoints[i].price));
        i = i + 1;
    }
    texts
}

/// Whether every text stands for a price.
pub open spec fn all_prices(texts: Seq<String>) -> bool {
    forall|i: int| 0 <= i < texts.len() ==> decimal_value((#[trigger] texts[i])@) is Some
}

/// Reads the prices of a pair as the store holds them. A value that does not read
/// as a price is a fault of the stored data.
pub fn read_price_texts(texts: &Vec<String>) -> (r: Result<Vec<i64>, EngineError>)
    ensures
        !all_prices(texts@) ==> r == Err::<Vec<i64>, EngineError>(EngineError::DataIntegrity),
        all_prices(texts@) ==> r is Ok && r->Ok_0@.len() == texts@.len() && forall|i: int|
            0 <= i < texts@.len() ==> decimal_value(texts@[i]@) == Some(
                (#[trigger] r->Ok_0@[i]) as int,
            ),
{
    let mut prices: Vec<i64> = Vec::new();
    let mut i: usize = 0;
    while i < texts.len()
        invariant
            i <= texts.len(),
            prices@.len() == i,
            forall|k: int| 0 <= k < i ==> decimal_value(texts@[k]@) == Some((#[trigger] prices@[k]) as int),
        decreases texts.len() - i,
    {
        match parse_decimal(texts[i].as_str()) {
            Some(price) => prices.push(price),
            None => {
                proof {
                    assert(decimal_value(texts@[i as int]@) is None);
                }
                return Err(EngineError::DataIntegrity);
            },
        }
        i = i + 1;
    }
    proof {
        assert forall|k: int| 0 <= k < texts@.len() implies decimal_value(
            (#[trigger] texts@[k])@,
        ) is Some by {
            assert(decimal_value(texts@[k]@) == Some(prices@[k] as int));
        }
    }
    Ok(prices)
}

/// The key of the prices of a pair in the store.
pub fn prices_key(pair: &str) -> (key: String)
    ensures
        key@ == pair@ + ":prices"@,
{
    let mut key = pair.to_owned();
    key.append(":prices");
    key
}

/// The key of the timestamps of a pair in the store.
pub fn timestamps_key(pair: &str) -> (key: String)
    ensures
        key@ == pair@ + ":timestamps"@,
{
    let mut key = pair.to_owned();
    key.append(":timestamps");
    key
}

/// Judges the two pushes of an append. Each push reports the length of its list
/// after it, or `None` where it failed or was not confirmed. An append holds only
/// if both pushes were confirmed and left both lists equally long; lists of
/// different lengths are reported, so that a failed push never goes unnoticed.
pub fn confirm_append(prices_len: Option<i64>, timestamps_len: Option<i64>) -> (r: Result<
    (),
    EngineError,
>)
    ensures
        prices_len is None || timestamps_len is None ==> r == Err::<(), EngineError>(
            EngineError::StoreUnavailable,
        ),
        prices_len is Some && timestamps_len is Some && prices_len->0 != timestamps_len->0 ==> r
            == Err::<(), EngineError>(EngineError::DataIntegrity),
        prices_len is Some && timestamps_len is Some && prices_len->0 == timestamps_len->0 ==> r
            == Ok::<(), EngineError>(()),
{
    match (prices_len, timestamps_len) {
        (Some(p), Some(t)) => if p == t {
            Ok(())
        } else {
            Err(EngineError::DataIntegrity)
        },
        _ => Err(EngineError::StoreUnavailable),
    }
}

/// Appends a batch of datapoints to the series of a pair, in order, each with its
/// price and its timestamp in step. Returns how many were stored.
pub fn store_prices(series: &mut Series, datapoints: Vec<Datapoint>) -> (r: Result<usize, EngineError>)
    requires
        old(series).wf(),
    ensures
        final(series).wf(),
        final(series)@ == old(series)@ + datapoints@,
        r == Ok::<usize, EngineError>(datapoints@.len() as usize),
{
    let count = datapoints.len();
    let mut i: usize = 0;
    while i < count
        invariant
            i <= count,
            count == datapoints.len(),
            series.wf(),
            series@ == old(series)@ + datapoints@.take(i as int),
        decreases count - i,
    {
        series.append(datapoints[i]);
        proof {
            assert(old(series)@ + datapoints@.take(i + 1) =~= (old(series)@ + datapoints@.take(
                i as int,
            )).push(datapoints@[i as int]));
        }
        i = i + 1;
    }
    proof {
        assert(datapoints@.take(count as int) =~= datapoints@);
    }
    Ok(count)
}

} // verus!
