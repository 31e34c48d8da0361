//! The range query engine: from a request for so many datapoints at such a
//! granularity, optionally as of a given time, to the window of the stored series
//! that answers it and the samples of that window that lie on the coarser grid.

use crate::clock::{slot, slot_of};
use crate::datapoint::{ascending, Datapoint};
use crate::error::EngineError;
use crate::order::{chronological, lemma_chronological, sort_by_timestamp};
use crate::pair::{get_pair, unknown, Pair};
use crate::series::{paired, window, Series};
use crate::COLLECTION_INTERVAL_SECS;
use vstd::prelude::*;

verus! {

/// The most datapoints one request is answered with.
pub const MAX_DATAPOINTS: u16 = 720;

/// How many native samples make one sample at the requested interval, or why the
/// interval is refused: it has to be at least the native interval and a whole
/// multiple of it.
pub open spec fn multiplier_of(interval: int, native: int) -> Result<int, EngineError>
    recommends
        native > 0,
{
    if interval < native {
        Err(EngineError::IntervalTooSmall)
    } else if interval % native != 0 {
        Err(EngineError::IntervalMisaligned)
    } else {
        Ok(interval / native)
    }
}

/// How many samples the window is moved back from the tail so that it ends at the
/// slot that holds `before`. A time after the tail moves nothing.
pub open spec fn tail_offset(last: int, before: Option<i64>, native: int) -> int
    recommends
        native > 0,
{
    match before {
        None => 0,
        Some(t) => if slot_of(last, native) > slot_of(t as int, native) {
            slot_of(last, native) - slot_of(t as int, native)
        } else {
            0
        },
    }
}

/// Whether a window of `base_amount` samples that ends `offset` samples before the
/// tail can be read: something is asked for, and an index can name where the
/// window begins.
pub open spec fn readable(base_amount: int, offset: int) -> bool {
    0 < base_amount && base_amount + offset <= i64::MAX
}

/// The native samples a request is answered from: `base_amount` of them, ending
/// `offset` samples before the tail. A request for nothing is answered from
/// nothing, and so is one whose window begins further back than an index can name.
pub open spec fn query_window(series: Seq<Datapoint>, base_amount: int, offset: int) -> Seq<
    Datapoint,
> {
    if readable(base_amount, offset) {
        window(series, -(base_amount + offset), -1 - offset)
    } else {
        Seq::empty()
    }
}

/// Whether a timestamp lies on the grid of `interval` seconds.
pub open spec fn on_grid(timestamp: int, interval: int) -> bool {
    timestamp % interval == 0
}

/// The datapoints of `points` whose timestamp lies on the grid of `interval`
/// seconds, in their order. A sample is selected as it is; nothing is averaged.
pub open spec fn select_aligned(points: Seq<Datapoint>, interval: int) -> Seq<Datapoint>
    decreases points.len(),
{
    if points.len() == 0 {
        Seq::empty()
    } else {
        let rest = select_aligned(points.drop_last(), interval);
        if on_grid(points.last().timestamp as int, interval) {
            rest.push(points.last())
        } else {
            rest
        }
    }
}

/// The answer to a request for `amount` datapoints at `interval` seconds, as of
/// `before` if given, from a series sampled every `native` seconds: in the order of
/// the series.
pub open spec fn query_result(
    series: Seq<Datapoint>,
    native: int,
    amount: int,
    interval: int,
    before: Option<i64>,
) -> Result<Seq<Datapoint>, EngineError>
    recommends
        native > 0,
{
    match multiplier_of(interval, native) {
        Err(e) => Err(e),
        Ok(multiplier) => if before is Some && series.len() == 0 {
            Err(EngineError::EmptySeries)
        } else {
            let offset = if series.len() == 0 {
                0
            } else {
                tail_offset(series.last().timestamp as int, before, native)
            };
            Ok(select_aligned(query_window(series, amount * multiplier, offset), interval))
        },
    }
}

/// Whether `r` is the executable form of the answer `expected`.
pub open spec fn answers(
    r: Result<Vec<Datapoint>, EngineError>,
    expected: Result<Seq<Datapoint>, EngineError>,
) -> bool {
    match expected {
        Ok(points) => r is Ok && r->Ok_0@ == points,
        Err(e) => r == Err::<Vec<Datapoint>, EngineError>(e),
    }
}

/// Checks the requested interval against the native one and gives the multiplier.
pub fn validate_interval(interval: u32, native: u32) -> (r: Result<u32, EngineError>)
    requires
        native > 0,
    ensures
        match multiplier_of(interval as int, native as int) {
            Ok(m) => r == Ok::<u32, EngineError>(m as u32) && 1 <= m <= u32::MAX,
            Err(e) => r == Err::<u32, EngineError>(e),
        },
{
    if interval < native {
        return Err(EngineError::IntervalTooSmall);
    }
    if interval % native != 0 {
        return Err(EngineError::IntervalMisaligned);
    }
    let m = interval / native;
    proof {
        vstd::arithmetic::div_mod::lemma_fundamental_div_mod(interval as int, native as int);
        assert(m >= 1) by (nonlinear_arith)
            requires
                interval >= native,
                native > 0,
                interval == native * m + 0,
        ;
    }
    Ok(m)
}

/// How far back from the tail the window ends, for a request as of `before`.
pub fn offset_before(last: i64, before: i64, native: u32) -> (offset: u64)
    requires
        native > 0,
    ensures
        offset == tail_offset(last as int, Some(before), native as int),
{
    let last_slot = slot(last, native as i64);
    let before_slot = slot(before, native as i64);
    proof {
        lemma_slot_in_range(last as int, native as int);
        lemma_slot_in_range(before as int, native as int);
    }
    if last_slot > before_slot {
        ((last_slot as i128) - (before_slot as i128)) as u64
    } else {
        0
    }
}

/// The slot of a 64-bit timestamp is a 64-bit number.
proof fn lemma_slot_in_range(t: int, native: int)
    requires
        native > 0,
        i64::MIN <= t <= i64::MAX,
    ensures
        i64::MIN <= slot_of(t, native) <= i64::MAX,
{
    crate::clock::lemma_floor_to(t, native);
    let s = slot_of(t, native);
    assert(i64::MIN <= s <= i64::MAX) by (nonlinear_arith)
        requires
            native > 0,
            i64::MIN <= t <= i64::MAX,
            s * native <= t < (s + 1) * native,
    ;
}

/// The two indexes to read the store with: from `amount * multiplier + offset`
/// samples before the end to `offset` samples before the most recent one. `None`
/// where there is nothing to read.
pub fn window_bounds(amount: u16, multiplier: u32, offset: u64) -> (r: Option<(i64, i64)>)
    ensures
        r is Some <==> readable(amount * multiplier, offset as int),
        r matches Some(bounds) ==> bounds.0 == -(amount * multiplier + offset) && bounds.1 == -1
            - offset,
{
    let base = base_amount(amount, multiplier);
    let depth: u128 = (base as u128) + (offset as u128);
    if base == 0 || depth > 0x7fff_ffff_ffff_ffff {
        return None;
    }
    let start: i128 = -(depth as i128);
    let stop: i128 = -1 - (offset as i128);
    Some((start as i64, stop as i64))
}

/// The number of native samples that `amount` samples at `multiplier` times the
/// native interval span.
pub fn base_amount(amount: u16, multiplier: u32) -> (base: u64)
    ensures
        base == amount * multiplier,
        base <= 0xffff * 0xffff_ffff,
{
    proof {
        assert(amount * multiplier <= 0xffff * 0xffff_ffff) by (nonlinear_arith)
            requires
                0 <= amount <= 0xffff,
                0 <= multiplier <= 0xffff_ffff,
        ;
    }
    (amount as u64) * (multiplier as u64)
}

/// The datapoints whose timestamp lies on the grid of `interval` seconds.
pub fn select(points: &Vec<Datapoint>, interval: u32) -> (out: Vec<Datapoint>)
    requires
        interval > 0,
    ensures
        out@ == select_aligned(points@, interval as int),
{
    let mut out: Vec<Datapoint> = Vec::new();
    let mut i: usize = 0;
    while i < points.len()
        invariant
            interval > 0,
            i <= points.len(),
            out@ == select_aligned(points@.take(i as int), interval as int),
        decreases points.len() - i,
    {
        let p = points[i];
        proof {
            let next = points@.take(i + 1);
            assert(next.drop_last() =~= points@.take(i as int));
            assert(next.last() == p);
            if p.timestamp < 0 {
                crate::clock::lemma_div_mod_of_negative(-(p.timestamp as int), interval as int);
            }
        }
        if p.timestamp % (interval as i64) == 0 {
            out.push(p);
        }
        i = i + 1;
    }
    proof {
        assert(points@.take(points.len() as int) =~= points@);
    }
    out
}

/// A request that has passed validation.
#[derive(Clone, Copy, Debug, PartialEq, Eq, Structural)]
pub struct Query {
    /// How many datapoints are asked for.
    pub amount: u16,
    /// How many native samples make one sample at the requested interval.
    pub multiplier: u32,
    /// The requested interval in seconds.
    pub interval: u32,
    /// The native interval in seconds.
    pub native: u32,
    /// The time the request is as of, if it is not as of now.
    pub before: Option<i64>,
}

/// What is to be done next for a request.
#[derive(Clone, Copy, Debug, PartialEq, Eq, Structural)]
pub enum Step {
    /// Read the timestamp at the tail of the series and hand it to
    /// `on_last_timestamp`.
    ReadLast(Query),
    /// Read both columns of the series between the two indexes and hand them to
    /// `finish_query`.
    ReadWindow { query: Query, start: i64, stop: i64 },
    /// There is nothing to read: the answer is empty.
    Empty,
}

/// The step that reads the window of a request whose window ends `offset` samples
/// before the tail.
pub open spec fn window_step(query: Query, offset: int) -> Step {
    if readable(query.amount * query.multiplier, offset) {
        Step::ReadWindow {
            query: query,
            start: (-(query.amount * query.multiplier + offset)) as i64,
            stop: (-1 - offset) as i64,
        }
    } else {
        Step::Empty
    }
}

/// The first step of a request, or why the request is refused.
pub open spec fn first_step(native: int, amount: u16, interval: int, before: Option<i64>) -> Result<
    Step,
    EngineError,
> {
    match multiplier_of(interval, native) {
        Err(e) => Err(e),
        Ok(multiplier) => {
            let query = Query {
                amount: amount,
                multiplier: multiplier as u32,
                interval: interval as u32,
                native: native as u32,
                before: before,
            };
            Ok(
                if before is Some {
                    Step::ReadLast(query)
                } else {
                    window_step(query, 0)
                },
            )
        },
    }
}

/// The step after the tail of the series was read: `last` is its timestamp, `None`
/// where the series is empty.
pub open spec fn step_after_last(query: Query, last: Option<i64>) -> Result<Step, EngineError> {
    match last {
        None => Err(EngineError::EmptySeries),
        Some(t) => Ok(window_step(query, tail_offset(t as int, query.before, query.native as int))),
    }
}

/// The step that reads the window.
fn read_window(query: Query, offset: u64) -> (step: Step)
    ensures
        step == window_step(query, offset as int),
{
    match window_bounds(query.amount, query.multiplier, offset) {
        Some((start, stop)) => Step::ReadWindow { query, start, stop },
        None => Step::Empty,
    }
}

/// Begins a request for `amount` datapoints at `interval` seconds, as of `before`
/// if given, on a series sampled every `native` seconds.
pub fn open_query(native: u32, amount: u16, interval: u32, before: Option<i64>) -> (r: Result<
    Step,
    EngineError,
>)
    requires
        native > 0,
    ensures
        r == first_step(native as int, amount, interval as int, before),
{
    let multiplier = validate_interval(interval, native)?;
    let query = Query { amount, multiplier, interval, native, before };
    match before {
        Some(_) => Ok(Step::ReadLast(query)),
        None => Ok(read_window(query, 0)),
    }
}

/// Goes on with a request after the tail of the series was read. `last` is the
/// timestamp at the tail, `None` where the series is empty.
pub fn on_last_timestamp(query: Query, last: Option<i64>) -> (r: Result<Step, EngineError>)
    requires
        query.native > 0,
    ensures
        r == step_after_last(query, last),
        r is Ok ==> !(r->Ok_0 is ReadLast),
{
    match last {
        None => Err(EngineError::EmptySeries),
        Some(t) => {
            let offset = match query.before {
                Some(before) => offset_before(t, before, query.native),
                None => 0,
            };
            Ok(read_window(query, offset))
        },
    }
}

/// Answers a request for `amount` datapoints at `interval` seconds from a series
/// sampled every `native` seconds, as of `before` if given. The answer is in the
/// order of the series.
pub fn range_query(
    series: &Series,
    native: u32,
    amount: u16,
    interval: u32,
    before: Option<i64>,
) -> (r: Result<Vec<Datapoint>, EngineError>)
    requires
        series.wf(),
        native > 0,
    ensures
        answers(r, query_result(series@, native as int, amount as int, interval as int, before)),
{
    let first = open_query(native, amount, interval, before)?;
    let next = match first {
        Step::ReadLast(query) => {
            let last = match series.last_timestamp() {
                Ok(t) => Some(t),
                Err(_) => None,
            };
            on_last_timestamp(query, last)?
        },
        other => other,
    };
    match next {
        Step::ReadWindow { query, start, stop } => {
            let native_points = series.range(start, stop);
            Ok(select(&native_points, query.interval))
        },
        _ => Ok(Vec::new()),
    }
}

/// The answer to a request at `interval` minutes for the pair named `name`, from
/// the stored series of that pair: in the order of the series. The interval is
/// checked first, then the pair.
pub open spec fn stored_prices(
    supported: Seq<Pair>,
    name: Seq<char>,
    series: Seq<Datapoint>,
    amount: int,
    interval: int,
    before: Option<i64>,
) -> Result<Seq<Datapoint>, EngineError> {
    match multiplier_of(60 * interval, COLLECTION_INTERVAL_SECS as int) {
        Err(e) => Err(e),
        Ok(_) => if unknown(supported, name) {
            Err(EngineError::PairNotFound)
        } else {
            query_result(series, COLLECTION_INTERVAL_SECS as int, amount, 60 * interval, before)
        },
    }
}

/// The amount a request is answered with: what was asked for, or everything where
/// nothing was, but never more than `MAX_DATAPOINTS`.
pub open spec fn capped(amount: Option<u16>) -> int {
    match amount {
        Some(a) => if a <= MAX_DATAPOINTS {
            a as int
        } else {
            MAX_DATAPOINTS as int
        },
        None => MAX_DATAPOINTS as int,
    }
}

/// The answer a client gets: that of `stored_prices` for the capped amount, oldest
/// first.
pub open spec fn served_prices(
    supported: Seq<Pair>,
    name: Seq<char>,
    series: Seq<Datapoint>,
    interval: int,
    amount: Option<u16>,
    at: Option<i64>,
) -> Result<Seq<Datapoint>, EngineError> {
    match stored_prices(supported, name, series, capped(amount), interval, at) {
        Ok(points) => Ok(chronological(points)),
        Err(e) => Err(e),
    }
}

/// The amount a request is answered with.
pub fn capped_amount(amount: Option<u16>) -> (r: u16)
    ensures
        r == capped(amount),
        r <= MAX_DATAPOINTS,
{
    let wanted = match amount {
        Some(a) => a,
        None => u16::MAX,
    };
    if wanted < MAX_DATAPOINTS {
        wanted
    } else {
        MAX_DATAPOINTS
    }
}

/// Makes the answer out of the two columns that were read for a window of the
/// store: pairs them up, selects what lies on the grid of `interval` seconds, and
/// puts it oldest first. Columns of different lengths are cut to the shorter one;
/// the answer is still given, and the fault is reported beside it.
pub fn finish_query(timestamps: Vec<i64>, prices: Vec<i64>, interval: u32) -> (r: (
    Vec<Datapoint>,
    Option<EngineError>,
))
    requires
        interval > 0,
    ensures
        r.0@ == chronological(select_aligned(paired(timestamps@, prices@), interval as int)),
        ascending(r.0@),
        timestamps@.len() == prices@.len() ==> r.1 is None,
        timestamps@.len() != prices@.len() ==> r.1 == Some(EngineError::DataIntegrity),
{
    let (read, fault) = Series::from_columns(timestamps, prices);
    let native_points = read.range(0, -1);
    proof {
        assert(native_points@ =~= read@);
        lemma_chronological(select_aligned(native_points@, interval as int));
    }
    (sort_by_timestamp(&select(&native_points, interval)), fault)
}

/// Answers a request for `amount` datapoints of the pair `pair_string` at
/// `interval` minutes, as of `before` if given, from the stored series of that
/// pair. The answer is in the order of the series.
pub fn get_prices(
    pair_string: &str,
    supported: &Vec<Pair>,
    series: &Series,
    amount: u16,
    interval: u16,
    before: Option<i64>,
) -> (r: Result<Vec<Datapoint>, EngineError>)
    requires
        series.wf(),
    ensures
        answers(
            r,
            stored_prices(
                supported@,
                pair_string@,
                series@,
                amount as int,
                interval as int,
                before,
            ),
        ),
{
    let seconds: u32 = 60 * (interval as u32);
    let native: u32 = COLLECTION_INTERVAL_SECS as u32;
    let _ = validate_interval(seconds, native)?;
    let _ = get_pair(supported, pair_string)?;
    range_query(series, native, amount, seconds, before)
}

/// Serves a request for prices: the amount defaults to the most that is served and
/// is cut to it without complaint, and the answer is given oldest first.
pub fn prices_wrapper(
    pair: &str,
    supported: &Vec<Pair>,
    series: &Series,
    interval: u16,
    amount: Option<u16>,
    at: Option<i64>,
) -> (r: Result<Vec<Datapoint>, EngineError>)
    requires
        series.wf(),
    ensures
        answers(r, served_prices(supported@, pair@, series@, interval as int, amount, at)),
        r is Ok ==> ascending(r->Ok_0@),
{
    let amount = capped_amount(amount);
    match get_prices(pair, supported, series, amount, interval, at) {
        Ok(prices) => {
            proof {
                lemma_chronological(prices@);
            }
            Ok(sort_by_timestamp(&prices))
        },
        Err(error) => Err(error),
    }
}

/// Serves a request for the current price: one datapoint at the native interval,
/// as of `at` if given.
pub fn current(pair: &str, supported: &Vec<Pair>, series: &Series, at: Option<i64>) -> (r: Result<
    Vec<Datapoint>,
    EngineError,
>)
    requires
        series.wf(),
    ensures
        answers(
            r,
            served_prices(
                supported@,
                pair@,
                series@,
                COLLECTION_INTERVAL_SECS as int / 60,
                Some(1u16),
                at,
            ),
        ),
        r is Ok ==> r->Ok_0@.len() <= 1,
{
    let interval: u16 = (COLLECTION_INTERVAL_SECS / 60) as u16;
    let r = prices_wrapper(pair, supported, series, interval, Some(1), at);
    proof {
        if r is Ok {
            let native = COLLECTION_INTERVAL_SECS as int;
            let offset = if series@.len() == 0 {
                0
            } else {
                tail_offset(series@.last().timestamp as int, at, native)
            };
            assert(multiplier_of(300, 300) == Ok::<int, EngineError>(1));
            assert(offset >= 0);
            lemma_query_window_length(series@, 1, offset);
            lemma_select_aligned_length(query_window(series@, 1, offset), native);
            lemma_chronological(select_aligned(query_window(series@, 1, offset), native));
            assert(stored_prices(supported@, pair@, series@, 1, 5, at) == Ok::<
                Seq<Datapoint>,
                EngineError,
            >(select_aligned(query_window(series@, 1, offset), native)));
        }
    }
    r
}

/// A window holds no more samples than were asked for.
pub proof fn lemma_query_window_length(series: Seq<Datapoint>, base_amount: int, offset: int)
    requires
        base_amount >= 0,
        offset >= 0,
    ensures
        query_window(series, base_amount, offset).len() <= base_amount,
        query_window(series, base_amount, offset).len() <= series.len(),
{
}

/// A window that ends before the list begins is empty.
pub proof fn lemma_window_beyond_list(series: Seq<Datapoint>, base_amount: int, offset: int)
    requires
        series.len() <= offset,
    ensures
        query_window(series, base_amount, offset) == Seq::<Datapoint>::empty(),
{
}

/// For every list but one of nearly as many items as an index can count, the
/// window is the last `base_amount` samples before the last `offset` ones, as far
/// as the list has them: that an index has a limit changes nothing.
pub proof fn lemma_query_window_is_the_tail(series: Seq<Datapoint>, base_amount: int, offset: int)
    requires
        0 <= base_amount,
        0 <= offset,
        series.len() + base_amount <= i64::MAX,
    ensures
        query_window(series, base_amount, offset) == series.subrange(
            if series.len() - offset - base_amount > 0 {
                series.len() - offset - base_amount
            } else {
                0
            },
            if series.len() - offset > 0 {
                series.len() - offset
            } else {
                0
            },
        ),
{
    let low = if series.len() - offset - base_amount > 0 {
        series.len() - offset - base_amount
    } else {
        0
    };
    let high = if series.len() - offset > 0 {
        series.len() - offset
    } else {
        0
    };
    assert(query_window(series, base_amount, offset) =~= series.subrange(low, high));
}

/// The selection holds no more samples than the window it is made from.
pub proof fn lemma_select_aligned_length(points: Seq<Datapoint>, interval: int)
    ensures
        select_aligned(points, interval).len() <= points.len(),
    decreases points.len(),
{
    if points.len() > 0 {
        lemma_select_aligned_length(points.drop_last(), interval);
    }
}

/// Where every sample of the window lies on the grid, all of them are selected.
pub proof fn lemma_select_aligned_keeps_grid(points: Seq<Datapoint>, interval: int)
    requires
        forall|i: int| 0 <= i < points.len() ==> on_grid((#[trigger] points[i]).timestamp as int, interval),
    ensures
        select_aligned(points, interval) == points,
    decreases points.len(),
{
    if points.len() > 0 {
        let front = points.drop_last();
        assert forall|i: int| 0 <= i < front.len() implies on_grid(
            (#[trigger] front[i]).timestamp as int,
            interval,
        ) by {
            assert(front[i] == points[i]);
        }
        lemma_select_aligned_keeps_grid(front, interval);
        assert(on_grid(points[points.len() - 1].timestamp as int, interval));
        assert(front.push(points.last()) =~= points);
    } else {
        assert(select_aligned(points, interval) =~= points);
    }
}

/// A request at the native interval, as of now, on a series whose samples all lie
/// on the native grid, is answered with the last `amount` samples of the series,
/// or with all of them where there are fewer.
pub proof fn lemma_native_query_is_the_tail(series: Seq<Datapoint>, native: int, amount: int)
    requires
        native > 0,
        0 < amount <= u16::MAX,
        forall|i: int| 0 <= i < series.len() ==> on_grid((#[trigger] series[i]).timestamp as int, native),
    ensures
        query_result(series, native, amount, native, None) == Ok::<Seq<Datapoint>, EngineError>(
            series.subrange(
                if series.len() > amount {
                    series.len() - amount
                } else {
                    0
                },
                series.len() as int,
            ),
        ),
{
    vstd::arithmetic::div_mod::lemma_div_multiples_vanish(1, native);
    vstd::arithmetic::div_mod::lemma_mod_multiples_basic(1, native);
    assert(multiplier_of(native, native) == Ok::<int, EngineError>(1));
    let from = if series.len() > amount {
        series.len() - amount
    } else {
        0
    };
    let tail = series.subrange(from, series.len() as int);
    assert(query_window(series, amount * 1, 0) =~= tail);
    assert forall|i: int| 0 <= i < tail.len() implies on_grid(
        (#[trigger] tail[i]).timestamp as int,
        native,
    ) by {
        assert(tail[i] == series[from + i]);
    }
    lemma_select_aligned_keeps_grid(tail, native);
}

/// Every selected sample lies on the grid and is a sample of the window.
pub proof fn lemma_select_aligned_members(points: Seq<Datapoint>, interval: int, j: int)
    requires
        0 <= j < select_aligned(points, interval).len(),
    ensures
        on_grid(select_aligned(points, interval)[j].timestamp as int, interval),
        points.contains(select_aligned(points, interval)[j]),
    decreases points.len(),
{
    let rest = select_aligned(points.drop_last(), interval);
    if j < rest.len() {
        lemma_select_aligned_members(points.drop_last(), interval, j);
        let i = choose|i: int| 0 <= i < points.drop_last().len() && points.drop_last()[i] == rest[j];
        assert(points[i] == rest[j]);
    } else {
        assert(points[points.len() - 1] == points.last());
    }
}

/// A query reads and never writes: whatever two runs of the same request on the
/// same series return, they return the same.
pub proof fn lemma_query_is_repeatable(
    series: Seq<Datapoint>,
    native: int,
    amount: int,
    interval: int,
    before: Option<i64>,
    first: Result<Vec<Datapoint>, EngineError>,
    second: Result<Vec<Datapoint>, EngineError>,
)
    requires
        answers(first, query_result(series, native, amount, interval, before)),
        answers(second, query_result(series, native, amount, interval, before)),
    ensures
        first is Ok <==> second is Ok,
        first is Ok ==> first->Ok_0@ == second->Ok_0@,
        first is Err ==> first->Err_0 == second->Err_0,
{
}

/// An amount above the cap is served as the cap, and as a request without an
/// amount; and whether a request fails never depends on the amount.
pub proof fn lemma_amount_is_capped(
    supported: Seq<Pair>,
    name: Seq<char>,
    series: Seq<Datapoint>,
    interval: int,
    amount: u16,
    other: Option<u16>,
    at: Option<i64>,
)
    ensures
        amount >= MAX_DATAPOINTS ==> served_prices(supported, name, series, interval, Some(amount), at)
            == served_prices(supported, name, series, interval, Some(MAX_DATAPOINTS), at),
        amount >= MAX_DATAPOINTS ==> served_prices(supported, name, series, interval, Some(amount), at)
            == served_prices(supported, name, series, interval, None, at),
        served_prices(supported, name, series, interval, Some(amount), at) is Err
            <==> served_prices(supported, name, series, interval, other, at) is Err,
        served_prices(supported, name, series, interval, Some(amount), at) is Err ==> served_prices(
            supported,
            name,
            series,
            interval,
            Some(amount),
            at,
        ) == served_prices(supported, name, series, interval, other, at),
{
}

} // verus!
