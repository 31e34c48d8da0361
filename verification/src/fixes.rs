//! Gap detection and gap repair: which samples are missing since the last stored one,
//! and what the fallback source gives for them.

use crate::clock::{align_down, floor_to, lemma_floor_to, representable, utc_seconds};
use crate::datapoint::{
    strictly_increasing, Datapoint, KrakenDatapoint, KrakenInterval, KRAKEN_MAX_DATAPOINTS,
};
use crate::error::EngineError;
use crate::interpolate::{interpolate_datapoints, interpolated};
use crate::order::{
    chronological, drop_repeats, lemma_chronological, lemma_without_repeats, sort_by_timestamp,
    without_repeats,
};
use crate::price::store_prices;
use crate::series::Series;
use crate::COLLECTION_INTERVAL_SECS;
use std::collections::HashMap;
use vstd::prelude::*;

verus! {

/// A sequence of timestamps as mathematical integers.
pub open spec fn ints(s: Seq<i64>) -> Seq<int> {
    Seq::new(s.len(), |i: int| s[i] as int)
}

/// A sequence of mathematical integers as timestamps.
pub open spec fn stamps(s: Seq<int>) -> Seq<i64> {
    Seq::new(s.len(), |i: int| s[i] as i64)
}

/// How many whole intervals lie between the last stored sample and the aligned present.
pub open spec fn missing_count(last: int, now_aligned: int, interval: int) -> int
    recommends
        interval > 0,
{
    (now_aligned - last) / interval
}

/// The timestamps of the samples that are missing after `last`: one per interval,
/// up to but not including the slot `missing_count` intervals after `last`, which is
/// not yet due.
pub open spec fn missing_timestamps(last: int, now_aligned: int, interval: int) -> Seq<int>
    recommends
        interval > 0,
{
    let count = missing_count(last, now_aligned, interval);
    if count <= 1 {
        Seq::empty()
    } else {
        Seq::new((count - 1) as nat, |k: int| last + (k + 1) * interval)
    }
}

/// The missing timestamps after `last`, as seen at the time `now`, for a series
/// sampled every `interval` seconds. `now` is first aligned down to the interval.
/// A last timestamp that names no second of a representable date is refused.
pub fn detect_gaps(last: i64, now: i64, interval: i64) -> (r: Result<Vec<i64>, EngineError>)
    requires
        interval > 0,
    ensures
        r is Err <==> !representable(last as int),
        r is Err ==> r->Err_0 == EngineError::TimestampOutOfRange,
        r is Ok ==> ints(r->Ok_0@) == missing_timestamps(
            last as int,
            floor_to(now as int, interval as int),
            interval as int,
        ),
{
    if utc_seconds(last).is_none() {
        return Err(EngineError::TimestampOutOfRange);
    }
    proof {
        lemma_floor_to(now as int, interval as int);
    }
    let mut out: Vec<i64> = Vec::new();
    if now < i64::MIN + interval {
        // The boundary at or below `now` lies before every date: nothing is missing.
        proof {
            let aligned = floor_to(now as int, interval as int);
            lemma_count_small(aligned - last, interval as int);
            assert(ints(out@) =~= Seq::<int>::empty());
        }
        return Ok(out);
    }
    let now_aligned = align_down(now, interval);
    let span: i128 = (now_aligned as i128) - (last as i128);
    if span < 2 * (interval as i128) {
        proof {
            lemma_count_small(span as int, interval as int);
            assert(ints(out@) =~= Seq::<int>::empty());
        }
        return Ok(out);
    }
    let count: i128 = span / (interval as i128);
    proof {
        lemma_count_large(span as int, interval as int);
    }
    let ghost target = missing_timestamps(last as int, now_aligned as int, interval as int);
    let mut k: i128 = 1;
    let mut t: i64 = last;
    while k < count
        invariant
            interval > 0,
            1 <= k <= count,
            count == (span as int) / (interval as int),
            span == now_aligned - last,
            count * interval <= span,
            t == last + (k - 1) * interval,
            target == missing_timestamps(last as int, now_aligned as int, interval as int),
            target.len() == count - 1,
            out@.len() == k - 1,
            forall|i: int| 0 <= i < out@.len() ==> out@[i] as int == #[trigger] target[i],
        decreases count - k,
    {
        proof {
            assert(k * interval <= (count - 1) * interval) by (nonlinear_arith)
                requires
                    k <= count - 1,
                    interval > 0,
            ;
            assert((count - 1) * interval == count * interval - interval) by (nonlinear_arith);
            assert(last + k * interval == t + interval) by (nonlinear_arith)
                requires
                    t == last + (k - 1) * interval,
            ;
            assert(target[k - 1] == last + ((k - 1) + 1) * interval);
        }
        t = t + interval;
        out.push(t);
        k = k + 1;
    }
    proof {
        assert(ints(out@) =~= target);
    }
    Ok(out)
}

/// Fewer than two whole intervals: nothing is missing.
proof fn lemma_count_small(span: int, interval: int)
    requires
        interval > 0,
        span < 2 * interval,
    ensures
        span / interval <= 1,
{
    vstd::arithmetic::div_mod::lemma_fundamental_div_mod(span, interval);
    vstd::arithmetic::div_mod::lemma_mod_bound(span, interval);
    let q = span / interval;
    assert(q <= 1) by (nonlinear_arith)
        requires
            interval > 0,
            span < 2 * interval,
            span == interval * q + span % interval,
            0 <= span % interval,
    ;
}

/// At least two whole intervals: the count is at least two and fits in the span.
proof fn lemma_count_large(span: int, interval: int)
    requires
        interval > 0,
        span >= 2 * interval,
    ensures
        span / interval >= 2,
        (span / interval) * interval <= span,
{
    vstd::arithmetic::div_mod::lemma_fundamental_div_mod(span, interval);
    vstd::arithmetic::div_mod::lemma_mod_bound(span, interval);
    let q = span / interval;
    assert(q >= 2 && q * interval <= span) by (nonlinear_arith)
        requires
            interval > 0,
            span >= 2 * interval,
            span == interval * q + span % interval,
            0 <= span % interval < interval,
    ;
}

/// The gap detector for the engine's own sampling period. `last_timestamp` is the
/// tail of the stored timestamps, `None` while nothing is stored; an empty series is
/// left to initialization and is never read as a gap since the epoch. `now` may be
/// any time.
pub fn find_discrepancies(last_timestamp: Option<i64>, now: i64) -> (r: Result<
    Vec<i64>,
    EngineError,
>)
    ensures
        last_timestamp is None ==> r == Err::<Vec<i64>, EngineError>(EngineError::EmptySeries),
        last_timestamp is Some && !representable(last_timestamp->0 as int) ==> r == Err::<
            Vec<i64>,
            EngineError,
        >(EngineError::TimestampOutOfRange),
        last_timestamp is Some && representable(last_timestamp->0 as int) ==> r is Ok && ints(
            r->Ok_0@,
        ) == missing_timestamps(
            last_timestamp->0 as int,
            floor_to(now as int, COLLECTION_INTERVAL_SECS as int),
            COLLECTION_INTERVAL_SECS as int,
        ),
{
    match last_timestamp {
        None => Err(EngineError::EmptySeries),
        Some(last) => detect_gaps(last, now, COLLECTION_INTERVAL_SECS),
    }
}

/// When the aligned present is exactly three intervals after the last stored sample,
/// the samples one and two intervals after it are missing, and the third, not yet
/// due, is not.
pub proof fn lemma_gap_of_three_intervals(last: int, interval: int)
    requires
        interval > 0,
    ensures
        missing_timestamps(last, last + 3 * interval, interval) == seq![
            last + interval,
            last + 2 * interval,
        ],
{
    vstd::arithmetic::div_mod::lemma_div_multiples_vanish(3, interval);
    assert(3 * interval == interval * 3) by (nonlinear_arith);
    assert(missing_count(last, last + 3 * interval, interval) == 3);
    assert(missing_timestamps(last, last + 3 * interval, interval) =~= seq![
        last + interval,
        last + 2 * interval,
    ]) by {
        assert((0 + 1) * interval == interval) by (nonlinear_arith);
        assert((1 + 1) * interval == 2 * interval) by (nonlinear_arith);
    }
}

/// Where `n >= 1` whole intervals lie between the last stored sample and the
/// aligned present, `n - 1` samples are missing; where fewer lie between them,
/// none is.
pub proof fn lemma_missing_timestamps_length(last: int, now_aligned: int, interval: int)
    requires
        interval > 0,
    ensures
        missing_count(last, now_aligned, interval) >= 1 ==> missing_timestamps(
            last,
            now_aligned,
            interval,
        ).len() == missing_count(last, now_aligned, interval) - 1,
        missing_count(last, now_aligned, interval) < 1 ==> missing_timestamps(
            last,
            now_aligned,
            interval,
        ).len() == 0,
{
}

/// The missing timestamps lie strictly between the last stored sample and the
/// aligned present, one interval apart.
pub proof fn lemma_missing_timestamps_bounds(last: int, now_aligned: int, interval: int, k: int)
    requires
        interval > 0,
        0 <= k < missing_timestamps(last, now_aligned, interval).len(),
    ensures
        missing_timestamps(last, now_aligned, interval)[k] == last + (k + 1) * interval,
        last < missing_timestamps(last, now_aligned, interval)[k] < now_aligned,
{
    let span = now_aligned - last;
    let count = span / interval;
    vstd::arithmetic::div_mod::lemma_fundamental_div_mod(span, interval);
    vstd::arithmetic::div_mod::lemma_mod_bound(span, interval);
    assert(last < last + (k + 1) * interval < now_aligned) by (nonlinear_arith)
        requires
            interval > 0,
            0 <= k < count - 1,
            span == interval * count + span % interval,
            0 <= span % interval,
            span == now_aligned - last,
    ;
}

/// What a repair of `gap_count` missing samples asks of the fallback source.
#[derive(Clone, Copy, Debug, PartialEq, Eq, Structural)]
pub struct BackfillPlan {
    /// The granularity to ask the fallback source for.
    pub interval: KrakenInterval,
    /// The length of the outage in whole minutes.
    pub outage_minutes: u128,
    /// Whether the outage is longer than one answer of the fallback source covers, so
    /// that only part of the gap can be repaired.
    pub degraded: bool,
}

/// The length in whole minutes of an outage of `gap_count` missing samples.
pub open spec fn outage_minutes(gap_count: nat) -> nat {
    (COLLECTION_INTERVAL_SECS as nat * gap_count) / 60
}

/// The longest outage, in minutes, that one answer at granularity `interval` covers.
pub open spec fn coverage_minutes(interval: KrakenInterval) -> nat {
    interval.spec_minutes() as nat * KRAKEN_MAX_DATAPOINTS as nat
}

/// Plans the repair of `gap_count` missing samples. The fallback source is always
/// asked at its default granularity, that of the engine's own sampling; an outage it
/// cannot cover, one longer than the answer reaches, is marked as degraded and
/// repaired as far as the answer reaches.
pub fn plan_backfill(gap_count: usize) -> (r: Result<BackfillPlan, EngineError>)
    ensures
        gap_count == 0 ==> r == Err::<BackfillPlan, EngineError>(EngineError::NoDiscrepancies),
        gap_count > 0 ==> r == Ok::<BackfillPlan, EngineError>(
            (BackfillPlan {
                interval: KrakenInterval::FiveMinutes,
                outage_minutes: outage_minutes(gap_count as nat) as u128,
                degraded: outage_minutes(gap_count as nat) > coverage_minutes(
                    KrakenInterval::FiveMinutes,
                ),
            }),
        ),
{
    if gap_count < 1 {
        return Err(EngineError::NoDiscrepancies);
    }
    let outage_secs: u128 = (COLLECTION_INTERVAL_SECS as u128) * (gap_count as u128);
    let outage_minutes: u128 = outage_secs / 60;
    let interval = KrakenInterval::default();
    let max_minutes: u128 = (interval.minutes() as u128) * (KRAKEN_MAX_DATAPOINTS as u128);
    Ok(BackfillPlan { interval, outage_minutes, degraded: outage_minutes > max_minutes })
}

/// The fallback sample at exactly the timestamp `t`: the last one, where the answer
/// holds several.
pub open spec fn sample_at(fallback: Seq<KrakenDatapoint>, t: int) -> Option<KrakenDatapoint>
    decreases fallback.len(),
{
    if fallback.len() == 0 {
        None
    } else if fallback.last().timestamp == t {
        Some(fallback.last())
    } else {
        sample_at(fallback.drop_last(), t)
    }
}

/// The datapoints that repair the gap: for each missing timestamp, in order, the
/// closing price of the fallback sample at exactly that timestamp; a timestamp
/// without such a sample is left out.
pub open spec fn repaired(gaps: Seq<i64>, fallback: Seq<KrakenDatapoint>) -> Seq<Datapoint>
    decreases gaps.len(),
{
    if gaps.len() == 0 {
        Seq::empty()
    } else {
        let rest = repaired(gaps.drop_last(), fallback);
        match sample_at(fallback, gaps.last() as int) {
            Some(sample) => rest.push(Datapoint { price: sample.close, timestamp: gaps.last() }),
            None => rest,
        }
    }
}

/// Whether `index` maps each timestamp of `fallback` to its sample, and nothing else.
pub open spec fn indexes(index: Map<i64, KrakenDatapoint>, fallback: Seq<KrakenDatapoint>) -> bool {
    forall|t: i64|
        (#[trigger] index.contains_key(t) <==> sample_at(fallback, t as int) is Some) && (
        index.contains_key(t) ==> index[t] == sample_at(fallback, t as int)->0)
}

/// The samples of the fallback source by their timestamp.
pub fn index_by_timestamp(fallback: &Vec<KrakenDatapoint>) -> (index: HashMap<i64, KrakenDatapoint>)
    ensures
        indexes(index@, fallback@),
{
    broadcast use vstd::std_specs::hash::group_hash_axioms;

    let mut index: HashMap<i64, KrakenDatapoint> = HashMap::new();
    let mut i: usize = 0;
    while i < fallback.len()
        invariant
            i <= fallback.len(),
            indexes(index@, fallback@.take(i as int)),
        decreases fallback.len() - i,
    {
        let sample = fallback[i];
        let ghost before = index@;
        index.insert(sample.timestamp, sample);
        proof {
            let prefix = fallback@.take(i as int);
            let next = fallback@.take(i + 1);
            assert(next.drop_last() =~= prefix);
            assert(next.last() == sample);
            assert forall|t: i64|
                (#[trigger] index@.contains_key(t) <==> sample_at(next, t as int) is Some) && (
                index@.contains_key(t) ==> index@[t] == sample_at(next, t as int)->0) by {
                if t != sample.timestamp {
                    assert(before.contains_key(t) <==> sample_at(prefix, t as int) is Some);
                }
            }
        }
        i = i + 1;
    }
    proof {
        assert(fallback@.take(fallback.len() as int) =~= fallback@);
    }
    index
}

/// Repairs a gap from the answer of the fallback source. For each missing timestamp
/// it looks for a sample at exactly that timestamp and takes its closing price; a
/// timestamp that the answer does not cover is dropped, never guessed.
pub fn fix_discrepancies(datapoints: Vec<i64>, fallback: &Vec<KrakenDatapoint>) -> (r: Result<
    Vec<Datapoint>,
    EngineError,
>)
    ensures
        datapoints@.len() == 0 ==> r == Err::<Vec<Datapoint>, EngineError>(
            EngineError::NoDiscrepancies,
        ),
        datapoints@.len() > 0 ==> r is Ok && r->Ok_0@ == repaired(datapoints@, fallback@),
{
    broadcast use vstd::std_specs::hash::group_hash_axioms;

    if datapoints.len() < 1 {
        return Err(EngineError::NoDiscrepancies);
    }
    let index = index_by_timestamp(fallback);
    let mut fixed: Vec<Datapoint> = Vec::new();
    let mut i: usize = 0;
    while i < datapoints.len()
        invariant
            i <= datapoints.len(),
            indexes(index@, fallback@),
            fixed@ == repaired(datapoints@.take(i as int), fallback@),
        decreases datapoints.len() - i,
    {
        let t = datapoints[i];
        proof {
            let next = datapoints@.take(i + 1);
            assert(next.drop_last() =~= datapoints@.take(i as int));
            assert(next.last() == t);
            assert(index@.contains_key(t) <==> sample_at(fallback@, t as int) is Some);
        }
        match index.get(&t) {
            Some(sample) => {
                fixed.push(Datapoint { price: sample.close, timestamp: t });
            },
            None => {},
        }
        i = i + 1;
    }
    proof {
        assert(datapoints@.take(datapoints.len() as int) =~= datapoints@);
    }
    Ok(fixed)
}

/// A sample found at a timestamp is a sample of the answer with that timestamp.
pub proof fn lemma_sample_at_is_member(fallback: Seq<KrakenDatapoint>, t: int)
    requires
        sample_at(fallback, t) is Some,
    ensures
        fallback.contains(sample_at(fallback, t)->0),
        sample_at(fallback, t)->0.timestamp == t,
    decreases fallback.len(),
{
    if fallback.last().timestamp == t {
        assert(fallback[fallback.len() - 1] == fallback.last());
    } else {
        lemma_sample_at_is_member(fallback.drop_last(), t);
        let found = sample_at(fallback.drop_last(), t)->0;
        let i = choose|i: int| 0 <= i < fallback.drop_last().len() && fallback.drop_last()[i] == found;
        assert(fallback[i] == found);
    }
}

/// A timestamp that some sample of the answer carries is found.
pub proof fn lemma_member_is_found(fallback: Seq<KrakenDatapoint>, i: int)
    requires
        0 <= i < fallback.len(),
    ensures
        sample_at(fallback, fallback[i].timestamp as int) is Some,
    decreases fallback.len(),
{
    if fallback.last().timestamp != fallback[i].timestamp {
        assert(fallback.drop_last()[i] == fallback[i]);
        lemma_member_is_found(fallback.drop_last(), i);
    }
}

/// A repair never invents: it is no longer than the gap, and each of its datapoints
/// carries a missing timestamp and the closing price of a fallback sample at exactly
/// that timestamp.
pub proof fn lemma_repair_is_grounded(gaps: Seq<i64>, fallback: Seq<KrakenDatapoint>, j: int)
    requires
        0 <= j < repaired(gaps, fallback).len(),
    ensures
        repaired(gaps, fallback).len() <= gaps.len(),
        gaps.contains(repaired(gaps, fallback)[j].timestamp),
        sample_at(fallback, repaired(gaps, fallback)[j].timestamp as int) is Some,
        repaired(gaps, fallback)[j].price == sample_at(
            fallback,
            repaired(gaps, fallback)[j].timestamp as int,
        )->0.close,
    decreases gaps.len(),
{
    lemma_repair_length(gaps, fallback);
    let rest = repaired(gaps.drop_last(), fallback);
    if j < rest.len() {
        lemma_repair_is_grounded(gaps.drop_last(), fallback, j);
        let t = rest[j].timestamp;
        let i = choose|i: int| 0 <= i < gaps.drop_last().len() && gaps.drop_last()[i] == t;
        assert(gaps[i] == t);
    } else {
        assert(gaps[gaps.len() - 1] == gaps.last());
    }
}

/// A repair is no longer than the gap.
pub proof fn lemma_repair_length(gaps: Seq<i64>, fallback: Seq<KrakenDatapoint>)
    ensures
        repaired(gaps, fallback).len() <= gaps.len(),
    decreases gaps.len(),
{
    if gaps.len() > 0 {
        lemma_repair_length(gaps.drop_last(), fallback);
    }
}

/// Where the fallback source has a sample at every missing timestamp, the repair
/// holds exactly one datapoint for each of them, in order, with its closing price:
/// nothing is lost and nothing appears twice.
pub proof fn lemma_repair_with_full_coverage(gaps: Seq<i64>, fallback: Seq<KrakenDatapoint>)
    requires
        forall|i: int| 0 <= i < gaps.len() ==> sample_at(fallback, #[trigger] gaps[i] as int) is Some,
    ensures
        repaired(gaps, fallback).len() == gaps.len(),
        forall|i: int|
            0 <= i < gaps.len() ==> #[trigger] repaired(gaps, fallback)[i] == (Datapoint {
                price: sample_at(fallback, gaps[i] as int)->0.close,
                timestamp: gaps[i],
            }),
    decreases gaps.len(),
{
    if gaps.len() > 0 {
        let front = gaps.drop_last();
        assert forall|i: int| 0 <= i < front.len() implies sample_at(
            fallback,
            #[trigger] front[i] as int,
        ) is Some by {
            assert(front[i] == gaps[i]);
        }
        lemma_repair_with_full_coverage(front, fallback);
        assert(sample_at(fallback, gaps[gaps.len() - 1] as int) is Some);
        assert forall|i: int| 0 <= i < gaps.len() implies #[trigger] repaired(gaps, fallback)[i] == (
        Datapoint { price: sample_at(fallback, gaps[i] as int)->0.close, timestamp: gaps[i] }) by {
            if i < front.len() {
                assert(front[i] == gaps[i]);
                assert(repaired(gaps, fallback)[i] == repaired(front, fallback)[i]);
            }
        }
    }
}

/// Repairing a gap of exactly two missing samples from an answer that covers both
/// gives those two datapoints and no others: each lies strictly between the last
/// stored sample and the slot that is not yet due, so appending them repeats nothing
/// that is stored next to the gap.
pub proof fn lemma_repair_of_two_slots(last: i64, interval: i64, fallback: Seq<KrakenDatapoint>)
    requires
        interval > 0,
        last + 3 * interval <= i64::MAX,
        sample_at(fallback, last + interval) is Some,
        sample_at(fallback, last + 2 * interval) is Some,
    ensures
        ({
            let gaps = seq![(last + interval) as i64, (last + 2 * interval) as i64];
            let fixed = repaired(gaps, fallback);
            &&& ints(gaps) == missing_timestamps(last as int, last + 3 * interval, interval as int)
            &&& fixed == seq![
                (Datapoint {
                    price: sample_at(fallback, last + interval)->0.close,
                    timestamp: (last + interval) as i64,
                }),
                (Datapoint {
                    price: sample_at(fallback, last + 2 * interval)->0.close,
                    timestamp: (last + 2 * interval) as i64,
                }),
            ]
            &&& last < fixed[0].timestamp < fixed[1].timestamp < last + 3 * interval
        }),
{
    let gaps = seq![(last + interval) as i64, (last + 2 * interval) as i64];
    lemma_gap_of_three_intervals(last as int, interval as int);
    assert(ints(gaps) =~= missing_timestamps(last as int, last + 3 * interval, interval as int));
    assert(gaps[0] == last + interval);
    assert(gaps[1] == last + 2 * interval);
    lemma_repair_with_full_coverage(gaps, fallback);
    let fixed = repaired(gaps, fallback);
    assert(fixed =~= seq![
        (Datapoint {
            price: sample_at(fallback, last + interval)->0.close,
            timestamp: (last + interval) as i64,
        }),
        (Datapoint {
            price: sample_at(fallback, last + 2 * interval)->0.close,
            timestamp: (last + 2 * interval) as i64,
        }),
    ]);
}

/// The datapoints that the closing prices of fallback samples stand for.
pub open spec fn closes(samples: Seq<KrakenDatapoint>) -> Seq<Datapoint> {
    Seq::new(samples.len(), |i: int| Datapoint::spec_from_kraken(samples[i]))
}

/// Whether a timestamp lies strictly after `after` and strictly before `before`,
/// as far as they are given.
pub open spec fn is_within(timestamp: i64, after: Option<i64>, before: Option<i64>) -> bool {
    &&& after matches Some(a) ==> a < timestamp
    &&& before matches Some(b) ==> timestamp < b
}

/// The points whose timestamp lies strictly between the two bounds, in their order.
pub open spec fn within(points: Seq<Datapoint>, after: Option<i64>, before: Option<i64>) -> Seq<
    Datapoint,
>
    decreases points.len(),
{
    if points.len() == 0 {
        Seq::empty()
    } else {
        let rest = within(points.drop_last(), after, before);
        if is_within(points.last().timestamp, after, before) {
            rest.push(points.last())
        } else {
            rest
        }
    }
}

/// The earliest timestamp among the points, if there is a point.
pub open spec fn earliest(points: Seq<Datapoint>) -> Option<i64> {
    if points.len() == 0 {
        None
    } else {
        Some(chronological(points)[0].timestamp)
    }
}

/// The earliest timestamp is the timestamp of one of the points, and none of them
/// is earlier.
pub proof fn lemma_earliest(points: Seq<Datapoint>)
    requires
        points.len() > 0,
    ensures
        earliest(points) is Some,
        exists|i: int| 0 <= i < points.len() && #[trigger] points[i].timestamp == earliest(points)->0,
        forall|i: int| 0 <= i < points.len() ==> earliest(points)->0 <= #[trigger] points[i].timestamp,
{
    let sorted = chronological(points);
    lemma_chronological(points);
    assert(sorted.contains(sorted[0]));
    vstd::seq_lib::to_multiset_contains(sorted, sorted[0]);
    vstd::seq_lib::to_multiset_contains(points, sorted[0]);
    let i = choose|i: int| 0 <= i < points.len() && points[i] == sorted[0];
    assert(points[i].timestamp == earliest(points)->0);
    assert forall|i: int| 0 <= i < points.len() implies earliest(points)->0
        <= #[trigger] points[i].timestamp by {
        assert(points.contains(points[i]));
        vstd::seq_lib::to_multiset_contains(points, points[i]);
        vstd::seq_lib::to_multiset_contains(sorted, points[i]);
        let j = choose|j: int| 0 <= j < sorted.len() && sorted[j] == points[i];
        assert(sorted[0].timestamp <= sorted[j].timestamp);
    }
}

/// The first datapoints of a pair. `native` is the answer of the fallback source at
/// the engine's own granularity, `coarse` its answer at the granularity of
/// `steps` native intervals, which reaches further back. The coarse answer is
/// resampled, and of the result only what is strictly older than the earliest
/// native sample is kept. Both parts together are put in order of time, with the
/// first point of each timestamp only; what is not newer than `last_stored` is
/// left out.
pub open spec fn initial_datapoints(
    last_stored: Option<i64>,
    native: Seq<KrakenDatapoint>,
    coarse: Seq<KrakenDatapoint>,
    steps: int,
) -> Seq<Datapoint> {
    let recent = closes(native);
    let older = within(interpolated(closes(coarse), steps), None, earliest(recent));
    within(without_repeats(chronological(older + recent)), last_stored, None)
}

/// The datapoints that the closing prices of fallback samples stand for.
pub fn closing_datapoints(samples: &Vec<KrakenDatapoint>) -> (out: Vec<Datapoint>)
    ensures
        out@ == closes(samples@),
{
    let mut out: Vec<Datapoint> = Vec::new();
    let mut i: usize = 0;
    while i < samples.len()
        invariant
            i <= samples.len(),
            out@.len() == i,
            forall|k: int| 0 <= k < i ==> out@[k] == Datapoint::spec_from_kraken(samples@[k]),
        decreases samples.len() - i,
    {
        out.push(Datapoint::from_kraken(&samples[i]));
        i = i + 1;
    }
    proof {
        assert(out@ =~= closes(samples@));
    }
    out
}

/// The points whose timestamp lies strictly between the two bounds.
pub fn keep_within(points: &Vec<Datapoint>, after: Option<i64>, before: Option<i64>) -> (out: Vec<
    Datapoint,
>)
    ensures
        out@ == within(points@, after, before),
{
    let mut out: Vec<Datapoint> = Vec::new();
    let mut i: usize = 0;
    while i < points.len()
        invariant
            i <= points.len(),
            out@ == within(points@.take(i as int), after, before),
        decreases points.len() - i,
    {
        let p = points[i];
        proof {
            let next = points@.take(i + 1);
            assert(next.drop_last() =~= points@.take(i as int));
            assert(next.last() == p);
        }
        let late_enough = match after {
            Some(a) => a < p.timestamp,
            None => true,
        };
        let early_enough = match before {
            Some(b) => p.timestamp < b,
            None => true,
        };
        if late_enough && early_enough {
            out.push(p);
        }
        i = i + 1;
    }
    proof {
        assert(points@.take(points.len() as int) =~= points@);
    }
    out
}

/// Builds the first datapoints of a pair from two answers of the fallback source:
/// `native` at the default granularity, and `coarse`, one sample a day, which is
/// resampled to the default granularity. `last_stored` is the tail of the stored
/// timestamps, `None` while nothing is stored.
pub fn initialize_datapoints(
    last_stored: Option<i64>,
    native: &Vec<KrakenDatapoint>,
    coarse: &Vec<KrakenDatapoint>,
) -> (r: Result<Vec<Datapoint>, EngineError>)
    ensures
        r is Ok,
        r->Ok_0@ == initial_datapoints(
            last_stored,
            native@,
            coarse@,
            KrakenInterval::Day.spec_minutes() as int / KrakenInterval::FiveMinutes.spec_minutes() as int,
        ),
        strictly_increasing(r->Ok_0@),
        forall|i: int|
            0 <= i < r->Ok_0@.len() ==> is_within((#[trigger] r->Ok_0@[i]).timestamp, last_stored, None),
{
    let fallback_interval = KrakenInterval::default();
    let extra_fallback_interval = KrakenInterval::Day;
    let recent = closing_datapoints(native);
    let resampled = interpolate_datapoints(
        closing_datapoints(coarse),
        &extra_fallback_interval,
        &fallback_interval,
    )?;
    let first = if recent.len() == 0 {
        None
    } else {
        let sorted = sort_by_timestamp(&recent);
        Some(sorted[0].timestamp)
    };
    let mut candidates = keep_within(&resampled, None, first);
    let ghost older = candidates@;
    let mut i: usize = 0;
    while i < recent.len()
        invariant
            i <= recent.len(),
            candidates@ == older + recent@.take(i as int),
        decreases recent.len() - i,
    {
        candidates.push(recent[i]);
        proof {
            assert(recent@.take(i + 1) =~= recent@.take(i as int).push(recent@[i as int]));
            assert(candidates@ =~= older + recent@.take(i + 1));
        }
        i = i + 1;
    }
    proof {
        assert(recent@.take(recent.len() as int) =~= recent@);
        lemma_chronological(candidates@);
        lemma_without_repeats(chronological(candidates@));
        lemma_within(without_repeats(chronological(candidates@)), last_stored, None);
    }
    let merged = drop_repeats(&sort_by_timestamp(&candidates));
    Ok(keep_within(&merged, last_stored, None))
}

/// What is kept of points lies within the bounds, and keeps strictly ascending order.
pub proof fn lemma_within(points: Seq<Datapoint>, after: Option<i64>, before: Option<i64>)
    ensures
        within(points, after, before).len() <= points.len(),
        forall|i: int|
            0 <= i < within(points, after, before).len() ==> is_within(
                (#[trigger] within(points, after, before)[i]).timestamp,
                after,
                before,
            ),
        forall|i: int|
            0 <= i < within(points, after, before).len() ==> points.contains(
                #[trigger] within(points, after, before)[i],
            ),
        strictly_increasing(points) ==> strictly_increasing(within(points, after, before)),
    decreases points.len(),
{
    if points.len() > 0 {
        let front = points.drop_last();
        lemma_within(front, after, before);
        let rest = within(front, after, before);
        let out = within(points, after, before);
        assert forall|i: int| 0 <= i < out.len() implies points.contains(#[trigger] out[i]) by {
            if i < rest.len() {
                assert(out[i] == rest[i]);
                let k = choose|k: int| 0 <= k < front.len() && front[k] == rest[i];
                assert(points[k] == rest[i]);
            } else {
                assert(points[points.len() - 1] == out[i]);
            }
        }
        if strictly_increasing(points) {
            assert(strictly_increasing(front)) by {
                assert forall|i: int, j: int| 0 <= i < j < front.len() implies front[i].timestamp
                    < front[j].timestamp by {
                    assert(front[i] == points[i] && front[j] == points[j]);
                }
            }
            assert forall|i: int| 0 <= i < rest.len() implies (#[trigger] rest[i]).timestamp
                < points.last().timestamp by {
                let k = choose|k: int| 0 <= k < front.len() && front[k] == rest[i];
                assert(points[k] == rest[i]);
                assert(points[k].timestamp < points[points.len() - 1].timestamp);
            }
            assert forall|i: int, j: int| 0 <= i < j < out.len() implies out[i].timestamp
                < out[j].timestamp by {
                if j < rest.len() {
                    assert(out[i] == rest[i] && out[j] == rest[j]);
                } else {
                    assert(out[i] == rest[i]);
                }
            }
        }
    }
}

/// Whether every timestamp is above the one before it.
pub open spec fn rising(timestamps: Seq<i64>) -> bool {
    forall|i: int, j: int| 0 <= i < j < timestamps.len() ==> timestamps[i] < timestamps[j]
}

/// The repair of a gap whose timestamps rise is in strictly ascending order, and
/// ends no later than the gap does.
pub proof fn lemma_repair_keeps_order(gaps: Seq<i64>, fallback: Seq<KrakenDatapoint>)
    requires
        rising(gaps),
    ensures
        strictly_increasing(repaired(gaps, fallback)),
        repaired(gaps, fallback).len() > 0 ==> repaired(gaps, fallback).last().timestamp
            <= gaps.last(),
        repaired(gaps, fallback).len() > 0 ==> gaps[0] <= repaired(gaps, fallback)[0].timestamp,
    decreases gaps.len(),
{
    if gaps.len() > 0 {
        let front = gaps.drop_last();
        assert(rising(front)) by {
            assert forall|i: int, j: int| 0 <= i < j < front.len() implies front[i] < front[j] by {
                assert(front[i] == gaps[i] && front[j] == gaps[j]);
            }
        }
        lemma_repair_keeps_order(front, fallback);
        let rest = repaired(front, fallback);
        let out = repaired(gaps, fallback);
        if front.len() > 0 {
            assert(front.last() == gaps[gaps.len() - 2]);
            assert(gaps[gaps.len() - 2] < gaps[gaps.len() - 1]);
            assert(front[0] == gaps[0]);
            assert(gaps[0] < gaps[gaps.len() - 1]);
        }
        assert forall|i: int, j: int| 0 <= i < j < out.len() implies out[i].timestamp
            < out[j].timestamp by {
            if j < rest.len() {
                assert(out[i] == rest[i] && out[j] == rest[j]);
            } else {
                assert(out[i] == rest[i]);
                if i < rest.len() - 1 {
                    assert(rest[i].timestamp < rest[rest.len() - 1].timestamp);
                }
            }
        }
        if out.len() > 0 {
            if rest.len() > 0 {
                assert(out[0] == rest[0]);
            }
        }
    }
}

/// Appending the repair of the gap after a series in strictly ascending order
/// leaves it in strictly ascending order: every repaired datapoint lies after the
/// last stored sample and before the aligned present, so that nothing stored is
/// repeated.
pub proof fn lemma_repair_extends_series(
    stored: Seq<Datapoint>,
    gaps: Seq<i64>,
    now_aligned: int,
    interval: int,
    fallback: Seq<KrakenDatapoint>,
)
    requires
        interval > 0,
        stored.len() > 0,
        strictly_increasing(stored),
        ints(gaps) == missing_timestamps(stored.last().timestamp as int, now_aligned, interval),
    ensures
        strictly_increasing(stored + repaired(gaps, fallback)),
        forall|j: int|
            0 <= j < repaired(gaps, fallback).len() ==> stored.last().timestamp < (
            #[trigger] repaired(gaps, fallback)[j]).timestamp < now_aligned,
{
    let last = stored.last().timestamp as int;
    let fixed = repaired(gaps, fallback);
    assert(gaps.len() == ints(gaps).len());
    assert forall|i: int| 0 <= i < gaps.len() implies last < #[trigger] gaps[i] < now_aligned
        && gaps[i] == last + (i + 1) * interval by {
        assert(ints(gaps)[i] == gaps[i]);
        lemma_missing_timestamps_bounds(last, now_aligned, interval, i);
    }
    assert(rising(gaps)) by {
        assert forall|i: int, j: int| 0 <= i < j < gaps.len() implies gaps[i] < gaps[j] by {
            assert((i + 1) * interval < (j + 1) * interval) by (nonlinear_arith)
                requires
                    i < j,
                    interval > 0,
            ;
        }
    }
    lemma_repair_keeps_order(gaps, fallback);
    assert forall|j: int| 0 <= j < fixed.len() implies last < (#[trigger] fixed[j]).timestamp
        < now_aligned by {
        lemma_repair_is_grounded(gaps, fallback, j);
        let i = choose|i: int| 0 <= i < gaps.len() && gaps[i] == fixed[j].timestamp;
        assert(last < gaps[i] < now_aligned);
    }
    let all = stored + fixed;
    assert forall|i: int, j: int| 0 <= i < j < all.len() implies all[i].timestamp
        < all[j].timestamp by {
        if j < stored.len() {
            assert(all[i] == stored[i] && all[j] == stored[j]);
        } else if i < stored.len() {
            assert(all[i] == stored[i]);
            assert(all[j] == fixed[j - stored.len()]);
            if i < stored.len() - 1 {
                assert(stored[i].timestamp < stored[stored.len() - 1].timestamp);
            }
        } else {
            assert(all[i] == fixed[i - stored.len()]);
            assert(all[j] == fixed[j - stored.len()]);
        }
    }
}

/// Repairs the series of a pair from an answer of the fallback source: finds the
/// samples that are missing after the last stored one, as seen at the time `now`,
/// and appends what the answer gives for them, in order. Returns how many
/// datapoints were appended. Nothing is appended, and no error is raised, where
/// nothing is missing.
pub fn backfill(series: &mut Series, now: i64, fallback: &Vec<KrakenDatapoint>) -> (r: Result<
    usize,
    EngineError,
>)
    requires
        old(series).wf(),
    ensures
        final(series).wf(),
        old(series)@.len() == 0 ==> r == Err::<usize, EngineError>(EngineError::EmptySeries),
        old(series)@.len() > 0 && !representable(old(series)@.last().timestamp as int) ==> r
            == Err::<usize, EngineError>(EngineError::TimestampOutOfRange),
        r is Err ==> final(series)@ == old(series)@,
        old(series)@.len() > 0 && representable(old(series)@.last().timestamp as int) ==> r is Ok
            && ({
            let gaps = stamps(
                missing_timestamps(
                    old(series)@.last().timestamp as int,
                    floor_to(now as int, COLLECTION_INTERVAL_SECS as int),
                    COLLECTION_INTERVAL_SECS as int,
                ),
            );
            &&& final(series)@ == old(series)@ + repaired(gaps, fallback@)
            &&& r->Ok_0 == repaired(gaps, fallback@).len()
        }),
{
    let last = match series.last_timestamp() {
        Ok(t) => t,
        Err(e) => return Err(e),
    };
    let gaps = match find_discrepancies(Some(last), now) {
        Ok(gaps) => gaps,
        Err(e) => return Err(e),
    };
    proof {
        assert(gaps@ =~= stamps(ints(gaps@)));
    }
    if gaps.len() == 0 {
        proof {
            assert(series@ + repaired(gaps@, fallback@) =~= series@);
        }
        return Ok(0);
    }
    let ghost wanted = gaps@;
    match fix_discrepancies(gaps, fallback) {
        Ok(fixed) => {
            proof {
                lemma_repair_length(wanted, fallback@);
            }
            store_prices(series, fixed)
        },
        Err(e) => Err(e),
    }
}

} // verus!
