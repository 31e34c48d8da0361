use price_collector::datapoint::{Datapoint, KrakenDatapoint, KrakenInterval, KRAKEN_MAX_DATAPOINTS};
use price_collector::error::EngineError;
use price_collector::fixes::{
    backfill, closing_datapoints, detect_gaps, fix_discrepancies, index_by_timestamp, initialize_datapoints,
    keep_within, plan_backfill, BackfillPlan,
};
use price_collector::price::store_prices;
use price_collector::series::Series;

fn sample(timestamp: i64, close: i64) -> KrakenDatapoint {
    KrakenDatapoint { timestamp, open: 1, high: 2, low: 3, close, vwap: 4, volume: 5, count: 6 }
}

fn point(timestamp: i64, price: i64) -> Datapoint {
    Datapoint { price, timestamp }
}

#[test]
fn backfill_of_two_slots_round_trips() {
    let t0: i64 = 1_700_000_100;
    let mut series = Series::new();
    series.append(point(t0 - 300, 10));
    series.append(point(t0, 11));
    let gaps = detect_gaps(series.last_timestamp().unwrap(), t0 + 900, 300).unwrap();
    assert_eq!(gaps, vec![t0 + 300, t0 + 600]);
    let fallback = vec![
        sample(t0 - 300, 100),
        sample(t0, 110),
        sample(t0 + 300, 120),
        sample(t0 + 600, 130),
        sample(t0 + 900, 140),
    ];
    let fixed = fix_discrepancies(gaps, &fallback).unwrap();
    assert_eq!(fixed, vec![point(t0 + 300, 120), point(t0 + 600, 130)]);
    assert_eq!(store_prices(&mut series, fixed), Ok(2));
    assert_eq!(
        series.range(0, -1),
        vec![point(t0 - 300, 10), point(t0, 11), point(t0 + 300, 120), point(t0 + 600, 130)]
    );
    assert_eq!(detect_gaps(series.last_timestamp().unwrap(), t0 + 900, 300), Ok(vec![]));
}

#[test]
fn uncovered_slots_are_dropped_not_guessed() {
    let fallback = vec![sample(300, 1), sample(900, 3), sample(901, 4)];
    let fixed = fix_discrepancies(vec![300, 600, 900, 1200], &fallback).unwrap();
    assert_eq!(fixed, vec![point(300, 1), point(900, 3)]);
    assert_eq!(fix_discrepancies(vec![600], &fallback), Ok(vec![]));
    assert_eq!(fix_discrepancies(vec![600], &vec![]), Ok(vec![]));
}

#[test]
fn no_discrepancies_is_an_error() {
    assert_eq!(fix_discrepancies(vec![], &vec![sample(300, 1)]), Err(EngineError::NoDiscrepancies));
    assert_eq!(plan_backfill(0), Err(EngineError::NoDiscrepancies));
}

#[test]
fn last_sample_of_a_timestamp_wins() {
    let fallback = vec![sample(300, 1), sample(300, 2), sample(600, 3)];
    assert_eq!(fix_discrepancies(vec![300, 600], &fallback), Ok(vec![point(300, 2), point(600, 3)]));
    let index = index_by_timestamp(&fallback);
    assert_eq!(index.len(), 2);
    assert_eq!(index.get(&300), Some(&sample(300, 2)));
    assert_eq!(index.get(&600), Some(&sample(600, 3)));
    assert_eq!(index.get(&900), None);
}

#[test]
fn repeated_gap_timestamps_are_repaired_in_order() {
    let fallback = vec![sample(600, 3), sample(300, 1)];
    assert_eq!(
        fix_discrepancies(vec![600, 300, 600], &fallback),
        Ok(vec![point(600, 3), point(300, 1), point(600, 3)])
    );
}

#[test]
fn plan_measures_the_outage() {
    assert_eq!(
        plan_backfill(1),
        Ok(BackfillPlan { interval: KrakenInterval::FiveMinutes, outage_minutes: 5, degraded: false })
    );
    assert_eq!(
        plan_backfill(719),
        Ok(BackfillPlan { interval: KrakenInterval::FiveMinutes, outage_minutes: 3595, degraded: false })
    );
    assert_eq!(
        plan_backfill(KRAKEN_MAX_DATAPOINTS as usize),
        Ok(BackfillPlan { interval: KrakenInterval::FiveMinutes, outage_minutes: 3600, degraded: false })
    );
    assert_eq!(
        plan_backfill(KRAKEN_MAX_DATAPOINTS as usize + 1),
        Ok(BackfillPlan { interval: KrakenInterval::FiveMinutes, outage_minutes: 3605, degraded: true })
    );
    assert_eq!(
        plan_backfill(usize::MAX),
        Ok(BackfillPlan {
            interval: KrakenInterval::FiveMinutes,
            outage_minutes: 5 * (usize::MAX as u128),
            degraded: true
        })
    );
}

#[test]
fn closing_prices_become_datapoints() {
    assert_eq!(closing_datapoints(&vec![sample(5, 50), sample(3, 30)]), vec![point(5, 50), point(3, 30)]);
    assert_eq!(Datapoint::from_kraken(&sample(5, 50)), point(5, 50));
    assert_eq!(closing_datapoints(&vec![]), vec![]);
}

#[test]
fn keep_within_is_strict_on_both_sides() {
    let points = vec![point(1, 1), point(2, 2), point(3, 3), point(2, 4)];
    assert_eq!(keep_within(&points, Some(1), Some(3)), vec![point(2, 2), point(2, 4)]);
    assert_eq!(keep_within(&points, None, Some(2)), vec![point(1, 1)]);
    assert_eq!(keep_within(&points, Some(2), None), vec![point(3, 3)]);
    assert_eq!(keep_within(&points, None, None), points);
    assert_eq!(keep_within(&points, Some(i64::MAX), None), vec![]);
}

#[test]
fn initialization_merges_resampled_history_before_native_samples() {
    let day: i64 = 86_400;
    let native = vec![sample(2 * day, 2000), sample(2 * day + 300, 2010), sample(2 * day + 600, 2020)];
    let coarse = vec![sample(0, 0), sample(day, 288), sample(2 * day, 576), sample(3 * day, 864)];
    let out = initialize_datapoints(None, &native, &coarse).unwrap();
    // Two days of history at five minutes, then the three native samples.
    assert_eq!(out.len(), 2 * 288 + 3);
    for k in 0..(2 * 288) {
        assert_eq!(out[k as usize], point(300 * k, k));
    }
    assert_eq!(out[576], point(2 * day, 2000));
    assert_eq!(out[577], point(2 * day + 300, 2010));
    assert_eq!(out[578], point(2 * day + 600, 2020));
    for w in out.windows(2) {
        assert!(w[0].timestamp < w[1].timestamp);
    }
}

#[test]
fn initialization_keeps_only_what_is_newer_than_the_store() {
    let day: i64 = 86_400;
    let native = vec![sample(day, 1000), sample(day + 300, 1010)];
    let coarse = vec![sample(0, 0), sample(day, 288)];
    let out = initialize_datapoints(Some(day - 600), &native, &coarse).unwrap();
    assert_eq!(out, vec![point(day - 300, 287), point(day, 1000), point(day + 300, 1010)]);
    assert_eq!(initialize_datapoints(Some(day + 300), &native, &coarse), Ok(vec![]));
    assert_eq!(initialize_datapoints(Some(day), &native, &coarse), Ok(vec![point(day + 300, 1010)]));
}

#[test]
fn initialization_sorts_and_keeps_the_first_of_equal_timestamps() {
    let native = vec![sample(900, 3), sample(300, 1), sample(900, 4), sample(600, 2)];
    let out = initialize_datapoints(None, &native, &vec![]).unwrap();
    assert_eq!(out, vec![point(300, 1), point(600, 2), point(900, 3)]);
    assert_eq!(initialize_datapoints(None, &vec![], &vec![]), Ok(vec![]));
    let coarse = vec![sample(0, 0), sample(86_400, 288)];
    let out = initialize_datapoints(None, &vec![], &coarse).unwrap();
    assert_eq!(out.len(), 289);
    assert_eq!(out[288], point(86_400, 288));
}

#[test]
fn backfill_appends_the_repair_and_nothing_else() {
    let t0: i64 = 1_700_000_100;
    let mut series = Series::new();
    assert_eq!(backfill(&mut series, t0, &vec![]), Err(EngineError::EmptySeries));
    series.append(point(t0, 11));
    let fallback = vec![sample(t0, 110), sample(t0 + 300, 120), sample(t0 + 600, 130), sample(t0 + 900, 140)];
    assert_eq!(backfill(&mut series, t0 + 299, &fallback), Ok(0));
    assert_eq!(backfill(&mut series, t0 + 599, &fallback), Ok(0));
    assert_eq!(series.len(), 1);
    assert_eq!(backfill(&mut series, t0 + 900 + 17, &fallback), Ok(2));
    assert_eq!(series.range(0, -1), vec![point(t0, 11), point(t0 + 300, 120), point(t0 + 600, 130)]);
    assert_eq!(backfill(&mut series, t0 + 900 + 17, &fallback), Ok(0));
    assert_eq!(series.len(), 3);
    assert_eq!(backfill(&mut series, t0 + 3000, &fallback), Ok(1));
    assert_eq!(series.last_timestamp(), Ok(t0 + 900));
    assert_eq!(backfill(&mut series, i64::MIN, &fallback), Ok(0));
    assert_eq!(series.len(), 4);
    series.append(point(i64::MAX, 1));
    assert_eq!(backfill(&mut series, t0 + 6000, &fallback), Err(EngineError::TimestampOutOfRange));
    assert_eq!(series.len(), 5);
}
