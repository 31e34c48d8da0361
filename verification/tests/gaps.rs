use price_collector::clock::{align_down, collection_timestamp, slot, MAX_TIMESTAMP, MIN_TIMESTAMP};
use price_collector::error::EngineError;
use price_collector::fixes::{detect_gaps, find_discrepancies};
use price_collector::COLLECTION_INTERVAL_SECS;

#[test]
fn gap_of_three_intervals_lists_two_slots() {
    let t0: i64 = 1_700_000_100;
    let i: i64 = 300;
    assert_eq!(detect_gaps(t0, t0 + 3 * i, i), Ok(vec![t0 + i, t0 + 2 * i]));
}

#[test]
fn gap_of_three_intervals_for_other_intervals() {
    assert_eq!(detect_gaps(100, 400, 100), Ok(vec![200, 300]));
    assert_eq!(detect_gaps(0, 3, 1), Ok(vec![1, 2]));
    assert_eq!(detect_gaps(-800, -200, 200), Ok(vec![-600, -400]));
    // A last sample off the grid: the present is aligned to the grid, not to the sample.
    assert_eq!(detect_gaps(-700, -100, 200), Ok(vec![-500]));
}

#[test]
fn present_is_aligned_down_before_counting() {
    // 1000 + 3 * 300 = 1900 is not a boundary of 300; the boundary below it is 1800.
    assert_eq!(detect_gaps(1000, 1900, 300), Ok(vec![1300]));
    assert_eq!(detect_gaps(900, 1799, 300), Ok(vec![1200]));
    assert_eq!(detect_gaps(900, 1499, 300), Ok(vec![]));
    assert_eq!(detect_gaps(900, 1800, 300), Ok(vec![1200, 1500]));
    assert_eq!(detect_gaps(900, 2099, 300), Ok(vec![1200, 1500]));
    assert_eq!(detect_gaps(900, 2100, 300), Ok(vec![1200, 1500, 1800]));
}

#[test]
fn no_gap_when_up_to_date_or_ahead() {
    assert_eq!(detect_gaps(900, 900, 300), Ok(vec![]));
    assert_eq!(detect_gaps(900, 1200, 300), Ok(vec![]));
    assert_eq!(detect_gaps(900, 1499, 300), Ok(vec![]));
    assert_eq!(detect_gaps(900, 0, 300), Ok(vec![]));
    assert_eq!(detect_gaps(900, -5000, 300), Ok(vec![]));
}

#[test]
fn interval_longer_than_all_time_has_no_gap() {
    assert_eq!(detect_gaps(0, MAX_TIMESTAMP, i64::MAX), Ok(vec![]));
    assert_eq!(detect_gaps(MIN_TIMESTAMP, MAX_TIMESTAMP, MAX_TIMESTAMP - MIN_TIMESTAMP + 1), Ok(vec![]));
}

#[test]
fn find_discrepancies_uses_the_collection_interval() {
    assert_eq!(COLLECTION_INTERVAL_SECS, 300);
    let t0: i64 = 1_700_000_100;
    assert_eq!(find_discrepancies(Some(t0), t0 + 900), Ok(vec![t0 + 300, t0 + 600]));
    assert_eq!(find_discrepancies(Some(t0), t0 + 900 + 299), Ok(vec![t0 + 300, t0 + 600]));
    assert_eq!(find_discrepancies(Some(t0), t0 + 1200), Ok(vec![t0 + 300, t0 + 600, t0 + 900]));
}

#[test]
fn empty_series_is_not_a_gap() {
    assert_eq!(find_discrepancies(None, 1_700_000_000), Err(EngineError::EmptySeries));
    assert_eq!(find_discrepancies(None, i64::MAX), Err(EngineError::EmptySeries));
}

#[test]
fn a_stored_timestamp_outside_the_calendar_is_refused() {
    assert_eq!(find_discrepancies(Some(MAX_TIMESTAMP + 1), 0), Err(EngineError::TimestampOutOfRange));
    assert_eq!(find_discrepancies(Some(MIN_TIMESTAMP - 1), 0), Err(EngineError::TimestampOutOfRange));
    assert_eq!(find_discrepancies(Some(i64::MAX), 0), Err(EngineError::TimestampOutOfRange));
    assert_eq!(find_discrepancies(Some(i64::MIN), 0), Err(EngineError::TimestampOutOfRange));
    assert_eq!(find_discrepancies(Some(i64::MAX), i64::MAX), Err(EngineError::TimestampOutOfRange));
    assert_eq!(find_discrepancies(Some(MAX_TIMESTAMP), MAX_TIMESTAMP), Ok(vec![]));
    assert_eq!(find_discrepancies(Some(MIN_TIMESTAMP), MIN_TIMESTAMP), Ok(vec![]));
}

#[test]
fn the_present_may_be_any_time() {
    assert_eq!(find_discrepancies(Some(0), i64::MIN), Ok(vec![]));
    assert_eq!(find_discrepancies(Some(0), i64::MIN + 299), Ok(vec![]));
    assert_eq!(find_discrepancies(Some(0), MIN_TIMESTAMP - 1), Ok(vec![]));
    assert_eq!(find_discrepancies(Some(MIN_TIMESTAMP), i64::MIN), Ok(vec![]));
    assert_eq!(detect_gaps(MAX_TIMESTAMP, i64::MAX, i64::MAX), Ok(vec![]));
    assert_eq!(detect_gaps(MIN_TIMESTAMP, i64::MIN, i64::MAX), Ok(vec![]));
    assert_eq!(detect_gaps(0, i64::MAX, i64::MAX / 3), Ok(vec![i64::MAX / 3, 2 * (i64::MAX / 3)]));
    assert_eq!(
        detect_gaps(MAX_TIMESTAMP, MAX_TIMESTAMP + 900, 300),
        Ok(vec![MAX_TIMESTAMP + 300])
    );
    assert_eq!(
        detect_gaps(MAX_TIMESTAMP - 299, MAX_TIMESTAMP + 601, 300),
        Ok(vec![MAX_TIMESTAMP + 1, MAX_TIMESTAMP + 301])
    );
}

#[test]
fn the_range_of_dates_is_that_of_the_calendar() {
    assert_eq!(chrono::DateTime::<chrono::Utc>::MAX_UTC.timestamp(), MAX_TIMESTAMP);
    assert_eq!(chrono::DateTime::<chrono::Utc>::MIN_UTC.timestamp(), MIN_TIMESTAMP);
    assert_eq!(detect_gaps(MAX_TIMESTAMP, MAX_TIMESTAMP, 1), Ok(vec![]));
    assert_eq!(detect_gaps(MAX_TIMESTAMP + 1, MAX_TIMESTAMP, 1), Err(EngineError::TimestampOutOfRange));
    assert_eq!(detect_gaps(MAX_TIMESTAMP, MAX_TIMESTAMP + 1, 1), Ok(vec![]));
    assert_eq!(detect_gaps(MIN_TIMESTAMP, MIN_TIMESTAMP, 1), Ok(vec![]));
    assert_eq!(detect_gaps(MIN_TIMESTAMP - 1, MIN_TIMESTAMP, 1), Err(EngineError::TimestampOutOfRange));
    assert_eq!(detect_gaps(MIN_TIMESTAMP, MIN_TIMESTAMP - 1, 1), Ok(vec![]));
    assert_eq!(detect_gaps(MAX_TIMESTAMP - 3, MAX_TIMESTAMP, 1), Ok(vec![MAX_TIMESTAMP - 2, MAX_TIMESTAMP - 1]));
    assert_eq!(detect_gaps(i64::MAX, i64::MIN, 1), Err(EngineError::TimestampOutOfRange));
}

#[test]
fn collection_timestamp_is_the_nearest_minute() {
    assert_eq!(collection_timestamp(0, 0), Some(0));
    assert_eq!(collection_timestamp(61, 0), Some(60));
    assert_eq!(collection_timestamp(29, 999_999_999), Some(0));
    assert_eq!(collection_timestamp(30, 0), Some(60));
    assert_eq!(collection_timestamp(89, 999_999_999), Some(60));
    assert_eq!(collection_timestamp(90, 0), Some(120));
    assert_eq!(collection_timestamp(1_700_000_017, 5), Some(1_700_000_040));
    assert_eq!(collection_timestamp(-1, 0), Some(0));
    assert_eq!(collection_timestamp(-30, 0), Some(0));
    assert_eq!(collection_timestamp(-31, 0), Some(-60));
    assert_eq!(collection_timestamp(-31, 999_999_999), Some(-60));
    assert_eq!(collection_timestamp(-30, 1), Some(0));
    assert_eq!(collection_timestamp(-90, 0), Some(-60));
    assert_eq!(collection_timestamp(-91, 999_999_999), Some(-120));
}

#[test]
fn collection_timestamp_refuses_what_cannot_be_rounded() {
    assert_eq!(collection_timestamp(0, 1_000_000_000), None);
    assert_eq!(collection_timestamp(59, 1_500_000_000), None);
    assert_eq!(collection_timestamp(0, u32::MAX), None);
    // 64 bits of nanoseconds end in the year 2262.
    assert_eq!(collection_timestamp(9_223_372_036, 854_775_807), Some(9_223_372_040 - 20));
    assert_eq!(collection_timestamp(9_223_372_036, 854_775_808), None);
    assert_eq!(collection_timestamp(9_223_372_037, 0), None);
    assert_eq!(collection_timestamp(-9_223_372_037, 145_224_192), Some(-9_223_372_040 + 20));
    assert_eq!(collection_timestamp(-9_223_372_037, 145_224_191), None);
    assert_eq!(collection_timestamp(-9_223_372_038, 0), None);
    assert_eq!(collection_timestamp(MAX_TIMESTAMP, 0), None);
    assert_eq!(collection_timestamp(i64::MAX, 0), None);
    assert_eq!(collection_timestamp(i64::MIN, 0), None);
}

#[test]
fn align_down_and_slot_round_towards_the_past() {
    assert_eq!(align_down(1799, 300), 1500);
    assert_eq!(align_down(1800, 300), 1800);
    assert_eq!(align_down(0, 300), 0);
    assert_eq!(align_down(-1, 300), -300);
    assert_eq!(align_down(-300, 300), -300);
    assert_eq!(align_down(-301, 300), -600);
    assert_eq!(align_down(i64::MIN, 1), i64::MIN);
    assert_eq!(slot(1799, 300), 5);
    assert_eq!(slot(1800, 300), 6);
    assert_eq!(slot(-1, 300), -1);
    assert_eq!(slot(-300, 300), -1);
    assert_eq!(slot(-301, 300), -2);
    assert_eq!(slot(i64::MIN, 1), i64::MIN);
    assert_eq!(slot(i64::MIN, i64::MAX), -2);
    assert_eq!(slot(i64::MAX, i64::MAX), 1);
}
