use price_collector::datapoint::Datapoint;
use price_collector::error::{EngineError, ErrorKind};
use price_collector::order::{drop_repeats, sort_by_timestamp};
use price_collector::price::{confirm_append, prices_key, store_columns, store_prices, timestamps_key};
use price_collector::series::Series;

fn point(timestamp: i64, price: i64) -> Datapoint {
    Datapoint { price, timestamp }
}

#[test]
fn columns_always_have_the_same_length() {
    let mut series = Series::new();
    let (timestamps, prices) = series.columns();
    assert_eq!(timestamps.len(), prices.len());
    for k in 0..50 {
        series.append(point(300 * k, 7 * k));
        let (timestamps, prices) = series.columns();
        assert_eq!(timestamps.len(), prices.len());
        assert_eq!(timestamps.len(), series.len());
        assert_eq!(timestamps[k as usize], 300 * k);
        assert_eq!(prices[k as usize], 7 * k);
    }
    assert_eq!(store_prices(&mut series, vec![point(1, 1), point(2, 2), point(3, 3)]), Ok(3));
    let (timestamps, prices) = series.columns();
    assert_eq!(timestamps.len(), 53);
    assert_eq!(prices.len(), 53);
}

#[test]
fn corrupted_columns_are_reported_and_cut_to_the_shorter() {
    let (series, mismatch) = Series::from_columns(vec![100, 200, 300], vec![1, 2]);
    assert_eq!(mismatch, Some(EngineError::DataIntegrity));
    assert_eq!(mismatch.unwrap().kind(), ErrorKind::DataIntegrity);
    assert_eq!(series.len(), 2);
    assert_eq!(series.range(0, -1), vec![point(100, 1), point(200, 2)]);
    let (timestamps, prices) = series.columns();
    assert_eq!(timestamps, vec![100, 200]);
    assert_eq!(prices, vec![1, 2]);

    let (series, mismatch) = Series::from_columns(vec![100], vec![1, 2, 3]);
    assert_eq!(mismatch, Some(EngineError::DataIntegrity));
    assert_eq!(series.range(0, -1), vec![point(100, 1)]);

    let (series, mismatch) = Series::from_columns(vec![], vec![1]);
    assert_eq!(mismatch, Some(EngineError::DataIntegrity));
    assert_eq!(series.len(), 0);
    assert_eq!(series.last_timestamp(), Err(EngineError::EmptySeries));
}

#[test]
fn sound_columns_are_taken_as_they_are() {
    let (series, mismatch) = Series::from_columns(vec![100, 200, 300], vec![1, 2, 3]);
    assert_eq!(mismatch, None);
    assert_eq!(series.range(0, -1), vec![point(100, 1), point(200, 2), point(300, 3)]);
    let (series, mismatch) = Series::from_columns(vec![], vec![]);
    assert_eq!(mismatch, None);
    assert_eq!(series.len(), 0);
}

#[test]
fn last_timestamp_is_the_tail() {
    let mut series = Series::new();
    assert_eq!(series.last_timestamp(), Err(EngineError::EmptySeries));
    series.append(point(100, 1));
    assert_eq!(series.last_timestamp(), Ok(100));
    series.append(point(50, 2));
    assert_eq!(series.last_timestamp(), Ok(50));
}

#[test]
fn range_counts_from_the_tail() {
    let (series, _) = Series::from_columns(vec![100, 200, 300, 400, 500], vec![1, 2, 3, 4, 5]);
    assert_eq!(series.range(-1, -1), vec![point(500, 5)]);
    assert_eq!(series.range(-2, -1), vec![point(400, 4), point(500, 5)]);
    assert_eq!(series.range(-4, -2), vec![point(200, 2), point(300, 3), point(400, 4)]);
    assert_eq!(series.range(-5, -5), vec![point(100, 1)]);
    assert_eq!(series.range(-100, -5), vec![point(100, 1)]);
    assert_eq!(series.range(-100, -6), vec![]);
    assert_eq!(series.range(-1, -2), vec![]);
    assert_eq!(series.range(i64::MIN, -1).len(), 5);
    assert_eq!(series.range(i64::MIN, i64::MIN), vec![]);
}

#[test]
fn range_counts_from_the_head_too() {
    let (series, _) = Series::from_columns(vec![100, 200, 300, 400, 500], vec![1, 2, 3, 4, 5]);
    assert_eq!(series.range(0, 0), vec![point(100, 1)]);
    assert_eq!(series.range(1, 2), vec![point(200, 2), point(300, 3)]);
    assert_eq!(series.range(3, 100), vec![point(400, 4), point(500, 5)]);
    assert_eq!(series.range(3, i64::MAX), vec![point(400, 4), point(500, 5)]);
    assert_eq!(series.range(5, 100), vec![]);
    assert_eq!(series.range(i64::MAX, i64::MAX), vec![]);
    assert_eq!(series.range(2, 1), vec![]);
    assert_eq!(series.range(2, -2), vec![point(300, 3), point(400, 4)]);
    assert_eq!(Series::new().range(0, -1), vec![]);
}

#[test]
fn batches_are_stored_in_order() {
    let mut series = Series::new();
    assert_eq!(store_prices(&mut series, vec![]), Ok(0));
    assert_eq!(store_prices(&mut series, vec![point(300, 3), point(100, 1)]), Ok(2));
    assert_eq!(store_prices(&mut series, vec![point(200, 2)]), Ok(1));
    assert_eq!(series.range(0, -1), vec![point(300, 3), point(100, 1), point(200, 2)]);
    let (prices, timestamps) = store_columns(&vec![point(300, 3), point(100, 1)]);
    assert_eq!(prices, vec![3, 1]);
    assert_eq!(timestamps, vec![300, 100]);
}

#[test]
fn keys_are_prefixed_by_the_pair() {
    assert_eq!(prices_key("USDC/WETH"), "USDC/WETH:prices");
    assert_eq!(timestamps_key("USDC/WETH"), "USDC/WETH:timestamps");
    assert_eq!(prices_key(""), ":prices");
}

#[test]
fn an_append_holds_only_if_both_pushes_do() {
    assert_eq!(confirm_append(Some(5), Some(5)), Ok(()));
    assert_eq!(confirm_append(Some(5), Some(4)), Err(EngineError::DataIntegrity));
    assert_eq!(confirm_append(Some(4), Some(5)), Err(EngineError::DataIntegrity));
    assert_eq!(confirm_append(None, Some(5)), Err(EngineError::StoreUnavailable));
    assert_eq!(confirm_append(Some(5), None), Err(EngineError::StoreUnavailable));
    assert_eq!(confirm_append(None, None), Err(EngineError::StoreUnavailable));
}

#[test]
fn sorting_is_stable() {
    let points = vec![point(3, 1), point(1, 2), point(3, 3), point(2, 4), point(1, 5), point(3, 6)];
    assert_eq!(
        sort_by_timestamp(&points),
        vec![point(1, 2), point(1, 5), point(2, 4), point(3, 1), point(3, 3), point(3, 6)]
    );
    let sorted = vec![point(1, 9), point(1, 8), point(2, 7)];
    assert_eq!(sort_by_timestamp(&sorted), sorted);
    assert_eq!(sort_by_timestamp(&vec![]), vec![]);
    assert_eq!(
        sort_by_timestamp(&vec![point(i64::MAX, 1), point(i64::MIN, 2), point(0, 3)]),
        vec![point(i64::MIN, 2), point(0, 3), point(i64::MAX, 1)]
    );
}

#[test]
fn repeats_are_dropped_after_the_first() {
    let points = vec![point(1, 2), point(1, 5), point(2, 4), point(3, 1), point(3, 3), point(3, 6)];
    assert_eq!(drop_repeats(&points), vec![point(1, 2), point(2, 4), point(3, 1)]);
    assert_eq!(drop_repeats(&vec![]), vec![]);
    assert_eq!(drop_repeats(&vec![point(1, 1), point(2, 2), point(1, 3)]), vec![point(1, 1), point(2, 2), point(1, 3)]);
}

#[test]
fn errors_have_a_kind_and_a_message() {
    let all = [
        (EngineError::PairNotFound, ErrorKind::Validation, "invalid pair"),
        (EngineError::IntervalTooSmall, ErrorKind::Validation, "interval smaller than collection interval"),
        (EngineError::IntervalMisaligned, ErrorKind::Validation, "interval does not fit into collection interval"),
        (EngineError::InvalidIntervalRatio, ErrorKind::Validation, "input interval is not a multiple of output interval"),
        (EngineError::NoDiscrepancies, ErrorKind::Validation, "no discrepancies"),
        (EngineError::NoFallbackName, ErrorKind::Upstream, "no fallback name"),
        (EngineError::FallbackUnavailable, ErrorKind::Upstream, "fallback source reported an error"),
        (EngineError::FallbackFormatError, ErrorKind::Upstream, "fallback response format was not correct"),
        (EngineError::StoreUnavailable, ErrorKind::Store, "store unavailable"),
        (EngineError::EmptySeries, ErrorKind::Store, "series is empty"),
        (EngineError::DataIntegrity, ErrorKind::DataIntegrity, "price and timestamp sequences differ in length"),
        (EngineError::TimestampOutOfRange, ErrorKind::DataIntegrity, "timestamp did not convert to a date"),
    ];
    for (error, kind, message) in all {
        assert_eq!(error.kind(), kind);
        assert_eq!(error.message(), message);
        assert_eq!(error.is_client_error(), kind == ErrorKind::Validation);
    }
}
