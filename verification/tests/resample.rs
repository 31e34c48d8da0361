use price_collector::datapoint::{Datapoint, KrakenInterval, TimeType};
use price_collector::error::EngineError;
use price_collector::interpolate::{interpolate_datapoints, resample};

fn point(timestamp: i64, price: i64) -> Datapoint {
    Datapoint { price, timestamp }
}

#[test]
fn two_points_in_four_steps() {
    let out = resample(&vec![point(0, 0), point(100, 100)], 4);
    assert_eq!(out, vec![point(0, 0), point(25, 25), point(50, 50), point(75, 75), point(100, 100)]);
}

#[test]
fn hour_to_quarter_hour_is_four_steps() {
    let input = vec![point(0, 0), point(3600, 100)];
    let out = interpolate_datapoints(input, &KrakenInterval::Hour, &KrakenInterval::FifteenMinutes);
    assert_eq!(
        out,
        Ok(vec![point(0, 0), point(900, 25), point(1800, 50), point(2700, 75), point(3600, 100)])
    );
}

#[test]
fn inner_points_appear_once() {
    let out = resample(&vec![point(0, 10), point(10, 20), point(20, 0)], 2);
    assert_eq!(out, vec![point(0, 10), point(5, 15), point(10, 20), point(15, 10), point(20, 0)]);
    assert_eq!(out.len(), (3 - 1) * 2 + 1);
}

#[test]
fn one_step_changes_nothing() {
    let input = vec![point(0, 10), point(10, 20), point(20, 0)];
    assert_eq!(resample(&input, 1), input);
    assert_eq!(
        interpolate_datapoints(input.clone(), &KrakenInterval::Day, &KrakenInterval::Day),
        Ok(input)
    );
}

#[test]
fn empty_and_single_input() {
    assert_eq!(resample(&vec![], 4), vec![]);
    assert_eq!(resample(&vec![point(7, 9)], 4), vec![point(7, 9)]);
    assert_eq!(
        interpolate_datapoints(vec![], &KrakenInterval::Hour, &KrakenInterval::Minute),
        Ok(vec![])
    );
}

#[test]
fn prices_are_rounded_down_and_timestamps_cut_towards_zero() {
    let out = resample(&vec![point(0, 0), point(10, 1)], 3);
    assert_eq!(out, vec![point(0, 0), point(3, 0), point(6, 0), point(10, 1)]);
    let out = resample(&vec![point(-10, -1), point(0, 0)], 3);
    assert_eq!(out, vec![point(-10, -1), point(-6, -1), point(-3, -1), point(0, 0)]);
    let out = resample(&vec![point(-3, -3), point(0, 0)], 2);
    assert_eq!(out, vec![point(-3, -3), point(-1, -2), point(0, 0)]);
    let out = resample(&vec![point(0, 0), point(1, -1)], 2);
    assert_eq!(out, vec![point(0, 0), point(0, -1), point(1, -1)]);
    let out = resample(&vec![point(-7, 7), point(2, -2)], 4);
    assert_eq!(out, vec![point(-7, 7), point(-4, 4), point(-2, 2), point(0, 0), point(2, -2)]);
}

#[test]
fn extreme_values_do_not_overflow() {
    let out = resample(&vec![point(i64::MIN, i64::MAX), point(i64::MAX, i64::MIN)], 2);
    assert_eq!(out, vec![point(i64::MIN, i64::MAX), point(0, -1), point(i64::MAX, i64::MIN)]);
    let out = resample(&vec![point(i64::MAX, i64::MAX), point(i64::MAX, i64::MAX)], u16::MAX);
    assert_eq!(out.len(), 65536);
    assert!(out.iter().all(|p| *p == point(i64::MAX, i64::MAX)));
}

#[test]
fn day_to_five_minutes_is_288_steps() {
    let input = vec![point(0, 0), point(86_400, 288_000)];
    let out = interpolate_datapoints(input, &KrakenInterval::Day, &KrakenInterval::FiveMinutes).unwrap();
    assert_eq!(out.len(), 289);
    for (k, p) in out.iter().enumerate() {
        assert_eq!(*p, point(300 * k as i64, 1000 * k as i64));
    }
}

#[test]
fn interval_that_is_no_multiple_is_refused() {
    let input = vec![point(0, 0), point(100, 100)];
    assert_eq!(
        interpolate_datapoints(input.clone(), &KrakenInterval::FiveMinutes, &KrakenInterval::FifteenMinutes),
        Err(EngineError::InvalidIntervalRatio)
    );
    assert_eq!(
        interpolate_datapoints(input.clone(), &KrakenInterval::HalfMonth, &KrakenInterval::Week),
        Err(EngineError::InvalidIntervalRatio)
    );
    assert_eq!(
        interpolate_datapoints(input.clone(), &KrakenInterval::Minute, &KrakenInterval::Day),
        Err(EngineError::InvalidIntervalRatio)
    );
    assert_eq!(
        interpolate_datapoints(vec![], &KrakenInterval::Minute, &KrakenInterval::Day),
        Err(EngineError::InvalidIntervalRatio)
    );
    assert!(interpolate_datapoints(input, &KrakenInterval::Week, &KrakenInterval::FourHours).is_ok());
}

#[test]
fn resampling_keeps_chronological_order() {
    let input = vec![point(0, 5), point(7, 1), point(7, 3), point(100, -4)];
    let out = resample(&input, 5);
    assert_eq!(out.len(), 16);
    for w in out.windows(2) {
        assert!(w[0].timestamp <= w[1].timestamp);
    }
    for (j, p) in input.iter().enumerate() {
        assert_eq!(out[j * 5], *p);
    }
}

#[test]
fn datapoint_new_takes_either_form_of_time() {
    assert_eq!(Datapoint::new(5, TimeType::Timestamp(77)), Ok(point(77, 5)));
    assert_eq!(Datapoint::new(-5, TimeType::DateTime { secs: 1_431_648_000, nanos: 999 }), Ok(point(1_431_648_000, -5)));
    assert_eq!(TimeType::DateTime { secs: -3, nanos: 0 }.seconds(), -3);
    assert_eq!(TimeType::Timestamp(i64::MIN).seconds(), i64::MIN);
}

#[test]
fn kraken_intervals_in_minutes() {
    let all = [
        (KrakenInterval::Minute, 1u16),
        (KrakenInterval::FiveMinutes, 5),
        (KrakenInterval::FifteenMinutes, 15),
        (KrakenInterval::HalfHour, 30),
        (KrakenInterval::Hour, 60),
        (KrakenInterval::FourHours, 240),
        (KrakenInterval::Day, 1440),
        (KrakenInterval::Week, 10080),
        (KrakenInterval::HalfMonth, 21600),
    ];
    for (interval, minutes) in all {
        assert_eq!(interval.minutes(), minutes);
        assert_eq!(interval.seconds(), 60 * minutes as i64);
        assert_eq!(KrakenInterval::from_minutes(minutes), Some(interval));
    }
    assert_eq!(KrakenInterval::from_minutes(0), None);
    assert_eq!(KrakenInterval::from_minutes(2), None);
    assert_eq!(KrakenInterval::default(), KrakenInterval::FiveMinutes);
}
