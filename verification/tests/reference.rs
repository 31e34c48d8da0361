use price_collector::api::{offset_before, select};
use price_collector::clock::{
    align_down, collection_timestamp, round_to_minutes, slot, MAX_TIMESTAMP, MIN_TIMESTAMP,
};
use price_collector::datapoint::Datapoint;
use price_collector::decimal::{format_decimal, parse_decimal};
use price_collector::fixes::detect_gaps;
use price_collector::interpolate::resample;
use price_collector::order::sort_by_timestamp;
use price_collector::series::Series;

/// A small generator of numbers that look random and are the same on every run.
struct Numbers(u64);

impl Numbers {
    fn next(&mut self) -> u64 {
        self.0 ^= self.0 << 13;
        self.0 ^= self.0 >> 7;
        self.0 ^= self.0 << 17;
        self.0
    }

    fn between(&mut self, low: i64, high: i64) -> i64 {
        let width = (high as i128 - low as i128 + 1) as u128;
        (low as i128 + (self.next() as u128 % width) as i128) as i64
    }
}

#[test]
fn rounding_agrees_with_the_formula_at_many_instants() {
    let mut numbers = Numbers(0x9E37_79B9_7F4A_7C15);
    for _ in 0..20_000 {
        let secs = numbers.between(-9_300_000_000, 9_300_000_000);
        let nanos = numbers.between(0, 999_999_999) as u32;
        let stamp = secs as i128 * 1_000_000_000 + nanos as i128;
        let expected = if i64::MIN as i128 <= stamp && stamp <= i64::MAX as i128 {
            Some((60 * (stamp + 30_000_000_000).div_euclid(60_000_000_000)) as i64)
        } else {
            None
        };
        assert_eq!(collection_timestamp(secs, nanos), expected, "{} {}", secs, nanos);
    }
    for secs in -200..200 {
        for nanos in [0u32, 1, 499_999_999, 500_000_000, 999_999_999] {
            let stamp = secs as i128 * 1_000_000_000 + nanos as i128;
            let expected = (60 * (stamp + 30_000_000_000).div_euclid(60_000_000_000)) as i64;
            assert_eq!(collection_timestamp(secs, nanos), Some(expected), "{} {}", secs, nanos);
        }
    }
}

#[test]
fn gaps_agree_with_the_formula_at_many_times() {
    let mut numbers = Numbers(0xD1B5_4A32_D192_ED03);
    for _ in 0..5_000 {
        let interval = numbers.between(1, 1000);
        let last = numbers.between(-50_000, 50_000);
        let now = last + numbers.between(-3000, 12_000);
        let aligned = now - now.rem_euclid(interval);
        let count = (aligned - last).div_euclid(interval);
        let expected: Vec<i64> = (1..count.max(1)).map(|k| last + k * interval).collect();
        assert_eq!(detect_gaps(last, now, interval), Ok(expected), "{} {} {}", last, now, interval);
        assert_eq!(align_down(now, interval), aligned);
        assert_eq!(slot(now, interval), now.div_euclid(interval));
    }
    assert_eq!(detect_gaps(MIN_TIMESTAMP, MIN_TIMESTAMP + 10, 3).unwrap().len(), 2);
    assert_eq!(detect_gaps(MAX_TIMESTAMP - 11, MAX_TIMESTAMP, 3), Ok(vec![MAX_TIMESTAMP - 8, MAX_TIMESTAMP - 5]));
}

#[test]
fn offsets_agree_with_slots_at_many_times() {
    let mut numbers = Numbers(0xA076_1D64_78BD_642F);
    for _ in 0..5_000 {
        let native = numbers.between(1, 5000) as u32;
        let last = numbers.between(i64::MIN, i64::MAX);
        let before = numbers.between(i64::MIN, i64::MAX);
        let difference = last.div_euclid(native as i64) as i128 - before.div_euclid(native as i64) as i128;
        assert_eq!(offset_before(last, before, native) as i128, difference.max(0));
    }
}

#[test]
fn range_agrees_with_a_plain_reading_of_the_indexes() {
    for len in 0..6i64 {
        let mut series = Series::new();
        let mut all = Vec::new();
        for k in 0..len {
            let p = Datapoint { price: 10 * k, timestamp: 100 * k };
            series.append(p);
            all.push(p);
        }
        for start in -8..8i64 {
            for stop in -8..8i64 {
                let from = if start < 0 { (len + start).max(0) } else { start };
                let to = if stop < 0 { len + stop } else { stop.min(len - 1) };
                let expected: Vec<Datapoint> =
                    if from > to { vec![] } else { all[from as usize..=to as usize].to_vec() };
                assert_eq!(series.range(start, stop), expected, "{} {} {}", len, start, stop);
            }
        }
    }
}

#[test]
fn sorting_agrees_with_a_stable_sort() {
    let mut numbers = Numbers(0xE703_7ED1_A0B4_28DB);
    for _ in 0..300 {
        let len = numbers.between(0, 40);
        let points: Vec<Datapoint> = (0..len)
            .map(|k| Datapoint { price: k, timestamp: numbers.between(-5, 5) })
            .collect();
        let mut expected = points.clone();
        expected.sort_by_key(|p| p.timestamp);
        assert_eq!(sort_by_timestamp(&points), expected);
    }
}

#[test]
fn selection_agrees_with_the_remainder() {
    let mut numbers = Numbers(0x589F_E5A1_38C4_FB2D);
    for _ in 0..300 {
        let interval = numbers.between(1, 7) as u32;
        let points: Vec<Datapoint> = (0..30)
            .map(|k| Datapoint { price: k, timestamp: numbers.between(-40, 40) })
            .collect();
        let expected: Vec<Datapoint> =
            points.iter().copied().filter(|p| p.timestamp.rem_euclid(interval as i64) == 0).collect();
        assert_eq!(select(&points, interval), expected);
    }
}

#[test]
fn resampling_agrees_with_the_formula() {
    let mut numbers = Numbers(0x2545_F491_4F6C_DD1D);
    for _ in 0..300 {
        let steps = numbers.between(1, 12) as u16;
        let len = numbers.between(0, 6);
        let points: Vec<Datapoint> = (0..len)
            .map(|_| Datapoint { price: numbers.between(-1000, 1000), timestamp: numbers.between(i64::MIN, i64::MAX) })
            .collect();
        let mut expected = Vec::new();
        for w in points.windows(2) {
            for k in 0..steps as i128 {
                let s = steps as i128;
                expected.push(Datapoint {
                    price: (((s - k) * w[0].price as i128 + k * w[1].price as i128).div_euclid(s)) as i64,
                    timestamp: (((s - k) * w[0].timestamp as i128 + k * w[1].timestamp as i128) / s) as i64,
                });
            }
        }
        if let Some(last) = points.last() {
            expected.push(*last);
        }
        assert_eq!(resample(&points, steps), expected);
    }
}

#[test]
fn decimals_round_trip_at_many_prices() {
    let mut numbers = Numbers(0x94D0_49BB_1331_11EB);
    for _ in 0..20_000 {
        let price = numbers.between(-i64::MAX, i64::MAX) >> (numbers.next() % 64);
        let text = format_decimal(price);
        assert_eq!(parse_decimal(&text), Some(price), "{}", text);
        let sign = if price < 0 { "-" } else { "" };
        let size = price.unsigned_abs();
        assert_eq!(text, format!("{}{}.{:08}", sign, size / 100_000_000, size % 100_000_000));
    }
}

#[test]
fn rounding_to_other_spans_agrees_with_the_formula() {
    let mut numbers = Numbers(0xBF58_476D_1CE4_E5B9);
    for _ in 0..20_000 {
        let secs = numbers.between(-9_300_000_000, 9_300_000_000);
        let nanos = numbers.between(0, 999_999_999) as u32;
        let minutes = numbers.between(1, 1440);
        let stamp = secs as i128 * 1_000_000_000 + nanos as i128;
        let span = 60 * minutes as i128;
        let expected = if i64::MIN as i128 <= stamp && stamp <= i64::MAX as i128 {
            Some((span * (stamp + span * 500_000_000).div_euclid(span * 1_000_000_000)) as i64)
        } else {
            None
        };
        assert_eq!(round_to_minutes(secs, nanos, minutes), expected, "{} {} {}", secs, nanos, minutes);
    }
    for minutes in [1i64, 2, 5, 7, 60, 1439, 1440] {
        let span = 60 * minutes;
        for multiple in [-3i64, -1, 0, 1, 4] {
            let at = multiple * span;
            // Exact multiples stay, and halfway goes to the later multiple.
            assert_eq!(round_to_minutes(at, 0, minutes), Some(at));
            assert_eq!(round_to_minutes(at + span / 2, 0, minutes), Some(at + span));
            assert_eq!(round_to_minutes(at + span / 2 - 1, 999_999_999, minutes), Some(at));
            assert_eq!(round_to_minutes(at - span / 2, 0, minutes), Some(at));
            assert_eq!(round_to_minutes(at - span / 2 - 1, 999_999_999, minutes), Some(at - span));
        }
    }
    // The ends of 64 bits of nanoseconds, with the longest span.
    assert_eq!(round_to_minutes(9_223_372_036, 854_775_807, 1440), Some(9_223_372_800));
    assert_eq!(round_to_minutes(9_223_372_036, 854_775_808, 1440), None);
    assert_eq!(round_to_minutes(-9_223_372_037, 145_224_192, 1440), Some(-9_223_372_800));
    assert_eq!(round_to_minutes(-9_223_372_037, 145_224_191, 1440), None);
}

#[test]
fn rounding_refuses_spans_out_of_reach() {
    assert_eq!(round_to_minutes(100, 0, 0), None);
    assert_eq!(round_to_minutes(100, 0, -1), None);
    assert_eq!(round_to_minutes(100, 0, 1441), None);
    assert_eq!(round_to_minutes(100, 0, i64::MAX), None);
    assert_eq!(round_to_minutes(100, 0, i64::MIN), None);
    assert_eq!(round_to_minutes(100, 1_000_000_000, 1), None);
    assert_eq!(round_to_minutes(100, 0, 1), collection_timestamp(100, 0));
}
