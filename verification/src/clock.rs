//! Arithmetic on Unix timestamps: the range of representable dates, alignment to an
//! interval boundary, and the slot a timestamp falls in.

use chrono::{DateTime, DurationRound, TimeDelta, Utc};
use vstd::prelude::*;

verus! {

/// The first second of the earliest representable date (1 January of the year -262143).
pub const MIN_TIMESTAMP: i64 = -8_334_601_228_800;

/// The last second of the latest representable date (31 December of the year 262142).
pub const MAX_TIMESTAMP: i64 = 8_210_266_876_799;

/// Nanoseconds in one second.
pub const NANOS_PER_SEC: i64 = 1_000_000_000;

/// Whether `secs` names a second of a representable date.
pub open spec fn representable(secs: int) -> bool {
    MIN_TIMESTAMP <= secs <= MAX_TIMESTAMP
}

/// The largest multiple of `interval` that is not above `t`.
pub open spec fn floor_to(t: int, interval: int) -> int
    recommends
        interval > 0,
{
    t - t % interval
}

/// The number of the slot of width `interval` that holds `t`.
pub open spec fn slot_of(t: int, interval: int) -> int
    recommends
        interval > 0,
{
    t / interval
}

/// The minute nearest to the instant `secs` seconds and `nanos` nanoseconds after the
/// epoch, in seconds; an instant halfway between two minutes goes to the later one.
pub open spec fn nearest_minute(secs: int, nanos: int) -> int {
    60 * ((secs * 1_000_000_000 + nanos + 30_000_000_000) / 60_000_000_000)
}

/// Whether the instant can be counted in nanoseconds within 64 bits.
pub open spec fn nanos_representable(secs: int, nanos: int) -> bool {
    i64::MIN <= secs * 1_000_000_000 + nanos <= i64::MAX
}

/// Calls `DateTime::<Utc>::from_timestamp` with no sub-second part and reads the
/// result back with `DateTime::timestamp`. The source shows that a date is built
/// exactly when the day of `secs` lies in a year from -262143 to 262142, and that
/// `timestamp` returns the seconds the date was built from.
#[verifier::external_body]
pub(crate) fn utc_seconds(secs: i64) -> (r: Option<i64>)
    ensures
        r == (if representable(secs as int) { Some(secs) } else { None }),
{
    DateTime::<Utc>::from_timestamp(secs, 0).map(|dt| dt.timestamp())
}

/// The multiple of `span` seconds nearest to the instant `secs` seconds and `nanos`
/// nanoseconds after the epoch, in seconds; an instant halfway between two
/// multiples goes to the later one.
pub open spec fn nearest_multiple(secs: int, nanos: int, span: int) -> int
    recommends
        span > 0,
{
    span * ((secs * 1_000_000_000 + nanos + span * 500_000_000) / (span * 1_000_000_000))
}

/// Calls `DurationRound::duration_round` on the `DateTime<Utc>` of the instant, with
/// the span that `TimeDelta::try_minutes` makes of `minutes`. The source shows that
/// it fails when the instant does not fit in 64 bits of nanoseconds, and otherwise
/// moves the instant to the nearest multiple of the span, a tie going to the later
/// one. Spans of up to a day are asked for, which `try_minutes` makes without fail.
#[verifier::external_body]
fn utc_round(secs: i64, nanos: u32, minutes: i64) -> (r: Option<i64>)
    requires
        nanos < NANOS_PER_SEC,
        0 < minutes <= 1440,
    ensures
        r == (if representable(secs as int) && nanos_representable(secs as int, nanos as int) {
            Some(nearest_multiple(secs as int, nanos as int, 60 * minutes) as i64)
        } else {
            None
        }),
{
    let span = TimeDelta::try_minutes(minutes)?;
    let instant = DateTime::<Utc>::from_timestamp(secs, nanos)?;
    instant.duration_round(span).ok().map(|dt| dt.timestamp())
}

/// Rounds an instant to the nearest multiple of `minutes` minutes, a tie going to
/// the later one. `None` when `nanos` is not below one second, when `minutes` is
/// not from one minute to a day, or when the instant is too far from the epoch to
/// be rounded.
pub fn round_to_minutes(secs: i64, nanos: u32, minutes: i64) -> (r: Option<i64>)
    ensures
        r is Some <==> nanos < NANOS_PER_SEC && 0 < minutes <= 1440 && representable(secs as int)
            && nanos_representable(secs as int, nanos as int),
        r is Some ==> r->0 == nearest_multiple(secs as int, nanos as int, 60 * minutes),
{
    if nanos >= 1_000_000_000 || minutes <= 0 || minutes > 1440 {
        return None;
    }
    let r = utc_round(secs, nanos, minutes);
    proof {
        if r is Some {
            lemma_nearest_multiple(secs as int, nanos as int, 60 * minutes);
        }
    }
    r
}

/// The timestamp under which a sample taken at the given instant is stored: the
/// nearest whole minute. `None` when `nanos` is not below one second or the instant
/// is too far from the epoch to be rounded.
pub fn collection_timestamp(secs: i64, nanos: u32) -> (r: Option<i64>)
    ensures
        r is Some <==> nanos < NANOS_PER_SEC && representable(secs as int) && nanos_representable(
            secs as int,
            nanos as int,
        ),
        r is Some ==> r->0 == nearest_minute(secs as int, nanos as int),
        r is Some ==> r->0 % 60 == 0,
        r is Some ==> -30 <= r->0 - secs <= 30,
{
    let r = round_to_minutes(secs, nanos, 1);
    proof {
        if r is Some {
            lemma_nearest_minute(secs as int, nanos as int);
        }
    }
    r
}

/// The nearest multiple of a span is about half a span away at most.
pub proof fn lemma_nearest_multiple(secs: int, nanos: int, span: int)
    requires
        0 <= nanos < 1_000_000_000,
        span > 0,
    ensures
        -span < 2 * (nearest_multiple(secs, nanos, span) - secs) <= span + 1,
{
    let wide = span * 1_000_000_000;
    let stamp = secs * 1_000_000_000 + nanos + span * 500_000_000;
    let q = stamp / wide;
    let rest = stamp % wide;
    vstd::arithmetic::div_mod::lemma_fundamental_div_mod(stamp, wide);
    vstd::arithmetic::div_mod::lemma_mod_bound(stamp, wide);
    let near = span * q;
    assert(near * 1_000_000_000 == wide * q) by (nonlinear_arith)
        requires
            wide == span * 1_000_000_000,
            near == span * q,
    ;
    assert((near - secs) * 1_000_000_000 == nanos + span * 500_000_000 - rest);
}

/// The nearest minute is a whole minute at most half a minute away.
pub proof fn lemma_nearest_minute(secs: int, nanos: int)
    requires
        0 <= nanos < 1_000_000_000,
    ensures
        nearest_minute(secs, nanos) % 60 == 0,
        -30 <= nearest_minute(secs, nanos) - secs <= 30,
{
    let stamp = secs * 1_000_000_000 + nanos + 30_000_000_000;
    let q = stamp / 60_000_000_000;
    assert(stamp == 60_000_000_000 * q + stamp % 60_000_000_000);
    assert(0 <= stamp % 60_000_000_000 < 60_000_000_000);
    assert((60 * q) % 60 == 0) by (nonlinear_arith);
}

/// Aligns `t` down to a boundary of `interval`.
pub fn align_down(t: i64, interval: i64) -> (r: i64)
    requires
        interval > 0,
        floor_to(t as int, interval as int) >= i64::MIN,
    ensures
        r == floor_to(t as int, interval as int),
        r <= t < r + interval,
        r % interval == 0,
{
    let rem = t % interval;
    proof {
        lemma_floor_to(t as int, interval as int);
        if t < 0 {
            lemma_div_mod_of_negative(-(t as int), interval as int);
        }
    }
    if rem < 0 {
        t - (rem + interval)
    } else {
        t - rem
    }
}

/// The slot of width `interval` that holds `t`.
pub fn slot(t: i64, interval: i64) -> (r: i64)
    requires
        interval > 0,
    ensures
        r == slot_of(t as int, interval as int),
        r * interval <= t < (r + 1) * interval,
{
    let q = t / interval;
    let rem = t % interval;
    proof {
        lemma_floor_to(t as int, interval as int);
        if t < 0 {
            lemma_div_mod_of_negative(-(t as int), interval as int);
            let s = slot_of(t as int, interval as int);
            assert(s >= t) by (nonlinear_arith)
                requires
                    interval > 0,
                    t < 0,
                    t < (s + 1) * interval,
            ;
        }
    }
    if rem < 0 {
        q - 1
    } else {
        q
    }
}

/// Quotient and remainder of `-x` from those of `x`.
pub proof fn lemma_div_mod_of_negative(x: int, d: int)
    requires
        x > 0,
        d > 0,
    ensures
        x % d == 0 ==> (-x) % d == 0 && (-x) / d == -(x / d),
        x % d != 0 ==> (-x) % d == d - x % d && (-x) / d == -(x / d) - 1,
{
    vstd::arithmetic::div_mod::lemma_fundamental_div_mod(x, d);
    vstd::arithmetic::div_mod::lemma_mod_bound(x, d);
    let q = x / d;
    let r = x % d;
    if r == 0 {
        assert(-x == (-q) * d + 0) by (nonlinear_arith)
            requires
                x == d * q + r,
                r == 0,
        ;
        vstd::arithmetic::div_mod::lemma_fundamental_div_mod_converse(-x, d, -q, 0);
    } else {
        assert(-x == (-q - 1) * d + (d - r)) by (nonlinear_arith)
            requires
                x == d * q + r,
        ;
        vstd::arithmetic::div_mod::lemma_fundamental_div_mod_converse(-x, d, -q - 1, d - r);
    }
}

/// Aligning down gives the boundary at or below `t` that is less than one interval away.
pub proof fn lemma_floor_to(t: int, interval: int)
    requires
        interval > 0,
    ensures
        floor_to(t, interval) == interval * slot_of(t, interval),
        floor_to(t, interval) <= t < floor_to(t, interval) + interval,
        floor_to(t, interval) % interval == 0,
        slot_of(t, interval) * interval <= t < (slot_of(t, interval) + 1) * interval,
{
    vstd::arithmetic::div_mod::lemma_fundamental_div_mod(t, interval);
    vstd::arithmetic::div_mod::lemma_mod_bound(t, interval);
    vstd::arithmetic::div_mod::lemma_mod_multiples_basic(t / interval, interval);
    assert(interval * (t / interval) == (t / interval) * interval) by (nonlinear_arith);
    assert((t / interval + 1) * interval == (t / interval) * interval + interval) by (nonlinear_arith);
}

} // verus!
