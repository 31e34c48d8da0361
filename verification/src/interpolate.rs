//! The resampler: a coarse series made denser by linear interpolation between each
//! two consecutive points.

use crate::datapoint::{ascending, Datapoint, KrakenInterval};
use crate::error::EngineError;
use vstd::prelude::*;

verus! {

/// The price `k` parts of `steps` along the way from `a` to `b`. Prices are whole
/// parts of `PRICE_SCALE`, and a fraction of a part is rounded down.
pub open spec fn lerp(a: int, b: int, k: int, steps: int) -> int
    recommends
        steps > 0,
        0 <= k <= steps,
{
    ((steps - k) * a + k * b) / steps
}

/// The quotient of `n` by `d` with its fraction cut off: rounded towards zero.
pub open spec fn cut_div(n: int, d: int) -> int
    recommends
        d > 0,
{
    if n >= 0 {
        n / d
    } else {
        -((-n) / d)
    }
}

/// The timestamp `k` parts of `steps` along the way from `a` to `b`. Timestamps
/// are whole seconds, and a fraction of a second is cut off, towards zero.
pub open spec fn lerp_time(a: int, b: int, k: int, steps: int) -> int
    recommends
        steps > 0,
        0 <= k <= steps,
{
    cut_div((steps - k) * a + k * b, steps)
}

/// The point `k` parts of `steps` along the way from `p` to `q`: price and timestamp
/// are both interpolated linearly, the price rounded down to a whole part and the
/// timestamp cut to a whole second.
pub open spec fn between(p: Datapoint, q: Datapoint, k: int, steps: int) -> Datapoint {
    Datapoint {
        price: lerp(p.price as int, q.price as int, k, steps) as i64,
        timestamp: lerp_time(p.timestamp as int, q.timestamp as int, k, steps) as i64,
    }
}

/// The `i`-th point of the resampled series: point `i / steps` of the input where
/// `steps` divides `i`, and else the point `i % steps` parts of `steps` along the way
/// from that one to the next.
pub open spec fn resampled_point(points: Seq<Datapoint>, steps: int, i: int) -> Datapoint {
    let segment = i / steps;
    if segment + 1 < points.len() {
        between(points[segment], points[segment + 1], i % steps, steps)
    } else {
        points[segment]
    }
}

/// The resampled series: each point of the input but the last is followed by
/// `steps - 1` interpolated points, and the last point closes the series once.
pub open spec fn interpolated(points: Seq<Datapoint>, steps: int) -> Seq<Datapoint>
    recommends
        steps >= 1,
{
    if points.len() == 0 {
        Seq::empty()
    } else {
        Seq::new(
            ((points.len() - 1) * steps + 1) as nat,
            |i: int| resampled_point(points, steps, i),
        )
    }
}

/// How many output points one input interval is split into, where the input interval
/// is a whole multiple of the output interval.
pub open spec fn steps_between(input: KrakenInterval, output: KrakenInterval) -> Option<int> {
    if input.spec_minutes() % output.spec_minutes() == 0 {
        Some(input.spec_minutes() as int / output.spec_minutes() as int)
    } else {
        None
    }
}

/// An interpolated price lies between the two prices it is taken from, and is the
/// first of them at `k == 0` and the second at `k == steps`.
pub proof fn lemma_lerp_bounds(a: int, b: int, k: int, steps: int)
    requires
        steps > 0,
        0 <= k <= steps,
    ensures
        a <= b ==> a <= lerp(a, b, k, steps) <= b,
        b <= a ==> b <= lerp(a, b, k, steps) <= a,
        k == 0 ==> lerp(a, b, k, steps) == a,
        k == steps ==> lerp(a, b, k, steps) == b,
{
    let num = (steps - k) * a + k * b;
    let lo = if a <= b { a } else { b };
    let hi = if a <= b { b } else { a };
    assert(lo * steps <= num <= hi * steps) by (nonlinear_arith)
        requires
            num == (steps - k) * a + k * b,
            0 <= k <= steps,
            lo <= a <= hi,
            lo <= b <= hi,
    ;
    vstd::arithmetic::div_mod::lemma_div_is_ordered(lo * steps, num, steps);
    vstd::arithmetic::div_mod::lemma_div_is_ordered(num, hi * steps, steps);
    vstd::arithmetic::div_mod::lemma_div_multiples_vanish(lo, steps);
    vstd::arithmetic::div_mod::lemma_div_multiples_vanish(hi, steps);
    assert(lo * steps == steps * lo && hi * steps == steps * hi) by (nonlinear_arith);
    if k == 0 {
        assert(num == steps * a) by (nonlinear_arith)
            requires
                num == (steps - k) * a + k * b,
                k == 0,
        ;
        vstd::arithmetic::div_mod::lemma_div_multiples_vanish(a, steps);
    }
    if k == steps {
        assert(num == steps * b) by (nonlinear_arith)
            requires
                num == (steps - k) * a + k * b,
                k == steps,
        ;
        vstd::arithmetic::div_mod::lemma_div_multiples_vanish(b, steps);
    }
}

/// Between two prices in order, a later step gives no smaller a price.
pub proof fn lemma_lerp_monotonic(a: int, b: int, k1: int, k2: int, steps: int)
    requires
        steps > 0,
        0 <= k1 <= k2 <= steps,
        a <= b,
    ensures
        lerp(a, b, k1, steps) <= lerp(a, b, k2, steps),
{
    let n1 = (steps - k1) * a + k1 * b;
    let n2 = (steps - k2) * a + k2 * b;
    assert(n1 <= n2) by (nonlinear_arith)
        requires
            n1 == (steps - k1) * a + k1 * b,
            n2 == (steps - k2) * a + k2 * b,
            k1 <= k2,
            a <= b,
    ;
    vstd::arithmetic::div_mod::lemma_div_is_ordered(n1, n2, steps);
}

/// Cutting off the fraction keeps order, and gives a whole multiple back whole.
pub proof fn lemma_cut_div(n1: int, n2: int, m: int, d: int)
    requires
        d > 0,
        n1 <= n2,
    ensures
        cut_div(n1, d) <= cut_div(n2, d),
        cut_div(m * d, d) == m,
{
    if n1 >= 0 {
        vstd::arithmetic::div_mod::lemma_div_is_ordered(n1, n2, d);
    } else if n2 < 0 {
        vstd::arithmetic::div_mod::lemma_div_is_ordered(-n2, -n1, d);
    } else {
        vstd::arithmetic::div_mod::lemma_div_is_ordered(0, -n1, d);
        vstd::arithmetic::div_mod::lemma_div_is_ordered(0, n2, d);
    }
    if m >= 0 {
        assert(m * d >= 0) by (nonlinear_arith)
            requires
                m >= 0,
                d > 0,
        ;
        assert(m * d == d * m) by (nonlinear_arith);
        vstd::arithmetic::div_mod::lemma_div_multiples_vanish(m, d);
    } else {
        assert(m * d < 0 && -(m * d) == d * (-m)) by (nonlinear_arith)
            requires
                m < 0,
                d > 0,
        ;
        vstd::arithmetic::div_mod::lemma_div_multiples_vanish(-m, d);
    }
}

/// An interpolated timestamp lies between the two timestamps it is taken from, and
/// is the first of them at `k == 0` and the second at `k == steps`.
pub proof fn lemma_lerp_time_bounds(a: int, b: int, k: int, steps: int)
    requires
        steps > 0,
        0 <= k <= steps,
    ensures
        a <= b ==> a <= lerp_time(a, b, k, steps) <= b,
        b <= a ==> b <= lerp_time(a, b, k, steps) <= a,
        k == 0 ==> lerp_time(a, b, k, steps) == a,
        k == steps ==> lerp_time(a, b, k, steps) == b,
{
    let num = (steps - k) * a + k * b;
    let lo = if a <= b { a } else { b };
    let hi = if a <= b { b } else { a };
    assert(lo * steps <= num <= hi * steps) by (nonlinear_arith)
        requires
            num == (steps - k) * a + k * b,
            0 <= k <= steps,
            lo <= a <= hi,
            lo <= b <= hi,
    ;
    lemma_cut_div(lo * steps, num, lo, steps);
    lemma_cut_div(num, hi * steps, hi, steps);
    if k == 0 {
        assert(num == a * steps) by (nonlinear_arith)
            requires
                num == (steps - k) * a + k * b,
                k == 0,
        ;
        lemma_cut_div(num, num, a, steps);
    }
    if k == steps {
        assert(num == b * steps) by (nonlinear_arith)
            requires
                num == (steps - k) * a + k * b,
                k == steps,
        ;
        lemma_cut_div(num, num, b, steps);
    }
}

/// Between two timestamps in order, a later step gives no earlier a timestamp.
pub proof fn lemma_lerp_time_monotonic(a: int, b: int, k1: int, k2: int, steps: int)
    requires
        steps > 0,
        0 <= k1 <= k2 <= steps,
        a <= b,
    ensures
        lerp_time(a, b, k1, steps) <= lerp_time(a, b, k2, steps),
{
    let n1 = (steps - k1) * a + k1 * b;
    let n2 = (steps - k2) * a + k2 * b;
    assert(n1 <= n2) by (nonlinear_arith)
        requires
            n1 == (steps - k1) * a + k1 * b,
            n2 == (steps - k2) * a + k2 * b,
            k1 <= k2,
            a <= b,
    ;
    lemma_cut_div(n1, n2, 0, steps);
}

/// The quotient of `n` by `d`, rounded down.
fn floor_div(n: i128, d: i128) -> (q: i128)
    requires
        d > 0,
        n > i128::MIN,
    ensures
        q == n as int / d as int,
{
    let q = n / d;
    let rem = n % d;
    proof {
        if n < 0 {
            crate::clock::lemma_div_mod_of_negative(-(n as int), d as int);
            let s = n as int / d as int;
            crate::clock::lemma_floor_to(n as int, d as int);
            assert(s >= n) by (nonlinear_arith)
                requires
                    d > 0,
                    n < 0,
                    n < (s + 1) * d,
            ;
        }
    }
    if rem < 0 {
        q - 1
    } else {
        q
    }
}

/// The sum that both interpolations divide by `steps`: `steps - k` times `a` and
/// `k` times `b`.
fn weighted_sum(a: i64, b: i64, k: u16, steps: u16) -> (sum: i128)
    requires
        k <= steps,
    ensures
        sum == (steps - k) * a + k * b,
        -0x8000_0000_0000_0000 * 0x2_0000 <= sum <= 0x8000_0000_0000_0000 * 0x2_0000,
{
    proof {
        assert(-0x8000_0000_0000_0000 * 0x1_0000 <= (steps - k) * a <= 0x8000_0000_0000_0000
            * 0x1_0000) by (nonlinear_arith)
            requires
                0 <= steps - k <= 0xffff,
                -0x8000_0000_0000_0000 <= a < 0x8000_0000_0000_0000,
        ;
        assert(-0x8000_0000_0000_0000 * 0x1_0000 <= k * b <= 0x8000_0000_0000_0000 * 0x1_0000)
            by (nonlinear_arith)
            requires
                0 <= k <= 0xffff,
                -0x8000_0000_0000_0000 <= b < 0x8000_0000_0000_0000,
        ;
    }
    let left: i128 = ((steps - k) as i128) * (a as i128);
    let right: i128 = (k as i128) * (b as i128);
    left + right
}

/// The price `k` parts of `steps` along the way from `a` to `b`, rounded down.
fn lerp_exec(a: i64, b: i64, k: u16, steps: u16) -> (r: i64)
    requires
        steps > 0,
        k <= steps,
    ensures
        r == lerp(a as int, b as int, k as int, steps as int),
{
    proof {
        lemma_lerp_bounds(a as int, b as int, k as int, steps as int);
    }
    let q = floor_div(weighted_sum(a, b, k, steps), steps as i128);
    q as i64
}

/// The timestamp `k` parts of `steps` along the way from `a` to `b`, cut to a whole
/// second.
fn lerp_time_exec(a: i64, b: i64, k: u16, steps: u16) -> (r: i64)
    requires
        steps > 0,
        k <= steps,
    ensures
        r == lerp_time(a as int, b as int, k as int, steps as int),
{
    proof {
        lemma_lerp_time_bounds(a as int, b as int, k as int, steps as int);
    }
    let q = weighted_sum(a, b, k, steps) / (steps as i128);
    q as i64
}

/// Resamples `points` so that each step between two consecutive points becomes
/// `steps` steps. Price and timestamp of the added points are interpolated
/// linearly: the price is rounded down to a whole part of `PRICE_SCALE`, the
/// timestamp is cut to a whole second, towards zero. The added points are
/// estimates, not observations.
pub fn resample(points: &Vec<Datapoint>, steps: u16) -> (out: Vec<Datapoint>)
    requires
        steps >= 1,
    ensures
        out@ == interpolated(points@, steps as int),
{
    let mut out: Vec<Datapoint> = Vec::new();
    if points.len() == 0 {
        return out;
    }
    let last = points.len() - 1;
    let mut segment: usize = 0;
    while segment < last
        invariant
            steps >= 1,
            last == points.len() - 1,
            segment <= last,
            out@.len() == segment * steps,
            forall|i: int| 0 <= i < out@.len() ==> out@[i] == resampled_point(points@, steps as int, i),
        decreases last - segment,
    {
        let p = points[segment];
        let q = points[segment + 1];
        let mut k: u16 = 0;
        while k < steps
            invariant
                steps >= 1,
                k <= steps,
                segment < last,
                last == points.len() - 1,
                p == points@[segment as int],
                q == points@[segment + 1],
                out@.len() == segment * steps + k,
                forall|i: int|
                    0 <= i < out@.len() ==> out@[i] == resampled_point(points@, steps as int, i),
            decreases steps - k,
        {
            let point = Datapoint {
                price: lerp_exec(p.price, q.price, k, steps),
                timestamp: lerp_time_exec(p.timestamp, q.timestamp, k, steps),
            };
            proof {
                let i = segment * steps + k;
                lemma_index_split(segment as int, k as int, steps as int);
                assert(point == resampled_point(points@, steps as int, i));
            }
            out.push(point);
            k = k + 1;
        }
        proof {
            assert((segment + 1) * steps == segment * steps + steps) by (nonlinear_arith);
        }
        segment = segment + 1;
    }
    proof {
        lemma_index_split(last as int, 0, steps as int);
    }
    out.push(points[last]);
    proof {
        assert(out@ =~= interpolated(points@, steps as int));
    }
    out
}

/// The index `segment * steps + k` splits back into `segment` and `k`.
pub proof fn lemma_index_split(segment: int, k: int, steps: int)
    requires
        steps > 0,
        0 <= k < steps,
    ensures
        (segment * steps + k) / steps == segment,
        (segment * steps + k) % steps == k,
{
    vstd::arithmetic::div_mod::lemma_fundamental_div_mod_converse(
        segment * steps + k,
        steps,
        segment,
        k,
    );
}

/// Resamples a series sampled at `input_interval` to the finer `output_interval`.
/// The input interval has to be a whole multiple of the output interval.
pub fn interpolate_datapoints(
    datapoints: Vec<Datapoint>,
    input_interval: &KrakenInterval,
    output_interval: &KrakenInterval,
) -> (r: Result<Vec<Datapoint>, EngineError>)
    ensures
        match steps_between(*input_interval, *output_interval) {
            Some(steps) => r is Ok && r->Ok_0@ == interpolated(datapoints@, steps),
            None => r == Err::<Vec<Datapoint>, EngineError>(EngineError::InvalidIntervalRatio),
        },
{
    let input = input_interval.minutes();
    let output = output_interval.minutes();
    if input % output != 0 {
        return Err(EngineError::InvalidIntervalRatio);
    }
    let steps = input / output;
    proof {
        vstd::arithmetic::div_mod::lemma_fundamental_div_mod(input as int, output as int);
        assert(steps >= 1) by (nonlinear_arith)
            requires
                input >= 1,
                output >= 1,
                input == output * steps + 0,
        ;
    }
    Ok(resample(&datapoints, steps))
}

/// A resampled series of `n > 0` points has `(n - 1) * steps + 1` points, and the
/// points of the input stand in it `steps` apart, unchanged. The last input point
/// is its last point.
pub proof fn lemma_interpolated_keeps_points(points: Seq<Datapoint>, steps: int, j: int)
    requires
        steps >= 1,
        0 <= j < points.len(),
    ensures
        interpolated(points, steps).len() == (points.len() - 1) * steps + 1,
        0 <= j * steps < interpolated(points, steps).len(),
        interpolated(points, steps)[j * steps] == points[j],
        interpolated(points, steps).last() == points.last(),
{
    let n = points.len() as int;
    assert(0 <= j * steps <= (n - 1) * steps) by (nonlinear_arith)
        requires
            0 <= j <= n - 1,
            steps >= 1,
    ;
    assert(0 <= (n - 1) * steps) by (nonlinear_arith)
        requires
            n >= 1,
            steps >= 1,
    ;
    lemma_index_split(j, 0, steps);
    lemma_index_split(n - 1, 0, steps);
    if j + 1 < n {
        lemma_lerp_bounds(points[j].price as int, points[j + 1].price as int, 0, steps);
        lemma_lerp_time_bounds(points[j].timestamp as int, points[j + 1].timestamp as int, 0, steps);
    }
}

/// The timestamp of a resampled point lies between those of the input points around it.
proof fn lemma_resampled_timestamp(points: Seq<Datapoint>, steps: int, i: int)
    requires
        steps >= 1,
        ascending(points),
        0 <= i < interpolated(points, steps).len(),
    ensures
        0 <= i / steps < points.len(),
        0 <= i % steps < steps,
        i / steps + 1 < points.len() ==> resampled_point(points, steps, i).timestamp == lerp_time(
            points[i / steps].timestamp as int,
            points[i / steps + 1].timestamp as int,
            i % steps,
            steps,
        ),
        points[i / steps].timestamp <= resampled_point(points, steps, i).timestamp,
        i / steps + 1 < points.len() ==> resampled_point(points, steps, i).timestamp <= points[i
            / steps + 1].timestamp,
{
    let n = points.len() as int;
    let segment = i / steps;
    vstd::arithmetic::div_mod::lemma_fundamental_div_mod(i, steps);
    vstd::arithmetic::div_mod::lemma_mod_bound(i, steps);
    assert(0 <= segment <= n - 1) by (nonlinear_arith)
        requires
            steps >= 1,
            0 <= i <= (n - 1) * steps,
            i == steps * segment + i % steps,
            0 <= i % steps < steps,
    ;
    if segment + 1 < n {
        lemma_lerp_time_bounds(
            points[segment].timestamp as int,
            points[segment + 1].timestamp as int,
            i % steps,
            steps,
        );
    }
}

/// Resampling keeps chronological order: where no timestamp of the input is below
/// the one before it, none of the output is.
pub proof fn lemma_interpolated_ascending(points: Seq<Datapoint>, steps: int)
    requires
        steps >= 1,
        ascending(points),
    ensures
        ascending(interpolated(points, steps)),
{
    let out = interpolated(points, steps);
    assert forall|i: int, j: int| 0 <= i <= j < out.len() implies out[i].timestamp
        <= out[j].timestamp by {
        lemma_resampled_timestamp(points, steps, i);
        lemma_resampled_timestamp(points, steps, j);
        vstd::arithmetic::div_mod::lemma_div_is_ordered(i, j, steps);
        vstd::arithmetic::div_mod::lemma_fundamental_div_mod(i, steps);
        vstd::arithmetic::div_mod::lemma_fundamental_div_mod(j, steps);
        let si = i / steps;
        let sj = j / steps;
        if si == sj {
            if si + 1 < points.len() {
                lemma_lerp_time_monotonic(
                    points[si].timestamp as int,
                    points[si + 1].timestamp as int,
                    i % steps,
                    j % steps,
                    steps,
                );
            }
        } else {
            assert(out[i].timestamp <= points[si + 1].timestamp);
            assert(points[si + 1].timestamp <= points[sj].timestamp);
        }
    }
}

} // verus!
