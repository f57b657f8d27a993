//! The arithmetic of particle flight.
//!
//! Positions are counted in thousandths of a pixel, velocities in
//! thousandths of a pixel per second, times in microseconds, and the
//! proximity of a particle to the end of its flight in thousandths. All
//! positions and velocities are kept inside fixed limits, so that no
//! particle can leave the range of the arithmetic.

use vstd::prelude::*;
use crate::fixed::{
    clamp_int,
    clamp_symmetric,
    div_toward_zero,
    int_sqrt,
    isqrt,
    lemma_div_bounds,
    lemma_mul_abs_le,
    lemma_mul_le,
    min_int,
    trunc_div,
    UNIT,
};

verus! {

/// No coordinate leaves `[-COORD_LIMIT, COORD_LIMIT]`.
pub const COORD_LIMIT: i64 = 1_000_000_000_000_000;

/// No velocity component leaves `[-SPEED_LIMIT, SPEED_LIMIT]`.
pub const SPEED_LIMIT: i64 = 1_000_000_000_000_000;

/// Distance to the edge below which the distance policy sets in.
pub const PROXIMITY_RANGE: i64 = 200_000;

/// Lifetime after which the time policy reaches full proximity.
pub const TIME_RAMP: u64 = 6_000_000;

/// Rate of speed change per second at full proximity, in thousandths.
pub const SPEED_RATE: u64 = 2500;

/// The largest relative change of speed that one frame can bring: full
/// proximity over the longest frame.
pub const RATE_LIMIT: u64 = 10_737_418_237;

/// The speed below which no moving particle falls.
pub const MIN_SPEED: i64 = 90_000;

/// One thousand raised to the fourth power: the factor between the fifth
/// power of an output of the curve and the ninth power of its input.
pub const CURVE_SCALE: u128 = 1_000_000_000_000;

/// The square of `v`.
pub open spec fn sq(v: int) -> int {
    v * v
}

/// The fifth power of `v`.
pub open spec fn pow5(v: int) -> int {
    sq(sq(v)) * v
}

/// The ninth power of `v`.
pub open spec fn pow9(v: int) -> int {
    sq(sq(sq(v))) * v
}

/// `y` is `raw` raised to the power 1.8, both in thousandths, rounded
/// down: the largest `y` with `(y / 1000)^5 <= (raw / 1000)^9`.
pub open spec fn is_curve_value(raw: int, y: int) -> bool {
    &&& 0 <= y
    &&& pow5(y) * CURVE_SCALE <= pow9(raw)
    &&& pow9(raw) < pow5(y + 1) * CURVE_SCALE
}

/// `raw` raised to the power 1.8, both in thousandths, rounded down.
pub open spec fn power_curve(raw: int) -> int {
    choose|y: int| is_curve_value(raw, y)
}

/// The speed of a particle with velocity `(dx, dy)`, rounded down.
pub open spec fn speed_of(dx: int, dy: int) -> int {
    int_sqrt(dx * dx + dy * dy)
}

/// Distance along the line of flight to the edge that a particle
/// approaches on one axis: `pos` is its coordinate, `vel` its velocity
/// component, `extent` the far edge; the near edge is at 0. `None` if the
/// particle hardly moves along this axis or has passed the edge.
pub open spec fn axis_distance(pos: int, vel: int, extent: int, speed: int) -> Option<int> {
    if 1000 * vel > speed && extent - pos > 0 {
        Some((extent - pos) * speed / vel)
    } else if 1000 * vel < -speed && pos > 0 {
        Some(pos * speed / (-vel))
    } else {
        None
    }
}

/// The smaller of two distances, where `None` stands for no edge at all.
pub open spec fn nearer(a: Option<int>, b: Option<int>) -> Option<int> {
    match (a, b) {
        (Some(p), Some(q)) => Some(min_int(p, q)),
        (Some(p), None) => Some(p),
        (None, q) => q,
    }
}

/// Distance along the line of flight to the nearest edge of a screen of
/// `w` by `h`. `None` for a particle at rest and for one that approaches
/// no edge.
pub open spec fn edge_distance(x: int, y: int, dx: int, dy: int, w: int, h: int) -> Option<int> {
    let speed = speed_of(dx, dy);
    if speed < 1 {
        None
    } else {
        nearer(axis_distance(x, dx, w, speed), axis_distance(y, dy, h, speed))
    }
}

/// Proximity under the distance policy: zero until the nearest edge is
/// closer than `PROXIMITY_RANGE`, then the rest of the range raised to the
/// power 1.8.
pub open spec fn distance_proximity(x: int, y: int, dx: int, dy: int, w: int, h: int) -> int {
    match edge_distance(x, y, dx, dy, w, h) {
        Some(d) => if d < PROXIMITY_RANGE {
            power_curve((PROXIMITY_RANGE - d) * 1000 / (PROXIMITY_RANGE as int))
        } else {
            0
        },
        None => 0,
    }
}

/// Proximity under the time policy: the lifetime of the particle as a part
/// of `TIME_RAMP`, at most 1.
pub open spec fn time_proximity(birth: int, now: int) -> int {
    if now <= birth {
        0
    } else {
        min_int(1000, (now - birth) * 1000 / (TIME_RAMP as int))
    }
}

/// The relative change of speed over `dt` microseconds at a proximity, in
/// millionths.
pub open spec fn speed_rate(proximity: int, dt: int) -> int {
    SPEED_RATE * proximity * dt / (UNIT as int)
}

/// A velocity component after the change of speed: multiplied by
/// `1 + rate`, or divided by it when particles slow down.
pub open spec fn modulate(v: int, rate: int, decelerate: bool) -> int {
    let scaled = if decelerate {
        trunc_div(v * UNIT, UNIT + rate)
    } else {
        trunc_div(v * (UNIT + rate), UNIT as int)
    };
    clamp_int(scaled, -(SPEED_LIMIT as int), SPEED_LIMIT as int)
}

/// A velocity component after the speed floor: a particle that moves
/// slower than `MIN_SPEED` is sped up to it, a particle at rest stays at
/// rest.
pub open spec fn floor_speed(v: int, speed: int) -> int {
    if 0 < speed < MIN_SPEED {
        clamp_int(trunc_div(v * MIN_SPEED, speed), -(SPEED_LIMIT as int), SPEED_LIMIT as int)
    } else {
        v
    }
}

/// A coordinate after `dt` microseconds at velocity `vel`.
pub open spec fn integrate(pos: int, vel: int, dt: int) -> int {
    clamp_int(pos + trunc_div(vel * dt, UNIT as int), -(COORD_LIMIT as int), COORD_LIMIT as int)
}

/// Squares of non-negative numbers keep their order.
pub proof fn lemma_sq_monotone(a: int, b: int)
    by (nonlinear_arith)
    requires
        0 <= a <= b,
    ensures
        0 <= sq(a) <= sq(b),
{
}

/// Fifth powers of non-negative numbers keep their order.
pub proof fn lemma_pow5_monotone(a: int, b: int)
    requires
        0 <= a <= b,
    ensures
        0 <= pow5(a) <= pow5(b),
{
    lemma_sq_monotone(a, b);
    lemma_sq_monotone(sq(a), sq(b));
    lemma_mul_le(sq(sq(a)), a, sq(sq(b)), b);
}

/// Ninth powers of non-negative numbers keep their order.
pub proof fn lemma_pow9_monotone(a: int, b: int)
    requires
        0 <= a <= b,
    ensures
        0 <= pow9(a) <= pow9(b),
{
    lemma_sq_monotone(a, b);
    lemma_sq_monotone(sq(a), sq(b));
    lemma_sq_monotone(sq(sq(a)), sq(sq(b)));
    lemma_mul_le(sq(sq(sq(a))), a, sq(sq(sq(b))), b);
}

/// The value of the curve is unique.
pub proof fn lemma_curve_unique(raw: int, y1: int, y2: int)
    requires
        is_curve_value(raw, y1),
        is_curve_value(raw, y2),
    ensures
        y1 == y2,
{
    if y1 < y2 {
        lemma_pow5_monotone(y1 + 1, y2);
        lemma_mul_le(pow5(y1 + 1), CURVE_SCALE as int, pow5(y2), CURVE_SCALE as int);
    } else if y2 < y1 {
        lemma_pow5_monotone(y2 + 1, y1);
        lemma_mul_le(pow5(y2 + 1), CURVE_SCALE as int, pow5(y1), CURVE_SCALE as int);
    }
}

/// The powers of 1001, the first number past the range of the curve.
pub proof fn lemma_pow5_of_1001()
    ensures
        sq(1001) == 1_002_001,
        sq(sq(1001)) == 1_004_006_004_001,
        pow5(1001) == 1_005_010_010_005_001,
{
    assert(sq(1001) == 1_002_001) by (nonlinear_arith);
    assert(sq(1_002_001) == 1_004_006_004_001) by (nonlinear_arith);
    assert(pow5(1001) == 1_005_010_010_005_001) by (nonlinear_arith)
        requires
            sq(sq(1001)) == 1_004_006_004_001,
    ;
}

/// The fifth power of a number up to 1001.
fn fifth_power(v: u64) -> (p: u128)
    requires
        v <= 1001,
    ensures
        p == pow5(v as int),
        p <= 1_005_010_010_005_001,
{
    proof {
        lemma_pow5_monotone(v as int, 1001);
        lemma_sq_monotone(v as int, 1001);
        lemma_sq_monotone(sq(v as int), sq(1001));
        lemma_pow5_of_1001();
    }
    let v2: u128 = (v as u128) * (v as u128);
    let v4: u128 = v2 * v2;
    v4 * (v as u128)
}

/// The ninth power of a number up to 1000.
fn ninth_power(v: u64) -> (p: u128)
    requires
        v <= 1000,
    ensures
        p == pow9(v as int),
        p <= 1_000_000_000_000_000_000_000_000_000,
{
    proof {
        lemma_pow9_monotone(v as int, 1000);
        lemma_sq_monotone(v as int, 1000);
        lemma_sq_monotone(sq(v as int), sq(1000));
        lemma_sq_monotone(sq(sq(v as int)), sq(sq(1000)));
        assert(sq(1000) == 1_000_000) by (nonlinear_arith);
        assert(sq(1_000_000) == 1_000_000_000_000) by (nonlinear_arith);
        assert(sq(1_000_000_000_000) == 1_000_000_000_000_000_000_000_000) by (nonlinear_arith);
        assert(pow9(1000) == 1_000_000_000_000_000_000_000_000_000) by (nonlinear_arith)
            requires
                sq(sq(sq(1000))) == 1_000_000_000_000_000_000_000_000,
        ;
    }
    let v2: u128 = (v as u128) * (v as u128);
    let v4: u128 = v2 * v2;
    let v8: u128 = v4 * v4;
    v8 * (v as u128)
}

/// `raw` raised to the power 1.8, both in thousandths, rounded down. The
/// input is at most 1.
pub fn curve(raw: u64) -> (y: u64)
    requires
        raw <= 1000,
    ensures
        is_curve_value(raw as int, y as int),
        y == power_curve(raw as int),
        y <= 1000,
{
    let target: u128 = ninth_power(raw);
    let mut lo: u64 = 0;
    let mut hi: u64 = 1000;
    proof {
        assert(pow5(0) == 0) by (nonlinear_arith);
        lemma_pow5_of_1001();
    }
    while lo < hi
        invariant
            lo <= hi <= 1000,
            target == pow9(raw as int),
            pow5(lo as int) * CURVE_SCALE <= target,
            target < pow5(hi as int + 1) * CURVE_SCALE,
        decreases hi - lo,
    {
        let mid: u64 = lo + (hi - lo) / 2 + (hi - lo) % 2;
        assert(lo < mid <= hi);
        let p: u128 = fifth_power(mid);
        proof {
            lemma_mul_le(
                p as int,
                CURVE_SCALE as int,
                1_005_010_010_005_001,
                1_000_000_000_000,
            );
        }
        if p * CURVE_SCALE <= target {
            lo = mid;
        } else {
            hi = mid - 1;
        }
    }
    proof {
        assert(is_curve_value(raw as int, lo as int));
        lemma_curve_unique(raw as int, lo as int, power_curve(raw as int));
    }
    lo
}

/// The speed of a particle with velocity `(dx, dy)`, rounded down.
pub fn speed(dx: i64, dy: i64) -> (s: u64)
    ensures
        s == speed_of(dx as int, dy as int),
        s * s <= dx * dx + dy * dy,
        dx == 0 && dy == 0 ==> s == 0,
{
    proof {
        lemma_mul_abs_le(dx as int, dx as int, 0x8000_0000_0000_0000, 0x8000_0000_0000_0000);
        lemma_mul_abs_le(dy as int, dy as int, 0x8000_0000_0000_0000, 0x8000_0000_0000_0000);
        assert(dx * dx >= 0) by (nonlinear_arith);
        assert(dy * dy >= 0) by (nonlinear_arith);
    }
    let xx: i128 = (dx as i128) * (dx as i128);
    let yy: i128 = (dy as i128) * (dy as i128);
    let s: u64 = isqrt(xx as u128 + yy as u128);
    proof {
        if dx == 0 && dy == 0 {
            assert(s * s <= 0);
            assert(s == 0) by (nonlinear_arith)
                requires
                    s * s <= 0,
                    s >= 0,
            ;
        }
    }
    s
}

/// Distance along the line of flight to the edge that a particle
/// approaches on one axis.
pub fn distance_on_axis(pos: i64, vel: i64, extent: i64, speed: u64) -> (d: Option<u128>)
    requires
        -COORD_LIMIT <= pos <= COORD_LIMIT,
        0 <= extent <= COORD_LIMIT,
        -SPEED_LIMIT <= vel <= SPEED_LIMIT,
    ensures
        match axis_distance(pos as int, vel as int, extent as int, speed as int) {
            Some(v) => d == Some(v as u128) && 0 <= v <= u128::MAX,
            None => d.is_none(),
        },
{
    let fast: i128 = 1000 * (vel as i128);
    if fast > speed as i128 && extent - pos > 0 {
        let gap: u128 = (extent - pos) as u128;
        proof {
            lemma_mul_le(gap as int, speed as int, 2 * COORD_LIMIT as int, u64::MAX as int);
            lemma_div_bounds(gap as int * speed as int, gap as int * speed as int, vel as int);
        }
        Some(gap * (speed as u128) / (vel as u128))
    } else if fast < -(speed as i128) && pos > 0 {
        proof {
            lemma_mul_le(pos as int, speed as int, COORD_LIMIT as int, u64::MAX as int);
            lemma_div_bounds(pos as int * speed as int, pos as int * speed as int, -(vel as int));
        }
        Some((pos as u128) * (speed as u128) / ((-vel) as u128))
    } else {
        None
    }
}

/// Proximity under the distance policy, on a screen of `w` by `h`.
pub fn proximity_by_distance(x: i64, y: i64, dx: i64, dy: i64, w: i64, h: i64) -> (p: u64)
    requires
        -COORD_LIMIT <= x <= COORD_LIMIT,
        -COORD_LIMIT <= y <= COORD_LIMIT,
        -SPEED_LIMIT <= dx <= SPEED_LIMIT,
        -SPEED_LIMIT <= dy <= SPEED_LIMIT,
        0 <= w <= COORD_LIMIT,
        0 <= h <= COORD_LIMIT,
    ensures
        p == distance_proximity(x as int, y as int, dx as int, dy as int, w as int, h as int),
        p <= 1000,
{
    let s: u64 = speed(dx, dy);
    if s < 1 {
        return 0;
    }
    let along_x: Option<u128> = distance_on_axis(x, dx, w, s);
    let along_y: Option<u128> = distance_on_axis(y, dy, h, s);
    let edge: Option<u128> = match (along_x, along_y) {
        (Some(p), Some(q)) => if p <= q {
            Some(p)
        } else {
            Some(q)
        },
        (Some(p), None) => Some(p),
        (None, q) => q,
    };
    match edge {
        Some(d) => {
            if d < PROXIMITY_RANGE as u128 {
                let rest: u64 = (PROXIMITY_RANGE as u64 - d as u64) * 1000 / (PROXIMITY_RANGE as u64);
                curve(rest)
            } else {
                0
            }
        },
        None => 0,
    }
}

/// Proximity under the time policy, for a particle born at `birth`.
pub fn proximity_by_time(birth: u64, now: u64) -> (p: u64)
    ensures
        p == time_proximity(birth as int, now as int),
        p <= 1000,
{
    if now <= birth {
        0
    } else {
        let alive: u128 = (now - birth) as u128;
        let part: u128 = alive * 1000 / (TIME_RAMP as u128);
        if part > 1000 {
            1000
        } else {
            part as u64
        }
    }
}

/// The relative change of speed over `dt` microseconds at a proximity.
pub fn rate_of(proximity: u64, dt: u32) -> (rate: u64)
    requires
        proximity <= 1000,
    ensures
        rate == speed_rate(proximity as int, dt as int),
        rate <= RATE_LIMIT,
{
    proof {
        lemma_mul_le(SPEED_RATE as int * proximity as int, dt as int, 2_500_000, u32::MAX as int);
        lemma_div_bounds(
            SPEED_RATE as int * proximity as int * dt as int,
            2_500_000 * (u32::MAX as int),
            UNIT as int,
        );
    }
    SPEED_RATE * proximity * (dt as u64) / UNIT
}

/// A velocity component after the change of speed.
pub fn modulated(v: i64, rate: u64, decelerate: bool) -> (r: i64)
    requires
        -SPEED_LIMIT <= v <= SPEED_LIMIT,
        rate <= RATE_LIMIT,
    ensures
        r == modulate(v as int, rate as int, decelerate),
        -SPEED_LIMIT <= r <= SPEED_LIMIT,
{
    let factor: i128 = UNIT as i128 + rate as i128;
    let scaled: i128 = if decelerate {
        proof {
            lemma_mul_abs_le(v as int, UNIT as int, SPEED_LIMIT as int, 1_000_000);
        }
        div_toward_zero((v as i128) * (UNIT as i128), factor)
    } else {
        proof {
            lemma_mul_abs_le(v as int, factor as int, SPEED_LIMIT as int, 20_000_000_000_000);
        }
        div_toward_zero((v as i128) * factor, UNIT as i128)
    };
    clamp_symmetric(scaled, SPEED_LIMIT)
}

/// A velocity component after the speed floor, for a particle of speed
/// `speed`.
pub fn floored(v: i64, speed: u64) -> (r: i64)
    requires
        -SPEED_LIMIT <= v <= SPEED_LIMIT,
    ensures
        r == floor_speed(v as int, speed as int),
        -SPEED_LIMIT <= r <= SPEED_LIMIT,
{
    if 0 < speed && speed < MIN_SPEED as u64 {
        proof {
            lemma_mul_abs_le(v as int, MIN_SPEED as int, SPEED_LIMIT as int, 90_000);
        }
        let scaled: i128 = div_toward_zero((v as i128) * (MIN_SPEED as i128), speed as i128);
        clamp_symmetric(scaled, SPEED_LIMIT)
    } else {
        v
    }
}

/// A coordinate after `dt` microseconds at velocity `vel`.
pub fn integrated(pos: i64, vel: i64, dt: u32) -> (r: i64)
    requires
        -COORD_LIMIT <= pos <= COORD_LIMIT,
        -SPEED_LIMIT <= vel <= SPEED_LIMIT,
    ensures
        r == integrate(pos as int, vel as int, dt as int),
        -COORD_LIMIT <= r <= COORD_LIMIT,
{
    proof {
        lemma_mul_abs_le(vel as int, dt as int, SPEED_LIMIT as int, u32::MAX as int);
    }
    let moved: i128 = div_toward_zero((vel as i128) * (dt as i128), UNIT as i128);
    clamp_symmetric(pos as i128 + moved, COORD_LIMIT)
}

} // verus!
