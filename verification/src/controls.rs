//! The mode switches of the display and the rotation of its circle.
//!
//! Angles are counted in millionths of a degree and kept inside one turn;
//! angular speeds are counted in thousandths of a degree per second and
//! taken from a ladder of 21 levels, from a quarter turn per second one
//! way to a quarter turn per second the other way.

use vstd::prelude::*;
use crate::bands::BAR_COUNT;
use crate::fixed::{
    abs_int,
    clamp_int,
    div_toward_zero,
    lemma_mul_abs_le,
    lemma_mul_le,
    trunc_div,
};

verus! {

/// The number of levels on the speed ladder.
pub const SPEED_LEVELS: usize = 21;

/// The difference between two neighbouring levels of the ladder.
pub const SPEED_STEP: i32 = 9000;

/// A full turn.
pub const TURN: i64 = 360_000_000;

/// The angle of the first band while the circle is not rotated: an
/// eighth of a turn left of straight up.
pub const START_ANGLE: i64 = -45_000_000;

/// Half the angle that one band takes on the circle.
pub const HALF_SLOT: i64 = 2_812_500;

/// What a key press asks for.
#[derive(Clone, Copy, Debug, PartialEq, Eq, Structural)]
pub enum Key {
    /// Switches the rotation on or off.
    Rotation,
    /// Switches between particles that speed up and particles that slow down.
    Deceleration,
    /// Switches between proximity by distance and proximity by time.
    Policy,
    /// One level up on the speed ladder.
    Faster,
    /// One level down on the speed ladder.
    Slower,
}

/// The mode switches and the rotation of the circle.
#[derive(Clone, Copy, Debug, PartialEq, Eq, Structural)]
pub struct Controls {
    pub rotating: bool,
    pub rotation_speed: i32,
    pub circle_rotation: i64,
    pub decelerate: bool,
    pub by_distance: bool,
}

/// The angular speed of level `k` of the ladder; level 10 is rest.
pub open spec fn level_speed(k: int) -> int {
    (k - 10) * SPEED_STEP
}

/// Level `k` is the level nearest to the speed `current`, and the lowest
/// of the levels that are as near.
pub open spec fn is_nearest_level(current: int, k: int) -> bool {
    &&& 0 <= k < SPEED_LEVELS
    &&& forall|j: int|
        0 <= j < SPEED_LEVELS ==> abs_int(level_speed(k) - current) <= abs_int(
            #[trigger] level_speed(j) - current,
        )
    &&& forall|j: int|
        0 <= j < k ==> abs_int(level_speed(k) - current) < abs_int(
            #[trigger] level_speed(j) - current,
        )
}

/// The level nearest to the speed `current`.
pub open spec fn nearest_level_of(current: int) -> int {
    choose|k: int| is_nearest_level(current, k)
}

/// The speed that lies `step` levels from the level nearest to `current`.
pub open spec fn next_speed_spec(current: int, step: int) -> int {
    level_speed(stepped_level(nearest_level_of(current), step))
}

/// The level that lies `step` levels from level `k`, kept on the ladder.
pub open spec fn stepped_level(k: int, step: int) -> int {
    clamp_int(k + step, 0, SPEED_LEVELS as int - 1)
}

/// An angle brought into one turn.
pub open spec fn wrapped(angle: int) -> int {
    angle % (TURN as int)
}

/// The rotation of the circle after `dt` microseconds at angular speed
/// `speed`.
pub open spec fn turned(rotation: int, speed: int, dt: int) -> int {
    wrapped(rotation + trunc_div(speed * dt, 1000))
}

/// The direction in which band `band` sends its particles when the circle
/// is rotated by `rotation`: the middle of the band's slot, measured from
/// the horizontal axis.
pub open spec fn emission_angle_spec(band: int, rotation: int) -> int {
    wrapped(START_ANGLE + rotation + (2 * band + 1) * HALF_SLOT)
}

/// The controls after a key press. The speed keys count only while the
/// circle rotates, and switching the rotation off puts the circle back.
pub open spec fn pressed(c: Controls, key: Key) -> Controls {
    match key {
        Key::Rotation => Controls {
            rotating: !c.rotating,
            circle_rotation: if c.rotating {
                0
            } else {
                c.circle_rotation
            },
            ..c
        },
        Key::Deceleration => Controls { decelerate: !c.decelerate, ..c },
        Key::Policy => Controls { by_distance: !c.by_distance, ..c },
        Key::Faster | Key::Slower => if c.rotating {
            Controls {
                rotation_speed: next_speed_spec(c.rotation_speed as int, key_step(key)) as i32,
                ..c
            }
        } else {
            c
        },
    }
}

/// The step on the ladder that a key stands for.
pub open spec fn key_step(key: Key) -> int {
    match key {
        Key::Faster => 1,
        Key::Slower => -1,
        _ => 0,
    }
}

/// The nearest level is unique.
pub proof fn lemma_nearest_unique(current: int, a: int, b: int)
    requires
        is_nearest_level(current, a),
        is_nearest_level(current, b),
    ensures
        a == b,
{
    if a < b {
        assert(abs_int(level_speed(b) - current) < abs_int(level_speed(a) - current));
        assert(abs_int(level_speed(a) - current) <= abs_int(level_speed(b) - current));
    } else if b < a {
        assert(abs_int(level_speed(a) - current) < abs_int(level_speed(b) - current));
        assert(abs_int(level_speed(b) - current) <= abs_int(level_speed(a) - current));
    }
}

/// A speed that is a level of the ladder has that level as its nearest.
pub proof fn lemma_level_is_its_own_nearest(k: int)
    requires
        0 <= k < SPEED_LEVELS,
    ensures
        is_nearest_level(level_speed(k), k),
{
    assert forall|j: int| 0 <= j < k implies abs_int(level_speed(k) - level_speed(k)) < abs_int(
        #[trigger] level_speed(j) - level_speed(k),
    ) by {
        assert(level_speed(j) - level_speed(k) == (j - k) * SPEED_STEP) by (nonlinear_arith)
            requires
                level_speed(j) == (j - 10) * SPEED_STEP,
                level_speed(k) == (k - 10) * SPEED_STEP,
        ;
        assert((j - k) * SPEED_STEP < 0) by (nonlinear_arith)
            requires
                j < k,
                SPEED_STEP > 0,
        ;
    }
}

/// From a speed that is a level of the ladder, a step leads to the level
/// that many levels away, and no further than the ends of the ladder.
pub proof fn lemma_next_speed_from_level(k: int, step: int)
    requires
        0 <= k < SPEED_LEVELS,
    ensures
        next_speed_spec(level_speed(k), step) == level_speed(stepped_level(k, step)),
{
    lemma_level_is_its_own_nearest(k);
    lemma_nearest_unique(level_speed(k), k, nearest_level_of(level_speed(k)));
}

/// The speed of level `k`.
pub fn speed_of_level(k: usize) -> (v: i32)
    requires
        k < SPEED_LEVELS,
    ensures
        v == level_speed(k as int),
        -90_000 <= v <= 90_000,
{
    (k as i32 - 10) * SPEED_STEP
}

/// The level nearest to the speed `current`; of two levels that are as
/// near, the lower one.
pub fn nearest_level(current: i32) -> (k: usize)
    ensures
        is_nearest_level(current as int, k as int),
        k == nearest_level_of(current as int),
{
    let mut best: usize = 0;
    let mut best_gap: i64 = gap(speed_of_level(0), current);
    let mut j: usize = 1;
    while j < SPEED_LEVELS
        invariant
            1 <= j <= SPEED_LEVELS,
            0 <= best < j,
            best_gap == abs_int(level_speed(best as int) - current),
            forall|i: int|
                0 <= i < j ==> best_gap <= abs_int(#[trigger] level_speed(i) - current),
            forall|i: int|
                0 <= i < best ==> best_gap < abs_int(#[trigger] level_speed(i) - current),
        decreases SPEED_LEVELS - j,
    {
        let here: i64 = gap(speed_of_level(j), current);
        if here < best_gap {
            best = j;
            best_gap = here;
        }
        j += 1;
    }
    proof {
        assert(is_nearest_level(current as int, best as int));
        lemma_nearest_unique(current as int, best as int, nearest_level_of(current as int));
    }
    best
}

/// The distance between two speeds.
fn gap(a: i32, b: i32) -> (d: i64)
    ensures
        d == abs_int(a as int - b as int),
{
    let diff: i64 = a as i64 - b as i64;
    if diff < 0 {
        -diff
    } else {
        diff
    }
}

/// The speed that lies `step` levels from the level nearest to `current`;
/// the steps end at both ends of the ladder.
pub fn next_speed(current: i32, step: i32) -> (v: i32)
    ensures
        v == next_speed_spec(current as int, step as int),
        -90_000 <= v <= 90_000,
{
    let idx: usize = nearest_level(current);
    let moved: i64 = idx as i64 + step as i64;
    let new_idx: usize = if moved < 0 {
        0
    } else if moved > (SPEED_LEVELS - 1) as i64 {
        SPEED_LEVELS - 1
    } else {
        moved as usize
    };
    speed_of_level(new_idx)
}

/// An angle brought into one turn.
pub fn wrap_angle(angle: i128) -> (r: i64)
    ensures
        r == wrapped(angle as int),
        0 <= r < TURN,
{
    let turn: i128 = TURN as i128;
    let rest: i128 = angle % turn;
    if rest < 0 {
        (rest + turn) as i64
    } else {
        rest as i64
    }
}

/// The direction in which band `band` sends its particles when the circle
/// is rotated by `rotation`.
pub fn emission_angle(band: usize, rotation: i64) -> (angle: i64)
    requires
        band < BAR_COUNT,
    ensures
        angle == emission_angle_spec(band as int, rotation as int),
        0 <= angle < TURN,
{
    proof {
        lemma_mul_le(2 * band as int + 1, HALF_SLOT as int, 127, 2_812_500);
    }
    let slot: i128 = (2 * (band as i128) + 1) * (HALF_SLOT as i128);
    wrap_angle(START_ANGLE as i128 + rotation as i128 + slot)
}

impl Controls {
    /// The controls at the start: no rotation, the ladder at rest,
    /// particles that speed up, proximity by time.
    pub fn new() -> (c: Controls)
        ensures
            c == (Controls {
                rotating: false,
                rotation_speed: 0,
                circle_rotation: 0,
                decelerate: false,
                by_distance: false,
            }),
    {
        Controls {
            rotating: false,
            rotation_speed: 0,
            circle_rotation: 0,
            decelerate: false,
            by_distance: false,
        }
    }

    /// Takes in one key press.
    pub fn press(&mut self, key: Key)
        ensures
            *final(self) == pressed(*old(self), key),
    {
        match key {
            Key::Rotation => {
                if self.rotating {
                    self.circle_rotation = 0;
                }
                self.rotating = !self.rotating;
            },
            Key::Deceleration => {
                self.decelerate = !self.decelerate;
            },
            Key::Policy => {
                self.by_distance = !self.by_distance;
            },
            Key::Faster => {
                if self.rotating {
                    self.rotation_speed = next_speed(self.rotation_speed, 1);
                }
            },
            Key::Slower => {
                if self.rotating {
                    self.rotation_speed = next_speed(self.rotation_speed, -1);
                }
            },
        }
    }

    /// Lets `dt` microseconds pass: a rotating circle turns on.
    pub fn turn(&mut self, dt: u32)
        ensures
            *final(self) == (Controls {
                circle_rotation: if old(self).rotating {
                    turned(
                        old(self).circle_rotation as int,
                        old(self).rotation_speed as int,
                        dt as int,
                    ) as i64
                } else {
                    old(self).circle_rotation
                },
                ..*old(self)
            }),
    {
        if self.rotating {
            proof {
                lemma_mul_abs_le(
                    self.rotation_speed as int,
                    dt as int,
                    0x8000_0000,
                    0x1_0000_0000,
                );
            }
            let delta: i128 = div_toward_zero((self.rotation_speed as i128) * (dt as i128), 1000);
            self.circle_rotation = wrap_angle(self.circle_rotation as i128 + delta);
        }
    }
}

} // verus!
