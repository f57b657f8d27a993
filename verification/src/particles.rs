//! The particle simulator.
//!
//! Every band that fires sends out one particle from the inner circle of
//! the display. Every frame each particle records its position in a short
//! trail, changes speed according to its proximity to the end of its
//! flight, moves on, and is removed once it and its whole trail are out of
//! sight by more than a margin.

use vstd::prelude::*;
use vstd::arithmetic::div_mod::lemma_add_mod_noop;
use crate::fixed::{
    abs_int,
    clamp_int,
    clamp_symmetric,
    div_toward_zero,
    int_sqrt,
    is_isqrt,
    lemma_div_bounds,
    lemma_div_le_bound,
    lemma_isqrt_unique,
    lemma_mul_abs_le,
    lemma_mul_le,
    trunc_div,
    UNIT,
};
use crate::motion::{
    distance_proximity,
    floor_speed,
    floored,
    integrate,
    integrated,
    modulate,
    modulated,
    proximity_by_distance,
    proximity_by_time,
    rate_of,
    speed,
    speed_of,
    speed_rate,
    time_proximity,
    COORD_LIMIT,
    MIN_SPEED,
    SPEED_LIMIT,
    SPEED_RATE,
};

verus! {

/// The number of positions that a trail holds at most.
pub const TRAIL_CAPACITY: usize = 12;

/// How far out of sight a particle must be before it is removed.
pub const MARGIN: i64 = 80_000;

/// Radius of the inner circle from which particles start.
pub const INNER_RADIUS: i64 = 40_000;

/// Speed of a particle at its start.
pub const BASE_SPEED: i64 = 180_000;

/// A full turn of the hue circle, in thousandths of a degree.
pub const HUE_TURN: u32 = 360_000;

/// How far the hue moves on with every particle.
pub const HUE_PER_SPAWN: u32 = 3000;

/// How far the hue drifts with every frame.
pub const HUE_PER_FRAME: u32 = 1500;

/// Size of the smallest particle.
pub const MIN_SIZE: u32 = 1000;

/// Size of the largest particle.
pub const MAX_SIZE: u32 = 8000;

/// A position on screen.
#[derive(Clone, Copy, Debug, PartialEq, Eq, Structural)]
pub struct Point {
    pub x: i64,
    pub y: i64,
}

/// What one frame is like: the size of the screen in pixels, the time
/// since the last frame in microseconds, and the two mode switches.
#[derive(Clone, Copy, Debug, PartialEq, Eq, Structural)]
pub struct Frame {
    pub width: u32,
    pub height: u32,
    pub dt: u32,
    pub decelerate: bool,
    pub by_distance: bool,
}

/// What sends out a particle: the direction of flight as a vector counted
/// in millionths, and the peak height of the band that fired.
#[derive(Clone, Copy, Debug, PartialEq, Eq, Structural)]
pub struct Emission {
    pub dir_x: i32,
    pub dir_y: i32,
    pub peak: u64,
}

/// The values of one particle.
pub struct ProjectileView {
    pub x: i64,
    pub y: i64,
    pub dx: i64,
    pub dy: i64,
    pub hue: u32,
    pub size: u32,
    pub trail: Seq<Point>,
    pub birth_time: u64,
}

/// The values of the whole simulator.
pub struct FieldView {
    pub particles: Seq<ProjectileView>,
    pub rainbow_phase: u32,
    pub game_time: u64,
}

/// Position and velocity lie inside their limits, the trail is no longer
/// than its capacity, and hue and size lie in their ranges.
pub open spec fn particle_wf(p: ProjectileView) -> bool {
    &&& -COORD_LIMIT <= p.x <= COORD_LIMIT
    &&& -COORD_LIMIT <= p.y <= COORD_LIMIT
    &&& -SPEED_LIMIT <= p.dx <= SPEED_LIMIT
    &&& -SPEED_LIMIT <= p.dy <= SPEED_LIMIT
    &&& p.trail.len() <= TRAIL_CAPACITY
    &&& p.hue < HUE_TURN
    &&& MIN_SIZE <= p.size <= MAX_SIZE
}

/// A trail after the position `at` was recorded: the oldest position
/// leaves when the trail is longer than its capacity.
pub open spec fn trail_after(trail: Seq<Point>, at: Point) -> Seq<Point> {
    let longer = trail.push(at);
    if longer.len() > TRAIL_CAPACITY {
        longer.remove(0)
    } else {
        longer
    }
}

/// Width or height of the screen in thousandths of a pixel.
pub open spec fn extent(pixels: u32) -> int {
    pixels as int * 1000
}

/// The proximity of a particle under the policy of the frame.
pub open spec fn proximity_of(p: ProjectileView, frame: Frame, now: u64) -> int {
    if frame.by_distance {
        distance_proximity(
            p.x as int,
            p.y as int,
            p.dx as int,
            p.dy as int,
            extent(frame.width),
            extent(frame.height),
        )
    } else {
        time_proximity(p.birth_time as int, now as int)
    }
}

/// A velocity component `v` of particle `p` after one frame: first the
/// change of speed, then the speed floor.
pub open spec fn velocity_after(p: ProjectileView, v: int, frame: Frame, now: u64) -> int {
    let rate = speed_rate(proximity_of(p, frame, now), frame.dt as int);
    let dx = modulate(p.dx as int, rate, frame.decelerate);
    let dy = modulate(p.dy as int, rate, frame.decelerate);
    floor_speed(modulate(v, rate, frame.decelerate), speed_of(dx, dy))
}

/// A particle after one frame.
pub open spec fn moved(p: ProjectileView, frame: Frame, now: u64) -> ProjectileView {
    let dx = velocity_after(p, p.dx as int, frame, now);
    let dy = velocity_after(p, p.dy as int, frame, now);
    ProjectileView {
        x: integrate(p.x as int, dx, frame.dt as int) as i64,
        y: integrate(p.y as int, dy, frame.dt as int) as i64,
        dx: dx as i64,
        dy: dy as i64,
        hue: p.hue,
        size: p.size,
        trail: trail_after(p.trail, Point { x: p.x, y: p.y }),
        birth_time: p.birth_time,
    }
}

/// The particle and its whole trail lie left of `bound`.
pub open spec fn all_left_of(p: ProjectileView, bound: int) -> bool {
    &&& p.x < bound
    &&& forall|k: int| 0 <= k < p.trail.len() ==> (#[trigger] p.trail[k]).x < bound
}

/// The particle and its whole trail lie right of `bound`.
pub open spec fn all_right_of(p: ProjectileView, bound: int) -> bool {
    &&& p.x > bound
    &&& forall|k: int| 0 <= k < p.trail.len() ==> (#[trigger] p.trail[k]).x > bound
}

/// The particle and its whole trail lie above `bound`.
pub open spec fn all_above(p: ProjectileView, bound: int) -> bool {
    &&& p.y < bound
    &&& forall|k: int| 0 <= k < p.trail.len() ==> (#[trigger] p.trail[k]).y < bound
}

/// The particle and its whole trail lie below `bound`.
pub open spec fn all_below(p: ProjectileView, bound: int) -> bool {
    &&& p.y > bound
    &&& forall|k: int| 0 <= k < p.trail.len() ==> (#[trigger] p.trail[k]).y > bound
}

/// The particle and its whole trail lie beyond one side of the screen by
/// more than the margin.
pub open spec fn out_of_sight(p: ProjectileView, width: u32, height: u32) -> bool {
    ||| all_left_of(p, -(MARGIN as int))
    ||| all_right_of(p, extent(width) + MARGIN)
    ||| all_above(p, -(MARGIN as int))
    ||| all_below(p, extent(height) + MARGIN)
}

/// The particles that are left after one frame, in their old order.
pub open spec fn survivors(ps: Seq<ProjectileView>, frame: Frame, now: u64) -> Seq<ProjectileView>
    decreases ps.len(),
{
    if ps.len() == 0 {
        Seq::empty()
    } else {
        let before = survivors(ps.drop_last(), frame, now);
        let last = moved(ps.last(), frame, now);
        if out_of_sight(last, frame.width, frame.height) {
            before
        } else {
            before.push(last)
        }
    }
}

/// The size of a particle sent out by a peak of height `peak`.
pub open spec fn size_for(peak: u64) -> int {
    clamp_int(MIN_SIZE + 7 * peak as int / 1000, MIN_SIZE as int, MAX_SIZE as int)
}

/// The particle that `e` sends out on a screen of `width` by `height`.
pub open spec fn emitted(e: Emission, width: u32, height: u32, hue: u32, now: u64) -> ProjectileView {
    ProjectileView {
        x: (width as int * 500 + trunc_div(e.dir_x as int * INNER_RADIUS, UNIT as int)) as i64,
        y: (height as int * 500 + trunc_div(e.dir_y as int * INNER_RADIUS, UNIT as int)) as i64,
        dx: trunc_div(e.dir_x as int * BASE_SPEED, UNIT as int) as i64,
        dy: trunc_div(e.dir_y as int * BASE_SPEED, UNIT as int) as i64,
        hue,
        size: size_for(e.peak) as u32,
        trail: Seq::empty(),
        birth_time: now,
    }
}

/// A hue moved on by `step`, wrapped to one turn.
pub open spec fn hue_after(hue: u32, step: u32) -> u32 {
    ((hue + step) % (HUE_TURN as int)) as u32
}

/// The simulator after `e` was taken in: every emission adds one particle,
/// born now with the hue of the simulator, and moves the hue on.
pub open spec fn spawn_spec(f: FieldView, e: Emission, width: u32, height: u32) -> FieldView {
    FieldView {
        particles: f.particles.push(emitted(e, width, height, f.rainbow_phase, f.game_time)),
        rainbow_phase: hue_after(f.rainbow_phase, HUE_PER_SPAWN),
        game_time: f.game_time,
    }
}

/// The hue of the particle that follows `k` others sent out from hue `hue`.
pub open spec fn hue_of_spawn(hue: u32, k: int) -> u32 {
    ((hue + k * HUE_PER_SPAWN) % (HUE_TURN as int)) as u32
}

/// The simulator after the first `n` of `es` were taken in.
pub open spec fn spawn_all(f: FieldView, es: Seq<Emission>, width: u32, height: u32, n: int)
    -> FieldView
    decreases n,
{
    if n <= 0 {
        f
    } else {
        spawn_spec(spawn_all(f, es, width, height, n - 1), es[n - 1], width, height)
    }
}

/// The time after `dt` more microseconds; it stops at the largest value.
pub open spec fn time_after(now: u64, dt: u32) -> u64 {
    if now + dt > u64::MAX {
        u64::MAX
    } else {
        (now + dt) as u64
    }
}

/// The simulator after one frame: the clock moves on, every emission is
/// taken in, the hue drifts, and every particle moves or is removed.
pub open spec fn step_spec(f: FieldView, frame: Frame, es: Seq<Emission>) -> FieldView {
    let clocked = FieldView { game_time: time_after(f.game_time, frame.dt), ..f };
    let grown = spawn_all(clocked, es, frame.width, frame.height, es.len() as int);
    FieldView {
        particles: survivors(grown.particles, frame, grown.game_time),
        rainbow_phase: hue_after(grown.rainbow_phase, HUE_PER_FRAME),
        game_time: grown.game_time,
    }
}

/// Every particle of the simulator is well formed, and so is the hue.
pub open spec fn field_wf(f: FieldView) -> bool {
    &&& f.rainbow_phase < HUE_TURN
    &&& forall|i: int| 0 <= i < f.particles.len() ==> particle_wf(#[trigger] f.particles[i])
}

/// One frame in a run of frames: what the frame is like and what the
/// clock shows when it is played.
pub struct Moment {
    pub frame: Frame,
    pub now: u64,
}

/// A particle after a run of frames, whether in sight or not.
pub open spec fn moved_through(p: ProjectileView, moments: Seq<Moment>) -> ProjectileView
    decreases moments.len(),
{
    if moments.len() == 0 {
        p
    } else {
        moved(moved_through(p, moments.drop_last()), moments.last().frame, moments.last().now)
    }
}

/// One particle is sent out for each emission: after `n` emissions the
/// simulator holds the particles it held, in their order, followed by one
/// particle for each emission, in the order of the emissions. Each is born
/// now, and its hue lies one step behind the hue of the one before. The
/// hue of the simulator has moved on by one step for each.
pub proof fn lemma_one_particle_per_emission(
    f: FieldView,
    es: Seq<Emission>,
    width: u32,
    height: u32,
    n: int,
)
    requires
        0 <= n <= es.len(),
        f.rainbow_phase < HUE_TURN,
    ensures
        spawn_all(f, es, width, height, n).particles.len() == f.particles.len() + n,
        forall|k: int|
            0 <= k < f.particles.len() ==> #[trigger] spawn_all(f, es, width, height, n).particles[k]
                == f.particles[k],
        forall|k: int|
            0 <= k < n ==> #[trigger] spawn_all(f, es, width, height, n).particles[f.particles.len()
                + k] == emitted(
                es[k],
                width,
                height,
                hue_of_spawn(f.rainbow_phase, k),
                f.game_time,
            ),
        spawn_all(f, es, width, height, n).rainbow_phase == hue_of_spawn(f.rainbow_phase, n),
        spawn_all(f, es, width, height, n).game_time == f.game_time,
    decreases n,
{
    if n > 0 {
        lemma_one_particle_per_emission(f, es, width, height, n - 1);
        let before = spawn_all(f, es, width, height, n - 1);
        let after = spawn_all(f, es, width, height, n);
        assert(after == spawn_spec(before, es[n - 1], width, height));
        let h = f.rainbow_phase as int;
        assert((n - 1) * HUE_PER_SPAWN + HUE_PER_SPAWN == n * HUE_PER_SPAWN) by (nonlinear_arith);
        assert((n - 1) * HUE_PER_SPAWN >= 0) by (nonlinear_arith)
            requires
                n >= 1,
        ;
        lemma_add_mod_noop(h + (n - 1) * HUE_PER_SPAWN, HUE_PER_SPAWN as int, HUE_TURN as int);
        assert(after.rainbow_phase == hue_of_spawn(f.rainbow_phase, n));
        assert forall|k: int| 0 <= k < n implies #[trigger] after.particles[f.particles.len() + k]
            == emitted(es[k], width, height, hue_of_spawn(f.rainbow_phase, k), f.game_time) by {
            if k < n - 1 {
                assert(after.particles[f.particles.len() + k] == before.particles[f.particles.len()
                    + k]);
            }
        }
        assert forall|k: int| 0 <= k < f.particles.len() implies #[trigger] after.particles[k]
            == f.particles[k] by {
            assert(after.particles[k] == before.particles[k]);
        }
    } else {
        assert(0 * HUE_PER_SPAWN == 0) by (nonlinear_arith);
    }
}

/// Recording a position never makes a trail longer than its capacity.
pub proof fn lemma_trail_bounded(trail: Seq<Point>, at: Point)
    requires
        trail.len() <= TRAIL_CAPACITY,
    ensures
        trail_after(trail, at).len() <= TRAIL_CAPACITY,
        trail_after(trail, at).len() >= 1,
        trail_after(trail, at).last() == at,
{
}

/// A well-formed particle is well formed after one frame; its trail in
/// particular is no longer than its capacity.
pub proof fn lemma_moved_wf(p: ProjectileView, frame: Frame, now: u64)
    requires
        particle_wf(p),
    ensures
        particle_wf(moved(p, frame, now)),
        moved(p, frame, now).trail.len() <= TRAIL_CAPACITY,
{
    lemma_trail_bounded(p.trail, Point { x: p.x, y: p.y });
}

/// Every particle that is left after a frame is well formed, and no more
/// particles are left than there were.
pub proof fn lemma_survivors_wf(ps: Seq<ProjectileView>, frame: Frame, now: u64)
    requires
        forall|i: int| 0 <= i < ps.len() ==> particle_wf(#[trigger] ps[i]),
    ensures
        survivors(ps, frame, now).len() <= ps.len(),
        forall|i: int|
            0 <= i < survivors(ps, frame, now).len() ==> particle_wf(
                #[trigger] survivors(ps, frame, now)[i],
            ),
        forall|i: int|
            0 <= i < survivors(ps, frame, now).len() ==> !out_of_sight(
                #[trigger] survivors(ps, frame, now)[i],
                frame.width,
                frame.height,
            ),
    decreases ps.len(),
{
    if ps.len() > 0 {
        lemma_survivors_wf(ps.drop_last(), frame, now);
        lemma_moved_wf(ps.last(), frame, now);
    }
}

/// A particle at rest stays where it is, and after one frame its trail
/// ends with its position.
pub proof fn lemma_resting_particle_stays(p: ProjectileView, frame: Frame, now: u64)
    requires
        particle_wf(p),
        p.dx == 0,
        p.dy == 0,
    ensures
        moved(p, frame, now).x == p.x,
        moved(p, frame, now).y == p.y,
        moved(p, frame, now).dx == 0,
        moved(p, frame, now).dy == 0,
        moved(p, frame, now).trail == trail_after(p.trail, Point { x: p.x, y: p.y }),
{
    let proximity = proximity_of(p, frame, now);
    let rate = speed_rate(proximity, frame.dt as int);
    assert(is_isqrt(0, 0));
    lemma_isqrt_unique(0, 0, int_sqrt(0));
    assert(speed_of(0, 0) == 0);
    assert(0 <= proximity <= 1000);
    assert(rate >= 0) by (nonlinear_arith)
        requires
            rate == SPEED_RATE * proximity * (frame.dt as int) / (UNIT as int),
            proximity >= 0,
            frame.dt >= 0,
    ;
    assert(0int * UNIT == 0) by (nonlinear_arith);
    assert(0int * (UNIT + rate) == 0) by (nonlinear_arith);
    assert(modulate(0, rate, frame.decelerate) == 0) by {
        assert(0int / (UNIT + rate) == 0) by (nonlinear_arith)
            requires
                UNIT + rate > 0,
        ;
    }
    let s = speed_of(0, 0);
    assert(floor_speed(0, s) == 0) by {
        assert(0int * MIN_SPEED == 0) by (nonlinear_arith);
        if 0 < s < MIN_SPEED {
            assert(0int / s == 0) by (nonlinear_arith)
                requires
                    s > 0,
            ;
        }
    }
    assert(0int * (frame.dt as int) == 0) by (nonlinear_arith);
}

/// How many positions at the end of a trail equal `at`, counted up to `n`.
pub open spec fn ends_with_copies(trail: Seq<Point>, at: Point, n: int) -> bool {
    &&& trail.len() >= n
    &&& forall|k: int| trail.len() - n <= k < trail.len() ==> #[trigger] trail[k] == at
}

/// After a run of frames at rest, whatever the frames are like and
/// whatever the clock shows, a particle is where it was, and the last
/// positions of its trail, as many as there were frames and at most as
/// many as the trail holds, are its position.
pub proof fn lemma_resting_trail_fills(p: ProjectileView, moments: Seq<Moment>)
    requires
        particle_wf(p),
        p.dx == 0,
        p.dy == 0,
    ensures
        particle_wf(moved_through(p, moments)),
        moved_through(p, moments).x == p.x,
        moved_through(p, moments).y == p.y,
        moved_through(p, moments).dx == 0,
        moved_through(p, moments).dy == 0,
        ends_with_copies(
            moved_through(p, moments).trail,
            Point { x: p.x, y: p.y },
            if moments.len() <= TRAIL_CAPACITY {
                moments.len() as int
            } else {
                TRAIL_CAPACITY as int
            },
        ),
    decreases moments.len(),
{
    if moments.len() > 0 {
        let n = moments.len();
        let frame = moments.last().frame;
        let now = moments.last().now;
        let before = moved_through(p, moments.drop_last());
        lemma_resting_trail_fills(p, moments.drop_last());
        lemma_resting_particle_stays(before, frame, now);
        lemma_moved_wf(before, frame, now);
        let at = Point { x: p.x, y: p.y };
        let after = moved(before, frame, now);
        assert(after.trail == trail_after(before.trail, at));
        let longer = before.trail.push(at);
        let m = if n <= TRAIL_CAPACITY {
            n as int
        } else {
            TRAIL_CAPACITY as int
        };
        assert forall|k: int| after.trail.len() - m <= k < after.trail.len() implies #[trigger] after.trail[k]
            == at by {
            if longer.len() > TRAIL_CAPACITY {
                assert(after.trail[k] == longer[k + 1]);
            } else {
                assert(after.trail[k] == longer[k]);
            }
        }
    }
}

/// A particle at rest beyond the margin is out of sight once its trail is
/// full of its position: after a run of as many frames as the trail holds
/// positions, or more, it is removed, while the clock moves on and
/// whatever the frames before the last were like. The margin is that of
/// the screen of the last frame.
pub proof fn lemma_resting_particle_is_removed(p: ProjectileView, moments: Seq<Moment>)
    requires
        particle_wf(p),
        p.dx == 0,
        p.dy == 0,
        moments.len() >= TRAIL_CAPACITY,
        p.x < -MARGIN || p.x > extent(moments.last().frame.width) + MARGIN || p.y < -MARGIN || p.y
            > extent(moments.last().frame.height) + MARGIN,
    ensures
        out_of_sight(
            moved_through(p, moments),
            moments.last().frame.width,
            moments.last().frame.height,
        ),
{
    lemma_resting_trail_fills(p, moments);
    let frame = moments.last().frame;
    let q = moved_through(p, moments);
    let at = Point { x: p.x, y: p.y };
    assert(q.trail.len() == TRAIL_CAPACITY);
    assert forall|k: int| 0 <= k < q.trail.len() implies #[trigger] q.trail[k] == at by {}
    if p.x < -MARGIN {
        assert(all_left_of(q, -(MARGIN as int)));
    } else if p.x > extent(frame.width) + MARGIN {
        assert(all_right_of(q, extent(frame.width) + MARGIN));
    } else if p.y < -MARGIN {
        assert(all_above(q, -(MARGIN as int)));
    } else {
        assert(all_below(q, extent(frame.height) + MARGIN));
    }
}

/// The part of `length` that lies along one component of a direction
/// counted in millionths, rounded toward zero. It is as long as the
/// component is of one, and so no longer than `length` for a component of
/// a unit vector.
pub fn along(dir: i32, length: u32) -> (r: i64)
    ensures
        r == trunc_div(dir as int * length, UNIT as int),
        abs_int(r as int) == abs_int(dir as int) * length / (UNIT as int),
        abs_int(r as int) * UNIT <= abs_int(dir as int) * length,
        abs_int(dir as int) <= UNIT ==> abs_int(r as int) <= length,
{
    proof {
        let d = abs_int(dir as int);
        let l = length as int;
        lemma_mul_abs_le(dir as int, l, 0x8000_0000, 0xffff_ffff);
        lemma_mul_le(d, l, 0x8000_0000, 0xffff_ffff);
        assert(abs_int(dir as int * l) == d * l) by (nonlinear_arith)
            requires
                d == abs_int(dir as int),
                l >= 0,
        ;
        lemma_div_bounds(d * l, 9_223_372_034_707_292_160int, UNIT as int);
        if d <= UNIT {
            lemma_mul_le(d, l, UNIT as int, l);
            assert(UNIT * l == l * UNIT) by (nonlinear_arith);
            lemma_div_le_bound(d * l, UNIT as int, l);
        }
    }
    let q: i128 = div_toward_zero((dir as i128) * (length as i128), UNIT as i128);
    q as i64
}

/// Along a direction whose components fit in 32 bits, a length that fits
/// in 32 bits stays far inside the limits of positions and velocities.
pub proof fn lemma_along_bounded(dir: int, length: int)
    requires
        -0x8000_0000 <= dir <= 0x8000_0000,
        0 <= length <= 0xffff_ffff,
    ensures
        0 <= abs_int(dir) * length / (UNIT as int) <= 10_000_000_000_000,
{
    lemma_mul_le(abs_int(dir), length, 0x8000_0000, 0xffff_ffff);
    lemma_div_bounds(abs_int(dir) * length, 9_223_372_034_707_292_160int, UNIT as int);
}

/// One particle: where it is, how fast it flies, what it looks like, where
/// it has been and when it was sent out.
pub struct Projectile {
    x: i64,
    y: i64,
    dx: i64,
    dy: i64,
    hue: u32,
    size: u32,
    trail: Vec<Point>,
    birth_time: u64,
}

impl View for Projectile {
    type V = ProjectileView;

    closed spec fn view(&self) -> ProjectileView {
        ProjectileView {
            x: self.x,
            y: self.y,
            dx: self.dx,
            dy: self.dy,
            hue: self.hue,
            size: self.size,
            trail: self.trail@,
            birth_time: self.birth_time,
        }
    }
}

impl Projectile {
    /// The particle is well formed.
    pub open spec fn wf(&self) -> bool {
        particle_wf(self@)
    }

    /// The particle that `e` sends out at time `now` with hue `hue`.
    pub fn emit(e: Emission, width: u32, height: u32, hue: u32, now: u64) -> (p: Projectile)
        requires
            hue < HUE_TURN,
        ensures
            p.wf(),
            p@ == emitted(e, width, height, hue, now),
    {
        let off_x: i64 = along(e.dir_x, INNER_RADIUS as u32);
        let off_y: i64 = along(e.dir_y, INNER_RADIUS as u32);
        let dx: i64 = along(e.dir_x, BASE_SPEED as u32);
        let dy: i64 = along(e.dir_y, BASE_SPEED as u32);
        proof {
            lemma_along_bounded(e.dir_x as int, INNER_RADIUS as int);
            lemma_along_bounded(e.dir_y as int, INNER_RADIUS as int);
            lemma_along_bounded(e.dir_x as int, BASE_SPEED as int);
            lemma_along_bounded(e.dir_y as int, BASE_SPEED as int);
        }
        let grown: u128 = (MIN_SIZE as u128) + 7 * (e.peak as u128) / 1000;
        let size: u32 = if grown > MAX_SIZE as u128 {
            MAX_SIZE
        } else {
            grown as u32
        };
        Projectile {
            x: (width as i64) * 500 + off_x,
            y: (height as i64) * 500 + off_y,
            dx,
            dy,
            hue,
            size,
            trail: Vec::new(),
            birth_time: now,
        }
    }

    /// Horizontal position, in thousandths of a pixel.
    pub fn x(&self) -> (r: i64)
        ensures
            r == self@.x,
    {
        self.x
    }

    /// Vertical position, in thousandths of a pixel.
    pub fn y(&self) -> (r: i64)
        ensures
            r == self@.y,
    {
        self.y
    }

    /// Horizontal velocity, in thousandths of a pixel per second.
    pub fn dx(&self) -> (r: i64)
        ensures
            r == self@.dx,
    {
        self.dx
    }

    /// Vertical velocity, in thousandths of a pixel per second.
    pub fn dy(&self) -> (r: i64)
        ensures
            r == self@.dy,
    {
        self.dy
    }

    /// Hue, in thousandths of a degree.
    pub fn hue(&self) -> (r: u32)
        ensures
            r == self@.hue,
    {
        self.hue
    }

    /// Size, in thousandths of a pixel.
    pub fn size(&self) -> (r: u32)
        ensures
            r == self@.size,
    {
        self.size
    }

    /// The positions of the last frames, oldest first.
    pub fn trail(&self) -> (r: &Vec<Point>)
        ensures
            r@ == self@.trail,
    {
        &self.trail
    }

    /// The time at which the particle was sent out, in microseconds.
    pub fn birth_time(&self) -> (r: u64)
        ensures
            r == self@.birth_time,
    {
        self.birth_time
    }

    /// Puts the particle at `(x, y)` with velocity `(dx, dy)`, each value
    /// limited to its range; everything else stays.
    pub fn place(&mut self, x: i64, y: i64, dx: i64, dy: i64)
        requires
            old(self).wf(),
        ensures
            final(self).wf(),
            final(self)@ == (ProjectileView {
                x: clamp_int(x as int, -(COORD_LIMIT as int), COORD_LIMIT as int) as i64,
                y: clamp_int(y as int, -(COORD_LIMIT as int), COORD_LIMIT as int) as i64,
                dx: clamp_int(dx as int, -(SPEED_LIMIT as int), SPEED_LIMIT as int) as i64,
                dy: clamp_int(dy as int, -(SPEED_LIMIT as int), SPEED_LIMIT as int) as i64,
                ..old(self)@
            }),
    {
        self.x = clamp_symmetric(x as i128, COORD_LIMIT);
        self.y = clamp_symmetric(y as i128, COORD_LIMIT);
        self.dx = clamp_symmetric(dx as i128, SPEED_LIMIT);
        self.dy = clamp_symmetric(dy as i128, SPEED_LIMIT);
    }

    /// Whether the particle and its whole trail lie beyond one side of the
    /// screen by more than the margin.
    pub fn is_out_of_sight(&self, width: u32, height: u32) -> (out: bool)
        requires
            self.wf(),
        ensures
            out == out_of_sight(self@, width, height),
    {
        let right: i64 = (width as i64) * 1000 + MARGIN;
        let bottom: i64 = (height as i64) * 1000 + MARGIN;
        let mut left_of: bool = self.x < -MARGIN;
        let mut right_of: bool = self.x > right;
        let mut above: bool = self.y < -MARGIN;
        let mut below: bool = self.y > bottom;
        let n: usize = self.trail.len();
        let mut k: usize = 0;
        while k < n
            invariant
                0 <= k <= n,
                n == self.trail@.len(),
                right == extent(width) + MARGIN,
                bottom == extent(height) + MARGIN,
                left_of == (self.x < -MARGIN && forall|j: int|
                    0 <= j < k ==> (#[trigger] self.trail@[j]).x < -MARGIN),
                right_of == (self.x > right && forall|j: int|
                    0 <= j < k ==> (#[trigger] self.trail@[j]).x > right),
                above == (self.y < -MARGIN && forall|j: int|
                    0 <= j < k ==> (#[trigger] self.trail@[j]).y < -MARGIN),
                below == (self.y > bottom && forall|j: int|
                    0 <= j < k ==> (#[trigger] self.trail@[j]).y > bottom),
            decreases n - k,
        {
            let at: Point = self.trail[k];
            left_of = left_of && at.x < -MARGIN;
            right_of = right_of && at.x > right;
            above = above && at.y < -MARGIN;
            below = below && at.y > bottom;
            k += 1;
        }
        left_of || right_of || above || below
    }

    /// One frame in the life of the particle: it records its position,
    /// changes speed, and moves on. Says whether it is still in sight.
    pub fn advance(&mut self, frame: Frame, now: u64) -> (alive: bool)
        requires
            old(self).wf(),
        ensures
            final(self).wf(),
            final(self)@ == moved(old(self)@, frame, now),
            alive == !out_of_sight(final(self)@, frame.width, frame.height),
    {
        let ghost p0 = self@;
        self.trail.push(Point { x: self.x, y: self.y });
        if self.trail.len() > TRAIL_CAPACITY {
            self.trail.remove(0);
        }
        let proximity: u64 = if frame.by_distance {
            proximity_by_distance(
                self.x,
                self.y,
                self.dx,
                self.dy,
                (frame.width as i64) * 1000,
                (frame.height as i64) * 1000,
            )
        } else {
            proximity_by_time(self.birth_time, now)
        };
        let rate: u64 = rate_of(proximity, frame.dt);
        let dx: i64 = modulated(self.dx, rate, frame.decelerate);
        let dy: i64 = modulated(self.dy, rate, frame.decelerate);
        let pace: u64 = speed(dx, dy);
        self.dx = floored(dx, pace);
        self.dy = floored(dy, pace);
        self.x = integrated(self.x, self.dx, frame.dt);
        self.y = integrated(self.y, self.dy, frame.dt);
        proof {
            lemma_moved_wf(p0, frame, now);
            assert(self@.trail == moved(p0, frame, now).trail);
        }
        !self.is_out_of_sight(frame.width, frame.height)
    }
}

/// The views of a list of particles.
pub open spec fn views(ps: Seq<Projectile>) -> Seq<ProjectileView> {
    ps.map_values(|p: Projectile| p@)
}

/// The simulator: the particles in flight, the hue of the next particle
/// and the clock.
pub struct ParticleField {
    particles: Vec<Projectile>,
    rainbow_phase: u32,
    game_time: u64,
}

impl View for ParticleField {
    type V = FieldView;

    closed spec fn view(&self) -> FieldView {
        FieldView {
            particles: views(self.particles@),
            rainbow_phase: self.rainbow_phase,
            game_time: self.game_time,
        }
    }
}

impl ParticleField {
    /// Every particle in flight is well formed.
    pub open spec fn wf(&self) -> bool {
        field_wf(self@)
    }

    /// A simulator without particles, at time zero and hue zero.
    pub fn new() -> (r: ParticleField)
        ensures
            r.wf(),
            r@.particles.len() == 0,
            r@.rainbow_phase == 0,
            r@.game_time == 0,
    {
        ParticleField { particles: Vec::new(), rainbow_phase: 0, game_time: 0 }
    }

    /// The number of particles in flight.
    pub fn len(&self) -> (n: usize)
        ensures
            n == self@.particles.len(),
    {
        self.particles.len()
    }

    /// The particles in flight, oldest first.
    pub fn particles(&self) -> (r: &Vec<Projectile>)
        ensures
            views(r@) == self@.particles,
    {
        &self.particles
    }

    /// The hue that the next particle gets, in thousandths of a degree.
    pub fn rainbow_phase(&self) -> (r: u32)
        ensures
            r == self@.rainbow_phase,
    {
        self.rainbow_phase
    }

    /// The time on the clock of the simulator, in microseconds.
    pub fn game_time(&self) -> (r: u64)
        ensures
            r == self@.game_time,
    {
        self.game_time
    }

    /// Removes every particle; clock and hue stay.
    pub fn clear(&mut self)
        requires
            old(self).wf(),
        ensures
            final(self).wf(),
            final(self)@ == (FieldView { particles: Seq::empty(), ..old(self)@ }),
    {
        self.particles.clear();
        assert(views(self.particles@) =~= Seq::<ProjectileView>::empty());
    }

    /// Takes in one emission: it sends out one particle from the inner
    /// circle, in the middle of the screen, and moves the hue on.
    pub fn spawn(&mut self, e: Emission, width: u32, height: u32)
        requires
            old(self).wf(),
        ensures
            final(self).wf(),
            final(self)@ == spawn_spec(old(self)@, e, width, height),
            final(self)@.particles.len() == old(self)@.particles.len() + 1,
    {
        let ghost before = self.particles@;
        let p: Projectile = Projectile::emit(e, width, height, self.rainbow_phase, self.game_time);
        self.particles.push(p);
        self.rainbow_phase = (self.rainbow_phase + HUE_PER_SPAWN) % HUE_TURN;
        proof {
            assert(views(self.particles@) =~= views(before).push(p@));
            assert forall|i: int| 0 <= i < self@.particles.len() implies particle_wf(
                #[trigger] self@.particles[i],
            ) by {
                if i < before.len() {
                    assert(self@.particles[i] == old(self)@.particles[i]);
                }
            }
        }
    }

    /// One frame: the clock moves on by the time of the frame, every
    /// emission is taken in, the hue drifts, and every particle moves on;
    /// those that are out of sight are removed, the others keep their order.
    pub fn step(&mut self, frame: Frame, emissions: &Vec<Emission>)
        requires
            old(self).wf(),
        ensures
            final(self).wf(),
            final(self)@ == step_spec(old(self)@, frame, emissions@),
    {
        let ghost f0 = self@;
        self.game_time = if self.game_time > u64::MAX - frame.dt as u64 {
            u64::MAX
        } else {
            self.game_time + frame.dt as u64
        };
        let ghost clocked = self@;
        proof {
            assert(clocked.particles == f0.particles);
            assert forall|k: int| 0 <= k < clocked.particles.len() implies particle_wf(
                #[trigger] clocked.particles[k],
            ) by {
                assert(particle_wf(f0.particles[k]));
            }
        }
        let n: usize = emissions.len();
        let mut i: usize = 0;
        while i < n
            invariant
                0 <= i <= n,
                n == emissions@.len(),
                self.wf(),
                self@ == spawn_all(clocked, emissions@, frame.width, frame.height, i as int),
            decreases n - i,
        {
            self.spawn(emissions[i], frame.width, frame.height);
            i += 1;
        }
        let ghost grown = self@;
        let now: u64 = self.game_time;
        assert(now == grown.game_time);
        self.rainbow_phase = (self.rainbow_phase + HUE_PER_FRAME) % HUE_TURN;
        let mut stack: Vec<Projectile> = Vec::new();
        let ghost all = self.particles@;
        proof {
            assert forall|k: int| 0 <= k < all.len() implies particle_wf(#[trigger] all[k]@) by {
                assert(grown.particles[k] == all[k]@);
            }
        }
        while self.particles.len() > 0
            invariant
                self.rainbow_phase == hue_after(grown.rainbow_phase, HUE_PER_FRAME),
                self.game_time == now,
                views(all) == grown.particles,
                forall|k: int| 0 <= k < all.len() ==> particle_wf(#[trigger] all[k]@),
                self.particles@.len() + stack@.len() == all.len(),
                forall|k: int| 0 <= k < self.particles@.len() ==> self.particles@[k] == all[k],
                forall|k: int|
                    0 <= k < stack@.len() ==> #[trigger] stack@[k] == all[all.len() - 1 - k],
            decreases self.particles@.len(),
        {
            let p: Projectile = self.particles.pop().unwrap();
            stack.push(p);
        }
        let ghost mut done: int = 0;
        while stack.len() > 0
            invariant
                self.rainbow_phase == hue_after(grown.rainbow_phase, HUE_PER_FRAME),
                self.game_time == now,
                views(all) == grown.particles,
                forall|k: int| 0 <= k < all.len() ==> particle_wf(#[trigger] all[k]@),
                0 <= done <= all.len(),
                stack@.len() == all.len() - done,
                forall|k: int|
                    0 <= k < stack@.len() ==> #[trigger] stack@[k] == all[all.len() - 1 - k],
                views(self.particles@) == survivors(views(all).subrange(0, done), frame, now),
                forall|k: int|
                    0 <= k < self.particles@.len() ==> particle_wf(#[trigger] self.particles@[k]@),
            decreases stack@.len(),
        {
            let ghost kept = self.particles@;
            let mut p: Projectile = stack.pop().unwrap();
            assert(p == all[done]);
            let alive: bool = p.advance(frame, now);
            proof {
                let upto = views(all).subrange(0, done + 1);
                assert(upto.drop_last() =~= views(all).subrange(0, done));
                assert(upto.last() == all[done]@);
            }
            if alive {
                self.particles.push(p);
                proof {
                    assert(views(self.particles@) =~= views(kept).push(p@));
                }
            }
            proof {
                done = done + 1;
            }
        }
        proof {
            assert(views(all).subrange(0, all.len() as int) =~= views(all));
            lemma_survivors_wf(grown.particles, frame, now);
        }
    }
}

} // verus!
