//! Arena constants and the small integer helpers the systems share.
//!
//! The playfield is a fixed 100 x 100 rectangle with the origin at the bottom
//! left. Lengths are measured in micro-units (`SCALE` micro-units per arena
//! unit), time in milliseconds, and velocities in micro-units per millisecond,
//! so velocity integration over a tick is an exact multiplication.

use vstd::prelude::*;

verus! {

/// Micro-units per arena unit.
pub const SCALE: i64 = 1_000_000;

/// Width of the playfield, in micro-units (100 arena units).
pub const ARENA_WIDTH: i64 = 100 * SCALE;

/// Height of the playfield, in micro-units (100 arena units).
pub const ARENA_HEIGHT: i64 = 100 * SCALE;

/// Width of a paddle, in micro-units (4 arena units).
pub const PADDLE_WIDTH: i64 = 4 * SCALE;

/// Height of a paddle, in micro-units (16 arena units).
pub const PADDLE_HEIGHT: i64 = 16 * SCALE;

/// Radius of the ball, in micro-units (2 arena units).
pub const BALL_RADIUS: i64 = 2 * SCALE;

/// Horizontal spawn velocity of the ball: 45 arena units per second,
/// expressed in micro-units per millisecond.
pub const BALL_VELOCITY_X: i64 = 45_000;

/// Vertical spawn velocity of the ball: 20 arena units per second.
pub const BALL_VELOCITY_Y: i64 = 20_000;

/// Paddle speed at full input deflection: 75 arena units per second.
pub const PADDLE_SPEED: i64 = 75_000;

/// Delay between session start (or ball loss) and the ball spawn,
/// in milliseconds of simulated time.
pub const SPAWN_DELAY: i64 = 3_000;

/// An input axis value of `AXIS_ONE` stands for full deflection 1.0;
/// axis values range over `[-AXIS_ONE, AXIS_ONE]`.
pub const AXIS_ONE: i64 = 1_000;

/// Upper bound on the duration of one tick (one minute), so that a tick's
/// arithmetic provably stays inside `i64`.
pub const DT_MAX: i64 = 60_000;

/// Bound on the coordinates handed to a system, so that its arithmetic
/// provably stays inside `i64`.
pub const POS_LIMIT: i64 = 1_000_000_000_000;

/// Bound on the velocity components handed to a system (1000 units/second).
pub const VEL_LIMIT: i64 = 1_000_000;

/// Bound on coordinates coming out of velocity integration: an in-bounds
/// position can drift by at most `VEL_LIMIT * DT_MAX` in one tick.
pub const POS_ROOM: i64 = POS_LIMIT + VEL_LIMIT * DT_MAX;

/// `v` forced into the interval `[lo, hi]`.
pub open spec fn clamp_spec(v: int, lo: int, hi: int) -> int {
    if v < lo {
        lo
    } else if v > hi {
        hi
    } else {
        v
    }
}

/// Executable clamp, exact against `clamp_spec`.
pub fn clamp64(v: i64, lo: i64, hi: i64) -> (r: i64)
    requires
        lo <= hi,
    ensures
        r == clamp_spec(v as int, lo as int, hi as int),
{
    if v < lo {
        lo
    } else if v > hi {
        hi
    } else {
        v
    }
}

/// Half of a non-negative length. Kept as a named helper because Verus
/// has no specification for division of signed integers; the computation
/// goes through `u64`.
pub fn half(n: i64) -> (r: i64)
    requires
        0 <= n,
    ensures
        r == n as int / 2,
{
    let q: u64 = (n as u64) / 2;
    q as i64
}

/// Displacement of a paddle over one tick: `axis/AXIS_ONE * PADDLE_SPEED * dt`
/// micro-units, truncated toward zero.
pub open spec fn axis_disp(axis: int, dt: int) -> int {
    if axis >= 0 {
        (axis * PADDLE_SPEED * dt) / (AXIS_ONE as int)
    } else {
        -(((-axis) * PADDLE_SPEED * dt) / (AXIS_ONE as int))
    }
}

/// Executable paddle displacement, exact against `axis_disp`.
pub fn axis_disp64(axis: i64, dt: i64) -> (r: i64)
    requires
        -AXIS_ONE <= axis <= AXIS_ONE,
        0 <= dt <= DT_MAX,
    ensures
        r == axis_disp(axis as int, dt as int),
        -AXIS_ONE * PADDLE_SPEED * DT_MAX <= r <= AXIS_ONE * PADDLE_SPEED * DT_MAX,
{
    if axis >= 0 {
        let m1: u64 = (axis as u64) * (PADDLE_SPEED as u64);
        assert(m1 * (dt as u64) <= 75_000_000u64 * 60_000u64) by (nonlinear_arith)
            requires
                m1 <= 75_000_000u64,
                dt as u64 <= 60_000u64,
        ;
        let m2: u64 = m1 * (dt as u64);
        let q: u64 = m2 / (AXIS_ONE as u64);
        q as i64
    } else {
        let a: i64 = -axis;
        let m1: u64 = (a as u64) * (PADDLE_SPEED as u64);
        assert(m1 * (dt as u64) <= 75_000_000u64 * 60_000u64) by (nonlinear_arith)
            requires
                m1 <= 75_000_000u64,
                dt as u64 <= 60_000u64,
        ;
        let m2: u64 = m1 * (dt as u64);
        let q: u64 = m2 / (AXIS_ONE as u64);
        -(q as i64)
    }
}

} // verus!
