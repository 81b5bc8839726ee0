// Scenario and unit tests for the simulation core. All lengths are in
// micro-units (1 arena unit = 1_000_000), all times in milliseconds, all
// velocities in micro-units per millisecond.

use pong_core::arena::{
    ARENA_HEIGHT, ARENA_WIDTH, BALL_RADIUS, BALL_VELOCITY_X, BALL_VELOCITY_Y, PADDLE_HEIGHT,
    PADDLE_WIDTH, SPAWN_DELAY,
};
use pong_core::bounce::bounce_system;
use pong_core::components::{Ball, Paddle, Position, Side};
use pong_core::move_balls::move_balls_system;
use pong_core::paddle::paddle_system;
use pong_core::pong::{initialise_paddles, Pong};
use pong_core::store::Store;

const S: i64 = 1_000_000;

/// A session right after start: timer armed, both paddles in place.
fn started_session() -> (Pong, Store) {
    let mut store = Store::new();
    let mut pong = Pong::new();
    pong.on_start(&mut store);
    (pong, store)
}

/// A store holding only a ball entity with the given state.
fn lone_ball(x: i64, y: i64, vx: i64, vy: i64) -> (Store, u64) {
    let mut store = Store::new();
    let id = store.create();
    store.attach_ball(id, Ball { vx, vy, radius: BALL_RADIUS });
    store.attach_position(id, Position { x, y });
    (store, id)
}

/// Every ball in the store, as (id, ball, position).
fn balls_in(store: &Store) -> Vec<(u64, Ball, Position)> {
    let mut found = Vec::new();
    let n = store.entity_count() as u64;
    for id in 0..n {
        if let Some(b) = store.get_ball(id) {
            let p = store.get_position(id).expect("a ball always has a position");
            found.push((id, b, p));
        }
    }
    found
}

#[test]
fn store_create_attach_get_destroy() {
    let mut store = Store::new();
    assert_eq!(store.entity_count(), 0);
    let id = store.create();
    assert_eq!(id, 0);
    assert_eq!(store.get_paddle(id), None);
    store.attach_paddle(id, Paddle::new(Side::Left));
    store.attach_position(id, Position { x: 2 * S, y: 50 * S });
    let pd = store.get_paddle(id).unwrap();
    assert_eq!(pd.side, Side::Left);
    assert_eq!(pd.width, PADDLE_WIDTH);
    assert_eq!(pd.height, PADDLE_HEIGHT);
    assert_eq!(store.get_position(id), Some(Position { x: 2 * S, y: 50 * S }));
    assert_eq!(store.get_ball(id), None);
    // an unknown identifier has no components
    assert_eq!(store.get_paddle(7), None);
    assert_eq!(store.get_position(7), None);
    store.destroy(id);
    assert_eq!(store.get_paddle(id), None);
    assert_eq!(store.get_position(id), None);
    // the identifier stays retired: the next entity gets a fresh one
    let id2 = store.create();
    assert_eq!(id2, 1);
    assert_eq!(store.entity_count(), 2);
}

#[test]
fn store_remove_ball_keeps_position() {
    let (mut store, id) = lone_ball(50 * S, 50 * S, BALL_VELOCITY_X, BALL_VELOCITY_Y);
    store.remove_ball(id);
    assert_eq!(store.get_ball(id), None);
    assert_eq!(store.get_position(id), Some(Position { x: 50 * S, y: 50 * S }));
}

#[test]
fn session_start_places_two_paddles() {
    let (pong, store) = started_session();
    assert_eq!(pong.ball_spawn_timer, Some(SPAWN_DELAY));
    assert_eq!(store.entity_count(), 2);
    let left = store.get_paddle(0).unwrap();
    let right = store.get_paddle(1).unwrap();
    assert_eq!(left.side, Side::Left);
    assert_eq!(right.side, Side::Right);
    assert_eq!(store.get_position(0), Some(Position { x: PADDLE_WIDTH / 2, y: ARENA_HEIGHT / 2 }));
    assert_eq!(
        store.get_position(1),
        Some(Position { x: ARENA_WIDTH - PADDLE_WIDTH / 2, y: ARENA_HEIGHT / 2 })
    );
    assert!(balls_in(&store).is_empty());
}

#[test]
fn pong_new_and_default_have_no_timer() {
    assert_eq!(Pong::new().ball_spawn_timer, None);
    assert_eq!(Pong::default().ball_spawn_timer, None);
}

#[test]
fn paddle_moves_and_clamps_up() {
    let (mut pong, mut store) = started_session();
    // full deflection up for one second asks for +75 units: clamped at 92
    let _ = pong.tick(&mut store, 1000, 1000, 1000);
    assert_eq!(store.get_position(0).unwrap().y, ARENA_HEIGHT - PADDLE_HEIGHT / 2);
    assert_eq!(store.get_position(1).unwrap().y, ARENA_HEIGHT - PADDLE_HEIGHT / 2);
}

#[test]
fn paddle_moves_and_clamps_down() {
    let (mut pong, mut store) = started_session();
    let _ = pong.tick(&mut store, 1000, -1000, -1000);
    assert_eq!(store.get_position(0).unwrap().y, PADDLE_HEIGHT / 2);
    assert_eq!(store.get_position(1).unwrap().y, PADDLE_HEIGHT / 2);
}

#[test]
fn paddle_partial_deflection_is_exact() {
    let mut store = Store::new();
    initialise_paddles(&mut store);
    // half deflection for 100 ms: 0.5 * 75 units/s * 0.1 s = 3.75 units
    paddle_system(&mut store, 500, 0, 100);
    assert_eq!(store.get_position(0).unwrap().y, 50 * S + 3_750_000);
    // zero input holds still
    assert_eq!(store.get_position(1).unwrap().y, 50 * S);
    // x never changes
    assert_eq!(store.get_position(0).unwrap().x, PADDLE_WIDTH / 2);
}

#[test]
fn move_integrates_velocity_exactly() {
    let (mut store, id) = lone_ball(50 * S, 50 * S, BALL_VELOCITY_X, BALL_VELOCITY_Y);
    // 45 u/s and 20 u/s over 100 ms: +4.5 and +2 units
    move_balls_system(&mut store, 100);
    assert_eq!(store.get_position(id), Some(Position { x: 54_500_000, y: 52_000_000 }));
    // dt = 0 moves nothing
    move_balls_system(&mut store, 0);
    assert_eq!(store.get_position(id), Some(Position { x: 54_500_000, y: 52_000_000 }));
}

#[test]
fn bottom_wall_bounce_flips_and_clamps() {
    // Ball at (50, 1.0), radius 2, moving down: after the bounce the
    // velocity is (45, 20) and the position is clamped back to y >= 2
    // (strictly inside, one micro-unit above the contact band).
    let (mut store, id) = lone_ball(50 * S, 1 * S, BALL_VELOCITY_X, -BALL_VELOCITY_Y);
    let ev = bounce_system(&mut store);
    assert_eq!(ev, None);
    assert_eq!(
        store.get_ball(id),
        Some(Ball { vx: BALL_VELOCITY_X, vy: BALL_VELOCITY_Y, radius: BALL_RADIUS })
    );
    assert_eq!(store.get_position(id), Some(Position { x: 50 * S, y: 2 * S + 1 }));
}

#[test]
fn bottom_wall_contact_flips_whatever_the_direction() {
    // The wall rule reflects on any contact: a ball touching the bottom
    // wall while moving up still has its vertical velocity flipped.
    let (mut store, id) = lone_ball(50 * S, 1 * S, BALL_VELOCITY_X, BALL_VELOCITY_Y);
    let ev = bounce_system(&mut store);
    assert_eq!(ev, None);
    assert_eq!(
        store.get_ball(id),
        Some(Ball { vx: BALL_VELOCITY_X, vy: -BALL_VELOCITY_Y, radius: BALL_RADIUS })
    );
    assert_eq!(store.get_position(id), Some(Position { x: 50 * S, y: 2 * S + 1 }));
}

#[test]
fn top_wall_bounce_flips_and_clamps() {
    let (mut store, id) = lone_ball(50 * S, 99 * S, BALL_VELOCITY_X, BALL_VELOCITY_Y);
    let ev = bounce_system(&mut store);
    assert_eq!(ev, None);
    assert_eq!(
        store.get_ball(id),
        Some(Ball { vx: BALL_VELOCITY_X, vy: -BALL_VELOCITY_Y, radius: BALL_RADIUS })
    );
    assert_eq!(store.get_position(id), Some(Position { x: 50 * S, y: 98 * S - 1 }));
}

#[test]
fn bounce_twice_in_one_tick_is_idempotent() {
    // Without an intervening move, a second bounce changes nothing: the
    // wall response leaves no contact behind and the paddle guard stops
    // a double reflection.
    let (mut store, id) = lone_ball(50 * S, 1 * S, BALL_VELOCITY_X, -BALL_VELOCITY_Y);
    let ev1 = bounce_system(&mut store);
    let after_once_ball = store.get_ball(id);
    let after_once_pos = store.get_position(id);
    let ev2 = bounce_system(&mut store);
    assert_eq!(ev1, None);
    assert_eq!(ev2, None);
    assert_eq!(store.get_ball(id), after_once_ball);
    assert_eq!(store.get_position(id), after_once_pos);
}

#[test]
fn round_trip_off_right_paddle() {
    // A ball moving straight right at (45, 0) from (50, 50) overlaps the
    // right paddle near x = 98, reflects to (-45, 0), and does not
    // re-reflect while still overlapping on the following ticks.
    let mut store = Store::new();
    initialise_paddles(&mut store);
    let id = store.create();
    store.attach_ball(id, Ball { vx: BALL_VELOCITY_X, vy: 0, radius: BALL_RADIUS });
    store.attach_position(id, Position { x: 50 * S, y: 50 * S });

    move_balls_system(&mut store, 1000);
    assert_eq!(store.get_position(id).unwrap().x, 95 * S);
    let ev = bounce_system(&mut store);
    assert_eq!(ev, None);
    assert_eq!(store.get_ball(id).unwrap().vx, -BALL_VELOCITY_X);
    assert_eq!(store.get_ball(id).unwrap().vy, 0);

    // a second bounce in the same tick does not re-reflect
    let ev = bounce_system(&mut store);
    assert_eq!(ev, None);
    assert_eq!(store.get_ball(id).unwrap().vx, -BALL_VELOCITY_X);

    // the next tick still overlaps the paddle, moving away: no re-reflection
    move_balls_system(&mut store, 10);
    assert_eq!(store.get_position(id).unwrap().x, 95 * S - 450_000);
    let ev = bounce_system(&mut store);
    assert_eq!(ev, None);
    assert_eq!(store.get_ball(id).unwrap().vx, -BALL_VELOCITY_X);
    assert_eq!(store.get_ball(id).unwrap().vy, 0);
}

#[test]
fn ball_spawns_after_three_seconds() {
    // Session start, then exactly 3.0 s of elapsed dt with no ball present:
    // the ball appears at (50, 50) with velocity (45, 20).
    let (mut pong, mut store) = started_session();
    pong.update(&mut store, 1000);
    assert!(balls_in(&store).is_empty());
    pong.update(&mut store, 1000);
    assert!(balls_in(&store).is_empty());
    assert_eq!(pong.ball_spawn_timer, Some(1000));
    pong.update(&mut store, 1000);
    let balls = balls_in(&store);
    assert_eq!(balls.len(), 1);
    let (_, b, p) = balls[0];
    assert_eq!(b, Ball { vx: BALL_VELOCITY_X, vy: BALL_VELOCITY_Y, radius: BALL_RADIUS });
    assert_eq!(p, Position { x: ARENA_WIDTH / 2, y: ARENA_HEIGHT / 2 });
    assert_eq!(pong.ball_spawn_timer, None);
}

#[test]
fn ball_spawns_with_uneven_tick_lengths() {
    let (mut pong, mut store) = started_session();
    pong.update(&mut store, 1500);
    assert_eq!(pong.ball_spawn_timer, Some(1500));
    pong.update(&mut store, 1500);
    assert_eq!(pong.ball_spawn_timer, None);
    assert_eq!(balls_in(&store).len(), 1);
}

#[test]
fn ball_leaving_left_edge_is_destroyed() {
    // Ball at (0.5, 50), radius 2, moving left: it sticks out past the
    // left boundary (x - radius < 0), so the bounce system destroys it
    // and reports the left boundary, paddles untouched.
    let mut store = Store::new();
    initialise_paddles(&mut store);
    let id = store.create();
    store.attach_ball(id, Ball { vx: -BALL_VELOCITY_X, vy: BALL_VELOCITY_Y, radius: BALL_RADIUS });
    store.attach_position(id, Position { x: S / 2, y: 50 * S });
    let ev = bounce_system(&mut store);
    assert_eq!(ev, Some(Side::Left));
    assert_eq!(store.get_ball(id), None);
    assert_eq!(store.get_position(id), None);
    assert_eq!(store.get_paddle(0).unwrap().side, Side::Left);
    assert_eq!(store.get_paddle(1).unwrap().side, Side::Right);
}

#[test]
fn ball_leaving_right_edge_is_destroyed() {
    let (mut store, id) = lone_ball(99 * S + S / 2, 50 * S, BALL_VELOCITY_X, 0);
    let ev = bounce_system(&mut store);
    assert_eq!(ev, Some(Side::Right));
    assert_eq!(store.get_ball(id), None);
}

#[test]
fn session_ball_exit_rearms_spawner() {
    // Full session: the right paddle is held at the bottom so the spawned
    // ball flies past it, exits right, the spawner re-arms with the full
    // delay, and a second ball spawns three seconds later.
    let (mut pong, mut store) = started_session();
    assert_eq!(pong.tick(&mut store, 1000, 0, -1000), None); // timer 2000, right paddle sinks to 8
    assert_eq!(pong.tick(&mut store, 1000, 0, -1000), None); // timer 1000
    assert_eq!(pong.tick(&mut store, 1000, 0, -1000), None); // ball spawns, moves to (95, 70)
    let balls = balls_in(&store);
    assert_eq!(balls.len(), 1);
    assert_eq!(balls[0].2, Position { x: 95 * S, y: 70 * S });
    assert_eq!(store.get_position(1).unwrap().y, PADDLE_HEIGHT / 2);

    let ev = pong.tick(&mut store, 1000, 0, 0); // ball reaches x=140: out on the right
    assert_eq!(ev, Some(Side::Right));
    assert!(balls_in(&store).is_empty());
    assert_eq!(pong.ball_spawn_timer, Some(SPAWN_DELAY));

    // the re-armed spawner creates a fresh ball after the full delay again
    assert_eq!(pong.tick(&mut store, 1000, 0, 0), None);
    assert_eq!(pong.tick(&mut store, 1000, 0, 0), None);
    assert!(balls_in(&store).is_empty());
    assert_eq!(pong.tick(&mut store, 1000, 0, 0), None);
    let balls = balls_in(&store);
    assert_eq!(balls.len(), 1);
    assert_eq!(balls[0].1, Ball { vx: BALL_VELOCITY_X, vy: BALL_VELOCITY_Y, radius: BALL_RADIUS });
}

#[test]
fn paddles_stay_in_range_whatever_the_input() {
    let (mut pong, mut store) = started_session();
    let lo = PADDLE_HEIGHT / 2;
    let hi = ARENA_HEIGHT - PADDLE_HEIGHT / 2;
    let axes: [i64; 6] = [1000, 1000, -1000, 437, -1000, -62];
    for t in 0..120 {
        let a = axes[t % axes.len()];
        let _ = pong.tick(&mut store, 500, a, -a);
        for id in 0..2 {
            let y = store.get_position(id).unwrap().y;
            assert!(lo <= y && y <= hi, "paddle {} out of range at tick {}: {}", id, t, y);
        }
    }
}

#[test]
fn ball_speed_and_cardinality_invariants_over_a_long_session() {
    // Over many ticks with bounces off walls and paddles: at most one ball
    // ever exists, and its per-axis speed never changes, only the signs.
    let (mut pong, mut store) = started_session();
    for t in 0..600 {
        // paddles chase the centre-ish so some paddle bounces happen
        let a = if t % 7 < 4 { 1000 } else { -1000 };
        let _ = pong.tick(&mut store, 200, a, -a);
        let balls = balls_in(&store);
        assert!(balls.len() <= 1, "more than one ball at tick {}", t);
        for (_, b, p) in balls {
            assert_eq!(b.vx.abs(), BALL_VELOCITY_X, "vx magnitude changed at tick {}", t);
            assert_eq!(b.vy.abs(), BALL_VELOCITY_Y, "vy magnitude changed at tick {}", t);
            assert_eq!(b.radius, BALL_RADIUS);
            // a ball that survived the tick is wholly inside the arena
            assert!(BALL_RADIUS <= p.y && p.y <= ARENA_HEIGHT - BALL_RADIUS);
            assert!(BALL_RADIUS <= p.x && p.x <= ARENA_WIDTH - BALL_RADIUS);
        }
    }
}

#[test]
fn session_ball_exit_left_rearms_spawner() {
    // Played-out left exit: the right paddle chases the ball and reflects
    // it; the left paddle is held at the bottom, out of the way, so the
    // ball crosses the left boundary. The event names the left edge and
    // the spawner re-enters the full countdown.
    let (mut pong, mut store) = started_session();
    let mut event = None;
    for _ in 0..200 {
        // the right paddle steers towards the ball's height
        let axis_right = match balls_in(&store).first() {
            Some((_, _, p)) => {
                let pad_y = store.get_position(1).unwrap().y;
                if p.y > pad_y {
                    1000
                } else if p.y < pad_y {
                    -1000
                } else {
                    0
                }
            }
            None => 0,
        };
        if let Some(side) = pong.tick(&mut store, 100, -1000, axis_right) {
            event = Some(side);
            break;
        }
    }
    assert_eq!(event, Some(Side::Left));
    assert!(balls_in(&store).is_empty());
    assert_eq!(pong.ball_spawn_timer, Some(SPAWN_DELAY));
}
