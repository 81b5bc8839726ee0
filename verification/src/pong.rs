//! The game session: the spawner state machine and the tick driver that runs
//! the systems in their fixed order Spawner → PaddleSystem → MoveBallsSystem
//! → BounceSystem.
//!
//! `Pong::on_start` initialises a session (two paddles, armed spawn timer);
//! `Pong::update` is the spawner: it counts the timer down and creates the
//! ball when the delay has elapsed; `Pong::tick` advances the whole state by
//! one tick and re-arms the spawner when the ball leaves the arena.

use vstd::prelude::*;
use crate::arena::{
    half, ARENA_HEIGHT, ARENA_WIDTH, AXIS_ONE, BALL_RADIUS, BALL_VELOCITY_X, BALL_VELOCITY_Y,
    DT_MAX, PADDLE_HEIGHT, PADDLE_WIDTH, POS_LIMIT, SPAWN_DELAY,
};
use crate::bounce::{
    ball_updated, bounce_rel, bounce_system, bounce_view, lemma_bounce_in_bounds,
    lemma_bounce_preserves_speed, oob_left, oob_right, paddles_of,
};
use crate::components::{ball_view, Ball, Paddle, Position, Side};
use crate::move_balls::{move_balls_system, move_rel, move_stepped};
use crate::paddle::{paddle_rel, paddle_stepped, paddle_system};
use crate::store::{
    at_most_one_ball, cleared, is_ball_ent, is_paddle_ent, no_ball, the_ball_index, Entity, Store,
};

verus! {

/// A freshly spawned ball entity: no paddle, the standard ball, positioned at
/// the arena centre.
pub open spec fn spawned(e: Entity) -> bool {
    &&& e.paddle is None
    &&& e.ball == Some(Ball { vx: BALL_VELOCITY_X, vy: BALL_VELOCITY_Y, radius: BALL_RADIUS })
    &&& e.position matches Some(p) && p.x == ARENA_WIDTH / 2 && p.y == ARENA_HEIGHT / 2
}

/// A paddle entity as session start creates it: standard size, centred
/// vertically, flush with its horizontal edge.
pub open spec fn paddle_init(e: Entity, side: Side) -> bool {
    &&& e.ball is None
    &&& e.paddle == Some(Paddle { side, width: PADDLE_WIDTH, height: PADDLE_HEIGHT })
    &&& e.position matches Some(p) && p.y == ARENA_HEIGHT / 2 && p.x == (if side == Side::Left {
        PADDLE_WIDTH / 2
    } else {
        ARENA_WIDTH - PADDLE_WIDTH / 2
    })
}

/// The spawner transition of one tick: a counting timer loses `dt`; when it
/// reaches zero the ball is created and the timer is consumed; without a
/// timer nothing happens.
pub open spec fn spawner_rel(
    t0: Option<i64>,
    s0: Seq<Entity>,
    t1: Option<i64>,
    s1: Seq<Entity>,
    dt: int,
) -> bool {
    match t0 {
        None => t1 is None && s1 == s0,
        Some(t) => if t - dt <= 0 {
            &&& t1 is None
            &&& s1.len() == s0.len() + 1
            &&& (forall|i: int| 0 <= i < s0.len() ==> s1[i] == #[trigger] s0[i])
            &&& spawned(s1[s0.len() as int])
        } else {
            &&& t1 matches Some(v) && v == t - dt
            &&& s1 == s0
        },
    }
}

/// At most one paddle per side.
pub open spec fn one_paddle_per_side(s: Seq<Entity>) -> bool {
    forall|i: int, j: int|
        0 <= i < s.len() && 0 <= j < s.len() && (#[trigger] s[i]).paddle is Some
            && (#[trigger] s[j]).paddle is Some && s[i].paddle->0.side == s[j].paddle->0.side
            ==> i == j
}

/// Some paddle guards the given side.
pub open spec fn has_paddle_on(s: Seq<Entity>, side: Side) -> bool {
    exists|i: int|
        0 <= i < s.len() && (#[trigger] s[i]).paddle is Some && s[i].paddle->0.side == side
}

/// Every paddle of a session has the standard size, carries no ball, and sits
/// with its centre inside `[h/2, ARENA_HEIGHT - h/2]`.
pub open spec fn standard_paddle(e: Entity) -> bool {
    e.paddle is Some ==> {
        &&& e.paddle->0.width == PADDLE_WIDTH
        &&& e.paddle->0.height == PADDLE_HEIGHT
        &&& e.ball is None
        &&& e.position matches Some(p) && PADDLE_HEIGHT / 2 <= p.y <= ARENA_HEIGHT - PADDLE_HEIGHT / 2
            && -POS_LIMIT <= p.x <= POS_LIMIT
    }
}

/// The ball of a session, while it exists, has the standard radius, velocity
/// components of the spawn magnitude (only the signs ever change), carries no
/// paddle, and sits wholly inside the arena.
pub open spec fn standard_ball(e: Entity) -> bool {
    e.ball is Some ==> {
        &&& e.ball->0.radius == BALL_RADIUS
        &&& (e.ball->0.vx == BALL_VELOCITY_X || e.ball->0.vx == -BALL_VELOCITY_X)
        &&& (e.ball->0.vy == BALL_VELOCITY_Y || e.ball->0.vy == -BALL_VELOCITY_Y)
        &&& e.paddle is None
        &&& e.position matches Some(p) && BALL_RADIUS <= p.x <= ARENA_WIDTH - BALL_RADIUS
            && BALL_RADIUS <= p.y <= ARENA_HEIGHT - BALL_RADIUS
    }
}

/// The spawner's timer is present exactly while no ball exists, and always
/// holds a remaining delay in `(0, SPAWN_DELAY]`.
pub open spec fn timer_ok(t: Option<i64>, s: Seq<Entity>) -> bool {
    &&& (t matches Some(v) ==> 0 < v <= SPAWN_DELAY)
    &&& (t is Some <==> no_ball(s))
}

/// The session invariant: established by `Pong::on_start`, preserved by every
/// `Pong::tick`.
pub open spec fn session_state_wf(t: Option<i64>, s: Seq<Entity>) -> bool {
    &&& one_paddle_per_side(s)
    &&& has_paddle_on(s, Side::Left)
    &&& has_paddle_on(s, Side::Right)
    &&& at_most_one_ball(s)
    &&& (forall|i: int| 0 <= i < s.len() ==> standard_paddle(#[trigger] s[i]))
    &&& (forall|i: int| 0 <= i < s.len() ==> standard_ball(#[trigger] s[i]))
    &&& (forall|i: int| 0 <= i < s.len() && (#[trigger] s[i]).position is Some
        ==> s[i].paddle is Some || s[i].ball is Some)
    &&& timer_ok(t, s)
}

/// Creates one ball in the middle of the arena, with the spawn velocity.
pub fn initialise_ball(store: &mut Store)
    requires
        old(store).wf(),
    ensures
        final(store).wf(),
        final(store).ents().len() == old(store).ents().len() + 1,
        forall|i: int| 0 <= i < old(store).ents().len()
            ==> final(store).ents()[i] == #[trigger] old(store).ents()[i],
        spawned(final(store).ents()[old(store).ents().len() as int]),
{
    let id = store.create();
    store.attach_ball(id, Ball { vx: BALL_VELOCITY_X, vy: BALL_VELOCITY_Y, radius: BALL_RADIUS });
    let cx = half(ARENA_WIDTH);
    let cy = half(ARENA_HEIGHT);
    store.attach_position(id, Position { x: cx, y: cy });
}

/// Initialises one paddle on the left, and one paddle on the right.
pub fn initialise_paddles(store: &mut Store)
    requires
        old(store).wf(),
    ensures
        final(store).wf(),
        final(store).ents().len() == old(store).ents().len() + 2,
        forall|i: int| 0 <= i < old(store).ents().len()
            ==> final(store).ents()[i] == #[trigger] old(store).ents()[i],
        paddle_init(final(store).ents()[old(store).ents().len() as int], Side::Left),
        paddle_init(final(store).ents()[old(store).ents().len() + 1int], Side::Right),
{
    let y = half(ARENA_HEIGHT);
    let xoff = half(PADDLE_WIDTH);
    let left = store.create();
    store.attach_paddle(left, Paddle::new(Side::Left));
    store.attach_position(left, Position { x: xoff, y });
    let right = store.create();
    store.attach_paddle(right, Paddle::new(Side::Right));
    store.attach_position(right, Position { x: ARENA_WIDTH - xoff, y });
}

/// The session state the tick driver owns: the spawner's countdown. All other
/// state lives in the store.
pub struct Pong {
    pub ball_spawn_timer: Option<i64>,
}

impl Pong {
    /// A session object with no timer armed; `on_start` arms it.
    pub fn new() -> (p: Pong)
        ensures
            p.ball_spawn_timer is None,
    {
        Pong { ball_spawn_timer: None }
    }
}

impl Default for Pong {
    fn default() -> (p: Pong)
        ensures
            p.ball_spawn_timer is None,
    {
        Pong { ball_spawn_timer: None }
    }
}

impl Pong {
    /// Session start: arms the spawn timer with the full delay and creates
    /// the two paddles. Establishes the session invariant.
    pub fn on_start(&mut self, store: &mut Store)
        requires
            old(store).wf(),
            old(store).ents().len() == 0,
        ensures
            final(store).wf(),
            final(self).ball_spawn_timer == Some(SPAWN_DELAY),
            final(store).ents().len() == 2,
            paddle_init(final(store).ents()[0], Side::Left),
            paddle_init(final(store).ents()[1], Side::Right),
            session_state_wf(final(self).ball_spawn_timer, final(store).ents()),
    {
        self.ball_spawn_timer = Some(SPAWN_DELAY);
        initialise_paddles(store);
    }

    /// The spawner: counts the timer down by `dt` and creates the ball once
    /// the delay has elapsed, consuming the timer.
    pub fn update(&mut self, store: &mut Store, dt: i64)
        requires
            old(store).wf(),
            0 <= dt <= DT_MAX,
            old(self).ball_spawn_timer matches Some(t) ==> 0 <= t <= SPAWN_DELAY,
        ensures
            final(store).wf(),
            spawner_rel(
                old(self).ball_spawn_timer,
                old(store).ents(),
                final(self).ball_spawn_timer,
                final(store).ents(),
                dt as int,
            ),
    {
        match self.ball_spawn_timer {
            None => {}
            Some(t) => {
                let t1 = t - dt;
                if t1 <= 0 {
                    self.ball_spawn_timer = None;
                    initialise_ball(store);
                } else {
                    self.ball_spawn_timer = Some(t1);
                }
            }
        }
    }
}

/// The ball components of two stores agree entity by entity.
spec fn balls_unchanged(s0: Seq<Entity>, s1: Seq<Entity>) -> bool {
    &&& s1.len() == s0.len()
    &&& forall|i: int| 0 <= i < s0.len() ==> s1[i].ball == (#[trigger] s0[i]).ball
}

/// The ball facts that survive the move system (everything of
/// `standard_ball` except the position range).
spec fn mid_ball_ok(e: Entity) -> bool {
    e.ball is Some ==> {
        &&& e.ball->0.radius == BALL_RADIUS
        &&& (e.ball->0.vx == BALL_VELOCITY_X || e.ball->0.vx == -BALL_VELOCITY_X)
        &&& (e.ball->0.vy == BALL_VELOCITY_Y || e.ball->0.vy == -BALL_VELOCITY_Y)
        &&& e.paddle is None
        &&& e.position is Some
    }
}

proof fn lemma_no_ball_same(s0: Seq<Entity>, s1: Seq<Entity>)
    requires
        balls_unchanged(s0, s1),
    ensures
        no_ball(s0) <==> no_ball(s1),
{
    if no_ball(s0) {
        assert forall|i: int| 0 <= i < s1.len() implies (#[trigger] s1[i]).ball is None by {
            assert(s1[i].ball == s0[i].ball);
        }
    }
    if no_ball(s1) {
        assert forall|i: int| 0 <= i < s0.len() implies (#[trigger] s0[i]).ball is None by {
            assert(s1[i].ball == s0[i].ball);
        }
    }
}

/// The spawner preserves the session invariant.
proof fn lemma_spawner_preserves(
    t0: Option<i64>,
    s0: Seq<Entity>,
    t1: Option<i64>,
    s1: Seq<Entity>,
    dt: int,
)
    requires
        session_state_wf(t0, s0),
        spawner_rel(t0, s0, t1, s1, dt),
        0 <= dt,
    ensures
        session_state_wf(t1, s1),
{
    match t0 {
        None => {}
        Some(t) => {
            if t - dt <= 0 {
                let m = s0.len() as int;
                assert(spawned(s1[m]));
                let li = choose|i: int|
                    0 <= i < s0.len() && (#[trigger] s0[i]).paddle is Some
                        && s0[i].paddle->0.side == Side::Left;
                assert(s1[li] == s0[li]);
                assert(has_paddle_on(s1, Side::Left));
                let ri = choose|i: int|
                    0 <= i < s0.len() && (#[trigger] s0[i]).paddle is Some
                        && s0[i].paddle->0.side == Side::Right;
                assert(s1[ri] == s0[ri]);
                assert(has_paddle_on(s1, Side::Right));
                assert(one_paddle_per_side(s1)) by {
                    assert forall|i: int, j: int|
                        0 <= i < s1.len() && 0 <= j < s1.len() && (#[trigger] s1[i]).paddle is Some
                            && (#[trigger] s1[j]).paddle is Some
                            && s1[i].paddle->0.side == s1[j].paddle->0.side implies i == j by {
                        assert(i != m && j != m);
                        assert(s1[i] == s0[i] && s1[j] == s0[j]);
                    }
                }
                assert(at_most_one_ball(s1)) by {
                    assert forall|i: int, j: int|
                        0 <= i < s1.len() && 0 <= j < s1.len() && (#[trigger] s1[i]).ball is Some
                            && (#[trigger] s1[j]).ball is Some implies i == j by {
                        if i < m {
                            assert(s1[i] == s0[i]);
                            assert(s0[i].ball is None);
                        }
                        if j < m {
                            assert(s1[j] == s0[j]);
                            assert(s0[j].ball is None);
                        }
                    }
                }
                assert forall|i: int| 0 <= i < s1.len() implies standard_paddle(#[trigger] s1[i])
                    && standard_ball(s1[i]) && (s1[i].position is Some ==> s1[i].paddle is Some
                    || s1[i].ball is Some) by {
                    if i < m {
                        assert(s1[i] == s0[i]);
                    }
                }
                assert(!no_ball(s1)) by {
                    assert(s1[m].ball is Some);
                }
            }
        }
    }
}

/// The paddle system preserves the session invariant and touches no ball.
proof fn lemma_paddle_preserves(
    t: Option<i64>,
    s0: Seq<Entity>,
    s1: Seq<Entity>,
    al: int,
    ar: int,
    dt: int,
)
    requires
        session_state_wf(t, s0),
        paddle_rel(s0, s1, al, ar, dt),
    ensures
        session_state_wf(t, s1),
        balls_unchanged(s0, s1),
{
    assert forall|i: int| 0 <= i < s1.len() implies (#[trigger] s1[i]).paddle == s0[i].paddle
        && s1[i].ball == s0[i].ball && (s0[i].position is Some ==> s1[i].position is Some) by {
        assert(paddle_stepped(s0[i], s1[i], al, ar, dt));
    }
    let li = choose|i: int|
        0 <= i < s0.len() && (#[trigger] s0[i]).paddle is Some
            && s0[i].paddle->0.side == Side::Left;
    assert(s1[li].paddle == s0[li].paddle);
    assert(has_paddle_on(s1, Side::Left));
    let ri = choose|i: int|
        0 <= i < s0.len() && (#[trigger] s0[i]).paddle is Some
            && s0[i].paddle->0.side == Side::Right;
    assert(s1[ri].paddle == s0[ri].paddle);
    assert(has_paddle_on(s1, Side::Right));
    assert(one_paddle_per_side(s1)) by {
        assert forall|i: int, j: int|
            0 <= i < s1.len() && 0 <= j < s1.len() && (#[trigger] s1[i]).paddle is Some
                && (#[trigger] s1[j]).paddle is Some
                && s1[i].paddle->0.side == s1[j].paddle->0.side implies i == j by {
            assert(s1[i].paddle == s0[i].paddle && s1[j].paddle == s0[j].paddle);
        }
    }
    assert(at_most_one_ball(s1)) by {
        assert forall|i: int, j: int|
            0 <= i < s1.len() && 0 <= j < s1.len() && (#[trigger] s1[i]).ball is Some
                && (#[trigger] s1[j]).ball is Some implies i == j by {
            assert(s1[i].ball == s0[i].ball && s1[j].ball == s0[j].ball);
        }
    }
    assert forall|i: int| 0 <= i < s1.len() implies standard_paddle(#[trigger] s1[i])
        && standard_ball(s1[i]) && (s1[i].position is Some ==> s1[i].paddle is Some
        || s1[i].ball is Some) by {
        assert(paddle_stepped(s0[i], s1[i], al, ar, dt));
        if s0[i].paddle is Some {
            assert(standard_paddle(s0[i]));
            assert(is_paddle_ent(s0[i]));
        } else if s0[i].ball is Some {
            assert(standard_ball(s0[i]));
            assert(!is_paddle_ent(s0[i]));
            assert(s1[i] == s0[i]);
        } else {
            assert(!is_paddle_ent(s0[i]));
            assert(s1[i] == s0[i]);
        }
    }
    lemma_no_ball_same(s0, s1);
}

/// The move system preserves the paddle facts, the ball facts that do not
/// speak of the position range, and the ball components themselves.
proof fn lemma_move_preserves(t: Option<i64>, s0: Seq<Entity>, s1: Seq<Entity>, dt: int)
    requires
        session_state_wf(t, s0),
        move_rel(s0, s1, dt),
    ensures
        one_paddle_per_side(s1),
        has_paddle_on(s1, Side::Left),
        has_paddle_on(s1, Side::Right),
        at_most_one_ball(s1),
        forall|i: int| 0 <= i < s1.len() ==> standard_paddle(#[trigger] s1[i]),
        forall|i: int| 0 <= i < s1.len() ==> mid_ball_ok(#[trigger] s1[i]),
        forall|i: int| 0 <= i < s1.len() && (#[trigger] s1[i]).position is Some
            ==> s1[i].paddle is Some || s1[i].ball is Some,
        balls_unchanged(s0, s1),
{
    assert forall|i: int| 0 <= i < s1.len() implies (#[trigger] s1[i]).paddle == s0[i].paddle
        && s1[i].ball == s0[i].ball && (s0[i].position is Some ==> s1[i].position is Some) by {
        assert(move_stepped(s0[i], s1[i], dt));
    }
    let li = choose|i: int|
        0 <= i < s0.len() && (#[trigger] s0[i]).paddle is Some
            && s0[i].paddle->0.side == Side::Left;
    assert(s1[li].paddle == s0[li].paddle);
    assert(has_paddle_on(s1, Side::Left));
    let ri = choose|i: int|
        0 <= i < s0.len() && (#[trigger] s0[i]).paddle is Some
            && s0[i].paddle->0.side == Side::Right;
    assert(s1[ri].paddle == s0[ri].paddle);
    assert(has_paddle_on(s1, Side::Right));
    assert(one_paddle_per_side(s1)) by {
        assert forall|i: int, j: int|
            0 <= i < s1.len() && 0 <= j < s1.len() && (#[trigger] s1[i]).paddle is Some
                && (#[trigger] s1[j]).paddle is Some
                && s1[i].paddle->0.side == s1[j].paddle->0.side implies i == j by {
            assert(s1[i].paddle == s0[i].paddle && s1[j].paddle == s0[j].paddle);
        }
    }
    assert(at_most_one_ball(s1)) by {
        assert forall|i: int, j: int|
            0 <= i < s1.len() && 0 <= j < s1.len() && (#[trigger] s1[i]).ball is Some
                && (#[trigger] s1[j]).ball is Some implies i == j by {
            assert(s1[i].ball == s0[i].ball && s1[j].ball == s0[j].ball);
        }
    }
    assert forall|i: int| 0 <= i < s1.len() implies standard_paddle(#[trigger] s1[i])
        && mid_ball_ok(s1[i]) by {
        assert(move_stepped(s0[i], s1[i], dt));
        if s0[i].paddle is Some {
            assert(standard_paddle(s0[i]));
            assert(!is_ball_ent(s0[i]));
            assert(s1[i] == s0[i]);
        } else if s0[i].ball is Some {
            assert(standard_ball(s0[i]));
        } else {
            assert(s1[i] == s0[i]);
        }
    }
}

/// The bounce system re-establishes the full session facts on the store:
/// a surviving ball is back inside the walls with its speed intact, and a
/// removed ball leaves no ball behind.
proof fn lemma_bounce_preserves(s0: Seq<Entity>, s1: Seq<Entity>, ev: Option<Side>)
    requires
        one_paddle_per_side(s0),
        has_paddle_on(s0, Side::Left),
        has_paddle_on(s0, Side::Right),
        at_most_one_ball(s0),
        forall|i: int| 0 <= i < s0.len() ==> standard_paddle(#[trigger] s0[i]),
        forall|i: int| 0 <= i < s0.len() ==> mid_ball_ok(#[trigger] s0[i]),
        forall|i: int| 0 <= i < s0.len() && (#[trigger] s0[i]).position is Some
            ==> s0[i].paddle is Some || s0[i].ball is Some,
        bounce_rel(s0, s1, ev),
    ensures
        one_paddle_per_side(s1),
        has_paddle_on(s1, Side::Left),
        has_paddle_on(s1, Side::Right),
        at_most_one_ball(s1),
        forall|i: int| 0 <= i < s1.len() ==> standard_paddle(#[trigger] s1[i]),
        forall|i: int| 0 <= i < s1.len() ==> standard_ball(#[trigger] s1[i]),
        forall|i: int| 0 <= i < s1.len() && (#[trigger] s1[i]).position is Some
            ==> s1[i].paddle is Some || s1[i].ball is Some,
        ev is Some ==> no_ball(s1),
        ev is None ==> (no_ball(s1) <==> no_ball(s0)),
{
    if no_ball(s0) {
        assert(s1 == s0);
        assert forall|i: int| 0 <= i < s1.len() implies standard_ball(#[trigger] s1[i]) by {
            assert(s1[i].ball is None);
        }
    } else {
        let bi = the_ball_index(s0);
        assert(0 <= bi < s0.len() && s0[bi].ball is Some);
        assert(mid_ball_ok(s0[bi]));
        let b0 = ball_view(s0[bi].ball->0, s0[bi].position->0);
        let ps = paddles_of(s0);
        let b1 = bounce_view(b0, ps);
        lemma_bounce_preserves_speed(b0, ps);
        lemma_bounce_in_bounds(b0, ps);
        if ev is Some {
            assert(s1 == s0.update(bi, cleared(s0[bi].id)));
            assert(no_ball(s1)) by {
                assert forall|i: int| 0 <= i < s1.len() implies (#[trigger] s1[i]).ball is None by {
                    if i != bi {
                        assert(s1[i] == s0[i]);
                        if s0[i].ball is Some {
                            assert(i == bi);
                        }
                    }
                }
            }
            assert(s0[bi].paddle is None);
            let li = choose|i: int|
                0 <= i < s0.len() && (#[trigger] s0[i]).paddle is Some
                    && s0[i].paddle->0.side == Side::Left;
            assert(li != bi && s1[li] == s0[li]);
            assert(has_paddle_on(s1, Side::Left));
            let ri = choose|i: int|
                0 <= i < s0.len() && (#[trigger] s0[i]).paddle is Some
                    && s0[i].paddle->0.side == Side::Right;
            assert(ri != bi && s1[ri] == s0[ri]);
            assert(has_paddle_on(s1, Side::Right));
            assert(one_paddle_per_side(s1)) by {
                assert forall|i: int, j: int|
                    0 <= i < s1.len() && 0 <= j < s1.len() && (#[trigger] s1[i]).paddle is Some
                        && (#[trigger] s1[j]).paddle is Some
                        && s1[i].paddle->0.side == s1[j].paddle->0.side implies i == j by {
                    assert(i != bi && j != bi);
                    assert(s1[i] == s0[i] && s1[j] == s0[j]);
                }
            }
            assert forall|i: int| 0 <= i < s1.len() implies standard_paddle(#[trigger] s1[i])
                && standard_ball(s1[i]) && (s1[i].position is Some ==> s1[i].paddle is Some
                || s1[i].ball is Some) by {
                if i != bi {
                    assert(s1[i] == s0[i]);
                    assert(s0[i].ball is Some ==> i == bi);
                }
            }
        } else {
            assert(ball_updated(s0[bi], s1[bi], b1));
            assert forall|i: int| 0 <= i < s1.len() && i != bi implies s1[i]
                == (#[trigger] s0[i]) by {}
            assert(s1[bi].paddle is None);
            let li = choose|i: int|
                0 <= i < s0.len() && (#[trigger] s0[i]).paddle is Some
                    && s0[i].paddle->0.side == Side::Left;
            assert(li != bi && s1[li] == s0[li]);
            assert(has_paddle_on(s1, Side::Left));
            let ri = choose|i: int|
                0 <= i < s0.len() && (#[trigger] s0[i]).paddle is Some
                    && s0[i].paddle->0.side == Side::Right;
            assert(ri != bi && s1[ri] == s0[ri]);
            assert(has_paddle_on(s1, Side::Right));
            assert(one_paddle_per_side(s1)) by {
                assert forall|i: int, j: int|
                    0 <= i < s1.len() && 0 <= j < s1.len() && (#[trigger] s1[i]).paddle is Some
                        && (#[trigger] s1[j]).paddle is Some
                        && s1[i].paddle->0.side == s1[j].paddle->0.side implies i == j by {
                    assert(i != bi && j != bi);
                    assert(s1[i] == s0[i] && s1[j] == s0[j]);
                }
            }
            assert(at_most_one_ball(s1)) by {
                assert forall|i: int, j: int|
                    0 <= i < s1.len() && 0 <= j < s1.len() && (#[trigger] s1[i]).ball is Some
                        && (#[trigger] s1[j]).ball is Some implies i == j by {
                    if i != bi {
                        assert(s1[i] == s0[i]);
                        assert(i == bi);
                    }
                    if j != bi {
                        assert(s1[j] == s0[j]);
                        assert(j == bi);
                    }
                }
            }
            assert(!oob_left(b1) && !oob_right(b1));
            assert forall|i: int| 0 <= i < s1.len() implies standard_paddle(#[trigger] s1[i])
                && standard_ball(s1[i]) && (s1[i].position is Some ==> s1[i].paddle is Some
                || s1[i].ball is Some) by {
                if i != bi {
                    assert(s1[i] == s0[i]);
                    assert(s0[i].ball is Some ==> i == bi);
                } else {
                    assert(b1.radius == b0.radius);
                }
            }
            assert(!no_ball(s1)) by {
                assert(s1[bi].ball is Some);
            }
            assert(!no_ball(s0));
        }
    }
}

impl Pong {
    /// One simulation tick: Spawner, then PaddleSystem, then MoveBallsSystem,
    /// then BounceSystem, on the shared store; finally the spawner re-arms
    /// with the full delay if the ball was destroyed. Returns the side of the
    /// boundary the ball crossed when it left the arena this tick.
    pub fn tick(&mut self, store: &mut Store, dt: i64, axis_left: i64, axis_right: i64) -> (ev: Option<
        Side,
    >)
        requires
            old(store).wf(),
            session_state_wf(old(self).ball_spawn_timer, old(store).ents()),
            0 <= dt <= DT_MAX,
            -AXIS_ONE <= axis_left <= AXIS_ONE,
            -AXIS_ONE <= axis_right <= AXIS_ONE,
        ensures
            final(store).wf(),
            session_state_wf(final(self).ball_spawn_timer, final(store).ents()),
            exists|t1: Option<i64>, s1: Seq<Entity>, s2: Seq<Entity>, s3: Seq<Entity>|
                {
                    &&& #[trigger] spawner_rel(
                        old(self).ball_spawn_timer,
                        old(store).ents(),
                        t1,
                        s1,
                        dt as int,
                    )
                    &&& #[trigger] paddle_rel(s1, s2, axis_left as int, axis_right as int, dt as int)
                    &&& #[trigger] move_rel(s2, s3, dt as int)
                    &&& bounce_rel(s3, final(store).ents(), ev)
                    &&& final(self).ball_spawn_timer == (if ev is Some {
                        Some(SPAWN_DELAY)
                    } else {
                        t1
                    })
                },
            ev is Some ==> no_ball(final(store).ents()) && final(self).ball_spawn_timer == Some(
                SPAWN_DELAY,
            ),
    {
        let ghost t0g = self.ball_spawn_timer;
        let ghost s0g = store.ents();
        self.update(store, dt);
        let ghost t1g = self.ball_spawn_timer;
        let ghost s1g = store.ents();
        proof {
            lemma_spawner_preserves(t0g, s0g, t1g, s1g, dt as int);
            assert forall|i: int|
                0 <= i < s1g.len() && is_paddle_ent(#[trigger] s1g[i]) implies s1g[i].paddle->0.wf()
                && s1g[i].position->0.bounded() by {
                assert(standard_paddle(s1g[i]));
            }
        }
        paddle_system(store, axis_left, axis_right, dt);
        let ghost s2g = store.ents();
        proof {
            lemma_paddle_preserves(t1g, s1g, s2g, axis_left as int, axis_right as int, dt as int);
            assert forall|i: int|
                0 <= i < s2g.len() && (#[trigger] s2g[i]).ball is Some implies s2g[i].ball->0.wf() by {
                assert(standard_ball(s2g[i]));
            }
            assert forall|i: int|
                0 <= i < s2g.len() && (#[trigger] s2g[i]).position is Some implies s2g[i].position->0.bounded() by {
                if s2g[i].paddle is Some {
                    assert(standard_paddle(s2g[i]));
                } else {
                    assert(s2g[i].ball is Some);
                    assert(standard_ball(s2g[i]));
                }
            }
        }
        move_balls_system(store, dt);
        let ghost s3g = store.ents();
        proof {
            lemma_move_preserves(t1g, s2g, s3g, dt as int);
            assert forall|i: int|
                0 <= i < s3g.len() && (#[trigger] s3g[i]).ball is Some implies s3g[i].position is Some
                && s3g[i].ball->0.wf() by {
                assert(mid_ball_ok(s3g[i]));
            }
            assert forall|i: int|
                0 <= i < s3g.len() && is_paddle_ent(#[trigger] s3g[i]) implies s3g[i].paddle->0.wf() by {
                assert(standard_paddle(s3g[i]));
            }
        }
        let ev = bounce_system(store);
        let ghost s4g = store.ents();
        proof {
            lemma_bounce_preserves(s3g, s4g, ev);
        }
        if ev.is_some() {
            self.ball_spawn_timer = Some(SPAWN_DELAY);
        }
        proof {
            if ev is None {
                lemma_no_ball_same(s1g, s2g);
                lemma_no_ball_same(s2g, s3g);
            }
        }
        ev
    }
}

} // verus!
