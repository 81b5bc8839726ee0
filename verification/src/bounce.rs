//! BounceSystem: detects ball-wall and ball-paddle overlap, reflects the
//! ball's velocity, and removes the ball once it reaches past the left or
//! right edge of the arena.
//!
//! For the ball (if present) the tests run in a fixed order: top/bottom wall,
//! then every paddle in creation order, then out-of-bounds removal. A wall
//! flips the vertical velocity on any contact and pushes the ball strictly
//! back inside the bounds, so the contact is gone afterwards; a paddle only
//! reflects a ball that is moving towards it. Either way, running the system
//! twice in the same tick changes nothing the second time.

use vstd::prelude::*;
use crate::arena::{clamp_spec, clamp64, half, ARENA_HEIGHT, ARENA_WIDTH, POS_ROOM, VEL_LIMIT};
use crate::components::{ball_view, paddle_view, Ball, BallView, PaddleView, Position, Side};
use crate::store::{at_most_one_ball, cleared, is_paddle_ent, no_ball, the_ball_index, Entity, Store};

verus! {

/// The ball touches or crosses the bottom wall.
pub open spec fn hits_bottom(b: BallView) -> bool {
    b.y - b.radius <= 0
}

/// The ball touches or crosses the top wall.
pub open spec fn hits_top(b: BallView) -> bool {
    b.y + b.radius >= ARENA_HEIGHT
}

/// The wall test: on any contact the vertical velocity is reflected and the
/// ball is clamped strictly back inside the bounds, so the contact condition
/// no longer holds afterwards.
pub open spec fn wall_view(b: BallView) -> BallView {
    if hits_bottom(b) || hits_top(b) {
        BallView {
            x: b.x,
            y: clamp_spec(b.y, b.radius + 1, ARENA_HEIGHT - b.radius - 1),
            vx: b.vx,
            vy: -b.vy,
            radius: b.radius,
        }
    } else {
        b
    }
}

/// Axis-aligned overlap between the ball's bounding square and the paddle's
/// rectangle.
pub open spec fn paddle_overlaps(b: BallView, p: PaddleView) -> bool {
    &&& p.x - p.width / 2 - b.radius <= b.x <= p.x + p.width / 2 + b.radius
    &&& p.y - p.height / 2 - b.radius <= b.y <= p.y + p.height / 2 + b.radius
}

/// One paddle test: on overlap the horizontal velocity is reflected, but only
/// when the ball moves towards that paddle's side.
pub open spec fn reflect_view(b: BallView, p: PaddleView) -> BallView {
    if paddle_overlaps(b, p) && ((p.side == Side::Left && b.vx < 0) || (p.side == Side::Right && b.vx > 0)) {
        BallView { x: b.x, y: b.y, vx: -b.vx, vy: b.vy, radius: b.radius }
    } else {
        b
    }
}

/// The paddle tests folded over the paddles in order.
pub open spec fn reflect_all(b: BallView, ps: Seq<PaddleView>) -> BallView
    decreases ps.len(),
{
    if ps.len() == 0 {
        b
    } else {
        reflect_view(reflect_all(b, ps.drop_last()), ps.last())
    }
}

/// The whole bounce response of one tick: wall test, then the paddle tests.
pub open spec fn bounce_view(b: BallView, ps: Seq<PaddleView>) -> BallView {
    reflect_all(wall_view(b), ps)
}

/// The ball sticks out past the left edge of the arena.
pub open spec fn oob_left(b: BallView) -> bool {
    b.x - b.radius < 0
}

/// The ball sticks out past the right edge of the arena.
pub open spec fn oob_right(b: BallView) -> bool {
    b.x + b.radius > ARENA_WIDTH
}

/// The paddles of the store, joined with their positions, in creation order.
pub open spec fn paddles_of(s: Seq<Entity>) -> Seq<PaddleView>
    decreases s.len(),
{
    if s.len() == 0 {
        Seq::empty()
    } else {
        paddles_of(s.drop_last()) + if is_paddle_ent(s.last()) {
            seq![paddle_view(s.last().paddle->0, s.last().position->0)]
        } else {
            Seq::empty()
        }
    }
}

/// The ball entity after a bounce that kept the ball: same identifier and
/// paddle, ball and position carrying the bounced view `b`.
pub open spec fn ball_updated(e0: Entity, e: Entity, b: BallView) -> bool {
    &&& e.id == e0.id
    &&& e.paddle == e0.paddle
    &&& e.ball matches Some(nb) && nb.radius == e0.ball->0.radius && nb.vx == b.vx && nb.vy == b.vy
    &&& e.position matches Some(np) && np.x == b.x && np.y == b.y
}

/// The whole store, after one run of the bounce system that returned `ev`.
pub open spec fn bounce_rel(s0: Seq<Entity>, s: Seq<Entity>, ev: Option<Side>) -> bool {
    if no_ball(s0) {
        s == s0 && ev is None
    } else {
        let i = the_ball_index(s0);
        let b1 = bounce_view(ball_view(s0[i].ball->0, s0[i].position->0), paddles_of(s0));
        if oob_left(b1) {
            ev == Some(Side::Left) && s == s0.update(i, cleared(s0[i].id))
        } else if oob_right(b1) {
            ev == Some(Side::Right) && s == s0.update(i, cleared(s0[i].id))
        } else {
            &&& ev is None
            &&& s.len() == s0.len()
            &&& forall|j: int| 0 <= j < s0.len() && j != i ==> s[j] == s0[j]
            &&& ball_updated(s0[i], s[i], b1)
        }
    }
}

/// `paddles_of` over a one-longer prefix grows by at most the paddle at the
/// new index.
proof fn lemma_paddles_of_take_step(s: Seq<Entity>, k: int)
    requires
        0 <= k < s.len(),
    ensures
        paddles_of(s.take(k + 1)) == (if is_paddle_ent(s[k]) {
            paddles_of(s.take(k)).push(paddle_view(s[k].paddle->0, s[k].position->0))
        } else {
            paddles_of(s.take(k))
        }),
{
    let t = s.take(k + 1);
    assert(t.drop_last() =~= s.take(k));
    assert(t.last() == s[k]);
    if is_paddle_ent(s[k]) {
        assert(paddles_of(s.take(k)) + seq![paddle_view(s[k].paddle->0, s[k].position->0)]
            =~= paddles_of(s.take(k)).push(paddle_view(s[k].paddle->0, s[k].position->0)));
    } else {
        assert(paddles_of(s.take(k)) + Seq::<PaddleView>::empty() =~= paddles_of(s.take(k)));
    }
}

/// Folding over one more paddle is one more paddle test.
proof fn lemma_reflect_all_push(b: BallView, ps: Seq<PaddleView>, p: PaddleView)
    ensures
        reflect_all(b, ps.push(p)) == reflect_view(reflect_all(b, ps), p),
{
    let q = ps.push(p);
    assert(q.drop_last() =~= ps);
    assert(q.last() == p);
}

/// The paddle tests leave everything but the sign of `vx` unchanged.
proof fn lemma_reflect_all_frame(b: BallView, ps: Seq<PaddleView>)
    ensures
        reflect_all(b, ps).x == b.x,
        reflect_all(b, ps).y == b.y,
        reflect_all(b, ps).radius == b.radius,
        reflect_all(b, ps).vy == b.vy,
        reflect_all(b, ps).vx == b.vx || reflect_all(b, ps).vx == -b.vx,
    decreases ps.len(),
{
    if ps.len() == 0 {
    } else {
        lemma_reflect_all_frame(b, ps.drop_last());
    }
}

/// Two balls that differ at most in the sign of `vx`.
spec fn same_but_vx(a: BallView, b: BallView) -> bool {
    &&& a.x == b.x
    &&& a.y == b.y
    &&& a.radius == b.radius
    &&& a.vy == b.vy
    &&& (a.vx == b.vx || a.vx == -b.vx)
}

/// On two balls that differ at most in the sign of `vx`, the paddle tests
/// either agree on the outcome or leave both balls untouched.
proof fn lemma_reflect_all_stable(ps: Seq<PaddleView>, a: BallView, b: BallView)
    requires
        same_but_vx(a, b),
    ensures
        reflect_all(a, ps) == reflect_all(b, ps) || (reflect_all(a, ps) == a && reflect_all(b, ps) == b),
    decreases ps.len(),
{
    if ps.len() == 0 {
    } else {
        let ps0 = ps.drop_last();
        let p = ps.last();
        lemma_reflect_all_stable(ps0, a, b);
        let ra = reflect_all(a, ps0);
        let rb = reflect_all(b, ps0);
        if ra == rb {
        } else {
            lemma_reflect_all_frame(a, ps0);
            lemma_reflect_all_frame(b, ps0);
            if paddle_overlaps(a, p) && a.vx != b.vx {
                if (p.side == Side::Left && a.vx < 0) || (p.side == Side::Right && a.vx > 0) {
                    assert(reflect_view(a, p) == (BallView { x: a.x, y: a.y, vx: -a.vx, vy: a.vy, radius: a.radius }));
                    assert(reflect_view(a, p) == b);
                    assert(reflect_view(b, p) == b);
                } else if (p.side == Side::Left && b.vx < 0) || (p.side == Side::Right && b.vx > 0) {
                    assert(reflect_view(b, p) == a);
                    assert(reflect_view(a, p) == a);
                }
            }
        }
    }
}

/// After a wall response, a second wall test changes nothing: the ball sits
/// strictly inside the bounds, so neither wall is in contact any more.
proof fn lemma_wall_stable(b: BallView, c: BallView)
    requires
        0 <= b.radius,
        2 * b.radius + 2 <= ARENA_HEIGHT,
        c.y == wall_view(b).y,
        c.vy == wall_view(b).vy,
        c.radius == b.radius,
    ensures
        wall_view(c) == c,
{
}

/// Velocity magnitudes on both axes are invariant across a bounce: only the
/// signs may change, and the radius never does.
pub proof fn lemma_bounce_preserves_speed(b: BallView, ps: Seq<PaddleView>)
    ensures
        bounce_view(b, ps).vx == b.vx || bounce_view(b, ps).vx == -b.vx,
        bounce_view(b, ps).vy == b.vy || bounce_view(b, ps).vy == -b.vy,
        bounce_view(b, ps).radius == b.radius,
{
    lemma_reflect_all_frame(wall_view(b), ps);
}

/// A bounce never moves the ball horizontally, and leaves it vertically
/// between the two walls.
pub proof fn lemma_bounce_in_bounds(b: BallView, ps: Seq<PaddleView>)
    requires
        0 <= b.radius,
        2 * b.radius + 2 <= ARENA_HEIGHT,
    ensures
        bounce_view(b, ps).x == b.x,
        b.radius <= bounce_view(b, ps).y <= ARENA_HEIGHT - b.radius,
{
    lemma_reflect_all_frame(wall_view(b), ps);
}

/// Running the bounce response twice on the same state gives the state a
/// single run gives: the wall response removes the wall contact, and the
/// directional paddle guards stop a second reflection.
pub proof fn lemma_bounce_idempotent(b: BallView, ps: Seq<PaddleView>)
    requires
        0 <= b.radius,
        2 * b.radius + 2 <= ARENA_HEIGHT,
    ensures
        bounce_view(bounce_view(b, ps), ps) == bounce_view(b, ps),
{
    let w1 = wall_view(b);
    let a1 = reflect_all(w1, ps);
    lemma_reflect_all_frame(w1, ps);
    lemma_wall_stable(b, a1);
    assert(wall_view(a1) == a1);
    lemma_reflect_all_stable(ps, a1, w1);
}

/// Two stores whose entities carry the same paddles (with the same positions
/// where a paddle exists) present the same paddles to the ball.
proof fn lemma_paddles_of_same(s: Seq<Entity>, t: Seq<Entity>)
    requires
        s.len() == t.len(),
        forall|j: int| 0 <= j < s.len() ==> (#[trigger] s[j]).paddle == t[j].paddle
            && (s[j].paddle is Some ==> s[j].position == t[j].position),
    ensures
        paddles_of(s) == paddles_of(t),
    decreases s.len(),
{
    if s.len() == 0 {
    } else {
        lemma_paddles_of_same(s.drop_last(), t.drop_last());
        assert(s.last() == s[s.len() - 1] && t.last() == t[t.len() - 1]);
    }
}

/// Running the bounce system twice in the same tick, with no intervening
/// movement, changes nothing the second time: neither the store nor the
/// reported event. This is the store-level form of `lemma_bounce_idempotent`.
pub proof fn lemma_bounce_rel_idempotent(
    s0: Seq<Entity>,
    s1: Seq<Entity>,
    s2: Seq<Entity>,
    ev1: Option<Side>,
    ev2: Option<Side>,
)
    requires
        at_most_one_ball(s0),
        forall|i: int| 0 <= i < s0.len() && (#[trigger] s0[i]).ball is Some
            ==> s0[i].position is Some && s0[i].paddle is None && 0 <= s0[i].ball->0.radius
                && 2 * s0[i].ball->0.radius + 2 <= ARENA_HEIGHT,
        bounce_rel(s0, s1, ev1),
        bounce_rel(s1, s2, ev2),
    ensures
        s2 == s1,
        ev2 is None,
{
    if no_ball(s0) {
        assert(s1 == s0);
        assert(no_ball(s1));
    } else {
        let i = the_ball_index(s0);
        assert(0 <= i < s0.len() && s0[i].ball is Some);
        let b0 = ball_view(s0[i].ball->0, s0[i].position->0);
        let ps = paddles_of(s0);
        let b1 = bounce_view(b0, ps);
        if oob_left(b1) || oob_right(b1) {
            assert(s1 == s0.update(i, cleared(s0[i].id)));
            assert(no_ball(s1)) by {
                assert forall|j: int| 0 <= j < s1.len() implies (#[trigger] s1[j]).ball is None by {
                    if j != i {
                        assert(s1[j] == s0[j]);
                        if s0[j].ball is Some {
                            assert(j == i);
                        }
                    }
                }
            }
        } else {
            assert(ball_updated(s0[i], s1[i], b1));
            assert(at_most_one_ball(s1)) by {
                assert forall|x: int, j: int|
                    0 <= x < s1.len() && 0 <= j < s1.len() && (#[trigger] s1[x]).ball is Some
                        && (#[trigger] s1[j]).ball is Some implies x == j by {
                    if x != i {
                        assert(s1[x] == s0[x]);
                        assert(x == i);
                    }
                    if j != i {
                        assert(s1[j] == s0[j]);
                        assert(j == i);
                    }
                }
            }
            assert(!no_ball(s1)) by {
                assert(s1[i].ball is Some);
            }
            let i1 = the_ball_index(s1);
            assert(0 <= i1 < s1.len() && s1[i1].ball is Some);
            assert(i1 == i);
            lemma_paddles_of_same(s1, s0);
            lemma_bounce_preserves_speed(b0, ps);
            let c0 = ball_view(s1[i].ball->0, s1[i].position->0);
            assert(c0 == b1);
            lemma_bounce_idempotent(b0, ps);
            assert(bounce_view(c0, paddles_of(s1)) == b1);
            assert(!oob_left(b1) && !oob_right(b1));
            assert(ev2 is None);
            assert(ball_updated(s1[i], s2[i], b1));
            assert forall|j: int| 0 <= j < s2.len() implies s2[j] == s1[j] by {
                if j == i {
                    assert(s2[i].ball->0 == s1[i].ball->0);
                    assert(s2[i].position->0 == s1[i].position->0);
                }
            }
            assert(s2 =~= s1);
        }
        if no_ball(s1) {
            assert(s2 == s1);
        }
    }
}

/// BounceSystem: wall reflection, paddle reflection, then out-of-bounds
/// removal for the ball entity, if one exists. Returns the side of the
/// boundary the ball crossed when it was destroyed.
pub fn bounce_system(store: &mut Store) -> (ev: Option<Side>)
    requires
        old(store).wf(),
        at_most_one_ball(old(store).ents()),
        forall|i: int| 0 <= i < old(store).ents().len()
            && (#[trigger] old(store).ents()[i]).ball is Some
            ==> old(store).ents()[i].position is Some && old(store).ents()[i].ball->0.wf(),
        forall|i: int| 0 <= i < old(store).ents().len()
            && is_paddle_ent(#[trigger] old(store).ents()[i])
            ==> old(store).ents()[i].paddle->0.wf(),
        forall|i: int| 0 <= i < old(store).ents().len()
            && (#[trigger] old(store).ents()[i]).position is Some
            ==> old(store).ents()[i].position->0.bounded_within(POS_ROOM as int),
    ensures
        final(store).wf(),
        at_most_one_ball(final(store).ents()),
        bounce_rel(old(store).ents(), final(store).ents(), ev),
{
    let ghost s0 = old(store).ents();
    let found = store.find_ball();
    match found {
        None => {
            None
        }
        Some(f) => {
            proof {
                assert(s0[f as int].ball is Some);
                let i = the_ball_index(s0);
                assert(0 <= i < s0.len() && s0[i].ball is Some);
                assert(i == f as int);
            }
            let e = store.entities[f];
            let b = e.ball.unwrap();
            let p = e.position.unwrap();
            let r = b.radius;
            let ghost b0 = ball_view(b, p);
            // wall test
            let hb = p.y - r <= 0;
            let ht = p.y + r >= ARENA_HEIGHT;
            let mut vy = b.vy;
            let mut y = p.y;
            if hb || ht {
                vy = -vy;
                y = clamp64(y, r + 1, ARENA_HEIGHT - r - 1);
            }
            let ghost w1 = wall_view(b0);
            assert(w1 == (BallView { x: p.x as int, y: y as int, vx: b.vx as int, vy: vy as int, radius: r as int }));
            // paddle tests, in creation order
            let mut vx = b.vx;
            let n = store.entities.len();
            let mut k: usize = 0;
            while k < n
                invariant
                    k <= n,
                    n == store.ents().len(),
                    store.ents() == s0,
                    store.wf(),
                    -VEL_LIMIT <= vx <= VEL_LIMIT,
                    forall|i: int| 0 <= i < n && is_paddle_ent(#[trigger] s0[i]) ==> s0[i].paddle->0.wf(),
                    forall|i: int| 0 <= i < n && (#[trigger] s0[i]).position is Some
                        ==> s0[i].position->0.bounded_within(POS_ROOM as int),
                    0 <= r < ARENA_HEIGHT,
                    -POS_ROOM <= p.x <= POS_ROOM,
                    -POS_ROOM <= y <= POS_ROOM,
                    (BallView { x: p.x as int, y: y as int, vx: vx as int, vy: vy as int, radius: r as int })
                        == reflect_all(w1, paddles_of(s0.take(k as int))),
                decreases n - k,
            {
                let pe = store.entities[k];
                proof {
                    lemma_paddles_of_take_step(s0, k as int);
                }
                match (pe.paddle, pe.position) {
                    (Some(pd), Some(pp)) => {
                        let wh = half(pd.width);
                        let hh = half(pd.height);
                        let xlo = pp.x - wh - r;
                        let xhi = pp.x + wh + r;
                        let ylo = pp.y - hh - r;
                        let yhi = pp.y + hh + r;
                        let overlap = xlo <= p.x && p.x <= xhi && ylo <= y && y <= yhi;
                        proof {
                            lemma_reflect_all_push(
                                w1,
                                paddles_of(s0.take(k as int)),
                                paddle_view(pd, pp),
                            );
                        }
                        if overlap && ((pd.side == Side::Left && vx < 0) || (pd.side == Side::Right && vx > 0)) {
                            vx = -vx;
                        }
                    }
                    _ => {}
                }
                k = k + 1;
            }
            proof {
                assert(s0.take(n as int) =~= s0);
            }
            let ghost b1 = bounce_view(b0, paddles_of(s0));
            assert(b1 == (BallView { x: p.x as int, y: y as int, vx: vx as int, vy: vy as int, radius: r as int }));
            // out-of-bounds removal
            if p.x - r < 0 {
                store.destroy(e.id);
                proof {
                    assert(store.ents() =~= s0.update(f as int, cleared(s0[f as int].id)));
                }
                Some(Side::Left)
            } else if p.x + r > ARENA_WIDTH {
                store.destroy(e.id);
                proof {
                    assert(store.ents() =~= s0.update(f as int, cleared(s0[f as int].id)));
                }
                Some(Side::Right)
            } else {
                store.entities.set(
                    f,
                    Entity {
                        id: e.id,
                        paddle: e.paddle,
                        ball: Some(Ball { vx, vy, radius: r }),
                        position: Some(Position { x: p.x, y }),
                    },
                );
                None
            }
        }
    }
}

} // verus!
