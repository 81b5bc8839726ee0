//! MoveBallsSystem: integrates the ball's position from its velocity and the
//! elapsed tick duration. Pure integration, no clamping; it runs before the
//! bounce system each tick, so collisions are tested against the post-move
//! position (discrete collision detection).

use vstd::prelude::*;
use crate::arena::{DT_MAX, POS_LIMIT, POS_ROOM, VEL_LIMIT};
use crate::components::Position;
use crate::store::{is_ball_ent, Entity, Store};

verus! {

/// What one tick of movement does to one entity: an entity with a ball and a
/// position advances by `velocity * dt`; every other entity is untouched.
pub open spec fn move_stepped(e0: Entity, e: Entity, dt: int) -> bool {
    if is_ball_ent(e0) {
        &&& e.id == e0.id
        &&& e.paddle == e0.paddle
        &&& e.ball == e0.ball
        &&& e.position matches Some(p) && {
            let b = e0.ball->0;
            let p0 = e0.position->0;
            p.x == p0.x + b.vx * dt && p.y == p0.y + b.vy * dt
        }
    } else {
        e == e0
    }
}

/// The whole store, after one tick of movement.
pub open spec fn move_rel(s0: Seq<Entity>, s: Seq<Entity>, dt: int) -> bool {
    &&& s.len() == s0.len()
    &&& forall|i: int| 0 <= i < s0.len() ==> move_stepped(#[trigger] s0[i], s[i], dt)
}

/// MoveBallsSystem: `position' = position + velocity * dt` for the ball.
pub fn move_balls_system(store: &mut Store, dt: i64)
    requires
        old(store).wf(),
        0 <= dt <= DT_MAX,
        forall|i: int| 0 <= i < old(store).ents().len()
            && (#[trigger] old(store).ents()[i]).ball is Some ==> old(store).ents()[i].ball->0.wf(),
        forall|i: int| 0 <= i < old(store).ents().len()
            && (#[trigger] old(store).ents()[i]).position is Some
            ==> old(store).ents()[i].position->0.bounded(),
    ensures
        final(store).wf(),
        move_rel(old(store).ents(), final(store).ents(), dt as int),
        forall|i: int| 0 <= i < final(store).ents().len()
            && (#[trigger] final(store).ents()[i]).position is Some
            ==> final(store).ents()[i].position->0.bounded_within(POS_ROOM as int),
{
    let n = store.entities.len();
    let mut k: usize = 0;
    while k < n
        invariant
            k <= n,
            n == store.ents().len(),
            store.ents().len() == old(store).ents().len(),
            store.wf(),
            0 <= dt <= DT_MAX,
            forall|i: int| 0 <= i < n && (#[trigger] old(store).ents()[i]).ball is Some
                ==> old(store).ents()[i].ball->0.wf(),
            forall|i: int| 0 <= i < n && (#[trigger] old(store).ents()[i]).position is Some
                ==> old(store).ents()[i].position->0.bounded(),
            forall|i: int| 0 <= i < k ==> move_stepped(#[trigger] old(store).ents()[i], store.ents()[i], dt as int),
            forall|i: int| k <= i < n ==> store.ents()[i] == old(store).ents()[i],
            forall|i: int| 0 <= i < k && (#[trigger] store.ents()[i]).position is Some
                ==> store.ents()[i].position->0.bounded_within(POS_ROOM as int),
        decreases n - k,
    {
        let e = store.entities[k];
        match (e.ball, e.position) {
            (Some(b), Some(p0)) => {
                assert(b.vx * dt <= VEL_LIMIT * DT_MAX && b.vx * dt >= -VEL_LIMIT * DT_MAX)
                    by (nonlinear_arith)
                    requires
                        -VEL_LIMIT <= b.vx <= VEL_LIMIT,
                        0 <= dt <= DT_MAX,
                ;
                assert(b.vy * dt <= VEL_LIMIT * DT_MAX && b.vy * dt >= -VEL_LIMIT * DT_MAX)
                    by (nonlinear_arith)
                    requires
                        -VEL_LIMIT <= b.vy <= VEL_LIMIT,
                        0 <= dt <= DT_MAX,
                ;
                let x1 = p0.x + b.vx * dt;
                let y1 = p0.y + b.vy * dt;
                store.entities.set(
                    k,
                    Entity { id: e.id, paddle: e.paddle, ball: e.ball, position: Some(Position { x: x1, y: y1 }) },
                );
            }
            _ => {}
        }
        k = k + 1;
    }
}

} // verus!
