//! PaddleSystem: maps the per-tick input axis of each side to a new paddle
//! height, clamped to the arena. The input is a scalar in `[-1, 1]` scaled by
//! `AXIS_ONE` (negative moves down, positive moves up); a missing input is
//! the caller's zero.

use vstd::prelude::*;
use crate::arena::{axis_disp, axis_disp64, clamp_spec, clamp64, half, ARENA_HEIGHT, AXIS_ONE, DT_MAX};
use crate::components::{Position, Side};
use crate::store::{is_paddle_ent, Entity, Store};

verus! {

/// The input axis that steers a paddle of the given side.
pub open spec fn axis_for(side: Side, axis_left: int, axis_right: int) -> int {
    if side == Side::Left {
        axis_left
    } else {
        axis_right
    }
}

/// The height a paddle reaches in one tick: the displaced height, clamped so
/// the paddle stays inside the arena.
pub open spec fn new_paddle_y(y0: int, axis: int, dt: int, h: int) -> int {
    clamp_spec(y0 + axis_disp(axis, dt), h / 2, ARENA_HEIGHT - h / 2)
}

/// What one tick of the paddle system does to one entity: an entity with a
/// paddle and a position moves to its new height; every other entity is
/// untouched.
pub open spec fn paddle_stepped(e0: Entity, e: Entity, axis_left: int, axis_right: int, dt: int) -> bool {
    if is_paddle_ent(e0) {
        &&& e.id == e0.id
        &&& e.paddle == e0.paddle
        &&& e.ball == e0.ball
        &&& e.position matches Some(p) && {
            let pd = e0.paddle->0;
            let p0 = e0.position->0;
            p.x == p0.x && p.y == new_paddle_y(p0.y as int, axis_for(pd.side, axis_left, axis_right), dt, pd.height as int)
        }
    } else {
        e == e0
    }
}

/// The whole store, after one tick of the paddle system.
pub open spec fn paddle_rel(s0: Seq<Entity>, s: Seq<Entity>, axis_left: int, axis_right: int, dt: int) -> bool {
    &&& s.len() == s0.len()
    &&& forall|i: int| 0 <= i < s0.len() ==> paddle_stepped(#[trigger] s0[i], s[i], axis_left, axis_right, dt)
}

/// PaddleSystem: `new_y = clamp(old_y + input * speed * dt, h/2, ARENA_HEIGHT - h/2)`.
///
/// Whatever the input, every paddle ends the tick with its centre inside
/// `[h/2, ARENA_HEIGHT - h/2]`.
pub fn paddle_system(store: &mut Store, axis_left: i64, axis_right: i64, dt: i64)
    requires
        old(store).wf(),
        -AXIS_ONE <= axis_left <= AXIS_ONE,
        -AXIS_ONE <= axis_right <= AXIS_ONE,
        0 <= dt <= DT_MAX,
        forall|i: int| 0 <= i < old(store).ents().len()
            && is_paddle_ent(#[trigger] old(store).ents()[i])
            ==> old(store).ents()[i].paddle->0.wf() && old(store).ents()[i].position->0.bounded(),
    ensures
        final(store).wf(),
        paddle_rel(old(store).ents(), final(store).ents(), axis_left as int, axis_right as int, dt as int),
        forall|i: int| 0 <= i < final(store).ents().len()
            && is_paddle_ent(#[trigger] final(store).ents()[i])
            ==> {
                let h = final(store).ents()[i].paddle->0.height as int;
                h / 2 <= final(store).ents()[i].position->0.y <= ARENA_HEIGHT - h / 2
            },
{
    let n = store.entities.len();
    let mut k: usize = 0;
    while k < n
        invariant
            k <= n,
            n == store.ents().len(),
            store.ents().len() == old(store).ents().len(),
            store.wf(),
            -AXIS_ONE <= axis_left <= AXIS_ONE,
            -AXIS_ONE <= axis_right <= AXIS_ONE,
            0 <= dt <= DT_MAX,
            forall|i: int| 0 <= i < n && is_paddle_ent(#[trigger] old(store).ents()[i])
                ==> old(store).ents()[i].paddle->0.wf() && old(store).ents()[i].position->0.bounded(),
            forall|i: int| 0 <= i < k
                ==> paddle_stepped(#[trigger] old(store).ents()[i], store.ents()[i], axis_left as int, axis_right as int, dt as int),
            forall|i: int| k <= i < n ==> store.ents()[i] == old(store).ents()[i],
            forall|i: int| 0 <= i < k && is_paddle_ent(#[trigger] store.ents()[i])
                ==> {
                    let h = store.ents()[i].paddle->0.height as int;
                    h / 2 <= store.ents()[i].position->0.y <= ARENA_HEIGHT - h / 2
                },
        decreases n - k,
    {
        let e = store.entities[k];
        match (e.paddle, e.position) {
            (Some(pd), Some(p0)) => {
                let axis = if pd.side == Side::Left {
                    axis_left
                } else {
                    axis_right
                };
                let d = axis_disp64(axis, dt);
                let lo = half(pd.height);
                let hi = ARENA_HEIGHT - lo;
                let y1 = clamp64(p0.y + d, lo, hi);
                store.entities.set(
                    k,
                    Entity { id: e.id, paddle: e.paddle, ball: e.ball, position: Some(Position { x: p0.x, y: y1 }) },
                );
            }
            _ => {}
        }
        k = k + 1;
    }
}

} // verus!
