//! The entity/component store: the container owning all entities and
//! components of one game session.
//!
//! Entities are created in order and an entity's identifier equals its
//! creation index. Destroying an entity removes all of its components; the
//! identifier stays retired, so identifiers and iteration (creation) order
//! are stable for the whole session. A component is mutated by attaching a
//! replacement over it.

use vstd::prelude::*;
use crate::components::{Ball, Paddle, Position};

verus! {

/// One record of the store: an identifier and the entity's optional components.
#[derive(Clone, Copy, Debug, PartialEq)]
pub struct Entity {
    pub id: u64,
    pub paddle: Option<Paddle>,
    pub ball: Option<Ball>,
    pub position: Option<Position>,
}

/// An entity record with every component removed.
pub open spec fn cleared(id: u64) -> Entity {
    Entity { id, paddle: None, ball: None, position: None }
}

/// No two distinct entities carry a ball component: the store holds at most
/// one ball at any instant.
pub open spec fn at_most_one_ball(s: Seq<Entity>) -> bool {
    forall|i: int, j: int|
        0 <= i < s.len() && 0 <= j < s.len() && (#[trigger] s[i]).ball is Some
            && (#[trigger] s[j]).ball is Some ==> i == j
}

/// No entity carries a ball component.
pub open spec fn no_ball(s: Seq<Entity>) -> bool {
    forall|i: int| 0 <= i < s.len() ==> (#[trigger] s[i]).ball is None
}

/// The index of the entity holding the ball (meaningful when one exists).
pub open spec fn the_ball_index(s: Seq<Entity>) -> int {
    choose|i: int| 0 <= i < s.len() && (#[trigger] s[i]).ball is Some
}

/// An entity that the ball systems act on: it has a ball and a position.
pub open spec fn is_ball_ent(e: Entity) -> bool {
    e.ball is Some && e.position is Some
}

/// An entity that the paddle system acts on: it has a paddle and a position.
pub open spec fn is_paddle_ent(e: Entity) -> bool {
    e.paddle is Some && e.position is Some
}

/// The store. Systems receive it by reference from the tick driver; there is
/// no process-wide state.
pub struct Store {
    pub entities: Vec<Entity>,
}

impl Store {
    /// The mathematical contents of the store, in creation order.
    pub open spec fn ents(self) -> Seq<Entity> {
        self.entities@
    }

    /// Identifiers equal creation indices; entity records are never dropped,
    /// so this is stable.
    pub open spec fn wf(self) -> bool {
        forall|i: int| 0 <= i < self.ents().len() ==> (#[trigger] self.ents()[i]).id == i as u64
    }

    /// An empty store for a fresh session.
    pub fn new() -> (s: Store)
        ensures
            s.ents() =~= Seq::<Entity>::empty(),
            s.wf(),
    {
        Store { entities: Vec::new() }
    }

    /// How many entities were ever created in this store.
    pub fn entity_count(&self) -> (n: usize)
        ensures
            n == self.ents().len(),
    {
        self.entities.len()
    }

    /// Creates a fresh entity with no components and returns its identifier.
    pub fn create(&mut self) -> (id: u64)
        requires
            old(self).wf(),
        ensures
            final(self).wf(),
            id == old(self).ents().len(),
            final(self).ents() =~= old(self).ents().push(cleared(id)),
    {
        let id = self.entities.len() as u64;
        self.entities.push(Entity { id, paddle: None, ball: None, position: None });
        id
    }

    /// Attaches (or replaces) the paddle component of entity `id`.
    pub fn attach_paddle(&mut self, id: u64, p: Paddle)
        requires
            old(self).wf(),
            id < old(self).ents().len(),
        ensures
            final(self).wf(),
            final(self).ents() =~= old(self).ents().update(
                id as int,
                (Entity { paddle: Some(p), ..old(self).ents()[id as int] }),
            ),
    {
        let _n = self.entities.len();
        let i = id as usize;
        let e = self.entities[i];
        self.entities.set(i, Entity { id: e.id, paddle: Some(p), ball: e.ball, position: e.position });
    }

    /// Attaches (or replaces) the ball component of entity `id`.
    pub fn attach_ball(&mut self, id: u64, b: Ball)
        requires
            old(self).wf(),
            id < old(self).ents().len(),
        ensures
            final(self).wf(),
            final(self).ents() =~= old(self).ents().update(
                id as int,
                (Entity { ball: Some(b), ..old(self).ents()[id as int] }),
            ),
    {
        let _n = self.entities.len();
        let i = id as usize;
        let e = self.entities[i];
        self.entities.set(i, Entity { id: e.id, paddle: e.paddle, ball: Some(b), position: e.position });
    }

    /// Attaches (or replaces) the position component of entity `id`.
    pub fn attach_position(&mut self, id: u64, p: Position)
        requires
            old(self).wf(),
            id < old(self).ents().len(),
        ensures
            final(self).wf(),
            final(self).ents() =~= old(self).ents().update(
                id as int,
                (Entity { position: Some(p), ..old(self).ents()[id as int] }),
            ),
    {
        let _n = self.entities.len();
        let i = id as usize;
        let e = self.entities[i];
        self.entities.set(i, Entity { id: e.id, paddle: e.paddle, ball: e.ball, position: Some(p) });
    }

    /// The paddle component of entity `id`, if any.
    pub fn get_paddle(&self, id: u64) -> (r: Option<Paddle>)
        requires
            self.wf(),
        ensures
            r == (if id < self.ents().len() {
                self.ents()[id as int].paddle
            } else {
                None::<Paddle>
            }),
    {
        if id < self.entities.len() as u64 {
            self.entities[id as usize].paddle
        } else {
            None
        }
    }

    /// The ball component of entity `id`, if any.
    pub fn get_ball(&self, id: u64) -> (r: Option<Ball>)
        requires
            self.wf(),
        ensures
            r == (if id < self.ents().len() {
                self.ents()[id as int].ball
            } else {
                None::<Ball>
            }),
    {
        if id < self.entities.len() as u64 {
            self.entities[id as usize].ball
        } else {
            None
        }
    }

    /// The position component of entity `id`, if any.
    pub fn get_position(&self, id: u64) -> (r: Option<Position>)
        requires
            self.wf(),
        ensures
            r == (if id < self.ents().len() {
                self.ents()[id as int].position
            } else {
                None::<Position>
            }),
    {
        if id < self.entities.len() as u64 {
            self.entities[id as usize].position
        } else {
            None
        }
    }

    /// Removes the ball component of entity `id`, if it has one.
    pub fn remove_ball(&mut self, id: u64)
        requires
            old(self).wf(),
            id < old(self).ents().len(),
        ensures
            final(self).wf(),
            final(self).ents() =~= old(self).ents().update(
                id as int,
                (Entity { ball: None, ..old(self).ents()[id as int] }),
            ),
    {
        let _n = self.entities.len();
        let i = id as usize;
        let e = self.entities[i];
        self.entities.set(i, Entity { id: e.id, paddle: e.paddle, ball: None, position: e.position });
    }

    /// Removes every component of entity `id`; the identifier stays retired.
    pub fn destroy(&mut self, id: u64)
        requires
            old(self).wf(),
            id < old(self).ents().len(),
        ensures
            final(self).wf(),
            final(self).ents() =~= old(self).ents().update(id as int, cleared(id)),
    {
        let _n = self.entities.len();
        let i = id as usize;
        self.entities.set(i, Entity { id, paddle: None, ball: None, position: None });
    }

    /// The index of the first entity carrying a ball component, if any.
    pub fn find_ball(&self) -> (r: Option<usize>)
        ensures
            match r {
                Some(i) => i < self.ents().len() && self.ents()[i as int].ball is Some
                    && forall|j: int| 0 <= j < i ==> (#[trigger] self.ents()[j]).ball is None,
                None => no_ball(self.ents()),
            },
    {
        let n = self.entities.len();
        let mut k: usize = 0;
        while k < n
            invariant
                k <= n,
                n == self.ents().len(),
                forall|j: int| 0 <= j < k ==> (#[trigger] self.ents()[j]).ball is None,
            decreases n - k,
        {
            if self.entities[k].ball.is_some() {
                return Some(k);
            }
            k = k + 1;
        }
        None
    }
}

} // verus!
