//! The plain data records attached to entities: paddles, the ball, and
//! positions, together with their mathematical views.

use vstd::prelude::*;
use crate::arena::{ARENA_HEIGHT, ARENA_WIDTH, PADDLE_HEIGHT, PADDLE_WIDTH, POS_LIMIT, VEL_LIMIT};

verus! {

/// Which horizontal edge a paddle guards.
#[derive(Clone, Copy, Debug, PartialEq, Eq, Structural)]
pub enum Side {
    Left,
    Right,
}

/// A paddle: immutable after creation except for its position.
#[derive(Clone, Copy, Debug, PartialEq)]
pub struct Paddle {
    pub side: Side,
    pub width: i64,
    pub height: i64,
}

impl Paddle {
    /// Dimensions a paddle must have for the systems' arithmetic: it fits
    /// inside the arena.
    pub open spec fn wf(self) -> bool {
        &&& 0 <= self.width <= ARENA_WIDTH
        &&& 0 <= self.height <= ARENA_HEIGHT
    }

    /// A paddle of the standard size on the given side.
    pub fn new(side: Side) -> (p: Paddle)
        ensures
            p.side == side,
            p.width == PADDLE_WIDTH,
            p.height == PADDLE_HEIGHT,
            p.wf(),
    {
        Paddle { side, width: PADDLE_WIDTH, height: PADDLE_HEIGHT }
    }
}

/// The ball: a velocity (micro-units per millisecond) and a radius.
#[derive(Clone, Copy, Debug, PartialEq)]
pub struct Ball {
    pub vx: i64,
    pub vy: i64,
    pub radius: i64,
}

impl Ball {
    /// What the systems' arithmetic needs of a ball: it fits between the two
    /// horizontal walls with room for the wall response to push it strictly
    /// back inside, and is not absurdly fast.
    pub open spec fn wf(self) -> bool {
        &&& 0 <= self.radius
        &&& 2 * self.radius + 2 <= ARENA_HEIGHT
        &&& -VEL_LIMIT <= self.vx <= VEL_LIMIT
        &&& -VEL_LIMIT <= self.vy <= VEL_LIMIT
    }
}

/// A world-space position, origin at the bottom left, in micro-units.
#[derive(Clone, Copy, Debug, PartialEq)]
pub struct Position {
    pub x: i64,
    pub y: i64,
}

impl Position {
    /// Both coordinates lie within `m` of the origin.
    pub open spec fn bounded_within(self, m: int) -> bool {
        &&& -m <= self.x <= m
        &&& -m <= self.y <= m
    }

    /// The bound under which every system accepts a position.
    pub open spec fn bounded(self) -> bool {
        self.bounded_within(POS_LIMIT as int)
    }
}

/// Mathematical view of the ball together with its position.
pub struct BallView {
    pub x: int,
    pub y: int,
    pub vx: int,
    pub vy: int,
    pub radius: int,
}

/// Mathematical view of a paddle together with its position.
pub struct PaddleView {
    pub side: Side,
    pub x: int,
    pub y: int,
    pub width: int,
    pub height: int,
}

/// The view of a ball component joined with its position component.
pub open spec fn ball_view(b: Ball, p: Position) -> BallView {
    BallView { x: p.x as int, y: p.y as int, vx: b.vx as int, vy: b.vy as int, radius: b.radius as int }
}

/// The view of a paddle component joined with its position component.
pub open spec fn paddle_view(pd: Paddle, p: Position) -> PaddleView {
    PaddleView { side: pd.side, x: p.x as int, y: p.y as int, width: pd.width as int, height: pd.height as int }
}

} // verus!
