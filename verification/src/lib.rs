//! Simulation core of a two-paddle ball game.
//!
//! The crate owns the authoritative game state (paddles, ball, arena bounds)
//! and advances it once per simulation tick. All quantities are integers:
//! lengths in micro-units (one arena unit is `arena::SCALE` micro-units),
//! time in milliseconds, velocities in micro-units per millisecond. The
//! surrounding host (window, input devices, rendering) reads and writes plain
//! numeric state through `pong::Pong` and `store::Store`.

pub mod arena;
pub mod components;
pub mod store;
pub mod paddle;
pub mod move_balls;
pub mod bounce;
pub mod pong;
