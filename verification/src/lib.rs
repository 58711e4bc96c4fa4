//! Core engine of a grid-maze arcade game: a static maze queried by cell,
//! fixed-point entity positions, per-tick movement resolution with
//! wall blocking and horizontal wrap-around, steering policies for the
//! player and for randomly roaming enemies, and distance-based pickup
//! and enemy collision resolution.
//!
//! Positions are held in fixed-point subcell units: [`CELL`] subcell units
//! make one maze cell, so a coordinate is grid-aligned exactly when it is a
//! multiple of [`CELL`]. This keeps every tick deterministic for fixed
//! inputs while still allowing fractional, frame-rate independent motion.
use vstd::prelude::*;

pub mod board;
pub mod collision;
pub mod input;
pub mod enemies;
pub mod game;
pub mod movement;
pub mod pickup;
pub mod player;
pub mod state;

verus! {

/// Subcell units per maze cell: a coordinate is grid-aligned when it is a
/// multiple of this.
pub const CELL: i64 = 1000;

/// Upper bound on maze rows and columns, so that every subcell coordinate
/// the engine computes stays far from `i64` overflow.
pub const MAX_DIM: usize = 1048576;

/// Generous bound on coordinates accepted by the motion primitives.
pub const COORD_LIMIT: i64 = 1099511627776;

/// Score for collecting a dot.
pub const DOT_SCORE: usize = 10;

/// Score for collecting a power pill.
pub const POWERPILL_SCORE: usize = 50;

/// Pickup radius, in subcell units: half a cell.
pub const PICKUP_RANGE: i64 = 500;

/// Enemy collision radius, in subcell units: one cell.
pub const ENEMY_RANGE: i64 = 1000;

/// Default travel speed, in subcell units per second: eight cells.
pub const PLAYER_VELOCITY: u32 = 8000;

/// Lives the player starts with.
pub const INITIAL_LIVES: i64 = 2;

} // verus!
