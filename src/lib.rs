//! Tile-world physics and map core of a 2D sandbox platformer.
//!
//! World space is measured in fixed-point sub-units: one tile is `SUBDIV`
//! sub-units wide, and tile `(i, j)` covers the half-open square
//! `[i, i + 1) x [j, j + 1)` in tile units.  Time is measured in fixed
//! simulation ticks, so velocities are sub-units per tick.
use vstd::prelude::*;

pub mod geometry;
pub mod tile;
pub mod map;
pub mod body;
pub mod collision;
pub mod editing;
pub mod generation;
pub mod inventory;

verus! {

/// Sub-units per tile (world units are tiles).
pub const SUBDIV: i64 = 65536;

/// Largest absolute world coordinate, in sub-units, that a body may occupy.
pub const WORLD_LIMIT: i64 = 0x4000_0000;

/// Largest half extent of a body, in sub-units.
pub const HALF_LIMIT: i64 = 0x100_0000;

/// Largest absolute velocity component, in sub-units per tick.
pub const VEL_LIMIT: i64 = 0x10_0000;

} // verus!
