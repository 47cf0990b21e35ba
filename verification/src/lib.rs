//! Core of a Breakout-style arcade game, verified with Verus.
//!
//! The playfield is modelled on integer coordinates: positions are held in
//! millipixels (one thousandth of a screen unit) and velocities in
//! millipixels per millisecond, so one tick of `dt` milliseconds moves a
//! ball by exactly `velocity * dt` millipixels.  All geometry, collision
//! resolution, brick durability, scoring and the game-phase state machine
//! live here; rendering, input devices and the window belong to the
//! unverified shell around the library.

use vstd::prelude::*;

pub mod brick;
pub mod geom;
pub mod phase;
pub mod physics;
pub mod tick;
pub mod world;

verus! {

/// One screen unit expressed in the library's coordinate scale.
pub const SCALE: i64 = 1000;

/// Thickness of the boundary walls, in millipixels.
pub const WALL_THICKNESS: i64 = 10_000;

/// Leftmost x coordinate of the playfield, in millipixels.
pub const LEFT_WALL: i64 = -360_000;

/// Rightmost x coordinate of the playfield, in millipixels.
pub const RIGHT_WALL: i64 = 360_000;

/// Lowest y coordinate of the playfield, in millipixels.
pub const BOTTOM_WALL: i64 = -360_000;

/// Highest y coordinate of the playfield, in millipixels.
pub const TOP_WALL: i64 = 360_000;

} // verus!
