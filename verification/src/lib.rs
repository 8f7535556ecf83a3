//! A turn-based territorial game engine on procedurally generated 2-D maps.
//!
//! Two players fight for planets: owned planets grow, ships carry power
//! between neighboring planets, and combat resolves when a ship lands.
//! All world quantities (coordinates, distances, health, ship power) are
//! fixed-point integers in milli-units: one game unit is `SCALE` milli-units,
//! so growth rates, speeds and thresholds are exact integer arithmetic.

pub mod adjacency;
pub mod builder;
pub mod planet;
pub mod pos;
pub mod replay;
pub mod rng;
pub mod ship;
pub mod universe;

pub use planet::Planet;
pub use pos::Pos;
pub use replay::Replay;
pub use ship::Ship;
pub use universe::Universe;

use vstd::prelude::*;

verus! {

/// Milli-units per game unit: every coordinate, distance, health and power
/// value in the engine is an integer count of thousandths of a unit.
pub const SCALE: u64 = 1000;

/// Smallest planet radius, in milli-units (20 units).
pub const PLANET_MIN_RADIUS: u64 = 20_000;

/// Largest planet radius, in milli-units (40 units). Sampling is over
/// `[PLANET_MIN_RADIUS, PLANET_MAX_RADIUS + SCALE)`.
pub const PLANET_MAX_RADIUS: u64 = 40_000;

/// Margin kept free along every map edge when placing planets (one maximum radius).
pub const GAME_BORDER_SIZE: i64 = 40_000;

/// Minimum center-to-center distance between two placed planets
/// (two maximum radii plus five units), in milli-units.
pub const PLANET_MIN_DISTANCE: u64 = 85_000;

/// Distance a ship covers in one tick, in milli-units (15 units).
pub const SHIP_SPEED: u64 = 15_000;

/// An owned planet's health rises by `radius / GROWTH_DIVISOR` each tick
/// (five percent of its radius).
pub const GROWTH_DIVISOR: u64 = 20;

/// A planet's health is capped at `HEALTH_CAP_FACTOR * radius`.
pub const HEALTH_CAP_FACTOR: u64 = 5;

/// A new planet starts at `radius * STARTING_HEALTH_NUM / STARTING_HEALTH_DEN`
/// health: thirty-three percent of the health cap of five radii.
pub const STARTING_HEALTH_NUM: u64 = 165;
pub const STARTING_HEALTH_DEN: u64 = 100;

/// The map builder connects a planet to at most this many neighbors
/// during its own connection pass.
pub const MAX_PLANET_CONNECTIONS: usize = 3;

/// Bound on the coordinates of planet centers and map sizes, in milli-units.
/// Generous for any playable map, and small enough that squared distances
/// stay far from machine limits.
pub const COORD_LIMIT: i64 = 100_000_000;

/// Bound on ship coordinates: a ship flies between planet centers and can
/// overshoot its target by at most one tick of travel.
pub const SHIP_COORD_LIMIT: i64 = 100_015_000;

/// Every position handed to the geometry routines must be within this bound;
/// both planet and ship positions are, with room to spare.
pub const GEOM_LIMIT: i64 = 1_000_000_000;

/// Bound on the total amount of health and ship power in a universe, needed
/// so that health arithmetic stays within machine integers. A match that
/// respects it can still move around a trillion units of health.
pub const MASS_LIMIT: u64 = 1_000_000_000_000_000;

} // verus!
