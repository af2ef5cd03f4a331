//! A discrete, stochastic cellular-automaton simulator of mixed bicycle and
//! motor-vehicle traffic on a one-directional ring road.
//!
//! The road is a finite grid of cells: the longitudinal axis wraps (a ring of
//! length `l`), the lateral axis is bounded by the motor-lane width plus the
//! bike-lane width.  Bikes and cars are rigid rectangles of cells.  Each tick,
//! bikes first choose a lateral position, then advance forward at a speed
//! bounded by the free gap ahead; cars then pick the fastest speed that causes
//! no collision and advance.  The occupancy index always records exactly the
//! cells of all agents, and the contracts below prove that the grid stays
//! collision-free after every tick.

use vstd::prelude::*;

pub mod bike;
pub mod car;
pub mod cells;
pub mod geometry;
pub mod road;
mod rng;

verus! {

/// Probabilities are stored as integer numerators out of one million, so a
/// Bernoulli parameter of one is `PROB_ONE` and zero is `0`.
pub const PROB_ONE: u32 = 1_000_000;

/// Largest accepted ring length, so grid indices and gap scans fit in `usize`.
pub const MAX_ROAD_LENGTH: usize = 100_000;

/// Largest accepted total road width.
pub const MAX_ROAD_WIDTH: usize = 1_000;

/// Bound on speeds, accelerations and width parameters, so per-tick
/// arithmetic on positions stays far from machine limits.
pub const MAX_PARAM: isize = 1_000_000;

/// Everything that a constructor, a builder or a tick can report.
///
/// Validation errors come from builders and from `Road::new`; `Collision` and
/// `OffRoad` come from placing agents on the grid, either at construction or
/// when a forward or car phase detects an inconsistent move.
#[derive(Debug, PartialEq, Eq, Structural, Copy, Clone)]
pub enum RoadError {
    /// A width or length was not strictly positive.
    NonPositiveDimension,
    /// A speed or a speed cap was negative.
    NegativeSpeed,
    /// A speed exceeds the corresponding cap.
    SpeedAboveMax,
    /// A bike's forward acceleration was below one.
    AccelerationBelowOne,
    /// A rightward lateral speed cap was negative.
    NegativeLateralSpeed,
    /// A Bernoulli numerator exceeded `PROB_ONE`.
    ProbabilityAboveOne,
    /// A parameter exceeded the machine bound `MAX_PARAM`,
    /// `MAX_ROAD_LENGTH` or `MAX_ROAD_WIDTH`.
    ParameterTooLarge,
    /// The road dimensions are outside the accepted range.
    InvalidDimensions,
    /// More agents than grid cells.
    TooManyAgents,
    /// A lat coordinate was negative.
    LatBelowZero,
    /// A lat coordinate reached past the total road width.
    LatAboveWidth,
    /// An agent handed to the constructor carries an invalid parameter.
    InvalidAgent { vehicle: crate::geometry::Vehicle },
    /// An agent's rectangle leaves the road.
    OffRoad { vehicle: crate::geometry::Vehicle },
    /// Two agents claim the same cell.
    Collision {
        moving: crate::geometry::Vehicle,
        found: crate::geometry::Vehicle,
        at: crate::geometry::Coord,
    },
}

} // verus!
