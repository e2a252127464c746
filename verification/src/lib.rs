//! Decision engine for a squad of mobile units ("busters") that capture
//! roaming entities ("roamers") and haul them to a home base, occasionally
//! incapacitating opposing units.  Each round the engine ingests the current
//! snapshot of visible entities, reconciles it with its persistent entity
//! sets, runs a per-unit finite-state machine, and emits one command per
//! controlled unit.
//!
//! - [`geometry`]: integer points, rounded Euclidean distance, interpolation
//!   and arc-point generation;
//! - [`entities`]: roamer and unit records with their behavioral states;
//! - [`machine`]: identity reconciliation, perception and targeting queries,
//!   formation assignment, the per-unit state machine and the round driver;
//! - [`command`]: the emitted commands and their protocol lines;
//! - [`text`]: verified decimal rendering;
//! - [`rng`]: the trusted boundary to the random number generator.

use vstd::prelude::*;

pub mod command;
pub mod entities;
pub mod geometry;
pub mod machine;
pub mod rng;
pub mod text;

verus! {

/// Width of the rectangular arena; x coordinates run over [0, MAP_RIGHT_WALL].
pub const MAP_RIGHT_WALL: i32 = 16000;

/// Height of the rectangular arena; y coordinates run over [0, MAP_BOTTOM_WALL].
pub const MAP_BOTTOM_WALL: i32 = 9000;

/// Outer engagement radius: a roamer can be captured at rounded distance at
/// most this value.
pub const OUTER_BUSTING_RADIUS: i32 = 1750;

/// Inner exclusion radius: a roamer closer than or at this rounded distance
/// is too close to capture.
pub const INNER_BUSTING_RADIUS: i32 = 900;

/// Radius around the home corner within which a held roamer may be released.
pub const BASE_RELEASE_RADIUS: i32 = 1600;

/// Sensing radius for perception queries.
pub const LINE_OF_SIGHT_RADIUS: i32 = 2200;

/// Radius of the initial capture fan-out formation.
pub const CAPTURE_RADIUS: i32 = 6500;

/// Offset of the formation anchor from the arena corner.
pub const ORIGIN_THROWING_OFFSET: i32 = 500;

/// Interpolation pull (in tenths) for the wide capture fan-out.
pub const THROW_MARGIN_TENTHS: i32 = 9;

/// Interpolation pull (in tenths) for the tight camping perimeter.
pub const CAMPING_MARGIN_TENTHS: i32 = 1;

/// Round number at which every unit switches to the defensive camping plan.
pub const START_CAMPING_TURN: i32 = 100;

/// Radius of the camping perimeter formation.
pub const CAMPING_RADIUS: i32 = 2500;

/// Round threshold after which idle units may steal broadcast targets and
/// high-resistance roamers become engageable.
pub const TURNS_UNTIL_GLOBAL_PICKS: i32 = 50;

/// Rounds a unit must wait between incapacitation actions.
pub const STUN_COOLDOWN: i32 = 20;

} // verus!

