//! Fixed-point physical quantities and the constants of the simulation.
//!
//! Distances are in micrometers, speeds in micrometers per second, and
//! accelerations in micrometers per second squared, all held in `i64`. One
//! tick is a tenth of a second. The bounds below keep every kinematic
//! computation inside `i64`.

use vstd::prelude::*;

verus! {

/// Arc-length quantity in micrometers.
pub type Distance = i64;

/// Speed in micrometers per second.
pub type Speed = i64;

/// Acceleration in micrometers per second squared.
pub type Acceleration = i64;

/// Discrete simulation time: the number of elapsed ticks.
pub type Tick = u32;

/// Number of ticks in one second; one tick lasts a tenth of a second.
pub const TICKS_PER_SECOND: i64 = 10;

/// A car parks or departs in this many ticks (ten seconds).
pub const TIME_TO_PARK_OR_DEPART: u32 = 100;

/// Distances within this of a traversable's end count as "at the end".
pub const EPSILON_DIST: i64 = 10_000;

/// Speeds at or below this count as stopped (a hundredth of a meter per second).
pub const EPSILON_SPEED: i64 = 10_000;

/// No lane or turn is longer than this (a thousand kilometers).
pub const MAX_TRAVERSABLE_LENGTH: i64 = 1_000_000_000_000;

/// No speed limit and no vehicle speed exceeds this (a hundred meters per second).
pub const MAX_SPEED: i64 = 100_000_000;

/// No vehicle accelerates harder than this (ten meters per second squared).
pub const MAX_ACCEL_MAG: i64 = 10_000_000;

/// Every vehicle can brake at least this hard (a tenth of a meter per second squared).
pub const MIN_DEACCEL_MAG: i64 = 100_000;

/// Longest vehicle (seven meters).
pub const MAX_VEHICLE_LENGTH: i64 = 7_000_000;

/// Shortest vehicle (one meter).
pub const MIN_VEHICLE_LENGTH: i64 = 1_000_000;

/// Gap kept between the rear of a leader and the front of its follower,
/// beyond the leader's own length (one meter).
pub const FOLLOWING_DISTANCE_BUFFER: i64 = 1_000_000;

/// A well-formed traversable length: positive and bounded.
pub open spec fn valid_length(d: Distance) -> bool {
    0 < d <= MAX_TRAVERSABLE_LENGTH
}

/// A well-formed speed limit: positive and bounded.
pub open spec fn valid_speed_limit(s: Speed) -> bool {
    0 < s <= MAX_SPEED
}

/// A well-formed current speed: nonnegative and bounded.
pub open spec fn valid_speed(s: Speed) -> bool {
    0 <= s <= MAX_SPEED
}

} // verus!
