//! A discrete-time driving micro-simulation: vehicles advance along lanes and
//! turns under speed limits, car-following constraints, intersection admission,
//! and parking handoff. All quantities are fixed-point integers (micrometers,
//! micrometers per second, and so on) so that every kinematic computation is
//! exact and verified.

use vstd::prelude::*;

pub mod car;
pub mod groups;
pub mod intersections;
pub mod kinematics;
pub mod map;
pub mod queue;
pub mod router;
pub mod state;
pub mod types;
pub mod units;
pub mod view;

verus! {

} // verus!
