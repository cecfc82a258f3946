//! Identifiers, traversables, and the small shared records of the simulation.

use vstd::prelude::*;

use crate::units::Distance;

verus! {

/// Identifies one car over its whole life.
pub type CarID = u64;

/// Identifies the trip a car serves.
pub type TripID = u64;

/// Identifies a building (for car ownership and parking goals).
pub type BuildingID = u64;

/// Identifies a lane of the map.
pub type LaneID = u32;

/// Identifies a turn of the map.
pub type TurnID = u32;

/// Identifies an intersection of the map.
pub type IntersectionID = u32;

/// One-dimensional segment a car can be on: a lane or a turn.
#[derive(Clone, Copy, PartialEq, Eq, Structural, Debug)]
pub enum Traversable {
    Lane(LaneID),
    Turn(TurnID),
}

impl Traversable {
    /// Injective encoding of a traversable as an ordered-map key: lanes map
    /// to even numbers, turns to odd ones.
    pub open spec fn spec_key(self) -> u64 {
        match self {
            Traversable::Lane(l) => (2 * (l as int)) as u64,
            Traversable::Turn(t) => (2 * (t as int) + 1) as u64,
        }
    }

    /// Ordered-map key of this traversable.
    pub fn key(&self) -> (k: u64)
        ensures
            k == self.spec_key(),
    {
        match self {
            Traversable::Lane(l) => 2 * (*l as u64),
            Traversable::Turn(t) => 2 * (*t as u64) + 1,
        }
    }

    /// The lane, if this is one.
    pub fn maybe_lane(&self) -> (r: Option<LaneID>)
        ensures
            r == (match *self {
                Traversable::Lane(l) => Some(l),
                Traversable::Turn(_) => None::<LaneID>,
            }),
    {
        match self {
            Traversable::Lane(l) => Some(*l),
            Traversable::Turn(_) => None,
        }
    }
}

/// Distinct traversables have distinct keys.
pub proof fn lemma_traversable_key_injective(a: Traversable, b: Traversable)
    ensures
        a.spec_key() == b.spec_key() ==> a == b,
{
}

/// A point on a lane.
#[derive(Clone, Copy, PartialEq, Eq, Structural, Debug)]
pub struct Position {
    pub lane: LaneID,
    pub dist_along: Distance,
}

/// Admission request: a car asking to drive through a turn.
#[derive(Clone, Copy, PartialEq, Eq, Structural, Debug)]
pub struct Request {
    pub car: CarID,
    pub turn: TurnID,
}

impl Request {
    /// Builds the request `car` submits for `turn`.
    pub fn for_car(car: CarID, turn: TurnID) -> (r: Request)
        ensures
            r == (Request { car, turn }),
    {
        Request { car, turn }
    }
}

/// Transition notifications the simulation emits, in order of occurrence.
#[derive(Clone, Copy, PartialEq, Eq, Structural, Debug)]
pub enum Event {
    AgentEntersTraversable(CarID, Traversable),
    AgentLeavesTraversable(CarID, Traversable),
}

/// Where a trip wants its driving leg to end.
#[derive(Clone, Copy, PartialEq, Eq, Structural, Debug)]
pub enum DrivingGoal {
    ParkNear(BuildingID),
    Border(IntersectionID, LaneID),
}

} // verus!
