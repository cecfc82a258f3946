//! The frozen per-tick snapshot the reaction phase reads.
//!
//! Before reacting, the step moves its queues in here and copies every car's
//! kinematic state; reading through the view keeps the reaction phase away
//! from the live, mutable records.

use vstd::prelude::*;

use std::collections::BTreeMap;

use crate::kinematics::Vehicle;
use crate::queue::{spec_next_front, SimQueue};
use crate::types::{CarID, Traversable};
use crate::units::{Distance, Speed, MAX_SPEED, MAX_TRAVERSABLE_LENGTH};

verus! {

broadcast use vstd::laws_cmp::group_laws_cmp;

/// The snapshot of the car nearest ahead of `d` on `on`, over the view's
/// abstract contents: the agent of the queue entry the search finds.
pub open spec fn spec_next_front_in(
    agents: Map<CarID, AgentView>,
    queues: Map<u64, SimQueue>,
    on: Traversable,
    d: int,
) -> Option<AgentView> {
    if queues.contains_key(on.spec_key()) {
        match spec_next_front(queues[on.spec_key()]@, d) {
            Some(e) => Some(agents[e.1]),
            None => None,
        }
    } else {
        None
    }
}

/// Read-only snapshot of one car.
#[derive(Clone, Copy, PartialEq, Eq, Structural, Debug)]
pub struct AgentView {
    pub id: CarID,
    pub on: Traversable,
    pub dist_along: Distance,
    pub speed: Speed,
    pub vehicle: Vehicle,
    pub debug: bool,
}

/// Snapshot of every car plus the queues of the tick being reacted to.
pub struct WorldView {
    pub agents: BTreeMap<CarID, AgentView>,
    pub queues: BTreeMap<u64, SimQueue>,
}

impl WorldView {
    /// Queue entries denote snapshotted agents on the right traversable, with
    /// bounded kinematic state.
    pub open spec fn wf(self) -> bool {
        forall|k: u64, p: int|
            #![trigger self.queues@[k]@[p]]
            self.queues@.contains_key(k) && 0 <= p < self.queues@[k]@.len() ==> {
                let e = self.queues@[k]@[p];
                &&& self.agents@.contains_key(e.1)
                &&& self.agents@[e.1].id == e.1
                &&& self.agents@[e.1].on.spec_key() == k
                &&& self.agents@[e.1].dist_along == e.0
                &&& self.agents@[e.1].vehicle.valid()
                &&& 0 <= self.agents@[e.1].speed <= MAX_SPEED
                &&& 0 <= self.agents@[e.1].dist_along <= MAX_TRAVERSABLE_LENGTH
            }
    }

    /// The snapshot of the car nearest ahead of `d` on `on`, if any.
    pub open spec fn spec_next_front(self, on: Traversable, d: int) -> Option<AgentView> {
        spec_next_front_in(self.agents@, self.queues@, on, d)
    }

    /// An empty view, ready for one tick's snapshot.
    pub fn new() -> (r: WorldView)
        ensures
            r.agents@ == Map::<CarID, AgentView>::empty(),
            r.queues@ == Map::<u64, SimQueue>::empty(),
            r.wf(),
    {
        WorldView { agents: BTreeMap::new(), queues: BTreeMap::new() }
    }

    /// The car nearest ahead of `dist` on `on`, if the view's queues hold one.
    pub fn next_car_in_front_of(&self, on: Traversable, dist: Distance) -> (r: Option<AgentView>)
        requires
            self.wf(),
        ensures
            r == self.spec_next_front(on, dist as int),
            match r {
                Some(a) => {
                    &&& a.dist_along > dist
                    &&& a.on == on
                    &&& a.vehicle.valid()
                    &&& 0 <= a.speed <= MAX_SPEED
                    &&& a.dist_along <= MAX_TRAVERSABLE_LENGTH
                },
                None => true,
            },
    {
        match self.queues.get(&on.key()) {
            Some(q) => {
                proof {
                    crate::queue::lemma_spec_next_front_entry(q@, dist as int);
                    match crate::queue::spec_next_front(q@, dist as int) {
                        Some(e) => {
                            let p = choose|p: int| 0 <= p < q@.len() && (#[trigger] q@[p]) == e;
                            assert(self.queues@[on.spec_key()]@[p] == e);
                            crate::types::lemma_traversable_key_injective(
                                self.agents@[e.1].on,
                                on,
                            );
                        },
                        None => {},
                    }
                }
                match q.next_car_in_front_of(dist) {
                    Some(id) => {
                        match self.agents.get(&id) {
                            Some(a) => Some(*a),
                            None => vstd::pervasive::unreached(),
                        }
                    },
                    None => None,
                }
            },
            None => None,
        }
    }
}

/// How a car is drawn: debugged, moving, or stuck waiting.
#[derive(Clone, Copy, PartialEq, Eq, Structural, Debug)]
pub enum CarState {
    Debug,
    Moving,
    Stuck,
}

/// The non-geometric drawing record for one car; the owner of the map's
/// geometry turns the traversable and distance into points on screen.
#[derive(Clone, Copy, PartialEq, Eq, Structural, Debug)]
pub struct DrawCarInput {
    pub id: CarID,
    pub vehicle_length: Distance,
    pub waiting_for_turn: Option<crate::types::TurnID>,
    pub on: Traversable,
    pub dist_along: Distance,
    pub state: CarState,
    pub vehicle_type: crate::kinematics::VehicleType,
}

} // verus!
