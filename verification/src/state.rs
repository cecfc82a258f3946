//! The driving state store: every active car, its route plan, and the
//! per-traversable queues, advanced one tick at a time by the two-phase step.

use vstd::prelude::*;

use std::collections::BTreeMap;

use crate::car::{get_car, router_on_map, Action, Car, ParkedCar, ParkingState};
use crate::groups::{mm_insert, mm_into_groups, mm_new, multimap_groups};
use crate::intersections::IntersectionSim;
use crate::kinematics::SimError;
use crate::map::RoadMap;
use crate::queue::{distinct_ids, gaps_ok, ids_of, sorted_desc, SimQueue};
use crate::router::{Router, TerminalAction};
use crate::types::{CarID, Event, LaneID, Position, Traversable};
use crate::units::{Tick, EPSILON_SPEED, TIME_TO_PARK_OR_DEPART};
use crate::view::{AgentView, WorldView};

verus! {

broadcast use vstd::laws_cmp::group_laws_cmp;

/// Relies on std's BTreeMap::keys: every key exactly once, ascending.
#[verifier::external_body]
fn btree_keys_vec<V>(m: &BTreeMap<u64, V>) -> (r: Vec<u64>)
    ensures
        forall|i: int, j: int| 0 <= i < j < r@.len() ==> #[trigger] r@[i] < #[trigger] r@[j],
        r@.to_set() == m@.dom(),
        r@.len() == m@.dom().len(),
{
    m.keys().copied().collect()
}

/// Looks a router up by a key the caller has proved present.
fn get_router<'a>(routers: &'a BTreeMap<CarID, Router>, id: CarID) -> (r: &'a Router)
    requires
        routers@.contains_key(id),
    ensures
        *r == routers@[id],
{
    match routers.get(&id) {
        Some(r) => r,
        None => vstd::pervasive::unreached(),
    }
}

/// Decodes an ordered-map key back into its traversable.
fn decode_key(k: u64) -> (t: Traversable)
    requires
        exists|t0: Traversable| (#[trigger] t0.spec_key()) == k,
    ensures
        t.spec_key() == k,
{
    proof {
        let t0 = choose|t0: Traversable| (#[trigger] t0.spec_key()) == k;
    }
    if k % 2 == 0 {
        Traversable::Lane((k / 2) as LaneID)
    } else {
        Traversable::Turn(((k - 1) / 2) as crate::types::TurnID)
    }
}

/// The snapshot the view holds for one car.
pub open spec fn spec_agent_of(id: CarID, c: Car) -> AgentView {
    AgentView {
        id,
        on: c.on,
        dist_along: c.dist_along,
        speed: c.speed,
        vehicle: c.vehicle,
        debug: c.debug,
    }
}

/// What the rebuild guarantees of one finished queue.
pub open spec fn built_queue_ok(
    q: Seq<(crate::units::Distance, CarID)>,
    cars: Map<CarID, Car>,
    k: u64,
    group: Seq<CarID>,
) -> bool {
    &&& sorted_desc(q)
    &&& distinct_ids(q)
    &&& gaps_ok(q, cars)
    &&& ids_of(q).to_multiset() == group.to_multiset()
    &&& forall|p: int|
        0 <= p < q.len() ==> {
            &&& cars.contains_key((#[trigger] q[p]).1)
            &&& cars[q[p].1].on.spec_key() == k
            &&& q[p].0 == cars[q[p].1].dist_along
        }
}

/// The listed cars on `on_key`, in list order.
pub open spec fn group_of(cars: Map<CarID, Car>, ids: Seq<CarID>, k: u64) -> Seq<CarID> {
    ids.filter(|id: CarID| cars.contains_key(id) && cars[id].on.spec_key() == k)
}

/// Whether `a` is the action `react` could have produced for a car and its
/// route plan: the projection of the reaction contract the apply phase needs.
pub open spec fn action_ok(a: Action, c: Car, r: Router) -> bool {
    match a {
        Action::WorkOnParking => c.parking.is_some(),
        Action::StartParking(spot) => r.pre_action == Some(TerminalAction::StartParking(spot))
            && c.parking.is_none(),
        Action::StartParkingBike => r.pre_action == Some(TerminalAction::StartParkingBike)
            && c.parking.is_none(),
        Action::VanishAtDeadEnd => r.pre_action == Some(TerminalAction::VanishAtDeadEnd)
            && c.parking.is_none(),
        Action::Continue(acc, _) => c.parking.is_none() && c.vehicle.max_deaccel <= acc
            <= c.vehicle.max_accel,
    }
}

/// What applying one reaction decision leaves behind, judged against the
/// pre-apply state: the per-action state change of the apply phase.
pub open spec fn applied_action_ok(
    id: CarID,
    a: Action,
    pre: DrivingSimState,
    cars2: Map<CarID, Car>,
    finished: Seq<ParkedCar>,
    vanished: Seq<CarID>,
    biked: Seq<(CarID, Position)>,
    time: Tick,
) -> bool {
    let c0 = pre.cars@[id];
    match a {
        Action::StartParking(spot) => cars2.contains_key(id) && cars2[id] == (Car {
            parking: Some(
                ParkingState {
                    is_parking: true,
                    started_at: time,
                    tuple: ParkedCar { car: id, spot, vehicle: c0.vehicle, owner: c0.owner },
                },
            ),
            ..c0
        }),
        Action::WorkOnParking => {
            let ps = c0.parking->Some_0;
            if ps.started_at <= u32::MAX - TIME_TO_PARK_OR_DEPART && ps.started_at
                + TIME_TO_PARK_OR_DEPART == time {
                if ps.is_parking {
                    !cars2.contains_key(id) && finished.contains(ps.tuple)
                } else {
                    cars2.contains_key(id) && cars2[id] == (Car { parking: None, ..c0 })
                }
            } else {
                cars2.contains_key(id) && cars2[id] == c0
            }
        },
        Action::StartParkingBike => !cars2.contains_key(id) && biked.contains(
            (id, Position { lane: c0.on->Lane_0, dist_along: c0.dist_along }),
        ),
        Action::VanishAtDeadEnd => !cars2.contains_key(id),
        Action::Continue(_, _) => if cars2.contains_key(id) {
            &&& cars2[id].id == c0.id
            &&& cars2[id].trip == c0.trip
            &&& cars2[id].owner == c0.owner
            &&& cars2[id].vehicle == c0.vehicle
            &&& cars2[id].parking.is_none()
        } else {
            vanished.contains(id) && pre.routers@[id].vanish_at_border
        },
    }
}

/// Every emitted parked-car record comes from a car whose parking timer
/// elapsed this tick, and that car is gone from the store.
pub open spec fn finished_from(
    pre: DrivingSimState,
    cars2: Map<CarID, Car>,
    finished: Seq<ParkedCar>,
    time: Tick,
) -> bool {
    forall|w: int|
        0 <= w < finished.len() ==> exists|id: CarID| {
            &&& #[trigger] pre.cars@.contains_key(id)
            &&& pre.cars@[id].parking is Some
            &&& pre.cars@[id].parking->Some_0.is_parking
            &&& pre.cars@[id].parking->Some_0.started_at + TIME_TO_PARK_OR_DEPART == time
            &&& (#[trigger] finished[w]) == pre.cars@[id].parking->Some_0.tuple
            &&& !cars2.contains_key(id)
        }
}

/// The frozen per-car snapshot the reaction phase reads, as an abstract map.
pub open spec fn spec_frozen_agents(pre: DrivingSimState) -> Map<CarID, AgentView> {
    Map::new(
        |id: CarID| pre.cars@.dom().contains(id),
        |id: CarID| spec_agent_of(id, pre.cars@[id]),
    )
}

/// What the reaction phase decides for one car, at the specification level:
/// parking work while a maneuver runs, the route plan's terminal maneuver,
/// or driving on with the clamped minimum of the lookahead's constraints —
/// or the lookahead's failure.
pub enum DecisionSpec {
    StartParking(crate::car::ParkingSpot),
    WorkOnParking,
    StartParkingBike,
    VanishAtDeadEnd,
    Continue { accel: int, requests: Seq<crate::types::Request> },
    Fail { err: SimError },
}

/// The decision the reaction phase reaches for `id` over the frozen view of
/// `pre`, exactly as `Car::react`'s contract fixes it.
#[verifier::opaque]
pub open spec fn spec_decision(
    pre: DrivingSimState,
    map: RoadMap,
    isects: IntersectionSim,
    id: CarID,
) -> DecisionSpec {
    let c = pre.cars@[id];
    let r = pre.routers@[id];
    if c.parking is Some {
        DecisionSpec::WorkOnParking
    } else {
        match r.pre_action {
            Some(TerminalAction::StartParking(spot)) => DecisionSpec::StartParking(spot),
            Some(TerminalAction::StartParkingBike) => DecisionSpec::StartParkingBike,
            Some(TerminalAction::VanishAtDeadEnd) => DecisionSpec::VanishAtDeadEnd,
            None => match c.spec_lookahead_from(
                r,
                map,
                spec_frozen_agents(pre),
                pre.queues@,
                isects,
            ) {
                crate::car::LookaheadResult::Go { min_accel, requests } => DecisionSpec::Continue {
                    accel: c.vehicle.spec_clamp_accel(min_accel),
                    requests,
                },
                crate::car::LookaheadResult::Fail { err } => DecisionSpec::Fail { err },
            },
        }
    }
}

/// Whether a concrete reaction-phase action is the one the decision
/// specification fixes.
pub open spec fn action_matches_decision(a: Action, d: DecisionSpec) -> bool {
    match d {
        DecisionSpec::StartParking(spot) => a == Action::StartParking(spot),
        DecisionSpec::WorkOnParking => a == Action::WorkOnParking,
        DecisionSpec::StartParkingBike => a == Action::StartParkingBike,
        DecisionSpec::VanishAtDeadEnd => a == Action::VanishAtDeadEnd,
        DecisionSpec::Continue { accel, requests } => match a {
            Action::Continue(acc, reqs) => acc as int == accel && reqs@ == requests,
            _ => false,
        },
        DecisionSpec::Fail { .. } => false,
    }
}

/// The tick's whole effect on one car, at the public boundary: the car's
/// decision over the frozen view, followed by that decision's applied
/// change — the parking timer's three outcomes, the terminal handoffs, and
/// for a driving car the exact motion of `spec_motion` (judged from the
/// empty occupancy, which an arriving or vanishing motion cannot tell from
/// the real one).
#[verifier::opaque]
pub open spec fn spec_step_effect(
    pre: DrivingSimState,
    map: RoadMap,
    isects: IntersectionSim,
    id: CarID,
    cars2: Map<CarID, Car>,
    routers2: Map<CarID, Router>,
    finished: Seq<ParkedCar>,
    vanished: Seq<CarID>,
    biked: Seq<(CarID, Position)>,
    time: Tick,
) -> bool {
    let c0 = pre.cars@[id];
    let r0 = pre.routers@[id];
    match spec_decision(pre, map, isects, id) {
        DecisionSpec::StartParking(spot) => {
            &&& cars2.contains_key(id)
            &&& cars2[id] == (Car {
                parking: Some(
                    ParkingState {
                        is_parking: true,
                        started_at: time,
                        tuple: ParkedCar { car: id, spot, vehicle: c0.vehicle, owner: c0.owner },
                    },
                ),
                ..c0
            })
            &&& routers2.contains_key(id) && routers2[id] == r0
        },
        DecisionSpec::WorkOnParking => {
            let ps = c0.parking->Some_0;
            if ps.started_at <= u32::MAX - TIME_TO_PARK_OR_DEPART && ps.started_at
                + TIME_TO_PARK_OR_DEPART == time {
                if ps.is_parking {
                    &&& !cars2.contains_key(id)
                    &&& !routers2.contains_key(id)
                    &&& finished.contains(ps.tuple)
                } else {
                    &&& cars2.contains_key(id)
                    &&& cars2[id] == (Car { parking: None, ..c0 })
                    &&& routers2.contains_key(id) && routers2[id] == r0
                }
            } else {
                &&& cars2.contains_key(id)
                &&& cars2[id] == c0
                &&& routers2.contains_key(id) && routers2[id] == r0
            }
        },
        DecisionSpec::StartParkingBike => {
            &&& !cars2.contains_key(id)
            &&& !routers2.contains_key(id)
            &&& biked.contains((id, Position { lane: c0.on->Lane_0, dist_along: c0.dist_along }))
        },
        DecisionSpec::VanishAtDeadEnd => !cars2.contains_key(id) && !routers2.contains_key(id),
        DecisionSpec::Continue { accel, requests } => {
            let v2 = crate::kinematics::spec_speed_after_accel(c0.speed as int, accel);
            let m = crate::car::spec_motion(
                id,
                c0.vehicle,
                map,
                r0,
                c0.on,
                c0.dist_along + crate::kinematics::spec_dist_in_tick(c0.speed as int, accel),
                v2,
                Map::empty(),
            );
            match m {
                crate::car::MotionResult::Arrive { on, dist, idx, .. } => {
                    &&& cars2.contains_key(id)
                    &&& cars2[id].on == on
                    &&& cars2[id].dist_along == dist
                    &&& cars2[id].speed == v2
                    &&& cars2[id].id == c0.id
                    &&& cars2[id].trip == c0.trip
                    &&& cars2[id].owner == c0.owner
                    &&& cars2[id].vehicle == c0.vehicle
                    &&& cars2[id].parking.is_none()
                    &&& cars2[id].debug == c0.debug
                    &&& routers2.contains_key(id)
                    &&& routers2[id] == (Router { idx: idx as usize, ..r0 })
                },
                crate::car::MotionResult::Vanish { .. } => {
                    &&& !cars2.contains_key(id)
                    &&& !routers2.contains_key(id)
                    &&& vanished.contains(id)
                },
                crate::car::MotionResult::Fail { .. } => false,
            }
        },
        DecisionSpec::Fail { .. } => false,
    }
}

/// The frozen view built from a well-formed store is itself well formed.
#[verifier::rlimit(60)]
#[verifier::spinoff_prover]
proof fn lemma_frozen_view_wf(st: DrivingSimState, view: WorldView, map: RoadMap)
    requires
        map.wf(),
        st.cars_wf(map),
        st.queues_wf(),
        view.agents@ == spec_frozen_agents(st),
        view.queues@ == st.queues@,
    ensures
        view.wf(),
{
    assert forall|k: u64, p: int|
        #![trigger view.queues@[k]@[p]]
        view.queues@.contains_key(k) && 0 <= p < view.queues@[k]@.len() implies {
        let e = view.queues@[k]@[p];
        &&& view.agents@.contains_key(e.1)
        &&& view.agents@[e.1].id == e.1
        &&& view.agents@[e.1].on.spec_key() == k
        &&& view.agents@[e.1].dist_along == e.0
        &&& view.agents@[e.1].vehicle.valid()
        &&& 0 <= view.agents@[e.1].speed <= crate::units::MAX_SPEED
        &&& 0 <= view.agents@[e.1].dist_along <= crate::units::MAX_TRAVERSABLE_LENGTH
    } by {
        let e = view.queues@[k]@[p];
        assert(st.queues@.contains_key(k));
        assert(st.queues@[k]@[p] == e);
        assert(st.cars@.contains_key(e.1));
        let c = st.cars@[e.1];
        assert(st.cars@.dom().contains(e.1));
        assert(view.agents@[e.1] == spec_agent_of(e.1, c));
        assert(c.valid(map));
        assert(map.segments@[c.on.spec_key()].valid());
    }
}

/// Whether a car stands on one of the listed lanes.
pub open spec fn spec_on_lanes(c: Car, lanes: Seq<LaneID>) -> bool {
    match c.on {
        Traversable::Lane(l) => lanes.contains(l),
        Traversable::Turn(_) => false,
    }
}

/// Whether the list holds the lane.
fn lanes_contain(lanes: &Vec<LaneID>, l: LaneID) -> (r: bool)
    ensures
        r == lanes@.contains(l),
{
    let n = lanes.len();
    let mut i: usize = 0;
    while i < n
        invariant
            0 <= i <= n,
            n == lanes@.len(),
            forall|j: int| 0 <= j < i ==> #[trigger] lanes@[j] != l,
        decreases n - i,
    {
        if lanes[i] == l {
            return true;
        }
        i = i + 1;
    }
    proof {
        assert(!lanes@.contains(l)) by {
            if lanes@.contains(l) {
                let j = choose|j: int| 0 <= j < lanes@.len() && lanes@[j] == l;
            }
        }
    }
    false
}

/// All actively driving (and parking) cars, their route plans, and the
/// per-traversable queues. Keyed by ordered maps so iteration, and with it
/// the whole step, is deterministic.
pub struct DrivingSimState {
    pub cars: BTreeMap<CarID, Car>,
    pub routers: BTreeMap<CarID, Router>,
    pub queues: BTreeMap<u64, SimQueue>,
    pub debug: Option<CarID>,
}

impl DrivingSimState {
    /// Every car is keyed by its own identifier, is physically valid, and
    /// has a well-formed route plan pointing at the traversable it is on.
    pub open spec fn cars_wf(self, map: RoadMap) -> bool {
        &&& self.routers@.dom() == self.cars@.dom()
        &&& forall|id: CarID|
            self.cars@.contains_key(id) ==> {
                let c = #[trigger] self.cars@[id];
                &&& c.id == id
                &&& c.valid(map)
                &&& self.routers@[id].wf()
                &&& self.routers@[id].spec_current() == c.on
                &&& router_on_map(self.routers@[id], map)
            }
    }

    /// Queues partition the cars: each queue holds only cars of its own
    /// traversable, in descending order with the no-squish gap, and every
    /// car sits in the queue of the traversable it is on.
    pub open spec fn queues_wf(self) -> bool {
        &&& forall|k: u64|
            self.queues@.contains_key(k) ==> {
                let q = (#[trigger] self.queues@[k])@;
                &&& q.len() > 0
                &&& sorted_desc(q)
                &&& distinct_ids(q)
                &&& gaps_ok(q, self.cars@)
                &&& forall|p: int|
                    0 <= p < q.len() ==> {
                        &&& self.cars@.contains_key((#[trigger] q[p]).1)
                        &&& self.cars@[q[p].1].on.spec_key() == k
                        &&& q[p].0 == self.cars@[q[p].1].dist_along
                    }
            }
        &&& forall|id: CarID|
            self.cars@.contains_key(id) ==> {
                &&& self.queues@.contains_key((#[trigger] self.cars@[id]).on.spec_key())
                &&& ids_of(self.queues@[self.cars@[id].on.spec_key()]@).contains(id)
            }
    }

    /// Every car on a turn holds that turn with the intersection manager.
    pub open spec fn isects_wf(self, isects: IntersectionSim) -> bool {
        forall|id: CarID|
            self.cars@.contains_key(id) ==> match (#[trigger] self.cars@[id]).on {
                Traversable::Turn(t) => isects.occupied@.contains_key(t) && isects.occupied@[t]
                    == id,
                Traversable::Lane(_) => true,
            }
    }

    /// The whole store invariant.
    pub open spec fn wf(self, map: RoadMap, isects: IntersectionSim) -> bool {
        &&& self.cars_wf(map)
        &&& self.queues_wf()
        &&& self.isects_wf(isects)
    }

    /// The route-plan obligations the owning trip planner keeps: a plan that
    /// orders a parking maneuver does so only for a car at rest, and one
    /// that ends a bike ride does so only on a lane.
    pub open spec fn routers_ok(self) -> bool {
        forall|id: CarID|
            self.cars@.contains_key(id) ==> match (#[trigger] self.routers@[id]).pre_action {
                Some(TerminalAction::StartParking(_)) => self.cars@[id].speed <= EPSILON_SPEED,
                Some(TerminalAction::StartParkingBike) => self.cars@[id].on is Lane,
                _ => true,
            }
    }

    /// An empty store.
    pub fn new() -> (r: DrivingSimState)
        ensures
            r.cars@ == Map::<CarID, Car>::empty(),
            r.routers@ == Map::<CarID, Router>::empty(),
            r.queues@ == Map::<u64, SimQueue>::empty(),
            r.debug.is_none(),
            forall|map: RoadMap, isects: IntersectionSim| r.wf(map, isects),
    {
        let r = DrivingSimState {
            cars: BTreeMap::new(),
            routers: BTreeMap::new(),
            queues: BTreeMap::new(),
            debug: None,
        };
        proof {
            assert forall|map: RoadMap, isects: IntersectionSim| r.wf(map, isects) by {
                assert(r.routers@.dom() =~= r.cars@.dom());
            }
        }
        r
    }

    /// Copies every car's kinematic state into the view.
    #[verifier::rlimit(60)]
    #[verifier::spinoff_prover]
    fn populate_view(&self, view: &mut WorldView)
        requires
            old(view).agents@ == Map::<CarID, AgentView>::empty(),
        ensures
            final(view).queues == old(view).queues,
            final(view).agents@.dom() == self.cars@.dom(),
            forall|id: CarID|
                self.cars@.contains_key(id) ==> #[trigger] final(view).agents@[id]
                    == spec_agent_of(id, self.cars@[id]),
            forall|st: DrivingSimState|
                st.cars@ == self.cars@ ==> final(view).agents@ == #[trigger] spec_frozen_agents(
                    st,
                ),
    {
        let ids = btree_keys_vec(&self.cars);
        let n = ids.len();
        let mut i: usize = 0;
        while i < n
            invariant
                0 <= i <= n,
                n == ids@.len(),
                forall|p: int, q: int| 0 <= p < q < ids@.len() ==> #[trigger] ids@[p] < #[trigger] ids@[q],
                ids@.to_set() == self.cars@.dom(),
                view.queues == old(view).queues,
                forall|j: int|
                    0 <= j < i ==> #[trigger] view.agents@.contains_key(ids@[j])
                        && view.agents@[ids@[j]] == spec_agent_of(ids@[j], self.cars@[ids@[j]]),
                view.agents@.dom() == old(view).agents@.dom() + ids@.take(i as int).to_set(),
            decreases n - i,
        {
            let id = ids[i];
            proof {
                assert(ids@.to_set().contains(id));
            }
            let c = get_car(&self.cars, id);
            let av = AgentView {
                id,
                on: c.on,
                dist_along: c.dist_along,
                speed: c.speed,
                vehicle: c.vehicle,
                debug: c.debug,
            };
            proof {
                assert forall|j: int| 0 <= j < i implies ids@[j] != id by {
                    assert(ids@[j] < ids@[i as int]);
                }
            }
            view.agents.insert(id, av);
            proof {
                assert(view.agents@[id] == spec_agent_of(id, self.cars@[id]));
                assert forall|j: int| 0 <= j < i + 1 implies #[trigger] view.agents@.contains_key(
                    ids@[j],
                ) && view.agents@[ids@[j]] == spec_agent_of(ids@[j], self.cars@[ids@[j]]) by {
                    if j < i {
                        assert(ids@[j] != id);
                    }
                }
                assert(ids@.take(i as int + 1) =~= ids@.take(i as int) + seq![id]);
                Seq::<u64>::lemma_to_set_insert_commutes(ids@.take(i as int), id);
                assert(ids@.take(i as int + 1).to_set() =~= ids@.take(i as int).to_set().insert(
                    id,
                ));
                assert(view.agents@.dom() =~= old(view).agents@.dom() + ids@.take(
                    i as int + 1,
                ).to_set());
            }
            i = i + 1;
        }
        proof {
            assert(ids@.take(n as int) =~= ids@);
            assert(view.agents@.dom() =~= self.cars@.dom());
            assert forall|st: DrivingSimState| st.cars@ == self.cars@ implies view.agents@
                == #[trigger] spec_frozen_agents(st) by {
                assert(view.agents@ =~= spec_frozen_agents(st)) by {
                    assert forall|id: CarID| #[trigger] spec_frozen_agents(st).dom().contains(
                        id,
                    ) implies view.agents@.dom().contains(id) && view.agents@[id]
                        == spec_frozen_agents(st)[id] by {
                        assert(self.cars@.dom().contains(id));
                        assert(view.agents@[id] == spec_agent_of(id, self.cars@[id]));
                    }
                    assert forall|id: CarID| #[trigger] view.agents@.dom().contains(id) implies
                        spec_frozen_agents(st).dom().contains(id) by {
                        assert(self.cars@.dom().contains(id));
                    }
                }
            }
        }
    }

    /// Applies one reaction-phase decision per listed car: parking work,
    /// terminal handoffs, and `Continue` motion with request submission.
    /// Returns the cars that finished parking, vanished at a border, and
    /// ended a bike ride, with the count of dead-end removals.
    #[verifier::rlimit(60)]
    fn apply_moves(
        &mut self,
        moves: &Vec<(CarID, Action)>,
        Ghost(orig): Ghost<DrivingSimState>,
        Ghost(isects0): Ghost<IntersectionSim>,
        events: &mut Vec<Event>,
        time: Tick,
        map: &RoadMap,
        intersections: &mut IntersectionSim,
        current_agent: &mut Option<CarID>,
    ) -> (r: Result<(Vec<ParkedCar>, Vec<CarID>, Vec<(CarID, Position)>, Ghost<int>), SimError>)
        requires
            map.wf(),
            old(self).cars_wf(*map),
            old(self).isects_wf(*old(intersections)),
            old(self).routers_ok(),
            forall|p: int, q: int|
                0 <= p < q < moves@.len() ==> (#[trigger] moves@[p]).0 != (#[trigger] moves@[q]).0,
            forall|j: int|
                0 <= j < moves@.len() ==> {
                    &&& old(self).cars@.contains_key((#[trigger] moves@[j]).0)
                    &&& action_ok(
                        moves@[j].1,
                        old(self).cars@[moves@[j].0],
                        old(self).routers@[moves@[j].0],
                    )
                },
            orig.cars == old(self).cars,
            orig.routers == old(self).routers,
            forall|j: int|
                0 <= j < moves@.len() ==> action_matches_decision(
                    (#[trigger] moves@[j]).1,
                    spec_decision(orig, *map, isects0, moves@[j].0),
                ),
        ensures
            match r {
                Ok((finished, vanished, biked, dead)) => {
                    &&& final(self).cars_wf(*map)
                    &&& final(self).isects_wf(*final(intersections))
                    &&& final(self).queues == old(self).queues
                    &&& final(self).debug == old(self).debug
                    &&& (*final(current_agent)).is_none()
                    &&& dead@ >= 0
                    &&& final(self).cars@.dom().len() + finished@.len() + vanished@.len()
                        + biked@.len() + dead@ == old(self).cars@.dom().len()
                    &&& (dead@ != 0 ==> exists|id: CarID|
                        old(self).cars@.contains_key(id)
                            && (#[trigger] old(self).routers@[id]).pre_action == Some(
                            TerminalAction::VanishAtDeadEnd,
                        ))
                    &&& forall|id: CarID|
                        #[trigger] final(self).cars@.contains_key(id) ==> old(
                            self,
                        ).cars@.contains_key(id)
                    &&& forall|j: int|
                        0 <= j < moves@.len() ==> applied_action_ok(
                            (#[trigger] moves@[j]).0,
                            moves@[j].1,
                            *old(self),
                            final(self).cars@,
                            finished@,
                            vanished@,
                            biked@,
                            time,
                        )
                    &&& forall|i: int|
                        0 <= i < vanished@.len() ==> {
                            &&& old(self).cars@.contains_key(#[trigger] vanished@[i])
                            &&& !final(self).cars@.contains_key(vanished@[i])
                            &&& old(self).routers@[vanished@[i]].vanish_at_border
                        }
                    &&& forall|i: int|
                        0 <= i < biked@.len() ==> {
                            let (id, pos) = #[trigger] biked@[i];
                            &&& old(self).cars@.contains_key(id)
                            &&& !final(self).cars@.contains_key(id)
                            &&& old(self).routers@[id].pre_action == Some(
                                TerminalAction::StartParkingBike,
                            )
                            &&& old(self).cars@[id].on == Traversable::Lane(pos.lane)
                            &&& pos.dist_along == old(self).cars@[id].dist_along
                        }
                    &&& finished_from(*old(self), final(self).cars@, finished@, time)
                    &&& forall|j: int|
                        0 <= j < moves@.len() ==> spec_step_effect(
                            orig,
                            *map,
                            isects0,
                            (#[trigger] moves@[j]).0,
                            final(self).cars@,
                            final(self).routers@,
                            finished@,
                            vanished@,
                            biked@,
                            time,
                        )
                },
                Err(_) => match *final(current_agent) {
                    Some(c) => old(self).cars@.contains_key(c),
                    None => false,
                },
            },
    {
        let mut finished: Vec<ParkedCar> = Vec::new();
        let mut vanished: Vec<CarID> = Vec::new();
        let mut biked: Vec<(CarID, Position)> = Vec::new();
        let ghost mut dead: int = 0int;
        let n = moves.len();
        let mut i: usize = 0;
        while i < n
            invariant
                0 <= i <= n,
                n == moves@.len(),
                map.wf(),
                old(self).cars_wf(*map),
                old(self).routers_ok(),
                forall|p: int, q: int|
                    0 <= p < q < moves@.len() ==> (#[trigger] moves@[p]).0 != (
                    #[trigger] moves@[q]).0,
                forall|j: int|
                    0 <= j < moves@.len() ==> {
                        &&& old(self).cars@.contains_key((#[trigger] moves@[j]).0)
                        &&& action_ok(
                            moves@[j].1,
                            old(self).cars@[moves@[j].0],
                            old(self).routers@[moves@[j].0],
                        )
                    },
                forall|j: int|
                    i <= j < moves@.len() ==> {
                        &&& self.cars@.contains_key((#[trigger] moves@[j]).0)
                        &&& self.cars@[moves@[j].0] == old(self).cars@[moves@[j].0]
                        &&& self.routers@[moves@[j].0] == old(self).routers@[moves@[j].0]
                    },
                self.cars_wf(*map),
                self.isects_wf(*intersections),
                self.queues == old(self).queues,
                self.debug == old(self).debug,
                dead >= 0,
                self.cars@.dom().len() + finished@.len() + vanished@.len() + biked@.len() + dead
                    == old(self).cars@.dom().len(),
                dead != 0 ==> exists|id: CarID|
                    old(self).cars@.contains_key(id)
                        && (#[trigger] old(self).routers@[id]).pre_action == Some(
                        TerminalAction::VanishAtDeadEnd,
                    ),
                forall|id: CarID|
                    #[trigger] self.cars@.contains_key(id) ==> old(self).cars@.contains_key(id),
                forall|j: int|
                    0 <= j < i ==> applied_action_ok(
                        (#[trigger] moves@[j]).0,
                        moves@[j].1,
                        *old(self),
                        self.cars@,
                        finished@,
                        vanished@,
                        biked@,
                        time,
                    ),
                orig.cars == old(self).cars,
                orig.routers == old(self).routers,
                forall|j: int|
                    0 <= j < moves@.len() ==> action_matches_decision(
                        (#[trigger] moves@[j]).1,
                        spec_decision(orig, *map, isects0, moves@[j].0),
                    ),
                forall|j: int|
                    0 <= j < i ==> spec_step_effect(
                        orig,
                        *map,
                        isects0,
                        (#[trigger] moves@[j]).0,
                        self.cars@,
                        self.routers@,
                        finished@,
                        vanished@,
                        biked@,
                        time,
                    ),
                forall|w: int|
                    0 <= w < vanished@.len() ==> {
                        &&& old(self).cars@.contains_key(#[trigger] vanished@[w])
                        &&& !self.cars@.contains_key(vanished@[w])
                        &&& old(self).routers@[vanished@[w]].vanish_at_border
                    },
                forall|w: int|
                    0 <= w < biked@.len() ==> {
                        let (id, pos) = #[trigger] biked@[w];
                        &&& old(self).cars@.contains_key(id)
                        &&& !self.cars@.contains_key(id)
                        &&& old(self).routers@[id].pre_action == Some(
                            TerminalAction::StartParkingBike,
                        )
                        &&& old(self).cars@[id].on == Traversable::Lane(pos.lane)
                        &&& pos.dist_along == old(self).cars@[id].dist_along
                    },
                finished_from(*old(self), self.cars@, finished@, time),
            decreases n - i,
        {
            let ghost fin_top = finished@;
            let ghost van_top = vanished@;
            let ghost bik_top = biked@;
            let id = moves[i].0;
            *current_agent = Some(id);
            let act = &moves[i].1;
            proof {
                vstd::std_specs::btree::axiom_btree_map_view_finite_dom(self.cars);
            }
            match act {
                Action::StartParking(spot) => {
                    let c = *get_car(&self.cars, id);
                    let c2 = Car {
                        parking: Some(
                            ParkingState {
                                is_parking: true,
                                started_at: time,
                                tuple: ParkedCar::new(id, *spot, c.vehicle, c.owner),
                            },
                        ),
                        ..c
                    };
                    self.cars.insert(id, c2);
                    proof {
                        assert(applied_action_ok(
                            id,
                            moves@[i as int].1,
                            *old(self),
                            self.cars@,
                            finished@,
                            vanished@,
                            biked@,
                            time,
                        ));
                        reveal(spec_decision);
                        reveal(spec_step_effect);
                        assert(spec_step_effect(
                            orig,
                            *map,
                            isects0,
                            id,
                            self.cars@,
                            self.routers@,
                            finished@,
                            vanished@,
                            biked@,
                            time,
                        ));
                    }
                },
                Action::WorkOnParking => {
                    let c = *get_car(&self.cars, id);
                    let ps = match c.parking {
                        Some(ps) => ps,
                        None => vstd::pervasive::unreached(),
                    };
                    if ps.started_at <= u32::MAX - TIME_TO_PARK_OR_DEPART && ps.started_at
                        + TIME_TO_PARK_OR_DEPART == time {
                        if ps.is_parking {
                            finished.push(ps.tuple);
                            self.cars.remove(&id);
                            self.routers.remove(&id);
                            proof {
                                assert(finished@.last() == ps.tuple);
                                assert(finished@.contains(ps.tuple));
                            }
                        } else {
                            let c2 = Car { parking: None, ..c };
                            self.cars.insert(id, c2);
                        }
                    }
                    proof {
                        assert(applied_action_ok(
                            id,
                            moves@[i as int].1,
                            *old(self),
                            self.cars@,
                            finished@,
                            vanished@,
                            biked@,
                            time,
                        ));
                        reveal(spec_decision);
                        reveal(spec_step_effect);
                        assert(spec_step_effect(
                            orig,
                            *map,
                            isects0,
                            id,
                            self.cars@,
                            self.routers@,
                            finished@,
                            vanished@,
                            biked@,
                            time,
                        ));
                    }
                },
                Action::StartParkingBike => {
                    let c = *get_car(&self.cars, id);
                    let lane = match c.on {
                        Traversable::Lane(l) => l,
                        Traversable::Turn(_) => vstd::pervasive::unreached(),
                    };
                    biked.push((id, Position { lane, dist_along: c.dist_along }));
                    self.cars.remove(&id);
                    self.routers.remove(&id);
                    proof {
                        assert(biked@.last() == (id, Position { lane, dist_along: c.dist_along }));
                        assert(biked@.contains((id, Position { lane, dist_along: c.dist_along })));
                        reveal(spec_decision);
                        reveal(spec_step_effect);
                        assert(spec_step_effect(
                            orig,
                            *map,
                            isects0,
                            id,
                            self.cars@,
                            self.routers@,
                            finished@,
                            vanished@,
                            biked@,
                            time,
                        ));
                    }
                },
                Action::VanishAtDeadEnd => {
                    self.cars.remove(&id);
                    self.routers.remove(&id);
                    proof {
                        dead = dead + 1;
                        assert(applied_action_ok(
                            id,
                            moves@[i as int].1,
                            *old(self),
                            self.cars@,
                            finished@,
                            vanished@,
                            biked@,
                            time,
                        ));
                        reveal(spec_decision);
                        reveal(spec_step_effect);
                        assert(spec_step_effect(
                            orig,
                            *map,
                            isects0,
                            id,
                            self.cars@,
                            self.routers@,
                            finished@,
                            vanished@,
                            biked@,
                            time,
                        ));
                    }
                },
                Action::Continue(accel, requests) => {
                    let mut c2 = *get_car(&self.cars, id);
                    let mut r2 = match self.routers.remove(&id) {
                        Some(r) => r,
                        None => vstd::pervasive::unreached(),
                    };
                    let ghost c0 = c2;
                    let ghost r0 = r2;
                    let ghost occ_call = intersections.occupied@;
                    match c2.step_continue(events, &mut r2, *accel, map, intersections) {
                        Ok(true) => {
                            self.cars.remove(&id);
                            vanished.push(id);
                            proof {
                                assert(vanished@.last() == id);
                                assert(vanished@.contains(id));
                            }
                        },
                        Ok(false) => {
                            self.cars.insert(id, c2);
                            self.routers.insert(id, r2);
                            let ghost granted_snap = intersections.granted;
                            let ghost occ_snap = intersections.occupied;
                            let nr = requests.len();
                            let mut ri: usize = 0;
                            while ri < nr
                                invariant
                                    0 <= ri <= nr,
                                    nr == requests@.len(),
                                    intersections.granted == granted_snap,
                                    intersections.occupied == occ_snap,
                                decreases nr - ri,
                            {
                                intersections.submit_request(requests[ri]);
                                ri = ri + 1;
                            }
                        },
                        Err(e) => {
                            return Err(e);
                        },
                    }
                    proof {
                        assert(applied_action_ok(
                            id,
                            moves@[i as int].1,
                            *old(self),
                            self.cars@,
                            finished@,
                            vanished@,
                            biked@,
                            time,
                        ));
                        // The public effect judges the motion from the empty
                        // occupancy; an arriving or vanishing motion cannot
                        // tell it from the real one.
                        let v2 = crate::kinematics::spec_speed_after_accel(
                            c0.speed as int,
                            *accel as int,
                        );
                        let d1 = c0.dist_along + crate::kinematics::spec_dist_in_tick(
                            c0.speed as int,
                            *accel as int,
                        );
                        crate::car::lemma_motion_small_occ(
                            id,
                            c0.vehicle,
                            *map,
                            r0,
                            c0.on,
                            d1,
                            v2,
                            occ_call,
                            Map::empty(),
                        );
                        let m0 = crate::car::spec_motion(
                            id,
                            c0.vehicle,
                            *map,
                            r0,
                            c0.on,
                            d1,
                            v2,
                            Map::empty(),
                        );
                        match m0 {
                            crate::car::MotionResult::Arrive { idx, .. } => {
                                assert(self.routers@.contains_key(id));
                                assert(self.routers@[id] == (Router { idx: idx as usize, ..r0 }));
                            },
                            _ => {},
                        }
                        reveal(spec_decision);
                        reveal(spec_step_effect);
                        assert(spec_step_effect(
                            orig,
                            *map,
                            isects0,
                            id,
                            self.cars@,
                            self.routers@,
                            finished@,
                            vanished@,
                            biked@,
                            time,
                        ));
                    }
                },
            }
            proof {
                assert(self.routers@.dom() =~= self.cars@.dom());
                assert forall|j: int| 0 <= j < i + 1 implies applied_action_ok(
                    (#[trigger] moves@[j]).0,
                    moves@[j].1,
                    *old(self),
                    self.cars@,
                    finished@,
                    vanished@,
                    biked@,
                    time,
                ) && spec_step_effect(
                    orig,
                    *map,
                    isects0,
                    moves@[j].0,
                    self.cars@,
                    self.routers@,
                    finished@,
                    vanished@,
                    biked@,
                    time,
                ) by {
                    reveal(spec_decision);
                    reveal(spec_step_effect);
                    if j < i {
                        assert(moves@[j].0 != id);
                        let idj = moves@[j].0;
                        let c0 = old(self).cars@[idj];
                        match moves@[j].1 {
                            Action::WorkOnParking => {
                                let ps = c0.parking->Some_0;
                                if ps.started_at <= u32::MAX - TIME_TO_PARK_OR_DEPART
                                    && ps.started_at + TIME_TO_PARK_OR_DEPART == time
                                    && ps.is_parking {
                                    assert(fin_top.contains(ps.tuple));
                                    let w = choose|w: int|
                                        0 <= w < fin_top.len() && fin_top[w] == ps.tuple;
                                    assert(finished@[w] == ps.tuple);
                                    assert(finished@.contains(ps.tuple));
                                }
                            },
                            Action::StartParkingBike => {
                                let pos = Position {
                                    lane: c0.on->Lane_0,
                                    dist_along: c0.dist_along,
                                };
                                assert(bik_top.contains((idj, pos)));
                                let w = choose|w: int|
                                    0 <= w < bik_top.len() && bik_top[w] == (idj, pos);
                                assert(biked@[w] == (idj, pos));
                                assert(biked@.contains((idj, pos)));
                            },
                            Action::Continue(_, _) => {
                                if !self.cars@.contains_key(idj) {
                                    assert(van_top.contains(idj));
                                    let w = choose|w: int|
                                        0 <= w < van_top.len() && van_top[w] == idj;
                                    assert(vanished@[w] == idj);
                                    assert(vanished@.contains(idj));
                                }
                            },
                            _ => {},
                        }
                    }
                }
            }
            i = i + 1;
        }
        *current_agent = None;
        Ok((finished, vanished, biked, Ghost(dead)))
    }

    /// Rebuilds every queue from scratch: groups the cars by the traversable
    /// they are on, then builds and checks one queue per occupied
    /// traversable.
    #[verifier::rlimit(100)]
    #[verifier::spinoff_prover]
    fn rebuild_queues(&mut self, map: &RoadMap) -> (r: Result<(), SimError>)
        requires
            map.wf(),
            old(self).cars_wf(*map),
            old(self).queues@ == Map::<u64, SimQueue>::empty(),
        ensures
            final(self).cars == old(self).cars,
            final(self).routers == old(self).routers,
            final(self).debug == old(self).debug,
            match r {
                Ok(()) => final(self).queues_wf(),
                Err(e) => e == SimError::QueueInvariant && old(self).cars@.dom().len() > 0,
            },
    {
        broadcast use vstd::seq_lib::group_to_multiset_ensures;

        let ids = btree_keys_vec(&self.cars);
        let ghost gids = ids@;
        let n = ids.len();
        let mut mm = crate::groups::mm_new();
        let mut i: usize = 0;
        while i < n
            invariant
                0 <= i <= n,
                n == gids.len(),
                gids == ids@,
                map.wf(),
                self.cars_wf(*map),
                self == old(self),
                forall|p: int, q: int|
                    0 <= p < q < gids.len() ==> #[trigger] gids[p] < #[trigger] gids[q],
                gids.to_set() == self.cars@.dom(),
                forall|k: u64|
                    #[trigger] multimap_groups(mm).contains_key(k) <==> group_of(
                        self.cars@,
                        gids.take(i as int),
                        k,
                    ).len() > 0,
                forall|k: u64|
                    #[trigger] multimap_groups(mm).contains_key(k) ==> multimap_groups(mm)[k]
                        == group_of(self.cars@, gids.take(i as int), k),
            decreases n - i,
        {
            let id = ids[i];
            proof {
                assert(gids.to_set().contains(id));
            }
            let c = get_car(&self.cars, id);
            let k = c.on.key();
            let ghost mm_pre = mm;
            mm_insert(&mut mm, k, id);
            proof {
                reveal(Seq::filter);
                let pred = |cid: CarID| self.cars@.contains_key(cid) && self.cars@[cid].on.spec_key() == k;
                assert forall|k2: u64| true implies #[trigger] group_of(
                    self.cars@,
                    gids.take(i as int + 1),
                    k2,
                ) == (if k2 == k {
                    group_of(self.cars@, gids.take(i as int), k2).push(id)
                } else {
                    group_of(self.cars@, gids.take(i as int), k2)
                }) by {
                    let t1 = gids.take(i as int + 1);
                    assert(t1.drop_last() =~= gids.take(i as int));
                    assert(t1.last() == id);
                }
            }
            i = i + 1;
        }
        proof {
            assert(gids.take(n as int) =~= gids);
        }
        let ghost gmm = multimap_groups(mm);
        let groups = mm_into_groups(mm);
        let ghost ggroups = groups@;
        proof {
            assert forall|k: u64| group_of(self.cars@, gids, k).len() > 0 implies exists|j: int|
                0 <= j < ggroups.len() && (#[trigger] ggroups[j]).0 == k by {
                assert(gmm.contains_key(k));
            }
            assert forall|j: int| 0 <= j < ggroups.len() implies (#[trigger] ggroups[j]).1@
                == group_of(self.cars@, gids, ggroups[j].0) && group_of(
                self.cars@,
                gids,
                ggroups[j].0,
            ).len() > 0 by {
                assert(gmm.contains_key(ggroups[j].0));
            }
        }
        let ng = groups.len();
        let mut g: usize = 0;
        while g < ng
            invariant
                0 <= g <= ng,
                ng == ggroups.len(),
                ggroups == groups@,
                map.wf(),
                self.cars_wf(*map),
                self.cars == old(self).cars,
                self.routers == old(self).routers,
                self.debug == old(self).debug,
                gids.to_set() == self.cars@.dom(),
                forall|p: int, q: int|
                    0 <= p < q < gids.len() ==> #[trigger] gids[p] < #[trigger] gids[q],
                forall|p: int, q: int|
                    0 <= p < q < ggroups.len() ==> (#[trigger] ggroups[p]).0 != (
                    #[trigger] ggroups[q]).0,
                forall|j: int|
                    0 <= j < ggroups.len() ==> (#[trigger] ggroups[j]).1@ == group_of(
                        self.cars@,
                        gids,
                        ggroups[j].0,
                    ) && group_of(self.cars@, gids, ggroups[j].0).len() > 0,
                forall|k: u64|
                    group_of(self.cars@, gids, k).len() > 0 ==> exists|j: int|
                        0 <= j < ggroups.len() && (#[trigger] ggroups[j]).0 == k,
                forall|j: int|
                    0 <= j < g ==> #[trigger] self.queues@.contains_key(ggroups[j].0),
                forall|k: u64|
                    #[trigger] self.queues@.contains_key(k) ==> exists|j: int|
                        0 <= j < g && (#[trigger] ggroups[j]).0 == k,
                forall|k: u64|
                    #[trigger] self.queues@.contains_key(k) ==> built_queue_ok(
                        self.queues@[k]@,
                        self.cars@,
                        k,
                        group_of(self.cars@, gids, k),
                    ),
            decreases ng - g,
        {
            let k = groups[g].0;
            let gvec = &groups[g].1;
            proof {
                lemma_filter_distinct(
                    gids,
                    |cid: CarID| self.cars@.contains_key(cid) && self.cars@[cid].on.spec_key()
                        == k,
                );
                assert(group_of(self.cars@, gids, k).len() > 0);
                assert(self.cars@.contains_key(group_of(self.cars@, gids, k)[0]));
                assert(self.cars@[group_of(self.cars@, gids, k)[0]].on.spec_key() == k);
            }
            let on = decode_key(k);
            proof {
                assert forall|p: int, q: int| 0 <= p < q < gvec@.len() implies (
                #[trigger] gvec@[p]) != (#[trigger] gvec@[q]) by {}
                assert forall|p: int| 0 <= p < gvec@.len() implies {
                    &&& self.cars@.contains_key(#[trigger] gvec@[p])
                    &&& self.cars@[gvec@[p]].valid(*map)
                    &&& self.cars@[gvec@[p]].on == on
                } by {
                    crate::types::lemma_traversable_key_injective(
                        self.cars@[gvec@[p]].on,
                        on,
                    );
                }
            }
            let q = match SimQueue::new(on, map, gvec, &self.cars) {
                Ok(q) => q,
                Err(e) => {
                    proof {
                        let member = group_of(self.cars@, gids, k)[0];
                        assert(self.cars@.dom().contains(member));
                        vstd::std_specs::btree::axiom_btree_map_view_finite_dom(self.cars);
                        if self.cars@.dom().len() == 0 {
                            self.cars@.dom().lemma_len0_is_empty();
                        }
                    }
                    return Err(e);
                },
            };
            self.queues.insert(k, q);
            g = g + 1;
        }
        // Every car now sits in the queue of its traversable.
        proof {
            assert forall|k: u64| self.queues@.contains_key(k) implies (#[trigger] self.queues@[k])@.len()
                > 0 by {
                let j = choose|j: int| 0 <= j < ggroups.len() && (#[trigger] ggroups[j]).0 == k;
                let q = self.queues@[k]@;
                assert(ids_of(q).to_multiset() == group_of(self.cars@, gids, k).to_multiset());
                assert(ids_of(q).to_multiset().len() == ids_of(q).len());
                assert(group_of(self.cars@, gids, k).to_multiset().len() == group_of(
                    self.cars@,
                    gids,
                    k,
                ).len());
            }
            assert forall|id: CarID| self.cars@.contains_key(id) implies {
                &&& self.queues@.contains_key((#[trigger] self.cars@[id]).on.spec_key())
                &&& ids_of(self.queues@[self.cars@[id].on.spec_key()]@).contains(id)
            } by {
                let k = self.cars@[id].on.spec_key();
                let pred = |cid: CarID| self.cars@.contains_key(cid)
                    && self.cars@[cid].on.spec_key() == k;
                assert(gids.to_set().contains(id));
                let w = choose|w: int| 0 <= w < gids.len() && gids[w] == id;
                gids.lemma_filter_contains(pred, w);
                assert(group_of(self.cars@, gids, k).contains(id));
                assert(group_of(self.cars@, gids, k).len() > 0);
                let j = choose|j: int| 0 <= j < ggroups.len() && (#[trigger] ggroups[j]).0 == k;
                assert(self.queues@.contains_key(k));
                let gq = self.queues@[k]@;
                assert(group_of(self.cars@, gids, k).to_multiset().contains(id));
                assert(ids_of(gq).to_multiset().contains(id));
                assert(ids_of(gq).to_multiset().count(id) > 0);
                assert(ids_of(gq).contains(id));
            }
        }
        Ok(())
    }


    /// The reaction phase: every car decides its action against the frozen
    /// view, in ascending identifier order; the first failure aborts,
    /// naming the car. Each returned action is exactly the one the decision
    /// specification fixes for its car.
    #[verifier::rlimit(100)]
    #[verifier::spinoff_prover]
    fn react_all(
        &self,
        Ghost(old_state): Ghost<DrivingSimState>,
        Ghost(isects0): Ghost<IntersectionSim>,
        view: &WorldView,
        map: &RoadMap,
        intersections: &IntersectionSim,
        current_agent: &mut Option<CarID>,
    ) -> (r: Result<Vec<(CarID, Action)>, SimError>)
        requires
            map.wf(),
            self.cars_wf(*map),
            self.routers_ok(),
            view.wf(),
            old_state.cars@ == self.cars@,
            old_state.routers@ == self.routers@,
            isects0 == *intersections,
            view.agents@ == spec_frozen_agents(old_state),
            view.queues@ == old_state.queues@,
        ensures
            match r {
                Ok(moves) => {
                    &&& forall|p: int, q: int|
                        0 <= p < q < moves@.len() ==> (#[trigger] moves@[p]).0 != (
                        #[trigger] moves@[q]).0
                    &&& forall|j: int|
                        0 <= j < moves@.len() ==> self.cars@.contains_key(
                            (#[trigger] moves@[j]).0,
                        ) && action_ok(
                            moves@[j].1,
                            self.cars@[moves@[j].0],
                            self.routers@[moves@[j].0],
                        )
                    &&& forall|j: int|
                        0 <= j < moves@.len() ==> action_matches_decision(
                            (#[trigger] moves@[j]).1,
                            spec_decision(old_state, *map, isects0, moves@[j].0),
                        )
                    &&& forall|id: CarID|
                        #[trigger] self.cars@.contains_key(id) ==> exists|j: int|
                            0 <= j < moves@.len() && (#[trigger] moves@[j]).0 == id
                },
                Err(_) => match *final(current_agent) {
                    Some(c) => self.cars@.contains_key(c),
                    None => false,
                },
            },
    {
        // React: every car decides against the frozen view.
        let ids = btree_keys_vec(&self.cars);
        let n = ids.len();
        let mut moves: Vec<(CarID, Action)> = Vec::new();
        let mut i: usize = 0;
        while i < n
            invariant
                0 <= i <= n,
                n == ids@.len(),
                map.wf(),
                self.cars_wf(*map),
                self.routers_ok(),
                view.wf(),
                forall|p: int, q: int|
                    0 <= p < q < ids@.len() ==> #[trigger] ids@[p] < #[trigger] ids@[q],
                ids@.to_set() == self.cars@.dom(),
                moves@.len() == i,
                old_state.cars@ == self.cars@,
                old_state.routers@ == self.routers@,
                isects0 == *intersections,
                view.agents@ == spec_frozen_agents(old_state),
                view.queues@ == old_state.queues@,
                forall|j: int| 0 <= j < i ==> (#[trigger] moves@[j]).0 == ids@[j],
                forall|j: int|
                    0 <= j < i ==> self.cars@.contains_key((#[trigger] moves@[j]).0)
                        && action_ok(
                        moves@[j].1,
                        self.cars@[moves@[j].0],
                        self.routers@[moves@[j].0],
                    ),
                forall|j: int|
                    0 <= j < i ==> action_matches_decision(
                        (#[trigger] moves@[j]).1,
                        spec_decision(old_state, *map, isects0, moves@[j].0),
                    ),
            decreases n - i,
        {
            let id = ids[i];
            proof {
                assert(ids@.to_set().contains(id));
            }
            *current_agent = Some(id);
            let c = get_car(&self.cars, id);
            let router = get_router(&self.routers, id);
            match c.react(router, map, view, intersections) {
                Ok(a) => {
                    proof {
                        reveal(spec_decision);
                        assert(action_ok(a, self.cars@[id], self.routers@[id]));
                        assert(action_matches_decision(
                            a,
                            spec_decision(old_state, *map, isects0, id),
                        ));
                    }
                    moves.push((id, a));
                },
                Err(e) => {
                    return Err(e);
                },
            }
            i = i + 1;
        }
        proof {
            assert forall|id: CarID| #[trigger] self.cars@.contains_key(id) implies exists|j: int|
                0 <= j < moves@.len() && (#[trigger] moves@[j]).0 == id by {
                assert(ids@.to_set().contains(id));
                assert(ids@.contains(id));
                let j = choose|j: int| 0 <= j < ids@.len() && ids@[j] == id;
                assert(moves@[j].0 == id);
            }
            assert forall|p: int, q: int|
                0 <= p < q < moves@.len() implies (#[trigger] moves@[p]).0 != (
            #[trigger] moves@[q]).0 by {
                assert(ids@[p] < ids@[q]);
            }
        }
        Ok(moves)
    }

    /// One tick of the driving world, in two phases over a frozen snapshot:
    /// first every car decides its action against the view (reading the
    /// queues moved in there), then the actions are applied and every queue
    /// is rebuilt from the new positions. Returns the cars that finished
    /// parking, the cars that vanished at a border, and the bikes that
    /// reached their endpoint; the first failure aborts the tick, leaving
    /// `current_agent` naming the car it concerns.
    #[verifier::rlimit(100)]
    #[verifier::spinoff_prover]
    pub fn step(
        &mut self,
        view: &mut WorldView,
        events: &mut Vec<Event>,
        time: Tick,
        map: &RoadMap,
        intersections: &mut IntersectionSim,
        current_agent: &mut Option<CarID>,
    ) -> (r: Result<(Vec<ParkedCar>, Vec<CarID>, Vec<(CarID, Position)>), SimError>)
        requires
            map.wf(),
            old(self).wf(*map, *old(intersections)),
            old(self).routers_ok(),
            old(view).agents@ == Map::<CarID, AgentView>::empty(),
            old(view).queues@ == Map::<u64, SimQueue>::empty(),
        ensures
            match r {
                Ok((finished, vanished, biked)) => {
                    &&& final(self).wf(*map, *final(intersections))
                    &&& (*final(current_agent)).is_none()
                    &&& final(self).cars@.dom().len() + finished@.len() + vanished@.len()
                        + biked@.len() <= old(self).cars@.dom().len()
                    &&& ((forall|id: CarID|
                        old(self).cars@.contains_key(id)
                            ==> (#[trigger] old(self).routers@[id]).pre_action != Some(
                            TerminalAction::VanishAtDeadEnd,
                        )) ==> final(self).cars@.dom().len() + finished@.len() + vanished@.len()
                        + biked@.len() == old(self).cars@.dom().len())
                    &&& forall|id: CarID|
                        #[trigger] final(self).cars@.contains_key(id) ==> old(
                            self,
                        ).cars@.contains_key(id)
                    &&& forall|i: int|
                        0 <= i < vanished@.len() ==> {
                            &&& old(self).cars@.contains_key(#[trigger] vanished@[i])
                            &&& !final(self).cars@.contains_key(vanished@[i])
                            &&& old(self).routers@[vanished@[i]].vanish_at_border
                        }
                    &&& forall|i: int|
                        0 <= i < biked@.len() ==> {
                            let (id, pos) = #[trigger] biked@[i];
                            &&& old(self).cars@.contains_key(id)
                            &&& !final(self).cars@.contains_key(id)
                            &&& old(self).routers@[id].pre_action == Some(
                                TerminalAction::StartParkingBike,
                            )
                            &&& old(self).cars@[id].on == Traversable::Lane(pos.lane)
                            &&& pos.dist_along == old(self).cars@[id].dist_along
                        }
                    &&& finished_from(*old(self), final(self).cars@, finished@, time)
                    &&& forall|id: CarID|
                        old(self).cars@.contains_key(id) ==> #[trigger] spec_step_effect(
                            *old(self),
                            *map,
                            *old(intersections),
                            id,
                            final(self).cars@,
                            final(self).routers@,
                            finished@,
                            vanished@,
                            biked@,
                            time,
                        )
                },
                Err(e) => match *final(current_agent) {
                    Some(c) => old(self).cars@.contains_key(c),
                    None => e == SimError::QueueInvariant && old(self).cars@.dom().len() > 0,
                },
            },
    {
        let ghost old_state = *old(self);
        let ghost isects0 = *old(intersections);
        // Freeze: move the queues into the view and snapshot every car.
        core::mem::swap(&mut view.queues, &mut self.queues);
        self.populate_view(view);
        proof {
            assert(view.agents@ == spec_frozen_agents(old_state));
            assert(view.queues@ == old_state.queues@);
        }
        proof {
            lemma_frozen_view_wf(old_state, *view, *map);
        }
        // React: every car decides against the frozen view.
        let moves = match self.react_all(
            Ghost(old_state),
            Ghost(isects0),
            view,
            map,
            intersections,
            current_agent,
        ) {
            Ok(m) => m,
            Err(e) => {
                return Err(e);
            },
        };
        // Apply, then rebuild the queues from the new positions.
        let (finished, vanished, biked, dead) = match self.apply_moves(
            &moves,
            Ghost(old_state),
            Ghost(isects0),
            events,
            time,
            map,
            intersections,
            current_agent,
        ) {
            Ok(t) => t,
            Err(e) => {
                return Err(e);
            },
        };
        match self.rebuild_queues(map) {
            Ok(()) => {},
            Err(e) => {
                return Err(e);
            },
        }
        proof {
            if dead@ != 0 {
                let w = choose|id: CarID|
                    old(self).cars@.contains_key(id)
                        && (#[trigger] old(self).routers@[id]).pre_action == Some(
                        TerminalAction::VanishAtDeadEnd,
                    );
            }
            assert forall|id: CarID| old(self).cars@.contains_key(id) implies
                #[trigger] spec_step_effect(
                *old(self),
                *map,
                *old(intersections),
                id,
                self.cars@,
                self.routers@,
                finished@,
                vanished@,
                biked@,
                time,
            ) by {
                let j = choose|j: int| 0 <= j < moves@.len() && (#[trigger] moves@[j]).0 == id;
            }
        }
        Ok((finished, vanished, biked))
    }
}

/// A filtered list keeps elements of the original, and stays duplicate-free.
proof fn lemma_filter_distinct(s: Seq<u64>, pred: spec_fn(u64) -> bool)
    requires
        forall|i: int, j: int| 0 <= i < j < s.len() ==> s[i] != s[j],
    ensures
        forall|i: int|
            0 <= i < s.filter(pred).len() ==> s.contains(#[trigger] s.filter(pred)[i]),
        forall|i: int, j: int|
            0 <= i < j < s.filter(pred).len() ==> s.filter(pred)[i] != s.filter(pred)[j],
    decreases s.len(),
{
    reveal(Seq::filter);
    if s.len() == 0 {
    } else {
        let t = s.drop_last();
        assert forall|i: int, j: int| 0 <= i < j < t.len() implies t[i] != t[j] by {
            assert(t[i] == s[i] && t[j] == s[j]);
        }
        lemma_filter_distinct(t, pred);
        let ft = t.filter(pred);
        assert forall|i: int| 0 <= i < s.filter(pred).len() implies s.contains(
            #[trigger] s.filter(pred)[i],
        ) by {
            if i < ft.len() {
                assert(s.filter(pred)[i] == ft[i]);
                assert(t.contains(ft[i]));
                let w = choose|w: int| 0 <= w < t.len() && t[w] == ft[i];
                assert(s[w] == ft[i]);
            } else {
                assert(s.filter(pred)[i] == s.last());
                assert(s[s.len() - 1] == s.last());
            }
        }
        assert forall|i: int, j: int| 0 <= i < j < s.filter(pred).len() implies s.filter(pred)[i]
            != s.filter(pred)[j] by {
            if j < ft.len() {
            } else {
                // `j` names the appended last element; `i` names one of `ft`.
                assert(s.filter(pred)[j] == s.last());
                assert(s.filter(pred)[i] == ft[i]);
                assert(t.contains(ft[i]));
                let w = choose|w: int| 0 <= w < t.len() && t[w] == ft[i];
                assert(s[w] == ft[i]);
                assert(s[w] != s[s.len() - 1]);
            }
        }
    }
}

/// Everything the admission gate needs to create one car.
pub struct CreateCar {
    pub car: CarID,
    pub trip: crate::types::TripID,
    pub owner: Option<crate::types::BuildingID>,
    /// Present when the car departs from a parking spot.
    pub maybe_parked_car: Option<ParkedCar>,
    pub vehicle: crate::kinematics::Vehicle,
    pub start: Position,
    pub router: Router,
}

impl DrivingSimState {
    /// The car record admission would create.
    pub open spec fn spec_spawned_car(params: CreateCar, time: Tick) -> Car {
        Car {
            id: params.car,
            trip: params.trip,
            owner: params.owner,
            on: Traversable::Lane(params.start.lane),
            dist_along: params.start.dist_along,
            speed: 0,
            vehicle: params.vehicle,
            parking: match params.maybe_parked_car {
                Some(pc) => Some(
                    ParkingState { is_parking: false, started_at: time, tuple: pc },
                ),
                None => None,
            },
            debug: false,
        }
    }

    /// Whether admission is refused for safety: scanning a worst-case
    /// following distance ahead of the entry point, the first car at or
    /// behind that point either has already reached the entry point, or
    /// would have to brake harder than it can to avoid the newcomer.
    #[verifier::opaque]
    pub open spec fn spec_spawn_refused(self, map: RoadMap, params: CreateCar) -> bool {
        let start = params.start.dist_along as int;
        let k = Traversable::Lane(params.start.lane).spec_key();
        if self.queues@.contains_key(k) {
            match crate::queue::spec_first_behind(
                self.queues@[k]@,
                start + (crate::units::MAX_VEHICLE_LENGTH
                    + crate::units::FOLLOWING_DISTANCE_BUFFER),
            ) {
                Some(e) => {
                    let other = self.cars@[e.1];
                    let limit = other.vehicle.spec_clamp_speed(
                        map.spec_speed_limit(Traversable::Lane(params.start.lane)),
                    );
                    e.0 >= start || crate::kinematics::spec_accel_to_cover_dist_in_one_tick(
                        (start - e.0) - other.vehicle.spec_max_lookahead_dist(
                            other.speed as int,
                            limit,
                        ) - params.vehicle.spec_following_dist(),
                        other.speed as int,
                    ) <= other.vehicle.max_deaccel
                },
                None => false,
            }
        } else {
            false
        }
    }


    /// Whether only buses remain driving.
    pub fn is_done(&self) -> (r: bool)
        ensures
            r == (forall|id: CarID|
                self.cars@.contains_key(id) ==> (#[trigger] self.cars@[id]).vehicle.vehicle_type
                    == crate::kinematics::VehicleType::Bus),
    {
        let ids = btree_keys_vec(&self.cars);
        let n = ids.len();
        let mut i: usize = 0;
        while i < n
            invariant
                0 <= i <= n,
                n == ids@.len(),
                ids@.to_set() == self.cars@.dom(),
                forall|j: int| 0 <= j < ids@.len() ==> self.cars@.contains_key(#[trigger] ids@[j]),
                forall|j: int|
                    0 <= j < i ==> self.cars@[#[trigger] ids@[j]].vehicle.vehicle_type
                        == crate::kinematics::VehicleType::Bus,
            decreases n - i,
        {
            let id = ids[i];
            proof {
                assert(ids@.to_set().contains(id));
            }
            let c = get_car(&self.cars, id);
            match c.vehicle.vehicle_type {
                crate::kinematics::VehicleType::Bus => {},
                _ => {
                    return false;
                },
            }
            i = i + 1;
        }
        proof {
            assert forall|id: CarID| self.cars@.contains_key(id) implies (
            #[trigger] self.cars@[id]).vehicle.vehicle_type
                == crate::kinematics::VehicleType::Bus by {
                assert(ids@.to_set().contains(id));
                assert(ids@.contains(id));
                let j = choose|j: int| 0 <= j < ids@.len() && ids@[j] == id;
            }
        }
        true
    }

    /// How many cars are waiting (at rest up to the tolerance), and how many
    /// are active in all.
    pub fn get_active_and_waiting_count(&self) -> (r: (usize, usize))
        ensures
            r.1 == self.cars@.dom().len(),
            r.0 == self.cars@.dom().filter(
                |id: CarID| crate::kinematics::spec_is_stopped(self.cars@[id].speed as int),
            ).len(),
    {
        let ghost pred = |id: CarID| crate::kinematics::spec_is_stopped(
            self.cars@[id].speed as int,
        );
        let ids = btree_keys_vec(&self.cars);
        let n = ids.len();
        let total = self.cars.len();
        let mut waiting: usize = 0;
        let mut i: usize = 0;
        proof {
            vstd::std_specs::btree::axiom_btree_map_view_finite_dom(self.cars);
            assert(ids@.take(0).to_set() =~= Set::<CarID>::empty());
            assert(ids@.take(0).to_set().filter(pred) =~= Set::<CarID>::empty());
        }
        while i < n
            invariant
                0 <= i <= n,
                n == ids@.len(),
                waiting <= i,
                ids@.to_set() == self.cars@.dom(),
                self.cars@.dom().finite(),
                pred == (|id: CarID| crate::kinematics::spec_is_stopped(
                    self.cars@[id].speed as int,
                )),
                forall|p: int, q: int|
                    0 <= p < q < ids@.len() ==> #[trigger] ids@[p] < #[trigger] ids@[q],
                waiting as int == ids@.take(i as int).to_set().filter(pred).len(),
            decreases n - i,
        {
            let id = ids[i];
            proof {
                assert(ids@.to_set().contains(id));
                assert forall|j: int| 0 <= j < i implies ids@[j] != id by {
                    assert(ids@[j] < ids@[i as int]);
                }
                assert(!ids@.take(i as int).to_set().contains(id)) by {
                    if ids@.take(i as int).to_set().contains(id) {
                        let j = choose|j: int|
                            0 <= j < ids@.take(i as int).len() && ids@.take(i as int)[j] == id;
                        assert(ids@[j] == id);
                    }
                }
                assert(ids@.take(i as int + 1) =~= ids@.take(i as int) + seq![id]);
                Seq::<u64>::lemma_to_set_insert_commutes(ids@.take(i as int), id);
                assert(ids@.take(i as int).to_set().finite());
            }
            let c = get_car(&self.cars, id);
            if c.speed <= EPSILON_SPEED {
                proof {
                    assert(ids@.take(i as int + 1).to_set().filter(pred) =~= ids@.take(
                        i as int,
                    ).to_set().filter(pred).insert(id));
                }
                waiting = waiting + 1;
            } else {
                proof {
                    assert(ids@.take(i as int + 1).to_set().filter(pred) =~= ids@.take(
                        i as int,
                    ).to_set().filter(pred));
                }
            }
            i = i + 1;
        }
        proof {
            assert(ids@.take(n as int) =~= ids@);
        }
        (waiting, total)
    }

    /// The owning building of a car, if it is driving and owned.
    pub fn get_owner_of_car(&self, id: CarID) -> (r: Option<crate::types::BuildingID>)
        ensures
            r == (if self.cars@.contains_key(id) {
                self.cars@[id].owner
            } else {
                None
            }),
    {
        match self.cars.get(&id) {
            Some(c) => c.owner,
            None => None,
        }
    }

    /// Flips verbose logging for `id`: any other debugged car is quieted
    /// first, and nothing changes when `id` is not driving.
    pub fn toggle_debug(&mut self, id: CarID)
        ensures
            final(self).routers == old(self).routers,
            final(self).queues == old(self).queues,
            ({
                let quieted = match old(self).debug {
                    Some(c) => if c != id && old(self).cars@.contains_key(c) {
                        old(self).cars@.insert(
                            c,
                            (Car {
                                debug: false,
                                vehicle: crate::kinematics::Vehicle {
                                    debug: false,
                                    ..old(self).cars@[c].vehicle
                                },
                                ..old(self).cars@[c]
                            }),
                        )
                    } else {
                        old(self).cars@
                    },
                    None => old(self).cars@,
                };
                if old(self).cars@.contains_key(id) {
                    &&& final(self).cars@ == quieted.insert(
                        id,
                        (Car {
                            debug: !quieted[id].debug,
                            vehicle: crate::kinematics::Vehicle {
                                debug: !quieted[id].vehicle.debug,
                                ..quieted[id].vehicle
                            },
                            ..quieted[id]
                        }),
                    )
                    &&& final(self).debug == Some(id)
                } else {
                    final(self).cars@ == quieted && final(self).debug == old(self).debug
                }
            }),
    {
        match self.debug {
            Some(c) => {
                if c != id {
                    match self.cars.get(&c) {
                        Some(car) => {
                            let mut car2 = *car;
                            car2.debug = false;
                            car2.vehicle.debug = false;
                            self.cars.insert(c, car2);
                        },
                        None => {},
                    }
                }
            },
            None => {},
        }
        match self.cars.get(&id) {
            Some(car) => {
                let mut car2 = *car;
                car2.debug = !car2.debug;
                car2.vehicle.debug = !car2.vehicle.debug;
                self.cars.insert(id, car2);
                self.debug = Some(id);
            },
            None => {},
        }
    }

    /// The drawing record `get_draw_car` builds for one driving car.
    pub open spec fn spec_draw_car(self, id: CarID) -> crate::view::DrawCarInput {
        let c = self.cars@[id];
        crate::view::DrawCarInput {
            id,
            vehicle_length: c.vehicle.length,
            waiting_for_turn: match self.routers@[id].spec_step_after(
                self.routers@[id].idx as int,
            ) {
                Some(crate::router::PathStep::Turn(t)) => Some(t),
                _ => None::<crate::types::TurnID>,
            },
            on: c.on,
            dist_along: c.dist_along,
            state: if c.debug {
                crate::view::CarState::Debug
            } else if c.speed > EPSILON_SPEED {
                crate::view::CarState::Moving
            } else {
                crate::view::CarState::Stuck
            },
            vehicle_type: c.vehicle.vehicle_type,
        }
    }

    /// The non-geometric drawing record for one car: its identity, length,
    /// the turn it waits on, where it is, and whether it is debugged, moving,
    /// or stuck.
    pub fn get_draw_car(&self, id: CarID, map: &RoadMap) -> (r: Option<crate::view::DrawCarInput>)
        requires
            self.cars_wf(*map),
        ensures
            r == (if self.cars@.contains_key(id) {
                Some(self.spec_draw_car(id))
            } else {
                None::<crate::view::DrawCarInput>
            }),
    {
        let c = match self.cars.get(&id) {
            Some(c) => *c,
            None => {
                return None;
            },
        };
        let router = get_router(&self.routers, id);
        let state = if c.debug {
            crate::view::CarState::Debug
        } else if c.speed > EPSILON_SPEED {
            crate::view::CarState::Moving
        } else {
            crate::view::CarState::Stuck
        };
        Some(
            crate::view::DrawCarInput {
                id,
                vehicle_length: c.vehicle.length,
                waiting_for_turn: router.next_step_as_turn(),
                on: c.on,
                dist_along: c.dist_along,
                state,
                vehicle_type: c.vehicle.vehicle_type,
            },
        )
    }

    /// The drawing records of every car on `on`, in queue order: the car
    /// farthest along first.
    pub fn get_draw_cars(&self, on: Traversable, map: &RoadMap) -> (r: Vec<
        crate::view::DrawCarInput,
    >)
        requires
            self.cars_wf(*map),
            self.queues_wf(),
        ensures
            ({
                let k = on.spec_key();
                if self.queues@.contains_key(k) {
                    &&& r@.len() == self.queues@[k]@.len()
                    &&& forall|i: int|
                        0 <= i < r@.len() ==> r@[i] == self.spec_draw_car(
                            (#[trigger] self.queues@[k]@[i]).1,
                        )
                } else {
                    r@.len() == 0
                }
            }),
    {
        let k = on.key();
        let mut r: Vec<crate::view::DrawCarInput> = Vec::new();
        match self.queues.get(&k) {
            Some(q) => {
                let n = q.cars_queue.len();
                let mut i: usize = 0;
                while i < n
                    invariant
                        0 <= i <= n,
                        self.cars_wf(*map),
                        self.queues_wf(),
                        self.queues@.contains_key(k),
                        q == self.queues@[k],
                        n == self.queues@[k]@.len(),
                        r@.len() == i,
                        forall|j: int|
                            0 <= j < i ==> r@[j] == self.spec_draw_car(
                                (#[trigger] self.queues@[k]@[j]).1,
                            ),
                    decreases n - i,
                {
                    let id = q.cars_queue[i].1;
                    match self.get_draw_car(id, map) {
                        Some(d) => {
                            r.push(d);
                        },
                        None => {
                            proof {
                                assert(self.cars@.contains_key(self.queues@[k]@[i as int].1));
                            }
                            vstd::pervasive::unreached()
                        },
                    }
                    i = i + 1;
                }
            },
            None => {},
        }
        r
    }

    /// How many cars on the given lanes are moving, how many are stuck at
    /// rest, and how many of them are buses.
    #[verifier::rlimit(60)]
    #[verifier::spinoff_prover]
    pub fn count(&self, lanes: &Vec<LaneID>) -> (r: (usize, usize, usize))
        ensures
            r.0 == self.cars@.dom().filter(
                |id: CarID| spec_on_lanes(self.cars@[id], lanes@)
                    && !crate::kinematics::spec_is_stopped(self.cars@[id].speed as int),
            ).len(),
            r.1 == self.cars@.dom().filter(
                |id: CarID| spec_on_lanes(self.cars@[id], lanes@)
                    && crate::kinematics::spec_is_stopped(self.cars@[id].speed as int),
            ).len(),
            r.2 == self.cars@.dom().filter(
                |id: CarID| spec_on_lanes(self.cars@[id], lanes@)
                    && self.cars@[id].vehicle.vehicle_type
                        == crate::kinematics::VehicleType::Bus,
            ).len(),
    {
        let ghost moving_pred = |id: CarID| spec_on_lanes(self.cars@[id], lanes@)
            && !crate::kinematics::spec_is_stopped(self.cars@[id].speed as int);
        let ghost stuck_pred = |id: CarID| spec_on_lanes(self.cars@[id], lanes@)
            && crate::kinematics::spec_is_stopped(self.cars@[id].speed as int);
        let ghost bus_pred = |id: CarID| spec_on_lanes(self.cars@[id], lanes@)
            && self.cars@[id].vehicle.vehicle_type == crate::kinematics::VehicleType::Bus;
        let ids = btree_keys_vec(&self.cars);
        let n = ids.len();
        let mut moving: usize = 0;
        let mut stuck: usize = 0;
        let mut buses: usize = 0;
        let mut i: usize = 0;
        proof {
            vstd::std_specs::btree::axiom_btree_map_view_finite_dom(self.cars);
            assert(ids@.take(0).to_set() =~= Set::<CarID>::empty());
            assert(ids@.take(0).to_set().filter(moving_pred) =~= Set::<CarID>::empty());
            assert(ids@.take(0).to_set().filter(stuck_pred) =~= Set::<CarID>::empty());
            assert(ids@.take(0).to_set().filter(bus_pred) =~= Set::<CarID>::empty());
        }
        while i < n
            invariant
                0 <= i <= n,
                n == ids@.len(),
                moving <= i,
                stuck <= i,
                buses <= i,
                ids@.to_set() == self.cars@.dom(),
                self.cars@.dom().finite(),
                moving_pred == (|id: CarID| spec_on_lanes(self.cars@[id], lanes@)
                    && !crate::kinematics::spec_is_stopped(self.cars@[id].speed as int)),
                stuck_pred == (|id: CarID| spec_on_lanes(self.cars@[id], lanes@)
                    && crate::kinematics::spec_is_stopped(self.cars@[id].speed as int)),
                bus_pred == (|id: CarID| spec_on_lanes(self.cars@[id], lanes@)
                    && self.cars@[id].vehicle.vehicle_type
                        == crate::kinematics::VehicleType::Bus),
                forall|p: int, q: int|
                    0 <= p < q < ids@.len() ==> #[trigger] ids@[p] < #[trigger] ids@[q],
                moving as int == ids@.take(i as int).to_set().filter(moving_pred).len(),
                stuck as int == ids@.take(i as int).to_set().filter(stuck_pred).len(),
                buses as int == ids@.take(i as int).to_set().filter(bus_pred).len(),
            decreases n - i,
        {
            let id = ids[i];
            proof {
                assert(ids@.to_set().contains(id));
                assert forall|j: int| 0 <= j < i implies ids@[j] != id by {
                    assert(ids@[j] < ids@[i as int]);
                }
                assert(!ids@.take(i as int).to_set().contains(id)) by {
                    if ids@.take(i as int).to_set().contains(id) {
                        let j = choose|j: int|
                            0 <= j < ids@.take(i as int).len() && ids@.take(i as int)[j] == id;
                        assert(ids@[j] == id);
                    }
                }
                assert(ids@.take(i as int + 1) =~= ids@.take(i as int) + seq![id]);
                Seq::<u64>::lemma_to_set_insert_commutes(ids@.take(i as int), id);
                assert(ids@.take(i as int).to_set().finite());
            }
            let c = get_car(&self.cars, id);
            let on_lane = match c.on {
                Traversable::Lane(l) => lanes_contain(lanes, l),
                Traversable::Turn(_) => false,
            };
            if on_lane {
                if c.speed > EPSILON_SPEED {
                    moving = moving + 1;
                    proof {
                        assert(ids@.take(i as int + 1).to_set().filter(moving_pred)
                            =~= ids@.take(i as int).to_set().filter(moving_pred).insert(id));
                    }
                } else {
                    stuck = stuck + 1;
                    proof {
                        assert(ids@.take(i as int + 1).to_set().filter(stuck_pred)
                            =~= ids@.take(i as int).to_set().filter(stuck_pred).insert(id));
                    }
                }
                let is_bus = match c.vehicle.vehicle_type {
                    crate::kinematics::VehicleType::Bus => true,
                    _ => false,
                };
                if is_bus {
                    buses = buses + 1;
                    proof {
                        assert(ids@.take(i as int + 1).to_set().filter(bus_pred)
                            =~= ids@.take(i as int).to_set().filter(bus_pred).insert(id));
                    }
                }
            }
            proof {
                if !moving_pred(id) {
                    assert(ids@.take(i as int + 1).to_set().filter(moving_pred)
                        =~= ids@.take(i as int).to_set().filter(moving_pred));
                }
                if !stuck_pred(id) {
                    assert(ids@.take(i as int + 1).to_set().filter(stuck_pred)
                        =~= ids@.take(i as int).to_set().filter(stuck_pred));
                }
                if !bus_pred(id) {
                    assert(ids@.take(i as int + 1).to_set().filter(bus_pred)
                        =~= ids@.take(i as int).to_set().filter(bus_pred));
                }
            }
            i = i + 1;
        }
        proof {
            assert(ids@.take(n as int) =~= ids@);
        }
        (moving, stuck, buses)
    }

    /// The admission safety check against the car behind the entry point.
    #[verifier::rlimit(60)]
    #[verifier::spinoff_prover]
    fn spawn_refused(&self, map: &RoadMap, params: &CreateCar) -> (r: bool)
        requires
            map.wf(),
            self.cars_wf(*map),
            self.queues_wf(),
            params.vehicle.valid(),
            map.spec_contains(Traversable::Lane(params.start.lane)),
            0 <= params.start.dist_along <= map.spec_length(Traversable::Lane(params.start.lane)),
        ensures
            r == self.spec_spawn_refused(*map, *params),
    {
        proof {
            reveal(DrivingSimState::spec_spawn_refused);
        }
        let start_on = Traversable::Lane(params.start.lane);
        let start_dist = params.start.dist_along;
        let k = start_on.key();
        match self.queues.get(&k) {
            Some(q) => {
                proof {
                    crate::queue::lemma_spec_first_behind_entry(
                        q@,
                        start_dist as int + (crate::units::MAX_VEHICLE_LENGTH
                            + crate::units::FOLLOWING_DISTANCE_BUFFER),
                    );
                }
                match q.first_car_behind(
                    start_dist + crate::kinematics::Vehicle::worst_case_following_dist(),
                ) {
                    Some(other_id) => {
                        proof {
                            let d = start_dist as int + (crate::units::MAX_VEHICLE_LENGTH
                                + crate::units::FOLLOWING_DISTANCE_BUFFER);
                            let e = crate::queue::spec_first_behind(q@, d)->Some_0;
                            let w = choose|p: int| 0 <= p < q@.len() && (#[trigger] q@[p]) == e;
                            assert(self.queues@[k]@[w] == e);
                            assert(self.cars@.contains_key(e.1));
                            crate::types::lemma_traversable_key_injective(
                                self.cars@[e.1].on,
                                start_on,
                            );
                        }
                        let other = *get_car(&self.cars, other_id);
                        if other.dist_along >= start_dist {
                            return true;
                        }
                        let limit = other.vehicle.clamp_speed(map.speed_limit_of(start_on));
                        proof {
                            assert(map.segments@[start_on.spec_key()].valid());
                        }
                        let accel_for_other_to_stop = match other.vehicle.accel_to_follow(
                            other.speed,
                            limit,
                            &params.vehicle,
                            start_dist - other.dist_along,
                            0,
                        ) {
                            Ok(a) => a,
                            Err(_) => vstd::pervasive::unreached(),
                        };
                        accel_for_other_to_stop <= other.vehicle.max_deaccel
                    },
                    None => false,
                }
            },
            None => false,
        }
    }

    /// Admission gate: starts `params.car` at rest at `params.start` if it
    /// is safe, registering its route plan and queue entry and reporting the
    /// entry event; refuses, changing nothing, if not. Succeeds if and only
    /// if nobody behind is endangered and the newcomer fits its queue.
    #[verifier::rlimit(100)]
    #[verifier::spinoff_prover]
    pub fn start_car_on_lane(
        &mut self,
        events: &mut Vec<Event>,
        time: Tick,
        map: &RoadMap,
        params: CreateCar,
    ) -> (r: bool)
        requires
            map.wf(),
            old(self).cars_wf(*map),
            old(self).queues_wf(),
            params.vehicle.valid(),
            map.spec_contains(Traversable::Lane(params.start.lane)),
            0 <= params.start.dist_along <= map.spec_length(
                Traversable::Lane(params.start.lane),
            ),
            !old(self).cars@.contains_key(params.car),
            params.router.wf(),
            params.router.spec_current() == Traversable::Lane(params.start.lane),
            router_on_map(params.router, *map),
        ensures
            r == !old(self).spec_spawn_refused(*map, params),
            !r ==> {
                &&& final(self).cars@ == old(self).cars@
                &&& final(self).routers@ == old(self).routers@
                &&& final(self).queues@ == old(self).queues@
                &&& final(events)@ == old(events)@
            },
            r ==> {
                &&& final(self).cars@ == old(self).cars@.insert(
                    params.car,
                    Self::spec_spawned_car(params, time),
                )
                &&& final(self).routers@ == old(self).routers@.insert(params.car, params.router)
                &&& final(self).cars_wf(*map)
                &&& final(events)@ == old(events)@.push(
                    Event::AgentEntersTraversable(
                        params.car,
                        Traversable::Lane(params.start.lane),
                    ),
                )
                &&& (forall|isects: IntersectionSim|
                    old(self).isects_wf(isects) ==> final(self).isects_wf(isects))
                &&& (!old(self).queues@.contains_key(
                    Traversable::Lane(params.start.lane).spec_key(),
                ) ==> final(self).queues_wf())
                &&& ({
                    let k = Traversable::Lane(params.start.lane).spec_key();
                    &&& final(self).queues@.contains_key(k)
                    &&& final(self).queues@ == old(self).queues@.insert(
                        k,
                        final(self).queues@[k],
                    )
                    &&& final(self).queues@[k]@ == (if old(self).queues@.contains_key(k) {
                        old(self).queues@[k]@.insert(
                            crate::queue::spec_insert_pos(
                                old(self).queues@[k]@,
                                params.start.dist_along as int,
                            ),
                            (params.start.dist_along, params.car),
                        )
                    } else {
                        seq![(params.start.dist_along, params.car)]
                    })
                })
            },
    {
        let ghost old_state = *old(self);
        let id = params.car;
        let start_on = Traversable::Lane(params.start.lane);
        let start_dist = params.start.dist_along;
        let k = start_on.key();
        // Is it safe to enter the lane right now? Scan ahead of the entry
        // point so nobody's back is hit.
        if self.spawn_refused(map, &params) {
            return false;
        }
        self.spawn_commit(events, time, map, params)
    }

    /// Commits an admitted spawn: registers the car at rest with its plan
    /// and places it into its lane's queue, in descending-distance order.
    #[verifier::rlimit(100)]
    #[verifier::spinoff_prover]
    fn spawn_commit(
        &mut self,
        events: &mut Vec<Event>,
        time: Tick,
        map: &RoadMap,
        params: CreateCar,
    ) -> (r: bool)
        requires
            map.wf(),
            old(self).cars_wf(*map),
            old(self).queues_wf(),
            params.vehicle.valid(),
            map.spec_contains(Traversable::Lane(params.start.lane)),
            0 <= params.start.dist_along <= map.spec_length(
                Traversable::Lane(params.start.lane),
            ),
            !old(self).cars@.contains_key(params.car),
            params.router.wf(),
            params.router.spec_current() == Traversable::Lane(params.start.lane),
            router_on_map(params.router, *map),
        ensures
            r,
            final(self).cars@ == old(self).cars@.insert(
                params.car,
                Self::spec_spawned_car(params, time),
            ),
            final(self).routers@ == old(self).routers@.insert(params.car, params.router),
            final(self).cars_wf(*map),
            final(events)@ == old(events)@.push(
                Event::AgentEntersTraversable(
                    params.car,
                    Traversable::Lane(params.start.lane),
                ),
            ),
            forall|isects: IntersectionSim|
                old(self).isects_wf(isects) ==> final(self).isects_wf(isects),
            !old(self).queues@.contains_key(Traversable::Lane(params.start.lane).spec_key())
                ==> final(self).queues_wf(),
            ({
                let k = Traversable::Lane(params.start.lane).spec_key();
                &&& final(self).queues@.contains_key(k)
                &&& final(self).queues@ == old(self).queues@.insert(k, final(self).queues@[k])
                &&& final(self).queues@[k]@ == (if old(self).queues@.contains_key(k) {
                    old(self).queues@[k]@.insert(
                        crate::queue::spec_insert_pos(
                            old(self).queues@[k]@,
                            params.start.dist_along as int,
                        ),
                        (params.start.dist_along, params.car),
                    )
                } else {
                    seq![(params.start.dist_along, params.car)]
                })
            })
    {
        let ghost old_state = *old(self);
        let ghost gparams = params;
        let id = params.car;
        let start_lane = params.start.lane;
        let start_on = Traversable::Lane(params.start.lane);
        let start_dist = params.start.dist_along;
        let k = start_on.key();
        // Create the car at rest and register its plan.
        let c = Car {
            id,
            trip: params.trip,
            owner: params.owner,
            on: start_on,
            dist_along: start_dist,
            speed: 0,
            vehicle: params.vehicle,
            parking: match params.maybe_parked_car {
                Some(pc) => Some(
                    ParkingState { is_parking: false, started_at: time, tuple: pc },
                ),
                None => None,
            },
            debug: false,
        };
        self.cars.insert(id, c);
        self.routers.insert(id, params.router);
        proof {
            assert(self.cars_wf(*map)) by {
                assert(self.routers@.dom() =~= self.cars@.dom());
                assert(map.segments@[start_on.spec_key()].valid());
            }
        }
        // Enter the lane's queue, keeping the descending order.
        let queue_exists = self.queues.contains_key(&k);
        if queue_exists {
            let mut q = match self.queues.remove(&k) {
                Some(q) => q,
                None => vstd::pervasive::unreached(),
            };
            let ghost qpre = q@;
            let idx = q.insert_at(id, start_dist);
            self.queues.insert(k, q);
            proof {
                assert(qpre == old_state.queues@[k]@);
                assert(self.queues@ =~= old_state.queues@.insert(k, self.queues@[k]));
            }
        } else {
            let mut cq: Vec<(crate::units::Distance, CarID)> = Vec::new();
            cq.push((start_dist, id));
            proof {
                assert(cq@ =~= seq![(start_dist, id)]);
            }
            self.queues.insert(k, SimQueue { cars_queue: cq });
            proof {
                assert(self.queues@ =~= old_state.queues@.insert(k, self.queues@[k]));
                lemma_spawn_wf_fresh(old_state, *self, *map, gparams, time);
            }
        }
        events.push(Event::AgentEntersTraversable(id, start_on));
        true
    }
}

/// After an admitted spawn onto an empty traversable, the store is well
/// formed.
#[verifier::rlimit(100)]
#[verifier::spinoff_prover]
proof fn lemma_spawn_wf_fresh(
    pre: DrivingSimState,
    post: DrivingSimState,
    map: RoadMap,
    params: CreateCar,
    time: Tick,
)
    requires
        map.wf(),
        pre.cars_wf(map),
        pre.queues_wf(),
        params.vehicle.valid(),
        map.spec_contains(Traversable::Lane(params.start.lane)),
        0 <= params.start.dist_along <= map.spec_length(Traversable::Lane(params.start.lane)),
        !pre.cars@.contains_key(params.car),
        params.router.wf(),
        params.router.spec_current() == Traversable::Lane(params.start.lane),
        router_on_map(params.router, map),
        !pre.queues@.contains_key(Traversable::Lane(params.start.lane).spec_key()),
        post.cars@ == pre.cars@.insert(
            params.car,
            DrivingSimState::spec_spawned_car(params, time),
        ),
        post.routers@ == pre.routers@.insert(params.car, params.router),
        post.queues@.contains_key(Traversable::Lane(params.start.lane).spec_key()),
        post.queues@[Traversable::Lane(params.start.lane).spec_key()]@ == seq![
            (params.start.dist_along, params.car),
        ],
        post.queues@ == pre.queues@.insert(
            Traversable::Lane(params.start.lane).spec_key(),
            post.queues@[Traversable::Lane(params.start.lane).spec_key()],
        ),
    ensures
        post.cars_wf(map),
        post.queues_wf(),
        forall|isects: IntersectionSim| pre.isects_wf(isects) ==> post.isects_wf(isects),
{
    let id = params.car;
    let start_on = Traversable::Lane(params.start.lane);
    let k = start_on.spec_key();
    let c = DrivingSimState::spec_spawned_car(params, time);
    assert(post.cars_wf(map)) by {
        assert(post.routers@.dom() =~= post.cars@.dom());
        assert(map.segments@[k].valid());
        assert(c.valid(map));
    }
    let qnew = post.queues@[k]@;
    assert(qnew.len() == 1);
    assert(qnew[0] == (params.start.dist_along, id));
    assert(post.queues_wf()) by {
        assert forall|k2: u64| post.queues@.contains_key(k2) implies {
            let q = (#[trigger] post.queues@[k2])@;
            &&& sorted_desc(q)
            &&& distinct_ids(q)
            &&& gaps_ok(q, post.cars@)
            &&& forall|p: int|
                0 <= p < q.len() ==> {
                    &&& post.cars@.contains_key((#[trigger] q[p]).1)
                    &&& post.cars@[q[p].1].on.spec_key() == k2
                    &&& q[p].0 == post.cars@[q[p].1].dist_along
                }
        } by {
            if k2 != k {
                assert(pre.queues@.contains_key(k2));
                assert(post.queues@[k2] == pre.queues@[k2]);
                let q = post.queues@[k2]@;
                assert forall|p: int| 0 <= p < q.len() implies {
                    &&& post.cars@.contains_key((#[trigger] q[p]).1)
                    &&& post.cars@[q[p].1].on.spec_key() == k2
                    &&& q[p].0 == post.cars@[q[p].1].dist_along
                } by {
                    assert(pre.queues@[k2]@[p] == q[p]);
                    assert(pre.cars@.contains_key(q[p].1));
                }
                assert forall|p: int|
                    0 <= p < q.len() - 1 implies (#[trigger] q[p]).0 - q[p + 1].0
                    >= post.cars@[q[p].1].vehicle.spec_following_dist() by {
                    assert(pre.queues@[k2]@[p] == q[p]);
                    assert(pre.cars@.contains_key(q[p].1));
                }
            }
        }
        assert forall|id2: CarID| post.cars@.contains_key(id2) implies {
            &&& post.queues@.contains_key((#[trigger] post.cars@[id2]).on.spec_key())
            &&& crate::queue::ids_of(
                post.queues@[post.cars@[id2].on.spec_key()]@,
            ).contains(id2)
        } by {
            if id2 == id {
                assert(crate::queue::ids_of(qnew)[0] == id);
                assert(crate::queue::ids_of(qnew).contains(id));
            } else {
                assert(pre.cars@.contains_key(id2));
                let k2 = pre.cars@[id2].on.spec_key();
                assert(pre.queues@.contains_key(k2));
                assert(crate::queue::ids_of(pre.queues@[k2]@).contains(id2));
                assert(k2 != k);
                assert(post.queues@[k2] == pre.queues@[k2]);
            }
        }
    }
}

} // verus!
