//! The per-car record, its invariants, and the apply-phase motion step.

use vstd::prelude::*;

use crate::intersections::IntersectionSim;
use crate::kinematics::{
    results_of_accel_for_one_tick, SimError, Vehicle,
};
use crate::map::RoadMap;
use crate::router::{PathStep, Router, TerminalAction};
use crate::queue::SimQueue;
use crate::view::{AgentView, WorldView};
use crate::types::{BuildingID, CarID, Event, LaneID, Request, Traversable, TripID, TurnID};
use crate::units::{
    Acceleration, Distance, Speed, Tick, EPSILON_DIST, EPSILON_SPEED, FOLLOWING_DISTANCE_BUFFER,
    MAX_ACCEL_MAG, MAX_SPEED, MAX_TRAVERSABLE_LENGTH, MAX_VEHICLE_LENGTH,
};

verus! {

/// A claim on one parking spot of a lane.
#[derive(Clone, Copy, PartialEq, Eq, Structural, Debug)]
pub struct ParkingSpot {
    pub lane: LaneID,
    pub idx: u32,
}

/// Everything the parking subsystem needs to take a car over.
#[derive(Clone, Copy, PartialEq, Eq, Structural, Debug)]
pub struct ParkedCar {
    pub car: CarID,
    pub spot: ParkingSpot,
    pub vehicle: Vehicle,
    pub owner: Option<BuildingID>,
}

impl ParkedCar {
    /// Packages the handoff record.
    pub fn new(car: CarID, spot: ParkingSpot, vehicle: Vehicle, owner: Option<BuildingID>) -> (r:
        ParkedCar)
        ensures
            r == (ParkedCar { car, spot, vehicle, owner }),
    {
        ParkedCar { car, spot, vehicle, owner }
    }
}

/// A car easing into (or out of) a parking spot.
#[derive(Clone, Copy, PartialEq, Eq, Structural, Debug)]
pub struct ParkingState {
    /// True while parking; false while departing.
    pub is_parking: bool,
    /// Tick the maneuver began.
    pub started_at: Tick,
    /// The record handed to the parking subsystem when done.
    pub tuple: ParkedCar,
}

/// What the reaction phase decides for one car; applied afterwards.
#[derive(Clone, PartialEq, Eq, Debug)]
pub enum Action {
    /// Begin the parking maneuver into the spot.
    StartParking(ParkingSpot),
    /// Keep waiting out the parking or departing timer.
    WorkOnParking,
    /// The bike reached its endpoint; remove it and report the position.
    StartParkingBike,
    /// Drive on with this acceleration, then submit these requests.
    Continue(Acceleration, Vec<Request>),
    /// The path dead-ends here; remove the car.
    VanishAtDeadEnd,
}

/// One actively driving (or parking) car.
#[derive(Clone, Copy, PartialEq, Eq, Debug)]
pub struct Car {
    pub id: CarID,
    pub trip: TripID,
    pub owner: Option<BuildingID>,
    /// The lane or turn the car is on.
    pub on: Traversable,
    /// Current speed; never negative.
    pub speed: Speed,
    /// Position along `on`, from its start.
    pub dist_along: Distance,
    pub vehicle: Vehicle,
    /// Present while the car parks or departs.
    pub parking: Option<ParkingState>,
    /// Verbose logging flag; no effect on motion.
    pub debug: bool,
}

impl Car {
    /// The car's record invariant against the map: a valid vehicle, a
    /// position inside its traversable, a speed within the clamped limit,
    /// and rest while parking.
    pub open spec fn valid(self, map: RoadMap) -> bool {
        &&& self.vehicle.valid()
        &&& map.spec_contains(self.on)
        &&& 0 <= self.dist_along <= map.spec_length(self.on)
        &&& 0 <= self.speed <= self.vehicle.spec_clamp_speed(map.spec_speed_limit(self.on))
        &&& self.parking.is_some() ==> crate::kinematics::spec_is_stopped(self.speed as int)
    }
}

/// Every step of the route from the cursor on crosses a registered segment.
pub open spec fn router_on_map(r: Router, map: RoadMap) -> bool {
    forall|i: int|
        r.idx <= i < r.steps@.len() ==> map.spec_contains(
            (#[trigger] r.steps@[i]).spec_as_traversable(),
        )
}

/// Outcome of the apply-phase motion across traversable boundaries: where
/// the car comes to rest this tick (or that it crossed the map border), the
/// turn occupancy afterwards, and the exact event suffix emitted.
pub enum MotionResult {
    Arrive {
        on: Traversable,
        dist: int,
        idx: int,
        occupied: Map<TurnID, CarID>,
        events: Seq<Event>,
    },
    Vanish { occupied: Map<TurnID, CarID>, events: Seq<Event> },
    Fail { err: SimError },
}

/// The motion of one car after its tick's distance has been added: starting
/// on `on` at `dist` with the route cursor at `idx` and turn occupancy
/// `occ`, the car fails if its speed exceeds the clamped limit of a reached
/// traversable; stops where it is (snapped to just short of the end, never
/// below zero, when within `EPSILON_DIST` of it); and otherwise crosses the
/// boundary: it releases a departed turn, emits the leave event, vanishes if
/// the route ends at the border, and else advances to the next step —
/// failing if none remains, or if the entered turn is already occupied —
/// claims an entered turn, emits the enter event, and carries the leftover
/// distance onward.
pub open spec fn spec_motion(
    id: CarID,
    vehicle: Vehicle,
    map: RoadMap,
    router: Router,
    on: Traversable,
    dist: int,
    speed: int,
    occ: Map<TurnID, CarID>,
) -> MotionResult
    decreases router.steps@.len() - router.idx,
{
    if !(router.idx < router.steps@.len() && router.steps@.len() <= usize::MAX) {
        MotionResult::Fail { err: SimError::RouterInvariant }
    } else if speed > vehicle.spec_clamp_speed(map.spec_speed_limit(on)) {
        MotionResult::Fail { err: SimError::SpeedExceeded }
    } else {
        let length = map.spec_length(on);
        let leftover = dist - length;
        if leftover <= EPSILON_DIST {
            let d2 = if leftover > 0 {
                if length - EPSILON_DIST >= 0 {
                    length - EPSILON_DIST
                } else {
                    0
                }
            } else {
                dist
            };
            MotionResult::Arrive {
                on,
                dist: d2,
                idx: router.idx as int,
                occupied: occ,
                events: Seq::empty(),
            }
        } else {
            let occ1 = match on {
                Traversable::Turn(t) => occ.remove(t),
                Traversable::Lane(_) => occ,
            };
            if router.vanish_at_border {
                MotionResult::Vanish {
                    occupied: occ1,
                    events: seq![Event::AgentLeavesTraversable(id, on)],
                }
            } else {
                match router.spec_step_after(router.idx as int) {
                    None => MotionResult::Fail { err: SimError::RouterInvariant },
                    Some(step) => {
                        let on2 = step.spec_as_traversable();
                        if step matches PathStep::Turn(t2) && occ1.contains_key(t2) {
                            MotionResult::Fail { err: SimError::IntersectionInvariant }
                        } else {
                            let occ2 = match step {
                                PathStep::Turn(t2) => occ1.insert(t2, id),
                                PathStep::Lane(_) => occ1,
                            };
                            match spec_motion(
                                id,
                                vehicle,
                                map,
                                Router { idx: (router.idx + 1) as usize, ..router },
                                on2,
                                leftover,
                                speed,
                                occ2,
                            ) {
                                MotionResult::Arrive { on: o, dist: d, idx: i2, occupied, events } => MotionResult::Arrive {
                                    on: o,
                                    dist: d,
                                    idx: i2,
                                    occupied,
                                    events: seq![
                                        Event::AgentLeavesTraversable(id, on),
                                        Event::AgentEntersTraversable(id, on2),
                                    ] + events,
                                },
                                MotionResult::Vanish { occupied, events } => MotionResult::Vanish {
                                    occupied,
                                    events: seq![
                                        Event::AgentLeavesTraversable(id, on),
                                        Event::AgentEntersTraversable(id, on2),
                                    ] + events,
                                },
                                MotionResult::Fail { err } => MotionResult::Fail { err },
                            }
                        }
                    },
                }
            }
        }
    }
}

/// Executable motion walk; mirrors `spec_motion` branch for branch.
#[verifier::rlimit(100)]
#[verifier::spinoff_prover]
fn motion_rec(
    car: &mut Car,
    events: &mut Vec<Event>,
    router: &mut Router,
    map: &RoadMap,
    intersections: &mut IntersectionSim,
) -> (r: Result<bool, SimError>)
    requires
        map.wf(),
        old(car).vehicle.valid(),
        old(car).parking.is_none(),
        map.spec_contains(old(car).on),
        0 <= old(car).dist_along <= 2 * MAX_TRAVERSABLE_LENGTH,
        0 <= old(car).speed <= MAX_SPEED + MAX_ACCEL_MAG,
        old(router).wf(),
        old(router).spec_current() == old(car).on,
        router_on_map(*old(router), *map),
        match old(car).on {
            Traversable::Turn(t) => old(intersections).occupied@.contains_key(t)
                && old(intersections).occupied@[t] == old(car).id,
            Traversable::Lane(_) => true,
        },
    ensures
        final(events)@.len() >= old(events)@.len(),
        forall|i: int| 0 <= i < old(events)@.len() ==> final(events)@[i] == old(events)@[i],
        final(car).id == old(car).id,
        final(car).trip == old(car).trip,
        final(car).owner == old(car).owner,
        final(car).vehicle == old(car).vehicle,
        final(car).parking == old(car).parking,
        final(car).debug == old(car).debug,
        final(car).speed == old(car).speed,
        final(router).steps == old(router).steps,
        final(router).stop_early == old(router).stop_early,
        final(router).vanish_at_border == old(router).vanish_at_border,
        final(router).pre_action == old(router).pre_action,
        final(router).idx >= old(router).idx,
        final(intersections).granted == old(intersections).granted,
        final(intersections).requests == old(intersections).requests,
        forall|t: TurnID|
            #[trigger] old(intersections).occupied@.contains_key(t)
                && old(intersections).occupied@[t] != old(car).id
                ==> final(intersections).occupied@.contains_key(t)
                    && final(intersections).occupied@[t] == old(intersections).occupied@[t],
        ({
            let m = spec_motion(
                old(car).id,
                old(car).vehicle,
                *map,
                *old(router),
                old(car).on,
                old(car).dist_along as int,
                old(car).speed as int,
                old(intersections).occupied@,
            );
            match r {
                Ok(vanished) => match m {
                    MotionResult::Arrive { on, dist, idx, occupied, events: ev } => {
                        &&& !vanished
                        &&& final(car).on == on
                        &&& final(car).dist_along == dist
                        &&& final(router).idx == idx
                        &&& final(router).wf()
                        &&& final(router).spec_current() == final(car).on
                        &&& router_on_map(*final(router), *map)
                        &&& final(intersections).occupied@ == occupied
                        &&& final(events)@ == old(events)@ + ev
                        &&& final(car).valid(*map)
                        &&& match final(car).on {
                            Traversable::Turn(t) => final(intersections).occupied@.contains_key(
                                t,
                            ) && final(intersections).occupied@[t] == final(car).id,
                            Traversable::Lane(_) => true,
                        }
                    },
                    MotionResult::Vanish { occupied, events: ev } => {
                        &&& vanished
                        &&& final(intersections).occupied@ == occupied
                        &&& final(events)@ == old(events)@ + ev
                        &&& old(router).vanish_at_border
                    },
                    MotionResult::Fail { .. } => false,
                },
                Err(e) => m == (MotionResult::Fail { err: e }),
            }
        }),
    decreases old(router).steps@.len() - old(router).idx,
{
    let ghost m = spec_motion(
        old(car).id,
        old(car).vehicle,
        *map,
        *old(router),
        old(car).on,
        old(car).dist_along as int,
        old(car).speed as int,
        old(intersections).occupied@,
    );
    let n = router.steps.len();
    proof {
        assert(old(router).idx < n);
    }
    let limit = car.vehicle.clamp_speed(map.speed_limit_of(car.on));
    if car.speed > limit {
        return Err(SimError::SpeedExceeded);
    }
    let length = map.length_of(car.on);
    let leftover = car.dist_along - length;
    if leftover <= EPSILON_DIST {
        if leftover > 0 {
            // Snap to just short of the end, never below zero.
            if length - EPSILON_DIST >= 0 {
                car.dist_along = length - EPSILON_DIST;
            } else {
                car.dist_along = 0;
            }
        }
        proof {
            assert(events@ =~= events@ + Seq::<Event>::empty());
        }
        return Ok(false);
    }
    let ghost ev0 = events@;
    if let Traversable::Turn(t) = car.on {
        intersections.on_exit(Request::for_car(car.id, t));
    }
    events.push(Event::AgentLeavesTraversable(car.id, car.on));
    if router.should_vanish_at_border() {
        proof {
            assert(events@ =~= ev0 + seq![Event::AgentLeavesTraversable(car.id, car.on)]);
        }
        return Ok(true);
    }
    let ghost on1 = car.on;
    match router.finished_step() {
        Some(step) => {
            match step {
                PathStep::Lane(l) => {
                    car.on = Traversable::Lane(l);
                },
                PathStep::Turn(t2) => {
                    car.on = Traversable::Turn(t2);
                    match intersections.on_enter(Request::for_car(car.id, t2)) {
                        Ok(()) => {},
                        Err(e) => {
                            return Err(e);
                        },
                    }
                },
            }
        },
        None => {
            return Err(SimError::RouterInvariant);
        },
    }
    car.dist_along = leftover;
    events.push(Event::AgentEntersTraversable(car.id, car.on));
    let ghost router_mid = *router;
    let ghost intersections_mid_occ = intersections.occupied@;
    let ghost ev_mid = events@;
    proof {
        assert(ev_mid =~= ev0 + seq![
            Event::AgentLeavesTraversable(car.id, on1),
            Event::AgentEntersTraversable(car.id, car.on),
        ]);
    }
    let ghost on2 = car.on;
    let r = motion_rec(car, events, router, map, intersections);
    proof {
        let pair = seq![
            Event::AgentLeavesTraversable(old(car).id, on1),
            Event::AgentEntersTraversable(old(car).id, on2),
        ];
        assert(ev_mid == ev0 + pair);
        assert(router_mid == Router { idx: (old(router).idx + 1) as usize, ..*old(router) });
        let m_deep = spec_motion(
            old(car).id,
            old(car).vehicle,
            *map,
            router_mid,
            on2,
            leftover as int,
            old(car).speed as int,
            intersections_mid_occ,
        );
        match m_deep {
            MotionResult::Arrive { events: ev, .. } => {
                assert(events@ =~= ev0 + (pair + ev));
            },
            MotionResult::Vanish { events: ev, .. } => {
                assert(events@ =~= ev0 + (pair + ev));
            },
            MotionResult::Fail { .. } => {},
        }
        assert forall|t: TurnID|
            #[trigger] old(intersections).occupied@.contains_key(t)
                && old(intersections).occupied@[t] != old(car).id implies intersections.occupied@.contains_key(
            t,
        ) && intersections.occupied@[t] == old(intersections).occupied@[t] by {
            assert(intersections_mid_occ.contains_key(t));
            assert(intersections_mid_occ[t] == old(intersections).occupied@[t]);
        }
    }
    r
}

impl Car {
    /// Applies a `Continue` action: integrates one tick of motion, then
    /// crosses as many traversable boundaries as the covered distance
    /// demands, exactly as `spec_motion` describes: one leave event (and a
    /// turn release) per departed traversable, one enter event (and a turn
    /// claim) per entered one, a snap to just short of a reached end, and a
    /// border crossing reported as a vanish. Fails exactly when the model
    /// fails: an overrun speed limit, an exhausted route, or an occupied
    /// turn.
    pub fn step_continue(
        &mut self,
        events: &mut Vec<Event>,
        router: &mut Router,
        accel: Acceleration,
        map: &RoadMap,
        intersections: &mut IntersectionSim,
    ) -> (r: Result<bool, SimError>)
        requires
            map.wf(),
            old(self).valid(*map),
            old(router).wf(),
            old(router).spec_current() == old(self).on,
            router_on_map(*old(router), *map),
            old(self).vehicle.max_deaccel <= accel <= old(self).vehicle.max_accel,
            old(self).parking.is_none(),
            match old(self).on {
                Traversable::Turn(t) => old(intersections).occupied@.contains_key(t)
                    && old(intersections).occupied@[t] == old(self).id,
                Traversable::Lane(_) => true,
            },
        ensures
            final(events)@.len() >= old(events)@.len(),
            forall|i: int| 0 <= i < old(events)@.len() ==> final(events)@[i] == old(events)@[i],
            ({
                let v2 = crate::kinematics::spec_speed_after_accel(
                    old(self).speed as int,
                    accel as int,
                );
                let m = spec_motion(
                    old(self).id,
                    old(self).vehicle,
                    *map,
                    *old(router),
                    old(self).on,
                    old(self).dist_along + crate::kinematics::spec_dist_in_tick(
                        old(self).speed as int,
                        accel as int,
                    ),
                    v2,
                    old(intersections).occupied@,
                );
                match r {
                    Ok(vanished) => {
                        &&& final(self).id == old(self).id
                        &&& final(self).trip == old(self).trip
                        &&& final(self).owner == old(self).owner
                        &&& final(self).vehicle == old(self).vehicle
                        &&& final(self).parking == old(self).parking
                        &&& final(self).debug == old(self).debug
                        &&& final(self).speed == v2
                        &&& final(router).steps == old(router).steps
                        &&& final(router).stop_early == old(router).stop_early
                        &&& final(router).vanish_at_border == old(router).vanish_at_border
                        &&& final(router).pre_action == old(router).pre_action
                        &&& final(router).idx >= old(router).idx
                        &&& final(intersections).granted == old(intersections).granted
                        &&& final(intersections).requests == old(intersections).requests
                        &&& forall|t: TurnID|
                            #[trigger] old(intersections).occupied@.contains_key(t)
                                && old(intersections).occupied@[t] != old(self).id
                                ==> final(intersections).occupied@.contains_key(t)
                                    && final(intersections).occupied@[t]
                                        == old(intersections).occupied@[t]
                        &&& match m {
                            MotionResult::Arrive { on, dist, idx, occupied, events: ev } => {
                                &&& !vanished
                                &&& final(self).on == on
                                &&& final(self).dist_along == dist
                                &&& final(router).idx == idx
                                &&& final(intersections).occupied@ == occupied
                                &&& final(events)@ == old(events)@ + ev
                                &&& final(self).valid(*map)
                                &&& final(router).wf()
                                &&& final(router).spec_current() == final(self).on
                                &&& router_on_map(*final(router), *map)
                                &&& match final(self).on {
                                    Traversable::Turn(t) => final(intersections).occupied@.contains_key(t)
                                        && final(intersections).occupied@[t] == final(self).id,
                                    Traversable::Lane(_) => true,
                                }
                            },
                            MotionResult::Vanish { occupied, events: ev } => {
                                &&& vanished
                                &&& old(router).vanish_at_border
                                &&& final(intersections).occupied@ == occupied
                                &&& final(events)@ == old(events)@ + ev
                            },
                            MotionResult::Fail { .. } => false,
                        }
                    },
                    Err(e) => m == (MotionResult::Fail { err: e }),
                }
            }),
    {
        let (dist, new_speed) = results_of_accel_for_one_tick(self.speed, accel);
        self.dist_along = self.dist_along + dist;
        self.speed = new_speed;
        motion_rec(self, events, router, map, intersections)
    }
}

/// Total length of the route's traversables between two cursor positions.
pub open spec fn spec_route_span(map: RoadMap, steps: Seq<PathStep>, from: int, to: int) -> int
    decreases to - from,
{
    if from >= to {
        0
    } else {
        map.spec_length(steps[from].spec_as_traversable()) + spec_route_span(
            map,
            steps,
            from + 1,
            to,
        )
    }
}

/// Monotone progress: a motion that arrives ends, together with the lengths
/// of the traversables it left behind, exactly where the tick's integration
/// put it — less at most the snap margin, and never beyond it. The snap to
/// just short of a reached end is the one thing that can give distance back,
/// and it gives back no more than twice `EPSILON_DIST`.
pub proof fn lemma_motion_progress(
    id: CarID,
    vehicle: Vehicle,
    map: RoadMap,
    router: Router,
    on: Traversable,
    dist: int,
    speed: int,
    occ: Map<TurnID, CarID>,
)
    requires
        map.wf(),
        router.idx < router.steps@.len(),
        router.steps@[router.idx as int].spec_as_traversable() == on,
        router_on_map(router, map),
        dist >= 0,
        spec_motion(id, vehicle, map, router, on, dist, speed, occ) is Arrive,
    ensures
        ({
            let m = spec_motion(id, vehicle, map, router, on, dist, speed, occ);
            &&& dist - 2 * EPSILON_DIST <= m->Arrive_dist + spec_route_span(
                map,
                router.steps@,
                router.idx as int,
                m->Arrive_idx,
            ) <= dist
            &&& m->Arrive_dist >= 0
            &&& router.idx <= m->Arrive_idx < router.steps@.len()
        }),
    decreases router.steps@.len() - router.idx,
{
    let m = spec_motion(id, vehicle, map, router, on, dist, speed, occ);
    let length = map.spec_length(on);
    let leftover = dist - length;
    assert(map.segments@[on.spec_key()].valid());
    if leftover <= EPSILON_DIST {
        assert(spec_route_span(map, router.steps@, router.idx as int, router.idx as int) == 0);
    } else {
        let step = router.spec_step_after(router.idx as int)->Some_0;
        let on2 = step.spec_as_traversable();
        let router2 = Router { idx: (router.idx + 1) as usize, ..router };
        let occ1 = match on {
            Traversable::Turn(t) => occ.remove(t),
            Traversable::Lane(_) => occ,
        };
        let occ2 = match step {
            PathStep::Turn(t2) => occ1.insert(t2, id),
            PathStep::Lane(_) => occ1,
        };
        lemma_motion_progress(id, vehicle, map, router2, on2, leftover, speed, occ2);
        let m2 = spec_motion(id, vehicle, map, router2, on2, leftover, speed, occ2);
        assert(m->Arrive_dist == m2->Arrive_dist);
        assert(m->Arrive_idx == m2->Arrive_idx);
        assert(spec_route_span(map, router.steps@, router.idx as int, m->Arrive_idx) == length
            + spec_route_span(map, router.steps@, router.idx + 1, m->Arrive_idx));
    }
}

/// The occupancy a motion starts from decides only whether it fails on an
/// occupied turn: wherever a motion arrives or vanishes, it does so at the
/// same place, with the same route cursor and the same events, when started
/// instead from any occupancy that holds at most the car's own current turn.
pub proof fn lemma_motion_small_occ(
    id: CarID,
    vehicle: Vehicle,
    map: RoadMap,
    router: Router,
    on: Traversable,
    dist: int,
    speed: int,
    occ: Map<TurnID, CarID>,
    occ_b: Map<TurnID, CarID>,
)
    requires
        forall|t: TurnID|
            #[trigger] occ_b.contains_key(t) ==> on == Traversable::Turn(t) && occ_b[t] == id,
        !(spec_motion(id, vehicle, map, router, on, dist, speed, occ) is Fail),
    ensures
        ({
            let ma = spec_motion(id, vehicle, map, router, on, dist, speed, occ);
            let mb = spec_motion(id, vehicle, map, router, on, dist, speed, occ_b);
            &&& ma is Arrive ==> {
                &&& mb is Arrive
                &&& mb->Arrive_on == ma->Arrive_on
                &&& mb->Arrive_dist == ma->Arrive_dist
                &&& mb->Arrive_idx == ma->Arrive_idx
                &&& mb->Arrive_events == ma->Arrive_events
            }
            &&& ma is Vanish ==> mb is Vanish && mb->Vanish_events == ma->Vanish_events
        }),
    decreases router.steps@.len() - router.idx,
{
    let ma = spec_motion(id, vehicle, map, router, on, dist, speed, occ);
    let length = map.spec_length(on);
    let leftover = dist - length;
    if !(router.idx < router.steps@.len() && router.steps@.len() <= usize::MAX) {
    } else if speed > vehicle.spec_clamp_speed(map.spec_speed_limit(on)) {
    } else if leftover <= EPSILON_DIST {
    } else {
        let occ1 = match on {
            Traversable::Turn(t) => occ.remove(t),
            Traversable::Lane(_) => occ,
        };
        let occ1_b = match on {
            Traversable::Turn(t) => occ_b.remove(t),
            Traversable::Lane(_) => occ_b,
        };
        assert(forall|t: TurnID| !(#[trigger] occ1_b.contains_key(t)));
        if router.vanish_at_border {
        } else {
            match router.spec_step_after(router.idx as int) {
                None => {},
                Some(step) => {
                    let on2 = step.spec_as_traversable();
                    let router2 = Router { idx: (router.idx + 1) as usize, ..router };
                    let occ2 = match step {
                        PathStep::Turn(t2) => occ1.insert(t2, id),
                        PathStep::Lane(_) => occ1,
                    };
                    let occ2_b = match step {
                        PathStep::Turn(t2) => occ1_b.insert(t2, id),
                        PathStep::Lane(_) => occ1_b,
                    };
                    assert forall|t: TurnID| #[trigger] occ2_b.contains_key(t) implies on2
                        == Traversable::Turn(t) && occ2_b[t] == id by {}
                    lemma_motion_small_occ(
                        id,
                        vehicle,
                        map,
                        router2,
                        on2,
                        leftover,
                        speed,
                        occ2,
                        occ2_b,
                    );
                },
            }
        }
    }
}

/// The event pairing of the motion: an arriving car emits exactly one
/// leave/enter pair per boundary it crosses — none at all when it stays on
/// its traversable — and a vanishing car emits pairs followed by one final
/// leave; every leave and enter names the moving car.
pub proof fn lemma_motion_events_pairing(
    id: CarID,
    vehicle: Vehicle,
    map: RoadMap,
    router: Router,
    on: Traversable,
    dist: int,
    speed: int,
    occ: Map<TurnID, CarID>,
)
    ensures
        ({
            let m = spec_motion(id, vehicle, map, router, on, dist, speed, occ);
            &&& m is Arrive ==> {
                let ev = m->Arrive_events;
                &&& ev.len() == 2 * (m->Arrive_idx - router.idx)
                &&& forall|w: int|
                    0 <= w < ev.len() ==> if w % 2 == 0 {
                        (#[trigger] ev[w]) is AgentLeavesTraversable
                            && ev[w]->AgentLeavesTraversable_0 == id
                    } else {
                        ev[w] is AgentEntersTraversable && ev[w]->AgentEntersTraversable_0 == id
                    }
            }
            &&& m is Vanish ==> {
                let ev = m->Vanish_events;
                &&& ev.len() % 2 == 1
                &&& forall|w: int|
                    0 <= w < ev.len() ==> if w % 2 == 0 {
                        (#[trigger] ev[w]) is AgentLeavesTraversable
                            && ev[w]->AgentLeavesTraversable_0 == id
                    } else {
                        ev[w] is AgentEntersTraversable && ev[w]->AgentEntersTraversable_0 == id
                    }
                &&& ev.last() is AgentLeavesTraversable
            }
        }),
    decreases router.steps@.len() - router.idx,
{
    let m = spec_motion(id, vehicle, map, router, on, dist, speed, occ);
    let length = map.spec_length(on);
    let leftover = dist - length;
    if !(router.idx < router.steps@.len() && router.steps@.len() <= usize::MAX) {
    } else if speed > vehicle.spec_clamp_speed(map.spec_speed_limit(on)) {
    } else if leftover <= EPSILON_DIST {
    } else {
        if router.vanish_at_border {
        } else {
            match router.spec_step_after(router.idx as int) {
                None => {},
                Some(step) => {
                    let on2 = step.spec_as_traversable();
                    let router2 = Router { idx: (router.idx + 1) as usize, ..router };
                    let occ1 = match on {
                        Traversable::Turn(t) => occ.remove(t),
                        Traversable::Lane(_) => occ,
                    };
                    if step matches PathStep::Turn(t2) && occ1.contains_key(t2) {
                    } else {
                        let occ2 = match step {
                            PathStep::Turn(t2) => occ1.insert(t2, id),
                            PathStep::Lane(_) => occ1,
                        };
                        lemma_motion_events_pairing(
                            id,
                            vehicle,
                            map,
                            router2,
                            on2,
                            leftover,
                            speed,
                            occ2,
                        );
                        let pair = seq![
                            Event::AgentLeavesTraversable(id, on),
                            Event::AgentEntersTraversable(id, on2),
                        ];
                        let m2 = spec_motion(id, vehicle, map, router2, on2, leftover, speed, occ2);
                        match m2 {
                            MotionResult::Arrive { events: ev2, .. } => {
                                let ev = pair + ev2;
                                assert forall|w: int| 0 <= w < ev.len() implies if w % 2 == 0 {
                                    (#[trigger] ev[w]) is AgentLeavesTraversable
                                        && ev[w]->AgentLeavesTraversable_0 == id
                                } else {
                                    ev[w] is AgentEntersTraversable
                                        && ev[w]->AgentEntersTraversable_0 == id
                                } by {
                                    if w >= 2 {
                                        assert(ev[w] == ev2[w - 2]);
                                        assert((w - 2) % 2 == w % 2);
                                    }
                                }
                            },
                            MotionResult::Vanish { events: ev2, .. } => {
                                let ev = pair + ev2;
                                assert(ev2.len() > 0);
                                assert(ev.last() == ev2.last());
                                assert forall|w: int| 0 <= w < ev.len() implies if w % 2 == 0 {
                                    (#[trigger] ev[w]) is AgentLeavesTraversable
                                        && ev[w]->AgentLeavesTraversable_0 == id
                                } else {
                                    ev[w] is AgentEntersTraversable
                                        && ev[w]->AgentEntersTraversable_0 == id
                                } by {
                                    if w >= 2 {
                                        assert(ev[w] == ev2[w - 2]);
                                        assert((w - 2) % 2 == w % 2);
                                    }
                                }
                            },
                            MotionResult::Fail { .. } => {},
                        }
                    }
                },
            }
        }
    }
}

/// Smaller of two quantities.
pub open spec fn min2(a: int, b: int) -> int {
    if a <= b {
        a
    } else {
        b
    }
}

/// Upper bound on the lookahead budget: the longest lookahead distance plus
/// the worst-case following distance.
pub const BUDGET_CAP: i64 = 50_019_000_000;

/// Outcome of the lookahead walk: the minimum over every acceleration
/// constraint found, with the admission requests to submit, or the failure
/// that aborts the tick.
pub enum LookaheadResult {
    Go { min_accel: int, requests: Seq<Request> },
    Fail { err: SimError },
}

/// The lookahead walk of the reaction phase, from one scanned traversable
/// onward: collects the speed-limit constraint of the scanned traversable,
/// the car-following constraint against the frozen view's next leader within
/// range, and the stop-line constraint of a lane whose stopping point falls
/// inside the remaining budget; a required stop ends the walk, and otherwise
/// it advances along the route until the budget or the route runs out.
///
/// One deliberate totalization: a car already at (or past) its stopping
/// point holds still (a zero constraint) when it is at rest, instead of
/// failing the stop computation on a nonpositive distance; in this exact
/// integer model a braking car routinely lands exactly on the stop line, so
/// the failure is reserved for a car that reaches the line still moving.
pub open spec fn spec_lookahead(
    id: CarID,
    v: int,
    vehicle: Vehicle,
    orig_limit: int,
    map: RoadMap,
    agents: Map<CarID, AgentView>,
    queues: Map<u64, SimQueue>,
    router: Router,
    granted: Set<(CarID, TurnID)>,
    on: Traversable,
    dist_along: int,
    idx: int,
    budget: int,
    scanned: int,
) -> LookaheadResult
    decreases router.steps@.len() - idx,
{
    if !(0 <= idx < router.steps@.len()) {
        LookaheadResult::Fail { err: SimError::RouterInvariant }
    } else {
        let limit_c = crate::kinematics::spec_accel_to_achieve_speed_in_one_tick(
            v,
            vehicle.spec_clamp_speed(map.spec_speed_limit(on)),
        );
        let m1 = match crate::view::spec_next_front_in(agents, queues, on, dist_along) {
            Some(other) => {
                let dist_behind = scanned + (other.dist_along - dist_along);
                let total_scan = scanned + budget + other.vehicle.spec_following_dist();
                if total_scan >= dist_behind {
                    min2(
                        limit_c,
                        crate::kinematics::spec_accel_to_cover_dist_in_one_tick(
                            dist_behind + other.vehicle.spec_stopping_distance(other.speed as int)
                                - vehicle.spec_max_lookahead_dist(v, orig_limit)
                                - other.vehicle.spec_following_dist(),
                            v,
                        ),
                    )
                } else {
                    limit_c
                }
            },
            None => limit_c,
        };
        let stop_early = router.spec_stop_early_at(on);
        let dist_to_stop = match stop_early {
            Some(d) => d as int,
            None => map.spec_length(on),
        };
        let dist_from_stop = dist_to_stop - dist_along;
        if on is Lane && budget >= dist_from_stop && stop_early.is_some() {
            if dist_from_stop <= 0 && v > 0 {
                LookaheadResult::Fail { err: SimError::Kinematic }
            } else if dist_from_stop <= 0 {
                LookaheadResult::Go { min_accel: min2(m1, 0), requests: Seq::empty() }
            } else {
                LookaheadResult::Go {
                    min_accel: min2(
                        m1,
                        crate::kinematics::spec_accel_to_stop_in_dist(v, dist_from_stop),
                    ),
                    requests: Seq::empty(),
                }
            }
        } else if on is Lane && budget >= dist_from_stop && router.vanish_at_border {
            LookaheadResult::Go { min_accel: m1, requests: Seq::empty() }
        } else if on is Lane && budget >= dist_from_stop && !(router.spec_step_after(idx)
            matches Some(PathStep::Turn(_))) {
            LookaheadResult::Fail { err: SimError::RouterInvariant }
        } else if on is Lane && budget >= dist_from_stop && !granted.contains(
            (id, router.spec_step_after(idx)->Some_0->Turn_0),
        ) {
            let t = router.spec_step_after(idx)->Some_0->Turn_0;
            if dist_from_stop <= 0 && v > 0 {
                LookaheadResult::Fail { err: SimError::Kinematic }
            } else if dist_from_stop <= 0 {
                LookaheadResult::Go {
                    min_accel: min2(m1, 0),
                    requests: seq![Request { car: id, turn: t }],
                }
            } else {
                LookaheadResult::Go {
                    min_accel: min2(
                        m1,
                        crate::kinematics::spec_accel_to_stop_in_dist(v, dist_from_stop),
                    ),
                    requests: seq![Request { car: id, turn: t }],
                }
            }
        } else {
            let dist_this_step = map.spec_length(on) - dist_along;
            let new_budget = budget - dist_this_step;
            if new_budget <= 0 {
                LookaheadResult::Go { min_accel: m1, requests: Seq::empty() }
            } else {
                match router.spec_step_after(idx) {
                    None => LookaheadResult::Go { min_accel: m1, requests: Seq::empty() },
                    Some(step) => match spec_lookahead(
                        id,
                        v,
                        vehicle,
                        orig_limit,
                        map,
                        agents,
                        queues,
                        router,
                        granted,
                        step.spec_as_traversable(),
                        0,
                        idx + 1,
                        new_budget,
                        scanned + dist_this_step,
                    ) {
                        LookaheadResult::Go { min_accel, requests } => LookaheadResult::Go {
                            min_accel: min2(m1, min_accel),
                            requests,
                        },
                        LookaheadResult::Fail { err } => LookaheadResult::Fail { err },
                    },
                }
            }
        }
    }
}

/// Executable lookahead walk; mirrors `spec_lookahead` branch for branch.
#[verifier::rlimit(60)]
fn lookahead_rec(
    id: CarID,
    v: Speed,
    vehicle: &Vehicle,
    orig_limit: Speed,
    map: &RoadMap,
    view: &WorldView,
    router: &Router,
    intersections: &IntersectionSim,
    on: Traversable,
    dist_along: Distance,
    idx: usize,
    budget: Distance,
    scanned: Distance,
) -> (r: Result<(Acceleration, Vec<Request>), SimError>)
    requires
        map.wf(),
        view.wf(),
        vehicle.valid(),
        0 <= idx < router.steps@.len(),
        forall|i: int|
            idx <= i < router.steps@.len() ==> map.spec_contains(
                (#[trigger] router.steps@[i]).spec_as_traversable(),
            ),
        map.spec_contains(on),
        0 <= v <= orig_limit,
        0 < orig_limit <= MAX_SPEED,
        0 <= dist_along <= map.spec_length(on),
        0 <= scanned,
        0 <= budget,
        scanned + budget <= BUDGET_CAP,
        match router.stop_early {
            Some((_, d)) => 0 <= d <= MAX_TRAVERSABLE_LENGTH,
            None => true,
        },
    ensures
        match r {
            Ok((a, reqs)) => spec_lookahead(
                id,
                v as int,
                *vehicle,
                orig_limit as int,
                *map,
                view.agents@,
                view.queues@,
                *router,
                intersections.granted@,
                on,
                dist_along as int,
                idx as int,
                budget as int,
                scanned as int,
            ) == (LookaheadResult::Go { min_accel: a as int, requests: reqs@ }),
            Err(e) => spec_lookahead(
                id,
                v as int,
                *vehicle,
                orig_limit as int,
                *map,
                view.agents@,
                view.queues@,
                *router,
                intersections.granted@,
                on,
                dist_along as int,
                idx as int,
                budget as int,
                scanned as int,
            ) == (LookaheadResult::Fail { err: e }),
        },
    decreases router.steps@.len() - idx,
{
    let n = router.steps.len();
    proof {
        assert(idx < n);
        assert(map.segments@[on.spec_key()].valid());
    }
    // Speed-limit constraint of the scanned traversable.
    let current_limit = vehicle.clamp_speed(map.speed_limit_of(on));
    let limit_c = vehicle.accel_to_achieve_speed_in_one_tick(v, current_limit);
    // Car-following constraint against the frozen view.
    let mut m1 = limit_c;
    match view.next_car_in_front_of(on, dist_along) {
        Some(other) => {
            let dist_behind = scanned + (other.dist_along - dist_along);
            let their_follow = other.vehicle.following_dist();
            let total_scan = scanned + budget + their_follow;
            if total_scan >= dist_behind {
                let a = match vehicle.accel_to_follow(
                    v,
                    orig_limit,
                    &other.vehicle,
                    dist_behind,
                    other.speed,
                ) {
                    Ok(a) => a,
                    Err(_) => vstd::pervasive::unreached(),
                };
                if a < m1 {
                    m1 = a;
                }
            }
        },
        None => {},
    }
    // Stop-line constraint: only lanes end at a stopping point.
    let stop_early = router.stop_early_at_dist(on);
    let on_length = map.length_of(on);
    if on.maybe_lane().is_some() {
        let dist_to_stop = match stop_early {
            Some(d) => d,
            None => on_length,
        };
        let dist_from_stop = dist_to_stop - dist_along;
        if budget >= dist_from_stop {
            if stop_early.is_some() {
                // A car already at (or past) its stopping point holds still.
                let a = if dist_from_stop <= 0 {
                    if v > 0 {
                        return Err(SimError::Kinematic);
                    }
                    0
                } else {
                    match vehicle.accel_to_stop_in_dist(v, dist_from_stop) {
                        Ok(a) => a,
                        Err(_) => vstd::pervasive::unreached(),
                    }
                };
                let m = if a < m1 {
                    a
                } else {
                    m1
                };
                return Ok((m, Vec::new()));
            } else if router.should_vanish_at_border() {
                return Ok((m1, Vec::new()));
            } else {
                let turn = match router.step_after(idx) {
                    Some(PathStep::Turn(t)) => t,
                    _ => {
                        return Err(SimError::RouterInvariant);
                    },
                };
                let req = Request::for_car(id, turn);
                if !intersections.request_granted(req) {
                    // A car already at (or past) the line holds still.
                    let a = if dist_from_stop <= 0 {
                        if v > 0 {
                            return Err(SimError::Kinematic);
                        }
                        0
                    } else {
                        match vehicle.accel_to_stop_in_dist(v, dist_from_stop) {
                            Ok(a) => a,
                            Err(_) => vstd::pervasive::unreached(),
                        }
                    };
                    let m = if a < m1 {
                        a
                    } else {
                        m1
                    };
                    let mut reqs: Vec<Request> = Vec::new();
                    reqs.push(req);
                    return Ok((m, reqs));
                }
            }
        }
    }
    // Advance to the next step of the route.
    let dist_this_step = on_length - dist_along;
    let new_budget = budget - dist_this_step;
    if new_budget <= 0 {
        return Ok((m1, Vec::new()));
    }
    match router.step_after(idx) {
        None => Ok((m1, Vec::new())),
        Some(step) => {
            let next_on = step.as_traversable();
            match lookahead_rec(
                id,
                v,
                vehicle,
                orig_limit,
                map,
                view,
                router,
                intersections,
                next_on,
                0,
                idx + 1,
                new_budget,
                scanned + dist_this_step,
            ) {
                Ok((m2, reqs2)) => {
                    let m = if m2 < m1 {
                        m2
                    } else {
                        m1
                    };
                    Ok((m, reqs2))
                },
                Err(e) => Err(e),
            }
        },
    }
}

/// The action a terminal maneuver of the route plan becomes.
pub open spec fn spec_terminal_action(t: TerminalAction) -> Action {
    match t {
        TerminalAction::StartParking(spot) => Action::StartParking(spot),
        TerminalAction::StartParkingBike => Action::StartParkingBike,
        TerminalAction::VanishAtDeadEnd => Action::VanishAtDeadEnd,
    }
}

impl Car {
    /// The lookahead outcome `react` reduces when the car is driving freely:
    /// the walk starts on the car's own traversable with the tick's budget,
    /// the lookahead distance plus the worst-case following distance.
    pub open spec fn spec_lookahead_from(
        self,
        router: Router,
        map: RoadMap,
        agents: Map<CarID, AgentView>,
        queues: Map<u64, SimQueue>,
        intersections: IntersectionSim,
    ) -> LookaheadResult {
        let orig_limit = self.vehicle.spec_clamp_speed(map.spec_speed_limit(self.on));
        let budget = self.vehicle.spec_max_lookahead_dist(self.speed as int, orig_limit)
            + (MAX_VEHICLE_LENGTH + FOLLOWING_DISTANCE_BUFFER);
        spec_lookahead(
            self.id,
            self.speed as int,
            self.vehicle,
            orig_limit,
            map,
            agents,
            queues,
            router,
            intersections.granted@,
            self.on,
            self.dist_along as int,
            router.idx as int,
            budget,
            0,
        )
    }

    /// The reaction phase for one car: decides this tick's action from the
    /// frozen view, without mutating anything. A parking car keeps working on
    /// parking; a terminal maneuver of the route plan is returned as it
    /// stands; otherwise the lookahead walk collects every acceleration
    /// constraint and the car continues with the clamped minimum, alongside
    /// the admission requests to submit.
    pub fn react(
        &self,
        router: &Router,
        map: &RoadMap,
        view: &WorldView,
        intersections: &IntersectionSim,
    ) -> (r: Result<Action, SimError>)
        requires
            map.wf(),
            view.wf(),
            router.wf(),
            self.valid(*map),
            router.spec_current() == self.on,
            router_on_map(*router, *map),
        ensures
            match r {
                Ok(a) => {
                    if self.parking.is_some() {
                        a == Action::WorkOnParking
                    } else {
                        match router.pre_action {
                            Some(t) => a == spec_terminal_action(t),
                            None => match self.spec_lookahead_from(
                                *router,
                                *map,
                                view.agents@,
                                view.queues@,
                                *intersections,
                            ) {
                                LookaheadResult::Go { min_accel, requests } => match a {
                                    Action::Continue(acc, reqs) => acc
                                        == self.vehicle.spec_clamp_accel(min_accel) && reqs@
                                        == requests,
                                    _ => false,
                                },
                                LookaheadResult::Fail { .. } => false,
                            },
                        }
                    }
                },
                Err(e) => {
                    &&& self.parking.is_none()
                    &&& router.pre_action.is_none()
                    &&& self.spec_lookahead_from(
                        *router,
                        *map,
                        view.agents@,
                        view.queues@,
                        *intersections,
                    ) == (LookaheadResult::Fail { err: e })
                },
            },
    {
        if self.parking.is_some() {
            return Ok(Action::WorkOnParking);
        }
        match router.react_before_lookahead() {
            Some(TerminalAction::StartParking(spot)) => {
                return Ok(Action::StartParking(spot));
            },
            Some(TerminalAction::StartParkingBike) => {
                return Ok(Action::StartParkingBike);
            },
            Some(TerminalAction::VanishAtDeadEnd) => {
                return Ok(Action::VanishAtDeadEnd);
            },
            None => {},
        }
        proof {
            assert(map.segments@[self.on.spec_key()].valid());
        }
        let orig_limit = self.vehicle.clamp_speed(map.speed_limit_of(self.on));
        let lookahead = match self.vehicle.max_lookahead_dist(self.speed, orig_limit) {
            Ok(d) => d,
            Err(_) => vstd::pervasive::unreached(),
        };
        let budget = lookahead + Vehicle::worst_case_following_dist();
        match lookahead_rec(
            self.id,
            self.speed,
            &self.vehicle,
            orig_limit,
            map,
            view,
            router,
            intersections,
            self.on,
            self.dist_along,
            router.idx,
            budget,
            0,
        ) {
            Ok((m, reqs)) => Ok(Action::Continue(self.vehicle.clamp_accel(m), reqs)),
            Err(e) => Err(e),
        }
    }
}

/// Looks a car up by a key the caller has proved present.
pub fn get_car<'a>(cars: &'a std::collections::BTreeMap<CarID, Car>, id: CarID) -> (r: &'a Car)
    requires
        cars@.contains_key(id),
    ensures
        *r == cars@[id],
{
    broadcast use vstd::laws_cmp::group_laws_cmp;

    match cars.get(&id) {
        Some(c) => c,
        None => vstd::pervasive::unreached(),
    }
}

} // verus!
