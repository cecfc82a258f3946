use driving_sim::car::{Car, ParkingSpot};
use driving_sim::intersections::IntersectionSim;
use driving_sim::kinematics::{Vehicle, VehicleType};
use driving_sim::map::RoadMap;
use driving_sim::router::{PathStep, Router, TerminalAction};
use driving_sim::state::{CreateCar, DrivingSimState};
use driving_sim::types::{Event, Request, Traversable};
use driving_sim::queue::SimQueue;
use driving_sim::view::WorldView;

fn car_vehicle() -> Vehicle {
    Vehicle {
        vehicle_type: VehicleType::Car,
        length: 4_000_000,
        max_accel: 2_000_000,
        max_deaccel: -3_000_000,
        max_speed: None,
        debug: false,
    }
}

fn lane_router(lanes: Vec<PathStep>, vanish: bool) -> Router {
    Router { steps: lanes, idx: 0, stop_early: None, vanish_at_border: vanish, pre_action: None }
}

fn spawn(
    state: &mut DrivingSimState,
    events: &mut Vec<Event>,
    map: &RoadMap,
    id: u64,
    lane: u32,
    dist: i64,
    router: Router,
) -> bool {
    state.start_car_on_lane(
        events,
        0,
        map,
        CreateCar {
            car: id,
            trip: id,
            owner: None,
            maybe_parked_car: None,
            vehicle: car_vehicle(),
            start: driving_sim::types::Position { lane, dist_along: dist },
            router,
        },
    )
}

#[test]
fn single_car_accelerates_and_vanishes_at_border() {
    // A 100 m lane with a 30 m/s limit; one car from rest.
    let mut map = RoadMap::new();
    map.add_lane(0, 100_000_000, 30_000_000);
    let mut state = DrivingSimState::new();
    let mut events = Vec::new();
    let mut isects = IntersectionSim::new();
    assert!(spawn(
        &mut state,
        &mut events,
        &map,
        1,
        0,
        0,
        lane_router(vec![PathStep::Lane(0)], true),
    ));
    // One tick: speed 0.2 m/s, position 0.01 m.
    let mut agent = None;
    let mut view = WorldView::new();
    let r = state
        .step(&mut view, &mut events, 1, &map, &mut isects, &mut agent)
        .unwrap();
    assert!(r.0.is_empty() && r.1.is_empty() && r.2.is_empty());
    let c = state.cars.get(&1).unwrap();
    assert_eq!(c.speed, 200_000);
    assert_eq!(c.dist_along, 10_000);
    // Speed climbs monotonically to the limit, and the car eventually
    // leaves the lane and vanishes at the border.
    let mut last_speed = c.speed;
    let mut vanished = false;
    for t in 2..400u32 {
        let mut view = WorldView::new();
        let r = state
            .step(&mut view, &mut events, t, &map, &mut isects, &mut agent)
            .unwrap();
        if let Some(c) = state.cars.get(&1) {
            assert!(c.speed >= last_speed);
            assert!(c.speed <= 30_000_000);
            assert!(c.dist_along <= 100_000_000);
            last_speed = c.speed;
        }
        if r.1.contains(&1) {
            vanished = true;
            assert!(state.cars.get(&1).is_none());
            break;
        }
    }
    assert!(vanished);
    assert!(events
        .iter()
        .any(|e| *e == Event::AgentLeavesTraversable(1, Traversable::Lane(0))));
}

#[test]
fn car_following_keeps_the_gap() {
    let mut map = RoadMap::new();
    map.add_lane(0, 1_000_000_000, 30_000_000);
    let mut state = DrivingSimState::new();
    let mut events = Vec::new();
    let mut isects = IntersectionSim::new();
    assert!(spawn(&mut state, &mut events, &map, 1, 0, 50_000_000, lane_router(vec![PathStep::Lane(0)], true)));
    assert!(spawn(&mut state, &mut events, &map, 2, 0, 30_000_000, lane_router(vec![PathStep::Lane(0)], true)));
    let mut agent = None;
    for t in 1..200u32 {
        let mut view = WorldView::new();
        state
            .step(&mut view, &mut events, t, &map, &mut isects, &mut agent)
            .unwrap();
        match (state.cars.get(&1), state.cars.get(&2)) {
            (Some(leader), Some(follower)) => {
                let gap = leader.dist_along - follower.dist_along;
                assert!(gap >= 5_000_000, "gap {} too small at tick {}", gap, t);
            }
            _ => break,
        }
    }
}

#[test]
fn exact_stopping_deceleration() {
    // Stopping from 5 m/s over 8 m takes -25/16 m/s^2 exactly.
    let v = car_vehicle();
    assert_eq!(v.accel_to_stop_in_dist(5_000_000, 8_000_000), Ok(-1_562_500));
}

#[test]
fn intersection_stop_and_request() {
    // A short lane ending in an ungranted turn: the car requests admission
    // and stops before the end; once granted, it drives through.
    let mut map = RoadMap::new();
    map.add_lane(0, 20_000_000, 10_000_000);
    map.add_turn(0, 5_000_000, 10_000_000);
    map.add_lane(1, 100_000_000, 10_000_000);
    let mut state = DrivingSimState::new();
    let mut events = Vec::new();
    let mut isects = IntersectionSim::new();
    assert!(spawn(
        &mut state,
        &mut events,
        &map,
        1,
        0,
        0,
        lane_router(
            vec![PathStep::Lane(0), PathStep::Turn(0), PathStep::Lane(1)],
            false,
        ),
    ));
    let mut agent = None;
    for t in 1..400u32 {
        let mut view = WorldView::new();
        state
            .step(&mut view, &mut events, t, &map, &mut isects, &mut agent)
            .unwrap();
    }
    // Without a grant the car stops on its lane at the stop line.
    let c = state.cars.get(&1).unwrap();
    assert_eq!(c.on, Traversable::Lane(0));
    assert!(c.dist_along <= 20_000_000);
    assert!(c.dist_along >= 19_000_000);
    assert_eq!(c.speed, 0);
    assert!(isects.requests.contains(&(1, 0)));
    // Grant it; the car crosses the turn onto the next lane.
    isects.grant(Request { car: 1, turn: 0 });
    let mut reached = false;
    for t in 400..800u32 {
        let mut view = WorldView::new();
        state
            .step(&mut view, &mut events, t, &map, &mut isects, &mut agent)
            .unwrap();
        if let Some(c) = state.cars.get(&1) {
            if c.on == Traversable::Lane(1) {
                reached = true;
                break;
            }
        }
    }
    assert!(reached);
    assert!(events
        .iter()
        .any(|e| *e == Event::AgentEntersTraversable(1, Traversable::Turn(0))));
}

#[test]
fn parking_takes_ten_seconds() {
    let mut map = RoadMap::new();
    map.add_lane(0, 100_000_000, 10_000_000);
    let mut state = DrivingSimState::new();
    let mut events = Vec::new();
    let mut isects = IntersectionSim::new();
    let spot = ParkingSpot { lane: 0, idx: 3 };
    let router = Router {
        steps: vec![PathStep::Lane(0)],
        idx: 0,
        stop_early: None,
        vanish_at_border: false,
        pre_action: Some(TerminalAction::StartParking(spot)),
    };
    assert!(state.start_car_on_lane(
        &mut events,
        100,
        &map,
        CreateCar {
            car: 7,
            trip: 7,
            owner: Some(11),
            maybe_parked_car: None,
            vehicle: car_vehicle(),
            start: driving_sim::types::Position { lane: 0, dist_along: 40_000_000 },
            router,
        },
    ));
    let mut agent = None;
    // The parking maneuver starts at t = 100 and completes 100 ticks later.
    let mut finished_at = None;
    for t in 100..=220u32 {
        let mut view = WorldView::new();
        let r = state
            .step(&mut view, &mut events, t, &map, &mut isects, &mut agent)
            .unwrap();
        if let Some(pc) = r.0.first() {
            assert_eq!(pc.car, 7);
            assert_eq!(pc.spot, spot);
            assert_eq!(pc.owner, Some(11));
            finished_at = Some(t);
            break;
        }
    }
    assert_eq!(finished_at, Some(200));
    assert!(state.cars.get(&7).is_none());
}

#[test]
fn spawn_refused_too_close_behind_existing_car() {
    let mut map = RoadMap::new();
    map.add_lane(0, 100_000_000, 10_000_000);
    let mut state = DrivingSimState::new();
    let mut events = Vec::new();
    assert!(spawn(&mut state, &mut events, &map, 1, 0, 10_000_000, lane_router(vec![PathStep::Lane(0)], true)));
    // A newcomer 5 m ahead of a stopped car would demand impossible braking.
    let refused = !spawn(&mut state, &mut events, &map, 2, 0, 15_000_000, lane_router(vec![PathStep::Lane(0)], true));
    assert!(refused);
    assert_eq!(state.cars.len(), 1);
}

#[test]
fn submit_request_is_idempotent() {
    let mut isects = IntersectionSim::new();
    let req = Request { car: 3, turn: 9 };
    isects.submit_request(req);
    let once = isects.requests.len();
    isects.submit_request(req);
    assert_eq!(isects.requests.len(), once);
    assert!(isects.requests.contains(&(3, 9)));
}

#[test]
fn queue_searches() {
    let mut q = SimQueue { cars_queue: Vec::new() };
    q.insert_at(1, 50_000_000);
    q.insert_at(2, 30_000_000);
    q.insert_at(3, 70_000_000);
    // Descending order by distance.
    assert_eq!(q.cars_queue, vec![(70_000_000, 3), (50_000_000, 1), (30_000_000, 2)]);
    assert_eq!(q.next_car_in_front_of(40_000_000), Some(1));
    assert_eq!(q.next_car_in_front_of(80_000_000), None);
    assert_eq!(q.first_car_behind(40_000_000), Some(2));
    assert_eq!(q.first_car_behind(10_000_000), None);
}

#[test]
fn one_tick_kinematics() {
    // Accelerating from rest at 2 m/s^2: 0.2 m/s and 0.01 m after a tick.
    let (d, v) = driving_sim::kinematics::results_of_accel_for_one_tick(0, 2_000_000);
    assert_eq!(v, 200_000);
    assert_eq!(d, 10_000);
    // Braking to a stop partway through the tick.
    let (d2, v2) = driving_sim::kinematics::results_of_accel_for_one_tick(100_000, -3_000_000);
    assert_eq!(v2, 0);
    assert_eq!(d2, 100_000i64 * 100_000 / 6_000_000);
}

#[test]
fn stats_and_draw_surfaces() {
    let mut map = RoadMap::new();
    map.add_lane(0, 100_000_000, 10_000_000);
    let mut state = DrivingSimState::new();
    let mut events = Vec::new();
    assert!(state.is_done());
    assert_eq!(state.get_active_and_waiting_count(), (0, 0));
    assert!(spawn(&mut state, &mut events, &map, 5, 0, 20_000_000, lane_router(vec![PathStep::Lane(0)], true)));
    // One car at rest: active and waiting.
    assert!(!state.is_done());
    assert_eq!(state.get_active_and_waiting_count(), (1, 1));
    assert_eq!(state.get_owner_of_car(5), None);
    assert_eq!(state.get_owner_of_car(6), None);
    // Draw record: stuck at rest, not waiting on any turn.
    let d = state.get_draw_car(5, &map).unwrap();
    assert_eq!(d.id, 5);
    assert_eq!(d.on, Traversable::Lane(0));
    assert_eq!(d.dist_along, 20_000_000);
    assert_eq!(d.state, driving_sim::view::CarState::Stuck);
    assert_eq!(d.waiting_for_turn, None);
    assert!(state.get_draw_car(6, &map).is_none());
    // Debug toggling flips the flag and shows in the draw state.
    state.toggle_debug(5);
    assert_eq!(state.get_draw_car(5, &map).unwrap().state, driving_sim::view::CarState::Debug);
    state.toggle_debug(5);
    assert_eq!(state.get_draw_car(5, &map).unwrap().state, driving_sim::view::CarState::Stuck);
}

#[test]
fn lane_counts_and_queue_draw_order() {
    let mut map = RoadMap::new();
    map.add_lane(0, 1_000_000_000, 10_000_000);
    map.add_lane(1, 1_000_000_000, 10_000_000);
    let mut state = DrivingSimState::new();
    let mut events = Vec::new();
    assert!(spawn(&mut state, &mut events, &map, 1, 0, 50_000_000, lane_router(vec![PathStep::Lane(0)], true)));
    assert!(spawn(&mut state, &mut events, &map, 2, 0, 20_000_000, lane_router(vec![PathStep::Lane(0)], true)));
    assert!(spawn(&mut state, &mut events, &map, 3, 1, 70_000_000, lane_router(vec![PathStep::Lane(1)], true)));
    // All three start at rest: stuck, none moving; no buses.
    assert_eq!(state.count(&vec![0]), (0, 2, 0));
    assert_eq!(state.count(&vec![0, 1]), (0, 3, 0));
    assert_eq!(state.count(&vec![7]), (0, 0, 0));
    // Queue draw order: farthest along first.
    let drawn = state.get_draw_cars(Traversable::Lane(0), &map);
    assert_eq!(drawn.len(), 2);
    assert_eq!(drawn[0].id, 1);
    assert_eq!(drawn[1].id, 2);
    assert!(state.get_draw_cars(Traversable::Turn(9), &map).is_empty());
}
