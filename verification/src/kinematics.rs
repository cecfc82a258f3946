//! Single-tick Euler kinematics and the vehicle descriptor.
//!
//! All motion integrates over one tick (a tenth of a second) with exact
//! integer arithmetic: a speed change of `a` micrometers per second squared
//! changes the speed by `a / 10` micrometers per second, and the distance
//! covered in the tick is the trapezoid `(v + v') / 20`. When braking would
//! drive the speed below zero, the vehicle stops partway through the tick and
//! covers `v * v / (2 * -a)` micrometers.

use vstd::prelude::*;

use crate::units::{
    Acceleration, Distance, Speed, EPSILON_SPEED, FOLLOWING_DISTANCE_BUFFER, MAX_ACCEL_MAG,
    MAX_SPEED, MAX_TRAVERSABLE_LENGTH, MAX_VEHICLE_LENGTH, MIN_DEACCEL_MAG, MIN_VEHICLE_LENGTH,
};

verus! {

/// Internal invariant failures; each aborts the tick that discovers it.
#[derive(Clone, Copy, PartialEq, Eq, Structural, Debug)]
pub enum SimError {
    /// Infeasible following or stopping computation.
    Kinematic,
    /// A post-step speed exceeds the clamped speed limit.
    SpeedExceeded,
    /// A distance along a traversable left its valid range.
    PositionInvariant,
    /// Capacity or the no-squish gap was violated when rebuilding a queue.
    QueueInvariant,
    /// The router yielded no next step where one was required.
    RouterInvariant,
    /// A turn was entered while another car occupied it.
    IntersectionInvariant,
}

/// Speed after one tick under acceleration `a`, clamped at zero.
pub open spec fn spec_speed_after_accel(v: int, a: int) -> int {
    if a >= 0 {
        v + a / 10
    } else if v - (-a) / 10 < 0 {
        0
    } else {
        v - (-a) / 10
    }
}

/// Distance covered in one tick under acceleration `a`: the trapezoid rule,
/// except that a vehicle braked to a stop covers its exact stopping distance.
pub open spec fn spec_dist_in_tick(v: int, a: int) -> int {
    if a < 0 && v - (-a) / 10 < 0 {
        v * v / (2 * (-a))
    } else {
        (v + spec_speed_after_accel(v, a)) / 20
    }
}

/// Largest distance one tick can cover under the global speed and
/// acceleration bounds.
pub const MAX_DIST_PER_TICK: i64 = 11_000_000;

/// Computes `v * v / den` exactly, with the division's defining bound
/// exposed for the callers' range reasoning.
fn sq_div(v: u64, den: u64) -> (r: u64)
    requires
        1 <= den,
        v <= MAX_SPEED as u64,
    ensures
        r == v as int * v as int / den as int,
        r as int * den as int <= v as int * v as int,
        v as int * v as int <= MAX_SPEED as int * MAX_SPEED as int,
{
    proof {
        assert(v as int * v as int <= MAX_SPEED as int * MAX_SPEED as int) by (nonlinear_arith)
            requires 0 <= v <= MAX_SPEED as u64;
    }
    let p: u64 = v * v;
    let r: u64 = p / den;
    proof {
        vstd::arithmetic::div_mod::lemma_fundamental_div_mod(p as int, den as int);
    }
    r
}

/// Applies acceleration `accel` for one tick: returns the distance covered
/// and the new speed, clamping to a stop when the speed would go negative.
pub fn results_of_accel_for_one_tick(v: Speed, accel: Acceleration) -> (r: (Distance, Speed))
    requires
        0 <= v <= MAX_SPEED,
        -MAX_ACCEL_MAG <= accel <= MAX_ACCEL_MAG,
    ensures
        r.0 == spec_dist_in_tick(v as int, accel as int),
        r.1 == spec_speed_after_accel(v as int, accel as int),
        0 <= r.1 <= MAX_SPEED + MAX_ACCEL_MAG,
        0 <= r.0 <= MAX_DIST_PER_TICK,
{
    if accel >= 0 {
        let gain: u64 = accel as u64 / 10;
        let new_speed: i64 = v + gain as i64;
        let dist: i64 = ((v as u64 + new_speed as u64) / 20) as i64;
        (dist, new_speed)
    } else {
        let mag: u64 = (-accel) as u64;
        let drop: u64 = mag / 10;
        if (v as u64) < drop {
            let q: u64 = sq_div(v as u64, 2 * mag);
            proof {
                vstd::arithmetic::div_mod::lemma_fundamental_div_mod(mag as int, 10);
                assert(mag >= 10 * (v + 1));
                assert(q <= MAX_DIST_PER_TICK) by (nonlinear_arith)
                    requires
                        q as int * (2 * mag as int) <= v as int * v as int,
                        mag as int >= 10 * (v as int + 1),
                        0 <= v <= MAX_SPEED,
                        q >= 0;
            }
            let dist: i64 = q as i64;
            (dist, 0)
        } else {
            let new_speed: i64 = ((v as u64) - drop) as i64;
            let dist: i64 = ((v as u64 + new_speed as u64) / 20) as i64;
            (dist, new_speed)
        }
    }
}

/// The constant acceleration that changes speed `v` into `target` over one
/// tick: `(target - v) * 10`.
pub open spec fn spec_accel_to_achieve_speed_in_one_tick(v: int, target: int) -> int {
    (target - v) * 10
}

/// The acceleration that, held for one tick, would cover exactly `d`
/// starting from speed `v`: solves `d = v * dt + a * dt * dt / 2`.
pub open spec fn spec_accel_to_cover_dist_in_one_tick(d: int, v: int) -> int {
    200 * d - 20 * v
}

/// The constant deceleration that brings speed `v` to zero over exactly the
/// distance `d`: `-v * v / (2 * d)`.
pub open spec fn spec_accel_to_stop_in_dist(v: int, d: int) -> int
    recommends
        d > 0,
{
    -(v * v / (2 * d))
}

/// Kind of agent a vehicle carries.
#[derive(Clone, Copy, PartialEq, Eq, Structural, Debug)]
pub enum VehicleType {
    Car,
    Bus,
    Bike,
}

/// Immutable physical description of one vehicle.
#[derive(Clone, Copy, PartialEq, Eq, Structural, Debug)]
pub struct Vehicle {
    pub vehicle_type: VehicleType,
    /// Length of the vehicle body.
    pub length: Distance,
    /// Hardest forward acceleration; positive.
    pub max_accel: Acceleration,
    /// Hardest braking; negative.
    pub max_deaccel: Acceleration,
    /// Mechanical top speed, if the vehicle has one below every speed limit.
    pub max_speed: Option<Speed>,
    /// Verbose per-car logging flag; no effect on motion.
    pub debug: bool,
}

impl Vehicle {
    /// Physical well-formedness: every bound the kinematics rely on.
    pub open spec fn valid(self) -> bool {
        &&& MIN_VEHICLE_LENGTH <= self.length <= MAX_VEHICLE_LENGTH
        &&& 0 < self.max_accel <= MAX_ACCEL_MAG
        &&& MIN_DEACCEL_MAG <= -self.max_deaccel <= MAX_ACCEL_MAG
        &&& match self.max_speed {
            Some(s) => 0 < s <= MAX_SPEED,
            None => true,
        }
    }

    /// The given speed, capped at this vehicle's top speed.
    pub open spec fn spec_clamp_speed(self, s: int) -> int {
        match self.max_speed {
            Some(m) => if s > m { m as int } else { s },
            None => s,
        }
    }

    /// Caps `s` at the vehicle's own top speed.
    pub fn clamp_speed(&self, s: Speed) -> (r: Speed)
        ensures
            r == self.spec_clamp_speed(s as int),
    {
        match self.max_speed {
            Some(m) => if s > m { m } else { s },
            None => s,
        }
    }

    /// The given acceleration, boxed into what this vehicle can do.
    pub open spec fn spec_clamp_accel(self, a: int) -> int {
        if a < self.max_deaccel {
            self.max_deaccel as int
        } else if a > self.max_accel {
            self.max_accel as int
        } else {
            a
        }
    }

    /// Boxes `a` into `[max_deaccel, max_accel]`.
    pub fn clamp_accel(&self, a: Acceleration) -> (r: Acceleration)
        ensures
            r == self.spec_clamp_accel(a as int),
    {
        if a < self.max_deaccel {
            self.max_deaccel
        } else if a > self.max_accel {
            self.max_accel
        } else {
            a
        }
    }

    /// Gap a follower keeps behind this vehicle: its length plus a buffer.
    pub open spec fn spec_following_dist(self) -> int {
        self.length + FOLLOWING_DISTANCE_BUFFER
    }

    /// Gap kept behind this vehicle by any follower.
    pub fn following_dist(&self) -> (r: Distance)
        requires
            self.valid(),
        ensures
            r == self.spec_following_dist(),
    {
        self.length + FOLLOWING_DISTANCE_BUFFER
    }

    /// Following distance of the longest possible vehicle.
    pub fn worst_case_following_dist() -> (r: Distance)
        ensures
            r == MAX_VEHICLE_LENGTH + FOLLOWING_DISTANCE_BUFFER,
    {
        MAX_VEHICLE_LENGTH + FOLLOWING_DISTANCE_BUFFER
    }

    /// Following distance of the shortest possible vehicle.
    pub fn best_case_following_dist() -> (r: Distance)
        ensures
            r == MIN_VEHICLE_LENGTH + FOLLOWING_DISTANCE_BUFFER,
    {
        MIN_VEHICLE_LENGTH + FOLLOWING_DISTANCE_BUFFER
    }

    /// Distance this vehicle covers braking from speed `v` to a stop at its
    /// hardest deceleration: `v * v / (2 * -max_deaccel)`.
    pub open spec fn spec_stopping_distance(self, v: int) -> int {
        v * v / (2 * -self.max_deaccel)
    }

    /// Largest value `spec_stopping_distance` takes for a valid vehicle and
    /// speed (braking from the global top speed at the gentlest deceleration).
    pub const MAX_STOPPING_DIST: i64 = 50_000_000_000;

    /// Braking distance from speed `v` at this vehicle's hardest deceleration.
    pub fn stopping_distance(&self, v: Speed) -> (r: Distance)
        requires
            self.valid(),
            0 <= v <= MAX_SPEED,
        ensures
            r == self.spec_stopping_distance(v as int),
            0 <= r <= Vehicle::MAX_STOPPING_DIST,
    {
        let mag: u64 = (-self.max_deaccel) as u64;
        let q: u64 = sq_div(v as u64, 2 * mag);
        proof {
            assert(q <= Vehicle::MAX_STOPPING_DIST) by (nonlinear_arith)
                requires
                    q as int * (2 * mag as int) <= v as int * v as int,
                    v as int * v as int <= MAX_SPEED as int * MAX_SPEED as int,
                    mag >= MIN_DEACCEL_MAG as u64,
                    q >= 0;
        }
        q as i64
    }

    /// The acceleration that matches speed `target` one tick from now.
    pub fn accel_to_achieve_speed_in_one_tick(&self, v: Speed, target: Speed) -> (r: Acceleration)
        requires
            0 <= v <= MAX_SPEED,
            0 <= target <= MAX_SPEED,
        ensures
            r == spec_accel_to_achieve_speed_in_one_tick(v as int, target as int),
            -10 * MAX_SPEED <= r <= 10 * MAX_SPEED,
    {
        (target - v) * 10
    }

    /// The constant deceleration that stops the vehicle over exactly `d`.
    /// Fails when `d` is not positive: there is no room left to stop in.
    pub fn accel_to_stop_in_dist(&self, v: Speed, d: Distance) -> (r: Result<Acceleration, SimError>)
        requires
            0 <= v <= MAX_SPEED,
            d <= 2 * MAX_TRAVERSABLE_LENGTH,
        ensures
            match r {
                Ok(a) => d > 0 && a == spec_accel_to_stop_in_dist(v as int, d as int)
                    && -(MAX_SPEED as int * MAX_SPEED as int) / 2 <= a <= 0,
                Err(e) => d <= 0 && e == SimError::Kinematic,
            },
    {
        if d <= 0 {
            return Err(SimError::Kinematic);
        }
        let q: u64 = sq_div(v as u64, 2 * d as u64);
        proof {
            assert(q as int <= MAX_SPEED as int * MAX_SPEED as int / 2) by (nonlinear_arith)
                requires
                    q as int * (2 * d as int) <= v as int * v as int,
                    v as int * v as int <= MAX_SPEED as int * MAX_SPEED as int,
                    d >= 1,
                    q >= 0;
        }
        Ok(-(q as i64))
    }

    /// Speed one tick from now if the vehicle accelerates as hard as the
    /// speed limit allows.
    pub open spec fn spec_max_next_speed(self, v: int, limit: int) -> int {
        let unl = v + self.max_accel / 10;
        if unl > limit { limit } else { unl }
    }

    /// Largest value `spec_max_lookahead_dist` takes for valid inputs.
    pub const MAX_LOOKAHEAD: i64 = 50_011_000_000;

    /// How far ahead the vehicle must scan this tick so that no constraint
    /// discovered next tick comes too late: the farthest it can travel in one
    /// tick plus its braking distance from the speed it may then have.
    /// Fails when the current speed already exceeds the limit.
    pub open spec fn spec_max_lookahead_dist(self, v: int, limit: int) -> int {
        let next = self.spec_max_next_speed(v, limit);
        (v + next) / 20 + self.spec_stopping_distance(next)
    }

    /// Lookahead budget for one tick; `Err` when `v` exceeds `limit`.
    pub fn max_lookahead_dist(&self, v: Speed, limit: Speed) -> (r: Result<Distance, SimError>)
        requires
            self.valid(),
            0 <= v <= MAX_SPEED,
            0 < limit <= MAX_SPEED,
        ensures
            match r {
                Ok(d) => v <= limit && d == self.spec_max_lookahead_dist(v as int, limit as int)
                    && 0 <= d <= Vehicle::MAX_LOOKAHEAD,
                Err(e) => v > limit && e == SimError::Kinematic,
            },
    {
        if v > limit {
            return Err(SimError::Kinematic);
        }
        let unl: i64 = v + self.max_accel / 10;
        let next: i64 = if unl > limit { limit } else { unl };
        let tick_dist: i64 = ((v as u64 + next as u64) / 20) as i64;
        let stop: i64 = self.stopping_distance(next);
        Ok(tick_dist + stop)
    }

    /// The most this vehicle may accelerate this tick without ever hitting a
    /// leader that is `dist_behind_other` ahead: in the worst case the leader
    /// brakes to a stop at once, so the follower must be able to come to rest
    /// within the gap plus the leader's braking distance, less the leader's
    /// following distance, having scanned its own worst-case lookahead.
    /// Fails when the current speed already exceeds the limit.
    pub fn accel_to_follow(
        &self,
        v: Speed,
        limit: Speed,
        other: &Vehicle,
        dist_behind_other: Distance,
        other_speed: Speed,
    ) -> (r: Result<Acceleration, SimError>)
        requires
            self.valid(),
            other.valid(),
            0 <= v <= MAX_SPEED,
            0 < limit <= MAX_SPEED,
            0 <= other_speed <= MAX_SPEED,
            0 < dist_behind_other <= 2 * MAX_TRAVERSABLE_LENGTH,
        ensures
            match r {
                Ok(a) => v <= limit && a == spec_accel_to_cover_dist_in_one_tick(
                    dist_behind_other + other.spec_stopping_distance(other_speed as int)
                        - self.spec_max_lookahead_dist(v as int, limit as int)
                        - other.spec_following_dist(),
                    v as int,
                ),
                Err(e) => v > limit && e == SimError::Kinematic,
            },
    {
        let us_worst: i64 = match self.max_lookahead_dist(v, limit) {
            Ok(d) => d,
            Err(e) => {
                return Err(e);
            },
        };
        let least_they_could_go: i64 = other.stopping_distance(other_speed);
        let delta: i64 = dist_behind_other + least_they_could_go - us_worst
            - other.following_dist();
        Ok(200 * delta - 20 * v)
    }
}

/// A car with `parking` present must be at rest up to this tolerance.
pub open spec fn spec_is_stopped(v: int) -> bool {
    v <= EPSILON_SPEED
}

/// Free driving under the speed-limit constraint alone: the clamped
/// acceleration that aims at the limit never slows the car and never carries
/// it past the limit — tick over tick the speed rises monotonically until it
/// sits exactly on the limit.
pub proof fn lemma_free_accel_monotone(vehicle: Vehicle, v: int, limit: int)
    requires
        vehicle.valid(),
        0 <= v <= limit,
        limit <= MAX_SPEED,
    ensures
        ({
            let a = vehicle.spec_clamp_accel(
                spec_accel_to_achieve_speed_in_one_tick(v, limit),
            );
            let v2 = spec_speed_after_accel(v, a);
            v <= v2 <= limit
        }),
{
    let raw = spec_accel_to_achieve_speed_in_one_tick(v, limit);
    let a = vehicle.spec_clamp_accel(raw);
    assert(raw == (limit - v) * 10);
    assert(raw >= 0) by (nonlinear_arith)
        requires limit - v >= 0, raw == (limit - v) * 10;
    assert(a >= 0);
    if raw > vehicle.max_accel {
        assert(a == vehicle.max_accel);
        assert(a / 10 <= (limit - v)) by (nonlinear_arith)
            requires a <= (limit - v) * 10, a >= 0;
    } else {
        assert(a == raw);
        assert(a / 10 == limit - v) by (nonlinear_arith)
            requires a == (limit - v) * 10, limit - v >= 0;
    }
}

} // verus!
