//! The per-car route plan, as the driving core consumes it.
//!
//! The owning trip planner decides the path and the terminal maneuver; the
//! driving core only reads the plan: the step the car is on, the steps ahead,
//! an optional early stopping point, the border-vanish signal, and an optional
//! terminal action for the current tick. The lookahead walk reads steps past
//! the cursor without advancing it; only the apply phase advances it, through
//! [`Router::finished_step`].

use vstd::prelude::*;

use crate::types::{LaneID, Traversable, TurnID};
use crate::units::{Distance, MAX_TRAVERSABLE_LENGTH};

verus! {

/// One step of a path.
#[derive(Clone, Copy, PartialEq, Eq, Structural, Debug)]
pub enum PathStep {
    Lane(LaneID),
    Turn(TurnID),
}

impl PathStep {
    /// The traversable this step drives over.
    pub open spec fn spec_as_traversable(self) -> Traversable {
        match self {
            PathStep::Lane(l) => Traversable::Lane(l),
            PathStep::Turn(t) => Traversable::Turn(t),
        }
    }

    /// The traversable this step drives over.
    pub fn as_traversable(&self) -> (r: Traversable)
        ensures
            r == self.spec_as_traversable(),
    {
        match self {
            PathStep::Lane(l) => Traversable::Lane(*l),
            PathStep::Turn(t) => Traversable::Turn(*t),
        }
    }
}

/// A maneuver the route plan orders in place of normal driving this tick.
#[derive(Clone, Copy, PartialEq, Eq, Structural, Debug)]
pub enum TerminalAction {
    /// Begin decelerating into the given parking spot.
    StartParking(crate::car::ParkingSpot),
    /// The bike reached its endpoint; hand the rider to the sidewalk.
    StartParkingBike,
    /// The path dead-ends; remove the car.
    VanishAtDeadEnd,
}

/// Route plan of one car. `steps[idx]` is the step the car is currently on.
#[derive(Clone, PartialEq, Eq, Debug)]
pub struct Router {
    /// The full path, current step included.
    pub steps: Vec<PathStep>,
    /// Index of the step the car is on.
    pub idx: usize,
    /// Stop this far along this lane instead of at its end, when reached.
    pub stop_early: Option<(LaneID, Distance)>,
    /// Whether the path ends at a map border, where the car vanishes.
    pub vanish_at_border: bool,
    /// A terminal maneuver the plan orders for the current tick, if any.
    pub pre_action: Option<TerminalAction>,
}

impl Router {
    /// The cursor points at a real step and the early stop is in range.
    pub open spec fn wf(self) -> bool {
        &&& self.idx < self.steps@.len()
        &&& match self.stop_early {
            Some((_, d)) => 0 <= d <= MAX_TRAVERSABLE_LENGTH,
            None => true,
        }
    }

    /// The traversable of the step the car is currently on.
    pub open spec fn spec_current(self) -> Traversable {
        self.steps@[self.idx as int].spec_as_traversable()
    }

    /// Early stopping point on `on`, if the plan has one there.
    pub open spec fn spec_stop_early_at(self, on: Traversable) -> Option<Distance> {
        match self.stop_early {
            Some((l, d)) => if on == Traversable::Lane(l) {
                Some(d)
            } else {
                None
            },
            None => None,
        }
    }

    /// Terminal maneuver for this tick, if the plan orders one.
    pub fn react_before_lookahead(&self) -> (r: Option<TerminalAction>)
        ensures
            r == self.pre_action,
    {
        self.pre_action
    }

    /// Early stopping point on `on`, if the plan has one there.
    pub fn stop_early_at_dist(&self, on: Traversable) -> (r: Option<Distance>)
        ensures
            r == self.spec_stop_early_at(on),
    {
        match self.stop_early {
            Some((l, d)) => {
                if on == Traversable::Lane(l) {
                    Some(d)
                } else {
                    None
                }
            },
            None => None,
        }
    }

    /// Whether the car vanishes when it crosses the end of its path.
    pub fn should_vanish_at_border(&self) -> (r: bool)
        ensures
            r == self.vanish_at_border,
    {
        self.vanish_at_border
    }

    /// The step after `i`, if one remains.
    pub open spec fn spec_step_after(self, i: int) -> Option<PathStep> {
        if i + 1 < self.steps@.len() {
            Some(self.steps@[i + 1])
        } else {
            None
        }
    }

    /// The next step, if it is a turn.
    pub fn next_step_as_turn(&self) -> (r: Option<TurnID>)
        requires
            self.wf(),
        ensures
            r == (match self.spec_step_after(self.idx as int) {
                Some(PathStep::Turn(t)) => Some(t),
                _ => None::<TurnID>,
            }),
    {
        let n = self.steps.len();
        if n > 0 && self.idx < n - 1 {
            match self.steps[self.idx + 1] {
                PathStep::Turn(t) => Some(t),
                PathStep::Lane(_) => None,
            }
        } else {
            None
        }
    }

    /// The step at index `i`, read without advancing the cursor; the
    /// lookahead walk scans the path this way.
    pub fn step_after(&self, i: usize) -> (r: Option<PathStep>)
        requires
            i <= self.steps@.len(),
        ensures
            r == self.spec_step_after(i as int),
    {
        let n = self.steps.len();
        if n > 0 && i < n - 1 {
            Some(self.steps[i + 1])
        } else {
            None
        }
    }

    /// Records that the car finished its current step and returns the new
    /// current step. Returns `None`, leaving the cursor alone, when no step
    /// remains.
    pub fn finished_step(&mut self) -> (r: Option<PathStep>)
        requires
            old(self).wf(),
        ensures
            final(self).steps == old(self).steps,
            final(self).stop_early == old(self).stop_early,
            final(self).vanish_at_border == old(self).vanish_at_border,
            final(self).pre_action == old(self).pre_action,
            match old(self).spec_step_after(old(self).idx as int) {
                Some(step) => r == Some(step) && final(self).idx == old(self).idx + 1
                    && final(self).wf(),
                None => r == None::<PathStep> && final(self).idx == old(self).idx,
            },
    {
        let n = self.steps.len();
        if n > 0 && self.idx < n - 1 {
            self.idx = self.idx + 1;
            Some(self.steps[self.idx])
        } else {
            None
        }
    }

    /// The remaining path, current step first.
    pub fn get_path(&self) -> (r: &Vec<PathStep>)
        ensures
            r == &self.steps,
    {
        &self.steps
    }
}

} // verus!
