//! The road network as the driving core consumes it: each lane and turn has a
//! length and a speed limit. Geometry stays with the map's owner; the
//! simulation only ever reads these two numbers per traversable.

use vstd::prelude::*;

use std::collections::BTreeMap;

use crate::types::{LaneID, Traversable, TurnID};
use crate::units::{valid_length, valid_speed_limit, Distance, Speed};

verus! {

broadcast use vstd::laws_cmp::group_laws_cmp;

/// What the driving core knows of one lane or turn.
#[derive(Clone, Copy, PartialEq, Eq, Structural, Debug)]
pub struct SegmentInfo {
    pub length: Distance,
    pub speed_limit: Speed,
}

impl SegmentInfo {
    /// Positive, bounded length and speed limit.
    pub open spec fn valid(self) -> bool {
        valid_length(self.length) && valid_speed_limit(self.speed_limit)
    }
}

/// The lanes and turns of the network, keyed deterministically.
pub struct RoadMap {
    pub segments: BTreeMap<u64, SegmentInfo>,
}

impl RoadMap {
    /// Every registered segment is well formed.
    pub open spec fn wf(self) -> bool {
        forall|k: u64| self.segments@.contains_key(k) ==> (#[trigger] self.segments@[k]).valid()
    }

    /// Whether `t` is part of the network.
    pub open spec fn spec_contains(self, t: Traversable) -> bool {
        self.segments@.contains_key(t.spec_key())
    }

    /// Length of `t`.
    pub open spec fn spec_length(self, t: Traversable) -> int {
        self.segments@[t.spec_key()].length as int
    }

    /// Speed limit of `t`.
    pub open spec fn spec_speed_limit(self, t: Traversable) -> int {
        self.segments@[t.spec_key()].speed_limit as int
    }

    /// An empty network.
    pub fn new() -> (r: RoadMap)
        ensures
            r.segments@ == Map::<u64, SegmentInfo>::empty(),
            r.wf(),
    {
        RoadMap { segments: BTreeMap::new() }
    }

    /// Registers lane `id`, replacing any previous record of it.
    pub fn add_lane(&mut self, id: LaneID, length: Distance, speed_limit: Speed)
        requires
            valid_length(length),
            valid_speed_limit(speed_limit),
        ensures
            final(self).segments@ == old(self).segments@.insert(
                Traversable::Lane(id).spec_key(),
                SegmentInfo { length, speed_limit },
            ),
            old(self).wf() ==> final(self).wf(),
    {
        let t = Traversable::Lane(id);
        self.segments.insert(t.key(), SegmentInfo { length, speed_limit });
    }

    /// Registers turn `id`, replacing any previous record of it.
    pub fn add_turn(&mut self, id: TurnID, length: Distance, speed_limit: Speed)
        requires
            valid_length(length),
            valid_speed_limit(speed_limit),
        ensures
            final(self).segments@ == old(self).segments@.insert(
                Traversable::Turn(id).spec_key(),
                SegmentInfo { length, speed_limit },
            ),
            old(self).wf() ==> final(self).wf(),
    {
        let t = Traversable::Turn(id);
        self.segments.insert(t.key(), SegmentInfo { length, speed_limit });
    }

    /// Whether `t` is part of the network.
    pub fn contains(&self, t: Traversable) -> (r: bool)
        ensures
            r == self.spec_contains(t),
    {
        self.segments.contains_key(&t.key())
    }

    /// Length of `t`.
    pub fn length_of(&self, t: Traversable) -> (r: Distance)
        requires
            self.spec_contains(t),
        ensures
            r == self.spec_length(t),
    {
        match self.segments.get(&t.key()) {
            Some(info) => info.length,
            None => vstd::pervasive::unreached(),
        }
    }

    /// Speed limit of `t`.
    pub fn speed_limit_of(&self, t: Traversable) -> (r: Speed)
        requires
            self.spec_contains(t),
        ensures
            r == self.spec_speed_limit(t),
    {
        match self.segments.get(&t.key()) {
            Some(info) => info.speed_limit,
            None => vstd::pervasive::unreached(),
        }
    }
}

} // verus!
