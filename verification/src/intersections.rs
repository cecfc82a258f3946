//! The intersection manager, as the resource the driving core shares.
//!
//! The cooperating controller decides which requests to grant; the driving
//! core only asks whether a request is granted, submits requests it is
//! waiting on (idempotently), and reports every turn entry and exit, exactly
//! once per boundary crossing. At most one car occupies a turn at a time.

use vstd::prelude::*;

use std::collections::{BTreeMap, BTreeSet};

use crate::kinematics::SimError;
use crate::types::{CarID, Request, TurnID};

verus! {

broadcast use vstd::laws_cmp::group_laws_cmp;

/// Grant, request, and occupancy bookkeeping for every intersection.
pub struct IntersectionSim {
    /// Requests the controller has granted.
    pub granted: BTreeSet<(CarID, TurnID)>,
    /// Requests submitted by waiting cars; the controller drains this.
    pub requests: BTreeSet<(CarID, TurnID)>,
    /// The car currently inside each occupied turn.
    pub occupied: BTreeMap<TurnID, CarID>,
}

impl IntersectionSim {
    /// A manager with nothing granted, requested, or occupied.
    pub fn new() -> (r: IntersectionSim)
        ensures
            r.granted@ == Set::<(CarID, TurnID)>::empty(),
            r.requests@ == Set::<(CarID, TurnID)>::empty(),
            r.occupied@ == Map::<TurnID, CarID>::empty(),
    {
        IntersectionSim {
            granted: BTreeSet::new(),
            requests: BTreeSet::new(),
            occupied: BTreeMap::new(),
        }
    }

    /// The controller's verdict on `req`; read-only.
    pub fn request_granted(&self, req: Request) -> (r: bool)
        ensures
            r == self.granted@.contains((req.car, req.turn)),
    {
        self.granted.contains(&(req.car, req.turn))
    }

    /// Grants `req`; the controller calls this between ticks.
    pub fn grant(&mut self, req: Request)
        ensures
            final(self).granted@ == old(self).granted@.insert((req.car, req.turn)),
            final(self).requests == old(self).requests,
            final(self).occupied == old(self).occupied,
    {
        self.granted.insert((req.car, req.turn));
    }

    /// Submits `req` for a future grant. Idempotent: the queued set after two
    /// identical submissions equals the set after one. Never grants.
    pub fn submit_request(&mut self, req: Request)
        ensures
            final(self).requests@ == old(self).requests@.insert((req.car, req.turn)),
            final(self).granted == old(self).granted,
            final(self).occupied == old(self).occupied,
    {
        self.requests.insert((req.car, req.turn));
    }

    /// Records that `req.car` drove onto `req.turn`. Fails when the turn is
    /// already occupied; on success the car holds the turn.
    pub fn on_enter(&mut self, req: Request) -> (r: Result<(), SimError>)
        ensures
            final(self).granted == old(self).granted,
            final(self).requests == old(self).requests,
            match r {
                Ok(()) => !old(self).occupied@.contains_key(req.turn) && final(self).occupied@
                    == old(self).occupied@.insert(req.turn, req.car),
                Err(e) => old(self).occupied@.contains_key(req.turn) && e
                    == SimError::IntersectionInvariant && final(self).occupied
                    == old(self).occupied,
            },
    {
        if self.occupied.contains_key(&req.turn) {
            Err(SimError::IntersectionInvariant)
        } else {
            self.occupied.insert(req.turn, req.car);
            Ok(())
        }
    }

    /// Records that `req.car` left `req.turn`, freeing it.
    pub fn on_exit(&mut self, req: Request)
        requires
            old(self).occupied@.contains_key(req.turn),
            old(self).occupied@[req.turn] == req.car,
        ensures
            final(self).granted == old(self).granted,
            final(self).requests == old(self).requests,
            final(self).occupied@ == old(self).occupied@.remove(req.turn),
    {
        self.occupied.remove(&req.turn);
    }
}

/// Submitting the same request twice in a tick leaves the same queued set
/// as submitting it once.
pub proof fn lemma_submit_request_idempotent(s: Set<(CarID, TurnID)>, req: Request)
    ensures
        s.insert((req.car, req.turn)).insert((req.car, req.turn)) == s.insert(
            (req.car, req.turn),
        ),
{
    assert(s.insert((req.car, req.turn)).insert((req.car, req.turn)) =~= s.insert(
        (req.car, req.turn),
    ));
}

} // verus!
