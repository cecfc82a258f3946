//! The per-traversable queue: cars ordered by distance along, front first.
//!
//! Queues are transient: the step rebuilds every one of them from the
//! post-apply positions, re-checking capacity and the no-squish gap.

use vstd::prelude::*;

use std::collections::BTreeMap;

use crate::car::Car;
use crate::kinematics::SimError;
use crate::map::RoadMap;
use crate::types::{CarID, Traversable};
use crate::units::{Distance, FOLLOWING_DISTANCE_BUFFER, MAX_TRAVERSABLE_LENGTH, MIN_VEHICLE_LENGTH};

verus! {

broadcast use vstd::laws_cmp::group_laws_cmp, vstd::seq_lib::group_to_multiset_ensures;

/// Entries are ordered by distance along, greatest first.
pub open spec fn sorted_desc(s: Seq<(Distance, CarID)>) -> bool {
    forall|i: int, j: int| 0 <= i < j < s.len() ==> (#[trigger] s[i]).0 >= (#[trigger] s[j]).0
}

/// No car appears twice.
pub open spec fn distinct_ids(s: Seq<(Distance, CarID)>) -> bool {
    forall|i: int, j: int| 0 <= i < j < s.len() ==> (#[trigger] s[i]).1 != (#[trigger] s[j]).1
}

/// Every entry records a car of `cars` that is on `on`, at its distance.
pub open spec fn entries_match(
    s: Seq<(Distance, CarID)>,
    cars: Map<CarID, Car>,
    on: Traversable,
) -> bool {
    forall|i: int|
        0 <= i < s.len() ==> {
            &&& cars.contains_key((#[trigger] s[i]).1)
            &&& cars[s[i].1].on == on
            &&& s[i].0 == cars[s[i].1].dist_along
        }
}

/// Each adjacent pair keeps at least the leader's following distance.
pub open spec fn gaps_ok(s: Seq<(Distance, CarID)>, cars: Map<CarID, Car>) -> bool {
    forall|i: int|
        0 <= i < s.len() - 1 ==> (#[trigger] s[i]).0 - s[i + 1].0
            >= cars[s[i].1].vehicle.spec_following_dist()
}

/// Two cars are far enough apart, judged from the one farther along.
pub open spec fn pair_ok(a: Car, b: Car) -> bool {
    a.dist_along >= b.dist_along ==> a.dist_along - b.dist_along
        >= a.vehicle.spec_following_dist()
}

/// Every two distinct listed cars are far enough apart.
pub open spec fn no_squish(ids: Seq<CarID>, cars: Map<CarID, Car>) -> bool {
    forall|m: int, n: int|
        0 <= m < ids.len() && 0 <= n < ids.len() && m != n ==> pair_ok(
            cars[#[trigger] ids[m]],
            cars[#[trigger] ids[n]],
        )
}

/// The car identifiers a queue holds, in queue order.
pub open spec fn ids_of(s: Seq<(Distance, CarID)>) -> Seq<CarID> {
    s.map_values(|e: (Distance, CarID)| e.1)
}

/// How many cars a traversable of this length can hold: its length divided by
/// the best-case following distance, rounded up (never below one).
pub open spec fn spec_capacity(length: int) -> int {
    (length + (MIN_VEHICLE_LENGTH + FOLLOWING_DISTANCE_BUFFER) - 1) / (MIN_VEHICLE_LENGTH
        + FOLLOWING_DISTANCE_BUFFER)
}

/// The queue entry for the car nearest ahead of `d`: the last entry, in
/// descending order, whose distance exceeds `d`.
pub open spec fn spec_next_front(s: Seq<(Distance, CarID)>, d: int) -> Option<(Distance, CarID)>
    decreases s.len(),
{
    if s.len() == 0 {
        None
    } else if s.last().0 > d {
        Some(s.last())
    } else {
        spec_next_front(s.drop_last(), d)
    }
}

/// The queue entry for the first car at or behind `d`: the first entry, in
/// descending order, whose distance is at most `d`.
pub open spec fn spec_first_behind(s: Seq<(Distance, CarID)>, d: int) -> Option<(Distance, CarID)>
    decreases s.len(),
{
    if s.len() == 0 {
        None
    } else if s[0].0 <= d {
        Some(s[0])
    } else {
        spec_first_behind(s.subrange(1, s.len() as int), d)
    }
}

/// Index at which an entry of distance `d` enters a descending queue: just
/// before the first entry whose distance is below `d`.
pub open spec fn spec_insert_pos(s: Seq<(Distance, CarID)>, d: int) -> int
    decreases s.len(),
{
    if s.len() == 0 {
        0
    } else if s[0].0 < d {
        0
    } else {
        1 + spec_insert_pos(s.subrange(1, s.len() as int), d)
    }
}

/// The insertion index is in range, everything before it lies at or beyond
/// `d`, and everything from it on lies below `d`.
pub proof fn lemma_insert_pos_props(s: Seq<(Distance, CarID)>, d: int)
    requires
        sorted_desc(s),
    ensures
        0 <= spec_insert_pos(s, d) <= s.len(),
        forall|i: int| 0 <= i < spec_insert_pos(s, d) ==> (#[trigger] s[i]).0 >= d,
        forall|i: int| spec_insert_pos(s, d) <= i < s.len() ==> (#[trigger] s[i]).0 < d,
    decreases s.len(),
{
    if s.len() == 0 {
    } else if s[0].0 < d {
    } else {
        let t = s.subrange(1, s.len() as int);
        assert(sorted_desc(t)) by {
            assert forall|i: int, j: int| 0 <= i < j < t.len() implies (#[trigger] t[i]).0
                >= (#[trigger] t[j]).0 by {
                assert(t[i] == s[i + 1]);
                assert(t[j] == s[j + 1]);
            }
        }
        lemma_insert_pos_props(t, d);
        let p = spec_insert_pos(s, d);
        assert(p == 1 + spec_insert_pos(t, d));
        assert forall|i: int| 0 <= i < p implies (#[trigger] s[i]).0 >= d by {
            if i >= 1 {
                assert(s[i] == t[i - 1]);
            }
        }
        assert forall|i: int| p <= i < s.len() implies (#[trigger] s[i]).0 < d by {
            assert(s[i] == t[i - 1]);
        }
    }
}

/// Inserting a matching entry at its insertion index keeps a queue sorted,
/// matching, and duplicate-free, and extends what it holds by exactly that
/// entry.
pub proof fn lemma_queue_insert(
    s: Seq<(Distance, CarID)>,
    id: CarID,
    cars: Map<CarID, Car>,
    on: Traversable,
)
    requires
        sorted_desc(s),
        entries_match(s, cars, on),
        distinct_ids(s),
        cars.contains_key(id),
        cars[id].on == on,
        !ids_of(s).contains(id),
    ensures
        ({
            let d = cars[id].dist_along;
            let s2 = s.insert(spec_insert_pos(s, d as int), (d, id));
            &&& s2.len() == s.len() + 1
            &&& sorted_desc(s2)
            &&& entries_match(s2, cars, on)
            &&& distinct_ids(s2)
            &&& ids_of(s2).to_multiset() == ids_of(s).to_multiset().insert(id)
        }),
{
    let d = cars[id].dist_along;
    let pos = spec_insert_pos(s, d as int);
    lemma_insert_pos_props(s, d as int);
    s.insert_ensures(pos, (d, id));
    let s2 = s.insert(pos, (d, id));
    assert forall|i: int, j: int| 0 <= i < j < s2.len() implies (#[trigger] s2[i]).0
        >= (#[trigger] s2[j]).0 by {
        if i < pos {
            assert(s2[i] == s[i]);
        }
        if j < pos {
            assert(s2[j] == s[j]);
        }
        if i > pos {
            assert(s2[i] == s[i - 1]);
        }
        if j > pos {
            assert(s2[j] == s[j - 1]);
        }
    }
    assert(s2[pos] == (d, id));
    assert(ids_of(s2) =~= ids_of(s).insert(pos, id)) by {
        assert forall|i: int| 0 <= i < s2.len() implies ids_of(s2)[i] == ids_of(s).insert(
            pos,
            id,
        )[i] by {
            if i < pos {
                assert(s2[i] == s[i]);
            } else if i > pos {
                assert(s2[i] == s[i - 1]);
            }
        }
    }
    vstd::seq_lib::to_multiset_insert(ids_of(s), pos, id);
    assert forall|p: int| 0 <= p < s.len() implies (#[trigger] s[p]).1 != id by {
        assert(ids_of(s)[p] == s[p].1);
    }
    assert forall|i: int, j: int| 0 <= i < j < s2.len() implies (#[trigger] s2[i]).1
        != (#[trigger] s2[j]).1 by {
        if i < pos {
            assert(s2[i] == s[i]);
        }
        if j < pos {
            assert(s2[j] == s[j]);
        }
        if i > pos {
            assert(s2[i] == s[i - 1]);
        }
        if j > pos {
            assert(s2[j] == s[j - 1]);
        }
    }
    assert forall|i: int| 0 <= i < s2.len() implies {
        &&& cars.contains_key((#[trigger] s2[i]).1)
        &&& cars[s2[i].1].on == on
        &&& s2[i].0 == cars[s2[i].1].dist_along
    } by {
        if i < pos {
            assert(s2[i] == s[i]);
        }
        if i > pos {
            assert(s2[i] == s[i - 1]);
        }
    }
}

/// A sorted queue whose gaps hold is strictly descending.
pub proof fn lemma_gaps_strict(s: Seq<(Distance, CarID)>, cars: Map<CarID, Car>)
    requires
        sorted_desc(s),
        gaps_ok(s, cars),
        forall|p: int| 0 <= p < s.len() ==> cars[(#[trigger] s[p]).1].vehicle.valid(),
    ensures
        forall|i: int, j: int| 0 <= i < j < s.len() ==> (#[trigger] s[i]).0 > (#[trigger] s[j]).0,
{
    assert forall|i: int, j: int| 0 <= i < j < s.len() implies (#[trigger] s[i]).0
        > (#[trigger] s[j]).0 by {
        assert(s[i].0 - s[i + 1].0 >= cars[s[i].1].vehicle.spec_following_dist());
        assert(s[i + 1].0 >= s[j].0);
    }
}

/// A sorted queue whose adjacent gaps hold keeps every pair of its cars
/// far enough apart.
pub proof fn lemma_queue_no_squish(
    q: Seq<(Distance, CarID)>,
    ids: Seq<CarID>,
    cars: Map<CarID, Car>,
    on: Traversable,
)
    requires
        sorted_desc(q),
        gaps_ok(q, cars),
        entries_match(q, cars, on),
        distinct_ids(q),
        forall|i: int, j: int| 0 <= i < j < ids.len() ==> (#[trigger] ids[i]) != (#[trigger] ids[j]),
        ids_of(q).to_multiset() == ids.to_multiset(),
        forall|p: int| 0 <= p < q.len() ==> cars[(#[trigger] q[p]).1].vehicle.valid(),
    ensures
        no_squish(ids, cars),
{
    broadcast use vstd::seq_lib::group_to_multiset_ensures;

    lemma_gaps_strict(q, cars);
    assert forall|m: int, n: int|
        0 <= m < ids.len() && 0 <= n < ids.len() && m != n implies pair_ok(
        cars[#[trigger] ids[m]],
        cars[#[trigger] ids[n]],
    ) by {
        let a = cars[ids[m]];
        let b = cars[ids[n]];
        assert(ids.contains(ids[m]));
        assert(ids.contains(ids[n]));
        assert(ids.to_multiset().count(ids[m]) > 0);
        assert(ids.to_multiset().count(ids[n]) > 0);
        assert(ids_of(q).to_multiset().count(ids[m]) > 0);
        assert(ids_of(q).to_multiset().count(ids[n]) > 0);
        assert(ids_of(q).contains(ids[m]));
        assert(ids_of(q).contains(ids[n]));
        let pm = choose|p: int| 0 <= p < ids_of(q).len() && ids_of(q)[p] == ids[m];
        let pn = choose|p: int| 0 <= p < ids_of(q).len() && ids_of(q)[p] == ids[n];
        assert(q[pm].1 == ids[m]);
        assert(q[pn].1 == ids[n]);
        assert(ids[m] != ids[n]);
        assert(pm != pn);
        assert(q[pm].0 == a.dist_along);
        assert(q[pn].0 == b.dist_along);
        if a.dist_along >= b.dist_along {
            assert(pm < pn);
            assert(q[pm].0 - q[pm + 1].0 >= a.vehicle.spec_following_dist());
            if pm + 1 < pn {
                assert(q[pm + 1].0 >= q[pn].0);
            }
        }
    }
}

/// What `spec_next_front` returns is an entry of the queue, ahead of `d`.
pub proof fn lemma_spec_next_front_entry(s: Seq<(Distance, CarID)>, d: int)
    ensures
        match spec_next_front(s, d) {
            Some(e) => e.0 > d && exists|p: int| 0 <= p < s.len() && (#[trigger] s[p]) == e,
            None => true,
        },
    decreases s.len(),
{
    if s.len() == 0 {
    } else if s.last().0 > d {
        assert(s[s.len() - 1] == s.last());
    } else {
        lemma_spec_next_front_entry(s.drop_last(), d);
        match spec_next_front(s.drop_last(), d) {
            Some(e) => {
                let p = choose|p: int|
                    0 <= p < s.drop_last().len() && (#[trigger] s.drop_last()[p]) == e;
                assert(s[p] == e);
            },
            None => {},
        }
    }
}

/// What `spec_first_behind` returns is an entry of the queue, at or behind `d`.
pub proof fn lemma_spec_first_behind_entry(s: Seq<(Distance, CarID)>, d: int)
    ensures
        match spec_first_behind(s, d) {
            Some(e) => e.0 <= d && exists|p: int| 0 <= p < s.len() && (#[trigger] s[p]) == e,
            None => true,
        },
    decreases s.len(),
{
    if s.len() == 0 {
    } else if s[0].0 <= d {
    } else {
        let t = s.subrange(1, s.len() as int);
        lemma_spec_first_behind_entry(t, d);
        match spec_first_behind(t, d) {
            Some(e) => {
                let p = choose|p: int| 0 <= p < t.len() && (#[trigger] t[p]) == e;
                assert(s[p + 1] == e);
            },
            None => {},
        }
    }
}

/// Queue of one traversable: `(dist_along, car)` sorted descending, the
/// front of the queue (greatest distance) first.
#[derive(Clone, PartialEq, Eq, Debug)]
pub struct SimQueue {
    pub cars_queue: Vec<(Distance, CarID)>,
}

impl View for SimQueue {
    type V = Seq<(Distance, CarID)>;

    open spec fn view(&self) -> Seq<(Distance, CarID)> {
        self.cars_queue@
    }
}

impl SimQueue {
    /// Builds the descending queue holding exactly the cars `ids`.
    #[verifier::rlimit(100)]
    #[verifier::spinoff_prover]
    fn build_sorted(
        on: Traversable,
        ids: &Vec<CarID>,
        cars: &BTreeMap<CarID, Car>,
    ) -> (q: SimQueue)
        requires
            forall|i: int, j: int|
                0 <= i < j < ids@.len() ==> (#[trigger] ids@[i]) != (#[trigger] ids@[j]),
            forall|i: int|
                0 <= i < ids@.len() ==> {
                    &&& cars@.contains_key(#[trigger] ids@[i])
                    &&& cars@[ids@[i]].on == on
                },
        ensures
            q@.len() == ids@.len(),
            sorted_desc(q@),
            entries_match(q@, cars@, on),
            distinct_ids(q@),
            ids_of(q@).to_multiset() == ids@.to_multiset(),
    {
        let n = ids.len();
        let mut q = SimQueue { cars_queue: Vec::new() };
        let mut k: usize = 0;
        while k < n
            invariant
                0 <= k <= n,
                n == ids@.len(),
                forall|i: int, j: int|
                    0 <= i < j < ids@.len() ==> (#[trigger] ids@[i]) != (#[trigger] ids@[j]),
                forall|i: int|
                    0 <= i < ids@.len() ==> {
                        &&& cars@.contains_key(#[trigger] ids@[i])
                        &&& cars@[ids@[i]].on == on
                    },
                q@.len() == k,
                sorted_desc(q@),
                entries_match(q@, cars@, on),
                distinct_ids(q@),
                ids_of(q@).to_multiset() == ids@.take(k as int).to_multiset(),
            decreases n - k,
        {
            let id = ids[k];
            let c = crate::car::get_car(cars, id);
            let ghost qpre = q@;
            proof {
                assert(!ids_of(qpre).contains(id)) by {
                    if ids_of(qpre).contains(id) {
                        assert(ids_of(qpre).to_multiset().contains(id));
                        assert(ids@.take(k as int).to_multiset().contains(id));
                        assert(ids@.take(k as int).contains(id));
                        let m = choose|m: int|
                            0 <= m < k && ids@.take(k as int)[m] == id;
                        assert(ids@[m] == ids@[k as int]);
                    }
                }
                lemma_queue_insert(qpre, id, cars@, on);
            }
            q.insert_at(id, c.dist_along);
            proof {
                assert(ids_of(q@).to_multiset() == ids_of(qpre).to_multiset().insert(id));
                assert(ids@.take(k as int + 1) =~= ids@.take(k as int).push(id));
                assert(ids@.take(k as int + 1).to_multiset() == ids@.take(
                    k as int,
                ).to_multiset().insert(id));
            }
            k = k + 1;
        }
        proof {
            assert(ids@.take(n as int) =~= ids@);
        }
        q
    }

    /// Checks the no-squish rule over every adjacent pair.
    pub(crate) fn check_gaps(&self, cars: &BTreeMap<CarID, Car>) -> (r: bool)
        requires
            forall|p: int|
                0 <= p < self@.len() ==> {
                    &&& cars@.contains_key((#[trigger] self@[p]).1)
                    &&& cars@[self@[p].1].vehicle.valid()
                    &&& 0 <= self@[p].0 <= MAX_TRAVERSABLE_LENGTH
                },
        ensures
            r == gaps_ok(self@, cars@),
    {
        let n = self.cars_queue.len();
        let mut i: usize = 1;
        while i < n
            invariant
                1 <= i,
                n == self@.len(),
                forall|p: int|
                    0 <= p < self@.len() ==> {
                        &&& cars@.contains_key((#[trigger] self@[p]).1)
                        &&& cars@[self@[p].1].vehicle.valid()
                        &&& 0 <= self@[p].0 <= MAX_TRAVERSABLE_LENGTH
                    },
                forall|j: int|
                    0 <= j < i - 1 && j < self@.len() - 1 ==> (#[trigger] self@[j]).0 - self@[j
                        + 1].0 >= cars@[self@[j].1].vehicle.spec_following_dist(),
            decreases n - i,
        {
            let e1 = self.cars_queue[i - 1];
            let e2 = self.cars_queue[i];
            let c1 = crate::car::get_car(cars, e1.1);
            let fd = c1.vehicle.following_dist();
            if e1.0 - e2.0 < fd {
                proof {
                    assert(self@[i - 1].0 - self@[i as int].0
                        < cars@[self@[i - 1].1].vehicle.spec_following_dist());
                }
                return false;
            }
            i = i + 1;
        }
        true
    }

    /// Builds the queue for `on` out of the cars `ids`, which must all be on
    /// `on`: sorts them by distance descending, then enforces the capacity
    /// bound and the no-squish gap between every adjacent pair. Succeeds if
    /// and only if the cars fit and no two stand too close.
    #[verifier::rlimit(60)]
    pub fn new(
        on: Traversable,
        map: &RoadMap,
        ids: &Vec<CarID>,
        cars: &BTreeMap<CarID, Car>,
    ) -> (r: Result<SimQueue, SimError>)
        requires
            map.wf(),
            map.spec_contains(on),
            forall|i: int, j: int|
                0 <= i < j < ids@.len() ==> (#[trigger] ids@[i]) != (#[trigger] ids@[j]),
            forall|i: int|
                0 <= i < ids@.len() ==> {
                    &&& cars@.contains_key(#[trigger] ids@[i])
                    &&& cars@[ids@[i]].valid(*map)
                    &&& cars@[ids@[i]].on == on
                },
        ensures
            match r {
                Ok(q) => {
                    &&& ids@.len() <= spec_capacity(map.spec_length(on))
                    &&& no_squish(ids@, cars@)
                    &&& q@.len() == ids@.len()
                    &&& sorted_desc(q@)
                    &&& distinct_ids(q@)
                    &&& entries_match(q@, cars@, on)
                    &&& gaps_ok(q@, cars@)
                    &&& ids_of(q@).to_multiset() == ids@.to_multiset()
                },
                Err(e) => {
                    &&& e == SimError::QueueInvariant
                    &&& (ids@.len() > spec_capacity(map.spec_length(on)) || !no_squish(
                        ids@,
                        cars@,
                    ))
                },
            },
    {
        let q = SimQueue::build_sorted(on, ids, cars);
        // Capacity: how many cars this traversable can hold.
        let length = map.length_of(on);
        let best = MIN_VEHICLE_LENGTH + FOLLOWING_DISTANCE_BUFFER;
        let cap: u64 = (length as u64 + (best as u64 - 1)) / best as u64;
        if q.cars_queue.len() as u64 > cap {
            return Err(SimError::QueueInvariant);
        }
        proof {
            broadcast use vstd::seq_lib::group_to_multiset_ensures;

            assert forall|p: int| 0 <= p < q@.len() implies {
                &&& cars@.contains_key((#[trigger] q@[p]).1)
                &&& cars@[q@[p].1].vehicle.valid()
                &&& 0 <= q@[p].0 <= MAX_TRAVERSABLE_LENGTH
            } by {
                assert(ids_of(q@)[p] == q@[p].1);
                assert(ids_of(q@).contains(q@[p].1));
                assert(ids_of(q@).to_multiset().count(q@[p].1) > 0);
                assert(ids@.to_multiset().count(q@[p].1) > 0);
                assert(ids@.contains(q@[p].1));
                let m = choose|m: int| 0 <= m < ids@.len() && ids@[m] == q@[p].1;
                assert(cars@[ids@[m]].valid(*map));
            }
        }
        if !q.check_gaps(cars) {
            proof {
                broadcast use vstd::seq_lib::group_to_multiset_ensures;

                let j = choose|j: int|
                    !(0 <= j < q@.len() - 1 ==> (#[trigger] q@[j]).0 - q@[j + 1].0
                        >= cars@[q@[j].1].vehicle.spec_following_dist());
                assert(ids_of(q@)[j] == q@[j].1);
                assert(ids_of(q@)[j + 1] == q@[j + 1].1);
                assert(ids_of(q@).contains(q@[j].1));
                assert(ids_of(q@).contains(q@[j + 1].1));
                assert(ids_of(q@).to_multiset().count(q@[j].1) > 0);
                assert(ids_of(q@).to_multiset().count(q@[j + 1].1) > 0);
                assert(ids@.to_multiset().count(q@[j].1) > 0);
                assert(ids@.to_multiset().count(q@[j + 1].1) > 0);
                assert(ids@.contains(q@[j].1));
                assert(ids@.contains(q@[j + 1].1));
                let m = choose|m: int| 0 <= m < ids@.len() && ids@[m] == q@[j].1;
                let nn = choose|m: int| 0 <= m < ids@.len() && ids@[m] == q@[j + 1].1;
                assert(q@[j].1 != q@[j + 1].1);
                assert(m != nn);
                assert(cars@[ids@[m]].dist_along >= cars@[ids@[nn]].dist_along);
                assert(!pair_ok(cars@[ids@[m]], cars@[ids@[nn]]));
                assert(!no_squish(ids@, cars@));
            }
            return Err(SimError::QueueInvariant);
        }
        proof {
            lemma_queue_no_squish(q@, ids@, cars@, on);
        }
        Ok(q)
    }

    /// The car nearest ahead of `dist`, if any: the entry with the smallest
    /// distance still greater than `dist`.
    pub fn next_car_in_front_of(&self, dist: Distance) -> (r: Option<CarID>)
        ensures
            r == (match spec_next_front(self@, dist as int) {
                Some(e) => Some(e.1),
                None => None::<CarID>,
            }),
    {
        let n = self.cars_queue.len();
        let mut i: usize = n;
        proof {
            assert(self@.take(n as int) =~= self@);
        }
        loop
            invariant
                0 <= i <= n,
                n == self.cars_queue.len(),
                spec_next_front(self@, dist as int) == spec_next_front(
                    self@.take(i as int),
                    dist as int,
                ),
            decreases i,
        {
            if i == 0 {
                return None;
            }
            i = i - 1;
            let e = self.cars_queue[i];
            proof {
                assert(self@.take(i as int + 1).last() == self@[i as int]);
                assert(self@.take(i as int + 1).drop_last() =~= self@.take(i as int));
            }
            if e.0 > dist {
                return Some(e.1);
            }
        }
    }

    /// The first car at or behind `dist`, if any: the entry farthest along
    /// among those whose distance is at most `dist`.
    pub fn first_car_behind(&self, dist: Distance) -> (r: Option<CarID>)
        ensures
            r == (match spec_first_behind(self@, dist as int) {
                Some(e) => Some(e.1),
                None => None::<CarID>,
            }),
    {
        let n = self.cars_queue.len();
        let mut i: usize = 0;
        proof {
            assert(self@.skip(0) =~= self@);
        }
        loop
            invariant
                0 <= i <= n,
                n == self.cars_queue.len(),
                spec_first_behind(self@, dist as int) == spec_first_behind(
                    self@.skip(i as int),
                    dist as int,
                ),
            decreases n - i,
        {
            if i == n {
                return None;
            }
            let e = self.cars_queue[i];
            proof {
                assert(self@.skip(i as int)[0] == self@[i as int]);
                assert(self@.skip(i as int).subrange(1, self@.skip(i as int).len() as int)
                    =~= self@.skip(i as int + 1));
            }
            if e.0 <= dist {
                return Some(e.1);
            }
            i = i + 1;
        }
    }

    /// Inserts `car` at `dist_along`, keeping the descending order: right
    /// before the first entry whose distance is below `dist_along`.
    pub fn insert_at(&mut self, car: CarID, dist_along: Distance) -> (idx: usize)
        ensures
            idx as int == spec_insert_pos(old(self)@, dist_along as int),
            final(self)@ == old(self)@.insert(idx as int, (dist_along, car)),
    {
        let n = self.cars_queue.len();
        let mut i: usize = 0;
        proof {
            assert(self@.skip(0) =~= self@);
        }
        loop
            invariant
                0 <= i <= n,
                n == self.cars_queue.len(),
                spec_insert_pos(self@, dist_along as int) == i as int + spec_insert_pos(
                    self@.skip(i as int),
                    dist_along as int,
                ),
            ensures
                i as int == spec_insert_pos(self@, dist_along as int),
                i <= n,
                n == self.cars_queue.len(),
            decreases n - i,
        {
            if i == n {
                break;
            }
            let e = self.cars_queue[i];
            proof {
                assert(self@.skip(i as int)[0] == self@[i as int]);
                assert(self@.skip(i as int).subrange(1, self@.skip(i as int).len() as int)
                    =~= self@.skip(i as int + 1));
            }
            if e.0 < dist_along {
                break;
            }
            i = i + 1;
        }
        self.cars_queue.insert(i, (dist_along, car));
        i
    }
}

} // verus!
