//! Grouping cars by traversable for the queue rebuild, on top of the
//! `multimap` crate.
//!
//! The multimap is keyed by encoded traversables and holds car identifiers;
//! within one key it keeps insertion order, while the order of the keys
//! themselves is left open, as the backing hash map walks them in an
//! unspecified order. Everything the rebuild proves is insensitive to that
//! order.

use vstd::prelude::*;

verus! {

/// The multimap type, declared so car groupings can pass through it.
#[verifier::external_type_specification]
#[verifier::external_body]
#[verifier::reject_recursive_types(K)]
#[verifier::reject_recursive_types(V)]
#[verifier::reject_recursive_types(S)]
pub struct ExMultiMap<K, V, S>(multimap::MultiMap<K, V, S>);

/// What a multimap holds: for each key present, the values inserted under
/// it, oldest first.
pub uninterp spec fn multimap_groups(m: multimap::MultiMap<u64, u64>) -> Map<u64, Seq<u64>>;

/// Relies on multimap::MultiMap::new: the new multimap is empty.
#[verifier::external_body]
pub fn mm_new() -> (r: multimap::MultiMap<u64, u64>)
    ensures
        multimap_groups(r).dom() == Set::<u64>::empty(),
{
    multimap::MultiMap::new()
}

/// Relies on multimap::MultiMap::insert: it appends the value to the key's
/// vector, creating a one-element vector for a fresh key.
#[verifier::external_body]
pub fn mm_insert(m: &mut multimap::MultiMap<u64, u64>, k: u64, v: u64)
    ensures
        multimap_groups(*final(m)) == (if multimap_groups(*old(m)).contains_key(k) {
            multimap_groups(*old(m)).insert(k, multimap_groups(*old(m))[k].push(v))
        } else {
            multimap_groups(*old(m)).insert(k, seq![v])
        }),
{
    m.insert(k, v);
}

/// Relies on multimap::MultiMap::into_iter: it yields each key exactly once
/// with its whole vector, in an unspecified key order.
#[verifier::external_body]
pub fn mm_into_groups(m: multimap::MultiMap<u64, u64>) -> (r: Vec<(u64, Vec<u64>)>)
    ensures
        forall|i: int, j: int|
            0 <= i < j < r@.len() ==> (#[trigger] r@[i]).0 != (#[trigger] r@[j]).0,
        forall|i: int|
            0 <= i < r@.len() ==> multimap_groups(m).contains_key((#[trigger] r@[i]).0)
                && r@[i].1@ == multimap_groups(m)[r@[i].0],
        forall|k: u64|
            #[trigger] multimap_groups(m).contains_key(k) ==> exists|i: int|
                0 <= i < r@.len() && (#[trigger] r@[i]).0 == k,
{
    m.into_iter().collect()
}

} // verus!
