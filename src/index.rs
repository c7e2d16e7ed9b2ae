//! The concurrent key index of the thread-safe caches: a `dashmap::DashMap`
//! from key to slot number. The map is shared through `&self` and changed by
//! other threads at any time, so nothing is promised of what a probe finds;
//! callers check every slot number they get back.

use std::hash::Hash;

use dashmap::DashMap;
use vstd::prelude::*;

verus! {

#[verifier::external_type_specification]
#[verifier::external_body]
#[verifier::reject_recursive_types(K)]
#[verifier::reject_recursive_types(V)]
#[verifier::reject_recursive_types(S)]
pub struct ExDashMap<K, V, S>(DashMap<K, V, S>);

/// Whether an index entry points at `slot`.
fn points_at(entry: &usize, slot: usize) -> (r: bool)
    ensures
        r == (*entry == slot),
{
    *entry == slot
}

/// Relies on `DashMap::with_capacity`: an empty map.
#[verifier::external_body]
pub(crate) fn index_with_capacity<K: Eq + Hash>(capacity: usize) -> DashMap<K, usize> {
    DashMap::with_capacity(capacity)
}

/// Relies on `DashMap::get`: the slot number stored under `key` at the moment
/// of the probe, if any.
#[verifier::external_body]
pub(crate) fn index_get<K: Eq + Hash>(map: &DashMap<K, usize>, key: &K) -> Option<usize> {
    map.get(key).map(|entry| *entry)
}

/// Relies on `DashMap::insert`: stores `slot` under `key`, returning the slot
/// number it replaced.
#[verifier::external_body]
pub(crate) fn index_insert<K: Eq + Hash>(map: &DashMap<K, usize>, key: K, slot: usize) -> Option<
    usize,
> {
    map.insert(key, slot)
}

/// Relies on `DashMap::remove_if`: removes `key` only while it points at
/// `slot`; what it removes therefore pointed there.
#[verifier::external_body]
pub(crate) fn index_remove_if_at<K: Eq + Hash>(map: &DashMap<K, usize>, key: &K, slot: usize) -> (r:
    Option<(K, usize)>)
    ensures
        r matches Some((_, s)) ==> s == slot,
{
    map.remove_if(key, |_, entry| points_at(entry, slot))
}

} // verus!
