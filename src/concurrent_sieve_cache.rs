//! A thread-safe SIEVE cache whose slots are each held under an exclusive
//! lock, readers included; the key index is a concurrent map and writers take
//! turns at the hand.

use std::hash::Hash;
use std::sync::atomic::{AtomicBool, Ordering};

use dashmap::DashMap;
use vstd::prelude::*;
use vstd::rwlock::RwLock;

use crate::index::{index_get, index_insert, index_remove_if_at, index_with_capacity};
use crate::lawful_key;
use crate::slot::{any_pair, hand_pred, holds_key, read_payload, scan_step, slot_pred};
use crate::shareable_cache::ShareableCache;
use crate::MAX_SIZE;

verus! {

#[verifier::reject_recursive_types(K)]
#[verifier::reject_recursive_types(V)]
struct Entry<K, V> {
    data: RwLock<Option<(K, V)>, spec_fn(Option<(K, V)>) -> bool>,
    visited: AtomicBool,
}

/// A SIEVE cache shared between threads through `&self`, with one exclusive
/// lock per slot.
///
/// As with `ParallelSieveCache`, a pairing fixed at construction admits the
/// pairs that `set` may store, and `get(k)` returns only values stored with
/// `k`.
#[verifier::reject_recursive_types(K)]
#[verifier::reject_recursive_types(V)]
pub struct ConcurrentSieveCache<K: Eq + Hash + Clone, V: Clone> {
    data: Vec<Entry<K, V>>,
    map: DashMap<K, usize>,
    hand: RwLock<usize, spec_fn(usize) -> bool>,
    pairing: Ghost<spec_fn(K, V) -> bool>,
}

impl<K: Eq + Hash + Clone, V: Clone> ConcurrentSieveCache<K, V> {
    #[verifier::type_invariant]
    spec fn inv(self) -> bool {
        &&& 0 < self.data@.len()
        &&& forall|i: int|
            0 <= i < self.data@.len() ==> #[trigger] self.data@[i].data.pred() == slot_pred(
                self.pairing@,
            )
        &&& self.hand.pred() == hand_pred(self.data@.len())
    }

    /// The relation that every stored pair satisfies.
    pub closed spec fn pairing(&self) -> spec_fn(K, V) -> bool {
        self.pairing@
    }

    /// The number of slots.
    pub closed spec fn spec_capacity(&self) -> nat {
        self.data@.len()
    }

    /// A cache of `MAX_SIZE` empty slots that admits every pair.
    pub fn new() -> (r: Self)
        ensures
            r.spec_capacity() == MAX_SIZE,
            r.pairing() == any_pair::<K, V>(),
    {
        Self::with_pairing(MAX_SIZE, Ghost(any_pair::<K, V>()))
    }

    /// A cache of `capacity` empty slots whose stored pairs all satisfy
    /// `pairing`.
    pub fn with_pairing(capacity: usize, pairing: Ghost<spec_fn(K, V) -> bool>) -> (r: Self)
        requires
            capacity > 0,
        ensures
            r.spec_capacity() == capacity,
            r.pairing() == pairing@,
    {
        let mut data: Vec<Entry<K, V>> = Vec::with_capacity(capacity);
        let mut i: usize = 0;
        while i < capacity
            invariant
                i <= capacity,
                data.len() == i,
                forall|j: int| 0 <= j < i ==> #[trigger] data@[j].data.pred() == slot_pred(pairing@),
            decreases capacity - i,
        {
            data.push(
                Entry {
                    data: RwLock::new(None, Ghost(slot_pred(pairing@))),
                    visited: AtomicBool::new(false),
                },
            );
            i += 1;
        }
        let hand = RwLock::new(0, Ghost(hand_pred(capacity as nat)));
        ConcurrentSieveCache { data, map: index_with_capacity(capacity), hand, pairing }
    }

    /// The number of slots.
    pub fn capacity(&self) -> (r: usize)
        ensures
            r == self.spec_capacity(),
    {
        self.data.len()
    }

    /// Picks a victim slot with the SIEVE scan, clearing the visited bits it
    /// passes. It examines at most `capacity + 1` slots, taking the last one
    /// whatever its bit, since readers may set bits again behind it.
    fn evict(&self) -> (r: usize)
        ensures
            r < self.spec_capacity(),
    {
        proof {
            use_type_invariant(self);
        }
        let n = self.data.len();
        let (mut hand, handle) = self.hand.acquire_write();
        let mut steps: usize = 0;
        loop
            invariant
                n == self.data.len(),
                hand < n,
                steps <= n,
                handle.rwlock() == self.hand,
                self.hand.pred() == hand_pred(n as nat),
            decreases n - steps,
        {
            let current = hand;
            let visited = self.data[current].visited.swap(false, Ordering::Relaxed);
            let (next, take) = scan_step(hand, n, visited, steps);
            hand = next;
            if !take {
                steps += 1;
                continue;
            }
            handle.release_write(hand);
            return current;
        }
    }

    /// Returns a clone of the value stored under `key`, and marks its slot
    /// visited. The slot is checked to still hold `key`: a writer may have
    /// reused it since the index was probed.
    pub fn get(&self, key: &K) -> (r: Option<V>)
        requires
            lawful_key::<K>(),
        ensures
            r is Some ==> exists|u: V|
                (self.pairing())(*key, u) && #[trigger] vstd::pervasive::cloned(u, r->Some_0),
    {
        proof {
            use_type_invariant(self);
        }
        let index = match index_get(&self.map, key) {
            Some(index) => index,
            None => {
                return None;
            },
        };
        if index >= self.data.len() {
            return None;
        }
        let entry = &self.data[index];
        entry.visited.store(true, Ordering::Relaxed);
        let (payload, handle) = entry.data.acquire_write();
        let r = read_payload(&payload, key);
        assert(r is Some ==> (self.pairing())(*key, payload->Some_0.1));
        handle.release_write(payload);
        r
    }

    /// Stores `value` under `key`: in place, with its visited bit cleared,
    /// when the index leads to a slot that holds `key`; else in the victim
    /// that the SIEVE scan picks, after which a slot that the key was
    /// indexed at before is emptied if it still holds the key.
    pub fn set(&self, key: K, value: V)
        requires
            lawful_key::<K>(),
            (self.pairing())(key, value),
    {
        proof {
            use_type_invariant(self);
        }
        if let Some(index) = index_get(&self.map, &key) {
            if index < self.data.len() {
                let entry = &self.data[index];
                let (payload, handle) = entry.data.acquire_write();
                if holds_key(&payload, &key) {
                    entry.visited.store(false, Ordering::Relaxed);
                    handle.release_write(Some((key, value)));
                    return;
                }
                handle.release_write(payload);
            }
        }
        let index = self.evict();
        let entry = &self.data[index];
        let (payload, handle) = entry.data.acquire_write();
        if let Some((old_key, _)) = payload {
            index_remove_if_at(&self.map, &old_key, index);
        }
        let stored = key.clone();
        let prev = index_insert(&self.map, stored, index);
        let probe = key.clone();
        handle.release_write(Some((key, value)));
        if let Some(prev) = prev {
            if prev != index && prev < self.data.len() {
                let (payload, handle) = self.data[prev].data.acquire_write();
                if holds_key(&payload, &probe) {
                    handle.release_write(None);
                } else {
                    handle.release_write(payload);
                }
            }
        }
    }
}

impl<K: Eq + Hash + Clone + Send + Sync, V: Clone + Send + Sync> ShareableCache<
    K,
    V,
> for ConcurrentSieveCache<K, V> {
    open spec fn shared_inv(&self) -> bool {
        lawful_key::<K>()
    }

    open spec fn admits(&self, key: K, value: V) -> bool {
        (self.pairing())(key, value)
    }

    /// Never cross-talk: a value answered for `key` was stored with it.
    open spec fn answers(&self, key: K, r: Option<V>) -> bool {
        r is Some ==> exists|u: V|
            (self.pairing())(key, u) && #[trigger] vstd::pervasive::cloned(u, r->Some_0)
    }

    fn get(&self, key: &K) -> (r: Option<V>) {
        ConcurrentSieveCache::get(self, key)
    }

    fn set(&self, key: K, value: V) {
        ConcurrentSieveCache::set(self, key, value)
    }
}

impl<K: Eq + Hash + Clone, V: Clone> Default for ConcurrentSieveCache<K, V> {
    fn default() -> (r: Self)
        ensures
            r.spec_capacity() == MAX_SIZE,
            r.pairing() == any_pair::<K, V>(),
    {
        Self::new()
    }
}

} // verus!
