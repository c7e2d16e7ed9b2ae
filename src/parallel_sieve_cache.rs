//! The thread-safe SIEVE cache: each slot sits behind its own reader/writer
//! lock with an atomic read bit beside it, the key index is a concurrent map,
//! and writers take turns at the hand.

use std::hash::Hash;
use std::sync::atomic::{AtomicBool, Ordering};

use dashmap::DashMap;
use vstd::prelude::*;
use vstd::rwlock::{RwLock, WriteHandle};

use crate::index::{index_get, index_insert, index_remove_if_at, index_with_capacity};
use crate::lawful_key;
use crate::shareable_cache::ShareableCache;
use crate::slot::{any_pair, hand_pred, holds_key, read_payload, scan_step, slot_pred};
use crate::MAX_SIZE;

verus! {

#[verifier::reject_recursive_types(K)]
#[verifier::reject_recursive_types(V)]
struct Slot<K, V> {
    payload: RwLock<Option<(K, V)>, spec_fn(Option<(K, V)>) -> bool>,
    read: AtomicBool,
}

/// A SIEVE cache shared between threads through `&self`.
///
/// Each cache carries a pairing, a relation between keys and values fixed
/// when it is built: `set` stores only pairs that it admits, so `get(k)` only
/// ever returns a value that was stored together with `k`.
#[verifier::reject_recursive_types(K)]
#[verifier::reject_recursive_types(V)]
pub struct ParallelSieveCache<K: Eq + Hash + Clone, V: Clone> {
    entries: Vec<Slot<K, V>>,
    map: DashMap<K, usize>,
    hand: RwLock<usize, spec_fn(usize) -> bool>,
    pairing: Ghost<spec_fn(K, V) -> bool>,
}

impl<K: Eq + Hash + Clone, V: Clone> ParallelSieveCache<K, V> {
    #[verifier::type_invariant]
    spec fn inv(self) -> bool {
        &&& 0 < self.entries@.len()
        &&& forall|i: int|
            0 <= i < self.entries@.len() ==> #[trigger] self.entries@[i].payload.pred() == slot_pred(
                self.pairing@,
            )
        &&& self.hand.pred() == hand_pred(self.entries@.len())
    }

    /// The relation that every stored pair satisfies.
    pub closed spec fn pairing(&self) -> spec_fn(K, V) -> bool {
        self.pairing@
    }

    /// The number of slots.
    pub closed spec fn spec_capacity(&self) -> nat {
        self.entries@.len()
    }

    /// A cache of `MAX_SIZE` empty slots that admits every pair.
    pub fn new() -> (r: Self)
        ensures
            r.spec_capacity() == MAX_SIZE,
            r.pairing() == any_pair::<K, V>(),
    {
        Self::with_capacity(MAX_SIZE)
    }

    /// A cache of `capacity` empty slots that admits every pair.
    pub fn with_capacity(capacity: usize) -> (r: Self)
        requires
            capacity > 0,
        ensures
            r.spec_capacity() == capacity,
            r.pairing() == any_pair::<K, V>(),
    {
        Self::with_pairing(capacity, Ghost(any_pair::<K, V>()))
    }

    /// A cache of `capacity` empty slots whose stored pairs all satisfy
    /// `pairing`.
    pub fn with_pairing(capacity: usize, pairing: Ghost<spec_fn(K, V) -> bool>) -> (r: Self)
        requires
            capacity > 0,
        ensures
            r.spec_capacity() == capacity,
            r.pairing() == pairing@,
    {
        let mut entries: Vec<Slot<K, V>> = Vec::with_capacity(capacity);
        let mut i: usize = 0;
        while i < capacity
            invariant
                i <= capacity,
                entries.len() == i,
                forall|j: int|
                    0 <= j < i ==> #[trigger] entries@[j].payload.pred() == slot_pred(pairing@),
            decreases capacity - i,
        {
            let payload = RwLock::new(None, Ghost(slot_pred(pairing@)));
            entries.push(Slot { payload, read: AtomicBool::new(false) });
            i += 1;
        }
        let hand = RwLock::new(0, Ghost(hand_pred(capacity as nat)));
        ParallelSieveCache { entries, map: index_with_capacity(capacity), hand, pairing }
    }

    /// The number of slots.
    pub fn capacity(&self) -> (r: usize)
        ensures
            r == self.spec_capacity(),
    {
        self.entries.len()
    }

    /// Picks a victim slot with the SIEVE scan and returns it locked for
    /// writing, its old key dropped from the index (where the index still
    /// points there). The scan clears the read bits it passes; it examines
    /// at most `capacity + 1` slots, taking the last one whatever its bit,
    /// since readers may set bits again behind it.
    fn evict(&self) -> (r: (usize, WriteHandle<'_, Option<(K, V)>, spec_fn(Option<(K, V)>) -> bool>))
        ensures
            r.0 < self.spec_capacity(),
            r.1.rwlock() == self.entries@[r.0 as int].payload,
    {
        proof {
            use_type_invariant(self);
        }
        let n = self.entries.len();
        let (mut hand, hand_handle) = self.hand.acquire_write();
        let mut steps: usize = 0;
        loop
            invariant
                n == self.entries.len(),
                hand < n,
                steps <= n,
                hand_handle.rwlock() == self.hand,
                self.hand.pred() == hand_pred(n as nat),
            decreases n - steps,
        {
            let index = hand;
            let entry = &self.entries[index];
            let was_read = entry.read.swap(false, Ordering::Relaxed);
            let (next, take) = scan_step(hand, n, was_read, steps);
            hand = next;
            if !take {
                steps += 1;
                continue;
            }
            let (payload, slot_handle) = entry.payload.acquire_write();
            if let Some((key, _value)) = payload {
                index_remove_if_at(&self.map, &key, index);
            }
            hand_handle.release_write(hand);
            return (index, slot_handle);
        }
    }

    /// Returns a clone of the value stored under `key`, and marks its slot
    /// read. The slot is checked to still hold `key`: a writer may have
    /// reused it since the index was probed.
    pub fn get(&self, key: &K) -> (r: Option<V>)
        requires
            lawful_key::<K>(),
        ensures
            r is Some ==> exists|u: V|
                (self.pairing())(*key, u) && #[trigger] vstd::pervasive::cloned(u, r->Some_0),
    {
        proof {
            use_type_invariant(self);
        }
        let index = match index_get(&self.map, key) {
            Some(index) => index,
            None => {
                return None;
            },
        };
        if index >= self.entries.len() {
            return None;
        }
        let entry = &self.entries[index];
        let handle = entry.payload.acquire_read();
        entry.read.store(true, Ordering::Relaxed);
        let r = read_payload(handle.borrow(), key);
        assert(r is Some ==> (self.pairing())(*key, handle.view()->Some_0.1));
        handle.release_read();
        r
    }

    /// Stores `value` under `key`: in place, with its read bit cleared, when
    /// the index leads to a slot that holds `key`; else in the victim that
    /// the SIEVE scan picks.
    pub fn set(&self, key: K, value: V)
        requires
            lawful_key::<K>(),
            (self.pairing())(key, value),
    {
        proof {
            use_type_invariant(self);
        }
        if let Some(index) = index_get(&self.map, &key) {
            if index < self.entries.len() {
                let entry = &self.entries[index];
                let (payload, handle) = entry.payload.acquire_write();
                if holds_key(&payload, &key) {
                    entry.read.store(false, Ordering::Relaxed);
                    handle.release_write(Some((key, value)));
                    return;
                }
                handle.release_write(payload);
            }
        }
        let (index, handle) = self.evict();
        let stored = key.clone();
        index_insert(&self.map, stored, index);
        handle.release_write(Some((key, value)));
    }
}

impl<K: Eq + Hash + Clone + Send + Sync, V: Clone + Send + Sync> ShareableCache<
    K,
    V,
> for ParallelSieveCache<K, V> {
    open spec fn shared_inv(&self) -> bool {
        lawful_key::<K>()
    }

    open spec fn admits(&self, key: K, value: V) -> bool {
        (self.pairing())(key, value)
    }

    /// Never cross-talk: a value answered for `key` was stored with it.
    open spec fn answers(&self, key: K, r: Option<V>) -> bool {
        r is Some ==> exists|u: V|
            (self.pairing())(key, u) && #[trigger] vstd::pervasive::cloned(u, r->Some_0)
    }

    fn get(&self, key: &K) -> (r: Option<V>) {
        ParallelSieveCache::get(self, key)
    }

    fn set(&self, key: K, value: V) {
        ParallelSieveCache::set(self, key, value)
    }
}

impl<K: Eq + Hash + Clone, V: Clone> Default for ParallelSieveCache<K, V> {
    fn default() -> (r: Self)
        ensures
            r.spec_capacity() == MAX_SIZE,
            r.pairing() == any_pair::<K, V>(),
    {
        Self::new()
    }
}

} // verus!
