//! The two operation sets that caches offer: one through exclusive access,
//! one through shared access, and a wrapper that turns the first into the
//! second by serialising every operation behind one lock.

use std::hash::Hash;

use vstd::prelude::*;
use vstd::rwlock::RwLock;

verus! {

/// A bounded cache used through exclusive access.
pub trait SizeLimitedCache<Key, Value> where Value: Clone {
    /// The cache's invariant, kept by every operation.
    spec fn cache_inv(&self) -> bool;

    /// The entries present, by key.
    spec fn contents(&self) -> Map<Key, Value>;

    /// Returns a clone of the value stored under `key`, or `None` when it is
    /// absent. No entry changes.
    fn get(&mut self, key: &Key) -> (r: Option<Value>)
        requires
            old(self).cache_inv(),
        ensures
            final(self).cache_inv(),
            final(self).contents() == old(self).contents(),
            match r {
                Some(w) => old(self).contents().contains_key(*key) && vstd::pervasive::cloned(
                    old(self).contents()[*key],
                    w,
                ),
                None => !old(self).contents().contains_key(*key),
            },
    ;

    /// Stores `value` under `key`. Every other entry is kept or evicted,
    /// never changed.
    fn set(&mut self, key: Key, value: Value)
        requires
            old(self).cache_inv(),
        ensures
            final(self).cache_inv(),
            final(self).contents().contains_key(key),
            final(self).contents()[key] == value,
            forall|k: Key|
                k != key && #[trigger] final(self).contents().contains_key(k) ==> old(
                    self,
                ).contents().contains_key(k) && final(self).contents()[k] == old(
                    self,
                ).contents()[k],
    ;
}

/// A bounded cache shared between threads: every operation takes `&self`.
pub trait ShareableCache<Key, Value>: Send + Sync where Key: Eq + Hash, Value: Clone {
    /// The cache's invariant.
    spec fn shared_inv(&self) -> bool;

    /// The pairs that `set` may store.
    spec fn admits(&self, key: Key, value: Value) -> bool;

    /// What each kind of cache promises of the answer `r` to `get(key)`.
    spec fn answers(&self, key: Key, r: Option<Value>) -> bool;

    /// Returns a value stored under `key`, or `None`. Never cross-talk: a
    /// value returned for `key` is a clone of one admitted with `key`.
    fn get(&self, key: &Key) -> (r: Option<Value>)
        requires
            self.shared_inv(),
        ensures
            self.answers(*key, r),
            r is Some ==> exists|u: Value|
                self.admits(*key, u) && #[trigger] vstd::pervasive::cloned(u, r->Some_0),
    ;

    /// Stores `value` under `key`.
    fn set(&self, key: Key, value: Value)
        requires
            self.shared_inv(),
            self.admits(key, value),
    ;
}

/// A cache for exclusive access, shared by running each operation under one
/// lock.
#[verifier::reject_recursive_types(Cache)]
pub struct SynchronizedShareableCache<Cache> {
    cache: RwLock<Cache, spec_fn(Cache) -> bool>,
}

/// The lock invariant of a wrapped cache: the cache's own invariant.
pub open spec fn cache_pred<Cache: SizeLimitedCache<Key, Value>, Key, Value: Clone>() -> spec_fn(
    Cache,
) -> bool {
    |c: Cache| c.cache_inv()
}

impl<Cache> SynchronizedShareableCache<Cache> {
    /// The invariant that the lock keeps for the wrapped cache.
    pub closed spec fn lock_pred(&self) -> spec_fn(Cache) -> bool {
        self.cache.pred()
    }
}

/// Wraps a cache in a lock, making it shareable between threads.
pub fn synchronized_cache<Cache, Key, Value>(cache: Cache) -> (r: SynchronizedShareableCache<Cache>)
    where
        Key: Eq + Hash,
        Value: Clone,
        Cache: SizeLimitedCache<Key, Value>,
    requires
        cache.cache_inv(),
    ensures
        r.lock_pred() == cache_pred::<Cache, Key, Value>(),
{
    SynchronizedShareableCache { cache: RwLock::new(cache, Ghost(cache_pred::<Cache, Key, Value>())) }
}

impl<Cache, Key, Value> ShareableCache<Key, Value> for SynchronizedShareableCache<Cache> where
    Key: Eq + Hash,
    Value: Clone,
    Cache: SizeLimitedCache<Key, Value> + Send + Sync,
 {
    open spec fn shared_inv(&self) -> bool {
        self.lock_pred() == cache_pred::<Cache, Key, Value>()
    }

    open spec fn admits(&self, key: Key, value: Value) -> bool {
        true
    }

    /// The answer that the wrapped cache gave, in some well-formed state.
    open spec fn answers(&self, key: Key, r: Option<Value>) -> bool {
        exists|c: Cache|
            #![trigger c.contents()]
            c.cache_inv() && match r {
                Some(w) => c.contents().contains_key(key) && vstd::pervasive::cloned(
                    c.contents()[key],
                    w,
                ),
                None => !c.contents().contains_key(key),
            }
    }

    fn get(&self, key: &Key) -> (r: Option<Value>) {
        let (mut cache, handle) = self.cache.acquire_write();
        let ghost before = cache;
        let r = cache.get(key);
        assert(r is Some ==> vstd::pervasive::cloned(r->Some_0, r->Some_0));
        assert(before.cache_inv());
        handle.release_write(cache);
        r
    }

    fn set(&self, key: Key, value: Value) {
        let (mut cache, handle) = self.cache.acquire_write();
        cache.set(key, value);
        handle.release_write(cache);
    }
}

} // verus!
