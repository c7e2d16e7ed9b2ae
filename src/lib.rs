//! Bounded key/value caches that evict with the SIEVE policy: a single
//! scanning hand and one "read" bit per slot.

use vstd::prelude::*;

pub mod concurrent_sieve_cache;
pub mod example_sieve_cache;
pub mod index;
pub mod laws;
pub mod nodes;
pub mod parallel_sieve_cache;
pub mod policy;
pub mod shareable_cache;
pub mod slot;
pub mod sieve_cache;

pub use concurrent_sieve_cache::ConcurrentSieveCache;
pub use nodes::{new_reference_pair, ReferenceNode, ValueNode};
pub use parallel_sieve_cache::ParallelSieveCache;
pub use shareable_cache::{
    synchronized_cache, ShareableCache, SizeLimitedCache, SynchronizedShareableCache,
};
pub use sieve_cache::SieveCache;
pub use slot::next_slot;

verus! {

/// Keys whose hashing, equality and cloning behave as on mathematical values:
/// equal keys hash alike, `==` is identity and a clone is the same key.
pub open spec fn lawful_key<K: Eq + std::hash::Hash + Clone>() -> bool {
    &&& vstd::std_specs::hash::obeys_key_model::<K>()
    &&& vstd::laws_eq::obeys_concrete_eq::<K>()
    &&& forall|a: K, b: K| #[trigger] vstd::pervasive::strictly_cloned(a, b) ==> a == b
}

/// The capacity, in entries, of a cache built without an explicit one.
pub const MAX_SIZE: usize = 100;

} // verus!
