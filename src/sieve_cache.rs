//! The single-threaded SIEVE cache: a fixed array of slots, a key index and a
//! hand, changed only through `&mut self`.

use std::collections::HashMap;
use std::hash::Hash;

use vstd::prelude::*;

use crate::lawful_key;
use crate::laws::law_set_then_get;
use crate::shareable_cache::SizeLimitedCache;
use crate::policy::{at_offset, lemma_first_unread_at, offset_of, SieveState};
use crate::MAX_SIZE;

verus! {

broadcast use vstd::std_specs::hash::group_hash_axioms;

/// A bounded key/value cache that evicts with the SIEVE policy.
pub struct SieveCache<K, V> {
    map: HashMap<K, usize>,
    slots: Vec<Option<(K, V)>>,
    read: Vec<bool>,
    hand: usize,
}

impl<K: Eq + Hash + Clone, V: Clone> SieveCache<K, V> {
    /// The cache as its mathematical model.
    pub closed spec fn state(&self) -> SieveState<K, V> {
        SieveState {
            slots: self.slots@,
            read: self.read@,
            hand: self.hand as int,
            index: self.map@.map_values(|i: usize| i as int),
        }
    }

    pub open spec fn wf(&self) -> bool {
        &&& lawful_key::<K>()
        &&& self.state().wf()
    }

    /// A cache of `MAX_SIZE` empty slots.
    pub fn new() -> (r: Self)
        ensures
            r.state().wf(),
            r.state() == SieveState::<K, V>::fresh(MAX_SIZE as int),
    {
        Self::with_capacity(MAX_SIZE)
    }

    /// A cache of `capacity` empty slots.
    pub fn with_capacity(capacity: usize) -> (r: Self)
        requires
            capacity > 0,
        ensures
            r.state().wf(),
            r.state() == SieveState::<K, V>::fresh(capacity as int),
    {
        let mut slots: Vec<Option<(K, V)>> = Vec::with_capacity(capacity);
        let mut read: Vec<bool> = Vec::with_capacity(capacity);
        let mut i: usize = 0;
        while i < capacity
            invariant
                i <= capacity,
                slots@ == Seq::new(i as nat, |j: int| None::<(K, V)>),
                read@ == Seq::new(i as nat, |j: int| false),
            decreases capacity - i,
        {
            slots.push(None);
            read.push(false);
            i += 1;
            assert(slots@ =~= Seq::new(i as nat, |j: int| None::<(K, V)>));
            assert(read@ =~= Seq::new(i as nat, |j: int| false));
        }
        let r = SieveCache { map: HashMap::new(), slots, read, hand: 0 };
        assert(r.state().index =~= Map::empty());
        proof {
            SieveState::<K, V>::lemma_fresh_wf(capacity as int);
        }
        r
    }

    /// The number of slots.
    pub fn capacity(&self) -> (r: usize)
        requires
            self.wf(),
        ensures
            r == self.state().capacity(),
    {
        self.slots.len()
    }

    /// The number of keys present.
    pub fn len(&self) -> (r: usize)
        requires
            self.wf(),
        ensures
            r == self.state().index.len(),
    {
        assert(self.state().index.dom() =~= self.map@.dom());
        self.map.len()
    }

    /// Whether `key` is present, without marking it read.
    pub fn contains(&self, key: &K) -> (r: bool)
        requires
            self.wf(),
        ensures
            r == self.state().index.contains_key(*key),
    {
        self.map.contains_key(key)
    }

    /// Picks the victim slot with the SIEVE scan, empties it and drops its key
    /// from the index.
    fn evict(&mut self) -> (r: usize)
        requires
            old(self).wf(),
        ensures
            r == old(self).state().victim(),
            final(self).state() == old(self).state().evict_step(),
            lawful_key::<K>(),
    {
        let n = self.slots.len();
        let ghost s0 = self.state();
        let ghost mut d: int = 0;
        proof {
            s0.lemma_victim();
        }
        loop
            invariant
                lawful_key::<K>(),
                s0 == old(self).state(),
                s0.wf(),
                n == s0.capacity(),
                self.slots@ == s0.slots,
                self.map@.map_values(|i: usize| i as int) == s0.index,
                self.read@.len() == n,
                0 <= d <= n,
                self.hand == at_offset(s0.hand, d, n as int),
                forall|j: int| 0 <= j < d ==> #[trigger] s0.read[at_offset(s0.hand, j, n as int)],
                forall|i: int|
                    0 <= i < n ==> #[trigger] self.read@[i] == if offset_of(s0.hand, i, n as int)
                        < d {
                        false
                    } else {
                        s0.read[i]
                    },
            decreases n - d,
        {
            let current = self.hand;
            self.hand += 1;
            if self.hand >= n {
                self.hand = 0;
            }
            let visited = self.read[current];
            self.read.set(current, false);
            if visited {
                proof {
                    d = d + 1;
                }
                continue;
            }
            proof {
                lemma_first_unread_at(s0.read, s0.hand, 0, d);
                assert(self.read@ =~= s0.swept_read());
            }
            if let Some((key, _)) = &self.slots[current] {
                self.map.remove(key);
            }
            self.slots.set(current, None);
            assert(self.state().index =~= s0.evict_step().index);
            return current;
        }
    }

    /// Returns a clone of the value stored under `key`, and marks its slot
    /// read; `None` when the key is absent.
    pub fn get(&mut self, key: &K) -> (r: Option<V>)
        requires
            old(self).wf(),
        ensures
            final(self).wf(),
            final(self).state() == old(self).state().get_step(*key),
            final(self).state().contents() == old(self).state().contents(),
            match (r, old(self).state().lookup(*key)) {
                (Some(w), Some(v)) => vstd::pervasive::cloned(v, w),
                (None, None) => true,
                _ => false,
            },
    {
        proof {
            self.state().lemma_get_step_wf(*key);
            self.state().lemma_get_step_contents(*key);
        }
        let index = match self.map.get(key) {
            Some(index) => *index,
            None => {
                return None;
            },
        };
        self.read.set(index, true);
        match &self.slots[index] {
            Some((_, value)) => Some(value.clone()),
            None => None,
        }
    }

    /// Stores `value` under `key`: in place when the key is present (its
    /// read bit cleared), else in the victim that the SIEVE scan picks.
    pub fn set(&mut self, key: K, value: V)
        requires
            old(self).wf(),
        ensures
            final(self).wf(),
            final(self).state() == old(self).state().set_step(key, value),
            final(self).state().lookup(key) == Some(value),
    {
        proof {
            self.state().lemma_set_step_wf(key, value);
            law_set_then_get(self.state(), key, value);
        }
        if let Some(index) = self.map.get(&key) {
            let index = *index;
            self.slots.set(index, Some((key, value)));
            self.read.set(index, false);
            return;
        }
        let ghost s0 = self.state();
        proof {
            s0.lemma_victim();
        }
        let index = self.evict();
        let stored = key.clone();
        assert(vstd::pervasive::strictly_cloned(key, stored));
        self.slots.set(index, Some((stored, value)));
        self.map.insert(key, index);
        assert(self.state().index =~= s0.set_step(key, value).index);
    }
}

impl<K: Eq + Hash + Clone, V: Clone> Default for SieveCache<K, V> {
    fn default() -> (r: Self)
        ensures
            r.state().wf(),
            r.state() == SieveState::<K, V>::fresh(MAX_SIZE as int),
    {
        Self::new()
    }
}

impl<K: Eq + Hash + Clone, V: Clone> SizeLimitedCache<K, V> for SieveCache<K, V> {
    open spec fn cache_inv(&self) -> bool {
        self.wf()
    }

    open spec fn contents(&self) -> Map<K, V> {
        self.state().contents()
    }

    fn get(&mut self, key: &K) -> (r: Option<V>) {
        proof {
            self.state().lemma_get_step_contents(*key);
        }
        SieveCache::get(self, key)
    }

    fn set(&mut self, key: K, value: V) {
        proof {
            self.state().lemma_set_step_contents(key, value);
        }
        SieveCache::set(self, key, value)
    }
}

} // verus!
