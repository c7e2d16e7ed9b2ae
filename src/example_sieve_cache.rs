//! A list-based SIEVE cache: keys sit in a scan list in insertion order, and
//! an evicted node is removed from the list, closing the gap.

use std::collections::HashMap;
use std::hash::Hash;

use vstd::prelude::*;

use crate::lawful_key;
use crate::nodes::{new_reference_pair, ReferenceNode, ValueNode};
use crate::shareable_cache::SizeLimitedCache;
use crate::MAX_SIZE;

verus! {

broadcast use vstd::std_specs::hash::group_hash_axioms;

/// A SIEVE cache of at most `MAX_SIZE` entries over a scan list.
pub struct SieveCache<Key, Value> {
    cache: HashMap<Key, ValueNode<Value>>,
    sieve_list: Vec<ReferenceNode<Key>>,
    hand_index: usize,
}

impl<Key: Eq + Hash + Clone, Value: Clone> SieveCache<Key, Value> {
    /// The entries present, by key.
    pub closed spec fn view(&self) -> Map<Key, Value> {
        self.cache@.map_values(|n: ValueNode<Value>| n.spec_value())
    }

    /// The keys of the scan list, in order.
    pub closed spec fn list_keys(&self) -> Seq<Key> {
        self.sieve_list@.map_values(|r: ReferenceNode<Key>| r.spec_key())
    }

    /// The hand's position in the scan list.
    pub closed spec fn hand(&self) -> int {
        self.hand_index as int
    }

    pub open spec fn wf(&self) -> bool {
        &&& lawful_key::<Key>()
        &&& self.list_keys().len() <= MAX_SIZE
        &&& if self.list_keys().len() == 0 {
            self.hand() == 0
        } else {
            0 <= self.hand() < self.list_keys().len()
        }
        &&& forall|k: Key| #[trigger]
            self.view().contains_key(k) ==> self.list_keys().contains(k)
    }

    /// At most `MAX_SIZE` entries are present.
    pub proof fn lemma_bounded(&self)
        requires
            self.wf(),
        ensures
            self.view().len() <= MAX_SIZE,
    {
        let keys = self.list_keys();
        assert(self.view().dom() =~= self.cache@.dom());
        assert(self.view().dom().subset_of(keys.to_set()));
        keys.lemma_cardinality_of_set();
        vstd::seq_lib::seq_to_set_is_finite(keys);
        vstd::set_lib::lemma_len_subset(self.view().dom(), keys.to_set());
    }

    /// An empty cache.
    pub fn new() -> (r: Self)
        ensures
            lawful_key::<Key>() ==> r.wf(),
            r.view() == Map::<Key, Value>::empty(),
            r.list_keys().len() == 0,
    {
        let r = SieveCache { cache: HashMap::new(), sieve_list: Vec::new(), hand_index: 0 };
        assert(r.view() =~= Map::empty());
        r
    }

    /// Makes sure the list holds fewer than `MAX_SIZE` nodes, so that one
    /// more can be inserted: read nodes are passed over (their flag cleared),
    /// unread ones removed. After a whole sweep of read nodes the node at the
    /// hand is removed, since the sweep has cleared every flag.
    fn make_room_for_one_insertion(&mut self)
        requires
            old(self).wf(),
        ensures
            final(self).wf(),
            final(self).list_keys().len() == if old(self).list_keys().len() < MAX_SIZE {
                old(self).list_keys().len() as int
            } else {
                MAX_SIZE - 1
            },
            old(self).list_keys().len() < MAX_SIZE ==> final(self).list_keys() == old(
                self,
            ).list_keys(),
            forall|k: Key| #[trigger]
                final(self).view().contains_key(k) ==> old(self).view().contains_key(k)
                    && final(self).view()[k] == old(self).view()[k],
            old(self).list_keys().len() < MAX_SIZE ==> final(self).view() == old(self).view(),
    {
        let mut skips: usize = 0;
        while !self.sieve_list.is_empty() && MAX_SIZE <= self.sieve_list.len()
            invariant
                self.wf(),
                skips <= self.sieve_list.len(),
                self.list_keys().len() == old(self).list_keys().len() || self.list_keys().len()
                    == MAX_SIZE - 1,
                old(self).list_keys().len() < MAX_SIZE ==> self.list_keys() == old(self).list_keys(),
                forall|k: Key| #[trigger]
                    self.view().contains_key(k) ==> old(self).view().contains_key(k)
                        && self.view()[k] == old(self).view()[k],
                old(self).list_keys().len() < MAX_SIZE ==> self.view() == old(self).view(),
            decreases self.sieve_list.len(), self.sieve_list.len() - skips,
        {
            let len = self.sieve_list.len();
            let ghost start = *self;
            let node = &self.sieve_list[self.hand_index];
            let node_has_been_read = node.take_read_state();
            if node_has_been_read && skips < len {
                self.hand_index = (self.hand_index + 1) % len;
                skips += 1;
                assert(self.view() == start.view());
                assert(self.list_keys() == start.list_keys());
                assert(0 <= self.hand() < len);
            } else {
                let ghost gone = node.spec_key();
                self.cache.remove(node.key());
                self.sieve_list.remove(self.hand_index);
                self.hand_index %= self.sieve_list.len();
                skips = 0;
                proof {
                    let h = start.hand();
                    assert(self.list_keys() =~= start.list_keys().remove(h));
                    assert(self.view() =~= start.view().remove(gone));
                    assert forall|k: Key| #[trigger] self.view().contains_key(k) implies self.list_keys().contains(
                        k,
                    ) by {
                        assert(start.list_keys().contains(k));
                        let i = choose|i: int| 0 <= i < start.list_keys().len() && start.list_keys()[i] == k;
                        assert(i != h);
                        if i < h {
                            assert(self.list_keys()[i] == k);
                        } else {
                            assert(self.list_keys()[i - 1] == k);
                        }
                    }
                }
            }
        }
    }

    /// Inserts a new key/value pair into the map and at the end of the list.
    fn insert_new_pair(&mut self, key: Key, value: Value)
        requires
            old(self).wf(),
            old(self).list_keys().len() < MAX_SIZE,
        ensures
            final(self).wf(),
            final(self).view() == old(self).view().insert(key, value),
            final(self).list_keys() == old(self).list_keys().push(key),
    {
        let stored = key.clone();
        assert(vstd::pervasive::strictly_cloned(key, stored));
        let (reference, node) = new_reference_pair(stored, value);
        self.sieve_list.push(reference);
        self.cache.insert(key, node);
        proof {
            assert(self.list_keys() =~= old(self).list_keys().push(key));
            assert(self.view() =~= old(self).view().insert(key, value));
            assert forall|k: Key| #[trigger] self.view().contains_key(k) implies self.list_keys().contains(
                k,
            ) by {
                if k == key {
                    assert(self.list_keys()[self.list_keys().len() - 1] == k);
                } else {
                    let i = choose|i: int|
                        0 <= i < old(self).list_keys().len() && old(self).list_keys()[i] == k;
                    assert(self.list_keys()[i] == k);
                }
            }
        }
    }

    /// Returns a clone of the value stored under `key`, and marks it read;
    /// `None` when the key is absent.
    pub fn get(&mut self, key: &Key) -> (r: Option<Value>)
        requires
            old(self).wf(),
        ensures
            final(self).wf(),
            final(self).view() == old(self).view(),
            match r {
                Some(w) => old(self).view().contains_key(*key) && vstd::pervasive::cloned(
                    old(self).view()[*key],
                    w,
                ),
                None => !old(self).view().contains_key(*key),
            },
    {
        match self.cache.get(key) {
            Some(node) => {
                node.set_read();
                let w = node.value().clone();
                assert(vstd::pervasive::cloned(node.spec_value(), w));
                Some(w)
            },
            None => None,
        }
    }

    /// Stores `value` under `key`, first evicting as `make_room` does when the
    /// list is full. When the list has room, nothing is evicted.
    pub fn set(&mut self, key: Key, value: Value)
        requires
            old(self).wf(),
        ensures
            final(self).wf(),
            final(self).view().len() <= MAX_SIZE,
            final(self).view().contains_key(key),
            final(self).view()[key] == value,
            forall|k: Key|
                k != key && #[trigger] final(self).view().contains_key(k) ==> old(
                    self,
                ).view().contains_key(k) && final(self).view()[k] == old(self).view()[k],
            old(self).list_keys().len() < MAX_SIZE ==> final(self).view() == old(
                self,
            ).view().insert(key, value),
            old(self).list_keys().len() < MAX_SIZE ==> final(self).list_keys() == old(
                self,
            ).list_keys().push(key),
    {
        self.make_room_for_one_insertion();
        self.insert_new_pair(key, value);
        proof {
            self.lemma_bounded();
        }
    }
}

impl<Key: Eq + Hash + Clone, Value: Clone> Default for SieveCache<Key, Value> {
    fn default() -> (r: Self)
        ensures
            lawful_key::<Key>() ==> r.wf(),
            r.view() == Map::<Key, Value>::empty(),
            r.list_keys().len() == 0,
    {
        Self::new()
    }
}

impl<Key: Eq + Hash + Clone, Value: Clone> SizeLimitedCache<Key, Value> for SieveCache<
    Key,
    Value,
> {
    open spec fn cache_inv(&self) -> bool {
        self.wf()
    }

    open spec fn contents(&self) -> Map<Key, Value> {
        self.view()
    }

    fn get(&mut self, key: &Key) -> (r: Option<Value>) {
        SieveCache::get(self, key)
    }

    fn set(&mut self, key: Key, value: Value) {
        SieveCache::set(self, key, value)
    }
}

} // verus!
