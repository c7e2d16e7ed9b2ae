//! The mathematical model of a SIEVE cache: fixed slots, a key index, a read
//! bit per slot and a hand, together with the transitions that `get` and
//! `set` perform on it.

use vstd::prelude::*;

verus! {

/// The abstract state of a SIEVE cache.
#[verifier::reject_recursive_types(K)]
pub ghost struct SieveState<K, V> {
    /// What each slot holds.
    pub slots: Seq<Option<(K, V)>>,
    /// The read bit of each slot.
    pub read: Seq<bool>,
    /// Where the next victim scan starts.
    pub hand: int,
    /// The slot that each present key lives in.
    pub index: Map<K, int>,
}

/// The slot reached from `hand` after `j` steps of the circular scan
/// (for `0 <= j <= n`).
pub open spec fn at_offset(hand: int, j: int, n: int) -> int {
    if hand + j < n {
        hand + j
    } else {
        hand + j - n
    }
}

/// How many steps the circular scan takes from `hand` to reach slot `i`.
pub open spec fn offset_of(hand: int, i: int, n: int) -> int {
    if i >= hand {
        i - hand
    } else {
        i + n - hand
    }
}

/// The offset (from `hand`, at or after `d`) of the first slot whose read bit
/// is clear, or `n` when every slot from there on is read.
pub open spec fn first_unread(read: Seq<bool>, hand: int, d: int) -> int
    decreases read.len() - d,
{
    if d >= read.len() {
        read.len() as int
    } else if !read[at_offset(hand, d, read.len() as int)] {
        d
    } else {
        first_unread(read, hand, d + 1)
    }
}

impl<K, V> SieveState<K, V> {
    pub open spec fn capacity(self) -> int {
        self.slots.len() as int
    }

    /// A fresh cache of `n` empty slots.
    pub open spec fn fresh(n: int) -> Self {
        SieveState {
            slots: Seq::new(n as nat, |i: int| None),
            read: Seq::new(n as nat, |i: int| false),
            hand: 0,
            index: Map::empty(),
        }
    }

    pub open spec fn occupied(self, i: int) -> bool {
        self.slots[i] is Some
    }

    pub open spec fn key_at(self, i: int) -> K {
        self.slots[i]->Some_0.0
    }

    pub open spec fn value_at(self, i: int) -> V {
        self.slots[i]->Some_0.1
    }

    /// Every slot is occupied.
    pub open spec fn is_full(self) -> bool {
        forall|i: int| 0 <= i < self.capacity() ==> #[trigger] self.occupied(i)
    }

    /// The invariants of a SIEVE cache.
    pub open spec fn wf(self) -> bool {
        let n = self.capacity();
        &&& n > 0
        &&& self.read.len() == n
        &&& 0 <= self.hand < n
        &&& self.index.dom().finite()
        // the index points at slots that hold its keys
        &&& forall|k: K| #[trigger]
            self.index.contains_key(k) ==> 0 <= self.index[k] < n && self.occupied(self.index[k])
                && self.key_at(self.index[k]) == k
        // every occupied slot is indexed under its own key
        &&& forall|i: int|
            0 <= i < n && #[trigger] self.occupied(i) ==> self.index.contains_key(self.key_at(i))
                && self.index[self.key_at(i)] == i
        // an empty slot is never marked read
        &&& forall|i: int| 0 <= i < n && !#[trigger] self.occupied(i) ==> !self.read[i]
        // until the cache first fills, exactly the slots before the hand are
        // occupied; from then on every slot is
        &&& if self.occupied(self.hand) {
            self.is_full()
        } else {
            forall|i: int| 0 <= i < n ==> (#[trigger] self.occupied(i) <==> i < self.hand)
        }
    }

    /// What `get(k)` returns.
    pub open spec fn lookup(self, k: K) -> Option<V> {
        if self.index.contains_key(k) {
            Some(self.value_at(self.index[k]))
        } else {
            None
        }
    }

    /// The entries present, by key: what `get` answers.
    pub open spec fn contents(self) -> Map<K, V> {
        Map::new(|k: K| self.index.contains_key(k), |k: K| self.value_at(self.index[k]))
    }

    /// The state after `get(k)`: a hit marks the slot read.
    pub open spec fn get_step(self, k: K) -> Self {
        if self.index.contains_key(k) {
            SieveState { read: self.read.update(self.index[k], true), ..self }
        } else {
            self
        }
    }

    /// How far the victim scan goes from the hand: the offset of the first
    /// unread slot, or the capacity when every slot is read (the scan then
    /// comes round to the hand again, with every bit cleared).
    pub open spec fn scan_distance(self) -> int {
        first_unread(self.read, self.hand, 0)
    }

    /// The number of slots that the victim scan examines.
    pub open spec fn scan_steps(self) -> int {
        self.scan_distance() + 1
    }

    /// The slot that the victim scan picks.
    pub open spec fn victim(self) -> int {
        at_offset(self.hand, self.scan_distance(), self.capacity())
    }

    /// The read bits after the victim scan: every slot passed over, and the
    /// victim itself, is cleared.
    pub open spec fn swept_read(self) -> Seq<bool> {
        let n = self.capacity();
        let d = self.scan_distance();
        Seq::new(
            n as nat,
            |i: int|
                if offset_of(self.hand, i, n) <= d {
                    false
                } else {
                    self.read[i]
                },
        )
    }

    /// The hand after the victim scan: one past the victim.
    pub open spec fn next_hand(self) -> int {
        if self.victim() + 1 < self.capacity() {
            self.victim() + 1
        } else {
            0
        }
    }

    /// The state after the eviction engine has picked its victim: the scan
    /// has cleared the read bits it passed, the hand stands one past the
    /// victim, and the victim's slot is empty and its key gone from the index.
    pub open spec fn evict_step(self) -> Self {
        let i = self.victim();
        SieveState {
            slots: self.slots.update(i, None),
            read: self.swept_read(),
            hand: self.next_hand(),
            index: if self.occupied(i) {
                self.index.remove(self.key_at(i))
            } else {
                self.index
            },
        }
    }

    /// The state after `set(k, v)`: an overwrite in place, which clears the
    /// slot's read bit, or an eviction followed by an install in the victim.
    pub open spec fn set_step(self, k: K, v: V) -> Self {
        if self.index.contains_key(k) {
            let i = self.index[k];
            SieveState {
                slots: self.slots.update(i, Some((k, v))),
                read: self.read.update(i, false),
                ..self
            }
        } else {
            let e = self.evict_step();
            let i = self.victim();
            SieveState { slots: e.slots.update(i, Some((k, v))), index: e.index.insert(k, i), ..e }
        }
    }
}

/// The scan from offset `d` stops at the first unread slot, and passes only
/// read ones before it.
pub proof fn lemma_first_unread(read: Seq<bool>, hand: int, d: int)
    requires
        0 <= hand < read.len(),
        0 <= d <= read.len(),
    ensures
        d <= first_unread(read, hand, d) <= read.len(),
        first_unread(read, hand, d) < read.len() ==> !read[at_offset(
            hand,
            first_unread(read, hand, d),
            read.len() as int,
        )],
        forall|j: int|
            d <= j < first_unread(read, hand, d) ==> #[trigger] read[at_offset(
                hand,
                j,
                read.len() as int,
            )],
    decreases read.len() - d,
{
    if d < read.len() && read[at_offset(hand, d, read.len() as int)] {
        lemma_first_unread(read, hand, d + 1);
    }
}

/// A scan that has passed only read slots from `d` up to `e`, and stops at
/// `e`, has found the first unread slot.
pub proof fn lemma_first_unread_at(read: Seq<bool>, hand: int, d: int, e: int)
    requires
        0 <= hand < read.len(),
        0 <= d <= e <= read.len(),
        forall|j: int| d <= j < e ==> #[trigger] read[at_offset(hand, j, read.len() as int)],
        e < read.len() ==> !read[at_offset(hand, e, read.len() as int)],
    ensures
        first_unread(read, hand, d) == e,
    decreases e - d,
{
    if d < e {
        lemma_first_unread_at(read, hand, d + 1, e);
    }
}

impl<K, V> SieveState<K, V> {
    /// Where the victim scan stands and what it clears.
    pub proof fn lemma_victim(self)
        requires
            self.wf(),
        ensures
            0 <= self.scan_distance() <= self.capacity(),
            0 <= self.victim() < self.capacity(),
            0 <= self.next_hand() < self.capacity(),
            self.scan_distance() < self.capacity() ==> !self.read[self.victim()],
            self.swept_read().len() == self.capacity(),
            !self.swept_read()[self.victim()],
            forall|i: int|
                0 <= i < self.capacity() && !self.read[i] ==> !#[trigger] self.swept_read()[i],
            !self.occupied(self.hand) ==> self.victim() == self.hand,
    {
        lemma_first_unread(self.read, self.hand, 0);
        if !self.occupied(self.hand) {
            lemma_first_unread_at(self.read, self.hand, 0, 0);
        }
    }

    /// `set` keeps the invariants.
    pub proof fn lemma_set_step_wf(self, k: K, v: V)
        requires
            self.wf(),
        ensures
            self.set_step(k, v).wf(),
    {
        let n = self.capacity();
        let t = self.set_step(k, v);
        if self.index.contains_key(k) {
            let i = self.index[k];
            assert forall|j: int| 0 <= j < n implies #[trigger] t.occupied(j) == self.occupied(j)
                && (t.occupied(j) ==> t.key_at(j) == self.key_at(j)) by {}
            if t.occupied(t.hand) {
                assert forall|j: int| 0 <= j < n implies #[trigger] t.occupied(j) by {
                    assert(self.occupied(j));
                }
            }
        } else {
            self.lemma_victim();
            let i = self.victim();
            assert forall|k2: K| #[trigger] t.index.contains_key(k2) implies 0 <= t.index[k2] < n
                && t.occupied(t.index[k2]) && t.key_at(t.index[k2]) == k2 by {
                if k2 != k {
                    assert(self.index.contains_key(k2));
                    if self.index[k2] == i {
                        assert(self.occupied(i) && self.key_at(i) == k2);
                    }
                }
            }
            assert forall|j: int| 0 <= j < n && #[trigger] t.occupied(j) implies t.index.contains_key(
                t.key_at(j),
            ) && t.index[t.key_at(j)] == j by {
                if j != i {
                    assert(self.occupied(j));
                    assert(self.index.contains_key(self.key_at(j)));
                    if self.occupied(i) {
                        assert(self.key_at(j) != self.key_at(i));
                    }
                }
            }
            assert forall|j: int| 0 <= j < n && !#[trigger] t.occupied(j) implies !t.read[j] by {
                assert(!self.occupied(j));
            }
            if self.occupied(self.hand) {
                assert forall|j: int| 0 <= j < n implies #[trigger] t.occupied(j) by {
                    assert(self.occupied(j));
                }
            } else {
                assert(i == self.hand);
                if self.hand + 1 < n {
                    assert(!self.occupied(self.hand + 1));
                    assert(!t.occupied(t.hand));
                    assert forall|j: int| 0 <= j < n implies (#[trigger] t.occupied(j) <==> j
                        < t.hand) by {
                        if j != i {
                            assert(self.occupied(j) <==> j < self.hand);
                        }
                    }
                } else {
                    assert forall|j: int| 0 <= j < n implies #[trigger] t.occupied(j) by {
                        if j != i {
                            assert(self.occupied(j) <==> j < self.hand);
                        }
                    }
                    assert(t.occupied(0));
                }
            }
        }
    }

    /// `get` keeps the invariants.
    pub proof fn lemma_get_step_wf(self, k: K)
        requires
            self.wf(),
        ensures
            self.get_step(k).wf(),
    {
        let t = self.get_step(k);
        assert forall|j: int| 0 <= j < self.capacity() implies #[trigger] t.occupied(j)
            == self.occupied(j) by {}
        assert forall|j: int| 0 <= j < self.capacity() && !#[trigger] t.occupied(j) implies !t.read[j] by {
            assert(!self.occupied(j));
        }
    }

    /// `get` changes no entry.
    pub proof fn lemma_get_step_contents(self, k: K)
        ensures
            self.get_step(k).contents() == self.contents(),
    {
        assert(self.get_step(k).contents() =~= self.contents());
    }

    /// `set(k, v)` stores `v` under `k` and keeps or drops every other entry,
    /// changing none.
    pub proof fn lemma_set_step_contents(self, k: K, v: V)
        requires
            self.wf(),
        ensures
            self.set_step(k, v).contents().contains_key(k),
            self.set_step(k, v).contents()[k] == v,
            forall|k2: K|
                k2 != k && #[trigger] self.set_step(k, v).contents().contains_key(k2)
                    ==> self.contents().contains_key(k2) && self.set_step(k, v).contents()[k2]
                    == self.contents()[k2],
    {
        self.lemma_victim();
        let t = self.set_step(k, v);
        assert forall|k2: K|
            k2 != k && #[trigger] t.contents().contains_key(k2) implies self.contents().contains_key(
            k2,
        ) && t.contents()[k2] == self.contents()[k2] by {
            assert(self.index.contains_key(k2));
            if !self.index.contains_key(k) {
                assert(self.index[k2] != self.victim());
            }
        }
    }

    /// A fresh cache is well formed.
    pub proof fn lemma_fresh_wf(n: int)
        requires
            n > 0,
        ensures
            Self::fresh(n).wf(),
    {
        let s = Self::fresh(n);
        assert(!s.occupied(0));
        assert(s.index.dom() =~= Set::empty());
    }
}

} // verus!
