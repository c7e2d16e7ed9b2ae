//! What the thread-safe caches share: the invariants of their locks, and the
//! decisions they take on what a slot holds and on the hand.

use std::hash::Hash;

use vstd::prelude::*;

use crate::lawful_key;

verus! {

/// What a slot may hold: nothing, or a pair that the pairing admits.
pub open spec fn slot_pred<K, V>(pairing: spec_fn(K, V) -> bool) -> spec_fn(Option<(K, V)>) -> bool {
    |payload: Option<(K, V)>|
        match payload {
            Some((k, v)) => pairing(k, v),
            None => true,
        }
}

/// What the hand may hold: a slot number.
pub open spec fn hand_pred(n: nat) -> spec_fn(usize) -> bool {
    |hand: usize| hand < n
}

/// The pairing that admits every pair.
pub open spec fn any_pair<K, V>() -> spec_fn(K, V) -> bool {
    |k: K, v: V| true
}

/// Whether a slot's payload is stored under `key`.
pub fn holds_key<K: Eq + Hash + Clone, V>(payload: &Option<(K, V)>, key: &K) -> (r: bool)
    requires
        lawful_key::<K>(),
    ensures
        r == (payload is Some && payload->Some_0.0 == *key),
{
    proof {
        reveal(vstd::laws_eq::obeys_concrete_eq);
    }
    match payload {
        Some((stored, _)) => *stored == *key,
        None => false,
    }
}

/// What a reader answers from a slot's payload: a clone of its value when it
/// is stored under `key`, else `None` (the slot may have been reused for
/// another key since the index was probed).
pub fn read_payload<K: Eq + Hash + Clone, V: Clone>(payload: &Option<(K, V)>, key: &K) -> (r:
    Option<V>)
    requires
        lawful_key::<K>(),
    ensures
        r is Some <==> (payload is Some && payload->Some_0.0 == *key),
        r is Some ==> vstd::pervasive::cloned(payload->Some_0.1, r->Some_0),
{
    if holds_key(payload, key) {
        match payload {
            Some((_, value)) => {
                let w = value.clone();
                assert(vstd::pervasive::cloned(*value, w));
                Some(w)
            },
            None => None,
        }
    } else {
        None
    }
}

/// The slot after `hand` in a circular scan over `n` slots: one step on,
/// wrapping at `n`.
pub fn next_slot(hand: usize, n: usize) -> (r: usize)
    requires
        hand < usize::MAX,
    ensures
        r == if hand + 1 >= n {
            hand + 1 - n
        } else {
            hand + 1
        },
{
    let next = hand + 1;
    if next >= n {
        next - n
    } else {
        next
    }
}

/// One step of a writer's victim scan: where the hand goes next, and whether
/// the slot at `hand` is taken. A slot whose read bit was set is passed over,
/// except once `n` slots have been passed: readers may set bits again behind
/// the hand, and a whole sweep has cleared every bit once.
pub fn scan_step(hand: usize, n: usize, was_read: bool, steps: usize) -> (r: (usize, bool))
    requires
        hand < n,
        steps <= n,
    ensures
        r.0 == if hand + 1 >= n {
            0
        } else {
            hand + 1
        },
        r.1 == (!was_read || steps == n),
{
    (next_slot(hand, n), !was_read || steps == n)
}

} // verus!
