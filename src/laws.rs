//! What holds of every SIEVE cache, over the model in `policy`: the laws that
//! `get` and `set` obey, alone and over whole operation streams.

use vstd::prelude::*;
use vstd::set_lib::{lemma_int_range, lemma_len_subset, lemma_map_size};

use crate::policy::{at_offset, lemma_first_unread, lemma_first_unread_at, offset_of, SieveState};

verus! {

/// One operation on a cache.
pub enum CacheOp<K, V> {
    Get(K),
    Put(K, V),
}

impl<K, V> SieveState<K, V> {
    /// The state after one operation.
    pub open spec fn apply(self, op: CacheOp<K, V>) -> Self {
        match op {
            CacheOp::Get(k) => self.get_step(k),
            CacheOp::Put(k, v) => self.set_step(k, v),
        }
    }
}

/// The state after a stream of operations, applied in order.
pub open spec fn run<K, V>(s: SieveState<K, V>, ops: Seq<CacheOp<K, V>>) -> SieveState<K, V>
    decreases ops.len(),
{
    if ops.len() == 0 {
        s
    } else {
        run(s, ops.drop_last()).apply(ops.last())
    }
}

/// Whether some `set` of the stream stores under `k`.
pub open spec fn puts_key<K, V>(ops: Seq<CacheOp<K, V>>, k: K) -> bool {
    exists|i: int, v: V| 0 <= i < ops.len() && ops[i] == CacheOp::Put(k, v)
}

/// The stream that stores `vals[i]` under `keys[i]`, in order.
pub open spec fn puts<K, V>(keys: Seq<K>, vals: Seq<V>) -> Seq<CacheOp<K, V>> {
    Seq::new(keys.len(), |i: int| CacheOp::Put(keys[i], vals[i]))
}

/// At most `capacity` keys are present in a well-formed cache.
pub proof fn lemma_occupancy_bound<K, V>(s: SieveState<K, V>)
    requires
        s.wf(),
    ensures
        s.index.len() <= s.capacity(),
{
    let dom = s.index.dom();
    let f = |k: K| s.index[k];
    let image = dom.map(f);
    let range = vstd::set_lib::set_int_range(0, s.capacity());
    assert(vstd::relations::injective_on(f, dom)) by {
        assert forall|a: K, b: K| dom.contains(a) && dom.contains(b) && #[trigger] f(a) == #[trigger] f(
            b,
        ) implies a == b by {
            assert(s.key_at(s.index[a]) == a);
            assert(s.key_at(s.index[b]) == b);
        }
    }
    lemma_map_size(dom, image, f);
    lemma_int_range(0, s.capacity());
    assert(image.subset_of(range));
    lemma_len_subset(image, range);
}

/// Every state that a stream of operations reaches from a fresh cache is well
/// formed.
pub proof fn lemma_run_wf<K, V>(n: int, ops: Seq<CacheOp<K, V>>)
    requires
        n > 0,
    ensures
        run(SieveState::fresh(n), ops).wf(),
        run(SieveState::fresh(n), ops).capacity() == n,
    decreases ops.len(),
{
    if ops.len() == 0 {
        SieveState::<K, V>::lemma_fresh_wf(n);
    } else {
        lemma_run_wf(n, ops.drop_last());
        let s = run(SieveState::fresh(n), ops.drop_last());
        match ops.last() {
            CacheOp::Get(k) => s.lemma_get_step_wf(k),
            CacheOp::Put(k, v) => {
                s.lemma_set_step_wf(k, v);
                s.lemma_victim();
            },
        }
    }
}

/// Set-then-get: right after `set(k, v)`, `get(k)` returns `v`.
pub proof fn law_set_then_get<K, V>(s: SieveState<K, V>, k: K, v: V)
    requires
        s.wf(),
    ensures
        s.set_step(k, v).lookup(k) == Some(v),
{
    s.lemma_victim();
}

/// On a fresh cache, `set(k, v)` then `get(k)` returns `v`.
pub proof fn law_fresh_set_then_get<K, V>(n: int, k: K, v: V)
    requires
        n > 0,
    ensures
        SieveState::<K, V>::fresh(n).set_step(k, v).lookup(k) == Some(v),
{
    SieveState::<K, V>::lemma_fresh_wf(n);
    law_set_then_get(SieveState::<K, V>::fresh(n), k, v);
}

/// Overwrite: `set(k, v1); set(k, v2)` leaves `get(k)` returning `v2`.
pub proof fn law_overwrite<K, V>(s: SieveState<K, V>, k: K, v1: V, v2: V)
    requires
        s.wf(),
    ensures
        s.set_step(k, v1).set_step(k, v2).lookup(k) == Some(v2),
{
    s.lemma_set_step_wf(k, v1);
    law_set_then_get(s.set_step(k, v1), k, v2);
}

/// Idempotent overwrite: a second `set(k, v)` changes nothing, and `get(k)`
/// returns `v`.
pub proof fn law_set_idempotent<K, V>(s: SieveState<K, V>, k: K, v: V)
    requires
        s.wf(),
    ensures
        s.set_step(k, v).set_step(k, v) == s.set_step(k, v),
        s.set_step(k, v).set_step(k, v).lookup(k) == Some(v),
{
    s.lemma_victim();
    let t = s.set_step(k, v);
    let i = t.index[k];
    assert(t.slots.update(i, Some((k, v))) =~= t.slots);
    assert(t.read.update(i, false) =~= t.read);
}

/// `get` changes no lookup: two `get(k)` in a row return the same, and every
/// other key reads as before.
pub proof fn law_get_stable<K, V>(s: SieveState<K, V>, k: K, k2: K)
    ensures
        s.get_step(k).lookup(k2) == s.lookup(k2),
        s.get_step(k).lookup(k) == s.lookup(k),
{
}

/// Bounded occupancy: after any stream of operations on a fresh cache, at most
/// `n` keys are present.
pub proof fn law_bounded_occupancy<K, V>(n: int, ops: Seq<CacheOp<K, V>>)
    requires
        n > 0,
    ensures
        run(SieveState::fresh(n), ops).index.len() <= n,
{
    lemma_run_wf(n, ops);
    lemma_occupancy_bound(run(SieveState::fresh(n), ops));
}

/// No phantom keys: after any stream of operations on a fresh cache, a key
/// that no `set` stored under is absent.
pub proof fn law_no_phantom_keys<K, V>(n: int, ops: Seq<CacheOp<K, V>>, k: K)
    requires
        n > 0,
        !puts_key(ops, k),
    ensures
        run(SieveState::fresh(n), ops).lookup(k) is None,
    decreases ops.len(),
{
    if ops.len() > 0 {
        let init = ops.drop_last();
        assert(!puts_key(init, k)) by {
            if puts_key(init, k) {
                let (i, v) = choose|i: int, v: V| 0 <= i < init.len() && init[i] == CacheOp::Put(k, v);
                assert(ops[i] == CacheOp::Put(k, v));
            }
        }
        law_no_phantom_keys(n, init, k);
        if let CacheOp::Put(k2, v2) = ops.last() {
            assert(k2 != k) by {
                if k2 == k {
                    assert(ops[ops.len() - 1] == CacheOp::Put(k, v2));
                }
            }
        }
    }
}

/// Progress of victim selection: the scan examines at most `2 * capacity`
/// slots (in fact at most `capacity + 1`).
pub proof fn law_scan_bound<K, V>(s: SieveState<K, V>)
    requires
        s.wf(),
    ensures
        1 <= s.scan_steps() <= s.capacity() + 1 <= 2 * s.capacity(),
{
    s.lemma_victim();
}

/// Filling a fresh cache with distinct keys puts the `i`-th in slot `i`.
proof fn lemma_fill_shape<K, V>(n: int, keys: Seq<K>, vals: Seq<V>)
    requires
        n > 0,
        keys.len() == vals.len(),
        keys.len() <= n,
        keys.no_duplicates(),
    ensures
        ({
            let s = run(SieveState::fresh(n), puts(keys, vals));
            let j = keys.len() as int;
            &&& s.wf()
            &&& s.capacity() == n
            &&& s.hand == if j < n {
                j
            } else {
                0
            }
            &&& forall|i: int| 0 <= i < n ==> !#[trigger] s.read[i]
            &&& forall|i: int|
                0 <= i < n ==> #[trigger] s.slots[i] == if i < j {
                    Some((keys[i], vals[i]))
                } else {
                    None
                }
        }),
    decreases keys.len(),
{
    let j = keys.len() as int;
    if j == 0 {
        SieveState::<K, V>::lemma_fresh_wf(n);
    } else {
        let ks = keys.drop_last();
        let vs = vals.drop_last();
        assert(puts(keys, vals).drop_last() =~= puts(ks, vs));
        assert(ks.no_duplicates()) by {
            assert forall|a: int, b: int| 0 <= a < ks.len() && 0 <= b < ks.len() && a != b implies ks[a]
                != ks[b] by {
                assert(ks[a] == keys[a] && ks[b] == keys[b]);
            }
        }
        lemma_fill_shape(n, ks, vs);
        let p = run(SieveState::fresh(n), puts(ks, vs));
        let k = keys[j - 1];
        let v = vals[j - 1];
        assert(puts(keys, vals).last() == CacheOp::Put(k, v));
        assert(!p.index.contains_key(k)) by {
            if p.index.contains_key(k) {
                let i = p.index[k];
                assert(p.slots[i] == Some((keys[i], vals[i])));
            }
        }
        assert(!p.occupied(p.hand));
        p.lemma_victim();
        p.lemma_set_step_wf(k, v);
        let t = p.set_step(k, v);
        assert forall|i: int| 0 <= i < n implies !#[trigger] t.read[i] by {
            assert(!p.read[i]);
        }
    }
}

/// One past capacity: storing `n + 1` distinct keys, with no `get` between,
/// in a fresh cache of `n` slots evicts exactly the first and keeps the rest.
pub proof fn law_one_past_capacity<K, V>(n: int, keys: Seq<K>, vals: Seq<V>)
    requires
        n > 0,
        keys.len() == vals.len(),
        keys.len() == n + 1,
        keys.no_duplicates(),
    ensures
        run(SieveState::fresh(n), puts(keys, vals)).lookup(keys[0]) is None,
        forall|i: int|
            1 <= i <= n ==> #[trigger] run(SieveState::fresh(n), puts(keys, vals)).lookup(keys[i])
                == Some(vals[i]),
        run(SieveState::fresh(n), puts(keys, vals)).index.len() == n,
{
    let ks = keys.drop_last();
    let vs = vals.drop_last();
    assert(puts(keys, vals).drop_last() =~= puts(ks, vs));
    assert(ks.no_duplicates()) by {
        assert forall|a: int, b: int| 0 <= a < ks.len() && 0 <= b < ks.len() && a != b implies ks[a]
            != ks[b] by {
            assert(ks[a] == keys[a] && ks[b] == keys[b]);
        }
    }
    lemma_fill_shape(n, ks, vs);
    let p = run(SieveState::fresh(n), puts(ks, vs));
    let k = keys[n];
    let v = vals[n];
    assert(puts(keys, vals).last() == CacheOp::Put(k, v));
    assert(p.slots[0] == Some((keys[0], vals[0])));
    assert(p.is_full()) by {
        assert forall|i: int| 0 <= i < n implies #[trigger] p.occupied(i) by {
            assert(p.slots[i] == Some((keys[i], vals[i])));
        }
    }
    assert(!p.index.contains_key(k)) by {
        if p.index.contains_key(k) {
            let i = p.index[k];
            assert(p.slots[i] == Some((keys[i], vals[i])));
        }
    }
    lemma_first_unread_at(p.read, p.hand, 0, 0);
    assert(p.victim() == 0);
    law_full_insert_evicts_one(p, k, v);
    let t = p.set_step(k, v);
    assert forall|i: int| 1 <= i <= n implies #[trigger] t.lookup(keys[i]) == Some(vals[i]) by {
        if i < n {
            assert(p.slots[i] == Some((keys[i], vals[i])));
            assert(p.occupied(i));
            assert(keys[i] != keys[0]);
        }
    }
    lemma_occupancy_bound(p);
    assert(p.index.len() == n) by {
        let f = |k2: K| p.index[k2];
        let dom = p.index.dom();
        assert(dom.map(f) =~= vstd::set_lib::set_int_range(0, n)) by {
            assert forall|i: int| 0 <= i < n implies dom.map(f).contains(i) by {
                assert(p.slots[i] == Some((keys[i], vals[i])));
                assert(p.occupied(i));
                assert(dom.contains(keys[i]) && f(keys[i]) == i);
            }
        }
        assert(vstd::relations::injective_on(f, dom)) by {
            assert forall|a: K, b: K| dom.contains(a) && dom.contains(b) && #[trigger] f(a)
                == #[trigger] f(b) implies a == b by {
                assert(p.key_at(p.index[a]) == a);
                assert(p.key_at(p.index[b]) == b);
            }
        }
        lemma_map_size(dom, dom.map(f), f);
        lemma_int_range(0, n);
    }
}

/// Filling to capacity: storing `n` or fewer distinct keys in a fresh cache of
/// `n` slots keeps every one of them; storing exactly `n` fills it.
pub proof fn law_fill_retains_all<K, V>(n: int, keys: Seq<K>, vals: Seq<V>)
    requires
        n > 0,
        keys.len() == vals.len(),
        keys.len() <= n,
        keys.no_duplicates(),
    ensures
        forall|i: int|
            0 <= i < keys.len() ==> #[trigger] run(SieveState::fresh(n), puts(keys, vals)).lookup(
                keys[i],
            ) == Some(vals[i]),
        keys.len() == n ==> run(SieveState::fresh(n), puts(keys, vals)).is_full(),
{
    lemma_fill_shape(n, keys, vals);
    let s = run(SieveState::fresh(n), puts(keys, vals));
    assert forall|i: int| 0 <= i < keys.len() implies #[trigger] s.lookup(keys[i]) == Some(
        vals[i],
    ) by {
        assert(s.slots[i] == Some((keys[i], vals[i])));
        assert(s.occupied(i));
    }
    if keys.len() == n {
        assert forall|i: int| 0 <= i < n implies #[trigger] s.occupied(i) by {
            assert(s.slots[i] == Some((keys[i], vals[i])));
        }
    }
}

/// Overflow evicts exactly one: storing a new key in a full cache drops the
/// victim's key, and only it; every other key reads as before.
pub proof fn law_full_insert_evicts_one<K, V>(s: SieveState<K, V>, k: K, v: V)
    requires
        s.wf(),
        s.is_full(),
        !s.index.contains_key(k),
    ensures
        ({
            let t = s.set_step(k, v);
            let gone = s.key_at(s.victim());
            &&& s.index.contains_key(gone)
            &&& gone != k
            &&& t.index.dom() == s.index.dom().remove(gone).insert(k)
            &&& t.index.len() == s.index.len()
            &&& t.lookup(gone) is None
            &&& forall|k2: K| k2 != gone && k2 != k ==> #[trigger] t.lookup(k2) == s.lookup(k2)
        }),
{
    s.lemma_victim();
    let t = s.set_step(k, v);
    let i = s.victim();
    let gone = s.key_at(i);
    assert(s.occupied(i));
    assert(t.index.dom() =~= s.index.dom().remove(gone).insert(k));
    assert forall|k2: K| k2 != gone && k2 != k implies #[trigger] t.lookup(k2) == s.lookup(k2) by {
        if s.index.contains_key(k2) {
            assert(s.index[k2] != i);
        }
    }
}

/// Read entries are kept: when some slot's read bit is clear, storing a new
/// key evicts a slot that was not read, and every entry marked read stays.
pub proof fn law_read_entries_kept<K, V>(s: SieveState<K, V>, k: K, v: V)
    requires
        s.wf(),
        !s.index.contains_key(k),
        exists|i: int| 0 <= i < s.capacity() && !s.read[i],
    ensures
        !s.read[s.victim()],
        forall|k2: K|
            s.index.contains_key(k2) && s.read[s.index[k2]] ==> #[trigger] s.set_step(k, v).lookup(
                k2,
            ) == s.lookup(k2),
{
    s.lemma_victim();
    let n = s.capacity();
    lemma_first_unread(s.read, s.hand, 0);
    let i = choose|i: int| 0 <= i < n && !s.read[i];
    if s.scan_distance() == n {
        let j = offset_of(s.hand, i, n);
        assert(at_offset(s.hand, j, n) == i);
        assert(s.read[at_offset(s.hand, j, n)]);
    }
    assert forall|k2: K|
        s.index.contains_key(k2) && s.read[s.index[k2]] implies #[trigger] s.set_step(k, v).lookup(
        k2,
    ) == s.lookup(k2) by {
        assert(s.index[k2] != s.victim());
    }
}

} // verus!
