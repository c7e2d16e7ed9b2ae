//! Paired nodes for a list-based SIEVE cache: the value side lives in the
//! key map, the key side in the scan list, and the two share one read flag.

use std::sync::atomic::{AtomicBool, Ordering};
use std::sync::Arc;

use vstd::prelude::*;

verus! {

/// The value side of a pair: the value and the shared read flag.
pub struct ValueNode<Value> {
    value: Value,
    read: Arc<AtomicBool>,
}

/// The key side of a pair: the key and the shared read flag.
pub struct ReferenceNode<Key> {
    key: Key,
    read: Arc<AtomicBool>,
}

/// A key node and a value node that share one read flag, which starts clear.
pub fn new_reference_pair<Key, Value>(key: Key, value: Value) -> (r: (
    ReferenceNode<Key>,
    ValueNode<Value>,
))
    ensures
        r.0.spec_key() == key,
        r.1.spec_value() == value,
{
    let read = Arc::new(AtomicBool::new(false));
    (ReferenceNode { key, read: read.clone() }, ValueNode { value, read })
}

impl<Key> ReferenceNode<Key> {
    pub closed spec fn spec_key(&self) -> Key {
        self.key
    }

    /// Clears the shared read flag and returns whether it was set.
    pub fn take_read_state(&self) -> bool {
        self.read.swap(false, Ordering::Relaxed)
    }

    pub fn key(&self) -> (r: &Key)
        ensures
            *r == self.spec_key(),
    {
        &self.key
    }
}

impl<Value> ValueNode<Value> {
    pub closed spec fn spec_value(&self) -> Value {
        self.value
    }

    /// Sets the shared read flag.
    pub fn set_read(&self) {
        self.read.store(true, Ordering::Relaxed)
    }

    pub fn value(&self) -> (r: &Value)
        ensures
            *r == self.spec_value(),
    {
        &self.value
    }
}

} // verus!
