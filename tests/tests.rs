use sieve_cache::SieveCache;
use sieve_cache::MAX_SIZE;

#[test]
fn set_and_get_same_value() {
    let mut cache = SieveCache::new();

    cache.set("test", 32);
    assert_eq!(cache.get(&"test"), Some(32));
}

#[test]
fn set_multiple_get_original() {
    let mut cache = SieveCache::new();

    cache.set("a", 0);
    cache.set("b", 1);
    cache.set("c", 2);

    assert_eq!(cache.get(&"a"), Some(0));
}

#[test]
fn set_overwrite() {
    let mut cache = SieveCache::new();

    cache.set("a", 0);
    cache.set("a", 1);

    assert_eq!(cache.get(&"a"), Some(1));
}

#[test]
fn evict_first() {
    let mut cache = SieveCache::new();

    for i in 0..MAX_SIZE {
        cache.set(i, i);
    }

    cache.set(MAX_SIZE, MAX_SIZE);

    assert_eq!(cache.get(&0), None);
    assert_eq!(cache.get(&1), Some(1));
}

#[test]
fn evict_skips_read_values() {
    let mut cache = SieveCache::new();

    for i in 0..MAX_SIZE {
        cache.set(i, i);
    }

    cache.get(&0);
    cache.get(&1);

    cache.set(MAX_SIZE, MAX_SIZE);

    assert_eq!(cache.get(&0), Some(0));
    assert_eq!(cache.get(&1), Some(1));
    assert_eq!(cache.get(&2), None);
    assert_eq!(cache.get(&MAX_SIZE), Some(MAX_SIZE));
}

#[test]
fn evict_only_evicts_necessary_entries() {
    let mut cache = SieveCache::new();

    for i in 0..MAX_SIZE {
        cache.set(i, i);
    }

    cache.get(&0);
    cache.get(&1);

    cache.set(MAX_SIZE, MAX_SIZE);

    assert_eq!(cache.get(&2), None);
    assert_eq!(cache.get(&3), Some(3));
}
