use sieve_cache::example_sieve_cache::SieveCache;
use sieve_cache::MAX_SIZE;

#[test]
fn one() {
    let mut cache = SieveCache::new();
    cache.set(1, 1);
    assert_eq!(cache.get(&1), Some(1));
}

#[test]
fn full_cache() {
    let mut cache = SieveCache::new();
    for i in 0..MAX_SIZE {
        cache.set(i, i);
    }
    for i in 0..MAX_SIZE {
        assert_eq!(cache.get(&i), Some(i), "all the elements should be there");
    }

    cache.set(MAX_SIZE, MAX_SIZE);
    assert_eq!(
        cache.get(&MAX_SIZE),
        Some(MAX_SIZE),
        "the new element should be there"
    );
    let count = (0..=MAX_SIZE).filter_map(|i| cache.get(&i)).count();
    assert_eq!(count, MAX_SIZE, "the cache should have evicted one element");
}

#[test]
fn list_cache_skips_read_nodes() {
    let mut cache = SieveCache::new();
    for i in 0..MAX_SIZE {
        cache.set(i, i);
    }
    cache.get(&0);
    cache.set(MAX_SIZE, MAX_SIZE);
    assert_eq!(cache.get(&0), Some(0));
    assert_eq!(cache.get(&1), None);
    assert_eq!(cache.get(&2), Some(2));
}

#[test]
fn list_cache_overwrite_returns_latest() {
    let mut cache = SieveCache::new();
    cache.set("a", 0);
    cache.set("a", 1);
    assert_eq!(cache.get(&"a"), Some(1));
    assert_eq!(cache.get(&"b"), None);
}
