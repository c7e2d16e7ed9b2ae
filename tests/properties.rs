use sieve_cache::slot::{holds_key, read_payload, scan_step};
use sieve_cache::{
    new_reference_pair, synchronized_cache, ConcurrentSieveCache, ParallelSieveCache,
    ShareableCache, SieveCache, SizeLimitedCache, MAX_SIZE,
};

#[test]
fn fresh_set_then_get() {
    let mut cache = SieveCache::with_capacity(4);
    cache.set(7u64, 70u64);
    assert_eq!(cache.get(&7), Some(70));
}

#[test]
fn overwrite_returns_latest() {
    let mut cache = SieveCache::with_capacity(3);
    cache.set(1u32, 10u32);
    cache.set(1, 11);
    assert_eq!(cache.get(&1), Some(11));
    assert_eq!(cache.len(), 1);
}

#[test]
fn idempotent_overwrite() {
    let mut cache = SieveCache::with_capacity(3);
    cache.set(5u32, 50u32);
    cache.set(5, 50);
    assert_eq!(cache.get(&5), Some(50));
    assert_eq!(cache.len(), 1);
}

#[test]
fn get_twice_same_result() {
    let mut cache = SieveCache::with_capacity(2);
    cache.set(1u8, 2u8);
    assert_eq!(cache.get(&1), cache.get(&1));
    assert_eq!(cache.get(&9), None);
    assert_eq!(cache.get(&9), None);
}

#[test]
fn never_set_key_is_absent() {
    let mut cache = SieveCache::new();
    for i in 0..250u64 {
        cache.set(i * 2, i);
    }
    for i in 0..250u64 {
        assert_eq!(cache.get(&(i * 2 + 1)), None);
    }
}

#[test]
fn occupancy_stays_bounded() {
    let mut cache = SieveCache::with_capacity(10);
    for i in 0..1000u64 {
        cache.set(i % 37, i);
        if i % 3 == 0 {
            cache.get(&(i % 11));
        }
        assert!(cache.len() <= cache.capacity());
    }
    let present = (0..37u64).filter(|k| cache.contains(k)).count();
    assert!(present <= 10);
}

#[test]
fn filling_to_capacity_keeps_all() {
    let mut cache = SieveCache::new();
    for i in 0..MAX_SIZE {
        cache.set(i, i * 3);
    }
    assert_eq!(cache.len(), MAX_SIZE);
    for i in 0..MAX_SIZE {
        assert_eq!(cache.get(&i), Some(i * 3));
    }
}

#[test]
fn one_past_capacity_evicts_exactly_one() {
    let mut cache = SieveCache::new();
    for i in 0..=MAX_SIZE {
        cache.set(i, i);
    }
    let present = (0..=MAX_SIZE).filter(|k| cache.contains(k)).count();
    assert_eq!(present, MAX_SIZE);
    assert!(!cache.contains(&0));
}

#[test]
fn read_entries_survive_eviction() {
    let mut cache = SieveCache::with_capacity(5);
    for i in 0..5u32 {
        cache.set(i, i);
    }
    cache.get(&0);
    cache.get(&2);
    cache.get(&4);
    cache.set(5, 5);
    assert!(!cache.contains(&1));
    cache.set(6, 6);
    assert!(!cache.contains(&3));
    assert_eq!(cache.get(&0), Some(0));
    assert_eq!(cache.get(&2), Some(2));
    assert_eq!(cache.get(&4), Some(4));
}

#[test]
fn all_read_falls_back_to_the_hand() {
    let mut cache = SieveCache::with_capacity(3);
    for i in 0..3u32 {
        cache.set(i, i);
    }
    for i in 0..3u32 {
        cache.get(&i);
    }
    cache.set(3, 3);
    assert!(!cache.contains(&0));
    assert_eq!(cache.get(&1), Some(1));
    assert_eq!(cache.get(&2), Some(2));
    assert_eq!(cache.get(&3), Some(3));
}

#[test]
fn single_slot_cache_keeps_latest() {
    let mut cache = SieveCache::with_capacity(1);
    cache.set(1u32, 1u32);
    cache.get(&1);
    cache.set(2, 2);
    assert_eq!(cache.get(&1), None);
    assert_eq!(cache.get(&2), Some(2));
    assert_eq!(cache.capacity(), 1);
}

#[test]
fn overwrite_clears_read_bit() {
    let mut cache = SieveCache::with_capacity(2);
    cache.set(1u32, 1u32);
    cache.set(2, 2);
    cache.get(&1);
    cache.set(1, 10);
    cache.set(3, 3);
    assert!(!cache.contains(&1));
    assert_eq!(cache.get(&2), Some(2));
}

#[test]
fn string_keys_and_values() {
    let mut cache = SieveCache::with_capacity(2);
    cache.set(String::from("x"), String::from("one"));
    cache.set(String::from("y"), String::from("two"));
    assert_eq!(cache.get(&String::from("x")), Some(String::from("one")));
    cache.set(String::from("z"), String::from("three"));
    assert_eq!(cache.get(&String::from("y")), None);
}

#[test]
fn size_limited_trait_delegates() {
    let mut cache = SieveCache::with_capacity(2);
    SizeLimitedCache::set(&mut cache, 1u32, 9u32);
    assert_eq!(SizeLimitedCache::get(&mut cache, &1), Some(9));
}

#[test]
fn parallel_basic_operations() {
    let cache = ParallelSieveCache::new();
    cache.set("a", 0);
    cache.set("b", 1);
    cache.set("c", 2);
    assert_eq!(cache.get(&"a"), Some(0));
    cache.set("a", 5);
    assert_eq!(cache.get(&"a"), Some(5));
    assert_eq!(cache.get(&"zz"), None);
    assert_eq!(cache.capacity(), MAX_SIZE);
}

#[test]
fn parallel_evicts_first_unread() {
    let cache = ParallelSieveCache::new();
    for i in 0..MAX_SIZE {
        cache.set(i, i);
    }
    cache.get(&0);
    cache.get(&1);
    cache.set(MAX_SIZE, MAX_SIZE);
    assert_eq!(cache.get(&0), Some(0));
    assert_eq!(cache.get(&1), Some(1));
    assert_eq!(cache.get(&2), None);
    assert_eq!(cache.get(&3), Some(3));
    assert_eq!(cache.get(&MAX_SIZE), Some(MAX_SIZE));
}

#[test]
fn parallel_small_capacity_stays_bounded() {
    let cache = ParallelSieveCache::with_capacity(4);
    for i in 0..40u64 {
        cache.set(i, i + 1);
    }
    let present = (0..40u64).filter(|k| cache.get(k).is_some()).count();
    assert!(present <= 4);
    assert_eq!(cache.get(&39), Some(40));
}

#[test]
fn concurrent_basic_operations() {
    let cache = ConcurrentSieveCache::new();
    cache.set("test", 32);
    assert_eq!(cache.get(&"test"), Some(32));
    cache.set("test", 33);
    assert_eq!(cache.get(&"test"), Some(33));
    for i in 0..MAX_SIZE {
        cache.set("filler", i);
    }
    assert_eq!(cache.get(&"filler"), Some(MAX_SIZE - 1));
    assert_eq!(cache.capacity(), MAX_SIZE);
}

#[test]
fn concurrent_evicts_first() {
    let cache = ConcurrentSieveCache::new();
    for i in 0..MAX_SIZE {
        cache.set(i, i);
    }
    cache.set(MAX_SIZE, MAX_SIZE);
    assert_eq!(cache.get(&0), None);
    assert_eq!(cache.get(&1), Some(1));
    assert_eq!(cache.get(&MAX_SIZE), Some(MAX_SIZE));
}

#[test]
fn synchronized_wrapper_shares_a_cache() {
    let shared = synchronized_cache(SieveCache::with_capacity(2));
    ShareableCache::set(&shared, 1u32, 10u32);
    ShareableCache::set(&shared, 2, 20);
    assert_eq!(ShareableCache::get(&shared, &1), Some(10));
    ShareableCache::set(&shared, 3, 30);
    assert_eq!(ShareableCache::get(&shared, &2), None);
    assert_eq!(ShareableCache::get(&shared, &3), Some(30));
}

#[test]
fn reference_pair_shares_read_flag() {
    let (reference, value) = new_reference_pair("k", 4);
    assert_eq!(*reference.key(), "k");
    assert_eq!(*value.value(), 4);
    assert!(!reference.take_read_state());
    value.set_read();
    assert!(reference.take_read_state());
    assert!(!reference.take_read_state());
}

fn check_no_cross_talk<C: ShareableCache<u64, u64>>(cache: &C) {
    let writers = 4u64;
    for i in 0..2000u64 {
        for t in 0..writers {
            let key = t * 1_000_000 + (i * 7 + t) % 300;
            cache.set(key, key * 7 + t);
            let probe = t * 1_000_000 + i % 300;
            if let Some(v) = cache.get(&probe) {
                assert_eq!(v, probe * 7 + t);
            }
        }
    }
}

#[test]
fn parallel_no_cross_talk_interleaved() {
    let cache = ParallelSieveCache::with_capacity(64);
    check_no_cross_talk(&cache);
}

#[test]
fn concurrent_no_cross_talk_interleaved() {
    let cache = ConcurrentSieveCache::new();
    check_no_cross_talk(&cache);
}

#[test]
fn synchronized_no_cross_talk_interleaved() {
    let cache = synchronized_cache(SieveCache::with_capacity(64));
    check_no_cross_talk(&cache);
}

#[test]
fn payload_read_checks_the_key() {
    let payload = Some((3u64, 30u64));
    assert_eq!(read_payload(&payload, &3), Some(30));
    assert_eq!(read_payload(&payload, &4), None);
    assert_eq!(read_payload::<u64, u64>(&None, &3), None);
    assert!(holds_key(&payload, &3));
    assert!(!holds_key(&payload, &5));
}

#[test]
fn scan_step_wraps_and_takes() {
    assert_eq!(scan_step(2, 3, true, 0), (0, false));
    assert_eq!(scan_step(0, 3, false, 1), (1, true));
    assert_eq!(scan_step(1, 3, true, 3), (2, true));
    assert_eq!(sieve_cache::next_slot(4, 5), 0);
    assert_eq!(sieve_cache::next_slot(3, 5), 4);
}

#[test]
fn default_caches_hold_max_size() {
    let mut single: SieveCache<u32, u32> = SieveCache::default();
    assert_eq!(single.capacity(), MAX_SIZE);
    single.set(1, 2);
    assert_eq!(single.get(&1), Some(2));
    let parallel: ParallelSieveCache<u32, u32> = ParallelSieveCache::default();
    assert_eq!(parallel.capacity(), MAX_SIZE);
    let concurrent: ConcurrentSieveCache<u32, u32> = ConcurrentSieveCache::default();
    concurrent.set(1, 2);
    assert_eq!(concurrent.get(&1), Some(2));
    let mut list: sieve_cache::example_sieve_cache::SieveCache<u32, u32> = Default::default();
    list.set(4, 5);
    assert_eq!(list.get(&4), Some(5));
}
