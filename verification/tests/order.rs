use lru_cache::LruCache;

#[test]
fn bound_is_kept_after_every_call() {
    let mut cache = LruCache::new(3);
    for i in 0..20u64 {
        cache.insert(i % 7, i);
        assert!(cache.len() <= cache.capacity());
        cache.get(&(i % 5));
        assert!(cache.len() <= cache.capacity());
        if i % 4 == 0 {
            cache.remove(&(i % 3));
            assert!(cache.len() <= cache.capacity());
        }
    }
    cache.set_capacity(1);
    assert!(cache.len() <= cache.capacity());
    cache.extend(vec![(1, 1), (2, 2), (3, 3)]);
    assert_eq!(cache.len(), 1);
}

#[test]
fn a_key_is_held_once() {
    let mut cache = LruCache::new(4);
    cache.insert(7, 1);
    cache.insert(7, 2);
    cache.insert(7, 3);
    assert_eq!(cache.len(), 1);
    assert_eq!(cache.debug_string(), "{7: 3}");
    assert_eq!(cache.remove(&7), Some(3));
    assert_eq!(cache.remove(&7), None);
    assert!(cache.is_empty());
}

#[test]
fn first_in_leaves_first() {
    let mut cache = LruCache::new(3);
    cache.insert(11, 1);
    cache.insert(12, 2);
    cache.insert(13, 3);
    cache.insert(14, 4);
    assert!(!cache.contains_key(&11));
    assert!(cache.contains_key(&12));
    assert!(cache.contains_key(&13));
    assert!(cache.contains_key(&14));
    assert_eq!(cache.debug_string(), "{14: 4, 13: 3, 12: 2}");
}

#[test]
fn lookup_spares_the_pair() {
    let mut cache = LruCache::new(3);
    cache.insert(1, 10);
    cache.insert(2, 20);
    cache.insert(3, 30);
    assert_eq!(cache.get(&1), Some(&10));
    cache.insert(4, 40);
    assert!(!cache.contains_key(&2));
    assert!(cache.contains_key(&1));
    assert_eq!(cache.debug_string(), "{4: 40, 1: 10, 3: 30}");
}

#[test]
fn lookup_in_a_cache_of_one_spares_nothing() {
    let mut cache = LruCache::new(1);
    cache.insert(1, 10);
    assert_eq!(cache.get(&1), Some(&10));
    cache.insert(2, 20);
    assert!(!cache.contains_key(&1));
    assert_eq!(cache.debug_string(), "{2: 20}");
}

#[test]
fn growing_the_bound_drops_nothing() {
    let mut cache = LruCache::new(2);
    cache.insert(1, 10);
    cache.insert(2, 20);
    cache.set_capacity(2);
    assert_eq!(cache.len(), 2);
    cache.set_capacity(5);
    assert_eq!(cache.len(), 2);
    assert_eq!(cache.capacity(), 5);
    assert_eq!(cache.debug_string(), "{2: 20, 1: 10}");
}

#[test]
fn shrinking_the_bound_drops_the_oldest() {
    let mut cache = LruCache::new(4);
    cache.insert(1, 10);
    cache.insert(2, 20);
    cache.insert(3, 30);
    cache.insert(4, 40);
    cache.set_capacity(2);
    assert_eq!(cache.len(), 2);
    assert_eq!(cache.debug_string(), "{4: 40, 3: 30}");
    cache.set_capacity(0);
    assert_eq!(cache.len(), 0);
    assert_eq!(cache.debug_string(), "{}");
}

#[test]
fn putting_a_held_key_in_again_updates_it() {
    let mut cache = LruCache::new(3);
    cache.insert(1, 10);
    cache.insert(2, 20);
    cache.insert(3, 30);
    assert_eq!(cache.insert(1, 11), Some(10));
    assert_eq!(cache.len(), 3);
    assert_eq!(cache.debug_string(), "{1: 11, 3: 30, 2: 20}");
}

#[test]
fn bound_of_two_walkthrough() {
    let mut cache = LruCache::new(2);
    assert_eq!(cache.insert(1, 10), None);
    assert_eq!(cache.insert(2, 20), None);
    assert_eq!(cache.insert(3, 30), None);
    assert!(cache.get(&1).is_none());
    assert_eq!(*cache.get(&2).unwrap(), 20);
    assert_eq!(*cache.get(&3).unwrap(), 30);

    assert_eq!(cache.insert(2, 22), Some(20));
    assert_eq!(*cache.get(&2).unwrap(), 22);

    cache.insert(6, 60);
    assert!(cache.get(&3).is_none());

    cache.set_capacity(1);
    assert!(cache.get(&2).is_none());
}

#[test]
fn bound_can_be_raised_and_lowered() {
    let mut cache = LruCache::new(2);
    cache.insert(1, 1);
    cache.insert(2, 2);
    cache.insert(3, 3);
    assert_eq!(cache.get(&1), None);
    assert_eq!(cache.get(&2), Some(&2));
    assert_eq!(cache.get(&3), Some(&3));

    cache.set_capacity(3);
    cache.insert(1, 1);
    cache.insert(2, 2);
    assert_eq!(cache.get(&1), Some(&1));
    assert_eq!(cache.get(&2), Some(&2));
    assert_eq!(cache.get(&3), Some(&3));

    cache.set_capacity(1);
    assert_eq!(cache.get(&1), None);
    assert_eq!(cache.get(&2), None);
    assert_eq!(cache.get(&3), Some(&3));
}

#[test]
fn bound_of_zero_holds_nothing() {
    let mut cache = LruCache::new(0);
    assert_eq!(cache.insert(1, 10), None);
    assert_eq!(cache.len(), 0);
    assert_eq!(cache.insert(1, 11), None);
    assert_eq!(cache.len(), 0);
    assert!(cache.get(&1).is_none());
    assert!(!cache.contains_key(&1));
    cache.extend(vec![(1, 1), (2, 2)]);
    assert!(cache.is_empty());
    assert_eq!(cache.debug_string(), "{}");
}

#[test]
fn missing_keys_change_nothing() {
    let mut cache = LruCache::new(3);
    cache.insert(1, 10);
    cache.insert(2, 20);
    assert_eq!(cache.get(&9), None);
    assert_eq!(cache.get_mut(&9), None);
    assert_eq!(cache.remove(&9), None);
    assert_eq!(cache.len(), 2);
    assert_eq!(cache.debug_string(), "{2: 20, 1: 10}");
}

#[test]
fn contains_key_is_no_use() {
    let mut cache = LruCache::new(2);
    cache.insert(1, 10);
    cache.insert(2, 20);
    assert!(cache.contains_key(&1));
    cache.insert(3, 30);
    assert!(!cache.contains_key(&1));
    assert!(cache.contains_key(&2));
}

#[test]
fn get_mut_writes_and_refreshes() {
    let mut cache = LruCache::new(2);
    cache.insert(1, 10);
    cache.insert(2, 20);
    *cache.get_mut(&1).unwrap() += 5;
    assert_eq!(cache.debug_string(), "{1: 15, 2: 20}");
    cache.insert(3, 30);
    assert_eq!(cache.debug_string(), "{3: 30, 1: 15}");
}

#[test]
fn clear_keeps_the_bound() {
    let mut cache = LruCache::new(2);
    assert!(cache.is_empty());
    cache.insert(1, 10);
    assert!(!cache.is_empty());
    cache.clear();
    assert!(cache.is_empty());
    assert_eq!(cache.len(), 0);
    assert_eq!(cache.capacity(), 2);
    cache.insert(1, 10);
    cache.insert(2, 20);
    cache.insert(3, 30);
    assert_eq!(cache.len(), 2);
}

#[test]
fn extend_is_insert_pair_by_pair() {
    let pairs = vec![(1, 10), (2, 20), (1, 11), (3, 30), (4, 40), (2, 21)];
    let mut one = LruCache::new(3);
    one.extend(pairs.clone());
    let mut other = LruCache::new(3);
    for (k, v) in pairs {
        other.insert(k, v);
    }
    assert_eq!(one.debug_string(), "{2: 21, 4: 40, 3: 30}");
    assert_eq!(one.debug_string(), other.debug_string());
}

#[test]
fn clone_is_a_cache_of_its_own() {
    let mut cache = LruCache::new(2);
    cache.insert(1, 10);
    cache.insert(2, 20);
    let mut copy = cache.clone();
    assert_eq!(copy.debug_string(), "{2: 20, 1: 10}");
    assert_eq!(copy.capacity(), 2);
    copy.insert(3, 30);
    assert_eq!(copy.debug_string(), "{3: 30, 2: 20}");
    assert_eq!(cache.debug_string(), "{2: 20, 1: 10}");
}

#[test]
fn text_of_small_and_large_numbers() {
    let mut cache = LruCache::new(4);
    cache.insert(0, 0);
    cache.insert(9, 10);
    cache.insert(100, 909);
    cache.insert(u64::MAX, 1234567890);
    assert_eq!(
        cache.debug_string(),
        "{18446744073709551615: 1234567890, 100: 909, 9: 10, 0: 0}"
    );
    assert_eq!(
        cache.debug_string(),
        format!("{{{:?}: {:?}, 100: 909, 9: 10, 0: 0}}", u64::MAX, 1234567890u64)
    );
}
