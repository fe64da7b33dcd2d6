use ruv_fann::{CachePriority, MemoryManager, SmartCache};

#[test]
fn test_cache_lru_eviction() {
    // budget of eight bytes: room for two one-element tensors
    let mut cache = SmartCache::new(8);
    cache.put("a".to_string(), vec![1u32], vec![1], CachePriority::Normal);
    cache.put("b".to_string(), vec![2u32], vec![1], CachePriority::Normal);
    assert_eq!(cache.entry_count(), 2);
    assert_eq!(cache.current_size(), 8);

    // inserting beyond the budget evicts the least recently used key first
    cache.put("c".to_string(), vec![3u32], vec![1], CachePriority::Normal);
    assert_eq!(cache.entry_count(), 2);
    assert!(cache.get("a").is_none());
    assert_eq!(cache.get("b").unwrap(), vec![2u32]);
    assert_eq!(cache.get("c").unwrap(), vec![3u32]);
}

#[test]
fn test_cache_access_refreshes_lru_order() {
    let mut cache = SmartCache::new(8);
    cache.put("a".to_string(), vec![1u32], vec![1], CachePriority::Normal);
    cache.put("b".to_string(), vec![2u32], vec![1], CachePriority::Normal);
    // touching "a" makes "b" the least recently used
    assert!(cache.get("a").is_some());
    cache.put("c".to_string(), vec![3u32], vec![1], CachePriority::Normal);
    assert!(cache.get("b").is_none());
    assert!(cache.get("a").is_some());
}

#[test]
fn test_cache_hit_rate_counters() {
    let mut cache = SmartCache::new(64);
    cache.put("x".to_string(), vec![7u32, 8u32], vec![2], CachePriority::High);

    // three hits and two misses
    assert!(cache.get("x").is_some());
    assert!(cache.get("x").is_some());
    assert!(cache.get("x").is_some());
    assert!(cache.get("y").is_none());
    assert!(cache.get("z").is_none());

    assert_eq!(cache.hits(), 3);
    assert_eq!(cache.misses(), 2);
    let hit_rate = cache.hits() as f64 / (cache.hits() + cache.misses()) as f64;
    assert_eq!(hit_rate, 3.0 / 5.0);
}

#[test]
fn test_cache_replacement_accounting() {
    let mut cache = SmartCache::new(1024);
    cache.put("k".to_string(), vec![1u32, 2, 3, 4], vec![4], CachePriority::Low);
    assert_eq!(cache.current_size(), 16);
    // replacing the entry subtracts the replaced bytes first
    cache.put("k".to_string(), vec![9u32], vec![1], CachePriority::Low);
    assert_eq!(cache.current_size(), 4);
    assert_eq!(cache.entry_count(), 1);
    assert_eq!(cache.get("k").unwrap(), vec![9u32]);
}

#[test]
fn test_cache_clear_resets_counters() {
    let mut cache = SmartCache::new(64);
    cache.put("k".to_string(), vec![1u32], vec![1], CachePriority::Critical);
    let _ = cache.get("k");
    let _ = cache.get("missing");
    cache.clear();
    assert_eq!(cache.entry_count(), 0);
    assert_eq!(cache.current_size(), 0);
    assert_eq!(cache.hits(), 0);
    assert_eq!(cache.misses(), 0);
}

#[test]
fn test_manager_cache_integration() {
    let mut manager = MemoryManager::new();
    // no cache yet: lookups miss silently
    assert!(manager.get_cached_tensor("t").is_none());
    assert!(manager.get_cache_stats().is_none());

    manager.enable_advanced_features(true, true, true, 1024, 2, 3);
    manager.cache_tensor("t".to_string(), vec![1u32, 2], vec![2]);
    assert_eq!(manager.get_cached_tensor("t").unwrap(), vec![1u32, 2]);
    assert!(manager.get_cached_tensor("u").is_none());

    let (hits, misses, current, entries) = manager.get_cache_stats().unwrap();
    assert_eq!(hits, 1);
    assert_eq!(misses, 1);
    assert_eq!(current, 8);
    assert_eq!(entries, 1);

    // prefetching and collection run through the same façade
    manager.record_memory_access("t");
    let recs = manager.get_prefetch_recommendations("t");
    assert!(recs.is_empty());
    manager.inc_ref("t");
    manager.dec_ref("t");
    manager.dec_ref("t");
    // the pending list is below the collection threshold of three
    let collected = manager.collect_garbage();
    assert!(collected.is_empty());
}
