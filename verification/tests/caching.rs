use ippan::caching::{
    BlockData, CacheManager, ConfigData, HighPerformanceCache, MultiLevelCache, TimeBasedCache,
    TransactionData, ValidatorData,
};

#[test]
fn test_high_performance_cache() {
    let mut cache = HighPerformanceCache::new(3);
    cache.insert("key1", "value1", 1);
    cache.insert("key2", "value2", 2);
    cache.insert("key3", "value3", 3);

    assert_eq!(cache.get(&"key1", 4), Some("value1"));
    assert_eq!(cache.get(&"key2", 5), Some("value2"));
    assert_eq!(cache.get(&"key3", 6), Some("value3"));

    cache.insert("key4", "value4", 7);
    assert_eq!(cache.get(&"key1", 8), None);
    assert_eq!(cache.get(&"key4", 9), Some("value4"));

    let stats = cache.get_stats();
    assert!(stats.hit_count > 0);
}

#[test]
fn test_time_based_cache() {
    let mut cache = TimeBasedCache::new(10, 100);
    cache.insert("key1", "value1", 1_000);
    assert_eq!(cache.get(&"key1", 1_010), Some("value1"));
    assert_eq!(cache.get(&"key1", 1_150), None);
}

#[test]
fn test_multi_level_cache() {
    let mut cache = MultiLevelCache::new(2, 4);
    cache.insert("key1", "value1", 1);
    cache.insert("key2", "value2", 2);
    cache.insert("key3", "value3", 3);

    assert_eq!(cache.get(&"key1", 4), Some("value1"));
    assert_eq!(cache.get(&"key2", 5), Some("value2"));
    assert_eq!(cache.get(&"key3", 6), Some("value3"));

    cache.insert("key4", "value4", 7);
    assert_eq!(cache.get(&"key1", 8), Some("value1"));
}

#[test]
fn test_cache_manager() {
    let mut manager = CacheManager::new();

    let block_data = BlockData { block: vec![1, 2, 3], timestamp: 1234567890 };
    let block_hash = [1u8; 32];
    manager.cache_block(block_hash, block_data.clone(), 1);
    assert_eq!(manager.get_block(&block_hash, 2), Some(block_data));

    let tx_data = TransactionData { transaction: vec![4, 5, 6], timestamp: 1234567890 };
    let tx_hash = [2u8; 32];
    manager.cache_transaction(tx_hash, tx_data.clone(), 3);
    assert_eq!(manager.get_transaction(&tx_hash, 4), Some(tx_data));

    let validator_data = ValidatorData { validator: vec![7, 8, 9], stake: 1000 };
    let validator_id = [3u8; 32];
    manager.cache_validator(validator_id, validator_data.clone(), 5);
    assert_eq!(manager.get_validator(&validator_id, 6), Some(validator_data));

    let config_data = ConfigData { config: vec![10, 11, 12], version: 1 };
    manager.cache_config("test_config".to_string(), config_data.clone(), 7);
    assert_eq!(manager.get_config("test_config", 8), Some(config_data));
}

#[test]
fn lru_cache_stays_within_capacity() {
    let mut cache = HighPerformanceCache::new(2);
    cache.insert("a", 1, 0);
    cache.insert("a", 2, 0);
    cache.insert("b", 3, 0);
    assert_eq!(cache.get_stats().size, 2);
    // The least recently used key, a, goes first.
    cache.insert("c", 4, 0);
    assert_eq!(cache.get(&"a", 0), None);
    assert_eq!(cache.get_stats().size, 2);
    cache.insert("d", 5, 0);
    assert_eq!(cache.get_stats().size, 2);
    assert_eq!(cache.get_stats().eviction_count, 2);
    assert_eq!(cache.get(&"b", 0), None);
    assert_eq!(cache.get(&"c", 0), Some(4));
    assert_eq!(cache.get(&"d", 0), Some(5));
}

#[test]
fn lru_read_protects_a_key_from_eviction() {
    let mut cache = HighPerformanceCache::new(2);
    cache.insert("a", 1, 0);
    cache.insert("b", 2, 0);
    assert_eq!(cache.get(&"a", 1), Some(1));
    cache.insert("c", 3, 2);
    assert_eq!(cache.get(&"b", 3), None);
    assert_eq!(cache.get(&"a", 3), Some(1));
    assert_eq!(cache.get(&"c", 3), Some(3));
}

#[test]
fn lru_remove_clear_and_hit_rate() {
    let mut cache = HighPerformanceCache::new(4);
    cache.insert("x".to_string(), vec![1u8], 0);
    assert_eq!(cache.get_stats().hit_rate, 0);
    assert_eq!(cache.get(&"x".to_string(), 1), Some(vec![1u8]));
    assert_eq!(cache.get(&"y".to_string(), 1), None);
    assert_eq!(cache.get(&"y".to_string(), 1), None);
    let s = cache.get_stats();
    assert_eq!((s.hit_count, s.miss_count, s.hit_rate), (1, 2, 3333));
    assert_eq!(cache.remove(&"x".to_string()), Some(vec![1u8]));
    assert_eq!(cache.remove(&"x".to_string()), None);
    cache.insert("z".to_string(), vec![], 2);
    cache.clear();
    assert_eq!(cache.get_stats().size, 0);
    assert_eq!(cache.get_stats().hit_count, 1);
}

#[test]
fn time_based_cache_cleanup_and_custom_ttl() {
    let mut cache = TimeBasedCache::new(10, 1_000);
    cache.insert("short", 1, 0);
    cache.insert_with_ttl("long", 2, 10_000, 0);
    cache.cleanup_expired(999);
    assert_eq!(cache.get_stats().size, 2);
    cache.cleanup_expired(1_000);
    assert_eq!(cache.get_stats().size, 1);
    assert_eq!(cache.get(&"short", 1_000), None);
    assert_eq!(cache.get(&"long", 9_999), Some(2));
    assert_eq!(cache.get(&"long", 10_000), None);
    assert_eq!(cache.get_stats().size, 0);
}

#[test]
fn multi_level_cache_remove_and_stats() {
    let mut cache = MultiLevelCache::new(1, 3);
    cache.insert("a", 1, 0);
    cache.insert("b", 2, 0);
    assert_eq!(cache.get(&"a", 1), Some(1));
    let s = cache.get_stats();
    assert_eq!(s.l1_stats.miss_count, 1);
    assert_eq!(s.l2_stats.hit_count, 1);
    assert_eq!(s.total_hit_count, 1);
    assert_eq!(cache.remove(&"a"), Some(1));
    assert_eq!(cache.get(&"a", 2), None);
    cache.clear();
    assert_eq!(cache.get(&"b", 3), None);
}
