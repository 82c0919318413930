use ippan::cache_system::{AdvancedCacheSystem, CacheConfig, CachePriority, EvictionPolicy, GetOutcome};

fn put(cache: &mut AdvancedCacheSystem, key: &str, value: &str, ttl: Option<u64>, tags: Vec<String>, p: CachePriority, now: i64) {
    let bytes = bincode::serialize(&value.to_string()).unwrap();
    cache.set(key, &bytes, ttl, tags, p, now).unwrap();
}

fn fetch(cache: &mut AdvancedCacheSystem, key: &str, now: i64) -> Option<String> {
    match cache.get(key, now).unwrap() {
        GetOutcome::Hit(bytes) => Some(bincode::deserialize(&bytes).unwrap()),
        GetOutcome::Miss | GetOutcome::Expired => None,
    }
}

#[test]
fn test_cache_creation() {
    let config = CacheConfig {
        max_size_bytes: 1024 * 1024,
        max_entries: 1000,
        default_ttl_seconds: 3600,
        cleanup_interval_seconds: 300,
        eviction_policy: EvictionPolicy::LRU,
        enable_compression: true,
        enable_encryption: false,
        enable_statistics: true,
        enable_metrics: true,
    };

    let cache = AdvancedCacheSystem::new(config);
    assert_eq!(cache.size(), 0);
    assert!(cache.is_empty());
}

#[test]
fn test_cache_set_get() {
    let mut cache = AdvancedCacheSystem::default();

    put(&mut cache, "test_key", "test_value", None, vec![], CachePriority::Normal, 0);

    let value = fetch(&mut cache, "test_key", 0);
    assert_eq!(value, Some("test_value".to_string()));

    assert_eq!(cache.size(), 1);
    assert!(!cache.is_empty());
}

#[test]
fn test_cache_remove() {
    let mut cache = AdvancedCacheSystem::default();

    put(&mut cache, "test_key", "test_value", None, vec![], CachePriority::Normal, 0);
    assert_eq!(cache.size(), 1);

    let removed = cache.remove("test_key");
    assert!(removed);
    assert_eq!(cache.size(), 0);

    let removed = cache.remove("non_existent");
    assert!(!removed);
}

#[test]
fn test_cache_clear() {
    let mut cache = AdvancedCacheSystem::default();

    put(&mut cache, "key1", "value1", None, vec![], CachePriority::Normal, 0);
    put(&mut cache, "key2", "value2", None, vec![], CachePriority::Normal, 0);
    assert_eq!(cache.size(), 2);

    cache.clear();
    assert_eq!(cache.size(), 0);
    assert!(cache.is_empty());
}

#[test]
fn test_cache_ttl() {
    let mut cache = AdvancedCacheSystem::default();

    put(&mut cache, "test_key", "test_value", Some(1), vec![], CachePriority::Normal, 0);

    let value = fetch(&mut cache, "test_key", 0);
    assert_eq!(value, Some("test_value".to_string()));

    let value = fetch(&mut cache, "test_key", 2000);
    assert_eq!(value, None);
}

#[test]
fn test_cache_tags() {
    let mut cache = AdvancedCacheSystem::default();

    put(&mut cache, "key1", "value1", None, vec!["tag1".to_string()], CachePriority::Normal, 0);
    put(&mut cache, "key2", "value2", None, vec!["tag1".to_string(), "tag2".to_string()], CachePriority::Normal, 0);
    put(&mut cache, "key3", "value3", None, vec!["tag2".to_string()], CachePriority::Normal, 0);

    let tag1_entries = cache.get_by_tag("tag1");
    assert_eq!(tag1_entries.len(), 2);
    assert!(tag1_entries.contains(&"key1".to_string()));
    assert!(tag1_entries.contains(&"key2".to_string()));

    let tag2_entries = cache.get_by_tag("tag2");
    assert_eq!(tag2_entries.len(), 2);
    assert!(tag2_entries.contains(&"key2".to_string()));
    assert!(tag2_entries.contains(&"key3".to_string()));
}

#[test]
fn test_cache_priority() {
    let mut cache = AdvancedCacheSystem::default();

    put(&mut cache, "key1", "value1", None, vec![], CachePriority::Low, 0);
    put(&mut cache, "key2", "value2", None, vec![], CachePriority::Normal, 0);
    put(&mut cache, "key3", "value3", None, vec![], CachePriority::High, 0);
    put(&mut cache, "key4", "value4", None, vec![], CachePriority::Critical, 0);

    let low_entries = cache.get_by_priority(&CachePriority::Low);
    assert_eq!(low_entries.len(), 1);
    assert!(low_entries.contains(&"key1".to_string()));

    let normal_entries = cache.get_by_priority(&CachePriority::Normal);
    assert_eq!(normal_entries.len(), 1);
    assert!(normal_entries.contains(&"key2".to_string()));

    let high_entries = cache.get_by_priority(&CachePriority::High);
    assert_eq!(high_entries.len(), 1);
    assert!(high_entries.contains(&"key3".to_string()));

    let critical_entries = cache.get_by_priority(&CachePriority::Critical);
    assert_eq!(critical_entries.len(), 1);
    assert!(critical_entries.contains(&"key4".to_string()));
}

#[test]
fn test_cache_stats() {
    let mut cache = AdvancedCacheSystem::default();

    put(&mut cache, "key1", "value1", None, vec![], CachePriority::Normal, 0);
    put(&mut cache, "key2", "value2", None, vec![], CachePriority::Normal, 0);

    let _ = fetch(&mut cache, "key1", 0);
    let _ = fetch(&mut cache, "key2", 0);
    let _ = fetch(&mut cache, "non_existent", 0);

    let stats = cache.get_stats();
    assert_eq!(stats.total_entries, 2);
    assert_eq!(stats.hit_count, 2);
    assert_eq!(stats.miss_count, 1);
    let hit_rate = stats.hit_count as f64 / (stats.hit_count + stats.miss_count) as f64;
    assert!(hit_rate > 0.0);
}

#[test]
fn test_cache_metrics() {
    let mut cache = AdvancedCacheSystem::default();

    put(&mut cache, "key1", "value1", None, vec![], CachePriority::Normal, 0);
    cache.record_operation(1);
    let _ = fetch(&mut cache, "key1", 0);
    cache.record_operation(1);

    let metrics = cache.get_metrics();
    assert_eq!(metrics.operation_count, 2);
    let average = metrics.total_operation_time_ms as f64 / metrics.operation_count as f64;
    assert!(average > 0.0);
}

#[test]
fn values_round_trip_through_compression_and_tags_invalidate() {
    let mut cache = AdvancedCacheSystem::default();
    let big = vec![7u8; 5000];
    cache.set("big", &big, None, vec!["t".to_string()], CachePriority::High, 0).unwrap();
    match cache.get("big", 10).unwrap() {
        GetOutcome::Hit(v) => assert_eq!(v, big),
        _ => panic!("expected a hit"),
    }
    cache.set("other", b"x", None, vec!["t".to_string()], CachePriority::Low, 0).unwrap();
    assert_eq!(cache.invalidate_by_tag("t"), 2);
    assert!(cache.is_empty());
    assert!(matches!(cache.get("big", 10).unwrap(), GetOutcome::Miss));
}

#[test]
fn full_cache_evicts_least_recently_used() {
    let config = CacheConfig {
        max_size_bytes: 1 << 30,
        max_entries: 2,
        default_ttl_seconds: 3600,
        cleanup_interval_seconds: 300,
        eviction_policy: EvictionPolicy::LRU,
        enable_compression: false,
        enable_encryption: false,
        enable_statistics: true,
        enable_metrics: true,
    };
    let mut cache = AdvancedCacheSystem::new(config);
    cache.set("a", b"1", None, vec![], CachePriority::Normal, 0).unwrap();
    cache.set("b", b"2", None, vec![], CachePriority::Normal, 1).unwrap();
    let _ = cache.get("a", 2).unwrap();
    cache.set("c", b"3", None, vec![], CachePriority::Normal, 3).unwrap();
    assert!(cache.contains("a"));
    assert!(!cache.contains("b"));
    assert!(cache.contains("c"));
    assert_eq!(cache.get_stats().eviction_count, 1);
}
