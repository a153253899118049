use torrent_search_client::cache::{CacheConfig, CachedResult, SearchCache};
use torrent_search_client::fingerprint::CacheKey;
use torrent_search_client::options::{Provider, ProviderResponse};

fn record(name: &str, seeders: u64) -> ProviderResponse {
    ProviderResponse {
        provider: Provider::PirateBay,
        name: name.to_string(),
        info_hash: "a94a8fe5ccb19ba61c4c0873d391e987982fbbd3".to_string(),
        seeders,
        leechers: 2,
        size_bytes: 700_000_000,
    }
}

fn key(tag: &str) -> CacheKey {
    CacheKey::Search(tag.to_string())
}

fn config(max_entries: usize, enabled: bool) -> CacheConfig {
    CacheConfig { search_ttl: 900_000, movie_search_ttl: 3_600_000, max_entries, enabled }
}

#[test]
fn test_cached_result_validity() {
    let data = vec![];
    let ttl = 1000;
    let cached = CachedResult::new(data, ttl);

    assert!(cached.is_valid());

    // Simulate expired result
    let now = chrono::Utc::now().timestamp_millis();
    let expired_cached = CachedResult { data: vec![], created_at: now - 2000, ttl: 1000 };

    assert!(!expired_cached.is_valid());
}

#[test]
fn entry_is_valid_strictly_before_created_at_plus_ttl() {
    let entry = CachedResult::new_at(vec![], 5000, 1000);
    assert!(entry.is_valid_at(1000));
    assert!(entry.is_valid_at(5999));
    assert!(!entry.is_valid_at(6000));
    assert!(!entry.is_valid_at(7000));
}

#[test]
fn ttl_window_on_the_cache() {
    let mut cache = SearchCache::new(config(100, true));
    let k = key("k1");
    cache.put_at(k.clone(), vec![record("ubuntu", 10)], 5000, 1000);

    let hit = cache.get_at(&k, 5999);
    let hit = hit.expect("an entry within its ttl must be returned");
    assert_eq!(hit.len(), 1);
    assert_eq!(hit[0].name, "ubuntu");
    assert_eq!(hit[0].seeders, 10);

    assert!(cache.get_at(&k, 6000).is_none());
    // the expired entry was removed lazily
    assert_eq!(cache.stats_at(6000).total_entries, 0);
}

#[test]
fn disabled_cache_is_a_pass_through() {
    let mut cache = SearchCache::new(config(100, false));
    let k = key("k1");
    cache.put_at(k.clone(), vec![record("ubuntu", 10)], 5000, 1000);
    assert!(cache.get_at(&k, 1001).is_none());
    assert!(cache.get(&k).is_none());

    let stats = cache.stats();
    assert_eq!(stats.total_entries, 0);
    assert_eq!(stats.valid_entries, 0);
    assert_eq!(stats.expired_entries, 0);
    assert_eq!(stats.max_entries, 100);
}

#[test]
fn capacity_eviction_drops_the_oldest_quarter() {
    let mut cache = SearchCache::new(config(4, true));
    // four distinct valid entries, oldest first
    cache.put_at(key("a"), vec![], 1_000_000, 1000);
    cache.put_at(key("b"), vec![], 1_000_000, 2000);
    cache.put_at(key("c"), vec![], 1_000_000, 3000);
    cache.put_at(key("d"), vec![], 1_000_000, 4000);
    assert_eq!(cache.stats_at(5000).total_entries, 4);

    // the triggering insert: still within every ttl, so age eviction runs
    cache.put_at(key("e"), vec![], 1_000_000, 5000);
    let stats = cache.stats_at(5000);
    assert!(stats.total_entries <= 4);
    // the oldest prior entry is gone, the newest survive
    assert!(cache.get_at(&key("a"), 5000).is_none());
    assert!(cache.get_at(&key("e"), 5000).is_some());
    assert!(cache.get_at(&key("d"), 5000).is_some());
}

#[test]
fn eviction_count_rounds_the_quarter_up() {
    // a quarter of 5 rounds up to 2: the two oldest of five valid entries go
    let mut cache = SearchCache::new(config(5, true));
    cache.put_at(key("a"), vec![], 1_000_000, 1000);
    cache.put_at(key("b"), vec![], 1_000_000, 2000);
    cache.put_at(key("c"), vec![], 1_000_000, 3000);
    cache.put_at(key("d"), vec![], 1_000_000, 4000);
    cache.put_at(key("e"), vec![], 1_000_000, 5000);
    assert_eq!(cache.stats_at(6000).total_entries, 5);

    cache.put_at(key("f"), vec![], 1_000_000, 6000);
    assert_eq!(cache.stats_at(6000).total_entries, 4);
    assert!(cache.get_at(&key("a"), 6000).is_none());
    assert!(cache.get_at(&key("b"), 6000).is_none());
    assert!(cache.get_at(&key("c"), 6000).is_some());
    assert!(cache.get_at(&key("f"), 6000).is_some());
}

#[test]
fn put_sweeps_expired_entries_before_evicting_by_age() {
    let mut cache = SearchCache::new(config(3, true));
    cache.put_at(key("a"), vec![], 100, 1000);  // expires at 1100
    cache.put_at(key("b"), vec![], 1_000_000, 2000);
    cache.put_at(key("c"), vec![], 1_000_000, 3000);
    // at capacity; "a" is expired by now, so the sweep makes room
    cache.put_at(key("d"), vec![], 1_000_000, 4000);
    let stats = cache.stats_at(4000);
    assert_eq!(stats.total_entries, 3);
    assert!(cache.get_at(&key("b"), 4000).is_some());
    assert!(cache.get_at(&key("c"), 4000).is_some());
    assert!(cache.get_at(&key("d"), 4000).is_some());
}

#[test]
fn put_overwrites_an_existing_entry() {
    let mut cache = SearchCache::new(config(10, true));
    let k = key("k1");
    cache.put_at(k.clone(), vec![record("old", 1)], 5000, 1000);
    cache.put_at(k.clone(), vec![record("new", 2)], 5000, 2000);
    let hit = cache.get_at(&k, 2001).expect("the refreshed entry must be returned");
    assert_eq!(hit[0].name, "new");
    assert_eq!(cache.stats_at(2001).total_entries, 1);
}

#[test]
fn stats_split_valid_and_expired() {
    let mut cache = SearchCache::new(config(10, true));
    cache.put_at(key("a"), vec![], 1000, 0);  // expires at 1000
    cache.put_at(key("b"), vec![], 10_000, 0);
    cache.put_at(key("c"), vec![], 10_000, 500);
    let stats = cache.stats_at(2000);
    assert_eq!(stats.total_entries, 3);
    assert_eq!(stats.valid_entries, 2);
    assert_eq!(stats.expired_entries, 1);
    assert_eq!(stats.max_entries, 10);
}

#[test]
fn clear_and_evict_are_idempotent_on_a_clean_store() {
    let mut cache = SearchCache::new(config(10, true));
    cache.evict_expired_at(1000);
    cache.clear();
    cache.evict_expired();
    cache.clear();
    assert_eq!(cache.stats().total_entries, 0);

    cache.put_at(key("a"), vec![], 10_000, 0);
    cache.evict_expired_at(5000);
    cache.evict_expired_at(5000);
    assert_eq!(cache.stats_at(5000).total_entries, 1);
    cache.evict_expired_at(20_000);
    cache.evict_expired_at(20_000);
    assert_eq!(cache.stats_at(20_000).total_entries, 0);
}

#[test]
fn expires_soon_within_a_tenth_of_the_ttl() {
    let entry = CachedResult::new_at(vec![], 10_000, 0);
    // threshold is 1000 ms; the comparison is strict
    assert!(!entry.expires_soon_at(9000));
    assert!(entry.expires_soon_at(9001));
    assert!(entry.expires_soon_at(10_500));
}

#[test]
fn default_config_values() {
    let config = CacheConfig::default();
    assert_eq!(config.search_ttl, 900_000);
    assert_eq!(config.movie_search_ttl, 3_600_000);
    assert_eq!(config.max_entries, 1000);
    assert!(config.enabled);

    let custom = CacheConfig::new(1_800_000, 1000, 300_000);
    assert_eq!(custom.search_ttl, 1_800_000);
    assert_eq!(custom.movie_search_ttl, 1_800_000);
    assert_eq!(custom.max_entries, 1000);
    assert!(custom.enabled);
}
