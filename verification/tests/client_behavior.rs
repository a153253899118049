use torrent_search_client::cache::CacheConfig;
use torrent_search_client::options::{
    Category, MovieOptions, Order, Provider, ProviderResponse, ProviderSet, SearchOptions,
    SortColumn,
};
use torrent_search_client::{CacheStatsResponse, SearchLookup, TorrentClient};

fn options(query: &str) -> SearchOptions {
    SearchOptions::new(
        query.to_string(),
        Category::Video,
        SortColumn::Seeders,
        Order::Descending,
    )
}

fn record(name: &str) -> ProviderResponse {
    ProviderResponse {
        provider: Provider::Yts,
        name: name.to_string(),
        info_hash: "deadbeef".to_string(),
        seeders: 5,
        leechers: 1,
        size_bytes: 1_000,
    }
}

#[test]
fn empty_query_short_circuits() {
    let mut client = TorrentClient::with_cache(CacheConfig::default());
    match client.search_lookup(&options(""), &ProviderSet::all()) {
        SearchLookup::EmptyQuery => {}
        _ => panic!("an empty query must not consult cache or providers"),
    }
    let movie = MovieOptions::new(String::new(), None, SortColumn::Seeders, Order::Descending);
    match client.search_movie_lookup(&movie, &ProviderSet::all()) {
        SearchLookup::EmptyQuery => {}
        _ => panic!("an empty identifier must not consult cache or providers"),
    }
}

#[test]
fn miss_then_store_then_hit() {
    let mut client = TorrentClient::with_cache(CacheConfig::default());
    let opts = options("ubuntu");
    let providers = ProviderSet::all();

    let key = match client.search_lookup(&opts, &providers) {
        SearchLookup::Miss(key) => key,
        _ => panic!("a fresh cache must miss"),
    };
    client.search_store(key, vec![record("ubuntu-24.04.iso")]);

    match client.search_lookup(&opts, &providers) {
        SearchLookup::Hit(data) => {
            assert_eq!(data.len(), 1);
            assert_eq!(data[0].name, "ubuntu-24.04.iso");
        }
        _ => panic!("the stored result must be served from cache"),
    }
}

#[test]
fn empty_provider_set_defaults_to_all_providers() {
    let mut client = TorrentClient::with_cache(CacheConfig::default());
    let opts = options("ubuntu");

    let key = match client.search_lookup(&opts, &ProviderSet::empty()) {
        SearchLookup::Miss(key) => key,
        _ => panic!("a fresh cache must miss"),
    };
    client.search_store(key, vec![record("ubuntu-24.04.iso")]);

    // the same query against the explicit full set shares the fingerprint
    match client.search_lookup(&opts, &ProviderSet::all()) {
        SearchLookup::Hit(_) => {}
        _ => panic!("equal effective provider sets must share one cache entry"),
    }
}

#[test]
fn movie_results_are_cached_under_their_own_key() {
    let mut client = TorrentClient::with_cache(CacheConfig::default());
    let movie = MovieOptions::new(
        "tt0111161".to_string(),
        Some("The Shawshank Redemption".to_string()),
        SortColumn::Seeders,
        Order::Descending,
    );
    let providers = ProviderSet::all();

    let key = match client.search_movie_lookup(&movie, &providers) {
        SearchLookup::Miss(key) => key,
        _ => panic!("a fresh cache must miss"),
    };
    client.search_movie_store(key, vec![record("shawshank.1994.mkv")]);

    match client.search_movie_lookup(&movie, &providers) {
        SearchLookup::Hit(data) => assert_eq!(data[0].name, "shawshank.1994.mkv"),
        _ => panic!("the stored movie result must be served from cache"),
    }

    // a plain search for the same text does not see the movie entry
    match client.search_lookup(&options("tt0111161"), &providers) {
        SearchLookup::Miss(_) => {}
        _ => panic!("search kinds must not share cache entries"),
    }
}

#[test]
fn stats_clear_and_eviction_through_the_client() {
    let mut client = TorrentClient::with_cache(CacheConfig::default());
    assert_eq!(client.cache_stats().unwrap().total_entries, 0);

    let key = match client.search_lookup(&options("ubuntu"), &ProviderSet::all()) {
        SearchLookup::Miss(key) => key,
        _ => panic!("a fresh cache must miss"),
    };
    client.search_store(key, vec![record("ubuntu-24.04.iso")]);
    let stats = client.cache_stats().unwrap();
    assert_eq!(stats.total_entries, 1);
    assert_eq!(stats.max_entries, 1000);

    client.evict_expired_cache();
    assert_eq!(client.cache_stats().unwrap().total_entries, 1);

    client.clear_cache();
    assert_eq!(client.cache_stats().unwrap().total_entries, 0);
    client.clear_cache();
    assert_eq!(client.cache_stats().unwrap().total_entries, 0);
}

#[test]
fn stats_response_reports_whether_caching_is_enabled() {
    let client = TorrentClient::with_cache(CacheConfig::default());
    let response = CacheStatsResponse::from_stats(client.cache_stats());
    assert!(response.cache_enabled);
    assert_eq!(response.cache_stats.unwrap().total_entries, 0);

    let bare = TorrentClient::new();
    let response = CacheStatsResponse::from_stats(bare.cache_stats());
    assert!(!response.cache_enabled);
    assert!(response.cache_stats.is_none());
}

#[test]
fn client_without_cache_reports_none_and_always_misses() {
    let mut client = TorrentClient::new();
    assert!(client.cache_stats().is_none());

    let key = match client.search_lookup(&options("ubuntu"), &ProviderSet::all()) {
        SearchLookup::Miss(key) => key,
        _ => panic!("without a cache every lookup misses"),
    };
    client.search_store(key, vec![record("ubuntu-24.04.iso")]);
    match client.search_lookup(&options("ubuntu"), &ProviderSet::all()) {
        SearchLookup::Miss(_) => {}
        _ => panic!("without a cache nothing is stored"),
    }

    let defaulted = TorrentClient::default();
    assert!(defaulted.cache_stats().is_none());
}
