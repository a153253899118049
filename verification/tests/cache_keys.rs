use torrent_search_client::fingerprint::CacheKey;
use torrent_search_client::options::{Category, MovieOptions, Order, ProviderSet, SearchOptions, SortColumn};

#[test]
fn cache_test_cache_key_generation() {
    let search_options = SearchOptions::new(
        "test movie".to_string(),
        Category::Video,
        SortColumn::Seeders,
        Order::Descending,
    );
    let providers = ProviderSet::empty();

    let key1 = CacheKey::from_search(&search_options, &providers);
    let key2 = CacheKey::from_search(&search_options, &providers);

    assert_eq!(key1, key2);

    // Different query should produce different key
    let search_options2 = SearchOptions::new(
        "different movie".to_string(),
        Category::Video,
        SortColumn::Seeders,
        Order::Descending,
    );
    let key3 = CacheKey::from_search(&search_options2, &providers);

    assert_ne!(key1, key3);
}

#[test]
fn tests_test_cache_key_generation() {
    let search_options = SearchOptions::new(
        "test movie".to_string(),
        Category::Video,
        SortColumn::Seeders,
        Order::Descending,
    );
    let providers = ProviderSet::empty();

    let key1 = CacheKey::from_search(&search_options, &providers);
    let key2 = CacheKey::from_search(&search_options, &providers);

    assert_eq!(key1, key2);
}

#[test]
fn key_is_hex_digest_of_fixed_length() {
    let search_options = SearchOptions::new(
        "test movie".to_string(),
        Category::Video,
        SortColumn::Seeders,
        Order::Descending,
    );
    let key = CacheKey::from_search(&search_options, &ProviderSet::empty());
    match key {
        CacheKey::Search(h) => {
            assert_eq!(h.len(), 64);
            assert!(h.chars().all(|c| c.is_ascii_hexdigit() && !c.is_ascii_uppercase()));
        }
        CacheKey::MovieSearch(_) => panic!("a plain search must yield a search key"),
    }
}

#[test]
fn differing_fields_change_the_key() {
    let base = SearchOptions::new(
        "test movie".to_string(),
        Category::Video,
        SortColumn::Seeders,
        Order::Descending,
    );
    let providers = ProviderSet::empty();
    let key = CacheKey::from_search(&base, &providers);

    let other_category = SearchOptions::new(
        "test movie".to_string(),
        Category::Audio,
        SortColumn::Seeders,
        Order::Descending,
    );
    assert_ne!(key, CacheKey::from_search(&other_category, &providers));

    let other_sort = SearchOptions::new(
        "test movie".to_string(),
        Category::Video,
        SortColumn::Size,
        Order::Descending,
    );
    assert_ne!(key, CacheKey::from_search(&other_sort, &providers));

    let other_order = SearchOptions::new(
        "test movie".to_string(),
        Category::Video,
        SortColumn::Seeders,
        Order::Ascending,
    );
    assert_ne!(key, CacheKey::from_search(&other_order, &providers));

    let other_providers = ProviderSet::all();
    assert_ne!(key, CacheKey::from_search(&base, &other_providers));
}

#[test]
fn movie_keys_are_separate_from_search_keys() {
    let search_options = SearchOptions::new(
        "tt0111161".to_string(),
        Category::Video,
        SortColumn::Seeders,
        Order::Descending,
    );
    let movie_options = MovieOptions::new(
        "tt0111161".to_string(),
        None,
        SortColumn::Seeders,
        Order::Descending,
    );
    let providers = ProviderSet::all();
    let search_key = CacheKey::from_search(&search_options, &providers);
    let movie_key = CacheKey::from_movie_search(&movie_options, &providers);
    assert_ne!(search_key, movie_key);
}

#[test]
fn movie_title_changes_the_key() {
    let providers = ProviderSet::all();
    let without_title = MovieOptions::new(
        "tt0111161".to_string(),
        None,
        SortColumn::Seeders,
        Order::Descending,
    );
    let with_title = MovieOptions::new(
        "tt0111161".to_string(),
        Some("The Shawshank Redemption".to_string()),
        SortColumn::Seeders,
        Order::Descending,
    );
    let key1 = CacheKey::from_movie_search(&without_title, &providers);
    let key2 = CacheKey::from_movie_search(&with_title, &providers);
    assert_eq!(key1, CacheKey::from_movie_search(&without_title, &providers));
    assert_ne!(key1, key2);
}
