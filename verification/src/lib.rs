//! A result cache with in-flight request coalescing for multi-provider
//! torrent searches: fingerprinting of query parameters, a TTL- and
//! capacity-bounded result cache, and a registry that merges concurrent
//! identical requests into a single upstream execution.
//!
//! The client here carries the cache-side halves of a search: the lookup
//! that fixes the provider set, computes the fingerprint and consults the
//! cache, and the write-back that stores fetched results. The fetch itself is
//! I/O and is supplied by the surrounding runtime.

use vstd::prelude::*;

pub mod options;
pub mod fingerprint;
mod clock;
pub mod store;
pub mod cache;
pub mod dedup;

pub use crate::cache::{CacheConfig, CacheStats, CachedResult, SearchCache};
use crate::cache::lookup_decided_at;
pub use crate::dedup::{
    DeduplicationConfig, DeduplicationError, DeduplicationStats, RequestDeduplicator,
};
pub use crate::fingerprint::CacheKey;
pub use crate::options::{
    Category, MovieOptions, Order, Provider, ProviderResponse, ProviderSet, SearchOptions,
    SortColumn,
};
use crate::fingerprint::{movie_fingerprint, search_fingerprint};

verus! {

/// The provider set a search actually targets: the requested set, or every
/// provider when none was requested.
pub open spec fn spec_effective_providers(p: ProviderSet) -> ProviderSet {
    if !p.piratebay && !p.bitsearch && !p.yts {
        ProviderSet { piratebay: true, bitsearch: true, yts: true }
    } else {
        p
    }
}

/// The provider set a search actually targets: the requested set, or every
/// provider when none was requested.
pub fn effective_providers(providers: &ProviderSet) -> (r: ProviderSet)
    ensures
        r == spec_effective_providers(*providers),
{
    if providers.is_empty() {
        ProviderSet::all()
    } else {
        *providers
    }
}

/// What the cache-side half of a search decided: the query was empty and the
/// result is the empty list; the cache held a valid entry, returned as is; or
/// the caller must fetch and then write the result back under the key.
pub enum SearchLookup {
    EmptyQuery,
    Hit(Vec<ProviderResponse>),
    Miss(CacheKey),
}

/// The search client: an optional result cache around the provider fetches
/// that the surrounding runtime performs.
pub struct TorrentClient {
    pub cache: Option<SearchCache>,
}

impl TorrentClient {
    /// Well-formedness of the cache, if one is configured.
    pub open spec fn wf(self) -> bool {
        match self.cache {
            Some(c) => c.wf(),
            None => true,
        }
    }

    /// Create a new client with caching disabled entirely.
    pub fn new() -> (r: Self)
        ensures
            r.wf(),
            r.cache is None,
    {
        TorrentClient { cache: None }
    }

    /// Create a new client with caching enabled under the given
    /// configuration.
    pub fn with_cache(cache_config: CacheConfig) -> (r: Self)
        ensures
            r.wf(),
            (match r.cache {
                Some(c) => c.config == cache_config && c.entries()
                    == crate::cache::empty_entries(),
                None => false,
            }),
    {
        TorrentClient { cache: Some(SearchCache::new(cache_config)) }
    }

    /// The cache-side first half of a plain search: an empty query
    /// short-circuits to the empty result; otherwise the effective provider
    /// set is fixed, the fingerprint computed, and the cache consulted.
    pub fn search_lookup(&mut self, search_options: &SearchOptions, providers: &ProviderSet) -> (r:
        SearchLookup)
        requires
            old(self).wf(),
        ensures
            final(self).wf(),
            (match final(self).cache {
                Some(c) => old(self).cache is Some && c.config == old(self).cache->Some_0.config
                    && forall|k: (bool, Seq<char>)|
                    #[trigger] c.entries().dom().contains(k) ==> old(
                        self,
                    ).cache->Some_0.entries().dom().contains(k) && c.entries()[k] == old(
                        self,
                    ).cache->Some_0.entries()[k],
                None => old(self).cache is None,
            }),
            (r is EmptyQuery) <==> search_options.spec_query().len() == 0,
            (match r {
                SearchLookup::EmptyQuery => *final(self) == *old(self),
                SearchLookup::Hit(d) => old(self).cache is Some && final(self).cache is Some
                    && old(self).cache->Some_0.config.enabled && {
                    let key = (
                        false,
                        search_fingerprint(
                            search_options.spec_query(),
                            search_options.spec_category(),
                            search_options.spec_sort(),
                            search_options.spec_order(),
                            spec_effective_providers(*providers),
                        ),
                    );
                    old(self).cache->Some_0.entries().dom().contains(key) && d@ == old(
                        self,
                    ).cache->Some_0.entries()[key].data && exists|t: i64|
                        lookup_decided_at(
                            old(self).cache->Some_0.entries(),
                            final(self).cache->Some_0.entries(),
                            key,
                            Some(d),
                            t,
                        )
                },
                SearchLookup::Miss(k) => k@ == (
                    false,
                    search_fingerprint(
                        search_options.spec_query(),
                        search_options.spec_category(),
                        search_options.spec_sort(),
                        search_options.spec_order(),
                        spec_effective_providers(*providers),
                    ),
                ) && (old(self).cache is Some && old(self).cache->Some_0.config.enabled
                    ==> final(self).cache is Some && exists|t: i64|
                    lookup_decided_at(
                        old(self).cache->Some_0.entries(),
                        final(self).cache->Some_0.entries(),
                        k@,
                        None::<Vec<ProviderResponse>>,
                        t,
                    )),
            }),
    {
        if search_options.query().as_str().unicode_len() == 0 {
            return SearchLookup::EmptyQuery;
        }
        let effective = effective_providers(providers);
        let cache_key = CacheKey::from_search(search_options, &effective);
        let ghost key_v = cache_key@;
        match &mut self.cache {
            Some(c) => {
                let r0 = c.get(&cache_key);
                proof {
                    if old(self).cache->Some_0.config.enabled {
                        let t0 = choose|t: i64|
                            lookup_decided_at(
                                old(self).cache->Some_0.entries(),
                                self.cache->Some_0.entries(),
                                key_v,
                                r0,
                                t,
                            );
                        if r0 is Some {
                            assert(lookup_decided_at(
                                old(self).cache->Some_0.entries(),
                                self.cache->Some_0.entries(),
                                key_v,
                                Some(r0->Some_0),
                                t0,
                            ));
                        } else {
                            assert(lookup_decided_at(
                                old(self).cache->Some_0.entries(),
                                self.cache->Some_0.entries(),
                                key_v,
                                None::<Vec<ProviderResponse>>,
                                t0,
                            ));
                        }
                    }
                }
                match r0 {
                    Some(cached) => SearchLookup::Hit(cached),
                    None => SearchLookup::Miss(cache_key),
                }
            },
            None => SearchLookup::Miss(cache_key),
        }
    }

    /// The write-back half of a plain search: store a fetched result under
    /// its key with the configured search time-to-live.
    pub fn search_store(&mut self, key: CacheKey, results: Vec<ProviderResponse>)
        requires
            old(self).wf(),
        ensures
            final(self).wf(),
            old(self).cache is None ==> *final(self) == *old(self),
            (match final(self).cache {
                Some(c) => old(self).cache is Some && c.config == old(self).cache->Some_0.config
                    && (c.config.enabled ==> c.entries().dom().contains(key@)
                    && c.entries()[key@].data == results@ && c.entries()[key@].ttl
                    == c.config.search_ttl),
                None => old(self).cache is None,
            }),
    {
        match &mut self.cache {
            Some(c) => {
                let ttl = c.config.search_ttl;
                c.put(key, results, ttl);
            },
            None => {},
        }
    }

    /// The cache-side first half of a movie search: an empty identifier
    /// short-circuits to the empty result; otherwise the effective provider
    /// set is fixed, the fingerprint computed, and the cache consulted.
    pub fn search_movie_lookup(&mut self, movie_options: &MovieOptions, providers: &ProviderSet) -> (
        r: SearchLookup)
        requires
            old(self).wf(),
        ensures
            final(self).wf(),
            (match final(self).cache {
                Some(c) => old(self).cache is Some && c.config == old(self).cache->Some_0.config
                    && forall|k: (bool, Seq<char>)|
                    #[trigger] c.entries().dom().contains(k) ==> old(
                        self,
                    ).cache->Some_0.entries().dom().contains(k) && c.entries()[k] == old(
                        self,
                    ).cache->Some_0.entries()[k],
                None => old(self).cache is None,
            }),
            (r is EmptyQuery) <==> movie_options.spec_imdb().len() == 0,
            (match r {
                SearchLookup::EmptyQuery => *final(self) == *old(self),
                SearchLookup::Hit(d) => old(self).cache is Some && final(self).cache is Some
                    && old(self).cache->Some_0.config.enabled && {
                    let key = (
                        true,
                        movie_fingerprint(
                            movie_options.spec_imdb(),
                            movie_options.spec_title(),
                            movie_options.spec_sort(),
                            movie_options.spec_order(),
                            spec_effective_providers(*providers),
                        ),
                    );
                    old(self).cache->Some_0.entries().dom().contains(key) && d@ == old(
                        self,
                    ).cache->Some_0.entries()[key].data && exists|t: i64|
                        lookup_decided_at(
                            old(self).cache->Some_0.entries(),
                            final(self).cache->Some_0.entries(),
                            key,
                            Some(d),
                            t,
                        )
                },
                SearchLookup::Miss(k) => k@ == (
                    true,
                    movie_fingerprint(
                        movie_options.spec_imdb(),
                        movie_options.spec_title(),
                        movie_options.spec_sort(),
                        movie_options.spec_order(),
                        spec_effective_providers(*providers),
                    ),
                ) && (old(self).cache is Some && old(self).cache->Some_0.config.enabled
                    ==> final(self).cache is Some && exists|t: i64|
                    lookup_decided_at(
                        old(self).cache->Some_0.entries(),
                        final(self).cache->Some_0.entries(),
                        k@,
                        None::<Vec<ProviderResponse>>,
                        t,
                    )),
            }),
    {
        if movie_options.imdb().as_str().unicode_len() == 0 {
            return SearchLookup::EmptyQuery;
        }
        let effective = effective_providers(providers);
        let cache_key = CacheKey::from_movie_search(movie_options, &effective);
        let ghost key_v = cache_key@;
        match &mut self.cache {
            Some(c) => {
                let r0 = c.get(&cache_key);
                proof {
                    if old(self).cache->Some_0.config.enabled {
                        let t0 = choose|t: i64|
                            lookup_decided_at(
                                old(self).cache->Some_0.entries(),
                                self.cache->Some_0.entries(),
                                key_v,
                                r0,
                                t,
                            );
                        if r0 is Some {
                            assert(lookup_decided_at(
                                old(self).cache->Some_0.entries(),
                                self.cache->Some_0.entries(),
                                key_v,
                                Some(r0->Some_0),
                                t0,
                            ));
                        } else {
                            assert(lookup_decided_at(
                                old(self).cache->Some_0.entries(),
                                self.cache->Some_0.entries(),
                                key_v,
                                None::<Vec<ProviderResponse>>,
                                t0,
                            ));
                        }
                    }
                }
                match r0 {
                    Some(cached) => SearchLookup::Hit(cached),
                    None => SearchLookup::Miss(cache_key),
                }
            },
            None => SearchLookup::Miss(cache_key),
        }
    }

    /// The write-back half of a movie search: store a fetched result under
    /// its key with the configured movie-search time-to-live.
    pub fn search_movie_store(&mut self, key: CacheKey, results: Vec<ProviderResponse>)
        requires
            old(self).wf(),
        ensures
            final(self).wf(),
            old(self).cache is None ==> *final(self) == *old(self),
            (match final(self).cache {
                Some(c) => old(self).cache is Some && c.config == old(self).cache->Some_0.config
                    && (c.config.enabled ==> c.entries().dom().contains(key@)
                    && c.entries()[key@].data == results@ && c.entries()[key@].ttl
                    == c.config.movie_search_ttl),
                None => old(self).cache is None,
            }),
    {
        match &mut self.cache {
            Some(c) => {
                let ttl = c.config.movie_search_ttl;
                c.put(key, results, ttl);
            },
            None => {},
        }
    }

    /// Get cache statistics if caching is enabled.
    pub fn cache_stats(&self) -> (r: Option<CacheStats>)
        requires
            self.wf(),
        ensures
            (r is Some) <==> (self.cache is Some),
            (match r {
                Some(stats) => stats.total_entries == self.cache->Some_0.entries().dom().len()
                    && stats.max_entries == self.cache->Some_0.config.max_entries
                    && stats.expired_entries == stats.total_entries - stats.valid_entries,
                None => true,
            }),
    {
        match &self.cache {
            Some(c) => Some(c.stats()),
            None => None,
        }
    }

    /// Clear the cache if caching is enabled.
    pub fn clear_cache(&mut self)
        requires
            old(self).wf(),
        ensures
            final(self).wf(),
            old(self).cache is None ==> *final(self) == *old(self),
            (match final(self).cache {
                Some(c) => old(self).cache is Some && c.config == old(self).cache->Some_0.config
                    && c.entries() == crate::cache::empty_entries(),
                None => old(self).cache is None,
            }),
    {
        match &mut self.cache {
            Some(c) => c.clear(),
            None => {},
        }
    }

    /// Evict expired cache entries if caching is enabled: what stays was
    /// already cached, unchanged.
    pub fn evict_expired_cache(&mut self)
        requires
            old(self).wf(),
        ensures
            final(self).wf(),
            old(self).cache is None ==> *final(self) == *old(self),
            (match final(self).cache {
                Some(c) => old(self).cache is Some && c.config == old(self).cache->Some_0.config
                    && forall|k: (bool, Seq<char>)|
                    #[trigger] c.entries().dom().contains(k) ==> old(
                        self,
                    ).cache->Some_0.entries().dom().contains(k) && c.entries()[k] == old(
                        self,
                    ).cache->Some_0.entries()[k],
                None => old(self).cache is None,
            }),
    {
        match &mut self.cache {
            Some(c) => c.evict_expired(),
            None => {},
        }
    }
}

/// The administrative view of cache statistics: the snapshot, if caching is
/// enabled, and the enabled flag itself.
pub struct CacheStatsResponse {
    pub cache_stats: Option<CacheStats>,
    pub cache_enabled: bool,
}

impl CacheStatsResponse {
    /// Caching counts as enabled exactly when a statistics snapshot exists.
    pub fn from_stats(cache_stats: Option<CacheStats>) -> (r: Self)
        ensures
            r.cache_stats == cache_stats,
            r.cache_enabled == (cache_stats is Some),
    {
        let cache_enabled = cache_stats.is_some();
        CacheStatsResponse { cache_stats, cache_enabled }
    }
}

impl Default for TorrentClient {
    /// A client with caching disabled, as `new` builds it.
    fn default() -> (r: Self)
        ensures
            r.wf(),
            r.cache is None,
    {
        TorrentClient::new()
    }
}

/// Cache determinism at the lookup: logically identical queries, including
/// provider sets that come to the same effective set, consult the cache
/// under one and the same fingerprint.
pub proof fn lemma_lookup_key_deterministic(
    o1: SearchOptions,
    o2: SearchOptions,
    p1: ProviderSet,
    p2: ProviderSet,
)
    requires
        o1.spec_query() == o2.spec_query(),
        o1.spec_category() == o2.spec_category(),
        o1.spec_sort() == o2.spec_sort(),
        o1.spec_order() == o2.spec_order(),
        spec_effective_providers(p1) == spec_effective_providers(p2),
    ensures
        search_fingerprint(
            o1.spec_query(),
            o1.spec_category(),
            o1.spec_sort(),
            o1.spec_order(),
            spec_effective_providers(p1),
        ) == search_fingerprint(
            o2.spec_query(),
            o2.spec_category(),
            o2.spec_sort(),
            o2.spec_order(),
            spec_effective_providers(p2),
        ),
{
}

} // verus!
