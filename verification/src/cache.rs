//! The result cache: a concurrent map from query fingerprints to timestamped
//! result sets with a per-entry time-to-live, a soft capacity bound enforced
//! at write time, and lazy expiry on read.
//!
//! Instants and durations are milliseconds; an entry is valid at `now`
//! exactly when `now < created_at + ttl`.

use vstd::prelude::*;
use vstd::set_lib::lemma_len_subset;
use crate::clock::now_millis;
use crate::fingerprint::CacheKey;
use crate::options::{clone_responses, ProviderResponse};
use dashmap::DashMap;

verus! {

/// Configuration for the cache system. Durations are in milliseconds.
#[derive(Clone, Copy, Debug)]
pub struct CacheConfig {
    /// How long to keep search results in cache.
    pub search_ttl: i64,
    /// How long to keep movie search results in cache.
    pub movie_search_ttl: i64,
    /// Maximum number of cached entries (a soft cap enforced at write time).
    pub max_entries: usize,
    /// Whether caching is enabled.
    pub enabled: bool,
}

impl Default for CacheConfig {
    /// Fifteen minutes for plain searches, one hour for movie searches, a
    /// thousand entries, enabled.
    fn default() -> (r: Self)
        ensures
            r == (CacheConfig {
                search_ttl: 900_000,
                movie_search_ttl: 3_600_000,
                max_entries: 1000,
                enabled: true,
            }),
    {
        CacheConfig {
            search_ttl: 900_000,
            movie_search_ttl: 3_600_000,
            max_entries: 1000,
            enabled: true,
        }
    }
}

impl CacheConfig {
    /// Create a new cache configuration; both kinds of search share the one
    /// time-to-live.
    pub fn new(search_ttl: i64, max_entries: usize, _cleanup_interval: i64) -> (r: Self)
        ensures
            r == (CacheConfig {
                search_ttl,
                movie_search_ttl: search_ttl,
                max_entries,
                enabled: true,
            }),
    {
        CacheConfig { search_ttl, movie_search_ttl: search_ttl, max_entries, enabled: true }
    }
}

/// What a cached entry is in contracts: its records, its creation instant and
/// its time-to-live.
pub struct CachedResultV {
    pub data: Seq<ProviderResponse>,
    pub created_at: i64,
    pub ttl: i64,
}

/// Cached search result with metadata.
#[derive(Debug)]
pub struct CachedResult {
    pub data: Vec<ProviderResponse>,
    pub created_at: i64,
    pub ttl: i64,
}

impl View for CachedResult {
    type V = CachedResultV;

    open spec fn view(&self) -> CachedResultV {
        CachedResultV { data: self.data@, created_at: self.created_at, ttl: self.ttl }
    }
}

impl Clone for CachedResult {
    fn clone(&self) -> (r: Self)
        ensures
            r@ == self@,
    {
        CachedResult {
            data: clone_responses(&self.data),
            created_at: self.created_at,
            ttl: self.ttl,
        }
    }
}

/// Validity: an entry is valid at `now` exactly while `now` is before its
/// creation instant plus its time-to-live.
pub open spec fn entry_valid_at(e: CachedResultV, now: i64) -> bool {
    (now as int) < e.created_at + e.ttl
}

/// Whether the entry is within a tenth of its time-to-live of expiring.
pub open spec fn entry_expires_soon_at(e: CachedResultV, now: i64) -> bool {
    e.created_at + e.ttl - now < e.ttl / 10
}

impl CachedResult {
    /// An entry created at the given instant.
    pub fn new_at(data: Vec<ProviderResponse>, ttl: i64, now: i64) -> (r: Self)
        ensures
            r@ == (CachedResultV { data: data@, created_at: now, ttl }),
    {
        CachedResult { data, created_at: now, ttl }
    }

    /// An entry created now, by the wall clock.
    pub fn new(data: Vec<ProviderResponse>, ttl: i64) -> (r: Self)
        ensures
            r@.data == data@,
            r@.ttl == ttl,
    {
        let now = now_millis();
        Self::new_at(data, ttl, now)
    }

    /// Check whether the cached result is still valid at the given instant.
    pub fn is_valid_at(&self, now: i64) -> (r: bool)
        ensures
            r == entry_valid_at(self@, now),
    {
        (now as i128) < (self.created_at as i128) + (self.ttl as i128)
    }

    /// Check whether the cached result is still valid now, by the wall clock.
    pub fn is_valid(&self) -> bool {
        let now = now_millis();
        self.is_valid_at(now)
    }

    /// Check whether the cached result will expire soon (within a tenth of
    /// its time-to-live) at the given instant.
    pub fn expires_soon_at(&self, now: i64) -> (r: bool)
        requires
            self.ttl >= 0,
        ensures
            r == entry_expires_soon_at(self@, now),
    {
        let threshold: u64 = (self.ttl as u64) / 10;
        (self.created_at as i128) + (self.ttl as i128) - (now as i128) < (threshold as i128)
    }

    /// Check whether the cached result will expire soon now, by the wall
    /// clock.
    pub fn expires_soon(&self) -> bool
        requires
            self.ttl >= 0,
    {
        let now = now_millis();
        self.expires_soon_at(now)
    }
}

/// The empty collection of cache entries.
pub open spec fn empty_entries() -> Map<(bool, Seq<char>), CachedResultV> {
    Map::empty()
}

/// What the cache store holds, keyed by the view of the cache key. Pinned
/// down only through the trusted wrappers below.
pub uninterp spec fn cache_contents(m: DashMap<CacheKey, CachedResult>) -> Map<
    (bool, Seq<char>),
    CachedResultV,
>;

/// Relies on dashmap::DashMap::new: the new map is empty.
#[verifier::external_body]
fn store_new() -> (r: DashMap<CacheKey, CachedResult>)
    ensures
        cache_contents(r) == empty_entries(),
{
    DashMap::new()
}

/// Relies on dashmap::DashMap::len: the number of entries held.
#[verifier::external_body]
fn store_len(m: &DashMap<CacheKey, CachedResult>) -> (r: usize)
    ensures
        r == cache_contents(*m).dom().len(),
{
    m.len()
}

/// Relies on dashmap::DashMap::get: the entry the key maps to, if present,
/// handed out as a clone.
#[verifier::external_body]
fn store_get(m: &DashMap<CacheKey, CachedResult>, key: &CacheKey) -> (r: Option<CachedResult>)
    ensures
        (match r {
            Some(v) => cache_contents(*m).dom().contains(key@) && v@ == cache_contents(*m)[key@],
            None => !cache_contents(*m).dom().contains(key@),
        }),
{
    match m.get(key) {
        Some(entry) => Some(entry.value().clone()),
        None => None,
    }
}

/// Relies on dashmap::DashMap::insert: maps the key to the value, replacing
/// any previous entry of an equal key.
#[verifier::external_body]
fn store_insert(m: &mut DashMap<CacheKey, CachedResult>, key: CacheKey, value: CachedResult)
    ensures
        cache_contents(*final(m)) == cache_contents(*old(m)).insert(key@, value@),
{
    m.insert(key, value);
}

/// Relies on dashmap::DashMap::remove: removes the entry of an equal key, if
/// one is present.
#[verifier::external_body]
fn store_remove(m: &mut DashMap<CacheKey, CachedResult>, key: &CacheKey)
    ensures
        cache_contents(*final(m)) == cache_contents(*old(m)).remove(key@),
{
    m.remove(key);
}

/// Relies on dashmap::DashMap::clear: removes every entry.
#[verifier::external_body]
fn store_clear(m: &mut DashMap<CacheKey, CachedResult>)
    ensures
        cache_contents(*final(m)) == empty_entries(),
{
    m.clear();
}

/// Relies on dashmap::DashMap::iter: visits every entry exactly once, in no
/// promised order; each is handed out as a clone.
#[verifier::external_body]
fn store_snapshot(m: &DashMap<CacheKey, CachedResult>) -> (r: Vec<(CacheKey, CachedResult)>)
    ensures
        r@.len() == cache_contents(*m).dom().len(),
        forall|i: int| #![trigger r@[i]]
            0 <= i < r@.len() ==> cache_contents(*m).dom().contains(r@[i].0@)
                && cache_contents(*m)[r@[i].0@] == r@[i].1@,
        forall|i: int, j: int| #![trigger r@[i], r@[j]]
            0 <= i < j < r@.len() ==> r@[i].0@ != r@[j].0@,
        forall|k: (bool, Seq<char>)|
            #[trigger] cache_contents(*m).dom().contains(k) ==> exists|i: int|
                0 <= i < r@.len() && r@[i].0@ == k,
{
    let mut out = Vec::new();
    for entry in m.iter() {
        out.push((entry.key().clone(), entry.value().clone()));
    }
    out
}

/// The soft capacity a store never exceeds after a write: the configured
/// maximum, or one where the maximum is zero.
pub open spec fn spec_cap(c: CacheConfig) -> int {
    if c.max_entries == 0 {
        1
    } else {
        c.max_entries as int
    }
}

/// How many entries an eviction removes: a quarter of the configured
/// capacity, rounded up, and at least one.
pub open spec fn quarter_of(max_entries: usize) -> int {
    if (max_entries + 3) / 4 == 0 {
        1
    } else {
        (max_entries + 3) / 4
    }
}

/// The number of entries the oldest-eviction removes from a store of `n`
/// entries.
pub open spec fn evict_count(c: CacheConfig, n: int) -> int {
    if quarter_of(c.max_entries) <= n {
        quarter_of(c.max_entries)
    } else {
        n
    }
}

/// The sub-map of entries still valid at `now`.
pub open spec fn live_entries(m: Map<(bool, Seq<char>), CachedResultV>, now: i64) -> Map<
    (bool, Seq<char>),
    CachedResultV,
> {
    Map::new(|k: (bool, Seq<char>)| m.dom().contains(k) && entry_valid_at(m[k], now), |k| m[k])
}

/// What a lookup decided at the instant `t`: a hit hands out the stored
/// records of an entry valid at `t` and leaves the store unchanged; a miss
/// means the entry was absent or expired at `t`, an expired entry being
/// removed on the way.
pub open spec fn lookup_decided_at(
    pre: Map<(bool, Seq<char>), CachedResultV>,
    post: Map<(bool, Seq<char>), CachedResultV>,
    key: (bool, Seq<char>),
    r: Option<Vec<ProviderResponse>>,
    t: i64,
) -> bool {
    match r {
        Some(d) => pre.dom().contains(key) && entry_valid_at(pre[key], t) && d@ == pre[key].data
            && post == pre,
        None => !(pre.dom().contains(key) && entry_valid_at(pre[key], t)) && post == pre.remove(
            key,
        ),
    }
}

/// Cache statistics: a snapshot of the store's size split into entries that
/// were valid and expired when it was taken.
#[derive(Clone, Copy, Debug, PartialEq, Eq, Structural)]
pub struct CacheStats {
    pub total_entries: usize,
    pub valid_entries: usize,
    pub expired_entries: usize,
    pub max_entries: usize,
}

/// In-memory cache over a concurrent map.
pub struct SearchCache {
    pub store: DashMap<CacheKey, CachedResult>,
    pub config: CacheConfig,
}

impl SearchCache {
    /// The entries the cache holds, keyed by fingerprint view.
    pub open spec fn entries(self) -> Map<(bool, Seq<char>), CachedResultV> {
        cache_contents(self.store)
    }

    /// Well-formedness: finitely many entries, within the soft cap, and none
    /// at all while the cache is disabled.
    pub open spec fn wf(self) -> bool {
        &&& self.entries().dom().finite()
        &&& self.entries().dom().len() <= spec_cap(self.config)
        &&& !self.config.enabled ==> self.entries() == Map::<
            (bool, Seq<char>),
            CachedResultV,
        >::empty()
    }

    pub fn new(config: CacheConfig) -> (r: Self)
        ensures
            r.wf(),
            r.config == config,
            r.entries() == Map::<(bool, Seq<char>), CachedResultV>::empty(),
    {
        SearchCache { store: store_new(), config }
    }

    /// Get the cached records if present and valid at the given instant; an
    /// expired entry is removed on the way.
    pub fn get_at(&mut self, key: &CacheKey, now: i64) -> (r: Option<Vec<ProviderResponse>>)
        requires
            old(self).wf(),
        ensures
            final(self).wf(),
            final(self).config == old(self).config,
            !old(self).config.enabled ==> r is None && final(self).entries() == old(self).entries(),
            old(self).config.enabled ==> (match r {
                Some(d) => old(self).entries().dom().contains(key@) && entry_valid_at(
                    old(self).entries()[key@],
                    now,
                ) && d@ == old(self).entries()[key@].data && final(self).entries() == old(self).entries(),
                None => !(old(self).entries().dom().contains(key@) && entry_valid_at(
                    old(self).entries()[key@],
                    now,
                )) && final(self).entries() == old(self).entries().remove(key@),
            }),
    {
        if !self.config.enabled {
            return None;
        }
        match store_get(&self.store, key) {
            Some(cached) => {
                if cached.is_valid_at(now) {
                    Some(cached.data)
                } else {
                    store_remove(&mut self.store, key);
                    proof {
                        lemma_len_subset(
                            self.entries().dom(),
                            old(self).entries().dom(),
                        );
                    }
                    None
                }
            },
            None => {
                proof {
                    assert(old(self).entries().remove(key@) =~= old(self).entries());
                }
                None
            },
        }
    }

    /// Get the cached records if present and valid now, by the wall clock; an
    /// expired entry is removed on the way.
    pub fn get(&mut self, key: &CacheKey) -> (r: Option<Vec<ProviderResponse>>)
        requires
            old(self).wf(),
        ensures
            final(self).wf(),
            final(self).config == old(self).config,
            !old(self).config.enabled ==> r is None && final(self).entries() == old(self).entries(),
            (match r {
                Some(d) => old(self).entries().dom().contains(key@) && d@ == old(self).entries()[key@].data,
                None => true,
            }),
            forall|k: (bool, Seq<char>)|
                #[trigger] final(self).entries().dom().contains(k) ==> old(self).entries().dom().contains(k) && final(self).entries()[k] == old(self).entries()[k],
            old(self).config.enabled ==> exists|t: i64|
                lookup_decided_at(old(self).entries(), final(self).entries(), key@, r, t),
    {
        let now = now_millis();
        let r = self.get_at(key, now);
        proof {
            if old(self).config.enabled {
                assert(lookup_decided_at(old(self).entries(), self.entries(), key@, r, now));
                if r is None {
                    assert forall|k: (bool, Seq<char>)|
                        #[trigger] self.entries().dom().contains(k) implies old(self).entries().dom().contains(k) && self.entries()[k] == old(self).entries()[k] by {}
                }
            }
        }
        r
    }

    /// Remove every entry that is no longer valid at the given instant.
    pub fn evict_expired_at(&mut self, now: i64)
        requires
            old(self).wf(),
        ensures
            final(self).wf(),
            final(self).config == old(self).config,
            final(self).entries() == live_entries(old(self).entries(), now),
    {
        let ghost m0 = self.entries();
        let snap = store_snapshot(&self.store);
        let n = snap.len();
        let mut i: usize = 0;
        while i < n
            invariant
                i <= n,
                n == snap@.len(),
                self.config == old(self).config,
                self.entries().dom().finite(),
                m0 == old(self).entries(),
                forall|j: int| #![trigger snap@[j]]
                    0 <= j < n ==> m0.dom().contains(snap@[j].0@) && m0[snap@[j].0@]
                        == snap@[j].1@,
                forall|j: int, j2: int| #![trigger snap@[j], snap@[j2]]
                    0 <= j < j2 < n ==> snap@[j].0@ != snap@[j2].0@,
                forall|k: (bool, Seq<char>)|
                    #[trigger] m0.dom().contains(k) ==> exists|j: int|
                        0 <= j < n && snap@[j].0@ == k,
                forall|k: (bool, Seq<char>)|
                    #[trigger] self.entries().dom().contains(k) ==> m0.dom().contains(k)
                        && self.entries()[k] == m0[k],
                forall|j: int|
                    0 <= j < i ==> (#[trigger] self.entries().dom().contains(snap@[j].0@)
                        <==> entry_valid_at(snap@[j].1@, now)),
                forall|j: int| i <= j < n ==> #[trigger] self.entries().dom().contains(snap@[j].0@),
            decreases n - i,
        {
            if !snap[i].1.is_valid_at(now) {
                store_remove(&mut self.store, &snap[i].0);
            }
            i = i + 1;
        }
        proof {
            assert forall|k: (bool, Seq<char>)|
                live_entries(m0, now).dom().contains(k) implies #[trigger] self
                .entries()
                .dom()
                .contains(k) by {
                let j = choose|j: int| 0 <= j < n && snap@[j].0@ == k;
                assert(self.entries().dom().contains(snap@[j].0@) <==> entry_valid_at(
                    snap@[j].1@,
                    now,
                ));
            }
            assert(self.entries() =~= live_entries(m0, now));
            lemma_len_subset(self.entries().dom(), m0.dom());
            if !self.config.enabled {
                assert(self.entries() =~= empty_entries());
            }
        }
    }

    /// Remove every expired entry now, by the wall clock.
    pub fn evict_expired(&mut self)
        requires
            old(self).wf(),
        ensures
            final(self).wf(),
            final(self).config == old(self).config,
            forall|k: (bool, Seq<char>)|
                #[trigger] final(self).entries().dom().contains(k) ==> old(self).entries().dom().contains(k) && final(self).entries()[k] == old(self).entries()[k],
    {
        let now = now_millis();
        self.evict_expired_at(now);
    }

    /// Remove the oldest entries, by creation instant: a quarter of the
    /// configured capacity, rounding up to at least one.
    fn evict_oldest(&mut self)
        requires
            old(self).wf(),
        ensures
            final(self).wf(),
            final(self).config == old(self).config,
            final(self).entries().dom().len() == old(self).entries().dom().len() - evict_count(
                old(self).config,
                old(self).entries().dom().len() as int,
            ),
            forall|k: (bool, Seq<char>)|
                #[trigger] final(self).entries().dom().contains(k) ==> old(self).entries().dom().contains(k) && final(self).entries()[k] == old(self).entries()[k],
            forall|a: (bool, Seq<char>), b: (bool, Seq<char>)|
                #![trigger old(self).entries().dom().contains(a), final(self).entries().dom().contains(b)]
                old(self).entries().dom().contains(a) && !final(self).entries().dom().contains(a)
                    && final(self).entries().dom().contains(b) ==> old(self).entries()[a].created_at <= old(self).entries()[b].created_at,
    {
        let ghost m0 = self.entries();
        let mut remaining = store_snapshot(&self.store);
        let quarter = self.config.max_entries / 4 + (if self.config.max_entries % 4 == 0 {
            0usize
        } else {
            1usize
        });
        let base = if quarter == 0 {
            1
        } else {
            quarter
        };
        proof {
            assert(base == quarter_of(self.config.max_entries));
        }
        let total = remaining.len();
        let to_remove = if base < total {
            base
        } else {
            total
        };
        let mut r: usize = 0;
        while r < to_remove
            invariant
                r <= to_remove,
                to_remove <= total,
                self.config == old(self).config,
                self.entries().dom().finite(),
                m0 == old(self).entries(),
                m0.dom().finite(),
                remaining@.len() == total - r,
                self.entries().dom().len() == remaining@.len(),
                forall|j: int| #![trigger remaining@[j]]
                    0 <= j < remaining@.len() ==> self.entries().dom().contains(
                        remaining@[j].0@,
                    ) && self.entries()[remaining@[j].0@] == remaining@[j].1@,
                forall|j: int, j2: int| #![trigger remaining@[j], remaining@[j2]]
                    0 <= j < j2 < remaining@.len() ==> remaining@[j].0@ != remaining@[j2].0@,
                forall|k: (bool, Seq<char>)|
                    #[trigger] self.entries().dom().contains(k) ==> exists|j: int|
                        0 <= j < remaining@.len() && remaining@[j].0@ == k,
                forall|k: (bool, Seq<char>)|
                    #[trigger] self.entries().dom().contains(k) ==> m0.dom().contains(k)
                        && self.entries()[k] == m0[k],
                forall|k: (bool, Seq<char>), j: int|
                    #![trigger m0.dom().contains(k), remaining@[j]]
                    m0.dom().contains(k) && !self.entries().dom().contains(k) && 0 <= j
                        < remaining@.len() ==> m0[k].created_at <= remaining@[j].1@.created_at,
            decreases to_remove - r,
        {
            let mut min_idx: usize = 0;
            let mut idx: usize = 1;
            while idx < remaining.len()
                invariant
                    remaining@.len() >= 1,
                    min_idx < idx,
                    idx <= remaining@.len(),
                    forall|j: int|
                        0 <= j < idx ==> remaining@[min_idx as int].1@.created_at
                            <= #[trigger] remaining@[j].1@.created_at,
                decreases remaining@.len() - idx,
            {
                if remaining[idx].1.created_at < remaining[min_idx].1.created_at {
                    min_idx = idx;
                }
                idx = idx + 1;
            }
            let ghost removed_key = remaining@[min_idx as int].0@;
            store_remove(&mut self.store, &remaining[min_idx].0);
            let ghost before = remaining@;
            remaining.swap_remove(min_idx);
            r = r + 1;
            proof {
                assert forall|j: int| 0 <= j < remaining@.len() implies remaining@[j]
                    == before[(if j == min_idx { before.len() - 1 } else { j }) as int]
                    && remaining@[j].0@ != removed_key by {}
                assert forall|k: (bool, Seq<char>)|
                    #[trigger] self.entries().dom().contains(k) implies exists|j: int|
                    0 <= j < remaining@.len() && remaining@[j].0@ == k by {
                    let j0 = choose|j: int| 0 <= j < before.len() && before[j].0@ == k;
                    if j0 == before.len() - 1 {
                        assert(remaining@[min_idx as int].0@ == k);
                    } else if j0 != min_idx {
                        assert(remaining@[j0].0@ == k);
                    }
                }
            }
        }
        proof {
            assert(total == m0.dom().len());
            assert(to_remove == evict_count(old(self).config, m0.dom().len() as int));
            assert forall|a: (bool, Seq<char>), b: (bool, Seq<char>)|
                #![trigger m0.dom().contains(a), self.entries().dom().contains(b)]
                m0.dom().contains(a) && !self.entries().dom().contains(a) && self
                .entries()
                .dom()
                .contains(b) implies m0[a].created_at <= m0[b].created_at by {
                let j = choose|j: int| 0 <= j < remaining@.len() && remaining@[j].0@ == b;
                assert(m0[a].created_at <= remaining@[j].1@.created_at);
            }
            if !self.config.enabled {
                assert(self.entries() =~= empty_entries());
            }
        }
    }

    /// Store the records under the key with the given time-to-live, at the
    /// given instant. At capacity, expired entries are swept first and then,
    /// if the store is still full, the oldest quarter is evicted.
    pub fn put_at(&mut self, key: CacheKey, data: Vec<ProviderResponse>, ttl: i64, now: i64)
        requires
            old(self).wf(),
        ensures
            final(self).wf(),
            final(self).config == old(self).config,
            !old(self).config.enabled ==> final(self).entries() == old(self).entries(),
            old(self).config.enabled ==> final(self).entries().dom().contains(key@) && final(self).entries()[key@] == (CachedResultV { data: data@, created_at: now, ttl }),
            old(self).config.enabled ==> forall|k: (bool, Seq<char>)|
                k != key@ && #[trigger] final(self).entries().dom().contains(k) ==> old(self).entries().dom().contains(k) && final(self).entries()[k] == old(self).entries()[k],
            old(self).config.enabled && old(self).entries().dom().len() < old(self).config.max_entries ==> final(self).entries() == old(self).entries().insert(
                key@,
                CachedResultV { data: data@, created_at: now, ttl },
            ),
            old(self).config.enabled && old(self).entries().dom().len() >= old(self).config.max_entries ==> forall|k: (bool, Seq<char>)|
                k != key@ && #[trigger] final(self).entries().dom().contains(k) ==> entry_valid_at(
                    old(self).entries()[k],
                    now,
                ),
            old(self).config.enabled && old(self).entries().dom().len() >= old(self).config.max_entries ==> forall|a: (bool, Seq<char>), b: (bool, Seq<char>)|
                #![trigger old(self).entries().dom().contains(a), final(self).entries().dom().contains(b)]
                a != key@ && b != key@ && old(self).entries().dom().contains(a) && entry_valid_at(
                    old(self).entries()[a],
                    now,
                ) && !final(self).entries().dom().contains(a) && final(self).entries().dom().contains(b) ==> old(self).entries()[a].created_at <= old(self).entries()[b].created_at,
            old(self).config.enabled && old(self).entries().dom().len() >= old(self).config.max_entries && live_entries(old(self).entries(), now).dom().len() < old(self).config.max_entries ==> final(self).entries() == live_entries(
                old(self).entries(),
                now,
            ).insert(key@, CachedResultV { data: data@, created_at: now, ttl }),
            old(self).config.enabled && live_entries(old(self).entries(), now).dom().len() >= old(self).config.max_entries ==> final(self).entries().dom().len() <= live_entries(
                old(self).entries(),
                now,
            ).dom().len() + 1 - evict_count(
                old(self).config,
                live_entries(old(self).entries(), now).dom().len() as int,
            ),
    {
        if !self.config.enabled {
            return;
        }
        let ghost m0 = self.entries();
        let ghost live0 = live_entries(m0, now);
        let ghost mut m_s = m0;
        let ghost mut swept = false;
        let ghost mut evicted = false;
        let len = store_len(&self.store);
        if len >= self.config.max_entries {
            self.evict_expired_at(now);
            proof {
                m_s = self.entries();
                swept = true;
                assert forall|k: (bool, Seq<char>)|
                    #[trigger] m_s.dom().contains(k) implies m0.dom().contains(k) by {}
                lemma_len_subset(m_s.dom(), m0.dom());
            }
            let len2 = store_len(&self.store);
            if len2 >= self.config.max_entries {
                self.evict_oldest();
                proof {
                    evicted = true;
                }
            }
        }
        let ghost m_o = self.entries();
        let entry = CachedResult::new_at(data, ttl, now);
        store_insert(&mut self.store, key, entry);
        proof {
            let v = CachedResultV { data: data@, created_at: now, ttl };
            assert(self.entries() == m_o.insert(key@, v));
            assert(self.entries().dom() =~= m_o.dom().insert(key@));
            if swept {
                assert(m_s == live0);
                assert forall|k: (bool, Seq<char>)|
                    #[trigger] live0.dom().contains(k) implies m0.dom().contains(k) by {}
                lemma_len_subset(live0.dom(), m0.dom());
            }
            if m0.dom().len() >= self.config.max_entries {
                assert(swept);
                assert forall|a: (bool, Seq<char>), b: (bool, Seq<char>)|
                    #![trigger m0.dom().contains(a), self.entries().dom().contains(b)]
                    a != key@ && b != key@ && m0.dom().contains(a) && entry_valid_at(m0[a], now)
                        && !self.entries().dom().contains(a) && self.entries().dom().contains(
                        b,
                    ) implies m0[a].created_at <= m0[b].created_at by {
                    assert(live0.dom().contains(a));
                    assert(!m_o.dom().contains(a));
                    assert(m_o.dom().contains(b));
                    assert(m_s.dom().contains(b));
                    if evicted {
                        assert(m_s.dom().contains(a) && !m_o.dom().contains(a)
                            && m_o.dom().contains(b));
                        assert(m_s[a].created_at <= m_s[b].created_at);
                    }
                }
            }
            if live0.dom().len() >= self.config.max_entries {
                assert forall|k: (bool, Seq<char>)|
                    #[trigger] live0.dom().contains(k) implies m0.dom().contains(k) by {}
                lemma_len_subset(live0.dom(), m0.dom());
                assert(swept);
                assert(evicted);
                assert(m_o.dom().len() == live0.dom().len() - evict_count(
                    self.config,
                    live0.dom().len() as int,
                ));
            }
        }
    }

    /// Store the records under the key with the given time-to-live, stamped
    /// now by the wall clock.
    pub fn put(&mut self, key: CacheKey, data: Vec<ProviderResponse>, ttl: i64)
        requires
            old(self).wf(),
        ensures
            final(self).wf(),
            final(self).config == old(self).config,
            !old(self).config.enabled ==> final(self).entries() == old(self).entries(),
            old(self).config.enabled ==> final(self).entries().dom().contains(key@) && final(self).entries()[key@].data == data@ && final(self).entries()[key@].ttl == ttl,
            old(self).config.enabled ==> forall|k: (bool, Seq<char>)|
                k != key@ && #[trigger] final(self).entries().dom().contains(k) ==> old(self).entries().dom().contains(k) && final(self).entries()[k] == old(self).entries()[k],
    {
        let now = now_millis();
        self.put_at(key, data, ttl, now);
    }

    /// A snapshot of the store's size and validity split at the given
    /// instant.
    pub fn stats_at(&self, now: i64) -> (r: CacheStats)
        requires
            self.wf(),
        ensures
            r.total_entries == self.entries().dom().len(),
            r.valid_entries == live_entries(self.entries(), now).dom().len(),
            r.expired_entries == r.total_entries - r.valid_entries,
            r.max_entries == self.config.max_entries,
            !self.config.enabled ==> r.total_entries == 0 && r.valid_entries == 0
                && r.expired_entries == 0,
    {
        let ghost m0 = self.entries();
        let snap = store_snapshot(&self.store);
        let total = snap.len();
        let mut valid_count: usize = 0;
        let ghost live = live_entries(m0, now);
        let ghost mut seen: Set<(bool, Seq<char>)> = Set::empty();
        let mut i: usize = 0;
        while i < total
            invariant
                i <= total,
                total == snap@.len(),
                m0 == self.entries(),
                forall|j: int| #![trigger snap@[j]]
                    0 <= j < total ==> m0.dom().contains(snap@[j].0@) && m0[snap@[j].0@]
                        == snap@[j].1@,
                forall|j: int, j2: int| #![trigger snap@[j], snap@[j2]]
                    0 <= j < j2 < total ==> snap@[j].0@ != snap@[j2].0@,
                forall|k: (bool, Seq<char>)|
                    #[trigger] m0.dom().contains(k) ==> exists|j: int|
                        0 <= j < total && snap@[j].0@ == k,
                live == live_entries(m0, now),
                seen.finite(),
                valid_count == seen.len(),
                valid_count <= i,
                forall|k: (bool, Seq<char>)|
                    #[trigger] seen.contains(k) ==> exists|j: int|
                        0 <= j < i && snap@[j].0@ == k && entry_valid_at(snap@[j].1@, now),
                forall|j: int|
                    0 <= j < i && entry_valid_at(#[trigger] snap@[j].1@, now) ==> seen.contains(
                        snap@[j].0@,
                    ),
            decreases total - i,
        {
            if snap[i].1.is_valid_at(now) {
                proof {
                    if seen.contains(snap@[i as int].0@) {
                        let j = choose|j: int|
                            0 <= j < i && snap@[j].0@ == snap@[i as int].0@ && entry_valid_at(
                                snap@[j].1@,
                                now,
                            );
                        assert(false);
                    }
                    seen = seen.insert(snap@[i as int].0@);
                }
                valid_count = valid_count + 1;
            }
            i = i + 1;
        }
        proof {
            assert forall|k: (bool, Seq<char>)| live.dom().contains(k) implies seen.contains(
                k,
            ) by {
                let j = choose|j: int| 0 <= j < total && snap@[j].0@ == k;
                assert(entry_valid_at(snap@[j].1@, now));
            }
            assert forall|k: (bool, Seq<char>)| seen.contains(k) implies live.dom().contains(
                k,
            ) by {
                let j = choose|j: int|
                    0 <= j < total && snap@[j].0@ == k && entry_valid_at(snap@[j].1@, now);
            }
            assert(seen =~= live.dom());
            lemma_len_subset(live.dom(), m0.dom());
        }
        CacheStats {
            total_entries: total,
            valid_entries: valid_count,
            expired_entries: total - valid_count,
            max_entries: self.config.max_entries,
        }
    }

    /// A snapshot of the store's size and validity split, judged by the wall
    /// clock. Entries may flip between valid and expired while it is taken.
    pub fn stats(&self) -> (r: CacheStats)
        requires
            self.wf(),
        ensures
            r.total_entries == self.entries().dom().len(),
            r.valid_entries <= r.total_entries,
            r.expired_entries == r.total_entries - r.valid_entries,
            r.max_entries == self.config.max_entries,
            !self.config.enabled ==> r.total_entries == 0 && r.valid_entries == 0
                && r.expired_entries == 0,
    {
        let now = now_millis();
        self.stats_at(now)
    }

    /// Remove all entries unconditionally.
    pub fn clear(&mut self)
        requires
            old(self).wf(),
        ensures
            final(self).wf(),
            final(self).config == old(self).config,
            final(self).entries() == Map::<(bool, Seq<char>), CachedResultV>::empty(),
    {
        store_clear(&mut self.store);
    }
}

/// Time-to-live correctness: an entry stored under `k` at instant `now0` with
/// time-to-live `ttl` is valid, and so answered by `get_at`, at every instant
/// before `now0 + ttl`, and expired, and so a miss, at every instant from
/// `now0 + ttl` on.
pub proof fn lemma_ttl_window(
    m: Map<(bool, Seq<char>), CachedResultV>,
    k: (bool, Seq<char>),
    data: Seq<ProviderResponse>,
    ttl: i64,
    now0: i64,
    now: i64,
)
    ensures
        (now as int) < now0 + ttl ==> entry_valid_at(
            m.insert(k, CachedResultV { data, created_at: now0, ttl })[k],
            now,
        ),
        (now as int) >= now0 + ttl ==> !entry_valid_at(
            m.insert(k, CachedResultV { data, created_at: now0, ttl })[k],
            now,
        ),
{
}

/// Idempotent expiry sweep: sweeping an already-swept store removes nothing
/// more, and sweeping an empty store leaves it empty.
pub proof fn lemma_evict_expired_idempotent(m: Map<(bool, Seq<char>), CachedResultV>, now: i64)
    ensures
        live_entries(live_entries(m, now), now) == live_entries(m, now),
        live_entries(empty_entries(), now) == empty_entries(),
{
    assert(live_entries(live_entries(m, now), now) =~= live_entries(m, now));
    assert(live_entries(empty_entries(), now) =~= empty_entries());
}

/// Disabled pass-through: a well-formed disabled cache holds nothing, so its
/// lookups miss and its statistics report zero.
pub proof fn lemma_disabled_cache_empty(c: SearchCache)
    requires
        c.wf(),
        !c.config.enabled,
    ensures
        c.entries().dom() =~= Set::empty(),
        forall|k: (bool, Seq<char>)| !c.entries().dom().contains(k),
{
}

} // verus!
