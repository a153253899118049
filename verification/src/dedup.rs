//! Request coalescing: a registry of in-flight fingerprints. The first
//! caller to register a fingerprint becomes the owner and runs the fetch;
//! later callers attach as waiters and are handed the owner's result. Waiter
//! handles are named here by tokens; the surrounding runtime maps each token
//! to a single-use channel.

use vstd::prelude::*;
use crate::fingerprint::CacheKey;
use dashmap::DashMap;

verus! {

/// Configuration for request deduplication. The timeout is in milliseconds.
#[derive(Clone, Copy, Debug)]
pub struct DeduplicationConfig {
    /// How long to keep pending requests before timing out.
    pub request_timeout: i64,
    /// Whether deduplication is enabled.
    pub enabled: bool,
}

impl Default for DeduplicationConfig {
    /// Thirty seconds, enabled.
    fn default() -> (r: Self)
        ensures
            r == (DeduplicationConfig { request_timeout: 30_000, enabled: true }),
    {
        DeduplicationConfig { request_timeout: 30_000, enabled: true }
    }
}

/// What a pending entry is in contracts: when its fetch started and the
/// tokens of its attached waiters.
pub struct PendingEntryV {
    pub started_at: i64,
    pub waiters: Seq<u64>,
}

/// One in-flight fetch: when it started and the tokens of its waiters.
#[derive(Debug)]
pub struct PendingEntry {
    pub started_at: i64,
    pub waiters: Vec<u64>,
}

impl View for PendingEntry {
    type V = PendingEntryV;

    open spec fn view(&self) -> PendingEntryV {
        PendingEntryV { started_at: self.started_at, waiters: self.waiters@ }
    }
}

impl Clone for PendingEntry {
    fn clone(&self) -> (r: Self)
        ensures
            r@ == self@,
    {
        let mut waiters: Vec<u64> = Vec::new();
        let mut i: usize = 0;
        while i < self.waiters.len()
            invariant
                i <= self.waiters.len(),
                waiters@ == self.waiters@.take(i as int),
            decreases self.waiters.len() - i,
        {
            waiters.push(self.waiters[i]);
            proof {
                assert(self.waiters@.take(i + 1 as int) =~= self.waiters@.take(i as int).push(
                    self.waiters@[i as int],
                ));
            }
            i = i + 1;
        }
        proof {
            assert(self.waiters@.take(self.waiters@.len() as int) =~= self.waiters@);
        }
        PendingEntry { started_at: self.started_at, waiters }
    }
}

/// A pending entry is expired once its fetch has been running longer than the
/// timeout.
pub open spec fn pending_expired(e: PendingEntryV, now: i64, timeout: i64) -> bool {
    now - e.started_at > timeout
}

/// The registry after a timeout sweep at `now`: the entries not yet expired.
pub open spec fn swept_pending(
    m: Map<(bool, Seq<char>), PendingEntryV>,
    now: i64,
    timeout: i64,
) -> Map<(bool, Seq<char>), PendingEntryV> {
    Map::new(
        |k: (bool, Seq<char>)| m.dom().contains(k) && !pending_expired(m[k], now, timeout),
        |k: (bool, Seq<char>)| m[k],
    )
}

/// The empty registry.
pub open spec fn empty_pending() -> Map<(bool, Seq<char>), PendingEntryV> {
    Map::empty()
}

/// What the pending registry holds, keyed by the view of the cache key.
/// Pinned down only through the trusted wrappers below.
pub uninterp spec fn pending_contents(m: DashMap<CacheKey, PendingEntry>) -> Map<
    (bool, Seq<char>),
    PendingEntryV,
>;

/// Relies on dashmap::DashMap::new: the new map is empty.
#[verifier::external_body]
fn pstore_new() -> (r: DashMap<CacheKey, PendingEntry>)
    ensures
        pending_contents(r) == empty_pending(),
{
    DashMap::new()
}

/// Relies on dashmap::DashMap::get: the entry the key maps to, if present,
/// handed out as a clone.
#[verifier::external_body]
fn pstore_get(m: &DashMap<CacheKey, PendingEntry>, key: &CacheKey) -> (r: Option<PendingEntry>)
    ensures
        (match r {
            Some(v) => pending_contents(*m).dom().contains(key@) && v@ == pending_contents(
                *m,
            )[key@],
            None => !pending_contents(*m).dom().contains(key@),
        }),
{
    match m.get(key) {
        Some(entry) => Some(entry.value().clone()),
        None => None,
    }
}

/// Relies on dashmap::DashMap::insert: maps the key to the value, replacing
/// any previous entry of an equal key.
#[verifier::external_body]
fn pstore_insert(m: &mut DashMap<CacheKey, PendingEntry>, key: CacheKey, value: PendingEntry)
    ensures
        pending_contents(*final(m)) == pending_contents(*old(m)).insert(key@, value@),
{
    m.insert(key, value);
}

/// Relies on dashmap::DashMap::remove: removes the entry of an equal key, if
/// one is present.
#[verifier::external_body]
fn pstore_remove(m: &mut DashMap<CacheKey, PendingEntry>, key: &CacheKey)
    ensures
        pending_contents(*final(m)) == pending_contents(*old(m)).remove(key@),
{
    m.remove(key);
}

/// Relies on dashmap::DashMap::clear: removes every entry.
#[verifier::external_body]
fn pstore_clear(m: &mut DashMap<CacheKey, PendingEntry>)
    ensures
        pending_contents(*final(m)) == empty_pending(),
{
    m.clear();
}

/// Relies on dashmap::DashMap::iter: visits every entry exactly once, in no
/// promised order; each is handed out as a clone.
#[verifier::external_body]
fn pstore_snapshot(m: &DashMap<CacheKey, PendingEntry>) -> (r: Vec<(CacheKey, PendingEntry)>)
    ensures
        r@.len() == pending_contents(*m).dom().len(),
        forall|i: int| #![trigger r@[i]]
            0 <= i < r@.len() ==> pending_contents(*m).dom().contains(r@[i].0@)
                && pending_contents(*m)[r@[i].0@] == r@[i].1@,
        forall|i: int, j: int| #![trigger r@[i], r@[j]]
            0 <= i < j < r@.len() ==> r@[i].0@ != r@[j].0@,
        forall|k: (bool, Seq<char>)|
            #[trigger] pending_contents(*m).dom().contains(k) ==> exists|i: int|
                0 <= i < r@.len() && r@[i].0@ == k,
{
    let mut out = Vec::new();
    for entry in m.iter() {
        out.push((entry.key().clone(), entry.value().clone()));
    }
    out
}

/// How a registration attempt ended: the caller bypassed the registry because
/// coalescing is disabled, became the owner of a fresh entry, or attached to
/// an existing entry as the waiter with the given token.
#[derive(Clone, Copy, Debug, PartialEq, Eq, Structural)]
pub enum RegisterOutcome {
    Bypass,
    Owner,
    Waiter(u64),
}

/// The total number of waiters attached across a registry's entries.
pub open spec fn waiter_sum(m: Map<(bool, Seq<char>), PendingEntryV>) -> int
    decreases m.dom().len(),
{
    if !m.dom().finite() || m.dom().len() == 0 {
        0
    } else {
        let k = m.dom().choose();
        m[k].waiters.len() + waiter_sum(m.remove(k))
    }
}

pub proof fn lemma_waiter_sum_nonneg(m: Map<(bool, Seq<char>), PendingEntryV>)
    ensures
        waiter_sum(m) >= 0,
    decreases m.dom().len(),
{
    if m.dom().finite() && m.dom().len() != 0 {
        lemma_waiter_sum_nonneg(m.remove(m.dom().choose()));
    }
}

/// Splitting one entry off the total: the sum over the registry is that
/// entry's waiter count plus the sum over the rest.
pub proof fn lemma_waiter_sum_remove(m: Map<(bool, Seq<char>), PendingEntryV>, k: (bool, Seq<char>))
    requires
        m.dom().finite(),
        m.dom().contains(k),
    ensures
        waiter_sum(m) == m[k].waiters.len() + waiter_sum(m.remove(k)),
    decreases m.dom().len(),
{
    let k0 = m.dom().choose();
    assert(m.dom().contains(k0));
    if k0 == k {
    } else {
        lemma_waiter_sum_remove(m.remove(k0), k);
        lemma_waiter_sum_remove(m.remove(k), k0);
        assert(m.remove(k0).remove(k) =~= m.remove(k).remove(k0));
        assert(m.remove(k0)[k] == m[k]);
        assert(m.remove(k)[k0] == m[k0]);
        assert(m.remove(k).dom().choose() == m.remove(k).dom().choose());
    }
}

/// Whether `t` is the token of some waiter attached to an entry of `m` that
/// is expired at `now`.
pub open spec fn token_of_expired_waiter(
    m: Map<(bool, Seq<char>), PendingEntryV>,
    now: i64,
    timeout: i64,
    t: u64,
) -> bool {
    exists|k: (bool, Seq<char>), j: int|
        m.dom().contains(k) && pending_expired(m[k], now, timeout) && 0 <= j
            < m[k].waiters.len() && m[k].waiters[j] == t
}

/// Request deduplication system: when several identical requests are in
/// flight, only the first is executed and its result is shared with the rest.
pub struct RequestDeduplicator {
    pub registry: DashMap<CacheKey, PendingEntry>,
    pub config: DeduplicationConfig,
    pub next_token: u64,
}

impl RequestDeduplicator {
    /// The pending entries, keyed by fingerprint view.
    pub open spec fn pending(self) -> Map<(bool, Seq<char>), PendingEntryV> {
        pending_contents(self.registry)
    }

    /// Well-formedness: finitely many entries, every waiter token below the
    /// issue counter, and no token held by two waiter positions.
    pub open spec fn wf(self) -> bool {
        &&& self.pending().dom().finite()
        &&& forall|k: (bool, Seq<char>), i: int|
            #![trigger self.pending()[k].waiters[i]]
            self.pending().dom().contains(k) && 0 <= i < self.pending()[k].waiters.len()
                ==> self.pending()[k].waiters[i] < self.next_token
        &&& forall|k1: (bool, Seq<char>), i1: int, k2: (bool, Seq<char>), i2: int|
            #![trigger self.pending()[k1].waiters[i1], self.pending()[k2].waiters[i2]]
            self.pending().dom().contains(k1) && self.pending().dom().contains(k2) && 0 <= i1
                < self.pending()[k1].waiters.len() && 0 <= i2 < self.pending()[k2].waiters.len()
                && (k1 != k2 || i1 != i2) ==> self.pending()[k1].waiters[i1]
                != self.pending()[k2].waiters[i2]
    }

    pub fn new(config: DeduplicationConfig) -> (r: Self)
        ensures
            r.wf(),
            r.config == config,
            r.pending() == empty_pending(),
            r.next_token == 0,
    {
        RequestDeduplicator { registry: pstore_new(), config, next_token: 0 }
    }

    /// Remove every pending entry whose fetch started more than the timeout
    /// ago, and return the tokens of all their waiters, whose handles the
    /// caller must drop so the waiters observe abandonment rather than hang.
    pub fn cleanup_expired(&mut self, now: i64) -> (dropped: Vec<u64>)
        requires
            old(self).wf(),
        ensures
            final(self).wf(),
            final(self).config == old(self).config,
            final(self).next_token == old(self).next_token,
            final(self).pending() == swept_pending(
                old(self).pending(),
                now,
                old(self).config.request_timeout,
            ),
            forall|k: (bool, Seq<char>), j: int|
                #![trigger old(self).pending()[k].waiters[j]]
                old(self).pending().dom().contains(k) && pending_expired(
                    old(self).pending()[k],
                    now,
                    old(self).config.request_timeout,
                ) && 0 <= j < old(self).pending()[k].waiters.len() ==> dropped@.contains(
                    old(self).pending()[k].waiters[j],
                ),
            forall|i: int| #![trigger dropped@[i]]
                0 <= i < dropped@.len() ==> token_of_expired_waiter(
                    old(self).pending(),
                    now,
                    old(self).config.request_timeout,
                    dropped@[i],
                ),
    {
        let ghost m0 = self.pending();
        let ghost timeout = self.config.request_timeout;
        let snap = pstore_snapshot(&self.registry);
        let n = snap.len();
        let mut dropped: Vec<u64> = Vec::new();
        let ghost mut wit: Seq<((bool, Seq<char>), int)> = Seq::empty();
        let mut i: usize = 0;
        while i < n
            invariant
                i <= n,
                n == snap@.len(),
                self.config == old(self).config,
                self.next_token == old(self).next_token,
                timeout == self.config.request_timeout,
                self.pending().dom().finite(),
                m0 == old(self).pending(),
                forall|j: int| #![trigger snap@[j]]
                    0 <= j < n ==> m0.dom().contains(snap@[j].0@) && m0[snap@[j].0@]
                        == snap@[j].1@,
                forall|j: int, j2: int| #![trigger snap@[j], snap@[j2]]
                    0 <= j < j2 < n ==> snap@[j].0@ != snap@[j2].0@,
                forall|k: (bool, Seq<char>)|
                    #[trigger] m0.dom().contains(k) ==> exists|j: int|
                        0 <= j < n && snap@[j].0@ == k,
                forall|k: (bool, Seq<char>)|
                    #[trigger] self.pending().dom().contains(k) ==> m0.dom().contains(k)
                        && self.pending()[k] == m0[k],
                forall|j: int|
                    0 <= j < i ==> (#[trigger] self.pending().dom().contains(snap@[j].0@)
                        <==> !pending_expired(snap@[j].1@, now, timeout)),
                forall|j: int| i <= j < n ==> #[trigger] self.pending().dom().contains(snap@[j].0@),
                forall|k: (bool, Seq<char>), j: int|
                    #![trigger m0[k].waiters[j]]
                    m0.dom().contains(k) && pending_expired(m0[k], now, timeout) && 0 <= j
                        < m0[k].waiters.len() && !self.pending().dom().contains(k)
                        ==> dropped@.contains(m0[k].waiters[j]),
                wit.len() == dropped@.len(),
                forall|t: int| #![trigger wit[t]]
                    0 <= t < wit.len() ==> m0.dom().contains(wit[t].0) && pending_expired(
                        m0[wit[t].0],
                        now,
                        timeout,
                    ) && 0 <= wit[t].1 < m0[wit[t].0].waiters.len() && m0[wit[t].0].waiters[wit[t].1]
                        == dropped@[t],
            decreases n - i,
        {
            let expired = (now as i128) - (snap[i].1.started_at as i128) > (
            self.config.request_timeout as i128);
            if expired {
                pstore_remove(&mut self.registry, &snap[i].0);
                let ghost k_rm = snap@[i as int].0@;
                let w = &snap[i].1.waiters;
                let wn = w.len();
                let mut j: usize = 0;
                while j < wn
                    invariant
                        j <= wn,
                        wn == w@.len(),
                        w@ == m0[k_rm].waiters,
                        m0.dom().contains(k_rm),
                        pending_expired(m0[k_rm], now, timeout),
                        forall|t: int| 0 <= t < j ==> dropped@.contains(#[trigger] w@[t]),
                        wit.len() == dropped@.len(),
                        forall|t: int| #![trigger wit[t]]
                            0 <= t < wit.len() ==> m0.dom().contains(wit[t].0) && pending_expired(
                                m0[wit[t].0],
                                now,
                                timeout,
                            ) && 0 <= wit[t].1 < m0[wit[t].0].waiters.len() && m0[wit[t].0].waiters[
                                wit[t].1] == dropped@[t],
                        forall|k: (bool, Seq<char>), j2: int|
                            #![trigger m0[k].waiters[j2]]
                            m0.dom().contains(k) && pending_expired(m0[k], now, timeout) && 0 <= j2
                                < m0[k].waiters.len() && !self.pending().dom().contains(k) && k
                                != k_rm ==> dropped@.contains(m0[k].waiters[j2]),
                    decreases wn - j,
                {
                    let ghost dprev = dropped@;
                    dropped.push(w[j]);
                    proof {
                        wit = wit.push((k_rm, j as int));
                        assert(dropped@[dropped@.len() - 1] == m0[k_rm].waiters[j as int]);
                        assert forall|x: u64| dprev.contains(x) implies dropped@.contains(x) by {
                            let t0 = choose|t0: int| 0 <= t0 < dprev.len() && dprev[t0] == x;
                            assert(dropped@[t0] == x);
                        }
                        assert forall|t: int| 0 <= t < j + 1 implies dropped@.contains(
                            #[trigger] w@[t],
                        ) by {
                            if t < j {
                                let t0 = choose|t0: int| 0 <= t0 < dprev.len() && dprev[t0] == w@[t];
                                assert(dropped@[t0] == w@[t]);
                            } else {
                                assert(dropped@[dropped@.len() - 1] == w@[t]);
                            }
                        }
                    }
                    j = j + 1;
                }
            }
            i = i + 1;
        }
        proof {
            assert forall|k: (bool, Seq<char>)|
                swept_pending(m0, now, timeout).dom().contains(k) implies #[trigger] self
                .pending()
                .dom()
                .contains(k) by {
                let j = choose|j: int| 0 <= j < n && snap@[j].0@ == k;
                assert(self.pending().dom().contains(snap@[j].0@) <==> !pending_expired(
                    snap@[j].1@,
                    now,
                    timeout,
                ));
            }
            assert(self.pending() =~= swept_pending(m0, now, timeout));
            assert forall|t: int| #![trigger dropped@[t]]
                0 <= t < dropped@.len() implies token_of_expired_waiter(
                old(self).pending(),
                now,
                old(self).config.request_timeout,
                dropped@[t],
            ) by {
                let kw = wit[t].0;
                let jw = wit[t].1;
                assert(old(self).pending().dom().contains(kw) && pending_expired(
                    old(self).pending()[kw],
                    now,
                    old(self).config.request_timeout,
                ) && 0 <= jw < old(self).pending()[kw].waiters.len()
                    && old(self).pending()[kw].waiters[jw] == dropped@[t]);
            }
        }
        dropped
    }

    /// Attempt to register the fingerprint: the outcome says whether the
    /// caller bypassed a disabled registry, owns a fresh entry and must run
    /// the fetch, or attached as a waiter under a fresh token. Exactly one
    /// caller can own a given fingerprint's entry at a time.
    pub fn register(&mut self, key: &CacheKey, now: i64) -> (r: RegisterOutcome)
        requires
            old(self).wf(),
            old(self).next_token < u64::MAX,
        ensures
            final(self).wf(),
            final(self).config == old(self).config,
            !old(self).config.enabled ==> r == RegisterOutcome::Bypass && final(self).pending()
                == old(self).pending() && final(self).next_token == old(self).next_token,
            old(self).config.enabled && !old(self).pending().dom().contains(key@) ==> r
                == RegisterOutcome::Owner && final(self).pending() == old(self).pending().insert(
                key@,
                PendingEntryV { started_at: now, waiters: Seq::empty() },
            ) && final(self).next_token == old(self).next_token,
            old(self).config.enabled && old(self).pending().dom().contains(key@) ==> r
                == RegisterOutcome::Waiter(old(self).next_token) && final(self).pending() == old(
                self,
            ).pending().insert(
                key@,
                PendingEntryV {
                    started_at: old(self).pending()[key@].started_at,
                    waiters: old(self).pending()[key@].waiters.push(old(self).next_token),
                },
            ) && final(self).next_token == old(self).next_token + 1,
    {
        if !self.config.enabled {
            return RegisterOutcome::Bypass;
        }
        let ghost m0 = self.pending();
        match pstore_get(&self.registry, key) {
            Some(entry) => {
                let token = self.next_token;
                self.next_token = token + 1;
                let mut updated = entry;
                updated.waiters.push(token);
                pstore_insert(&mut self.registry, key.clone(), updated);
                proof {
                    let m1 = self.pending();
                    assert(m1 == m0.insert(
                        key@,
                        PendingEntryV {
                            started_at: m0[key@].started_at,
                            waiters: m0[key@].waiters.push(token),
                        },
                    ));
                    assert forall|k: (bool, Seq<char>), i: int|
                        #![trigger m1[k].waiters[i]]
                        m1.dom().contains(k) && 0 <= i < m1[k].waiters.len() implies m1[k].waiters[i]
                        < self.next_token by {
                        if k == key@ && i == m1[k].waiters.len() - 1 {
                            assert(m1[k].waiters[i] == token);
                        } else {
                            assert(m0.dom().contains(k) && m1[k].waiters[i] == m0[k].waiters[i]);
                        }
                    }
                    assert forall|k1: (bool, Seq<char>), i1: int, k2: (bool, Seq<char>), i2: int|
                        #![trigger m1[k1].waiters[i1], m1[k2].waiters[i2]]
                        m1.dom().contains(k1) && m1.dom().contains(k2) && 0 <= i1
                            < m1[k1].waiters.len() && 0 <= i2 < m1[k2].waiters.len() && (k1 != k2
                            || i1 != i2) implies m1[k1].waiters[i1] != m1[k2].waiters[i2] by {
                        let new1 = k1 == key@ && i1 == m1[k1].waiters.len() - 1;
                        let new2 = k2 == key@ && i2 == m1[k2].waiters.len() - 1;
                        if new1 && !new2 {
                            assert(m0.dom().contains(k2) && m1[k2].waiters[i2]
                                == m0[k2].waiters[i2]);
                            assert(m0[k2].waiters[i2] < token);
                        } else if !new1 && new2 {
                            assert(m0.dom().contains(k1) && m1[k1].waiters[i1]
                                == m0[k1].waiters[i1]);
                            assert(m0[k1].waiters[i1] < token);
                        } else if !new1 && !new2 {
                            assert(m0.dom().contains(k1) && m1[k1].waiters[i1]
                                == m0[k1].waiters[i1]);
                            assert(m0.dom().contains(k2) && m1[k2].waiters[i2]
                                == m0[k2].waiters[i2]);
                        }
                    }
                }
                RegisterOutcome::Waiter(token)
            },
            None => {
                pstore_insert(
                    &mut self.registry,
                    key.clone(),
                    PendingEntry { started_at: now, waiters: Vec::new() },
                );
                proof {
                    let m1 = self.pending();
                    assert forall|k: (bool, Seq<char>), i: int|
                        #![trigger m1[k].waiters[i]]
                        m1.dom().contains(k) && 0 <= i < m1[k].waiters.len() implies m1[k].waiters[i]
                        < self.next_token by {
                        assert(k != key@);
                        assert(m0.dom().contains(k) && m1[k] == m0[k]);
                    }
                    assert forall|k1: (bool, Seq<char>), i1: int, k2: (bool, Seq<char>), i2: int|
                        #![trigger m1[k1].waiters[i1], m1[k2].waiters[i2]]
                        m1.dom().contains(k1) && m1.dom().contains(k2) && 0 <= i1
                            < m1[k1].waiters.len() && 0 <= i2 < m1[k2].waiters.len() && (k1 != k2
                            || i1 != i2) implies m1[k1].waiters[i1] != m1[k2].waiters[i2] by {
                        assert(k1 != key@ && k2 != key@);
                        assert(m0.dom().contains(k1) && m1[k1] == m0[k1]);
                        assert(m0.dom().contains(k2) && m1[k2] == m0[k2]);
                    }
                }
                RegisterOutcome::Owner
            },
        }
    }

    /// The owner's completion step: remove the fingerprint's entry and return
    /// the tokens of all its waiters, each of which the caller fulfills with
    /// a copy of the result.
    pub fn complete(&mut self, key: &CacheKey) -> (waiters: Vec<u64>)
        requires
            old(self).wf(),
        ensures
            final(self).wf(),
            final(self).config == old(self).config,
            final(self).next_token == old(self).next_token,
            old(self).pending().dom().contains(key@) ==> final(self).pending() == old(
                self,
            ).pending().remove(key@) && waiters@ == old(self).pending()[key@].waiters,
            !old(self).pending().dom().contains(key@) ==> final(self).pending() == old(
                self,
            ).pending() && waiters@.len() == 0,
    {
        match pstore_get(&self.registry, key) {
            Some(entry) => {
                pstore_remove(&mut self.registry, key);
                entry.waiters
            },
            None => {
                proof {
                    assert(old(self).pending().remove(key@) =~= old(self).pending());
                }
                Vec::new()
            },
        }
    }

    /// Get statistics about pending requests: the exact number of pending
    /// fingerprints and the total number of waiters attached to them, the
    /// latter saturating at the machine's limit.
    pub fn stats(&self) -> (r: DeduplicationStats)
        requires
            self.wf(),
        ensures
            r.pending_requests == self.pending().dom().len(),
            r.total_waiters == (if waiter_sum(self.pending()) <= usize::MAX {
                waiter_sum(self.pending())
            } else {
                usize::MAX as int
            }),
    {
        let ghost m0 = self.pending();
        let snap = pstore_snapshot(&self.registry);
        let n = snap.len();
        let mut total: usize = 0;
        let ghost mut rest = m0;
        let ghost mut counted: int = 0;
        let mut i: usize = 0;
        while i < n
            invariant
                i <= n,
                n == snap@.len(),
                m0 == self.pending(),
                m0.dom().finite(),
                forall|j: int| #![trigger snap@[j]]
                    0 <= j < n ==> m0.dom().contains(snap@[j].0@) && m0[snap@[j].0@]
                        == snap@[j].1@,
                forall|j: int, j2: int| #![trigger snap@[j], snap@[j2]]
                    0 <= j < j2 < n ==> snap@[j].0@ != snap@[j2].0@,
                forall|k: (bool, Seq<char>)|
                    #[trigger] m0.dom().contains(k) ==> exists|j: int|
                        0 <= j < n && snap@[j].0@ == k,
                rest.dom().finite(),
                forall|k: (bool, Seq<char>)|
                    #[trigger] rest.dom().contains(k) ==> m0.dom().contains(k) && rest[k] == m0[k],
                forall|j: int| 0 <= j < i ==> !rest.dom().contains(#[trigger] snap@[j].0@),
                forall|j: int| i <= j < n ==> rest.dom().contains(#[trigger] snap@[j].0@),
                waiter_sum(m0) == counted + waiter_sum(rest),
                counted >= 0,
                total == (if counted <= usize::MAX {
                    counted
                } else {
                    usize::MAX as int
                }),
            decreases n - i,
        {
            let w = snap[i].1.waiters.len();
            proof {
                let k = snap@[i as int].0@;
                lemma_waiter_sum_remove(rest, k);
                lemma_waiter_sum_nonneg(rest.remove(k));
                assert(rest[k].waiters.len() == w);
                rest = rest.remove(k);
                counted = counted + w;
            }
            if total <= usize::MAX - w {
                total = total + w;
            } else {
                total = usize::MAX;
            }
            i = i + 1;
        }
        proof {
            assert forall|k: (bool, Seq<char>)| !(#[trigger] rest.dom().contains(k)) by {
                if rest.dom().contains(k) {
                    let j = choose|j: int| 0 <= j < n && snap@[j].0@ == k;
                }
            }
            assert(rest.dom() =~= Set::empty());
            assert(rest.dom().len() == 0);
            assert(waiter_sum(rest) == 0);
        }
        DeduplicationStats { pending_requests: n, total_waiters: total }
    }

    /// Drop every pending entry and its waiters.
    pub fn clear(&mut self)
        requires
            old(self).wf(),
        ensures
            final(self).wf(),
            final(self).config == old(self).config,
            final(self).next_token == old(self).next_token,
            final(self).pending() == empty_pending(),
    {
        pstore_clear(&mut self.registry);
    }
}

/// Statistics for request deduplication.
#[derive(Clone, Copy, Debug, PartialEq, Eq, Structural)]
pub struct DeduplicationStats {
    pub pending_requests: usize,
    pub total_waiters: usize,
}

/// Errors that can occur during request deduplication. Both are local to the
/// waiting caller: a timed-out or abandoned waiter never affects the owner or
/// the other waiters.
#[derive(Clone, Copy, Debug, PartialEq, Eq, Structural)]
pub enum DeduplicationError {
    Timeout,
    SenderDropped,
}

impl DeduplicationError {
    /// A human-readable description of the error.
    pub fn message(&self) -> (r: &'static str)
        ensures
            (match self {
                DeduplicationError::Timeout => r@ == "Request timed out"@,
                DeduplicationError::SenderDropped => r@ == "Sender was dropped"@,
            }),
    {
        match self {
            DeduplicationError::Timeout => "Request timed out",
            DeduplicationError::SenderDropped => "Sender was dropped",
        }
    }
}

/// Coalescing keeps a single owner: while an entry registered at `now1` is
/// still within the timeout at `now2`, the sweep keeps it, so a second
/// registration for the same fingerprint attaches as a waiter instead of
/// becoming a second owner.
pub proof fn lemma_coalescing_window(
    m: Map<(bool, Seq<char>), PendingEntryV>,
    k: (bool, Seq<char>),
    now2: i64,
    timeout: i64,
)
    requires
        m.dom().contains(k),
        now2 - m[k].started_at <= timeout,
    ensures
        swept_pending(m, now2, timeout).dom().contains(k),
        swept_pending(m, now2, timeout)[k] == m[k],
{
}

/// Non-interference across fingerprints: sweeping within the window and then
/// registering a different fingerprint leaves a pending entry untouched, so
/// each fingerprint's fetch runs independently.
pub proof fn lemma_non_interference(
    m: Map<(bool, Seq<char>), PendingEntryV>,
    k1: (bool, Seq<char>),
    k2: (bool, Seq<char>),
    e2: PendingEntryV,
    now: i64,
    timeout: i64,
)
    requires
        k1 != k2,
        m.dom().contains(k1),
        now - m[k1].started_at <= timeout,
    ensures
        swept_pending(m, now, timeout).insert(k2, e2).dom().contains(k1),
        swept_pending(m, now, timeout).insert(k2, e2)[k1] == m[k1],
{
}

/// Idempotent sweep: sweeping an already-swept registry removes nothing more,
/// and sweeping an empty registry leaves it empty.
pub proof fn lemma_sweep_idempotent(
    m: Map<(bool, Seq<char>), PendingEntryV>,
    now: i64,
    timeout: i64,
)
    ensures
        swept_pending(swept_pending(m, now, timeout), now, timeout) == swept_pending(
            m,
            now,
            timeout,
        ),
        swept_pending(empty_pending(), now, timeout) == empty_pending(),
{
    assert(swept_pending(swept_pending(m, now, timeout), now, timeout) =~= swept_pending(
        m,
        now,
        timeout,
    ));
    assert(swept_pending(empty_pending(), now, timeout) =~= empty_pending());
}

/// Waiter isolation: in a well-formed registry, two different waiter
/// positions hold different tokens, so fulfilling, abandoning or timing out
/// one waiter's handle cannot touch another waiter's.
pub proof fn lemma_waiter_tokens_distinct(
    d: RequestDeduplicator,
    k1: (bool, Seq<char>),
    i1: int,
    k2: (bool, Seq<char>),
    i2: int,
)
    requires
        d.wf(),
        d.pending().dom().contains(k1),
        d.pending().dom().contains(k2),
        0 <= i1 < d.pending()[k1].waiters.len(),
        0 <= i2 < d.pending()[k2].waiters.len(),
        k1 != k2 || i1 != i2,
    ensures
        d.pending()[k1].waiters[i1] != d.pending()[k2].waiters[i2],
{
}

} // verus!
