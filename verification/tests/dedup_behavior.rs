use torrent_search_client::dedup::{
    DeduplicationConfig, DeduplicationError, RegisterOutcome, RequestDeduplicator,
};
use torrent_search_client::fingerprint::CacheKey;

fn key(tag: &str) -> CacheKey {
    CacheKey::Search(tag.to_string())
}

#[test]
fn first_caller_owns_later_callers_wait() {
    let mut dedup = RequestDeduplicator::new(DeduplicationConfig::default());
    let k = key("q");

    assert_eq!(dedup.register(&k, 0), RegisterOutcome::Owner);
    assert_eq!(dedup.register(&k, 10), RegisterOutcome::Waiter(0));
    assert_eq!(dedup.register(&k, 20), RegisterOutcome::Waiter(1));

    let stats = dedup.stats();
    assert_eq!(stats.pending_requests, 1);
    assert_eq!(stats.total_waiters, 2);

    // the owner completes once and fans out to every waiter exactly once
    let waiters = dedup.complete(&k);
    assert_eq!(waiters, vec![0, 1]);
    assert_eq!(dedup.stats().pending_requests, 0);

    // after completion the fingerprint can be owned afresh
    assert_eq!(dedup.register(&k, 30), RegisterOutcome::Owner);
}

#[test]
fn different_fingerprints_do_not_coalesce() {
    let mut dedup = RequestDeduplicator::new(DeduplicationConfig::default());
    let k1 = key("q1");
    let k2 = key("q2");

    assert_eq!(dedup.register(&k1, 0), RegisterOutcome::Owner);
    assert_eq!(dedup.register(&k2, 0), RegisterOutcome::Owner);

    let stats = dedup.stats();
    assert_eq!(stats.pending_requests, 2);
    assert_eq!(stats.total_waiters, 0);

    assert_eq!(dedup.complete(&k1), Vec::<u64>::new());
    // completing one fingerprint leaves the other pending
    assert_eq!(dedup.stats().pending_requests, 1);
    assert_eq!(dedup.register(&k2, 5), RegisterOutcome::Waiter(0));
}

#[test]
fn cleanup_sweeps_entries_older_than_the_timeout() {
    let mut dedup = RequestDeduplicator::new(DeduplicationConfig {
        request_timeout: 30_000,
        enabled: true,
    });
    let k1 = key("stuck");
    let k2 = key("fresh");

    assert_eq!(dedup.register(&k1, 0), RegisterOutcome::Owner);
    assert_eq!(dedup.register(&k1, 10), RegisterOutcome::Waiter(0));
    assert_eq!(dedup.register(&k2, 25_000), RegisterOutcome::Owner);

    // within the window nothing is swept
    assert!(dedup.cleanup_expired(30_000).is_empty());
    assert_eq!(dedup.stats().pending_requests, 2);

    // past the window the stuck entry goes, its waiter's handle is returned
    let dropped = dedup.cleanup_expired(40_000);
    assert_eq!(dropped, vec![0]);
    assert_eq!(dedup.stats().pending_requests, 1);

    // the swept fingerprint can be owned again; the fresh one still coalesces
    assert_eq!(dedup.register(&k1, 40_000), RegisterOutcome::Owner);
    assert_eq!(dedup.register(&k2, 40_000), RegisterOutcome::Waiter(1));
}

#[test]
fn waiters_hold_distinct_tokens() {
    let mut dedup = RequestDeduplicator::new(DeduplicationConfig::default());
    let k1 = key("q1");
    let k2 = key("q2");
    dedup.register(&k1, 0);
    dedup.register(&k2, 0);
    let mut tokens = vec![];
    for i in 0..5u64 {
        match dedup.register(&k1, i as i64) {
            RegisterOutcome::Waiter(t) => tokens.push(t),
            _ => panic!("a registered fingerprint must coalesce"),
        }
        match dedup.register(&k2, i as i64) {
            RegisterOutcome::Waiter(t) => tokens.push(t),
            _ => panic!("a registered fingerprint must coalesce"),
        }
    }
    let mut deduped = tokens.clone();
    deduped.sort();
    deduped.dedup();
    assert_eq!(deduped.len(), tokens.len());
}

#[test]
fn disabled_coalescing_bypasses_the_registry() {
    let mut dedup = RequestDeduplicator::new(DeduplicationConfig {
        request_timeout: 30_000,
        enabled: false,
    });
    let k = key("q");
    assert_eq!(dedup.register(&k, 0), RegisterOutcome::Bypass);
    assert_eq!(dedup.register(&k, 1), RegisterOutcome::Bypass);
    assert_eq!(dedup.stats().pending_requests, 0);
}

#[test]
fn clear_drops_all_pending_entries() {
    let mut dedup = RequestDeduplicator::new(DeduplicationConfig::default());
    dedup.register(&key("a"), 0);
    dedup.register(&key("b"), 0);
    dedup.register(&key("a"), 1);
    dedup.clear();
    assert_eq!(dedup.stats().pending_requests, 0);
    assert_eq!(dedup.stats().total_waiters, 0);
    // clearing an empty registry is a no-op
    dedup.clear();
    assert_eq!(dedup.stats().pending_requests, 0);
}

#[test]
fn completing_an_absent_fingerprint_is_harmless() {
    let mut dedup = RequestDeduplicator::new(DeduplicationConfig::default());
    assert_eq!(dedup.complete(&key("nothing")), Vec::<u64>::new());
    assert_eq!(dedup.stats().pending_requests, 0);
}

#[test]
fn default_deduplication_config() {
    let config = DeduplicationConfig::default();
    assert_eq!(config.request_timeout, 30_000);
    assert!(config.enabled);
}

#[test]
fn error_messages_name_the_failure() {
    assert_eq!(DeduplicationError::Timeout.message(), "Request timed out");
    assert_eq!(DeduplicationError::SenderDropped.message(), "Sender was dropped");
    assert_ne!(DeduplicationError::Timeout, DeduplicationError::SenderDropped);
}
