//! The hydration queue.

use unisonfs::cache::hydration::{
    HydrationKey, HydrationScheduler, HydrationStep, HYDRATION_CONCURRENCY,
};

#[test]
fn enqueue_dedupes_pending() {
    let mut s = HydrationScheduler::new();
    s.enqueue(HydrationKey::Prefix("/docs/".into()));
    s.enqueue(HydrationKey::Prefix("/docs/".into()));
    s.enqueue(HydrationKey::Prefix("/docs/".into()));
    assert_eq!(s.pending_len(), 1);
}

#[test]
fn claim_next_drains_in_fifo_order() {
    let mut s = HydrationScheduler::new();
    s.enqueue(HydrationKey::Exact("/a.md".into()));
    s.enqueue(HydrationKey::Exact("/b.md".into()));
    s.enqueue(HydrationKey::Exact("/c.md".into()));
    assert_eq!(s.claim_next(), Some(HydrationKey::Exact("/a.md".into())));
    assert_eq!(s.claim_next(), Some(HydrationKey::Exact("/b.md".into())));
    assert_eq!(s.claim_next(), Some(HydrationKey::Exact("/c.md".into())));
    assert_eq!(s.claim_next(), None);
}

#[test]
fn enqueue_skips_inflight() {
    let mut s = HydrationScheduler::new();
    s.enqueue(HydrationKey::Exact("/x".into()));
    let _ = s.claim_next();
    assert_eq!(s.inflight_len(), 1);
    s.enqueue(HydrationKey::Exact("/x".into())); // already inflight
    assert_eq!(s.pending_len(), 0);
}

#[test]
fn negative_ttl_suppresses_recent_completion() {
    let mut s = HydrationScheduler::new();
    s.enqueue(HydrationKey::Exact("/x".into()));
    let key = s.claim_next().unwrap();
    s.complete(key);
    s.enqueue(HydrationKey::Exact("/x".into()));
    assert_eq!(s.pending_len(), 0);
}

#[test]
fn negative_ttl_expires_eventually() {
    let mut s = HydrationScheduler::with_ttl(20_000_000);
    let start = 1_000u128;
    s.enqueue_at(HydrationKey::Exact("/x".into()), start);
    let key = s.claim_next().unwrap();
    s.complete_at(key, start);
    s.enqueue_at(HydrationKey::Exact("/x".into()), start + 40_000_000);
    assert_eq!(s.pending_len(), 1);
}

#[test]
fn hydration_scheduler_fifo_dedup() {
    let mut hs = HydrationScheduler::new();

    hs.enqueue(HydrationKey::Exact("/a.md".to_string()));
    hs.enqueue(HydrationKey::Exact("/b.md".to_string()));
    // Duplicate — should not re-enqueue /a.md
    hs.enqueue(HydrationKey::Exact("/a.md".to_string()));

    let first = hs.claim_next().expect("first claim");
    assert_eq!(first.path(), "/a.md");

    let second = hs.claim_next().expect("second claim");
    assert_eq!(second.path(), "/b.md");

    assert!(hs.claim_next().is_none(), "queue should be empty (dedup)");
}

#[test]
fn exact_and_prefix_keys_differ() {
    let mut s = HydrationScheduler::new();
    assert!(s.enqueue(HydrationKey::Exact("/docs/".into())));
    assert!(s.enqueue(HydrationKey::Prefix("/docs/".into())));
    assert!(!s.enqueue(HydrationKey::Prefix("/docs/".into())));
    assert_eq!(s.pending_len(), 2);
}

#[test]
fn the_worker_runs_a_few_at_a_time() {
    let mut s = HydrationScheduler::new();
    assert_eq!(s.next_step(0, false), HydrationStep::Wait);
    s.enqueue(HydrationKey::Exact("/a".into()));
    assert_eq!(s.next_step(HYDRATION_CONCURRENCY, false), HydrationStep::Wait);
    assert_eq!(s.next_step(0, true), HydrationStep::Stop);
    assert_eq!(
        s.next_step(HYDRATION_CONCURRENCY - 1, false),
        HydrationStep::Run(HydrationKey::Exact("/a".into()))
    );
    assert_eq!(s.inflight_len(), 1);
}
