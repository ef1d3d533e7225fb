//! The watcher's fetch and backoff formulas, its state machine under
//! shutdown, the transaction queue's FIFO order, and the retry/poison policy.

use webb_relayer::event::{encode_event, LogMeta, VAnchorEvent};
use webb_relayer::queue::{decide_after_submission, settle_front, QueueDecision, SubmitOutcome};
use webb_relayer::store::{QueueKey, Store};
use webb_relayer::watcher::{
    check_chain_order, compute_fetch_range, next_backoff_ms, watcher_step, WatcherEvent,
    WatcherPhase, WatcherState,
};

#[test]
fn caught_up_watcher_fetches_nothing() {
    // head - confirmations <= last_block: no fetch.
    assert_eq!(compute_fetch_range(100, 105, 10, 50), None);
    assert_eq!(compute_fetch_range(100, 110, 10, 50), None);
    // A window opens one block past the cursor, up to the finalized head.
    assert_eq!(compute_fetch_range(100, 120, 10, 50), Some((101, 110)));
    // The window is capped at one maximal range past the cursor.
    assert_eq!(compute_fetch_range(100, 500, 10, 50), Some((101, 150)));
    // Confirmations larger than the head mean nothing is finalized.
    assert_eq!(compute_fetch_range(0, 5, 10, 50), None);
}

#[test]
fn backoff_doubles_and_caps() {
    assert_eq!(next_backoff_ms(100, 0, 60_000), 100);
    assert_eq!(next_backoff_ms(100, 1, 60_000), 200);
    assert_eq!(next_backoff_ms(100, 3, 60_000), 800);
    assert_eq!(next_backoff_ms(100, 20, 60_000), 60_000);
    assert_eq!(next_backoff_ms(100, 200, 60_000), 60_000);
}

#[test]
fn shutdown_mid_fetch_finishes_batch_then_stops() {
    let s0 = WatcherState { phase: WatcherPhase::Idle, shutdown_requested: false, retries: 0 };
    let s1 = watcher_step(s0, WatcherEvent::PollDue);
    assert_eq!(s1.phase, WatcherPhase::Fetching);
    // Shutdown arrives while the fetch is in flight: it is noted, the fetch
    // is not aborted.
    let s2 = watcher_step(s1, WatcherEvent::ShutdownRequested);
    assert_eq!(s2.phase, WatcherPhase::Fetching);
    assert!(s2.shutdown_requested);
    // The current fetch and dispatch finish...
    let s3 = watcher_step(s2, WatcherEvent::FetchDone);
    assert_eq!(s3.phase, WatcherPhase::Dispatching);
    let s4 = watcher_step(s3, WatcherEvent::DispatchSucceeded);
    // ...and no second batch starts.
    assert_eq!(s4.phase, WatcherPhase::Stopped);
    let s5 = watcher_step(s4, WatcherEvent::PollDue);
    assert_eq!(s5.phase, WatcherPhase::Stopped);
}

#[test]
fn shutdown_at_idle_stops_immediately() {
    let s0 = WatcherState { phase: WatcherPhase::Idle, shutdown_requested: false, retries: 0 };
    let s1 = watcher_step(s0, WatcherEvent::ShutdownRequested);
    assert_eq!(s1.phase, WatcherPhase::Stopped);
}

#[test]
fn failed_dispatch_backs_off_and_retries() {
    let s0 = WatcherState { phase: WatcherPhase::Idle, shutdown_requested: false, retries: 0 };
    let s1 = watcher_step(s0, WatcherEvent::PollDue);
    let s2 = watcher_step(s1, WatcherEvent::FetchDone);
    let s3 = watcher_step(s2, WatcherEvent::DispatchFailed);
    assert_eq!(s3.phase, WatcherPhase::Backoff);
    assert_eq!(s3.retries, 1);
    let s4 = watcher_step(s3, WatcherEvent::BackoffElapsed);
    assert_eq!(s4.phase, WatcherPhase::Idle);
    // A later success clears the retry counter.
    let s5 = watcher_step(s4, WatcherEvent::PollDue);
    let s6 = watcher_step(s5, WatcherEvent::FetchDone);
    let s7 = watcher_step(s6, WatcherEvent::DispatchSucceeded);
    assert_eq!(s7.phase, WatcherPhase::Idle);
    assert_eq!(s7.retries, 0);
}

#[test]
fn delivery_order_is_block_then_log_index() {
    let m = |b: u64, l: u64| LogMeta { block_number: b, log_index: l };
    assert!(check_chain_order(&vec![]));
    assert!(check_chain_order(&vec![m(1, 0)]));
    assert!(check_chain_order(&vec![m(1, 0), m(1, 1), m(2, 0), m(5, 3)]));
    // Same position twice is not strict order.
    assert!(!check_chain_order(&vec![m(1, 0), m(1, 0)]));
    // A later block may not come first.
    assert!(!check_chain_order(&vec![m(2, 0), m(1, 5)]));
    // Within one block, log indices must rise.
    assert!(!check_chain_order(&vec![m(1, 4), m(1, 3)]));
}

#[test]
fn encoded_event_is_tag_then_fields() {
    let e = VAnchorEvent::NewCommitment { leaf_index: 258, commitment: vec![7u8; 32] };
    let mut expected = vec![0u8, 0, 0, 1, 2];
    expected.extend(vec![7u8; 32]);
    assert_eq!(encode_event(&e), expected);
}

#[test]
fn tx_queue_is_fifo() {
    let mut store = Store::new();
    let key = QueueKey { chain_id: 1 };
    let p1 = b"payload one".to_vec();
    let p2 = b"payload two".to_vec();
    let p3 = b"payload three".to_vec();
    store.enqueue_item(key, p1.clone());
    store.enqueue_item(key, p2.clone());
    store.enqueue_item(key, p3.clone());

    // The consumer submits the head and dequeues only on confirmation; the
    // chain sees the payloads in enqueue order.
    let mut submitted: Vec<Vec<u8>> = Vec::new();
    loop {
        let head = match store.peek_item(key) {
            Some(h) => h,
            None => break,
        };
        submitted.push(head);
        let decision = decide_after_submission(SubmitOutcome::Confirmed, 0, 3);
        assert_eq!(decision, QueueDecision::Dequeue);
        settle_front(&mut store, key, decision);
    }
    assert_eq!(submitted, vec![p1, p2, p3]);
    assert_eq!(store.peek_item(key), None);
}

#[test]
fn transient_failures_retry_then_poison() {
    let mut store = Store::new();
    let key = QueueKey { chain_id: 7 };
    let p = b"stubborn".to_vec();
    store.enqueue_item(key, p.clone());

    // Two failed attempts under a ceiling of three: the payload stays put.
    for attempts in 0..2u32 {
        let d = decide_after_submission(SubmitOutcome::TransientError, attempts, 3);
        assert_eq!(d, QueueDecision::Retry);
        assert_eq!(settle_front(&mut store, key, d), None);
        assert_eq!(store.peek_item(key), Some(p.clone()));
    }
    // The third failure reaches the ceiling: the payload is set aside, not
    // lost.
    let d = decide_after_submission(SubmitOutcome::ConfirmationTimeout, 2, 3);
    assert_eq!(d, QueueDecision::Poison);
    assert_eq!(settle_front(&mut store, key, d), Some(p));
    assert_eq!(store.peek_item(key), None);
    assert_eq!(store.dead_letter_count(), 1);
}

#[test]
fn queues_are_independent_per_chain() {
    let mut store = Store::new();
    let k1 = QueueKey { chain_id: 1 };
    let k2 = QueueKey { chain_id: 2 };
    store.enqueue_item(k1, b"a".to_vec());
    store.enqueue_item(k2, b"b".to_vec());
    assert_eq!(settle_front(&mut store, k1, QueueDecision::Dequeue), Some(b"a".to_vec()));
    assert_eq!(store.peek_item(k2), Some(b"b".to_vec()));
    assert_eq!(store.peek_item(k1), None);
}
