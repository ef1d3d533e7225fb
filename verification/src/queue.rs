//! The transaction-queue consumer's decisions. Payloads live in the store's
//! per-chain FIFO; the consumer peeks at the head, the surrounding loop
//! submits it to the chain, and the outcome decides whether the head is
//! dequeued (confirmed), retried in place, or moved to the dead-letter area.
//! Because the head is removed only on confirmation or poisoning, no payload
//! is ever lost: at-least-once delivery.

use vstd::prelude::*;
use crate::store::{QueueKey, Store};

verus! {

/// How one submission of the head payload ended.
#[derive(PartialEq, Eq, Structural, Clone, Copy, Debug)]
pub enum SubmitOutcome {
    /// The chain confirmed the transaction.
    Confirmed,
    /// A transient failure: network trouble, a nonce race, a temporary
    /// rejection, or a confirmation timeout.
    TransientError,
    /// The confirmation wait timed out.
    ConfirmationTimeout,
}

/// What to do with the head payload after a submission attempt.
#[derive(PartialEq, Eq, Structural, Clone, Copy, Debug)]
pub enum QueueDecision {
    /// Confirmed: remove it from the queue.
    Dequeue,
    /// Failed but under the attempt ceiling: leave it at the head and retry
    /// after a delay.
    Retry,
    /// Failed at the attempt ceiling: move it to the dead-letter area.
    Poison,
}

/// Confirmed payloads leave the queue; failures retry until the attempt
/// ceiling and are then classified as poison.
pub open spec fn decide_spec(outcome: SubmitOutcome, attempts: u32, max_attempts: u32) -> QueueDecision {
    if outcome == SubmitOutcome::Confirmed {
        QueueDecision::Dequeue
    } else if attempts + 1 < max_attempts {
        QueueDecision::Retry
    } else {
        QueueDecision::Poison
    }
}

/// Classify the head payload after `attempts` prior failed attempts.
pub fn decide_after_submission(outcome: SubmitOutcome, attempts: u32, max_attempts: u32) -> (r:
    QueueDecision)
    ensures
        r == decide_spec(outcome, attempts, max_attempts),
{
    if matches!(outcome, SubmitOutcome::Confirmed) {
        QueueDecision::Dequeue
    } else if attempts < u32::MAX && attempts + 1 < max_attempts {
        QueueDecision::Retry
    } else {
        proof {
            if attempts == u32::MAX {
                assert(attempts + 1 >= max_attempts);
            }
        }
        QueueDecision::Poison
    }
}

/// Carry out a decision on the queue's head payload. Returns the payload that
/// left the queue, if any: the confirmed payload on `Dequeue`, the poisoned
/// one on `Poison` (which then sits in the dead-letter area), nothing on
/// `Retry`.
pub fn settle_front(store: &mut Store, key: QueueKey, decision: QueueDecision) -> (r: Option<
    Vec<u8>,
>)
    requires
        old(store).wf(),
    ensures
        final(store).wf(),
        match decision {
            QueueDecision::Retry => (r is None) && final(store).queue_of(key) == old(store).queue_of(key)
                && final(store).dead_letter_view() == old(store).dead_letter_view(),
            QueueDecision::Dequeue => {
                if old(store).queue_of(key).len() == 0 {
                    (r is None) && final(store).queue_of(key) == old(store).queue_of(key)
                        && final(store).dead_letter_view() == old(store).dead_letter_view()
                } else {
                    &&& (r matches Some(p) && p@ == old(store).queue_of(key)[0])
                    &&& final(store).queue_of(key) == old(store).queue_of(key).drop_first()
                    &&& final(store).dead_letter_view() == old(store).dead_letter_view()
                }
            },
            QueueDecision::Poison => {
                if old(store).queue_of(key).len() == 0 {
                    (r is None) && final(store).queue_of(key) == old(store).queue_of(key)
                        && final(store).dead_letter_view() == old(store).dead_letter_view()
                } else {
                    &&& (r matches Some(p) && p@ == old(store).queue_of(key)[0])
                    &&& final(store).queue_of(key) == old(store).queue_of(key).drop_first()
                    &&& final(store).dead_letter_view() == old(store).dead_letter_view().push(
                        old(store).queue_of(key)[0],
                    )
                }
            },
        },
        forall|k2: QueueKey| k2 != key ==> final(store).queue_of(k2) == old(store).queue_of(k2),
        forall|r2: crate::store::ResourceId|
            final(store).leaves_of(r2) == old(store).leaves_of(r2) && final(store).last_block_of(
                r2,
            ) == old(store).last_block_of(r2),
        final(store).events_view() == old(store).events_view(),
{
    match decision {
        QueueDecision::Retry => None,
        QueueDecision::Dequeue => store.dequeue_item(key),
        QueueDecision::Poison => {
            match store.dequeue_item(key) {
                Some(p) => {
                    let kept = crate::bytes::clone_bytes(&p);
                    store.push_dead_letter(p);
                    Some(kept)
                },
                None => None,
            }
        },
    }
}

/// At-least-once delivery: a payload queued before a consumer step is, after
/// the step, still in the queue, or is the very payload the step removed —
/// confirmed, or preserved in the dead-letter area. No step loses a payload.
pub proof fn lemma_no_payload_lost(
    queue_before: Seq<Seq<u8>>,
    queue_after: Seq<Seq<u8>>,
    removed: Seq<u8>,
    p: Seq<u8>,
)
    requires
        queue_before.len() > 0,
        removed == queue_before[0],
        queue_after == queue_before.drop_first(),
        queue_before.contains(p),
    ensures
        queue_after.contains(p) || p == removed,
{
    let i = choose|i: int| 0 <= i < queue_before.len() && queue_before[i] == p;
    if i > 0 {
        assert(queue_after[i - 1] == p);
    }
}

} // verus!
