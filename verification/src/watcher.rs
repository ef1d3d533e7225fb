//! The event-watcher runtime's decisions: which block window to fetch, how
//! long to back off after a failure, when to skip a replayed event, and the
//! task's state machine. The surrounding loop performs the network work and
//! feeds the outcomes back in.

use vstd::prelude::*;
use vstd::arithmetic::power2::pow2;
use crate::event::{encode_event, encode_spec, LogMeta, VAnchorEvent};
use crate::store::Store;

verus! {

/// The end of the next fetch window: the finalized head (head minus the
/// confirmation depth) capped at one maximal range past the cursor.
pub open spec fn fetch_end_spec(last_block: u64, head: u64, confirmations: u64, max_blocks: u64) -> int {
    let safe: int = if head >= confirmations {
        head - confirmations
    } else {
        0
    };
    let cap: int = if last_block + max_blocks <= u64::MAX {
        last_block + max_blocks
    } else {
        u64::MAX as int
    };
    if safe <= cap {
        safe
    } else {
        cap
    }
}

/// The block window `[last_block + 1, end]` to fetch next, or nothing when
/// the chain offers no finalized block past the cursor. In particular, when
/// `head - confirmations <= last_block` there is nothing to fetch.
pub fn compute_fetch_range(last_block: u64, head: u64, confirmations: u64, max_blocks: u64) -> (r:
    Option<(u64, u64)>)
    ensures
        ({
            let end = fetch_end_spec(last_block, head, confirmations, max_blocks);
            if end <= last_block {
                r is None
            } else {
                r == Some::<(u64, u64)>(((last_block + 1) as u64, end as u64))
            }
        }),
{
    let safe: u64 = if head >= confirmations {
        head - confirmations
    } else {
        0
    };
    let cap: u64 = if max_blocks <= u64::MAX - last_block {
        last_block + max_blocks
    } else {
        u64::MAX
    };
    let end: u64 = if safe <= cap {
        safe
    } else {
        cap
    };
    if end <= last_block {
        None
    } else {
        Some((last_block + 1, end))
    }
}

/// A caught-up watcher fetches nothing: when the finalized head is at or
/// behind the cursor, no window is offered.
pub proof fn lemma_caught_up_no_fetch(last_block: u64, head: u64, confirmations: u64, max_blocks: u64)
    requires
        head - confirmations <= last_block,
    ensures
        fetch_end_spec(last_block, head, confirmations, max_blocks) <= last_block,
{
}

/// Exponential backoff: the base delay doubled per retry, capped.
pub open spec fn backoff_spec(base: u64, retries: u32, cap: u64) -> int {
    if base * pow2(retries as nat) <= cap {
        base * pow2(retries as nat)
    } else {
        cap as int
    }
}

/// The delay before the next attempt: `base * 2^retries`, capped at `cap`.
pub fn next_backoff_ms(base: u64, retries: u32, cap: u64) -> (r: u64)
    requires
        base <= cap,
    ensures
        r == backoff_spec(base, retries, cap),
{
    proof {
        vstd::arithmetic::power2::lemma2_to64();
    }
    let mut d: u64 = base;
    let mut i: u32 = 0;
    while i < retries
        invariant
            i <= retries,
            base <= cap,
            d == backoff_spec(base, i, cap),
            d <= cap,
        decreases retries - i,
    {
        proof {
            vstd::arithmetic::power2::lemma_pow2_unfold((i + 1) as nat);
            assert(base * (2 * pow2(i as nat)) == 2 * (base * pow2(i as nat)))
                by (nonlinear_arith);
        }
        if d > cap - d {
            proof {
                if base * pow2(i as nat) <= cap {
                    assert(base * pow2((i + 1) as nat) > cap);
                }
            }
            d = cap;
        } else {
            d = d + d;
        }
        i = i + 1;
    }
    d
}

/// The phases of one watcher task.
#[derive(PartialEq, Eq, Structural, Clone, Copy, Debug)]
pub enum WatcherPhase {
    Idle,
    Fetching,
    Dispatching,
    Backoff,
    Stopped,
}

/// One watcher task's control state.
#[derive(PartialEq, Eq, Structural, Clone, Copy, Debug)]
pub struct WatcherState {
    pub phase: WatcherPhase,
    pub shutdown_requested: bool,
    pub retries: u32,
}

/// What the surrounding loop observed.
#[derive(PartialEq, Eq, Structural, Clone, Copy, Debug)]
pub enum WatcherEvent {
    PollDue,
    FetchDone,
    DispatchSucceeded,
    DispatchFailed,
    BackoffElapsed,
    ShutdownRequested,
}

/// The watcher's transition relation: `Idle -> Fetching -> Dispatching ->
/// (Idle | Backoff) -> Idle`, with `Stopped` reached only through shutdown,
/// and shutdown honored at the loop boundaries (`Idle`, `Backoff`) while an
/// in-flight fetch or dispatch is allowed to finish first.
pub open spec fn watcher_step_spec(s: WatcherState, e: WatcherEvent) -> WatcherState {
    if s.phase == WatcherPhase::Stopped {
        s
    } else if e == WatcherEvent::ShutdownRequested {
        if s.phase == WatcherPhase::Idle || s.phase == WatcherPhase::Backoff {
            WatcherState { phase: WatcherPhase::Stopped, shutdown_requested: true, ..s }
        } else {
            WatcherState { shutdown_requested: true, ..s }
        }
    } else if s.phase == WatcherPhase::Idle && e == WatcherEvent::PollDue {
        if s.shutdown_requested {
            WatcherState { phase: WatcherPhase::Stopped, ..s }
        } else {
            WatcherState { phase: WatcherPhase::Fetching, ..s }
        }
    } else if s.phase == WatcherPhase::Fetching && e == WatcherEvent::FetchDone {
        WatcherState { phase: WatcherPhase::Dispatching, ..s }
    } else if s.phase == WatcherPhase::Dispatching && e == WatcherEvent::DispatchSucceeded {
        WatcherState {
            phase: if s.shutdown_requested {
                WatcherPhase::Stopped
            } else {
                WatcherPhase::Idle
            },
            retries: 0,
            ..s
        }
    } else if s.phase == WatcherPhase::Dispatching && e == WatcherEvent::DispatchFailed {
        WatcherState {
            phase: if s.shutdown_requested {
                WatcherPhase::Stopped
            } else {
                WatcherPhase::Backoff
            },
            retries: if s.retries < 0xFFFF_FFFF {
                (s.retries + 1) as u32
            } else {
                s.retries
            },
            ..s
        }
    } else if s.phase == WatcherPhase::Backoff && e == WatcherEvent::BackoffElapsed {
        WatcherState { phase: WatcherPhase::Idle, ..s }
    } else {
        s
    }
}

/// Advance the watcher's control state by one observed event.
pub fn watcher_step(s: WatcherState, e: WatcherEvent) -> (r: WatcherState)
    ensures
        r == watcher_step_spec(s, e),
{
    if matches!(s.phase, WatcherPhase::Stopped) {
        s
    } else if matches!(e, WatcherEvent::ShutdownRequested) {
        if matches!(s.phase, WatcherPhase::Idle) || matches!(s.phase, WatcherPhase::Backoff) {
            WatcherState { phase: WatcherPhase::Stopped, shutdown_requested: true, ..s }
        } else {
            WatcherState { shutdown_requested: true, ..s }
        }
    } else if matches!(s.phase, WatcherPhase::Idle) && matches!(e, WatcherEvent::PollDue) {
        if s.shutdown_requested {
            WatcherState { phase: WatcherPhase::Stopped, ..s }
        } else {
            WatcherState { phase: WatcherPhase::Fetching, ..s }
        }
    } else if matches!(s.phase, WatcherPhase::Fetching) && matches!(e, WatcherEvent::FetchDone) {
        WatcherState { phase: WatcherPhase::Dispatching, ..s }
    } else if matches!(s.phase, WatcherPhase::Dispatching) && matches!(
        e,
        WatcherEvent::DispatchSucceeded,
    ) {
        WatcherState {
            phase: if s.shutdown_requested {
                WatcherPhase::Stopped
            } else {
                WatcherPhase::Idle
            },
            retries: 0,
            ..s
        }
    } else if matches!(s.phase, WatcherPhase::Dispatching) && matches!(
        e,
        WatcherEvent::DispatchFailed,
    ) {
        WatcherState {
            phase: if s.shutdown_requested {
                WatcherPhase::Stopped
            } else {
                WatcherPhase::Backoff
            },
            retries: if s.retries < 0xFFFF_FFFF {
                s.retries + 1
            } else {
                s.retries
            },
            ..s
        }
    } else if matches!(s.phase, WatcherPhase::Backoff) && matches!(e, WatcherEvent::BackoffElapsed) {
        WatcherState { phase: WatcherPhase::Idle, ..s }
    } else {
        s
    }
}

/// Once shutdown is requested it stays requested, and the watcher never
/// starts another fetch: a later state is `Fetching` only if the fetch was
/// already in flight when shutdown arrived.
pub proof fn lemma_shutdown_no_new_fetch(s: WatcherState, e: WatcherEvent)
    requires
        s.shutdown_requested,
    ensures
        watcher_step_spec(s, e).shutdown_requested,
        watcher_step_spec(s, e).phase == WatcherPhase::Fetching ==> s.phase
            == WatcherPhase::Fetching,
{
}

/// After shutdown, an in-flight batch finishes and the task exits: from
/// `Dispatching` with shutdown requested, either dispatch outcome leads
/// straight to `Stopped`.
pub proof fn lemma_shutdown_stops_after_dispatch(s: WatcherState)
    requires
        s.shutdown_requested,
        s.phase == WatcherPhase::Dispatching,
    ensures
        watcher_step_spec(s, WatcherEvent::DispatchSucceeded).phase == WatcherPhase::Stopped,
        watcher_step_spec(s, WatcherEvent::DispatchFailed).phase == WatcherPhase::Stopped,
{
}

/// Whether a decoded event should be delivered to the handlers or skipped as
/// a replay.
#[derive(PartialEq, Eq, Structural, Clone, Copy, Debug)]
pub enum DispatchDecision {
    Skip,
    Deliver,
}

/// Skip exactly the events whose serialized form was recorded before.
pub open spec fn dispatch_decision_spec(store: Store, e: VAnchorEvent) -> DispatchDecision {
    if store.events_view().contains(encode_spec(e)) {
        DispatchDecision::Skip
    } else {
        DispatchDecision::Deliver
    }
}

/// Decide whether to deliver an event or suppress it as a replay.
pub fn dispatch_decision(store: &Store, event: &VAnchorEvent) -> (d: DispatchDecision)
    requires
        store.wf(),
    ensures
        d == dispatch_decision_spec(*store, *event),
{
    let encoded = encode_event(event);
    if store.contains_event(&encoded) {
        DispatchDecision::Skip
    } else {
        DispatchDecision::Deliver
    }
}

/// Replaying a previously seen event is a no-op: once its serialized form is
/// recorded — as every successful `handle_event` and `complete_root_check`
/// does — the dispatch decision for it is to skip, and a skipped event
/// touches neither the store nor any handler.
pub proof fn lemma_replay_skipped(store: Store, e: VAnchorEvent)
    requires
        store.events_view().contains(encode_spec(e)),
    ensures
        dispatch_decision_spec(store, e) == DispatchDecision::Skip,
{
}

/// One log position strictly precedes another: an earlier block, or the same
/// block and an earlier log index.
pub open spec fn meta_precedes(a: LogMeta, b: LogMeta) -> bool {
    a.block_number < b.block_number || (a.block_number == b.block_number && a.log_index
        < b.log_index)
}

/// A batch is in strict chain order: every event strictly precedes the next.
pub open spec fn chain_ordered(metas: Seq<LogMeta>) -> bool {
    forall|i: int, j: int|
        0 <= i < j < metas.len() ==> meta_precedes(#[trigger] metas[i], #[trigger] metas[j])
}

/// Strict order between all pairs follows from strict order between
/// neighbours.
proof fn lemma_precedes_span(metas: Seq<LogMeta>, i: int, j: int)
    requires
        forall|k: int| 0 <= k < metas.len() - 1 ==> meta_precedes(
            #[trigger] metas[k],
            metas[k + 1],
        ),
        0 <= i < j < metas.len(),
    ensures
        meta_precedes(metas[i], metas[j]),
    decreases j - i,
{
    if j == i + 1 {
        assert(meta_precedes(metas[i], metas[i + 1]));
    } else {
        lemma_precedes_span(metas, i, j - 1);
        assert(meta_precedes(metas[j - 1], metas[j]));
    }
}

/// Whether a fetched batch is in strict `(block_number, log_index)` order, as
/// delivery to the handlers requires.
pub fn check_chain_order(metas: &Vec<LogMeta>) -> (r: bool)
    ensures
        r == chain_ordered(metas@),
{
    if metas.len() == 0 {
        return true;
    }
    let n = metas.len();
    let mut k: usize = 0;
    while k < n - 1
        invariant
            1 <= n,
            n == metas@.len(),
            k <= n - 1,
            forall|t: int| 0 <= t < k ==> meta_precedes(#[trigger] metas@[t], metas@[t + 1]),
        decreases n - k,
    {
        let a = metas[k];
        let b = metas[k + 1];
        let ok = a.block_number < b.block_number || (a.block_number == b.block_number
            && a.log_index < b.log_index);
        if !ok {
            proof {
                assert(!meta_precedes(metas@[k as int], metas@[k + 1]));
            }
            return false;
        }
        k = k + 1;
    }
    proof {
        assert forall|i: int, j: int|
            0 <= i < j < metas@.len() implies meta_precedes(
            #[trigger] metas@[i],
            #[trigger] metas@[j],
        ) by {
            lemma_precedes_span(metas@, i, j);
        }
    }
    true
}

/// The larger of two block numbers.
pub open spec fn max_u64(a: u64, b: u64) -> u64 {
    if a >= b {
        a
    } else {
        b
    }
}

/// The cursor after a run of successfully processed events, each advancing it
/// to the maximum of itself and the event's block, as the store's
/// `insert_leaves_and_last_deposit_block_number` does.
pub open spec fn cursor_after(init: u64, blocks: Seq<u64>) -> u64
    decreases blocks.len(),
{
    if blocks.len() == 0 {
        init
    } else {
        cursor_after(max_u64(init, blocks[0]), blocks.drop_first())
    }
}

/// The progress cursor is non-decreasing and ends at the maximum block number
/// of any successfully processed event (or stays at its initial value when
/// none exceeds it).
pub proof fn lemma_cursor_monotone_and_max(init: u64, blocks: Seq<u64>)
    ensures
        cursor_after(init, blocks) >= init,
        forall|i: int| 0 <= i < blocks.len() ==> cursor_after(init, blocks) >= blocks[i],
        cursor_after(init, blocks) == init || exists|i: int|
            0 <= i < blocks.len() && cursor_after(init, blocks) == blocks[i],
    decreases blocks.len(),
{
    if blocks.len() > 0 {
        let m = max_u64(init, blocks[0]);
        lemma_cursor_monotone_and_max(m, blocks.drop_first());
        assert forall|i: int| 0 <= i < blocks.len() implies cursor_after(init, blocks)
            >= blocks[i] by {
            if i > 0 {
                assert(blocks.drop_first()[i - 1] == blocks[i]);
            }
        }
        if cursor_after(m, blocks.drop_first()) == m {
            if m == blocks[0] {
                assert(cursor_after(init, blocks) == blocks[0]);
            }
        } else {
            let j = choose|j: int|
                0 <= j < blocks.drop_first().len() && cursor_after(m, blocks.drop_first())
                    == blocks.drop_first()[j];
            assert(blocks[j + 1] == blocks.drop_first()[j]);
            assert(cursor_after(init, blocks) == blocks[j + 1]);
        }
    }
}

} // verus!
