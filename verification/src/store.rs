//! The relayer's store: per-resource commitment leaves and progress cursors,
//! seen-event records, and per-chain FIFO transaction queues. Leaves persisted
//! for a resource always form a gap-free prefix `{0, 1, ..., n-1}`.

use vstd::prelude::*;
use crate::bytes::{bytes_eq, clone_byte_vecs, clone_bytes};
use crate::merkle::views;

verus! {

/// Tagged chain identifier, the second half of a `ResourceId`.
#[derive(PartialEq, Eq, Structural, Clone, Copy, Debug)]
pub enum TypedChainId {
    Unset,
    Evm(u32),
    Substrate(u32),
    PolkadotParachain(u32),
    KusamaParachain(u32),
    RococoParachain(u32),
    Cosmos(u32),
    Solana(u32),
}

/// Primary key for all per-contract state: a 20-byte contract address
/// together with a typed chain identifier.
pub struct ResourceId {
    pub target: Vec<u8>,
    pub chain: TypedChainId,
}

impl ResourceId {
    /// The target is a 20-byte contract address.
    pub open spec fn wf(self) -> bool {
        self.target@.len() == 20
    }

    /// Two resource ids denote the same resource.
    pub open spec fn eq_spec(self, other: ResourceId) -> bool {
        self.target@ == other.target@ && self.chain == other.chain
    }

    pub fn new(target: Vec<u8>, chain: TypedChainId) -> (r: ResourceId)
        ensures
            r.target@ == target@,
            r.chain == chain,
    {
        ResourceId { target, chain }
    }

    pub fn same_as(&self, other: &ResourceId) -> (r: bool)
        ensures
            r == self.eq_spec(*other),
    {
        self.chain == other.chain && bytes_eq(&self.target, &other.target)
    }

    pub fn duplicate(&self) -> (r: ResourceId)
        ensures
            r.eq_spec(*self),
            r.target@ == self.target@,
            r.chain == self.chain,
    {
        ResourceId { target: clone_bytes(&self.target), chain: self.chain }
    }
}

/// Key selecting one FIFO in the store's queue namespace.
#[derive(PartialEq, Eq, Structural, Clone, Copy, Debug)]
pub struct QueueKey {
    pub chain_id: u32,
}

pub struct ResourceRecord {
    pub rid: ResourceId,
    pub leaves: Vec<Vec<u8>>,
    pub last_block: u64,
}

pub struct QueueRecord {
    pub key: QueueKey,
    pub items: Vec<Vec<u8>>,
}

/// Whether some record carries this resource id.
pub open spec fn has_rec(rs: Seq<ResourceRecord>, rid: ResourceId) -> bool {
    exists|i: int| 0 <= i < rs.len() && (#[trigger] rs[i]).rid.eq_spec(rid)
}

/// Index of the record carrying this resource id (meaningful when present
/// and the ids are pairwise distinct).
pub open spec fn rec_index(rs: Seq<ResourceRecord>, rid: ResourceId) -> int {
    choose|i: int| 0 <= i < rs.len() && (#[trigger] rs[i]).rid.eq_spec(rid)
}

/// The leaves persisted for this resource, in index order.
pub open spec fn leaves_in(rs: Seq<ResourceRecord>, rid: ResourceId) -> Seq<Seq<u8>> {
    if has_rec(rs, rid) {
        views(rs[rec_index(rs, rid)].leaves@)
    } else {
        Seq::<Seq<u8>>::empty()
    }
}

/// The last successfully processed block for this resource, zero before any.
pub open spec fn last_in(rs: Seq<ResourceRecord>, rid: ResourceId) -> u64 {
    if has_rec(rs, rid) {
        rs[rec_index(rs, rid)].last_block
    } else {
        0
    }
}

/// Resource ids of the records are pairwise distinct and well-formed, all
/// leaves are 32 bytes, and each resource stays countable by `u32` indices.
pub open spec fn recs_wf(rs: Seq<ResourceRecord>) -> bool {
    &&& forall|i: int, j: int|
        0 <= i < j < rs.len() ==> !(#[trigger] rs[i]).rid.eq_spec((#[trigger] rs[j]).rid)
    &&& forall|i: int| 0 <= i < rs.len() ==> (#[trigger] rs[i]).rid.wf()
    &&& forall|i: int| 0 <= i < rs.len() ==> (#[trigger] rs[i]).leaves@.len() < 0xFFFF_FFFF
    &&& forall|i: int, k: int|
        0 <= i < rs.len() && 0 <= k < rs[i].leaves@.len() ==> (#[trigger] rs[i].leaves@[k])@.len()
            == 32
}

/// With distinct ids, any record carrying `rid` is the record found.
proof fn lemma_rec_index_is(rs: Seq<ResourceRecord>, rid: ResourceId, i: int)
    requires
        recs_wf(rs),
        0 <= i < rs.len(),
        rs[i].rid.eq_spec(rid),
    ensures
        has_rec(rs, rid),
        rec_index(rs, rid) == i,
{
    assert(has_rec(rs, rid));
    let j = rec_index(rs, rid);
    if j != i {
        assert(rs[i].rid.eq_spec(rs[j].rid));
    }
}

/// Whether some queue record carries this key.
pub open spec fn has_queue(qs: Seq<QueueRecord>, key: QueueKey) -> bool {
    exists|i: int| 0 <= i < qs.len() && (#[trigger] qs[i]).key == key
}

/// Index of the queue record carrying this key.
pub open spec fn queue_index(qs: Seq<QueueRecord>, key: QueueKey) -> int {
    choose|i: int| 0 <= i < qs.len() && (#[trigger] qs[i]).key == key
}

/// The payloads queued under this key, earliest first.
pub open spec fn queue_in(qs: Seq<QueueRecord>, key: QueueKey) -> Seq<Seq<u8>> {
    if has_queue(qs, key) {
        views(qs[queue_index(qs, key)].items@)
    } else {
        Seq::<Seq<u8>>::empty()
    }
}

/// Queue keys are pairwise distinct.
pub open spec fn queues_wf(qs: Seq<QueueRecord>) -> bool {
    forall|i: int, j: int| 0 <= i < j < qs.len() ==> (#[trigger] qs[i]).key != (#[trigger] qs[j]).key
}

proof fn lemma_queue_index_is(qs: Seq<QueueRecord>, key: QueueKey, i: int)
    requires
        queues_wf(qs),
        0 <= i < qs.len(),
        qs[i].key == key,
    ensures
        has_queue(qs, key),
        queue_index(qs, key) == i,
{
    assert(has_queue(qs, key));
}

/// The embedded store, holding every durable piece of relayer state.
pub struct Store {
    pub resources: Vec<ResourceRecord>,
    pub events: Vec<Vec<u8>>,
    pub queues: Vec<QueueRecord>,
    pub dead_letter: Vec<Vec<u8>>,
}

impl Store {
    pub open spec fn wf(self) -> bool {
        recs_wf(self.resources@) && queues_wf(self.queues@)
    }

    pub open spec fn leaves_of(self, rid: ResourceId) -> Seq<Seq<u8>> {
        leaves_in(self.resources@, rid)
    }

    pub open spec fn last_block_of(self, rid: ResourceId) -> u64 {
        last_in(self.resources@, rid)
    }

    pub open spec fn events_view(self) -> Seq<Seq<u8>> {
        views(self.events@)
    }

    pub open spec fn queue_of(self, key: QueueKey) -> Seq<Seq<u8>> {
        queue_in(self.queues@, key)
    }

    pub open spec fn dead_letter_view(self) -> Seq<Seq<u8>> {
        views(self.dead_letter@)
    }

    /// An empty store: no resources, no events, no queued payloads.
    pub fn new() -> (s: Store)
        ensures
            s.wf(),
            forall|rid: ResourceId| s.leaves_of(rid) == Seq::<Seq<u8>>::empty(),
            forall|rid: ResourceId| s.last_block_of(rid) == 0,
            s.events_view() == Seq::<Seq<u8>>::empty(),
            forall|key: QueueKey| s.queue_of(key) == Seq::<Seq<u8>>::empty(),
            s.dead_letter_view() == Seq::<Seq<u8>>::empty(),
    {
        let s = Store {
            resources: Vec::new(),
            events: Vec::new(),
            queues: Vec::new(),
            dead_letter: Vec::new(),
        };
        proof {
            assert(s.events_view() =~= Seq::<Seq<u8>>::empty());
            assert(s.dead_letter_view() =~= Seq::<Seq<u8>>::empty());
        }
        s
    }

    fn find_resource(&self, rid: &ResourceId) -> (r: Option<usize>)
        requires
            self.wf(),
        ensures
            match r {
                Some(i) => i < self.resources@.len() && self.resources@[i as int].rid.eq_spec(*rid)
                    && has_rec(self.resources@, *rid) && rec_index(self.resources@, *rid)
                    == i as int,
                None => !has_rec(self.resources@, *rid),
            },
    {
        let mut i: usize = 0;
        while i < self.resources.len()
            invariant
                self.wf(),
                i <= self.resources@.len(),
                forall|j: int| 0 <= j < i ==> !(#[trigger] self.resources@[j]).rid.eq_spec(*rid),
            decreases self.resources@.len() - i,
        {
            if self.resources[i].rid.same_as(rid) {
                proof {
                    lemma_rec_index_is(self.resources@, *rid, i as int);
                }
                return Some(i);
            }
            i = i + 1;
        }
        None
    }

    /// How many leaves are persisted for this resource.
    pub fn stored_leaf_count(&self, rid: &ResourceId) -> (n: usize)
        requires
            self.wf(),
        ensures
            n == self.leaves_of(*rid).len(),
    {
        match self.find_resource(rid) {
            Some(i) => self.resources[i].leaves.len(),
            None => 0,
        }
    }

    /// All leaves persisted for this resource, in index order: the leaf at
    /// position `i` of the result is the leaf with index `i`.
    pub fn get_leaves(&self, rid: &ResourceId) -> (r: Vec<Vec<u8>>)
        requires
            self.wf(),
        ensures
            views(r@) == self.leaves_of(*rid),
            forall|i: int| 0 <= i < r@.len() ==> (#[trigger] r@[i])@.len() == 32,
            r@.len() < 0xFFFF_FFFF,
    {
        match self.find_resource(rid) {
            Some(i) => {
                let r = clone_byte_vecs(&self.resources[i].leaves);
                proof {
                    assert(views(r@) =~= self.leaves_of(*rid));
                }
                r
            },
            None => {
                let r: Vec<Vec<u8>> = Vec::new();
                proof {
                    assert(views(r@) =~= self.leaves_of(*rid));
                }
                r
            },
        }
    }

    /// The last successfully processed block for this resource, zero before
    /// any.
    pub fn get_last_deposit_block_number(&self, rid: &ResourceId) -> (b: u64)
        requires
            self.wf(),
        ensures
            b == self.last_block_of(*rid),
    {
        match self.find_resource(rid) {
            Some(i) => self.resources[i].last_block,
            None => 0,
        }
    }

    /// Persist one leaf and advance the resource's last-deposit block, in one
    /// step. The leaf index must keep the gap-free prefix: at most the current
    /// leaf count. The cursor never moves backwards: it becomes the maximum of
    /// its old value and `block_number`.
    pub fn insert_leaves_and_last_deposit_block_number(
        &mut self,
        rid: &ResourceId,
        leaf_index: u32,
        leaf: &Vec<u8>,
        block_number: u64,
    )
        requires
            old(self).wf(),
            rid.wf(),
            leaf@.len() == 32,
            leaf_index as nat <= old(self).leaves_of(*rid).len(),
            old(self).leaves_of(*rid).len() < 0xFFFF_FFFE,
        ensures
            final(self).wf(),
            final(self).leaves_of(*rid) == (if (leaf_index as nat) < old(self).leaves_of(
                *rid,
            ).len() {
                old(self).leaves_of(*rid).update(leaf_index as int, leaf@)
            } else {
                old(self).leaves_of(*rid).push(leaf@)
            }),
            final(self).last_block_of(*rid) == (if old(self).last_block_of(*rid) >= block_number {
                old(self).last_block_of(*rid)
            } else {
                block_number
            }),
            forall|r2: ResourceId|
                !r2.eq_spec(*rid) ==> final(self).leaves_of(r2) == old(self).leaves_of(r2)
                    && final(self).last_block_of(r2) == old(self).last_block_of(r2),
            final(self).events_view() == old(self).events_view(),
            forall|k: QueueKey| final(self).queue_of(k) == old(self).queue_of(k),
            final(self).dead_letter_view() == old(self).dead_letter_view(),
    {
        let ghost old_rs = self.resources@;
        match self.find_resource(rid) {
            Some(i) => {
                let mut rec = self.resources.remove(i);
                let ghost mid_rs = self.resources@;
                if (leaf_index as usize) < rec.leaves.len() {
                    rec.leaves.set(leaf_index as usize, clone_bytes(leaf));
                } else {
                    rec.leaves.push(clone_bytes(leaf));
                }
                if block_number > rec.last_block {
                    rec.last_block = block_number;
                }
                self.resources.insert(i, rec);
                proof {
                    assert(self.resources@.len() == old_rs.len());
                    assert forall|j: int| 0 <= j < old_rs.len() implies #[trigger] self
                        .resources@[j].rid == old_rs[j].rid by {
                        if j < i {
                            assert(self.resources@[j] == mid_rs[j]);
                            assert(mid_rs[j] == old_rs[j]);
                        } else if j == i {
                        } else {
                            assert(self.resources@[j] == mid_rs[j - 1]);
                            assert(mid_rs[j - 1] == old_rs[j]);
                        }
                    }
                    lemma_same_rids_wf(old_rs, self.resources@, i as int);
                    lemma_rec_index_is(self.resources@, *rid, i as int);
                    assert(views(self.resources@[i as int].leaves@) =~= (
                    if (leaf_index as nat) < views(old_rs[i as int].leaves@).len() {
                        views(old_rs[i as int].leaves@).update(leaf_index as int, leaf@)
                    } else {
                        views(old_rs[i as int].leaves@).push(leaf@)
                    }));
                    assert forall|r2: ResourceId| !r2.eq_spec(*rid) implies self.leaves_of(r2)
                        == old(self).leaves_of(r2) && self.last_block_of(r2) == old(
                        self,
                    ).last_block_of(r2) by {
                        if old_rs[i as int].rid.eq_spec(r2) {
                            assert(r2.eq_spec(*rid));
                        }
                        lemma_other_resources_same(old_rs, self.resources@, i as int, r2);
                    }
                }
            },
            None => {
                let rec = ResourceRecord {
                    rid: rid.duplicate(),
                    leaves: vec![clone_bytes(leaf)],
                    last_block: block_number,
                };
                self.resources.push(rec);
                proof {
                    let rs = self.resources@;
                    let n = old_rs.len() as int;
                    assert forall|i: int, j: int| 0 <= i < j < rs.len() implies !(#[trigger] rs[i])
                        .rid.eq_spec((#[trigger] rs[j]).rid) by {
                        if j < n {
                            assert(rs[i] == old_rs[i] && rs[j] == old_rs[j]);
                        } else {
                            assert(rs[j].rid.eq_spec(*rid));
                            if i < n && rs[i].rid.eq_spec(rs[j].rid) {
                                assert(old_rs[i].rid.eq_spec(*rid));
                            }
                        }
                    }
                    lemma_rec_index_is(rs, *rid, n);
                    assert(views(rs[n].leaves@) =~= Seq::<Seq<u8>>::empty().push(leaf@));
                    assert forall|r2: ResourceId| !r2.eq_spec(*rid) implies self.leaves_of(r2)
                        == old(self).leaves_of(r2) && self.last_block_of(r2) == old(
                        self,
                    ).last_block_of(r2) by {
                        if has_rec(old_rs, r2) {
                            let k = rec_index(old_rs, r2);
                            lemma_rec_index_is(rs, r2, k);
                        } else {
                            if has_rec(rs, r2) {
                                let k = rec_index(rs, r2);
                                if k < n {
                                    assert(old_rs[k].rid.eq_spec(r2));
                                } else {
                                    assert(rs[k].rid.eq_spec(*rid));
                                    assert(r2.eq_spec(*rid));
                                }
                            }
                        }
                    }
                }
            },
        }
    }

    /// Record the serialized form of a delivered event; recording the same
    /// event again changes nothing.
    pub fn store_event(&mut self, event_bytes: &Vec<u8>)
        requires
            old(self).wf(),
        ensures
            final(self).wf(),
            final(self).events_view() == (if old(self).events_view().contains(event_bytes@) {
                old(self).events_view()
            } else {
                old(self).events_view().push(event_bytes@)
            }),
            final(self).events_view().contains(event_bytes@),
            forall|r2: ResourceId|
                final(self).leaves_of(r2) == old(self).leaves_of(r2) && final(self).last_block_of(
                    r2,
                ) == old(self).last_block_of(r2),
            forall|k: QueueKey| final(self).queue_of(k) == old(self).queue_of(k),
            final(self).dead_letter_view() == old(self).dead_letter_view(),
    {
        if self.contains_event(event_bytes) {
            return ;
        }
        self.events.push(clone_bytes(event_bytes));
        proof {
            assert(self.events_view() =~= old(self).events_view().push(event_bytes@));
            assert(self.events_view()[old(self).events_view().len() as int] == event_bytes@);
        }
    }

    /// Whether this serialized event was recorded before.
    pub fn contains_event(&self, event_bytes: &Vec<u8>) -> (r: bool)
        requires
            self.wf(),
        ensures
            r == self.events_view().contains(event_bytes@),
    {
        let mut i: usize = 0;
        while i < self.events.len()
            invariant
                i <= self.events@.len(),
                forall|j: int| 0 <= j < i ==> (#[trigger] self.events@[j])@ != event_bytes@,
            decreases self.events@.len() - i,
        {
            if bytes_eq(&self.events[i], event_bytes) {
                assert(self.events_view()[i as int] == event_bytes@);
                return true;
            }
            i = i + 1;
        }
        proof {
            if self.events_view().contains(event_bytes@) {
                let j = choose|j: int|
                    0 <= j < self.events_view().len() && self.events_view()[j] == event_bytes@;
                assert(self.events@[j]@ == event_bytes@);
            }
        }
        false
    }

    fn find_queue(&self, key: QueueKey) -> (r: Option<usize>)
        requires
            self.wf(),
        ensures
            match r {
                Some(i) => i < self.queues@.len() && self.queues@[i as int].key == key && has_queue(
                    self.queues@,
                    key,
                ) && queue_index(self.queues@, key) == i as int,
                None => !has_queue(self.queues@, key),
            },
    {
        let mut i: usize = 0;
        while i < self.queues.len()
            invariant
                self.wf(),
                i <= self.queues@.len(),
                forall|j: int| 0 <= j < i ==> (#[trigger] self.queues@[j]).key != key,
            decreases self.queues@.len() - i,
        {
            if self.queues[i].key == key {
                proof {
                    lemma_queue_index_is(self.queues@, key, i as int);
                }
                return Some(i);
            }
            i = i + 1;
        }
        None
    }

    /// Append a payload at the tail of the queue under this key.
    pub fn enqueue_item(&mut self, key: QueueKey, item: Vec<u8>)
        requires
            old(self).wf(),
        ensures
            final(self).wf(),
            final(self).queue_of(key) == old(self).queue_of(key).push(item@),
            forall|k2: QueueKey| k2 != key ==> final(self).queue_of(k2) == old(self).queue_of(k2),
            forall|r2: ResourceId|
                final(self).leaves_of(r2) == old(self).leaves_of(r2) && final(self).last_block_of(
                    r2,
                ) == old(self).last_block_of(r2),
            final(self).events_view() == old(self).events_view(),
            final(self).dead_letter_view() == old(self).dead_letter_view(),
    {
        let ghost old_qs = self.queues@;
        match self.find_queue(key) {
            Some(i) => {
                let mut rec = self.queues.remove(i);
                rec.items.push(item);
                self.queues.insert(i, rec);
                proof {
                    assert(self.queues@.len() == old_qs.len());
                    assert forall|j: int| 0 <= j < old_qs.len() implies #[trigger] self
                        .queues@[j].key == old_qs[j].key by {}
                    lemma_queue_index_is(self.queues@, key, i as int);
                    assert(views(self.queues@[i as int].items@) =~= queue_in(old_qs, key).push(
                        item@,
                    ));
                    assert forall|k2: QueueKey| k2 != key implies self.queue_of(k2) == old(
                        self,
                    ).queue_of(k2) by {
                        lemma_other_queues_same(old_qs, self.queues@, i as int, k2);
                    }
                }
            },
            None => {
                let rec = QueueRecord { key, items: vec![item] };
                self.queues.push(rec);
                proof {
                    let qs = self.queues@;
                    let n = old_qs.len() as int;
                    assert forall|a: int, b: int| 0 <= a < b < qs.len() implies (#[trigger] qs[a])
                        .key != (#[trigger] qs[b]).key by {
                        if b == n {
                            assert(qs[a] == old_qs[a]);
                        }
                    }
                    lemma_queue_index_is(qs, key, n);
                    assert(views(qs[n].items@) =~= Seq::<Seq<u8>>::empty().push(item@));
                    assert(queue_in(old_qs, key) =~= Seq::<Seq<u8>>::empty());
                    assert forall|k2: QueueKey| k2 != key implies self.queue_of(k2) == old(
                        self,
                    ).queue_of(k2) by {
                        if has_queue(old_qs, k2) {
                            let k = queue_index(old_qs, k2);
                            lemma_queue_index_is(qs, k2, k);
                        } else {
                            if has_queue(qs, k2) {
                                let k = queue_index(qs, k2);
                                assert(qs[k].key == k2);
                                assert(k < n ==> old_qs[k].key == k2);
                            }
                        }
                    }
                }
            },
        }
    }

    /// The earliest queued payload under this key, if any, left in place.
    pub fn peek_item(&self, key: QueueKey) -> (r: Option<Vec<u8>>)
        requires
            self.wf(),
        ensures
            match r {
                Some(item) => self.queue_of(key).len() > 0 && item@ == self.queue_of(key)[0],
                None => self.queue_of(key).len() == 0,
            },
    {
        match self.find_queue(key) {
            Some(i) => {
                if self.queues[i].items.len() > 0 {
                    Some(clone_bytes(&self.queues[i].items[0]))
                } else {
                    None
                }
            },
            None => None,
        }
    }

    /// Remove and return the earliest queued payload under this key.
    pub fn dequeue_item(&mut self, key: QueueKey) -> (r: Option<Vec<u8>>)
        requires
            old(self).wf(),
        ensures
            final(self).wf(),
            match r {
                Some(item) => old(self).queue_of(key).len() > 0 && item@ == old(self).queue_of(
                    key,
                )[0] && final(self).queue_of(key) == old(self).queue_of(key).drop_first(),
                None => old(self).queue_of(key).len() == 0 && final(self).queue_of(key) == old(
                    self,
                ).queue_of(key),
            },
            forall|k2: QueueKey| k2 != key ==> final(self).queue_of(k2) == old(self).queue_of(k2),
            forall|r2: ResourceId|
                final(self).leaves_of(r2) == old(self).leaves_of(r2) && final(self).last_block_of(
                    r2,
                ) == old(self).last_block_of(r2),
            final(self).events_view() == old(self).events_view(),
            final(self).dead_letter_view() == old(self).dead_letter_view(),
    {
        let ghost old_qs = self.queues@;
        match self.find_queue(key) {
            Some(i) => {
                if self.queues[i].items.len() > 0 {
                    let mut rec = self.queues.remove(i);
                    let item = rec.items.remove(0);
                    self.queues.insert(i, rec);
                    proof {
                        assert(self.queues@.len() == old_qs.len());
                        assert forall|j: int| 0 <= j < old_qs.len() implies #[trigger] self
                            .queues@[j].key == old_qs[j].key by {}
                        lemma_queue_index_is(self.queues@, key, i as int);
                        assert(views(self.queues@[i as int].items@) =~= queue_in(
                            old_qs,
                            key,
                        ).drop_first());
                        assert forall|k2: QueueKey| k2 != key implies self.queue_of(k2) == old(
                            self,
                        ).queue_of(k2) by {
                            lemma_other_queues_same(old_qs, self.queues@, i as int, k2);
                        }
                    }
                    Some(item)
                } else {
                    None
                }
            },
            None => None,
        }
    }

    /// How many payloads were classified as poison and set aside.
    pub fn dead_letter_count(&self) -> (n: usize)
        ensures
            n == self.dead_letter_view().len(),
    {
        self.dead_letter.len()
    }

    /// Move a permanently failing payload into the dead-letter area.
    pub fn push_dead_letter(&mut self, item: Vec<u8>)
        requires
            old(self).wf(),
        ensures
            final(self).wf(),
            final(self).dead_letter_view() == old(self).dead_letter_view().push(item@),
            forall|k2: QueueKey| final(self).queue_of(k2) == old(self).queue_of(k2),
            forall|r2: ResourceId|
                final(self).leaves_of(r2) == old(self).leaves_of(r2) && final(self).last_block_of(
                    r2,
                ) == old(self).last_block_of(r2),
            final(self).events_view() == old(self).events_view(),
    {
        self.dead_letter.push(item);
        proof {
            assert(self.dead_letter_view() =~= old(self).dead_letter_view().push(item@));
        }
    }
}

/// Persisted leaves form a gap-free prefix `{0, ..., n-1}`: a leaf exists
/// exactly at the indices below the resource's leaf count, and an insert
/// either overwrites one of them or appends at index `n`, never beyond.
pub proof fn lemma_gap_free_prefix(before: Seq<Seq<u8>>, index: nat, leaf: Seq<u8>)
    requires
        index <= before.len(),
    ensures
        ({
            let after = if index < before.len() {
                before.update(index as int, leaf)
            } else {
                before.push(leaf)
            };
            &&& after.len() == (if index < before.len() {
                before.len()
            } else {
                before.len() + 1
            })
            &&& after[index as int] == leaf
            &&& forall|j: int| 0 <= j < before.len() && j != index ==> after[j] == before[j]
        }),
{
}

/// Records that keep their ids keep their lookup structure.
proof fn lemma_same_rids_wf(old_rs: Seq<ResourceRecord>, new_rs: Seq<ResourceRecord>, i: int)
    requires
        recs_wf(old_rs),
        new_rs.len() == old_rs.len(),
        forall|j: int| 0 <= j < old_rs.len() ==> (#[trigger] new_rs[j]).rid == old_rs[j].rid,
        0 <= i < new_rs.len(),
        forall|k: int| 0 <= k < new_rs[i].leaves@.len() ==> (#[trigger] new_rs[i].leaves@[k])@.len()
            == 32,
        new_rs[i].leaves@.len() < 0xFFFF_FFFF,
        forall|j: int| 0 <= j < old_rs.len() && j != i ==> new_rs[j] == old_rs[j],
    ensures
        recs_wf(new_rs),
{
}

/// A record edit at one index leaves every other resource's view unchanged.
proof fn lemma_other_resources_same(
    old_rs: Seq<ResourceRecord>,
    new_rs: Seq<ResourceRecord>,
    i: int,
    r2: ResourceId,
)
    requires
        recs_wf(old_rs),
        recs_wf(new_rs),
        new_rs.len() == old_rs.len(),
        forall|j: int| 0 <= j < old_rs.len() ==> (#[trigger] new_rs[j]).rid == old_rs[j].rid,
        forall|j: int| 0 <= j < old_rs.len() && j != i ==> new_rs[j] == old_rs[j],
        0 <= i < old_rs.len(),
        !old_rs[i].rid.eq_spec(r2),
    ensures
        leaves_in(new_rs, r2) == leaves_in(old_rs, r2),
        last_in(new_rs, r2) == last_in(old_rs, r2),
{
    if has_rec(old_rs, r2) {
        let k = rec_index(old_rs, r2);
        assert(old_rs[k].rid.eq_spec(r2));
        assert(k != i);
        assert(new_rs[k] == old_rs[k]);
        lemma_rec_index_is(new_rs, r2, k);
    } else {
        if has_rec(new_rs, r2) {
            let k = rec_index(new_rs, r2);
            assert(new_rs[k].rid.eq_spec(r2));
            if k != i {
                assert(old_rs[k].rid.eq_spec(r2));
            }
        }
    }
}

/// A queue edit at one index leaves every other queue unchanged.
proof fn lemma_other_queues_same(
    old_qs: Seq<QueueRecord>,
    new_qs: Seq<QueueRecord>,
    i: int,
    k2: QueueKey,
)
    requires
        queues_wf(old_qs),
        queues_wf(new_qs),
        new_qs.len() == old_qs.len(),
        forall|j: int| 0 <= j < old_qs.len() ==> (#[trigger] new_qs[j]).key == old_qs[j].key,
        forall|j: int| 0 <= j < old_qs.len() && j != i ==> new_qs[j] == old_qs[j],
        0 <= i < old_qs.len(),
        new_qs[i].key != k2,
    ensures
        queue_in(new_qs, k2) == queue_in(old_qs, k2),
{
    if has_queue(old_qs, k2) {
        let k = queue_index(old_qs, k2);
        assert(old_qs[k].key == k2);
        assert(k != i);
        lemma_queue_index_is(new_qs, k2, k);
    } else {
        if has_queue(new_qs, k2) {
            let k = queue_index(new_qs, k2);
            assert(old_qs[k].key == k2);
        }
    }
}

} // verus!
