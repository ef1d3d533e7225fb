//! The VAnchor leaves handler: keeps one contract's commitment tree in memory,
//! validates odd-indexed commitments against the contract's known roots, and
//! persists accepted leaves. Checking a root against the chain is outside
//! work, so integrating one commitment is a two-step protocol: `handle_event`
//! either finishes (even index) or hands back the root to check, and
//! `complete_root_check` accepts or rolls back once the answer is in.

use vstd::prelude::*;
use vstd::arithmetic::power2::{lemma2_to64, pow2};
use crate::bytes::clone_bytes;
use crate::error::Error;
use crate::event::{encode_event, encode_new_commitment_spec, encode_spec, LogMeta, VAnchorEvent};
use crate::field::{field_reduce, reduce_of};
use crate::merkle::{place_leaf_spec, views, MerkleTree, TREE_DEPTH};
use crate::store::{ResourceId, Store, TypedChainId};

verus! {

/// Leaves, each reduced to its canonical field representative.
pub open spec fn reduced(ls: Seq<Seq<u8>>) -> Seq<Seq<u8>> {
    ls.map_values(|l: Seq<u8>| reduce_of(l))
}

/// What `handle_event` asks of its caller.
#[derive(Debug)]
pub enum HandleAction {
    /// The event is fully integrated (or was informational).
    Done,
    /// Ask the contract, at this block, whether it knows this root, and hand
    /// the answer to `complete_root_check`.
    CheckRoot { root: Vec<u8>, block_number: u64 },
}

/// An odd-indexed commitment inserted in memory but not yet accepted.
pub struct PendingCommitment {
    pub leaf_index: u32,
    pub commitment: Vec<u8>,
    pub block_number: u64,
    pub snapshot: Vec<Vec<u8>>,
    pub root: Vec<u8>,
}

/// The pending commitment, as a specification value.
pub struct PendingView {
    pub leaf_index: u32,
    pub commitment: Seq<u8>,
    pub block_number: u64,
    pub snapshot: Seq<Seq<u8>>,
    pub root: Seq<u8>,
}

pub struct VAnchorLeavesHandler {
    pub chain_id: u32,
    pub resource_id: ResourceId,
    pub tree: MerkleTree,
    pub pending: Option<PendingCommitment>,
}

impl VAnchorLeavesHandler {
    pub open spec fn resource(self) -> ResourceId {
        self.resource_id
    }

    pub open spec fn tree_leaves(self) -> Seq<Seq<u8>> {
        self.tree.leaves_view()
    }

    pub open spec fn tree_root(self) -> Seq<u8> {
        self.tree.root_view()
    }

    pub open spec fn empty_leaf_view(self) -> Seq<u8> {
        self.tree.empty_view()
    }

    pub open spec fn has_pending(self) -> bool {
        self.pending is Some
    }

    pub open spec fn pending_view(self) -> Option<PendingView> {
        match self.pending {
            Some(p) => Some(
                PendingView {
                    leaf_index: p.leaf_index,
                    commitment: p.commitment@,
                    block_number: p.block_number,
                    snapshot: views(p.snapshot@),
                    root: p.root@,
                },
            ),
            None => None,
        }
    }

    /// The in-memory tree mirrors the persisted leaves of this handler's
    /// resource, each reduced to its field representative.
    pub open spec fn synced_with(self, store: Store) -> bool {
        self.tree_leaves() == reduced(store.leaves_of(self.resource_id))
    }

    pub open spec fn wf(self) -> bool {
        &&& self.tree.wf()
        &&& self.resource_id.wf()
        &&& match self.pending {
            Some(p) => {
                &&& p.commitment@.len() == 32
                &&& (p.leaf_index as nat) < pow2(TREE_DEPTH as nat)
                &&& p.leaf_index % 2 == 1
                &&& p.snapshot@.len() <= pow2(TREE_DEPTH as nat)
                &&& (p.leaf_index as nat) <= p.snapshot@.len()
                &&& forall|i: int|
                    0 <= i < p.snapshot@.len() ==> (#[trigger] p.snapshot@[i])@.len() == 32
                &&& self.tree.leaves_view() == place_leaf_spec(
                    views(p.snapshot@),
                    p.leaf_index as nat,
                    reduce_of(p.commitment@),
                    self.tree.empty_view(),
                )
                &&& p.root@ == self.tree.root_view()
            },
            None => true,
        }
    }

    /// Build a handler for the contract at `contract_address` on the EVM
    /// chain `chain_id`, reloading every leaf persisted for that resource and
    /// reconstructing the tree in memory. The reconstructed tree is a function
    /// of the persisted leaves alone, so a restart reproduces the root.
    pub fn new(
        chain_id: u32,
        contract_address: Vec<u8>,
        store: &Store,
        empty_leaf: Vec<u8>,
    ) -> (r: Result<Self, Error>)
        requires
            store.wf(),
            contract_address@.len() == 20,
        ensures
            match r {
                Ok(h) => {
                    &&& h.wf()
                    &&& !h.has_pending()
                    &&& h.resource().target@ == contract_address@
                    &&& h.resource().chain == TypedChainId::Evm(chain_id)
                    &&& h.empty_leaf_view() == reduce_of(empty_leaf@)
                    &&& h.synced_with(*store)
                },
                Err(e) => {
                    &&& e == Error::TreeCapacity
                    &&& store.leaves_of(
                        ResourceId {
                            target: contract_address,
                            chain: TypedChainId::Evm(chain_id),
                        },
                    ).len() > pow2(TREE_DEPTH as nat)
                },
            },
    {
        let reduced_empty = field_reduce(&empty_leaf);
        let resource_id = ResourceId::new(contract_address, TypedChainId::Evm(chain_id));
        let leaves = store.get_leaves(&resource_id);
        let capacity = crate::merkle::pow2_exec(TREE_DEPTH);
        if leaves.len() > capacity {
            return Err(Error::TreeCapacity);
        }
        let mut tree = MerkleTree::new(reduced_empty);
        let mut i: usize = 0;
        while i < leaves.len()
            invariant
                i <= leaves@.len(),
                leaves@.len() <= pow2(TREE_DEPTH as nat),
                forall|j: int| 0 <= j < leaves@.len() ==> (#[trigger] leaves@[j])@.len() == 32,
                tree.wf(),
                tree.empty_view() == reduce_of(empty_leaf@),
                tree.leaves_view() == reduced(views(leaves@).take(i as int)),
                tree.leaves_view().len() == i,
            decreases leaves@.len() - i,
        {
            let leaf = field_reduce(&leaves[i]);
            tree.place_leaf(i, leaf);
            proof {
                let prev = reduced(views(leaves@).take(i as int));
                assert(place_leaf_spec(prev, i as nat, reduce_of(leaves@[i as int]@), reduce_of(
                    empty_leaf@,
                )) =~= prev.push(reduce_of(leaves@[i as int]@)));
                assert(reduced(views(leaves@).take(i + 1)) =~= prev.push(reduce_of(
                    leaves@[i as int]@,
                )));
            }
            i = i + 1;
        }
        proof {
            assert(views(leaves@).take(leaves@.len() as int) =~= views(leaves@));
            assert(reduced(views(leaves@)) == reduced(store.leaves_of(resource_id)));
        }
        Ok(VAnchorLeavesHandler { chain_id, resource_id, tree, pending: None })
    }

    /// Only "new commitment" events are handled; the rest are informational.
    pub fn can_handle_events(&self, event: &VAnchorEvent) -> (r: bool)
        ensures
            r == (*event is NewCommitment),
    {
        matches!(event, VAnchorEvent::NewCommitment { .. })
    }

    /// The current root of the in-memory tree.
    pub fn root(&self) -> (r: Vec<u8>)
        requires
            self.wf(),
        ensures
            r@ == self.tree_root(),
            r@.len() == 32,
    {
        self.tree.root()
    }

    /// How many leaves the in-memory tree holds.
    pub fn leaf_count(&self) -> (n: usize)
        ensures
            n == self.tree_leaves().len(),
    {
        self.tree.leaf_count()
    }

    /// The reduced leaf stored in the tree at a slot, if filled.
    pub fn tree_leaf(&self, index: usize) -> (r: Option<Vec<u8>>)
        ensures
            index < self.tree_leaves().len() ==> (r matches Some(l) && l@ == self.tree_leaves()[index as int]),
            index >= self.tree_leaves().len() ==> r is None,
    {
        self.tree.leaf_at(index)
    }

    /// Integrate one decoded event. A `NewCommitment` at an even leaf index is
    /// accepted and persisted outright; at an odd index it is inserted in
    /// memory and the new root is handed back for an on-chain check. Every
    /// other variant is acknowledged without state change.
    pub fn handle_event(
        &mut self,
        store: &mut Store,
        event: &VAnchorEvent,
        meta: LogMeta,
    ) -> (r: Result<HandleAction, Error>)
        requires
            old(self).wf(),
            !old(self).has_pending(),
            old(store).wf(),
            event.wf(),
            old(self).synced_with(*old(store)),
        ensures
            final(self).wf(),
            final(store).wf(),
            final(self).resource() == old(self).resource(),
            final(self).empty_leaf_view() == old(self).empty_leaf_view(),
            forall|r2: ResourceId|
                !r2.eq_spec(old(self).resource()) ==> final(store).leaves_of(r2) == old(
                    store,
                ).leaves_of(r2) && final(store).last_block_of(r2) == old(store).last_block_of(r2),
            forall|k: crate::store::QueueKey| final(store).queue_of(k) == old(store).queue_of(k),
            final(store).dead_letter_view() == old(store).dead_letter_view(),
            match *event {
                VAnchorEvent::NewCommitment { leaf_index, commitment } => {
                    let n = old(store).leaves_of(old(self).resource()).len();
                    if leaf_index as nat > n || leaf_index as nat >= pow2(TREE_DEPTH as nat) {
                        &&& r == Result::<HandleAction, Error>::Err(
                            Error::UnexpectedLeafIndex(leaf_index),
                        )
                        &&& *final(self) == *old(self)
                        &&& final(store).leaves_of(old(self).resource()) == old(store).leaves_of(
                            old(self).resource(),
                        )
                        &&& final(store).last_block_of(old(self).resource()) == old(
                            store,
                        ).last_block_of(old(self).resource())
                        &&& final(store).events_view() == old(store).events_view()
                    } else if leaf_index % 2 == 0 {
                        &&& r == Result::<HandleAction, Error>::Ok(HandleAction::Done)
                        &&& !final(self).has_pending()
                        &&& final(self).tree_leaves() == place_leaf_spec(
                            old(self).tree_leaves(),
                            leaf_index as nat,
                            reduce_of(commitment@),
                            old(self).empty_leaf_view(),
                        )
                        &&& final(store).leaves_of(old(self).resource()) == (if (
                        leaf_index as nat) < n {
                            old(store).leaves_of(old(self).resource()).update(
                                leaf_index as int,
                                commitment@,
                            )
                        } else {
                            old(store).leaves_of(old(self).resource()).push(commitment@)
                        })
                        &&& final(store).last_block_of(old(self).resource()) == (if old(
                            store,
                        ).last_block_of(old(self).resource()) >= meta.block_number {
                            old(store).last_block_of(old(self).resource())
                        } else {
                            meta.block_number
                        })
                        &&& final(store).events_view().contains(encode_spec(*event))
                        &&& final(self).synced_with(*final(store))
                    } else {
                        &&& r matches Ok(HandleAction::CheckRoot { root, block_number })
                            && root@ == final(self).tree_root() && block_number
                            == meta.block_number
                        &&& final(self).tree_leaves() == place_leaf_spec(
                            old(self).tree_leaves(),
                            leaf_index as nat,
                            reduce_of(commitment@),
                            old(self).empty_leaf_view(),
                        )
                        &&& final(self).pending_view() matches Some(p) && p.leaf_index
                            == leaf_index && p.commitment == commitment@ && p.block_number
                            == meta.block_number && p.snapshot == old(self).tree_leaves()
                        &&& final(store).leaves_of(old(self).resource()) == old(store).leaves_of(
                            old(self).resource(),
                        )
                        &&& final(store).last_block_of(old(self).resource()) == old(
                            store,
                        ).last_block_of(old(self).resource())
                        &&& final(store).events_view() == old(store).events_view()
                    }
                },
                _ => {
                    &&& r == Result::<HandleAction, Error>::Ok(HandleAction::Done)
                    &&& *final(self) == *old(self)
                    &&& final(store).leaves_of(old(self).resource()) == old(store).leaves_of(
                        old(self).resource(),
                    )
                    &&& final(store).last_block_of(old(self).resource()) == old(
                        store,
                    ).last_block_of(old(self).resource())
                    &&& final(store).events_view() == old(store).events_view()
                },
            },
    {
        match event {
            VAnchorEvent::NewCommitment { leaf_index, commitment } => {
                let idx = *leaf_index;
                let n = store.stored_leaf_count(&self.resource_id);
                let capacity = crate::merkle::pow2_exec(TREE_DEPTH);
                if idx as usize > n || idx as usize >= capacity {
                    return Err(Error::UnexpectedLeafIndex(idx));
                }
                proof {
                    lemma2_to64();
                }
                let leaf = field_reduce(commitment);
                if idx % 2 == 0 {
                    self.tree.place_leaf(idx as usize, leaf);
                    store.insert_leaves_and_last_deposit_block_number(
                        &self.resource_id,
                        idx,
                        commitment,
                        meta.block_number,
                    );
                    let encoded = encode_event(event);
                    store.store_event(&encoded);
                    proof {
                        lemma_reduced_place(
                            old(store).leaves_of(old(self).resource()),
                            idx as nat,
                            commitment@,
                            store.leaves_of(self.resource_id),
                            old(self).empty_leaf_view(),
                        );
                        assert(self.tree_leaves() =~= reduced(store.leaves_of(self.resource_id)));
                    }
                    Ok(HandleAction::Done)
                } else {
                    let snapshot = self.tree.leaves_snapshot();
                    self.tree.place_leaf(idx as usize, leaf);
                    let root = self.tree.root();
                    let pending = PendingCommitment {
                        leaf_index: idx,
                        commitment: clone_bytes(commitment),
                        block_number: meta.block_number,
                        snapshot,
                        root: clone_bytes(&root),
                    };
                    self.pending = Some(pending);
                    Ok(HandleAction::CheckRoot { root, block_number: meta.block_number })
                }
            },
            _ => Ok(HandleAction::Done),
        }
    }

    /// Finish an odd-indexed commitment once the contract has answered
    /// whether it knows the new root. A known root is accepted and persisted;
    /// an unknown root rolls the tree back to its snapshot and fails with
    /// `InvalidMerkleRoot`, leaving the store untouched so the event is
    /// re-delivered.
    pub fn complete_root_check(&mut self, store: &mut Store, is_known_root: bool) -> (r: Result<
        (),
        Error,
    >)
        requires
            old(self).wf(),
            old(store).wf(),
            old(self).has_pending(),
            (old(self).pending_view() matches Some(p) && p.snapshot == reduced(
                old(store).leaves_of(old(self).resource()),
            ) && p.snapshot.len() == old(store).leaves_of(old(self).resource()).len()),
        ensures
            final(self).wf(),
            final(store).wf(),
            !final(self).has_pending(),
            final(self).resource() == old(self).resource(),
            final(self).empty_leaf_view() == old(self).empty_leaf_view(),
            final(self).synced_with(*final(store)),
            forall|r2: ResourceId|
                !r2.eq_spec(old(self).resource()) ==> final(store).leaves_of(r2) == old(
                    store,
                ).leaves_of(r2) && final(store).last_block_of(r2) == old(store).last_block_of(r2),
            forall|k: crate::store::QueueKey| final(store).queue_of(k) == old(store).queue_of(k),
            final(store).dead_letter_view() == old(store).dead_letter_view(),
            ({
                let p = old(self).pending_view()->Some_0;
                let n = old(store).leaves_of(old(self).resource()).len();
                if is_known_root {
                    &&& r == Result::<(), Error>::Ok(())
                    &&& final(self).tree_leaves() == old(self).tree_leaves()
                    &&& final(self).tree_root() == old(self).tree_root() && final(self).tree_root()
                        == p.root
                    &&& final(store).leaves_of(old(self).resource()) == (if (p.leaf_index as nat)
                        < n {
                        old(store).leaves_of(old(self).resource()).update(
                            p.leaf_index as int,
                            p.commitment,
                        )
                    } else {
                        old(store).leaves_of(old(self).resource()).push(p.commitment)
                    })
                    &&& final(store).last_block_of(old(self).resource()) == (if old(
                        store,
                    ).last_block_of(old(self).resource()) >= p.block_number {
                        old(store).last_block_of(old(self).resource())
                    } else {
                        p.block_number
                    })
                    &&& final(store).events_view().contains(
                        encode_new_commitment_spec(p.leaf_index, p.commitment),
                    )
                } else {
                    &&& r == Result::<(), Error>::Err(Error::InvalidMerkleRoot(p.leaf_index))
                    &&& final(self).tree_leaves() == p.snapshot
                    &&& final(store).leaves_of(old(self).resource()) == old(store).leaves_of(
                        old(self).resource(),
                    )
                    &&& final(store).last_block_of(old(self).resource()) == old(
                        store,
                    ).last_block_of(old(self).resource())
                    &&& final(store).events_view() == old(store).events_view()
                }
            }),
    {
        let pending = self.pending.take().unwrap();
        if is_known_root {
            proof {
                lemma2_to64();
            }
            store.insert_leaves_and_last_deposit_block_number(
                &self.resource_id,
                pending.leaf_index,
                &pending.commitment,
                pending.block_number,
            );
            let event = VAnchorEvent::NewCommitment {
                leaf_index: pending.leaf_index,
                commitment: pending.commitment,
            };
            let encoded = encode_event(&event);
            store.store_event(&encoded);
            proof {
                lemma_reduced_place(
                    old(store).leaves_of(old(self).resource()),
                    old(self).pending_view()->Some_0.leaf_index as nat,
                    old(self).pending_view()->Some_0.commitment,
                    store.leaves_of(self.resource_id),
                    old(self).empty_leaf_view(),
                );
                assert(self.tree_leaves() =~= reduced(store.leaves_of(self.resource_id)));
            }
            Ok(())
        } else {
            let idx = pending.leaf_index;
            self.tree.restore_leaves(pending.snapshot);
            Err(Error::InvalidMerkleRoot(idx))
        }
    }
}

/// Restarting reconstructs the same tree: two handlers whose stores persist
/// the same leaves for their resources, built over the same empty leaf, hold
/// the same tree leaves and so the same root.
pub proof fn lemma_restart_same_root(
    first: VAnchorLeavesHandler,
    second: VAnchorLeavesHandler,
    s1: Store,
    s2: Store,
)
    requires
        first.synced_with(s1),
        second.synced_with(s2),
        s1.leaves_of(first.resource()) == s2.leaves_of(second.resource()),
        first.empty_leaf_view() == second.empty_leaf_view(),
    ensures
        first.tree_leaves() == second.tree_leaves(),
        first.tree_root() == second.tree_root(),
{
}

/// Reducing a leaf sequence commutes with placing one leaf: placing the raw
/// commitment in the store and its reduction in the tree keeps them aligned.
proof fn lemma_reduced_place(
    before: Seq<Seq<u8>>,
    index: nat,
    commitment: Seq<u8>,
    after: Seq<Seq<u8>>,
    empty: Seq<u8>,
)
    requires
        index <= before.len(),
        after == (if index < before.len() {
            before.update(index as int, commitment)
        } else {
            before.push(commitment)
        }),
    ensures
        reduced(after) == place_leaf_spec(reduced(before), index, reduce_of(commitment), empty),
{
    if index < before.len() {
        assert(reduced(after) =~= reduced(before).update(index as int, reduce_of(commitment)));
    } else {
        assert(place_leaf_spec(reduced(before), index, reduce_of(commitment), empty) =~= reduced(
            before,
        ).push(reduce_of(commitment)));
        assert(reduced(after) =~= reduced(before).push(reduce_of(commitment)));
    }
}


} // verus!
