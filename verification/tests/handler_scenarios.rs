//! End-to-end scenarios for the leaves handler: cold start, a valid two-leaf
//! deposit, an invalid odd commitment with rollback and re-delivery, and a
//! crash-and-recover restart.

use webb_relayer::error::Error;
use webb_relayer::event::{LogMeta, VAnchorEvent};
use webb_relayer::handler::{HandleAction, VAnchorLeavesHandler};
use webb_relayer::merkle::MerkleTree;
use webb_relayer::routes::{leaves_in_range, OptionalRangeQuery};
use webb_relayer::store::{ResourceId, Store, TypedChainId};
use webb_relayer::watcher::{dispatch_decision, DispatchDecision};

fn addr() -> Vec<u8> {
    vec![0xAAu8; 20]
}

fn rid() -> ResourceId {
    ResourceId::new(addr(), TypedChainId::Evm(5))
}

fn commitment(fill: u8) -> Vec<u8> {
    vec![fill; 32]
}

fn new_commitment(index: u32, fill: u8) -> VAnchorEvent {
    VAnchorEvent::NewCommitment { leaf_index: index, commitment: commitment(fill) }
}

fn meta(block: u64) -> LogMeta {
    LogMeta { block_number: block, log_index: 0 }
}

/// The big-endian bytes of the BN254 scalar-field order.
fn field_order_bytes() -> Vec<u8> {
    vec![
        0x30, 0x64, 0x4e, 0x72, 0xe1, 0x31, 0xa0, 0x29, 0xb8, 0x50, 0x45, 0xb6, 0x81, 0x81, 0x58,
        0x5d, 0x28, 0x33, 0xe8, 0x48, 0x79, 0xb9, 0x70, 0x91, 0x43, 0xe1, 0xf5, 0x93, 0xf0, 0x00,
        0x00, 0x01,
    ]
}

#[test]
fn cold_start_empty_store() {
    let store = Store::new();
    let handler = VAnchorLeavesHandler::new(5, addr(), &store, vec![0u8; 32]).unwrap();
    assert_eq!(handler.leaf_count(), 0);
    let root = handler.root();
    assert_eq!(root.len(), 32);
    // The hash is a real hash: the empty root is not the empty leaf itself.
    assert_ne!(root, vec![0u8; 32]);
    // The API returns nothing for any range.
    let q = OptionalRangeQuery::default();
    assert!(leaves_in_range(&store, &rid(), q).is_empty());
    let q2 = OptionalRangeQuery { start: Some(0), end: Some(100) };
    assert!(leaves_in_range(&store, &rid(), q2).is_empty());
}

#[test]
fn empty_root_equals_padded_single_empty_leaf() {
    // Padding uses the empty leaf, so explicitly storing the empty leaf at
    // slot zero leaves the root unchanged.
    let empty = MerkleTree::new(vec![0u8; 32]);
    let mut one = MerkleTree::new(vec![0u8; 32]);
    one.place_leaf(0, vec![0u8; 32]);
    assert_eq!(empty.root(), one.root());
}

#[test]
fn two_leaf_deposit_valid() {
    let mut store = Store::new();
    let mut handler = VAnchorLeavesHandler::new(5, addr(), &store, vec![0u8; 32]).unwrap();

    let e0 = new_commitment(0, 1);
    match handler.handle_event(&mut store, &e0, meta(10)).unwrap() {
        HandleAction::Done => {},
        HandleAction::CheckRoot { .. } => panic!("even index must not ask for a root check"),
    }

    let e1 = new_commitment(1, 2);
    let root = match handler.handle_event(&mut store, &e1, meta(11)).unwrap() {
        HandleAction::CheckRoot { root, block_number } => {
            assert_eq!(block_number, 11);
            root
        },
        HandleAction::Done => panic!("odd index must ask for a root check"),
    };
    // The contract knows this root.
    handler.complete_root_check(&mut store, true).unwrap();

    assert_eq!(handler.root(), root);
    assert_eq!(handler.leaf_count(), 2);
    assert_eq!(store.get_last_deposit_block_number(&rid()), 11);
    let q = OptionalRangeQuery { start: Some(0), end: Some(2) };
    let leaves = leaves_in_range(&store, &rid(), q);
    assert_eq!(leaves, vec![commitment(1), commitment(2)]);
}

#[test]
fn invalid_odd_commitment_rolls_back_and_fails_again() {
    let mut store = Store::new();
    let mut handler = VAnchorLeavesHandler::new(5, addr(), &store, vec![0u8; 32]).unwrap();

    let e0 = new_commitment(0, 1);
    handler.handle_event(&mut store, &e0, meta(10)).unwrap();
    let root_after_even = handler.root();

    let bad = new_commitment(1, 9);
    match handler.handle_event(&mut store, &bad, meta(11)).unwrap() {
        HandleAction::CheckRoot { .. } => {},
        HandleAction::Done => panic!("odd index must ask for a root check"),
    }
    // The contract does not know the root: rollback and surface the error.
    let err = handler.complete_root_check(&mut store, false).unwrap_err();
    assert_eq!(err, Error::InvalidMerkleRoot(1));
    assert_eq!(handler.root(), root_after_even);
    assert_eq!(handler.leaf_count(), 1);
    let q = OptionalRangeQuery::default();
    assert_eq!(leaves_in_range(&store, &rid(), q), vec![commitment(1)]);
    assert_eq!(store.get_last_deposit_block_number(&rid()), 10);

    // Re-delivery fails again, deterministically.
    match handler.handle_event(&mut store, &bad, meta(11)).unwrap() {
        HandleAction::CheckRoot { .. } => {},
        HandleAction::Done => panic!("odd index must ask for a root check"),
    }
    let err2 = handler.complete_root_check(&mut store, false).unwrap_err();
    assert_eq!(err2, Error::InvalidMerkleRoot(1));
    assert_eq!(handler.root(), root_after_even);
}

#[test]
fn crash_and_recover_reconstructs_root() {
    let mut store = Store::new();
    let mut handler = VAnchorLeavesHandler::new(5, addr(), &store, vec![0u8; 32]).unwrap();
    handler.handle_event(&mut store, &new_commitment(0, 1), meta(10)).unwrap();
    match handler.handle_event(&mut store, &new_commitment(1, 2), meta(11)).unwrap() {
        HandleAction::CheckRoot { .. } => {},
        HandleAction::Done => panic!("odd index must ask for a root check"),
    }
    handler.complete_root_check(&mut store, true).unwrap();
    let pre_shutdown_root = handler.root();
    drop(handler);

    // Restart: a fresh handler over the same store.
    let mut recovered = VAnchorLeavesHandler::new(5, addr(), &store, vec![0u8; 32]).unwrap();
    assert_eq!(recovered.root(), pre_shutdown_root);
    assert_eq!(recovered.leaf_count(), 2);

    // The next even-indexed commitment is accepted.
    match recovered.handle_event(&mut store, &new_commitment(2, 3), meta(12)).unwrap() {
        HandleAction::Done => {},
        HandleAction::CheckRoot { .. } => panic!("even index must not ask for a root check"),
    }
    assert_eq!(recovered.leaf_count(), 3);
    assert_eq!(store.get_last_deposit_block_number(&rid()), 12);
}

#[test]
fn replayed_event_is_skipped() {
    let mut store = Store::new();
    let mut handler = VAnchorLeavesHandler::new(5, addr(), &store, vec![0u8; 32]).unwrap();
    let e0 = new_commitment(0, 1);
    assert_eq!(dispatch_decision(&store, &e0), DispatchDecision::Deliver);
    handler.handle_event(&mut store, &e0, meta(10)).unwrap();
    // The same event, rebuilt from scratch, is now suppressed.
    let replay = new_commitment(0, 1);
    assert_eq!(dispatch_decision(&store, &replay), DispatchDecision::Skip);
    // A different event is still delivered.
    assert_eq!(dispatch_decision(&store, &new_commitment(1, 2)), DispatchDecision::Deliver);
}

#[test]
fn commitment_reduced_modulo_field_order() {
    let mut store = Store::new();
    let mut handler = VAnchorLeavesHandler::new(5, addr(), &store, vec![0u8; 32]).unwrap();
    let e = VAnchorEvent::NewCommitment { leaf_index: 0, commitment: field_order_bytes() };
    handler.handle_event(&mut store, &e, meta(10)).unwrap();
    // In the tree the leaf is the canonical representative: the order reduces
    // to zero.
    assert_eq!(handler.tree_leaf(0), Some(vec![0u8; 32]));
    // The store keeps the raw commitment bytes as delivered.
    let q = OptionalRangeQuery::default();
    assert_eq!(leaves_in_range(&store, &rid(), q), vec![field_order_bytes()]);
}

#[test]
fn gap_leaf_index_is_rejected() {
    let mut store = Store::new();
    let mut handler = VAnchorLeavesHandler::new(5, addr(), &store, vec![0u8; 32]).unwrap();
    let e = new_commitment(5, 1);
    let err = handler.handle_event(&mut store, &e, meta(10)).unwrap_err();
    assert_eq!(err, Error::UnexpectedLeafIndex(5));
    assert_eq!(handler.leaf_count(), 0);
    let q = OptionalRangeQuery::default();
    assert!(leaves_in_range(&store, &rid(), q).is_empty());
}

#[test]
fn only_new_commitments_are_handled() {
    let store = Store::new();
    let handler = VAnchorLeavesHandler::new(5, addr(), &store, vec![0u8; 32]).unwrap();
    assert!(handler.can_handle_events(&new_commitment(0, 1)));
    let edge = VAnchorEvent::EdgeAddition {
        chain_id: 7,
        latest_leaf_index: 3,
        merkle_root: commitment(4),
    };
    assert!(!handler.can_handle_events(&edge));
    let nullifier = VAnchorEvent::NewNullifier { nullifier: commitment(5) };
    assert!(!handler.can_handle_events(&nullifier));
}

#[test]
fn informational_events_change_nothing() {
    let mut store = Store::new();
    let mut handler = VAnchorLeavesHandler::new(5, addr(), &store, vec![0u8; 32]).unwrap();
    let before = handler.root();
    let edge = VAnchorEvent::EdgeUpdate {
        chain_id: 7,
        latest_leaf_index: 3,
        merkle_root: commitment(4),
    };
    match handler.handle_event(&mut store, &edge, meta(10)).unwrap() {
        HandleAction::Done => {},
        HandleAction::CheckRoot { .. } => panic!("informational events need no root check"),
    }
    assert_eq!(handler.root(), before);
    assert_eq!(handler.leaf_count(), 0);
}
