//! Decoded contract events and their canonical serialized form. The
//! serialized bytes identify a delivered event for replay suppression.

use vstd::prelude::*;
use crate::bytes::{push_u32_be, push_u64_be, u32_be, u64_be};

verus! {

/// Where in the chain's log an event was found.
#[derive(PartialEq, Eq, Structural, Clone, Copy, Debug)]
pub struct LogMeta {
    pub block_number: u64,
    pub log_index: u64,
}

/// The anchor contract's event variants. Only `NewCommitment` changes relayer
/// state; the others are informational.
pub enum VAnchorEvent {
    NewCommitment { leaf_index: u32, commitment: Vec<u8> },
    EdgeAddition { chain_id: u64, latest_leaf_index: u32, merkle_root: Vec<u8> },
    EdgeUpdate { chain_id: u64, latest_leaf_index: u32, merkle_root: Vec<u8> },
    NewNullifier { nullifier: Vec<u8> },
    Insertion { leaf_index: u32, commitment: Vec<u8>, timestamp: u64 },
}

impl VAnchorEvent {
    /// Commitments, roots and nullifiers are 32-byte words.
    pub open spec fn wf(self) -> bool {
        match self {
            VAnchorEvent::NewCommitment { commitment, .. } => commitment@.len() == 32,
            VAnchorEvent::EdgeAddition { merkle_root, .. } => merkle_root@.len() == 32,
            VAnchorEvent::EdgeUpdate { merkle_root, .. } => merkle_root@.len() == 32,
            VAnchorEvent::NewNullifier { nullifier } => nullifier@.len() == 32,
            VAnchorEvent::Insertion { commitment, .. } => commitment@.len() == 32,
        }
    }
}

/// Serialized form of a new-commitment event, over its plain fields.
pub open spec fn encode_new_commitment_spec(leaf_index: u32, commitment: Seq<u8>) -> Seq<u8> {
    seq![0u8] + u32_be(leaf_index) + commitment
}

/// The canonical serialized form of an event: a tag byte, then the fields,
/// integers big-endian.
pub open spec fn encode_spec(e: VAnchorEvent) -> Seq<u8> {
    match e {
        VAnchorEvent::NewCommitment { leaf_index, commitment } => encode_new_commitment_spec(
            leaf_index,
            commitment@,
        ),
        VAnchorEvent::EdgeAddition { chain_id, latest_leaf_index, merkle_root } => seq![1u8]
            + u64_be(chain_id) + u32_be(latest_leaf_index) + merkle_root@,
        VAnchorEvent::EdgeUpdate { chain_id, latest_leaf_index, merkle_root } => seq![2u8]
            + u64_be(chain_id) + u32_be(latest_leaf_index) + merkle_root@,
        VAnchorEvent::NewNullifier { nullifier } => seq![3u8] + nullifier@,
        VAnchorEvent::Insertion { leaf_index, commitment, timestamp } => seq![4u8] + u32_be(
            leaf_index,
        ) + commitment@ + u64_be(timestamp),
    }
}

/// Serialize an event into its canonical byte form.
pub fn encode_event(e: &VAnchorEvent) -> (r: Vec<u8>)
    ensures
        r@ == encode_spec(*e),
{
    let mut out: Vec<u8> = Vec::new();
    match e {
        VAnchorEvent::NewCommitment { leaf_index, commitment } => {
            out.push(0u8);
            push_u32_be(&mut out, *leaf_index);
            append_bytes(&mut out, commitment);
            proof {
                assert(out@ =~= encode_spec(*e));
            }
        },
        VAnchorEvent::EdgeAddition { chain_id, latest_leaf_index, merkle_root } => {
            out.push(1u8);
            push_u64_be(&mut out, *chain_id);
            push_u32_be(&mut out, *latest_leaf_index);
            append_bytes(&mut out, merkle_root);
            proof {
                assert(out@ =~= encode_spec(*e));
            }
        },
        VAnchorEvent::EdgeUpdate { chain_id, latest_leaf_index, merkle_root } => {
            out.push(2u8);
            push_u64_be(&mut out, *chain_id);
            push_u32_be(&mut out, *latest_leaf_index);
            append_bytes(&mut out, merkle_root);
            proof {
                assert(out@ =~= encode_spec(*e));
            }
        },
        VAnchorEvent::NewNullifier { nullifier } => {
            out.push(3u8);
            append_bytes(&mut out, nullifier);
            proof {
                assert(out@ =~= encode_spec(*e));
            }
        },
        VAnchorEvent::Insertion { leaf_index, commitment, timestamp } => {
            out.push(4u8);
            push_u32_be(&mut out, *leaf_index);
            append_bytes(&mut out, commitment);
            push_u64_be(&mut out, *timestamp);
            proof {
                assert(out@ =~= encode_spec(*e));
            }
        },
    }
    out
}

/// Append all bytes of `src` to `out`.
pub fn append_bytes(out: &mut Vec<u8>, src: &Vec<u8>)
    ensures
        final(out)@ == old(out)@ + src@,
{
    let mut i: usize = 0;
    while i < src.len()
        invariant
            i <= src@.len(),
            out@ == old(out)@ + src@.subrange(0, i as int),
        decreases src@.len() - i,
    {
        out.push(src[i]);
        proof {
            assert(out@ =~= old(out)@ + src@.subrange(0, i + 1));
        }
        i = i + 1;
    }
    proof {
        assert(src@.subrange(0, src@.len() as int) =~= src@);
    }
}

} // verus!
