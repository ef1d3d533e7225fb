//! Errors surfaced by the relayer core.

use vstd::prelude::*;

verus! {

/// Why a handler or store operation failed.
#[derive(PartialEq, Eq, Structural, Clone, Copy, Debug)]
pub enum Error {
    /// An odd-indexed commitment produced a root the contract does not
    /// recognize; the tree was rolled back and the event must be re-delivered.
    InvalidMerkleRoot(u32),
    /// The event's leaf index would leave a gap in the persisted prefix or
    /// exceed the tree's capacity.
    UnexpectedLeafIndex(u32),
    /// The store holds more leaves than a tree of the fixed depth can carry.
    TreeCapacity,
}

} // verus!
