//! A fixed-depth sparse Merkle tree over 32-byte leaves. Unfilled positions
//! hold the empty leaf; the root is the Poseidon hash-fold of all leaves in
//! index order with empty-leaf padding.

use vstd::prelude::*;
use vstd::arithmetic::power2::{
    lemma2_to64, lemma_pow2_pos, lemma_pow2_strictly_increases, lemma_pow2_unfold, pow2,
};
use crate::bytes::{clone_byte_vecs, clone_bytes};
use crate::field::{hash_of, poseidon_hash_two};

verus! {

/// Depth of every commitment tree.
pub const TREE_DEPTH: usize = 30;

/// The byte sequences held by a vector of byte vectors.
pub open spec fn views(leaves: Seq<Vec<u8>>) -> Seq<Seq<u8>> {
    leaves.map_values(|l: Vec<u8>| l@)
}

/// Root of the depth-`depth` subtree whose leftmost leaf slot is `start`:
/// leaf slots beyond the stored leaves hold the empty leaf.
pub open spec fn node_spec(leaves: Seq<Seq<u8>>, start: nat, depth: nat, empty: Seq<u8>) -> Seq<u8>
    decreases depth,
{
    if depth == 0 {
        if start < leaves.len() {
            leaves[start as int]
        } else {
            empty
        }
    } else {
        hash_of(
            node_spec(leaves, start, (depth - 1) as nat, empty),
            node_spec(leaves, start + pow2((depth - 1) as nat), (depth - 1) as nat, empty),
        )
    }
}

/// Root of a depth-`depth` subtree all of whose leaf slots are empty.
pub open spec fn zero_spec(depth: nat, empty: Seq<u8>) -> Seq<u8>
    decreases depth,
{
    if depth == 0 {
        empty
    } else {
        hash_of(zero_spec((depth - 1) as nat, empty), zero_spec((depth - 1) as nat, empty))
    }
}

/// Root of the whole tree over the given leaves.
pub open spec fn root_spec(leaves: Seq<Seq<u8>>, empty: Seq<u8>) -> Seq<u8> {
    node_spec(leaves, 0, TREE_DEPTH as nat, empty)
}

/// The leaves after placing `leaf` at slot `index`: an existing slot is
/// overwritten, a slot past the end is reached by empty-leaf padding.
pub open spec fn place_leaf_spec(
    leaves: Seq<Seq<u8>>,
    index: nat,
    leaf: Seq<u8>,
    empty: Seq<u8>,
) -> Seq<Seq<u8>> {
    if index < leaves.len() {
        leaves.update(index as int, leaf)
    } else {
        leaves + Seq::new((index - leaves.len()) as nat, |i: int| empty) + seq![leaf]
    }
}

/// A subtree with no stored leaf under it has the all-empty root.
proof fn lemma_node_all_empty(leaves: Seq<Seq<u8>>, start: nat, depth: nat, empty: Seq<u8>)
    requires
        start >= leaves.len(),
    ensures
        node_spec(leaves, start, depth, empty) == zero_spec(depth, empty),
    decreases depth,
{
    if depth > 0 {
        lemma_node_all_empty(leaves, start, (depth - 1) as nat, empty);
        lemma_node_all_empty(leaves, start + pow2((depth - 1) as nat), (depth - 1) as nat, empty);
    }
}

/// The empty tree's root is the all-empty-leaf padded root of the full
/// depth.
pub proof fn lemma_empty_root(empty: Seq<u8>)
    ensures
        root_spec(Seq::<Seq<u8>>::empty(), empty) == zero_spec(TREE_DEPTH as nat, empty),
{
    lemma_node_all_empty(Seq::<Seq<u8>>::empty(), 0, TREE_DEPTH as nat, empty);
}

pub struct MerkleTree {
    pub leaves: Vec<Vec<u8>>,
    pub zeros: Vec<Vec<u8>>,
    pub empty_leaf: Vec<u8>,
}

impl MerkleTree {
    /// Well-formed: the cached zero subtree roots match `zero_spec`, and the
    /// leaf count stays within the tree's capacity.
    pub open spec fn wf(self) -> bool {
        &&& self.empty_leaf@.len() == 32
        &&& self.zeros@.len() == TREE_DEPTH + 1
        &&& forall|i: int|
            0 <= i <= TREE_DEPTH ==> (#[trigger] self.zeros@[i])@ == zero_spec(
                i as nat,
                self.empty_leaf@,
            ) && self.zeros@[i]@.len() == 32
        &&& self.leaves@.len() <= pow2(TREE_DEPTH as nat)
        &&& forall|i: int| 0 <= i < self.leaves@.len() ==> (#[trigger] self.leaves@[i])@.len() == 32
    }

    /// The leaves stored so far, in slot order.
    pub open spec fn leaves_view(self) -> Seq<Seq<u8>> {
        views(self.leaves@)
    }

    /// The empty-leaf value the tree pads with.
    pub open spec fn empty_view(self) -> Seq<u8> {
        self.empty_leaf@
    }

    /// The root the tree stands for.
    pub open spec fn root_view(self) -> Seq<u8> {
        root_spec(self.leaves_view(), self.empty_leaf@)
    }

    /// An empty tree padded with the given (already canonical) empty leaf.
    pub fn new(empty_leaf: Vec<u8>) -> (t: Self)
        requires
            empty_leaf@.len() == 32,
        ensures
            t.wf(),
            t.leaves_view() == Seq::<Seq<u8>>::empty(),
            t.empty_view() == empty_leaf@,
    {
        let mut zeros: Vec<Vec<u8>> = Vec::new();
        zeros.push(clone_bytes(&empty_leaf));
        let mut h: usize = 0;
        while h < TREE_DEPTH
            invariant
                h <= TREE_DEPTH,
                zeros@.len() == h + 1,
                empty_leaf@.len() == 32,
                forall|i: int|
                    0 <= i <= h ==> (#[trigger] zeros@[i])@ == zero_spec(i as nat, empty_leaf@)
                        && zeros@[i]@.len() == 32,
            decreases TREE_DEPTH - h,
        {
            let next = poseidon_hash_two(&zeros[h], &zeros[h]);
            zeros.push(next);
            h = h + 1;
        }
        let t = MerkleTree { leaves: Vec::new(), zeros, empty_leaf };
        proof {
            assert(t.leaves_view() =~= Seq::<Seq<u8>>::empty());
        }
        t
    }

    /// How many leaf slots are filled.
    pub fn leaf_count(&self) -> (n: usize)
        ensures
            n == self.leaves_view().len(),
    {
        self.leaves.len()
    }

    /// The leaf at a slot, if it is filled.
    pub fn leaf_at(&self, index: usize) -> (r: Option<Vec<u8>>)
        ensures
            index < self.leaves_view().len() ==> (r matches Some(l) && l@ == self.leaves_view()[index as int]),
            index >= self.leaves_view().len() ==> r is None,
    {
        if index < self.leaves.len() {
            Some(clone_bytes(&self.leaves[index]))
        } else {
            None
        }
    }

    /// Place a 32-byte leaf at a slot, padding skipped slots with the empty
    /// leaf.
    pub fn place_leaf(&mut self, index: usize, leaf: Vec<u8>)
        requires
            old(self).wf(),
            leaf@.len() == 32,
            index < pow2(TREE_DEPTH as nat),
        ensures
            final(self).wf(),
            final(self).empty_view() == old(self).empty_view(),
            final(self).leaves_view() == place_leaf_spec(
                old(self).leaves_view(),
                index as nat,
                leaf@,
                old(self).empty_view(),
            ),
    {
        if index < self.leaves.len() {
            self.leaves.set(index, leaf);
            proof {
                assert forall|j: int| 0 <= j < self.leaves@.len() implies (#[trigger] self
                    .leaves@[j])@.len() == 32 by {
                    if j != index {
                        assert(self.leaves@[j] == old(self).leaves@[j]);
                    }
                }
                assert(self.leaves_view() =~= place_leaf_spec(
                    old(self).leaves_view(),
                    index as nat,
                    leaf@,
                    old(self).empty_view(),
                ));
            }
        } else {
            proof {
                assert(self.leaves@.subrange(0, self.leaves@.len() as int) =~= self.leaves@);
            }
            while self.leaves.len() < index
                invariant
                    old(self).leaves@.len() <= self.leaves@.len() <= index,
                    index < pow2(TREE_DEPTH as nat),
                    self.zeros == old(self).zeros,
                    self.empty_leaf == old(self).empty_leaf,
                    old(self).wf(),
                    self.leaves@.len() >= old(self).leaves@.len(),
                    self.leaves@.subrange(0, old(self).leaves@.len() as int) == old(self).leaves@,
                    forall|j: int|
                        old(self).leaves@.len() <= j < self.leaves@.len() ==> (#[trigger] self
                            .leaves@[j])@ == old(self).empty_leaf@,
                decreases index - self.leaves.len(),
            {
                let pad = clone_bytes(&self.empty_leaf);
                self.leaves.push(pad);
                proof {
                    assert(self.leaves@.subrange(0, old(self).leaves@.len() as int) =~= old(
                        self,
                    ).leaves@);
                }
            }
            self.leaves.push(leaf);
            proof {
                assert forall|j: int| 0 <= j < self.leaves@.len() implies (#[trigger] self
                    .leaves@[j])@.len() == 32 by {
                    if j < old(self).leaves@.len() {
                        assert(self.leaves@.subrange(0, old(self).leaves@.len() as int)[j]
                            == self.leaves@[j]);
                        assert(old(self).leaves@[j]@.len() == 32);
                    }
                }
                let lv = self.leaves_view();
                let pv = place_leaf_spec(
                    old(self).leaves_view(),
                    index as nat,
                    leaf@,
                    old(self).empty_view(),
                );
                assert(lv.len() == pv.len());
                assert forall|j: int| 0 <= j < lv.len() implies lv[j] == pv[j] by {
                    if j < old(self).leaves@.len() {
                        assert(self.leaves@.subrange(0, old(self).leaves@.len() as int)[j]
                            == self.leaves@[j]);
                    }
                }
                assert(lv =~= pv);
            }
        }
    }

    /// A copy of the stored leaves, for later rollback.
    pub fn leaves_snapshot(&self) -> (s: Vec<Vec<u8>>)
        requires
            self.wf(),
        ensures
            views(s@) == self.leaves_view(),
            s@.len() <= pow2(TREE_DEPTH as nat),
            forall|i: int| 0 <= i < s@.len() ==> (#[trigger] s@[i])@.len() == 32,
    {
        let s = clone_byte_vecs(&self.leaves);
        proof {
            assert(views(s@) =~= self.leaves_view());
        }
        s
    }

    /// Restore a snapshot taken by `leaves_snapshot`.
    pub fn restore_leaves(&mut self, snapshot: Vec<Vec<u8>>)
        requires
            old(self).wf(),
            snapshot@.len() <= pow2(TREE_DEPTH as nat),
            forall|i: int| 0 <= i < snapshot@.len() ==> (#[trigger] snapshot@[i])@.len() == 32,
        ensures
            final(self).wf(),
            final(self).empty_view() == old(self).empty_view(),
            final(self).leaves_view() == views(snapshot@),
    {
        self.leaves = snapshot;
    }

    /// Root of the subtree of the given depth starting at leaf slot `start`.
    fn node(&self, start: usize, depth: usize) -> (r: Vec<u8>)
        requires
            self.wf(),
            depth <= TREE_DEPTH,
            start + pow2(depth as nat) <= pow2(TREE_DEPTH as nat),
        ensures
            r@ == node_spec(self.leaves_view(), start as nat, depth as nat, self.empty_leaf@),
            r@.len() == 32,
        decreases depth,
    {
        proof {
            lemma2_to64();
        }
        if start >= self.leaves.len() {
            proof {
                lemma_node_all_empty(
                    self.leaves_view(),
                    start as nat,
                    depth as nat,
                    self.empty_leaf@,
                );
            }
            clone_bytes(&self.zeros[depth])
        } else if depth == 0 {
            clone_bytes(&self.leaves[start])
        } else {
            proof {
                lemma_pow2_unfold(depth as nat);
                lemma_pow2_pos((depth - 1) as nat);
                if depth < TREE_DEPTH {
                    lemma_pow2_strictly_increases(depth as nat, TREE_DEPTH as nat);
                }
            }
            let half = pow2_exec(depth - 1);
            let left = self.node(start, depth - 1);
            let right = self.node(start + half, depth - 1);
            poseidon_hash_two(&left, &right)
        }
    }

    /// The current root: the hash-fold of all stored leaves in slot order,
    /// with empty-leaf padding at every unfilled slot.
    pub fn root(&self) -> (r: Vec<u8>)
        requires
            self.wf(),
        ensures
            r@ == self.root_view(),
            r@.len() == 32,
    {
        self.node(0, TREE_DEPTH)
    }
}

/// `2^n` for tree-sized exponents.
pub fn pow2_exec(n: usize) -> (r: usize)
    requires
        n <= TREE_DEPTH,
    ensures
        r == pow2(n as nat),
{
    proof {
        lemma2_to64();
    }
    let mut r: usize = 1;
    let mut i: usize = 0;
    while i < n
        invariant
            i <= n,
            n <= TREE_DEPTH,
            r == pow2(i as nat),
        decreases n - i,
    {
        proof {
            lemma_pow2_unfold((i + 1) as nat);
            if (i + 1) < TREE_DEPTH {
                lemma_pow2_strictly_increases((i + 1) as nat, TREE_DEPTH as nat);
            }
            lemma2_to64();
        }
        r = r * 2;
        i = i + 1;
    }
    r
}

} // verus!
