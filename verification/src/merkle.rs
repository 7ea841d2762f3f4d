//! Incremental fixed-height Merkle tree over Poseidon.
//!
//! The membership accumulator: the Tornado-style incremental insert
//! (`filled_subtrees` plus precomputed empty-subtree roots) maintains the root
//! with one hash per level, and the stored leaves let members produce Merkle
//! openings. Empty leaves are the field zero; `zeros[i]` is the root of an
//! all-empty subtree of height `i`.
use crate::field::{from_u64, F};
use crate::merkle_math::{
    empty_root, is_level, lemma_leaves_level, lemma_node_empty, lemma_node_push, lemma_opening_verifies,
    lemma_parent_level, lemma_shr_below, lemma_shr_succ, merkle_root, node, opening_path, parent_of,
    path_root, shr, sibling_index,
};
use crate::poseidon::{hash2, poseidon2, poseidon_hasher, views};
use vstd::arithmetic::power2::pow2;
use vstd::prelude::*;

verus! {

/// Default tree height. Capacity is `2^height` members.
pub const DEFAULT_HEIGHT: usize = 26;

/// Errors from tree operations.
#[derive(Debug, Clone, Copy, PartialEq, Eq, Structural)]
pub enum MerkleError {
    /// The tree is full (`2^height` leaves already inserted).
    Full,
}

/// `x & 1`, `x >> 1` and `x ^ 1` on an index.
proof fn lemma_index_bits(x: usize)
    ensures
        (x & 1) == x % 2,
        (x >> 1) == x / 2,
        x % 2 == 0 ==> (x ^ 1) == x + 1,
        x % 2 == 1 ==> (x ^ 1) == x - 1,
{
    assert((x & 1) == x % 2) by (bit_vector);
    assert((x >> 1) == x / 2) by (bit_vector);
    assert(x % 2 == 0 ==> (x ^ 1) == x + 1) by (bit_vector);
    assert(x % 2 == 1 ==> (x ^ 1) == x - 1) by (bit_vector);
}

/// A copy of a list of field elements.
fn copy_level(v: &Vec<F>) -> (r: Vec<F>)
    ensures
        r@ == v@,
{
    let mut r: Vec<F> = Vec::new();
    let mut i: usize = 0;
    while i < v.len()
        invariant
            i <= v@.len(),
            r@ == v@.take(i as int),
        decreases v@.len() - i,
    {
        r.push(v[i]);
        proof {
            assert(v@.take(i + 1) =~= v@.take(i as int).push(v@[i as int]));
        }
        i = i + 1;
    }
    proof {
        assert(v@.take(i as int) =~= v@);
    }
    r
}

/// Compute the parent level, zero-padding a missing right sibling with the
/// zero-subtree hash for this level.
fn parent_level(level: &Vec<F>, zero: F) -> (parents: Vec<F>)
    ensures
        views(parents@) == parent_of(poseidon_hasher(), views(level@), zero@),
{
    let ghost hash = poseidon_hasher();
    let ghost target = parent_of(hash, views(level@), zero@);
    let mut parents: Vec<F> = Vec::new();
    let len = level.len();
    let count = len / 2 + len % 2;
    let mut j: usize = 0;
    while j < count
        invariant
            hash == poseidon_hasher(),
            target == parent_of(hash, views(level@), zero@),
            len == level@.len(),
            count == (level@.len() + 1) / 2,
            j <= count,
            parents@.len() == j,
            forall|k: int| 0 <= k < parents@.len() ==> #[trigger] parents@[k]@ == target[k],
        decreases count - j,
    {
        assert(2 * j < len);
        let i = 2 * j;
        let left = level[i];
        let right = if i + 1 < level.len() {
            level[i + 1]
        } else {
            zero
        };
        let p = hash2(left, right);
        proof {
            assert(p@ == target[j as int]);
        }
        parents.push(p);
        j = j + 1;
    }
    proof {
        assert(views(parents@) =~= target);
    }
    parents
}

/// A Merkle opening: the sibling hashes from a leaf up to the root, plus the
/// leaf's index (whose bits select left/right at each level).
#[derive(Clone, Debug)]
pub struct MerklePath {
    /// Index of the leaf this path authenticates.
    pub index: usize,
    /// Sibling nodes, level 0 (leaf level) first.
    pub siblings: Vec<F>,
}

impl MerklePath {
    /// The root this path implies for `leaf`.
    pub open spec fn spec_root(&self, leaf: Seq<u8>) -> Seq<u8> {
        path_root(poseidon_hasher(), leaf, self.index as nat, views(self.siblings@))
    }

    /// Recompute the root implied by this path and a candidate `leaf`.
    pub fn compute_root(&self, leaf: F) -> (r: F)
        ensures
            r@ == self.spec_root(leaf@),
    {
        let ghost sibs = views(self.siblings@);
        let mut cur = leaf;
        let mut idx = self.index;
        let mut i: usize = 0;
        proof {
            assert(sibs.take(0) =~= Seq::<Seq<u8>>::empty());
        }
        while i < self.siblings.len()
            invariant
                i <= self.siblings@.len(),
                sibs == views(self.siblings@),
                idx == shr(self.index as nat, i as nat),
                cur@ == path_root(poseidon_hasher(), leaf@, self.index as nat, sibs.take(i as int)),
            decreases self.siblings@.len() - i,
        {
            let sib = self.siblings[i];
            proof {
                lemma_index_bits(idx);
                assert(sibs.take(i + 1).drop_last() =~= sibs.take(i as int));
            }
            cur = if idx & 1 == 0 {
                hash2(cur, sib)
            } else {
                hash2(sib, cur)
            };
            idx = idx >> 1;
            i = i + 1;
        }
        proof {
            assert(sibs.take(i as int) =~= sibs);
        }
        cur
    }

    /// Verify this opening authenticates `leaf` under `root`.
    pub fn verify(&self, leaf: F, root: F) -> (ok: bool)
        ensures
            ok == (self.spec_root(leaf@) == root@),
    {
        self.compute_root(leaf) == root
    }
}

/// An incremental Merkle tree.
#[derive(Clone, Debug)]
pub struct IncrementalMerkleTree {
    height: usize,
    /// `zeros[i]` = root of an all-empty subtree of height `i`; `len == height + 1`.
    zeros: Vec<F>,
    /// Left-hand nodes needed to fold in the next leaf; `len == height`.
    filled_subtrees: Vec<F>,
    current_root: F,
    next_index: usize,
    leaves: Vec<F>,
}

impl View for IncrementalMerkleTree {
    type V = Seq<Seq<u8>>;

    /// The inserted leaves, oldest first.
    closed spec fn view(&self) -> Seq<Seq<u8>> {
        views(self.leaves@)
    }
}

impl IncrementalMerkleTree {
    /// The tree's height.
    pub closed spec fn spec_height(&self) -> nat {
        self.height as nat
    }

    /// A well-formed tree has height `1..=32`.
    pub proof fn lemma_height_bound(&self)
        requires
            self.wf(),
        ensures
            1 <= self.spec_height() <= 32,
    {
    }

    /// The root the tree keeps up to date on every insert.
    pub closed spec fn stored_root(&self) -> Seq<u8> {
        self.current_root@
    }

    /// The root of the tree holding the current leaves.
    pub open spec fn spec_root(&self) -> Seq<u8> {
        merkle_root(poseidon_hasher(), self@, self.spec_height())
    }

    /// The tree's internal invariant.
    pub closed spec fn wf(&self) -> bool {
        let hash = poseidon_hasher();
        let n = self.next_index as nat;
        &&& 1 <= self.height <= 32
        &&& self.zeros@.len() == self.height + 1
        &&& forall|i: int| #![trigger self.zeros@[i]]
            0 <= i <= self.height ==> self.zeros@[i]@ == empty_root(hash, i as nat)
        &&& self.filled_subtrees@.len() == self.height
        &&& n == self.leaves@.len()
        &&& n <= pow2(self.height as nat)
        &&& self.current_root@ == merkle_root(hash, self@, self.height as nat)
        &&& forall|k: int| #![trigger self.filled_subtrees@[k]]
            0 <= k < self.height && shr(n, k as nat) % 2 == 1 ==> self.filled_subtrees@[k]@
                == node(hash, self@, k as nat, (shr(n, k as nat) - 1) as nat)
    }

    /// Create an empty tree of the given height (`1..=32`).
#[verifier::spinoff_prover]
    pub fn new(height: usize) -> (t: Self)
        requires
            1 <= height <= 32,
        ensures
            t.wf(),
            t.spec_height() == height,
            t@ == Seq::<Seq<u8>>::empty(),
    {
        let ghost hash = poseidon_hasher();
        let mut zeros: Vec<F> = Vec::new();
        let z = from_u64(0);
        proof {
            crate::field::lemma_le_value_zero(z@);
        }
        zeros.push(z);
        let mut i: usize = 1;
        while i <= height
            invariant
                1 <= i <= height + 1,
                height <= 32,
                hash == poseidon_hasher(),
                zeros@.len() == i,
                forall|j: int| #![trigger zeros@[j]]
                    0 <= j < i ==> zeros@[j]@ == empty_root(hash, j as nat),
            decreases height + 1 - i,
        {
            let prev = zeros[i - 1];
            let next = hash2(prev, prev);
            proof {
                assert(zeros@[i - 1]@ == empty_root(hash, (i - 1) as nat));
                assert(prev@ == empty_root(hash, (i - 1) as nat));
                assert(next@ == poseidon_hasher()(prev@, prev@));
                assert(empty_root(hash, i as nat) == hash(
                    empty_root(hash, (i - 1) as nat),
                    empty_root(hash, (i - 1) as nat),
                ));
            }
            let ghost old_zeros = zeros@;
            zeros.push(next);
            proof {
                assert forall|j: int| 0 <= j < i + 1 implies #[trigger] zeros@[j]@ == empty_root(
                    hash,
                    j as nat,
                ) by {
                    if j < i {
                        assert(zeros@[j] == old_zeros[j]);
                        assert(old_zeros[j]@ == empty_root(hash, j as nat));
                    } else {
                        assert(zeros@[j] == next);
                        assert(next@ == empty_root(hash, i as nat));
                    }
                }
            }
            i = i + 1;
        }
        let mut filled_subtrees: Vec<F> = Vec::new();
        let mut k: usize = 0;
        while k < height
            invariant
                k <= height,
                zeros@.len() == height + 1,
                forall|j: int| 0 <= j < k ==> #[trigger] filled_subtrees@[j] == zeros@[j],
                filled_subtrees@.len() == k,
            decreases height - k,
        {
            filled_subtrees.push(zeros[k]);
            k = k + 1;
        }
        let current_root = zeros[height];
        let t = IncrementalMerkleTree {
            height,
            zeros,
            filled_subtrees,
            current_root,
            next_index: 0,
            leaves: Vec::new(),
        };
        proof {
            assert(t@ =~= Seq::<Seq<u8>>::empty());
            lemma_node_empty(hash, t@, height as nat, 0);
            assert forall|k: int| 0 <= k < height implies #[trigger] shr(0, k as nat) == 0 by {
                crate::merkle_math::lemma_shr_zero(k as nat);
            }
            vstd::arithmetic::power2::lemma_pow2_pos(height as nat);
        }
        t
    }

    /// Height of the tree.
    pub fn height(&self) -> (h: usize)
        requires
            self.wf(),
        ensures
            h == self.spec_height(),
    {
        self.height
    }

    /// Number of leaves inserted so far.
    pub fn len(&self) -> (n: usize)
        requires
            self.wf(),
        ensures
            n == self@.len(),
    {
        self.leaves.len()
    }

    /// Whether no leaves have been inserted.
    pub fn is_empty(&self) -> (b: bool)
        requires
            self.wf(),
        ensures
            b == (self@.len() == 0),
    {
        self.leaves.len() == 0
    }

    /// Maximum number of leaves (`2^height`).
    pub fn capacity(&self) -> (c: u64)
        requires
            self.wf(),
        ensures
            c == pow2(self.spec_height()),
    {
        proof {
            vstd::bits::lemma_u64_pow2_no_overflow(self.height as nat);
            vstd::bits::lemma_u64_shl_is_mul(1, self.height as u64);
        }
        1u64 << (self.height as u64)
    }

    /// Insert a leaf, returning its index. Uses the Tornado incremental
    /// update: one hash per level.
#[verifier::spinoff_prover]
    pub fn insert(&mut self, leaf: F) -> (r: Result<usize, MerkleError>)
        requires
            old(self).wf(),
        ensures
            final(self).wf(),
            final(self).spec_height() == old(self).spec_height(),
            match r {
                Ok(index) => {
                    &&& index == old(self)@.len()
                    &&& old(self)@.len() < pow2(old(self).spec_height())
                    &&& final(self)@ == old(self)@.push(leaf@)
                },
                Err(e) => {
                    &&& e == MerkleError::Full
                    &&& old(self)@.len() == pow2(old(self).spec_height())
                    &&& *final(self) == *old(self)
                },
            },
    {
        let ghost hash = poseidon_hasher();
        let ghost n = self.next_index as nat;
        let ghost old_leaves = self@;
        let ghost new_leaves = old_leaves.push(leaf@);
        let ghost old_filled = self.filled_subtrees@;
        let index = self.next_index;
        if index as u64 >= self.capacity() {
            return Err(MerkleError::Full);
        }
        let mut cur = leaf;
        let mut idx = index;
        let mut h: usize = 0;
        proof {
            assert(new_leaves[n as int] == leaf@);
        }
        while h < self.height
            invariant
                hash == poseidon_hasher(),
                old(self).wf(),
                n == old(self).next_index,
                n < pow2(old(self).height as nat),
                old_leaves == old(self)@,
                new_leaves == old_leaves.push(leaf@),
                old_filled == old(self).filled_subtrees@,
                self.height == old(self).height,
                self.zeros == old(self).zeros,
                self.leaves == old(self).leaves,
                self.next_index == old(self).next_index,
                self.current_root == old(self).current_root,
                self.filled_subtrees@.len() == self.height,
                h <= self.height,
                idx == shr(n, h as nat),
                cur@ == node(hash, new_leaves, h as nat, shr(n, h as nat)),
                forall|k: int| #![trigger self.filled_subtrees@[k]]
                    h <= k < self.height ==> self.filled_subtrees@[k] == old_filled[k],
                forall|k: int| #![trigger self.filled_subtrees@[k]]
                    0 <= k < h && shr(n + 1, k as nat) % 2 == 1 ==> self.filled_subtrees@[k]@
                        == node(hash, new_leaves, k as nat, (shr(n + 1, k as nat) - 1) as nat),
            decreases self.height - h,
        {
            proof {
                lemma_index_bits(idx);
                lemma_shr_succ(n, h as nat);
            }
            let ghost hn = h as nat;
            if idx & 1 == 0 {
                // `cur` is a left child; its right sibling is still empty.
                let zero = self.zeros[h];
                proof {
                    assert(old(self).zeros@[h as int]@ == empty_root(hash, hn));
                    lemma_node_empty(hash, new_leaves, hn, shr(n, hn) + 1);
                }
                self.filled_subtrees.set(h, cur);
                cur = hash2(cur, zero);
            } else {
                // `cur` is a right child; fold in the stored left sibling.
                let left = self.filled_subtrees[h];
                proof {
                    assert(old_filled[h as int]@ == node(hash, old_leaves, hn, (shr(n, hn) - 1) as nat));
                    lemma_node_push(hash, old_leaves, leaf@, hn, (shr(n, hn) - 1) as nat);
                }
                cur = hash2(left, cur);
            }
            idx = idx >> 1;
            h = h + 1;
        }
        proof {
            lemma_shr_below(n, self.height as nat);
            assert(old(self).leaves@.push(leaf) == self.leaves@.push(leaf));
        }
        self.current_root = cur;
        self.leaves.push(leaf);
        proof {
            assert(self.leaves.len() == n + 1);
        }
        self.next_index = self.next_index + 1;
        proof {
            assert(self@ =~= new_leaves);
        }
        Ok(index)
    }

    /// Produce a Merkle opening for a previously inserted leaf.
#[verifier::spinoff_prover]
    pub fn opening(&self, index: usize) -> (r: Option<MerklePath>)
        requires
            self.wf(),
        ensures
            r is None <==> index >= self@.len(),
            r matches Some(path) ==> {
                &&& path.index == index
                &&& views(path.siblings@) == opening_path(
                    poseidon_hasher(),
                    self@,
                    index as nat,
                    self.spec_height(),
                )
            },
    {
        if index >= self.leaves.len() {
            return None;
        }
        let ghost hash = poseidon_hasher();
        let mut siblings: Vec<F> = Vec::new();
        let mut level: Vec<F> = copy_level(&self.leaves);
        let mut idx = index;
        let mut h: usize = 0;
        proof {
            lemma_leaves_level(hash, self@);
        }
        while h < self.height
            invariant
                hash == poseidon_hasher(),
                self.wf(),
                index < self@.len(),
                h <= self.height,
                idx == shr(index as nat, h as nat),
                is_level(hash, self@, h as nat, views(level@)),
                siblings@.len() == h,
                forall|k: int| #![trigger siblings@[k]]
                    0 <= k < h ==> siblings@[k]@ == node(
                        hash,
                        self@,
                        k as nat,
                        sibling_index(shr(index as nat, k as nat)),
                    ),
            decreases self.height - h,
        {
            proof {
                lemma_index_bits(idx);
                assert(self.zeros@[h as int]@ == empty_root(hash, h as nat));
            }
            let sib = idx ^ 1;
            let sibling = if sib < level.len() {
                level[sib]
            } else {
                self.zeros[h]
            };
            proof {
                if sib >= level.len() {
                    assert(node(hash, self@, h as nat, sib as nat) == empty_root(hash, h as nat));
                } else {
                    assert(views(level@)[sib as int] == level@[sib as int]@);
                }
                assert(sib as nat == sibling_index(shr(index as nat, h as nat)));
            }
            let ghost old_siblings = siblings@;
            siblings.push(sibling);
            proof {
                assert forall|k: int| 0 <= k < h + 1 implies #[trigger] siblings@[k]@ == node(
                    hash,
                    self@,
                    k as nat,
                    sibling_index(shr(index as nat, k as nat)),
                ) by {
                    if k < h {
                        assert(siblings@[k] == old_siblings[k]);
                    }
                }
            }
            let ghost below = views(level@);
            level = parent_level(&level, self.zeros[h]);
            proof {
                lemma_parent_level(hash, self@, h as nat, below);
            }
            idx = idx >> 1;
            h = h + 1;
        }
        let path = MerklePath { index, siblings };
        proof {
            assert(views(path.siblings@) =~= opening_path(hash, self@, index as nat, self.height as nat));
        }
        Some(path)
    }

    /// Full recomputation of the root from stored leaves (cross-check for the
    /// incremental update; also the empty-tree root when there are no leaves).
#[verifier::spinoff_prover]
    pub fn recompute_root(&self) -> (r: F)
        requires
            self.wf(),
        ensures
            r@ == self.spec_root(),
    {
        let ghost hash = poseidon_hasher();
        if self.leaves.len() == 0 {
            proof {
                lemma_node_empty(hash, self@, self.height as nat, 0);
                assert(self.zeros@[self.height as int]@ == empty_root(hash, self.height as nat));
            }
            return self.zeros[self.height];
        }
        let mut level: Vec<F> = copy_level(&self.leaves);
        let mut h: usize = 0;
        proof {
            lemma_leaves_level(hash, self@);
        }
        while h < self.height
            invariant
                hash == poseidon_hasher(),
                self.wf(),
                h <= self.height,
                level@.len() >= 1,
                is_level(hash, self@, h as nat, views(level@)),
            decreases self.height - h,
        {
            proof {
                assert(self.zeros@[h as int]@ == empty_root(hash, h as nat));
            }
            let ghost below = views(level@);
            level = parent_level(&level, self.zeros[h]);
            proof {
                lemma_parent_level(hash, self@, h as nat, below);
                assert(views(level@).len() == level@.len());
                assert(below.len() >= 1);
            }
            h = h + 1;
        }
        proof {
            assert(views(level@)[0] == level@[0]@);
        }
        level[0]
    }

    /// Current Merkle root (maintained incrementally).
    pub fn root(&self) -> (r: F)
        requires
            self.wf(),
        ensures
            r@ == self.stored_root(),
            r@ == self.spec_root(),
    {
        self.current_root
    }
}

/// Every opening the tree hands out verifies: for any leaf that was
/// inserted, the path the tree produces for it folds that leaf up to the
/// tree's root.
pub proof fn law_openings_verify(tree: &IncrementalMerkleTree, path: &MerklePath)
    requires
        tree.wf(),
        path.index < tree@.len(),
        views(path.siblings@) == opening_path(
            poseidon_hasher(),
            tree@,
            path.index as nat,
            tree.spec_height(),
        ),
    ensures
        path.spec_root(tree@[path.index as int]) == tree.spec_root(),
{
    lemma_opening_verifies(poseidon_hasher(), tree@, path.index as nat, tree.spec_height());
}

/// The root maintained incrementally by `insert` is the root recomputed from
/// all stored leaves.
pub proof fn law_incremental_root_is_full_root(tree: &IncrementalMerkleTree)
    requires
        tree.wf(),
    ensures
        tree.stored_root() == merkle_root(poseidon_hasher(), tree@, tree.spec_height()),
{
}

/// A tree never holds more than `2^height` leaves.
pub proof fn law_capacity_bound(tree: &IncrementalMerkleTree)
    requires
        tree.wf(),
    ensures
        tree@.len() <= pow2(tree.spec_height()),
{
}

} // verus!
