//! The mathematics of a fixed-height Merkle tree, for any two-to-one hash.
//!
//! Leaves are 32-byte strings; missing leaves are the all-zero string.
//! `node(hash, leaves, h, j)` is the `j`-th node of level `h` (level 0 holds
//! the leaves), and the root of a tree of height `H` is `node(.., H, 0)`.
//! Both the off-chain tree and the on-chain pool are proved against these
//! definitions.
use crate::field::zero_bytes;
use vstd::arithmetic::div_mod::lemma_div_denominator;
use vstd::arithmetic::power2::{lemma_pow2_pos, lemma_pow2_unfold, pow2};
use vstd::prelude::*;

verus! {

/// The root of an all-empty subtree of height `h`.
pub open spec fn empty_root(hash: spec_fn(Seq<u8>, Seq<u8>) -> Seq<u8>, h: nat) -> Seq<u8>
    decreases h,
{
    if h == 0 {
        zero_bytes()
    } else {
        let z = empty_root(hash, (h - 1) as nat);
        hash(z, z)
    }
}

/// Node `j` of level `h` of the tree whose leaves are `leaves`, padded with
/// empty leaves.
pub open spec fn node(
    hash: spec_fn(Seq<u8>, Seq<u8>) -> Seq<u8>,
    leaves: Seq<Seq<u8>>,
    h: nat,
    j: nat,
) -> Seq<u8>
    decreases h,
{
    if h == 0 {
        if j < leaves.len() {
            leaves[j as int]
        } else {
            zero_bytes()
        }
    } else {
        hash(
            node(hash, leaves, (h - 1) as nat, 2 * j),
            node(hash, leaves, (h - 1) as nat, 2 * j + 1),
        )
    }
}

/// The root of a tree of height `height` holding `leaves`.
pub open spec fn merkle_root(
    hash: spec_fn(Seq<u8>, Seq<u8>) -> Seq<u8>,
    leaves: Seq<Seq<u8>>,
    height: nat,
) -> Seq<u8> {
    node(hash, leaves, height, 0)
}

/// `x >> h`: the index at level `h` of the ancestor of leaf `x`.
pub open spec fn shr(x: nat, h: nat) -> nat
    decreases h,
{
    if h == 0 {
        x
    } else {
        shr(x, (h - 1) as nat) / 2
    }
}

/// The index of the other child of the same parent.
pub open spec fn sibling_index(x: nat) -> nat {
    if x % 2 == 0 {
        x + 1
    } else {
        (x - 1) as nat
    }
}

/// The root that a leaf and its sibling path imply: at level `h` the running
/// node is a left child when bit `h` of `index` is clear.
pub open spec fn path_root(
    hash: spec_fn(Seq<u8>, Seq<u8>) -> Seq<u8>,
    leaf: Seq<u8>,
    index: nat,
    siblings: Seq<Seq<u8>>,
) -> Seq<u8>
    decreases siblings.len(),
{
    if siblings.len() == 0 {
        leaf
    } else {
        let h = (siblings.len() - 1) as nat;
        let cur = path_root(hash, leaf, index, siblings.drop_last());
        if shr(index, h) % 2 == 0 {
            hash(cur, siblings.last())
        } else {
            hash(siblings.last(), cur)
        }
    }
}

/// The sibling path of leaf `index` in a tree of height `height`.
pub open spec fn opening_path(
    hash: spec_fn(Seq<u8>, Seq<u8>) -> Seq<u8>,
    leaves: Seq<Seq<u8>>,
    index: nat,
    height: nat,
) -> Seq<Seq<u8>> {
    Seq::new(height, |h: int| node(hash, leaves, h as nat, sibling_index(shr(index, h as nat))))
}

/// `x >> h` is `x / 2^h`.
pub proof fn lemma_shr_div(x: nat, h: nat)
    ensures
        shr(x, h) == x / pow2(h),
    decreases h,
{
    if h == 0 {
        assert(pow2(0) == 1) by {
            vstd::arithmetic::power2::lemma_pow2(0);
            vstd::arithmetic::power::lemma_pow0(2);
        }
    } else {
        lemma_shr_div(x, (h - 1) as nat);
        lemma_pow2_pos((h - 1) as nat);
        lemma_pow2_unfold(h);
        lemma_div_denominator(x as int, pow2((h - 1) as nat) as int, 2);
    }
}

/// Leaf 0's ancestors are all node 0.
pub proof fn lemma_shr_zero(h: nat)
    ensures
        shr(0, h) == 0,
    decreases h,
{
    if h > 0 {
        lemma_shr_zero((h - 1) as nat);
    }
}

/// An index below `2^h` has ancestor 0 at level `h`.
pub proof fn lemma_shr_below(x: nat, h: nat)
    requires
        x < pow2(h),
    ensures
        shr(x, h) == 0,
{
    lemma_shr_div(x, h);
    lemma_pow2_pos(h);
    vstd::arithmetic::div_mod::lemma_basic_div(x as int, pow2(h) as int);
}

/// Advancing an index by one advances each ancestor index by at most one.
pub proof fn lemma_shr_succ(n: nat, h: nat)
    ensures
        shr(n + 1, h) == shr(n, h) || shr(n + 1, h) == shr(n, h) + 1,
    decreases h,
{
    if h > 0 {
        lemma_shr_succ(n, (h - 1) as nat);
    }
}

/// A node all of whose leaf positions lie past the last leaf is the empty
/// subtree root.
pub proof fn lemma_node_empty(
    hash: spec_fn(Seq<u8>, Seq<u8>) -> Seq<u8>,
    leaves: Seq<Seq<u8>>,
    h: nat,
    j: nat,
)
    requires
        leaves.len() == 0 || shr((leaves.len() - 1) as nat, h) < j,
    ensures
        node(hash, leaves, h, j) == empty_root(hash, h),
    decreases h,
{
    if h > 0 {
        lemma_node_empty(hash, leaves, (h - 1) as nat, 2 * j);
        lemma_node_empty(hash, leaves, (h - 1) as nat, 2 * j + 1);
    }
}

/// Appending a leaf leaves every complete node to its left unchanged.
pub proof fn lemma_node_push(
    hash: spec_fn(Seq<u8>, Seq<u8>) -> Seq<u8>,
    leaves: Seq<Seq<u8>>,
    x: Seq<u8>,
    h: nat,
    j: nat,
)
    requires
        j < shr(leaves.len(), h),
    ensures
        node(hash, leaves.push(x), h, j) == node(hash, leaves, h, j),
    decreases h,
{
    if h > 0 {
        lemma_node_push(hash, leaves, x, (h - 1) as nat, 2 * j);
        lemma_node_push(hash, leaves, x, (h - 1) as nat, 2 * j + 1);
    }
}

/// Folding the opening of a leaf up `h` levels gives its ancestor at `h`.
pub proof fn lemma_path_root_opening(
    hash: spec_fn(Seq<u8>, Seq<u8>) -> Seq<u8>,
    leaves: Seq<Seq<u8>>,
    index: nat,
    h: nat,
)
    requires
        index < leaves.len(),
    ensures
        path_root(hash, leaves[index as int], index, opening_path(hash, leaves, index, h)) == node(
            hash,
            leaves,
            h,
            shr(index, h),
        ),
    decreases h,
{
    if h > 0 {
        let g = (h - 1) as nat;
        lemma_path_root_opening(hash, leaves, index, g);
        assert(opening_path(hash, leaves, index, h).drop_last() =~= opening_path(
            hash,
            leaves,
            index,
            g,
        ));
    }
}

/// An opening of an existing leaf verifies against the root.
pub proof fn lemma_opening_verifies(
    hash: spec_fn(Seq<u8>, Seq<u8>) -> Seq<u8>,
    leaves: Seq<Seq<u8>>,
    index: nat,
    height: nat,
)
    requires
        index < leaves.len(),
        leaves.len() <= pow2(height),
    ensures
        path_root(hash, leaves[index as int], index, opening_path(hash, leaves, index, height))
            == merkle_root(hash, leaves, height),
{
    lemma_path_root_opening(hash, leaves, index, height);
    lemma_shr_below(index, height);
}

/// `level` lists the nodes of level `h` from the left; every node past its end
/// is an empty subtree.
pub open spec fn is_level(
    hash: spec_fn(Seq<u8>, Seq<u8>) -> Seq<u8>,
    leaves: Seq<Seq<u8>>,
    h: nat,
    level: Seq<Seq<u8>>,
) -> bool {
    &&& forall|j: int| 0 <= j < level.len() ==> level[j] == node(hash, leaves, h, j as nat)
    &&& forall|j: nat| j >= level.len() ==> #[trigger] node(hash, leaves, h, j) == empty_root(hash, h)
}

/// The level above `level`, padding a missing right child with `zero`.
pub open spec fn parent_of(
    hash: spec_fn(Seq<u8>, Seq<u8>) -> Seq<u8>,
    level: Seq<Seq<u8>>,
    zero: Seq<u8>,
) -> Seq<Seq<u8>> {
    Seq::new(
        ((level.len() + 1) / 2) as nat,
        |j: int|
            hash(
                level[2 * j],
                if 2 * j + 1 < level.len() {
                    level[2 * j + 1]
                } else {
                    zero
                },
            ),
    )
}

/// The leaves themselves are level 0.
pub proof fn lemma_leaves_level(hash: spec_fn(Seq<u8>, Seq<u8>) -> Seq<u8>, leaves: Seq<Seq<u8>>)
    ensures
        is_level(hash, leaves, 0, leaves),
{
}

/// Pairing up a level (padding with the empty subtree root) gives the level
/// above it.
pub proof fn lemma_parent_level(
    hash: spec_fn(Seq<u8>, Seq<u8>) -> Seq<u8>,
    leaves: Seq<Seq<u8>>,
    h: nat,
    level: Seq<Seq<u8>>,
)
    requires
        is_level(hash, leaves, h, level),
    ensures
        is_level(hash, leaves, h + 1, parent_of(hash, level, empty_root(hash, h))),
{
    let parent = parent_of(hash, level, empty_root(hash, h));
    assert forall|j: int| 0 <= j < parent.len() implies parent[j] == node(
        hash,
        leaves,
        h + 1,
        j as nat,
    ) by {
        let r = (2 * j + 1) as nat;
        if 2 * j + 1 >= level.len() {
            assert(node(hash, leaves, h, r) == empty_root(hash, h));
        }
    }
    assert forall|j: nat| j >= parent.len() implies #[trigger] node(hash, leaves, h + 1, j)
        == empty_root(hash, h + 1) by {
        assert(node(hash, leaves, h, 2 * j) == empty_root(hash, h));
        assert(node(hash, leaves, h, 2 * j + 1) == empty_root(hash, h));
    }
}

} // verus!
