//! The shielded pool as the ledger sees it: the frontier of the note
//! commitment tree, anchors and nullifiers.

use crate::types::hashes;
use incrementalmerkletree::{Hashable, Level};
use vstd::prelude::*;

verus! {

/// A root of the note commitment tree.
pub type Anchor = [u8; 32];

/// The tag that a shielded note shows when it is spent.
pub type Nullifier = [u8; 32];

/// The depth of the note commitment tree.
pub const MERKLE_DEPTH: u8 = 32;

#[verifier::external_type_specification]
#[verifier::external_body]
#[verifier::reject_recursive_types(H)]
pub struct ExFrontier<H, const DEPTH: u8>(::incrementalmerkletree::frontier::Frontier<H, DEPTH>);

#[verifier::external_type_specification]
#[verifier::external_body]
pub struct ExMerkleHashOrchard(::orchard::tree::MerkleHashOrchard);

/// The root of the tree of depth `depth` that holds no commitment, as
/// `MerkleHashOrchard::empty_root` gives it.
pub uninterp spec fn merkle_empty_root(depth: u8) -> [u8; 32];

/// The number that `bytes` are the digits of, to the base 256 and the lowest
/// first.
pub open spec fn le_value(bytes: Seq<u8>) -> nat
    decreases bytes.len(),
{
    if bytes.len() == 0 {
        0
    } else {
        bytes[0] as nat + 256 * le_value(bytes.skip(1))
    }
}

/// The order of the base field of the Pallas curve.
pub open spec fn pallas_modulus() -> nat {
    0x40000000_00000000_00000000_00000000_224698fc_094cf91b_992d30ed_00000001nat
}

/// Whether `bytes` are a note commitment: 32 bytes that stand, the lowest
/// first, for an element of the base field of the Pallas curve.
pub open spec fn is_commitment(bytes: Seq<u8>) -> bool {
    bytes.len() == 32 && le_value(bytes) < pallas_modulus()
}

/// The commitments that were appended to the frontier since it was empty,
/// the oldest first: the leaves of the tree that it is the edge of.
pub uninterp spec fn frontier_leaves(
    tree: ::incrementalmerkletree::frontier::Frontier<::orchard::tree::MerkleHashOrchard, 32>,
) -> Seq<[u8; 32]>;

/// The root of the tree that the frontier is the edge of, as
/// `Frontier::root` gives it.
pub uninterp spec fn frontier_root(
    tree: ::incrementalmerkletree::frontier::Frontier<::orchard::tree::MerkleHashOrchard, 32>,
) -> [u8; 32];

/// The number of leaves that the note commitment tree has room for: two to
/// the power of its depth.
pub open spec fn tree_capacity() -> int {
    0x1_0000_0000
}

/// Calls `MerkleHashOrchard::empty_root`, which has a root for each depth
/// up to that of the note commitment tree and for no other.
#[verifier::external_body]
fn tree_empty_root(depth: u8) -> (root: Anchor)
    requires
        depth <= 32,
    ensures
        root == merkle_empty_root(depth),
{
    ::orchard::tree::MerkleHashOrchard::empty_root(Level::from(depth)).to_bytes()
}

/// Calls `Frontier::empty`. The empty frontier has no leaves, and its root
/// is the root of the empty tree of its depth.
#[verifier::external_body]
fn tree_empty() -> (tree: ::incrementalmerkletree::frontier::Frontier<
    ::orchard::tree::MerkleHashOrchard,
    32,
>)
    ensures
        frontier_leaves(tree) == Seq::<[u8; 32]>::empty(),
        frontier_root(tree) == merkle_empty_root(32),
{
    ::incrementalmerkletree::frontier::Frontier::empty()
}

/// Calls `Frontier::clone`, which copies the edge.
#[verifier::external_body]
fn tree_clone(
    tree: &::incrementalmerkletree::frontier::Frontier<::orchard::tree::MerkleHashOrchard, 32>,
) -> (copy: ::incrementalmerkletree::frontier::Frontier<::orchard::tree::MerkleHashOrchard, 32>)
    ensures
        copy == *tree,
{
    tree.clone()
}

/// Calls `Frontier::root`.
#[verifier::external_body]
fn tree_root(
    tree: &::incrementalmerkletree::frontier::Frontier<::orchard::tree::MerkleHashOrchard, 32>,
) -> (root: Anchor)
    ensures
        root == frontier_root(*tree),
{
    tree.root().to_bytes()
}

/// Calls `MerkleHashOrchard::from_bytes` on `leaf`, which reads a
/// commitment from the bytes of a number below the order of the field and
/// from no others, and then `Frontier::append` with what was read. `append`
/// adds the leaf at the
/// next place unless the place of the last leaf is the last of the tree,
/// that is unless the tree holds two to the power of its depth leaves.
/// Where nothing is added the frontier stays as it was.
#[verifier::external_body]
fn tree_append(
    tree: &mut ::incrementalmerkletree::frontier::Frontier<::orchard::tree::MerkleHashOrchard, 32>,
    leaf: &[u8; 32],
) -> (added: bool)
    ensures
        added == (is_commitment(leaf@) && frontier_leaves(*old(tree)).len() < tree_capacity()),
        added ==> frontier_leaves(*final(tree)) == frontier_leaves(*old(tree)).push(*leaf),
        !added ==> *final(tree) == *old(tree),
{
    match Option::from(::orchard::tree::MerkleHashOrchard::from_bytes(leaf)) {
        Some(leaf) => tree.append(leaf),
        None => false,
    }
}

/// The right edge of the note commitment tree: what is needed to add
/// commitments and to compute the root.
#[derive(Debug, PartialEq, Eq)]
pub struct NoteFrontier {
    tree: ::incrementalmerkletree::frontier::Frontier<::orchard::tree::MerkleHashOrchard, 32>,
}

impl NoteFrontier {
    /// The root of the tree.
    pub closed spec fn spec_root(&self) -> Anchor {
        frontier_root(self.tree)
    }

    /// The commitments appended so far, the oldest first.
    pub closed spec fn leaves(&self) -> Seq<hashes::Hash> {
        frontier_leaves(self.tree)
    }

    /// The frontier of the tree that holds no commitment.
    pub fn empty() -> (frontier: Self)
        ensures
            frontier.spec_root() == empty_tree_anchor(),
            frontier.leaves() == Seq::<hashes::Hash>::empty(),
    {
        NoteFrontier { tree: tree_empty() }
    }

    /// A copy of the frontier.
    pub fn copy(&self) -> (copy: Self)
        ensures
            copy == *self,
    {
        NoteFrontier { tree: tree_clone(&self.tree) }
    }

    /// The root of the tree.
    pub fn root(&self) -> (root: Anchor)
        ensures
            root == self.spec_root(),
    {
        tree_root(&self.tree)
    }

    /// Adds the commitment `leaf` at the next free place; says whether it
    /// was added. Where it was not, nothing changes.
    pub fn append(&mut self, leaf: &hashes::Hash) -> (added: bool)
        ensures
            added == (is_commitment(leaf@) && old(self).leaves().len() < tree_capacity()),
            added ==> final(self).leaves() == old(self).leaves().push(*leaf),
            !added ==> *final(self) == *old(self),
    {
        tree_append(&mut self.tree, leaf)
    }
}

/// The anchor of the tree that holds no commitment.
pub open spec fn empty_tree_anchor() -> Anchor {
    merkle_empty_root(32)
}

/// The anchor of the tree that holds no commitment.
pub fn empty_tree() -> (anchor: Anchor)
    ensures
        anchor == empty_tree_anchor(),
{
    tree_empty_root(MERKLE_DEPTH)
}

} // verus!
