//! The shielded part of the ledger state.

use crate::table::Table;
use crate::types::bytes::copy_bytes;
use crate::types::hashes::BlockHash;
use crate::types::orchard::{
    empty_tree_anchor, is_commitment, tree_capacity, Anchor, NoteFrontier, Nullifier,
};
use vstd::prelude::*;

verus! {

/// The shielded part of the ledger state: the frontier of the note
/// commitment tree, the roots that the tree had at the tip of the chain,
/// each with the block that first came to it, and the nullifiers shown so
/// far.
pub struct Orchard {
    frontier: NoteFrontier,
    historical_roots: Table<BlockHash>,
    nullifiers: Table<()>,
}

pub struct OrchardView {
    pub frontier: NoteFrontier,
    pub historical_roots: Map<Seq<u8>, BlockHash>,
    pub nullifiers: Set<Seq<u8>>,
}

impl View for Orchard {
    type V = OrchardView;

    closed spec fn view(&self) -> OrchardView {
        OrchardView {
            frontier: self.frontier,
            historical_roots: self.historical_roots@,
            nullifiers: self.nullifiers@.dom(),
        }
    }
}

/// The historical roots without the roots that block `block_hash` came to.
pub open spec fn without_block(roots: Map<Seq<u8>, BlockHash>, block_hash: BlockHash) -> Map<
    Seq<u8>,
    BlockHash,
> {
    Map::new(|k: Seq<u8>| roots.contains_key(k) && roots[k] != block_hash, |k: Seq<u8>| roots[k])
}

impl Orchard {
    /// The shielded state before the first block: an empty tree, no root,
    /// no nullifier.
    pub fn new() -> (orchard: Self)
        ensures
            orchard@.frontier.leaves() == Seq::<[u8; 32]>::empty(),
            orchard@.frontier.spec_root() == empty_tree_anchor(),
            orchard@.historical_roots == Map::<Seq<u8>, BlockHash>::empty(),
            orchard@.nullifiers == Set::<Seq<u8>>::empty(),
    {
        let orchard = Orchard {
            frontier: NoteFrontier::empty(),
            historical_roots: Table::new(),
            nullifiers: Table::new(),
        };
        assert(orchard@.nullifiers =~= Set::<Seq<u8>>::empty());
        orchard
    }

    /// A copy of the shielded state.
    pub fn copy(&self) -> (copy: Self)
        ensures
            copy@ == self@,
    {
        Orchard {
            frontier: self.frontier.copy(),
            historical_roots: self.historical_roots.copy(),
            nullifiers: self.nullifiers.copy(),
        }
    }

    /// The frontier of the note commitment tree.
    pub fn frontier(&self) -> (frontier: &NoteFrontier)
        ensures
            *frontier == self@.frontier,
    {
        &self.frontier
    }

    /// Puts `frontier` in place of the frontier.
    pub fn put_frontier(&mut self, frontier: NoteFrontier)
        ensures
            final(self)@ == (OrchardView { frontier, ..old(self)@ }),
    {
        self.frontier = frontier;
    }

    /// Adds the commitment `leaf` to the note commitment tree; says whether
    /// it was added. It is not where `leaf` does not encode a commitment or
    /// the tree is full; then nothing changes.
    pub fn append_commitment(&mut self, leaf: &[u8; 32]) -> (added: bool)
        ensures
            added == (is_commitment(leaf@) && old(self)@.frontier.leaves().len()
                < tree_capacity()),
            added ==> final(self)@.frontier.leaves() == old(self)@.frontier.leaves().push(*leaf),
            !added ==> final(self)@.frontier == old(self)@.frontier,
            final(self)@.historical_roots == old(self)@.historical_roots,
            final(self)@.nullifiers == old(self)@.nullifiers,
    {
        self.frontier.append(leaf)
    }

    /// Whether `anchor` was a root of the tree at some tip.
    pub fn is_historical_root(&self, anchor: &Anchor) -> (r: bool)
        ensures
            r == self@.historical_roots.contains_key(anchor@),
    {
        self.historical_roots.contains_key(anchor.as_slice())
    }

    /// Records that block `block_hash` came to the root `root`, unless the
    /// root is recorded already; says whether it was recorded now.
    pub fn put_historical_root(&mut self, block_hash: BlockHash, root: Anchor) -> (changed: bool)
        ensures
            changed == !old(self)@.historical_roots.contains_key(root@),
            final(self)@ == (OrchardView {
                historical_roots: if changed {
                    old(self)@.historical_roots.insert(root@, block_hash)
                } else {
                    old(self)@.historical_roots
                },
                ..old(self)@
            }),
    {
        if self.historical_roots.contains_key(root.as_slice()) {
            false
        } else {
            self.historical_roots.put(root.as_slice(), block_hash);
            true
        }
    }

    /// Whether `nullifier` was shown before.
    pub fn has_nullifier(&self, nullifier: &Nullifier) -> (r: bool)
        ensures
            r == self@.nullifiers.contains(nullifier@),
    {
        self.nullifiers.contains_key(nullifier.as_slice())
    }

    /// Records `nullifier` as shown.
    pub fn put_nullifier(&mut self, nullifier: &Nullifier)
        ensures
            final(self)@ == (OrchardView {
                nullifiers: old(self)@.nullifiers.insert(nullifier@),
                ..old(self)@
            }),
    {
        self.nullifiers.put(nullifier.as_slice(), ());
        assert(self.nullifiers@.dom() =~= old(self)@.nullifiers.insert(nullifier@));
    }

    /// Forgets `nullifier`; says whether it was recorded.
    pub fn delete_nullifier(&mut self, nullifier: &Nullifier) -> (r: bool)
        ensures
            r == old(self)@.nullifiers.contains(nullifier@),
            final(self)@ == (OrchardView {
                nullifiers: old(self)@.nullifiers.remove(nullifier@),
                ..old(self)@
            }),
    {
        let r = self.nullifiers.delete(nullifier.as_slice());
        assert(self.nullifiers@.dom() =~= old(self)@.nullifiers.remove(nullifier@));
        r
    }

    /// Forgets the roots that block `block_hash` came to; says whether there
    /// was one.
    #[verifier::loop_isolation(false)]
    pub fn delete_historical_root(&mut self, block_hash: BlockHash) -> (r: bool)
        ensures
            r == (exists|k: Seq<u8>|
                old(self)@.historical_roots.contains_key(k) && old(self)@.historical_roots[k]
                    == block_hash),
            final(self)@ == (OrchardView {
                historical_roots: without_block(old(self)@.historical_roots, block_hash),
                ..old(self)@
            }),
    {
        let ghost roots = self.historical_roots@;
        let n = self.historical_roots.len();
        let ghost keys = self.historical_roots.keys();
        let ghost values = self.historical_roots.values();
        let mut doomed: Vec<Vec<u8>> = Vec::new();
        let mut i: usize = 0;
        while i < n
            invariant
                i <= n == keys.len(),
                keys == self.historical_roots.keys(),
                values == self.historical_roots.values(),
                roots == self.historical_roots@,
                values.len() == keys.len(),
                forall|j: int|
                    0 <= j < n ==> roots.contains_key(#[trigger] keys[j]) && roots[keys[j]]
                        == values[j],
                forall|j: int|
                    0 <= j < doomed@.len() ==> roots.contains_key((#[trigger] doomed@[j])@)
                        && roots[doomed@[j]@] == block_hash,
                forall|j: int|
                    0 <= j < i && values[j] == block_hash ==> exists|d: int|
                        0 <= d < doomed@.len() && (#[trigger] doomed@[d])@ == keys[j],
            decreases n - i,
        {
            let entry = self.historical_roots.entry(i);
            if entry.value == block_hash {
                let key = copy_bytes(entry.key.as_slice());
                let ghost prev = doomed@;
                doomed.push(key);
                assert(doomed@[doomed@.len() - 1]@ == keys[i as int]);
                assert forall|j: int| 0 <= j < i + 1 && values[j] == block_hash implies exists|
                    d: int,
                |
                    0 <= d < doomed@.len() && (#[trigger] doomed@[d])@ == keys[j] by {
                    if j < i {
                        let d = choose|d: int| 0 <= d < prev.len() && (#[trigger] prev[d])@ == keys[j];
                        assert(doomed@[d] == prev[d]);
                        assert(doomed@[d]@ == keys[j]);
                    } else {
                        assert(doomed@[doomed@.len() - 1]@ == keys[j]);
                    }
                }
            }
            i += 1;
        }
        let found = doomed.len() > 0;
        assert(found == (exists|k: Seq<u8>| roots.contains_key(k) && roots[k] == block_hash)) by {
            if found {
                let k = doomed@[0]@;
                assert(roots.contains_key(k) && roots[k] == block_hash);
            } else if exists|k: Seq<u8>| roots.contains_key(k) && roots[k] == block_hash {
                let k = choose|k: Seq<u8>| roots.contains_key(k) && roots[k] == block_hash;
                assert(keys.contains(k));
                let j = keys.index_of(k);
                assert(keys[j] == k);
                assert(values[j] == block_hash);
                let w = choose|w: int| 0 <= w < doomed@.len() && (#[trigger] doomed@[w])@ == keys[j];
                assert(false);
            }
        }
        let mut d: usize = 0;
        while d < doomed.len()
            invariant
                d <= doomed@.len(),
                self.frontier == old(self).frontier,
                self.nullifiers == old(self).nullifiers,
                forall|j: int|
                    0 <= j < doomed@.len() ==> roots.contains_key((#[trigger] doomed@[j])@)
                        && roots[doomed@[j]@] == block_hash,
                forall|k: Seq<u8>|
                    self.historical_roots@.contains_key(k) <==> roots.contains_key(k) && !(exists|
                        j: int,
                    |
                        0 <= j < d && (#[trigger] doomed@[j])@ == k),
                forall|k: Seq<u8>|
                    self.historical_roots@.contains_key(k) ==> self.historical_roots@[k]
                        == roots[k],
            decreases doomed@.len() - d,
        {
            let ghost before = self.historical_roots@;
            self.historical_roots.delete(doomed[d].as_slice());
            proof {
                assert forall|k: Seq<u8>|
                    self.historical_roots@.contains_key(k) <==> roots.contains_key(k) && !(exists|
                        j: int,
                    |
                        0 <= j < d + 1 && (#[trigger] doomed@[j])@ == k) by {
                    if k == doomed@[d as int]@ {
                        assert(doomed@[d as int]@ == k);
                    } else if before.contains_key(k) {
                        if exists|j: int| 0 <= j < d + 1 && (#[trigger] doomed@[j])@ == k {
                            let j = choose|j: int| 0 <= j < d + 1 && (#[trigger] doomed@[j])@ == k;
                            assert(j < d);
                        }
                    } else if roots.contains_key(k) {
                        let j = choose|j: int| 0 <= j < d && (#[trigger] doomed@[j])@ == k;
                        assert(doomed@[j]@ == k);
                    }
                }
            }
            d += 1;
        }
        proof {
            let target = without_block(roots, block_hash);
            assert forall|k: Seq<u8>|
                self.historical_roots@.contains_key(k) <==> target.contains_key(k) by {
                if roots.contains_key(k) && roots[k] == block_hash {
                    let j = keys.index_of(k);
                    assert(keys[j] == k);
                    let w = choose|w: int| 0 <= w < doomed@.len() && (#[trigger] doomed@[w])@ == keys[j];
                    assert(doomed@[w]@ == k);
                }
                if roots.contains_key(k) && roots[k] != block_hash {
                    if exists|j: int| 0 <= j < d && (#[trigger] doomed@[j])@ == k {
                        let j = choose|j: int| 0 <= j < d && (#[trigger] doomed@[j])@ == k;
                        assert(roots[doomed@[j]@] == block_hash);
                    }
                }
            }
            assert(self.historical_roots@ =~= target);
            assert(roots == old(self)@.historical_roots);
        }
        found
    }
}

} // verus!
