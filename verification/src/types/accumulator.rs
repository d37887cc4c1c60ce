//! The utreexo accumulator of the unspent outputs.

use crate::table::Table;
use crate::types::bytes::copy_bytes;
use crate::types::hashes;
use crate::types::transaction::{clone_vec, Proof, ProofView};
use rustreexo::accumulator::mem_forest::MemForest;
use rustreexo::accumulator::node_hash::BitcoinNodeHash;
use vstd::prelude::*;
use vstd::slice::slice_subrange;

verus! {

/// The roots of the forest that `MemForest::deserialize` reads from `bytes`,
/// in the order in which the forest keeps them, or `None` where it reads no
/// forest. A root that stands for an emptied tree shows as 32 zero bytes.
pub uninterp spec fn forest_roots(bytes: Seq<u8>) -> Option<Seq<hashes::Hash>>;

/// What `MemForest::serialize` writes of the forest read from `bytes` after
/// `MemForest::modify` has removed the leaves `del` from it and then added
/// the leaves `add`, or `None` where `modify` reports an error.
pub uninterp spec fn forest_modified(bytes: Seq<u8>, add: Seq<hashes::Hash>, del: Seq<hashes::Hash>)
    -> Option<Seq<u8>>;

/// What `MemForest::verify` says, on the forest read from `bytes`, of a
/// proof for the leaves `leaves`, or `None` where it reports an error.
pub uninterp spec fn forest_verdict(
    bytes: Seq<u8>,
    targets: Seq<u64>,
    proof_hashes: Seq<hashes::Hash>,
    leaves: Seq<hashes::Hash>,
) -> Option<bool>;

/// The targets and hashes of the proof that `MemForest::prove` makes, on the
/// forest read from `bytes`, for the leaves `leaves`, or `None` where it
/// reports an error.
pub uninterp spec fn forest_proof(bytes: Seq<u8>, leaves: Seq<hashes::Hash>) -> Option<
    (Seq<u64>, Seq<hashes::Hash>),
>;

/// The hashes of the nodes that the bytes of a forest hold from place `pos`
/// on, in the order in which they are written, or `None` where the bytes
/// from there on are no list of nodes. A node is written as eight bytes for
/// its kind and a tag byte; after the tag 2 comes its hash of 32 bytes, the
/// tag 0 stands for the root of an emptied tree, which has no hash.
pub open spec fn node_hashes(bytes: Seq<u8>, pos: int) -> Option<Seq<Seq<u8>>>
    decreases bytes.len() - pos,
{
    if pos < 0 || pos > bytes.len() {
        None
    } else if pos == bytes.len() {
        Some(Seq::empty())
    } else if pos + 9 > bytes.len() {
        None
    } else if bytes[pos + 8] == 0 {
        node_hashes(bytes, pos + 9)
    } else if bytes[pos + 8] == 2 && pos + 41 <= bytes.len() {
        match node_hashes(bytes, pos + 41) {
            Some(rest) => Some(seq![bytes.subrange(pos + 9, pos + 41)] + rest),
            None => None,
        }
    } else {
        None
    }
}

/// Whether `bytes` are two counts of eight bytes each and then a list of
/// nodes of which no two have the same hash. The forest tells its nodes
/// apart by their hashes: where two are alike it may take one for the other.
pub open spec fn distinct_nodes(bytes: Seq<u8>) -> bool {
    bytes.len() >= 16 && (match node_hashes(bytes, 16) {
        Some(hashes) => hashes.no_duplicates(),
        None => false,
    })
}

/// Whether no two nodes of the forest written in `bytes` have the same hash.
#[verifier::loop_isolation(false)]
pub fn has_distinct_nodes(bytes: &Vec<u8>) -> (r: bool)
    ensures
        r == distinct_nodes(bytes@),
{
    let total = bytes.len();
    if total < 16 {
        return false;
    }
    let mut seen: Table<()> = Table::new();
    let ghost mut hashes: Seq<Seq<u8>> = Seq::empty();
    let mut pos: usize = 16;
    assert(hashes + Seq::<Seq<u8>>::empty() =~= hashes);
    while pos < total
        invariant
            16 <= pos <= total,
            total == bytes@.len(),
            hashes.no_duplicates(),
            forall|k: Seq<u8>| seen@.contains_key(k) <==> hashes.contains(k),
            node_hashes(bytes@, 16) == (match node_hashes(bytes@, pos as int) {
                Some(rest) => Some(hashes + rest),
                None => None,
            }),
        decreases total - pos,
    {
        if total - pos < 9 {
            return false;
        }
        let tag = bytes[pos + 8];
        if tag == 0 {
            pos += 9;
        } else if tag == 2 && total - pos >= 41 {
            let hash = slice_subrange(bytes.as_slice(), pos + 9, pos + 41);
            let ghost after = node_hashes(bytes@, pos + 41);
            if seen.contains_key(hash) {
                proof {
                    assert(hashes.contains(hash@));
                    if after is Some {
                        let all = hashes + (seq![hash@] + after->0);
                        let first = hashes.index_of(hash@);
                        assert(all[first] == hash@);
                        assert(all[hashes.len() as int] == hash@);
                    }
                }
                return false;
            }
            seen.put(hash, ());
            proof {
                let grown = hashes.push(hash@);
                assert forall|i: int, j: int|
                    0 <= i < grown.len() && 0 <= j < grown.len() && i != j implies grown[i]
                    != grown[j] by {
                    if i < hashes.len() {
                        assert(hashes.contains(grown[i]));
                    }
                    if j < hashes.len() {
                        assert(hashes.contains(grown[j]));
                    }
                }
                assert forall|k: Seq<u8>| seen@.contains_key(k) <==> grown.contains(k) by {
                    if grown.contains(k) {
                        let at = grown.index_of(k);
                        if at < hashes.len() {
                            assert(hashes.contains(grown[at]));
                        }
                    }
                    if hashes.contains(k) {
                        assert(grown[hashes.index_of(k)] == k);
                    }
                    assert(grown[hashes.len() as int] == hash@);
                }
                if after is Some {
                    assert(hashes + (seq![hash@] + after->0) =~= grown + after->0);
                }
                hashes = grown;
            }
            pos += 41;
        } else {
            return false;
        }
    }
    assert(hashes + Seq::<Seq<u8>>::empty() =~= hashes);
    true
}

/// Calls `MemForest::new` and then `MemForest::serialize`. A forest without
/// leaves is written as two counts of zero, sixteen bytes in all, and is
/// read back as a forest without roots. Writing into a vector does not fail.
#[verifier::external_body]
fn forest_new() -> (bytes: Vec<u8>)
    ensures
        bytes@ == Seq::new(16, |i: int| 0u8),
        forest_roots(bytes@) == Some(Seq::<hashes::Hash>::empty()),
{
    let mut bytes: Vec<u8> = Vec::new();
    MemForest::<BitcoinNodeHash>::new().serialize(&mut bytes).expect("a vector takes every write");
    bytes
}

/// Calls `MemForest::deserialize` and then `MemForest::get_roots`, and reads
/// the hash of each root. `deserialize` panics or fails on bytes that are no
/// forest: those are left out.
#[verifier::external_body]
fn forest_get_roots(bytes: &Vec<u8>) -> (roots: Vec<hashes::Hash>)
    requires
        forest_roots(bytes@) is Some,
    ensures
        Some(roots@) == forest_roots(bytes@),
{
    let forest = MemForest::<BitcoinNodeHash>::deserialize(&bytes[..]).expect("a forest");
    forest.get_roots().iter().map(|root| *root.get_data()).collect()
}

/// Calls `MemForest::deserialize`, then `MemForest::modify`, which removes
/// the leaves `del` and then adds the leaves `add`, then
/// `MemForest::serialize`. What `serialize` wrote `deserialize` reads. The
/// forest is rebuilt from the bytes for each call, so the outcome depends on
/// the bytes and the leaves alone. To remove a leaf, `modify` finds and
/// compares nodes by their hashes, and where two nodes with the same hash
/// stand side by side it may not return: removing is left out for forests
/// with two nodes of the same hash, and for more than one leaf at a time,
/// since the hashes of the nodes change as leaves go.
#[verifier::external_body]
fn forest_modify(bytes: &Vec<u8>, add: &Vec<hashes::Hash>, del: &Vec<hashes::Hash>) -> (r: Result<
    Vec<u8>,
    String,
>)
    requires
        forest_roots(bytes@) is Some,
        del@.len() <= 1,
        del@.len() == 1 ==> distinct_nodes(bytes@),
    ensures
        r is Ok == forest_modified(bytes@, add@, del@) is Some,
        r matches Ok(next) ==> Some(next@) == forest_modified(bytes@, add@, del@) && forest_roots(
            next@,
        ) is Some,
{
    let mut forest = MemForest::<BitcoinNodeHash>::deserialize(&bytes[..]).expect("a forest");
    let add: Vec<BitcoinNodeHash> = add.iter().map(BitcoinNodeHash::from).collect();
    let del: Vec<BitcoinNodeHash> = del.iter().map(BitcoinNodeHash::from).collect();
    forest.modify(&add, &del)?;
    let mut next: Vec<u8> = Vec::new();
    forest.serialize(&mut next).expect("a vector takes every write");
    Ok(next)
}

/// Calls `MemForest::deserialize` and then `MemForest::verify` with the
/// proof and the leaves that it is to prove.
#[verifier::external_body]
fn forest_verify(bytes: &Vec<u8>, proof: &Proof, leaves: &Vec<hashes::Hash>) -> (r: Result<
    bool,
    String,
>)
    requires
        forest_roots(bytes@) is Some,
    ensures
        r is Ok == forest_verdict(bytes@, proof.targets@, proof.hashes@, leaves@) is Some,
        r matches Ok(valid) ==> Some(valid) == forest_verdict(
            bytes@,
            proof.targets@,
            proof.hashes@,
            leaves@,
        ),
{
    let forest = MemForest::<BitcoinNodeHash>::deserialize(&bytes[..]).expect("a forest");
    let hashes = proof.hashes.iter().map(BitcoinNodeHash::from).collect();
    let proof = rustreexo::accumulator::proof::Proof::new(proof.targets.clone(), hashes);
    let leaves: Vec<BitcoinNodeHash> = leaves.iter().map(BitcoinNodeHash::from).collect();
    forest.verify(&proof, &leaves)
}

/// Calls `MemForest::deserialize` and then `MemForest::prove` for the leaves
/// `leaves`. `prove` finds the place of a leaf by comparing hashes: forests
/// with two nodes of the same hash are left out.
#[verifier::external_body]
fn forest_prove(bytes: &Vec<u8>, leaves: &Vec<hashes::Hash>) -> (r: Result<Proof, String>)
    requires
        forest_roots(bytes@) is Some,
        distinct_nodes(bytes@),
    ensures
        r is Ok == forest_proof(bytes@, leaves@) is Some,
        r matches Ok(proof) ==> Some((proof.targets@, proof.hashes@)) == forest_proof(
            bytes@,
            leaves@,
        ),
{
    let forest = MemForest::<BitcoinNodeHash>::deserialize(&bytes[..]).expect("a forest");
    let leaves: Vec<BitcoinNodeHash> = leaves.iter().map(BitcoinNodeHash::from).collect();
    let proof = forest.prove(&leaves)?;
    Ok(Proof { targets: proof.targets, hashes: proof.hashes.iter().map(|hash| **hash).collect() })
}

/// The accumulator could not do what was asked.
#[derive(Clone, Copy, Debug, PartialEq, Eq)]
pub struct UtreexoError;

/// The leaves that a block adds to the accumulator and those that it takes
/// out, each in the order in which the block names them.
#[derive(Debug)]
pub struct AccumulatorDiff {
    insertions: Vec<hashes::Hash>,
    deletions: Vec<hashes::Hash>,
}

pub struct AccumulatorDiffView {
    pub insertions: Seq<hashes::Hash>,
    pub deletions: Seq<hashes::Hash>,
}

impl View for AccumulatorDiff {
    type V = AccumulatorDiffView;

    closed spec fn view(&self) -> AccumulatorDiffView {
        AccumulatorDiffView { insertions: self.insertions@, deletions: self.deletions@ }
    }
}

impl Default for AccumulatorDiff {
    fn default() -> (diff: Self)
        ensures
            diff@.insertions == Seq::<hashes::Hash>::empty(),
            diff@.deletions == Seq::<hashes::Hash>::empty(),
    {
        AccumulatorDiff { insertions: Vec::new(), deletions: Vec::new() }
    }
}

impl Clone for AccumulatorDiff {
    fn clone(&self) -> (diff: Self)
        ensures
            diff@ == self@,
    {
        AccumulatorDiff {
            insertions: clone_vec(&self.insertions),
            deletions: clone_vec(&self.deletions),
        }
    }
}

impl AccumulatorDiff {
    /// Notes that the leaf `leaf` is to be added.
    pub fn insert(&mut self, leaf: hashes::Hash)
        ensures
            final(self)@.insertions == old(self)@.insertions.push(leaf),
            final(self)@.deletions == old(self)@.deletions,
    {
        self.insertions.push(leaf);
    }

    /// Notes that the leaf `leaf` is to be taken out.
    pub fn remove(&mut self, leaf: hashes::Hash)
        ensures
            final(self)@.deletions == old(self)@.deletions.push(leaf),
            final(self)@.insertions == old(self)@.insertions,
    {
        self.deletions.push(leaf);
    }
}

/// The utreexo accumulator: a forest of hash trees over the leaves of the
/// unspent outputs, of which the roots go into block headers. It is kept as
/// the bytes that the rustreexo crate writes of its `MemForest`, and read
/// from them for each question: two accumulators with the same bytes answer
/// alike. No two nodes of the forest have the same hash.
#[derive(Debug)]
pub struct Accumulator {
    bytes: Vec<u8>,
}

/// An accumulator as the contracts see it: the bytes of its forest.
pub struct AccumulatorView {
    pub bytes: Seq<u8>,
}

impl View for Accumulator {
    type V = AccumulatorView;

    closed spec fn view(&self) -> AccumulatorView {
        AccumulatorView { bytes: self.bytes@ }
    }
}

impl AccumulatorView {
    /// The roots of the accumulator.
    pub closed spec fn roots(self) -> Seq<hashes::Hash> {
        match forest_roots(self.bytes) {
            Some(roots) => roots,
            None => Seq::empty(),
        }
    }

    /// The bytes of the forest once the first `n` of the leaves `deletions`
    /// are taken out, one after the other, or `None` where one of them
    /// cannot be: it is not held, or two nodes of the forest that it is to
    /// leave have the same hash.
    pub closed spec fn removed(self, deletions: Seq<hashes::Hash>, n: int) -> Option<Seq<u8>>
        decreases n,
    {
        if n <= 0 {
            Some(self.bytes)
        } else {
            match self.removed(deletions, n - 1) {
                Some(bytes) => if distinct_nodes(bytes) {
                    forest_modified(bytes, Seq::empty(), seq![deletions[n - 1]])
                } else {
                    None
                },
                None => None,
            }
        }
    }

    /// The accumulator once `diff` is applied: its deletions are taken out
    /// and then its insertions put in. `None` where `diff` cannot be
    /// applied: a deletion cannot be taken out, or two nodes of the forest
    /// that comes of it would have the same hash, as they do where a leaf is
    /// put in that the forest holds.
    pub closed spec fn after(self, diff: AccumulatorDiffView) -> Option<AccumulatorView> {
        match self.removed(diff.deletions, diff.deletions.len() as int) {
            Some(bytes) => match forest_modified(bytes, diff.insertions, Seq::empty()) {
                Some(next) => if distinct_nodes(next) {
                    Some(AccumulatorView { bytes: next })
                } else {
                    None
                },
                None => None,
            },
            None => None,
        }
    }

    /// Once a deletion cannot be taken out, taking out more does not help.
    pub proof fn lemma_removed_stays(self, deletions: Seq<hashes::Hash>, n: int, m: int)
        requires
            0 <= n <= m,
            self.removed(deletions, n) is None,
        ensures
            self.removed(deletions, m) is None,
        decreases m - n,
    {
        if n < m {
            self.lemma_removed_stays(deletions, n, m - 1);
        }
    }

    /// The roots that the accumulator has once `diff` is applied, or `None`
    /// where `diff` cannot be applied.
    pub open spec fn roots_after(self, diff: AccumulatorDiffView) -> Option<Seq<hashes::Hash>> {
        match self.after(diff) {
            Some(next) => Some(next.roots()),
            None => None,
        }
    }

    /// What checking `proof` for the leaves `leaves` gives, or `None` where
    /// the check itself fails.
    pub closed spec fn verdict(self, proof: ProofView, leaves: Seq<hashes::Hash>) -> Option<bool> {
        forest_verdict(self.bytes, proof.targets, proof.hashes, leaves)
    }

    /// The targets and hashes of the proof for the leaves `leaves`, or `None`
    /// where none can be made.
    pub closed spec fn proof_for(self, leaves: Seq<hashes::Hash>) -> Option<
        (Seq<u64>, Seq<hashes::Hash>),
    > {
        forest_proof(self.bytes, leaves)
    }
}

impl Accumulator {
    #[verifier::type_invariant]
    spec fn readable(&self) -> bool {
        forest_roots(self.bytes@) is Some && distinct_nodes(self.bytes@)
    }

    /// The bytes of the forest once `diff` is applied to the forest in
    /// `bytes`, or `None` where it cannot be applied.
    #[verifier::loop_isolation(false)]
    fn modified(bytes: &Vec<u8>, diff: &AccumulatorDiff) -> (r: Option<Vec<u8>>)
        requires
            forest_roots(bytes@) is Some,
        ensures
            r is Some == (AccumulatorView { bytes: bytes@ }).after(diff@) is Some,
            r matches Some(next) ==> {
                &&& (AccumulatorView { bytes: bytes@ }).after(diff@) == Some(
                    AccumulatorView { bytes: next@ },
                )
                &&& forest_roots(next@) is Some
                &&& distinct_nodes(next@)
            },
    {
        let ghost start = AccumulatorView { bytes: bytes@ };
        let count = diff.deletions.len();
        let none: Vec<hashes::Hash> = Vec::new();
        assert(none@ =~= Seq::<hashes::Hash>::empty());
        let mut current = copy_bytes(bytes.as_slice());
        let mut i: usize = 0;
        while i < count
            invariant
                i <= count,
                count == diff.deletions@.len(),
                start.removed(diff.deletions@, i as int) == Some(current@),
                forest_roots(current@) is Some,
            decreases count - i,
        {
            if !has_distinct_nodes(&current) {
                proof {
                    assert(start.removed(diff.deletions@, i + 1) is None);
                    start.lemma_removed_stays(diff.deletions@, i + 1, count as int);
                }
                return None;
            }
            let mut one: Vec<hashes::Hash> = Vec::new();
            one.push(diff.deletions[i]);
            assert(one@ =~= seq![diff.deletions@[i as int]]);
            match forest_modify(&current, &none, &one) {
                Ok(next) => {
                    current = next;
                },
                Err(_) => {
                    proof {
                        assert(start.removed(diff.deletions@, i + 1) is None);
                        start.lemma_removed_stays(diff.deletions@, i + 1, count as int);
                    }
                    return None;
                },
            }
            i += 1;
        }
        match forest_modify(&current, &diff.insertions, &none) {
            Ok(next) => if has_distinct_nodes(&next) {
                Some(next)
            } else {
                None
            },
            Err(_) => None,
        }
    }

    /// An accumulator without leaves.
    pub fn new() -> (accumulator: Self)
        ensures
            accumulator@.bytes == Seq::new(16, |i: int| 0u8),
            accumulator@.roots() == Seq::<hashes::Hash>::empty(),
            distinct_nodes(accumulator@.bytes),
    {
        let bytes = forest_new();
        assert(node_hashes(bytes@, 16) == Some(Seq::<Seq<u8>>::empty()));
        Accumulator { bytes }
    }

    /// A copy that shares nothing with this accumulator.
    pub fn copy(&self) -> (copy: Accumulator)
        ensures
            copy@ == self@,
    {
        proof {
            use_type_invariant(self);
        }
        Accumulator { bytes: copy_bytes(self.bytes.as_slice()) }
    }

    /// The roots of the accumulator.
    pub fn get_roots(&self) -> (roots: Vec<hashes::Hash>)
        ensures
            roots@ == self@.roots(),
    {
        proof {
            use_type_invariant(self);
        }
        forest_get_roots(&self.bytes)
    }

    /// Takes the deletions of `diff` out and puts its insertions in. A
    /// deletion that the accumulator does not hold is refused, and so is an
    /// insertion that it holds; nothing is ever held twice. Where `diff` is
    /// refused the accumulator stays as it was.
    pub fn apply_diff(&mut self, diff: AccumulatorDiff) -> (r: Result<(), UtreexoError>)
        ensures
            r is Ok == old(self)@.after(diff@) is Some,
            r is Ok ==> old(self)@.after(diff@) == Some(final(self)@),
            r is Err ==> final(self)@ == old(self)@,
            distinct_nodes(final(self)@.bytes),
    {
        proof {
            use_type_invariant(&*self);
        }
        match Self::modified(&self.bytes, &diff) {
            Some(next) => {
                self.bytes = next;
                Ok(())
            },
            None => Err(UtreexoError),
        }
    }

    /// The roots that the accumulator would have once `diff` were applied.
    /// The accumulator itself stays as it is.
    pub fn roots_with(&self, diff: &AccumulatorDiff) -> (r: Result<Vec<hashes::Hash>, UtreexoError>)
        ensures
            r is Ok == self@.roots_after(diff@) is Some,
            r matches Ok(roots) ==> self@.roots_after(diff@) == Some(roots@),
    {
        proof {
            use_type_invariant(self);
        }
        match Self::modified(&self.bytes, diff) {
            Some(next) => Ok(forest_get_roots(&next)),
            None => Err(UtreexoError),
        }
    }

    /// Makes the inclusion proof for the leaves `targets`.
    pub fn prove(&self, targets: &Vec<hashes::Hash>) -> (r: Result<Proof, UtreexoError>)
        ensures
            r is Ok == self@.proof_for(targets@) is Some,
            r matches Ok(proof) ==> self@.proof_for(targets@) == Some(
                (proof.targets@, proof.hashes@),
            ),
    {
        proof {
            use_type_invariant(self);
        }
        match forest_prove(&self.bytes, targets) {
            Ok(proof) => Ok(proof),
            Err(_) => Err(UtreexoError),
        }
    }

    /// Checks that `proof` shows the leaves `targets` to be in the
    /// accumulator.
    pub fn verify(&self, proof: &Proof, targets: &Vec<hashes::Hash>) -> (r: Result<
        bool,
        UtreexoError,
    >)
        ensures
            r is Ok == self@.verdict(proof@, targets@) is Some,
            r matches Ok(valid) ==> self@.verdict(proof@, targets@) == Some(valid),
    {
        proof {
            use_type_invariant(self);
        }
        match forest_verify(&self.bytes, proof, targets) {
            Ok(valid) => Ok(valid),
            Err(_) => Err(UtreexoError),
        }
    }
}

} // verus!
