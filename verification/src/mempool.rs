//! The pool of transactions that wait for a block.

use crate::state::block::input_leaves;
use crate::table::{lemma_remove_all, remove_all, sorted_keys, Table};
use crate::types::accumulator::{Accumulator, AccumulatorView, UtreexoError};
use crate::types::hashes::{self, Txid};
use crate::types::orchard::Nullifier;
use crate::types::transaction::{
    AuthorizedTransaction, AuthorizedTransactionView, Body, OrchardBundleView, OutPoint,
    OutPointKey, Proof, ProofView, Transaction, TransactionView,
};
use std::collections::VecDeque;
use vstd::prelude::*;

verus! {

/// Why the pool refuses a transaction.
#[derive(Clone, Copy, Debug, PartialEq, Eq)]
pub enum Error {
    /// A nullifier of the transaction is used by a transaction of the pool.
    NullifierDoubleSpent { new_txid: Txid, nullifier: Nullifier, old_txid: Txid },
    Utreexo(UtreexoError),
    /// An input of the transaction is spent by a transaction of the pool.
    UtxoDoubleSpent { txid: Txid },
}

/// The pool of transactions that wait for a block: the transactions by
/// their id, and for each outpoint and each nullifier that one of them
/// spends, the id of that transaction.
pub struct MemPool {
    transactions: Table<AuthorizedTransaction>,
    spent_utxos: Table<Txid>,
    used_nullifiers: Table<Txid>,
}

pub struct MemPoolView {
    pub transactions: Map<Seq<u8>, AuthorizedTransactionView>,
    pub spent_utxos: Map<Seq<u8>, Txid>,
    pub used_nullifiers: Map<Seq<u8>, Txid>,
}

/// The keys of the outpoints that the inputs spend.
pub open spec fn input_key_seq(inputs: Seq<(OutPoint, hashes::Hash)>) -> Seq<Seq<u8>> {
    Seq::new(inputs.len(), |i: int| inputs[i].0.key_bytes())
}

/// The nullifiers of a transaction, as keys.
pub open spec fn nullifier_keys(bundle: Option<OrchardBundleView>) -> Seq<Seq<u8>> {
    match bundle {
        Some(bundle) => Seq::new(bundle.nullifiers.len(), |i: int| bundle.nullifiers[i]@),
        None => Seq::empty(),
    }
}

/// Each of the keys is bound to `txid`.
pub open spec fn all_bound(map: Map<Seq<u8>, Txid>, keys: Seq<Seq<u8>>, txid: Txid) -> bool {
    forall|i: int| 0 <= i < keys.len() ==> map.contains_key(#[trigger] keys[i]) && map[keys[i]] == txid
}

impl MemPoolView {
    /// The transaction under the key `k` has the id `k`, and each outpoint
    /// and each nullifier that it spends is recorded under its id.
    pub open spec fn owned(self, k: Seq<u8>) -> bool {
        let transaction = self.transactions[k].transaction;
        &&& transaction.hashable()
        &&& transaction.txid().0@ == k
        &&& all_bound(self.spent_utxos, input_key_seq(transaction.inputs), transaction.txid())
        &&& all_bound(
            self.used_nullifiers,
            nullifier_keys(transaction.orchard_bundle),
            transaction.txid(),
        )
    }

    /// The pool holds finitely many transactions, each under its id, and
    /// records each outpoint and each nullifier that one of them spends
    /// under the id of that transaction.
    pub open spec fn consistent(self) -> bool {
        &&& self.transactions.dom().finite()
        &&& forall|k: Seq<u8>| #[trigger] self.transactions.contains_key(k) ==> self.owned(k)
    }
}

/// The map once each of the first `n` keys is bound to `txid`, where none
/// of them was bound before its turn; else the number of the first key
/// that was bound, and the id that it was bound to.
pub open spec fn claim_all(map: Map<Seq<u8>, Txid>, txid: Txid, keys: Seq<Seq<u8>>, n: int) -> Result<
    Map<Seq<u8>, Txid>,
    (int, Txid),
>
    decreases n,
{
    if n <= 0 {
        Ok(map)
    } else {
        match claim_all(map, txid, keys, n - 1) {
            Err(taken) => Err(taken),
            Ok(claimed) => if claimed.contains_key(keys[n - 1]) {
                Err((n - 1, claimed[keys[n - 1]]))
            } else {
                Ok(claimed.insert(keys[n - 1], txid))
            },
        }
    }
}

/// Once a key is found bound, looking at more keys does not change which
/// one comes first.
pub proof fn lemma_claim_all_stays(
    map: Map<Seq<u8>, Txid>,
    txid: Txid,
    keys: Seq<Seq<u8>>,
    n: int,
    m: int,
)
    requires
        0 <= n <= m,
        claim_all(map, txid, keys, n) is Err,
    ensures
        claim_all(map, txid, keys, m) == claim_all(map, txid, keys, n),
    decreases m - n,
{
    if n < m {
        lemma_claim_all_stays(map, txid, keys, n, m - 1);
    }
}

/// Where keys could be claimed, the map still holds what it held.
pub proof fn lemma_claim_all_keeps(
    map: Map<Seq<u8>, Txid>,
    txid: Txid,
    keys: Seq<Seq<u8>>,
    n: int,
    k: Seq<u8>,
)
    requires
        0 <= n <= keys.len(),
        claim_all(map, txid, keys, n) is Ok,
        map.contains_key(k),
    ensures
        claim_all(map, txid, keys, n)->Ok_0.contains_key(k),
        claim_all(map, txid, keys, n)->Ok_0[k] == map[k],
    decreases n,
{
    if n > 0 {
        lemma_claim_all_keeps(map, txid, keys, n - 1, k);
    }
}

/// Where keys could be claimed, the map binds each of them to `txid`.
pub proof fn lemma_claim_all_ok(map: Map<Seq<u8>, Txid>, txid: Txid, keys: Seq<Seq<u8>>, n: int)
    requires
        0 <= n <= keys.len(),
        claim_all(map, txid, keys, n) is Ok,
    ensures
        all_bound(claim_all(map, txid, keys, n)->Ok_0, keys.take(n), txid),
    decreases n,
{
    if n > 0 {
        lemma_claim_all_ok(map, txid, keys, n - 1);
        let before = claim_all(map, txid, keys, n - 1)->Ok_0;
        let after = claim_all(map, txid, keys, n)->Ok_0;
        assert forall|i: int| 0 <= i < n implies after.contains_key(#[trigger] keys.take(n)[i])
            && after[keys.take(n)[i]] == txid by {
            if i < n - 1 {
                assert(keys.take(n - 1)[i] == keys.take(n)[i]);
            }
        }
    }
}

/// What putting a transaction into the pool comes to. A transaction that
/// is in the pool changes nothing. Else each of its inputs is claimed,
/// then each of its nullifiers; the first that is claimed already refuses
/// the transaction.
pub open spec fn spec_put(pool: MemPoolView, transaction: AuthorizedTransactionView) -> Result<
    MemPoolView,
    Error,
> {
    let txid = transaction.transaction.txid();
    let inputs = input_key_seq(transaction.transaction.inputs);
    let nullifiers = nullifier_keys(transaction.transaction.orchard_bundle);
    if pool.transactions.contains_key(txid.0@) {
        Ok(pool)
    } else {
        match claim_all(pool.spent_utxos, txid, inputs, inputs.len() as int) {
            Err(_) => Err(Error::UtxoDoubleSpent { txid }),
            Ok(spent_utxos) => match claim_all(
                pool.used_nullifiers,
                txid,
                nullifiers,
                nullifiers.len() as int,
            ) {
                Err((at, old_txid)) => Err(
                    Error::NullifierDoubleSpent {
                        new_txid: txid,
                        nullifier: transaction.transaction.orchard_bundle->0.nullifiers[at],
                        old_txid,
                    },
                ),
                Ok(used_nullifiers) => Ok(
                    MemPoolView {
                        transactions: pool.transactions.insert(txid.0@, transaction),
                        spent_utxos,
                        used_nullifiers,
                    },
                ),
            },
        }
    }
}

/// The ids, recorded in `spent`, of the transactions that spend one of the
/// first `n` outputs of the transaction `txid`, in the order of the
/// outputs.
pub open spec fn children(spent: Map<Seq<u8>, Txid>, txid: Txid, n: int) -> Seq<Txid>
    decreases n,
{
    if n <= 0 {
        Seq::empty()
    } else {
        let key = OutPoint::Regular { txid, vout: (n - 1) as u32 }.key_bytes();
        if spent.contains_key(key) {
            children(spent, txid, n - 1).push(spent[key])
        } else {
            children(spent, txid, n - 1)
        }
    }
}

/// The pool without the transaction `txid`, and the ids of the transactions
/// that spend its outputs. A transaction that is not in the pool changes
/// nothing and has no such ids.
pub open spec fn evict_one(pool: MemPoolView, txid: Txid) -> (MemPoolView, Seq<Txid>) {
    if !pool.transactions.contains_key(txid.0@) {
        (pool, Seq::empty())
    } else {
        let transaction = pool.transactions[txid.0@].transaction;
        let spent_utxos = remove_all(pool.spent_utxos, input_key_seq(transaction.inputs));
        (
            MemPoolView {
                transactions: pool.transactions.remove(txid.0@),
                spent_utxos,
                used_nullifiers: remove_all(
                    pool.used_nullifiers,
                    nullifier_keys(transaction.orchard_bundle),
                ),
            },
            children(spent_utxos, txid, transaction.outputs.len() as int),
        )
    }
}

/// The pool without the transactions of `queue` and, breadth first,
/// without the transactions that spend the outputs of a transaction that
/// is taken out.
pub open spec fn evict(pool: MemPoolView, queue: Seq<Txid>) -> MemPoolView
    decreases pool.transactions.dom().len(), queue.len(),
    when pool.transactions.dom().finite()
    via evict_terminates
{
    if queue.len() == 0 {
        pool
    } else {
        evict(evict_one(pool, queue[0]).0, queue.skip(1) + evict_one(pool, queue[0]).1)
    }
}

#[via_fn]
proof fn evict_terminates(pool: MemPoolView, queue: Seq<Txid>) {
    if queue.len() > 0 {
        lemma_evict_one_shrinks(pool, queue);
    }
}

/// Taking the first of the queue out leaves fewer transactions in the
/// pool, or as many and a shorter queue.
pub proof fn lemma_evict_one_shrinks(pool: MemPoolView, queue: Seq<Txid>)
    requires
        pool.transactions.dom().finite(),
        queue.len() > 0,
    ensures
        evict_one(pool, queue[0]).0.transactions.dom().finite(),
        evict_one(pool, queue[0]).0.transactions.dom().len() < pool.transactions.dom().len() || (
        evict_one(pool, queue[0]).0.transactions.dom().len() == pool.transactions.dom().len() && (
        queue.skip(1) + evict_one(pool, queue[0]).1).len() < queue.len()),
{
    if pool.transactions.contains_key(queue[0].0@) {
        assert(evict_one(pool, queue[0]).0.transactions.dom() =~= pool.transactions.dom().remove(
            queue[0].0@,
        ));
    } else {
        assert(queue.skip(1) + evict_one(pool, queue[0]).1 =~= queue.skip(1));
    }
}

/// Taking a transaction out of a pool in order leaves the pool in order.
pub proof fn lemma_evict_one_consistent(pool: MemPoolView, txid: Txid)
    requires
        pool.consistent(),
    ensures
        evict_one(pool, txid).0.consistent(),
{
    let next = evict_one(pool, txid).0;
    if pool.transactions.contains_key(txid.0@) {
        let gone = pool.transactions[txid.0@].transaction;
        assert(pool.owned(txid.0@));
        let gone_inputs = input_key_seq(gone.inputs);
        let gone_tags = nullifier_keys(gone.orchard_bundle);
        assert forall|k: Seq<u8>| #[trigger] next.transactions.contains_key(k) implies next.owned(
            k,
        ) by {
            assert(pool.transactions.contains_key(k));
            assert(pool.owned(k));
            let other = pool.transactions[k].transaction;
            assert(other.txid() != gone.txid());
            let keys = input_key_seq(other.inputs);
            assert forall|i: int| 0 <= i < keys.len() implies next.spent_utxos.contains_key(
                #[trigger] keys[i],
            ) && next.spent_utxos[keys[i]] == other.txid() by {
                lemma_remove_all(pool.spent_utxos, gone_inputs, keys[i]);
                if gone_inputs.contains(keys[i]) {
                    let j = gone_inputs.index_of(keys[i]);
                    assert(pool.spent_utxos[gone_inputs[j]] == gone.txid());
                }
            }
            let tags = nullifier_keys(other.orchard_bundle);
            assert forall|i: int| 0 <= i < tags.len() implies next.used_nullifiers.contains_key(
                #[trigger] tags[i],
            ) && next.used_nullifiers[tags[i]] == other.txid() by {
                lemma_remove_all(pool.used_nullifiers, gone_tags, tags[i]);
                if gone_tags.contains(tags[i]) {
                    let j = gone_tags.index_of(tags[i]);
                    assert(pool.used_nullifiers[gone_tags[j]] == gone.txid());
                }
            }
        }
    }
}

/// Taking transactions out of a pool in order leaves the pool in order.
pub proof fn lemma_evict_consistent(pool: MemPoolView, queue: Seq<Txid>)
    requires
        pool.consistent(),
    ensures
        evict(pool, queue).consistent(),
    decreases pool.transactions.dom().len(), queue.len(),
{
    if queue.len() > 0 {
        lemma_evict_one_consistent(pool, queue[0]);
        lemma_evict_one_shrinks(pool, queue);
        lemma_evict_consistent(
            evict_one(pool, queue[0]).0,
            queue.skip(1) + evict_one(pool, queue[0]).1,
        );
    }
}

/// Takes the key of each of the inputs out of `spent`.
#[verifier::loop_isolation(false)]
fn release_inputs(spent: &mut Table<Txid>, transaction: &Transaction)
    ensures
        final(spent)@ == remove_all(old(spent)@, input_key_seq(transaction.inputs@)),
{
    let ghost keys = input_key_seq(transaction.inputs@);
    let mut i: usize = 0;
    while i < transaction.inputs.len()
        invariant
            i <= transaction.inputs@.len(),
            spent@ == remove_all(old(spent)@, keys.take(i as int)),
        decreases transaction.inputs@.len() - i,
    {
        let key = OutPointKey::from_outpoint(&transaction.inputs[i].0);
        spent.delete(key.as_bytes().as_slice());
        proof {
            assert(keys.take(i + 1).drop_last() =~= keys.take(i as int));
            assert(keys.take(i + 1).last() == key@);
        }
        i += 1;
    }
    assert(keys.take(i as int) =~= keys);
}

/// Takes each of the nullifiers out of `used`.
#[verifier::loop_isolation(false)]
fn release_nullifiers(used: &mut Table<Txid>, nullifiers: &Vec<Nullifier>)
    ensures
        final(used)@ == remove_all(
            old(used)@,
            Seq::new(nullifiers@.len(), |i: int| nullifiers@[i]@),
        ),
{
    let ghost keys = Seq::new(nullifiers@.len(), |i: int| nullifiers@[i]@);
    let mut i: usize = 0;
    while i < nullifiers.len()
        invariant
            i <= nullifiers@.len(),
            used@ == remove_all(old(used)@, keys.take(i as int)),
        decreases nullifiers@.len() - i,
    {
        used.delete(nullifiers[i].as_slice());
        proof {
            assert(keys.take(i + 1).drop_last() =~= keys.take(i as int));
            assert(keys.take(i + 1).last() == nullifiers@[i as int]@);
        }
        i += 1;
    }
    assert(keys.take(i as int) =~= keys);
}

/// Queues the ids of the transactions that spend one of the first `count`
/// outputs of the transaction `txid`.
#[verifier::loop_isolation(false)]
fn queue_children(spent: &Table<Txid>, txid: Txid, count: usize, pending: &mut VecDeque<Txid>)
    requires
        count <= u32::MAX,
    ensures
        final(pending)@ == old(pending)@ + children(spent@, txid, count as int),
{
    let mut vout: usize = 0;
    while vout < count
        invariant
            vout <= count,
            pending@ == old(pending)@ + children(spent@, txid, vout as int),
        decreases count - vout,
    {
        let outpoint = OutPoint::Regular { txid, vout: vout as u32 };
        let key = OutPointKey::from_outpoint(&outpoint);
        match spent.get(key.as_bytes().as_slice()) {
            Some(child) => {
                pending.push_back(*child);
            },
            None => {},
        }
        vout += 1;
        assert(pending@ =~= old(pending)@ + children(spent@, txid, vout as int));
    }
}

impl View for MemPool {
    type V = MemPoolView;

    closed spec fn view(&self) -> MemPoolView {
        MemPoolView {
            transactions: self.transactions@,
            spent_utxos: self.spent_utxos@,
            used_nullifiers: self.used_nullifiers@,
        }
    }
}

/// Binds each of the keys of the inputs to `txid`, unless one is bound.
#[verifier::loop_isolation(false)]
fn claim_inputs(spent: &mut Table<Txid>, txid: Txid, transaction: &Transaction) -> (r: bool)
    ensures
        r == claim_all(
            old(spent)@,
            txid,
            input_key_seq(transaction.inputs@),
            transaction.inputs@.len() as int,
        ) is Ok,
        r ==> final(spent)@ == claim_all(
            old(spent)@,
            txid,
            input_key_seq(transaction.inputs@),
            transaction.inputs@.len() as int,
        )->Ok_0,
{
    let ghost keys = input_key_seq(transaction.inputs@);
    let mut i: usize = 0;
    while i < transaction.inputs.len()
        invariant
            i <= transaction.inputs@.len(),
            claim_all(old(spent)@, txid, keys, i as int) == Ok::<Map<Seq<u8>, Txid>, (int, Txid)>(
                spent@,
            ),
        decreases transaction.inputs@.len() - i,
    {
        let key = OutPointKey::from_outpoint(&transaction.inputs[i].0);
        if spent.contains_key(key.as_bytes().as_slice()) {
            proof {
                lemma_claim_all_stays(old(spent)@, txid, keys, i + 1, keys.len() as int);
            }
            return false;
        }
        spent.put(key.as_bytes().as_slice(), txid);
        i += 1;
    }
    true
}

/// Binds each of the nullifiers to `txid`, unless one is bound: then the
/// nullifier and the id that it is bound to are handed back.
#[verifier::loop_isolation(false)]
fn claim_nullifiers(used: &mut Table<Txid>, txid: Txid, nullifiers: &Vec<Nullifier>) -> (r: Result<
    (),
    (Nullifier, Txid),
>)
    ensures
        match (
            r,
            claim_all(
                old(used)@,
                txid,
                Seq::new(nullifiers@.len(), |i: int| nullifiers@[i]@),
                nullifiers@.len() as int,
            ),
        ) {
            (Ok(()), Ok(claimed)) => final(used)@ == claimed,
            (Err((nullifier, old_txid)), Err((at, taken))) => 0 <= at < nullifiers@.len()
                && nullifier == nullifiers@[at] && old_txid == taken,
            _ => false,
        },
{
    let ghost keys = Seq::new(nullifiers@.len(), |i: int| nullifiers@[i]@);
    let mut i: usize = 0;
    while i < nullifiers.len()
        invariant
            i <= nullifiers@.len(),
            claim_all(old(used)@, txid, keys, i as int) == Ok::<Map<Seq<u8>, Txid>, (int, Txid)>(
                used@,
            ),
        decreases nullifiers@.len() - i,
    {
        let nullifier = nullifiers[i];
        match used.get(nullifier.as_slice()) {
            Some(old_txid) => {
                proof {
                    lemma_claim_all_stays(old(used)@, txid, keys, i + 1, keys.len() as int);
                }
                return Err((nullifier, *old_txid));
            },
            None => {},
        }
        used.put(nullifier.as_slice(), txid);
        i += 1;
    }
    Ok(())
}

/// The three tables of a pool, as a pool.
pub open spec fn pool_of(
    transactions: Table<AuthorizedTransaction>,
    spent_utxos: Table<Txid>,
    used_nullifiers: Table<Txid>,
) -> MemPoolView {
    MemPoolView {
        transactions: transactions@,
        spent_utxos: spent_utxos@,
        used_nullifiers: used_nullifiers@,
    }
}

/// Takes `txid` and the transactions that build on it out of the tables of
/// a pool.
fn evict_from(
    transactions: &mut Table<AuthorizedTransaction>,
    spent_utxos: &mut Table<Txid>,
    used_nullifiers: &mut Table<Txid>,
    txid: Txid,
)
    requires
        pool_of(*old(transactions), *old(spent_utxos), *old(used_nullifiers)).consistent(),
    ensures
        pool_of(*final(transactions), *final(spent_utxos), *final(used_nullifiers)) == evict(
            pool_of(*old(transactions), *old(spent_utxos), *old(used_nullifiers)),
            seq![txid],
        ),
        pool_of(*final(transactions), *final(spent_utxos), *final(used_nullifiers)).consistent(),
{
    let ghost start = pool_of(*transactions, *spent_utxos, *used_nullifiers);
    let mut pending: VecDeque<Txid> = VecDeque::new();
    pending.push_back(txid);
    assert(pending@ =~= seq![txid]);
    loop
        invariant
            pool_of(*transactions, *spent_utxos, *used_nullifiers).consistent(),
            evict(start, seq![txid]) == evict(
                pool_of(*transactions, *spent_utxos, *used_nullifiers),
                pending@,
            ),
        ensures
            pending@.len() == 0,
        decreases transactions.keys().len(), pending@.len(),
    {
        let ghost pool = pool_of(*transactions, *spent_utxos, *used_nullifiers);
        let ghost queue = pending@;
        let next = match pending.pop_front() {
            Some(next) => next,
            None => {
                break ;
            },
        };
        assert(pending@ =~= queue.skip(1));
        proof {
            lemma_evict_one_consistent(pool, next);
            assert(evict(pool, queue) == evict(
                evict_one(pool, queue[0]).0,
                queue.skip(1) + evict_one(pool, queue[0]).1,
            ));
        }
        match transactions.take(next.as_slice()) {
            Some(transaction) => {
                assert(pool.owned(next.0@));
                release_inputs(spent_utxos, &transaction.transaction);
                queue_children(
                    spent_utxos,
                    next,
                    transaction.transaction.outputs.len(),
                    &mut pending,
                );
                match &transaction.transaction.orchard_bundle {
                    Some(bundle) => {
                        release_nullifiers(used_nullifiers, &bundle.nullifiers);
                        assert(nullifier_keys(transaction@.transaction.orchard_bundle) =~= Seq::new(
                            bundle.nullifiers@.len(),
                            |i: int| bundle.nullifiers@[i]@,
                        ));
                    },
                    None => {},
                }
                assert(pool_of(*transactions, *spent_utxos, *used_nullifiers) == evict_one(
                    pool,
                    next,
                ).0);
                assert(pending@ =~= queue.skip(1) + evict_one(pool, next).1);
            },
            None => {
                assert(transactions@ =~= pool.transactions);
                assert(pending@ =~= queue.skip(1) + evict_one(pool, next).1);
            },
        }
    }
}

/// The transaction with the inclusion proof that `accumulator` makes for
/// its inputs, where it makes one.
pub open spec fn reproved(transaction: AuthorizedTransactionView, accumulator: AccumulatorView) -> Option<
    AuthorizedTransactionView,
> {
    match accumulator.proof_for(input_leaves(transaction.transaction.inputs)) {
        Some((targets, hashes)) => Some(
            AuthorizedTransactionView {
                transaction: TransactionView {
                    proof: ProofView { targets, hashes },
                    ..transaction.transaction
                },
                ..transaction
            },
        ),
        None => None,
    }
}

/// What making the proofs of a pool anew comes to: the pool with each
/// transaction proved anew, where `accumulator` makes a proof for each.
pub open spec fn spec_regenerate(pool: MemPoolView, accumulator: AccumulatorView) -> Result<
    MemPoolView,
    Error,
> {
    if forall|k: Seq<u8>|
        pool.transactions.contains_key(k) ==> (#[trigger] reproved(
            pool.transactions[k],
            accumulator,
        )) is Some {
        Ok(
            MemPoolView {
                transactions: Map::new(
                    |k: Seq<u8>| pool.transactions.contains_key(k),
                    |k: Seq<u8>| reproved(pool.transactions[k], accumulator)->0,
                ),
                ..pool
            },
        )
    } else {
        Err(Error::Utreexo(UtreexoError))
    }
}

/// The pool once, for each of the first `n` nullifiers, the transaction
/// that uses it is taken out, with the transactions that build on it.
pub open spec fn evict_nullifiers(pool: MemPoolView, nullifiers: Seq<hashes::Hash>, n: int) -> MemPoolView
    decreases n,
{
    if n <= 0 {
        pool
    } else {
        let before = evict_nullifiers(pool, nullifiers, n - 1);
        if before.used_nullifiers.contains_key(nullifiers[n - 1]@) {
            evict(before, seq![before.used_nullifiers[nullifiers[n - 1]@]])
        } else {
            before
        }
    }
}

/// The pool once the first `n` transactions of a block are taken out of it,
/// each with the transactions that build on it and with the transactions
/// that use one of its nullifiers.
pub open spec fn evict_block(pool: MemPoolView, transactions: Seq<Transaction>, n: int) -> MemPoolView
    decreases n,
{
    if n <= 0 {
        pool
    } else {
        let before = evict_block(pool, transactions, n - 1);
        let without = evict(before, seq![transactions[n - 1]@.txid()]);
        match transactions[n - 1]@.orchard_bundle {
            Some(bundle) => evict_nullifiers(
                without,
                bundle.nullifiers,
                bundle.nullifiers.len() as int,
            ),
            None => without,
        }
    }
}

/// A transaction of which a nullifier is used by the pool is refused for
/// that: unless the transaction is in the pool already, or one of its
/// inputs is spent by the pool, putting it in fails with a nullifier spent
/// twice.
pub proof fn lemma_used_nullifier_refused(
    pool: MemPoolView,
    transaction: AuthorizedTransactionView,
    j: int,
)
    requires
        !pool.transactions.contains_key(transaction.transaction.txid().0@),
        claim_all(
            pool.spent_utxos,
            transaction.transaction.txid(),
            input_key_seq(transaction.transaction.inputs),
            transaction.transaction.inputs.len() as int,
        ) is Ok,
        transaction.transaction.orchard_bundle is Some,
        0 <= j < transaction.transaction.orchard_bundle->0.nullifiers.len(),
        pool.used_nullifiers.contains_key(transaction.transaction.orchard_bundle->0.nullifiers[j]@),
    ensures
        spec_put(pool, transaction) matches Err(Error::NullifierDoubleSpent { .. }),
{
    let txid = transaction.transaction.txid();
    let keys = nullifier_keys(transaction.transaction.orchard_bundle);
    if claim_all(pool.used_nullifiers, txid, keys, keys.len() as int) is Ok {
        lemma_claim_all_fresh(pool.used_nullifiers, txid, keys, keys.len() as int, j);
    }
}

/// Where keys could be claimed, none of them was bound before.
pub proof fn lemma_claim_all_fresh(
    map: Map<Seq<u8>, Txid>,
    txid: Txid,
    keys: Seq<Seq<u8>>,
    n: int,
    j: int,
)
    requires
        0 <= j < n <= keys.len(),
        claim_all(map, txid, keys, n) is Ok,
    ensures
        !map.contains_key(keys[j]),
    decreases n,
{
    if j < n - 1 {
        lemma_claim_all_fresh(map, txid, keys, n - 1, j);
    } else {
        if map.contains_key(keys[j]) {
            lemma_claim_all_keeps(map, txid, keys, n - 1, keys[j]);
        }
    }
}

/// A transaction that is to be taken out is not in the pool afterwards.
pub proof fn lemma_evicted_absent(pool: MemPoolView, queue: Seq<Txid>, txid: Txid)
    requires
        pool.transactions.dom().finite(),
    ensures
        queue.contains(txid) ==> !evict(pool, queue).transactions.contains_key(txid.0@),
        !pool.transactions.contains_key(txid.0@) ==> !evict(pool, queue).transactions.contains_key(
            txid.0@,
        ),
    decreases pool.transactions.dom().len(), queue.len(),
{
    if queue.len() > 0 {
        let next = evict_one(pool, queue[0]).0;
        let rest = queue.skip(1) + evict_one(pool, queue[0]).1;
        lemma_evict_one_shrinks(pool, queue);
        lemma_evict_absent_step(pool, queue, txid);
        lemma_evicted_absent(next, rest, txid);
    }
}

/// A transaction that is to be taken out is still to be taken out after
/// one step, or is gone; a transaction that is not in the pool does not
/// come into it.
proof fn lemma_evict_absent_step(pool: MemPoolView, queue: Seq<Txid>, txid: Txid)
    requires
        queue.len() > 0,
    ensures
        queue.contains(txid) ==> (queue.skip(1) + evict_one(pool, queue[0]).1).contains(txid)
            || !evict_one(pool, queue[0]).0.transactions.contains_key(txid.0@),
        !pool.transactions.contains_key(txid.0@) ==> !evict_one(
            pool,
            queue[0],
        ).0.transactions.contains_key(txid.0@),
{
    let rest = queue.skip(1) + evict_one(pool, queue[0]).1;
    if queue.contains(txid) {
        let i = queue.index_of(txid);
        if i > 0 {
            assert(rest[i - 1] == txid);
        } else {
            assert(queue[0] == txid);
        }
    }
}

/// In a pool in order, a transaction that spends an output of a transaction
/// that is taken out is taken out too.
pub proof fn lemma_descendant_evicted(
    pool: MemPoolView,
    txid: Txid,
    child: Seq<u8>,
    vin: int,
    vout: int,
)
    requires
        pool.consistent(),
        pool.transactions.contains_key(txid.0@),
        pool.transactions.contains_key(child),
        0 <= vout < pool.transactions[txid.0@].transaction.outputs.len(),
        0 <= vin < pool.transactions[child].transaction.inputs.len(),
        pool.transactions[child].transaction.inputs[vin].0 == (OutPoint::Regular {
            txid,
            vout: vout as u32,
        }),
    ensures
        !evict(pool, seq![txid]).transactions.contains_key(child),
{
    let queue = seq![txid];
    let parent = pool.transactions[txid.0@].transaction;
    let spender = pool.transactions[child].transaction;
    let next = evict_one(pool, txid).0;
    let found = evict_one(pool, txid).1;
    let spent = next.spent_utxos;
    let key = (OutPoint::Regular { txid, vout: vout as u32 }).key_bytes();
    assert(pool.owned(child));
    assert(pool.owned(txid.0@));
    let keys = input_key_seq(spender.inputs);
    assert(keys[vin] == key);
    assert(pool.spent_utxos.contains_key(key) && pool.spent_utxos[key] == spender.txid());
    lemma_evict_one_shrinks(pool, queue);
    assert(queue.skip(1) + found =~= found);
    if child == txid.0@ {
        lemma_evicted_absent(next, found, txid);
    } else {
        assert(spender.txid() != parent.txid());
        let parent_keys = input_key_seq(parent.inputs);
        lemma_remove_all(pool.spent_utxos, parent_keys, key);
        if parent_keys.contains(key) {
            let i = parent_keys.index_of(key);
            assert(pool.spent_utxos[parent_keys[i]] == parent.txid());
        }
        assert(spent.contains_key(key) && spent[key] == spender.txid());
        lemma_children_hold(spent, txid, parent.outputs.len() as int, vout);
        lemma_evicted_absent(next, found, spender.txid());
    }
}

/// The children of a transaction include the spender of each of its
/// outputs that is spent.
pub proof fn lemma_children_hold(spent: Map<Seq<u8>, Txid>, txid: Txid, n: int, vout: int)
    requires
        0 <= vout < n,
        spent.contains_key((OutPoint::Regular { txid, vout: vout as u32 }).key_bytes()),
    ensures
        children(spent, txid, n).contains(
            spent[(OutPoint::Regular { txid, vout: vout as u32 }).key_bytes()],
        ),
    decreases n,
{
    let key = (OutPoint::Regular { txid, vout: (n - 1) as u32 }).key_bytes();
    let wanted = spent[(OutPoint::Regular { txid, vout: vout as u32 }).key_bytes()];
    if vout < n - 1 {
        lemma_children_hold(spent, txid, n - 1, vout);
        let shorter = children(spent, txid, n - 1);
        let i = shorter.index_of(wanted);
        assert(shorter[i] == wanted);
        if spent.contains_key(key) {
            assert(shorter.push(spent[key])[i] == wanted);
        }
    } else {
        let all = children(spent, txid, n);
        assert(all[all.len() - 1] == wanted);
    }
}

impl MemPool {
    #[verifier::type_invariant]
    spec fn sound(&self) -> bool {
        self@.consistent()
    }

    /// The ids of the transactions of the pool, in the order in which the
    /// pool hands the transactions out.
    pub closed spec fn order(&self) -> Seq<Seq<u8>> {
        self.transactions.keys()
    }

    /// A pool without transactions.
    pub fn new() -> (pool: Self)
        ensures
            pool@.transactions == Map::<Seq<u8>, AuthorizedTransactionView>::empty(),
            pool@.spent_utxos == Map::<Seq<u8>, Txid>::empty(),
            pool@.used_nullifiers == Map::<Seq<u8>, Txid>::empty(),
            pool@.consistent(),
    {
        MemPool {
            transactions: Table::new(),
            spent_utxos: Table::new(),
            used_nullifiers: Table::new(),
        }
    }

    /// Puts a transaction into the pool, unless one of its inputs or
    /// nullifiers is spent by a transaction of the pool. A transaction that
    /// is in the pool already changes nothing. Where the transaction is
    /// refused the pool stays as it was.
    pub fn put(&mut self, transaction: &AuthorizedTransaction) -> (r: Result<(), Error>)
        requires
            transaction@.transaction.hashable(),
        ensures
            match spec_put(old(self)@, transaction@) {
                Ok(pool) => r is Ok && final(self)@ == pool,
                Err(error) => r == Err::<(), Error>(error) && final(self)@ == old(self)@,
            },
            final(self)@.consistent(),
    {
        proof {
            use_type_invariant(&*self);
        }
        let txid = transaction.transaction.txid();
        if self.transactions.contains_key(txid.as_slice()) {
            return Ok(());
        }
        let mut spent_utxos = self.spent_utxos.copy();
        if !claim_inputs(&mut spent_utxos, txid, &transaction.transaction) {
            return Err(Error::UtxoDoubleSpent { txid });
        }
        let mut used_nullifiers = self.used_nullifiers.copy();
        match &transaction.transaction.orchard_bundle {
            Some(bundle) => {
                assert(nullifier_keys(transaction@.transaction.orchard_bundle) =~= Seq::new(
                    bundle.nullifiers@.len(),
                    |i: int| bundle.nullifiers@[i]@,
                ));
                match claim_nullifiers(&mut used_nullifiers, txid, &bundle.nullifiers) {
                    Ok(()) => {},
                    Err((nullifier, old_txid)) => {
                        return Err(
                            Error::NullifierDoubleSpent { new_txid: txid, nullifier, old_txid },
                        );
                    },
                }
            },
            None => {},
        }
        let ghost inputs = input_key_seq(transaction@.transaction.inputs);
        let ghost nullifiers = nullifier_keys(transaction@.transaction.orchard_bundle);
        proof {
            lemma_claim_all_ok(old(self)@.spent_utxos, txid, inputs, inputs.len() as int);
            lemma_claim_all_ok(
                old(self)@.used_nullifiers,
                txid,
                nullifiers,
                nullifiers.len() as int,
            );
            assert(inputs.take(inputs.len() as int) =~= inputs);
            assert(nullifiers.take(nullifiers.len() as int) =~= nullifiers);
        }
        let mut transactions: Table<AuthorizedTransaction> = Table::new();
        core::mem::swap(&mut self.transactions, &mut transactions);
        self.spent_utxos = spent_utxos;
        self.used_nullifiers = used_nullifiers;
        transactions.put(txid.as_slice(), transaction.clone());
        proof {
            let pool = MemPoolView {
                transactions: transactions@,
                spent_utxos: self.spent_utxos@,
                used_nullifiers: self.used_nullifiers@,
            };
            assert forall|k: Seq<u8>| #[trigger] pool.transactions.contains_key(k) implies pool.owned(
                k,
            ) by {
                if k != txid.0@ {
                    assert(old(self)@.transactions.contains_key(k));
                    assert(old(self)@.owned(k));
                    let other = old(self)@.transactions[k].transaction;
                    let keys = input_key_seq(other.inputs);
                    assert forall|i: int| 0 <= i < keys.len() implies pool.spent_utxos.contains_key(
                        #[trigger] keys[i],
                    ) && pool.spent_utxos[keys[i]] == other.txid() by {
                        assert(old(self)@.spent_utxos.contains_key(keys[i]));
                        lemma_claim_all_keeps(
                            old(self)@.spent_utxos,
                            txid,
                            inputs,
                            inputs.len() as int,
                            keys[i],
                        );
                    }
                    let tags = nullifier_keys(other.orchard_bundle);
                    assert forall|i: int|
                        0 <= i < tags.len() implies pool.used_nullifiers.contains_key(
                        #[trigger] tags[i],
                    ) && pool.used_nullifiers[tags[i]] == other.txid() by {
                        assert(old(self)@.used_nullifiers.contains_key(tags[i]));
                        lemma_claim_all_keeps(
                            old(self)@.used_nullifiers,
                            txid,
                            nullifiers,
                            nullifiers.len() as int,
                            tags[i],
                        );
                    }
                }
            }
        }
        core::mem::swap(&mut self.transactions, &mut transactions);
        Ok(())
    }

    /// Takes the transaction `txid` out of the pool and, breadth first,
    /// every transaction of the pool that spends an output of a
    /// transaction that is taken out. A transaction that is not in the pool
    /// changes nothing.
    pub fn delete(&mut self, txid: Txid)
        ensures
            final(self)@ == evict(old(self)@, seq![txid]),
            final(self)@.consistent(),
    {
        proof {
            use_type_invariant(&*self);
        }
        let mut transactions: Table<AuthorizedTransaction> = Table::new();
        let mut spent_utxos: Table<Txid> = Table::new();
        let mut used_nullifiers: Table<Txid> = Table::new();
        core::mem::swap(&mut self.transactions, &mut transactions);
        core::mem::swap(&mut self.spent_utxos, &mut spent_utxos);
        core::mem::swap(&mut self.used_nullifiers, &mut used_nullifiers);
        evict_from(&mut transactions, &mut spent_utxos, &mut used_nullifiers, txid);
        core::mem::swap(&mut self.spent_utxos, &mut spent_utxos);
        core::mem::swap(&mut self.used_nullifiers, &mut used_nullifiers);
        core::mem::swap(&mut self.transactions, &mut transactions);
    }

    /// The first `number` transactions of the pool, in the order of their
    /// ids.
    pub fn take(&self, number: usize) -> (taken: Vec<AuthorizedTransaction>)
        ensures
            sorted_keys(self.order()),
            forall|k: Seq<u8>| self@.transactions.contains_key(k) <==> self.order().contains(k),
            taken@.len() == (if number < self.order().len() {
                number as int
            } else {
                self.order().len() as int
            }),
            forall|i: int|
                0 <= i < taken@.len() ==> (#[trigger] taken@[i])@ == self@.transactions[self.order()[i]],
    {
        let count = self.transactions.len();
        let limit = if number < count {
            number
        } else {
            count
        };
        let mut taken: Vec<AuthorizedTransaction> = Vec::new();
        let mut i: usize = 0;
        while i < limit
            invariant
                i <= limit <= self.transactions.keys().len(),
                taken@.len() == i,
                forall|j: int|
                    0 <= j < i ==> (#[trigger] taken@[j])@
                        == self.transactions@[self.transactions.keys()[j]],
            decreases limit - i,
        {
            let entry = self.transactions.entry(i);
            taken.push(entry.value.clone());
            i += 1;
        }
        taken
    }

    /// All the transactions of the pool, in the order of their ids.
    pub fn take_all(&self) -> (taken: Vec<AuthorizedTransaction>)
        ensures
            sorted_keys(self.order()),
            forall|k: Seq<u8>| self@.transactions.contains_key(k) <==> self.order().contains(k),
            taken@.len() == self.order().len(),
            forall|i: int|
                0 <= i < taken@.len() ==> (#[trigger] taken@[i])@ == self@.transactions[self.order()[i]],
    {
        let count = self.transactions.len();
        self.take(count)
    }

    /// Makes the inclusion proof of every transaction of the pool anew, for
    /// `accumulator`. Where no proof can be made for one of them the pool
    /// stays as it was.
    #[verifier::loop_isolation(false)]
    pub fn regenerate_proofs(&mut self, accumulator: &Accumulator) -> (r: Result<(), Error>)
        ensures
            match spec_regenerate(old(self)@, accumulator@) {
                Ok(pool) => r is Ok && final(self)@ == pool,
                Err(error) => r == Err::<(), Error>(error) && final(self)@ == old(self)@,
            },
            final(self)@.consistent(),
    {
        proof {
            use_type_invariant(&*self);
        }
        let ghost start = self@;
        let count = self.transactions.len();
        let ghost keys = self.transactions.keys();
        let mut proofs: Vec<Proof> = Vec::new();
        let mut i: usize = 0;
        while i < count
            invariant
                i <= count,
                proofs@.len() == i,
                forall|j: int|
                    0 <= j < i ==> accumulator@.proof_for(
                        input_leaves(start.transactions[keys[j]].transaction.inputs),
                    ) == Some(((#[trigger] proofs@[j]).targets@, proofs@[j].hashes@)),
            decreases count - i,
        {
            let entry = self.transactions.entry(i);
            let targets = crate::state::list_input_leaves(&entry.value.transaction.inputs);
            match accumulator.prove(&targets) {
                Ok(proof) => {
                    proofs.push(proof);
                },
                Err(_) => {
                    assert(reproved(start.transactions[keys[i as int]], accumulator@) is None);
                    return Err(Error::Utreexo(UtreexoError));
                },
            }
            i += 1;
        }
        proof {
            assert forall|k: Seq<u8>| start.transactions.contains_key(k) implies (
            #[trigger] reproved(start.transactions[k], accumulator@)) is Some by {
                let j = keys.index_of(k);
                assert(keys[j] == k);
                assert(accumulator@.proof_for(
                    input_leaves(start.transactions[keys[j]].transaction.inputs),
                ) == Some((proofs@[j].targets@, proofs@[j].hashes@)));
            }
        }
        let ghost target = spec_regenerate(start, accumulator@)->Ok_0;
        let ghost made = proofs@;
        let mut transactions: Table<AuthorizedTransaction> = Table::new();
        core::mem::swap(&mut self.transactions, &mut transactions);
        let mut i: usize = count;
        assert(made.take(count as int) =~= made);
        while i > 0
            invariant
                i <= count,
                transactions.keys() == keys,
                forall|j: int|
                    0 <= j < i ==> #[trigger] transactions@[keys[j]] == start.transactions[keys[j]],
                forall|j: int|
                    i <= j < count ==> #[trigger] transactions@[keys[j]] == target.transactions[keys[j]],
                forall|k: Seq<u8>| transactions@.contains_key(k) <==> keys.contains(k),
                proofs@ == made.take(i as int),
            decreases i,
        {
            i -= 1;
            let proof = match proofs.pop() {
                Some(proof) => proof,
                None => Proof::default(),
            };
            assert(proof == made[i as int]);
            assert(proofs@ =~= made.take(i as int));
            let mut transaction = transactions.entry(i).value.clone();
            transaction.transaction.proof = proof;
            let ghost before = transactions@;
            assert(before[keys[i as int]] == start.transactions[keys[i as int]]);
            assert(reproved(start.transactions[keys[i as int]], accumulator@) == Some(
                transaction@,
            ));
            transactions.replace_at(i, transaction);
            proof {
                assert(reproved(start.transactions[keys[i as int]], accumulator@) is Some);
                assert forall|j: int| 0 <= j < count && j != i implies #[trigger] transactions@[keys[j]]
                    == before[keys[j]] by {
                    crate::table::lemma_sorted_index_of(keys, j);
                    crate::table::lemma_sorted_index_of(keys, i as int);
                }
                assert forall|k: Seq<u8>| transactions@.contains_key(k) <==> keys.contains(k) by {
                    assert(keys.contains(keys[i as int]));
                }
            }
        }
        proof {
            assert(transactions@ =~= target.transactions) by {
                assert forall|k: Seq<u8>| transactions@.contains_key(k) implies transactions@[k]
                    == target.transactions[k] by {
                    let j = keys.index_of(k);
                    assert(keys[j] == k);
                }
            }
            assert forall|k: Seq<u8>| #[trigger] target.transactions.contains_key(k) implies target.owned(
                k,
            ) by {
                assert(start.transactions.contains_key(k));
                assert(start.owned(k));
                assert(reproved(start.transactions[k], accumulator@) is Some);
            }
            assert(target.transactions.dom() =~= start.transactions.dom());
        }
        core::mem::swap(&mut self.transactions, &mut transactions);
        Ok(())
    }

    /// Takes out of the pool what a connected block has made void: each
    /// transaction of the block with the transactions that build on it,
    /// and each transaction that uses a nullifier of the block with the
    /// transactions that build on it. Then makes the proofs of the pool
    /// anew, for `accumulator`; where that fails, the proofs stay as they
    /// were.
    #[verifier::loop_isolation(false)]
    pub fn connect_block(&mut self, accumulator: &Accumulator, body: &Body) -> (r: Result<(), Error>)
        requires
            forall|k: int| 0 <= k < body.transactions@.len() ==> (#[trigger] body.transactions@[k])@.hashable(),
        ensures
            match spec_regenerate(
                evict_block(old(self)@, body.transactions@, body.transactions@.len() as int),
                accumulator@,
            ) {
                Ok(pool) => r is Ok && final(self)@ == pool,
                Err(error) => r == Err::<(), Error>(error) && final(self)@ == evict_block(
                    old(self)@,
                    body.transactions@,
                    body.transactions@.len() as int,
                ),
            },
            final(self)@.consistent(),
    {
        let mut k: usize = 0;
        while k < body.transactions.len()
            invariant
                k <= body.transactions@.len(),
                self@ == evict_block(old(self)@, body.transactions@, k as int),
            decreases body.transactions@.len() - k,
        {
            let transaction = &body.transactions[k];
            self.delete(transaction.txid());
            match &transaction.orchard_bundle {
                Some(bundle) => {
                    let ghost without = self@;
                    let mut j: usize = 0;
                    while j < bundle.nullifiers.len()
                        invariant
                            j <= bundle.nullifiers@.len(),
                            self@ == evict_nullifiers(without, bundle.nullifiers@, j as int),
                        decreases bundle.nullifiers@.len() - j,
                    {
                        match self.user_of(&bundle.nullifiers[j]) {
                            Some(txid) => {
                                self.delete(txid);
                            },
                            None => {},
                        }
                        j += 1;
                    }
                },
                None => {},
            }
            k += 1;
        }
        self.regenerate_proofs(accumulator)
    }

    /// The id of the transaction of the pool that uses `nullifier`, if one
    /// does.
    pub fn user_of(&self, nullifier: &Nullifier) -> (r: Option<Txid>)
        ensures
            r == (if self@.used_nullifiers.contains_key(nullifier@) {
                Some(self@.used_nullifiers[nullifier@])
            } else {
                None
            }),
    {
        match self.used_nullifiers.get(nullifier.as_slice()) {
            Some(txid) => Some(*txid),
            None => None,
        }
    }

    /// The id of the transaction of the pool that spends `outpoint`, if one
    /// does.
    pub fn spender_of(&self, outpoint: &OutPoint) -> (r: Option<Txid>)
        ensures
            r == (if self@.spent_utxos.contains_key(outpoint.key_bytes()) {
                Some(self@.spent_utxos[outpoint.key_bytes()])
            } else {
                None
            }),
    {
        let key = OutPointKey::from_outpoint(outpoint);
        match self.spent_utxos.get(key.as_bytes().as_slice()) {
            Some(txid) => Some(*txid),
            None => None,
        }
    }

    /// Whether the transaction `txid` is in the pool.
    pub fn contains(&self, txid: &Txid) -> (r: bool)
        ensures
            r == self@.transactions.contains_key(txid.0@),
    {
        self.transactions.contains_key(txid.as_slice())
    }
}

} // verus!
