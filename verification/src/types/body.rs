//! Making block bodies and taking them apart.

use crate::authorization::Authorization;
use crate::state::block::{
    body_deletions, body_diff, body_insertions, input_outpoints, insert_coinbase_leaves,
    insert_transaction_leaves,
};
use crate::types::accumulator::{Accumulator, AccumulatorDiff, UtreexoError};
use crate::types::hashes::Canonical;
use crate::types::transaction::{
    flat_inputs, total_inputs, AuthorizedTransaction, Body, OutPoint, Output, PointedOutput,
    Transaction,
};
use vstd::prelude::*;

verus! {

/// The authorizations of the first `n` authorized transactions, one after
/// the other.
pub open spec fn flat_authorizations(transactions: Seq<AuthorizedTransaction>, n: int) -> Seq<
    Authorization,
>
    decreases n,
{
    if n <= 0 {
        Seq::empty()
    } else {
        flat_authorizations(transactions, n - 1) + transactions[n - 1].authorizations@
    }
}

/// The outputs that the coinbase and the first `n` transactions of a body
/// create, each with its outpoint, in order.
pub open spec fn body_outputs(body: Body, n: int) -> Seq<PointedOutput>
    decreases n,
{
    if n <= 0 {
        Seq::new(
            body.coinbase@.len(),
            |i: int|
                PointedOutput {
                    outpoint: OutPoint::Coinbase {
                        merkle_root: body.spec_merkle_root(),
                        vout: i as u32,
                    },
                    output: body.coinbase@[i],
                },
        )
    } else {
        body_outputs(body, n - 1) + Seq::new(
            body.transactions@[n - 1].outputs@.len(),
            |i: int|
                PointedOutput {
                    outpoint: OutPoint::Regular {
                        txid: body.transactions@[n - 1]@.txid(),
                        vout: i as u32,
                    },
                    output: body.transactions@[n - 1].outputs@[i],
                },
        )
    }
}

impl Body {
    /// The body of a block with the coinbase `coinbase` and the given
    /// transactions: their authorizations follow one another in the order
    /// of the transactions.
    #[verifier::loop_isolation(false)]
    pub fn new(authorized_transactions: Vec<AuthorizedTransaction>, coinbase: Vec<Output>) -> (body:
        Body)
        ensures
            body.coinbase@ == coinbase@,
            body.transactions@.len() == authorized_transactions@.len(),
            forall|k: int|
                0 <= k < authorized_transactions@.len() ==> (#[trigger] body.transactions@[k])@
                    == authorized_transactions@[k].transaction@,
            body.authorizations@ == flat_authorizations(
                authorized_transactions@,
                authorized_transactions@.len() as int,
            ),
    {
        let mut authorizations: Vec<Authorization> = Vec::new();
        let mut transactions: Vec<Transaction> = Vec::new();
        let mut k: usize = 0;
        while k < authorized_transactions.len()
            invariant
                k <= authorized_transactions@.len(),
                transactions@.len() == k,
                forall|j: int|
                    0 <= j < k ==> (#[trigger] transactions@[j])@
                        == authorized_transactions@[j].transaction@,
                authorizations@ == flat_authorizations(authorized_transactions@, k as int),
            decreases authorized_transactions@.len() - k,
        {
            let authorized = &authorized_transactions[k];
            let ghost before = authorizations@;
            let mut j: usize = 0;
            while j < authorized.authorizations.len()
                invariant
                    j <= authorized.authorizations@.len(),
                    authorizations@ == before + authorized.authorizations@.take(j as int),
                decreases authorized.authorizations@.len() - j,
            {
                authorizations.push(authorized.authorizations[j]);
                j += 1;
                assert(authorizations@ =~= before + authorized.authorizations@.take(j as int));
            }
            assert(authorized.authorizations@.take(j as int) =~= authorized.authorizations@);
            transactions.push(authorized.transaction.clone());
            k += 1;
        }
        Body { coinbase, transactions, authorizations }
    }

    /// The transactions of the body, each with its authorizations: as many
    /// as it has inputs, taken in order.
    #[verifier::loop_isolation(false)]
    pub fn authorized_transactions(&self) -> (authorized: Vec<AuthorizedTransaction>)
        requires
            self.authorizations@.len() >= total_inputs(self.transactions@),
        ensures
            authorized@.len() == self.transactions@.len(),
            forall|k: int|
                0 <= k < authorized@.len() ==> {
                    &&& (#[trigger] authorized@[k]).transaction@ == self.transactions@[k]@
                    &&& authorized@[k].authorizations@ == self.authorizations@.subrange(
                        flat_inputs(self.transactions@, k).len() as int,
                        flat_inputs(self.transactions@, k + 1).len() as int,
                    )
                },
    {
        let mut authorized: Vec<AuthorizedTransaction> = Vec::new();
        let total = self.authorizations.len();
        let mut next: usize = 0;
        let mut k: usize = 0;
        while k < self.transactions.len()
            invariant
                k <= self.transactions@.len(),
                next == flat_inputs(self.transactions@, k as int).len(),
                authorized@.len() == k,
                forall|j: int|
                    0 <= j < k ==> {
                        &&& (#[trigger] authorized@[j]).transaction@ == self.transactions@[j]@
                        &&& authorized@[j].authorizations@ == self.authorizations@.subrange(
                            flat_inputs(self.transactions@, j).len() as int,
                            flat_inputs(self.transactions@, j + 1).len() as int,
                        )
                    },
            decreases self.transactions@.len() - k,
        {
            let transaction = &self.transactions[k];
            proof {
                lemma_flat_inputs_grow(
                    self.transactions@,
                    k + 1,
                    self.transactions@.len() as int,
                );
            }
            let count = transaction.inputs.len();
            assert(flat_inputs(self.transactions@, k + 1).len() == next + count);
            let mut authorizations: Vec<Authorization> = Vec::new();
            let mut j: usize = 0;
            while j < count
                invariant
                    j <= count,
                    next + count <= total == self.authorizations@.len(),
                    authorizations@ == self.authorizations@.subrange(
                        next as int,
                        next as int + j as int,
                    ),
                decreases count - j,
            {
                authorizations.push(self.authorizations[next + j]);
                j += 1;
                assert(authorizations@ =~= self.authorizations@.subrange(
                    next as int,
                    next as int + j as int,
                ));
            }
            authorized.push(
                AuthorizedTransaction { transaction: transaction.clone(), authorizations },
            );
            next = next + count;
            k += 1;
        }
        authorized
    }

    /// Applies the body to an accumulator: the leaves of the outputs that
    /// it spends go, the leaves of the outputs that it creates come. No
    /// inclusion proof is checked. Where the accumulator does not take the
    /// body, it stays as it was.
    #[verifier::loop_isolation(false)]
    pub fn modify_memforest(&self, accumulator: &mut Accumulator) -> (r: Result<(), UtreexoError>)
        requires
            self.encodable(),
        ensures
            r is Ok == old(accumulator)@.after(body_diff(*self)) is Some,
            r is Ok ==> old(accumulator)@.after(body_diff(*self)) == Some(
                final(accumulator)@,
            ),
            r is Err ==> final(accumulator)@ == old(accumulator)@,
    {
        let merkle_root = self.compute_merkle_root();
        let mut diff = AccumulatorDiff::default();
        insert_coinbase_leaves(merkle_root, &self.coinbase, &mut diff);
        assert(diff@.insertions =~= body_insertions(*self, 0));
        assert(diff@.deletions =~= body_deletions(*self, 0));
        let mut k: usize = 0;
        while k < self.transactions.len()
            invariant
                k <= self.transactions@.len(),
                diff@.insertions == body_insertions(*self, k as int),
                diff@.deletions == body_deletions(*self, k as int),
            decreases self.transactions@.len() - k,
        {
            let transaction = &self.transactions[k];
            assert(transaction.encodable());
            let txid = transaction.txid();
            insert_transaction_leaves(txid, transaction, &mut diff);
            k += 1;
        }
        assert(diff@ == body_diff(*self));
        accumulator.apply_diff(diff)
    }

    /// The outpoints that the transactions of the body spend, in order.
    #[verifier::loop_isolation(false)]
    pub fn get_inputs(&self) -> (inputs: Vec<OutPoint>)
        ensures
            inputs@ == input_outpoints(
                flat_inputs(self.transactions@, self.transactions@.len() as int),
            ),
    {
        let mut inputs: Vec<OutPoint> = Vec::new();
        let mut k: usize = 0;
        while k < self.transactions.len()
            invariant
                k <= self.transactions@.len(),
                inputs@ == input_outpoints(flat_inputs(self.transactions@, k as int)),
            decreases self.transactions@.len() - k,
        {
            let ghost before = inputs@;
            let transaction = &self.transactions[k];
            let mut j: usize = 0;
            while j < transaction.inputs.len()
                invariant
                    j <= transaction.inputs@.len(),
                    inputs@ == before + input_outpoints(transaction.inputs@.take(j as int)),
                decreases transaction.inputs@.len() - j,
            {
                inputs.push(transaction.inputs[j].0);
                j += 1;
                assert(inputs@ =~= before + input_outpoints(transaction.inputs@.take(j as int)));
            }
            assert(transaction.inputs@.take(j as int) =~= transaction.inputs@);
            assert(inputs@ =~= input_outpoints(flat_inputs(self.transactions@, k + 1)));
            k += 1;
        }
        inputs
    }

    /// The outputs that the body creates, each with its outpoint: those of
    /// the coinbase first, then those of the transactions in order.
    #[verifier::loop_isolation(false)]
    pub fn get_outputs(&self) -> (outputs: Vec<PointedOutput>)
        requires
            self.encodable(),
        ensures
            outputs@ == body_outputs(*self, self.transactions@.len() as int),
    {
        let merkle_root = self.compute_merkle_root();
        let mut outputs: Vec<PointedOutput> = Vec::new();
        let mut vout: usize = 0;
        while vout < self.coinbase.len()
            invariant
                vout <= self.coinbase@.len(),
                outputs@ == body_outputs(*self, 0).take(vout as int),
            decreases self.coinbase@.len() - vout,
        {
            let outpoint = OutPoint::Coinbase { merkle_root, vout: vout as u32 };
            outputs.push(PointedOutput { outpoint, output: self.coinbase[vout] });
            vout += 1;
            assert(outputs@ =~= body_outputs(*self, 0).take(vout as int));
        }
        assert(body_outputs(*self, 0).take(vout as int) =~= body_outputs(*self, 0));
        let mut k: usize = 0;
        while k < self.transactions.len()
            invariant
                k <= self.transactions@.len(),
                outputs@ == body_outputs(*self, k as int),
            decreases self.transactions@.len() - k,
        {
            let transaction = &self.transactions[k];
            assert(transaction.encodable());
            let txid = transaction.txid();
            let ghost before = outputs@;
            let ghost created = Seq::new(
                transaction.outputs@.len(),
                |i: int|
                    PointedOutput {
                        outpoint: OutPoint::Regular { txid, vout: i as u32 },
                        output: transaction.outputs@[i],
                    },
            );
            let mut vout: usize = 0;
            while vout < transaction.outputs.len()
                invariant
                    vout <= transaction.outputs@.len(),
                    outputs@ == before + created.take(vout as int),
                decreases transaction.outputs@.len() - vout,
            {
                let outpoint = OutPoint::Regular { txid, vout: vout as u32 };
                outputs.push(PointedOutput { outpoint, output: transaction.outputs[vout] });
                vout += 1;
                assert(outputs@ =~= before + created.take(vout as int));
            }
            assert(created.take(vout as int) =~= created);
            k += 1;
        }
        outputs
    }
}

/// The inputs of fewer transactions are no more than those of more.
pub proof fn lemma_flat_inputs_grow(transactions: Seq<Transaction>, n: int, m: int)
    requires
        0 <= n <= m,
    ensures
        flat_inputs(transactions, n).len() <= flat_inputs(transactions, m).len(),
    decreases m - n,
{
    if n < m {
        lemma_flat_inputs_grow(transactions, n, m - 1);
    }
}

} // verus!
