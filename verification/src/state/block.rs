//! Validating, connecting and disconnecting blocks.

use crate::authorization::{address_of, spec_verify_authorizations, Authorization, OrchardVerdict};
use crate::state::error::{self, Error, InvalidBody, InvalidHeader, NoUtxo};
use crate::state::limits::{spec_body_sigops_limit, spec_body_size_limit};
use crate::state::orchard::{without_block, Orchard, OrchardView};
use crate::state::{first_missing, next_height, spec_fee, spent_outputs, State, StateView};
use crate::table::{put_all, remove_all, Table};
use crate::types::accumulator::{
    Accumulator, AccumulatorDiff, AccumulatorDiffView, AccumulatorView, UtreexoError,
};
use crate::types::hashes::{self, hash_equal, BlockHash, Canonical, MerkleRoot, Txid};
use crate::types::header::Header;
use crate::types::orchard::{is_commitment, tree_capacity, NoteFrontier};
use crate::types::transaction::{
    flat_inputs, leaf_hash, total_inputs, total_value, Amount, AmountOverflowError, Body,
    FilledTransaction, FilledTransactionView, InPoint, OrchardBundle, OrchardBundleView, OutPoint,
    OutPointKey, Output, PointedOutput, SpentOutput, Transaction, TransactionView,
};
use vstd::prelude::*;

verus! {

/// What validating a block has found out, kept so that connecting the block
/// need not find it out again.
pub struct PrevalidatedBlock {
    /// The transactions of the body, each with the outputs that it spends.
    pub filled_transactions: Vec<FilledTransaction>,
    pub computed_merkle_root: MerkleRoot,
    pub total_fees: Amount,
    pub coinbase_value: Amount,
    pub next_height: u32,
    pub accumulator_diff: AccumulatorDiff,
}

pub struct PrevalidatedBlockView {
    pub filled_transactions: Seq<FilledTransactionView>,
    pub computed_merkle_root: MerkleRoot,
    pub total_fees: Amount,
    pub coinbase_value: Amount,
    pub next_height: u32,
    pub accumulator_diff: AccumulatorDiffView,
}

impl View for PrevalidatedBlock {
    type V = PrevalidatedBlockView;

    open spec fn view(&self) -> PrevalidatedBlockView {
        PrevalidatedBlockView {
            filled_transactions: Seq::new(
                self.filled_transactions@.len(),
                |i: int| self.filled_transactions@[i]@,
            ),
            computed_merkle_root: self.computed_merkle_root,
            total_fees: self.total_fees,
            coinbase_value: self.coinbase_value,
            next_height: self.next_height,
            accumulator_diff: self.accumulator_diff@,
        }
    }
}

/// The first input, among those of the first `n` transactions, that spends
/// what is not in `utxos`.
pub open spec fn first_unfilled(utxos: Map<Seq<u8>, Output>, transactions: Seq<Transaction>, n: int) -> Option<
    OutPoint,
>
    decreases n,
{
    if n <= 0 {
        None
    } else if first_unfilled(utxos, transactions, n - 1) is Some {
        first_unfilled(utxos, transactions, n - 1)
    } else {
        first_missing(
            utxos,
            transactions[n - 1].inputs@,
            transactions[n - 1].inputs@.len() as int,
        )
    }
}

/// Once a transaction could not be filled, looking at more transactions does
/// not change which input comes first.
pub proof fn lemma_first_unfilled_stays(
    utxos: Map<Seq<u8>, Output>,
    transactions: Seq<Transaction>,
    n: int,
    m: int,
)
    requires
        0 <= n <= m,
        first_unfilled(utxos, transactions, n) is Some,
    ensures
        first_unfilled(utxos, transactions, m) == first_unfilled(utxos, transactions, n),
    decreases m - n,
{
    if n < m {
        lemma_first_unfilled_stays(utxos, transactions, n, m - 1);
    }
}

/// The transactions, each with the outputs that it spends.
pub open spec fn filled_views(utxos: Map<Seq<u8>, Output>, transactions: Seq<Transaction>) -> Seq<
    FilledTransactionView,
> {
    Seq::new(
        transactions.len(),
        |i: int|
            FilledTransactionView {
                transaction: transactions[i]@,
                spent_utxos: spent_outputs(utxos, transactions[i].inputs@),
            },
    )
}

/// The keys of the outpoints that the first `n` filled transactions spend,
/// in order.
pub open spec fn input_keys(transactions: Seq<FilledTransactionView>, n: int) -> Seq<Seq<u8>>
    decreases n,
{
    if n <= 0 {
        Seq::empty()
    } else {
        input_keys(transactions, n - 1) + Seq::new(
            transactions[n - 1].transaction.inputs.len(),
            |i: int| transactions[n - 1].transaction.inputs[i].0.key_bytes(),
        )
    }
}

/// The outputs that the first `n` filled transactions spend, in order.
pub open spec fn flat_spent(transactions: Seq<FilledTransactionView>, n: int) -> Seq<Output>
    decreases n,
{
    if n <= 0 {
        Seq::empty()
    } else {
        flat_spent(transactions, n - 1) + transactions[n - 1].spent_utxos
    }
}

/// No key occurs twice.
pub open spec fn distinct(keys: Seq<Seq<u8>>) -> bool {
    forall|i: int, j: int| 0 <= i < j < keys.len() ==> keys[i] != keys[j]
}

/// The accumulator leaves that the inputs name.
pub open spec fn input_leaves(inputs: Seq<(OutPoint, hashes::Hash)>) -> Seq<hashes::Hash> {
    Seq::new(inputs.len(), |i: int| inputs[i].1)
}

/// The accumulator leaves of the outputs of a coinbase.
pub open spec fn coinbase_leaves(merkle_root: MerkleRoot, coinbase: Seq<Output>) -> Seq<hashes::Hash> {
    Seq::new(
        coinbase.len(),
        |i: int| leaf_hash(OutPoint::Coinbase { merkle_root, vout: i as u32 }, coinbase[i]),
    )
}

/// The accumulator leaves of the outputs of the transaction `txid`.
pub open spec fn output_leaves(txid: Txid, outputs: Seq<Output>) -> Seq<hashes::Hash> {
    Seq::new(
        outputs.len(),
        |i: int| leaf_hash(OutPoint::Regular { txid, vout: i as u32 }, outputs[i]),
    )
}

/// The leaves that the coinbase and the first `n` transactions add to the
/// accumulator, in order.
pub open spec fn block_insertions(
    merkle_root: MerkleRoot,
    coinbase: Seq<Output>,
    transactions: Seq<FilledTransactionView>,
    n: int,
) -> Seq<hashes::Hash>
    decreases n,
{
    if n <= 0 {
        coinbase_leaves(merkle_root, coinbase)
    } else {
        block_insertions(merkle_root, coinbase, transactions, n - 1) + output_leaves(
            transactions[n - 1].transaction.txid(),
            transactions[n - 1].transaction.outputs,
        )
    }
}

/// The leaves that the first `n` transactions take out of the accumulator,
/// in order.
pub open spec fn block_deletions(transactions: Seq<FilledTransactionView>, n: int) -> Seq<
    hashes::Hash,
>
    decreases n,
{
    if n <= 0 {
        Seq::empty()
    } else {
        block_deletions(transactions, n - 1) + input_leaves(transactions[n - 1].transaction.inputs)
    }
}

/// What a block does to the accumulator.
pub open spec fn block_diff(
    merkle_root: MerkleRoot,
    coinbase: Seq<Output>,
    transactions: Seq<FilledTransactionView>,
) -> AccumulatorDiffView {
    AccumulatorDiffView {
        insertions: block_insertions(
            merkle_root,
            coinbase,
            transactions,
            transactions.len() as int,
        ),
        deletions: block_deletions(transactions, transactions.len() as int),
    }
}

/// The fees of the first `n` transactions together, where each has a fee,
/// the sum holds, and each inclusion proof holds in `accumulator`; else the
/// first thing that went wrong.
pub open spec fn checked_fees(
    accumulator: AccumulatorView,
    transactions: Seq<FilledTransactionView>,
    n: int,
) -> Result<Amount, Error>
    decreases n,
{
    if n <= 0 {
        Ok(0)
    } else {
        match checked_fees(accumulator, transactions, n - 1) {
            Err(error) => Err(error),
            Ok(fees) => {
                let transaction = transactions[n - 1];
                match spec_fee(transaction) {
                    Err(error) => Err(error),
                    Ok(fee) => if fees + fee > u64::MAX {
                        Err(Error::AmountOverflow(AmountOverflowError))
                    } else {
                        match accumulator.verdict(
                            transaction.transaction.proof,
                            input_leaves(transaction.transaction.inputs),
                        ) {
                            None => Err(Error::Utreexo(UtreexoError)),
                            Some(false) => Err(
                                Error::UtreexoProofFailed { txid: transaction.transaction.txid() },
                            ),
                            Some(true) => Ok((fees + fee) as u64),
                        }
                    },
                }
            },
        }
    }
}

/// Once a transaction has failed, looking at more transactions does not
/// change what went wrong first.
pub proof fn lemma_checked_fees_stays(
    accumulator: AccumulatorView,
    transactions: Seq<FilledTransactionView>,
    n: int,
    m: int,
)
    requires
        0 <= n <= m,
        checked_fees(accumulator, transactions, n) is Err,
    ensures
        checked_fees(accumulator, transactions, m) == checked_fees(accumulator, transactions, n),
    decreases m - n,
{
    if n < m {
        lemma_checked_fees_stays(accumulator, transactions, n, m - 1);
    }
}

/// Each authorization that has a spent output beside it is by the key of
/// that output's address.
pub open spec fn keys_fit(authorizations: Seq<Authorization>, spent: Seq<Output>) -> bool {
    forall|i: int|
        0 <= i < authorizations.len() && i < spent.len() ==> address_of(
            (#[trigger] authorizations[i]).verifying_key@,
        ) == spent[i].address.0@
}

/// What validating a block comes to: what connecting it will need, or the
/// first rule that the block breaks.
pub open spec fn spec_prevalidate(
    state: StateView,
    header: Header,
    body: Body,
    verdicts: Seq<OrchardVerdict>,
) -> Result<PrevalidatedBlockView, Error> {
    let height = next_height(state.height) as u32;
    let merkle_root = body.spec_merkle_root();
    let transactions = body.transactions@;
    let filled = filled_views(state.utxos, transactions);
    let count = transactions.len() as int;
    let diff = block_diff(merkle_root, body.coinbase@, filled);
    if header.prev_side_hash != state.tip {
        Err(
            Error::InvalidHeader(
                InvalidHeader::PrevSideHash {
                    expected: state.tip,
                    received: header.prev_side_hash,
                },
            ),
        )
    } else if body.authorizations@.len() > spec_body_sigops_limit(height) {
        Err(Error::TooManySigops)
    } else if !body.encodable() {
        Err(Error::BorshSerialize)
    } else if body.canonical().len() > spec_body_size_limit(height) {
        Err(Error::BodyTooLarge)
    } else if merkle_root != header.merkle_root {
        Err(Error::InvalidBody(InvalidBody { expected: merkle_root, computed: header.merkle_root }))
    } else if total_value(body.coinbase@) > u64::MAX {
        Err(Error::AmountOverflow(AmountOverflowError))
    } else if first_unfilled(state.utxos, transactions, count) matches Some(outpoint) {
        Err(Error::NoUtxo(NoUtxo { outpoint: first_unfilled(state.utxos, transactions, count)->0 }))
    } else if !distinct(input_keys(filled, count)) {
        Err(Error::UtxoDoubleSpent)
    } else {
        match checked_fees(state.accumulator, filled, count) {
            Err(error) => Err(error),
            Ok(total_fees) => if total_value(body.coinbase@) > total_fees {
                Err(Error::NotEnoughFees)
            } else if !keys_fit(body.authorizations@, flat_spent(filled, count)) {
                Err(Error::WrongPubKeyForAddress)
            } else if spec_verify_authorizations(body, verdicts) is Err {
                Err(Error::AuthorizationError)
            } else {
                match state.accumulator.roots_after(diff) {
                    None => Err(Error::Utreexo(UtreexoError)),
                    Some(roots) => if roots != header.roots@ {
                        Err(Error::UtreexoRootsMismatch)
                    } else {
                        Ok(
                            PrevalidatedBlockView {
                                filled_transactions: filled,
                                computed_merkle_root: merkle_root,
                                total_fees,
                                coinbase_value: total_value(body.coinbase@) as u64,
                                next_height: height,
                                accumulator_diff: diff,
                            },
                        )
                    },
                }
            },
        }
    }
}

/// What validating a block comes to: the fees of the block, or the first
/// rule that the block breaks.
pub open spec fn spec_validate(
    state: StateView,
    header: Header,
    body: Body,
    verdicts: Seq<OrchardVerdict>,
) -> Result<Amount, Error> {
    match spec_prevalidate(state, header, body, verdicts) {
        Ok(prevalidated) => Ok(prevalidated.total_fees),
        Err(error) => Err(error),
    }
}

/// Whether two optional block hashes are the same.
pub fn same_block(a: &Option<BlockHash>, b: &Option<BlockHash>) -> (r: bool)
    ensures
        r == (*a == *b),
{
    match (a, b) {
        (Some(a), Some(b)) => hash_equal(&a.0, &b.0),
        (None, None) => true,
        _ => false,
    }
}

/// Whether two lists of hashes are the same.
pub fn same_hashes(a: &Vec<hashes::Hash>, b: &Vec<hashes::Hash>) -> (r: bool)
    ensures
        r == (a@ == b@),
{
    if a.len() != b.len() {
        return false;
    }
    let mut i: usize = 0;
    while i < a.len()
        invariant
            a@.len() == b@.len(),
            i <= a@.len(),
            forall|j: int| 0 <= j < i ==> a@[j] == b@[j],
        decreases a@.len() - i,
    {
        if !hash_equal(&a[i], &b[i]) {
            return false;
        }
        i += 1;
    }
    assert(a@ =~= b@);
    true
}


/// The views of a list of filled transactions.
pub open spec fn views_of(transactions: Seq<FilledTransaction>) -> Seq<FilledTransactionView> {
    Seq::new(transactions.len(), |i: int| transactions[i]@)
}

/// Looks up the outputs that the transactions of `body` spend.
fn fill_all(state: &State, body: &Body) -> (r: Result<Vec<FilledTransaction>, Error>)
    ensures
        match r {
            Ok(filled) => first_unfilled(
                state@.utxos,
                body.transactions@,
                body.transactions@.len() as int,
            ) is None && views_of(filled@) == filled_views(state@.utxos, body.transactions@),
            Err(error) => first_unfilled(
                state@.utxos,
                body.transactions@,
                body.transactions@.len() as int,
            ) matches Some(outpoint) && error == Error::NoUtxo(NoUtxo { outpoint }),
        },
{
    let mut filled: Vec<FilledTransaction> = Vec::new();
    let mut k: usize = 0;
    while k < body.transactions.len()
        invariant
            k <= body.transactions@.len(),
            filled@.len() == k,
            first_unfilled(state@.utxos, body.transactions@, k as int) is None,
            forall|j: int|
                0 <= j < k ==> (#[trigger] filled@[j])@ == filled_views(
                    state@.utxos,
                    body.transactions@,
                )[j],
        decreases body.transactions@.len() - k,
    {
        match state.fill_transaction(&body.transactions[k]) {
            Ok(transaction) => {
                filled.push(transaction);
            },
            Err(error) => {
                proof {
                    lemma_first_unfilled_stays(
                        state@.utxos,
                        body.transactions@,
                        k + 1,
                        body.transactions@.len() as int,
                    );
                }
                return Err(error);
            },
        }
        k += 1;
    }
    assert(views_of(filled@) =~= filled_views(state@.utxos, body.transactions@));
    Ok(filled)
}

/// The keys of the outpoints that the transactions spend, in order.
#[verifier::loop_isolation(false)]
fn collect_input_keys(filled: &Vec<FilledTransaction>) -> (keys: Vec<OutPointKey>)
    ensures
        Seq::new(keys@.len(), |i: int| keys@[i]@) == input_keys(
            views_of(filled@),
            filled@.len() as int,
        ),
{
    let ghost views = views_of(filled@);
    let ghost mut flat: Seq<Seq<u8>> = Seq::empty();
    let mut keys: Vec<OutPointKey> = Vec::new();
    let mut k: usize = 0;
    while k < filled.len()
        invariant
            k <= filled@.len(),
            flat == input_keys(views, k as int),
            flat.len() == keys@.len(),
            forall|i: int| 0 <= i < keys@.len() ==> (#[trigger] keys@[i])@ == flat[i],
        decreases filled@.len() - k,
    {
        let inputs = &filled[k].transaction.inputs;
        let ghost before = flat;
        let mut j: usize = 0;
        while j < inputs.len()
            invariant
                j <= inputs@.len(),
                flat == before + Seq::new(j as nat, |i: int| inputs@[i].0.key_bytes()),
                flat.len() == keys@.len(),
                forall|i: int| 0 <= i < keys@.len() ==> (#[trigger] keys@[i])@ == flat[i],
            decreases inputs@.len() - j,
        {
            let key = OutPointKey::from_outpoint(&inputs[j].0);
            proof {
                flat = flat.push(key@);
            }
            keys.push(key);
            j += 1;
            assert(flat =~= before + Seq::new(j as nat, |i: int| inputs@[i].0.key_bytes()));
        }
        assert(views[k as int].transaction.inputs == inputs@);
        assert(Seq::new(j as nat, |i: int| inputs@[i].0.key_bytes()) =~= Seq::new(
            views[k as int].transaction.inputs.len(),
            |i: int| views[k as int].transaction.inputs[i].0.key_bytes(),
        ));
        k += 1;
    }
    assert(Seq::new(keys@.len(), |i: int| keys@[i]@) =~= flat);
    keys
}

/// Whether no key occurs twice.
fn all_distinct(keys: &Vec<OutPointKey>) -> (r: bool)
    ensures
        r == distinct(Seq::new(keys@.len(), |i: int| keys@[i]@)),
{
    let ghost views = Seq::new(keys@.len(), |i: int| keys@[i]@);
    let mut seen: Table<()> = Table::new();
    let mut i: usize = 0;
    while i < keys.len()
        invariant
            i <= keys@.len(),
            views == Seq::new(keys@.len(), |i: int| keys@[i]@),
            forall|a: int, b: int| 0 <= a < b < i ==> views[a] != views[b],
            forall|k: Seq<u8>|
                seen@.contains_key(k) <==> exists|a: int| 0 <= a < i && #[trigger] views[a] == k,
        decreases keys@.len() - i,
    {
        let key = keys[i].as_bytes();
        assert(key@ == views[i as int]);
        if seen.contains_key(key.as_slice()) {
            proof {
                let a = choose|a: int| 0 <= a < i && #[trigger] views[a] == key@;
                assert(views[a] == views[i as int]);
            }
            return false;
        }
        seen.put(key.as_slice(), ());
        proof {
            assert forall|k: Seq<u8>|
                seen@.contains_key(k) <==> exists|a: int|
                    0 <= a < i + 1 && #[trigger] views[a] == k by {
                if k == key@ {
                    assert(views[i as int] == k);
                } else if exists|a: int| 0 <= a < i + 1 && #[trigger] views[a] == k {
                    let a = choose|a: int| 0 <= a < i + 1 && #[trigger] views[a] == k;
                    assert(a < i);
                }
            }
            assert forall|a: int, b: int| 0 <= a < b < i + 1 implies views[a] != views[b] by {
                if b == i && views[a] == views[b] {
                    assert(views[a] == key@);
                }
            }
        }
        i += 1;
    }
    true
}

/// Writes the leaves of the coinbase outputs into `diff`.
pub(crate) fn insert_coinbase_leaves(merkle_root: MerkleRoot, coinbase: &Vec<Output>, diff: &mut AccumulatorDiff)
    requires
        coinbase@.len() <= u32::MAX,
    ensures
        final(diff)@.insertions == old(diff)@.insertions + coinbase_leaves(
            merkle_root,
            coinbase@,
        ),
        final(diff)@.deletions == old(diff)@.deletions,
{
    let mut vout: usize = 0;
    while vout < coinbase.len()
        invariant
            vout <= coinbase@.len() <= u32::MAX,
            diff@.deletions == old(diff)@.deletions,
            diff@.insertions == old(diff)@.insertions + coinbase_leaves(
                merkle_root,
                coinbase@,
            ).take(vout as int),
        decreases coinbase@.len() - vout,
    {
        let outpoint = OutPoint::Coinbase { merkle_root, vout: vout as u32 };
        let pointed = PointedOutput { outpoint, output: coinbase[vout] };
        diff.insert(pointed.node_hash());
        vout += 1;
        assert(diff@.insertions =~= old(diff)@.insertions + coinbase_leaves(
            merkle_root,
            coinbase@,
        ).take(vout as int));
    }
    assert(coinbase_leaves(merkle_root, coinbase@).take(vout as int) =~= coinbase_leaves(
        merkle_root,
        coinbase@,
    ));
}

/// Writes what `transaction` does to the accumulator into `diff`: the
/// leaves of its inputs go, the leaves of its outputs come.
pub(crate) fn insert_transaction_leaves(txid: Txid, transaction: &Transaction, diff: &mut AccumulatorDiff) -> (leaves:
    Vec<hashes::Hash>)
    requires
        transaction.outputs@.len() <= u32::MAX,
    ensures
        leaves@ == input_leaves(transaction.inputs@),
        final(diff)@.insertions == old(diff)@.insertions + output_leaves(
            txid,
            transaction.outputs@,
        ),
        final(diff)@.deletions == old(diff)@.deletions + input_leaves(transaction.inputs@),
{
    let mut leaves: Vec<hashes::Hash> = Vec::new();
    let mut vin: usize = 0;
    while vin < transaction.inputs.len()
        invariant
            vin <= transaction.inputs@.len(),
            diff@.insertions == old(diff)@.insertions,
            leaves@ == input_leaves(transaction.inputs@).take(vin as int),
            diff@.deletions == old(diff)@.deletions + input_leaves(transaction.inputs@).take(
                vin as int,
            ),
        decreases transaction.inputs@.len() - vin,
    {
        let leaf = transaction.inputs[vin].1;
        leaves.push(leaf);
        diff.remove(leaf);
        vin += 1;
        assert(leaves@ =~= input_leaves(transaction.inputs@).take(vin as int));
        assert(diff@.deletions =~= old(diff)@.deletions + input_leaves(transaction.inputs@).take(
            vin as int,
        ));
    }
    assert(input_leaves(transaction.inputs@).take(vin as int) =~= input_leaves(
        transaction.inputs@,
    ));
    let mut vout: usize = 0;
    while vout < transaction.outputs.len()
        invariant
            vout <= transaction.outputs@.len() <= u32::MAX,
            leaves@ == input_leaves(transaction.inputs@),
            diff@.deletions == old(diff)@.deletions + input_leaves(transaction.inputs@),
            diff@.insertions == old(diff)@.insertions + output_leaves(
                txid,
                transaction.outputs@,
            ).take(vout as int),
        decreases transaction.outputs@.len() - vout,
    {
        let outpoint = OutPoint::Regular { txid, vout: vout as u32 };
        let pointed = PointedOutput { outpoint, output: transaction.outputs[vout] };
        diff.insert(pointed.node_hash());
        vout += 1;
        assert(diff@.insertions =~= old(diff)@.insertions + output_leaves(
            txid,
            transaction.outputs@,
        ).take(vout as int));
    }
    assert(output_leaves(txid, transaction.outputs@).take(vout as int) =~= output_leaves(
        txid,
        transaction.outputs@,
    ));
    leaves
}

/// Takes the fee of each transaction and checks its inclusion proof,
/// writing what the transactions do to the accumulator into `diff`.
fn check_transactions(
    state: &State,
    filled: &Vec<FilledTransaction>,
    merkle_root: MerkleRoot,
    coinbase: &Vec<Output>,
    diff: &mut AccumulatorDiff,
) -> (r: Result<Amount, Error>)
    requires
        forall|k: int| 0 <= k < filled@.len() ==> (#[trigger] filled@[k])@.transaction.encodable(),
        old(diff)@.insertions == coinbase_leaves(merkle_root, coinbase@),
        old(diff)@.deletions == Seq::<hashes::Hash>::empty(),
    ensures
        r == checked_fees(state@.accumulator, views_of(filled@), filled@.len() as int),
        r is Ok ==> final(diff)@ == block_diff(merkle_root, coinbase@, views_of(filled@)),
{
    let ghost views = views_of(filled@);
    let mut total_fees: u64 = 0;
    let mut k: usize = 0;
    while k < filled.len()
        invariant
            k <= filled@.len(),
            views == views_of(filled@),
            forall|k: int|
                0 <= k < filled@.len() ==> (#[trigger] filled@[k])@.transaction.encodable(),
            checked_fees(state@.accumulator, views, k as int) == Ok::<Amount, Error>(total_fees),
            diff@.insertions == block_insertions(merkle_root, coinbase@, views, k as int),
            diff@.deletions == block_deletions(views, k as int),
        decreases filled@.len() - k,
    {
        let transaction = &filled[k];
        assert(views[k as int] == transaction@);
        let txid = transaction.transaction.txid();
        let leaves = insert_transaction_leaves(txid, &transaction.transaction, diff);
        let fee = match state.validate_filled_transaction(transaction) {
            Ok(fee) => fee,
            Err(error) => {
                proof {
                    lemma_checked_fees_stays(
                        state@.accumulator,
                        views,
                        k + 1,
                        filled@.len() as int,
                    );
                }
                return Err(error);
            },
        };
        if fee > u64::MAX - total_fees {
            proof {
                lemma_checked_fees_stays(state@.accumulator, views, k + 1, filled@.len() as int);
            }
            return Err(Error::AmountOverflow(AmountOverflowError));
        }
        match state.utreexo_accumulator.verify(&transaction.transaction.proof, &leaves) {
            Ok(true) => {},
            Ok(false) => {
                proof {
                    lemma_checked_fees_stays(
                        state@.accumulator,
                        views,
                        k + 1,
                        filled@.len() as int,
                    );
                }
                return Err(Error::UtreexoProofFailed { txid });
            },
            Err(error) => {
                proof {
                    lemma_checked_fees_stays(
                        state@.accumulator,
                        views,
                        k + 1,
                        filled@.len() as int,
                    );
                }
                return Err(Error::Utreexo(error));
            },
        }
        total_fees = total_fees + fee;
        k += 1;
    }
    Ok(total_fees)
}

/// Whether each authorization that has a spent output beside it is by the
/// key of that output's address.
#[verifier::loop_isolation(false)]
fn check_keys(authorizations: &Vec<Authorization>, filled: &Vec<FilledTransaction>) -> (r: bool)
    ensures
        r == keys_fit(authorizations@, flat_spent(views_of(filled@), filled@.len() as int)),
{
    let ghost views = views_of(filled@);
    let ghost all = flat_spent(views, filled@.len() as int);
    let mut next: usize = 0;
    let mut k: usize = 0;
    while k < filled.len()
        invariant
            k <= filled@.len(),
            views == views_of(filled@),
            all == flat_spent(views, filled@.len() as int),
            next <= authorizations@.len(),
            next == flat_spent(views, k as int).len() || (next == authorizations@.len() && next
                <= flat_spent(views, k as int).len()),
            keys_fit(authorizations@, flat_spent(views, k as int)),
        decreases filled@.len() - k,
    {
        let spent = &filled[k].spent_utxos;
        let ghost before = flat_spent(views, k as int);
        assert(views[k as int].spent_utxos == spent@);
        let mut j: usize = 0;
        while j < spent.len() && next < authorizations.len()
            invariant
                j <= spent@.len(),
                next <= authorizations@.len(),
                next == before.len() + j || (next == authorizations@.len() && next <= before.len()
                    + j),
                keys_fit(authorizations@, before + spent@.take(j as int)),
            decreases spent@.len() - j,
        {
            let address = authorizations[next].get_address();
            if !address.same(&spent[j].address) {
                proof {
                    let whole = before + spent@;
                    assert(whole[next as int] == spent@[j as int]);
                    assert(address.0@ != spent@[j as int].address.0@) by {
                        if address.0@ == spent@[j as int].address.0@ {
                            assert(address.0 =~= spent@[j as int].address.0);
                        }
                    }
                    lemma_flat_spent_prefix(views, k + 1, filled@.len() as int);
                    assert(all[next as int] == whole[next as int]);
                    assert(!keys_fit(authorizations@, all));
                }
                return false;
            }
            proof {
                let grown = before + spent@.take(j + 1);
                assert forall|i: int|
                    0 <= i < authorizations@.len() && i < grown.len() implies address_of(
                    (#[trigger] authorizations@[i]).verifying_key@,
                ) == grown[i].address.0@ by {
                    if i < before.len() + j {
                        assert(grown[i] == (before + spent@.take(j as int))[i]);
                    }
                }
            }
            j += 1;
            next += 1;
        }
        proof {
            let shorter = before + spent@.take(j as int);
            let whole = before + spent@;
            assert forall|i: int|
                0 <= i < authorizations@.len() && i < whole.len() implies address_of(
                (#[trigger] authorizations@[i]).verifying_key@,
            ) == whole[i].address.0@ by {
                assert(i < shorter.len());
                assert(whole[i] == shorter[i]);
            }
        }
        k += 1;
    }
    true
}

/// The outputs spent by fewer transactions are the first of the outputs
/// spent by more.
pub proof fn lemma_flat_spent_prefix(transactions: Seq<FilledTransactionView>, n: int, m: int)
    requires
        0 <= n <= m,
    ensures
        flat_spent(transactions, n).len() <= flat_spent(transactions, m).len(),
        forall|i: int|
            0 <= i < flat_spent(transactions, n).len() ==> flat_spent(transactions, m)[i]
                == flat_spent(transactions, n)[i],
    decreases m - n,
{
    if n < m {
        lemma_flat_spent_prefix(transactions, n, m - 1);
    }
}


/// Validates a block against the state and keeps what connecting it will
/// need. `verdicts` holds for each transaction how the signature and proof
/// of its shielded part fared.
pub fn prevalidate(state: &State, header: &Header, body: &Body, verdicts: &Vec<OrchardVerdict>) -> (r:
    Result<PrevalidatedBlock, Error>)
    requires
        state@.height != Some(u32::MAX),
    ensures
        match (r, spec_prevalidate(state@, *header, *body, verdicts@)) {
            (Ok(prevalidated), Ok(expected)) => prevalidated@ == expected,
            (Err(error), Err(expected)) => error == expected,
            _ => false,
        },
{
    let tip_hash = state.try_get_tip();
    if !same_block(&header.prev_side_hash, &tip_hash) {
        return Err(
            Error::InvalidHeader(
                InvalidHeader::PrevSideHash {
                    expected: tip_hash,
                    received: header.prev_side_hash,
                },
            ),
        );
    }
    let height: u32 = match state.try_get_height() {
        Some(height) => height + 1,
        None => 0,
    };
    if body.authorizations.len() > State::body_sigops_limit(height) {
        return Err(Error::TooManySigops);
    }
    if !body.is_encodable() {
        return Err(Error::BorshSerialize);
    }
    let mut bytes: Vec<u8> = Vec::new();
    body.encode(&mut bytes);
    assert(bytes@ =~= body.canonical());
    if bytes.len() > State::body_size_limit(height) {
        return Err(Error::BodyTooLarge);
    }
    let merkle_root = body.compute_merkle_root();
    if !hash_equal(&merkle_root.0, &header.merkle_root.0) {
        return Err(
            Error::InvalidBody(InvalidBody { expected: merkle_root, computed: header.merkle_root }),
        );
    }
    let coinbase_value = match body.get_coinbase_value() {
        Ok(value) => value,
        Err(error) => {
            return Err(Error::AmountOverflow(error));
        },
    };
    let mut diff = AccumulatorDiff::default();
    insert_coinbase_leaves(merkle_root, &body.coinbase, &mut diff);
    assert(diff@.insertions =~= coinbase_leaves(merkle_root, body.coinbase@));
    let filled = match fill_all(state, body) {
        Ok(filled) => filled,
        Err(error) => {
            return Err(error);
        },
    };
    let ghost views = views_of(filled@);
    let keys = collect_input_keys(&filled);
    if !all_distinct(&keys) {
        return Err(Error::UtxoDoubleSpent);
    }
    assert forall|k: int| 0 <= k < filled@.len() implies (
    #[trigger] filled@[k])@.transaction.encodable() by {
        assert(filled@[k]@ == views[k]);
        assert(body.transactions@[k].encodable());
    }
    let total_fees = match check_transactions(
        state,
        &filled,
        merkle_root,
        &body.coinbase,
        &mut diff,
    ) {
        Ok(fees) => fees,
        Err(error) => {
            return Err(error);
        },
    };
    if coinbase_value > total_fees {
        return Err(Error::NotEnoughFees);
    }
    if !check_keys(&body.authorizations, &filled) {
        return Err(Error::WrongPubKeyForAddress);
    }
    if Authorization::verify_body(body, verdicts).is_err() {
        return Err(Error::AuthorizationError);
    }
    let roots = match state.utreexo_accumulator.roots_with(&diff) {
        Ok(roots) => roots,
        Err(error) => {
            return Err(Error::Utreexo(error));
        },
    };
    if !same_hashes(&roots, &header.roots) {
        return Err(Error::UtreexoRootsMismatch);
    }
    let prevalidated = PrevalidatedBlock {
        filled_transactions: filled,
        computed_merkle_root: merkle_root,
        total_fees,
        coinbase_value,
        next_height: height,
        accumulator_diff: diff,
    };
    assert(prevalidated@.filled_transactions =~= views);
    Ok(prevalidated)
}

/// Validates a block against the state; gives the fees of the block.
/// `verdicts` holds for each transaction how the signature and proof of its
/// shielded part fared.
pub fn validate(state: &State, header: &Header, body: &Body, verdicts: &Vec<OrchardVerdict>) -> (r:
    Result<Amount, Error>)
    requires
        state@.height != Some(u32::MAX),
    ensures
        r == spec_validate(state@, *header, *body, verdicts@),
{
    match prevalidate(state, header, body, verdicts) {
        Ok(prevalidated) => Ok(prevalidated.total_fees),
        Err(error) => Err(error),
    }
}


/// The spent outputs that a filled transaction leaves behind, each under
/// the key of its outpoint and with the input that spent it.
pub open spec fn stxo_entries(transaction: FilledTransactionView) -> Seq<(Seq<u8>, SpentOutput)> {
    Seq::new(
        transaction.transaction.inputs.len(),
        |i: int|
            (
                transaction.transaction.inputs[i].0.key_bytes(),
                SpentOutput {
                    output: transaction.spent_utxos[i],
                    inpoint: InPoint::Regular {
                        txid: transaction.transaction.txid(),
                        vin: i as u32,
                    },
                },
            ),
    )
}

/// The spent outputs that the first `n` transactions leave behind.
pub open spec fn stxo_puts(transactions: Seq<FilledTransactionView>, n: int) -> Seq<
    (Seq<u8>, SpentOutput),
>
    decreases n,
{
    if n <= 0 {
        Seq::empty()
    } else {
        stxo_puts(transactions, n - 1) + stxo_entries(transactions[n - 1])
    }
}

/// The outputs of a coinbase, each under the key of its outpoint.
pub open spec fn coinbase_entries(merkle_root: MerkleRoot, coinbase: Seq<Output>) -> Seq<
    (Seq<u8>, Output),
> {
    Seq::new(
        coinbase.len(),
        |i: int| (OutPoint::Coinbase { merkle_root, vout: i as u32 }.key_bytes(), coinbase[i]),
    )
}

/// The outputs of the transaction `txid`, each under the key of its
/// outpoint.
pub open spec fn output_entries(txid: Txid, outputs: Seq<Output>) -> Seq<(Seq<u8>, Output)> {
    Seq::new(
        outputs.len(),
        |i: int| (OutPoint::Regular { txid, vout: i as u32 }.key_bytes(), outputs[i]),
    )
}

/// The outputs that the coinbase and the first `n` transactions create.
pub open spec fn utxo_puts(
    merkle_root: MerkleRoot,
    coinbase: Seq<Output>,
    transactions: Seq<FilledTransactionView>,
    n: int,
) -> Seq<(Seq<u8>, Output)>
    decreases n,
{
    if n <= 0 {
        coinbase_entries(merkle_root, coinbase)
    } else {
        utxo_puts(merkle_root, coinbase, transactions, n - 1) + output_entries(
            transactions[n - 1].transaction.txid(),
            transactions[n - 1].transaction.outputs,
        )
    }
}

/// Every commitment of the list can be added to a tree that holds `base`
/// leaves: each encodes a commitment, and the tree has room.
pub open spec fn commitments_fit(base: int, commitments: Seq<hashes::Hash>) -> bool {
    forall|j: int|
        0 <= j < commitments.len() ==> is_commitment((#[trigger] commitments[j])@) && base + j
            < tree_capacity()
}

/// The set `seen` with the first `n` nullifiers of the list.
pub open spec fn with_all(seen: Set<Seq<u8>>, nullifiers: Seq<hashes::Hash>, n: int) -> Set<Seq<u8>>
    decreases n,
{
    if n <= 0 {
        seen
    } else {
        with_all(seen, nullifiers, n - 1).insert(nullifiers[n - 1]@)
    }
}

/// The first of the first `n` nullifiers that is in `seen` or comes
/// earlier in the list.
pub open spec fn first_repeated(seen: Set<Seq<u8>>, nullifiers: Seq<hashes::Hash>, n: int) -> Option<
    hashes::Hash,
>
    decreases n,
{
    if n <= 0 {
        None
    } else if first_repeated(seen, nullifiers, n - 1) is Some {
        first_repeated(seen, nullifiers, n - 1)
    } else if with_all(seen, nullifiers, n - 1).contains(nullifiers[n - 1]@) {
        Some(nullifiers[n - 1])
    } else {
        None
    }
}

/// Once a nullifier is found repeated, looking at more does not change
/// which one comes first.
pub proof fn lemma_first_repeated_stays(
    seen: Set<Seq<u8>>,
    nullifiers: Seq<hashes::Hash>,
    n: int,
    m: int,
)
    requires
        0 <= n <= m,
        first_repeated(seen, nullifiers, n) is Some,
    ensures
        first_repeated(seen, nullifiers, m) == first_repeated(seen, nullifiers, n),
    decreases m - n,
{
    if n < m {
        lemma_first_repeated_stays(seen, nullifiers, n, m - 1);
    }
}

/// What connecting a bundle comes to, for a tree of `leaves` leaves and the
/// nullifiers `seen`: first its commitments are added, then its nullifiers
/// are recorded, none of which may have been shown before.
pub open spec fn spec_connect_orchard(leaves: int, seen: Set<Seq<u8>>, bundle: OrchardBundleView) -> Result<
    (),
    error::Orchard,
> {
    if !commitments_fit(leaves, bundle.note_commitments) {
        Err(error::Orchard::AppendCommitment)
    } else {
        match first_repeated(seen, bundle.nullifiers, bundle.nullifiers.len() as int) {
            Some(nullifier) => Err(error::Orchard::NullifierDoubleSpent { nullifier }),
            None => Ok(()),
        }
    }
}

/// Connects the shielded part of a transaction: adds its commitments to the
/// tree and records its nullifiers. Where it fails, `orchard` is left with
/// part of the bundle connected.
#[verifier::loop_isolation(false)]
pub fn connect_orchard(orchard: &mut Orchard, bundle: &OrchardBundle) -> (r: Result<
    (),
    error::Orchard,
>)
    ensures
        r == spec_connect_orchard(
            old(orchard)@.frontier.leaves().len() as int,
            old(orchard)@.nullifiers,
            bundle@,
        ),
        final(orchard)@.historical_roots == old(orchard)@.historical_roots,
        r is Ok ==> final(orchard)@.frontier.leaves() == old(orchard)@.frontier.leaves()
            + bundle@.note_commitments,
        r is Ok ==> final(orchard)@.nullifiers == with_all(
            old(orchard)@.nullifiers,
            bundle@.nullifiers,
            bundle@.nullifiers.len() as int,
        ),
{
    let ghost leaves = orchard@.frontier.leaves();
    let ghost seen = orchard@.nullifiers;
    let mut j: usize = 0;
    while j < bundle.note_commitments.len()
        invariant
            j <= bundle.note_commitments@.len(),
            orchard@.historical_roots == old(orchard)@.historical_roots,
            orchard@.nullifiers == seen,
            orchard@.frontier.leaves() == leaves + bundle.note_commitments@.take(j as int),
            commitments_fit(leaves.len() as int, bundle.note_commitments@.take(j as int)),
        decreases bundle.note_commitments@.len() - j,
    {
        if !orchard.append_commitment(&bundle.note_commitments[j]) {
            assert(!commitments_fit(leaves.len() as int, bundle@.note_commitments)) by {
                assert(bundle@.note_commitments[j as int] == bundle.note_commitments@[j as int]);
            }
            return Err(error::Orchard::AppendCommitment);
        }
        proof {
            assert(orchard@.frontier.leaves() =~= leaves + bundle.note_commitments@.take(j + 1));
            assert forall|i: int|
                0 <= i < j + 1 implies is_commitment(
                (#[trigger] bundle.note_commitments@.take(j + 1)[i])@,
            ) && leaves.len() + i < tree_capacity() by {
                if i < j {
                    assert(bundle.note_commitments@.take(j as int)[i]
                        == bundle.note_commitments@.take(j + 1)[i]);
                }
            }
        }
        j += 1;
    }
    assert(bundle.note_commitments@.take(j as int) =~= bundle@.note_commitments);
    let mut j: usize = 0;
    while j < bundle.nullifiers.len()
        invariant
            j <= bundle.nullifiers@.len(),
            orchard@.historical_roots == old(orchard)@.historical_roots,
            orchard@.frontier.leaves() == leaves + bundle@.note_commitments,
            commitments_fit(leaves.len() as int, bundle@.note_commitments),
            orchard@.nullifiers == with_all(seen, bundle.nullifiers@, j as int),
            first_repeated(seen, bundle.nullifiers@, j as int) is None,
        decreases bundle.nullifiers@.len() - j,
    {
        let nullifier = &bundle.nullifiers[j];
        if orchard.has_nullifier(nullifier) {
            proof {
                lemma_first_repeated_stays(
                    seen,
                    bundle.nullifiers@,
                    j + 1,
                    bundle.nullifiers@.len() as int,
                );
            }
            return Err(error::Orchard::NullifierDoubleSpent { nullifier: *nullifier });
        }
        orchard.put_nullifier(nullifier);
        j += 1;
    }
    Ok(())
}

/// The leaves of the tree and the nullifiers once the shielded parts of the
/// first `n` transactions are connected, or the transaction that could not
/// be connected and why.
pub open spec fn orchard_after(
    leaves: Seq<hashes::Hash>,
    seen: Set<Seq<u8>>,
    transactions: Seq<FilledTransactionView>,
    n: int,
) -> Result<(Seq<hashes::Hash>, Set<Seq<u8>>), (Txid, error::Orchard)>
    decreases n,
{
    if n <= 0 {
        Ok((leaves, seen))
    } else {
        match orchard_after(leaves, seen, transactions, n - 1) {
            Err(failure) => Err(failure),
            Ok((leaves, seen)) => match transactions[n - 1].transaction.orchard_bundle {
                None => Ok((leaves, seen)),
                Some(bundle) => match spec_connect_orchard(leaves.len() as int, seen, bundle) {
                    Err(error) => Err((transactions[n - 1].transaction.txid(), error)),
                    Ok(()) => Ok(
                        (
                            leaves + bundle.note_commitments,
                            with_all(seen, bundle.nullifiers, bundle.nullifiers.len() as int),
                        ),
                    ),
                },
            },
        }
    }
}

/// Once a shielded part could not be connected, looking at more
/// transactions does not change what went wrong first.
pub proof fn lemma_orchard_after_stays(
    leaves: Seq<hashes::Hash>,
    seen: Set<Seq<u8>>,
    transactions: Seq<FilledTransactionView>,
    n: int,
    m: int,
)
    requires
        0 <= n <= m,
        orchard_after(leaves, seen, transactions, n) is Err,
    ensures
        orchard_after(leaves, seen, transactions, m) == orchard_after(
            leaves,
            seen,
            transactions,
            n,
        ),
    decreases m - n,
{
    if n < m {
        lemma_orchard_after_stays(leaves, seen, transactions, n, m - 1);
    }
}

/// Connects the shielded parts of the transactions, in order. Where one
/// cannot be connected, `orchard` is left with part of them connected.
#[verifier::loop_isolation(false)]
fn connect_orchard_all(orchard: &mut Orchard, filled: &Vec<FilledTransaction>) -> (r: Result<
    (),
    (Txid, error::Orchard),
>)
    requires
        forall|k: int| 0 <= k < filled@.len() ==> (#[trigger] filled@[k])@.transaction.encodable(),
    ensures
        final(orchard)@.historical_roots == old(orchard)@.historical_roots,
        match (
            r,
            orchard_after(
                old(orchard)@.frontier.leaves(),
                old(orchard)@.nullifiers,
                views_of(filled@),
                filled@.len() as int,
            ),
        ) {
            (Ok(()), Ok((leaves, seen))) => final(orchard)@.frontier.leaves() == leaves
                && final(orchard)@.nullifiers == seen,
            (Err(failure), Err(expected)) => failure == expected,
            _ => false,
        },
{
    let ghost views = views_of(filled@);
    let ghost leaves = orchard@.frontier.leaves();
    let ghost seen = orchard@.nullifiers;
    let mut k: usize = 0;
    while k < filled.len()
        invariant
            k <= filled@.len(),
            views == views_of(filled@),
            forall|k: int|
                0 <= k < filled@.len() ==> (#[trigger] filled@[k])@.transaction.encodable(),
            orchard@.historical_roots == old(orchard)@.historical_roots,
            orchard_after(leaves, seen, views, k as int) == Ok::<
                (Seq<hashes::Hash>, Set<Seq<u8>>),
                (Txid, error::Orchard),
            >((orchard@.frontier.leaves(), orchard@.nullifiers)),
        decreases filled@.len() - k,
    {
        let transaction = &filled[k].transaction;
        assert(views[k as int].transaction == transaction@);
        match &transaction.orchard_bundle {
            Some(bundle) => {
                match connect_orchard(orchard, bundle) {
                    Ok(()) => {},
                    Err(error) => {
                        let txid = transaction.txid();
                        proof {
                            lemma_orchard_after_stays(
                                leaves,
                                seen,
                                views,
                                k + 1,
                                filled@.len() as int,
                            );
                        }
                        return Err((txid, error));
                    },
                }
            },
            None => {},
        }
        k += 1;
    }
    Ok(())
}


impl PrevalidatedBlockView {
    /// Each transaction can be encoded and has one spent output for each of
    /// its inputs.
    pub open spec fn well_formed(self) -> bool {
        forall|k: int|
            0 <= k < self.filled_transactions.len() ==> {
                &&& (#[trigger] self.filled_transactions[k]).transaction.encodable()
                &&& self.filled_transactions[k].spent_utxos.len()
                    == self.filled_transactions[k].transaction.inputs.len()
            }
    }
}

/// Takes the outputs that the transactions spend out of `utxos`.
#[verifier::loop_isolation(false)]
fn delete_inputs(utxos: &mut Table<Output>, filled: &Vec<FilledTransaction>)
    ensures
        final(utxos)@ == remove_all(old(utxos)@, input_keys(views_of(filled@), filled@.len() as int)),
{
    let ghost views = views_of(filled@);
    let ghost mut done: Seq<Seq<u8>> = Seq::empty();
    let mut k: usize = 0;
    while k < filled.len()
        invariant
            k <= filled@.len(),
            done == input_keys(views, k as int),
            utxos@ == remove_all(old(utxos)@, done),
        decreases filled@.len() - k,
    {
        let inputs = &filled[k].transaction.inputs;
        assert(views[k as int].transaction.inputs == inputs@);
        let ghost before = done;
        let mut j: usize = 0;
        while j < inputs.len()
            invariant
                j <= inputs@.len(),
                done == before + Seq::new(j as nat, |i: int| inputs@[i].0.key_bytes()),
                utxos@ == remove_all(old(utxos)@, done),
            decreases inputs@.len() - j,
        {
            let key = OutPointKey::from_outpoint(&inputs[j].0);
            utxos.delete(key.as_bytes().as_slice());
            proof {
                assert(done.push(key@).drop_last() =~= done);
                done = done.push(key@);
            }
            j += 1;
            assert(done =~= before + Seq::new(j as nat, |i: int| inputs@[i].0.key_bytes()));
        }
        k += 1;
    }
}

/// Puts the outputs that the transactions spend into `stxos`, each with the
/// input that spends it.
#[verifier::loop_isolation(false)]
fn put_spent(stxos: &mut Table<SpentOutput>, filled: &Vec<FilledTransaction>)
    requires
        forall|k: int|
            0 <= k < filled@.len() ==> {
                &&& (#[trigger] filled@[k])@.transaction.encodable()
                &&& filled@[k]@.spent_utxos.len() == filled@[k]@.transaction.inputs.len()
            },
    ensures
        final(stxos)@ == put_all(old(stxos)@, stxo_puts(views_of(filled@), filled@.len() as int)),
{
    let ghost views = views_of(filled@);
    let ghost mut done: Seq<(Seq<u8>, SpentOutput)> = Seq::empty();
    let mut k: usize = 0;
    while k < filled.len()
        invariant
            k <= filled@.len(),
            done == stxo_puts(views, k as int),
            stxos@ == put_all(old(stxos)@, done),
        decreases filled@.len() - k,
    {
        let transaction = &filled[k];
        assert(views[k as int] == transaction@);
        let txid = transaction.transaction.txid();
        let inputs = &transaction.transaction.inputs;
        let ghost before = done;
        let mut vin: usize = 0;
        while vin < inputs.len()
            invariant
                vin <= inputs@.len(),
                done == before + stxo_entries(transaction@).take(vin as int),
                stxos@ == put_all(old(stxos)@, done),
            decreases inputs@.len() - vin,
        {
            let key = OutPointKey::from_outpoint(&inputs[vin].0);
            let spent = SpentOutput {
                output: transaction.spent_utxos[vin],
                inpoint: InPoint::Regular { txid, vin: vin as u32 },
            };
            stxos.put(key.as_bytes().as_slice(), spent);
            proof {
                assert(done.push((key@, spent)).drop_last() =~= done);
                done = done.push((key@, spent));
            }
            vin += 1;
            assert(done =~= before + stxo_entries(transaction@).take(vin as int));
        }
        assert(stxo_entries(transaction@).take(vin as int) =~= stxo_entries(transaction@));
        k += 1;
    }
}

/// Puts the outputs that the coinbase and the transactions create into
/// `utxos`.
#[verifier::loop_isolation(false)]
fn put_outputs(
    utxos: &mut Table<Output>,
    merkle_root: MerkleRoot,
    coinbase: &Vec<Output>,
    filled: &Vec<FilledTransaction>,
)
    requires
        coinbase@.len() <= u32::MAX,
        forall|k: int| 0 <= k < filled@.len() ==> (#[trigger] filled@[k])@.transaction.encodable(),
    ensures
        final(utxos)@ == put_all(
            old(utxos)@,
            utxo_puts(merkle_root, coinbase@, views_of(filled@), filled@.len() as int),
        ),
{
    let ghost views = views_of(filled@);
    let ghost mut done: Seq<(Seq<u8>, Output)> = Seq::empty();
    let mut vout: usize = 0;
    while vout < coinbase.len()
        invariant
            vout <= coinbase@.len(),
            done == coinbase_entries(merkle_root, coinbase@).take(vout as int),
            utxos@ == put_all(old(utxos)@, done),
        decreases coinbase@.len() - vout,
    {
        let outpoint = OutPoint::Coinbase { merkle_root, vout: vout as u32 };
        let key = OutPointKey::from_outpoint(&outpoint);
        utxos.put(key.as_bytes().as_slice(), coinbase[vout]);
        proof {
            assert(done.push((key@, coinbase@[vout as int])).drop_last() =~= done);
            done = done.push((key@, coinbase@[vout as int]));
        }
        vout += 1;
        assert(done =~= coinbase_entries(merkle_root, coinbase@).take(vout as int));
    }
    assert(coinbase_entries(merkle_root, coinbase@).take(vout as int) =~= coinbase_entries(
        merkle_root,
        coinbase@,
    ));
    let mut k: usize = 0;
    while k < filled.len()
        invariant
            k <= filled@.len(),
            done == utxo_puts(merkle_root, coinbase@, views, k as int),
            utxos@ == put_all(old(utxos)@, done),
        decreases filled@.len() - k,
    {
        let transaction = &filled[k].transaction;
        assert(views[k as int].transaction == transaction@);
        let txid = transaction.txid();
        let outputs = &transaction.outputs;
        let ghost before = done;
        let mut vout: usize = 0;
        while vout < outputs.len()
            invariant
                vout <= outputs@.len(),
                done == before + output_entries(txid, outputs@).take(vout as int),
                utxos@ == put_all(old(utxos)@, done),
            decreases outputs@.len() - vout,
        {
            let outpoint = OutPoint::Regular { txid, vout: vout as u32 };
            let key = OutPointKey::from_outpoint(&outpoint);
            utxos.put(key.as_bytes().as_slice(), outputs[vout]);
            proof {
                assert(done.push((key@, outputs@[vout as int])).drop_last() =~= done);
                done = done.push((key@, outputs@[vout as int]));
            }
            vout += 1;
            assert(done =~= before + output_entries(txid, outputs@).take(vout as int));
        }
        assert(output_entries(txid, outputs@).take(vout as int) =~= output_entries(
            txid,
            outputs@,
        ));
        k += 1;
    }
}

/// Why connecting a validated block fails, if it does: a shielded part
/// cannot be connected, or the accumulator does not take the block.
pub open spec fn spec_connect_failure(state: StateView, prevalidated: PrevalidatedBlockView) -> Option<
    error::ConnectBlock,
> {
    match orchard_after(
        state.orchard.frontier.leaves(),
        state.orchard.nullifiers,
        prevalidated.filled_transactions,
        prevalidated.filled_transactions.len() as int,
    ) {
        Err((txid, error)) => Some(
            error::ConnectBlock::ConnectTransaction {
                txid,
                source: error::ConnectTransaction::Orchard(error),
            },
        ),
        Ok(_) => if state.accumulator.roots_after(prevalidated.accumulator_diff) is None {
            Some(error::ConnectBlock::Utreexo(UtreexoError))
        } else {
            None
        },
    }
}

/// The state `after` is what connecting a validated block makes of the
/// state `before`: the block is the tip, the spent outputs have moved from
/// the unspent to the spent, the created outputs are unspent, the
/// accumulator has taken the block, the shielded parts are connected, and
/// the root of the note commitment tree is among the historical roots.
pub open spec fn connected(
    before: StateView,
    after: StateView,
    header: Header,
    coinbase: Seq<Output>,
    prevalidated: PrevalidatedBlockView,
) -> bool {
    let filled = prevalidated.filled_transactions;
    let count = filled.len() as int;
    let root = after.orchard.frontier.spec_root();
    &&& after.tip == Some(header.spec_hash())
    &&& after.height == Some(prevalidated.next_height)
    &&& after.utxos == put_all(
        remove_all(before.utxos, input_keys(filled, count)),
        utxo_puts(prevalidated.computed_merkle_root, coinbase, filled, count),
    )
    &&& after.stxos == put_all(before.stxos, stxo_puts(filled, count))
    &&& after.peg == before.peg
    &&& Some(after.accumulator) == before.accumulator.after(prevalidated.accumulator_diff)
    &&& orchard_after(before.orchard.frontier.leaves(), before.orchard.nullifiers, filled, count)
        == Ok::<(Seq<hashes::Hash>, Set<Seq<u8>>), (Txid, error::Orchard)>(
        (after.orchard.frontier.leaves(), after.orchard.nullifiers),
    )
    &&& after.orchard.historical_roots == (if before.orchard.historical_roots.contains_key(root@) {
        before.orchard.historical_roots
    } else {
        before.orchard.historical_roots.insert(root@, header.spec_hash())
    })
}

/// Connects a block that was validated against this state: only writes, no
/// check is made again. Gives back the frontier of the note commitment
/// tree where its root is a new one, to be kept for disconnecting. Where
/// connecting fails the state stays as it was.
pub fn connect_prevalidated(
    state: &mut State,
    header: &Header,
    body: &Body,
    prevalidated: PrevalidatedBlock,
) -> (r: Result<Option<NoteFrontier>, error::ConnectBlock>)
    requires
        header.encodable(),
        body.coinbase@.len() <= u32::MAX,
        prevalidated@.well_formed(),
    ensures
        match r {
            Ok(saved) => {
                &&& spec_connect_failure(old(state)@, prevalidated@) is None
                &&& connected(old(state)@, final(state)@, *header, body.coinbase@, prevalidated@)
                &&& saved is Some == !old(state)@.orchard.historical_roots.contains_key(
                    final(state)@.orchard.frontier.spec_root()@,
                )
                &&& saved matches Some(frontier) ==> frontier == final(state)@.orchard.frontier
            },
            Err(error) => {
                &&& spec_connect_failure(old(state)@, prevalidated@) == Some(error)
                &&& final(state)@ == old(state)@
            },
        },
{
    let ghost views = views_of(prevalidated.filled_transactions@);
    assert(views =~= prevalidated@.filled_transactions);
    assert forall|k: int| 0 <= k < prevalidated.filled_transactions@.len() implies {
        &&& (#[trigger] prevalidated.filled_transactions@[k])@.transaction.encodable()
        &&& prevalidated.filled_transactions@[k]@.spent_utxos.len()
            == prevalidated.filled_transactions@[k]@.transaction.inputs.len()
    } by {
        assert(prevalidated@.filled_transactions[k] == prevalidated.filled_transactions@[k]@);
    }
    let mut orchard = state.orchard.copy();
    match connect_orchard_all(&mut orchard, &prevalidated.filled_transactions) {
        Ok(()) => {},
        Err((txid, error)) => {
            return Err(
                error::ConnectBlock::ConnectTransaction {
                    txid,
                    source: error::ConnectTransaction::Orchard(error),
                },
            );
        },
    }
    match state.utreexo_accumulator.apply_diff(prevalidated.accumulator_diff) {
        Ok(()) => {},
        Err(error) => {
            return Err(error::ConnectBlock::Utreexo(error));
        },
    }
    delete_inputs(&mut state.utxos, &prevalidated.filled_transactions);
    put_spent(&mut state.stxos, &prevalidated.filled_transactions);
    put_outputs(
        &mut state.utxos,
        prevalidated.computed_merkle_root,
        &body.coinbase,
        &prevalidated.filled_transactions,
    );
    let block_hash = header.hash();
    state.tip = Some(block_hash);
    state.height = Some(prevalidated.next_height);
    let root = orchard.frontier().root();
    let changed = orchard.put_historical_root(block_hash, root);
    let saved = if changed {
        Some(orchard.frontier().copy())
    } else {
        None
    };
    state.orchard = orchard;
    Ok(saved)
}


/// What validating a block keeps is well formed, and the coinbase of a
/// block that validates is short enough to be encoded.
pub proof fn lemma_prevalidated_well_formed(
    state: StateView,
    header: Header,
    body: Body,
    verdicts: Seq<OrchardVerdict>,
)
    requires
        spec_prevalidate(state, header, body, verdicts) is Ok,
    ensures
        spec_prevalidate(state, header, body, verdicts)->Ok_0.well_formed(),
        body.coinbase@.len() <= u32::MAX,
        body.encodable(),
{
    let prevalidated = spec_prevalidate(state, header, body, verdicts)->Ok_0;
    assert(prevalidated.filled_transactions == filled_views(state.utxos, body.transactions@));
    assert forall|k: int| 0 <= k < prevalidated.filled_transactions.len() implies {
        &&& (#[trigger] prevalidated.filled_transactions[k]).transaction.encodable()
        &&& prevalidated.filled_transactions[k].spent_utxos.len()
            == prevalidated.filled_transactions[k].transaction.inputs.len()
    } by {
        assert(body.transactions@[k].encodable());
    }
}

/// Validates a block against the state and, where it holds, connects it.
/// `verdicts` holds for each transaction how the signature and proof of its
/// shielded part fared. Gives back the frontier of the note commitment tree
/// where its root is a new one, to be kept for disconnecting. Where the
/// block is refused the state stays as it was.
pub fn connect(state: &mut State, header: &Header, body: &Body, verdicts: &Vec<OrchardVerdict>) -> (r:
    Result<Option<NoteFrontier>, Error>)
    requires
        old(state)@.height != Some(u32::MAX),
        header.encodable(),
    ensures
        match spec_prevalidate(old(state)@, *header, *body, verdicts@) {
            Err(error) => r == Err::<Option<NoteFrontier>, Error>(error) && final(state)@ == old(state)@,
            Ok(prevalidated) => match r {
                Ok(saved) => {
                    &&& spec_connect_failure(old(state)@, prevalidated) is None
                    &&& connected(
                        old(state)@,
                        final(state)@,
                        *header,
                        body.coinbase@,
                        prevalidated,
                    )
                    &&& saved is Some == !old(state)@.orchard.historical_roots.contains_key(
                        final(state)@.orchard.frontier.spec_root()@,
                    )
                    &&& saved matches Some(frontier) ==> frontier == final(state)@.orchard.frontier
                },
                Err(error) => {
                    &&& spec_connect_failure(old(state)@, prevalidated) matches Some(failure)
                    &&& error == Error::ConnectBlock(failure)
                    &&& final(state)@ == old(state)@
                },
            },
        },
{
    let prevalidated = match prevalidate(state, header, body, verdicts) {
        Ok(prevalidated) => prevalidated,
        Err(error) => {
            return Err(error);
        },
    };
    proof {
        lemma_prevalidated_well_formed(state@, *header, *body, verdicts@);
    }
    match connect_prevalidated(state, header, body, prevalidated) {
        Ok(saved) => Ok(saved),
        Err(error) => Err(Error::ConnectBlock(error)),
    }
}


/// The unspent outputs, the spent outputs and the nullifiers of a state.
pub struct Ledger {
    pub utxos: Map<Seq<u8>, Output>,
    pub stxos: Map<Seq<u8>, SpentOutput>,
    pub nullifiers: Set<Seq<u8>>,
}

/// The list from its last item to its first.
pub open spec fn reversed<T>(items: Seq<T>) -> Seq<T> {
    Seq::new(items.len(), |i: int| items[items.len() - 1 - i])
}

/// The outpoints of the first `count` outputs of the transaction `txid`.
pub open spec fn output_outpoints(txid: Txid, count: nat) -> Seq<OutPoint> {
    Seq::new(count, |i: int| OutPoint::Regular { txid, vout: i as u32 })
}

/// The outpoints of the first `count` outputs of a coinbase.
pub open spec fn coinbase_outpoints(merkle_root: MerkleRoot, count: nat) -> Seq<OutPoint> {
    Seq::new(count, |i: int| OutPoint::Coinbase { merkle_root, vout: i as u32 })
}

/// The outpoints that the inputs spend.
pub open spec fn input_outpoints(inputs: Seq<(OutPoint, hashes::Hash)>) -> Seq<OutPoint> {
    Seq::new(inputs.len(), |i: int| inputs[i].0)
}

/// The unspent outputs without those at `outpoints`, taken out from the
/// last to the first; or the first outpoint met at which there is none.
pub open spec fn unput(utxos: Map<Seq<u8>, Output>, outpoints: Seq<OutPoint>) -> Result<
    Map<Seq<u8>, Output>,
    OutPoint,
>
    decreases outpoints.len(),
{
    if outpoints.len() == 0 {
        Ok(utxos)
    } else if !utxos.contains_key(outpoints.last().key_bytes()) {
        Err(outpoints.last())
    } else {
        unput(utxos.remove(outpoints.last().key_bytes()), outpoints.drop_last())
    }
}

/// The unspent and the spent outputs once the outputs at `outpoints` have
/// moved back from the spent to the unspent, from the last to the first; or
/// the first outpoint met at which there is no spent output.
pub open spec fn unspend(
    utxos: Map<Seq<u8>, Output>,
    stxos: Map<Seq<u8>, SpentOutput>,
    outpoints: Seq<OutPoint>,
) -> Result<(Map<Seq<u8>, Output>, Map<Seq<u8>, SpentOutput>), OutPoint>
    decreases outpoints.len(),
{
    if outpoints.len() == 0 {
        Ok((utxos, stxos))
    } else {
        let key = outpoints.last().key_bytes();
        if !stxos.contains_key(key) {
            Err(outpoints.last())
        } else {
            unspend(utxos.insert(key, stxos[key].output), stxos.remove(key), outpoints.drop_last())
        }
    }
}

/// The set `seen` without the first `n` nullifiers of the list.
pub open spec fn without_all(seen: Set<Seq<u8>>, nullifiers: Seq<hashes::Hash>, n: int) -> Set<Seq<u8>>
    decreases n,
{
    if n <= 0 {
        seen
    } else {
        without_all(seen, nullifiers, n - 1).remove(nullifiers[n - 1]@)
    }
}

/// What disconnecting a transaction makes of a ledger: its nullifiers are
/// forgotten, its outputs leave the unspent, the outputs that it spent come
/// back.
pub open spec fn spec_disconnect_transaction(ledger: Ledger, transaction: TransactionView) -> Result<
    Ledger,
    Error,
> {
    let nullifiers = match transaction.orchard_bundle {
        Some(bundle) => without_all(
            ledger.nullifiers,
            bundle.nullifiers,
            bundle.nullifiers.len() as int,
        ),
        None => ledger.nullifiers,
    };
    match unput(ledger.utxos, output_outpoints(transaction.txid(), transaction.outputs.len())) {
        Err(outpoint) => Err(Error::NoUtxo(NoUtxo { outpoint })),
        Ok(utxos) => match unspend(utxos, ledger.stxos, input_outpoints(transaction.inputs)) {
            Err(outpoint) => Err(Error::NoStxo { outpoint }),
            Ok((utxos, stxos)) => Ok(Ledger { utxos, stxos, nullifiers }),
        },
    }
}

/// What disconnecting the first `n` transactions makes of a ledger, the
/// last of them first.
pub open spec fn disconnect_transactions(ledger: Ledger, transactions: Seq<Transaction>, n: int) -> Result<
    Ledger,
    Error,
>
    decreases n,
{
    if n <= 0 {
        Ok(ledger)
    } else {
        match spec_disconnect_transaction(ledger, transactions[n - 1]@) {
            Err(error) => Err(error),
            Ok(next) => disconnect_transactions(next, transactions, n - 1),
        }
    }
}

/// The leaves that disconnecting the transactions from number `from` on
/// takes out of the accumulator: the outputs of the last transaction first,
/// and of each transaction the last output first.
pub open spec fn undo_deletions(transactions: Seq<Transaction>, from: int) -> Seq<hashes::Hash>
    decreases transactions.len() - from,
{
    if from < 0 || from >= transactions.len() {
        Seq::empty()
    } else {
        undo_deletions(transactions, from + 1) + reversed(
            output_leaves(transactions[from]@.txid(), transactions[from].outputs@),
        )
    }
}

/// The leaves that disconnecting the transactions from number `from` on
/// puts back into the accumulator: the inputs of the last transaction
/// first, and of each transaction the last input first.
pub open spec fn undo_insertions(transactions: Seq<Transaction>, from: int) -> Seq<hashes::Hash>
    decreases transactions.len() - from,
{
    if from < 0 || from >= transactions.len() {
        Seq::empty()
    } else {
        undo_insertions(transactions, from + 1) + reversed(
            input_leaves(transactions[from].inputs@),
        )
    }
}

/// What disconnecting a block does to the accumulator.
pub open spec fn undo_diff(body: Body) -> AccumulatorDiffView {
    AccumulatorDiffView {
        insertions: undo_insertions(body.transactions@, 0),
        deletions: undo_deletions(body.transactions@, 0) + reversed(
            coinbase_leaves(body.spec_merkle_root(), body.coinbase@),
        ),
    }
}

/// The tip and the height below a block of height `height` that builds on
/// `prev_side_hash`, where the two fit together: the first block has height
/// 0 and builds on nothing.
pub open spec fn tip_below(prev_side_hash: Option<BlockHash>, height: Option<u32>) -> Option<
    (Option<BlockHash>, Option<u32>),
> {
    match (prev_side_hash, height) {
        (None, Some(height)) => if height == 0 {
            Some((None, None))
        } else {
            None
        },
        (Some(prev), Some(height)) => if height == 0 {
            None
        } else {
            Some((Some(prev), Some((height - 1) as u32)))
        },
        (_, None) => None,
    }
}

/// What disconnecting the block at the tip comes to: the state below the
/// block, or the first thing that does not fit. The accumulator of the
/// state below is `prev_accumulator`, and its frontier `prev_frontier`
/// where one is given.
pub open spec fn spec_disconnect_tip(
    state: StateView,
    header: Header,
    body: Body,
    prev_accumulator: AccumulatorView,
    prev_frontier: Option<NoteFrontier>,
) -> Result<StateView, Error> {
    let merkle_root = body.spec_merkle_root();
    let ledger = Ledger {
        utxos: state.utxos,
        stxos: state.stxos,
        nullifiers: state.orchard.nullifiers,
    };
    match state.tip {
        None => Err(Error::NoTip),
        Some(tip) => if tip != header.spec_hash() {
            Err(
                Error::InvalidHeader(
                    InvalidHeader::BlockHash { expected: tip, computed: header.spec_hash() },
                ),
            )
        } else if merkle_root != header.merkle_root {
            Err(
                Error::InvalidBody(
                    InvalidBody { expected: merkle_root, computed: header.merkle_root },
                ),
            )
        } else {
            match disconnect_transactions(
                ledger,
                body.transactions@,
                body.transactions@.len() as int,
            ) {
                Err(error) => Err(error),
                Ok(ledger) => match unput(
                    ledger.utxos,
                    coinbase_outpoints(merkle_root, body.coinbase@.len()),
                ) {
                    Err(outpoint) => Err(Error::NoUtxo(NoUtxo { outpoint })),
                    Ok(utxos) => match tip_below(header.prev_side_hash, state.height) {
                        None => Err(Error::NoTip),
                        Some((tip_hash, height)) => if state.accumulator.roots_after(
                            undo_diff(body),
                        ) is None {
                            Err(Error::Utreexo(UtreexoError))
                        } else {
                            Ok(
                                StateView {
                                    tip: tip_hash,
                                    height,
                                    utxos,
                                    stxos: ledger.stxos,
                                    peg: state.peg,
                                    orchard: OrchardView {
                                        frontier: match prev_frontier {
                                            Some(frontier) => frontier,
                                            None => state.orchard.frontier,
                                        },
                                        historical_roots: without_block(
                                            state.orchard.historical_roots,
                                            tip,
                                        ),
                                        nullifiers: ledger.nullifiers,
                                    },
                                    accumulator: prev_accumulator,
                                },
                            )
                        },
                    },
                },
            }
        },
    }
}

/// Takes the outputs at `outpoints` out of `utxos`, from the last to the
/// first, and writes into `diff` that their leaves go.
#[verifier::loop_isolation(false)]
fn delete_outputs(
    utxos: &mut Table<Output>,
    outpoints: &Vec<OutPoint>,
    outputs: &Vec<Output>,
    diff: &mut AccumulatorDiff,
) -> (r: Result<(), OutPoint>)
    requires
        outpoints@.len() == outputs@.len(),
    ensures
        match (r, unput(old(utxos)@, outpoints@)) {
            (Ok(()), Ok(left)) => final(utxos)@ == left,
            (Err(outpoint), Err(expected)) => outpoint == expected,
            _ => false,
        },
        final(diff)@.insertions == old(diff)@.insertions,
        r is Ok ==> final(diff)@.deletions == old(diff)@.deletions + reversed(
            Seq::new(outputs@.len(), |i: int| leaf_hash(outpoints@[i], outputs@[i])),
        ),
{
    let ghost leaves = Seq::new(outputs@.len(), |i: int| leaf_hash(outpoints@[i], outputs@[i]));
    let count = outpoints.len();
    let mut i: usize = count;
    assert(outpoints@.take(count as int) =~= outpoints@);
    while i > 0
        invariant
            i <= count,
            unput(old(utxos)@, outpoints@) == unput(utxos@, outpoints@.take(i as int)),
            diff@.insertions == old(diff)@.insertions,
            diff@.deletions == old(diff)@.deletions + reversed(leaves).take(count - i),
        decreases i,
    {
        i -= 1;
        let outpoint = outpoints[i];
        let pointed = PointedOutput { outpoint, output: outputs[i] };
        diff.remove(pointed.node_hash());
        let key = OutPointKey::from_outpoint(&outpoint);
        proof {
            assert(outpoints@.take(i + 1).last() == outpoint);
            assert(outpoints@.take(i + 1).drop_last() =~= outpoints@.take(i as int));
            assert(diff@.deletions =~= old(diff)@.deletions + reversed(leaves).take(count - i));
        }
        if !utxos.delete(key.as_bytes().as_slice()) {
            return Err(outpoint);
        }
    }
    assert(reversed(leaves).take(count as int) =~= reversed(leaves));
    Ok(())
}


/// The outpoints of the first `count` outputs of the transaction `txid`.
fn list_output_outpoints(txid: Txid, count: usize) -> (outpoints: Vec<OutPoint>)
    requires
        count <= u32::MAX,
    ensures
        outpoints@ == output_outpoints(txid, count as nat),
{
    let mut outpoints: Vec<OutPoint> = Vec::new();
    let mut vout: usize = 0;
    while vout < count
        invariant
            vout <= count <= u32::MAX,
            outpoints@ == output_outpoints(txid, vout as nat),
        decreases count - vout,
    {
        outpoints.push(OutPoint::Regular { txid, vout: vout as u32 });
        vout += 1;
        assert(outpoints@ =~= output_outpoints(txid, vout as nat));
    }
    outpoints
}

/// The outpoints of the first `count` outputs of a coinbase.
fn list_coinbase_outpoints(merkle_root: MerkleRoot, count: usize) -> (outpoints: Vec<OutPoint>)
    requires
        count <= u32::MAX,
    ensures
        outpoints@ == coinbase_outpoints(merkle_root, count as nat),
{
    let mut outpoints: Vec<OutPoint> = Vec::new();
    let mut vout: usize = 0;
    while vout < count
        invariant
            vout <= count <= u32::MAX,
            outpoints@ == coinbase_outpoints(merkle_root, vout as nat),
        decreases count - vout,
    {
        outpoints.push(OutPoint::Coinbase { merkle_root, vout: vout as u32 });
        vout += 1;
        assert(outpoints@ =~= coinbase_outpoints(merkle_root, vout as nat));
    }
    outpoints
}

/// Moves the outputs that `inputs` spent back from `stxos` to `utxos`, from
/// the last to the first, and writes into `diff` that their leaves come
/// back.
#[verifier::loop_isolation(false)]
fn restore_inputs(
    utxos: &mut Table<Output>,
    stxos: &mut Table<SpentOutput>,
    inputs: &Vec<(OutPoint, hashes::Hash)>,
    diff: &mut AccumulatorDiff,
) -> (r: Result<(), OutPoint>)
    ensures
        match (r, unspend(old(utxos)@, old(stxos)@, input_outpoints(inputs@))) {
            (Ok(()), Ok((unspent, spent))) => final(utxos)@ == unspent && final(stxos)@ == spent,
            (Err(outpoint), Err(expected)) => outpoint == expected,
            _ => false,
        },
        final(diff)@.deletions == old(diff)@.deletions,
        r is Ok ==> final(diff)@.insertions == old(diff)@.insertions + reversed(
            input_leaves(inputs@),
        ),
{
    let ghost outpoints = input_outpoints(inputs@);
    let ghost leaves = input_leaves(inputs@);
    let count = inputs.len();
    let mut i: usize = count;
    assert(outpoints.take(count as int) =~= outpoints);
    while i > 0
        invariant
            i <= count,
            unspend(old(utxos)@, old(stxos)@, outpoints) == unspend(
                utxos@,
                stxos@,
                outpoints.take(i as int),
            ),
            diff@.deletions == old(diff)@.deletions,
            diff@.insertions == old(diff)@.insertions + reversed(leaves).take(count - i),
        decreases i,
    {
        i -= 1;
        let outpoint = inputs[i].0;
        let key = OutPointKey::from_outpoint(&outpoint);
        proof {
            assert(outpoints.take(i + 1).last() == outpoint);
            assert(outpoints.take(i + 1).drop_last() =~= outpoints.take(i as int));
        }
        match stxos.take(key.as_bytes().as_slice()) {
            Some(spent) => {
                diff.insert(inputs[i].1);
                utxos.put(key.as_bytes().as_slice(), spent.output);
                assert(diff@.insertions =~= old(diff)@.insertions + reversed(leaves).take(
                    count - i,
                ));
            },
            None => {
                return Err(outpoint);
            },
        }
    }
    assert(reversed(leaves).take(count as int) =~= reversed(leaves));
    Ok(())
}

/// Forgets the nullifiers of a bundle.
pub fn disconnect_orchard(orchard: &mut Orchard, bundle: &OrchardBundle)
    ensures
        final(orchard)@ == (OrchardView {
            nullifiers: without_all(
                old(orchard)@.nullifiers,
                bundle@.nullifiers,
                bundle@.nullifiers.len() as int,
            ),
            ..old(orchard)@
        }),
{
    let mut j: usize = 0;
    while j < bundle.nullifiers.len()
        invariant
            j <= bundle.nullifiers@.len(),
            orchard@ == (OrchardView {
                nullifiers: without_all(old(orchard)@.nullifiers, bundle.nullifiers@, j as int),
                ..old(orchard)@
            }),
        decreases bundle.nullifiers@.len() - j,
    {
        orchard.delete_nullifier(&bundle.nullifiers[j]);
        j += 1;
    }
}

/// Disconnects a transaction: forgets its nullifiers, takes its outputs out
/// of the unspent, moves the outputs that it spent back, and writes into
/// `diff` what that does to the accumulator. Where it fails, the tables are
/// left with part of the transaction disconnected.
fn disconnect_transaction(
    utxos: &mut Table<Output>,
    stxos: &mut Table<SpentOutput>,
    orchard: &mut Orchard,
    transaction: &Transaction,
    diff: &mut AccumulatorDiff,
) -> (r: Result<(), Error>)
    requires
        transaction@.encodable(),
    ensures
        match (
            r,
            spec_disconnect_transaction(
                Ledger {
                    utxos: old(utxos)@,
                    stxos: old(stxos)@,
                    nullifiers: old(orchard)@.nullifiers,
                },
                transaction@,
            ),
        ) {
            (Ok(()), Ok(ledger)) => {
                &&& final(utxos)@ == ledger.utxos
                &&& final(stxos)@ == ledger.stxos
                &&& final(orchard)@ == (OrchardView {
                    nullifiers: ledger.nullifiers,
                    ..old(orchard)@
                })
                &&& final(diff)@.deletions == old(diff)@.deletions + reversed(
                    output_leaves(transaction@.txid(), transaction.outputs@),
                )
                &&& final(diff)@.insertions == old(diff)@.insertions + reversed(
                    input_leaves(transaction.inputs@),
                )
            },
            (Err(error), Err(expected)) => error == expected,
            _ => false,
        },
{
    match &transaction.orchard_bundle {
        Some(bundle) => {
            disconnect_orchard(orchard, bundle);
        },
        None => {},
    }
    let txid = transaction.txid();
    let outpoints = list_output_outpoints(txid, transaction.outputs.len());
    match delete_outputs(utxos, &outpoints, &transaction.outputs, diff) {
        Ok(()) => {},
        Err(outpoint) => {
            return Err(Error::NoUtxo(NoUtxo { outpoint }));
        },
    }
    assert(Seq::new(
        transaction.outputs@.len(),
        |i: int| leaf_hash(outpoints@[i], transaction.outputs@[i]),
    ) =~= output_leaves(txid, transaction.outputs@));
    match restore_inputs(utxos, stxos, &transaction.inputs, diff) {
        Ok(()) => Ok(()),
        Err(outpoint) => Err(Error::NoStxo { outpoint }),
    }
}

/// Disconnects the block at the tip. `prev_accumulator` is the accumulator
/// as it was before the block, and `prev_frontier` the frontier of the
/// note commitment tree before the block where the block changed it: the
/// two are put back, not computed. Where disconnecting fails the state
/// stays as it was.
#[verifier::loop_isolation(false)]
pub fn disconnect_tip(
    state: &mut State,
    header: &Header,
    body: &Body,
    prev_accumulator: &Accumulator,
    prev_frontier: Option<&NoteFrontier>,
) -> (r: Result<(), Error>)
    requires
        header.encodable(),
        body.encodable(),
    ensures
        match (
            r,
            spec_disconnect_tip(
                old(state)@,
                *header,
                *body,
                prev_accumulator@,
                match prev_frontier {
                    Some(frontier) => Some(*frontier),
                    None => None,
                },
            ),
        ) {
            (Ok(()), Ok(below)) => final(state)@ == below,
            (Err(error), Err(expected)) => error == expected && final(state)@ == old(state)@,
            _ => false,
        },
{
    let tip_hash = match state.tip {
        Some(tip_hash) => tip_hash,
        None => {
            return Err(Error::NoTip);
        },
    };
    let block_hash = header.hash();
    if !hash_equal(&tip_hash.0, &block_hash.0) {
        return Err(
            Error::InvalidHeader(
                InvalidHeader::BlockHash { expected: tip_hash, computed: block_hash },
            ),
        );
    }
    let merkle_root = body.compute_merkle_root();
    if !hash_equal(&merkle_root.0, &header.merkle_root.0) {
        return Err(
            Error::InvalidBody(InvalidBody { expected: merkle_root, computed: header.merkle_root }),
        );
    }
    let mut utxos = state.utxos.copy();
    let mut stxos = state.stxos.copy();
    let mut orchard = state.orchard.copy();
    let mut diff = AccumulatorDiff::default();
    let ghost start = Ledger {
        utxos: state@.utxos,
        stxos: state@.stxos,
        nullifiers: state@.orchard.nullifiers,
    };
    let count = body.transactions.len();
    let mut k: usize = count;
    while k > 0
        invariant
            k <= count == body.transactions@.len(),
            body.encodable(),
            orchard@.frontier == state@.orchard.frontier,
            orchard@.historical_roots == state@.orchard.historical_roots,
            disconnect_transactions(start, body.transactions@, count as int)
                == disconnect_transactions(
                Ledger { utxos: utxos@, stxos: stxos@, nullifiers: orchard@.nullifiers },
                body.transactions@,
                k as int,
            ),
            diff@.deletions == undo_deletions(body.transactions@, k as int),
            diff@.insertions == undo_insertions(body.transactions@, k as int),
        decreases k,
    {
        k -= 1;
        assert(body.transactions@[k as int].encodable());
        match disconnect_transaction(
            &mut utxos,
            &mut stxos,
            &mut orchard,
            &body.transactions[k],
            &mut diff,
        ) {
            Ok(()) => {},
            Err(error) => {
                return Err(error);
            },
        }
    }
    let outpoints = list_coinbase_outpoints(merkle_root, body.coinbase.len());
    match delete_outputs(&mut utxos, &outpoints, &body.coinbase, &mut diff) {
        Ok(()) => {},
        Err(outpoint) => {
            return Err(Error::NoUtxo(NoUtxo { outpoint }));
        },
    }
    assert(Seq::new(
        body.coinbase@.len(),
        |i: int| leaf_hash(outpoints@[i], body.coinbase@[i]),
    ) =~= coinbase_leaves(merkle_root, body.coinbase@));
    assert(diff@ == undo_diff(*body));
    let (tip_below, height_below): (Option<BlockHash>, Option<u32>) = match (
        header.prev_side_hash,
        state.height,
    ) {
        (None, Some(height)) => {
            if height != 0 {
                return Err(Error::NoTip);
            }
            (None, None)
        },
        (Some(prev), Some(height)) => {
            if height == 0 {
                return Err(Error::NoTip);
            }
            (Some(prev), Some(height - 1))
        },
        (_, None) => {
            return Err(Error::NoTip);
        },
    };
    match state.utreexo_accumulator.roots_with(&diff) {
        Ok(_) => {},
        Err(error) => {
            return Err(Error::Utreexo(error));
        },
    }
    match prev_frontier {
        Some(frontier) => {
            orchard.put_frontier(frontier.copy());
        },
        None => {},
    }
    orchard.delete_historical_root(tip_hash);
    state.tip = tip_below;
    state.height = height_below;
    state.utxos = utxos;
    state.stxos = stxos;
    state.orchard = orchard;
    state.utreexo_accumulator = prev_accumulator.copy();
    Ok(())
}


/// There is one spent output for each input of the transactions.
pub proof fn lemma_flat_spent_len(utxos: Map<Seq<u8>, Output>, transactions: Seq<Transaction>, n: int)
    requires
        0 <= n <= transactions.len(),
    ensures
        flat_spent(filled_views(utxos, transactions), n).len() == flat_inputs(transactions, n).len(),
    decreases n,
{
    if n > 0 {
        lemma_flat_spent_len(utxos, transactions, n - 1);
    }
}

/// A block that validates has one authorization for each input of its
/// transactions, and each authorization is by the key of the address of
/// the output that its input spends.
pub proof fn lemma_valid_block_authorized(
    state: StateView,
    header: Header,
    body: Body,
    verdicts: Seq<OrchardVerdict>,
)
    requires
        spec_validate(state, header, body, verdicts) is Ok,
    ensures
        body.authorizations@.len() == total_inputs(body.transactions@),
        flat_spent(
            filled_views(state.utxos, body.transactions@),
            body.transactions@.len() as int,
        ).len() == body.authorizations@.len(),
        forall|i: int|
            0 <= i < body.authorizations@.len() ==> address_of(
                (#[trigger] body.authorizations@[i]).verifying_key@,
            ) == flat_spent(
                filled_views(state.utxos, body.transactions@),
                body.transactions@.len() as int,
            )[i].address.0@,
{
    lemma_flat_spent_len(state.utxos, body.transactions@, body.transactions@.len() as int);
}

/// Once a block that validates is connected, the roots of the accumulator
/// are the roots that the header of the block names.
pub proof fn lemma_connected_roots(
    before: StateView,
    after: StateView,
    header: Header,
    body: Body,
    verdicts: Seq<OrchardVerdict>,
)
    requires
        spec_prevalidate(before, header, body, verdicts) is Ok,
        connected(
            before,
            after,
            header,
            body.coinbase@,
            spec_prevalidate(before, header, body, verdicts)->Ok_0,
        ),
    ensures
        after.accumulator.roots() == header.roots@,
{
}

/// The leaves that the coinbase and the first `n` transactions of a body
/// add to the accumulator, in order.
pub open spec fn body_insertions(body: Body, n: int) -> Seq<hashes::Hash>
    decreases n,
{
    if n <= 0 {
        coinbase_leaves(body.spec_merkle_root(), body.coinbase@)
    } else {
        body_insertions(body, n - 1) + output_leaves(
            body.transactions@[n - 1]@.txid(),
            body.transactions@[n - 1].outputs@,
        )
    }
}

/// The leaves that the first `n` transactions of a body take out of the
/// accumulator, in order.
pub open spec fn body_deletions(body: Body, n: int) -> Seq<hashes::Hash>
    decreases n,
{
    if n <= 0 {
        Seq::empty()
    } else {
        body_deletions(body, n - 1) + input_leaves(body.transactions@[n - 1].inputs@)
    }
}

/// What connecting a body does to the accumulator.
pub open spec fn body_diff(body: Body) -> AccumulatorDiffView {
    AccumulatorDiffView {
        insertions: body_insertions(body, body.transactions@.len() as int),
        deletions: body_deletions(body, body.transactions@.len() as int),
    }
}

/// What a block does to the accumulator does not depend on the outputs
/// that it spends: it is what its body does.
pub proof fn lemma_block_diff_of_body(utxos: Map<Seq<u8>, Output>, body: Body, n: int)
    requires
        0 <= n <= body.transactions@.len(),
    ensures
        block_insertions(
            body.spec_merkle_root(),
            body.coinbase@,
            filled_views(utxos, body.transactions@),
            n,
        ) == body_insertions(body, n),
        block_deletions(filled_views(utxos, body.transactions@), n) == body_deletions(body, n),
    decreases n,
{
    if n > 0 {
        lemma_block_diff_of_body(utxos, body, n - 1);
    }
}

} // verus!
