//! The ledger state and the rules by which blocks change it.

pub mod block;
pub mod error;
pub mod limits;
pub mod orchard;
pub mod reorg;
pub mod rollback;
pub mod two_way_peg;

use crate::authorization::{
    address_of, spec_verify_authorized_transaction, Authorization, OrchardVerdict,
};
use crate::state::block::input_leaves;
use crate::state::error::{Error, NoUtxo};
use crate::state::orchard::{Orchard, OrchardView};
use crate::state::rollback::RollBack;
use crate::state::two_way_peg::{
    last_block_hash, BundleRecord, BundleRecordView, TwoWayPegView, WithdrawalBundle,
};
use crate::table::{sorted_keys, Table};
use crate::types::bytes::lex_less;
use crate::types::accumulator::{Accumulator, AccumulatorView, UtreexoError};
use crate::types::hashes::{self, hash_equal, BlockHash, Canonical, M6id};
use crate::types::header::Header;
use crate::types::orchard::{empty_tree, empty_tree_anchor, NoteFrontier};
use crate::types::transaction::{
    is_key_bytes, leaf_hash, sum_values, total_value, Amount, AmountOverflowError,
    AuthorizedTransaction, AuthorizedTransactionView, Body, FilledTransaction,
    FilledTransactionView, GetValue, InPoint, OrchardBundleView, OutPoint, OutPointKey, Output,
    PointedOutput, Proof, ProofView, SpentOutput, Transaction, TransactionView, TransparentAddress,
};
use vstd::prelude::*;

verus! {

/// The ledger state: the tip of the chain and its height, the unspent and
/// the spent outputs, what is kept of the two-way peg, the shielded state,
/// and the accumulator of the unspent outputs.
pub struct State {
    tip: Option<BlockHash>,
    height: Option<u32>,
    /// The unspent outputs, by the key of their outpoint.
    pub utxos: Table<Output>,
    /// The spent outputs, by the key of their outpoint.
    pub stxos: Table<SpentOutput>,
    /// The withdrawal bundle that waits to be confirmed on the mainchain,
    /// and the height at which it was made.
    pub pending_withdrawal_bundle: Option<(WithdrawalBundle, u32)>,
    /// The withdrawal bundle that failed last.
    pub latest_failed_withdrawal_bundle: Option<RollBack<M6id>>,
    /// The withdrawal bundles and their standing, by the bytes of their id.
    pub withdrawal_bundles: Table<BundleRecord>,
    /// The mainchain blocks whose deposits were applied, each with the
    /// height at which it was, in the order in which they were.
    pub deposit_blocks: Vec<(hashes::Hash, u32)>,
    /// The mainchain blocks whose withdrawal bundle events were applied,
    /// each with the height at which it was, in the order in which they were.
    pub withdrawal_bundle_event_blocks: Vec<(hashes::Hash, u32)>,
    pub orchard: Orchard,
    pub utreexo_accumulator: Accumulator,
}

pub struct StateView {
    pub tip: Option<BlockHash>,
    pub height: Option<u32>,
    pub utxos: Map<Seq<u8>, Output>,
    pub stxos: Map<Seq<u8>, SpentOutput>,
    pub peg: TwoWayPegView,
    pub orchard: OrchardView,
    pub accumulator: AccumulatorView,
}

impl View for State {
    type V = StateView;

    closed spec fn view(&self) -> StateView {
        StateView {
            tip: self.tip,
            height: self.height,
            utxos: self.utxos@,
            stxos: self.stxos@,
            peg: TwoWayPegView {
                pending_withdrawal_bundle: match self.pending_withdrawal_bundle {
                    Some((bundle, height)) => Some((bundle@, height)),
                    None => None,
                },
                latest_failed_withdrawal_bundle: match self.latest_failed_withdrawal_bundle {
                    Some(failed) => Some(failed@),
                    None => None,
                },
                withdrawal_bundles: self.withdrawal_bundles@,
                deposit_blocks: self.deposit_blocks@,
                withdrawal_bundle_event_blocks: self.withdrawal_bundle_event_blocks@,
            },
            orchard: self.orchard@,
            accumulator: self.utreexo_accumulator@,
        }
    }
}

/// The outputs that `inputs` spend, each looked up in `utxos`.
pub open spec fn spent_outputs(utxos: Map<Seq<u8>, Output>, inputs: Seq<(OutPoint, hashes::Hash)>) -> Seq<
    Output,
> {
    Seq::new(inputs.len(), |i: int| utxos[inputs[i].0.key_bytes()])
}

/// The first of the first `n` inputs that spends what is not in `utxos`.
pub open spec fn first_missing(
    utxos: Map<Seq<u8>, Output>,
    inputs: Seq<(OutPoint, hashes::Hash)>,
    n: int,
) -> Option<OutPoint>
    decreases n,
{
    if n <= 0 {
        None
    } else if first_missing(utxos, inputs, n - 1) is Some {
        first_missing(utxos, inputs, n - 1)
    } else if !utxos.contains_key(inputs[n - 1].0.key_bytes()) {
        Some(inputs[n - 1].0)
    } else {
        None
    }
}

/// Once an input is found missing, looking at more inputs does not change
/// which one comes first.
pub proof fn lemma_first_missing_stays(
    utxos: Map<Seq<u8>, Output>,
    inputs: Seq<(OutPoint, hashes::Hash)>,
    n: int,
    m: int,
)
    requires
        0 <= n <= m,
        first_missing(utxos, inputs, n) is Some,
    ensures
        first_missing(utxos, inputs, m) == first_missing(utxos, inputs, n),
    decreases m - n,
{
    if n < m {
        lemma_first_missing_stays(utxos, inputs, n, m - 1);
    }
}

/// Where no input is missing, every input is in `utxos`.
pub proof fn lemma_none_missing(
    utxos: Map<Seq<u8>, Output>,
    inputs: Seq<(OutPoint, hashes::Hash)>,
    n: int,
)
    requires
        0 <= n <= inputs.len(),
        first_missing(utxos, inputs, n) is None,
    ensures
        forall|i: int| 0 <= i < n ==> utxos.contains_key((#[trigger] inputs[i]).0.key_bytes()),
    decreases n,
{
    if n > 0 {
        lemma_none_missing(utxos, inputs, n - 1);
    }
}

/// What filling `transaction` from `utxos` comes to: the transaction with
/// the outputs that it spends, or the first outpoint that is not there.
pub open spec fn spec_fill_transaction(utxos: Map<Seq<u8>, Output>, transaction: TransactionView) -> Result<
    FilledTransactionView,
    Error,
> {
    match first_missing(utxos, transaction.inputs, transaction.inputs.len() as int) {
        Some(outpoint) => Err(Error::NoUtxo(NoUtxo { outpoint })),
        None => Ok(
            FilledTransactionView {
                transaction,
                spent_utxos: spent_outputs(utxos, transaction.inputs),
            },
        ),
    }
}

/// What leaves the shielded pool with a bundle of balance `value_balance`.
pub open spec fn shielded_in(value_balance: i64) -> int {
    if value_balance > 0 {
        value_balance as int
    } else {
        0
    }
}

/// What enters the shielded pool with a bundle of balance `value_balance`.
pub open spec fn shielded_out(value_balance: i64) -> int {
    if value_balance > 0 {
        0
    } else {
        -(value_balance as int)
    }
}

/// The value that goes into a transaction: what the spent outputs carry,
/// and what leaves the shielded pool.
pub open spec fn value_in(transaction: FilledTransactionView) -> int {
    total_value(transaction.spent_utxos) + (match transaction.transaction.orchard_bundle {
        Some(bundle) => shielded_in(bundle.value_balance),
        None => 0,
    })
}

/// The value that comes out of a transaction: what the created outputs
/// carry, and what enters the shielded pool.
pub open spec fn value_out(transaction: FilledTransactionView) -> int {
    total_value(transaction.transaction.outputs) + (match transaction.transaction.orchard_bundle {
        Some(bundle) => shielded_out(bundle.value_balance),
        None => 0,
    })
}

/// The fee of a filled transaction: what goes in beyond what comes out. No
/// sum may go over 64 bits, and no more may come out than goes in.
pub open spec fn spec_fee(transaction: FilledTransactionView) -> Result<Amount, Error> {
    if total_value(transaction.spent_utxos) > u64::MAX || total_value(
        transaction.transaction.outputs,
    ) > u64::MAX || value_in(transaction) > u64::MAX || value_out(transaction) > u64::MAX {
        Err(Error::AmountOverflow(AmountOverflowError))
    } else if value_out(transaction) > value_in(transaction) {
        Err(Error::NotEnoughValueIn)
    } else {
        Ok((value_in(transaction) - value_out(transaction)) as u64)
    }
}

/// The height of the block that comes after a chain of height `height`.
pub open spec fn next_height(height: Option<u32>) -> int {
    match height {
        Some(height) => height + 1,
        None => 0,
    }
}

/// What is wrong with the anchor of a bundle, if anything: the anchor must
/// be among the historical roots, or be the anchor of the empty tree in a
/// bundle that does not spend.
pub open spec fn anchor_failure(roots: Map<Seq<u8>, BlockHash>, bundle: Option<OrchardBundleView>) -> Option<
    error::Orchard,
> {
    match bundle {
        None => None,
        Some(bundle) => if roots.contains_key(bundle.anchor@) {
            None
        } else if bundle.anchor == empty_tree_anchor() {
            if bundle.spends_enabled {
                Some(error::Orchard::EmptyAnchor)
            } else {
                None
            }
        } else {
            Some(error::Orchard::InvalidAnchor { anchor: bundle.anchor })
        },
    }
}

/// What validating a transaction for the pool comes to: its fee, or the
/// first rule that it breaks.
pub open spec fn spec_validate_transaction(
    state: StateView,
    transaction: AuthorizedTransactionView,
    verdict: OrchardVerdict,
) -> Result<Amount, Error> {
    match spec_fill_transaction(state.utxos, transaction.transaction) {
        Err(error) => Err(error),
        Ok(filled) => if !block::keys_fit(transaction.authorizations, filled.spent_utxos) {
            Err(Error::WrongPubKeyForAddress)
        } else {
            match anchor_failure(
                state.orchard.historical_roots,
                transaction.transaction.orchard_bundle,
            ) {
                Some(error) => Err(Error::Orchard(error)),
                None => if transaction.authorizations.len() != transaction.transaction.inputs.len()
                    || spec_verify_authorized_transaction(transaction, verdict) is Err {
                    Err(Error::AuthorizationError)
                } else {
                    spec_fee(filled)
                },
            }
        },
    }
}

/// A transaction that validates for the pool has one authorization for
/// each input, every input is unspent, and each authorization is by the key
/// of the address of the output that its input spends.
pub proof fn lemma_valid_transaction_authorized(
    state: StateView,
    transaction: AuthorizedTransactionView,
    verdict: OrchardVerdict,
)
    requires
        spec_validate_transaction(state, transaction, verdict) is Ok,
    ensures
        transaction.authorizations.len() == transaction.transaction.inputs.len(),
        forall|i: int|
            0 <= i < transaction.authorizations.len() ==> {
                &&& state.utxos.contains_key(transaction.transaction.inputs[i].0.key_bytes())
                &&& address_of((#[trigger] transaction.authorizations[i]).verifying_key@)
                    == state.utxos[transaction.transaction.inputs[i].0.key_bytes()].address.0@
            },
{
    let inputs = transaction.transaction.inputs;
    lemma_none_missing(state.utxos, inputs, inputs.len() as int);
    let spent = spent_outputs(state.utxos, inputs);
    assert forall|i: int| 0 <= i < transaction.authorizations.len() implies {
        &&& state.utxos.contains_key(inputs[i].0.key_bytes())
        &&& address_of((#[trigger] transaction.authorizations[i]).verifying_key@)
            == state.utxos[inputs[i].0.key_bytes()].address.0@
    } by {
        assert(spent[i] == state.utxos[inputs[i].0.key_bytes()]);
    }
}

/// The accumulator leaves of outputs with their outpoints.
pub open spec fn pointed_leaves(utxos: Seq<PointedOutput>) -> Seq<hashes::Hash> {
    Seq::new(utxos.len(), |i: int| leaf_hash(utxos[i].outpoint, utxos[i].output))
}

/// The accumulator leaves that the inputs name.
pub fn list_input_leaves(inputs: &Vec<(OutPoint, hashes::Hash)>) -> (leaves: Vec<hashes::Hash>)
    ensures
        leaves@ == input_leaves(inputs@),
{
    let mut leaves: Vec<hashes::Hash> = Vec::new();
    let mut i: usize = 0;
    while i < inputs.len()
        invariant
            i <= inputs@.len(),
            leaves@ == input_leaves(inputs@).take(i as int),
        decreases inputs@.len() - i,
    {
        leaves.push(inputs[i].1);
        i += 1;
        assert(leaves@ =~= input_leaves(inputs@).take(i as int));
    }
    assert(input_leaves(inputs@).take(i as int) =~= input_leaves(inputs@));
    leaves
}

/// Whether `key` is the key of the outpoint of a deposit.
pub open spec fn is_deposit_key(key: Seq<u8>) -> bool {
    key.len() == 37 && key[0] == 2
}

/// Whether `key` is the key of the outpoint of a deposit.
pub fn is_deposit(key: &[u8]) -> (r: bool)
    ensures
        r == is_deposit_key(key@),
{
    key.len() == 37 && key[0] == 2
}

/// What the deposited outputs among the first `n` unspent outputs carry.
pub open spec fn deposited(keys: Seq<Seq<u8>>, utxos: Map<Seq<u8>, Output>, n: int) -> int
    decreases n,
{
    if n <= 0 {
        0
    } else {
        deposited(keys, utxos, n - 1) + (if is_deposit_key(keys[n - 1]) {
            utxos[keys[n - 1]].value() as int
        } else {
            0
        })
    }
}

/// What the deposited outputs among the first `n` spent outputs carry.
pub open spec fn spent_deposited(keys: Seq<Seq<u8>>, stxos: Map<Seq<u8>, SpentOutput>, n: int) -> int
    decreases n,
{
    if n <= 0 {
        0
    } else {
        spent_deposited(keys, stxos, n - 1) + (if is_deposit_key(keys[n - 1]) {
            stxos[keys[n - 1]].output.value() as int
        } else {
            0
        })
    }
}

/// What the outputs among the first `n` spent outputs carry that a
/// withdrawal has spent.
pub open spec fn paid_out(keys: Seq<Seq<u8>>, stxos: Map<Seq<u8>, SpentOutput>, n: int) -> int
    decreases n,
{
    if n <= 0 {
        0
    } else {
        paid_out(keys, stxos, n - 1) + (if stxos[keys[n - 1]].inpoint is Withdrawal {
            stxos[keys[n - 1]].output.value() as int
        } else {
            0
        })
    }
}

/// The sum over more unspent outputs is no less.
pub proof fn lemma_deposited_grows(keys: Seq<Seq<u8>>, utxos: Map<Seq<u8>, Output>, n: int, m: int)
    requires
        0 <= n <= m,
    ensures
        0 <= deposited(keys, utxos, n) <= deposited(keys, utxos, m),
    decreases m,
{
    if n < m {
        lemma_deposited_grows(keys, utxos, n, m - 1);
    } else if n > 0 {
        lemma_deposited_grows(keys, utxos, n - 1, m - 1);
    }
}

/// The sums over more spent outputs are no less.
pub proof fn lemma_spent_grows(keys: Seq<Seq<u8>>, stxos: Map<Seq<u8>, SpentOutput>, n: int, m: int)
    requires
        0 <= n <= m,
    ensures
        0 <= spent_deposited(keys, stxos, n) <= spent_deposited(keys, stxos, m),
        0 <= paid_out(keys, stxos, n) <= paid_out(keys, stxos, m),
    decreases m,
{
    if n < m {
        lemma_spent_grows(keys, stxos, n, m - 1);
    } else if n > 0 {
        lemma_spent_grows(keys, stxos, n - 1, m - 1);
    }
}

/// The wealth of the sidechain: what the deposited outputs carry, unspent
/// and spent, less what the outputs carry that a withdrawal has spent. No
/// sum may go over 64 bits, and no more may be paid out than was deposited.
pub open spec fn spec_sidechain_wealth(
    utxo_keys: Seq<Seq<u8>>,
    utxos: Map<Seq<u8>, Output>,
    stxo_keys: Seq<Seq<u8>>,
    stxos: Map<Seq<u8>, SpentOutput>,
) -> Result<Amount, Error> {
    let unspent = deposited(utxo_keys, utxos, utxo_keys.len() as int);
    let spent = spent_deposited(stxo_keys, stxos, stxo_keys.len() as int);
    let withdrawn = paid_out(stxo_keys, stxos, stxo_keys.len() as int);
    if unspent > u64::MAX || spent > u64::MAX || withdrawn > u64::MAX || unspent + spent
        > u64::MAX || withdrawn > unspent + spent {
        Err(Error::AmountOverflow(AmountOverflowError))
    } else {
        Ok((unspent + spent - withdrawn) as u64)
    }
}

/// Of the first `n` outpoints, those that are spent, each with its spent
/// output.
pub open spec fn spent_among(stxos: Map<Seq<u8>, SpentOutput>, outpoints: Seq<OutPoint>, n: int) -> Seq<
    (OutPoint, SpentOutput),
>
    decreases n,
{
    if n <= 0 {
        Seq::empty()
    } else if stxos.contains_key(outpoints[n - 1].key_bytes()) {
        spent_among(stxos, outpoints, n - 1).push(
            (outpoints[n - 1], stxos[outpoints[n - 1].key_bytes()]),
        )
    } else {
        spent_among(stxos, outpoints, n - 1)
    }
}

/// Whether `address` is among `addresses`.
pub open spec fn among(addresses: Seq<TransparentAddress>, address: TransparentAddress) -> bool {
    exists|i: int| 0 <= i < addresses.len() && #[trigger] addresses[i] == address
}

/// Whether `address` is among `addresses`.
pub fn is_among(addresses: &Vec<TransparentAddress>, address: &TransparentAddress) -> (r: bool)
    ensures
        r == among(addresses@, *address),
{
    let mut i: usize = 0;
    while i < addresses.len()
        invariant
            i <= addresses@.len(),
            forall|j: int| 0 <= j < i ==> #[trigger] addresses@[j] != *address,
        decreases addresses@.len() - i,
    {
        if addresses[i].same(address) {
            return true;
        }
        i += 1;
    }
    false
}

/// Whether the binding of `key` to `output` belongs in a listing: the key
/// is the key of an outpoint, and where only some addresses are wanted,
/// the output is locked to one of them.
pub open spec fn wanted(key: Seq<u8>, output: Output, addresses: Seq<TransparentAddress>, only: bool) -> bool {
    is_key_bytes(key) && (only ==> among(addresses, output.address))
}

/// `list` is the listing of the outputs of `map`: every item of the list
/// is a binding of the map that belongs in the listing, every such binding
/// is in the list, and the list is in the order of the keys.
pub open spec fn listing(
    list: Seq<(OutPoint, Output)>,
    map: Map<Seq<u8>, Output>,
    addresses: Seq<TransparentAddress>,
    only: bool,
) -> bool {
    &&& forall|i: int|
        0 <= i < list.len() ==> {
            &&& map.contains_key((#[trigger] list[i]).0.key_bytes())
            &&& map[list[i].0.key_bytes()] == list[i].1
            &&& wanted(list[i].0.key_bytes(), list[i].1, addresses, only)
        }
    &&& forall|k: Seq<u8>|
        #[trigger] map.contains_key(k) && wanted(k, map[k], addresses, only) ==> exists|i: int|
            0 <= i < list.len() && (#[trigger] list[i]).0.key_bytes() == k
    &&& forall|i: int, j: int|
        0 <= i < j < list.len() ==> lex_less(
            (#[trigger] list[i]).0.key_bytes(),
            (#[trigger] list[j]).0.key_bytes(),
        )
}

/// The outputs of a table with their outpoints, in the order of their
/// keys: all of them, or only those of the addresses `addresses`.
#[verifier::loop_isolation(false)]
pub fn list_outputs(table: &Table<Output>, addresses: &Vec<TransparentAddress>, only: bool) -> (list:
    Vec<(OutPoint, Output)>)
    ensures
        listing(list@, table@, addresses@, only),
{
    let count = table.len();
    let ghost keys = table.keys();
    let ghost values = table.values();
    let ghost mut source: Seq<int> = Seq::empty();
    let mut list: Vec<(OutPoint, Output)> = Vec::new();
    let mut i: usize = 0;
    while i < count
        invariant
            i <= count,
            source.len() == list@.len(),
            forall|a: int|
                0 <= a < source.len() ==> 0 <= #[trigger] source[a] < i && keys[source[a]]
                    == list@[a].0.key_bytes() && values[source[a]] == list@[a].1 && wanted(
                    keys[source[a]],
                    values[source[a]],
                    addresses@,
                    only,
                ),
            forall|a: int, b: int|
                0 <= a < b < source.len() ==> #[trigger] source[a] < #[trigger] source[b],
            forall|j: int|
                0 <= j < i && wanted(#[trigger] keys[j], values[j], addresses@, only) ==> exists|
                    a: int,
                |
                    0 <= a < source.len() && #[trigger] source[a] == j,
        decreases count - i,
    {
        let entry = table.entry(i);
        let ghost before = source;
        match OutPointKey::decode(entry.key.as_slice()) {
            Some(key) => {
                if !only || is_among(addresses, &entry.value.address) {
                    let outpoint = key.to_outpoint();
                    list.push((outpoint, entry.value));
                    proof {
                        source = source.push(i as int);
                    }
                }
            },
            None => {},
        }
        proof {
            assert forall|j: int|
                0 <= j < i + 1 && wanted(
                    #[trigger] keys[j],
                    values[j],
                    addresses@,
                    only,
                ) implies exists|a: int| 0 <= a < source.len() && #[trigger] source[a] == j by {
                if j < i {
                    let a = choose|a: int| 0 <= a < before.len() && #[trigger] before[a] == j;
                    assert(source[a] == j);
                } else {
                    assert(source[source.len() - 1] == j);
                }
            }
        }
        i += 1;
    }
    proof {
        assert forall|k: Seq<u8>|
            #[trigger] table@.contains_key(k) && wanted(
                k,
                table@[k],
                addresses@,
                only,
            ) implies exists|a: int| 0 <= a < list@.len() && (#[trigger] list@[a]).0.key_bytes() == k by {
            let j = keys.index_of(k);
            assert(keys[j] == k);
            let a = choose|a: int| 0 <= a < source.len() && #[trigger] source[a] == j;
            assert(list@[a].0.key_bytes() == k);
        }
        assert forall|a: int, b: int| 0 <= a < b < list@.len() implies lex_less(
            (#[trigger] list@[a]).0.key_bytes(),
            (#[trigger] list@[b]).0.key_bytes(),
        ) by {
            assert(source[a] < source[b]);
            assert(lex_less(keys[source[a]], keys[source[b]]));
        }
        assert forall|a: int| 0 <= a < list@.len() implies {
            &&& table@.contains_key((#[trigger] list@[a]).0.key_bytes())
            &&& table@[list@[a].0.key_bytes()] == list@[a].1
            &&& wanted(list@[a].0.key_bytes(), list@[a].1, addresses@, only)
        } by {
            let j = source[a];
            assert(table@.contains_key(keys[j]) && table@[keys[j]] == values[j]);
        }
    }
    list
}

impl State {
    /// The state before the first block.
    pub fn new() -> (state: Self)
        ensures
            state@.tip is None,
            state@.height is None,
            state@.utxos == Map::<Seq<u8>, Output>::empty(),
            state@.stxos == Map::<Seq<u8>, SpentOutput>::empty(),
            state@.peg.pending_withdrawal_bundle is None,
            state@.peg.latest_failed_withdrawal_bundle is None,
            state@.peg.withdrawal_bundles == Map::<Seq<u8>, BundleRecordView>::empty(),
            state@.peg.deposit_blocks == Seq::<(hashes::Hash, u32)>::empty(),
            state@.peg.withdrawal_bundle_event_blocks == Seq::<(hashes::Hash, u32)>::empty(),
            state@.orchard.frontier.leaves() == Seq::<[u8; 32]>::empty(),
            state@.orchard.frontier.spec_root() == empty_tree_anchor(),
            state@.orchard.historical_roots == Map::<Seq<u8>, BlockHash>::empty(),
            state@.orchard.nullifiers == Set::<Seq<u8>>::empty(),
            state@.accumulator.bytes == Seq::new(16, |i: int| 0u8),
            state@.accumulator.roots() == Seq::<hashes::Hash>::empty(),
    {
        State {
            tip: None,
            height: None,
            utxos: Table::new(),
            stxos: Table::new(),
            pending_withdrawal_bundle: None,
            latest_failed_withdrawal_bundle: None,
            withdrawal_bundles: Table::new(),
            deposit_blocks: Vec::new(),
            withdrawal_bundle_event_blocks: Vec::new(),
            orchard: Orchard::new(),
            utreexo_accumulator: Accumulator::new(),
        }
    }

    /// The withdrawal bundle that failed last, with the height at which it
    /// failed.
    pub fn get_latest_failed_withdrawal_bundle(&self) -> (r: Option<(u32, M6id)>)
        requires
            self@.peg.failure_recorded(),
        ensures
            r == self@.peg.latest_failure(),
    {
        match &self.latest_failed_withdrawal_bundle {
            None => None,
            Some(failed) => {
                let m6id = failed.latest().value;
                match self.withdrawal_bundles.get(m6id.0.as_slice()) {
                    Some(record) => Some((record.status.latest().height, m6id)),
                    None => None,
                }
            },
        }
    }

    /// The withdrawal bundle that waits to be confirmed on the mainchain,
    /// and the height at which it was made.
    pub fn get_pending_withdrawal_bundle(&self) -> (r: Option<(WithdrawalBundle, u32)>)
        ensures
            r is Some == self@.peg.pending_withdrawal_bundle is Some,
            r matches Some((bundle, height)) ==> self@.peg.pending_withdrawal_bundle == Some(
                (bundle@, height),
            ),
    {
        match &self.pending_withdrawal_bundle {
            Some((bundle, height)) => Some((bundle.clone(), *height)),
            None => None,
        }
    }

    /// The last mainchain block whose deposits were applied.
    pub fn get_last_deposit_block_hash(&self) -> (r: Option<hashes::Hash>)
        ensures
            r == TwoWayPegView::last_block(self@.peg.deposit_blocks),
    {
        last_block_hash(&self.deposit_blocks)
    }

    /// The last mainchain block whose withdrawal bundle events were applied.
    pub fn get_last_withdrawal_bundle_event_block_hash(&self) -> (r: Option<hashes::Hash>)
        ensures
            r == TwoWayPegView::last_block(self@.peg.withdrawal_bundle_event_blocks),
    {
        last_block_hash(&self.withdrawal_bundle_event_blocks)
    }

    /// The hash of the block at the tip, if there is a block.
    pub fn try_get_tip(&self) -> (tip: Option<BlockHash>)
        ensures
            tip == self@.tip,
    {
        self.tip
    }

    /// The height of the tip, if there is a block. The first block has
    /// height 0.
    pub fn try_get_height(&self) -> (height: Option<u32>)
        ensures
            height == self@.height,
    {
        self.height
    }

    /// A copy of the accumulator.
    pub fn get_accumulator(&self) -> (accumulator: Accumulator)
        ensures
            accumulator@ == self@.accumulator,
    {
        self.utreexo_accumulator.copy()
    }

    /// The most authorizations that the body of a block at `height` may
    /// hold.
    pub fn body_sigops_limit(height: u32) -> (limit: usize)
        ensures
            limit == limits::spec_body_sigops_limit(height),
    {
        limits::body_sigops_limit(height)
    }

    /// The most bytes that the body of a block at `height` may take.
    pub fn body_size_limit(height: u32) -> (limit: usize)
        ensures
            limit == limits::spec_body_size_limit(height),
    {
        limits::body_size_limit(height)
    }

    /// Looks up the outputs that `transaction` spends.
    pub fn fill_transaction(&self, transaction: &Transaction) -> (r: Result<FilledTransaction, Error>)
        ensures
            match (r, spec_fill_transaction(self@.utxos, transaction@)) {
                (Ok(filled), Ok(view)) => filled@ == view,
                (Err(error), Err(expected)) => error == expected,
                _ => false,
            },
    {
        let mut spent_utxos: Vec<Output> = Vec::new();
        let mut i: usize = 0;
        while i < transaction.inputs.len()
            invariant
                i <= transaction.inputs@.len(),
                first_missing(self.utxos@, transaction.inputs@, i as int) is None,
                spent_utxos@ == spent_outputs(self.utxos@, transaction.inputs@.take(i as int)),
            decreases transaction.inputs@.len() - i,
        {
            let outpoint = transaction.inputs[i].0;
            let key = OutPointKey::from_outpoint(&outpoint);
            match self.utxos.get(key.as_bytes().as_slice()) {
                Some(utxo) => {
                    spent_utxos.push(*utxo);
                },
                None => {
                    proof {
                        lemma_first_missing_stays(
                            self.utxos@,
                            transaction.inputs@,
                            i + 1,
                            transaction.inputs@.len() as int,
                        );
                    }
                    return Err(Error::NoUtxo(NoUtxo { outpoint }));
                },
            }
            i += 1;
            assert(spent_utxos@ =~= spent_outputs(self.utxos@, transaction.inputs@.take(i as int)));
        }
        assert(transaction.inputs@.take(i as int) =~= transaction.inputs@);
        Ok(FilledTransaction { transaction: transaction.clone(), spent_utxos })
    }

    /// The fee of a filled transaction, where its sums hold and it spends at
    /// least what it creates.
    pub fn validate_filled_transaction(&self, transaction: &FilledTransaction) -> (r: Result<
        Amount,
        Error,
    >)
        ensures
            r == spec_fee(transaction@),
    {
        let mut value_in = match sum_values(&transaction.spent_utxos) {
            Ok(value) => value,
            Err(error) => {
                return Err(Error::AmountOverflow(error));
            },
        };
        let mut value_out = match sum_values(&transaction.transaction.outputs) {
            Ok(value) => value,
            Err(error) => {
                return Err(Error::AmountOverflow(error));
            },
        };
        match &transaction.transaction.orchard_bundle {
            Some(bundle) => {
                let balance = bundle.value_balance;
                if balance > 0 {
                    let shielded = balance as u64;
                    if shielded > u64::MAX - value_in {
                        return Err(Error::AmountOverflow(AmountOverflowError));
                    }
                    value_in = value_in + shielded;
                } else {
                    let shielded: u64 = if balance == i64::MIN {
                        0x8000_0000_0000_0000u64
                    } else {
                        (-balance) as u64
                    };
                    if shielded > u64::MAX - value_out {
                        return Err(Error::AmountOverflow(AmountOverflowError));
                    }
                    value_out = value_out + shielded;
                }
            },
            None => {},
        }
        if value_out > value_in {
            return Err(Error::NotEnoughValueIn);
        }
        Ok(value_in - value_out)
    }

    /// Validates a transaction for the pool: its inputs are unspent, its
    /// authorizations are by the keys of the outputs that it spends, its
    /// anchor is one that the note commitment tree had, it has one
    /// authorization for each input, its signatures and its shielded part
    /// verify, and it spends at least what it creates. `verdict` says how
    /// the signature and proof of its shielded part fared. Gives the fee.
    #[verifier::loop_isolation(false)]
    pub fn validate_transaction(&self, transaction: &AuthorizedTransaction, verdict: OrchardVerdict) -> (r:
        Result<Amount, Error>)
        ensures
            r == spec_validate_transaction(self@, transaction@, verdict),
            r is Ok ==> transaction@.authorizations.len() == transaction@.transaction.inputs.len(),
    {
        let filled = match self.fill_transaction(&transaction.transaction) {
            Ok(filled) => filled,
            Err(error) => {
                return Err(error);
            },
        };
        let n = if transaction.authorizations.len() < filled.spent_utxos.len() {
            transaction.authorizations.len()
        } else {
            filled.spent_utxos.len()
        };
        let mut i: usize = 0;
        while i < n
            invariant
                i <= n,
                n <= transaction.authorizations@.len(),
                n <= filled.spent_utxos@.len(),
                n == transaction.authorizations@.len() || n == filled.spent_utxos@.len(),
                forall|j: int|
                    0 <= j < i ==> address_of(
                        (#[trigger] transaction.authorizations@[j]).verifying_key@,
                    ) == filled.spent_utxos@[j].address.0@,
            decreases n - i,
        {
            let address = transaction.authorizations[i].get_address();
            if !address.same(&filled.spent_utxos[i].address) {
                proof {
                    if address.0@ == filled.spent_utxos@[i as int].address.0@ {
                        assert(address.0 =~= filled.spent_utxos@[i as int].address.0);
                    }
                    assert(address_of(transaction.authorizations@[i as int].verifying_key@)
                        != filled.spent_utxos@[i as int].address.0@);
                }
                return Err(Error::WrongPubKeyForAddress);
            }
            i += 1;
        }
        match &transaction.transaction.orchard_bundle {
            Some(bundle) => {
                if !self.orchard.is_historical_root(&bundle.anchor) {
                    let empty = empty_tree();
                    if hash_equal(&bundle.anchor, &empty) {
                        if bundle.spends_enabled {
                            return Err(Error::Orchard(error::Orchard::EmptyAnchor));
                        }
                    } else {
                        return Err(
                            Error::Orchard(error::Orchard::InvalidAnchor { anchor: bundle.anchor }),
                        );
                    }
                }
            },
            None => {},
        }
        if transaction.authorizations.len() != transaction.transaction.inputs.len() {
            return Err(Error::AuthorizationError);
        }
        if Authorization::verify_transaction(transaction, verdict).is_err() {
            return Err(Error::AuthorizationError);
        }
        self.validate_filled_transaction(&filled)
    }

    /// Makes the inclusion proof of `transaction` anew, for the accumulator
    /// as it is now. Where no proof can be made the transaction stays as it
    /// was.
    pub fn regenerate_proof(&self, transaction: &mut Transaction) -> (r: Result<(), Error>)
        ensures
            r == (match self@.accumulator.proof_for(input_leaves(old(transaction)@.inputs)) {
                Some(_) => Ok(()),
                None => Err(Error::Utreexo(UtreexoError)),
            }),
            match self@.accumulator.proof_for(input_leaves(old(transaction)@.inputs)) {
                Some((targets, hashes)) => final(transaction)@ == (TransactionView {
                    proof: ProofView { targets, hashes },
                    ..old(transaction)@
                }),
                None => final(transaction)@ == old(transaction)@,
            },
    {
        let targets = list_input_leaves(&transaction.inputs);
        match self.utreexo_accumulator.prove(&targets) {
            Ok(proof) => {
                transaction.proof = proof;
                Ok(())
            },
            Err(error) => Err(Error::Utreexo(error)),
        }
    }

    /// Makes the inclusion proof for the outputs `utxos`.
    pub fn get_utreexo_proof(&self, utxos: &Vec<PointedOutput>) -> (r: Result<Proof, Error>)
        ensures
            match (r, self@.accumulator.proof_for(pointed_leaves(utxos@))) {
                (Ok(proof), Some((targets, hashes))) => proof@ == (ProofView { targets, hashes }),
                (Err(error), None) => error == Error::Utreexo(UtreexoError),
                _ => false,
            },
    {
        let mut targets: Vec<hashes::Hash> = Vec::new();
        let mut i: usize = 0;
        while i < utxos.len()
            invariant
                i <= utxos@.len(),
                targets@ == pointed_leaves(utxos@).take(i as int),
            decreases utxos@.len() - i,
        {
            targets.push(utxos[i].node_hash());
            i += 1;
            assert(targets@ =~= pointed_leaves(utxos@).take(i as int));
        }
        assert(pointed_leaves(utxos@).take(i as int) =~= pointed_leaves(utxos@));
        match self.utreexo_accumulator.prove(&targets) {
            Ok(proof) => Ok(proof),
            Err(error) => Err(Error::Utreexo(error)),
        }
    }

    /// Validates a block against the state; gives the fees of the block.
    pub fn validate_block(&self, header: &Header, body: &Body, verdicts: &Vec<OrchardVerdict>) -> (r:
        Result<Amount, Error>)
        requires
            self@.height != Some(u32::MAX),
        ensures
            r == block::spec_validate(self@, *header, *body, verdicts@),
    {
        block::validate(self, header, body, verdicts)
    }

    /// Validates a block against the state and, where it holds, connects
    /// it. Gives back the frontier of the note commitment tree where its
    /// root is a new one, to be kept for disconnecting. Where the block is
    /// refused the state stays as it was.
    pub fn connect_block(&mut self, header: &Header, body: &Body, verdicts: &Vec<OrchardVerdict>) -> (r:
        Result<Option<NoteFrontier>, Error>)
        requires
            old(self)@.height != Some(u32::MAX),
            header.encodable(),
        ensures
            match block::spec_prevalidate(old(self)@, *header, *body, verdicts@) {
                Err(error) => r == Err::<Option<NoteFrontier>, Error>(error) && final(self)@ == old(self)@,
                Ok(prevalidated) => match r {
                    Ok(saved) => {
                        &&& block::spec_connect_failure(old(self)@, prevalidated) is None
                        &&& block::connected(
                            old(self)@,
                            final(self)@,
                            *header,
                            body.coinbase@,
                            prevalidated,
                        )
                        &&& saved is Some == !old(self)@.orchard.historical_roots.contains_key(
                            final(self)@.orchard.frontier.spec_root()@,
                        )
                        &&& saved matches Some(frontier) ==> frontier == final(self)@.orchard.frontier
                    },
                    Err(error) => {
                        &&& block::spec_connect_failure(old(self)@, prevalidated) matches Some(
                            failure,
                        )
                        &&& error == Error::ConnectBlock(failure)
                        &&& final(self)@ == old(self)@
                    },
                },
            },
    {
        block::connect(self, header, body, verdicts)
    }

    /// Disconnects the block at the tip: puts back `prev_accumulator` and,
    /// where one is given, `prev_frontier`. Where disconnecting fails the
    /// state stays as it was.
    pub fn disconnect_tip(
        &mut self,
        header: &Header,
        body: &Body,
        prev_accumulator: &Accumulator,
        prev_frontier: Option<&NoteFrontier>,
    ) -> (r: Result<(), Error>)
        requires
            header.encodable(),
            body.encodable(),
        ensures
            match (
                r,
                block::spec_disconnect_tip(
                    old(self)@,
                    *header,
                    *body,
                    prev_accumulator@,
                    match prev_frontier {
                        Some(frontier) => Some(*frontier),
                        None => None,
                    },
                ),
            ) {
                (Ok(()), Ok(below)) => final(self)@ == below,
                (Err(error), Err(expected)) => error == expected && final(self)@ == old(self)@,
                _ => false,
            },
    {
        block::disconnect_tip(self, header, body, prev_accumulator, prev_frontier)
    }

    /// The keys of the unspent outputs, in the order in which the state
    /// keeps them.
    pub closed spec fn utxo_keys(&self) -> Seq<Seq<u8>> {
        self.utxos.keys()
    }

    /// The keys of the spent outputs, in the order in which the state keeps
    /// them.
    pub closed spec fn stxo_keys(&self) -> Seq<Seq<u8>> {
        self.stxos.keys()
    }

    /// The unspent outputs with their outpoints, in the order of their
    /// keys.
    pub fn get_utxos(&self) -> (utxos: Vec<(OutPoint, Output)>)
        ensures
            listing(utxos@, self@.utxos, Seq::<TransparentAddress>::empty(), false),
    {
        let all: Vec<TransparentAddress> = Vec::new();
        list_outputs(&self.utxos, &all, false)
    }

    /// The unspent outputs of the addresses `addresses` with their
    /// outpoints, in the order of their keys.
    pub fn get_utxos_by_addresses(&self, addresses: &Vec<TransparentAddress>) -> (utxos: Vec<
        (OutPoint, Output),
    >)
        ensures
            listing(utxos@, self@.utxos, addresses@, true),
    {
        list_outputs(&self.utxos, addresses, true)
    }

    /// Of the outpoints `outpoints`, those that are spent, each with its
    /// spent output, in the order of `outpoints`.
    pub fn get_spent_utxos(&self, outpoints: &Vec<OutPoint>) -> (spent: Vec<(OutPoint, SpentOutput)>)
        ensures
            spent@ == spent_among(self@.stxos, outpoints@, outpoints@.len() as int),
    {
        let mut spent: Vec<(OutPoint, SpentOutput)> = Vec::new();
        let mut i: usize = 0;
        while i < outpoints.len()
            invariant
                i <= outpoints@.len(),
                spent@ == spent_among(self.stxos@, outpoints@, i as int),
            decreases outpoints@.len() - i,
        {
            let key = OutPointKey::from_outpoint(&outpoints[i]);
            match self.stxos.get(key.as_bytes().as_slice()) {
                Some(output) => {
                    spent.push((outpoints[i], *output));
                },
                None => {},
            }
            i += 1;
        }
        spent
    }

    /// The wealth of the sidechain: what was deposited and is unspent or
    /// spent, less what was paid out in withdrawals.
    #[verifier::loop_isolation(false)]
    pub fn sidechain_wealth(&self) -> (r: Result<Amount, Error>)
        ensures
            sorted_keys(self.utxo_keys()),
            sorted_keys(self.stxo_keys()),
            forall|k: Seq<u8>| self@.utxos.contains_key(k) <==> self.utxo_keys().contains(k),
            forall|k: Seq<u8>| self@.stxos.contains_key(k) <==> self.stxo_keys().contains(k),
            r == spec_sidechain_wealth(
                self.utxo_keys(),
                self@.utxos,
                self.stxo_keys(),
                self@.stxos,
            ),
    {
        let ghost utxo_keys = self.utxos.keys();
        let ghost stxo_keys = self.stxos.keys();
        let utxo_count = self.utxos.len();
        let stxo_count = self.stxos.len();
        let mut unspent: u64 = 0;
        let mut i: usize = 0;
        while i < utxo_count
            invariant
                i <= utxo_count,
                unspent == deposited(utxo_keys, self.utxos@, i as int),
            decreases utxo_count - i,
        {
            let entry = self.utxos.entry(i);
            proof {
                lemma_deposited_grows(utxo_keys, self.utxos@, i + 1, utxo_count as int);
            }
            if is_deposit(entry.key.as_slice()) {
                let value = entry.value.get_value();
                if value > u64::MAX - unspent {
                    return Err(Error::AmountOverflow(AmountOverflowError));
                }
                unspent = unspent + value;
            }
            i += 1;
        }
        let mut spent: u64 = 0;
        let mut withdrawn: u64 = 0;
        let mut i: usize = 0;
        while i < stxo_count
            invariant
                i <= stxo_count,
                spent == spent_deposited(stxo_keys, self.stxos@, i as int),
                withdrawn == paid_out(stxo_keys, self.stxos@, i as int),
            decreases stxo_count - i,
        {
            let entry = self.stxos.entry(i);
            proof {
                lemma_spent_grows(stxo_keys, self.stxos@, i + 1, stxo_count as int);
            }
            let value = entry.value.output.get_value();
            if is_deposit(entry.key.as_slice()) {
                if value > u64::MAX - spent {
                    return Err(Error::AmountOverflow(AmountOverflowError));
                }
                spent = spent + value;
            }
            match entry.value.inpoint {
                InPoint::Withdrawal { .. } => {
                    if value > u64::MAX - withdrawn {
                        return Err(Error::AmountOverflow(AmountOverflowError));
                    }
                    withdrawn = withdrawn + value;
                },
                InPoint::Regular { .. } => {},
            }
            i += 1;
        }
        if spent > u64::MAX - unspent {
            return Err(Error::AmountOverflow(AmountOverflowError));
        }
        let deposits = unspent + spent;
        if withdrawn > deposits {
            return Err(Error::AmountOverflow(AmountOverflowError));
        }
        Ok(deposits - withdrawn)
    }
}

} // verus!
