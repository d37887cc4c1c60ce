//! Connecting a block and disconnecting it again gives back the state.

use crate::authorization::OrchardVerdict;
use crate::state::block::{
    coinbase_entries, coinbase_outpoints, connected, disconnect_transactions, distinct,
    filled_views, first_repeated, first_unfilled, input_keys, input_outpoints, orchard_after,
    output_entries, output_outpoints, spec_connect_orchard, spec_disconnect_tip,
    spec_disconnect_transaction, spec_prevalidate, stxo_entries, stxo_puts, unput, unspend,
    utxo_puts, with_all, without_all, Ledger,
};
use crate::state::orchard::without_block;
use crate::state::{lemma_none_missing, StateView};
use crate::table::{
    binds, distinct_keys, fresh_keys, lemma_put_all, lemma_put_all_at, lemma_put_all_bound,
    lemma_put_all_concat, lemma_put_all_insert, lemma_remove_all, put_all, remove_all,
};
use crate::types::accumulator::AccumulatorView;
use crate::types::hashes::{self, Canonical};
use crate::types::header::Header;
use crate::types::orchard::NoteFrontier;
use crate::types::transaction::{
    Body, FilledTransactionView, OutPoint, Output, SpentOutput, Transaction,
};
use vstd::prelude::*;

verus! {

/// Taking out, from the last to the first, outputs that were put in at
/// keys that are new and different from one another gives back the map.
pub proof fn lemma_unput_put_all(
    map: Map<Seq<u8>, Output>,
    entries: Seq<(Seq<u8>, Output)>,
    outpoints: Seq<OutPoint>,
)
    requires
        outpoints.len() == entries.len(),
        forall|i: int| 0 <= i < entries.len() ==> (#[trigger] outpoints[i]).key_bytes() == entries[i].0,
        distinct_keys(entries),
        fresh_keys(entries, map),
    ensures
        unput(put_all(map, entries), outpoints) == Ok::<Map<Seq<u8>, Output>, OutPoint>(map),
    decreases entries.len(),
{
    if entries.len() > 0 {
        let last = entries.len() - 1;
        let shorter = entries.drop_last();
        let k = entries.last().0;
        assert(outpoints.last().key_bytes() == k) by {
            assert(outpoints[last].key_bytes() == entries[last].0);
        }
        lemma_put_all(map, shorter, k);
        assert(!binds(shorter, k)) by {
            if binds(shorter, k) {
                let i = choose|i: int| 0 <= i < shorter.len() && (#[trigger] shorter[i]).0 == k;
                assert(entries[i].0 == entries[last].0);
            }
        }
        assert(!map.contains_key(entries[last].0));
        assert(put_all(map, entries).remove(k) =~= put_all(map, shorter));
        assert forall|i: int| 0 <= i < shorter.len() implies (
        #[trigger] outpoints.drop_last()[i]).key_bytes() == shorter[i].0 by {
            assert(outpoints[i].key_bytes() == entries[i].0);
        }
        assert(distinct_keys(shorter)) by {
            assert forall|i: int, j: int| 0 <= i < j < shorter.len() implies (
            #[trigger] shorter[i]).0 != (#[trigger] shorter[j]).0 by {
                assert(entries[i].0 != entries[j].0);
            }
        }
        assert(fresh_keys(shorter, map)) by {
            assert forall|i: int| 0 <= i < shorter.len() implies !map.contains_key(
                (#[trigger] shorter[i]).0,
            ) by {
                assert(!map.contains_key(entries[i].0));
            }
        }
        lemma_unput_put_all(map, shorter, outpoints.drop_last());
    }
}

/// The outputs of spent outputs, each under the key of its spent output.
pub open spec fn restored(entries: Seq<(Seq<u8>, SpentOutput)>) -> Seq<(Seq<u8>, Output)> {
    Seq::new(entries.len(), |i: int| (entries[i].0, entries[i].1.output))
}

/// Moving back, from the last to the first, spent outputs that were put in
/// at keys that are new and different from one another gives back the
/// spent outputs, and puts their outputs among the unspent.
pub proof fn lemma_unspend_put_all(
    utxos: Map<Seq<u8>, Output>,
    stxos: Map<Seq<u8>, SpentOutput>,
    entries: Seq<(Seq<u8>, SpentOutput)>,
    outpoints: Seq<OutPoint>,
)
    requires
        outpoints.len() == entries.len(),
        forall|i: int| 0 <= i < entries.len() ==> (#[trigger] outpoints[i]).key_bytes() == entries[i].0,
        distinct_keys(entries),
        fresh_keys(entries, stxos),
    ensures
        unspend(utxos, put_all(stxos, entries), outpoints) == Ok::<
            (Map<Seq<u8>, Output>, Map<Seq<u8>, SpentOutput>),
            OutPoint,
        >((put_all(utxos, restored(entries)), stxos)),
    decreases entries.len(),
{
    if entries.len() > 0 {
        let last = entries.len() - 1;
        let shorter = entries.drop_last();
        let k = entries.last().0;
        let v = entries.last().1;
        assert(outpoints.last().key_bytes() == k) by {
            assert(outpoints[last].key_bytes() == entries[last].0);
        }
        lemma_put_all(stxos, shorter, k);
        assert(!binds(shorter, k)) by {
            if binds(shorter, k) {
                let i = choose|i: int| 0 <= i < shorter.len() && (#[trigger] shorter[i]).0 == k;
                assert(entries[i].0 == entries[last].0);
            }
        }
        assert(!stxos.contains_key(entries[last].0));
        assert(put_all(stxos, entries).remove(k) =~= put_all(stxos, shorter));
        assert forall|i: int| 0 <= i < shorter.len() implies (
        #[trigger] outpoints.drop_last()[i]).key_bytes() == shorter[i].0 by {
            assert(outpoints[i].key_bytes() == entries[i].0);
        }
        assert(distinct_keys(shorter)) by {
            assert forall|i: int, j: int| 0 <= i < j < shorter.len() implies (
            #[trigger] shorter[i]).0 != (#[trigger] shorter[j]).0 by {
                assert(entries[i].0 != entries[j].0);
            }
        }
        assert(fresh_keys(shorter, stxos)) by {
            assert forall|i: int| 0 <= i < shorter.len() implies !stxos.contains_key(
                (#[trigger] shorter[i]).0,
            ) by {
                assert(!stxos.contains_key(entries[i].0));
            }
        }
        lemma_unspend_put_all(utxos.insert(k, v.output), stxos, shorter, outpoints.drop_last());
        assert(restored(entries).drop_last() =~= restored(shorter));
        assert(restored(entries).last() == (k, v.output));
        assert(!binds(restored(shorter), k)) by {
            if binds(restored(shorter), k) {
                let i = choose|i: int|
                    0 <= i < restored(shorter).len() && (#[trigger] restored(shorter)[i]).0 == k;
                assert(shorter[i].0 == k);
            }
        }
        lemma_put_all_insert(utxos, k, v.output, restored(shorter));
    } else {
        assert(restored(entries) =~= Seq::<(Seq<u8>, Output)>::empty());
    }
}

/// What a set holds once nullifiers are added to it.
pub proof fn lemma_with_all(seen: Set<Seq<u8>>, nullifiers: Seq<hashes::Hash>, n: int, x: Seq<u8>)
    requires
        0 <= n <= nullifiers.len(),
    ensures
        with_all(seen, nullifiers, n).contains(x) <==> seen.contains(x) || exists|j: int|
            0 <= j < n && (#[trigger] nullifiers[j])@ == x,
    decreases n,
{
    if n > 0 {
        lemma_with_all(seen, nullifiers, n - 1, x);
        if nullifiers[n - 1]@ == x {
            assert(nullifiers[n - 1]@ == x);
        }
    }
}

/// What a set holds once nullifiers are taken out of it.
pub proof fn lemma_without_all(seen: Set<Seq<u8>>, nullifiers: Seq<hashes::Hash>, n: int, x: Seq<u8>)
    requires
        0 <= n <= nullifiers.len(),
    ensures
        without_all(seen, nullifiers, n).contains(x) <==> seen.contains(x) && !(exists|j: int|
            0 <= j < n && (#[trigger] nullifiers[j])@ == x),
    decreases n,
{
    if n > 0 {
        lemma_without_all(seen, nullifiers, n - 1, x);
        if nullifiers[n - 1]@ == x {
            assert(nullifiers[n - 1]@ == x);
        }
    }
}

/// Where no nullifier is repeated, none of them was in the set.
pub proof fn lemma_none_repeated(seen: Set<Seq<u8>>, nullifiers: Seq<hashes::Hash>, n: int, j: int)
    requires
        0 <= j < n <= nullifiers.len(),
        first_repeated(seen, nullifiers, n) is None,
    ensures
        !seen.contains(nullifiers[j]@),
    decreases n,
{
    if j < n - 1 {
        lemma_none_repeated(seen, nullifiers, n - 1, j);
    } else {
        lemma_with_all(seen, nullifiers, n - 1, nullifiers[j]@);
    }
}

/// Forgetting the nullifiers of a bundle that was connected gives back the
/// nullifiers that there were.
pub proof fn lemma_forget_nullifiers(seen: Set<Seq<u8>>, nullifiers: Seq<hashes::Hash>)
    requires
        first_repeated(seen, nullifiers, nullifiers.len() as int) is None,
    ensures
        without_all(
            with_all(seen, nullifiers, nullifiers.len() as int),
            nullifiers,
            nullifiers.len() as int,
        ) == seen,
{
    let n = nullifiers.len() as int;
    let added = with_all(seen, nullifiers, n);
    let back = without_all(added, nullifiers, n);
    assert forall|x: Seq<u8>| back.contains(x) <==> seen.contains(x) by {
        lemma_without_all(added, nullifiers, n, x);
        lemma_with_all(seen, nullifiers, n, x);
        if exists|j: int| 0 <= j < n && (#[trigger] nullifiers[j])@ == x {
            let j = choose|j: int| 0 <= j < n && (#[trigger] nullifiers[j])@ == x;
            lemma_none_repeated(seen, nullifiers, n, j);
        }
    }
    assert(back =~= seen);
}


/// The keys of the inputs of one filled transaction.
pub open spec fn keys_of_inputs(transaction: FilledTransactionView) -> Seq<Seq<u8>> {
    Seq::new(
        transaction.transaction.inputs.len(),
        |i: int| transaction.transaction.inputs[i].0.key_bytes(),
    )
}

/// The keys of fewer transactions are the first of the keys of more.
pub proof fn lemma_input_keys_prefix(transactions: Seq<FilledTransactionView>, k: int, n: int)
    requires
        0 <= k <= n,
    ensures
        input_keys(transactions, k).len() <= input_keys(transactions, n).len(),
        forall|j: int|
            0 <= j < input_keys(transactions, k).len() ==> input_keys(transactions, n)[j]
                == input_keys(transactions, k)[j],
    decreases n - k,
{
    if k < n {
        lemma_input_keys_prefix(transactions, k, n - 1);
    }
}

/// The spent outputs that transactions leave behind are under the keys of
/// their inputs.
pub proof fn lemma_stxo_puts_keys(transactions: Seq<FilledTransactionView>, k: int)
    requires
        0 <= k,
    ensures
        stxo_puts(transactions, k).len() == input_keys(transactions, k).len(),
        forall|j: int|
            0 <= j < stxo_puts(transactions, k).len() ==> (#[trigger] stxo_puts(transactions, k)[j]).0
                == input_keys(transactions, k)[j],
    decreases k,
{
    if k > 0 {
        lemma_stxo_puts_keys(transactions, k - 1);
    }
}

/// The outputs created by fewer transactions are the first of the outputs
/// created by more.
pub proof fn lemma_utxo_puts_prefix(
    merkle_root: hashes::MerkleRoot,
    coinbase: Seq<Output>,
    transactions: Seq<FilledTransactionView>,
    k: int,
    n: int,
)
    requires
        0 <= k <= n,
    ensures
        utxo_puts(merkle_root, coinbase, transactions, k).len() <= utxo_puts(
            merkle_root,
            coinbase,
            transactions,
            n,
        ).len(),
        forall|j: int|
            0 <= j < utxo_puts(merkle_root, coinbase, transactions, k).len() ==> utxo_puts(
                merkle_root,
                coinbase,
                transactions,
                n,
            )[j] == utxo_puts(merkle_root, coinbase, transactions, k)[j],
    decreases n - k,
{
    if k < n {
        lemma_utxo_puts_prefix(merkle_root, coinbase, transactions, k, n - 1);
    }
}

/// What must hold of a state and a block for the block to be taken back
/// without a trace: the block spends what is unspent, and nothing twice;
/// what it creates is new to the unspent outputs, and nothing is created
/// twice; and no output of the state is both unspent and spent.
pub open spec fn reversible(
    utxos: Map<Seq<u8>, Output>,
    stxos: Map<Seq<u8>, SpentOutput>,
    merkle_root: hashes::MerkleRoot,
    coinbase: Seq<Output>,
    transactions: Seq<Transaction>,
) -> bool {
    let filled = filled_views(utxos, transactions);
    let count = transactions.len() as int;
    &&& first_unfilled(utxos, transactions, count) is None
    &&& distinct(input_keys(filled, count))
    &&& fresh_keys(utxo_puts(merkle_root, coinbase, filled, count), utxos)
    &&& distinct_keys(utxo_puts(merkle_root, coinbase, filled, count))
    &&& forall|k: Seq<u8>| !(utxos.contains_key(k) && #[trigger] stxos.contains_key(k))
}

/// Where no transaction is left unfilled, every input of the first `k`
/// transactions spends an unspent output.
pub proof fn lemma_inputs_unspent(utxos: Map<Seq<u8>, Output>, transactions: Seq<Transaction>, k: int)
    requires
        0 <= k <= transactions.len(),
        first_unfilled(utxos, transactions, k) is None,
    ensures
        forall|j: int|
            0 <= j < input_keys(filled_views(utxos, transactions), k).len() ==> utxos.contains_key(
                #[trigger] input_keys(filled_views(utxos, transactions), k)[j],
            ),
        forall|t: int, i: int|
            0 <= t < k && 0 <= i < transactions[t].inputs@.len() ==> utxos.contains_key(
                (#[trigger] transactions[t].inputs@[i]).0.key_bytes(),
            ),
    decreases k,
{
    if k > 0 {
        lemma_inputs_unspent(utxos, transactions, k - 1);
        lemma_none_missing(
            utxos,
            transactions[k - 1].inputs@,
            transactions[k - 1].inputs@.len() as int,
        );
        let filled = filled_views(utxos, transactions);
        let before = input_keys(filled, k - 1);
        assert forall|j: int| 0 <= j < input_keys(filled, k).len() implies utxos.contains_key(
            #[trigger] input_keys(filled, k)[j],
        ) by {
            if j >= before.len() {
                let i = j - before.len();
                assert(input_keys(filled, k)[j] == transactions[k - 1].inputs@[i].0.key_bytes());
            } else {
                assert(input_keys(filled, k)[j] == before[j]);
            }
        }
    }
}

/// The unspent outputs once the first `k` transactions of a block are
/// connected.
pub open spec fn utxos_at(
    utxos: Map<Seq<u8>, Output>,
    merkle_root: hashes::MerkleRoot,
    coinbase: Seq<Output>,
    transactions: Seq<Transaction>,
    k: int,
) -> Map<Seq<u8>, Output> {
    let filled = filled_views(utxos, transactions);
    put_all(remove_all(utxos, input_keys(filled, k)), utxo_puts(merkle_root, coinbase, filled, k))
}

/// The spent outputs once the first `k` transactions of a block are
/// connected.
pub open spec fn stxos_at(
    utxos: Map<Seq<u8>, Output>,
    stxos: Map<Seq<u8>, SpentOutput>,
    transactions: Seq<Transaction>,
    k: int,
) -> Map<Seq<u8>, SpentOutput> {
    put_all(stxos, stxo_puts(filled_views(utxos, transactions), k))
}

/// Taking the outputs of the last connected transaction out of the unspent
/// outputs leaves what there was before they were put in.
pub proof fn lemma_unput_step(
    utxos: Map<Seq<u8>, Output>,
    stxos: Map<Seq<u8>, SpentOutput>,
    merkle_root: hashes::MerkleRoot,
    coinbase: Seq<Output>,
    transactions: Seq<Transaction>,
    k: int,
)
    requires
        1 <= k <= transactions.len(),
        reversible(utxos, stxos, merkle_root, coinbase, transactions),
    ensures
        unput(
            utxos_at(utxos, merkle_root, coinbase, transactions, k),
            output_outpoints(
                transactions[k - 1]@.txid(),
                transactions[k - 1].outputs@.len(),
            ),
        ) == Ok::<Map<Seq<u8>, Output>, OutPoint>(
            put_all(
                remove_all(utxos, input_keys(filled_views(utxos, transactions), k)),
                utxo_puts(merkle_root, coinbase, filled_views(utxos, transactions), k - 1),
            ),
        ),
{
    let filled = filled_views(utxos, transactions);
    let count = transactions.len() as int;
    let all = utxo_puts(merkle_root, coinbase, filled, count);
    let before = utxo_puts(merkle_root, coinbase, filled, k - 1);
    let created = output_entries(transactions[k - 1]@.txid(), transactions[k - 1].outputs@);
    let outpoints = output_outpoints(
        transactions[k - 1]@.txid(),
        transactions[k - 1].outputs@.len(),
    );
    let left = remove_all(utxos, input_keys(filled, k));
    let base = put_all(left, before);
    assert(utxo_puts(merkle_root, coinbase, filled, k) == before + created);
    lemma_put_all_concat(left, before, created);
    lemma_utxo_puts_prefix(merkle_root, coinbase, filled, k, count);
    lemma_utxo_puts_prefix(merkle_root, coinbase, filled, k - 1, k);
    assert forall|i: int| 0 <= i < created.len() implies all[before.len() + i] == #[trigger] created[i] by {
        assert((before + created)[before.len() + i] == created[i]);
    }
    assert(distinct_keys(created)) by {
        assert forall|i: int, j: int| 0 <= i < j < created.len() implies (#[trigger] created[i]).0 != (
        #[trigger] created[j]).0 by {
            assert(all[before.len() + i].0 != all[before.len() + j].0);
        }
    }
    assert(fresh_keys(created, base)) by {
        assert forall|i: int| 0 <= i < created.len() implies !base.contains_key(
            (#[trigger] created[i]).0,
        ) by {
            let key = created[i].0;
            lemma_put_all(left, before, key);
            lemma_remove_all(utxos, input_keys(filled, k), key);
            assert(!utxos.contains_key(all[before.len() + i].0));
            if binds(before, key) {
                let j = choose|j: int| 0 <= j < before.len() && (#[trigger] before[j]).0 == key;
                assert(all[j].0 != all[before.len() + i].0);
                assert(all[j] == before[j]);
            }
        }
    }
    lemma_unput_put_all(base, created, outpoints);
}

/// Moving the outputs that the last connected transaction spent back among
/// the unspent leaves the unspent and the spent outputs as they were
/// before the transaction.
pub proof fn lemma_unspend_step(
    utxos: Map<Seq<u8>, Output>,
    stxos: Map<Seq<u8>, SpentOutput>,
    merkle_root: hashes::MerkleRoot,
    coinbase: Seq<Output>,
    transactions: Seq<Transaction>,
    k: int,
)
    requires
        1 <= k <= transactions.len(),
        reversible(utxos, stxos, merkle_root, coinbase, transactions),
    ensures
        unspend(
            put_all(
                remove_all(utxos, input_keys(filled_views(utxos, transactions), k)),
                utxo_puts(merkle_root, coinbase, filled_views(utxos, transactions), k - 1),
            ),
            stxos_at(utxos, stxos, transactions, k),
            input_outpoints(transactions[k - 1].inputs@),
        ) == Ok::<(Map<Seq<u8>, Output>, Map<Seq<u8>, SpentOutput>), OutPoint>(
            (
                utxos_at(utxos, merkle_root, coinbase, transactions, k - 1),
                stxos_at(utxos, stxos, transactions, k - 1),
            ),
        ),
{
    let filled = filled_views(utxos, transactions);
    let count = transactions.len() as int;
    let all_keys = input_keys(filled, count);
    let keys_before = input_keys(filled, k - 1);
    let keys_now = input_keys(filled, k);
    let own = keys_of_inputs(filled[k - 1]);
    let puts = utxo_puts(merkle_root, coinbase, filled, k - 1);
    let all_puts = utxo_puts(merkle_root, coinbase, filled, count);
    let spent_before = stxo_puts(filled, k - 1);
    let spent_own = stxo_entries(filled[k - 1]);
    let outpoints = input_outpoints(transactions[k - 1].inputs@);
    let left_now = remove_all(utxos, keys_now);
    let left_before = remove_all(utxos, keys_before);
    let start = put_all(left_now, puts);
    let base = put_all(stxos, spent_before);
    assert(keys_now == keys_before + own);
    assert(stxo_puts(filled, k) == spent_before + spent_own);
    lemma_put_all_concat(stxos, spent_before, spent_own);
    lemma_input_keys_prefix(filled, k, count);
    lemma_input_keys_prefix(filled, k - 1, k);
    lemma_stxo_puts_keys(filled, k - 1);
    lemma_inputs_unspent(utxos, transactions, count);
    lemma_utxo_puts_prefix(merkle_root, coinbase, filled, k - 1, count);
    assert forall|i: int| 0 <= i < own.len() implies all_keys[keys_before.len() + i] == #[trigger] own[i] by {
        assert(keys_now[keys_before.len() + i] == own[i]);
    }
    assert(distinct_keys(spent_own)) by {
        assert forall|i: int, j: int| 0 <= i < j < spent_own.len() implies (
        #[trigger] spent_own[i]).0 != (#[trigger] spent_own[j]).0 by {
            assert(spent_own[i].0 == own[i]);
            assert(spent_own[j].0 == own[j]);
            assert(all_keys[keys_before.len() + i] != all_keys[keys_before.len() + j]);
        }
    }
    assert(fresh_keys(spent_own, base)) by {
        assert forall|i: int| 0 <= i < spent_own.len() implies !base.contains_key(
            (#[trigger] spent_own[i]).0,
        ) by {
            let key = spent_own[i].0;
            assert(key == own[i]);
            lemma_put_all(stxos, spent_before, key);
            assert(utxos.contains_key(all_keys[keys_before.len() + i]));
            assert(!stxos.contains_key(key));
            if binds(spent_before, key) {
                let j = choose|j: int|
                    0 <= j < spent_before.len() && (#[trigger] spent_before[j]).0 == key;
                assert(all_keys[j] == keys_before[j]);
                assert(all_keys[j] != all_keys[keys_before.len() + i]);
            }
        }
    }
    assert forall|i: int| 0 <= i < spent_own.len() implies (#[trigger] outpoints[i]).key_bytes()
        == spent_own[i].0 by {}
    lemma_unspend_put_all(start, base, spent_own, outpoints);
    let back = restored(spent_own);
    let got = put_all(start, back);
    let want = put_all(left_before, puts);
    assert forall|x: Seq<u8>| got.contains_key(x) <==> want.contains_key(x) by {
        lemma_restored_point(
            utxos,
            stxos,
            merkle_root,
            coinbase,
            transactions,
            k,
            x,
        );
    }
    assert forall|x: Seq<u8>| got.contains_key(x) implies got[x] == want[x] by {
        lemma_restored_point(
            utxos,
            stxos,
            merkle_root,
            coinbase,
            transactions,
            k,
            x,
        );
    }
    assert(got =~= want);
}

/// At each key, the unspent outputs with the spent outputs of the last
/// connected transaction put back are the unspent outputs before the
/// transaction.
pub proof fn lemma_restored_point(
    utxos: Map<Seq<u8>, Output>,
    stxos: Map<Seq<u8>, SpentOutput>,
    merkle_root: hashes::MerkleRoot,
    coinbase: Seq<Output>,
    transactions: Seq<Transaction>,
    k: int,
    x: Seq<u8>,
)
    requires
        1 <= k <= transactions.len(),
        reversible(utxos, stxos, merkle_root, coinbase, transactions),
    ensures
        ({
            let filled = filled_views(utxos, transactions);
            let puts = utxo_puts(merkle_root, coinbase, filled, k - 1);
            let got = put_all(
                put_all(remove_all(utxos, input_keys(filled, k)), puts),
                restored(stxo_entries(filled[k - 1])),
            );
            let want = put_all(remove_all(utxos, input_keys(filled, k - 1)), puts);
            &&& got.contains_key(x) <==> want.contains_key(x)
            &&& got.contains_key(x) ==> got[x] == want[x]
        }),
{
    let filled = filled_views(utxos, transactions);
    let count = transactions.len() as int;
    let all_keys = input_keys(filled, count);
    let keys_before = input_keys(filled, k - 1);
    let keys_now = input_keys(filled, k);
    let own = keys_of_inputs(filled[k - 1]);
    let puts = utxo_puts(merkle_root, coinbase, filled, k - 1);
    let all_puts = utxo_puts(merkle_root, coinbase, filled, count);
    let spent_own = stxo_entries(filled[k - 1]);
    let back = restored(spent_own);
    let left_now = remove_all(utxos, keys_now);
    let left_before = remove_all(utxos, keys_before);
    let start = put_all(left_now, puts);
    let got = put_all(start, back);
    let want = put_all(left_before, puts);
    assert(keys_now == keys_before + own);
    lemma_input_keys_prefix(filled, k, count);
    lemma_input_keys_prefix(filled, k - 1, k);
    lemma_inputs_unspent(utxos, transactions, count);
    lemma_utxo_puts_prefix(merkle_root, coinbase, filled, k - 1, count);
    lemma_put_all(start, back, x);
    lemma_put_all(left_now, puts, x);
    lemma_put_all(left_before, puts, x);
    lemma_remove_all(utxos, keys_now, x);
    lemma_remove_all(utxos, keys_before, x);
    assert forall|i: int| 0 <= i < own.len() implies all_keys[keys_before.len() + i] == #[trigger] own[i] by {
        assert(keys_now[keys_before.len() + i] == own[i]);
    }
    if binds(puts, x) {
        let j = choose|j: int| 0 <= j < puts.len() && (#[trigger] puts[j]).0 == x;
        assert(all_puts[j] == puts[j]);
        assert(!utxos.contains_key(all_puts[j].0));
    }
    if binds(back, x) {
        let i = choose|i: int| 0 <= i < back.len() && (#[trigger] back[i]).0 == x;
        assert(back[i].0 == own[i]);
        assert(utxos.contains_key(all_keys[keys_before.len() + i]));
        assert(!binds(puts, x));
        assert(!keys_before.contains(x)) by {
            if keys_before.contains(x) {
                let j = keys_before.index_of(x);
                assert(all_keys[j] == keys_before[j]);
                assert(all_keys[j] != all_keys[keys_before.len() + i]);
            }
        }
        assert forall|j: int| i < j < back.len() implies (#[trigger] back[j]).0 != back[i].0 by {
            assert(back[j].0 == own[j]);
            assert(all_keys[keys_before.len() + i] != all_keys[keys_before.len() + j]);
        }
        lemma_put_all_at(start, back, i);
        assert(back[i].1 == utxos[x]);
    } else {
        assert(!own.contains(x)) by {
            if own.contains(x) {
                let i = own.index_of(x);
                assert(back[i].0 == x);
            }
        }
        assert(keys_now.contains(x) <==> keys_before.contains(x)) by {
            if keys_now.contains(x) {
                let j = keys_now.index_of(x);
                if j < keys_before.len() {
                    assert(keys_before[j] == x);
                } else {
                    assert(own[j - keys_before.len()] == x);
                }
            }
            if keys_before.contains(x) {
                let j = keys_before.index_of(x);
                assert(keys_now[j] == x);
            }
        }
        if binds(puts, x) {
            lemma_put_all_bound(left_now, left_before, puts, x);
        }
    }
}


/// The nullifiers once the shielded parts of the first `k` transactions are
/// connected.
pub open spec fn nullifiers_at(
    leaves: Seq<hashes::Hash>,
    seen: Set<Seq<u8>>,
    transactions: Seq<FilledTransactionView>,
    k: int,
) -> Set<Seq<u8>> {
    orchard_after(leaves, seen, transactions, k)->Ok_0.1
}

/// Disconnecting the last connected transaction leaves the ledger as it
/// was before the transaction.
pub proof fn lemma_disconnect_step(
    utxos: Map<Seq<u8>, Output>,
    stxos: Map<Seq<u8>, SpentOutput>,
    leaves: Seq<hashes::Hash>,
    seen: Set<Seq<u8>>,
    merkle_root: hashes::MerkleRoot,
    coinbase: Seq<Output>,
    transactions: Seq<Transaction>,
    k: int,
)
    requires
        1 <= k <= transactions.len(),
        reversible(utxos, stxos, merkle_root, coinbase, transactions),
        orchard_after(leaves, seen, filled_views(utxos, transactions), k) is Ok,
    ensures
        orchard_after(leaves, seen, filled_views(utxos, transactions), k - 1) is Ok,
        spec_disconnect_transaction(
            Ledger {
                utxos: utxos_at(utxos, merkle_root, coinbase, transactions, k),
                stxos: stxos_at(utxos, stxos, transactions, k),
                nullifiers: nullifiers_at(leaves, seen, filled_views(utxos, transactions), k),
            },
            transactions[k - 1]@,
        ) == Ok::<Ledger, crate::state::error::Error>(
            Ledger {
                utxos: utxos_at(utxos, merkle_root, coinbase, transactions, k - 1),
                stxos: stxos_at(utxos, stxos, transactions, k - 1),
                nullifiers: nullifiers_at(leaves, seen, filled_views(utxos, transactions), k - 1),
            },
        ),
{
    let filled = filled_views(utxos, transactions);
    lemma_unput_step(utxos, stxos, merkle_root, coinbase, transactions, k);
    lemma_unspend_step(utxos, stxos, merkle_root, coinbase, transactions, k);
    let earlier = orchard_after(leaves, seen, filled, k - 1);
    assert(earlier is Ok);
    assert(filled[k - 1].transaction == transactions[k - 1]@);
    match transactions[k - 1]@.orchard_bundle {
        Some(bundle) => {
            assert(spec_connect_orchard(earlier->Ok_0.0.len() as int, earlier->Ok_0.1, bundle) is Ok);
            lemma_forget_nullifiers(earlier->Ok_0.1, bundle.nullifiers);
        },
        None => {},
    }
}

/// Disconnecting the first `k` transactions of a block from the ledger in
/// which they are connected leaves the ledger in which only the coinbase
/// of the block is connected.
pub proof fn lemma_disconnect_all(
    utxos: Map<Seq<u8>, Output>,
    stxos: Map<Seq<u8>, SpentOutput>,
    leaves: Seq<hashes::Hash>,
    seen: Set<Seq<u8>>,
    merkle_root: hashes::MerkleRoot,
    coinbase: Seq<Output>,
    transactions: Seq<Transaction>,
    k: int,
)
    requires
        0 <= k <= transactions.len(),
        reversible(utxos, stxos, merkle_root, coinbase, transactions),
        orchard_after(leaves, seen, filled_views(utxos, transactions), k) is Ok,
    ensures
        disconnect_transactions(
            Ledger {
                utxos: utxos_at(utxos, merkle_root, coinbase, transactions, k),
                stxos: stxos_at(utxos, stxos, transactions, k),
                nullifiers: nullifiers_at(leaves, seen, filled_views(utxos, transactions), k),
            },
            transactions,
            k,
        ) == Ok::<Ledger, crate::state::error::Error>(
            Ledger {
                utxos: put_all(utxos, coinbase_entries(merkle_root, coinbase)),
                stxos,
                nullifiers: seen,
            },
        ),
    decreases k,
{
    let filled = filled_views(utxos, transactions);
    if k > 0 {
        lemma_disconnect_step(utxos, stxos, leaves, seen, merkle_root, coinbase, transactions, k);
        lemma_disconnect_all(utxos, stxos, leaves, seen, merkle_root, coinbase, transactions, k - 1);
    } else {
        assert(input_keys(filled, 0) =~= Seq::<Seq<u8>>::empty());
        assert(stxo_puts(filled, 0) =~= Seq::<(Seq<u8>, SpentOutput)>::empty());
    }
}

/// Connecting a block that validates and then disconnecting it gives back
/// the tip, the height, the unspent and the spent outputs, the nullifiers
/// and the historical roots of the state, and the accumulator that is put
/// back. This holds where what the block creates is new to the unspent
/// outputs and created once, where no output of the state is both unspent
/// and spent, and where the block is not yet named among the historical
/// roots.
pub proof fn lemma_connect_then_disconnect(
    before: StateView,
    after: StateView,
    below: StateView,
    header: Header,
    body: Body,
    verdicts: Seq<OrchardVerdict>,
    prev_accumulator: AccumulatorView,
    prev_frontier: Option<NoteFrontier>,
)
    requires
        before.height != Some(u32::MAX),
        spec_prevalidate(before, header, body, verdicts) is Ok,
        connected(
            before,
            after,
            header,
            body.coinbase@,
            spec_prevalidate(before, header, body, verdicts)->Ok_0,
        ),
        spec_disconnect_tip(after, header, body, prev_accumulator, prev_frontier) == Ok::<
            StateView,
            crate::state::error::Error,
        >(below),
        fresh_keys(
            utxo_puts(
                body.spec_merkle_root(),
                body.coinbase@,
                filled_views(before.utxos, body.transactions@),
                body.transactions@.len() as int,
            ),
            before.utxos,
        ),
        distinct_keys(
            utxo_puts(
                body.spec_merkle_root(),
                body.coinbase@,
                filled_views(before.utxos, body.transactions@),
                body.transactions@.len() as int,
            ),
        ),
        forall|k: Seq<u8>| !(before.utxos.contains_key(k) && #[trigger] before.stxos.contains_key(k)),
        forall|k: Seq<u8>| #[trigger]
            before.orchard.historical_roots.contains_key(k)
                ==> before.orchard.historical_roots[k] != header.spec_hash(),
    ensures
        below.tip == before.tip,
        below.height == before.height,
        below.utxos == before.utxos,
        below.stxos == before.stxos,
        below.orchard.nullifiers == before.orchard.nullifiers,
        below.orchard.historical_roots == before.orchard.historical_roots,
        below.accumulator == prev_accumulator,
{
    let merkle_root = body.spec_merkle_root();
    let coinbase = body.coinbase@;
    let transactions = body.transactions@;
    let count = transactions.len() as int;
    let filled = filled_views(before.utxos, transactions);
    let leaves = before.orchard.frontier.leaves();
    let seen = before.orchard.nullifiers;
    assert(reversible(before.utxos, before.stxos, merkle_root, coinbase, transactions));
    lemma_disconnect_all(
        before.utxos,
        before.stxos,
        leaves,
        seen,
        merkle_root,
        coinbase,
        transactions,
        count,
    );
    let entries = coinbase_entries(merkle_root, coinbase);
    let outpoints = coinbase_outpoints(merkle_root, coinbase.len());
    lemma_utxo_puts_prefix(merkle_root, coinbase, filled, 0, count);
    let all = utxo_puts(merkle_root, coinbase, filled, count);
    assert(distinct_keys(entries)) by {
        assert forall|i: int, j: int| 0 <= i < j < entries.len() implies (#[trigger] entries[i]).0 != (
        #[trigger] entries[j]).0 by {
            assert(all[i] == entries[i] && all[j] == entries[j]);
        }
    }
    assert(fresh_keys(entries, before.utxos)) by {
        assert forall|i: int| 0 <= i < entries.len() implies !before.utxos.contains_key(
            (#[trigger] entries[i]).0,
        ) by {
            assert(all[i] == entries[i]);
        }
    }
    assert forall|i: int| 0 <= i < entries.len() implies (#[trigger] outpoints[i]).key_bytes()
        == entries[i].0 by {}
    lemma_unput_put_all(before.utxos, entries, outpoints);
    let block_hash = header.spec_hash();
    assert(without_block(after.orchard.historical_roots, block_hash)
        =~= before.orchard.historical_roots);
}


/// Connecting a block that validates keeps the unspent and the spent
/// outputs apart: where no output was both unspent and spent, and what the
/// block creates is new to both, no output is both afterwards.
pub proof fn lemma_connect_keeps_apart(
    before: StateView,
    after: StateView,
    header: Header,
    body: Body,
    verdicts: Seq<OrchardVerdict>,
)
    requires
        spec_prevalidate(before, header, body, verdicts) is Ok,
        connected(
            before,
            after,
            header,
            body.coinbase@,
            spec_prevalidate(before, header, body, verdicts)->Ok_0,
        ),
        forall|k: Seq<u8>| !(before.utxos.contains_key(k) && #[trigger] before.stxos.contains_key(k)),
        fresh_keys(
            utxo_puts(
                body.spec_merkle_root(),
                body.coinbase@,
                filled_views(before.utxos, body.transactions@),
                body.transactions@.len() as int,
            ),
            before.utxos,
        ),
        fresh_keys(
            utxo_puts(
                body.spec_merkle_root(),
                body.coinbase@,
                filled_views(before.utxos, body.transactions@),
                body.transactions@.len() as int,
            ),
            before.stxos,
        ),
    ensures
        forall|k: Seq<u8>| !(after.utxos.contains_key(k) && #[trigger] after.stxos.contains_key(k)),
{
    let transactions = body.transactions@;
    let count = transactions.len() as int;
    let filled = filled_views(before.utxos, transactions);
    let created = utxo_puts(body.spec_merkle_root(), body.coinbase@, filled, count);
    let spent = stxo_puts(filled, count);
    let keys = input_keys(filled, count);
    lemma_stxo_puts_keys(filled, count);
    lemma_inputs_unspent(before.utxos, transactions, count);
    assert forall|k: Seq<u8>| !(after.utxos.contains_key(k) && #[trigger] after.stxos.contains_key(
        k,
    )) by {
        lemma_put_all(remove_all(before.utxos, keys), created, k);
        lemma_remove_all(before.utxos, keys, k);
        lemma_put_all(before.stxos, spent, k);
        if binds(created, k) {
            let i = choose|i: int| 0 <= i < created.len() && (#[trigger] created[i]).0 == k;
            assert(!before.utxos.contains_key(created[i].0));
            assert(!before.stxos.contains_key(created[i].0));
        }
        if binds(spent, k) {
            let j = choose|j: int| 0 <= j < spent.len() && (#[trigger] spent[j]).0 == k;
            assert(keys[j] == k);
            assert(keys.contains(k));
        }
    }
}

} // verus!
