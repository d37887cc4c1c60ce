use thunder_orchard::authorization::{authorize, get_address, OrchardVerdict, SigningKey};
use thunder_orchard::state::block::{connect_orchard, disconnect_orchard, prevalidate};
use thunder_orchard::state::error::{
    ConnectBlock, ConnectTransaction, Error, InvalidBody, InvalidHeader, NoUtxo, Orchard,
};
use thunder_orchard::state::State;
use thunder_orchard::types::accumulator::AccumulatorDiff;
use thunder_orchard::types::hashes::{BlockHash, M6id, MerkleRoot, Txid};
use thunder_orchard::types::header::Header;
use thunder_orchard::types::orchard::empty_tree;
use thunder_orchard::types::transaction::{
    AmountOverflowError, AuthorizedTransaction, BitcoinOutPoint, Body, Content, FilledTransaction,
    InPoint, OrchardBundle, OutPoint, OutPointKey, Output, PointedOutput, Proof, SpentOutput,
    Transaction, TransparentAddress,
};

fn key(seed: u8) -> SigningKey {
    SigningKey([seed; 32])
}

fn address(seed: u8) -> TransparentAddress {
    get_address(&key(seed).verifying_key())
}

fn value_output(seed: u8, value: u64) -> Output {
    Output { address: address(seed), content: Content::Value(value) }
}

fn deposit(tag: u8) -> OutPoint {
    OutPoint::Deposit(BitcoinOutPoint { txid: [tag; 32], vout: 0 })
}

/// A state that holds deposited outputs: one for each pair of owner and value.
fn state_with(deposits: &[(u8, u64)]) -> (State, Vec<(OutPoint, Output)>) {
    let mut state = State::new();
    let mut diff = AccumulatorDiff::default();
    let mut held = Vec::new();
    for (i, (seed, value)) in deposits.iter().enumerate() {
        let outpoint = deposit(100 + i as u8);
        let output = value_output(*seed, *value);
        state.utxos.put(OutPointKey::from_outpoint(&outpoint).as_bytes(), output);
        diff.insert(PointedOutput { outpoint, output }.node_hash());
        held.push((outpoint, output));
    }
    state.utreexo_accumulator.apply_diff(diff).unwrap();
    (state, held)
}

fn bundle(nullifiers: Vec<[u8; 32]>, commitments: Vec<[u8; 32]>, balance: i64) -> OrchardBundle {
    OrchardBundle {
        nullifiers,
        note_commitments: commitments,
        value_balance: balance,
        anchor: empty_tree(),
        spends_enabled: false,
        effects: vec![1, 2, 3],
        authorization: vec![4],
    }
}

fn spend(
    state: &State,
    owners: &[u8],
    inputs: &[(OutPoint, Output)],
    outputs: Vec<Output>,
    orchard_bundle: Option<OrchardBundle>,
) -> AuthorizedTransaction {
    let pointed: Vec<PointedOutput> = inputs
        .iter()
        .map(|(outpoint, output)| PointedOutput { outpoint: *outpoint, output: *output })
        .collect();
    let transaction = Transaction {
        inputs: pointed.iter().map(|p| (p.outpoint, p.node_hash())).collect(),
        proof: state.get_utreexo_proof(&pointed).unwrap(),
        outputs,
        orchard_bundle,
    };
    let keys = owners.iter().map(|seed| (address(*seed), key(*seed))).collect();
    authorize(&keys, transaction).unwrap()
}

fn header_for(state: &State, body: &Body) -> Header {
    let mut accumulator = state.get_accumulator();
    body.modify_memforest(&mut accumulator).unwrap();
    Header {
        prev_side_hash: state.try_get_tip(),
        prev_main_hash: [0; 32],
        merkle_root: body.compute_merkle_root(),
        roots: accumulator.get_roots(),
    }
}

fn filled(spent: &[u64], created: &[u64], balance: Option<i64>) -> FilledTransaction {
    FilledTransaction {
        transaction: Transaction {
            inputs: vec![],
            proof: Proof::default(),
            outputs: created.iter().map(|v| value_output(1, *v)).collect(),
            orchard_bundle: balance.map(|b| bundle(vec![], vec![], b)),
        },
        spent_utxos: spent.iter().map(|v| value_output(1, *v)).collect(),
    }
}

#[test]
fn fee_is_what_goes_in_beyond_what_comes_out() {
    let state = State::new();
    assert_eq!(state.validate_filled_transaction(&filled(&[10, 5], &[7, 3], None)), Ok(5));
    assert_eq!(state.validate_filled_transaction(&filled(&[10], &[10], None)), Ok(0));
    assert_eq!(
        state.validate_filled_transaction(&filled(&[10], &[11], None)),
        Err(Error::NotEnoughValueIn)
    );
    assert_eq!(state.validate_filled_transaction(&filled(&[], &[], None)), Ok(0));
}

#[test]
fn shielded_balance_counts_on_its_side() {
    let state = State::new();
    // A positive balance leaves the shielded pool and goes in.
    assert_eq!(state.validate_filled_transaction(&filled(&[10], &[12], Some(5))), Ok(3));
    // A negative balance enters the shielded pool and comes out.
    assert_eq!(state.validate_filled_transaction(&filled(&[10], &[2], Some(-5))), Ok(3));
    assert_eq!(
        state.validate_filled_transaction(&filled(&[10], &[6], Some(-5))),
        Err(Error::NotEnoughValueIn)
    );
    assert_eq!(state.validate_filled_transaction(&filled(&[10], &[4], Some(0))), Ok(6));
    assert_eq!(
        state.validate_filled_transaction(&filled(&[u64::MAX], &[0], Some(i64::MIN))),
        Ok(u64::MAX - (1 << 63))
    );
}

#[test]
fn sums_over_64_bits_are_refused() {
    let state = State::new();
    let overflow = Err(Error::AmountOverflow(AmountOverflowError));
    assert_eq!(state.validate_filled_transaction(&filled(&[u64::MAX, 1], &[], None)), overflow);
    assert_eq!(state.validate_filled_transaction(&filled(&[], &[u64::MAX, 1], None)), overflow);
    assert_eq!(state.validate_filled_transaction(&filled(&[u64::MAX], &[], Some(1))), overflow);
    assert_eq!(
        state.validate_filled_transaction(&filled(&[], &[u64::MAX], Some(-1))),
        overflow
    );
    let sums = filled(&[u64::MAX, 1], &[3, 4], None);
    assert_eq!(sums.get_value_in(), Err(AmountOverflowError));
    assert_eq!(sums.get_value_out(), Ok(7));
    assert_eq!(sums.get_fee(), Err(AmountOverflowError));
    assert_eq!(filled(&[10], &[3, 4], None).get_fee(), Ok(Some(3)));
    assert_eq!(filled(&[6], &[3, 4], None).get_fee(), Ok(None));
}

#[test]
fn filling_looks_up_each_input() {
    let (state, held) = state_with(&[(1, 10), (2, 20)]);
    let transaction = Transaction {
        inputs: vec![(held[1].0, [0; 32]), (held[0].0, [0; 32])],
        ..Transaction::default()
    };
    let filled = state.fill_transaction(&transaction).unwrap();
    assert_eq!(filled.spent_utxos, vec![held[1].1, held[0].1]);
    assert_eq!(filled.transaction, transaction);
    let missing = Transaction {
        inputs: vec![(held[1].0, [0; 32]), (deposit(1), [0; 32]), (deposit(2), [0; 32])],
        ..Transaction::default()
    };
    assert_eq!(
        state.fill_transaction(&missing),
        Err(Error::NoUtxo(NoUtxo { outpoint: deposit(1) }))
    );
}

#[test]
fn transaction_for_the_pool() {
    let (state, held) = state_with(&[(1, 10), (2, 20)]);
    let good = spend(&state, &[1, 2], &held, vec![value_output(3, 25)], None);
    assert_eq!(state.validate_transaction(&good, OrchardVerdict::Valid), Ok(5));

    let wrong_key = spend(&state, &[2, 1], &held, vec![value_output(3, 25)], None);
    assert_eq!(
        state.validate_transaction(&wrong_key, OrchardVerdict::Valid),
        Err(Error::WrongPubKeyForAddress)
    );

    let mut bad_signature = spend(&state, &[1, 2], &held, vec![value_output(3, 25)], None);
    bad_signature.authorizations[1].signature[3] ^= 1;
    assert_eq!(
        state.validate_transaction(&bad_signature, OrchardVerdict::Valid),
        Err(Error::AuthorizationError)
    );

    let greedy = spend(&state, &[1, 2], &held, vec![value_output(3, 31)], None);
    assert_eq!(
        state.validate_transaction(&greedy, OrchardVerdict::Valid),
        Err(Error::NotEnoughValueIn)
    );

    let unknown = spend(&state, &[1], &held[..1], vec![], None);
    let mut elsewhere = unknown.transaction.clone();
    elsewhere.inputs[0].0 = deposit(1);
    let unknown = authorize(&vec![(address(1), key(1))], elsewhere).unwrap();
    assert_eq!(
        state.validate_transaction(&unknown, OrchardVerdict::Valid),
        Err(Error::NoUtxo(NoUtxo { outpoint: deposit(1) }))
    );
}

#[test]
fn anchor_rule() {
    let (mut state, held) = state_with(&[(1, 10)]);
    let shielded = |anchor: [u8; 32], spends_enabled: bool| {
        let mut orchard_bundle = bundle(vec![[1; 32]], vec![], 0);
        orchard_bundle.anchor = anchor;
        orchard_bundle.spends_enabled = spends_enabled;
        spend(&state, &[1], &held, vec![], Some(orchard_bundle))
    };
    let empty_no_spends = shielded(empty_tree(), false);
    let empty_with_spends = shielded(empty_tree(), true);
    let unknown = shielded([3; 32], false);
    assert_eq!(state.validate_transaction(&empty_no_spends, OrchardVerdict::Valid), Ok(10));
    assert_eq!(
        state.validate_transaction(&empty_with_spends, OrchardVerdict::Valid),
        Err(Error::Orchard(Orchard::EmptyAnchor))
    );
    assert_eq!(
        state.validate_transaction(&unknown, OrchardVerdict::Valid),
        Err(Error::Orchard(Orchard::InvalidAnchor { anchor: [3; 32] }))
    );
    assert_eq!(
        state.validate_transaction(&empty_no_spends, OrchardVerdict::InvalidProof),
        Err(Error::AuthorizationError)
    );
    // An anchor that the tree had at some tip is good, spends or none.
    assert!(state.orchard.put_historical_root(BlockHash([1; 32]), [3; 32]));
    assert!(!state.orchard.put_historical_root(BlockHash([2; 32]), [3; 32]));
    assert_eq!(state.validate_transaction(&unknown, OrchardVerdict::Valid), Ok(10));
    assert!(state.orchard.is_historical_root(&[3; 32]));
    assert!(state.orchard.delete_historical_root(BlockHash([1; 32])));
    assert!(!state.orchard.delete_historical_root(BlockHash([1; 32])));
    assert!(!state.orchard.is_historical_root(&[3; 32]));
}

#[test]
fn block_rules_in_order() {
    let (state, held) = state_with(&[(1, 10), (2, 20)]);
    let transaction = spend(&state, &[1], &held[..1], vec![value_output(3, 4)], None);
    let body = Body::new(vec![transaction.clone()], vec![value_output(4, 6)]);
    let header = header_for(&state, &body);
    assert_eq!(state.validate_block(&header, &body, &vec![]), Ok(6));

    let wrong_root = Header { merkle_root: MerkleRoot([1; 32]), roots: header.roots.clone(), ..header };
    assert_eq!(
        state.validate_block(&wrong_root, &body, &vec![]),
        Err(Error::InvalidBody(InvalidBody {
            expected: body.compute_merkle_root(),
            computed: MerkleRoot([1; 32]),
        }))
    );

    let wrong_roots = Header { roots: vec![[1; 32]], ..header_for(&state, &body) };
    assert_eq!(
        state.validate_block(&wrong_roots, &body, &vec![]),
        Err(Error::UtreexoRootsMismatch)
    );

    let mut wrong_owner = Body::new(vec![transaction.clone()], vec![]);
    wrong_owner.authorizations[0] = spend(&state, &[2], &held[1..], vec![], None).authorizations[0];
    assert_eq!(
        state.validate_block(&header_for(&state, &wrong_owner), &wrong_owner, &vec![]),
        Err(Error::WrongPubKeyForAddress)
    );

    let mut forged = Body::new(vec![transaction.clone()], vec![]);
    forged.authorizations[0].signature[1] ^= 1;
    assert_eq!(
        state.validate_block(&header_for(&state, &forged), &forged, &vec![]),
        Err(Error::AuthorizationError)
    );

    let mut unsigned = Body::new(vec![transaction.clone()], vec![]);
    unsigned.authorizations.clear();
    assert_eq!(
        state.validate_block(&header_for(&state, &unsigned), &unsigned, &vec![]),
        Err(Error::AuthorizationError)
    );

    let rich = Body::new(vec![], vec![value_output(4, u64::MAX), value_output(4, 1)]);
    assert_eq!(
        state.validate_block(&header_for(&state, &rich), &rich, &vec![]),
        Err(Error::AmountOverflow(AmountOverflowError))
    );

    let mut stray = transaction.transaction.clone();
    stray.inputs[0].0 = deposit(1);
    let stray = Body::new(vec![authorize(&vec![(address(1), key(1))], stray).unwrap()], vec![]);
    let stray_header = Header {
        prev_side_hash: None,
        prev_main_hash: [0; 32],
        merkle_root: stray.compute_merkle_root(),
        roots: vec![],
    };
    assert_eq!(
        state.validate_block(&stray_header, &stray, &vec![]),
        Err(Error::NoUtxo(NoUtxo { outpoint: deposit(1) }))
    );
}

#[test]
fn leaf_that_the_accumulator_lacks() {
    let (state, held) = state_with(&[(1, 10)]);
    // An empty proof proves nothing and so holds; the leaf that the input names is not in
    // the accumulator, which then cannot take the block.
    let transaction = Transaction {
        inputs: vec![(held[0].0, [9; 32])],
        proof: Proof::default(),
        outputs: vec![],
        orchard_bundle: None,
    };
    let authorized = authorize(&vec![(address(1), key(1))], transaction).unwrap();
    let body = Body::new(vec![authorized], vec![]);
    let header = Header {
        prev_side_hash: None,
        prev_main_hash: [0; 32],
        merkle_root: body.compute_merkle_root(),
        roots: vec![],
    };
    assert_eq!(
        state.validate_block(&header, &body, &vec![]),
        Err(Error::Utreexo(thunder_orchard::types::accumulator::UtreexoError))
    );
}

#[test]
fn too_many_authorizations_for_the_height() {
    let state = State::new();
    let mut body = Body::new(vec![], vec![]);
    let authorization = spend(&state_with(&[(1, 1)]).0, &[1], &state_with(&[(1, 1)]).1, vec![], None)
        .authorizations[0];
    body.authorizations = vec![authorization; 42801];
    let header = Header {
        prev_side_hash: None,
        prev_main_hash: [0; 32],
        merkle_root: body.compute_merkle_root(),
        roots: vec![],
    };
    assert_eq!(state.validate_block(&header, &body, &vec![]), Err(Error::TooManySigops));
    // One fewer is within the limit; then the body fails later, for want of inputs.
    body.authorizations.pop();
    assert_eq!(state.validate_block(&header, &body, &vec![]), Err(Error::AuthorizationError));
}

#[test]
fn body_over_the_size_limit() {
    let state = State::new();
    // Each output takes 29 bytes; 8 MiB take 289263 of them, with the three length prefixes.
    let fits = (8 * 1024 * 1024 - 12) / 29;
    let body = Body::new(vec![], vec![value_output(1, 0); fits + 1]);
    let header = Header {
        prev_side_hash: None,
        prev_main_hash: [0; 32],
        merkle_root: MerkleRoot([0; 32]),
        roots: vec![],
    };
    assert_eq!(state.validate_block(&header, &body, &vec![]), Err(Error::BodyTooLarge));
    let body = Body::new(vec![], vec![value_output(1, 0); fits]);
    assert_eq!(
        state.validate_block(&header, &body, &vec![]),
        Err(Error::InvalidBody(InvalidBody {
            expected: body.compute_merkle_root(),
            computed: MerkleRoot([0; 32]),
        }))
    );
}

#[test]
fn shielded_parts_are_connected_and_taken_back() {
    let (mut state, held) = state_with(&[(1, 10), (2, 20)]);
    let before_root = state.orchard.frontier().root();
    assert_eq!(before_root, empty_tree());
    let mut commitment = [0u8; 32];
    commitment[0] = 7;
    let first = spend(
        &state,
        &[1],
        &held[..1],
        vec![],
        Some(bundle(vec![[1; 32], [2; 32]], vec![commitment], -10)),
    );
    let second = spend(&state, &[2], &held[1..], vec![value_output(3, 20)], None);
    let body = Body::new(vec![first, second], vec![]);
    let header = header_for(&state, &body);
    let verdicts = vec![OrchardVerdict::Valid, OrchardVerdict::Valid];
    let prev_accumulator = state.get_accumulator();
    let prev_frontier = state.orchard.frontier().copy();

    let saved = state.connect_block(&header, &body, &verdicts).unwrap().unwrap();
    assert_eq!(saved.root(), state.orchard.frontier().root());
    assert_ne!(saved.root(), before_root);
    assert!(state.orchard.has_nullifier(&[1; 32]));
    assert!(state.orchard.has_nullifier(&[2; 32]));
    assert!(state.orchard.is_historical_root(&saved.root()));

    // A block that shows a nullifier again cannot be connected, and leaves no trace.
    let created = OutPoint::Regular { txid: body.transactions[1].txid(), vout: 0 };
    let again = spend(
        &state,
        &[3],
        &[(created, value_output(3, 20))],
        vec![],
        Some(bundle(vec![[3; 32], [2; 32]], vec![], -20)),
    );
    let txid = again.transaction.txid();
    let body_again = Body::new(vec![again], vec![]);
    let header_again = header_for(&state, &body_again);
    assert_eq!(
        state.connect_block(&header_again, &body_again, &vec![OrchardVerdict::Valid]),
        Err(Error::ConnectBlock(ConnectBlock::ConnectTransaction {
            txid,
            source: ConnectTransaction::Orchard(Orchard::NullifierDoubleSpent {
                nullifier: [2; 32]
            }),
        }))
    );
    assert!(!state.orchard.has_nullifier(&[3; 32]));
    assert_eq!(state.try_get_tip(), Some(header.hash()));
    assert_eq!(state.utxos.len(), 1);

    // A block whose commitment is no commitment cannot be connected either.
    let broken = spend(
        &state,
        &[3],
        &[(created, value_output(3, 20))],
        vec![],
        Some(bundle(vec![[3; 32]], vec![[0xff; 32]], -20)),
    );
    let txid = broken.transaction.txid();
    let body_broken = Body::new(vec![broken], vec![]);
    assert_eq!(
        state.connect_block(
            &header_for(&state, &body_broken),
            &body_broken,
            &vec![OrchardVerdict::Valid]
        ),
        Err(Error::ConnectBlock(ConnectBlock::ConnectTransaction {
            txid,
            source: ConnectTransaction::Orchard(Orchard::AppendCommitment),
        }))
    );

    // A block without commitments leaves the root as it is: nothing to keep.
    let plain = spend(&state, &[3], &[(created, value_output(3, 20))], vec![], None);
    let body_plain = Body::new(vec![plain], vec![]);
    let header_plain = header_for(&state, &body_plain);
    let accumulator_between = state.get_accumulator();
    assert_eq!(state.connect_block(&header_plain, &body_plain, &vec![]), Ok(None));
    assert_eq!(state.try_get_height(), Some(1));
    state.disconnect_tip(&header_plain, &body_plain, &accumulator_between, None).unwrap();
    assert_eq!(state.try_get_height(), Some(0));
    assert_eq!(state.try_get_tip(), Some(header.hash()));
    assert!(state.orchard.is_historical_root(&saved.root()));

    state.disconnect_tip(&header, &body, &prev_accumulator, Some(&prev_frontier)).unwrap();
    assert!(!state.orchard.has_nullifier(&[1; 32]));
    assert!(!state.orchard.has_nullifier(&[2; 32]));
    assert!(!state.orchard.is_historical_root(&saved.root()));
    assert_eq!(state.orchard.frontier().root(), before_root);
    assert_eq!(state.try_get_tip(), None);
    assert_eq!(state.get_utxos(), {
        let mut all = held.clone();
        all.sort_by_key(|(outpoint, _)| *OutPointKey::from_outpoint(outpoint).as_bytes());
        all
    });
    assert_eq!(state.get_accumulator().get_roots(), prev_accumulator.get_roots());
}

#[test]
fn shielded_steps_alone() {
    let mut state = State::new();
    let first = bundle(vec![[1; 32]], vec![[0; 32]], 0);
    assert_eq!(connect_orchard(&mut state.orchard, &first), Ok(()));
    let repeated = bundle(vec![[2; 32], [2; 32]], vec![], 0);
    let mut scratch = state.orchard.copy();
    assert_eq!(
        connect_orchard(&mut scratch, &repeated),
        Err(Orchard::NullifierDoubleSpent { nullifier: [2; 32] })
    );
    disconnect_orchard(&mut state.orchard, &first);
    assert!(!state.orchard.has_nullifier(&[1; 32]));
    assert!(!state.orchard.delete_nullifier(&[1; 32]));
    state.orchard.put_nullifier(&[4; 32]);
    assert!(state.orchard.delete_nullifier(&[4; 32]));
}

#[test]
fn disconnect_checks_the_block() {
    let (mut state, held) = state_with(&[(1, 10)]);
    let prev_accumulator = state.get_accumulator();
    let transaction = spend(&state, &[1], &held, vec![value_output(2, 10)], None);
    let body = Body::new(vec![transaction], vec![]);
    let header = header_for(&state, &body);
    state.connect_block(&header, &body, &vec![]).unwrap();

    let other = Header { prev_main_hash: [1; 32], roots: header.roots.clone(), ..header };
    assert_eq!(
        state.disconnect_tip(&other, &body, &prev_accumulator, None),
        Err(Error::InvalidHeader(InvalidHeader::BlockHash {
            expected: header.hash(),
            computed: other.hash(),
        }))
    );
    let other_body = Body::new(vec![], vec![]);
    assert_eq!(
        state.disconnect_tip(&header, &other_body, &prev_accumulator, None),
        Err(Error::InvalidBody(InvalidBody {
            expected: other_body.compute_merkle_root(),
            computed: header.merkle_root,
        }))
    );

    let created = OutPoint::Regular { txid: body.transactions[0].txid(), vout: 0 };
    let created_key = OutPointKey::from_outpoint(&created);
    let taken = state.utxos.take(created_key.as_bytes()).unwrap();
    assert_eq!(
        state.disconnect_tip(&header, &body, &prev_accumulator, None),
        Err(Error::NoUtxo(NoUtxo { outpoint: created }))
    );
    state.utxos.put(created_key.as_bytes(), taken);

    let spent_key = OutPointKey::from_outpoint(&held[0].0);
    let spent = state.stxos.take(spent_key.as_bytes()).unwrap();
    assert_eq!(
        spent,
        SpentOutput {
            output: held[0].1,
            inpoint: InPoint::Regular { txid: body.transactions[0].txid(), vin: 0 },
        }
    );
    assert_eq!(
        state.disconnect_tip(&header, &body, &prev_accumulator, None),
        Err(Error::NoStxo { outpoint: held[0].0 })
    );
    assert!(state.utxos.contains_key(created_key.as_bytes()));
    state.stxos.put(spent_key.as_bytes(), spent);
    assert_eq!(state.disconnect_tip(&header, &body, &prev_accumulator, None), Ok(()));
    assert_eq!(state.get_utxos(), held);
}

#[test]
fn prevalidated_block_holds_what_connecting_needs() {
    let (state, held) = state_with(&[(1, 10)]);
    let transaction = spend(&state, &[1], &held, vec![value_output(2, 7)], None);
    let body = Body::new(vec![transaction.clone()], vec![value_output(3, 2)]);
    let header = header_for(&state, &body);
    let prevalidated = prevalidate(&state, &header, &body, &vec![]).ok().unwrap();
    assert_eq!(prevalidated.total_fees, 3);
    assert_eq!(prevalidated.coinbase_value, 2);
    assert_eq!(prevalidated.next_height, 0);
    assert_eq!(prevalidated.computed_merkle_root, body.compute_merkle_root());
    assert_eq!(prevalidated.filled_transactions.len(), 1);
    assert_eq!(prevalidated.filled_transactions[0].spent_utxos, vec![held[0].1]);
    assert_eq!(prevalidated.filled_transactions[0].transaction, transaction.transaction);
}

#[test]
fn listings_and_wealth() {
    let (mut state, held) = state_with(&[(1, 10), (2, 20), (1, 30)]);
    let coinbase = OutPoint::Coinbase { merkle_root: MerkleRoot([1; 32]), vout: 0 };
    state.utxos.put(OutPointKey::from_outpoint(&coinbase).as_bytes(), value_output(1, 5));
    let all = state.get_utxos();
    assert_eq!(all.len(), 4);
    assert_eq!(all[0], (coinbase, value_output(1, 5)));
    assert_eq!(all[1..], held[..]);
    let mine = state.get_utxos_by_addresses(&vec![address(9), address(1)]);
    assert_eq!(mine, vec![all[0], all[1], all[3]]);
    assert_eq!(state.get_utxos_by_addresses(&vec![]), vec![]);
    assert_eq!(state.sidechain_wealth(), Ok(60));

    let spent = SpentOutput {
        output: value_output(2, 7),
        inpoint: InPoint::Regular { txid: Txid([1; 32]), vin: 0 },
    };
    let withdrawn = SpentOutput {
        output: value_output(2, 25),
        inpoint: InPoint::Withdrawal { m6id: M6id([2; 32]) },
    };
    state.stxos.put(OutPointKey::from_outpoint(&deposit(1)).as_bytes(), spent);
    state.stxos.put(OutPointKey::from_outpoint(&coinbase).as_bytes(), withdrawn);
    // 60 unspent and 7 spent were deposited; 25 were paid out.
    assert_eq!(state.sidechain_wealth(), Ok(42));
    assert_eq!(
        state.get_spent_utxos(&vec![coinbase, deposit(9), deposit(1)]),
        vec![(coinbase, withdrawn), (deposit(1), spent)]
    );

    state.stxos.put(
        OutPointKey::from_outpoint(&deposit(2)).as_bytes(),
        SpentOutput { output: value_output(2, u64::MAX), inpoint: spent.inpoint },
    );
    assert_eq!(state.sidechain_wealth(), Err(Error::AmountOverflow(AmountOverflowError)));
}

#[test]
fn transaction_needs_one_authorization_for_each_input() {
    let (state, held) = state_with(&[(1, 10), (2, 20)]);
    let good = spend(&state, &[1, 2], &held, vec![value_output(3, 25)], None);

    let mut none = good.clone();
    none.authorizations.clear();
    assert_eq!(
        state.validate_transaction(&none, OrchardVerdict::Valid),
        Err(Error::AuthorizationError)
    );

    let mut short = good.clone();
    short.authorizations.pop();
    assert_eq!(
        state.validate_transaction(&short, OrchardVerdict::Valid),
        Err(Error::AuthorizationError)
    );

    let mut long = good.clone();
    long.authorizations.push(good.authorizations[0]);
    assert_eq!(
        state.validate_transaction(&long, OrchardVerdict::Valid),
        Err(Error::AuthorizationError)
    );

    let mut wrong = good.clone();
    wrong.authorizations.pop();
    wrong.authorizations[0] = good.authorizations[1];
    assert_eq!(
        state.validate_transaction(&wrong, OrchardVerdict::Valid),
        Err(Error::WrongPubKeyForAddress)
    );
    assert_eq!(state.validate_transaction(&good, OrchardVerdict::Valid), Ok(5));
}
