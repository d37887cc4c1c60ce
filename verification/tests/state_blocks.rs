use thunder_orchard::authorization::{authorize, get_address, OrchardVerdict, SigningKey};
use thunder_orchard::state::error::{Error, InvalidHeader};
use thunder_orchard::state::State;
use thunder_orchard::types::accumulator::{Accumulator, AccumulatorDiff};
use thunder_orchard::types::hashes::BlockHash;
use thunder_orchard::types::header::Header;
use thunder_orchard::types::transaction::{
    AuthorizedTransaction, BitcoinOutPoint, Body, Content, InPoint, OutPoint, OutPointKey, Output,
    PointedOutput, Proof, SpentOutput, Transaction, TransparentAddress,
};

fn key(seed: u8) -> SigningKey {
    SigningKey([seed; 32])
}

fn address(seed: u8) -> TransparentAddress {
    get_address(&key(seed).verifying_key())
}

fn value_output(seed: u8, value: u64) -> Output {
    Output { address: address(seed), content: Content::Value(value) }
}

/// A state that holds one deposited output, owned by the key of `seed`.
fn state_with_deposit(seed: u8, value: u64) -> (State, OutPoint, Output) {
    let mut state = State::new();
    let outpoint = OutPoint::Deposit(BitcoinOutPoint { txid: [7; 32], vout: 0 });
    let output = value_output(seed, value);
    state.utxos.put(OutPointKey::from_outpoint(&outpoint).as_bytes(), output);
    let mut diff = AccumulatorDiff::default();
    diff.insert(PointedOutput { outpoint, output }.node_hash());
    state.utreexo_accumulator.apply_diff(diff).unwrap();
    (state, outpoint, output)
}

fn spend(
    state: &State,
    seed: u8,
    outpoint: OutPoint,
    output: Output,
    outputs: Vec<Output>,
) -> AuthorizedTransaction {
    let pointed = PointedOutput { outpoint, output };
    let proof = state.get_utreexo_proof(&vec![pointed]).unwrap();
    let transaction = Transaction {
        inputs: vec![(outpoint, pointed.node_hash())],
        proof,
        outputs,
        orchard_bundle: None,
    };
    authorize(&vec![(address(seed), key(seed))], transaction).unwrap()
}

fn header_for(state: &State, body: &Body) -> Header {
    let mut accumulator = state.get_accumulator();
    body.modify_memforest(&mut accumulator).unwrap();
    Header {
        prev_side_hash: state.try_get_tip(),
        prev_main_hash: [0; 32],
        merkle_root: body.compute_merkle_root(),
        roots: accumulator.get_roots(),
    }
}

#[test]
fn genesis_with_single_coinbase() {
    let mut state = State::new();
    assert_eq!(state.try_get_height(), None);
    let coinbase = value_output(1, 0);
    let body = Body::new(vec![], vec![coinbase]);
    let header = header_for(&state, &body);
    assert_eq!(state.validate_block(&header, &body, &vec![]), Ok(0));
    let saved = state.connect_block(&header, &body, &vec![]).unwrap();
    assert!(saved.is_some());
    assert_eq!(state.try_get_height(), Some(0));
    assert_eq!(state.try_get_tip(), Some(header.hash()));
    let outpoint = OutPoint::Coinbase { merkle_root: body.compute_merkle_root(), vout: 0 };
    assert_eq!(state.utxos.len(), 1);
    assert_eq!(
        state.utxos.get(OutPointKey::from_outpoint(&outpoint).as_bytes()),
        Some(&coinbase)
    );
    assert_eq!(state.stxos.len(), 0);
    assert_eq!(state.get_accumulator().get_roots(), header.roots);
    assert_eq!(header.roots.len(), 1);
    assert_eq!(header.roots[0], PointedOutput { outpoint, output: coinbase }.node_hash());
}

#[test]
fn spend_output_and_pay_fee_to_coinbase() {
    let (mut state, outpoint, output) = state_with_deposit(1, 100);
    let authorized =
        spend(&state, 1, outpoint, output, vec![value_output(2, 60), value_output(3, 30)]);
    let txid = authorized.transaction.txid();
    let body = Body::new(vec![authorized], vec![value_output(4, 10)]);
    let header = header_for(&state, &body);
    assert_eq!(state.validate_block(&header, &body, &vec![]), Ok(10));
    state.connect_block(&header, &body, &vec![]).unwrap();
    assert_eq!(state.try_get_height(), Some(0));
    assert_eq!(state.utxos.len(), 3);
    for (vout, value) in [(0u32, 60u64), (1, 30)] {
        let created = OutPoint::Regular { txid, vout };
        let found = state.utxos.get(OutPointKey::from_outpoint(&created).as_bytes()).unwrap();
        assert_eq!(found.content, Content::Value(value));
    }
    assert_eq!(state.stxos.len(), 1);
    assert_eq!(
        state.stxos.get(OutPointKey::from_outpoint(&outpoint).as_bytes()),
        Some(&SpentOutput { output, inpoint: InPoint::Regular { txid, vin: 0 } })
    );
    assert_eq!(state.get_accumulator().get_roots(), header.roots);
}

#[test]
fn spend_coinbase() {
    // The first block pays the fee of a deposit spend to its coinbase.
    let (mut state, outpoint, output) = state_with_deposit(1, 100);
    let first = spend(&state, 1, outpoint, output, vec![value_output(2, 90)]);
    let body = Body::new(vec![first], vec![value_output(4, 10)]);
    let header = header_for(&state, &body);
    state.connect_block(&header, &body, &vec![]).unwrap();
    let coinbase = OutPoint::Coinbase { merkle_root: body.compute_merkle_root(), vout: 0 };
    let coinbase_key = OutPointKey::from_outpoint(&coinbase);
    assert_eq!(state.utxos.get(coinbase_key.as_bytes()), Some(&value_output(4, 10)));

    // The second block spends the coinbase output into two outputs of less.
    let second =
        spend(&state, 4, coinbase, value_output(4, 10), vec![value_output(5, 3), value_output(6, 4)]);
    let txid = second.transaction.txid();
    let greedy = Body::new(vec![second.clone()], vec![value_output(7, 4)]);
    assert_eq!(
        state.validate_block(&header_for(&state, &greedy), &greedy, &vec![]),
        Err(Error::NotEnoughFees)
    );
    let body = Body::new(vec![second], vec![value_output(7, 3)]);
    let header = header_for(&state, &body);
    assert_eq!(state.validate_block(&header, &body, &vec![]), Ok(3));
    let utxos_before = state.utxos.len();
    state.connect_block(&header, &body, &vec![]).unwrap();
    assert_eq!(state.try_get_height(), Some(1));
    // Two outputs and a coinbase came, the spent coinbase output went.
    assert_eq!(state.utxos.len(), utxos_before + 3 - 1);
    for (vout, seed, value) in [(0u32, 5u8, 3u64), (1, 6, 4)] {
        let created = OutPointKey::from_outpoint(&OutPoint::Regular { txid, vout });
        assert_eq!(state.utxos.get(created.as_bytes()), Some(&value_output(seed, value)));
    }
    assert!(!state.utxos.contains_key(coinbase_key.as_bytes()));
    assert_eq!(
        state.stxos.get(coinbase_key.as_bytes()),
        Some(&SpentOutput {
            output: value_output(4, 10),
            inpoint: InPoint::Regular { txid, vin: 0 },
        })
    );
    assert_eq!(state.stxos.len(), 2);
    assert_eq!(state.get_accumulator().get_roots(), header.roots);
}

#[test]
fn coinbase_above_fees_is_refused() {
    let (state, outpoint, output) = state_with_deposit(1, 100);
    let authorized = spend(&state, 1, outpoint, output, vec![value_output(2, 95)]);
    let body = Body::new(vec![authorized], vec![value_output(4, 6)]);
    let header = header_for(&state, &body);
    assert_eq!(state.validate_block(&header, &body, &vec![]), Err(Error::NotEnoughFees));
}

#[test]
fn double_spend_in_one_block() {
    let (state, outpoint, output) = state_with_deposit(1, 100);
    let first = spend(&state, 1, outpoint, output, vec![value_output(2, 50)]);
    let second = spend(&state, 1, outpoint, output, vec![value_output(3, 40)]);
    let body = Body::new(vec![first, second], vec![]);
    let header = Header {
        prev_side_hash: None,
        prev_main_hash: [0; 32],
        merkle_root: body.compute_merkle_root(),
        roots: vec![],
    };
    assert_eq!(
        state.validate_block(&header, &body, &vec![OrchardVerdict::InvalidProof; 2]),
        Err(Error::UtxoDoubleSpent)
    );
}

#[test]
fn bad_utreexo_proof() {
    let (mut state, outpoint, output) = state_with_deposit(1, 100);
    let other = OutPoint::Deposit(BitcoinOutPoint { txid: [8; 32], vout: 1 });
    let mut diff = AccumulatorDiff::default();
    diff.insert(PointedOutput { outpoint: other, output }.node_hash());
    state.utreexo_accumulator.apply_diff(diff).unwrap();
    let pointed = PointedOutput { outpoint, output };
    let good = state.get_utreexo_proof(&vec![pointed]).unwrap();
    assert_eq!(good.hashes.len(), 1);
    let transaction = Transaction {
        inputs: vec![(outpoint, pointed.node_hash())],
        proof: Proof { targets: good.targets.clone(), hashes: vec![[9; 32]] },
        outputs: vec![value_output(2, 50)],
        orchard_bundle: None,
    };
    let authorized = authorize(&vec![(address(1), key(1))], transaction).unwrap();
    let txid = authorized.transaction.txid();
    let body = Body::new(vec![authorized], vec![]);
    let header = Header {
        prev_side_hash: None,
        prev_main_hash: [0; 32],
        merkle_root: body.compute_merkle_root(),
        roots: vec![],
    };
    assert_eq!(
        state.validate_block(&header, &body, &vec![]),
        Err(Error::UtreexoProofFailed { txid })
    );
}

#[test]
fn wrong_previous_block() {
    let state = State::new();
    let body = Body::new(vec![], vec![]);
    let mut header = header_for(&state, &body);
    header.prev_side_hash = Some(BlockHash([1; 32]));
    assert_eq!(
        state.validate_block(&header, &body, &vec![]),
        Err(Error::InvalidHeader(InvalidHeader::PrevSideHash {
            expected: None,
            received: Some(BlockHash([1; 32])),
        }))
    );
}

#[test]
fn reorg_restores_state_and_connects_other_block() {
    let (mut state, outpoint, output) = state_with_deposit(1, 100);
    let before_roots = state.get_accumulator().get_roots();
    let prev_accumulator: Accumulator = state.get_accumulator();
    let spend_a = spend(&state, 1, outpoint, output, vec![value_output(2, 90)]);
    let spend_b = spend(&state, 1, outpoint, output, vec![value_output(3, 80)]);
    let body_a = Body::new(vec![spend_a], vec![value_output(4, 10)]);
    let body_b = Body::new(vec![spend_b], vec![value_output(5, 20)]);
    let header_a = header_for(&state, &body_a);
    let header_b = header_for(&state, &body_b);
    let prev_frontier = state.orchard.frontier().copy();

    state.connect_block(&header_a, &body_a, &vec![]).unwrap();
    assert_eq!(state.try_get_tip(), Some(header_a.hash()));
    assert_eq!(state.get_accumulator().get_roots(), header_a.roots);

    state.disconnect_tip(&header_a, &body_a, &prev_accumulator, Some(&prev_frontier)).unwrap();
    assert_eq!(state.try_get_tip(), None);
    assert_eq!(state.try_get_height(), None);
    assert_eq!(state.utxos.len(), 1);
    assert_eq!(
        state.utxos.get(OutPointKey::from_outpoint(&outpoint).as_bytes()),
        Some(&output)
    );
    assert_eq!(state.stxos.len(), 0);
    assert_eq!(state.get_accumulator().get_roots(), before_roots);

    state.connect_block(&header_b, &body_b, &vec![]).unwrap();
    assert_eq!(state.try_get_tip(), Some(header_b.hash()));
    assert_eq!(state.get_accumulator().get_roots(), header_b.roots);
}

#[test]
fn disconnect_without_tip() {
    let mut state = State::new();
    let body = Body::new(vec![], vec![]);
    let header = header_for(&state, &body);
    let accumulator = state.get_accumulator();
    assert_eq!(state.disconnect_tip(&header, &body, &accumulator, None), Err(Error::NoTip));
}
