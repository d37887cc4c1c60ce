use thunder_orchard::authorization::Authorization;
use thunder_orchard::types::accumulator::{Accumulator, AccumulatorDiff, UtreexoError};
use thunder_orchard::types::hashes::Txid;
use thunder_orchard::types::transaction::{
    AuthorizedTransaction, Body, Content, OutPoint, Output, PointedOutput, Proof, Transaction,
    TransparentAddress,
};

fn output(value: u64) -> Output {
    Output { address: TransparentAddress([1; 20]), content: Content::Value(value) }
}

fn authorization(tag: u8) -> Authorization {
    Authorization { verifying_key: [tag; 32], signature: [tag; 64] }
}

fn transaction(tag: u8, inputs: u32, outputs: u64) -> AuthorizedTransaction {
    AuthorizedTransaction {
        transaction: Transaction {
            inputs: (0..inputs)
                .map(|vout| (OutPoint::Regular { txid: Txid([tag; 32]), vout }, [tag + vout as u8; 32]))
                .collect(),
            proof: Proof::default(),
            outputs: (0..outputs).map(output).collect(),
            orchard_bundle: None,
        },
        authorizations: (0..inputs).map(|vout| authorization(tag + vout as u8)).collect(),
    }
}

#[test]
fn body_keeps_authorizations_in_the_order_of_the_inputs() {
    let transactions = vec![transaction(10, 2, 1), transaction(20, 0, 2), transaction(30, 3, 0)];
    let body = Body::new(transactions.clone(), vec![output(9)]);
    assert_eq!(body.coinbase, vec![output(9)]);
    assert_eq!(body.transactions.len(), 3);
    assert_eq!(
        body.authorizations,
        vec![
            authorization(10),
            authorization(11),
            authorization(30),
            authorization(31),
            authorization(32)
        ]
    );
    assert_eq!(body.authorized_transactions(), transactions);
    assert_eq!(Body::new(vec![], vec![]).authorized_transactions(), vec![]);
}

#[test]
fn inputs_and_outputs_of_a_body() {
    let body = Body::new(vec![transaction(10, 2, 1), transaction(30, 1, 2)], vec![output(9)]);
    assert_eq!(
        body.get_inputs(),
        vec![
            OutPoint::Regular { txid: Txid([10; 32]), vout: 0 },
            OutPoint::Regular { txid: Txid([10; 32]), vout: 1 },
            OutPoint::Regular { txid: Txid([30; 32]), vout: 0 },
        ]
    );
    let merkle_root = body.compute_merkle_root();
    let first = body.transactions[0].txid();
    let second = body.transactions[1].txid();
    assert_eq!(
        body.get_outputs(),
        vec![
            PointedOutput { outpoint: OutPoint::Coinbase { merkle_root, vout: 0 }, output: output(9) },
            PointedOutput { outpoint: OutPoint::Regular { txid: first, vout: 0 }, output: output(0) },
            PointedOutput { outpoint: OutPoint::Regular { txid: second, vout: 0 }, output: output(0) },
            PointedOutput { outpoint: OutPoint::Regular { txid: second, vout: 1 }, output: output(1) },
        ]
    );
}

#[test]
fn body_applied_to_an_accumulator() {
    let mut accumulator = Accumulator::new();
    let mut diff = AccumulatorDiff::default();
    diff.insert([10; 32]);
    diff.insert([11; 32]);
    accumulator.apply_diff(diff).unwrap();
    let body = Body::new(vec![transaction(10, 2, 1)], vec![output(9)]);
    let mut expected = accumulator.copy();
    let mut diff = AccumulatorDiff::default();
    for pointed in body.get_outputs() {
        diff.insert(pointed.node_hash());
    }
    diff.remove([10; 32]);
    diff.remove([11; 32]);
    expected.apply_diff(diff).unwrap();
    assert_eq!(body.modify_memforest(&mut accumulator), Ok(()));
    assert_eq!(accumulator.get_roots(), expected.get_roots());
    assert_eq!(accumulator.get_roots().len(), 1);
    let roots = accumulator.get_roots();
    assert_eq!(body.modify_memforest(&mut accumulator), Err(UtreexoError));
    assert_eq!(accumulator.get_roots(), roots);
}
