use thunder_orchard::authorization::{authorize, get_address, SigningKey};
use thunder_orchard::mempool::{Error, MemPool};
use thunder_orchard::types::accumulator::{Accumulator, AccumulatorDiff, UtreexoError};
use thunder_orchard::types::hashes::Txid;
use thunder_orchard::types::transaction::{
    AuthorizedTransaction, BitcoinOutPoint, Body, Content, OrchardBundle, OutPoint, Output, Proof,
    Transaction,
};

fn key(seed: u8) -> SigningKey {
    SigningKey([seed; 32])
}

fn output(value: u64) -> Output {
    Output { address: get_address(&key(1).verifying_key()), content: Content::Value(value) }
}

fn deposit(tag: u8) -> OutPoint {
    OutPoint::Deposit(BitcoinOutPoint { txid: [tag; 32], vout: 0 })
}

fn bundle(nullifiers: Vec<[u8; 32]>) -> OrchardBundle {
    OrchardBundle {
        nullifiers,
        note_commitments: vec![],
        value_balance: 0,
        anchor: [0; 32],
        spends_enabled: true,
        effects: vec![9],
        authorization: vec![],
    }
}

fn spending(
    inputs: Vec<OutPoint>,
    outputs: usize,
    orchard_bundle: Option<OrchardBundle>,
) -> AuthorizedTransaction {
    let keys = inputs.iter().map(|_| (get_address(&key(1).verifying_key()), key(1))).collect();
    let transaction = Transaction {
        inputs: inputs.into_iter().map(|outpoint| (outpoint, [1; 32])).collect(),
        proof: Proof::default(),
        outputs: (0..outputs).map(|i| output(i as u64)).collect(),
        orchard_bundle,
    };
    authorize(&keys, transaction).unwrap()
}

fn child_of(parent: &AuthorizedTransaction, vout: u32, outputs: usize) -> AuthorizedTransaction {
    spending(vec![OutPoint::Regular { txid: parent.transaction.txid(), vout }], outputs, None)
}

fn ids(pool: &MemPool) -> Vec<Txid> {
    pool.take_all().iter().map(|t| t.transaction.txid()).collect()
}

#[test]
fn put_records_each_input() {
    let mut pool = MemPool::new();
    let transaction = spending(vec![deposit(1), deposit(2)], 1, Some(bundle(vec![[5; 32]])));
    let txid = transaction.transaction.txid();
    assert_eq!(pool.put(&transaction), Ok(()));
    assert!(pool.contains(&txid));
    assert_eq!(pool.spender_of(&deposit(1)), Some(txid));
    assert_eq!(pool.spender_of(&deposit(2)), Some(txid));
    assert_eq!(pool.spender_of(&deposit(3)), None);
    assert_eq!(pool.user_of(&[5; 32]), Some(txid));
    assert_eq!(pool.user_of(&[6; 32]), None);
    assert_eq!(pool.take_all(), vec![transaction]);
}

#[test]
fn put_twice_changes_nothing() {
    let mut pool = MemPool::new();
    let transaction = spending(vec![deposit(1)], 1, None);
    assert_eq!(pool.put(&transaction), Ok(()));
    assert_eq!(pool.put(&transaction), Ok(()));
    assert_eq!(pool.take_all().len(), 1);
}

#[test]
fn double_spend_is_refused_and_leaves_no_trace() {
    let mut pool = MemPool::new();
    let first = spending(vec![deposit(1)], 1, None);
    let second = spending(vec![deposit(2), deposit(1)], 2, Some(bundle(vec![[5; 32]])));
    pool.put(&first).unwrap();
    assert_eq!(
        pool.put(&second),
        Err(Error::UtxoDoubleSpent { txid: second.transaction.txid() })
    );
    assert_eq!(pool.spender_of(&deposit(2)), None);
    assert_eq!(pool.user_of(&[5; 32]), None);
    assert_eq!(ids(&pool), vec![first.transaction.txid()]);
}

#[test]
fn input_named_twice_is_refused() {
    let mut pool = MemPool::new();
    let twice = spending(vec![deposit(1), deposit(1)], 1, None);
    assert_eq!(pool.put(&twice), Err(Error::UtxoDoubleSpent { txid: twice.transaction.txid() }));
    assert_eq!(pool.spender_of(&deposit(1)), None);
}

#[test]
fn used_nullifier_is_refused_and_leaves_no_trace() {
    let mut pool = MemPool::new();
    let first = spending(vec![deposit(1)], 1, Some(bundle(vec![[5; 32], [6; 32]])));
    let second = spending(vec![deposit(2)], 1, Some(bundle(vec![[7; 32], [6; 32]])));
    pool.put(&first).unwrap();
    assert_eq!(
        pool.put(&second),
        Err(Error::NullifierDoubleSpent {
            new_txid: second.transaction.txid(),
            nullifier: [6; 32],
            old_txid: first.transaction.txid(),
        })
    );
    assert_eq!(pool.spender_of(&deposit(2)), None);
    assert_eq!(pool.user_of(&[7; 32]), None);
    assert_eq!(pool.user_of(&[6; 32]), Some(first.transaction.txid()));
}

#[test]
fn transactions_come_in_the_order_of_their_ids() {
    let mut pool = MemPool::new();
    let mut expected = Vec::new();
    for tag in 1..8u8 {
        let transaction = spending(vec![deposit(tag)], 1, None);
        expected.push(transaction.transaction.txid());
        pool.put(&transaction).unwrap();
    }
    expected.sort();
    assert_eq!(ids(&pool), expected);
    let three: Vec<Txid> = pool.take(3).iter().map(|t| t.transaction.txid()).collect();
    assert_eq!(three, expected[..3]);
    assert_eq!(pool.take(0), vec![]);
    assert_eq!(pool.take(100).len(), 7);
}

#[test]
fn delete_takes_descendants_along() {
    let mut pool = MemPool::new();
    let parent = spending(vec![deposit(1)], 2, Some(bundle(vec![[5; 32]])));
    let child = child_of(&parent, 1, 1);
    let grandchild = child_of(&child, 0, 1);
    let bystander = spending(vec![deposit(2)], 1, None);
    for transaction in [&parent, &child, &grandchild, &bystander] {
        pool.put(transaction).unwrap();
    }
    pool.delete(child.transaction.txid());
    assert!(pool.contains(&parent.transaction.txid()));
    assert!(!pool.contains(&child.transaction.txid()));
    assert!(!pool.contains(&grandchild.transaction.txid()));
    assert_eq!(
        pool.spender_of(&OutPoint::Regular { txid: parent.transaction.txid(), vout: 1 }),
        None
    );
    pool.put(&child).unwrap();
    pool.put(&grandchild).unwrap();
    pool.delete(parent.transaction.txid());
    assert_eq!(ids(&pool), vec![bystander.transaction.txid()]);
    assert_eq!(pool.spender_of(&deposit(1)), None);
    assert_eq!(pool.spender_of(&deposit(2)), Some(bystander.transaction.txid()));
    assert_eq!(pool.user_of(&[5; 32]), None);
    pool.delete(Txid([0; 32]));
    assert_eq!(ids(&pool), vec![bystander.transaction.txid()]);
}

#[test]
fn connected_block_evicts_its_transactions_and_their_descendants() {
    let mut pool = MemPool::new();
    let spender = spending(vec![deposit(1)], 1, None);
    let descendant = child_of(&spender, 0, 1);
    let shielded = spending(vec![deposit(3)], 1, Some(bundle(vec![[5; 32]])));
    let on_shielded = child_of(&shielded, 0, 1);
    let bystander = spending(vec![deposit(2)], 1, None);
    for transaction in [&spender, &descendant, &shielded, &on_shielded, &bystander] {
        pool.put(transaction).unwrap();
    }
    // The block holds the spender itself, and another transaction that shows the nullifier
    // of the shielded one.
    let rival = spending(vec![deposit(4)], 1, Some(bundle(vec![[5; 32]])));
    let body = Body::new(vec![spender.clone(), rival], vec![]);
    assert_eq!(pool.connect_block(&Accumulator::new(), &body), Err(Error::Utreexo(UtreexoError)));
    assert_eq!(ids(&pool), vec![bystander.transaction.txid()]);
    assert_eq!(pool.spender_of(&deposit(1)), None);
    assert_eq!(pool.user_of(&[5; 32]), None);
}

#[test]
fn proofs_are_made_anew() {
    let mut accumulator = Accumulator::new();
    let mut diff = AccumulatorDiff::default();
    for tag in 1..5u8 {
        diff.insert([tag; 32]);
    }
    accumulator.apply_diff(diff).unwrap();
    let mut pool = MemPool::new();
    let mut transactions = Vec::new();
    for tag in 1..3u8 {
        let mut transaction = spending(vec![deposit(tag)], 1, None);
        transaction.transaction.inputs[0].1 = [tag; 32];
        pool.put(&transaction).unwrap();
        transactions.push(transaction);
    }
    assert_eq!(pool.regenerate_proofs(&accumulator), Ok(()));
    for transaction in pool.take_all() {
        let leaves = vec![transaction.transaction.inputs[0].1];
        assert_eq!(transaction.transaction.proof, accumulator.prove(&leaves).unwrap());
        assert_eq!(accumulator.verify(&transaction.transaction.proof, &leaves), Ok(true));
        assert!(pool.contains(&transaction.transaction.txid()));
    }
    // A transaction whose input is not in the accumulator stops everything.
    let before = pool.take_all();
    let stray = spending(vec![deposit(9)], 1, None);
    pool.put(&stray).unwrap();
    assert_eq!(pool.regenerate_proofs(&Accumulator::new()), Err(Error::Utreexo(UtreexoError)));
    pool.delete(stray.transaction.txid());
    assert_eq!(pool.take_all(), before);
    assert_eq!(pool.connect_block(&accumulator, &Body::new(vec![], vec![])), Ok(()));
}
