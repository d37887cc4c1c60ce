use ed25519_dalek::Verifier;
use thunder_orchard::authorization::{
    authorize, get_address, sign, verify_authorizations, verify_authorized_transaction,
    verify_orchard, Authorization, Error, OrchardVerdict, SigningKey,
};
use thunder_orchard::types::hashes::{Canonical, Txid};
use thunder_orchard::types::transaction::{
    AuthorizedTransaction, Body, Content, OrchardBundle, OutPoint, Output, Proof, Transaction,
    TransparentAddress,
};

fn key(seed: u8) -> SigningKey {
    SigningKey([seed; 32])
}

fn address(seed: u8) -> TransparentAddress {
    get_address(&key(seed).verifying_key())
}

fn transaction(inputs: usize, tag: u8) -> Transaction {
    Transaction {
        inputs: (0..inputs)
            .map(|i| (OutPoint::Regular { txid: Txid([tag; 32]), vout: i as u32 }, [tag; 32]))
            .collect(),
        proof: Proof::default(),
        outputs: vec![Output { address: address(9), content: Content::Value(1) }],
        orchard_bundle: None,
    }
}

fn bundle() -> OrchardBundle {
    OrchardBundle {
        nullifiers: vec![[1; 32]],
        note_commitments: vec![[0; 32]],
        value_balance: 0,
        anchor: [0; 32],
        spends_enabled: true,
        effects: vec![1, 2, 3],
        authorization: vec![4, 5],
    }
}

fn authorized(inputs: usize, tag: u8) -> AuthorizedTransaction {
    let keys: Vec<_> = (0..inputs).map(|i| (address(i as u8), key(i as u8))).collect();
    authorize(&keys, transaction(inputs, tag)).unwrap()
}

#[test]
fn address_is_the_start_of_the_hash_of_the_key() {
    let verifying_key = key(1).verifying_key();
    let digest = blake3::hash(&verifying_key);
    assert_eq!(get_address(&verifying_key).0[..], digest.as_bytes()[..20]);
    let mut reader = blake3::Hasher::new().update(&verifying_key).finalize_xof();
    let mut twenty = [0u8; 20];
    reader.fill(&mut twenty);
    assert_eq!(get_address(&verifying_key).0, twenty);
    let authorization = Authorization { verifying_key, signature: [0; 64] };
    assert_eq!(authorization.get_address(), get_address(&verifying_key));
}

#[test]
fn verifying_key_belongs_to_signing_key() {
    let dalek = ed25519_dalek::SigningKey::from_bytes(&[3; 32]);
    assert_eq!(key(3).verifying_key(), dalek.verifying_key().to_bytes());
    assert_ne!(key(3).verifying_key(), [3; 32]);
    assert_ne!(key(3).verifying_key(), key(4).verifying_key());
}

#[test]
fn signature_is_over_the_canonical_bytes() {
    let transaction = transaction(1, 5);
    let signature = sign(&key(3), &transaction).unwrap();
    let mut bytes = Vec::new();
    transaction.encode(&mut bytes);
    let verifying_key = ed25519_dalek::VerifyingKey::from_bytes(&key(3).verifying_key()).unwrap();
    verifying_key.verify(&bytes, &ed25519_dalek::Signature::from_bytes(&signature)).unwrap();
    // The signature commits to the inclusion proof.
    let mut reproved = transaction.clone();
    reproved.proof = Proof { targets: vec![1], hashes: vec![] };
    assert_ne!(sign(&key(3), &reproved).unwrap(), signature);
}

#[test]
fn authorize_signs_for_each_input() {
    let authorized = authorized(3, 5);
    assert_eq!(authorized.authorizations.len(), 3);
    for (i, authorization) in authorized.authorizations.iter().enumerate() {
        assert_eq!(authorization.verifying_key, key(i as u8).verifying_key());
        assert_eq!(authorization.signature, sign(&key(i as u8), &authorized.transaction).unwrap());
    }
    assert_eq!(verify_authorized_transaction(&authorized, OrchardVerdict::Valid), Ok(()));
    assert_eq!(Authorization::verify_transaction(&authorized, OrchardVerdict::Valid), Ok(()));
}

#[test]
fn authorize_refuses_a_key_of_another_address() {
    let keys = vec![(address(1), key(1)), (address(2), key(3)), (address(9), key(4))];
    assert_eq!(
        authorize(&keys, transaction(3, 5)),
        Err(Error::WrongKeyForAddress { address: address(2), hash_verifying_key: address(3) })
    );
}

#[test]
fn tampered_signature_fails() {
    let mut authorized = authorized(2, 5);
    authorized.authorizations[1].signature[0] ^= 1;
    assert_eq!(
        verify_authorized_transaction(&authorized, OrchardVerdict::Valid),
        Err(Error::DalekError)
    );
    let mut swapped = self::authorized(2, 5);
    swapped.authorizations.swap(0, 1);
    assert_eq!(verify_authorized_transaction(&swapped, OrchardVerdict::Valid), Ok(()));
    let mut other_key = self::authorized(2, 5);
    other_key.authorizations[0].verifying_key = key(7).verifying_key();
    assert_eq!(
        verify_authorized_transaction(&other_key, OrchardVerdict::Valid),
        Err(Error::DalekError)
    );
    let mut no_key = self::authorized(2, 5);
    no_key.authorizations[0].verifying_key = [2; 32];
    assert_eq!(
        verify_authorized_transaction(&no_key, OrchardVerdict::Valid),
        Err(Error::DalekError)
    );
}

#[test]
fn shielded_verdicts() {
    let plain = transaction(1, 5);
    assert_eq!(verify_orchard(&plain, OrchardVerdict::InvalidProof), Ok(()));
    let mut shielded = transaction(1, 5);
    shielded.orchard_bundle = Some(bundle());
    assert_eq!(verify_orchard(&shielded, OrchardVerdict::Valid), Ok(()));
    assert_eq!(
        verify_orchard(&shielded, OrchardVerdict::InvalidSignature),
        Err(Error::OrchardSignature)
    );
    assert_eq!(verify_orchard(&shielded, OrchardVerdict::InvalidProof), Err(Error::OrchardProof));
    let authorized = authorize(&vec![(address(1), key(1))], shielded).unwrap();
    assert_eq!(
        verify_authorized_transaction(&authorized, OrchardVerdict::InvalidSignature),
        Err(Error::OrchardSignature)
    );
    assert_eq!(verify_authorized_transaction(&authorized, OrchardVerdict::Valid), Ok(()));
}

#[test]
fn body_needs_one_authorization_for_each_input() {
    let first = authorized(2, 5);
    let second = authorized(1, 6);
    let body = Body::new(vec![first.clone(), second.clone()], vec![]);
    assert_eq!(body.authorizations.len(), 3);
    assert_eq!(verify_authorizations(&body, &vec![]), Ok(()));
    assert_eq!(Authorization::verify_body(&body, &vec![]), Ok(()));

    let mut short = Body::new(vec![first.clone(), second.clone()], vec![]);
    short.authorizations.pop();
    assert_eq!(verify_authorizations(&short, &vec![]), Err(Error::NotEnoughAuthorizations));

    let mut long = Body::new(vec![first.clone(), second.clone()], vec![]);
    long.authorizations.push(first.authorizations[0]);
    assert_eq!(verify_authorizations(&long, &vec![]), Err(Error::TooManyAuthorizations));

    // Each signature is over the bytes of the transaction that owns the input.
    let mut crossed = Body::new(vec![first, second], vec![]);
    crossed.authorizations.swap(1, 2);
    assert_eq!(verify_authorizations(&crossed, &vec![]), Err(Error::DalekError));

    let empty = Body::new(vec![], vec![]);
    assert_eq!(verify_authorizations(&empty, &vec![]), Ok(()));
}

#[test]
fn body_with_shielded_parts_needs_verdicts() {
    let mut shielded = transaction(1, 5);
    shielded.orchard_bundle = Some(bundle());
    let first = authorize(&vec![(address(1), key(1))], shielded).unwrap();
    let second = authorized(1, 6);
    let body = Body::new(vec![second, first], vec![]);
    let valid = vec![OrchardVerdict::InvalidProof, OrchardVerdict::Valid];
    assert_eq!(verify_authorizations(&body, &valid), Ok(()));
    let invalid = vec![OrchardVerdict::Valid, OrchardVerdict::InvalidSignature];
    assert_eq!(verify_authorizations(&body, &invalid), Err(Error::OrchardSignature));
    // A transaction without verdict counts as one whose proof fails.
    assert_eq!(
        verify_authorizations(&body, &vec![OrchardVerdict::Valid]),
        Err(Error::OrchardProof)
    );
}

#[test]
fn each_transaction_of_a_body_is_signed_on_its_own() {
    let count = 6;
    let mut transactions = Vec::with_capacity(count);
    for i in 0..count {
        let transaction = Transaction {
            inputs: vec![(
                OutPoint::Regular { txid: Txid([1; 32]), vout: i as u32 },
                [0; 32],
            )],
            proof: Proof::default(),
            outputs: vec![],
            orchard_bundle: None,
        };
        transactions.push(authorize(&vec![(address(1), key(1))], transaction).unwrap());
    }
    let mut body = Body::new(transactions, vec![]);
    assert_eq!(verify_authorizations(&body, &vec![]), Ok(()));
    body.authorizations[5].signature[5] ^= 1;
    assert_eq!(verify_authorizations(&body, &vec![]), Err(Error::DalekError));
    body.authorizations[5].signature[5] ^= 1;
    body.authorizations[0].signature[5] ^= 1;
    assert_eq!(verify_authorizations(&body, &vec![]), Err(Error::DalekError));
}

#[test]
fn authorize_reports_the_first_key_of_another_address() {
    let keys = vec![(address(1), key(1)), (address(7), key(2)), (address(8), key(3))];
    assert_eq!(
        authorize(&keys, transaction(3, 5)),
        Err(Error::WrongKeyForAddress { address: address(7), hash_verifying_key: address(2) })
    );
    let first = vec![(address(6), key(1)), (address(2), key(2))];
    assert_eq!(
        authorize(&first, transaction(2, 5)),
        Err(Error::WrongKeyForAddress { address: address(6), hash_verifying_key: address(1) })
    );
}

#[test]
fn authorize_without_keys_signs_nothing() {
    let authorized = authorize(&vec![], transaction(0, 5)).unwrap();
    assert_eq!(authorized.transaction, transaction(0, 5));
    assert!(authorized.authorizations.is_empty());
}

#[test]
fn signatures_cover_what_the_ledger_reads_of_a_shielded_part() {
    let mut shielded = transaction(1, 5);
    shielded.orchard_bundle = Some(bundle());
    let signature = sign(&key(1), &shielded).unwrap();
    let id = shielded.txid();

    let mut balance = shielded.clone();
    balance.orchard_bundle.as_mut().unwrap().value_balance = -1;
    assert_ne!(balance.txid(), id);
    assert_ne!(sign(&key(1), &balance).unwrap(), signature);

    let mut nullifier = shielded.clone();
    nullifier.orchard_bundle.as_mut().unwrap().nullifiers[0] = [2; 32];
    assert_ne!(nullifier.txid(), id);
    assert_ne!(sign(&key(1), &nullifier).unwrap(), signature);

    let mut commitment = shielded.clone();
    commitment.orchard_bundle.as_mut().unwrap().note_commitments.push([3; 32]);
    assert_ne!(commitment.txid(), id);

    let mut anchor = shielded.clone();
    anchor.orchard_bundle.as_mut().unwrap().anchor = [9; 32];
    assert_ne!(anchor.txid(), id);

    let mut flag = shielded.clone();
    flag.orchard_bundle.as_mut().unwrap().spends_enabled = false;
    assert_ne!(flag.txid(), id);

    let mut rest = shielded.clone();
    rest.orchard_bundle.as_mut().unwrap().effects = vec![1, 2];
    assert_ne!(rest.txid(), id);

    let mut proof = shielded.clone();
    proof.orchard_bundle.as_mut().unwrap().authorization = vec![7];
    assert_eq!(proof.txid(), id);
    assert_ne!(sign(&key(1), &proof).unwrap(), signature);
}
