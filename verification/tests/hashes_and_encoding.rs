use thunder_orchard::authorization::Authorization;
use thunder_orchard::types::bytes::{bytes_equal, bytes_less};
use thunder_orchard::types::hashes::{
    hash, hash_with_scratch_buffer, BlockHash, Canonical, MerkleRoot, Txid,
};
use thunder_orchard::types::header::Header;
use thunder_orchard::types::transaction::{
    BitcoinOutPoint, Body, Content, GetValue, MainAddress, OutPoint, OutPointKey, Output,
    PointedOutput, Proof, Transaction, TransparentAddress,
};

fn encoded<T: Canonical>(value: &T) -> Vec<u8> {
    let mut out = Vec::new();
    value.encode(&mut out);
    out
}

fn sample_transaction() -> Transaction {
    Transaction {
        inputs: vec![
            (OutPoint::Regular { txid: Txid([3; 32]), vout: 7 }, [4; 32]),
            (OutPoint::Deposit(BitcoinOutPoint { txid: [5; 32], vout: 1 }), [6; 32]),
        ],
        proof: Proof { targets: vec![2, 9], hashes: vec![[8; 32]] },
        outputs: vec![Output {
            address: TransparentAddress([1; 20]),
            content: Content::Value(0x0102030405060708),
        }],
        orchard_bundle: None,
    }
}

#[test]
fn hash_is_blake3_of_canonical_bytes() {
    let output = Output { address: TransparentAddress([9; 20]), content: Content::Value(5) };
    let bytes = encoded(&output);
    assert_eq!(hash(&output), *blake3::hash(&bytes).as_bytes());
    assert_ne!(&hash(&output)[..], &bytes[..]);
}

#[test]
fn hash_of_a_number_is_the_hash_of_its_eight_bytes() {
    let a = 7u64;
    let b = 8u64;
    assert_ne!(hash(&a), hash(&b));
    let mut hasher = blake3::Hasher::new();
    hasher.update(&[7, 0, 0, 0]);
    hasher.update(&[0, 0, 0, 0]);
    assert_eq!(hash(&a), *hasher.finalize().as_bytes());
}

#[test]
fn scratch_buffer_gives_the_same_hash() {
    let transaction = sample_transaction();
    let mut scratch = vec![1, 2, 3];
    let digest = hash_with_scratch_buffer(&transaction, &mut scratch);
    assert_eq!(digest, hash(&transaction));
    assert_eq!(scratch, encoded(&transaction));
}

#[test]
fn hex_rendering_is_lower_case() {
    let mut bytes = [0u8; 32];
    bytes[0] = 0xab;
    bytes[1] = 0x01;
    bytes[31] = 0xf0;
    let expected = format!("ab01{}f0", "00".repeat(29));
    assert_eq!(BlockHash(bytes).to_string(), expected);
    assert_eq!(Txid(bytes).to_string(), expected);
    assert_eq!(MerkleRoot(bytes).to_string(), expected);
    assert_eq!(Txid(bytes).as_slice(), &bytes[..]);
}

#[test]
fn hash_types_compare_by_bytes() {
    assert!(Txid([1; 32]) == Txid([1; 32]));
    assert!(Txid([1; 32]) != Txid([2; 32]));
    assert!(BlockHash::from([3; 32]) == BlockHash([3; 32]));
    assert_eq!(MerkleRoot::default(), MerkleRoot([0; 32]));
    assert_eq!(Txid::default(), Txid::from([0; 32]));
}

#[test]
fn outpoint_bytes_are_tag_hash_and_index() {
    let regular = OutPoint::Regular { txid: Txid([0x11; 32]), vout: 0x01020304 };
    let expected = borsh::to_vec(&(0u8, [0x11u8; 32], 0x01020304u32)).unwrap();
    assert_eq!(encoded(&regular), expected);
    assert_eq!(expected[33..], [4, 3, 2, 1]);
    let coinbase = OutPoint::Coinbase { merkle_root: MerkleRoot([0x22; 32]), vout: 1 };
    assert_eq!(encoded(&coinbase), borsh::to_vec(&(1u8, [0x22u8; 32], 1u32)).unwrap());
    let deposit = OutPoint::Deposit(BitcoinOutPoint { txid: [0x33; 32], vout: 2 });
    assert_eq!(encoded(&deposit), borsh::to_vec(&(2u8, [0x33u8; 32], 2u32)).unwrap());
}

#[test]
fn keys_round_trip_and_sort_as_bytes() {
    let outpoints = [
        OutPoint::Regular { txid: Txid([9; 32]), vout: 2 },
        OutPoint::Regular { txid: Txid([9; 32]), vout: 1 },
        OutPoint::Coinbase { merkle_root: MerkleRoot([0; 32]), vout: 0 },
        OutPoint::Deposit(BitcoinOutPoint { txid: [1; 32], vout: u32::MAX }),
    ];
    for outpoint in outpoints {
        let key = OutPointKey::from_outpoint(&outpoint);
        assert_eq!(key.to_outpoint(), outpoint);
        assert_eq!(OutPointKey::decode(key.as_bytes()), Some(key));
        assert_eq!(OutPointKey::from_outpoint(&key.to_outpoint()), key);
    }
    let regular = OutPointKey::from_outpoint(&outpoints[0]);
    let coinbase = OutPointKey::from_outpoint(&outpoints[2]);
    assert!(bytes_less(regular.as_bytes(), coinbase.as_bytes()));
    assert!(!bytes_less(coinbase.as_bytes(), regular.as_bytes()));
    // The index is little endian, so the order of keys is not the order of indices.
    let low = OutPointKey::from_outpoint(&OutPoint::Regular { txid: Txid([9; 32]), vout: 256 });
    let high = OutPointKey::from_outpoint(&OutPoint::Regular { txid: Txid([9; 32]), vout: 1 });
    assert!(bytes_less(low.as_bytes(), high.as_bytes()));
}

#[test]
fn keys_of_wrong_shape_are_refused() {
    assert_eq!(OutPointKey::decode(&[0u8; 36]), None);
    assert_eq!(OutPointKey::decode(&[0u8; 38]), None);
    let mut bytes = [0u8; 37];
    bytes[0] = 3;
    assert_eq!(OutPointKey::decode(&bytes), None);
    bytes[0] = 2;
    assert!(OutPointKey::decode(&bytes).is_some());
}

#[test]
fn byte_strings_compare() {
    assert!(bytes_equal(&[1, 2], &[1, 2]));
    assert!(!bytes_equal(&[1, 2], &[1, 3]));
    assert!(!bytes_equal(&[1, 2], &[1, 2, 0]));
    assert!(bytes_less(&[], &[0]));
    assert!(bytes_less(&[1], &[1, 0]));
    assert!(bytes_less(&[1, 255], &[2]));
    assert!(!bytes_less(&[2], &[1, 255]));
    assert!(!bytes_less(&[5], &[5]));
}

#[test]
fn output_bytes() {
    let value = Output { address: TransparentAddress([7; 20]), content: Content::Value(300) };
    assert_eq!(encoded(&value), borsh::to_vec(&([7u8; 20], 0u8, 300u64)).unwrap());
    assert_eq!(value.get_value(), 300);
    assert!(value.content.is_value());
    assert!(!value.content.is_withdrawal());

    let script = vec![0x00, 0x14, 1, 2, 3, 4, 5, 6, 7, 8, 9, 10, 11, 12, 13, 14, 15, 16, 17, 18, 19, 20];
    let withdrawal = Output {
        address: TransparentAddress([7; 20]),
        content: Content::Withdrawal {
            value: 1000,
            main_fee: 10,
            main_address: MainAddress::from_script(&script).unwrap(),
        },
    };
    assert_eq!(
        encoded(&withdrawal),
        borsh::to_vec(&([7u8; 20], 1u8, 1000u64, 10u64, script.clone())).unwrap()
    );
    assert_eq!(withdrawal.get_value(), 1000);
    assert!(withdrawal.content.is_withdrawal());
}

#[test]
fn main_address_scripts() {
    // A witness program of version 1 and 40 bytes: the longest script of an address.
    let mut longest = vec![0x51, 40];
    longest.extend_from_slice(&[5u8; 40]);
    let address = MainAddress::from_script(&longest).unwrap();
    assert_eq!(address.script(), longest);
    let mut too_long = vec![0x51, 41];
    too_long.extend_from_slice(&[5u8; 41]);
    assert_eq!(MainAddress::from_script(&too_long), None);
    // Pay to key hash, pay to script hash.
    let mut key_hash = vec![0x76, 0xa9, 20];
    key_hash.extend_from_slice(&[7u8; 20]);
    key_hash.extend_from_slice(&[0x88, 0xac]);
    assert_eq!(MainAddress::from_script(&key_hash).unwrap().script(), key_hash);
    let mut script_hash = vec![0xa9, 20];
    script_hash.extend_from_slice(&[7u8; 20]);
    script_hash.push(0x87);
    assert_eq!(MainAddress::from_script(&script_hash).unwrap().script(), script_hash);
    assert_ne!(MainAddress::from_script(&script_hash), MainAddress::from_script(&key_hash));
    // What pays to no address.
    assert_eq!(MainAddress::from_script(&[]), None);
    assert_eq!(MainAddress::from_script(&[1, 2]), None);
    assert_eq!(MainAddress::from_script(&vec![5u8; 42]), None);
    assert_eq!(MainAddress::from_script(&key_hash[..24]), None);
}

#[test]
fn transaction_bytes_and_id() {
    let transaction = sample_transaction();
    let inputs = vec![(0u8, [3u8; 32], 7u32, [4u8; 32]), (2u8, [5u8; 32], 1u32, [6u8; 32])];
    let outputs = vec![([1u8; 20], 0u8, 0x0102030405060708u64)];
    let canonical = borsh::to_vec(&(
        inputs.clone(),
        vec![2u64, 9u64],
        vec![[8u8; 32]],
        outputs.clone(),
        0u8,
    ))
    .unwrap();
    assert_eq!(encoded(&transaction), canonical);
    let preimage = borsh::to_vec(&(inputs, outputs)).unwrap();
    assert_eq!(transaction.txid(), Txid(*blake3::hash(&preimage).as_bytes()));

    // The id does not depend on the inclusion proof.
    let mut reproved = transaction.clone();
    reproved.proof = Proof::default();
    assert_eq!(reproved.txid(), transaction.txid());
    assert_ne!(encoded(&reproved), encoded(&transaction));
    assert!(transaction.is_encodable());
    assert!(transaction.is_hashable());
}

#[test]
fn pointed_output_leaf() {
    let outpoint = OutPoint::Coinbase { merkle_root: MerkleRoot([2; 32]), vout: 3 };
    let output = Output { address: TransparentAddress([7; 20]), content: Content::Value(1) };
    let pointed = PointedOutput { outpoint, output };
    let bytes = borsh::to_vec(&(1u8, [2u8; 32], 3u32, [7u8; 20], 0u8, 1u64)).unwrap();
    assert_eq!(encoded(&pointed), bytes);
    assert_eq!(pointed.node_hash(), *blake3::hash(&bytes).as_bytes());
}

#[test]
fn header_bytes_and_hash() {
    let header = Header {
        prev_side_hash: Some(BlockHash([1; 32])),
        prev_main_hash: [2; 32],
        merkle_root: MerkleRoot([3; 32]),
        roots: vec![[4; 32], [5; 32]],
    };
    let bytes =
        borsh::to_vec(&(Some([1u8; 32]), [2u8; 32], [3u8; 32], vec![[4u8; 32], [5u8; 32]]))
            .unwrap();
    assert_eq!(encoded(&header), bytes);
    assert_eq!(header.hash(), BlockHash(*blake3::hash(&bytes).as_bytes()));
    let first = Header { prev_side_hash: None, ..header };
    assert_eq!(encoded(&first)[0], 0);
    assert_ne!(first.hash(), Header { prev_side_hash: Some(BlockHash([1; 32])), ..first }.hash());
}

#[test]
fn body_bytes_and_merkle_root() {
    let transaction = sample_transaction();
    let coinbase = vec![Output { address: TransparentAddress([1; 20]), content: Content::Value(2) }];
    let authorization = Authorization { verifying_key: [6; 32], signature: [7; 64] };
    let body = Body {
        coinbase: coinbase.clone(),
        transactions: vec![transaction.clone()],
        authorizations: vec![authorization],
    };
    let mut preimage = borsh::to_vec(&vec![([1u8; 20], 0u8, 2u64)]).unwrap();
    preimage.extend_from_slice(&1u32.to_le_bytes());
    preimage.extend_from_slice(&encoded(&transaction));
    assert_eq!(body.compute_merkle_root(), MerkleRoot(*blake3::hash(&preimage).as_bytes()));
    let mut whole = preimage.clone();
    whole.extend_from_slice(&1u32.to_le_bytes());
    whole.extend_from_slice(&[6; 32]);
    whole.extend_from_slice(&[7; 64]);
    assert_eq!(encoded(&body), whole);
    assert!(body.is_encodable());
    assert_eq!(body.get_coinbase_value(), Ok(2));
}

#[test]
fn shielded_part_is_encoded_field_by_field() {
    let bundle = thunder_orchard::types::transaction::OrchardBundle {
        nullifiers: vec![[1; 32]],
        note_commitments: vec![[2; 32], [3; 32]],
        value_balance: -2,
        anchor: [4; 32],
        spends_enabled: true,
        effects: vec![5, 6],
        authorization: vec![7],
    };
    let mut bytes = Vec::new();
    bundle.encode_committed(&mut bytes);
    let mut expected = vec![1u8];
    expected.extend_from_slice(&0x7fff_ffff_ffff_fffeu64.to_le_bytes());
    expected.extend_from_slice(&[4; 32]);
    expected.extend_from_slice(&[1, 0, 0, 0]);
    expected.extend_from_slice(&[1; 32]);
    expected.extend_from_slice(&[2, 0, 0, 0]);
    expected.extend_from_slice(&[2; 32]);
    expected.extend_from_slice(&[3; 32]);
    expected.extend_from_slice(&[5, 6]);
    assert_eq!(bytes, expected);
    assert!(bundle.is_hashable());

    let mut transaction = sample_transaction();
    let plain = encoded(&transaction);
    transaction.orchard_bundle = Some(bundle);
    let mut with_bundle = plain[..plain.len() - 1].to_vec();
    with_bundle.push(1);
    with_bundle.extend_from_slice(&expected);
    with_bundle.push(7);
    assert_eq!(encoded(&transaction), with_bundle);
    assert_eq!(thunder_orchard::types::transaction::code_of_balance(0), 1 << 63);
    assert_eq!(thunder_orchard::types::transaction::code_of_balance(i64::MIN), 0);
    assert_eq!(thunder_orchard::types::transaction::code_of_balance(i64::MAX), u64::MAX);
}

#[test]
fn outpoint_keys_sort_as_their_bytes_do() {
    let outpoints = [
        OutPoint::Regular { txid: Txid([9; 32]), vout: 0 },
        OutPoint::Regular { txid: Txid([9; 32]), vout: 1 },
        OutPoint::Coinbase { merkle_root: MerkleRoot([0; 32]), vout: 5 },
        OutPoint::Deposit(BitcoinOutPoint { txid: [0; 32], vout: 0 }),
        OutPoint::Regular { txid: Txid([8; 32]), vout: 7 },
    ];
    for a in outpoints.iter() {
        for b in outpoints.iter() {
            let (ka, kb) = (OutPointKey::from_outpoint(a), OutPointKey::from_outpoint(b));
            assert_eq!(ka.sorts_before(&kb), ka.as_bytes() < kb.as_bytes());
            assert_eq!(ka < kb, ka.as_bytes() < kb.as_bytes());
            assert_eq!(ka.cmp(&kb), ka.as_bytes().cmp(kb.as_bytes()));
        }
    }
    let first = OutPointKey::from_outpoint(&outpoints[0]);
    let second = OutPointKey::from_outpoint(&outpoints[1]);
    let coinbase = OutPointKey::from_outpoint(&outpoints[2]);
    assert!(first.sorts_before(&second));
    assert!(!second.sorts_before(&first));
    assert!(!first.sorts_before(&first));
    assert!(second.sorts_before(&coinbase));
}
