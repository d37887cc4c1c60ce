use thunder_orchard::types::hashes::{MerkleRoot, Txid};
use thunder_orchard::types::transaction::{BitcoinOutPoint, OutPoint, OutPointKey};

#[test]
fn check_outpoint_key_size() {
    let variants = [
        OutPoint::Regular { txid: Txid::default(), vout: u32::MAX },
        OutPoint::Coinbase { merkle_root: MerkleRoot::default(), vout: u32::MAX },
        OutPoint::Deposit(BitcoinOutPoint { txid: [0; 32], vout: u32::MAX }),
    ];
    for (tag, op) in variants.into_iter().enumerate() {
        let serialized = borsh::to_vec(&(tag as u8, [0u8; 32], u32::MAX)).unwrap();
        assert!(serialized.len() == 37, "unexpected serialized size: {}", serialized.len());
        let key = OutPointKey::from(op);
        assert_eq!(&key.as_bytes()[..], &serialized[..]);
        let decoded = OutPoint::from(key);
        assert!(decoded == op);
    }
}
