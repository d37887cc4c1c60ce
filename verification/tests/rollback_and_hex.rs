use std::str::FromStr;

use thunder_orchard::state::rollback::{HeightStamped, RollBack};
use thunder_orchard::types::hashes::{parse_hash, BlockHash, HexError, Txid};

#[test]
fn history_walks_forward_and_back() {
    let mut status = RollBack::new('a', 3);
    assert_eq!(status.latest(), &HeightStamped { value: 'a', height: 3 });
    assert_eq!(status.push('b', 5), Ok(()));
    assert_eq!(status.push('c', 5), Ok(()));
    assert_eq!(status.push('d', 9), Ok(()));
    assert_eq!(status.push('e', 8), Err('e'));
    assert_eq!(status.latest(), &HeightStamped { value: 'd', height: 9 });
    assert_eq!(status.pop(), Some(HeightStamped { value: 'd', height: 9 }));
    assert_eq!(status.latest(), &HeightStamped { value: 'c', height: 5 });
    assert_eq!(status.pop(), Some(HeightStamped { value: 'c', height: 5 }));
    assert_eq!(status.pop(), Some(HeightStamped { value: 'b', height: 5 }));
    assert_eq!(status.pop(), None);
    assert_eq!(status.latest(), &HeightStamped { value: 'a', height: 3 });
}

#[test]
fn value_at_a_height() {
    let mut status = RollBack::new(0u8, 10);
    for (value, height) in [(1, 12), (2, 12), (3, 20), (4, 21), (5, 30)] {
        status.push(value, height).unwrap();
    }
    assert_eq!(status.at_height(9), None);
    assert_eq!(status.at_height(0), None);
    assert_eq!(status.at_height(10).map(|entry| entry.value), Some(0));
    assert_eq!(status.at_height(11).map(|entry| entry.value), Some(0));
    assert_eq!(status.at_height(12).map(|entry| entry.value), Some(2));
    assert_eq!(status.at_height(19).map(|entry| entry.value), Some(2));
    assert_eq!(status.at_height(20).map(|entry| entry.value), Some(3));
    assert_eq!(status.at_height(21).map(|entry| entry.value), Some(4));
    assert_eq!(status.at_height(29).map(|entry| entry.value), Some(4));
    assert_eq!(status.at_height(30).map(|entry| entry.value), Some(5));
    assert_eq!(status.at_height(u32::MAX).map(|entry| entry.height), Some(30));
}

#[test]
fn hashes_are_read_from_hex() {
    let mut bytes = [0u8; 32];
    bytes[0] = 0xab;
    bytes[1] = 0x0f;
    bytes[31] = 0x7c;
    let text = format!("ab0f{}7c", "00".repeat(29));
    assert_eq!(parse_hash(&text), Ok(bytes));
    assert_eq!(parse_hash(&text.to_uppercase()), Ok(bytes));
    assert_eq!(Txid::from_str(&text), Ok(Txid(bytes)));
    assert_eq!(BlockHash::from_hex(&text), Ok(BlockHash(bytes)));
    assert_eq!(Txid::from_str(&Txid(bytes).to_string()), Ok(Txid(bytes)));
    assert_eq!(text.parse::<BlockHash>(), Ok(BlockHash(bytes)));
}

#[test]
fn what_is_not_64_hex_digits_is_refused() {
    assert_eq!(parse_hash(""), Err(HexError));
    assert_eq!(parse_hash(&"0".repeat(63)), Err(HexError));
    assert_eq!(parse_hash(&"0".repeat(65)), Err(HexError));
    assert_eq!(parse_hash(&"0".repeat(66)), Err(HexError));
    assert_eq!(parse_hash(&format!("{}g", "0".repeat(63))), Err(HexError));
    assert_eq!(parse_hash(&format!("{} ", "0".repeat(63))), Err(HexError));
    assert_eq!(parse_hash(&"é".repeat(32)), Err(HexError));
    assert_eq!(parse_hash(&"é".repeat(64)), Err(HexError));
    assert_eq!(Txid::from_str("abc"), Err(HexError));
}
