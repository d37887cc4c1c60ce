use thunder_orchard::table::Table;
use thunder_orchard::types::hashes::Txid;

#[test]
fn empty_table() {
    let table: Table<Txid> = Table::new();
    assert_eq!(table.len(), 0);
    assert!(!table.contains_key(&[1]));
    assert_eq!(table.get(&[]), None);
}

#[test]
fn put_get_and_overwrite() {
    let mut table: Table<Txid> = Table::new();
    table.put(&[2, 0], Txid([1; 32]));
    table.put(&[1], Txid([2; 32]));
    table.put(&[2], Txid([3; 32]));
    assert_eq!(table.len(), 3);
    assert_eq!(table.get(&[2]), Some(&Txid([3; 32])));
    table.put(&[2], Txid([4; 32]));
    assert_eq!(table.len(), 3);
    assert_eq!(table.get(&[2]), Some(&Txid([4; 32])));
    assert_eq!(table.get(&[2, 0]), Some(&Txid([1; 32])));
    assert_eq!(table.get(&[3]), None);
    assert!(table.contains_key(&[1]));
}

#[test]
fn entries_come_in_key_order() {
    let mut table: Table<()> = Table::new();
    for key in [[5u8, 1], [0, 9], [5, 0], [255, 255], [0, 0]] {
        table.put(&key, ());
    }
    table.put(&[5], ());
    table.put(&[], ());
    let keys: Vec<Vec<u8>> = (0..table.len()).map(|i| table.entry(i).key.clone()).collect();
    assert_eq!(
        keys,
        vec![vec![], vec![0, 0], vec![0, 9], vec![5], vec![5, 0], vec![5, 1], vec![255, 255]]
    );
}

#[test]
fn delete_and_take() {
    let mut table: Table<Txid> = Table::new();
    for i in 0..20u8 {
        table.put(&[i % 7, i], Txid([i; 32]));
    }
    assert!(table.delete(&[3, 3]));
    assert!(!table.delete(&[3, 3]));
    assert_eq!(table.take(&[5, 19]), Some(Txid([19; 32])));
    assert_eq!(table.take(&[5, 19]), None);
    assert_eq!(table.len(), 18);
    assert_eq!(table.get(&[3, 10]), Some(&Txid([10; 32])));
    table.replace_at(0, Txid([99; 32]));
    assert_eq!(table.entry(0).key, vec![0, 0]);
    assert_eq!(table.get(&[0, 0]), Some(&Txid([99; 32])));
}

#[test]
fn copy_is_independent() {
    let mut table: Table<Txid> = Table::new();
    table.put(&[1], Txid([1; 32]));
    let mut copy = table.copy();
    copy.put(&[2], Txid([2; 32]));
    copy.delete(&[1]);
    assert_eq!(table.len(), 1);
    assert_eq!(table.get(&[1]), Some(&Txid([1; 32])));
    assert_eq!(copy.get(&[1]), None);
}
