use chargemanagement::table::PairTable;
use chargemanagement::table::Table;

#[test]
fn table_get_insert_overwrite_remove() {
    let mut t: Table<u64> = Table::new();
    assert_eq!(t.get(3), None);
    assert!(!t.contains(3));
    t.insert(3, 30);
    t.insert(4, 40);
    assert!(t.contains(3));
    assert_eq!(t.get(3), Some(30));
    assert_eq!(t.get(4), Some(40));
    // Inserting an existing key overwrites its value.
    t.insert(3, 33);
    assert_eq!(t.get(3), Some(33));
    t.remove(3);
    assert_eq!(t.get(3), None);
    assert_eq!(t.get(4), Some(40));
    // Removing an absent key changes nothing.
    t.remove(9);
    assert_eq!(t.get(4), Some(40));
}

#[test]
fn pair_table_get_insert_overwrite_remove() {
    let mut t = PairTable::new();
    assert_eq!(t.get(1, 0), None);
    assert!(!t.contains(1, 0));
    t.insert(1, 0, 10);
    t.insert(1, 1, 11);
    t.insert(2, 0, 20);
    assert!(t.contains(1, 1));
    assert_eq!(t.get(1, 0), Some(10));
    assert_eq!(t.get(1, 1), Some(11));
    assert_eq!(t.get(2, 0), Some(20));
    // The two key components are not interchangeable.
    assert_eq!(t.get(0, 1), None);
    t.insert(1, 0, 12);
    assert_eq!(t.get(1, 0), Some(12));
    t.remove(1, 0);
    assert_eq!(t.get(1, 0), None);
    assert_eq!(t.get(1, 1), Some(11));
    assert_eq!(t.get(2, 0), Some(20));
}
