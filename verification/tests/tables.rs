use firewheel::id_table::IdTable;

#[test]
fn removed_ids_are_not_found() {
    let mut table: IdTable<u32> = IdTable::with_capacity(4);
    let a = table.insert(10);
    let b = table.insert(20);
    assert_eq!(table.remove(a), Some(10));
    let c = table.insert(30);
    assert!(table.get(a).is_none());
    assert_eq!(table.get(b), Some(&20));
    assert_eq!(table.get(c), Some(&30));
    assert_eq!(table.len(), 2);
    assert_eq!(table.ids(), vec![c, b]);
}

#[test]
fn table_hands_out_positions_again() {
    let mut table: IdTable<&str> = IdTable::with_capacity(0);
    assert!(table.is_fresh());
    let a = table.insert("a");
    let b = table.insert("b");
    assert!(!table.is_fresh());
    assert_eq!(table.position(a), Some(0));
    assert_eq!(table.position(b), Some(1));
    table.remove(a);
    let c = table.insert("c");
    assert_eq!(table.position(c), Some(0));
    assert_eq!(table.positions(), 2);
    assert!(table.contains(c));
    assert!(!table.contains(a));
    assert!(!table.contains(0));
    *table.get_mut(b).unwrap() = "d";
    assert_eq!(table.get(b), Some(&"d"));
    assert!(table.get_mut(a).is_none());
    assert!(table.remove(0).is_none());
}

#[test]
fn table_takes_ids_of_another() {
    let mut first: IdTable<u8> = IdTable::with_capacity(4);
    let a = first.insert(1);
    let b = first.insert(2);
    first.remove(a);
    let c = first.insert(3);
    let mut second: IdTable<u8> = IdTable::with_capacity(1);
    second.insert_at(b, 20);
    second.insert_at(c, 30);
    assert_eq!(second.get(b), Some(&20));
    assert_eq!(second.get(c), Some(&30));
    assert_eq!(second.get(a), None);
    assert_eq!(second.ids(), vec![c, b]);
    assert_eq!(second.len(), 2);
}
