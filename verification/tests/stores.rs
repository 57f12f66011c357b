use trust_ledger::EdgeStore;
use trust_ledger::ListStore;

#[test]
fn edge_store_insert_and_contains() {
    let mut s = EdgeStore::new();
    assert!(!s.contains(1, 2));
    s.insert(1, 2, 0);
    assert!(s.contains(1, 2));
    assert!(!s.contains(2, 1));
    assert_eq!(s.get(1, 2), Some(0));
    assert_eq!(s.get(2, 1), None);
    assert_eq!(s.len(), 1);
}

#[test]
fn edge_store_remove() {
    let mut s = EdgeStore::new();
    s.insert(1, 2, 0);
    s.insert(1, 3, 1);
    s.remove(1, 2);
    assert!(!s.contains(1, 2));
    assert!(s.contains(1, 3));
    assert_eq!(s.len(), 1);
}

#[test]
fn edge_store_duplicate_scan() {
    let mut s = EdgeStore::new();
    s.insert(1, 2, 0);
    s.insert(2, 2, 1);
    s.insert(2, 1, 2);
    assert!(s.check_no_duplicates());
}

#[test]
fn list_store_find_index_scans_slots() {
    let mut s = ListStore::new();
    assert_eq!(s.find_index(1, 2), None);
    s.insert(1, 0, 2);
    s.insert(1, 1, 3);
    s.insert(2, 0, 1);
    assert_eq!(s.find_index(1, 2), Some(0));
    assert_eq!(s.find_index(1, 3), Some(1));
    assert_eq!(s.find_index(2, 1), Some(0));
    assert_eq!(s.find_index(2, 3), None);
    assert!(s.contains(1, 3));
    assert!(!s.contains(3, 1));
}

#[test]
fn list_store_remove_frees_the_pair() {
    let mut s = ListStore::new();
    s.insert(1, 0, 2);
    s.insert(1, 1, 3);
    s.remove(1, 2);
    assert_eq!(s.find_index(1, 2), None);
    assert_eq!(s.find_index(1, 3), Some(1));
}
