use live_rig::table::Table;

#[test]
fn table_starts_empty() {
    let t: Table<u32> = Table::new();
    assert!(t.get("a").is_none());
    assert!(!t.contains_key("a"));
}

#[test]
fn table_insert_then_get() {
    let mut t: Table<u32> = Table::new();
    t.insert("a", 1);
    t.insert("b", 2);
    assert_eq!(t.get("a"), Some(&1));
    assert_eq!(t.get("b"), Some(&2));
    assert!(t.get("ab").is_none());
    assert!(t.get("").is_none());
}

#[test]
fn table_insert_replaces() {
    let mut t: Table<u32> = Table::new();
    t.insert("a", 1);
    t.insert("a", 7);
    assert_eq!(t.get("a"), Some(&7));
}

#[test]
fn table_remove_hands_the_value_back() {
    let mut t: Table<u32> = Table::new();
    t.insert("a", 1);
    t.insert("b", 2);
    t.insert("c", 3);
    assert_eq!(t.remove("b"), Some(2));
    assert_eq!(t.remove("b"), None);
    assert_eq!(t.get("a"), Some(&1));
    assert_eq!(t.get("c"), Some(&3));
    assert!(!t.contains_key("b"));
}

#[test]
fn table_tells_keys_apart_by_their_text() {
    let mut t: Table<u32> = Table::new();
    t.insert("volume", 1);
    let other = String::from("vol") + "ume";
    assert_eq!(t.get(&other), Some(&1));
    assert!(t.get("Volume").is_none());
}

#[test]
fn table_clone_holds_the_same_entries() {
    let mut t: Table<Vec<u32>> = Table::new();
    t.insert("a", vec![1, 2]);
    t.insert("b", vec![]);
    let mut c = t.clone();
    assert_eq!(c.get("a"), Some(&vec![1, 2]));
    assert_eq!(c.get("b"), Some(&vec![]));
    assert!(c.get("c").is_none());
    c.insert("a", vec![9]);
    assert_eq!(t.get("a"), Some(&vec![1, 2]));
}
