use tacos_test_server::table::Table;
use tacos_test_server::text::{decimal_text, join, same_text, strip_prefix};

fn key(s: &str) -> String {
    s.to_string()
}

#[test]
fn table_keeps_order_and_replaces_in_place() {
    let mut t: Table<u32> = Table::new();
    t.put(key("a"), 1);
    t.put(key("b"), 2);
    t.put(key("a"), 3);
    assert_eq!(t.len(), 2);
    assert_eq!(t.position(&key("b")), Some(1));
    assert_eq!(t.position(&key("c")), None);
    assert_eq!(t.get(&key("a")), Some(&3));
    assert_eq!(t.get(&key("c")), None);
    assert_eq!(t.key_at(0), "a");
    assert_eq!(t.get(&key("b")), Some(&2));
    *t.value_mut(1) = 5;
    assert_eq!(t.get(&key("b")), Some(&5));
}

#[test]
fn table_gives_entries_back() {
    let mut t: Table<u32> = Table::new();
    t.put(key("a"), 1);
    t.put(key("b"), 2);
    t.put(key("c"), 3);
    assert_eq!(t.take(&key("b")), Some(2));
    assert_eq!(t.take(&key("b")), None);
    let first = t.take_first();
    assert_eq!((first.key.as_str(), first.value), ("a", 1));
    assert_eq!(t.len(), 1);
    assert_eq!(t.key_at(0), "c");
}

#[test]
fn pieces_of_text() {
    assert_eq!(decimal_text(0), "0");
    assert_eq!(decimal_text(10), "10");
    assert_eq!(decimal_text(u64::MAX), "18446744073709551615");
    assert!(same_text("ab", "ab"));
    assert!(!same_text("ab", "abc"));
    assert_eq!(strip_prefix("abc", "ab"), Some("c".to_string()));
    assert_eq!(strip_prefix("ab", "ab"), Some(String::new()));
    assert_eq!(strip_prefix("a", "ab"), None);
    assert_eq!(strip_prefix("xbc", "ab"), None);
    assert_eq!(join("a", "b"), "ab");
}
