use rest_client_lsp::table::{Duplicate, Table};

fn listed(table: &Table<String>) -> Vec<(String, String)> {
    table.entries().clone()
}

#[test]
fn later_values_replace_earlier_ones() {
    let mut table: Table<String> = Table::new();
    table.insert("a".to_string(), "1".to_string());
    table.insert("b".to_string(), "2".to_string());
    table.insert("a".to_string(), "3".to_string());
    assert_eq!(table.get("a"), Some(&"3".to_string()));
    assert_eq!(table.get("b"), Some(&"2".to_string()));
    assert_eq!(table.get("c"), None);
    assert_eq!(table.entries().len(), 2);
}

#[test]
fn removed_names_are_gone() {
    let mut table: Table<String> = Table::new();
    table.insert("a".to_string(), "1".to_string());
    table.insert("b".to_string(), "2".to_string());
    table.remove("a");
    table.remove("x");
    assert!(!table.contains_key("a"));
    assert!(table.contains_key("b"));
    assert_eq!(listed(&table), vec![("b".to_string(), "2".to_string())]);
}

#[test]
fn extension_prefers_the_other_table() {
    let mut table: Table<String> = Table::new();
    table.insert("a".to_string(), "1".to_string());
    table.insert("b".to_string(), "2".to_string());
    let mut other: Table<String> = Table::new();
    other.insert("b".to_string(), "9".to_string());
    other.insert("c".to_string(), "3".to_string());
    table.extend(&other);
    assert_eq!(table.get("a"), Some(&"1".to_string()));
    assert_eq!(table.get("b"), Some(&"9".to_string()));
    assert_eq!(table.get("c"), Some(&"3".to_string()));
    assert_eq!(listed(&table.duplicate()), listed(&table));
}
