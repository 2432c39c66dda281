use std::collections::hash_map::DefaultHasher;
use std::hash::{Hash, Hasher};

use rest_client_lsp::cache::{
    history_file_name, is_session_file, md5_hash, responses_file_name, responses_to_keep,
    restore_responses,
};
use rest_client_lsp::model::{NamedResponse, VariableContext};
use rest_client_lsp::table::Table;

fn named(body: &str) -> NamedResponse {
    NamedResponse { headers: vec![("a".to_string(), "b".to_string())], body: body.to_string() }
}

#[test]
fn the_hash_is_that_of_the_standard_library() {
    for text in ["", "a", "/work/a.http"] {
        let mut hasher = DefaultHasher::new();
        text.hash(&mut hasher);
        assert_eq!(md5_hash(text), hasher.finish());
    }
    assert_ne!(md5_hash("a"), md5_hash("b"));
}

#[test]
fn files_are_named_after_the_hash() {
    assert_eq!(responses_file_name(0xab01), "ab01.responses.json");
    assert_eq!(history_file_name(u64::MAX), "ffffffffffffffff.history.json");
}

#[test]
fn files_of_different_hashes_have_different_names() {
    assert_ne!(responses_file_name(1), responses_file_name(0x11));
    assert_ne!(history_file_name(1), history_file_name(0x11));
    assert_ne!(responses_file_name(1), history_file_name(1));
}

#[test]
fn json_files_belong_to_the_session() {
    assert!(is_session_file(Some("json")));
    assert!(!is_session_file(Some("JSON")));
    assert!(!is_session_file(None));
}

#[test]
fn kept_responses_come_back() {
    let mut first = VariableContext::new(Table::new());
    first.store_response("x", named("1"));
    first.store_response("y", named("2"));
    let mut kept: Vec<(String, NamedResponse)> = responses_to_keep(&first)
        .iter()
        .map(|(name, response)| (name.clone(), named(&response.body)))
        .collect();
    kept.reverse();
    let mut second = VariableContext::new(Table::new());
    second.store_response("x", named("old"));
    second.store_response("z", named("3"));
    restore_responses(&mut second, &Some(kept));
    assert_eq!(second.named_responses.get("x").unwrap().body, "1");
    assert_eq!(second.named_responses.get("y").unwrap().body, "2");
    assert_eq!(second.named_responses.get("z").unwrap().body, "3");
    assert_eq!(second.named_responses.get("y").unwrap().headers, named("2").headers);
}

#[test]
fn nothing_is_restored_from_nothing() {
    let mut ctx = VariableContext::new(Table::new());
    ctx.store_response("x", named("1"));
    restore_responses(&mut ctx, &None);
    assert_eq!(ctx.named_responses.entries().len(), 1);
    assert_eq!(ctx.named_responses.get("x").unwrap().body, "1");
}

#[test]
fn the_later_of_two_entries_counts() {
    let mut ctx = VariableContext::new(Table::new());
    let twice = vec![("x".to_string(), named("1")), ("x".to_string(), named("2"))];
    restore_responses(&mut ctx, &Some(twice));
    assert_eq!(ctx.named_responses.get("x").unwrap().body, "2");
}
