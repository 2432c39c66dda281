use rest_client_lsp::dependencies::find_missing_dependencies;
use rest_client_lsp::model::{NamedResponse, ParsedRequest, VariableContext};
use rest_client_lsp::table::Table;

fn request(url: &str, header: &str, body: Option<&str>) -> ParsedRequest {
    ParsedRequest {
        method: "GET".to_string(),
        url: url.to_string(),
        headers: vec![("H".to_string(), header.to_string())],
        body: body.map(|text| text.to_string()),
        name: None,
        note: None,
        line: 0,
    }
}

#[test]
fn unknown_names_are_reported_once_and_in_order() {
    let ctx = VariableContext::new(Table::new());
    let sent = request(
        "https://{{host}}/{{b.response.body.id}}",
        "{{ a.response.headers.X }} {{b.request.body}}",
        Some("{{c.request.url}} {{a.response.body}}"),
    );
    assert_eq!(find_missing_dependencies(&sent, &ctx), vec!["b", "a", "c"]);
}

#[test]
fn other_references_are_not_dependencies() {
    let ctx = VariableContext::new(Table::new());
    let sent = request("{{$x.response.y}}", "{{.response.y}} {{a.response}}", Some("{{a.response.b"));
    assert!(find_missing_dependencies(&sent, &ctx).is_empty());
}

#[test]
fn parts_are_kept_apart() {
    let ctx = VariableContext::new(Table::new());
    let sent = request("{", "{a.response.b}}", None);
    assert!(find_missing_dependencies(&sent, &ctx).is_empty());
}

#[test]
fn stored_responses_are_not_missing() {
    let mut ctx = VariableContext::new(Table::new());
    let sent = request("{{a.response.x}}", "{{b.response.x}}", Some("{{c.response.x}}"));
    assert_eq!(find_missing_dependencies(&sent, &ctx), vec!["a", "b", "c"]);
    ctx.store_response("b", NamedResponse { headers: vec![], body: String::new() });
    assert_eq!(find_missing_dependencies(&sent, &ctx), vec!["a", "c"]);
}

#[test]
fn a_dot_ends_the_name() {
    let ctx = VariableContext::new(Table::new());
    let sent = request("{{login.response.body.$.x}} {{a.b.request.url}}", "", None);
    assert_eq!(find_missing_dependencies(&sent, &ctx), vec!["login", "a"]);
}
