use rest_client_lsp::cursor::{cursor_is_valid, extract_variable_at};
use rest_client_lsp::handler::{
    code_lenses, complete_context, completions_at, diagnostics, execute_request, goto_definition,
    hover_at, hover_over, latest_change, prepare_request, request_at_line, request_source, State,
};
use rest_client_lsp::model::{
    NamedResponse, ParsedFile, ParsedRequest, Response, RestClientSettings, VariableContext,
};
use rest_client_lsp::protocol::{
    capabilities, CompletionKind, DocumentSync, Position, Range, Severity, SEND_REQUEST_COMMAND,
    SWITCH_ENV_COMMAND,
};
use rest_client_lsp::table::Table;
use tower_lsp::lsp_types::Url;

const FILE: &str = "@host = example.com\n\n# @name login\nPOST https://{{host}}/login\n\n###\nGET https://{{ host }}/me\nAuthorization: Bearer {{login.response.body.$.token}}\nX-Id: {{$guid}}\n";

fn at(line: u32, character: u32) -> Position {
    Position { line, character }
}

fn uri() -> Url {
    Url::parse("file:///work/a.http").unwrap()
}

fn request(method: &str, url: &str, line: usize) -> ParsedRequest {
    ParsedRequest {
        method: method.to_string(),
        url: url.to_string(),
        headers: vec![],
        body: None,
        name: None,
        note: None,
        line,
    }
}

fn file(requests: Vec<ParsedRequest>) -> ParsedFile {
    ParsedFile { requests, variables: Table::new() }
}

fn table(pairs: &[(&str, &str)]) -> Table<String> {
    let mut table = Table::new();
    for (name, value) in pairs {
        table.insert(name.to_string(), value.to_string());
    }
    table
}

fn whole_line(line: u32, width: u32) -> Range {
    Range { start: at(line, 0), end: at(line, width) }
}

#[test]
fn a_lens_stands_over_each_request() {
    let lenses = code_lenses(
        &uri(),
        &file(vec![request("GET", "https://a", 1), request("POST", "https://b", 7)]),
    );
    assert_eq!(lenses.len(), 2);
    assert_eq!(lenses[1].title, "Send Request - POST https://b");
    assert_eq!(lenses[1].command, SEND_REQUEST_COMMAND);
    assert_eq!(lenses[1].command, "rest-client.sendRequest");
    assert_eq!(lenses[1].document, "file:///work/a.http");
    assert_eq!(lenses[1].line, 7);
    assert_eq!(lenses[1].range, whole_line(7, 0));
    assert_eq!(lenses[0].line, 1);
    assert!(code_lenses(&uri(), &file(vec![])).is_empty());
}

#[test]
fn a_request_without_url_is_an_error() {
    let text = "GET \u{e9}\nPOST https://b\n";
    let findings = diagnostics(
        text,
        &file(vec![request("GET", "", 0), request("POST", "https://b", 1), request("PUT", "", 9)]),
    );
    assert_eq!(findings.len(), 2);
    assert_eq!(findings[0].range, whole_line(0, 6));
    assert_eq!(findings[0].severity, Severity::Error);
    assert_eq!(findings[0].source, "rest-client");
    assert_eq!(findings[0].message, "Request URL is empty");
    assert_eq!(findings[1].range, whole_line(9, 0));
}

#[test]
fn the_variable_under_the_cursor_is_extracted() {
    assert_eq!(extract_variable_at(FILE, at(3, 15)).as_deref(), Some("host"));
    assert_eq!(extract_variable_at(FILE, at(6, 17)).as_deref(), Some("host"));
    assert_eq!(
        extract_variable_at(FILE, at(7, 30)).as_deref(),
        Some("login.response.body.$.token")
    );
    assert_eq!(extract_variable_at(FILE, at(8, 10)), None);
    assert_eq!(extract_variable_at(FILE, at(3, 3)), None);
    assert_eq!(extract_variable_at(FILE, at(99, 0)), None);
    assert_eq!(extract_variable_at("{{ }}", at(0, 3)), None);
    assert_eq!(extract_variable_at("{{open", at(0, 6)), None);
}

#[test]
fn a_closed_reference_is_not_under_the_cursor() {
    assert_eq!(extract_variable_at("{{a}} rest", at(0, 99)), None);
    assert_eq!(extract_variable_at("{{a}} xyz", at(0, 8)), None);
    assert_eq!(extract_variable_at("{{a}} xyz", at(0, 5)), None);
    assert_eq!(extract_variable_at("{{a}} xyz", at(0, 4)).as_deref(), Some("a"));
    assert_eq!(extract_variable_at("{{a}} xyz", at(0, 2)).as_deref(), Some("a"));
    assert_eq!(extract_variable_at("{{a}} xyz", at(0, 1)), None);
    assert_eq!(extract_variable_at("{{a}} {{b}}", at(0, 9)).as_deref(), Some("b"));
    assert_eq!(extract_variable_at("{{a}} {{b}}", at(0, 6)), None);
    let text = "@a = 1\n{{a}} xyz";
    assert_eq!(goto_definition(&uri(), text, at(1, 8)), None);
    assert_eq!(goto_definition(&uri(), text, at(1, 3)).unwrap().range, whole_line(0, 6));
    assert_eq!(hover_at(text, at(1, 8), |_: &str| "1".to_string()), None);
}

#[test]
fn a_cursor_inside_a_character_is_refused() {
    assert!(cursor_is_valid("\u{e9}{{a}}", at(0, 0)));
    assert!(!cursor_is_valid("\u{e9}{{a}}", at(0, 1)));
    assert!(cursor_is_valid("\u{e9}{{a}}", at(0, 2)));
    assert!(cursor_is_valid("\u{e9}{{a}}", at(0, 50)));
    assert!(cursor_is_valid("\u{e9}{{a}}", at(5, 1)));
}

#[test]
fn a_named_request_is_found() {
    let location = goto_definition(&uri(), FILE, at(7, 30)).unwrap();
    assert_eq!(location.uri, uri());
    assert_eq!(location.range, whole_line(2, 13));
}

#[test]
fn a_file_variable_is_found() {
    let location = goto_definition(&uri(), FILE, at(6, 17)).unwrap();
    assert_eq!(location.range, whole_line(0, 19));
}

#[test]
fn an_undefined_name_is_not_found() {
    assert_eq!(goto_definition(&uri(), "GET {{nope}}", at(0, 7)), None);
    assert_eq!(goto_definition(&uri(), FILE, at(0, 0)), None);
}

#[test]
fn request_names_precede_variables() {
    let text = "@x = 1\n#   @name   x\n{{x}}";
    assert_eq!(goto_definition(&uri(), text, at(2, 3)).unwrap().range, whole_line(1, 13));
}

#[test]
fn the_first_definition_counts() {
    let text = "@x = 1\n@x = 22\n{{x}}";
    assert_eq!(goto_definition(&uri(), text, at(2, 3)).unwrap().range, whole_line(0, 6));
}

#[test]
fn hover_shows_the_value() {
    let hover = hover_at(FILE, at(3, 15), |template: &str| {
        assert_eq!(template, "{{host}}");
        "example.com".to_string()
    });
    assert_eq!(hover.unwrap().value, "`host` = `example.com`");
    let undefined = hover_at(FILE, at(3, 15), |_: &str| String::new());
    assert_eq!(undefined.unwrap().value, "`host` \u{2014} *undefined*");
    assert_eq!(hover_at(FILE, at(3, 3), |_: &str| "x".to_string()), None);
    assert_eq!(hover_over("a", "b").value, "`a` = `b`");
}

#[test]
fn open_references_are_completed() {
    let names: Vec<String> =
        ["host", "hostname", "token", "$guid"].iter().map(|name| name.to_string()).collect();
    let items = completions_at("GET {{ho", at(0, 8), &names);
    let labels: Vec<&str> = items.iter().map(|item| item.label.as_str()).collect();
    assert_eq!(labels, vec!["host", "hostname"]);
    assert_eq!(items[0].kind, CompletionKind::Variable);
    assert_eq!(items[0].detail, "variable");
    let all = completions_at("GET {{ ", at(0, 7), &names);
    assert_eq!(all.len(), 4);
    assert_eq!(all[3].kind, CompletionKind::Function);
    assert!(completions_at("GET {{a}}", at(0, 9), &names).is_empty());
    assert!(completions_at("GET ", at(0, 4), &names).is_empty());
    assert!(completions_at("GET {{", at(3, 0), &names).is_empty());
}

#[test]
fn a_new_session_is_empty() {
    let state = State::new();
    assert!(state.document(&uri()).is_none());
    assert!(state.variable_ctx.variables.entries().is_empty());
    assert!(state.variable_ctx.named_responses.entries().is_empty());
    assert!(state.variable_ctx.allowed_env_vars.is_empty());
    assert_eq!(state.settings.active_environment, None);
}

#[test]
fn documents_are_opened_changed_and_closed() {
    let other = Url::parse("file:///work/b.http").unwrap();
    let mut state = State::new();
    state.open_document(&uri(), "one".to_string(), &table(&[("a", "1"), ("b", "1")]));
    state.open_document(&other, "two".to_string(), &table(&[("b", "2")]));
    state.open_document(&uri(), "three".to_string(), &table(&[]));
    assert_eq!(state.document(&uri()).unwrap(), "three");
    assert_eq!(state.document(&other).unwrap(), "two");
    state.close_document(&uri());
    assert!(state.document(&uri()).is_none());
    assert_eq!(state.document(&other).unwrap(), "two");
    assert_eq!(state.variable_ctx.variables.get("a").unwrap(), "1");
    assert_eq!(state.variable_ctx.variables.get("b").unwrap(), "2");
}

#[test]
fn environments_bring_their_variables() {
    let mut state = State::new();
    state.sync_file_variables(&table(&[("host", "file"), ("kept", "yes")]));
    let settings = RestClientSettings {
        active_environment: None,
        allowed_process_env_vars: vec!["HOME".to_string()],
    };
    assert_eq!(state.load_settings(settings, &table(&[])), "none");
    assert_eq!(state.variable_ctx.allowed_env_vars, vec!["HOME".to_string()]);
    state.switch_environment("prod", &table(&[("host", "prod.example.com")]));
    assert_eq!(state.settings.active_environment.as_deref(), Some("prod"));
    assert_eq!(state.variable_ctx.variables.get("host").unwrap(), "prod.example.com");
    assert_eq!(state.variable_ctx.variables.get("kept").unwrap(), "yes");
    let named = RestClientSettings {
        active_environment: Some("dev".to_string()),
        allowed_process_env_vars: vec![],
    };
    assert_eq!(state.load_settings(named, &table(&[])), "dev");
    assert!(state.variable_ctx.allowed_env_vars.is_empty());
}

#[test]
fn capabilities_name_both_commands() {
    let offered = capabilities("1.2.3");
    assert_eq!(offered.commands, vec![SEND_REQUEST_COMMAND, SWITCH_ENV_COMMAND]);
    assert_eq!(offered.commands[1], "rest-client.switchEnvironment");
    assert_eq!(offered.completion_triggers, vec!["{"]);
    assert_eq!(offered.change, DocumentSync::Full);
    assert!(offered.open_close && offered.save_includes_text);
    assert!(offered.definition && offered.hover && !offered.code_lens_resolve);
    assert_eq!(offered.server_name, "rest-client-lsp");
    assert_eq!(offered.server_version, "1.2.3");
}

fn answer(status: u16) -> Response {
    Response {
        status,
        status_text: "Status".to_string(),
        headers: vec![("Content-Type".to_string(), "application/json".to_string())],
        body: "{\"token\":1}".to_string(),
        elapsed_ms: 5,
    }
}

#[test]
fn a_request_needs_an_open_document() {
    let mut state = State::new();
    assert_eq!(request_source(&state, &uri()).err().unwrap(), "document not found");
    state.open_document(&uri(), "text".to_string(), &table(&[("a", "1")]));
    state.variable_ctx.store_response("old", NamedResponse { headers: vec![], body: "x".to_string() });
    let (text, ctx) = request_source(&state, &uri()).ok().unwrap();
    assert_eq!(text, "text");
    assert_eq!(ctx.variables.get("a").unwrap(), "1");
    assert!(ctx.named_responses.entries().is_empty());
    let parsed = ParsedFile { requests: vec![], variables: table(&[("a", "2"), ("b", "3")]) };
    let complete = complete_context(ctx, &parsed, &state);
    assert_eq!(complete.variables.get("a").unwrap(), "2");
    assert_eq!(complete.variables.get("b").unwrap(), "3");
    assert_eq!(complete.named_responses.get("old").unwrap().body, "x");
}

#[test]
fn a_line_needs_a_request() {
    assert_eq!(request_at_line(None, 12).err().unwrap(), "no request found at line 12");
    assert_eq!(request_at_line(Some(request("GET", "u", 3)), 3).ok().unwrap().line, 3);
}

#[test]
fn a_named_response_is_stored() {
    let mut state = State::new();
    let mut sent = request("GET", "https://a", 0);
    sent.name = Some("login".to_string());
    sent.headers = vec![("CONTENT-type".to_string(), "text/css".to_string())];
    let output = execute_request(&sent, Ok(answer(200)), &mut state).ok().unwrap();
    assert_eq!(output.file_content, "{\n  \"token\": 1\n}");
    assert_eq!(
        output.formatted_response,
        "HTTP 200 Status\nTime: 5ms\n\nContent-Type: application/json\n\n{\n  \"token\": 1\n}"
    );
    assert_eq!(output.request_content_type.as_deref(), Some("text/css"));
    let stored = state.variable_ctx.named_responses.get("login").unwrap();
    assert_eq!(stored.body, "{\"token\":1}");
    assert_eq!(stored.headers, answer(200).headers);
}

#[test]
fn other_statuses_write_diagnostics() {
    let mut state = State::new();
    let output = execute_request(&request("GET", "u", 0), Ok(answer(500)), &mut state).ok().unwrap();
    assert_eq!(
        output.file_content,
        "HTTP 500 Status\nTime: 5ms\n\nContent-Type: application/json\n"
    );
    assert_eq!(output.request_content_type, None);
    assert!(state.variable_ctx.named_responses.entries().is_empty());
}

#[test]
fn a_failure_is_handed_on() {
    let mut state = State::new();
    let mut sent = request("GET", "u", 0);
    sent.name = Some("login".to_string());
    let error = execute_request(&sent, Err("refused".to_string()), &mut state).err().unwrap();
    assert_eq!(error, "refused");
    assert!(state.variable_ctx.named_responses.entries().is_empty());
}

#[test]
fn a_stored_response_replaces_the_earlier_one() {
    let mut ctx = VariableContext::new(table(&[("a", "1")]));
    ctx.store_response("x", NamedResponse { headers: vec![], body: "1".to_string() });
    ctx.store_response("x", NamedResponse { headers: vec![], body: "2".to_string() });
    assert_eq!(ctx.named_responses.get("x").unwrap().body, "2");
    assert_eq!(ctx.named_responses.entries().len(), 1);
    assert_eq!(ctx.variables.get("a").unwrap(), "1");
}

#[test]
fn a_request_is_prepared() {
    let mut state = State::new();
    state.open_document(&uri(), "GET x".to_string(), &table(&[("a", "1"), ("b", "1")]));
    state.variable_ctx.store_response("old", NamedResponse { headers: vec![], body: "x".to_string() });
    let parse = |text: &str| {
        assert_eq!(text, "GET x");
        ParsedFile { requests: vec![request("GET", "x", 0)], variables: table(&[("b", "2")]) }
    };
    let find = |file: &ParsedFile, line: usize| {
        if line < file.requests.len() {
            Some(request("GET", &file.requests[line].url, line))
        } else {
            None
        }
    };
    let (found, ctx) = prepare_request(&uri(), 0, &state, parse, find).ok().unwrap();
    assert_eq!(found.url, "x");
    assert_eq!(ctx.variables.get("a").unwrap(), "1");
    assert_eq!(ctx.variables.get("b").unwrap(), "2");
    assert_eq!(ctx.named_responses.get("old").unwrap().body, "x");
    assert!(ctx.allowed_env_vars.is_empty());
    let missing = prepare_request(&uri(), 5, &state, parse, find).err().unwrap();
    assert_eq!(missing, "no request found at line 5");
    let other = Url::parse("file:///work/b.http").unwrap();
    let closed = prepare_request(&other, 0, &state, parse, find).err().unwrap();
    assert_eq!(closed, "document not found");
}

#[test]
fn the_last_change_counts() {
    assert_eq!(latest_change(vec![]), None);
    assert_eq!(latest_change(vec!["a".to_string(), "b".to_string()]), Some("b".to_string()));
}
