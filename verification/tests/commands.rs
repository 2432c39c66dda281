use rest_client_lsp::commands::{
    answered_reply, dispatch_command, failed_reply, interpret_command, offered, settings_message,
    switched_reply, CommandAction,
};
use rest_client_lsp::handler::{code_lenses, ExecuteRequestOutput};
use rest_client_lsp::model::{ParsedFile, ParsedRequest};
use rest_client_lsp::protocol::{CompletionItem, CompletionKind, MessageKind};
use rest_client_lsp::table::Table;
use serde_json::Value;
use tower_lsp::lsp_types::Url;

fn sent(action: CommandAction) -> Option<(String, usize)> {
    match action {
        CommandAction::Send { uri, line } => Some((uri.to_string(), line)),
        _ => None,
    }
}

fn switched(action: CommandAction) -> Option<String> {
    match action {
        CommandAction::SwitchEnvironment { name } => Some(name),
        _ => None,
    }
}

fn is_ignored(action: CommandAction) -> bool {
    matches!(action, CommandAction::Ignore)
}

#[test]
fn a_request_is_sent() {
    let arguments = vec![Value::from("FILE:///a b.http"), Value::from(4u64)];
    let action = dispatch_command("rest-client.sendRequest", &arguments);
    assert_eq!(sent(action), Some(("file:///a%20b.http".to_string(), 4)));
}

#[test]
fn a_line_that_is_no_number_is_the_first() {
    for line in [Value::from("7"), Value::from(-7), Value::Null, Value::from(1.5)] {
        let arguments = vec![Value::from("file:///a.http"), line];
        let action = dispatch_command("rest-client.sendRequest", &arguments);
        assert_eq!(sent(action), Some(("file:///a.http".to_string(), 0)));
    }
}

#[test]
fn a_request_needs_two_arguments_and_an_address() {
    let send = "rest-client.sendRequest";
    assert!(is_ignored(dispatch_command(send, &vec![])));
    assert!(is_ignored(dispatch_command(send, &vec![Value::from("file:///a.http")])));
    assert!(is_ignored(dispatch_command(send, &vec![Value::from("no address"), Value::from(1)])));
    assert!(is_ignored(dispatch_command(send, &vec![Value::from(3), Value::from(1)])));
}

#[test]
fn an_environment_is_switched() {
    let switch = "rest-client.switchEnvironment";
    let action = dispatch_command(switch, &vec![Value::from("prod")]);
    assert_eq!(switched(action), Some("prod".to_string()));
    assert!(is_ignored(dispatch_command(switch, &vec![])));
    assert!(is_ignored(dispatch_command(switch, &vec![Value::from(1)])));
}

#[test]
fn other_commands_are_ignored() {
    let arguments = vec![Value::from("file:///a.http"), Value::from(1)];
    assert!(is_ignored(dispatch_command("rest-client.other", &arguments)));
}

#[test]
fn plain_arguments_decide() {
    let uri = Url::parse("file:///x").unwrap();
    let action = interpret_command("rest-client.sendRequest", 2, None, None, Some(uri));
    assert_eq!(sent(action), Some(("file:///x".to_string(), 0)));
    assert!(is_ignored(interpret_command("rest-client.sendRequest", 2, Some("x"), Some(1), None)));
}

#[test]
fn a_lens_sends_its_request() {
    let uri = Url::parse("file:///dir/a.http").unwrap();
    let request = ParsedRequest {
        method: "GET".to_string(),
        url: "https://a".to_string(),
        headers: vec![],
        body: None,
        name: None,
        note: None,
        line: 11,
    };
    let lenses = code_lenses(&uri, &ParsedFile { requests: vec![request], variables: Table::new() });
    let arguments = vec![Value::from(lenses[0].document.clone()), Value::from(lenses[0].line)];
    let action = dispatch_command(&lenses[0].command, &arguments);
    assert_eq!(sent(action), Some((uri.to_string(), 11)));
}

fn output() -> ExecuteRequestOutput {
    ExecuteRequestOutput {
        formatted_response: "response".to_string(),
        file_content: "content".to_string(),
        request_content_type: None,
    }
}

#[test]
fn the_client_learns_where_the_response_is() {
    let reply = answered_reply(output(), Ok("/tmp/a".to_string()));
    assert_eq!(reply.reply, "response");
    assert_eq!(reply.message.kind, MessageKind::Info);
    assert_eq!(reply.message.text, "Request completed. Response saved to /tmp/a");
}

#[test]
fn the_client_learns_why_the_response_is_not_saved() {
    let reply = answered_reply(output(), Err("full".to_string()));
    assert_eq!(reply.reply, "response");
    assert_eq!(reply.message.kind, MessageKind::Warning);
    assert_eq!(
        reply.message.text,
        "Request completed, but response file could not be saved: full"
    );
}

#[test]
fn the_client_learns_of_failures() {
    let reply = failed_reply("refused".to_string());
    assert_eq!(reply.reply, "refused");
    assert_eq!(reply.message.kind, MessageKind::Error);
    assert_eq!(reply.message.text, "Request failed: refused");
}

#[test]
fn the_client_learns_of_settings() {
    let reply = switched_reply("dev".to_string());
    assert_eq!(reply.reply, "dev");
    assert_eq!(reply.message.text, "Switched to environment: dev");
    let loaded = settings_message(Ok("none".to_string()));
    assert_eq!(loaded.kind, MessageKind::Info);
    assert_eq!(loaded.text, "Loaded settings, active environment: none");
    let failed = settings_message(Err("timeout".to_string()));
    assert_eq!(failed.kind, MessageKind::Warning);
    assert_eq!(failed.text, "Failed to read settings: timeout");
}

#[test]
fn no_suggestions_are_not_offered() {
    assert!(offered(vec![]).is_none());
    let item = CompletionItem {
        label: "a".to_string(),
        kind: CompletionKind::Variable,
        detail: "variable".to_string(),
    };
    assert_eq!(offered(vec![item]).unwrap().len(), 1);
}
