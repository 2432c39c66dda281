use rest_client_lsp::model::{
    NamedResponse, ParsedFile, ParsedRequest, Response, VariableContext,
};
use rest_client_lsp::session::{
    confirmed, exec_step, is_yes, load_request, ExecAction, ExecEvent, ExecState, LoadOutcome,
};
use rest_client_lsp::table::Table;

fn request(name: Option<&str>, note: Option<&str>) -> ParsedRequest {
    ParsedRequest {
        method: "GET".to_string(),
        url: "{{login.response.body.$.url}}".to_string(),
        headers: vec![],
        body: None,
        name: name.map(|text| text.to_string()),
        note: note.map(|text| text.to_string()),
        line: 2,
    }
}

fn context(stored: bool) -> VariableContext {
    let mut ctx = VariableContext::new(Table::new());
    if stored {
        ctx.store_response("login", NamedResponse { headers: vec![], body: String::new() });
    }
    ctx
}

fn start() -> ExecState {
    ExecState::Loading { file: "a.http".to_string(), line: 7 }
}

fn found(request: ParsedRequest, stored: bool) -> ExecEvent {
    ExecEvent::Loaded(LoadOutcome::Found {
        request,
        url: "https://a".to_string(),
        ctx: context(stored),
    })
}

fn shown(actions: &[ExecAction]) -> Vec<String> {
    actions
        .iter()
        .map(|action| match action {
            ExecAction::Print(text) => format!("out {text}"),
            ExecAction::Report(text) => format!("err {text}"),
            ExecAction::Ask => "ask".to_string(),
            ExecAction::Send => "send".to_string(),
            ExecAction::Record(entry) => format!(
                "record {} {} {} {} {}",
                entry.method, entry.url, entry.status, entry.elapsed_ms, entry.timestamp
            ),
            ExecAction::Store { name, response } => format!("store {name} {}", response.body),
            ExecAction::Exit(code) => format!("exit {code}"),
        })
        .collect()
}

fn response(kind: &str, body: &str) -> Response {
    Response {
        status: 201,
        status_text: "Created".to_string(),
        headers: vec![("content-type".to_string(), kind.to_string())],
        body: body.to_string(),
        elapsed_ms: 9,
    }
}

#[test]
fn an_unreadable_file_ends_the_run() {
    let (state, actions) =
        exec_step(start(), ExecEvent::Loaded(LoadOutcome::Unreadable("gone".to_string())));
    assert!(matches!(state, ExecState::Finished));
    assert_eq!(shown(&actions), vec!["err Error reading a.http: gone\n", "exit 1"]);
}

#[test]
fn a_line_without_request_ends_the_run() {
    let (state, actions) = exec_step(start(), ExecEvent::Loaded(LoadOutcome::NotFound));
    assert!(matches!(state, ExecState::Finished));
    assert_eq!(shown(&actions), vec!["err No request found at line 7\n", "exit 1"]);
}

#[test]
fn a_request_without_note_is_sent() {
    let (state, actions) = exec_step(start(), found(request(None, None), true));
    assert!(matches!(state, ExecState::Sending { .. }));
    assert_eq!(shown(&actions), vec!["out # GET https://a\n\n", "send"]);
}

#[test]
fn missing_responses_are_reported() {
    let (_, actions) = exec_step(start(), found(request(None, None), false));
    assert_eq!(
        shown(&actions),
        vec![
            "err \x1b[33m\u{26a0} Variable 'login' has no cached response. Run the '# @name login' request first.\x1b[0m\n",
            "out # GET https://a\n\n",
            "send",
        ]
    );
}

#[test]
fn a_note_is_asked_first() {
    let (state, actions) = exec_step(start(), found(request(None, Some("careful")), true));
    assert!(matches!(state, ExecState::Confirming { .. }));
    assert_eq!(
        shown(&actions),
        vec![
            "out # GET https://a\n\n",
            "err \x1b[33m\u{26a0} careful\x1b[0m\nProceed? [y/N] ",
            "ask",
        ]
    );
}

fn confirming() -> ExecState {
    ExecState::Confirming { request: request(None, Some("n")), url: "https://a".to_string() }
}

#[test]
fn an_accepted_note_is_sent() {
    for answer in ["y", " YES \n", "Yes", "Y\n"] {
        let (state, actions) =
            exec_step(confirming(), ExecEvent::Answered(Some(answer.to_string())));
        assert!(matches!(state, ExecState::Sending { .. }));
        assert_eq!(shown(&actions), vec!["send"]);
    }
    let (_, actions) = exec_step(confirming(), ExecEvent::Answered(None));
    assert_eq!(shown(&actions), vec!["send"]);
}

#[test]
fn any_other_answer_cancels() {
    for answer in ["", "n", "yess", "y e s"] {
        let (state, actions) =
            exec_step(confirming(), ExecEvent::Answered(Some(answer.to_string())));
        assert!(matches!(state, ExecState::Finished));
        assert_eq!(shown(&actions), vec!["out Request cancelled.\n", "exit 0"]);
    }
}

#[test]
fn answers_are_compared_in_lower_case() {
    assert!(is_yes("y") && is_yes("yes"));
    assert!(!is_yes("Y") && !is_yes(""));
    assert!(confirmed(&Some("YES".to_string())));
    assert!(!confirmed(&Some("NO".to_string())));
}

fn sending(name: Option<&str>) -> ExecState {
    ExecState::Sending { request: request(name, None), url: "https://a".to_string() }
}

#[test]
fn a_response_is_printed_and_recorded() {
    let event = ExecEvent::Completed {
        outcome: Ok(response("text/plain", "hello")),
        timestamp: 1700,
    };
    let (state, actions) = exec_step(sending(None), event);
    assert!(matches!(state, ExecState::Finished));
    assert_eq!(
        shown(&actions),
        vec![
            "out HTTP 201 Created\nTime: 9ms\n\ncontent-type: text/plain\n\nhello",
            "record GET https://a 201 9 1700",
            "exit 0",
        ]
    );
}

#[test]
fn a_named_response_is_stored_and_json_is_indented() {
    let event = ExecEvent::Completed {
        outcome: Ok(response("application/json", "[1]")),
        timestamp: 1,
    };
    let (_, actions) = exec_step(sending(Some("login")), event);
    assert_eq!(
        shown(&actions),
        vec![
            "out HTTP 201 Created\nTime: 9ms\n\ncontent-type: application/json\n\n[\n  1\n]\n",
            "record GET https://a 201 9 1",
            "store login [1]",
            "err \x1b[32m\u{2713} Stored response as 'login' \u{2014} other requests can now use {{login.response.body.$.<path>}}\x1b[0m\n",
            "exit 0",
        ]
    );
}

#[test]
fn a_failure_ends_the_run() {
    let event = ExecEvent::Completed { outcome: Err("refused".to_string()), timestamp: 1 };
    let (state, actions) = exec_step(sending(Some("login")), event);
    assert!(matches!(state, ExecState::Finished));
    assert_eq!(shown(&actions), vec!["err Request failed: refused\n", "exit 1"]);
}

#[test]
fn events_out_of_turn_change_nothing() {
    let (state, actions) = exec_step(start(), ExecEvent::Answered(None));
    assert!(matches!(state, ExecState::Loading { line: 7, .. }));
    assert!(actions.is_empty());
    let (ended, none) = exec_step(ExecState::Finished, found(request(None, None), true));
    assert!(matches!(ended, ExecState::Finished));
    assert!(none.is_empty());
}

fn load(text: Result<String, String>, line: usize) -> LoadOutcome {
    load_request(
        text,
        line,
        |text: &str| {
            let mut variables = Table::new();
            variables.insert("v".to_string(), text.to_string());
            ParsedFile { requests: vec![], variables }
        },
        |_: &ParsedFile, line: usize| (line == 2).then_some(request(Some("me"), None)),
        |_: Vec<(String, String)>| vec![("authorized".to_string(), "yes".to_string())],
        || {
            let kept = NamedResponse { headers: vec![], body: "kept".to_string() };
            Some(vec![("login".to_string(), kept)])
        },
        |template: &str, ctx: &VariableContext| {
            format!("{template} {}", ctx.named_responses.get("login").unwrap().body)
        },
    )
}

#[test]
fn a_request_is_loaded_with_what_it_refers_to() {
    match load(Ok("file".to_string()), 2) {
        LoadOutcome::Found { request, url, ctx } => {
            assert_eq!(request.headers, vec![("authorized".to_string(), "yes".to_string())]);
            assert_eq!(request.url, "{{login.response.body.$.url}}");
            assert_eq!(request.name.as_deref(), Some("me"));
            assert_eq!(url, "{{login.response.body.$.url}} kept");
            assert_eq!(ctx.variables.get("v").unwrap(), "file");
            assert_eq!(ctx.named_responses.entries().len(), 1);
            assert!(ctx.allowed_env_vars.is_empty());
        }
        _ => panic!("not loaded"),
    }
}

#[test]
fn loading_can_fail() {
    assert!(matches!(load(Ok("file".to_string()), 3), LoadOutcome::NotFound));
    match load(Err("gone".to_string()), 2) {
        LoadOutcome::Unreadable(error) => assert_eq!(error, "gone"),
        _ => panic!("readable"),
    }
}
