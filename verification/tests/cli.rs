use rest_client_lsp::cli::{
    cli_from_curl, cli_generate, cli_to_curl, look_up_request, parse_arguments, resolve_request,
    CliCommand, CliOutput, Lookup,
};
use rest_client_lsp::model::{ParsedFile, ParsedRequest, VariableContext};
use rest_client_lsp::table::Table;

fn parsed(words: &[&str]) -> String {
    let mut arguments = vec!["rest-client-lsp".to_string()];
    arguments.extend(words.iter().map(|word| word.to_string()));
    match parse_arguments(&arguments) {
        CliCommand::Exec { file, line } => format!("exec {file} {line}"),
        CliCommand::ToCurl { file, line } => format!("to {file} {line}"),
        CliCommand::FromCurl { command } => format!("from {command}"),
        CliCommand::Generate { language, file, line } => format!("generate {language} {file} {line}"),
        CliCommand::History { file } => format!("history {file}"),
        CliCommand::Serve => "serve".to_string(),
    }
}

#[test]
fn arguments_choose_a_command() {
    assert_eq!(parsed(&["--exec", "a.http", "12"]), "exec a.http 12");
    assert_eq!(parsed(&["--to-curl", "a.http", "x"]), "to a.http 1");
    assert_eq!(parsed(&["--from-curl", "curl", "-X", "GET"]), "from curl -X GET");
    assert_eq!(parsed(&["--from-curl", "curl"]), "from curl");
    assert_eq!(parsed(&["--generate", "python", "a.http", "+3"]), "generate python a.http 3");
    assert_eq!(parsed(&["--history", "a.http"]), "history a.http");
}

#[test]
fn anything_else_serves() {
    assert_eq!(parsed(&[]), "serve");
    assert_eq!(parsed(&["--exec", "a.http"]), "serve");
    assert_eq!(parsed(&["--to-curl", "a.http"]), "serve");
    assert_eq!(parsed(&["--from-curl"]), "serve");
    assert_eq!(parsed(&["--generate", "python", "a.http"]), "serve");
    assert_eq!(parsed(&["--history"]), "serve");
    assert_eq!(parsed(&["--other", "a", "b", "c"]), "serve");
    assert!(matches!(parse_arguments(&vec![]), CliCommand::Serve));
}

fn shown(output: CliOutput) -> (String, String, i32) {
    (output.out, output.err, output.code)
}

fn expected(out: &str, err: &str, code: i32) -> (String, String, i32) {
    (out.to_string(), err.to_string(), code)
}

#[test]
fn curl_commands_are_printed() {
    assert_eq!(
        shown(cli_to_curl("f", 3, Lookup::Found("curl x".to_string()))),
        expected("curl x\n", "", 0)
    );
    assert_eq!(
        shown(cli_to_curl("f", 3, Lookup::NotFound)),
        expected("", "No request found at line 3\n", 1)
    );
    assert_eq!(
        shown(cli_to_curl("f", 3, Lookup::Unreadable("gone".to_string()))),
        expected("", "Error reading f: gone\n", 1)
    );
}

#[test]
fn conversions_are_printed() {
    assert_eq!(shown(cli_from_curl(Ok("GET x\n".to_string()))), expected("GET x\n", "", 0));
    assert_eq!(shown(cli_from_curl(Err("bad".to_string()))), expected("", "Error: bad\n", 1));
}

#[test]
fn generated_code_is_printed() {
    assert_eq!(
        shown(cli_generate("f", 3, Lookup::Found(Ok("code".to_string())))),
        expected("code", "", 0)
    );
    assert_eq!(
        shown(cli_generate("f", 3, Lookup::Found(Err("unknown".to_string())))),
        expected("", "Error: unknown\n", 1)
    );
    assert_eq!(
        shown(cli_generate("f", 3, Lookup::NotFound)),
        expected("", "No request found at line 3\n", 1)
    );
    assert_eq!(
        shown(cli_generate("f", 3, Lookup::Unreadable("gone".to_string()))),
        expected("", "Error reading f: gone\n", 1)
    );
}

#[test]
fn references_of_a_request_are_resolved() {
    let request = ParsedRequest {
        method: "{{m}}".to_string(),
        url: "{{u}}".to_string(),
        headers: vec![("{{n}}".to_string(), "{{v}}".to_string())],
        body: Some("{{b}}".to_string()),
        name: Some("{{name}}".to_string()),
        note: None,
        line: 4,
    };
    let ctx = VariableContext::new(Table::new());
    let upper = |template: &str, _: &VariableContext| template.to_uppercase();
    let resolved = resolve_request(request, &ctx, &upper);
    assert_eq!(resolved.method, "{{m}}");
    assert_eq!(resolved.url, "{{U}}");
    assert_eq!(resolved.headers, vec![("{{n}}".to_string(), "{{V}}".to_string())]);
    assert_eq!(resolved.body.as_deref(), Some("{{B}}"));
    assert_eq!(resolved.name.as_deref(), Some("{{name}}"));
    assert_eq!(resolved.line, 4);
}

fn look_up(text: Result<String, String>, line: usize) -> Lookup<ParsedRequest> {
    look_up_request(
        text,
        line,
        |text: &str| {
            let mut variables = Table::new();
            variables.insert("v".to_string(), text.to_string());
            ParsedFile { requests: vec![], variables }
        },
        |_: &ParsedFile, line: usize| {
            (line == 2).then_some(ParsedRequest {
                method: "GET".to_string(),
                url: "u".to_string(),
                headers: vec![("h".to_string(), "w".to_string())],
                body: None,
                name: None,
                note: None,
                line,
            })
        },
        |template: &str, ctx: &VariableContext| {
            format!("{template}={}", ctx.variables.get("v").unwrap())
        },
        |headers: Vec<(String, String)>| {
            headers.into_iter().map(|(name, value)| (name, format!("<{value}>"))).collect()
        },
    )
}

#[test]
fn a_request_is_resolved_and_then_authorized() {
    match look_up(Ok("file".to_string()), 2) {
        Lookup::Found(request) => {
            assert_eq!(request.url, "u=file");
            assert_eq!(request.headers, vec![("h".to_string(), "<w=file>".to_string())]);
            assert_eq!(request.body, None);
            assert_eq!(request.line, 2);
        }
        _ => panic!("not found"),
    }
}

#[test]
fn a_lookup_can_fail() {
    assert!(matches!(look_up(Ok("file".to_string()), 3), Lookup::NotFound));
    match look_up(Err("gone".to_string()), 2) {
        Lookup::Unreadable(error) => assert_eq!(error, "gone"),
        _ => panic!("readable"),
    }
}
