//! What the server tells an editor, in plain values.

use tower_lsp::lsp_types::Url;
use vstd::prelude::*;

use crate::text::texts;

verus! {

/// The command that sends a request.
pub const SEND_REQUEST_COMMAND: &'static str = "rest-client.sendRequest";

/// The command that switches to another environment.
pub const SWITCH_ENV_COMMAND: &'static str = "rest-client.switchEnvironment";

/// A place in a text: a line and a byte offset in it, both counted from 0.
#[derive(Debug, Clone, Copy, PartialEq, Eq, Structural)]
pub struct Position {
    pub line: u32,
    pub character: u32,
}

/// The text from one position up to another.
#[derive(Debug, Clone, Copy, PartialEq, Eq, Structural)]
pub struct Range {
    pub start: Position,
    pub end: Position,
}

/// A range of a document.
#[derive(Debug, PartialEq, Eq)]
pub struct Location {
    pub uri: Url,
    pub range: Range,
}

/// A clickable line above a request.
#[derive(Debug, PartialEq, Eq)]
pub struct CodeLens {
    pub range: Range,
    pub title: String,
    pub command: String,
    /// The first argument of the command: the address of the document.
    pub document: String,
    /// The second argument of the command: the line of the request.
    pub line: usize,
}

/// How bad a finding is.
#[derive(Debug, Clone, Copy, PartialEq, Eq, Structural)]
pub enum Severity {
    Error,
    Warning,
}

/// A finding in a document.
#[derive(Debug, PartialEq, Eq)]
pub struct Diagnostic {
    pub range: Range,
    pub severity: Severity,
    pub source: String,
    pub message: String,
}

/// Markdown text shown over a name.
#[derive(Debug, PartialEq, Eq)]
pub struct Hover {
    pub value: String,
}

/// What a suggested name stands for.
#[derive(Debug, Clone, Copy, PartialEq, Eq, Structural)]
pub enum CompletionKind {
    Function,
    Variable,
}

/// A suggested name.
#[derive(Debug, PartialEq, Eq)]
pub struct CompletionItem {
    pub label: String,
    pub kind: CompletionKind,
    pub detail: String,
}

/// What kind of message a client gets to see.
#[derive(Debug, Clone, Copy, PartialEq, Eq, Structural)]
pub enum MessageKind {
    Info,
    Warning,
    Error,
}

/// A message for a client.
#[derive(Debug, PartialEq, Eq)]
pub struct Message {
    pub kind: MessageKind,
    pub text: String,
}

/// How much of a document a client sends after a change.
#[derive(Debug, Clone, Copy, PartialEq, Eq, Structural)]
pub enum DocumentSync {
    Nothing,
    Full,
    Incremental,
}

/// What the server can do.
#[derive(Debug, PartialEq, Eq)]
pub struct Capabilities {
    pub open_close: bool,
    pub change: DocumentSync,
    pub save_includes_text: bool,
    pub code_lens_resolve: bool,
    pub completion_triggers: Vec<String>,
    pub definition: bool,
    pub hover: bool,
    pub commands: Vec<String>,
    pub server_name: String,
    pub server_version: String,
}

/// The range of a whole line that is `width` bytes long.
pub open spec fn line_range(line: int, width: nat) -> Range {
    Range {
        start: Position { line: line as u32, character: 0 },
        end: Position { line: line as u32, character: width as u32 },
    }
}

/// The range of a whole line reaches from its first byte to behind its last, in that line.
pub proof fn lemma_range_covers_the_line(line: int, width: nat)
    requires
        0 <= line <= u32::MAX,
        width <= u32::MAX,
    ensures
        line_range(line, width).start.line == line,
        line_range(line, width).start.character == 0,
        line_range(line, width).end.line == line,
        line_range(line, width).end.character == width,
{
}

/// The range of a whole line that is `width` bytes long.
pub fn range_of_line(line: usize, width: usize) -> (r: Range)
    ensures
        r == line_range(line as int, width as nat),
{
    Range {
        start: Position { line: line as u32, character: 0 },
        end: Position { line: line as u32, character: width as u32 },
    }
}

/// The capabilities of the server: whole documents on every change, lenses that need no
/// resolving, suggestions after an opening brace, definitions, hovers and both commands.
pub fn capabilities(version: &str) -> (r: Capabilities)
    ensures
        r.open_close,
        r.change == DocumentSync::Full,
        r.save_includes_text,
        !r.code_lens_resolve,
        texts(r.completion_triggers@) == seq!["{"@],
        r.definition,
        r.hover,
        texts(r.commands@) == seq![SEND_REQUEST_COMMAND@, SWITCH_ENV_COMMAND@],
        r.server_name@ == "rest-client-lsp"@,
        r.server_version@ == version@,
{
    let mut completion_triggers: Vec<String> = Vec::new();
    completion_triggers.push("{".to_owned());
    let mut commands: Vec<String> = Vec::new();
    commands.push(SEND_REQUEST_COMMAND.to_owned());
    commands.push(SWITCH_ENV_COMMAND.to_owned());
    assert(texts(completion_triggers@) =~= seq!["{"@]);
    assert(texts(commands@) =~= seq![SEND_REQUEST_COMMAND@, SWITCH_ENV_COMMAND@]);
    Capabilities {
        open_close: true,
        change: DocumentSync::Full,
        save_includes_text: true,
        code_lens_resolve: false,
        completion_triggers,
        definition: true,
        hover: true,
        commands,
        server_name: "rest-client-lsp".to_owned(),
        server_version: version.to_owned(),
    }
}

} // verus!
