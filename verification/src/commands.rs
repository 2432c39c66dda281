//! The commands of the server, and what it tells the client about them.

use tower_lsp::lsp_types::Url;
use vstd::prelude::*;

use crate::handler::{lens_of, ExecuteRequestOutput};
use crate::json::{json_as_str, json_as_u64, json_str, json_u64};
use crate::model::ParsedRequest;
use crate::protocol::{
    CodeLens, CompletionItem, Message, MessageKind, SEND_REQUEST_COMMAND, SWITCH_ENV_COMMAND,
};
use crate::text::{opt_view, same_text};
use crate::uris::{parse_url, url_parsed, url_text};

verus! {

/// What a command asks for.
pub enum CommandAction {
    /// Send the request in this line of this document.
    Send { uri: Url, line: usize },
    /// Switch to this environment.
    SwitchEnvironment { name: String },
    /// Nothing that the server knows of.
    Ignore,
}

/// The text of an argument; the empty text where it is none.
pub open spec fn text_or_empty(text: Option<Seq<char>>) -> Seq<char> {
    match text {
        Some(value) => value,
        None => Seq::<char>::empty(),
    }
}

/// The action that a command with `count` arguments asks for, of which the first is `text`
/// where it is a string, the second `number` where it is an unsigned number, and the first
/// read as an address is `uri`.
pub open spec fn asks_for(
    action: CommandAction,
    command: Seq<char>,
    count: nat,
    text: Option<Seq<char>>,
    number: Option<u64>,
    uri: Option<Url>,
) -> bool {
    if command == SEND_REQUEST_COMMAND@ {
        if count >= 2 && uri is Some {
            action == (CommandAction::Send {
                uri: uri->0,
                line: (match number {
                    Some(line) => line as usize,
                    None => 0,
                }),
            })
        } else {
            action == CommandAction::Ignore
        }
    } else if command == SWITCH_ENV_COMMAND@ {
        if count >= 1 && text is Some {
            action is SwitchEnvironment && action->name@ == text->0
        } else {
            action == CommandAction::Ignore
        }
    } else {
        action == CommandAction::Ignore
    }
}

/// The text of the first argument.
pub open spec fn first_text(arguments: Seq<serde_json::Value>) -> Option<Seq<char>> {
    if arguments.len() > 0 {
        json_str(arguments[0])
    } else {
        None
    }
}

/// The number of the second argument.
pub open spec fn second_number(arguments: Seq<serde_json::Value>) -> Option<u64> {
    if arguments.len() > 1 {
        json_u64(arguments[1])
    } else {
        None
    }
}

/// The two commands have different names.
pub proof fn lemma_commands_differ()
    ensures
        SEND_REQUEST_COMMAND@ != SWITCH_ENV_COMMAND@,
{
    reveal_strlit("rest-client.sendRequest");
    reveal_strlit("rest-client.switchEnvironment");
    assert(SEND_REQUEST_COMMAND@.len() != SWITCH_ENV_COMMAND@.len());
}

/// The command of a lens sends the request for which the lens stands, provided that the
/// address of the document reads back as itself.
pub proof fn lemma_lens_sends_its_request(
    lens: CodeLens,
    uri: Url,
    request: ParsedRequest,
    action: CommandAction,
)
    requires
        lens_of(lens, uri, request),
        url_parsed(url_text(uri)) == Some(uri),
        asks_for(
            action,
            lens.command@,
            2,
            Some(lens.document@),
            Some(lens.line as u64),
            url_parsed(lens.document@),
        ),
    ensures
        action == (CommandAction::Send { uri, line: request.line }),
{
}

/// The command that sends a request asks for the line of its second argument in the document
/// of its first, for the first line where that is no number, and for nothing without two
/// arguments or an address; what else is there does not matter.
pub proof fn lemma_send_command_sends(
    action: CommandAction,
    count: nat,
    text: Option<Seq<char>>,
    number: Option<u64>,
    uri: Option<Url>,
    line: usize,
)
    requires
        asks_for(action, "rest-client.sendRequest"@, count, text, number, uri),
    ensures
        count >= 2 && number == Some(line as u64) ==> (uri matches Some(document) ==> action == (
        CommandAction::Send { uri: document, line })),
        count >= 2 && number is None ==> (uri matches Some(document) ==> action == (
        CommandAction::Send { uri: document, line: 0 })),
        count < 2 || uri is None ==> action == CommandAction::Ignore,
{
}

/// The command that switches the environment asks for the one that its first argument names,
/// and for nothing where that is no text; a command of any other name asks for nothing.
pub proof fn lemma_switch_command_switches(
    action: CommandAction,
    command: Seq<char>,
    count: nat,
    text: Option<Seq<char>>,
    number: Option<u64>,
    uri: Option<Url>,
)
    requires
        asks_for(action, command, count, text, number, uri),
    ensures
        command == "rest-client.switchEnvironment"@ && count >= 1 ==> (text matches Some(name)
            ==> action is SwitchEnvironment && action->name@ == name),
        command == "rest-client.switchEnvironment"@ && (count == 0 || text is None) ==> action
            == CommandAction::Ignore,
        command != "rest-client.switchEnvironment"@ && command != "rest-client.sendRequest"@
            ==> action == CommandAction::Ignore,
{
    lemma_commands_differ();
}

/// The text of a command is that of its first argument and the number that of its second, also
/// where more follow.
pub proof fn lemma_further_arguments_do_not_matter(
    first: serde_json::Value,
    second: serde_json::Value,
    rest: Seq<serde_json::Value>,
)
    ensures
        first_text(seq![first] + rest) == json_str(first),
        second_number(seq![first, second] + rest) == json_u64(second),
        first_text(Seq::<serde_json::Value>::empty()) is None,
        second_number(seq![first]) is None,
        json_str(first) matches Some(text) ==> text_or_empty(first_text(seq![first] + rest))
            == text,
        json_str(first) is None ==> text_or_empty(first_text(seq![first] + rest)).len() == 0,
{
    assert((seq![first] + rest)[0] == first);
    assert((seq![first, second] + rest)[1] == second);
}

/// The action that a command asks for, given what its arguments hold.
pub fn interpret_command(
    command: &str,
    count: usize,
    text: Option<&str>,
    number: Option<u64>,
    uri: Option<Url>,
) -> (r: CommandAction)
    ensures
        asks_for(r, command@, count as nat, opt_view(text), number, uri),
{
    if same_text(command, SEND_REQUEST_COMMAND) {
        if count < 2 {
            return CommandAction::Ignore;
        }
        match uri {
            Some(uri) => {
                let line: usize = match number {
                    Some(line) => line as usize,
                    None => 0,
                };
                CommandAction::Send { uri, line }
            },
            None => CommandAction::Ignore,
        }
    } else if same_text(command, SWITCH_ENV_COMMAND) {
        if count < 1 {
            return CommandAction::Ignore;
        }
        match text {
            Some(name) => CommandAction::SwitchEnvironment { name: name.to_owned() },
            None => CommandAction::Ignore,
        }
    } else {
        CommandAction::Ignore
    }
}

/// The action that a command with these arguments asks for.
pub fn dispatch_command(command: &str, arguments: &Vec<serde_json::Value>) -> (r: CommandAction)
    ensures
        asks_for(
            r,
            command@,
            arguments@.len(),
            first_text(arguments@),
            second_number(arguments@),
            url_parsed(text_or_empty(first_text(arguments@))),
        ),
{
    let text: Option<&str> = if arguments.len() > 0 {
        json_as_str(&arguments[0])
    } else {
        None
    };
    let number: Option<u64> = if arguments.len() > 1 {
        json_as_u64(&arguments[1])
    } else {
        None
    };
    proof {
        reveal_strlit("");
        assert(""@ =~= Seq::<char>::empty());
    }
    let uri = match text {
        Some(value) => parse_url(value),
        None => parse_url(""),
    };
    interpret_command(command, arguments.len(), text, number, uri)
}

/// What the client is told, and what the command returns.
pub struct CommandReply {
    pub message: Message,
    pub reply: String,
}

/// The client is told this, and the command returns that.
pub open spec fn tells(
    told: CommandReply,
    kind: MessageKind,
    text: Seq<char>,
    reply: Seq<char>,
) -> bool {
    told.message.kind == kind && told.message.text@ == text && told.reply@ == reply
}

/// What the client is told of a request that was answered.
pub open spec fn is_answer_told(
    told: CommandReply,
    output: ExecuteRequestOutput,
    saved: Result<String, String>,
) -> bool {
    match saved {
        Ok(path) => tells(
            told,
            MessageKind::Info,
            "Request completed. Response saved to "@ + path@,
            output.formatted_response@,
        ),
        Err(error) => tells(
            told,
            MessageKind::Warning,
            "Request completed, but response file could not be saved: "@ + error@,
            output.formatted_response@,
        ),
    }
}

/// An answered request returns its response, whether it was saved or not; the client learns
/// where it was saved, or is warned with the cause.
pub proof fn lemma_answer_is_returned(
    told: CommandReply,
    output: ExecuteRequestOutput,
    saved: Result<String, String>,
)
    requires
        is_answer_told(told, output, saved),
    ensures
        told.reply@ == output.formatted_response@,
        saved is Ok <==> told.message.kind == MessageKind::Info,
        saved is Err <==> told.message.kind == MessageKind::Warning,
        saved matches Ok(path) ==> path@.is_suffix_of(told.message.text@)
            && "Request completed. Response saved to "@.is_prefix_of(told.message.text@),
        saved matches Err(error) ==> error@.is_suffix_of(told.message.text@)
            && "Request completed, but response file could not be saved: "@.is_prefix_of(
            told.message.text@,
        ),
{
    let text = told.message.text@;
    match saved {
        Ok(path) => {
            let start = "Request completed. Response saved to "@;
            assert(text.take(start.len() as int) =~= start);
            assert(text.subrange(text.len() - path@.len(), text.len() as int) =~= path@);
        },
        Err(error) => {
            let start = "Request completed, but response file could not be saved: "@;
            assert(text.take(start.len() as int) =~= start);
            assert(text.subrange(text.len() - error@.len(), text.len() as int) =~= error@);
        },
    }
}

/// What the client is told of settings that were asked for.
pub open spec fn is_settings_message(message: Message, loaded: Result<String, String>) -> bool {
    match loaded {
        Ok(name) => message.kind == MessageKind::Info && message.text@
            == "Loaded settings, active environment: "@ + name@,
        Err(error) => message.kind == MessageKind::Warning && message.text@
            == "Failed to read settings: "@ + error@,
    }
}

/// The client learns which environment is active, or is warned with the cause.
pub proof fn lemma_settings_are_reported(message: Message, loaded: Result<String, String>)
    requires
        is_settings_message(message, loaded),
    ensures
        loaded is Ok <==> message.kind == MessageKind::Info,
        loaded is Err <==> message.kind == MessageKind::Warning,
        loaded matches Ok(name) ==> message.text@ == "Loaded settings, active environment: "@
            + name@,
        loaded matches Err(error) ==> message.text@ == "Failed to read settings: "@ + error@,
{
}

/// What the client is told when a request was answered: where the response was saved, or
/// why it was not. The command returns the response.
pub fn answered_reply(output: ExecuteRequestOutput, saved: Result<String, String>) -> (r:
    CommandReply)
    ensures
        is_answer_told(r, output, saved),
{
    let message = match saved {
        Ok(path) => {
            let mut text: String = "Request completed. Response saved to ".to_owned();
            text.append(path.as_str());
            Message { kind: MessageKind::Info, text }
        },
        Err(error) => {
            let mut text: String =
                "Request completed, but response file could not be saved: ".to_owned();
            text.append(error.as_str());
            Message { kind: MessageKind::Warning, text }
        },
    };
    CommandReply { message, reply: output.formatted_response }
}

/// What the client is told when a request failed. The command returns the error.
pub fn failed_reply(error: String) -> (r: CommandReply)
    ensures
        r.message.kind == MessageKind::Error,
        r.message.text@ == "Request failed: "@ + error@,
        r.reply == error,
{
    let mut text: String = "Request failed: ".to_owned();
    text.append(error.as_str());
    CommandReply { message: Message { kind: MessageKind::Error, text }, reply: error }
}

/// What the client is told when the environment was switched. The command returns the name.
pub fn switched_reply(name: String) -> (r: CommandReply)
    ensures
        r.message.kind == MessageKind::Info,
        r.message.text@ == "Switched to environment: "@ + name@,
        r.reply == name,
{
    let mut text: String = "Switched to environment: ".to_owned();
    text.append(name.as_str());
    CommandReply { message: Message { kind: MessageKind::Info, text }, reply: name }
}

/// What the client is told when settings were asked for: the name of the environment that
/// is active now, or why there are none.
pub fn settings_message(loaded: Result<String, String>) -> (r: Message)
    ensures
        is_settings_message(r, loaded),
{
    match loaded {
        Ok(name) => {
            let mut text: String = "Loaded settings, active environment: ".to_owned();
            text.append(name.as_str());
            Message { kind: MessageKind::Info, text }
        },
        Err(error) => {
            let mut text: String = "Failed to read settings: ".to_owned();
            text.append(error.as_str());
            Message { kind: MessageKind::Warning, text }
        },
    }
}

/// The suggestions to send to the client; `None` where there are none.
pub fn offered(items: Vec<CompletionItem>) -> (r: Option<Vec<CompletionItem>>)
    ensures
        r == (if items@.len() == 0 {
            None
        } else {
            Some(items)
        }),
{
    if items.len() == 0 {
        None
    } else {
        Some(items)
    }
}

} // verus!
