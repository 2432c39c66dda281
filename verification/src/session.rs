//! Sending a request from the command line, step by step.
//!
//! The program performs the actions that a step asks for, in order, and hands the next
//! event to the next step.

use vstd::prelude::*;
use vstd::utf8::is_ascii_chars;

use crate::cache::{lemma_order_does_not_matter, opt_entries, restore_responses, restored};
use crate::cli::{
    authorize_request, is_authorized, not_found_report, not_found_text, resolves_to,
    unreadable_report, unreadable_text,
};
use crate::dependencies::{
    dependency, find_missing_dependencies, lemma_reference_depends_on_its_request,
    missing_dependencies,
};
use crate::formatter::{
    diagnostics_text, format_response_diagnostics, is_json, pretty_body, pretty_response_body,
    response_text,
};
use crate::model::{
    header_texts, stored, NamedResponse, ParsedFile, ParsedRequest, Response, StoredResponse,
    VariableContext,
};
use crate::numbers::decimal;
use crate::table::{entries_map, names_distinct, Duplicate};
use crate::text::{
    ascii_lower, chars_of, contains, is_blank, is_clean, lemma_trim_padded, occurs_at, opt_text,
    same_text, string_of, texts, trim, trimmed,
};

verus! {

/// The lower-case form of a text, as `str::to_lowercase` gives it.
pub uninterp spec fn lowercase(text: Seq<char>) -> Seq<char>;

/// Calls `str::to_lowercase`: the text depends on the given one alone, and ASCII letters
/// become their ASCII lower-case forms.
#[verifier::external_body]
pub(crate) fn to_lowercase(text: &str) -> (r: String)
    ensures
        r@ == lowercase(text@),
        is_ascii_chars(text@) ==> r@ == ascii_lower(text@),
{
    text.to_lowercase()
}

/// A request that was sent and answered.
pub struct HistoryEntry {
    pub method: String,
    pub url: String,
    pub status: u16,
    pub elapsed_ms: u64,
    /// Seconds since 1970.
    pub timestamp: u64,
}

/// What came of loading the request.
pub enum LoadOutcome {
    /// The file could not be read.
    Unreadable(String),
    /// The file has no request at the line.
    NotFound,
    /// The request with its authorization, its URL with all references resolved, and the
    /// variables and responses to which it can refer.
    Found { request: ParsedRequest, url: String, ctx: VariableContext },
}

/// The context has the variables that the file declares and the responses that were kept.
pub open spec fn is_exec_context(
    ctx: VariableContext,
    file: ParsedFile,
    kept: Option<Vec<(String, NamedResponse)>>,
) -> bool {
    &&& ctx.variables@ == file.variables@
    &&& ctx.named_responses@ == restored(
        Map::<Seq<char>, StoredResponse>::empty(),
        opt_entries(kept),
    )
    &&& ctx.allowed_env_vars@.len() == 0
}

/// What is loaded at `line` of what `parse` makes of `text` is the request there, authorized,
/// with the variables of its file and the responses that `keep` hands out, and its URL
/// resolved with these.
pub open spec fn is_loaded<
    P: Fn(&str) -> ParsedFile,
    L: Fn(&ParsedFile, usize) -> Option<ParsedRequest>,
    A: Fn(Vec<(String, String)>) -> Vec<(String, String)>,
    K: Fn() -> Option<Vec<(String, NamedResponse)>>,
    R: Fn(&str, &VariableContext) -> String,
>(
    loaded: LoadOutcome,
    text: Seq<char>,
    line: usize,
    parse: P,
    find: L,
    authorize: A,
    keep: K,
    resolve: R,
) -> bool {
    exists|source: &str, file: ParsedFile, found: Option<ParsedRequest>|
        {
            &&& source@ == text
            &&& #[trigger] parse.ensures((source,), file)
            &&& #[trigger] find.ensures((&file, line), found)
            &&& match found {
                Some(request) => {
                    &&& loaded is Found
                    &&& is_authorized(loaded->request, request, authorize)
                    &&& exists|kept: Option<Vec<(String, NamedResponse)>>| #[trigger]
                        keep.ensures((), kept) && is_exec_context(loaded->ctx, file, kept)
                    &&& resolves_to(resolve, loaded->ctx, request.url@, loaded->url@)
                },
                None => loaded is NotFound,
            }
        }
}

/// A request that is loaded is authorized, and its URL is resolved with the variables that its
/// file declares and with the responses that were kept. Where one is found, it is loaded.
pub proof fn lemma_loaded_request_knows_kept_responses<
    P: Fn(&str) -> ParsedFile,
    L: Fn(&ParsedFile, usize) -> Option<ParsedRequest>,
    A: Fn(Vec<(String, String)>) -> Vec<(String, String)>,
    K: Fn() -> Option<Vec<(String, NamedResponse)>>,
    R: Fn(&str, &VariableContext) -> String,
>(
    loaded: LoadOutcome,
    text: Seq<char>,
    line: usize,
    parse: P,
    find: L,
    authorize: A,
    keep: K,
    resolve: R,
    declared: spec_fn(Seq<char>) -> Map<Seq<char>, Seq<char>>,
    url: Seq<char>,
    headers: Seq<(Seq<char>, Seq<char>)>,
    authorized: spec_fn(Seq<(Seq<char>, Seq<char>)>) -> Seq<(Seq<char>, Seq<char>)>,
    kept: Map<Seq<char>, StoredResponse>,
    value_of: spec_fn(
        Map<Seq<char>, Seq<char>>,
        Map<Seq<char>, StoredResponse>,
        Seq<char>,
    ) -> Seq<char>,
)
    requires
        is_loaded(loaded, text, line, parse, find, authorize, keep, resolve),
        forall|source: &str, file: ParsedFile| #[trigger]
            parse.ensures((source,), file) ==> file.variables@ == declared(source@),
        forall|file: ParsedFile, found: Option<ParsedRequest>| #[trigger]
            find.ensures((&file, line), found) ==> (found matches Some(request) ==> request.url@
                == url && header_texts(request.headers@) == headers),
        forall|given: Vec<(String, String)>, made: Vec<(String, String)>| #[trigger]
            authorize.ensures((given,), made) ==> header_texts(made@) == authorized(
                header_texts(given@),
            ),
        forall|entries: Option<Vec<(String, NamedResponse)>>| #[trigger]
            keep.ensures((), entries) ==> entries is Some && names_distinct(entries->0@)
                && entries_map(entries->0@) == kept,
        forall|template: &str, ctx: VariableContext, value: String| #[trigger]
            resolve.ensures((template, &ctx), value) ==> value@ == value_of(
                ctx.variables@,
                ctx.named_responses@,
                template@,
            ),
    ensures
        !(loaded is Unreadable),
        (forall|file: ParsedFile, found: Option<ParsedRequest>| #[trigger]
            find.ensures((&file, line), found) ==> found is Some) ==> loaded is Found,
        loaded is Found ==> {
            &&& loaded->request.url@ == url
            &&& header_texts(loaded->request.headers@) == authorized(headers)
            &&& loaded->ctx.variables@ == declared(text)
            &&& loaded->ctx.named_responses@ == kept
            &&& loaded->url@ == value_of(declared(text), kept, url)
        },
{
    let (source, file, found) = choose|
        source: &str,
        file: ParsedFile,
        found: Option<ParsedRequest>,
    |
        {
            &&& source@ == text
            &&& #[trigger] parse.ensures((source,), file)
            &&& #[trigger] find.ensures((&file, line), found)
            &&& match found {
                Some(request) => {
                    &&& loaded is Found
                    &&& is_authorized(loaded->request, request, authorize)
                    &&& exists|kept: Option<Vec<(String, NamedResponse)>>| #[trigger]
                        keep.ensures((), kept) && is_exec_context(loaded->ctx, file, kept)
                    &&& resolves_to(resolve, loaded->ctx, request.url@, loaded->url@)
                },
                None => loaded is NotFound,
            }
        };
    if let Some(request) = found {
        let entries = choose|entries: Option<Vec<(String, NamedResponse)>>| #[trigger]
            keep.ensures((), entries) && is_exec_context(loaded->ctx, file, entries);
        let nothing = Map::<Seq<char>, StoredResponse>::empty();
        lemma_order_does_not_matter(nothing, entries->0@);
        assert(nothing.union_prefer_right(kept) =~= kept);
        assert(authorize.ensures((request.headers,), loaded->request.headers));
    }
}

/// Loads the request at a line of a file, given what came of reading the file. `parse` reads
/// a request file, `find` looks for the request at a line of it, `authorize` encodes
/// credentials in headers, `keep` hands out the responses that were kept, where they can be
/// read, and `resolve` replaces references.
pub fn load_request<
    P: Fn(&str) -> ParsedFile,
    L: Fn(&ParsedFile, usize) -> Option<ParsedRequest>,
    A: Fn(Vec<(String, String)>) -> Vec<(String, String)>,
    K: Fn() -> Option<Vec<(String, NamedResponse)>>,
    R: Fn(&str, &VariableContext) -> String,
>(
    text: Result<String, String>,
    line: usize,
    parse: P,
    find: L,
    authorize: A,
    keep: K,
    resolve: R,
) -> (r: LoadOutcome)
    requires
        forall|source: &str| #[trigger] parse.requires((source,)),
        forall|file: &ParsedFile, at: usize| #[trigger] find.requires((file, at)),
        forall|headers: Vec<(String, String)>| #[trigger] authorize.requires((headers,)),
        keep.requires(()),
        forall|template: &str, known: &VariableContext| #[trigger]
            resolve.requires((template, known)),
    ensures
        match text {
            Ok(content) => is_loaded(
                r,
                content@,
                line,
                parse,
                find,
                authorize,
                keep,
                resolve,
            ),
            Err(error) => r == LoadOutcome::Unreadable(error),
        },
{
    let content = match text {
        Ok(content) => content,
        Err(error) => return LoadOutcome::Unreadable(error),
    };
    let file = parse(content.as_str());
    let mut ctx = VariableContext::new(file.variables.duplicate());
    match find(&file, line) {
        Some(found) => {
            let request = authorize_request(found, &authorize);
            let kept = keep();
            restore_responses(&mut ctx, &kept);
            assert(is_exec_context(ctx, file, kept));
            let url = resolve(request.url.as_str(), &ctx);
            assert(resolves_to(resolve, ctx, request.url@, url@));
            LoadOutcome::Found { request, url, ctx }
        },
        None => LoadOutcome::NotFound,
    }
}

/// What has happened.
pub enum ExecEvent {
    Loaded(LoadOutcome),
    /// The user answered; `None` where no answer could be read.
    Answered(Option<String>),
    /// The request was answered or failed.
    Completed { outcome: Result<Response, String>, timestamp: u64 },
}

/// How far the run has come.
pub enum ExecState {
    Loading { file: String, line: usize },
    Confirming { request: ParsedRequest, url: String },
    Sending { request: ParsedRequest, url: String },
    Finished,
}

/// What to do.
pub enum ExecAction {
    /// Write to the standard output.
    Print(String),
    /// Write to the standard error output.
    Report(String),
    /// Read an answer of the user.
    Ask,
    /// Send the request.
    Send,
    /// Add to the history of the file.
    Record(HistoryEntry),
    /// Store the response of the request with this name, and keep it.
    Store { name: String, response: NamedResponse },
    /// Exit the program with this code.
    Exit(i32),
}

/// An action with its texts.
pub enum Act {
    Print(Seq<char>),
    Report(Seq<char>),
    Ask,
    Send,
    Record { method: Seq<char>, url: Seq<char>, status: u16, elapsed_ms: u64, timestamp: u64 },
    Store { name: Seq<char>, response: StoredResponse },
    Exit(int),
}

impl View for ExecAction {
    type V = Act;

    open spec fn view(&self) -> Act {
        match self {
            ExecAction::Print(text) => Act::Print(text@),
            ExecAction::Report(text) => Act::Report(text@),
            ExecAction::Ask => Act::Ask,
            ExecAction::Send => Act::Send,
            ExecAction::Record(entry) => Act::Record {
                method: entry.method@,
                url: entry.url@,
                status: entry.status,
                elapsed_ms: entry.elapsed_ms,
                timestamp: entry.timestamp,
            },
            ExecAction::Store { name, response } => Act::Store {
                name: name@,
                response: response@,
            },
            ExecAction::Exit(code) => Act::Exit(*code as int),
        }
    }
}

/// The actions with their texts.
pub open spec fn acts(actions: Seq<ExecAction>) -> Seq<Act> {
    actions.map_values(|action: ExecAction| action@)
}

/// The warning that a response to which the request refers is not there yet.
pub open spec fn missing_text(name: Seq<char>) -> Seq<char> {
    "\x1b[33m⚠ Variable '"@ + name + "' has no cached response. Run the '# @name "@ + name
        + "' request first.\x1b[0m\n"@
}

/// The warnings for these names.
pub open spec fn missing_warnings(names: Seq<Seq<char>>) -> Seq<Act> {
    names.map_values(|name: Seq<char>| Act::Report(missing_text(name)))
}

/// The line above a response.
pub open spec fn heading(request: ParsedRequest, url: Seq<char>) -> Seq<char> {
    "# "@ + request.method@ + " "@ + url + "\n\n"@
}

/// The question that a note asks.
pub open spec fn note_text(note: Seq<char>) -> Seq<char> {
    "\x1b[33m⚠ "@ + note + "\x1b[0m\nProceed? [y/N] "@
}

/// The answer, without white space around it and in lower case, says yes.
pub open spec fn says_yes(answer: Seq<char>) -> bool {
    answer == "y"@ || answer == "yes"@
}

/// The request is to be sent after this answer; also where none could be read.
pub open spec fn accepted(answer: Option<Seq<char>>) -> bool {
    match answer {
        Some(line) => says_yes(lowercase(trim(line))),
        None => true,
    }
}

/// The response as it is printed.
pub open spec fn printed_response(response: Response) -> Seq<char> {
    diagnostics_text(response) + "\n"@ + (match pretty_body(
        response.body@,
        header_texts(response.headers@),
    ) {
        Some(pretty) => pretty + "\n"@,
        None => response.body@,
    })
}

/// The notice that a response was stored.
pub open spec fn stored_text(name: Seq<char>) -> Seq<char> {
    "\x1b[32m✓ Stored response as '"@ + name + "' — other requests can now use {{"@ + name
        + ".response.body.$.<path>}}\x1b[0m\n"@
}

/// What is done with a response.
pub open spec fn response_acts(
    request: ParsedRequest,
    url: Seq<char>,
    response: Response,
    timestamp: u64,
) -> Seq<Act> {
    seq![
        Act::Print(printed_response(response)),
        Act::Record {
            method: request.method@,
            url,
            status: response.status,
            elapsed_ms: response.elapsed_ms,
            timestamp,
        },
    ] + (match request.name {
        Some(name) => seq![
            Act::Store { name: name@, response: stored(response) },
            Act::Report(stored_text(name@)),
        ],
        None => seq![],
    }) + seq![Act::Exit(0)]
}

/// The actions that an event asks for.
pub open spec fn step_acts(state: ExecState, event: ExecEvent) -> Seq<Act> {
    match (state, event) {
        (ExecState::Loading { file, line }, ExecEvent::Loaded(outcome)) => match outcome {
            LoadOutcome::Unreadable(error) => seq![
                Act::Report(unreadable_text(file@, error@)),
                Act::Exit(1),
            ],
            LoadOutcome::NotFound => seq![Act::Report(not_found_text(line)), Act::Exit(1)],
            LoadOutcome::Found { request, url, ctx } => missing_warnings(
                missing_dependencies(request, ctx.named_responses@.dom()),
            ) + seq![Act::Print(heading(request, url@))] + (match request.note {
                Some(note) => seq![Act::Report(note_text(note@)), Act::Ask],
                None => seq![Act::Send],
            }),
        },
        (ExecState::Confirming { request, url }, ExecEvent::Answered(answer)) => if accepted(
            opt_text(answer),
        ) {
            seq![Act::Send]
        } else {
            seq![Act::Print("Request cancelled.\n"@), Act::Exit(0)]
        },
        (
            ExecState::Sending { request, url },
            ExecEvent::Completed { outcome, timestamp },
        ) => match outcome {
            Ok(response) => response_acts(request, url@, response, timestamp),
            Err(error) => seq![
                Act::Report("Request failed: "@ + error@ + "\n"@),
                Act::Exit(1),
            ],
        },
        _ => seq![],
    }
}

/// How far the run has come after an event.
pub open spec fn step_state(state: ExecState, event: ExecEvent) -> ExecState {
    match (state, event) {
        (ExecState::Loading { file, line }, ExecEvent::Loaded(outcome)) => match outcome {
            LoadOutcome::Found { request, url, ctx } => if request.note is Some {
                ExecState::Confirming { request, url }
            } else {
                ExecState::Sending { request, url }
            },
            _ => ExecState::Finished,
        },
        (ExecState::Confirming { request, url }, ExecEvent::Answered(answer)) => if accepted(
            opt_text(answer),
        ) {
            ExecState::Sending { request, url }
        } else {
            ExecState::Finished
        },
        (
            ExecState::Sending { request, url },
            ExecEvent::Completed { outcome, timestamp },
        ) => ExecState::Finished,
        _ => state,
    }
}

/// What is printed of a response is what an editor is shown of it, whatever its status, and a
/// line feed behind it exactly where its body is printed with indentation. A body that is not
/// announced as JSON ends what is printed as it is.
pub proof fn lemma_printed_is_what_is_shown(response: Response)
    ensures
        pretty_body(response.body@, header_texts(response.headers@)) is None ==> printed_response(
            response,
        ) == response_text(response),
        pretty_body(response.body@, header_texts(response.headers@)) is Some ==> printed_response(
            response,
        ) == response_text(response) + "\n"@,
        !is_json(header_texts(response.headers@)) ==> response.body@.is_suffix_of(
            printed_response(response),
        ),
        response_text(response).is_prefix_of(printed_response(response)),
{
    let all = printed_response(response);
    let shown = response_text(response);
    let body = response.body@;
    if pretty_body(body, header_texts(response.headers@)) is Some {
        assert(all =~= shown + "\n"@);
    } else {
        assert(all =~= shown);
    }
    assert(all.take(shown.len() as int) =~= shown);
    if !is_json(header_texts(response.headers@)) {
        assert(all.subrange(all.len() - body.len(), all.len() as int) =~= body);
    }
}

/// Of a request that is answered, whatever the status of the response, first the response is
/// printed; then it is recorded with its method, its URL and what the response says of
/// itself; then, where the request has a name, the response is stored under that name and that
/// is reported; and the run ends.
pub proof fn lemma_response_is_printed_recorded_and_stored(
    request: ParsedRequest,
    url: String,
    response: Response,
    timestamp: u64,
)
    ensures
        ({
            let state = ExecState::Sending { request, url };
            let event = ExecEvent::Completed { outcome: Ok(response), timestamp };
            let done = step_acts(state, event);
            &&& step_state(state, event) is Finished
            &&& done[0] == Act::Print(printed_response(response))
            &&& response_text(response).is_prefix_of(done[0]->Print_0)
            &&& done[1] == (Act::Record {
                method: request.method@,
                url: url@,
                status: response.status,
                elapsed_ms: response.elapsed_ms,
                timestamp,
            })
            &&& request.name is None ==> done.len() == 3
            &&& request.name matches Some(name) ==> {
                &&& done.len() == 5
                &&& done[2] is Store
                &&& done[2]->name == name@
                &&& done[2]->response.body == response.body@
                &&& done[2]->response.headers == header_texts(response.headers@)
                &&& done[3] == Act::Report(
                    "\x1b[32m✓ Stored response as '"@ + name@
                        + "' — other requests can now use {{"@ + name@
                        + ".response.body.$.<path>}}\x1b[0m\n"@,
                )
            }
            &&& done.last() == Act::Exit(0)
        }),
{
    lemma_printed_is_what_is_shown(response);
}

/// A request that cannot be loaded, or that fails, is reported with its cause, and the run
/// ends with code 1; nothing is printed, sent, recorded or stored.
pub proof fn lemma_failures_are_reported(
    file: String,
    line: usize,
    error: String,
    request: ParsedRequest,
    url: String,
    timestamp: u64,
)
    ensures
        step_acts(
            ExecState::Loading { file, line },
            ExecEvent::Loaded(LoadOutcome::Unreadable(error)),
        ) == seq![Act::Report("Error reading "@ + file@ + ": "@ + error@ + "\n"@), Act::Exit(1)],
        step_acts(ExecState::Loading { file, line }, ExecEvent::Loaded(LoadOutcome::NotFound))
            == seq![
            Act::Report("No request found at line "@ + decimal(line as nat) + "\n"@),
            Act::Exit(1),
        ],
        step_acts(
            ExecState::Sending { request, url },
            ExecEvent::Completed { outcome: Err(error), timestamp },
        ) == seq![Act::Report("Request failed: "@ + error@ + "\n"@), Act::Exit(1)],
{
}

/// A loaded request is introduced by a warning for each name that it misses, in order, and by
/// its method and URL; then its note is asked, where it has one, or it is sent. The request and
/// the URL are kept for what follows.
pub proof fn lemma_loaded_request_is_introduced(
    file: String,
    line: usize,
    request: ParsedRequest,
    url: String,
    ctx: VariableContext,
    i: int,
)
    ensures
        ({
            let state = ExecState::Loading { file, line };
            let event = ExecEvent::Loaded(LoadOutcome::Found { request, url, ctx });
            let done = step_acts(state, event);
            let names = missing_dependencies(request, ctx.named_responses@.dom());
            let n = names.len() as int;
            &&& 0 <= i < n ==> done[i] == Act::Report(
                "\x1b[33m⚠ Variable '"@ + names[i]
                    + "' has no cached response. Run the '# @name "@ + names[i]
                    + "' request first.\x1b[0m\n"@,
            )
            &&& done[n] == Act::Print("# "@ + request.method@ + " "@ + url@ + "\n\n"@)
            &&& request.note is None ==> {
                &&& done.len() == n + 2
                &&& done[n + 1] == Act::Send
                &&& step_state(state, event) == (ExecState::Sending { request, url })
            }
            &&& request.note matches Some(note) ==> {
                &&& done.len() == n + 3
                &&& done[n + 1] == Act::Report(
                    "\x1b[33m⚠ "@ + note@ + "\x1b[0m\nProceed? [y/N] "@,
                )
                &&& done[n + 2] == Act::Ask
                &&& step_state(state, event) == (ExecState::Confirming { request, url })
            }
        }),
{
}

/// The request that was loaded is the one that is sent after its note was accepted; otherwise
/// the run ends with a notice and code 0. An answer is accepted where it is `y` or `yes`, in
/// any case of letters and with white space around it, or where none could be read.
pub proof fn lemma_answer_decides(
    request: ParsedRequest,
    url: String,
    answer: Option<String>,
    left: Seq<char>,
    word: Seq<char>,
    right: Seq<char>,
)
    requires
        is_blank(left),
        is_clean(word),
        is_blank(right),
    ensures
        ({
            let state = ExecState::Confirming { request, url };
            let event = ExecEvent::Answered(answer);
            &&& answer is None ==> accepted(opt_text(answer))
            &&& opt_text(answer) == Some(left + word + right) ==> (accepted(opt_text(answer))
                <==> lowercase(word) == seq!['y'] || lowercase(word) == seq!['y', 'e', 's'])
            &&& accepted(opt_text(answer)) ==> step_acts(state, event) == seq![Act::Send]
                && step_state(state, event) == (ExecState::Sending { request, url })
            &&& !accepted(opt_text(answer)) ==> step_acts(state, event) == seq![
                Act::Print("Request cancelled.\n"@),
                Act::Exit(0),
            ] && step_state(state, event) is Finished
        }),
{
    lemma_trim_padded(left, word, right);
    reveal_strlit("y");
    reveal_strlit("yes");
    assert("y"@ =~= seq!['y']);
    assert("yes"@ =~= seq!['y', 'e', 's']);
}

/// The notice that a response was stored shows a reference that depends on the request of that
/// name, whatever path follows.
pub proof fn lemma_notice_shows_a_reference(name: Seq<char>, path: Seq<char>)
    requires
        name.len() > 0,
        name[0] != '$',
        !name.contains('.'),
    ensures
        contains(stored_text(name), "{{"@ + name + ".response."@),
        dependency(name + ".response."@ + path) == Some(name),
{
    lemma_reference_depends_on_its_request(name, path);
    reveal_strlit("\x1b[32m✓ Stored response as '");
    reveal_strlit("' — other requests can now use {{");
    reveal_strlit(".response.body.$.<path>}}\x1b[0m\n");
    reveal_strlit(".response.");
    reveal_strlit("{{");
    let text = stored_text(name);
    let part = "{{"@ + name + ".response."@;
    let at = "\x1b[32m✓ Stored response as '"@.len() + name.len()
        + "' — other requests can now use {{"@.len() - 2;
    assert(text.subrange(at, at + part.len()) =~= part);
    assert(occurs_at(text, part, at));
}

/// The run has come to an end.
pub open spec fn is_finished(state: ExecState) -> bool {
    state is Finished
}

/// A request with a note is sent only after the user has accepted, or where no answer can
/// be read; one without a note is sent as soon as it is loaded.
pub proof fn lemma_sent_only_when_accepted(state: ExecState, event: ExecEvent)
    ensures
        step_acts(state, event).contains(Act::Send) <==> {
            ||| state is Loading && event is Loaded && event->Loaded_0 is Found
                && event->Loaded_0->request.note is None
            ||| state is Confirming && event is Answered && accepted(
                opt_text(event->Answered_0),
            )
        },
{
    let done = step_acts(state, event);
    match (state, event) {
        (ExecState::Loading { file, line }, ExecEvent::Loaded(outcome)) => {
            if let LoadOutcome::Found { request, url, ctx } = outcome {
                let warnings = missing_warnings(
                    missing_dependencies(request, ctx.named_responses@.dom()),
                );
                if request.note is None {
                    assert(done[done.len() - 1] == Act::Send);
                } else if done.contains(Act::Send) {
                    let k = choose|k: int| 0 <= k < done.len() && done[k] == Act::Send;
                    if k < warnings.len() {
                        assert(done[k] == warnings[k]);
                    }
                }
            }
        },
        (ExecState::Confirming { request, url }, ExecEvent::Answered(answer)) => {
            if accepted(opt_text(answer)) {
                assert(done[0] == Act::Send);
            }
        },
        _ => {},
    }
}

/// The program exits when the run comes to an end and not before; the exit is the last
/// action.
pub proof fn lemma_exit_ends_the_run(state: ExecState, event: ExecEvent)
    requires
        !is_finished(state),
    ensures
        is_finished(step_state(state, event)) <==> exists|k: int|
            0 <= k < step_acts(state, event).len()
                && (#[trigger] step_acts(state, event)[k]) is Exit,
        is_finished(step_state(state, event)) ==> step_acts(state, event).len() > 0 && step_acts(
            state,
            event,
        ).last() is Exit,
{
    let done = step_acts(state, event);
    let next = step_state(state, event);
    if is_finished(next) {
        assert(done[done.len() - 1] is Exit);
    } else if exists|k: int| 0 <= k < done.len() && (#[trigger] done[k]) is Exit {
        let k = choose|k: int| 0 <= k < done.len() && (#[trigger] done[k]) is Exit;
        if let ExecEvent::Loaded(LoadOutcome::Found { request, url, ctx }) = event {
            let warnings = missing_warnings(
                missing_dependencies(request, ctx.named_responses@.dom()),
            );
            if k < warnings.len() {
                assert(done[k] == warnings[k]);
            }
        }
    }
}

/// A run ends with code 1 where the request could not be loaded or failed, and with code 0
/// where it was answered or not accepted.
pub proof fn lemma_exit_code(state: ExecState, event: ExecEvent)
    requires
        !is_finished(state),
        is_finished(step_state(state, event)),
    ensures
        step_acts(state, event).last() == Act::Exit(
            if state is Loading || (state is Sending && event->outcome is Err) {
                1
            } else {
                0
            },
        ),
{
}

/// An event that does not belong to how far the run has come changes nothing.
pub proof fn lemma_events_out_of_turn(state: ExecState, event: ExecEvent)
    requires
        state is Loading ==> !(event is Loaded),
        state is Confirming ==> !(event is Answered),
        state is Sending ==> !(event is Completed),
    ensures
        step_acts(state, event).len() == 0,
        step_state(state, event) == state,
{
}

/// Nothing happens after the end.
pub proof fn lemma_finished_is_final(event: ExecEvent)
    ensures
        step_acts(ExecState::Finished, event).len() == 0,
        step_state(ExecState::Finished, event) == ExecState::Finished,
{
}

/// Only a response enters the history, and every response does.
pub proof fn lemma_history_has_responses(state: ExecState, event: ExecEvent)
    ensures
        (exists|k: int|
            0 <= k < step_acts(state, event).len()
                && (#[trigger] step_acts(state, event)[k]) is Record)
            <==> (state is Sending && event is Completed && event->outcome is Ok),
{
    let done = step_acts(state, event);
    if state is Sending && event is Completed && event->outcome is Ok {
        assert(done[1] is Record);
    } else if exists|k: int| 0 <= k < done.len() && (#[trigger] done[k]) is Record {
        let k = choose|k: int| 0 <= k < done.len() && (#[trigger] done[k]) is Record;
        if let ExecEvent::Loaded(LoadOutcome::Found { request, url, ctx }) = event {
            let warnings = missing_warnings(
                missing_dependencies(request, ctx.named_responses@.dom()),
            );
            if k < warnings.len() {
                assert(done[k] == warnings[k]);
            }
        }
    }
}

/// Whether an answer, without white space around it and in lower case, says yes.
pub fn is_yes(answer: &str) -> (r: bool)
    ensures
        r == says_yes(answer@),
{
    same_text(answer, "y") || same_text(answer, "yes")
}

/// Whether the request is to be sent after this answer.
pub fn confirmed(answer: &Option<String>) -> (r: bool)
    ensures
        r == accepted(opt_text(*answer)),
{
    match answer {
        Some(line) => {
            let chars = chars_of(line.as_str());
            let word = string_of(trimmed(chars.as_slice()));
            is_yes(to_lowercase(word.as_str()).as_str())
        },
        None => true,
    }
}

/// The response as it is printed.
fn print_response(response: &Response) -> (r: String)
    ensures
        r@ == printed_response(*response),
{
    let mut out = format_response_diagnostics(response);
    out.append("\n");
    match pretty_response_body(response.body.as_str(), response.headers.as_slice()) {
        Some(pretty) => {
            out.append(pretty.as_str());
            out.append("\n");
        },
        None => {
            out.append(response.body.as_str());
        },
    }
    assert(out@ =~= printed_response(*response));
    out
}

/// The actions that a loaded request asks for before it is sent or its note is answered.
fn introduce(request: &ParsedRequest, url: &str, ctx: &VariableContext) -> (r: Vec<ExecAction>)
    ensures
        acts(r@) == missing_warnings(missing_dependencies(*request, ctx.named_responses@.dom()))
            + seq![Act::Print(heading(*request, url@))],
{
    let names = find_missing_dependencies(request, ctx);
    let ghost all = texts(names@);
    let mut actions: Vec<ExecAction> = Vec::new();
    let mut i: usize = 0;
    assert(acts(actions@) =~= missing_warnings(all.take(0)));
    while i < names.len()
        invariant
            i <= names@.len(),
            all == texts(names@),
            acts(actions@) == missing_warnings(all.take(i as int)),
        decreases names@.len() - i,
    {
        let name = names[i].as_str();
        let mut text: String = "\x1b[33m⚠ Variable '".to_owned();
        text.append(name);
        text.append("' has no cached response. Run the '# @name ");
        text.append(name);
        text.append("' request first.\x1b[0m\n");
        let ghost before = actions@;
        let ghost warning = text@;
        actions.push(ExecAction::Report(text));
        proof {
            assert(acts(actions@) =~= acts(before).push(Act::Report(warning)));
            assert(missing_warnings(all.take(i + 1)) =~= missing_warnings(all.take(i as int)).push(
                Act::Report(missing_text(all[i as int])),
            ));
        }
        i += 1;
    }
    assert(all.take(all.len() as int) =~= all);
    let mut text: String = "# ".to_owned();
    text.append(request.method.as_str());
    text.append(" ");
    text.append(url);
    text.append("\n\n");
    let ghost before = actions@;
    let ghost line = text@;
    actions.push(ExecAction::Print(text));
    assert(acts(actions@) =~= acts(before) + seq![Act::Print(line)]);
    actions
}

/// The actions that end a run with a failure.
fn fail(report: String) -> (r: Vec<ExecAction>)
    ensures
        acts(r@) == seq![Act::Report(report@), Act::Exit(1)],
{
    let ghost text = report@;
    let mut actions: Vec<ExecAction> = Vec::new();
    actions.push(ExecAction::Report(report));
    actions.push(ExecAction::Exit(1));
    assert(acts(actions@) =~= seq![Act::Report(text), Act::Exit(1)]);
    actions
}

/// The actions that a response asks for.
fn conclude(request: &ParsedRequest, url: &str, response: &Response, timestamp: u64) -> (r: Vec<
    ExecAction,
>)
    ensures
        acts(r@) == response_acts(*request, url@, *response, timestamp),
{
    let mut actions: Vec<ExecAction> = Vec::new();
    actions.push(ExecAction::Print(print_response(response)));
    actions.push(
        ExecAction::Record(
            HistoryEntry {
                method: request.method.clone(),
                url: url.to_owned(),
                status: response.status,
                elapsed_ms: response.elapsed_ms,
                timestamp,
            },
        ),
    );
    if let Some(name) = &request.name {
        actions.push(ExecAction::Store { name: name.clone(), response: response.to_named() });
        let mut text: String = "\x1b[32m✓ Stored response as '".to_owned();
        text.append(name.as_str());
        text.append("' — other requests can now use {{");
        text.append(name.as_str());
        text.append(".response.body.$.<path>}}\x1b[0m\n");
        actions.push(ExecAction::Report(text));
    }
    actions.push(ExecAction::Exit(0));
    assert(acts(actions@) =~= response_acts(*request, url@, *response, timestamp));
    actions
}

/// The actions that an event asks for, and how far the run has come after it.
pub fn exec_step(state: ExecState, event: ExecEvent) -> (r: (ExecState, Vec<ExecAction>))
    ensures
        r.0 == step_state(state, event),
        acts(r.1@) == step_acts(state, event),
{
    match (state, event) {
        (ExecState::Loading { file, line }, ExecEvent::Loaded(outcome)) => match outcome {
            LoadOutcome::Unreadable(error) => (
                ExecState::Finished,
                fail(unreadable_report(file.as_str(), error.as_str())),
            ),
            LoadOutcome::NotFound => (ExecState::Finished, fail(not_found_report(line))),
            LoadOutcome::Found { request, url, ctx } => {
                let mut actions = introduce(&request, url.as_str(), &ctx);
                let ghost before = actions@;
                let mut question: Option<String> = None;
                if let Some(note) = &request.note {
                    let mut text: String = "\x1b[33m⚠ ".to_owned();
                    text.append(note.as_str());
                    text.append("\x1b[0m\nProceed? [y/N] ");
                    question = Some(text);
                }
                match question {
                    Some(text) => {
                        let ghost asked = text@;
                        actions.push(ExecAction::Report(text));
                        actions.push(ExecAction::Ask);
                        assert(acts(actions@) =~= acts(before) + seq![
                            Act::Report(asked),
                            Act::Ask,
                        ]);
                        (ExecState::Confirming { request, url }, actions)
                    },
                    None => {
                        actions.push(ExecAction::Send);
                        assert(acts(actions@) =~= acts(before) + seq![Act::Send]);
                        (ExecState::Sending { request, url }, actions)
                    },
                }
            },
        },
        (ExecState::Confirming { request, url }, ExecEvent::Answered(answer)) => {
            let mut actions: Vec<ExecAction> = Vec::new();
            if confirmed(&answer) {
                actions.push(ExecAction::Send);
                assert(acts(actions@) =~= seq![Act::Send]);
                (ExecState::Sending { request, url }, actions)
            } else {
                actions.push(ExecAction::Print("Request cancelled.\n".to_owned()));
                actions.push(ExecAction::Exit(0));
                assert(acts(actions@) =~= seq![
                    Act::Print("Request cancelled.\n"@),
                    Act::Exit(0),
                ]);
                (ExecState::Finished, actions)
            }
        },
        (
            ExecState::Sending { request, url },
            ExecEvent::Completed { outcome, timestamp },
        ) => match outcome {
            Ok(response) => (
                ExecState::Finished,
                conclude(&request, url.as_str(), &response, timestamp),
            ),
            Err(error) => {
                let mut report: String = "Request failed: ".to_owned();
                report.append(error.as_str());
                report.append("\n");
                (ExecState::Finished, fail(report))
            },
        },
        (state, _) => {
            let actions: Vec<ExecAction> = Vec::new();
            assert(acts(actions@) =~= Seq::<Act>::empty());
            (state, actions)
        },
    }
}

} // verus!
