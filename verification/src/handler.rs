//! The documents, variables and settings of a session, and what the server answers on them.

use tower_lsp::lsp_types::Url;
use vstd::prelude::*;
use vstd::utf8::encode_utf8;

use crate::cursor::{
    annotated_name, cursor_fits, declared_variable, defined_in, definition_line,
    extract_variable_at, first_annotation, first_declaration, lemma_definition_unique,
    lemma_first_definition_counts, lemma_reference_is_under_the_cursor, not_annotated,
    not_declared, open_reference_at, prefix_at, variable_at,
};
use crate::dependencies::{lemma_stored_response_is_not_missing, missing_dependencies};
use crate::formatter::{
    body_text, diagnostics_text, format_response, format_response_body,
    format_response_diagnostics, is_json, lemma_body_comes_last,
    lemma_response_extends_diagnostics, response_text,
};
use crate::model::{
    content_type, content_type_of, copy_strings, header_texts, lemma_content_type_of_headers,
    stored, ParsedFile, ParsedRequest, Response, RestClientSettings, StoredResponse,
    VariableContext,
};
use crate::numbers::{decimal, decimal_of};
use crate::protocol::{
    line_range, range_of_line, CodeLens, CompletionItem, CompletionKind, Diagnostic, Hover,
    Location, Position, Range, Severity, SEND_REQUEST_COMMAND,
};
use crate::table::{Duplicate, Table};
use crate::text::{
    ascii_lower, before_first, byte_len, bytes_of, char_texts, chars_of, head_of, is_clean,
    lemma_head_before_separator, lemma_last_line, lines, lines_of, opt_text, starts_with_in, texts,
};
use crate::uris::{copy_url, text_of_url, url_text};

verus! {

/// What the server knows during a session.
pub struct State {
    /// The text of each open document, by its address.
    pub documents: Table<String>,
    pub variable_ctx: VariableContext,
    pub settings: RestClientSettings,
}

/// The documents after one was opened or changed.
pub open spec fn with_document(
    documents: Map<Seq<char>, Seq<char>>,
    uri: Url,
    text: Seq<char>,
) -> Map<Seq<char>, Seq<char>> {
    documents.insert(url_text(uri), text)
}

/// The documents after one was closed.
pub open spec fn without_document(documents: Map<Seq<char>, Seq<char>>, uri: Url) -> Map<
    Seq<char>,
    Seq<char>,
> {
    documents.remove(url_text(uri))
}

/// The text of an open document.
pub open spec fn document_text(documents: Map<Seq<char>, Seq<char>>, uri: Url) -> Option<
    Seq<char>,
> {
    if documents.contains_key(url_text(uri)) {
        Some(documents[url_text(uri)])
    } else {
        None
    }
}

/// A document that was opened or changed has the text that was sent last.
pub proof fn lemma_opened_document_is_served(
    documents: Map<Seq<char>, Seq<char>>,
    uri: Url,
    text: Seq<char>,
)
    ensures
        document_text(with_document(documents, uri, text), uri) == Some(text),
{
}

/// A closed document is no longer served.
pub proof fn lemma_closed_document_is_gone(documents: Map<Seq<char>, Seq<char>>, uri: Url)
    ensures
        document_text(without_document(documents, uri), uri) is None,
{
}

/// Opening, changing or closing a document leaves every other one as it was.
pub proof fn lemma_other_documents_unchanged(
    documents: Map<Seq<char>, Seq<char>>,
    uri: Url,
    text: Seq<char>,
    other: Url,
)
    requires
        url_text(other) != url_text(uri),
    ensures
        document_text(with_document(documents, uri, text), other) == document_text(
            documents,
            other,
        ),
        document_text(without_document(documents, uri), other) == document_text(documents, other),
{
}

/// Closing a document that was not open before undoes opening it.
pub proof fn lemma_close_undoes_open(
    documents: Map<Seq<char>, Seq<char>>,
    uri: Url,
    text: Seq<char>,
)
    requires
        document_text(documents, uri) is None,
    ensures
        without_document(with_document(documents, uri, text), uri) == documents,
{
    assert(without_document(with_document(documents, uri, text), uri) =~= documents);
}

/// The text of a document after these changes, each of which holds all of it: that of the
/// last one.
pub fn latest_change(changes: Vec<String>) -> (r: Option<String>)
    ensures
        r == (if changes@.len() == 0 {
            None
        } else {
            Some(changes@.last())
        }),
{
    let mut remaining = changes;
    remaining.pop()
}

/// The name of the active environment, as it is reported.
pub open spec fn environment_name(settings: RestClientSettings) -> Seq<char> {
    match settings.active_environment {
        Some(name) => name@,
        None => "none"@,
    }
}

/// The variables after others are taken over, in place of earlier values.
pub open spec fn with_variables(
    before: Map<Seq<char>, Seq<char>>,
    taken: Map<Seq<char>, Seq<char>>,
) -> Map<Seq<char>, Seq<char>> {
    before.union_prefer_right(taken)
}

/// Variables that are taken over have their new values, and every other one keeps its own.
pub proof fn lemma_taken_variables_win(
    before: Map<Seq<char>, Seq<char>>,
    taken: Map<Seq<char>, Seq<char>>,
    name: Seq<char>,
)
    ensures
        taken.contains_key(name) ==> with_variables(before, taken).contains_pair(name, taken[name]),
        !taken.contains_key(name) && before.contains_key(name) ==> with_variables(
            before,
            taken,
        ).contains_pair(name, before[name]),
        !taken.contains_key(name) && !before.contains_key(name) ==> !with_variables(
            before,
            taken,
        ).contains_key(name),
{
}

/// The session has taken over variables, and its responses stay.
pub open spec fn takes_variables(
    before: State,
    after: State,
    variables: Map<Seq<char>, Seq<char>>,
) -> bool {
    &&& after.variable_ctx.variables@ == with_variables(before.variable_ctx.variables@, variables)
    &&& after.variable_ctx.named_responses == before.variable_ctx.named_responses
}

/// The session after a document was opened or changed.
pub open spec fn is_opened(
    before: State,
    after: State,
    uri: Url,
    text: Seq<char>,
    variables: Map<Seq<char>, Seq<char>>,
) -> bool {
    &&& takes_variables(before, after, variables)
    &&& after.documents@ == with_document(before.documents@, uri, text)
    &&& after.variable_ctx.allowed_env_vars == before.variable_ctx.allowed_env_vars
    &&& after.settings == before.settings
}

/// The session after a document was closed.
pub open spec fn is_document_closed(before: State, after: State, uri: Url) -> bool {
    &&& after.documents@ == without_document(before.documents@, uri)
    &&& after.variable_ctx == before.variable_ctx
    &&& after.settings == before.settings
}

/// The session after the environment was switched.
pub open spec fn is_switched(
    before: State,
    after: State,
    name: Seq<char>,
    variables: Map<Seq<char>, Seq<char>>,
) -> bool {
    &&& takes_variables(before, after, variables)
    &&& opt_text(after.settings.active_environment) == Some(name)
    &&& after.settings.allowed_process_env_vars == before.settings.allowed_process_env_vars
    &&& after.variable_ctx.allowed_env_vars@ == before.settings.allowed_process_env_vars@
    &&& after.documents == before.documents
}

/// The session after settings were taken over, and what is reported of them.
pub open spec fn is_configured(
    before: State,
    after: State,
    settings: RestClientSettings,
    variables: Map<Seq<char>, Seq<char>>,
    reported: Seq<char>,
) -> bool {
    &&& takes_variables(before, after, variables)
    &&& reported == environment_name(settings)
    &&& after.settings == settings
    &&& after.variable_ctx.allowed_env_vars@ == settings.allowed_process_env_vars@
    &&& after.documents == before.documents
}

/// After a document is opened or changed it has the text that was sent, and the variables that
/// it declares have its values; other documents, other variables and all responses stay.
pub proof fn lemma_opening_takes_text_and_variables(
    before: State,
    after: State,
    uri: Url,
    text: Seq<char>,
    variables: Map<Seq<char>, Seq<char>>,
    other: Url,
    name: Seq<char>,
)
    requires
        is_opened(before, after, uri, text, variables),
    ensures
        document_text(after.documents@, uri) == Some(text),
        url_text(other) != url_text(uri) ==> document_text(after.documents@, other)
            == document_text(before.documents@, other),
        variables.contains_key(name) ==> after.variable_ctx.variables@.contains_pair(
            name,
            variables[name],
        ),
        !variables.contains_key(name) ==> (after.variable_ctx.variables@.contains_key(name)
            <==> before.variable_ctx.variables@.contains_key(name)),
        !variables.contains_key(name) && before.variable_ctx.variables@.contains_key(name)
            ==> after.variable_ctx.variables@[name] == before.variable_ctx.variables@[name],
        after.variable_ctx.named_responses@ == before.variable_ctx.named_responses@,
        after.settings == before.settings,
{
}

/// After a document is closed it is no longer served; other documents, the variables, also
/// those that it declared, and the responses stay.
pub proof fn lemma_closing_forgets_the_document_only(
    before: State,
    after: State,
    uri: Url,
    other: Url,
)
    requires
        is_document_closed(before, after, uri),
    ensures
        document_text(after.documents@, uri) is None,
        url_text(other) != url_text(uri) ==> document_text(after.documents@, other)
            == document_text(before.documents@, other),
        after.variable_ctx.variables@ == before.variable_ctx.variables@,
        after.variable_ctx.named_responses@ == before.variable_ctx.named_responses@,
        after.settings == before.settings,
{
}

/// After the environment is switched it is the active one, and its variables have its values;
/// other variables keep theirs, and documents and responses stay.
pub proof fn lemma_switching_brings_the_variables(
    before: State,
    after: State,
    environment: Seq<char>,
    variables: Map<Seq<char>, Seq<char>>,
    name: Seq<char>,
)
    requires
        is_switched(before, after, environment, variables),
    ensures
        environment_name(after.settings) == environment,
        variables.contains_key(name) ==> after.variable_ctx.variables@.contains_pair(
            name,
            variables[name],
        ),
        !variables.contains_key(name) && before.variable_ctx.variables@.contains_key(name)
            ==> after.variable_ctx.variables@.contains_pair(
            name,
            before.variable_ctx.variables@[name],
        ),
        after.variable_ctx.named_responses@ == before.variable_ctx.named_responses@,
        after.variable_ctx.allowed_env_vars@ == after.settings.allowed_process_env_vars@,
        after.settings.allowed_process_env_vars@ == before.settings.allowed_process_env_vars@,
        after.documents@ == before.documents@,
{
}

/// After settings are taken over they hold, also for the process variables that are allowed;
/// the variables of their environment have its values, and it is reported by its name.
pub proof fn lemma_settings_take_effect(
    before: State,
    after: State,
    settings: RestClientSettings,
    variables: Map<Seq<char>, Seq<char>>,
    reported: Seq<char>,
    name: Seq<char>,
)
    requires
        is_configured(before, after, settings, variables, reported),
    ensures
        settings.active_environment matches Some(environment) ==> reported == environment@,
        settings.active_environment is None ==> reported == "none"@,
        after.settings == settings,
        after.variable_ctx.allowed_env_vars@ == settings.allowed_process_env_vars@,
        variables.contains_key(name) ==> after.variable_ctx.variables@.contains_pair(
            name,
            variables[name],
        ),
        !variables.contains_key(name) && before.variable_ctx.variables@.contains_key(name)
            ==> after.variable_ctx.variables@.contains_pair(
            name,
            before.variable_ctx.variables@[name],
        ),
        after.variable_ctx.named_responses@ == before.variable_ctx.named_responses@,
        after.documents@ == before.documents@,
{
}

/// The active environment is reported by its name, and as `none` where there is none.
pub proof fn lemma_environment_is_reported(settings: RestClientSettings)
    ensures
        settings.active_environment matches Some(name) ==> environment_name(settings) == name@,
        settings.active_environment is None ==> environment_name(settings) == "none"@,
{
}

impl State {
    /// A session without documents, variables and responses, with the default settings.
    pub fn new() -> (r: Self)
        ensures
            r.documents@ == Map::<Seq<char>, Seq<char>>::empty(),
            r.variable_ctx.variables@ == Map::<Seq<char>, Seq<char>>::empty(),
            r.variable_ctx.named_responses@ == Map::<Seq<char>, StoredResponse>::empty(),
            r.variable_ctx.allowed_env_vars@.len() == 0,
            r.settings.active_environment is None,
            r.settings.allowed_process_env_vars@.len() == 0,
    {
        State {
            documents: Table::new(),
            variable_ctx: VariableContext::new(Table::new()),
            settings: RestClientSettings::default(),
        }
    }

    /// The text of an open document.
    pub fn document(&self, uri: &Url) -> (r: Option<&String>)
        ensures
            document_text(self.documents@, *uri) == (match r {
                Some(text) => Some(text@),
                None => None::<Seq<char>>,
            }),
    {
        self.documents.get(text_of_url(uri))
    }

    /// Takes over the variables that a file declares, in place of earlier values.
    pub fn sync_file_variables(&mut self, variables: &Table<String>)
        ensures
            final(self).variable_ctx.variables@
                == with_variables(old(self).variable_ctx.variables@, variables@),
            final(self).variable_ctx.named_responses == old(self).variable_ctx.named_responses,
            final(self).variable_ctx.allowed_env_vars == old(self).variable_ctx.allowed_env_vars,
            final(self).documents == old(self).documents,
            final(self).settings == old(self).settings,
    {
        self.variable_ctx.variables.extend(variables);
    }

    /// Takes over the text of a document that was opened or changed, and the variables
    /// that it declares.
    pub fn open_document(&mut self, uri: &Url, text: String, variables: &Table<String>)
        ensures
            is_opened(*old(self), *final(self), *uri, text@, variables@),
    {
        self.documents.insert(text_of_url(uri).to_owned(), text);
        self.sync_file_variables(variables);
    }

    /// Forgets a document that was closed; the variables that it declared stay.
    pub fn close_document(&mut self, uri: &Url)
        ensures
            is_document_closed(*old(self), *final(self), *uri),
    {
        self.documents.remove(text_of_url(uri));
    }

    /// Takes over the variables of the active environment, in place of earlier values, and
    /// the process variables that the settings allow.
    pub fn apply_environment_variables(&mut self, variables: &Table<String>)
        ensures
            final(self).variable_ctx.variables@
                == with_variables(old(self).variable_ctx.variables@, variables@),
            final(self).variable_ctx.allowed_env_vars@
                == old(self).settings.allowed_process_env_vars@,
            final(self).variable_ctx.named_responses == old(self).variable_ctx.named_responses,
            final(self).documents == old(self).documents,
            final(self).settings == old(self).settings,
    {
        self.variable_ctx.variables.extend(variables);
        self.variable_ctx.allowed_env_vars = copy_strings(&self.settings.allowed_process_env_vars);
    }

    /// Switches to another environment, whose variables are `variables`.
    pub fn switch_environment(&mut self, name: &str, variables: &Table<String>)
        ensures
            is_switched(*old(self), *final(self), name@, variables@),
    {
        self.settings.active_environment = Some(name.to_owned());
        self.apply_environment_variables(variables);
    }

    /// Takes over new settings, whose active environment has the variables `variables`.
    /// Returns the name of the active environment.
    pub fn load_settings(
        &mut self,
        settings: RestClientSettings,
        variables: &Table<String>,
    ) -> (r: String)
        ensures
            is_configured(*old(self), *final(self), settings, variables@, r@),
    {
        self.settings = settings;
        self.apply_environment_variables(variables);
        match &self.settings.active_environment {
            Some(name) => name.clone(),
            None => "none".to_owned(),
        }
    }
}

/// The lens of a request offers to send it.
pub open spec fn lens_of(lens: CodeLens, uri: Url, request: ParsedRequest) -> bool {
    &&& lens.range == line_range(request.line as int, 0)
    &&& lens.title@ == "Send Request - "@ + request.method@ + " "@ + request.url@
    &&& lens.command@ == SEND_REQUEST_COMMAND@
    &&& lens.document@ == url_text(uri)
    &&& lens.line == request.line
}

/// A lens shows the method and the URL of its request, stands in the line of the request and
/// holds the address of the document and that line for its command.
pub proof fn lemma_lens_shows_its_request(lens: CodeLens, uri: Url, request: ParsedRequest)
    requires
        lens_of(lens, uri, request),
    ensures
        lens.title@ == "Send Request - "@ + request.method@ + " "@ + request.url@,
        lens.command@ == "rest-client.sendRequest"@,
        lens.document@ == url_text(uri),
        lens.line == request.line,
        request.line <= u32::MAX ==> lens.range.start.line == request.line && lens.range.end.line
            == request.line && lens.range.start.character == 0 && lens.range.end.character == 0,
{
}

/// A lens for each request of a document, in order.
pub fn code_lenses(uri: &Url, file: &ParsedFile) -> (r: Vec<CodeLens>)
    ensures
        r@.len() == file.requests@.len(),
        forall|i: int| 0 <= i < r@.len() ==> lens_of(#[trigger] r@[i], *uri, file.requests@[i]),
{
    let mut lenses: Vec<CodeLens> = Vec::new();
    let mut i: usize = 0;
    while i < file.requests.len()
        invariant
            i <= file.requests@.len(),
            lenses@.len() == i,
            forall|j: int|
                0 <= j < i ==> lens_of(#[trigger] lenses@[j], *uri, file.requests@[j]),
        decreases file.requests@.len() - i,
    {
        let request = &file.requests[i];
        let mut title: String = "Send Request - ".to_owned();
        title.append(request.method.as_str());
        title.append(" ");
        title.append(request.url.as_str());
        lenses.push(
            CodeLens {
                range: range_of_line(request.line, 0),
                title,
                command: SEND_REQUEST_COMMAND.to_owned(),
                document: text_of_url(uri).to_owned(),
                line: request.line,
            },
        );
        i += 1;
    }
    lenses
}

/// The number of bytes of a line, where the text has it.
pub open spec fn line_width(rows: Seq<Seq<char>>, line: int) -> nat {
    if 0 <= line < rows.len() {
        byte_len(rows[line])
    } else {
        0
    }
}

/// The lines of the requests without a URL, in order.
pub open spec fn empty_url_lines(requests: Seq<ParsedRequest>) -> Seq<usize>
    decreases requests.len(),
{
    if requests.len() == 0 {
        seq![]
    } else if requests.last().url@.len() == 0 {
        empty_url_lines(requests.drop_last()).push(requests.last().line)
    } else {
        empty_url_lines(requests.drop_last())
    }
}

/// The finding that the request in this line has no URL.
pub open spec fn empty_url_finding(
    finding: Diagnostic,
    rows: Seq<Seq<char>>,
    line: usize,
) -> bool {
    &&& finding.range == line_range(line as int, line_width(rows, line as int))
    &&& finding.severity == Severity::Error
    &&& finding.source@ == "rest-client"@
    &&& finding.message@ == "Request URL is empty"@
}

/// Requests without a URL are found one by one: of requests in a row, those of the first and
/// then those of the others, and each where its URL is empty.
pub proof fn lemma_each_request_is_looked_at(
    first: Seq<ParsedRequest>,
    others: Seq<ParsedRequest>,
    request: ParsedRequest,
)
    ensures
        empty_url_lines(first + others) == empty_url_lines(first) + empty_url_lines(others),
        request.url@.len() == 0 ==> empty_url_lines(seq![request]) == seq![request.line],
        request.url@.len() > 0 ==> empty_url_lines(seq![request]).len() == 0,
    decreases others.len(),
{
    assert(seq![request].drop_last() =~= Seq::<ParsedRequest>::empty());
    assert(empty_url_lines(Seq::<ParsedRequest>::empty()) =~= Seq::<usize>::empty());
    assert(seq![request].last() == request);
    if others.len() == 0 {
        assert(first + others =~= first);
        assert(empty_url_lines(first) + empty_url_lines(others) =~= empty_url_lines(first));
    } else {
        let all = first + others;
        let shorter = others.drop_last();
        lemma_each_request_is_looked_at(first, shorter, request);
        assert(all.drop_last() =~= first + shorter);
        assert(all.last() == others.last());
        assert(empty_url_lines(all) =~= empty_url_lines(first) + empty_url_lines(others));
    }
}

/// A finding says what is wrong, as an error, and covers the line of its request.
pub proof fn lemma_finding_covers_its_line(finding: Diagnostic, rows: Seq<Seq<char>>, line: usize)
    requires
        empty_url_finding(finding, rows, line),
        line <= u32::MAX,
    ensures
        finding.severity == Severity::Error,
        finding.source@ == "rest-client"@,
        finding.message@ == "Request URL is empty"@,
        finding.range.start.line == line,
        finding.range.start.character == 0,
        finding.range.end.line == line,
        line < rows.len() && encode_utf8(rows[line as int]).len() <= u32::MAX
            ==> finding.range.end.character == encode_utf8(rows[line as int]).len(),
        line >= rows.len() ==> finding.range.end.character == 0,
{
}

/// A finding for each request of a document that has no URL, in order.
pub fn diagnostics(text: &str, file: &ParsedFile) -> (r: Vec<Diagnostic>)
    ensures
        r@.len() == empty_url_lines(file.requests@).len(),
        forall|i: int|
            0 <= i < r@.len() ==> empty_url_finding(
                #[trigger] r@[i],
                lines(text@),
                empty_url_lines(file.requests@)[i],
            ),
{
    let rows = lines_of(text);
    let mut findings: Vec<Diagnostic> = Vec::new();
    let mut i: usize = 0;
    assert(file.requests@.take(0) =~= Seq::<ParsedRequest>::empty());
    while i < file.requests.len()
        invariant
            i <= file.requests@.len(),
            char_texts(rows@) == lines(text@),
            findings@.len() == empty_url_lines(file.requests@.take(i as int)).len(),
            forall|j: int|
                0 <= j < findings@.len() ==> empty_url_finding(
                    #[trigger] findings@[j],
                    lines(text@),
                    empty_url_lines(file.requests@.take(i as int))[j],
                ),
        decreases file.requests@.len() - i,
    {
        let request = &file.requests[i];
        assert(file.requests@.take(i + 1).drop_last() =~= file.requests@.take(i as int));
        if request.url.as_str().is_empty() {
            let width: usize = if request.line < rows.len() {
                assert(char_texts(rows@)[request.line as int] == rows@[request.line as int]@);
                bytes_of(rows[request.line].as_slice())
            } else {
                0
            };
            findings.push(
                Diagnostic {
                    range: range_of_line(request.line, width),
                    severity: Severity::Error,
                    source: "rest-client".to_owned(),
                    message: "Request URL is empty".to_owned(),
                },
            );
        }
        i += 1;
    }
    assert(file.requests@.take(file.requests@.len() as int) =~= file.requests@);
    findings
}

/// The range covers the line in which `name` is defined.
pub open spec fn covers_definition(range: Range, rows: Seq<Seq<char>>, name: Seq<char>) -> bool {
    exists|line: int| #[trigger]
        defined_in(rows, name, line) && range == line_range(line, byte_len(rows[line]))
}

/// What is found for the cursor: the line of this document that defines the name under it.
pub open spec fn is_definition(
    found: Option<Location>,
    uri: Url,
    text: Seq<char>,
    position: Position,
) -> bool {
    match variable_at(text, position) {
        Some(name) => match found {
            Some(location) => location.uri == uri && covers_definition(
                location.range,
                lines(text),
                before_first(name, '.'),
            ),
            None => not_annotated(lines(text), before_first(name, '.')) && not_declared(
                lines(text),
                before_first(name, '.'),
            ),
        },
        None => found is None,
    }
}

/// The name under the cursor, or the part of a longer reference before its first dot, leads to
/// the first line of the document that names a request so; where there is none, to the first
/// that declares a variable so; and where there is none of these either, nowhere. The whole
/// line is covered.
pub proof fn lemma_name_leads_to_its_definition(
    found: Option<Location>,
    uri: Url,
    text: Seq<char>,
    position: Position,
    name: Seq<char>,
    path: Seq<char>,
    i: int,
)
    requires
        is_definition(found, uri, text, position),
        !name.contains('.'),
        variable_at(text, position) == Some(name) || variable_at(text, position) == Some(
            name + seq!['.'] + path,
        ),
    ensures
        ({
            let rows = lines(text);
            let named = 0 <= i < rows.len() && annotated_name(rows[i]) == Some(name) && (forall|
                j: int,
            |
                0 <= j < i ==> annotated_name(#[trigger] rows[j]) != Some(name));
            let declared = 0 <= i < rows.len() && declared_variable(rows[i]) == Some(name) && (
            forall|j: int| 0 <= j < i ==> declared_variable(#[trigger] rows[j]) != Some(name)) && (
            forall|j: int|
                0 <= j < rows.len() ==> annotated_name(#[trigger] rows[j]) != Some(name));
            &&& named || declared ==> found is Some && found->0.uri == uri && (i <= u32::MAX
                && encode_utf8(rows[i]).len() <= u32::MAX ==> {
                &&& found->0.range.start.line == i
                &&& found->0.range.start.character == 0
                &&& found->0.range.end.line == i
                &&& found->0.range.end.character == encode_utf8(rows[i]).len()
            })
            &&& (forall|j: int|
                0 <= j < rows.len() ==> annotated_name(#[trigger] rows[j]) != Some(name)
                    && declared_variable(rows[j]) != Some(name)) ==> found is None
        }),
{
    let rows = lines(text);
    lemma_head_before_separator(name, '.', path);
    if found is Some {
        let line = choose|line: int| #[trigger]
            defined_in(rows, name, line) && found->0.range == line_range(
                line,
                byte_len(rows[line]),
            );
        if 0 <= i < rows.len() {
            lemma_first_definition_counts(rows, name, i, line);
            if annotated_name(rows[i]) == Some(name) && (forall|j: int|
                0 <= j < i ==> annotated_name(#[trigger] rows[j]) != Some(name)) {
                assert(first_annotation(rows, name, i));
                assert(defined_in(rows, name, i));
                lemma_definition_unique(rows, name, i, line);
            } else if declared_variable(rows[i]) == Some(name) && (forall|j: int|
                0 <= j < i ==> declared_variable(#[trigger] rows[j]) != Some(name)) && (forall|
                j: int,
            |
                0 <= j < rows.len() ==> annotated_name(#[trigger] rows[j]) != Some(name)) {
                assert(first_declaration(rows, name, i));
                assert(defined_in(rows, name, i));
                lemma_definition_unique(rows, name, i, line);
            }
        }
        if forall|j: int|
            0 <= j < rows.len() ==> annotated_name(#[trigger] rows[j]) != Some(name)
                && declared_variable(rows[j]) != Some(name) {
            assert(annotated_name(rows[line]) != Some(name));
        }
    }
}

/// Where the variable or the named request under the cursor is defined: the line that
/// names the request, or else the line that declares the variable. Of a reference like
/// `login.response.body` it is the part before the first dot that is looked up.
pub fn goto_definition(uri: &Url, text: &str, position: Position) -> (r: Option<Location>)
    requires
        cursor_fits(text@, position),
    ensures
        is_definition(r, *uri, text@, position),
{
    let name = match extract_variable_at(text, position) {
        Some(name) => name,
        None => return None,
    };
    let rows = lines_of(text);
    let chars = chars_of(name.as_str());
    let base = head_of(chars.as_slice(), '.');
    match definition_line(&rows, base) {
        Some(i) => {
            assert(char_texts(rows@)[i as int] == rows@[i as int]@);
            let width: usize = bytes_of(rows[i].as_slice());
            let range = range_of_line(i, width);
            assert(covers_definition(range, lines(text@), base@));
            Some(Location { uri: copy_url(uri), range })
        },
        None => None,
    }
}

/// A reference to a name.
pub open spec fn reference_to(name: Seq<char>) -> Seq<char> {
    "{{"@ + name + "}}"@
}

/// What is shown over a name that stands for `resolved`.
pub open spec fn hover_text(name: Seq<char>, resolved: Seq<char>) -> Seq<char> {
    if resolved.len() == 0 {
        "`"@ + name + "` — *undefined*"@
    } else {
        "`"@ + name + "` = `"@ + resolved + "`"@
    }
}

/// Over a name its value is shown, and that it is undefined where the value is empty.
pub proof fn lemma_hover_shows_name_and_value(name: Seq<char>, resolved: Seq<char>)
    ensures
        resolved.len() > 0 ==> hover_text(name, resolved) == "`"@ + name + "` = `"@ + resolved
            + "`"@,
        resolved.len() == 0 ==> hover_text(name, resolved) == "`"@ + name
            + "` — *undefined*"@,
{
}

/// What a reference to a name is, is read as a reference to that name wherever the cursor
/// stands in it.
pub proof fn lemma_reference_reads_back(name: Seq<char>, k: int, position: Position)
    requires
        is_clean(name),
        !name.contains('{'),
        !name.contains('}'),
        !name.contains('\n'),
        name[0] != '$',
        0 <= k <= name.len(),
        position.line == 0,
        position.character == encode_utf8("{{"@ + name.take(k)).len(),
    ensures
        variable_at(reference_to(name), position) == Some(name),
{
    reveal_strlit("{{");
    reveal_strlit("}}");
    let text = reference_to(name);
    assert forall|j: int| 0 <= j < text.len() implies text[j] != '\n' by {
        if 2 <= j < 2 + name.len() {
            assert(text[j] == name[j - 2]);
            assert(name.contains(name[j - 2]));
        }
    }
    lemma_last_line(text);
    let nothing = Seq::<char>::empty();
    let inner = nothing + name + nothing;
    assert(inner =~= name);
    assert(lines(text)[0] =~= nothing + "{{"@ + inner + "}}"@ + nothing);
    assert(nothing + "{{"@ + inner.push('}').take(k) =~= "{{"@ + name.take(k));
    lemma_reference_is_under_the_cursor(
        text,
        position,
        nothing,
        nothing,
        name,
        nothing,
        nothing,
        k,
    );
}

/// What is shown for the cursor: what `resolve` makes of a reference to the name under it.
pub open spec fn is_hover<F: Fn(&str) -> String>(
    shown: Option<Hover>,
    text: Seq<char>,
    position: Position,
    resolve: F,
) -> bool {
    match variable_at(text, position) {
        Some(name) => exists|template: &str, resolved: String|
            {
                &&& template@ == reference_to(name)
                &&& #[trigger] resolve.ensures((template,), resolved)
                &&& shown is Some
                &&& shown->0.value@ == hover_text(name, resolved@)
            },
        None => shown is None,
    }
}

/// Where `resolve` gives a reference its value, that value is shown with the name under the
/// cursor, and that the name is undefined where the value is empty.
pub proof fn lemma_hover_shows_what_is_resolved<F: Fn(&str) -> String>(
    shown: Option<Hover>,
    text: Seq<char>,
    position: Position,
    resolve: F,
    value_of: spec_fn(Seq<char>) -> Seq<char>,
)
    requires
        is_hover(shown, text, position, resolve),
        forall|template: &str, resolved: String| #[trigger]
            resolve.ensures((template,), resolved) ==> resolved@ == value_of(template@),
    ensures
        shown is Some <==> variable_at(text, position) is Some,
        variable_at(text, position) matches Some(name) ==> shown->0.value@ == (if value_of(
            "{{"@ + name + "}}"@,
        ).len() == 0 {
            "`"@ + name + "` — *undefined*"@
        } else {
            "`"@ + name + "` = `"@ + value_of("{{"@ + name + "}}"@) + "`"@
        }),
{
}

/// What is shown over a name that stands for `resolved`.
pub fn hover_over(name: &str, resolved: &str) -> (r: Hover)
    ensures
        r.value@ == hover_text(name@, resolved@),
{
    let mut value: String = "`".to_owned();
    value.append(name);
    if resolved.is_empty() {
        value.append("` — *undefined*");
    } else {
        value.append("` = `");
        value.append(resolved);
        value.append("`");
    }
    Hover { value }
}

/// Shows what the variable under the cursor stands for: what `resolve` makes of a
/// reference to it.
pub fn hover_at<F: Fn(&str) -> String>(text: &str, position: Position, resolve: F) -> (r: Option<
    Hover,
>)
    requires
        cursor_fits(text@, position),
        forall|template: &str| #[trigger] resolve.requires((template,)),
    ensures
        is_hover(r, text@, position, resolve),
{
    let name = match extract_variable_at(text, position) {
        Some(name) => name,
        None => return None,
    };
    let mut template: String = "{{".to_owned();
    template.append(name.as_str());
    template.append("}}");
    let resolved = resolve(template.as_str());
    Some(hover_over(name.as_str(), resolved.as_str()))
}

/// The names that start with `prefix`, in order.
pub open spec fn matching(names: Seq<Seq<char>>, prefix: Seq<char>) -> Seq<Seq<char>> {
    names.filter(|name: Seq<char>| prefix.is_prefix_of(name))
}

/// The names to suggest at the cursor, out of those available.
pub open spec fn suggested(text: Seq<char>, position: Position, names: Seq<Seq<char>>) -> Seq<
    Seq<char>,
> {
    match prefix_at(text, position) {
        Some(prefix) => matching(names, prefix),
        None => seq![],
    }
}

/// Suggested are exactly the available names that start with what is typed, and none outside
/// of an open reference.
pub proof fn lemma_suggested_names(
    text: Seq<char>,
    position: Position,
    names: Seq<Seq<char>>,
    name: Seq<char>,
)
    ensures
        prefix_at(text, position) is None ==> suggested(text, position, names).len() == 0,
        prefix_at(text, position) matches Some(typed) ==> (suggested(
            text,
            position,
            names,
        ).contains(name) <==> names.contains(name) && typed.is_prefix_of(name)),
{
    if let Some(typed) = prefix_at(text, position) {
        lemma_matching_names(names, typed, name);
    }
}

/// A name is among those that match exactly where it is available and starts with the prefix.
proof fn lemma_matching_names(names: Seq<Seq<char>>, prefix: Seq<char>, name: Seq<char>)
    ensures
        matching(names, prefix).contains(name) <==> names.contains(name) && prefix.is_prefix_of(
            name,
        ),
    decreases names.len(),
{
    reveal(Seq::filter);
    if names.len() > 0 {
        let shorter = names.drop_last();
        let fewer = matching(shorter, prefix);
        let all = matching(names, prefix);
        lemma_matching_names(shorter, prefix, name);
        if all.contains(name) {
            let k = choose|k: int| 0 <= k < all.len() && all[k] == name;
            if k < fewer.len() {
                assert(fewer[k] == name);
                let j = choose|j: int| 0 <= j < shorter.len() && shorter[j] == name;
                assert(names[j] == name);
            } else {
                assert(names[names.len() - 1] == name);
            }
        }
        if names.contains(name) && prefix.is_prefix_of(name) {
            let j = choose|j: int| 0 <= j < names.len() && names[j] == name;
            if j < shorter.len() {
                assert(shorter[j] == name);
                let k = choose|k: int| 0 <= k < fewer.len() && fewer[k] == name;
                assert(all[k] == name);
            } else {
                assert(all[fewer.len() as int] == name);
            }
        }
    }
}

/// Names are suggested in the order in which they are available: of names in a row those of
/// the first and then those of the others.
pub proof fn lemma_suggested_in_order(
    text: Seq<char>,
    position: Position,
    first: Seq<Seq<char>>,
    others: Seq<Seq<char>>,
)
    ensures
        suggested(text, position, first + others) == suggested(text, position, first) + suggested(
            text,
            position,
            others,
        ),
    decreases others.len(),
{
    reveal(Seq::filter);
    if others.len() == 0 {
        assert(first + others =~= first);
        assert(suggested(text, position, others) =~= Seq::<Seq<char>>::empty());
        assert(suggested(text, position, first) + suggested(text, position, others) =~= suggested(
            text,
            position,
            first,
        ));
    } else {
        let all = first + others;
        lemma_suggested_in_order(text, position, first, others.drop_last());
        assert(all.drop_last() =~= first + others.drop_last());
        assert(all.last() == others.last());
        assert(suggested(text, position, all) =~= suggested(text, position, first) + suggested(
            text,
            position,
            others,
        ));
    }
}

/// The suggestion of a name: system variables, which start with a dollar sign, are
/// functions.
pub open spec fn suggestion_of(item: CompletionItem, name: Seq<char>) -> bool {
    &&& item.label@ == name
    &&& item.kind == (if name.len() > 0 && name[0] == '$' {
        CompletionKind::Function
    } else {
        CompletionKind::Variable
    })
    &&& item.detail@ == "variable"@
}

/// A suggestion shows its name, as a function where it starts with a dollar sign and as a
/// variable otherwise.
pub proof fn lemma_suggestion_shows_its_name(item: CompletionItem, name: Seq<char>)
    requires
        suggestion_of(item, name),
    ensures
        item.label@ == name,
        item.detail@ == "variable"@,
        item.kind == CompletionKind::Function <==> seq!['$'].is_prefix_of(name),
        item.kind == CompletionKind::Variable <==> !seq!['$'].is_prefix_of(name),
{
    if name.len() > 0 {
        assert(name.take(1) =~= seq![name[0]]);
        assert(seq![name[0]][0] == name[0] && seq!['$'][0] == '$');
    }
}

/// The names to suggest at the cursor, out of those available: inside a reference that is
/// still open, those that start with what is typed of it.
pub fn completions_at(text: &str, position: Position, names: &Vec<String>) -> (r: Vec<
    CompletionItem,
>)
    requires
        cursor_fits(text@, position),
    ensures
        r@.len() == suggested(text@, position, texts(names@)).len(),
        forall|i: int|
            0 <= i < r@.len() ==> suggestion_of(
                #[trigger] r@[i],
                suggested(text@, position, texts(names@))[i],
            ),
{
    let mut items: Vec<CompletionItem> = Vec::new();
    let prefix = match open_reference_at(text, position) {
        Some(prefix) => prefix,
        None => return items,
    };
    let typed = chars_of(prefix.as_str());
    let ghost all = texts(names@);
    let mut i: usize = 0;
    assert(matching(all.take(0), prefix@) =~= Seq::<Seq<char>>::empty()) by {
        reveal(Seq::filter);
        assert(all.take(0) =~= Seq::<Seq<char>>::empty());
    }
    while i < names.len()
        invariant
            i <= names@.len(),
            all == texts(names@),
            typed@ == prefix@,
            items@.len() == matching(all.take(i as int), prefix@).len(),
            forall|j: int|
                0 <= j < items@.len() ==> suggestion_of(
                    #[trigger] items@[j],
                    matching(all.take(i as int), prefix@)[j],
                ),
        decreases names@.len() - i,
    {
        let name = chars_of(names[i].as_str());
        proof {
            let step = all.take(i + 1);
            assert(step.drop_last() =~= all.take(i as int));
            assert(step.last() == name@);
            reveal(Seq::filter);
        }
        if starts_with_in(name.as_slice(), typed.as_slice()) {
            let kind = if name.len() > 0 && name[0] == '$' {
                CompletionKind::Function
            } else {
                CompletionKind::Variable
            };
            items.push(
                CompletionItem { label: names[i].clone(), kind, detail: "variable".to_owned() },
            );
        }
        i += 1;
    }
    assert(all.take(all.len() as int) =~= all);
    items
}

/// What a request that was sent from a document leaves behind.
pub struct ExecuteRequestOutput {
    pub formatted_response: String,
    pub file_content: String,
    pub request_content_type: Option<String>,
}

/// What is written to the response file: the body of a response with status 200, the
/// diagnostics of any other.
pub open spec fn response_file_text(response: Response) -> Seq<char> {
    if response.status == 200 {
        body_text(response.body@, header_texts(response.headers@))
    } else {
        diagnostics_text(response)
    }
}

/// The stored responses after a request was answered.
pub open spec fn responses_after(
    responses: Map<Seq<char>, StoredResponse>,
    request: ParsedRequest,
    response: Response,
) -> Map<Seq<char>, StoredResponse> {
    match request.name {
        Some(name) => responses.insert(name@, stored(response)),
        None => responses,
    }
}

/// The response file holds what is shown of a response: of one with status 200 all behind the
/// diagnostics, of any other the diagnostics.
pub proof fn lemma_file_holds_body_or_diagnostics(response: Response)
    ensures
        response.status == 200 ==> response_text(response) == diagnostics_text(response) + "\n"@
            + response_file_text(response),
        response.status == 200 && !is_json(header_texts(response.headers@)) ==> response_file_text(
            response,
        ) == response.body@,
        response.status != 200 ==> response_text(response) == response_file_text(response) + "\n"@
            + body_text(response.body@, header_texts(response.headers@)),
{
}

/// The response of a request that has a name is stored under that name, with its headers and
/// its body, whatever its status; no request then misses it, and what else is stored stays.
pub proof fn lemma_named_response_is_stored(
    responses: Map<Seq<char>, StoredResponse>,
    request: ParsedRequest,
    response: Response,
    name: String,
    other: Seq<char>,
    later: ParsedRequest,
)
    requires
        request.name == Some(name),
    ensures
        ({
            let after = responses_after(responses, request, response);
            &&& after.contains_key(name@)
            &&& after[name@].body == response.body@
            &&& after[name@].headers == header_texts(response.headers@)
            &&& !missing_dependencies(later, after.dom()).contains(name@)
            &&& other != name@ ==> (after.contains_key(other) <==> responses.contains_key(other))
            &&& other != name@ && responses.contains_key(other) ==> after[other]
                == responses[other]
        }),
{
    lemma_stored_response_is_not_missing(later, responses, name@, stored(response));
}

/// The response of a request without a name is not stored.
pub proof fn lemma_unnamed_response_is_not_stored(
    responses: Map<Seq<char>, StoredResponse>,
    request: ParsedRequest,
    response: Response,
)
    requires
        request.name is None,
    ensures
        responses_after(responses, request, response) == responses,
{
}

/// What comes of sending a request, and what it leaves behind.
pub open spec fn is_answered(
    answer: Result<ExecuteRequestOutput, String>,
    before: State,
    after: State,
    request: ParsedRequest,
    outcome: Result<Response, String>,
) -> bool {
    match outcome {
        Ok(response) => {
            &&& answer is Ok
            &&& answer->Ok_0.formatted_response@ == response_text(response)
            &&& answer->Ok_0.file_content@ == response_file_text(response)
            &&& opt_text(answer->Ok_0.request_content_type) == content_type(
                header_texts(request.headers@),
            )
            &&& after.variable_ctx.named_responses@ == responses_after(
                before.variable_ctx.named_responses@,
                request,
                response,
            )
            &&& after.variable_ctx.variables == before.variable_ctx.variables
            &&& after.variable_ctx.allowed_env_vars == before.variable_ctx.allowed_env_vars
            &&& after.documents == before.documents
            &&& after.settings == before.settings
        },
        Err(error) => {
            &&& answer is Err
            &&& answer->Err_0 == error
            &&& after == before
        },
    }
}

/// A response is shown whole, its body last, and stored under the name of its request; a
/// failure is handed on and stores nothing. Documents, variables and settings stay.
pub proof fn lemma_answer_shows_and_stores(
    answer: Result<ExecuteRequestOutput, String>,
    before: State,
    after: State,
    request: ParsedRequest,
    outcome: Result<Response, String>,
)
    requires
        is_answered(answer, before, after, request, outcome),
    ensures
        answer is Ok <==> outcome is Ok,
        after.documents@ == before.documents@,
        after.variable_ctx.variables@ == before.variable_ctx.variables@,
        after.settings == before.settings,
        outcome matches Ok(response) ==> {
            &&& body_text(response.body@, header_texts(response.headers@)).is_suffix_of(
                answer->Ok_0.formatted_response@,
            )
            &&& diagnostics_text(response).is_prefix_of(answer->Ok_0.formatted_response@)
            &&& response.status == 200 && !is_json(header_texts(response.headers@))
                ==> answer->Ok_0.file_content@ == response.body@
            &&& response.status != 200 ==> answer->Ok_0.file_content@ == diagnostics_text(response)
            &&& request.name matches Some(name)
                ==> after.variable_ctx.named_responses@.contains_pair(name@, stored(response))
            &&& request.name is None ==> after.variable_ctx.named_responses@
                == before.variable_ctx.named_responses@
        },
        outcome matches Err(error) ==> answer->Err_0@ == error@
            && after.variable_ctx.named_responses@ == before.variable_ctx.named_responses@,
{
    if let Ok(response) = outcome {
        lemma_body_comes_last(response);
        lemma_response_extends_diagnostics(response);
    }
}

/// The content type that is handed out with a response is that of the first header of the
/// request that is called so.
pub proof fn lemma_content_type_is_that_of_the_request(
    answer: Result<ExecuteRequestOutput, String>,
    before: State,
    after: State,
    request: ParsedRequest,
    outcome: Result<Response, String>,
    i: int,
)
    requires
        is_answered(answer, before, after, request, outcome),
        outcome is Ok,
        0 <= i < request.headers@.len(),
        forall|j: int|
            0 <= j < i ==> ascii_lower((#[trigger] request.headers@[j]).0@) != "content-type"@,
        ascii_lower(request.headers@[i].0@) == "content-type"@,
    ensures
        opt_text(answer->Ok_0.request_content_type) == Some(request.headers@[i].1@),
{
    let headers = header_texts(request.headers@);
    let front = headers.take(i);
    assert forall|j: int| 0 <= j < front.len() implies ascii_lower((#[trigger] front[j]).0)
        != "content-type"@ by {
        assert(ascii_lower(request.headers@[j].0@) != "content-type"@);
    }
    lemma_content_type_of_headers(front, headers[i], headers.skip(i + 1));
    assert(headers =~= front + seq![headers[i]] + headers.skip(i + 1));
}

/// The text of the document from which a request is to be sent, and the variables that
/// the session knows; an error where the document is not open.
pub fn request_source(state: &State, uri: &Url) -> (r: Result<(String, VariableContext), String>)
    ensures
        match document_text(state.documents@, *uri) {
            Some(text) => {
                &&& r is Ok
                &&& r->Ok_0.0@ == text
                &&& r->Ok_0.1.variables@ == state.variable_ctx.variables@
                &&& r->Ok_0.1.named_responses@ == Map::<Seq<char>, StoredResponse>::empty()
                &&& r->Ok_0.1.allowed_env_vars@.len() == 0
            },
            None => r is Err && r->Err_0@ == "document not found"@,
        },
{
    match state.document(uri) {
        Some(text) => Ok(
            (text.clone(), VariableContext::new(state.variable_ctx.variables.duplicate())),
        ),
        None => Err("document not found".to_owned()),
    }
}

/// Adds to the variables of a request those that its file declares and the responses that
/// the session has stored.
pub fn complete_context(ctx: VariableContext, file: &ParsedFile, state: &State) -> (r:
    VariableContext)
    ensures
        r.variables@ == ctx.variables@.union_prefer_right(file.variables@),
        r.named_responses@ == ctx.named_responses@.union_prefer_right(
            state.variable_ctx.named_responses@,
        ),
        r.allowed_env_vars == ctx.allowed_env_vars,
{
    let mut complete = ctx;
    complete.variables.extend(&file.variables);
    complete.named_responses.extend(&state.variable_ctx.named_responses);
    complete
}

/// The request that was found at a line; an error where there is none.
pub fn request_at_line(found: Option<ParsedRequest>, line: usize) -> (r: Result<
    ParsedRequest,
    String,
>)
    ensures
        match found {
            Some(request) => r == Ok::<ParsedRequest, String>(request),
            None => r is Err && r->Err_0@ == "no request found at line "@ + decimal(line as nat),
        },
{
    match found {
        Some(request) => Ok(request),
        None => {
            let mut message: String = "no request found at line ".to_owned();
            message.append(decimal_of(line as u64).as_str());
            Err(message)
        },
    }
}

/// The request is the one that `find` finds at `line` of what `parse` makes of `text`, and
/// its variables and responses are those of the session and of its file; or the error says
/// that there is none.
pub open spec fn is_prepared<P: Fn(&str) -> ParsedFile, L: Fn(&ParsedFile, usize) -> Option<
    ParsedRequest,
>>(
    prepared: Result<(ParsedRequest, VariableContext), String>,
    state: State,
    text: Seq<char>,
    line: usize,
    parse: P,
    find: L,
) -> bool {
    exists|source: &str, file: ParsedFile, found: Option<ParsedRequest>|
        {
            &&& source@ == text
            &&& #[trigger] parse.ensures((source,), file)
            &&& #[trigger] find.ensures((&file, line), found)
            &&& match found {
                Some(request) => {
                    &&& prepared is Ok
                    &&& prepared->Ok_0.0 == request
                    &&& prepared->Ok_0.1.variables@
                        == state.variable_ctx.variables@.union_prefer_right(file.variables@)
                    &&& prepared->Ok_0.1.named_responses@ == state.variable_ctx.named_responses@
                    &&& prepared->Ok_0.1.allowed_env_vars@.len() == 0
                },
                None => prepared is Err && prepared->Err_0@ == "no request found at line "@
                    + decimal(line as nat),
            }
        }
}

/// The request that is prepared is the one that is found; each variable of its file has the
/// value that the file declares, each other one that of the session, and all responses of the
/// session can be referred to. Where a request is found, it is prepared.
pub proof fn lemma_prepared_request_knows_its_variables<
    P: Fn(&str) -> ParsedFile,
    L: Fn(&ParsedFile, usize) -> Option<ParsedRequest>,
>(
    prepared: Result<(ParsedRequest, VariableContext), String>,
    state: State,
    text: Seq<char>,
    line: usize,
    parse: P,
    find: L,
    declared: spec_fn(Seq<char>) -> Map<Seq<char>, Seq<char>>,
    holds: spec_fn(ParsedRequest) -> bool,
    name: Seq<char>,
)
    requires
        is_prepared(prepared, state, text, line, parse, find),
        forall|source: &str, file: ParsedFile| #[trigger]
            parse.ensures((source,), file) ==> file.variables@ == declared(source@),
        forall|file: ParsedFile, found: Option<ParsedRequest>| #[trigger]
            find.ensures((&file, line), found) ==> (found matches Some(request) ==> holds(request)),
    ensures
        (forall|file: ParsedFile, found: Option<ParsedRequest>| #[trigger]
            find.ensures((&file, line), found) ==> found is Some) ==> prepared is Ok,
        prepared is Err ==> prepared->Err_0@ == "no request found at line "@ + decimal(
            line as nat,
        ),
        prepared matches Ok(pair) ==> {
            &&& holds(pair.0)
            &&& pair.1.named_responses@ == state.variable_ctx.named_responses@
            &&& declared(text).contains_key(name) ==> pair.1.variables@.contains_pair(
                name,
                declared(text)[name],
            )
            &&& !declared(text).contains_key(name) ==> (pair.1.variables@.contains_key(name)
                <==> state.variable_ctx.variables@.contains_key(name))
            &&& !declared(text).contains_key(name) && state.variable_ctx.variables@.contains_key(
                name,
            ) ==> pair.1.variables@[name] == state.variable_ctx.variables@[name]
        },
{
    let (source, file, found) = choose|
        source: &str,
        file: ParsedFile,
        found: Option<ParsedRequest>,
    |
        {
            &&& source@ == text
            &&& #[trigger] parse.ensures((source,), file)
            &&& #[trigger] find.ensures((&file, line), found)
            &&& match found {
                Some(request) => {
                    &&& prepared is Ok
                    &&& prepared->Ok_0.0 == request
                    &&& prepared->Ok_0.1.variables@
                        == state.variable_ctx.variables@.union_prefer_right(file.variables@)
                    &&& prepared->Ok_0.1.named_responses@ == state.variable_ctx.named_responses@
                    &&& prepared->Ok_0.1.allowed_env_vars@.len() == 0
                },
                None => prepared is Err && prepared->Err_0@ == "no request found at line "@
                    + decimal(line as nat),
            }
        };
    assert(file.variables@ == declared(source@));
}

/// The request to send from a line of a document, and the variables and responses to which
/// it can refer; an error where the document is not open or has no request at the line.
/// `parse` reads a request file, and `find` looks for the request at a line of it.
pub fn prepare_request<P: Fn(&str) -> ParsedFile, L: Fn(&ParsedFile, usize) -> Option<
    ParsedRequest,
>>(uri: &Url, line: usize, state: &State, parse: P, find: L) -> (r: Result<
    (ParsedRequest, VariableContext),
    String,
>)
    requires
        forall|source: &str| #[trigger] parse.requires((source,)),
        forall|file: &ParsedFile, at: usize| #[trigger] find.requires((file, at)),
    ensures
        match document_text(state.documents@, *uri) {
            Some(text) => is_prepared(r, *state, text, line, parse, find),
            None => r is Err && r->Err_0@ == "document not found"@,
        },
{
    let (text, ctx) = match request_source(state, uri) {
        Ok(source) => source,
        Err(error) => return Err(error),
    };
    let file = parse(text.as_str());
    let complete = complete_context(ctx, &file, state);
    assert(complete.named_responses@ =~= state.variable_ctx.named_responses@);
    match request_at_line(find(&file, line), line) {
        Ok(request) => Ok((request, complete)),
        Err(error) => Err(error),
    }
}

/// Takes over what came of sending a request: the response is stored under the name of
/// the request, where it has one, and made into text; an error is handed on.
pub fn execute_request(
    request: &ParsedRequest,
    outcome: Result<Response, String>,
    state: &mut State,
) -> (r: Result<ExecuteRequestOutput, String>)
    ensures
        is_answered(r, *old(state), *final(state), *request, outcome),
{
    let response = match outcome {
        Ok(response) => response,
        Err(error) => return Err(error),
    };
    let request_content_type = match content_type_of(request.headers.as_slice()) {
        Some(value) => Some(value.clone()),
        None => None,
    };
    let formatted_response = format_response(&response);
    let file_content = if response.status == 200 {
        format_response_body(response.body.as_str(), response.headers.as_slice())
    } else {
        format_response_diagnostics(&response)
    };
    if let Some(name) = &request.name {
        state.variable_ctx.store_response(name.as_str(), response.to_named());
    }
    Ok(ExecuteRequestOutput { formatted_response, file_content, request_content_type })
}

} // verus!
