//! The command line: its arguments, and the conversions that it offers.

use vstd::prelude::*;

use crate::model::{header_texts, ParsedFile, ParsedRequest, StoredResponse, VariableContext};
use crate::numbers::{
    decimal, decimal_of, lemma_decimal_reads_back, parse_usize, parsed_usize,
};
use crate::table::Duplicate;
use crate::text::{same_text, texts};

verus! {

/// What the program is asked to do.
pub enum CliCommand {
    /// Send the request in this line of this file.
    Exec { file: String, line: usize },
    /// Print the request in this line of this file as a curl command.
    ToCurl { file: String, line: usize },
    /// Print a curl command as a request.
    FromCurl { command: String },
    /// Print code that sends the request in this line of this file.
    Generate { language: String, file: String, line: usize },
    /// Print the requests of this file that were sent.
    History { file: String },
    /// Serve an editor.
    Serve,
}

/// The line in an argument; 1 where it is no number.
pub open spec fn line_argument(argument: Seq<char>) -> nat {
    match parsed_usize(argument) {
        Some(line) => line,
        None => 1,
    }
}

/// The words with a space between each and the next.
pub open spec fn joined(words: Seq<Seq<char>>) -> Seq<char>
    decreases words.len(),
{
    if words.len() == 0 {
        seq![]
    } else if words.len() == 1 {
        words[0]
    } else {
        joined(words.drop_last()) + " "@ + words.last()
    }
}

/// The command that the arguments, the name of the program in front, ask for.
pub open spec fn asked_by(command: CliCommand, arguments: Seq<Seq<char>>) -> bool {
    let n = arguments.len();
    if n >= 4 && arguments[1] == "--exec"@ {
        &&& command is Exec
        &&& command->Exec_file@ == arguments[2]
        &&& command->Exec_line == line_argument(arguments[3])
    } else if n >= 4 && arguments[1] == "--to-curl"@ {
        &&& command is ToCurl
        &&& command->ToCurl_file@ == arguments[2]
        &&& command->ToCurl_line == line_argument(arguments[3])
    } else if n >= 3 && arguments[1] == "--from-curl"@ {
        &&& command is FromCurl
        &&& command->FromCurl_command@ == joined(arguments.skip(2))
    } else if n >= 5 && arguments[1] == "--generate"@ {
        &&& command is Generate
        &&& command->Generate_language@ == arguments[2]
        &&& command->Generate_file@ == arguments[3]
        &&& command->Generate_line == line_argument(arguments[4])
    } else if n >= 3 && arguments[1] == "--history"@ {
        &&& command is History
        &&& command->History_file@ == arguments[2]
    } else {
        command is Serve
    }
}

/// The commands that take a line read it, and the file, from the arguments behind them: the
/// numeral of any number that fits asks for that line, and what follows does not matter.
pub proof fn lemma_commands_read_file_and_line(
    command: CliCommand,
    program: Seq<char>,
    language: Seq<char>,
    file: Seq<char>,
    n: nat,
    rest: Seq<Seq<char>>,
)
    requires
        n <= usize::MAX,
    ensures
        asked_by(command, seq![program, "--exec"@, file, decimal(n)] + rest) ==> command is Exec
            && command->Exec_file@ == file && command->Exec_line == n,
        asked_by(command, seq![program, "--to-curl"@, file, decimal(n)] + rest) ==> command
            is ToCurl && command->ToCurl_file@ == file && command->ToCurl_line == n,
        asked_by(command, seq![program, "--generate"@, language, file, decimal(n)] + rest)
            ==> command is Generate && command->Generate_language@ == language
            && command->Generate_file@ == file && command->Generate_line == n,
{
    lemma_flags_differ();
    lemma_decimal_reads_back(n);
    let four = seq![program, "--exec"@, file, decimal(n)] + rest;
    assert(four[1] == "--exec"@ && four[2] == file && four[3] == decimal(n));
    let curl = seq![program, "--to-curl"@, file, decimal(n)] + rest;
    assert(curl[1] == "--to-curl"@ && curl[2] == file && curl[3] == decimal(n));
    let five = seq![program, "--generate"@, language, file, decimal(n)] + rest;
    assert(five[1] == "--generate"@ && five[2] == language && five[3] == file && five[4] == decimal(
        n,
    ));
}

/// The three commands that take a line read the same argument as the same line, and one that
/// is no number as line 1.
pub proof fn lemma_lines_are_read_alike(
    exec_command: CliCommand,
    curl_command: CliCommand,
    code_command: CliCommand,
    program: Seq<char>,
    language: Seq<char>,
    file: Seq<char>,
    argument: Seq<char>,
)
    requires
        asked_by(exec_command, seq![program, "--exec"@, file, argument]),
        asked_by(curl_command, seq![program, "--to-curl"@, file, argument]),
        asked_by(code_command, seq![program, "--generate"@, language, file, argument]),
    ensures
        exec_command is Exec && curl_command is ToCurl && code_command is Generate,
        curl_command->ToCurl_line == exec_command->Exec_line,
        code_command->Generate_line == exec_command->Exec_line,
        parsed_usize(argument) is None ==> exec_command->Exec_line == 1,
{
    lemma_flags_differ();
}

/// A curl command is made of all the words behind the flag, and a history is asked for by its
/// file.
pub proof fn lemma_words_make_a_curl_command(
    command: CliCommand,
    program: Seq<char>,
    words: Seq<Seq<char>>,
)
    requires
        words.len() > 0,
    ensures
        asked_by(command, seq![program, "--from-curl"@] + words) ==> command is FromCurl
            && command->FromCurl_command@ == joined(words),
        asked_by(command, seq![program, "--history"@] + words) ==> command is History
            && command->History_file@ == words[0],
{
    lemma_flags_differ();
    let curl = seq![program, "--from-curl"@] + words;
    assert(curl[1] == "--from-curl"@);
    assert(curl.skip(2) =~= words);
    let history = seq![program, "--history"@] + words;
    assert(history[1] == "--history"@ && history[2] == words[0]);
}

/// One word is joined as it is, and one more is put behind the others with a space in between.
pub proof fn lemma_words_are_joined(words: Seq<Seq<char>>, word: Seq<char>)
    ensures
        joined(seq![word]) == word,
        words.len() > 0 ==> joined(words.push(word)) == joined(words) + " "@ + word,
{
    assert(words.push(word).drop_last() =~= words);
}

/// An editor is served where the first argument is none of the five flags, and where one of
/// them lacks arguments.
pub proof fn lemma_anything_else_serves(command: CliCommand, arguments: Seq<Seq<char>>)
    requires
        asked_by(command, arguments),
    ensures
        arguments.len() < 3 ==> command is Serve,
        arguments.len() >= 2 && arguments[1] != "--exec"@ && arguments[1] != "--to-curl"@
            && arguments[1] != "--from-curl"@ && arguments[1] != "--generate"@ && arguments[1]
            != "--history"@ ==> command is Serve,
        arguments.len() == 3 && (arguments[1] == "--exec"@ || arguments[1] == "--to-curl"@)
            ==> command is Serve,
        3 <= arguments.len() <= 4 && arguments[1] == "--generate"@ ==> command is Serve,
{
    lemma_flags_differ();
}

/// The five flags are different.
proof fn lemma_flags_differ()
    ensures
        "--exec"@ != "--to-curl"@,
        "--exec"@ != "--from-curl"@,
        "--exec"@ != "--generate"@,
        "--exec"@ != "--history"@,
        "--to-curl"@ != "--from-curl"@,
        "--to-curl"@ != "--generate"@,
        "--to-curl"@ != "--history"@,
        "--from-curl"@ != "--generate"@,
        "--from-curl"@ != "--history"@,
        "--generate"@ != "--history"@,
{
    reveal_strlit("--exec");
    reveal_strlit("--to-curl");
    reveal_strlit("--from-curl");
    reveal_strlit("--generate");
    reveal_strlit("--history");
    assert("--exec"@[2] == 'e' && "--to-curl"@[2] == 't' && "--from-curl"@[2] == 'f');
    assert("--generate"@[2] == 'g' && "--history"@[2] == 'h');
}

/// The line in an argument; 1 where it is no number.
fn line_of(argument: &str) -> (r: usize)
    ensures
        r == line_argument(argument@),
{
    match parse_usize(argument) {
        Some(line) => line,
        None => 1,
    }
}

/// The words from index `start` on, with a space between each and the next.
fn join_from(words: &Vec<String>, start: usize) -> (r: String)
    requires
        start < words@.len(),
    ensures
        r@ == joined(texts(words@).skip(start as int)),
{
    let ghost rest = texts(words@).skip(start as int);
    let n: usize = words.len();
    let mut out: String = words[start].clone();
    let mut i: usize = start + 1;
    assert(rest.take(1)[0] == out@);
    while i < n
        invariant
            start < i <= n == words@.len(),
            rest == texts(words@).skip(start as int),
            out@ == joined(rest.take(i - start)),
        decreases words@.len() - i,
    {
        out.append(" ");
        out.append(words[i].as_str());
        proof {
            let longer = rest.take(i - start + 1);
            assert(longer.drop_last() =~= rest.take(i - start));
            assert(longer.last() == words@[i as int]@);
        }
        i += 1;
    }
    assert(rest.take(rest.len() as int) =~= rest);
    out
}

/// The command that the arguments, the name of the program in front, ask for.
pub fn parse_arguments(arguments: &Vec<String>) -> (r: CliCommand)
    ensures
        asked_by(r, texts(arguments@)),
{
    let n: usize = arguments.len();
    let ghost all = texts(arguments@);
    if n < 3 {
        return CliCommand::Serve;
    }
    let flag = arguments[1].as_str();
    assert(all[1] == flag@ && all[2] == arguments@[2]@);
    proof {
        reveal_strlit("--exec");
        reveal_strlit("--to-curl");
        reveal_strlit("--from-curl");
        reveal_strlit("--generate");
        reveal_strlit("--history");
    }
    if n >= 4 && same_text(flag, "--exec") {
        CliCommand::Exec { file: arguments[2].clone(), line: line_of(arguments[3].as_str()) }
    } else if n >= 4 && same_text(flag, "--to-curl") {
        CliCommand::ToCurl { file: arguments[2].clone(), line: line_of(arguments[3].as_str()) }
    } else if same_text(flag, "--from-curl") {
        CliCommand::FromCurl { command: join_from(arguments, 2) }
    } else if n >= 5 && same_text(flag, "--generate") {
        CliCommand::Generate {
            language: arguments[2].clone(),
            file: arguments[3].clone(),
            line: line_of(arguments[4].as_str()),
        }
    } else if same_text(flag, "--history") {
        CliCommand::History { file: arguments[2].clone() }
    } else {
        CliCommand::Serve
    }
}

/// What a command prints, and the code with which the program exits.
pub struct CliOutput {
    pub out: String,
    pub err: String,
    pub code: i32,
}

/// What came of looking for a request in a file, and of making something of it.
pub enum Lookup<T> {
    /// The file could not be read.
    Unreadable(String),
    /// The file has no request at the line.
    NotFound,
    /// What was made of the request.
    Found(T),
}

/// What is reported of a file that cannot be read.
pub open spec fn unreadable_text(file: Seq<char>, error: Seq<char>) -> Seq<char> {
    "Error reading "@ + file + ": "@ + error + "\n"@
}

/// What is reported of a line without request.
pub open spec fn not_found_text(line: usize) -> Seq<char> {
    "No request found at line "@ + decimal(line as nat) + "\n"@
}

/// What is reported of a file that cannot be read.
pub fn unreadable_report(file: &str, error: &str) -> (r: String)
    ensures
        r@ == unreadable_text(file@, error@),
{
    let mut text: String = "Error reading ".to_owned();
    text.append(file);
    text.append(": ");
    text.append(error);
    text.append("\n");
    text
}

/// What is reported of a line without request.
pub fn not_found_report(line: usize) -> (r: String)
    ensures
        r@ == not_found_text(line),
{
    let mut text: String = "No request found at line ".to_owned();
    text.append(decimal_of(line as u64).as_str());
    text.append("\n");
    text
}

/// Prints this text and succeeds.
pub open spec fn succeeds(output: CliOutput, out: Seq<char>) -> bool {
    output.out@ == out && output.err@.len() == 0 && output.code == 0
}

/// Prints nothing, reports this text and fails.
pub open spec fn fails(output: CliOutput, err: Seq<char>) -> bool {
    output.out@.len() == 0 && output.err@ == err && output.code == 1
}

/// What is printed of a request as a curl command.
pub open spec fn is_curl_output(
    output: CliOutput,
    file: Seq<char>,
    line: usize,
    command: Lookup<String>,
) -> bool {
    match command {
        Lookup::Unreadable(error) => fails(output, unreadable_text(file, error@)),
        Lookup::NotFound => fails(output, not_found_text(line)),
        Lookup::Found(text) => succeeds(output, text@ + "\n"@),
    }
}

/// What is printed of a conversion.
pub open spec fn is_conversion_output(output: CliOutput, result: Result<String, String>) -> bool {
    match result {
        Ok(text) => succeeds(output, text@),
        Err(error) => fails(output, "Error: "@ + error@ + "\n"@),
    }
}

/// What is printed of generated code.
pub open spec fn is_code_output(
    output: CliOutput,
    file: Seq<char>,
    line: usize,
    code: Lookup<Result<String, String>>,
) -> bool {
    match code {
        Lookup::Unreadable(error) => fails(output, unreadable_text(file, error@)),
        Lookup::NotFound => fails(output, not_found_text(line)),
        Lookup::Found(result) => is_conversion_output(output, result),
    }
}

/// A conversion that succeeds prints what it made, reports nothing and exits with code 0; a
/// curl command has a line feed behind it.
pub proof fn lemma_success_is_printed(
    output: CliOutput,
    file: Seq<char>,
    line: usize,
    text: String,
)
    ensures
        is_curl_output(output, file, line, Lookup::Found(text)) ==> output.out@ == text@ + "\n"@
            && output.err@.len() == 0 && output.code == 0,
        is_conversion_output(output, Ok(text)) ==> output.out@ == text@ && output.err@.len() == 0
            && output.code == 0,
        is_code_output(output, file, line, Lookup::Found(Ok(text))) ==> output.out@ == text@
            && output.err@.len() == 0 && output.code == 0,
{
}

/// A conversion that fails prints nothing, reports the cause and exits with code 1; a file
/// that cannot be read and a line without request are reported alike for both conversions.
pub proof fn lemma_failure_is_reported(
    output: CliOutput,
    file: Seq<char>,
    line: usize,
    error: String,
)
    ensures
        is_curl_output(output, file, line, Lookup::Unreadable(error)) || is_code_output(
            output,
            file,
            line,
            Lookup::Unreadable(error),
        ) ==> output.out@.len() == 0 && output.code == 1 && output.err@ == "Error reading "@ + file
            + ": "@ + error@ + "\n"@,
        is_curl_output(output, file, line, Lookup::NotFound) || is_code_output(
            output,
            file,
            line,
            Lookup::NotFound,
        ) ==> output.out@.len() == 0 && output.code == 1 && output.err@
            == "No request found at line "@ + decimal(line as nat) + "\n"@,
        is_conversion_output(output, Err(error)) || is_code_output(
            output,
            file,
            line,
            Lookup::Found(Err(error)),
        ) ==> output.out@.len() == 0 && output.code == 1 && output.err@ == "Error: "@ + error@
            + "\n"@,
{
}

/// Prints a request as a curl command, given the command for it.
pub fn cli_to_curl(file: &str, line: usize, command: Lookup<String>) -> (r: CliOutput)
    ensures
        is_curl_output(r, file@, line, command),
{
    match command {
        Lookup::Unreadable(error) => CliOutput {
            out: String::new(),
            err: unreadable_report(file, error.as_str()),
            code: 1,
        },
        Lookup::NotFound => CliOutput { out: String::new(), err: not_found_report(line), code: 1 },
        Lookup::Found(text) => {
            let mut out = text;
            out.append("\n");
            CliOutput { out, err: String::new(), code: 0 }
        },
    }
}

/// Prints what a conversion made, or reports why it failed.
fn converted(result: Result<String, String>) -> (r: CliOutput)
    ensures
        is_conversion_output(r, result),
{
    match result {
        Ok(text) => CliOutput { out: text, err: String::new(), code: 0 },
        Err(error) => {
            let mut err: String = "Error: ".to_owned();
            err.append(error.as_str());
            err.append("\n");
            CliOutput { out: String::new(), err, code: 1 }
        },
    }
}

/// Prints a curl command as a request, given what came of converting it.
pub fn cli_from_curl(request: Result<String, String>) -> (r: CliOutput)
    ensures
        is_conversion_output(r, request),
{
    converted(request)
}

/// Prints code that sends a request, given what came of generating it.
pub fn cli_generate(file: &str, line: usize, code: Lookup<Result<String, String>>) -> (r: CliOutput)
    ensures
        is_code_output(r, file@, line, code),
{
    match code {
        Lookup::Unreadable(error) => CliOutput {
            out: String::new(),
            err: unreadable_report(file, error.as_str()),
            code: 1,
        },
        Lookup::NotFound => CliOutput { out: String::new(), err: not_found_report(line), code: 1 },
        Lookup::Found(result) => converted(result),
    }
}

/// `resolve` may make `value` of `template`, whose references stand for what `ctx` says.
pub open spec fn resolves_to<R: Fn(&str, &VariableContext) -> String>(
    resolve: R,
    ctx: VariableContext,
    template: Seq<char>,
    value: Seq<char>,
) -> bool {
    exists|t: &str, v: String|
        t@ == template && v@ == value && #[trigger] resolve.ensures((t, &ctx), v)
}

/// `resolved` is the request with what `resolve` makes of its URL, its header values and its
/// body; the rest of it is the same.
pub open spec fn is_resolved<R: Fn(&str, &VariableContext) -> String>(
    resolved: ParsedRequest,
    request: ParsedRequest,
    ctx: VariableContext,
    resolve: R,
) -> bool {
    &&& resolves_to(resolve, ctx, request.url@, resolved.url@)
    &&& resolved.headers@.len() == request.headers@.len()
    &&& forall|i: int|
        0 <= i < resolved.headers@.len() ==> {
            &&& (#[trigger] resolved.headers@[i]).0@ == request.headers@[i].0@
            &&& resolves_to(resolve, ctx, request.headers@[i].1@, resolved.headers@[i].1@)
        }
    &&& match request.body {
        Some(body) => resolved.body is Some && resolves_to(
            resolve,
            ctx,
            body@,
            resolved.body->0@,
        ),
        None => resolved.body is None,
    }
    &&& resolved.method == request.method
    &&& resolved.name == request.name
    &&& resolved.note == request.note
    &&& resolved.line == request.line
}

/// Where `resolve` gives a text its value, a resolved request has the values of its URL, of
/// the value of every header and of its body, in their places; names of headers, the method
/// and the rest are not touched.
pub proof fn lemma_every_part_is_resolved<R: Fn(&str, &VariableContext) -> String>(
    resolved: ParsedRequest,
    request: ParsedRequest,
    ctx: VariableContext,
    resolve: R,
    value_of: spec_fn(Seq<char>) -> Seq<char>,
    i: int,
)
    requires
        is_resolved(resolved, request, ctx, resolve),
        forall|template: &str, value: String| #[trigger]
            resolve.ensures((template, &ctx), value) ==> value@ == value_of(template@),
    ensures
        resolved.url@ == value_of(request.url@),
        resolved.headers@.len() == request.headers@.len(),
        0 <= i < request.headers@.len() ==> resolved.headers@[i].0@ == request.headers@[i].0@
            && resolved.headers@[i].1@ == value_of(request.headers@[i].1@),
        request.body is None ==> resolved.body is None,
        request.body matches Some(body) ==> resolved.body is Some && resolved.body->0@ == value_of(
            body@,
        ),
        resolved.method@ == request.method@,
        resolved.name == request.name,
        resolved.note == request.note,
        resolved.line == request.line,
{
    if 0 <= i < request.headers@.len() {
        assert(resolves_to(resolve, ctx, request.headers@[i].1@, resolved.headers@[i].1@)) by {
            assert(resolved.headers@[i].0@ == request.headers@[i].0@);
        }
    }
}

/// The request with what `resolve` makes of its URL, its header values and its body; the
/// rest of it stays as it is.
pub fn resolve_request<R: Fn(&str, &VariableContext) -> String>(
    request: ParsedRequest,
    ctx: &VariableContext,
    resolve: &R,
) -> (r: ParsedRequest)
    requires
        forall|template: &str, known: &VariableContext| #[trigger]
            resolve.requires((template, known)),
    ensures
        is_resolved(r, request, *ctx, *resolve),
{
    let url = resolve(request.url.as_str(), ctx);
    assert(resolves_to(*resolve, *ctx, request.url@, url@));
    let mut headers: Vec<(String, String)> = Vec::new();
    let mut i: usize = 0;
    while i < request.headers.len()
        invariant
            i <= request.headers@.len(),
            headers@.len() == i,
            forall|template: &str, known: &VariableContext| #[trigger]
                resolve.requires((template, known)),
            forall|j: int|
                0 <= j < i ==> {
                    &&& (#[trigger] headers@[j]).0@ == request.headers@[j].0@
                    &&& resolves_to(*resolve, *ctx, request.headers@[j].1@, headers@[j].1@)
                },
        decreases request.headers@.len() - i,
    {
        let value = resolve(request.headers[i].1.as_str(), ctx);
        assert(resolves_to(*resolve, *ctx, request.headers@[i as int].1@, value@));
        headers.push((request.headers[i].0.clone(), value));
        i += 1;
    }
    let body = match &request.body {
        Some(text) => {
            let value = resolve(text.as_str(), ctx);
            assert(resolves_to(*resolve, *ctx, text@, value@));
            Some(value)
        },
        None => None,
    };
    ParsedRequest {
        method: request.method,
        url,
        headers,
        body,
        name: request.name,
        note: request.note,
        line: request.line,
    }
}

/// `authorized` is the request with what `authorize` makes of its headers; the rest of it is
/// the same.
pub open spec fn is_authorized<A: Fn(Vec<(String, String)>) -> Vec<(String, String)>>(
    authorized: ParsedRequest,
    request: ParsedRequest,
    authorize: A,
) -> bool {
    &&& authorize.ensures((request.headers,), authorized.headers)
    &&& authorized.method == request.method
    &&& authorized.url == request.url
    &&& authorized.body == request.body
    &&& authorized.name == request.name
    &&& authorized.note == request.note
    &&& authorized.line == request.line
}

/// Authorizing a request changes its headers, to what `authorize` makes of them, and nothing
/// else of it.
pub proof fn lemma_authorization_is_in_the_headers<
    A: Fn(Vec<(String, String)>) -> Vec<(String, String)>,
>(
    authorized: ParsedRequest,
    request: ParsedRequest,
    authorize: A,
    made: spec_fn(Seq<(Seq<char>, Seq<char>)>) -> Seq<(Seq<char>, Seq<char>)>,
)
    requires
        is_authorized(authorized, request, authorize),
        forall|given: Vec<(String, String)>, result: Vec<(String, String)>| #[trigger]
            authorize.ensures((given,), result) ==> header_texts(result@) == made(
                header_texts(given@),
            ),
    ensures
        header_texts(authorized.headers@) == made(header_texts(request.headers@)),
        authorized.method@ == request.method@,
        authorized.url@ == request.url@,
        authorized.body == request.body,
        authorized.name == request.name,
        authorized.note == request.note,
        authorized.line == request.line,
{
}

/// The request with what `authorize` makes of its headers.
pub fn authorize_request<A: Fn(Vec<(String, String)>) -> Vec<(String, String)>>(
    request: ParsedRequest,
    authorize: &A,
) -> (r: ParsedRequest)
    requires
        forall|headers: Vec<(String, String)>| #[trigger] authorize.requires((headers,)),
    ensures
        is_authorized(r, request, *authorize),
{
    ParsedRequest {
        method: request.method,
        url: request.url,
        headers: authorize(request.headers),
        body: request.body,
        name: request.name,
        note: request.note,
        line: request.line,
    }
}

/// The context has the variables that the file declares, and nothing else.
pub open spec fn is_file_context(ctx: VariableContext, file: ParsedFile) -> bool {
    &&& ctx.variables@ == file.variables@
    &&& ctx.named_responses@ == Map::<Seq<char>, StoredResponse>::empty()
    &&& ctx.allowed_env_vars@.len() == 0
}

/// What is found at `line` of what `parse` makes of `text` is the request there, first
/// resolved with the variables of its file and then authorized.
pub open spec fn is_looked_up<
    P: Fn(&str) -> ParsedFile,
    L: Fn(&ParsedFile, usize) -> Option<ParsedRequest>,
    R: Fn(&str, &VariableContext) -> String,
    A: Fn(Vec<(String, String)>) -> Vec<(String, String)>,
>(
    looked: Lookup<ParsedRequest>,
    text: Seq<char>,
    line: usize,
    parse: P,
    find: L,
    resolve: R,
    authorize: A,
) -> bool {
    exists|source: &str, file: ParsedFile, found: Option<ParsedRequest>|
        {
            &&& source@ == text
            &&& #[trigger] parse.ensures((source,), file)
            &&& #[trigger] find.ensures((&file, line), found)
            &&& match found {
                Some(request) => looked is Found && exists|
                    ctx: VariableContext,
                    resolved: ParsedRequest,
                |
                    {
                        &&& #[trigger] is_file_context(ctx, file)
                        &&& #[trigger] is_resolved(resolved, request, ctx, resolve)
                        &&& is_authorized(looked->Found_0, resolved, authorize)
                    },
                None => looked is NotFound,
            }
        }
}

/// A request that is looked up has its URL and its body resolved, and its headers first
/// resolved and then authorized; the variables are those that its file declares. Where one is
/// found, it is handed out.
pub proof fn lemma_looked_up_request_is_resolved<
    P: Fn(&str) -> ParsedFile,
    L: Fn(&ParsedFile, usize) -> Option<ParsedRequest>,
    R: Fn(&str, &VariableContext) -> String,
    A: Fn(Vec<(String, String)>) -> Vec<(String, String)>,
>(
    looked: Lookup<ParsedRequest>,
    text: Seq<char>,
    line: usize,
    parse: P,
    find: L,
    resolve: R,
    authorize: A,
    declared: spec_fn(Seq<char>) -> Map<Seq<char>, Seq<char>>,
    url: Seq<char>,
    headers: Seq<(Seq<char>, Seq<char>)>,
    value_of: spec_fn(Map<Seq<char>, Seq<char>>, Seq<char>) -> Seq<char>,
    authorized: spec_fn(Seq<(Seq<char>, Seq<char>)>) -> Seq<(Seq<char>, Seq<char>)>,
)
    requires
        is_looked_up(looked, text, line, parse, find, resolve, authorize),
        forall|source: &str, file: ParsedFile| #[trigger]
            parse.ensures((source,), file) ==> file.variables@ == declared(source@),
        forall|file: ParsedFile, found: Option<ParsedRequest>| #[trigger]
            find.ensures((&file, line), found) ==> (found matches Some(request) ==> request.url@
                == url && header_texts(request.headers@) == headers),
        forall|template: &str, ctx: VariableContext, value: String| #[trigger]
            resolve.ensures((template, &ctx), value) ==> value@ == value_of(
                ctx.variables@,
                template@,
            ),
        forall|given: Vec<(String, String)>, made: Vec<(String, String)>| #[trigger]
            authorize.ensures((given,), made) ==> header_texts(made@) == authorized(
                header_texts(given@),
            ),
    ensures
        !(looked is Unreadable),
        (forall|file: ParsedFile, found: Option<ParsedRequest>| #[trigger]
            find.ensures((&file, line), found) ==> found is Some) ==> looked is Found,
        looked matches Lookup::Found(request) ==> {
            &&& request.url@ == value_of(declared(text), url)
            &&& header_texts(request.headers@) == authorized(
                headers.map_values(
                    |header: (Seq<char>, Seq<char>)|
                        (header.0, value_of(declared(text), header.1)),
                ),
            )
        },
{
    let (source, file, found) = choose|
        source: &str,
        file: ParsedFile,
        found: Option<ParsedRequest>,
    |
        {
            &&& source@ == text
            &&& #[trigger] parse.ensures((source,), file)
            &&& #[trigger] find.ensures((&file, line), found)
            &&& match found {
                Some(request) => looked is Found && exists|
                    ctx: VariableContext,
                    resolved: ParsedRequest,
                |
                    {
                        &&& #[trigger] is_file_context(ctx, file)
                        &&& #[trigger] is_resolved(resolved, request, ctx, resolve)
                        &&& is_authorized(looked->Found_0, resolved, authorize)
                    },
                None => looked is NotFound,
            }
        };
    if let Some(request) = found {
        let (ctx, resolved) = choose|ctx: VariableContext, resolved: ParsedRequest|
            {
                &&& #[trigger] is_file_context(ctx, file)
                &&& #[trigger] is_resolved(resolved, request, ctx, resolve)
                &&& is_authorized(looked->Found_0, resolved, authorize)
            };
        let known = |template: Seq<char>| value_of(ctx.variables@, template);
        assert forall|i: int| 0 <= i < headers.len() implies header_texts(resolved.headers@)[i] == (
            headers[i].0,
            value_of(declared(text), headers[i].1),
        ) by {
            lemma_every_part_is_resolved(resolved, request, ctx, resolve, known, i);
            assert(headers[i] == header_texts(request.headers@)[i]);
        }
        lemma_every_part_is_resolved(resolved, request, ctx, resolve, known, 0);
        assert(header_texts(resolved.headers@) =~= headers.map_values(
            |header: (Seq<char>, Seq<char>)| (header.0, value_of(declared(text), header.1)),
        ));
        assert(authorize.ensures((resolved.headers,), looked->Found_0.headers));
    }
}

/// Looks for the request at a line of a file, given what came of reading it. `parse` reads a
/// request file, `find` looks for the request at a line of it, `resolve` replaces references
/// and `authorize` encodes credentials in headers whose references are resolved.
pub fn look_up_request<
    P: Fn(&str) -> ParsedFile,
    L: Fn(&ParsedFile, usize) -> Option<ParsedRequest>,
    R: Fn(&str, &VariableContext) -> String,
    A: Fn(Vec<(String, String)>) -> Vec<(String, String)>,
>(
    text: Result<String, String>,
    line: usize,
    parse: P,
    find: L,
    resolve: R,
    authorize: A,
) -> (r: Lookup<ParsedRequest>)
    requires
        forall|source: &str| #[trigger] parse.requires((source,)),
        forall|file: &ParsedFile, at: usize| #[trigger] find.requires((file, at)),
        forall|template: &str, known: &VariableContext| #[trigger]
            resolve.requires((template, known)),
        forall|headers: Vec<(String, String)>| #[trigger] authorize.requires((headers,)),
    ensures
        match text {
            Ok(content) => is_looked_up(r, content@, line, parse, find, resolve, authorize),
            Err(error) => r == Lookup::<ParsedRequest>::Unreadable(error),
        },
{
    let content = match text {
        Ok(content) => content,
        Err(error) => return Lookup::Unreadable(error),
    };
    let file = parse(content.as_str());
    let ctx = VariableContext::new(file.variables.duplicate());
    assert(is_file_context(ctx, file));
    match find(&file, line) {
        Some(request) => {
            let resolved = resolve_request(request, &ctx, &resolve);
            Lookup::Found(authorize_request(resolved, &authorize))
        },
        None => Lookup::NotFound,
    }
}

} // verus!
