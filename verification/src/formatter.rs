//! Responses as text.

use vstd::prelude::*;

use crate::json::{holds_integers_only, json_pretty, json_value, reprint, reprinted};
use crate::model::{content_type, content_type_of, header_texts, Response};
use crate::numbers::{decimal, decimal_of};
use crate::text::{chars_of, contains, contains_in, occurs_at, opt_text};

verus! {

/// The status line, the time taken and an empty line.
pub open spec fn status_lines(response: Response) -> Seq<char> {
    "HTTP "@ + decimal(response.status as nat) + " "@ + response.status_text@ + "\nTime: "@
        + decimal(response.elapsed_ms as nat) + "ms\n\n"@
}

/// The headers, each on a line of its own.
pub open spec fn header_lines(headers: Seq<(Seq<char>, Seq<char>)>) -> Seq<char>
    decreases headers.len(),
{
    if headers.len() == 0 {
        seq![]
    } else {
        header_lines(headers.drop_last()) + headers.last().0 + ": "@ + headers.last().1 + "\n"@
    }
}

/// The status lines and the headers of a response.
pub open spec fn diagnostics_text(response: Response) -> Seq<char> {
    status_lines(response) + header_lines(header_texts(response.headers@))
}

/// The content type speaks of JSON.
pub open spec fn is_json(headers: Seq<(Seq<char>, Seq<char>)>) -> bool {
    match content_type(headers) {
        Some(value) => contains(value, "json"@),
        None => false,
    }
}

/// The body printed with indentation, where it is announced as JSON and is JSON.
pub open spec fn pretty_body(body: Seq<char>, headers: Seq<(Seq<char>, Seq<char>)>) -> Option<
    Seq<char>,
> {
    if is_json(headers) {
        reprinted(body)
    } else {
        None
    }
}

/// The body as it is shown.
pub open spec fn body_text(body: Seq<char>, headers: Seq<(Seq<char>, Seq<char>)>) -> Seq<char> {
    match pretty_body(body, headers) {
        Some(pretty) => pretty,
        None => body,
    }
}

/// The whole response as it is shown.
pub open spec fn response_text(response: Response) -> Seq<char> {
    diagnostics_text(response) + "\n"@ + body_text(
        response.body@,
        header_texts(response.headers@),
    )
}

/// The response as it is shown is its diagnostics, an empty line and its body.
pub proof fn lemma_response_extends_diagnostics(response: Response)
    ensures
        diagnostics_text(response).is_prefix_of(response_text(response)),
        response_text(response).skip(diagnostics_text(response).len() as int) == "\n"@ + body_text(
            response.body@,
            header_texts(response.headers@),
        ),
{
    assert(response_text(response).skip(diagnostics_text(response).len() as int) =~= "\n"@
        + body_text(response.body@, header_texts(response.headers@)));
}

/// A body that is not announced as JSON, or is none, is shown as it is.
pub proof fn lemma_other_bodies_unchanged(body: Seq<char>, headers: Seq<(Seq<char>, Seq<char>)>)
    requires
        !is_json(headers) || reprinted(body) is None,
    ensures
        body_text(body, headers) == body,
{
}

/// A body that was formatted is not changed by formatting it again, provided that a body
/// printed with indentation reads back as the same value.
pub proof fn lemma_formatting_twice(body: Seq<char>, headers: Seq<(Seq<char>, Seq<char>)>)
    requires
        is_json(headers) ==> (reprinted(body) matches Some(pretty) ==> json_value(pretty)
            == json_value(body)),
    ensures
        body_text(body_text(body, headers), headers) == body_text(body, headers),
{
}

/// A response without headers is introduced by its status, its status text and the time it
/// took, whatever they are.
pub proof fn lemma_status_comes_first(response: Response)
    ensures
        ("HTTP "@ + decimal(response.status as nat) + " "@ + response.status_text@ + "\nTime: "@
            + decimal(response.elapsed_ms as nat) + "ms\n\n"@).is_prefix_of(
            diagnostics_text(response),
        ),
        response.headers@.len() == 0 ==> diagnostics_text(response) == "HTTP "@ + decimal(
            response.status as nat,
        ) + " "@ + response.status_text@ + "\nTime: "@ + decimal(response.elapsed_ms as nat)
            + "ms\n\n"@,
{
    let start = "HTTP "@ + decimal(response.status as nat) + " "@ + response.status_text@
        + "\nTime: "@ + decimal(response.elapsed_ms as nat) + "ms\n\n"@;
    let all = diagnostics_text(response);
    assert(all.take(start.len() as int) =~= start);
    if response.headers@.len() == 0 {
        assert(all =~= start);
    }
}

/// One header more is one line more, with its name and its value, behind the others; the
/// status of the response does not matter.
pub proof fn lemma_each_header_has_a_line(shorter: Response, longer: Response)
    requires
        longer.status == shorter.status,
        longer.status_text@ == shorter.status_text@,
        longer.elapsed_ms == shorter.elapsed_ms,
        longer.headers@.len() > 0,
        longer.headers@.drop_last() == shorter.headers@,
    ensures
        diagnostics_text(longer) == diagnostics_text(shorter) + longer.headers@.last().0@ + ": "@
            + longer.headers@.last().1@ + "\n"@,
{
    let more = header_texts(longer.headers@);
    assert(more.drop_last() =~= header_texts(shorter.headers@));
    assert(diagnostics_text(longer) =~= diagnostics_text(shorter) + longer.headers@.last().0@
        + ": "@ + longer.headers@.last().1@ + "\n"@);
}

/// The body of a response ends what is shown of it, as it is where it is not announced as
/// JSON, and behind an empty line, whatever the status.
pub proof fn lemma_body_comes_last(response: Response)
    ensures
        body_text(response.body@, header_texts(response.headers@)).is_suffix_of(
            response_text(response),
        ),
        !is_json(header_texts(response.headers@)) ==> response_text(response) == diagnostics_text(
            response,
        ) + "\n"@ + response.body@,
{
    let all = response_text(response);
    let body = body_text(response.body@, header_texts(response.headers@));
    assert(all.subrange(all.len() - body.len(), all.len() as int) =~= body);
}

/// A body that is JSON is shown as it is printed with indentation exactly where some content
/// type with `json` in it stands first; nothing else of the headers matters.
pub proof fn lemma_json_by_content_type(
    body: Seq<char>,
    headers: Seq<(Seq<char>, Seq<char>)>,
    front: Seq<char>,
    back: Seq<char>,
)
    ensures
        content_type(headers) == Some(front + "json"@ + back) ==> is_json(headers),
        content_type(headers) is None ==> !is_json(headers),
        is_json(headers) ==> exists|a: Seq<char>, b: Seq<char>|
            content_type(headers) == Some(#[trigger] (a + "json"@ + b)),
        is_json(headers) ==> (json_value(body) matches Some(value) ==> (json_pretty(value) matches
            Some(pretty) ==> body_text(body, headers) == pretty)),
        is_json(headers) && json_value(body) is None ==> body_text(body, headers) == body,
        is_json(headers) ==> (json_value(body) matches Some(value) ==> json_pretty(value) is None
            ==> body_text(body, headers) == body),
        pretty_body(body, headers) is Some <==> is_json(headers) && json_value(body) is Some
            && json_pretty(json_value(body)->0) is Some,
        !is_json(headers) ==> body_text(body, headers) == body,
{
    let all = front + "json"@ + back;
    assert(all.subrange(front.len() as int, (front + "json"@).len() as int) =~= "json"@);
    assert(occurs_at(all, "json"@, front.len() as int));
    if is_json(headers) {
        let value = content_type(headers)->0;
        let i = choose|i: int| #[trigger] occurs_at(value, "json"@, i);
        let a = value.take(i);
        let b = value.skip(i + "json"@.len());
        assert(value =~= a + "json"@ + b);
    }
}

/// Whether the content type speaks of JSON.
pub fn announces_json(headers: &[(String, String)]) -> (r: bool)
    ensures
        r == is_json(header_texts(headers@)),
{
    let pattern = chars_of("json");
    match content_type_of(headers) {
        Some(value) => contains_in(chars_of(value.as_str()).as_slice(), pattern.as_slice()),
        None => false,
    }
}

/// The body printed with indentation, where it is announced as JSON and is JSON.
pub fn pretty_response_body(body: &str, headers: &[(String, String)]) -> (r: Option<String>)
    ensures
        opt_text(r) == pretty_body(body@, header_texts(headers@)),
        r matches Some(pretty) ==> holds_integers_only(body@) ==> json_value(pretty@)
            == json_value(body@),
{
    if announces_json(headers) {
        reprint(body)
    } else {
        None
    }
}

/// The body to show, given what came of printing it with indentation.
pub fn select_body(body: &str, headers: &[(String, String)], pretty: Option<String>) -> (r: String)
    ensures
        r@ == (if is_json(header_texts(headers@)) && pretty is Some {
            pretty->0@
        } else {
            body@
        }),
{
    if announces_json(headers) {
        match pretty {
            Some(text) => text,
            None => body.to_owned(),
        }
    } else {
        body.to_owned()
    }
}

/// The body of a response as it is shown: with indentation where it is JSON. Where it is not
/// shown so, or all of its numbers are integers, what is shown stays the same when it is
/// formatted again.
pub fn format_response_body(body: &str, headers: &[(String, String)]) -> (r: String)
    ensures
        r@ == body_text(body@, header_texts(headers@)),
        pretty_body(body@, header_texts(headers@)) is None || holds_integers_only(body@)
            ==> body_text(r@, header_texts(headers@)) == r@,
{
    let pretty = pretty_response_body(body, headers);
    let ghost all = header_texts(headers@);
    proof {
        if pretty_body(body@, all) is None || holds_integers_only(body@) {
            lemma_formatting_twice(body@, all);
        }
    }
    select_body(body, headers, pretty)
}

/// The status line, the time taken and the headers of a response.
pub fn format_response_diagnostics(response: &Response) -> (r: String)
    ensures
        r@ == diagnostics_text(*response),
{
    let mut out: String = String::new();
    out.append("HTTP ");
    out.append(decimal_of(response.status as u64).as_str());
    out.append(" ");
    out.append(response.status_text.as_str());
    out.append("\nTime: ");
    out.append(decimal_of(response.elapsed_ms).as_str());
    out.append("ms\n\n");
    assert(out@ =~= status_lines(*response));
    let ghost headers = header_texts(response.headers@);
    let mut i: usize = 0;
    assert(headers.take(0) =~= Seq::<(Seq<char>, Seq<char>)>::empty());
    assert(out@ =~= status_lines(*response) + header_lines(headers.take(0)));
    while i < response.headers.len()
        invariant
            i <= response.headers@.len(),
            headers == header_texts(response.headers@),
            out@ == status_lines(*response) + header_lines(headers.take(i as int)),
        decreases response.headers@.len() - i,
    {
        out.append(response.headers[i].0.as_str());
        out.append(": ");
        out.append(response.headers[i].1.as_str());
        out.append("\n");
        proof {
            let longer = headers.take(i + 1);
            assert(longer.drop_last() =~= headers.take(i as int));
            assert(longer.last() == headers[i as int]);
            assert(out@ =~= status_lines(*response) + header_lines(longer));
        }
        i += 1;
    }
    assert(headers.take(headers.len() as int) =~= headers);
    out
}

/// A response as it is shown: status line, time taken, headers and body.
pub fn format_response(response: &Response) -> (r: String)
    ensures
        r@ == response_text(*response),
{
    let mut out = format_response_diagnostics(response);
    out.append("\n");
    let body = format_response_body(response.body.as_str(), response.headers.as_slice());
    out.append(body.as_str());
    out
}

} // verus!
