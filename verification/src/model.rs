//! Requests, responses and the variables that requests refer to.

use vstd::prelude::*;

use crate::table::{Duplicate, Table};
use crate::text::{ascii_lower, equal_ignoring_case, same_ignoring_case};

verus! {

/// Header names and values as text.
pub open spec fn header_texts(headers: Seq<(String, String)>) -> Seq<(Seq<char>, Seq<char>)> {
    headers.map_values(|header: (String, String)| (header.0@, header.1@))
}

/// The value of the first header with this name, whatever the case of its letters.
pub open spec fn header_value(headers: Seq<(Seq<char>, Seq<char>)>, name: Seq<char>) -> Option<
    Seq<char>,
>
    decreases headers.len(),
{
    if headers.len() == 0 {
        None
    } else if same_ignoring_case(headers[0].0, name) {
        Some(headers[0].1)
    } else {
        header_value(headers.skip(1), name)
    }
}

/// The value of the first `Content-Type` header.
pub open spec fn content_type(headers: Seq<(Seq<char>, Seq<char>)>) -> Option<Seq<char>> {
    header_value(headers, "content-type"@)
}

/// A header is found by its name, whatever the case of its letters, where none with that name
/// stands before it; where none has the name, none is found.
pub proof fn lemma_first_header_counts(
    headers: Seq<(Seq<char>, Seq<char>)>,
    name: Seq<char>,
    i: int,
)
    ensures
        0 <= i < headers.len() && ascii_lower(headers[i].0) == ascii_lower(name) && (forall|j: int|
            0 <= j < i ==> ascii_lower((#[trigger] headers[j]).0) != ascii_lower(name))
            ==> header_value(headers, name) == Some(headers[i].1),
        (forall|j: int|
            0 <= j < headers.len() ==> ascii_lower((#[trigger] headers[j]).0) != ascii_lower(name))
            ==> header_value(headers, name) is None,
    decreases headers.len(),
{
    if headers.len() > 0 {
        let rest = headers.skip(1);
        lemma_first_header_counts(rest, name, i - 1);
        if forall|j: int|
            0 <= j < headers.len() ==> ascii_lower((#[trigger] headers[j]).0) != ascii_lower(name) {
            assert(ascii_lower(headers[0].0) != ascii_lower(name));
            assert forall|j: int| 0 <= j < rest.len() implies ascii_lower((#[trigger] rest[j]).0)
                != ascii_lower(name) by {
                assert(rest[j] == headers[j + 1]);
            }
        }
        if 0 < i < headers.len() && (forall|j: int|
            0 <= j < i ==> ascii_lower((#[trigger] headers[j]).0) != ascii_lower(name)) {
            assert(ascii_lower(headers[0].0) != ascii_lower(name));
            assert(rest[i - 1] == headers[i]);
            assert forall|j: int| 0 <= j < i - 1 implies ascii_lower((#[trigger] rest[j]).0)
                != ascii_lower(name) by {
                assert(rest[j] == headers[j + 1]);
            }
        }
    }
}

/// The content type is the value of the first header that is called so in any case of
/// letters; headers of other names do not matter.
pub proof fn lemma_content_type_of_headers(
    before: Seq<(Seq<char>, Seq<char>)>,
    header: (Seq<char>, Seq<char>),
    after: Seq<(Seq<char>, Seq<char>)>,
)
    requires
        forall|j: int|
            0 <= j < before.len() ==> ascii_lower((#[trigger] before[j]).0) != "content-type"@,
    ensures
        content_type(before) is None,
        ascii_lower(header.0) == "content-type"@ ==> content_type(before + seq![header] + after)
            == Some(header.1),
        ascii_lower(header.0) != "content-type"@ ==> content_type(before + seq![header] + after)
            == content_type(after),
    decreases before.len(),
{
    reveal_strlit("content-type");
    let name = "content-type"@;
    assert(ascii_lower(name) =~= name);
    let all = before + seq![header] + after;
    if before.len() > 0 {
        let shorter = before.skip(1);
        assert(ascii_lower(before[0].0) != name);
        assert forall|j: int| 0 <= j < shorter.len() implies ascii_lower((#[trigger] shorter[j]).0)
            != name by {
            assert(shorter[j] == before[j + 1]);
        }
        lemma_content_type_of_headers(shorter, header, after);
        assert(all[0] == before[0]);
        assert(all.skip(1) =~= shorter + seq![header] + after);
    } else {
        assert(all[0] == header);
        assert(all.skip(1) =~= after);
    }
}

/// The value of the first `Content-Type` header.
pub fn content_type_of<'a>(headers: &'a [(String, String)]) -> (r: Option<&'a String>)
    ensures
        content_type(header_texts(headers@)) == (match r {
            Some(value) => Some(value@),
            None => None::<Seq<char>>,
        }),
{
    let ghost all = header_texts(headers@);
    let mut i: usize = 0;
    assert(all.skip(0) =~= all);
    while i < headers.len()
        invariant
            i <= headers@.len(),
            all == header_texts(headers@),
            content_type(all.skip(i as int)) == content_type(all),
        decreases headers@.len() - i,
    {
        assert(all.skip(i as int)[0] == all[i as int]);
        assert(all.skip(i as int).skip(1) =~= all.skip(i + 1));
        if equal_ignoring_case(headers[i].0.as_str(), "content-type") {
            return Some(&headers[i].1);
        }
        i += 1;
    }
    None
}

/// Headers as text are the names and values of the headers, in their order.
pub proof fn lemma_headers_as_text(headers: Seq<(String, String)>, i: int)
    requires
        0 <= i < headers.len(),
    ensures
        header_texts(headers).len() == headers.len(),
        header_texts(headers)[i] == (headers[i].0@, headers[i].1@),
{
}

/// A copy of a list of headers.
pub fn copy_headers(headers: &Vec<(String, String)>) -> (r: Vec<(String, String)>)
    ensures
        header_texts(r@) == header_texts(headers@),
{
    let mut out: Vec<(String, String)> = Vec::new();
    let mut i: usize = 0;
    while i < headers.len()
        invariant
            i <= headers@.len(),
            out@.len() == i,
            forall|j: int| 0 <= j < i ==> #[trigger] out@[j] == headers@[j],
        decreases headers@.len() - i,
    {
        out.push((headers[i].0.clone(), headers[i].1.clone()));
        i += 1;
    }
    assert(out@ =~= headers@);
    out
}

/// A copy of a list of strings.
pub fn copy_strings(strings: &Vec<String>) -> (r: Vec<String>)
    ensures
        r@ == strings@,
{
    let mut out: Vec<String> = Vec::new();
    let mut i: usize = 0;
    while i < strings.len()
        invariant
            i <= strings@.len(),
            out@.len() == i,
            forall|j: int| 0 <= j < i ==> #[trigger] out@[j] == strings@[j],
        decreases strings@.len() - i,
    {
        out.push(strings[i].clone());
        i += 1;
    }
    assert(out@ =~= strings@);
    out
}

/// What a server answered to a request.
pub struct Response {
    pub status: u16,
    pub status_text: String,
    pub headers: Vec<(String, String)>,
    pub body: String,
    pub elapsed_ms: u64,
}

/// A request of a request file.
pub struct ParsedRequest {
    pub method: String,
    pub url: String,
    pub headers: Vec<(String, String)>,
    pub body: Option<String>,
    /// The name under which the response can be referred to.
    pub name: Option<String>,
    /// A warning to confirm before the request is sent.
    pub note: Option<String>,
    /// The line of the request in its file, counted from 0.
    pub line: usize,
}

/// A request file: its requests in order, and the variables that it declares.
pub struct ParsedFile {
    pub requests: Vec<ParsedRequest>,
    pub variables: Table<String>,
}

/// The response of a named request, for later requests to refer to.
pub struct NamedResponse {
    pub headers: Vec<(String, String)>,
    pub body: String,
}

/// What a named response holds, as text.
pub struct StoredResponse {
    pub headers: Seq<(Seq<char>, Seq<char>)>,
    pub body: Seq<char>,
}

impl View for NamedResponse {
    type V = StoredResponse;

    open spec fn view(&self) -> StoredResponse {
        StoredResponse { headers: header_texts(self.headers@), body: self.body@ }
    }
}

impl Duplicate for NamedResponse {
    fn duplicate(&self) -> (r: Self) {
        NamedResponse { headers: copy_headers(&self.headers), body: self.body.clone() }
    }
}

/// The part of a response that is stored for later requests.
pub open spec fn stored(response: Response) -> StoredResponse {
    StoredResponse { headers: header_texts(response.headers@), body: response.body@ }
}

/// Stored of a response are its body and its headers in their order, whatever its status.
pub proof fn lemma_stored_keeps_headers_and_body(response: Response, i: int)
    requires
        0 <= i < response.headers@.len(),
    ensures
        stored(response).body == response.body@,
        stored(response).headers.len() == response.headers@.len(),
        stored(response).headers[i] == (response.headers@[i].0@, response.headers@[i].1@),
{
}

impl Response {
    /// The part of the response that is stored for later requests.
    pub fn to_named(&self) -> (r: NamedResponse)
        ensures
            r@ == stored(*self),
    {
        NamedResponse { headers: copy_headers(&self.headers), body: self.body.clone() }
    }
}

/// The values that `{{ }}` references stand for.
pub struct VariableContext {
    pub variables: Table<String>,
    pub named_responses: Table<NamedResponse>,
    pub allowed_env_vars: Vec<String>,
}

impl VariableContext {
    /// A context with these variables, without stored responses.
    pub fn new(variables: Table<String>) -> (r: Self)
        ensures
            r.variables == variables,
            r.named_responses@ == Map::<Seq<char>, StoredResponse>::empty(),
            r.allowed_env_vars@.len() == 0,
    {
        VariableContext {
            variables,
            named_responses: Table::new(),
            allowed_env_vars: Vec::new(),
        }
    }

    /// Stores the response of the request with this name, in place of an earlier one.
    pub fn store_response(&mut self, name: &str, response: NamedResponse)
        ensures
            final(self).named_responses@ == old(self).named_responses@.insert(name@, response@),
            final(self).variables == old(self).variables,
            final(self).allowed_env_vars == old(self).allowed_env_vars,
    {
        self.named_responses.insert(name.to_owned(), response);
    }
}

/// The settings of the server that the library works with.
pub struct RestClientSettings {
    pub active_environment: Option<String>,
    pub allowed_process_env_vars: Vec<String>,
}

impl Default for RestClientSettings {
    /// No active environment, and no process variable allowed.
    fn default() -> (r: Self)
        ensures
            r.active_environment is None,
            r.allowed_process_env_vars@.len() == 0,
    {
        RestClientSettings { active_environment: None, allowed_process_env_vars: Vec::new() }
    }
}

} // verus!
