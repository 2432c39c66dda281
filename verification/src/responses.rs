//! Response files: what they are called, where they go and how they are opened.

use std::path::PathBuf;
use tower_lsp::lsp_types::Url;
use vstd::prelude::*;

use crate::text::{
    ascii_lower, before_first, byte_len, chars_of, ends_with_in, head_of, is_blank, is_clean,
    is_white_space, lemma_before_first, lemma_head_before_separator, lemma_lower_before_first,
    lemma_lower_trim, lemma_lower_twice, lemma_trim_blank, lemma_trim_padded, lowered, opt_text,
    opt_view, same_chars, same_text, trim, trimmed,
};
use crate::uris::{
    clear_url_fragment, clear_url_query, copy_url, file_path_of_url, file_path_url, join_path,
    keeps_tail, make_path, parent_of, path_fits, path_joined, path_of, path_of_url, path_parent,
    path_shown, path_stem, path_text, scheme_of_url, set_url_path, show_path, stem_of,
    text_of_path, text_of_url, url_file_path, url_of_file_path, url_path, url_scheme, url_text,
    url_with_path, url_without_fragment, url_without_query,
};

verus! {

/// The media type of a content type: what stands before the parameters, in lower case.
pub open spec fn media_type(content_type: Seq<char>) -> Seq<char> {
    ascii_lower(trim(before_first(content_type, ';')))
}

/// The file extension for a media type.
pub open spec fn media_extension(media: Seq<char>) -> Seq<char> {
    if media == "application/json"@ || media == "application/ld+json"@ || media
        == "application/problem+json"@ {
        "json"@
    } else if media == "application/xml"@ || media == "text/xml"@ {
        "xml"@
    } else if media == "text/html"@ {
        "html"@
    } else if media == "text/css"@ {
        "css"@
    } else if media == "text/csv"@ {
        "csv"@
    } else if media == "application/javascript"@ || media == "text/javascript"@ {
        "js"@
    } else if media == "application/typescript"@ || media == "text/typescript"@ {
        "ts"@
    } else if media == "application/sql"@ || media == "text/sql"@ {
        "sql"@
    } else if media == "application/x-yaml"@ || media == "text/yaml"@ || media
        == "text/x-yaml"@ {
        "yaml"@
    } else if media == "application/pdf"@ {
        "pdf"@
    } else if "+json"@.is_suffix_of(media) {
        "json"@
    } else if "+xml"@.is_suffix_of(media) {
        "xml"@
    } else {
        "txt"@
    }
}

/// The file extension for a content type; that of plain text where there is none.
pub open spec fn extension(content_type: Option<Seq<char>>) -> Seq<char> {
    match content_type {
        Some(value) => media_extension(media_type(value)),
        None => "txt"@,
    }
}

/// Parameters behind a semicolon do not change the extension.
pub proof fn lemma_parameters_ignored(content_type: Seq<char>, parameters: Seq<char>)
    ensures
        extension(Some(content_type + seq![';'] + parameters)) == extension(Some(content_type)),
{
    lemma_before_first(content_type, ';', parameters);
}

/// The case of letters does not change the extension.
pub proof fn lemma_case_ignored(content_type: Seq<char>)
    ensures
        extension(Some(ascii_lower(content_type))) == extension(Some(content_type)),
{
    let head = before_first(content_type, ';');
    lemma_lower_before_first(content_type, ';');
    lemma_lower_trim(head);
    lemma_lower_twice(trim(head));
}

/// White space around a content type does not change the extension.
pub proof fn lemma_padding_ignored(left: Seq<char>, content_type: Seq<char>, right: Seq<char>)
    requires
        is_blank(left),
        is_clean(content_type),
        is_blank(right),
        !content_type.contains(';'),
    ensures
        extension(Some(left + content_type + right)) == extension(Some(content_type)),
        extension(Some(left + content_type + right)) == media_extension(ascii_lower(content_type)),
{
    let padded = left + content_type + right;
    assert forall|j: int| 0 <= j < padded.len() implies padded[j] != ';' by {
        if j < left.len() {
            assert(is_white_space(left[j]));
            assert(padded[j] == left[j]);
        } else if j < left.len() + content_type.len() {
            assert(padded[j] == content_type[j - left.len()]);
            assert(content_type.contains(content_type[j - left.len()]));
        } else {
            assert(padded[j] == right[j - left.len() - content_type.len()]);
            assert(is_white_space(right[j - left.len() - content_type.len()]));
        }
    }
    let nothing = Seq::<char>::empty();
    lemma_head_before_separator(padded, ';', nothing);
    lemma_head_before_separator(content_type, ';', nothing);
    lemma_trim_padded(left, content_type, right);
    assert(nothing + content_type + nothing =~= content_type);
    lemma_trim_padded(nothing, content_type, nothing);
}

/// A content type of white space alone, in front of parameters or not, has the extension of
/// plain text.
pub proof fn lemma_blank_type_is_text(blank: Seq<char>, parameters: Seq<char>)
    requires
        is_blank(blank),
    ensures
        extension(Some(blank)) == "txt"@,
        extension(Some(blank + seq![';'] + parameters)) == "txt"@,
{
    assert forall|j: int| 0 <= j < blank.len() implies blank[j] != ';' by {
        assert(is_white_space(blank[j]));
    }
    lemma_head_before_separator(blank, ';', parameters);
    lemma_trim_blank(blank);
    lemma_media_ends();
    lemma_known_media_types(media_type(blank));
    reveal_strlit("text/css");
    reveal_strlit("text/csv");
    reveal_strlit("application/javascript");
    reveal_strlit("text/javascript");
    reveal_strlit("application/typescript");
    reveal_strlit("text/typescript");
    reveal_strlit("application/pdf");
    reveal_strlit("+json");
    reveal_strlit("+xml");
}

/// A media type that ends in `+json` or `+xml` has the extension of JSON or XML, whatever
/// stands in front.
pub proof fn lemma_suffix_decides(front: Seq<char>)
    ensures
        media_extension(front + "+json"@) == "json"@,
        media_extension(front + "+xml"@) == "xml"@,
{
    lemma_media_ends();
    let json = front + "+json"@;
    let xml = front + "+xml"@;
    reveal_strlit("+json");
    reveal_strlit("+xml");
    assert(json.subrange(json.len() - 5, json.len() as int) =~= "+json"@);
    assert(xml.subrange(xml.len() - 4, xml.len() as int) =~= "+xml"@);
    assert(json.last() == 'n' && json[json.len() - 5] == '+' && json[json.len() - 4] == 'j');
    assert(xml.last() == 'l' && xml[xml.len() - 4] == '+' && xml[xml.len() - 3] == 'x');
    if "+json"@.is_suffix_of(xml) {
        assert(xml.subrange(xml.len() - 5, xml.len() as int)[4] == xml.last());
    }
}

/// How the media types with an extension of their own end.
proof fn lemma_media_ends()
    ensures
        "application/json"@.last() == 'n' && "application/json"@[11] == '/',
        "application/json"@.len() == 16,
        "application/xml"@.len() == 15 && "application/xml"@[11] == '/',
        "text/xml"@.len() == 8 && "text/xml"@[4] == '/',
        "text/html"@.len() == 9 && "text/html"@[5] == 'h',
        "text/css"@.last() == 's' && "text/csv"@.last() == 'v',
        "application/javascript"@.last() == 't' && "text/javascript"@.last() == 't',
        "application/typescript"@.last() == 't' && "text/typescript"@.last() == 't',
        "application/sql"@.len() == 15 && "application/sql"@[11] == '/',
        "text/sql"@.len() == 8 && "text/sql"@[4] == '/',
        "application/x-yaml"@.len() == 18 && "application/x-yaml"@[14] == 'y',
        "text/yaml"@.len() == 9 && "text/yaml"@[5] == 'y',
        "text/x-yaml"@.len() == 11 && "text/x-yaml"@[7] == 'y',
        "application/pdf"@.last() == 'f',
        "application/ld+json"@.last() == 'n',
        "application/problem+json"@.last() == 'n',
{
    reveal_strlit("application/json");
    reveal_strlit("application/xml");
    reveal_strlit("text/xml");
    reveal_strlit("text/html");
    reveal_strlit("text/css");
    reveal_strlit("text/csv");
    reveal_strlit("application/javascript");
    reveal_strlit("text/javascript");
    reveal_strlit("application/typescript");
    reveal_strlit("text/typescript");
    reveal_strlit("application/sql");
    reveal_strlit("text/sql");
    reveal_strlit("application/x-yaml");
    reveal_strlit("text/yaml");
    reveal_strlit("text/x-yaml");
    reveal_strlit("application/pdf");
    reveal_strlit("application/ld+json");
    reveal_strlit("application/problem+json");
}

/// Each of the media types that has an extension of its own has that one, and every other, but
/// for those that end in `+json` or `+xml`, has that of plain text.
pub proof fn lemma_known_media_types(media: Seq<char>)
    ensures
        media_extension("application/json"@) == "json"@,
        media_extension("application/xml"@) == "xml"@ && media_extension("text/xml"@) == "xml"@,
        media_extension("text/html"@) == "html"@,
        media_extension("text/css"@) == "css"@,
        media_extension("text/csv"@) == "csv"@,
        media_extension("application/javascript"@) == "js"@ && media_extension("text/javascript"@)
            == "js"@,
        media_extension("application/typescript"@) == "ts"@ && media_extension("text/typescript"@)
            == "ts"@,
        media_extension("application/sql"@) == "sql"@ && media_extension("text/sql"@) == "sql"@,
        media_extension("application/x-yaml"@) == "yaml"@ && media_extension("text/yaml"@)
            == "yaml"@ && media_extension("text/x-yaml"@) == "yaml"@,
        media_extension("application/pdf"@) == "pdf"@,
        media != "application/json"@ && media != "application/xml"@ && media != "text/xml"@ && media
            != "text/html"@ && media != "text/css"@ && media != "text/csv"@ && media
            != "application/javascript"@ && media != "text/javascript"@ && media
            != "application/typescript"@ && media != "text/typescript"@ && media
            != "application/sql"@ && media != "text/sql"@ && media != "application/x-yaml"@ && media
            != "text/yaml"@ && media != "text/x-yaml"@ && media != "application/pdf"@
            && !"+json"@.is_suffix_of(media) && !"+xml"@.is_suffix_of(media) ==> media_extension(
            media,
        ) == "txt"@,
        extension(None) == "txt"@,
{
    lemma_media_ends();
    reveal_strlit("application/json");
    reveal_strlit("application/xml");
    reveal_strlit("text/xml");
    reveal_strlit("text/html");
    reveal_strlit("text/css");
    reveal_strlit("text/csv");
    reveal_strlit("application/javascript");
    reveal_strlit("text/javascript");
    reveal_strlit("application/typescript");
    reveal_strlit("text/typescript");
    reveal_strlit("application/sql");
    reveal_strlit("text/sql");
    reveal_strlit("application/x-yaml");
    reveal_strlit("text/yaml");
    reveal_strlit("text/x-yaml");
    reveal_strlit("application/pdf");
    reveal_strlit("application/ld+json");
    reveal_strlit("application/problem+json");
    reveal_strlit("+json");
    assert("application/ld+json"@.subrange(14, 19) =~= "+json"@);
    assert("application/problem+json"@.subrange(19, 24) =~= "+json"@);
    assert("application/sql"@[12] == 's' && "application/xml"@[12] == 'x' && "application/pdf"@[12]
        == 'p');
    assert("text/sql"@[5] == 's' && "text/xml"@[5] == 'x' && "text/css"@[5] == 'c');
    assert("text/html"@[5] == 'h' && "text/yaml"@[5] == 'y');
    assert("application/javascript"@[12] == 'j' && "application/typescript"@[12] == 't');
    assert("text/javascript"@[5] == 'j' && "text/typescript"@[5] == 't');
}

/// A response file is named after its request file, and after nothing but `response` where
/// that has no name; the extension is that of the content type.
pub proof fn lemma_response_is_named_after_its_request(
    stem: Seq<char>,
    content_type: Option<Seq<char>>,
)
    ensures
        stem.len() > 0 ==> response_name(Some(stem), content_type) == stem + ".response."@
            + extension(content_type),
        stem.len() == 0 ==> response_name(Some(stem), content_type) == "response.response."@
            + extension(content_type),
        response_name(None, content_type) == "response.response."@ + extension(content_type),
{
    reveal_strlit("response");
    reveal_strlit(".response.");
    reveal_strlit("response.response.");
    assert("response"@ + ".response."@ =~= "response.response."@);
}

/// Whether the media type is the given one.
fn is_media(media: &[char], name: &str) -> (r: bool)
    ensures
        r == (media@ == name@),
{
    same_chars(media, chars_of(name).as_slice())
}

/// The file extension for a content type.
pub fn content_type_to_extension(content_type: Option<&str>) -> (r: &'static str)
    ensures
        r@ == extension(opt_view(content_type)),
{
    let value = match content_type {
        Some(value) => value,
        None => return "txt",
    };
    let chars = chars_of(value);
    let lower = lowered(trimmed(head_of(chars.as_slice(), ';')));
    let media = lower.as_slice();
    if is_media(media, "application/json") || is_media(media, "application/ld+json") || is_media(
        media,
        "application/problem+json",
    ) {
        "json"
    } else if is_media(media, "application/xml") || is_media(media, "text/xml") {
        "xml"
    } else if is_media(media, "text/html") {
        "html"
    } else if is_media(media, "text/css") {
        "css"
    } else if is_media(media, "text/csv") {
        "csv"
    } else if is_media(media, "application/javascript") || is_media(media, "text/javascript") {
        "js"
    } else if is_media(media, "application/typescript") || is_media(media, "text/typescript") {
        "ts"
    } else if is_media(media, "application/sql") || is_media(media, "text/sql") {
        "sql"
    } else if is_media(media, "application/x-yaml") || is_media(media, "text/yaml") || is_media(
        media,
        "text/x-yaml",
    ) {
        "yaml"
    } else if is_media(media, "application/pdf") {
        "pdf"
    } else if ends_with_in(media, chars_of("+json").as_slice()) {
        "json"
    } else if ends_with_in(media, chars_of("+xml").as_slice()) {
        "xml"
    } else {
        "txt"
    }
}

/// The name of the response file for a request file with this stem.
pub open spec fn response_name(stem: Option<Seq<char>>, content_type: Option<Seq<char>>) -> Seq<
    char,
> {
    (match stem {
        Some(text) => if text.len() > 0 {
            text
        } else {
            "response"@
        },
        None => "response"@,
    }) + ".response."@ + extension(content_type)
}

/// The name of the response file for a request file with this stem.
pub fn response_file_name(stem: Option<&str>, content_type: Option<&str>) -> (r: String)
    ensures
        r@ == response_name(opt_view(stem), opt_view(content_type)),
{
    let mut name: String = match stem {
        Some(text) => if text.is_empty() {
            "response".to_owned()
        } else {
            text.to_owned()
        },
        None => "response".to_owned(),
    };
    name.append(".response.");
    name.append(content_type_to_extension(content_type));
    name
}

/// Where a response is written: a directory, and the name of the file in it.
pub struct ResponseFile {
    pub directory: PathBuf,
    pub name: String,
}

/// What `path` is taken for the path of a request file: that for which its address stands,
/// where it stands for one, or else the path of the address itself.
pub open spec fn is_source_path(path: PathBuf, uri: Url, file_path: Option<PathBuf>) -> bool {
    match file_path {
        Some(known) => path == known,
        None => url_path(uri).len() > 0 && path == path_of(url_path(uri)),
    }
}

/// The error that an address has no path.
pub open spec fn no_path_text(uri: Url) -> Seq<char> {
    "convert source URI to file path: "@ + url_text(uri)
}

/// The error that a path has no directory.
pub open spec fn no_directory_text(path: PathBuf) -> Seq<char> {
    "determine parent directory for "@ + path_shown(path)
}

/// The path of a request file, given that for which its address stands; an error where it
/// stands for none and its own path is empty.
pub fn source_path(uri: &Url, file_path: Option<PathBuf>) -> (r: Result<PathBuf, String>)
    ensures
        match r {
            Ok(path) => is_source_path(path, *uri, file_path),
            Err(error) => file_path is None && url_path(*uri).len() == 0 && error@
                == no_path_text(*uri),
        },
{
    match file_path {
        Some(path) => Ok(path),
        None => {
            let uri_path = path_of_url(uri);
            if uri_path.is_empty() {
                let mut message: String = "convert source URI to file path: ".to_owned();
                message.append(text_of_url(uri));
                Err(message)
            } else {
                Ok(make_path(uri_path))
            }
        },
    }
}

/// What comes of placing the response to a request in the file `source`, whose directory
/// and stem are these: a file in that directory, or an error where there is none.
pub open spec fn is_placed(
    placed: Result<ResponseFile, String>,
    source: PathBuf,
    directory: Option<PathBuf>,
    stem: Option<Seq<char>>,
    content_type: Option<Seq<char>>,
) -> bool {
    match directory {
        Some(parent) => {
            &&& placed is Ok
            &&& placed->Ok_0.directory == parent
            &&& placed->Ok_0.name@ == response_name(stem, content_type)
        },
        None => placed is Err && placed->Err_0@ == no_directory_text(source),
    }
}

/// The response file for a request file, given the directory and the stem of its path; an
/// error where it has no directory.
pub fn response_file(
    source: &PathBuf,
    directory: Option<PathBuf>,
    stem: Option<String>,
    content_type: Option<&str>,
) -> (r: Result<ResponseFile, String>)
    ensures
        is_placed(r, *source, directory, opt_text(stem), opt_view(content_type)),
{
    match directory {
        Some(parent) => {
            let name = match &stem {
                Some(text) => response_file_name(Some(text.as_str()), content_type),
                None => response_file_name(None, content_type),
            };
            Ok(ResponseFile { directory: parent, name })
        },
        None => {
            let mut message: String = "determine parent directory for ".to_owned();
            message.append(show_path(source).as_str());
            Err(message)
        },
    }
}

/// The path that is taken for that of a document with this address: that for which the
/// address stands, or else the path of the address itself.
pub open spec fn document_path(uri: Url) -> PathBuf {
    match url_file_path(uri) {
        Some(path) => path,
        None => path_of(url_path(uri)),
    }
}

/// The path of the response to a request of the document: in the directory of the document,
/// under the stem of the document. `None` where the document has no directory.
pub open spec fn response_path(uri: Url, content_type: Option<Seq<char>>) -> Option<PathBuf> {
    match path_parent(document_path(uri)) {
        Some(directory) => Some(
            path_joined(
                directory,
                response_name(path_stem(document_path(uri)), content_type),
            ),
        ),
        None => None,
    }
}

/// The response to a request of a document goes into the directory of the document, under the
/// stem of the document. Where the address of the document stands for a file, that file counts,
/// and otherwise the path of the address; only the extension depends on the content type.
pub proof fn lemma_response_goes_next_to_its_document(
    uri: Url,
    source: PathBuf,
    directory: PathBuf,
    stem: Seq<char>,
    content_type: Option<Seq<char>>,
)
    requires
        url_file_path(uri) == Some(source) || (url_file_path(uri) is None && source == path_of(
            url_path(uri),
        )),
    ensures
        path_parent(source) == Some(directory) && path_stem(source) == Some(stem) && stem.len() > 0
            ==> response_path(uri, content_type) == Some(
            path_joined(directory, stem + ".response."@ + extension(content_type)),
        ),
        path_parent(source) == Some(directory) && path_stem(source) is None ==> response_path(
            uri,
            content_type,
        ) == Some(path_joined(directory, "response.response."@ + extension(content_type))),
        path_parent(source) is None ==> response_path(uri, content_type) is None,
{
    lemma_response_is_named_after_its_request(stem, content_type);
}

/// An extension has no separator in it.
proof fn lemma_extension_is_plain(content_type: Option<Seq<char>>)
    ensures
        (".response."@ + extension(content_type)).len() > 2,
        !(".response."@ + extension(content_type)).contains('/'),
        !(".response."@ + extension(content_type)).contains('\\'),
{
    reveal_strlit(".response.");
    reveal_strlit("json");
    reveal_strlit("xml");
    reveal_strlit("html");
    reveal_strlit("css");
    reveal_strlit("csv");
    reveal_strlit("js");
    reveal_strlit("ts");
    reveal_strlit("sql");
    reveal_strlit("yaml");
    reveal_strlit("pdf");
    reveal_strlit("txt");
}

/// The path to which the response to a request of the document is written: next to the
/// document, and with the extension of the content type at its end. An error where the
/// address of the document has no path, or the path no directory.
pub fn response_output_path(source_uri: &Url, request_content_type: Option<&str>) -> (r: Result<
    PathBuf,
    String,
>)
    ensures
        url_path(*source_uri).len() == 0 ==> r is Err && r->Err_0@ == no_path_text(*source_uri),
        url_path(*source_uri).len() > 0 ==> (match response_path(
            *source_uri,
            opt_view(request_content_type),
        ) {
            Some(path) => r == Ok::<PathBuf, String>(path),
            None => r is Err && r->Err_0@ == no_directory_text(document_path(*source_uri)),
        }),
        r matches Ok(path) ==> (".response."@ + extension(
            opt_view(request_content_type),
        )).is_suffix_of(path_text(path)),
{
    let source = match source_path(source_uri, file_path_of_url(source_uri)) {
        Ok(path) => path,
        Err(error) => return Err(error),
    };
    let directory = parent_of(&source);
    let stem = stem_of(&source);
    let file = match response_file(&source, directory, stem, request_content_type) {
        Ok(file) => file,
        Err(error) => return Err(error),
    };
    let path = join_path(&file.directory, file.name.as_str());
    proof {
        let tail = ".response."@ + extension(opt_view(request_content_type));
        let name = file.name@;
        lemma_extension_is_plain(opt_view(request_content_type));
        assert(name.subrange(name.len() - tail.len(), name.len() as int) =~= tail);
        assert(keeps_tail(path_text(path), name, tail));
    }
    Ok(path)
}

/// The path with forward slashes, and one in front.
pub open spec fn slashed(path: Seq<char>) -> Seq<char> {
    let forward = path.map_values(
        |c: char|
            if c == '\\' {
                '/'
            } else {
                c
            },
    );
    if forward.len() > 0 && forward[0] == '/' {
        forward
    } else {
        seq!['/'] + forward
    }
}

/// A path with slashes starts with one and has no backslash; it is the path itself where that
/// is so already, and otherwise differs from it only in a slash in front and in slashes for
/// backslashes.
pub proof fn lemma_slashes_replace_backslashes(path: Seq<char>, i: int)
    ensures
        slashed(path).len() > 0 && slashed(path)[0] == '/',
        !slashed(path).contains('\\'),
        path.len() > 0 && path[0] == '/' && !path.contains('\\') ==> slashed(path) == path,
        path.len() > 0 && (path[0] == '/' || path[0] == '\\') ==> slashed(path).len() == path.len()
            && (0 <= i < path.len() ==> slashed(path)[i] == (if path[i] == '\\' {
            '/'
        } else {
            path[i]
        })),
        path.len() == 0 || (path[0] != '/' && path[0] != '\\') ==> slashed(path).len()
            == path.len() + 1 && (0 <= i < path.len() ==> slashed(path)[i + 1] == (if path[i]
            == '\\' {
            '/'
        } else {
            path[i]
        })),
{
    if path.len() > 0 && path[0] == '/' && !path.contains('\\') {
        assert forall|j: int| 0 <= j < path.len() implies slashed(path)[j] == path[j] by {
            assert(path.contains(path[j]));
        }
        assert(slashed(path) =~= path);
    }
}

/// The path with forward slashes, and one in front.
fn with_slashes(path: &str) -> (r: String)
    ensures
        r@ == slashed(path@),
{
    let chars = chars_of(path);
    let mut out: String = String::new();
    if chars.len() == 0 || (chars[0] != '/' && chars[0] != '\\') {
        out.push('/');
    }
    let ghost front = out@;
    let ghost forward = path@.map_values(
        |c: char|
            if c == '\\' {
                '/'
            } else {
                c
            },
    );
    let mut i: usize = 0;
    assert(front + forward.take(0) =~= front);
    while i < chars.len()
        invariant
            i <= chars@.len(),
            chars@ == path@,
            forward.len() == path@.len(),
            forall|j: int|
                0 <= j < path@.len() ==> #[trigger] forward[j] == (if path@[j] == '\\' {
                    '/'
                } else {
                    path@[j]
                }),
            out@ == front + forward.take(i as int),
        decreases chars@.len() - i,
    {
        if chars[i] == '\\' {
            out.push('/');
        } else {
            out.push(chars[i]);
        }
        assert(front + forward.take(i + 1) =~= (front + forward.take(i as int)).push(
            forward[i as int],
        ));
        i += 1;
    }
    assert(forward.take(forward.len() as int) =~= forward);
    assert(out@ =~= slashed(path@));
    out
}

/// The address of a document that is a file of the platform.
pub open spec fn is_file_uri(uri: Url) -> bool {
    url_scheme(uri) == "file"@
}

/// The address of a response next to a document that is no file of the platform: that of
/// the document with the path of the response, without query and fragment.
pub open spec fn sibling_uri(source: Url, response_path: PathBuf) -> Url {
    url_without_fragment(
        url_without_query(url_with_path(source, slashed(path_text(response_path)))),
    )
}

/// A response to a document that is no file of the platform is opened under the address of
/// the document with the path of the response in place of its own, and with neither query nor
/// fragment; one to a document that is a file, under the address of its own path.
pub proof fn lemma_response_is_opened_under_its_path(
    opened: Result<Url, String>,
    source: Url,
    response_path: PathBuf,
    uri: Url,
)
    requires
        is_opened_under(opened, source, response_path),
    ensures
        url_scheme(source) != "file"@ ==> opened == Ok::<Url, String>(
            url_without_fragment(
                url_without_query(url_with_path(source, slashed(path_text(response_path)))),
            ),
        ),
        url_scheme(source) == "file"@ && file_path_url(response_path) == Some(uri) ==> opened
            == Ok::<Url, String>(uri),
        url_scheme(source) == "file"@ && file_path_url(response_path) is None ==> opened is Err
            && opened->Err_0@ == "convert response path to URI: "@ + path_shown(response_path),
{
}

/// The error that a path has no address.
pub open spec fn no_address_text(path: PathBuf) -> Seq<char> {
    "convert response path to URI: "@ + path_shown(path)
}

/// The address of a response file, given that of its path; an error where that has none.
pub fn file_uri_or_error(response_path: &PathBuf, uri: Option<Url>) -> (r: Result<Url, String>)
    ensures
        match uri {
            Some(uri) => r == Ok::<Url, String>(uri),
            None => r is Err && r->Err_0@ == no_address_text(*response_path),
        },
{
    match uri {
        Some(uri) => Ok(uri),
        None => {
            let mut message: String = "convert response path to URI: ".to_owned();
            message.append(show_path(response_path).as_str());
            Err(message)
        },
    }
}

/// What comes of opening a response file: the address of the file for a document with a
/// `file` address, or an error where the file has none, and an address next to the document
/// for any other.
pub open spec fn is_opened_under(
    opened: Result<Url, String>,
    source: Url,
    response_path: PathBuf,
) -> bool {
    if is_file_uri(source) {
        match file_path_url(response_path) {
            Some(uri) => opened == Ok::<Url, String>(uri),
            None => opened is Err && opened->Err_0@ == no_address_text(response_path),
        }
    } else {
        opened == Ok::<Url, String>(sibling_uri(source, response_path))
    }
}

/// The address under which a response file is opened. For a document with a `file` address
/// it is that of the file, or an error where the file has none; otherwise it is that of the
/// document with another path. Its scheme is that of the document.
pub fn response_open_uri(source_uri: &Url, response_path: &PathBuf) -> (r: Result<Url, String>)
    requires
        !is_file_uri(*source_uri) ==> path_fits(*source_uri, slashed(path_text(*response_path))),
    ensures
        is_opened_under(r, *source_uri, *response_path),
        r matches Ok(uri) ==> url_scheme(uri) == url_scheme(*source_uri),
{
    if same_text(scheme_of_url(source_uri), "file") {
        return file_uri_or_error(response_path, url_of_file_path(response_path));
    }
    let mut uri = copy_url(source_uri);
    let text = text_of_path(response_path);
    let path = with_slashes(text.as_str());
    set_url_path(&mut uri, path.as_str());
    clear_url_query(&mut uri);
    clear_url_fragment(&mut uri);
    Ok(uri)
}

/// The address under which a response file is opened; `None` where it would be longer than
/// an address can be.
pub fn checked_response_open_uri(source_uri: &Url, response_path: &PathBuf) -> (r: Option<
    Result<Url, String>,
>)
    ensures
        r is Some <==> is_file_uri(*source_uri) || path_fits(
            *source_uri,
            slashed(path_text(*response_path)),
        ),
        r matches Some(result) ==> is_opened_under(result, *source_uri, *response_path),
        r matches Some(Ok(uri)) ==> url_scheme(uri) == url_scheme(*source_uri),
{
    if !same_text(scheme_of_url(source_uri), "file") {
        let text = text_of_path(response_path);
        let path = with_slashes(text.as_str());
        let width: usize = path.as_str().as_bytes().len();
        let length: usize = text_of_url(source_uri).as_bytes().len();
        assert(width == byte_len(path@));
        assert(length == byte_len(url_text(*source_uri)));
        if width > 1_431_655_759 || length > 4_294_967_279 - 3 * width {
            return None;
        }
    }
    Some(response_open_uri(source_uri, response_path))
}

} // verus!
