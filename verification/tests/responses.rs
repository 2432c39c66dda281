use std::path::PathBuf;

use rest_client_lsp::responses::{
    checked_response_open_uri, content_type_to_extension, file_uri_or_error, response_file,
    response_file_name, response_open_uri, response_output_path, source_path,
};
use tower_lsp::lsp_types::Url;

fn url(text: &str) -> Url {
    Url::parse(text).unwrap()
}

#[test]
fn media_types_have_extensions() {
    for (media, extension) in [
        ("application/json", "json"),
        ("application/ld+json", "json"),
        ("application/problem+json", "json"),
        ("application/xml", "xml"),
        ("text/xml", "xml"),
        ("text/html", "html"),
        ("text/css", "css"),
        ("text/csv", "csv"),
        ("text/plain", "txt"),
        ("application/x-www-form-urlencoded", "txt"),
        ("application/javascript", "js"),
        ("text/javascript", "js"),
        ("application/typescript", "ts"),
        ("text/typescript", "ts"),
        ("application/sql", "sql"),
        ("text/sql", "sql"),
        ("application/x-yaml", "yaml"),
        ("text/yaml", "yaml"),
        ("text/x-yaml", "yaml"),
        ("application/pdf", "pdf"),
        ("application/vnd.api+json", "json"),
        ("image/svg+xml", "xml"),
        ("text/anything", "txt"),
        ("image/png", "txt"),
        ("", "txt"),
    ] {
        assert_eq!(content_type_to_extension(Some(media)), extension, "{media}");
    }
    assert_eq!(content_type_to_extension(None), "txt");
}

#[test]
fn parameters_case_and_spaces_are_ignored() {
    assert_eq!(content_type_to_extension(Some("  Text/HTML ; charset=utf-8")), "html");
    assert_eq!(content_type_to_extension(Some("TEXT/CSS")), "css");
    assert_eq!(content_type_to_extension(Some("text/css;a;b")), "css");
}

#[test]
fn response_files_are_named_after_the_request_file() {
    assert_eq!(response_file_name(Some("api"), Some("text/css")), "api.response.css");
    assert_eq!(response_file_name(Some(""), None), "response.response.txt");
    assert_eq!(response_file_name(None, Some("application/json")), "response.response.json");
}

#[test]
fn a_response_goes_next_to_its_request_file() {
    let path = response_output_path(&url("file:///work/my%20api.http"), Some("application/json"));
    assert_eq!(path, Ok(PathBuf::from("/work/my api.response.json")));
    let odd = response_output_path(&url("file:///a%5Cb:c.http"), Some("text/css"));
    assert_eq!(odd, Ok(PathBuf::from("/a\\b:c.response.css")));
}

#[test]
fn an_address_that_is_no_file_has_a_path_too() {
    let path = response_output_path(&url("https://example.com/dir/a.http?x#y"), None);
    assert_eq!(path, Ok(PathBuf::from("/dir/a.response.txt")));
    let relative = response_output_path(&url("untitled:Untitled-1"), None);
    assert_eq!(relative, Ok(PathBuf::from("Untitled-1.response.txt")));
}

#[test]
fn an_address_without_path_is_refused() {
    assert_eq!(
        response_output_path(&url("untitled:"), None).err().unwrap(),
        "convert source URI to file path: untitled:"
    );
}

#[test]
fn a_path_without_directory_is_refused() {
    assert_eq!(
        response_output_path(&url("file:///"), None).err().unwrap(),
        "determine parent directory for /"
    );
}

#[test]
fn the_source_path_prefers_the_file() {
    let uri = url("https://example.com/dir/a.http");
    let given = source_path(&uri, Some(PathBuf::from("/given")));
    assert_eq!(given, Ok(PathBuf::from("/given")));
    assert_eq!(source_path(&uri, None), Ok(PathBuf::from("/dir/a.http")));
}

#[test]
fn the_directory_and_the_stem_decide() {
    let source = PathBuf::from("/a/b.http");
    let file = response_file(&source, Some(PathBuf::from("/c")), Some("d".to_string()), None);
    let file = file.ok().unwrap();
    assert_eq!(file.directory, PathBuf::from("/c"));
    assert_eq!(file.name, "d.response.txt");
    assert_eq!(
        response_file(&source, None, None, None).err().unwrap(),
        "determine parent directory for /a/b.http"
    );
}

#[test]
fn a_file_is_opened_by_its_path() {
    let opened = response_open_uri(&url("file:///work/a.http"), &PathBuf::from("/work/a b.json"));
    assert_eq!(opened, Ok(url("file:///work/a%20b.json")));
}

#[test]
fn a_relative_path_has_no_file_address() {
    let path = PathBuf::from("b.json");
    assert_eq!(
        response_open_uri(&url("file:///work/a.http"), &path),
        Err("convert response path to URI: b.json".to_string())
    );
    assert_eq!(
        file_uri_or_error(&path, None),
        Err("convert response path to URI: b.json".to_string())
    );
    assert_eq!(file_uri_or_error(&path, Some(url("file:///x"))), Ok(url("file:///x")));
}

#[test]
fn another_address_keeps_all_but_its_path() {
    let source = url("vscode-remote://host/dir/a.http?x=1#f");
    let opened = response_open_uri(&source, &PathBuf::from("/dir/a.response.json"));
    assert_eq!(opened, Ok(url("vscode-remote://host/dir/a.response.json")));
    let relative = response_open_uri(&source, &PathBuf::from("dir\\b.json"));
    assert_eq!(relative, Ok(url("vscode-remote://host/dir/b.json")));
    let checked = checked_response_open_uri(&source, &PathBuf::from("/c.json"));
    assert_eq!(checked, Some(Ok(url("vscode-remote://host/c.json"))));
    let file = checked_response_open_uri(&url("file:///a.http"), &PathBuf::from("/c.json"));
    assert_eq!(file, Some(Ok(url("file:///c.json"))));
}

#[test]
fn the_scheme_of_the_document_stays() {
    for source in ["file:///a/b.http", "vscode-remote://host/a/b.http?q", "untitled:Untitled-1"] {
        let opened = response_open_uri(&url(source), &PathBuf::from("/c.json")).unwrap();
        assert_eq!(opened.scheme(), url(source).scheme());
    }
}

#[test]
fn the_source_path_needs_text() {
    let uri = url("untitled:");
    assert_eq!(
        source_path(&uri, None),
        Err("convert source URI to file path: untitled:".to_string())
    );
    assert_eq!(source_path(&uri, Some(PathBuf::from("/x"))), Ok(PathBuf::from("/x")));
}
