use rest_client_lsp::formatter::{
    format_response, format_response_body, format_response_diagnostics, select_body,
};
use rest_client_lsp::model::Response;

#[test]
fn test_format_json_response() {
    let response = Response {
        status: 200,
        status_text: "OK".to_string(),
        headers: vec![("content-type".to_string(), "application/json".to_string())],
        body: r#"{"key":"value","num":42}"#.to_string(),
        elapsed_ms: 150,
    };

    let formatted = format_response(&response);
    assert!(formatted.contains("HTTP 200 OK"));
    assert!(formatted.contains("Time: 150ms"));
    assert!(formatted.contains("\"key\": \"value\""));
}

#[test]
fn test_format_plain_text() {
    let response = Response {
        status: 200,
        status_text: "OK".to_string(),
        headers: vec![("content-type".to_string(), "text/plain".to_string())],
        body: "Hello, World!".to_string(),
        elapsed_ms: 50,
    };

    let formatted = format_response(&response);
    assert!(formatted.contains("Hello, World!"));
}

fn headers(pairs: &[(&str, &str)]) -> Vec<(String, String)> {
    pairs
        .iter()
        .map(|(name, value)| (name.to_string(), value.to_string()))
        .collect()
}

#[test]
fn whole_response_has_status_time_headers_and_body() {
    let response = Response {
        status: 404,
        status_text: "Not Found".to_string(),
        headers: headers(&[("Server", "test"), ("X-Id", "7")]),
        body: "gone".to_string(),
        elapsed_ms: 0,
    };
    assert_eq!(
        format_response(&response),
        "HTTP 404 Not Found\nTime: 0ms\n\nServer: test\nX-Id: 7\n\ngone"
    );
    assert_eq!(
        format_response_diagnostics(&response),
        "HTTP 404 Not Found\nTime: 0ms\n\nServer: test\nX-Id: 7\n"
    );
}

#[test]
fn response_starts_with_its_diagnostics() {
    let response = Response {
        status: 200,
        status_text: "OK".to_string(),
        headers: headers(&[("Content-Type", "application/json")]),
        body: "[1]".to_string(),
        elapsed_ms: 12,
    };
    let diagnostics = format_response_diagnostics(&response);
    let body = format_response_body(&response.body, &response.headers);
    assert_eq!(format_response(&response), format!("{diagnostics}\n{body}"));
}

#[test]
fn json_body_is_indented() {
    let typed = headers(&[("CONTENT-TYPE", "application/json; charset=utf-8")]);
    assert_eq!(
        format_response_body("{\"b\":[1,2],\"a\":null}", &typed),
        "{\n  \"a\": null,\n  \"b\": [\n    1,\n    2\n  ]\n}"
    );
}

#[test]
fn body_that_is_no_json_stays() {
    let typed = headers(&[("content-type", "application/json")]);
    assert_eq!(format_response_body("{oops", &typed), "{oops");
}

#[test]
fn json_body_without_json_type_stays() {
    assert_eq!(format_response_body("{\"a\":1}", &headers(&[])), "{\"a\":1}");
    let plain = headers(&[("content-type", "text/plain")]);
    assert_eq!(format_response_body("{\"a\":1}", &plain), "{\"a\":1}");
}

#[test]
fn first_content_type_counts() {
    let both = headers(&[("content-type", "text/plain"), ("Content-Type", "application/json")]);
    assert_eq!(format_response_body("{\"a\":1}", &both), "{\"a\":1}");
}

#[test]
fn selected_body_follows_the_type() {
    let typed = headers(&[("content-type", "application/json")]);
    assert_eq!(select_body("raw", &typed, Some("pretty".to_string())), "pretty");
    assert_eq!(select_body("raw", &typed, None), "raw");
    assert_eq!(select_body("raw", &headers(&[]), Some("pretty".to_string())), "raw");
}

#[test]
fn formatting_twice_is_formatting_once() {
    let typed = headers(&[("content-type", "application/json")]);
    for body in [
        "{\"b\":[1,-2,{}],\"a\":\"x\\n\"}",
        "[]",
        "no json",
        "18446744073709551615",
        "[-9223372036854775808,-0,true,false]",
        "{\"1.5e3\":\"\\\"2.5\\\\\",\"\\u0041\":0}",
    ] {
        for kind in [&typed, &headers(&[])] {
            let once = format_response_body(body, kind);
            assert_eq!(format_response_body(&once, kind), once);
        }
    }
}
