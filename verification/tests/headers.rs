use http_server::fields::FieldMap;
use http_server::headers::is_end_of_headers;
use http_server::headers::is_keep_alive_value;
use http_server::headers::keep_alive_requested;
use http_server::headers::parse_header_line;
use http_server::headers::parse_headers;

fn pair(name: &str, value: &str) -> Option<(String, String)> {
    Some((name.to_string(), value.to_string()))
}

fn lines_of(lines: &[&str]) -> Vec<String> {
    lines.iter().map(|line| line.to_string()).collect()
}

fn connection(value: &str) -> FieldMap {
    let mut headers = FieldMap::new();
    headers.insert("Connection".to_string(), value.to_string());
    headers
}

#[test]
fn header_line_is_cut_at_colon_space() {
    assert_eq!(parse_header_line("Host: example.org\r\n"), pair("Host", "example.org"));
    assert_eq!(parse_header_line("Connection: keep-alive\r\n"), pair("Connection", "keep-alive"));
}

#[test]
fn header_line_is_trimmed_first() {
    assert_eq!(parse_header_line("  \tAccept: */*  \r\n"), pair("Accept", "*/*"));
}

#[test]
fn header_value_keeps_inner_separators() {
    assert_eq!(parse_header_line("A: b: c\r\n"), pair("A", "b: c"));
    assert_eq!(parse_header_line("X:  two spaces\r\n"), pair("X", " two spaces"));
    assert_eq!(parse_header_line("Time: 12:30\r\n"), pair("Time", "12:30"));
}

#[test]
fn header_name_may_be_empty() {
    assert_eq!(parse_header_line(": value\r\n"), pair("", "value"));
}

#[test]
fn header_line_without_separator_is_dropped() {
    assert_eq!(parse_header_line("NoSeparator\r\n"), None);
    assert_eq!(parse_header_line("Name:value\r\n"), None);
    assert_eq!(parse_header_line("Name:\r\n"), None);
    assert_eq!(parse_header_line("Name: \r\n"), None);
    assert_eq!(parse_header_line("\n"), None);
    assert_eq!(parse_header_line(":"), None);
    assert_eq!(parse_header_line(""), None);
}

#[test]
fn header_line_agrees_with_std() {
    let samples = [
        "Host: a\r\n",
        "  K: v  ",
        "a: b: c",
        "::  ",
        ": ",
        " : ",
        "x:: y",
        "caf\u{e9}: cr\u{e8}me\u{a0}\r\n",
        "\u{2003}Key: Value\u{2003}",
    ];
    for sample in samples {
        let expected =
            sample.trim().split_once(": ").map(|(name, value)| (name.to_string(), value.to_string()));
        assert_eq!(parse_header_line(sample), expected, "{:?}", sample);
    }
}

#[test]
fn end_of_headers_is_crlf_or_end_of_stream() {
    assert!(is_end_of_headers("\r\n"));
    assert!(is_end_of_headers(""));
    assert!(!is_end_of_headers("\n"));
    assert!(!is_end_of_headers(" \r\n"));
    assert!(!is_end_of_headers("Host: a\r\n"));
}

#[test]
fn headers_are_collected_up_to_the_blank_line() {
    let headers = parse_headers(&lines_of(&[
        "Host: example.org\r\n",
        "Connection: keep-alive\r\n",
        "\r\n",
        "Ignored: yes\r\n",
    ]));
    assert_eq!(headers.len(), 2);
    assert_eq!(headers.get("Host"), Some(&"example.org".to_string()));
    assert_eq!(headers.get("Connection"), Some(&"keep-alive".to_string()));
    assert!(!headers.contains_key("Ignored"));
}

#[test]
fn headers_end_with_the_stream() {
    let headers = parse_headers(&lines_of(&["A: 1\r\n", "B: 2"]));
    assert_eq!(headers.len(), 2);
    assert_eq!(headers.get("B"), Some(&"2".to_string()));
    let headers = parse_headers(&lines_of(&["A: 1\r\n", "", "B: 2\r\n"]));
    assert_eq!(headers.len(), 1);
    assert_eq!(headers.get("A"), Some(&"1".to_string()));
}

#[test]
fn no_header_lines_give_no_headers() {
    assert!(parse_headers(&Vec::new()).is_empty());
    assert!(parse_headers(&lines_of(&["\r\n"])).is_empty());
}

#[test]
fn malformed_header_lines_are_skipped() {
    let headers = parse_headers(&lines_of(&["garbage\r\n", "A: 1\r\n", "\n", "B:2\r\n", "\r\n"]));
    assert_eq!(headers.len(), 1);
    assert_eq!(headers.get("A"), Some(&"1".to_string()));
}

#[test]
fn later_header_replaces_earlier() {
    let headers = parse_headers(&lines_of(&["A: 1\r\n", "A: 2\r\n", "\r\n"]));
    assert_eq!(headers.len(), 1);
    assert_eq!(headers.get("A"), Some(&"2".to_string()));
}

#[test]
fn keep_alive_value_is_matched_after_lowercasing() {
    assert!(is_keep_alive_value("keep-alive"));
    assert!(!is_keep_alive_value("Keep-Alive"));
    assert!(!is_keep_alive_value("close"));
    assert!(!is_keep_alive_value(""));
    assert!(!is_keep_alive_value("keep-alive "));
}

#[test]
fn keep_alive_value_is_case_insensitive() {
    assert!(keep_alive_requested(&connection("keep-alive")));
    assert!(keep_alive_requested(&connection("Keep-Alive")));
    assert!(keep_alive_requested(&connection("KEEP-ALIVE")));
}

#[test]
fn other_connection_values_do_not_keep_alive() {
    assert!(!keep_alive_requested(&connection("close")));
    assert!(!keep_alive_requested(&connection("")));
    assert!(!keep_alive_requested(&connection("keep-alive, upgrade")));
    assert!(!keep_alive_requested(&connection("keepalive")));
}

#[test]
fn missing_connection_header_does_not_keep_alive() {
    assert!(!keep_alive_requested(&FieldMap::new()));
    let mut headers = FieldMap::new();
    headers.insert("Host".to_string(), "keep-alive".to_string());
    assert!(!keep_alive_requested(&headers));
}

#[test]
fn connection_header_name_is_case_sensitive() {
    let mut headers = FieldMap::new();
    headers.insert("connection".to_string(), "keep-alive".to_string());
    assert!(!keep_alive_requested(&headers));
}

#[test]
fn field_map_basics() {
    let mut fields = FieldMap::new();
    assert!(fields.is_empty());
    assert_eq!(fields.len(), 0);
    assert_eq!(fields.get("a"), None);
    fields.insert("a".to_string(), "1".to_string());
    fields.insert("b".to_string(), "2".to_string());
    assert_eq!(fields.len(), 2);
    assert!(fields.contains_key("a"));
    assert!(!fields.contains_key("c"));
    fields.insert("a".to_string(), "3".to_string());
    assert_eq!(fields.len(), 2);
    assert_eq!(fields.get("a"), Some(&"3".to_string()));
    assert!(!fields.is_empty());
}
