use http_server::fields::FieldMap;
use http_server::request::parse_request_line;
use http_server::request::Method;
use http_server::request::ParsedRequest;
use http_server::request::Rejection;
use http_server::request::RequestLine;

fn line_of(method: &str, target: &str, version: &str) -> RequestLine {
    RequestLine {
        method: method.to_string(),
        target: target.to_string(),
        version: version.to_string(),
    }
}

#[test]
fn request_line_with_three_tokens_is_parsed() {
    let parsed = parse_request_line("GET /index.html HTTP/1.1\r\n");
    assert_eq!(parsed, Ok(line_of("GET", "/index.html", "HTTP/1.1")));
}

#[test]
fn request_line_tolerates_extra_whitespace() {
    let parsed = parse_request_line("  POST \t /submit?x=1   HTTP/1.1 \r\n");
    assert_eq!(parsed, Ok(line_of("POST", "/submit?x=1", "HTTP/1.1")));
}

#[test]
fn request_line_with_two_tokens_is_malformed() {
    assert_eq!(parse_request_line("GET /"), Err(Rejection::MalformedRequestLine));
    assert_eq!(parse_request_line("GET /\r\n"), Err(Rejection::MalformedRequestLine));
}

#[test]
fn request_line_with_four_tokens_is_malformed() {
    assert_eq!(
        parse_request_line("GET / HTTP/1.1 extra\r\n"),
        Err(Rejection::MalformedRequestLine)
    );
}

#[test]
fn blank_request_line_is_malformed() {
    assert_eq!(parse_request_line("\r\n"), Err(Rejection::MalformedRequestLine));
    assert_eq!(parse_request_line(""), Err(Rejection::MalformedRequestLine));
    assert_eq!(parse_request_line("   "), Err(Rejection::MalformedRequestLine));
}

#[test]
fn other_versions_are_not_supported() {
    assert_eq!(parse_request_line("GET / HTTP/1.0"), Err(Rejection::UnsupportedVersion));
    assert_eq!(parse_request_line("GET / HTTP/2\r\n"), Err(Rejection::UnsupportedVersion));
    assert_eq!(parse_request_line("GET / http/1.1\r\n"), Err(Rejection::UnsupportedVersion));
    assert_eq!(parse_request_line("GET / HTTP/1.11\r\n"), Err(Rejection::UnsupportedVersion));
}

#[test]
fn malformed_wins_over_version() {
    assert_eq!(parse_request_line("GET HTTP/1.0\r\n"), Err(Rejection::MalformedRequestLine));
}

#[test]
fn unknown_method_token_passes_the_request_line() {
    let parsed = parse_request_line("PATCH /x HTTP/1.1\r\n");
    assert_eq!(parsed, Ok(line_of("PATCH", "/x", "HTTP/1.1")));
}

#[test]
fn method_tokens() {
    assert_eq!(Method::from_token("GET"), Some(Method::Get));
    assert_eq!(Method::from_token("POST"), Some(Method::Post));
    assert_eq!(Method::from_token("PUT"), Some(Method::Put));
    assert_eq!(Method::from_token("DELETE"), Some(Method::Delete));
    assert_eq!(Method::from_token("PATCH"), None);
    assert_eq!(Method::from_token("get"), None);
    assert_eq!(Method::from_token(""), None);
    assert_eq!(Method::from_token("GETX"), None);
}

#[test]
fn method_statuses() {
    assert_eq!(Method::Get.status(), "200 OK");
    assert_eq!(Method::Post.status(), "201 Created");
    assert_eq!(Method::Put.status(), "200 OK");
    assert_eq!(Method::Delete.status(), "200 OK");
}

#[test]
fn method_acknowledgements_name_the_path() {
    assert_eq!(Method::Get.acknowledge("/x"), "GET request for: /x");
    assert_eq!(Method::Post.acknowledge("/x"), "POST request to: /x");
    assert_eq!(Method::Put.acknowledge("/x"), "PUT request for: /x");
    assert_eq!(Method::Delete.acknowledge("/a/b"), "DELETE request for: /a/b");
}

#[test]
fn rejection_responses() {
    assert_eq!(
        Rejection::MalformedRequestLine.response(),
        "HTTP/1.1 400 Bad Request\r\nContent-Length: 0\r\n\r\n"
    );
    assert_eq!(
        Rejection::UnsupportedVersion.response(),
        "HTTP/1.1 505 HTTP Version Not Supported\r\nContent-Length: 0\r\n\r\n"
    );
    assert_eq!(
        Rejection::UnsupportedMethod.response(),
        "HTTP/1.1 405 Method Not Allowed\r\nContent-Length: 0\r\nContent-Type: text/plain\r\nConnection: close\r\n\r\n"
    );
    assert_eq!(
        Rejection::RateLimited.response(),
        "HTTP/1.1 429 Too Many Requests\r\nContent-Length: 57\r\nContent-Type: text/plain\r\nConnection: close\r\n\r\nYou have exceeded the rate limit. Please try again later."
    );
}

#[test]
fn assembled_request_has_path_query_and_headers() {
    let mut headers = FieldMap::new();
    headers.insert("Host".to_string(), "example".to_string());
    let request =
        match ParsedRequest::assemble(line_of("GET", "/search?q=rust&limit=10", "HTTP/1.1"), headers) {
            Ok(request) => request,
            Err(rejection) => panic!("unexpected rejection {:?}", rejection),
        };
    assert_eq!(request.method, Method::Get);
    assert_eq!(request.path, "/search");
    assert_eq!(request.version, "HTTP/1.1");
    assert_eq!(request.headers.get("Host"), Some(&"example".to_string()));
    assert_eq!(request.headers.len(), 1);
    assert_eq!(request.query.len(), 2);
    assert_eq!(request.query.get("q"), Some(&"rust".to_string()));
    assert_eq!(request.query.get("limit"), Some(&"10".to_string()));
    assert!(!request.keep_alive());
    assert_eq!(
        request.response(),
        "HTTP/1.1 200 OK\r\nContent-Length: 24\r\nContent-Type: text/plain\r\nConnection: close\r\n\r\nGET request for: /search"
    );
}

#[test]
fn assembled_request_without_query_has_no_params() {
    let mut headers = FieldMap::new();
    headers.insert("Connection".to_string(), "keep-alive".to_string());
    let request = match ParsedRequest::assemble(line_of("POST", "/items", "HTTP/1.1"), headers) {
        Ok(request) => request,
        Err(rejection) => panic!("unexpected rejection {:?}", rejection),
    };
    assert_eq!(request.method, Method::Post);
    assert_eq!(request.path, "/items");
    assert!(request.query.is_empty());
    assert!(request.keep_alive());
    assert_eq!(
        request.response(),
        "HTTP/1.1 201 Created\r\nContent-Length: 23\r\nContent-Type: text/plain\r\nConnection: keep-alive\r\n\r\nPOST request to: /items"
    );
}

#[test]
fn unserved_method_is_rejected_on_assembly() {
    let outcome = ParsedRequest::assemble(line_of("PATCH", "/x", "HTTP/1.1"), FieldMap::new());
    match outcome {
        Ok(_) => panic!("PATCH is not served"),
        Err(rejection) => assert_eq!(rejection, Rejection::UnsupportedMethod),
    }
}
