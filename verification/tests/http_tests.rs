use quickly::http::{parse_header, parse_headers_and_body, parse_request, parse_request_line, Response};
use quickly::strmap::StringMap;

#[test]
fn test_parse_request_line() {
    assert_eq!(parse_request_line("GET /index.html HTTP/1.1"), Ok(("GET", "/index.html")));
    assert_eq!(parse_request_line("INVALID REQUEST"), Err("Invalid request"));
}

#[test]
fn test_parse_header() {
    assert_eq!(parse_header("Host: localhost"), Some(("Host".to_string(), "localhost".to_string())));
    assert_eq!(parse_header("Invalid Header"), None);
}

#[test]
fn test_response_json() {
    let response = Response::new(200, "").json(r#"{"key": "value"}"#);

    assert_eq!(response.headers.get("Content-Type"), Some(&"application/json".to_string()));
    assert_eq!(response.body, r#"{"key": "value"}"#);
}

#[test]
fn test_response_header() {
    let response = Response::new(200, "").header("X-Custom-Header", "Value");
    assert_eq!(response.headers.get("X-Custom-Header"), Some(&"Value".to_string()));
}

#[test]
fn test_response_send() {
    let response = Response::new(200, "").send("body");
    assert_eq!(response.body, "body");
}

#[test]
fn test_parse_headers_and_body() {
    let (headers, body) = parse_headers_and_body(&[
        "Host: localhost",
        "Content-Length: 5",
        "",
        "hello",
    ]);

    assert_eq!(headers.get("Host"), Some(&"localhost".to_string()));
    assert_eq!(headers.get("Content-Length"), Some(&"5".to_string()));
    assert_eq!(body, "hello");
}

#[test]
fn test_parse_request_full() {
    let request = parse_request("GET /a/b HTTP/1.1\r\nHost: x\r\n\r\nhello").unwrap();
    assert_eq!(request.method, "GET");
    assert_eq!(request.path, "/a/b");
    assert_eq!(request.headers.get("Host"), Some(&"x".to_string()));
    assert_eq!(request.body, "hello");
    assert_eq!(request.params.len(), 0);
}

#[test]
fn test_parse_request_rejects_short_line() {
    assert!(parse_request("GET /a\r\n\r\n").is_err());
}

#[test]
fn test_parse_request_rejects_bad_protocol() {
    assert!(parse_request("GET /a FTP/1.1\r\n\r\n").is_err());
}

#[test]
fn test_parse_request_rejects_empty_input() {
    assert!(parse_request("").is_err());
}

#[test]
fn test_parse_skips_malformed_header_line() {
    let request = parse_request("GET / HTTP/1.1\r\nGood: yes\r\nNo colon here\r\n\r\n").unwrap();
    assert_eq!(request.headers.get("Good"), Some(&"yes".to_string()));
    assert_eq!(request.headers.len(), 1);
    assert_eq!(request.body, "");
}

#[test]
fn test_parse_duplicate_header_overwrites() {
    let (headers, _body) = parse_headers_and_body(&["A: 1", "A: 2"]);
    assert_eq!(headers.get("A"), Some(&"2".to_string()));
    assert_eq!(headers.len(), 1);
}

#[test]
fn test_parse_body_concatenates_lines() {
    let request = parse_request("GET / HTTP/1.1\r\n\r\nab\r\ncd").unwrap();
    assert_eq!(request.body, "abcd");
}

#[test]
fn test_response_send_keeps_plain_content_type() {
    let response = Response::new(200, "").send("x");
    assert_eq!(response.headers.get("Content-Type"), Some(&"text/plain".to_string()));
}

#[test]
fn test_serialize_round_trip() {
    let mut headers = StringMap::new();
    headers.insert("X", "Y");
    let response = Response { status_code: 200, headers, body: "ok".to_string() };
    assert_eq!(response.to_string(), "HTTP/1.1 200 OK\r\nX: Y\r\n\r\nok");
}

#[test]
fn test_serialize_multi_digit_status() {
    let response = Response::new(507, "x");
    assert_eq!(response.to_string(), "HTTP/1.1 507 OK\r\nContent-Type: text/plain\r\n\r\nx");
}

#[test]
fn test_cookie_strips_line_breaks() {
    let response = Response::new(200, "").cookie("a", "b\r\nX: evil", "Secure");
    assert_eq!(response.headers.get("Set-Cookie"), Some(&"a=bX: evil; Secure".to_string()));
}

#[test]
fn test_header_strips_line_breaks() {
    let response = Response::new(200, "").header("X-A", "v\r\nInjected: yes");
    assert_eq!(response.headers.get("X-A"), Some(&"vInjected: yes".to_string()));
}

#[test]
fn test_clear_cookie() {
    let response = Response::new(200, "").cookie("token", "v", "Secure").clear_cookie("token");
    assert_eq!(response.headers.get("Set-Cookie"), Some(&"token=; Max-Age=0".to_string()));
}

#[test]
fn test_header_order_is_insertion_order() {
    let response = Response::new(200, "b").header("A", "1").header("B", "2").header("A", "3");
    assert_eq!(
        response.to_string(),
        "HTTP/1.1 200 OK\r\nContent-Type: text/plain\r\nA: 3\r\nB: 2\r\n\r\nb"
    );
}
