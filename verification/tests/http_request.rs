use std::collections::HashMap;

use rust_study::http::{process_header_line, process_req_line, request_is_readable, HttpRequest, Method, Resource, Version};
use rust_study::router::{Handler, Router};

#[test]
fn test_method_into() {
    let method = Method::from("Get");
    assert_eq!(method, Method::Get);
}

#[test]
fn test_version_into() {
    let version: Version = "HTTP/1.1".into();
    assert_eq!(version, Version::V1_1);
}

#[test]
fn test_read_into() {
    let s: String = String::from("Get /greeting HTTP/1.1\r\nHost: localhost:3000\r\nUser-Agent:curl 1111\r\nAccept: */*\r\nthis is msg");

    let mut headers_expected = HashMap::new();
    headers_expected.insert("Host".into(), " localhost".into());
    headers_expected.insert("Accept".into(), " */*".into());
    headers_expected.insert("User-Agent".into(), "curl 1111".into());

    let req: HttpRequest = HttpRequest::from(s);

    let headers: HashMap<String, String> = req.headers.entries().iter().cloned().collect();
    assert_eq!(Method::Get, req.method);
    assert_eq!(Version::V1_1, req.version);
    assert_eq!(Resource::Path("/greeting".to_ascii_lowercase()), req.resource);
    assert_eq!(headers_expected, headers);
}

#[test]
fn method_names_in_upper_case() {
    assert_eq!(Method::from("GET"), Method::Get);
    assert_eq!(Method::from("POST"), Method::Post);
    assert_eq!(Method::from("post"), Method::Post);
    assert_eq!(Method::from("PUT"), Method::Uninitialized);
    assert_eq!(Method::from("GETS"), Method::Uninitialized);
}

#[test]
fn other_versions_are_uninitialized() {
    assert_eq!(Version::from("HTTP/2.0"), Version::Uninitialized);
    assert_eq!(Version::from("http/1.1"), Version::Uninitialized);
}

#[test]
fn header_line_keeps_the_second_piece() {
    let (k, v) = process_header_line("Host: localhost:3000");
    assert_eq!(k, "Host");
    assert_eq!(v, " localhost");
    let (k, v) = process_header_line("NoColon");
    assert_eq!(k, "NoColon");
    assert_eq!(v, "");
}

#[test]
fn request_line_words() {
    let (m, r, v) = process_req_line("POST  /api/x \t HTTP/1.1 extra");
    assert_eq!(m, Method::Post);
    assert_eq!(r, Resource::Path("/api/x".to_string()));
    assert_eq!(v, Version::V1_1);
}

#[test]
fn later_header_replaces_earlier_and_body_is_last_line() {
    let req = HttpRequest::from(String::from("GET / HTTP/1.1\nA: 1\nA: 2\n\nfirst\nsecond\n"));
    assert_eq!(req.headers.len(), 1);
    assert_eq!(req.headers.get(&"A".to_string()), Some(&" 2".to_string()));
    assert_eq!(req.msg_body, "second");
    assert_eq!(req.resource, Resource::Path("/".to_string()));
}

#[test]
fn empty_request_has_defaults() {
    let req = HttpRequest::from(String::new());
    assert_eq!(req.method, Method::Uninitialized);
    assert_eq!(req.version, Version::V1_1);
    assert_eq!(req.resource, Resource::Path(String::new()));
    assert_eq!(req.headers.len(), 0);
    assert_eq!(req.msg_body, "");
}

#[test]
fn short_request_line_is_not_readable() {
    assert!(!request_is_readable("GET HTTP/1.1\r\n"));
    assert!(request_is_readable("GET / HTTP/1.1\r\n"));
    assert!(HttpRequest::parse_checked(String::from("HTTP")).is_none());
}

#[test]
fn routing_by_first_segment() {
    let api = HttpRequest::from(String::from("GET /api/shipping/orders HTTP/1.1\r\n"));
    assert_eq!(Router::route(&api), Handler::WebService);
    let page = HttpRequest::from(String::from("GET /index.html HTTP/1.1\r\n"));
    assert_eq!(Router::route(&page), Handler::StaticPage);
    let apix = HttpRequest::from(String::from("GET /apix HTTP/1.1\r\n"));
    assert_eq!(Router::route(&apix), Handler::StaticPage);
    let post = HttpRequest::from(String::from("POST /api HTTP/1.1\r\n"));
    assert_eq!(Router::route(&post), Handler::PageNotFound);
    let bare = HttpRequest::from(String::from("GET nopath HTTP/1.1\r\n"));
    assert!(!Router::can_route(&bare));
}
