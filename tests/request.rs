use simple_http::request::{HttpHeader, HttpRequest, Method, Resource, Version};

#[test]
fn get_request_line_is_parsed() {
    let req = HttpRequest::new("GET /index.txt HTTP/1.1\r\n\r\n").unwrap();
    assert_eq!(req.method, Method::Get);
    assert_eq!(req.resource.path, "index.txt");
    assert_eq!(req.version, Version::V1_1);
    assert!(req.headers.headers.is_empty());
    assert_eq!(req.request_body, "");
}

#[test]
fn post_with_http2_is_parsed() {
    let req = HttpRequest::new("POST /a/b/ HTTP/2\r\nHost: x\r\n\r\nbody text").unwrap();
    assert_eq!(req.method, Method::Post);
    assert_eq!(req.resource.path, "a/b/");
    assert_eq!(req.version, Version::V2_0);
    assert_eq!(req.request_body, "body text");
}

#[test]
fn http_2_0_names_version_two() {
    assert_eq!(Version::new("GET / HTTP/2.0\r\n").unwrap(), Version::V2_0);
}

#[test]
fn first_version_word_wins() {
    assert_eq!(Version::new("GET HTTP/2 HTTP/1.1\r\n").unwrap(), Version::V2_0);
}

#[test]
fn version_must_be_a_whole_word() {
    assert!(Version::new("GET / XHTTP/1.1\r\n").is_err());
}

#[test]
fn missing_version_fails_construction() {
    let err = HttpRequest::new("GET / HTTP/3\r\n\r\n").unwrap_err();
    assert_eq!(err.message(), "Unknown version is GET / HTTP/3\r\n\r\n");
}

#[test]
fn version_outside_request_line_is_not_seen() {
    assert!(HttpRequest::new("GET /\r\nX: HTTP/1.1\r\n\r\n").is_err());
}

#[test]
fn unterminated_request_line_fails() {
    assert!(HttpRequest::new("GET / HTTP/1.1").is_err());
}

#[test]
fn delete_is_unrecognized_without_resource() {
    let req = HttpRequest::new("DELETE / HTTP/1.1\r\n\r\n").unwrap();
    assert_eq!(req.method, Method::Unrecognized);
    assert_eq!(req.resource.path, "");
}

#[test]
fn identify_names_verbs() {
    assert_eq!(Method::identify("GET"), Method::Get);
    assert_eq!(Method::identify("POST"), Method::Post);
    assert_eq!(Method::identify("get"), Method::Unrecognized);
    assert_eq!(Method::new("PUT /x HTTP/1.1\r\n"), Method::Unrecognized);
    assert_eq!(Method::new("GET"), Method::Unrecognized);
}

#[test]
fn resource_strips_leading_slashes_only() {
    let r = Resource::new("GET //docs/a%20b/?q=1 HTTP/1.1\r\n").unwrap();
    assert_eq!(r.path, "docs/a%20b/?q=1");
    assert!(Resource::new("GET /x\r\n").is_none());
    assert!(Resource::new("HEAD /x HTTP/1.1\r\n").is_none());
}

#[test]
fn headers_are_trimmed_and_later_names_win() {
    let h = HttpHeader::new("GET / HTTP/1.1\r\nHost:  example \r\nAccept: a\r\nAccept: b\r\n\r\nignored: x")
        .unwrap();
    let pairs: Vec<(String, String)> = h.headers.clone();
    assert_eq!(pairs.len(), 3);
    assert_eq!(pairs[0], ("Host".to_string(), "example".to_string()));
    assert_eq!(h.get("Accept"), Some("b".to_string()));
    assert_eq!(h.get("Host"), Some("example".to_string()));
    assert_eq!(h.get("host"), None);
}

#[test]
fn header_without_colon_fails_the_block() {
    assert!(HttpHeader::new("GET / HTTP/1.1\r\nHost example\r\n\r\n").is_none());
    let req = HttpRequest::new("GET / HTTP/1.1\r\nHost example\r\n\r\n").unwrap();
    assert!(req.headers.headers.is_empty());
}

#[test]
fn no_header_lines_give_empty_mapping() {
    let h = HttpHeader::new("GET / HTTP/1.1\r\n").unwrap();
    assert!(h.headers.is_empty());
}

#[test]
fn four_word_request_line_has_no_resource() {
    assert!(Resource::new("GET /a b HTTP/1.1\r\n\r\n").is_none());
    let req = HttpRequest::new("GET /a b HTTP/1.1\r\n\r\n").unwrap();
    assert_eq!(req.resource.path, "");
    assert!(Resource::new("GET /a HTTP/1.1 extra\r\n").is_none());
    assert!(Resource::new("GET /a HTTP/1.1\r\n").is_some());
}
