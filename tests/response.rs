use simple_http::request::{HttpRequest, Version};
use simple_http::response::{
    within_root, AcceptRanges, DirEntry, EntryKind, Found, HttpResponse, Node, ResponseStatus,
};
use simple_http::template::{generate_html, generate_ul};

fn parts(p: &[&str]) -> Vec<String> {
    p.iter().map(|s| s.to_string()).collect()
}

fn error_body(status: &str) -> Vec<u8> {
    generate_html(status.to_string(), format!("<h1>{status}</h1>")).into_bytes()
}

fn found(path: &[&str], node: Node) -> Option<Found> {
    Some(Found { root: parts(&["/", "srv", "www"]), path: parts(path), node })
}

#[test]
fn present_file_is_served() {
    let req = HttpRequest::new("GET /index.txt HTTP/1.1\r\n\r\n").unwrap();
    assert_eq!(req.target(), "index.txt");
    let resp = req.response(found(&["/", "srv", "www", "index.txt"], Node::File(b"hi".to_vec())));
    assert_eq!(resp.status, ResponseStatus::OK);
    assert_eq!(resp.content_length, 2);
    assert_eq!(resp.response_body, b"hi".to_vec());
    assert_eq!(resp.content_type, "text/plain");
    assert_eq!(resp.accept_ranges, AcceptRanges::Bytes);
    assert_eq!(resp.version, Version::V1_1);
}

#[test]
fn unknown_extension_is_octet_stream() {
    let req = HttpRequest::new("GET /blob HTTP/1.1\r\n\r\n").unwrap();
    let resp = req.response(found(&["/", "srv", "www", "blob"], Node::File(vec![0, 1, 2])));
    assert_eq!(resp.content_type, "application/octet-stream");
    assert_eq!(resp.content_length, 3);
}

#[test]
fn missing_file_is_not_found() {
    let req = HttpRequest::new("GET /missing.txt HTTP/1.1\r\n\r\n").unwrap();
    let resp = req.response(None);
    assert_eq!(resp.status, ResponseStatus::NotFound);
    assert_eq!(resp.response_body, error_body("404 NOT FOUND"));
    assert_eq!(resp.content_length, resp.response_body.len());
    assert_eq!(resp.content_type, "text/html");
    assert_eq!(resp.accept_ranges, AcceptRanges::NoRanges);
}

#[test]
fn escape_above_root_is_forbidden() {
    let req = HttpRequest::new("GET /../secret HTTP/1.1\r\n\r\n").unwrap();
    assert_eq!(req.target(), "../secret");
    let resp = req.response(found(&["/", "srv", "secret"], Node::File(b"top secret".to_vec())));
    assert_eq!(resp.status, ResponseStatus::Forbidden);
    assert_eq!(resp.response_body, error_body("403 FORBIDDEN"));
    assert_eq!(resp.content_length, resp.response_body.len());
}

#[test]
fn sibling_with_common_prefix_is_forbidden() {
    let req = HttpRequest::new("GET /x HTTP/1.1\r\n\r\n").unwrap();
    let resp = req.response(found(&["/", "srv", "www2", "x"], Node::File(b"x".to_vec())));
    assert_eq!(resp.status, ResponseStatus::Forbidden);
}

#[test]
fn delete_gives_not_found_page() {
    let req = HttpRequest::new("DELETE / HTTP/1.1\r\n\r\n").unwrap();
    let resp = req.response(found(&["/", "srv", "www"], Node::Directory(Some(Vec::new()))));
    assert_eq!(resp.status, ResponseStatus::NotFound);
    assert_eq!(resp.response_body, error_body("404 NOT FOUND"));
}

#[test]
fn post_gives_not_found_page() {
    let req = HttpRequest::new("POST /index.txt HTTP/1.1\r\n\r\n").unwrap();
    let resp = req.response(found(&["/", "srv", "www", "index.txt"], Node::File(b"hi".to_vec())));
    assert_eq!(resp.status, ResponseStatus::NotFound);
}

#[test]
fn no_version_produces_no_request() {
    assert!(HttpRequest::new("GET /index.txt\r\n\r\n").is_err());
}

#[test]
fn empty_directory_says_so() {
    let req = HttpRequest::new("GET /docs/ HTTP/1.1\r\n\r\n").unwrap();
    let resp = req.response(found(&["/", "srv", "www", "docs"], Node::Directory(Some(Vec::new()))));
    assert_eq!(resp.status, ResponseStatus::OK);
    let body = String::from_utf8(resp.response_body.clone()).unwrap();
    assert!(body.contains("<ul><h1>Empty Directory</h1></ul>"));
    assert!(body.contains("<title>docs</title>"));
    assert_eq!(resp.content_length, resp.response_body.len());
}

#[test]
fn directory_lists_children_with_links() {
    let req = HttpRequest::new("GET /docs/sub%20dir HTTP/1.1\r\n\r\n").unwrap();
    assert_eq!(req.target(), "docs/sub dir");
    let entries = vec![
        Some(DirEntry { name: "a.txt".to_string(), kind: EntryKind::File }),
        None,
        Some(DirEntry { name: "inner".to_string(), kind: EntryKind::Directory }),
    ];
    let resp = req.response(found(&["/", "srv", "www", "docs", "sub dir"], Node::Directory(Some(entries))));
    assert_eq!(resp.status, ResponseStatus::OK);
    assert_eq!(resp.content_type, "text/html");
    let body = String::from_utf8(resp.response_body.clone()).unwrap();
    assert!(body.contains("<a href=\"/docs/sub dir/a.txt\"><li><span>📄</span><span>a.txt</span></li></a><a href=\"/docs/sub dir/inner\"><li><span>📁</span><span>inner</span></li></a>"));
    assert!(body.contains("<a href=\"/docs\">"));
    assert!(!body.contains("Empty Directory"));
}

#[test]
fn root_listing_links_are_bare_names() {
    let req = HttpRequest::new("GET / HTTP/1.1\r\n\r\n").unwrap();
    let entries = vec![Some(DirEntry { name: "f".to_string(), kind: EntryKind::Other })];
    let resp = req.response(found(&["/", "srv", "www"], Node::Directory(Some(entries))));
    let body = String::from_utf8(resp.response_body.clone()).unwrap();
    assert!(body.contains("<a href=\"f\"><li><span></span><span>f</span></li></a>"));
    assert!(body.contains("<a href=\"/\">"));
}

#[test]
fn unreadable_directory_is_not_found() {
    let req = HttpRequest::new("GET /locked HTTP/1.1\r\n\r\n").unwrap();
    let resp = req.response(found(&["/", "srv", "www", "locked"], Node::Directory(None)));
    assert_eq!(resp.status, ResponseStatus::NotFound);
    let other = req.response(found(&["/", "srv", "www", "locked"], Node::Other));
    assert_eq!(other.status, ResponseStatus::NotFound);
}

#[test]
fn guard_compares_whole_components() {
    assert!(within_root(&parts(&["/", "srv"]), &parts(&["/", "srv", "a"])));
    assert!(within_root(&parts(&["/", "srv"]), &parts(&["/", "srv"])));
    assert!(!within_root(&parts(&["/", "srv"]), &parts(&["/", "srvx"])));
    assert!(!within_root(&parts(&["/", "srv", "a"]), &parts(&["/", "srv"])));
}

#[test]
fn wire_form_is_exact() {
    let resp = HttpResponse {
        version: Version::V1_1,
        status: ResponseStatus::OK,
        content_length: 2,
        content_type: "text/plain".to_string(),
        accept_ranges: AcceptRanges::Bytes,
        response_body: b"hi".to_vec(),
    };
    assert_eq!(
        resp.to_buf(),
        b"HTTP/1.1 200 OK\r\ncontent-type: text/plain\r\ncontent-length: 2\r\naccept-ranges: bytes\r\n\r\nhi".to_vec()
    );
}

#[test]
fn wire_length_has_all_digits() {
    let resp = HttpResponse {
        version: Version::V2_0,
        status: ResponseStatus::NotFound,
        content_length: 1205,
        content_type: "text/html".to_string(),
        accept_ranges: AcceptRanges::NoRanges,
        response_body: Vec::new(),
    };
    assert_eq!(
        String::from_utf8(resp.to_buf()).unwrap(),
        "HTTP/2 404 NOT FOUND\r\ncontent-type: text/html\r\ncontent-length: 1205\r\naccept-ranges: none\r\n\r\n"
    );
}

#[test]
fn status_texts_and_codes() {
    assert_eq!(ResponseStatus::OK.to_string(), "200 OK");
    assert_eq!(ResponseStatus::Forbidden.code(), 403);
    assert_eq!(ResponseStatus::NotFound.code(), 404);
    assert_eq!(AcceptRanges::NoRanges.to_string(), "accept-ranges: none");
    assert_eq!(Version::V2_0.to_string(), "HTTP/2");
}

#[test]
fn unordered_list_joins_items() {
    let items = vec!["<li>a</li>".to_string(), "<li>b</li>".to_string()];
    assert_eq!(generate_ul(&items), "<ul><li>a</li><li>b</li></ul>");
    assert_eq!(generate_ul(&Vec::new()), "<ul></ul>");
}

#[test]
fn page_holds_title_and_body() {
    let page = generate_html("T".to_string(), "<p>B</p>".to_string());
    assert!(page.contains("<title>T</title>"));
    assert!(page.contains("<p>B</p>"));
    assert!(page.trim_end().ends_with("</html>"));
}

#[test]
fn response_new_matches_request_response() {
    let req = HttpRequest::new("GET /../secret HTTP/1.1\r\n\r\n").unwrap();
    let resp = HttpResponse::new(&req, found(&["/", "srv"], Node::File(b"secret".to_vec())));
    assert_eq!(resp.status, ResponseStatus::Forbidden);
    assert_eq!(resp.content_type, "text/html");
    assert_eq!(resp.accept_ranges, AcceptRanges::NoRanges);
    assert_eq!(resp.response_body, error_body("403 FORBIDDEN"));
    assert_eq!(resp.content_length, resp.response_body.len());
}
