//! Building the response to a request from what the file system holds at its target,
//! and writing it out in wire form.
use vstd::prelude::*;
use crate::request::{HttpRequest, Method, Version, version_text};
use crate::template::{
    concat_all, generate_html, generate_ul, page, strings_view, unordered_list,
};
use crate::text::{chars_of, last_index_of, rfind, copy_range, string_of, strip_leading_slashes,
    strip_slashes, strip_trailing_slashes,
};
use vstd::utf8::encode_utf8;

verus! {

/// What percent-decoding gives for a text.
pub uninterp spec fn percent_decoded(s: Seq<char>) -> Seq<char>;

/// The MIME type guessed from a file name's extension.
pub uninterp spec fn guessed_mime(name: Seq<char>) -> Seq<char>;

/// Relies on `url_escape::decode_to_string`: decodes each `%XX` of `s`, then reads the bytes
/// as UTF-8, replacing invalid sequences. The result depends on `s` alone; a text without
/// `%` is left as it is.
#[verifier::external_body]
fn percent_decode(s: &str) -> (r: String)
    ensures
        r@ == percent_decoded(s@),
        (forall|i: int| 0 <= i < s@.len() ==> s@[i] != '%') ==> r@ == s@,
{
    let mut out = String::new();
    url_escape::decode_to_string(s, &mut out);
    out
}

/// Relies on `mime_guess::from_path` and `MimeGuess::first_or_octet_stream`: the first MIME
/// type registered for the extension of `name`, or `application/octet-stream`. The result
/// depends on `name` alone.
#[verifier::external_body]
fn mime_for(name: &str) -> (r: String)
    ensures
        r@ == guessed_mime(name@),
{
    mime_guess::from_path(name).first_or_octet_stream().to_string()
}

/// Status of a response.
#[derive(Debug, Clone, Copy, PartialEq, Eq, Structural)]
pub enum ResponseStatus {
    OK,
    NotFound,
    Forbidden,
}

/// The status line's text after the version.
pub open spec fn status_text(s: ResponseStatus) -> Seq<char> {
    match s {
        ResponseStatus::OK => "200 OK"@,
        ResponseStatus::NotFound => "404 NOT FOUND"@,
        ResponseStatus::Forbidden => "403 FORBIDDEN"@,
    }
}

impl ResponseStatus {
    /// The numeric status code.
    pub fn code(&self) -> (r: u16)
        ensures
            r == match *self {
                ResponseStatus::OK => 200u16,
                ResponseStatus::NotFound => 404u16,
                ResponseStatus::Forbidden => 403u16,
            },
    {
        match self {
            ResponseStatus::OK => 200,
            ResponseStatus::NotFound => 404,
            ResponseStatus::Forbidden => 403,
        }
    }

    /// The status line's text after the version.
    pub fn to_string(&self) -> (r: String)
        ensures
            r@ == status_text(*self),
    {
        match self {
            ResponseStatus::OK => String::from_str("200 OK"),
            ResponseStatus::NotFound => String::from_str("404 NOT FOUND"),
            ResponseStatus::Forbidden => String::from_str("403 FORBIDDEN"),
        }
    }
}

/// Whether byte ranges are advertised (they are never served).
#[derive(Debug, Clone, Copy, PartialEq, Eq, Structural)]
pub enum AcceptRanges {
    Bytes,
    NoRanges,
}

/// The `accept-ranges` header line, without its line end.
pub open spec fn ranges_text(a: AcceptRanges) -> Seq<char> {
    match a {
        AcceptRanges::Bytes => "accept-ranges: bytes"@,
        AcceptRanges::NoRanges => "accept-ranges: none"@,
    }
}

impl AcceptRanges {
    /// The `accept-ranges` header line, without its line end.
    pub fn to_string(&self) -> (r: String)
        ensures
            r@ == ranges_text(*self),
    {
        match self {
            AcceptRanges::Bytes => String::from_str("accept-ranges: bytes"),
            AcceptRanges::NoRanges => String::from_str("accept-ranges: none"),
        }
    }
}

/// What a directory entry is.
#[derive(Debug, Clone, Copy, PartialEq, Eq, Structural)]
pub enum EntryKind {
    File,
    Directory,
    Other,
}

/// A child of a listed directory.
#[derive(Debug)]
pub struct DirEntry {
    pub name: String,
    pub kind: EntryKind,
}

/// What the file system holds at a resolved path.
#[derive(Debug)]
pub enum Node {
    /// A regular file, with its contents.
    File(Vec<u8>),
    /// A directory, with its children in the order read (`None` for a child that could not
    /// be read), or `None` where it could not be listed.
    Directory(Option<Vec<Option<DirEntry>>>),
    /// Anything else.
    Other,
}

/// An existing target: the canonical components of the server root and of the target,
/// and what the target is. `node` is consulted only for a target within the root.
#[derive(Debug)]
pub struct Found {
    pub root: Vec<String>,
    pub path: Vec<String>,
    pub node: Node,
}

/// The path under the server root that a resource names: percent-decoded, without leading
/// or trailing slashes.
pub open spec fn target_of(resource: Seq<char>) -> Seq<char> {
    strip_trailing_slashes(strip_leading_slashes(percent_decoded(resource)))
}

/// `root` is a leading part of `path`, component by component.
pub open spec fn is_prefix(root: Seq<Seq<char>>, path: Seq<Seq<char>>) -> bool {
    root.len() <= path.len() && path.subrange(0, root.len() as int) == root
}

/// The guarded target lies within the server root.
pub open spec fn found_within(f: Found) -> bool {
    is_prefix(strings_view(f.root@), strings_view(f.path@))
}

/// Tests whether the canonical `path` lies within the canonical `root`.
pub fn within_root(root: &Vec<String>, path: &Vec<String>) -> (r: bool)
    ensures
        r == is_prefix(strings_view(root@), strings_view(path@)),
{
    if root.len() > path.len() {
        return false;
    }
    let mut i: usize = 0;
    while i < root.len()
        invariant
            i <= root.len() <= path.len(),
            forall|k: int| 0 <= k < i ==> root@[k]@ == path@[k]@,
        decreases root.len() - i,
    {
        if root[i] != path[i] {
            assert(strings_view(path@).subrange(0, root.len() as int)[i as int] == path@[i as int]@);
            return false;
        }
        i += 1;
    }
    assert(strings_view(path@).subrange(0, root.len() as int) =~= strings_view(root@));
    true
}

/// The link target one level up from `resource`: what precedes its last slash.
pub open spec fn parent_of(resource: Seq<char>) -> Seq<char> {
    match last_index_of(resource, '/') {
        Some(i) => resource.subrange(0, i),
        None => Seq::empty(),
    }
}

/// The heading of a listing: a link one level up and the listed path.
pub open spec fn listing_header(resource: Seq<char>) -> Seq<char> {
    LISTING_UP@ + parent_of(resource) + LISTING_PATH@ + resource + LISTING_END@
}

/// The pieces of a listing's heading, around the parent link and the listed path.
pub const LISTING_UP: &'static str = "\n<h2><a href=\"/";

pub const LISTING_PATH: &'static str = "\"><button>↩📂</button></a><code> ://root/";

pub const LISTING_END: &'static str = " </code></h2>\n";

/// The list item that stands for an empty directory.
pub const EMPTY_DIRECTORY: &'static str = "<h1>Empty Directory</h1>";

/// The link target of a child of `resource`.
pub open spec fn entry_href(resource: Seq<char>, name: Seq<char>) -> Seq<char> {
    if resource.len() == 0 {
        name
    } else {
        "/"@ + resource + "/"@ + name
    }
}

/// The icon of an entry.
pub open spec fn kind_icon(k: EntryKind) -> Seq<char> {
    match k {
        EntryKind::File => "📄"@,
        EntryKind::Directory => "📁"@,
        EntryKind::Other => ""@,
    }
}

/// The list item of a child of `resource`.
pub open spec fn entry_item(resource: Seq<char>, e: DirEntry) -> Seq<char> {
    "<a href=\""@ + entry_href(resource, e.name@) + "\"><li><span>"@ + kind_icon(e.kind)
        + "</span><span>"@ + e.name@ + "</span></li></a>"@
}

/// The list items of the readable children, in order.
pub open spec fn listing_items(resource: Seq<char>, entries: Seq<Option<DirEntry>>) -> Seq<
    Seq<char>,
>
    decreases entries.len(),
{
    if entries.len() == 0 {
        Seq::empty()
    } else {
        let items = listing_items(resource, entries.drop_last());
        match entries.last() {
            Some(e) => items.push(entry_item(resource, e)),
            None => items,
        }
    }
}

/// What the list of a listing holds: the items, or the empty-directory notice where the
/// directory has no children.
pub open spec fn listing_fragments(resource: Seq<char>, entries: Seq<Option<DirEntry>>) -> Seq<
    Seq<char>,
> {
    if entries.len() == 0 {
        seq![EMPTY_DIRECTORY@]
    } else {
        listing_items(resource, entries)
    }
}

/// The listing page of the directory at `resource`.
pub open spec fn listing_page(resource: Seq<char>, entries: Seq<Option<DirEntry>>) -> Seq<char> {
    page(resource, listing_header(resource) + unordered_list(listing_fragments(resource, entries)))
}

/// The error page for a status.
pub open spec fn error_page(s: ResponseStatus) -> Seq<char> {
    page(status_text(s), "<h1>"@ + status_text(s) + "</h1>"@)
}

/// The last component of a path.
pub open spec fn last_component(path: Seq<Seq<char>>) -> Seq<char> {
    if path.len() == 0 {
        Seq::empty()
    } else {
        path.last()
    }
}

/// What a response says, apart from its version and length.
pub struct Reply {
    pub status: ResponseStatus,
    pub content_type: Seq<char>,
    pub accept_ranges: AcceptRanges,
    pub body: Seq<u8>,
}

/// The reply with an error page.
pub open spec fn error_reply(s: ResponseStatus) -> Reply {
    Reply {
        status: s,
        content_type: "text/html"@,
        accept_ranges: AcceptRanges::NoRanges,
        body: encode_utf8(error_page(s)),
    }
}

/// The reply to a request with the given verb for `target`, where `found` tells whether the
/// target exists and what the file system holds there.
pub open spec fn reply_for(method: Method, target: Seq<char>, found: Option<Found>) -> Reply {
    match method {
        Method::Get => match found {
            None => error_reply(ResponseStatus::NotFound),
            Some(f) => if !found_within(f) {
                error_reply(ResponseStatus::Forbidden)
            } else {
                match f.node {
                    Node::File(contents) => Reply {
                        status: ResponseStatus::OK,
                        content_type: guessed_mime(last_component(strings_view(f.path@))),
                        accept_ranges: AcceptRanges::Bytes,
                        body: contents@,
                    },
                    Node::Directory(Some(entries)) => Reply {
                        status: ResponseStatus::OK,
                        content_type: "text/html"@,
                        accept_ranges: AcceptRanges::Bytes,
                        body: encode_utf8(listing_page(target, entries@)),
                    },
                    _ => error_reply(ResponseStatus::NotFound),
                }
            },
        },
        _ => error_reply(ResponseStatus::NotFound),
    }
}

/// The UTF-8 bytes of a string.
fn bytes_of(s: &String) -> (r: Vec<u8>)
    ensures
        r@ == encode_utf8(s@),
{
    s.as_str().as_bytes_vec()
}

/// A response, ready to be written out.
#[derive(Debug)]
pub struct HttpResponse {
    pub version: Version,
    pub status: ResponseStatus,
    /// The length of `response_body` in bytes.
    pub content_length: usize,
    pub content_type: String,
    pub accept_ranges: AcceptRanges,
    pub response_body: Vec<u8>,
}

impl View for HttpResponse {
    type V = Reply;

    open spec fn view(&self) -> Reply {
        Reply {
            status: self.status,
            content_type: self.content_type@,
            accept_ranges: self.accept_ranges,
            body: self.response_body@,
        }
    }
}

impl HttpResponse {
    /// The stated length is that of the body.
    pub open spec fn well_formed(&self) -> bool {
        self.content_length == self.response_body@.len()
    }
}

/// An HTTP/1.1 response; its length is taken from the body.
fn build(
    status: ResponseStatus,
    content_type: String,
    accept_ranges: AcceptRanges,
    response_body: Vec<u8>,
) -> (r: HttpResponse)
    ensures
        r.well_formed(),
        r.version == Version::V1_1,
        r@ == (Reply { status, content_type: content_type@, accept_ranges, body: response_body@ }),
{
    let content_length = response_body.len();
    HttpResponse {
        version: Version::V1_1,
        status,
        content_length,
        content_type,
        accept_ranges,
        response_body,
    }
}

/// The response with the error page of `status`.
fn error_response(status: ResponseStatus) -> (r: HttpResponse)
    ensures
        r.well_formed(),
        r.version == Version::V1_1,
        r@ == error_reply(status),
{
    let title = status.to_string();
    let mut body = String::from_str("<h1>");
    body.append(title.as_str());
    body.append("</h1>");
    let html = generate_html(title, body);
    build(status, String::from_str("text/html"), AcceptRanges::NoRanges, bytes_of(&html))
}

/// The link target one level up from `resource`.
fn parent(resource: &String) -> (r: String)
    ensures
        r@ == parent_of(resource@),
{
    let v = chars_of(resource.as_str());
    match rfind(&v, '/') {
        Some(i) => {
            proof {
                lemma_last_index_bound(v@, '/');
            }
            string_of(&copy_range(&v, 0, i))
        },
        None => String::new(),
    }
}

/// A position that `last_index_of` gives lies within the text.
pub proof fn lemma_last_index_bound(s: Seq<char>, c: char)
    ensures
        last_index_of(s, c) matches Some(i) ==> 0 <= i < s.len(),
    decreases s.len(),
{
    if s.len() > 0 && s.last() != c {
        lemma_last_index_bound(s.drop_last(), c);
    }
}

/// The list item of a child of `resource`.
fn item_for(resource: &String, e: &DirEntry) -> (r: String)
    ensures
        r@ == entry_item(resource@, *e),
{
    let mut r = String::from_str("<a href=\"");
    if resource.as_str().is_empty() {
        r.append(e.name.as_str());
    } else {
        r.append("/");
        r.append(resource.as_str());
        r.append("/");
        r.append(e.name.as_str());
    }
    r.append("\"><li><span>");
    match e.kind {
        EntryKind::File => r.append("📄"),
        EntryKind::Directory => r.append("📁"),
        EntryKind::Other => r.append(""),
    }
    r.append("</span><span>");
    r.append(e.name.as_str());
    r.append("</span></li></a>");
    proof {
        let href = entry_href(resource@, e.name@);
        assert(r@ =~= "<a href=\""@ + href + "\"><li><span>"@ + kind_icon(e.kind)
            + "</span><span>"@ + e.name@ + "</span></li></a>"@);
    }
    r
}

/// The listing page of the directory at `resource`.
fn listing(resource: &String, entries: &Vec<Option<DirEntry>>) -> (r: String)
    ensures
        r@ == listing_page(resource@, entries@),
{
    let mut items: Vec<String> = Vec::new();
    let mut i: usize = 0;
    while i < entries.len()
        invariant
            i <= entries.len(),
            strings_view(items@) == listing_items(resource@, entries@.subrange(0, i as int)),
        decreases entries.len() - i,
    {
        let ghost before = items@;
        match &entries[i] {
            Some(e) => {
                let item = item_for(resource, e);
                items.push(item);
                assert(strings_view(items@) =~= strings_view(before).push(item@));
            },
            None => {},
        }
        i += 1;
        assert(entries@.subrange(0, i as int).drop_last() =~= entries@.subrange(0, i - 1));
    }
    assert(entries@.subrange(0, entries.len() as int) =~= entries@);
    if entries.len() == 0 {
        items.push(String::from_str(EMPTY_DIRECTORY));
        assert(strings_view(items@) =~= seq![EMPTY_DIRECTORY@]);
    }
    let list = generate_ul(&items);
    let mut content = String::from_str(LISTING_UP);
    content.append(parent(resource).as_str());
    content.append(LISTING_PATH);
    content.append(resource.as_str());
    content.append(LISTING_END);
    content.append(list.as_str());
    assert(content@ =~= listing_header(resource@) + unordered_list(
        listing_fragments(resource@, entries@),
    ));
    generate_html(resource.clone(), content)
}

impl HttpRequest {
    /// The path under the server root that the request names: its resource percent-decoded,
    /// without leading or trailing slashes.
    pub fn target(&self) -> (r: String)
        ensures
            r@ == target_of(self.resource.path@),
    {
        let decoded = percent_decode(self.resource.path.as_str());
        string_of(&strip_slashes(&chars_of(decoded.as_str())))
    }

    /// The response to the request, where `found` is `None` if the target does not exist,
    /// and otherwise gives the canonical root and target and what is there.
    pub fn response(&self, found: Option<Found>) -> (r: HttpResponse)
        ensures
            r.well_formed(),
            r.version == Version::V1_1,
            r@ == reply_for(self.method, target_of(self.resource.path@), found),
    {
        HttpResponse::new(self, found)
    }
}

impl HttpResponse {
    /// The response to `request`, where `found` is `None` if its target does not exist, and
    /// otherwise gives the canonical root and target and what is there. Only GET is served;
    /// a target outside the root gets the Forbidden page, a missing one the NotFound page.
    pub fn new(request: &HttpRequest, found: Option<Found>) -> (r: HttpResponse)
        ensures
            r.well_formed(),
            r.content_length == r.response_body@.len(),
            r.version == Version::V1_1,
            r@ == reply_for(request.method, target_of(request.resource.path@), found),
            request.method == Method::Get && found is None ==> r@ == error_reply(
                ResponseStatus::NotFound,
            ),
            request.method == Method::Get && (found matches Some(f) && !found_within(f)) ==> r@
                == error_reply(ResponseStatus::Forbidden),
            request.method != Method::Get ==> r@ == error_reply(ResponseStatus::NotFound),
            request.method == Method::Get && (found matches Some(f) && found_within(f) && (
            f.node matches Node::Directory(Some(es)) && es@.len() == 0)) ==> r.status
                == ResponseStatus::OK && r.response_body@ == encode_utf8(
                page(
                    target_of(request.resource.path@),
                    listing_header(target_of(request.resource.path@)) + "<ul>"@
                        + EMPTY_DIRECTORY@ + "</ul>"@,
                ),
            ),
    {
        proof {
            lemma_empty_listing_says_so(target_of(request.resource.path@));
        }
        match request.method {
            Method::Get => {},
            _ => {
                return error_response(ResponseStatus::NotFound);
            },
        }
        let f = match found {
            None => {
                return error_response(ResponseStatus::NotFound);
            },
            Some(f) => f,
        };
        if !within_root(&f.root, &f.path) {
            return error_response(ResponseStatus::Forbidden);
        }
        let ghost path_view = strings_view(f.path@);
        match f.node {
            Node::File(contents) => {
                let name = if f.path.len() == 0 {
                    String::new()
                } else {
                    f.path[f.path.len() - 1].clone()
                };
                assert(name@ == last_component(path_view));
                let content_type = mime_for(name.as_str());
                build(ResponseStatus::OK, content_type, AcceptRanges::Bytes, contents)
            },
            Node::Directory(Some(entries)) => {
                let resource = request.target();
                let html = listing(&resource, &entries);
                build(
                    ResponseStatus::OK,
                    String::from_str("text/html"),
                    AcceptRanges::Bytes,
                    bytes_of(&html),
                )
            },
            _ => error_response(ResponseStatus::NotFound),
        }
    }
}

/// The decimal digit character of `d`, for `d` below ten.
pub open spec fn digit_char(d: nat) -> char {
    seq!['0', '1', '2', '3', '4', '5', '6', '7', '8', '9'][d as int]
}

/// The decimal digits of `n`, without leading zeros.
pub open spec fn decimal(n: nat) -> Seq<char>
    decreases n,
{
    if n < 10 {
        seq![digit_char(n)]
    } else {
        decimal(n / 10).push(digit_char(n % 10))
    }
}

/// Appends the decimal digits of `n` to `out`.
fn push_decimal(n: usize, out: &mut Vec<char>)
    ensures
        final(out)@ == old(out)@ + decimal(n as nat),
    decreases n,
{
    let digits: Vec<char> = vec!['0', '1', '2', '3', '4', '5', '6', '7', '8', '9'];
    if n >= 10 {
        push_decimal(n / 10, out);
    }
    out.push(digits[n % 10]);
    assert(out@ =~= old(out)@ + decimal(n as nat));
}

/// The status line and headers of a response, with the blank line that ends them.
pub open spec fn head_text(r: HttpResponse) -> Seq<char> {
    version_text(r.version) + " "@ + status_text(r.status) + "\r\n"@ + "content-type: "@
        + r.content_type@ + "\r\n"@ + "content-length: "@ + decimal(r.content_length as nat)
        + "\r\n"@ + ranges_text(r.accept_ranges) + "\r\n\r\n"@
}

/// The bytes of a response on the wire: its head, then its body.
pub open spec fn wire(r: HttpResponse) -> Seq<u8> {
    encode_utf8(head_text(r)) + r.response_body@
}

impl HttpResponse {
    /// The response in wire form: status line, `content-type`, `content-length` and
    /// `accept-ranges` headers, a blank line, then the body.
    pub fn to_buf(&self) -> (r: Vec<u8>)
        ensures
            r@ == wire(*self),
    {
        let mut head = self.version.to_string();
        head.append(" ");
        head.append(self.status.to_string().as_str());
        head.append("\r\n");
        head.append("content-type: ");
        head.append(self.content_type.as_str());
        head.append("\r\n");
        head.append("content-length: ");
        let mut digits: Vec<char> = Vec::new();
        push_decimal(self.content_length, &mut digits);
        head.append(string_of(&digits).as_str());
        head.append("\r\n");
        head.append(self.accept_ranges.to_string().as_str());
        head.append("\r\n\r\n");
        assert(head@ =~= head_text(*self));
        let mut r = bytes_of(&head);
        let n = self.response_body.len();
        let mut i: usize = 0;
        while i < n
            invariant
                n == self.response_body@.len(),
                i <= n,
                r@ == encode_utf8(head_text(*self)) + self.response_body@.subrange(0, i as int),
            decreases n - i,
        {
            r.push(self.response_body[i]);
            i += 1;
            assert(r@ =~= encode_utf8(head_text(*self)) + self.response_body@.subrange(
                0,
                i as int,
            ));
        }
        assert(self.response_body@.subrange(0, n as int) =~= self.response_body@);
        r
    }
}

/// A GET whose canonical target lies outside the canonical root is answered with the
/// Forbidden page, whatever the target holds: never with its contents.
pub proof fn lemma_escape_is_forbidden(target: Seq<char>, f: Found)
    requires
        !found_within(f),
    ensures
        reply_for(Method::Get, target, Some(f)) == error_reply(ResponseStatus::Forbidden),
{
}

/// A request for a target that does not exist is answered with the NotFound page.
pub proof fn lemma_missing_is_not_found(method: Method, target: Seq<char>)
    ensures
        reply_for(method, target, None) == error_reply(ResponseStatus::NotFound),
{
}

/// Any verb but GET is answered with the NotFound page.
pub proof fn lemma_other_verbs_not_found(method: Method, target: Seq<char>, found: Option<Found>)
    requires
        method != Method::Get,
    ensures
        reply_for(method, target, found) == error_reply(ResponseStatus::NotFound),
{
}

/// The listing of an empty directory holds the empty-directory notice as its only list item.
pub proof fn lemma_empty_listing_says_so(resource: Seq<char>)
    ensures
        listing_fragments(resource, Seq::empty()) == seq![EMPTY_DIRECTORY@],
        listing_page(resource, Seq::empty()) == page(
            resource,
            listing_header(resource) + "<ul>"@ + EMPTY_DIRECTORY@ + "</ul>"@,
        ),
{
    let items: Seq<Seq<char>> = seq![EMPTY_DIRECTORY@];
    assert(items.drop_last() =~= Seq::<Seq<char>>::empty());
    assert(concat_all(items.drop_last()) == Seq::<char>::empty());
    assert(items.last() == EMPTY_DIRECTORY@);
    assert(Seq::<char>::empty() + EMPTY_DIRECTORY@ =~= EMPTY_DIRECTORY@);
    assert(concat_all(items) == EMPTY_DIRECTORY@);
    assert(listing_header(resource) + unordered_list(items) =~= listing_header(resource) + "<ul>"@
        + EMPTY_DIRECTORY@ + "</ul>"@);
}

} // verus!
