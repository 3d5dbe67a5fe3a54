//! Parsing of a raw request into method, resource, version, headers and body.
use vstd::prelude::*;
use crate::text::{
    ascii_whitespace, chars_of, copy_range, is_ascii_whitespace, lemma_find_from_occurs,
    matches_at, split_once, split_once_at, string_of, strip_leading,
    strip_leading_slashes, trim, trimmed, same, plain, lemma_find_first, is_whitespace,
    trim_start, trim_end, lemma_no_leading_slash,
};

verus! {

/// Line terminator of the wire format.
pub open spec fn crlf() -> Seq<char> {
    seq!['\r', '\n']
}

/// Separator between the header block and the body.
pub open spec fn blank_line() -> Seq<char> {
    seq!['\r', '\n', '\r', '\n']
}

/// Separator between the words of the request line.
pub open spec fn space() -> Seq<char> {
    seq![' ']
}

/// Separator between a header's name and its value.
pub open spec fn colon() -> Seq<char> {
    seq![':']
}

/// The recognized verbs and version words.
pub open spec fn get_word() -> Seq<char> {
    seq!['G', 'E', 'T']
}

pub open spec fn post_word() -> Seq<char> {
    seq!['P', 'O', 'S', 'T']
}

pub open spec fn http_1_1_word() -> Seq<char> {
    seq!['H', 'T', 'T', 'P', '/', '1', '.', '1']
}

pub open spec fn http_2_word() -> Seq<char> {
    seq!['H', 'T', 'T', 'P', '/', '2']
}

pub open spec fn http_2_0_word() -> Seq<char> {
    seq!['H', 'T', 'T', 'P', '/', '2', '.', '0']
}

/// The first line of a request, if it is terminated.
pub open spec fn request_line(req: Seq<char>) -> Option<Seq<char>> {
    match split_once(req, crlf()) {
        Some((line, _)) => Some(line),
        None => None,
    }
}

/// Verb recognized.
#[derive(Debug, Clone, Copy, PartialEq, Eq, Structural)]
pub enum Method {
    Get,
    Post,
    Unrecognized,
}

/// The verb that a token names.
pub open spec fn method_token(t: Seq<char>) -> Method {
    if t == get_word() {
        Method::Get
    } else if t == post_word() {
        Method::Post
    } else {
        Method::Unrecognized
    }
}

/// The verb of a request: the text before the first space of the request line.
pub open spec fn method_of(req: Seq<char>) -> Method {
    match request_line(req) {
        Some(line) => match split_once(line, space()) {
            Some((verb, _)) => method_token(verb),
            None => Method::Unrecognized,
        },
        None => Method::Unrecognized,
    }
}

/// The resource of a request with a recognized verb whose request line is exactly verb,
/// path and version word, separated by single spaces: the path, trimmed, without leading
/// slashes.
pub open spec fn resource_of(req: Seq<char>) -> Option<Seq<char>> {
    match request_line(req) {
        Some(line) => match split_once(line, space()) {
            Some((verb, rest)) => if method_token(verb) == Method::Unrecognized {
                None
            } else {
                match split_once(rest, space()) {
                    Some((target, tail)) => if version_token(tail) is Some {
                        Some(strip_leading_slashes(trim(target)))
                    } else {
                        None
                    },
                    None => None,
                }
            },
            None => None,
        },
        None => None,
    }
}

/// Protocol version named in a request.
#[derive(Debug, Clone, Copy, PartialEq, Eq, Structural)]
pub enum Version {
    V1_1,
    V2_0,
}

/// The version that a word names, if any.
pub open spec fn version_token(w: Seq<char>) -> Option<Version> {
    if w == http_1_1_word() {
        Some(Version::V1_1)
    } else if w == http_2_word() || w == http_2_0_word() {
        Some(Version::V2_0)
    } else {
        None
    }
}

/// Number of leading characters of `s` up to the first ASCII whitespace.
pub open spec fn word_len(s: Seq<char>) -> nat
    decreases s.len(),
{
    if s.len() == 0 || is_ascii_whitespace(s[0]) {
        0
    } else {
        1 + word_len(s.drop_first())
    }
}

/// A word is no longer than the text, and a text that starts with a word character has one.
pub proof fn lemma_word_len(s: Seq<char>)
    ensures
        word_len(s) <= s.len(),
        s.len() > 0 && !is_ascii_whitespace(s[0]) ==> word_len(s) >= 1,
    decreases s.len(),
{
    if s.len() > 0 && !is_ascii_whitespace(s[0]) {
        lemma_word_len(s.drop_first());
    }
}

#[via_fn]
proof fn version_in_decreases(s: Seq<char>) {
    lemma_word_len(s);
}

/// The version named by the first whitespace-separated word of `s` that names one.
pub open spec fn version_in(s: Seq<char>) -> Option<Version>
    decreases s.len() via version_in_decreases
{
    if s.len() == 0 {
        None
    } else if is_ascii_whitespace(s[0]) {
        version_in(s.drop_first())
    } else {
        let n = word_len(s) as int;
        match version_token(s.subrange(0, n)) {
            Some(v) => Some(v),
            None => version_in(s.subrange(n, s.len() as int)),
        }
    }
}

/// A word of `s` starts at `i`: a character that is not whitespace, at the start or after
/// whitespace.
pub open spec fn word_starts_at(s: Seq<char>, i: int) -> bool {
    0 <= i < s.len() && !is_ascii_whitespace(s[i]) && (i == 0 || is_ascii_whitespace(s[i - 1]))
}

/// The word of `s` that starts at `i`.
pub open spec fn word_from(s: Seq<char>, i: int) -> Seq<char> {
    s.subrange(i, i + word_len(s.subrange(i, s.len() as int)))
}

/// A word holds no whitespace and ends at whitespace or at the end of the text.
pub proof fn lemma_word_len_stops(s: Seq<char>)
    ensures
        word_len(s) <= s.len(),
        forall|k: int| 0 <= k < word_len(s) ==> !is_ascii_whitespace(#[trigger] s[k]),
        word_len(s) < s.len() ==> is_ascii_whitespace(s[word_len(s) as int]),
    decreases s.len(),
{
    if s.len() > 0 && !is_ascii_whitespace(s[0]) {
        lemma_word_len_stops(s.drop_first());
        assert forall|k: int| 0 <= k < word_len(s) implies !is_ascii_whitespace(#[trigger] s[k]) by {
            if k > 0 {
                assert(s[k] == s.drop_first()[k - 1]);
            }
        }
    }
}

/// A version that `version_in` finds is named by a word of `s`.
pub proof fn lemma_version_in_word(s: Seq<char>)
    ensures
        version_in(s) matches Some(v) ==> exists|i: int|
            word_starts_at(s, i) && version_token(#[trigger] word_from(s, i)) == Some(v),
    decreases s.len(),
{
    if s.len() == 0 {
    } else if is_ascii_whitespace(s[0]) {
        let t = s.drop_first();
        lemma_version_in_word(t);
        if let Some(v) = version_in(s) {
            let i = choose|i: int| word_starts_at(t, i) && version_token(#[trigger] word_from(t, i)) == Some(v);
            assert(t.subrange(i, t.len() as int) =~= s.subrange(i + 1, s.len() as int));
            lemma_word_len(t.subrange(i, t.len() as int));
            assert(word_from(t, i) =~= word_from(s, i + 1));
            assert(word_starts_at(s, i + 1));
        }
    } else {
        let n = word_len(s) as int;
        lemma_word_len_stops(s);
        lemma_word_len(s);
        assert(s.subrange(0, s.len() as int) =~= s);
        if version_token(s.subrange(0, n)) is Some {
            assert(word_from(s, 0) == s.subrange(0, n));
            assert(word_starts_at(s, 0));
        } else {
            let t = s.subrange(n, s.len() as int);
            lemma_version_in_word(t);
            if let Some(v) = version_in(s) {
                let i = choose|i: int| word_starts_at(t, i) && version_token(#[trigger] word_from(t, i)) == Some(v);
                assert(t[0] == s[n]);
                assert(i > 0);
                assert(t[i - 1] == s[n + i - 1]);
                assert(t[i] == s[n + i]);
                assert(t.subrange(i, t.len() as int) =~= s.subrange(n + i, s.len() as int));
                lemma_word_len(t.subrange(i, t.len() as int));
                assert(word_from(t, i) =~= word_from(s, n + i));
                assert(word_starts_at(s, n + i));
            }
        }
    }
}

/// A request whose request line has no word `HTTP/1.1`, `HTTP/2` or `HTTP/2.0` names no
/// version: building a request from it fails, whatever its verb and path.
pub proof fn lemma_no_version_word_fails(req: Seq<char>)
    requires
        request_line(req) matches Some(line) ==> forall|i: int|
            word_starts_at(line, i) ==> version_token(#[trigger] word_from(line, i)) is None,
    ensures
        version_of(req) is None,
{
    if let Some(line) = request_line(req) {
        lemma_version_in_word(line);
    }
}

/// The version of a request: the first version word of its request line.
pub open spec fn version_of(req: Seq<char>) -> Option<Version> {
    match request_line(req) {
        Some(line) => version_in(line),
        None => None,
    }
}

/// The body of a request: all that follows the first blank line.
pub open spec fn body_of(req: Seq<char>) -> Seq<char> {
    match split_once(req, blank_line()) {
        Some((_, body)) => body,
        None => Seq::empty(),
    }
}

/// A header line, or the last line of unterminated text, and what follows it.
pub open spec fn next_line(s: Seq<char>) -> (Seq<char>, Seq<char>) {
    match split_once(s, crlf()) {
        Some(p) => p,
        None => (s, Seq::empty()),
    }
}

/// What follows the first line of a non-empty text is shorter than the text.
pub proof fn lemma_next_line_shorter(s: Seq<char>)
    requires
        s.len() > 0,
    ensures
        next_line(s).1.len() < s.len(),
{
    lemma_find_from_occurs(s, crlf(), 0);
}

#[via_fn]
proof fn header_pairs_decreases(s: Seq<char>) {
    if s.len() > 0 {
        lemma_next_line_shorter(s);
    }
}

/// The (name, value) pairs of a header block, in the order written, up to the first empty
/// line; `None` where a line before it holds no colon.
pub open spec fn header_pairs(s: Seq<char>) -> Option<Seq<(Seq<char>, Seq<char>)>>
    decreases s.len() via header_pairs_decreases
{
    if s.len() == 0 {
        Some(Seq::empty())
    } else {
        let (line, rest) = next_line(s);
        if line.len() == 0 {
            Some(Seq::empty())
        } else {
            match split_once(line, colon()) {
                Some((name, value)) => match header_pairs(rest) {
                    Some(hs) => Some(seq![(trim(name), trim(value))] + hs),
                    None => None,
                },
                None => None,
            }
        }
    }
}

/// The header pairs of a request: those of the lines after the request line.
pub open spec fn headers_of(req: Seq<char>) -> Option<Seq<(Seq<char>, Seq<char>)>> {
    match split_once(req, crlf()) {
        Some((_, rest)) => header_pairs(rest),
        None => None,
    }
}

/// The mapping that a list of pairs gives when a later pair overrides an earlier one.
pub open spec fn pairs_map(ps: Seq<(Seq<char>, Seq<char>)>) -> Map<Seq<char>, Seq<char>>
    decreases ps.len(),
{
    if ps.len() == 0 {
        Map::empty()
    } else {
        pairs_map(ps.drop_last()).insert(ps.last().0, ps.last().1)
    }
}

/// The character sequences of a list of string pairs.
pub open spec fn pairs_view(v: Seq<(String, String)>) -> Seq<(Seq<char>, Seq<char>)> {
    v.map_values(|p: (String, String)| (p.0@, p.1@))
}

/// `acc` followed by what `rest` holds, if it holds anything.
pub open spec fn prepend(
    acc: Seq<(Seq<char>, Seq<char>)>,
    rest: Option<Seq<(Seq<char>, Seq<char>)>>,
) -> Option<Seq<(Seq<char>, Seq<char>)>> {
    match rest {
        Some(hs) => Some(acc + hs),
        None => None,
    }
}

fn crlf_chars() -> (r: Vec<char>)
    ensures
        r@ == crlf(),
{
    vec!['\r', '\n']
}

/// The headers of a request, keyed by name; where a name comes twice the later value wins.
#[derive(Debug)]
pub struct HttpHeader {
    /// Every header line's trimmed name and value, in the order written.
    pub headers: Vec<(String, String)>,
}

impl View for HttpHeader {
    type V = Map<Seq<char>, Seq<char>>;

    open spec fn view(&self) -> Map<Seq<char>, Seq<char>> {
        pairs_map(pairs_view(self.headers@))
    }
}

impl HttpHeader {
    /// Reads the header block of a request; `None` where a header line holds no colon or
    /// the request line is not terminated.
    pub fn new(request: &str) -> (r: Option<HttpHeader>)
        ensures
            match r {
                Some(h) => headers_of(request@) == Some(pairs_view(h.headers@)),
                None => headers_of(request@) is None,
            },
    {
        let v = chars_of(request);
        let (_, rest) = split_once_at(&v, &crlf_chars())?;
        headers_in(&rest)
    }

    /// The value of the header `name`: that of its last line. Names are compared as written.
    pub fn get(&self, name: &str) -> (r: Option<String>)
        ensures
            match r {
                Some(v) => self@.contains_key(name@) && self@[name@] == v@,
                None => !self@.contains_key(name@),
            },
    {
        let key = chars_of(name);
        let ghost ps = pairs_view(self.headers@);
        let mut i: usize = self.headers.len();
        assert(ps.subrange(0, i as int) =~= ps);
        while i > 0
            invariant
                i <= self.headers.len(),
                ps == pairs_view(self.headers@),
                key@ == name@,
                pairs_map(ps).contains_key(name@) == pairs_map(ps.subrange(0, i as int)).contains_key(name@),
                pairs_map(ps).contains_key(name@) ==> pairs_map(ps)[name@] == pairs_map(ps.subrange(0, i as int))[name@],
            decreases i,
        {
            let entry = &self.headers[i - 1];
            assert(ps.subrange(0, i as int).drop_last() =~= ps.subrange(0, i - 1));
            if same(&chars_of(entry.0.as_str()), &key) {
                return Some(entry.1.clone());
            }
            i -= 1;
        }
        None
    }
}

fn headers_in(block: &Vec<char>) -> (r: Option<HttpHeader>)
    ensures
        match r {
            Some(h) => header_pairs(block@) == Some(pairs_view(h.headers@)),
            None => header_pairs(block@) is None,
        },
{
    let line_end = crlf_chars();
    let sep: Vec<char> = vec![':'];
    let mut acc: Vec<(String, String)> = Vec::new();
    let mut rest: Vec<char> = copy_range(block, 0, block.len());
    assert(block@.subrange(0, block@.len() as int) =~= block@);
    assert(pairs_view(acc@) =~= Seq::empty());
    assert(Seq::<(Seq<char>, Seq<char>)>::empty() + Seq::empty() =~= Seq::<(Seq<char>, Seq<char>)>::empty());
    loop
        invariant
            line_end@ == crlf(),
            sep@ == colon(),
            header_pairs(block@) == prepend(pairs_view(acc@), header_pairs(rest@)),
        decreases rest@.len(),
    {
        if rest.len() == 0 {
            assert(pairs_view(acc@) + Seq::empty() =~= pairs_view(acc@));
            return Some(HttpHeader { headers: acc });
        }
        proof {
            lemma_next_line_shorter(rest@);
        }
        let (line, after) = match split_once_at(&rest, &line_end) {
            Some(p) => p,
            None => (copy_range(&rest, 0, rest.len()), Vec::new()),
        };
        assert(rest@.subrange(0, rest@.len() as int) =~= rest@);
        assert(next_line(rest@) == (line@, after@));
        if line.len() == 0 {
            assert(pairs_view(acc@) + Seq::empty() =~= pairs_view(acc@));
            return Some(HttpHeader { headers: acc });
        }
        match split_once_at(&line, &sep) {
            Some((name, value)) => {
                let pair = (string_of(&trimmed(&name)), string_of(&trimmed(&value)));
                let ghost old_acc = acc@;
                acc.push(pair);
                proof {
                    assert(pairs_view(acc@) =~= pairs_view(old_acc).push((pair.0@, pair.1@)));
                    match header_pairs(after@) {
                        Some(hs) => {
                            assert(pairs_view(old_acc) + (seq![(pair.0@, pair.1@)] + hs)
                                =~= pairs_view(acc@) + hs);
                        },
                        None => {},
                    }
                }
                rest = after;
            },
            None => {
                return None;
            },
        }
    }
}

fn space_chars() -> (r: Vec<char>)
    ensures
        r@ == space(),
{
    vec![' ']
}

/// The verb that a token names.
fn method_from(t: &Vec<char>) -> (r: Method)
    ensures
        r == method_token(t@),
{
    let get: Vec<char> = vec!['G', 'E', 'T'];
    let post: Vec<char> = vec!['P', 'O', 'S', 'T'];
    if same(t, &get) {
        Method::Get
    } else if same(t, &post) {
        Method::Post
    } else {
        Method::Unrecognized
    }
}

fn method_in(req: &Vec<char>) -> (r: Method)
    ensures
        r == method_of(req@),
{
    match split_once_at(req, &crlf_chars()) {
        Some((line, _)) => match split_once_at(&line, &space_chars()) {
            Some((verb, _)) => method_from(&verb),
            None => Method::Unrecognized,
        },
        None => Method::Unrecognized,
    }
}

impl Method {
    /// The verb of a request; `Unrecognized` for any verb but GET and POST, or where the
    /// request line is not terminated or holds no space.
    pub fn new(request: &str) -> (r: Method)
        ensures
            r == method_of(request@),
    {
        method_in(&chars_of(request))
    }

    /// The verb that `s` names.
    pub fn identify(s: &str) -> (r: Method)
        ensures
            r == method_token(s@),
    {
        method_from(&chars_of(s))
    }
}

/// The version that a word names.
fn version_from(w: &Vec<char>) -> (r: Option<Version>)
    ensures
        r == version_token(w@),
{
    let v1_1: Vec<char> = vec!['H', 'T', 'T', 'P', '/', '1', '.', '1'];
    let v2: Vec<char> = vec!['H', 'T', 'T', 'P', '/', '2'];
    let v2_0: Vec<char> = vec!['H', 'T', 'T', 'P', '/', '2', '.', '0'];
    if same(w, &v1_1) {
        Some(Version::V1_1)
    } else if same(w, &v2) || same(w, &v2_0) {
        Some(Version::V2_0)
    } else {
        None
    }
}

fn resource_in(req: &Vec<char>) -> (r: Option<Vec<char>>)
    ensures
        match r {
            Some(p) => resource_of(req@) == Some(p@) && (p@.len() == 0 || p@[0] != '/'),
            None => resource_of(req@) is None,
        },
{
    let sp = space_chars();
    let (line, _) = split_once_at(req, &crlf_chars())?;
    let (verb, rest) = split_once_at(&line, &sp)?;
    match method_from(&verb) {
        Method::Get | Method::Post => {
            let (target, tail) = split_once_at(&rest, &sp)?;
            if version_from(&tail).is_none() {
                return None;
            }
            let t = trimmed(&target);
            proof {
                lemma_no_leading_slash(t@);
            }
            Some(strip_leading(&t))
        },
        Method::Unrecognized => None,
    }
}

/// The requested path, relative to the server root.
#[derive(Debug)]
pub struct Resource {
    pub path: String,
}

impl Resource {
    /// The path does not start with a slash; it may be empty.
    pub open spec fn well_formed(&self) -> bool {
        self.path@.len() == 0 || self.path@[0] != '/'
    }
}

impl Resource {
    /// The resource of a request whose verb is GET or POST and whose request line is exactly
    /// verb, path and version word; `None` otherwise.
    pub fn new(request: &str) -> (r: Option<Resource>)
        ensures
            match r {
                Some(res) => resource_of(request@) == Some(res.path@) && res.well_formed(),
                None => resource_of(request@) is None,
            },
    {
        let p = resource_in(&chars_of(request))?;
        Some(Resource { path: string_of(&p) })
    }
}

/// Length of the word that starts at `i`.
fn word_end(line: &Vec<char>, i: usize) -> (j: usize)
    requires
        i <= line.len(),
    ensures
        i <= j <= line.len(),
        word_len(line@.subrange(i as int, line@.len() as int)) == j - i,
{
    let n = line.len();
    let mut j = i;
    while j < n && !ascii_whitespace(line[j])
        invariant
            n == line.len(),
            i <= j <= n,
            word_len(line@.subrange(i as int, n as int)) == (j - i) + word_len(
                line@.subrange(j as int, n as int),
            ),
        decreases n - j,
    {
        assert(line@.subrange(j as int, n as int).drop_first() =~= line@.subrange(
            j + 1,
            n as int,
        ));
        j += 1;
    }
    j
}

/// Tests whether `line` holds `w` from `i` to `j`.
fn word_is(line: &Vec<char>, i: usize, j: usize, w: &Vec<char>) -> (r: bool)
    requires
        i <= j <= line.len(),
    ensures
        r == (line@.subrange(i as int, j as int) == w@),
{
    if j - i != w.len() {
        return false;
    }
    let r = matches_at(line, w, i);
    r
}

fn version_in_line(line: &Vec<char>) -> (r: Option<Version>)
    ensures
        r == version_in(line@),
{
    let v1_1: Vec<char> = vec!['H', 'T', 'T', 'P', '/', '1', '.', '1'];
    let v2: Vec<char> = vec!['H', 'T', 'T', 'P', '/', '2'];
    let v2_0: Vec<char> = vec!['H', 'T', 'T', 'P', '/', '2', '.', '0'];
    let n = line.len();
    let mut i: usize = 0;
    assert(line@.subrange(0, n as int) =~= line@);
    while i < n
        invariant
            n == line.len(),
            i <= n,
            v1_1@ == http_1_1_word(),
            v2@ == http_2_word(),
            v2_0@ == http_2_0_word(),
            version_in(line@) == version_in(line@.subrange(i as int, n as int)),
        decreases n - i,
    {
        let ghost rest = line@.subrange(i as int, n as int);
        if ascii_whitespace(line[i]) {
            assert(rest.drop_first() =~= line@.subrange(i + 1, n as int));
            i += 1;
        } else {
            let j = word_end(line, i);
            proof {
                lemma_word_len(rest);
                assert(rest.subrange(0, j - i) =~= line@.subrange(i as int, j as int));
                assert(rest.subrange(j - i, rest.len() as int) =~= line@.subrange(
                    j as int,
                    n as int,
                ));
            }
            if word_is(line, i, j, &v1_1) {
                return Some(Version::V1_1);
            } else if word_is(line, i, j, &v2) || word_is(line, i, j, &v2_0) {
                return Some(Version::V2_0);
            }
            i = j;
        }
    }
    None
}

fn version_in_request(req: &Vec<char>) -> (r: Option<Version>)
    ensures
        r == version_of(req@),
{
    let (line, _) = split_once_at(req, &crlf_chars())?;
    version_in_line(&line)
}

/// Error for a request whose request line names no known version.
#[derive(Debug)]
pub struct VersionError {
    msg: String,
}

impl VersionError {
    pub closed spec fn spec_message(&self) -> Seq<char> {
        self.msg@
    }

    /// The error's text: the prefix `Unknown version is ` and the whole request.
    pub fn message(&self) -> (r: String)
        ensures
            r@ == self.spec_message(),
    {
        self.msg.clone()
    }
}

fn version_error(request: &str) -> (e: VersionError)
    ensures
        e.spec_message() == "Unknown version is "@ + request@,
{
    let mut msg = String::from_str("Unknown version is ");
    msg.append(request);
    VersionError { msg }
}

impl Version {
    /// The first version word of the request line: `HTTP/1.1`, or `HTTP/2` / `HTTP/2.0`.
    pub fn new(request: &str) -> (r: Result<Version, VersionError>)
        ensures
            match r {
                Ok(v) => version_of(request@) == Some(v),
                Err(e) => version_of(request@) is None && e.spec_message() == "Unknown version is "@
                    + request@,
            },
    {
        match version_in_request(&chars_of(request)) {
            Some(v) => Ok(v),
            None => Err(version_error(request)),
        }
    }

    /// The version's text on the wire.
    pub fn to_string(&self) -> (r: String)
        ensures
            r@ == version_text(*self),
    {
        match self {
            Version::V1_1 => String::from_str("HTTP/1.1"),
            Version::V2_0 => String::from_str("HTTP/2"),
        }
    }
}

/// The version's text on the wire.
pub open spec fn version_text(v: Version) -> Seq<char> {
    match v {
        Version::V1_1 => "HTTP/1.1"@,
        Version::V2_0 => "HTTP/2"@,
    }
}

fn blank_line_chars() -> (r: Vec<char>)
    ensures
        r@ == blank_line(),
{
    vec!['\r', '\n', '\r', '\n']
}

/// A parsed request.
#[derive(Debug)]
pub struct HttpRequest {
    pub method: Method,
    /// The requested path; empty where the request names none.
    pub resource: Resource,
    pub version: Version,
    /// The headers; none where the header block is malformed.
    pub headers: HttpHeader,
    pub request_body: String,
}

impl HttpRequest {
    /// Parses a raw request. Only a missing version is an error: a verb other than GET or
    /// POST gives `Unrecognized`, a missing resource gives an empty path, and a malformed
    /// header block gives no headers.
    pub fn new(request: &str) -> (r: Result<HttpRequest, VersionError>)
        ensures
            r is Ok <==> version_of(request@) is Some,
            match r {
                Ok(q) => {
                    &&& q.resource.well_formed()
                    &&& version_of(request@) == Some(q.version)
                    &&& q.method == method_of(request@)
                    &&& q.resource.path@ == match resource_of(request@) {
                        Some(p) => p,
                        None => Seq::empty(),
                    }
                    &&& pairs_view(q.headers.headers@) == match headers_of(request@) {
                        Some(hs) => hs,
                        None => Seq::empty(),
                    }
                    &&& q.request_body@ == body_of(request@)
                },
                Err(e) => e.spec_message() == "Unknown version is "@ + request@,
            },
    {
        let v = chars_of(request);
        let method = method_in(&v);
        let resource = match resource_in(&v) {
            Some(p) => Resource { path: string_of(&p) },
            None => Resource { path: String::new() },
        };
        let version = match version_in_request(&v) {
            Some(ver) => ver,
            None => {
                return Err(version_error(request));
            },
        };
        let headers = match split_once_at(&v, &crlf_chars()) {
            Some((_, rest)) => match headers_in(&rest) {
                Some(h) => h,
                None => HttpHeader { headers: Vec::new() },
            },
            None => HttpHeader { headers: Vec::new() },
        };
        assert(pairs_view(Seq::<(String, String)>::empty()) =~= Seq::empty());
        let request_body = match split_once_at(&v, &blank_line_chars()) {
            Some((_, body)) => string_of(&body),
            None => String::new(),
        };
        Ok(HttpRequest { method, resource, version, headers, request_body })
    }
}

/// The token of a recognized verb.
pub open spec fn method_word(m: Method) -> Seq<char> {
    match m {
        Method::Get => get_word(),
        Method::Post => post_word(),
        Method::Unrecognized => Seq::empty(),
    }
}

/// A request line `VERB SP TARGET SP VERSION CRLF`, followed by the rest of a request.
pub open spec fn request_text(m: Method, target: Seq<char>, version: Seq<char>, rest: Seq<char>) -> Seq<
    char,
> {
    line_text(method_word(m), target, version) + crlf() + rest
}

proof fn lemma_words_plain()
    ensures
        plain(get_word()),
        plain(post_word()),
        plain(http_1_1_word()),
        plain(http_2_word()),
        plain(http_2_0_word()),
{
    assert(plain(get_word()));
    assert(plain(post_word()));
    assert(plain(http_1_1_word()));
    assert(plain(http_2_word()));
    assert(plain(http_2_0_word()));
}

proof fn lemma_word_len_of(w: Seq<char>, x: Seq<char>)
    requires
        plain(w),
        x.len() == 0 || is_ascii_whitespace(x[0]),
    ensures
        word_len(w + x) == w.len(),
    decreases w.len(),
{
    if w.len() == 0 {
        assert(w + x =~= x);
    } else {
        assert((w + x)[0] == w[0]);
        assert((w + x).drop_first() =~= w.drop_first() + x);
        assert(plain(w.drop_first())) by {
            assert forall|k: int| 0 <= k < w.drop_first().len() implies !is_whitespace(
                #[trigger] w.drop_first()[k],
            ) by {
                assert(w.drop_first()[k] == w[k + 1]);
            }
        }
        lemma_word_len_of(w.drop_first(), x);
    }
}

/// The request line `VERB SP TARGET SP VERSION`.
pub open spec fn line_text(verb: Seq<char>, target: Seq<char>, version: Seq<char>) -> Seq<char> {
    verb + space() + target + space() + version
}

proof fn lemma_line_ends_at_crlf(verb: Seq<char>, target: Seq<char>, version: Seq<char>, rest: Seq<char>)
    requires
        plain(verb),
        plain(target),
        plain(version),
    ensures
        request_line(line_text(verb, target, version) + crlf() + rest) == Some(
            line_text(verb, target, version),
        ),
{
    let line = line_text(verb, target, version);
    let req = line + crlf() + rest;
    assert(req.subrange(line.len() as int, line.len() + 2 as int) =~= crlf());
    assert forall|j: int| 0 <= j < line.len() implies req[j] != crlf()[0] by {
        assert(req[j] == line[j]);
        if j < verb.len() {
            assert(line[j] == verb[j]);
        } else if j == verb.len() {
        } else if j < verb.len() + 1 + target.len() {
            assert(line[j] == target[j - verb.len() - 1]);
        } else if j == verb.len() + 1 + target.len() {
        } else {
            assert(line[j] == version[j - verb.len() - 2 - target.len()]);
        }
    }
    lemma_find_first(req, crlf(), 0, line.len() as int);
    assert(req.subrange(0, line.len() as int) =~= line);
}

/// `w SP x` cut at its first space, where `w` holds no whitespace.
proof fn lemma_split_at_space(w: Seq<char>, x: Seq<char>)
    requires
        plain(w),
    ensures
        split_once(w + space() + x, space()) == Some((w, x)),
{
    let s = w + space() + x;
    assert(s.subrange(w.len() as int, w.len() + 1 as int) =~= space());
    assert forall|j: int| 0 <= j < w.len() implies s[j] != space()[0] by {
        assert(s[j] == w[j]);
    }
    lemma_find_first(s, space(), 0, w.len() as int);
    assert(s.subrange(0, w.len() as int) =~= w);
    assert(s.subrange(w.len() + 1 as int, s.len() as int) =~= x);
}

/// `version_in` passes over a word that names no version and the space after it.
proof fn lemma_version_in_skips(w: Seq<char>, x: Seq<char>)
    requires
        plain(w),
        w.len() > 0,
        version_token(w) is None,
    ensures
        version_in(w + space() + x) == version_in(x),
{
    let s = w + (space() + x);
    assert(s =~= w + space() + x);
    lemma_word_len_of(w, space() + x);
    assert(s[0] == w[0]);
    assert(s.subrange(0, w.len() as int) =~= w);
    assert(s.subrange(w.len() as int, s.len() as int) =~= space() + x);
    assert((space() + x).drop_first() =~= x);
    assert((space() + x)[0] == ' ');
    assert(version_in(space() + x) == version_in(x));
    assert(!is_whitespace(w[0]));
    assert(!is_ascii_whitespace(s[0]));
    assert(version_in(s) == version_in(s.subrange(w.len() as int, s.len() as int)));
}

proof fn lemma_version_word(version: Seq<char>)
    requires
        plain(version),
        version_token(version) is Some,
    ensures
        version_in(version) == version_token(version),
{
    lemma_word_len_of(version, Seq::empty());
    assert(version + Seq::<char>::empty() =~= version);
    assert(version.subrange(0, version.len() as int) =~= version);
}

/// A well-formed request line with a recognized verb, a target that starts with a slash and
/// holds no whitespace, and a version word, parses back into that verb, that target without
/// its leading slashes, and that version.
pub proof fn lemma_request_round_trip(
    m: Method,
    target: Seq<char>,
    version: Seq<char>,
    rest: Seq<char>,
)
    requires
        m != Method::Unrecognized,
        version_token(version) is Some,
        target.len() > 0,
        target[0] == '/',
        plain(target),
    ensures
        method_of(request_text(m, target, version, rest)) == m,
        resource_of(request_text(m, target, version, rest)) == Some(strip_leading_slashes(target)),
        version_of(request_text(m, target, version, rest)) == version_token(version),
{
    lemma_words_plain();
    let verb = method_word(m);
    let tail = target + space() + version;
    let line = line_text(verb, target, version);
    let req = request_text(m, target, version, rest);
    assert(plain(version));
    assert(plain(verb));
    assert(req =~= line + crlf() + rest);
    lemma_line_ends_at_crlf(verb, target, version, rest);
    assert(line =~= verb + space() + tail);
    lemma_split_at_space(verb, tail);
    lemma_split_at_space(target, version);
    assert(method_token(verb) == m);
    assert(trim_start(target) == target);
    assert(trim_end(target) == target);
    assert(version_token(target) is None) by {
        if target == http_1_1_word() || target == http_2_word() || target == http_2_0_word() {
            assert(target[0] == 'H');
        }
    }
    lemma_version_word(version);
    lemma_version_in_skips(target, version);
    lemma_version_in_skips(verb, tail);
}

} // verus!
