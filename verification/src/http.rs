//! Reading an HTTP/1.1 request from its text.

use vstd::prelude::*;

use crate::text::{
    chars_of, contains_sub, has_char, has_sub, lines, lines_of, split_by, split_chars, split_words,
    string_of, take_chars, views, words, lemma_split_by_len,
};
use crate::textmap::TextMap;

verus! {

/// The request method.
#[derive(Debug, PartialEq, Eq, Structural, Clone, Copy)]
pub enum Method {
    Get,
    Post,
    Uninitialized,
}

/// The protocol version.
#[derive(Debug, PartialEq, Eq, Structural, Clone, Copy)]
pub enum Version {
    V1_1,
    V2_0,
    Uninitialized,
}

/// The requested resource.
#[derive(Debug, PartialEq)]
pub enum Resource {
    Path(String),
}

/// `w` is `lower` with each letter in either case.
pub open spec fn word_is(w: Seq<char>, lower: Seq<char>, upper: Seq<char>) -> bool {
    w.len() == lower.len() && forall|i: int| 0 <= i < w.len() ==> (w[i] == lower[i] || w[i] == upper[i])
}

/// The method a word names: `GET` or `POST`, letters in either case;
/// anything else is `Uninitialized`.
pub open spec fn method_of(w: Seq<char>) -> Method {
    if word_is(w, seq!['g', 'e', 't'], seq!['G', 'E', 'T']) {
        Method::Get
    } else if word_is(w, seq!['p', 'o', 's', 't'], seq!['P', 'O', 'S', 'T']) {
        Method::Post
    } else {
        Method::Uninitialized
    }
}

/// The version a word names: only `HTTP/1.1` is recognised.
pub open spec fn version_of(w: Seq<char>) -> Version {
    if w == seq!['H', 'T', 'T', 'P', '/', '1', '.', '1'] {
        Version::V1_1
    } else {
        Version::Uninitialized
    }
}

fn word_matches(w: &[char], lower: &[char], upper: &[char]) -> (r: bool)
    requires
        lower@.len() == upper@.len(),
    ensures
        r == word_is(w@, lower@, upper@),
{
    if w.len() != lower.len() {
        return false;
    }
    let mut i: usize = 0;
    while i < w.len()
        invariant
            w@.len() == lower@.len(),
            lower@.len() == upper@.len(),
            i <= w@.len(),
            forall|j: int| 0 <= j < i ==> (w@[j] == lower@[j] || w@[j] == upper@[j]),
        decreases w@.len() - i,
    {
        if w[i] != lower[i] && w[i] != upper[i] {
            return false;
        }
        i += 1;
    }
    true
}

fn method_from_chars(w: &[char]) -> (r: Method)
    ensures
        r == method_of(w@),
{
    let gl = ['g', 'e', 't'];
    let gu = ['G', 'E', 'T'];
    let pl = ['p', 'o', 's', 't'];
    let pu = ['P', 'O', 'S', 'T'];
    assert(gl@ =~= seq!['g', 'e', 't'] && gu@ =~= seq!['G', 'E', 'T']);
    assert(pl@ =~= seq!['p', 'o', 's', 't'] && pu@ =~= seq!['P', 'O', 'S', 'T']);
    if word_matches(w, &gl, &gu) {
        Method::Get
    } else if word_matches(w, &pl, &pu) {
        Method::Post
    } else {
        Method::Uninitialized
    }
}

fn version_from_chars(w: &[char]) -> (r: Version)
    ensures
        r == version_of(w@),
{
    let v = ['H', 'T', 'T', 'P', '/', '1', '.', '1'];
    assert(v@ =~= seq!['H', 'T', 'T', 'P', '/', '1', '.', '1']);
    if w.len() == v.len() && matches_whole(w, &v) {
        Version::V1_1
    } else {
        Version::Uninitialized
    }
}

fn matches_whole(w: &[char], v: &[char]) -> (r: bool)
    requires
        w@.len() == v@.len(),
    ensures
        r == (w@ == v@),
{
    let mut i: usize = 0;
    while i < w.len()
        invariant
            w@.len() == v@.len(),
            i <= w@.len(),
            forall|j: int| 0 <= j < i ==> w@[j] == v@[j],
        decreases w@.len() - i,
    {
        if w[i] != v[i] {
            return false;
        }
        i += 1;
    }
    assert(w@ =~= v@);
    true
}

impl<'a> From<&'a str> for Method {
    fn from(value: &'a str) -> (r: Method) {
        let w = chars_of(value);
        method_from_chars(w.as_slice())
    }
}

impl<'a> vstd::std_specs::convert::FromSpecImpl<&'a str> for Method {
    open spec fn obeys_from_spec() -> bool {
        true
    }

    open spec fn from_spec(value: &'a str) -> Method {
        method_of(value@)
    }
}

impl<'a> From<&'a str> for Version {
    fn from(value: &'a str) -> (r: Version) {
        let w = chars_of(value);
        version_from_chars(w.as_slice())
    }
}

impl<'a> vstd::std_specs::convert::FromSpecImpl<&'a str> for Version {
    open spec fn obeys_from_spec() -> bool {
        true
    }

    open spec fn from_spec(value: &'a str) -> Version {
        version_of(value@)
    }
}

/// The text that marks a request line.
pub open spec fn http_tag() -> Seq<char> {
    seq!['H', 'T', 'T', 'P']
}

/// A header line's key and value: the text before the first `:`, and the
/// text between the first and the second `:` (or the end of the line).
pub open spec fn header_of(line: Seq<char>) -> (Seq<char>, Seq<char>) {
    let p = split_by(line, seq![':']);
    (p[0], if p.len() > 1 { p[1] } else { Seq::empty() })
}

/// A request line's method, path and version: its first three words.
pub open spec fn request_line_of(line: Seq<char>) -> (Method, Seq<char>, Version) {
    let w = words(line);
    (method_of(w[0]), w[1], version_of(w[2]))
}

/// A line that mentions `HTTP` has at least three words.
pub open spec fn line_ok(line: Seq<char>) -> bool {
    has_sub(line, http_tag()) ==> words(line).len() >= 3
}

/// Every line of the request that mentions `HTTP` can be read as a request
/// line.
pub open spec fn request_ok(s: Seq<char>) -> bool {
    forall|i: int| 0 <= i < lines(s).len() ==> line_ok(#[trigger] lines(s)[i])
}

/// What a request denotes: method, version, path, headers and body.
pub ghost struct RequestView {
    pub method: Method,
    pub version: Version,
    pub resource: Seq<char>,
    pub headers: Map<Seq<char>, Seq<char>>,
    pub msg_body: Seq<char>,
}

/// Before any line is read.
pub open spec fn initial_view() -> RequestView {
    RequestView {
        method: Method::Uninitialized,
        version: Version::V1_1,
        resource: Seq::empty(),
        headers: Map::empty(),
        msg_body: Seq::empty(),
    }
}

/// The effect of one line: a line that mentions `HTTP` sets method, path and
/// version; else a line with a `:` adds a header (a later one replaces an
/// earlier one of the same key); an empty line changes nothing; any other
/// line becomes the body.
pub open spec fn read_line(st: RequestView, line: Seq<char>) -> RequestView {
    if has_sub(line, http_tag()) {
        let (m, r, v) = request_line_of(line);
        RequestView { method: m, resource: r, version: v, ..st }
    } else if line.contains(':') {
        let (k, v) = header_of(line);
        RequestView { headers: st.headers.insert(k, v), ..st }
    } else if line.len() == 0 {
        st
    } else {
        RequestView { msg_body: line, ..st }
    }
}

/// The lines read in order.
pub open spec fn read_lines(ls: Seq<Seq<char>>) -> RequestView
    decreases ls.len(),
{
    if ls.len() == 0 {
        initial_view()
    } else {
        read_line(read_lines(ls.drop_last()), ls.last())
    }
}

/// The request that the text `s` denotes.
pub open spec fn parse_request(s: Seq<char>) -> RequestView {
    read_lines(lines(s))
}

/// Of two header lines with the same key, the later one decides the value:
/// reading the earlier one first leaves the same headers.
pub proof fn lemma_later_header_wins(st: RequestView, a: Seq<char>, b: Seq<char>)
    requires
        !has_sub(a, http_tag()) && a.contains(':'),
        !has_sub(b, http_tag()) && b.contains(':'),
        header_of(a).0 == header_of(b).0,
    ensures
        read_line(read_line(st, a), b).headers == read_line(st, b).headers,
{
    assert(read_line(read_line(st, a), b).headers =~= read_line(st, b).headers);
}

/// An empty line leaves the request as it was.
pub proof fn lemma_empty_line_ignored(st: RequestView)
    ensures
        read_line(st, Seq::empty()) == st,
{
    assert(!has_sub(Seq::<char>::empty(), http_tag()));
    assert(!Seq::<char>::empty().contains(':'));
}

/// A parsed HTTP request.
#[derive(Debug)]
pub struct HttpRequest {
    pub method: Method,
    pub version: Version,
    pub resource: Resource,
    pub headers: TextMap<String>,
    pub msg_body: String,
}

impl View for HttpRequest {
    type V = RequestView;

    open spec fn view(&self) -> RequestView {
        RequestView {
            method: self.method,
            version: self.version,
            resource: match self.resource {
                Resource::Path(p) => p@,
            },
            headers: self.headers.as_map(),
            msg_body: self.msg_body@,
        }
    }
}

fn header_parts(line: &[char]) -> (r: (Vec<char>, Vec<char>))
    ensures
        (r.0@, r.1@) == header_of(line@),
{
    let colon = [':'];
    assert(colon@ =~= seq![':']);
    let p = split_chars(line, &colon);
    proof {
        lemma_split_by_len(line@, seq![':']);
    }
    assert(p@[0]@ == views(p@)[0]);
    let key = take_chars(p[0].as_slice(), p[0].len());
    assert(p@[0]@.take(p@[0]@.len() as int) == p@[0]@);
    if p.len() > 1 {
        assert(p@[1]@ == views(p@)[1]);
        let value = take_chars(p[1].as_slice(), p[1].len());
        assert(p@[1]@.take(p@[1]@.len() as int) == p@[1]@);
        (key, value)
    } else {
        (key, Vec::new())
    }
}

fn request_line_parts(line: &[char]) -> (r: (Method, Vec<char>, Version))
    requires
        words(line@).len() >= 3,
    ensures
        (r.0, r.1@, r.2) == request_line_of(line@),
{
    let w = split_words(line);
    assert(w@[0]@ == views(w@)[0] && w@[1]@ == views(w@)[1] && w@[2]@ == views(w@)[2]);
    let m = method_from_chars(w[0].as_slice());
    let path = take_chars(w[1].as_slice(), w[1].len());
    assert(w@[1]@.take(w@[1]@.len() as int) == w@[1]@);
    let v = version_from_chars(w[2].as_slice());
    (m, path, v)
}

/// Splits a header line at `:` into key and value.
pub fn process_header_line(req: &str) -> (r: (String, String))
    ensures
        (r.0@, r.1@) == header_of(req@),
{
    let line = chars_of(req);
    let (k, v) = header_parts(line.as_slice());
    (string_of(k.as_slice()), string_of(v.as_slice()))
}

/// Reads method, path and version from a request line.
pub fn process_req_line(req: &str) -> (r: (Method, Resource, Version))
    requires
        words(req@).len() >= 3,
    ensures
        r.0 == request_line_of(req@).0,
        r.1 == Resource::Path(r.1->Path_0),
        (r.1->Path_0)@ == request_line_of(req@).1,
        r.2 == request_line_of(req@).2,
{
    let line = chars_of(req);
    let (m, p, v) = request_line_parts(line.as_slice());
    (m, Resource::Path(string_of(p.as_slice())), v)
}

fn line_ok_exec(line: &[char], tag: &[char]) -> (r: bool)
    requires
        tag@ == http_tag(),
    ensures
        r == line_ok(line@),
{
    if contains_sub(line, tag) {
        let w = split_words(line);
        w.len() >= 3
    } else {
        true
    }
}

/// Whether every line of `req` that mentions `HTTP` has the three words of
/// a request line, so that [`HttpRequest::from`] can read it.
pub fn request_is_readable(req: &str) -> (r: bool)
    ensures
        r == request_ok(req@),
{
    let chars = chars_of(req);
    let ls = lines_of(chars.as_slice());
    let ghost lv = views(ls@);
    let tag = ['H', 'T', 'T', 'P'];
    assert(tag@ =~= http_tag());
    let mut i: usize = 0;
    while i < ls.len()
        invariant
            lv == views(ls@),
            lv == lines(req@),
            tag@ == http_tag(),
            i <= ls@.len(),
            forall|j: int| 0 <= j < i ==> line_ok(#[trigger] lv[j]),
        decreases ls@.len() - i,
    {
        assert(ls@[i as int]@ == lv[i as int]);
        if !line_ok_exec(ls[i].as_slice(), &tag) {
            return false;
        }
        i += 1;
    }
    true
}

impl HttpRequest {
    /// Reads a request from its text, line by line (see [`read_line`]).
    pub fn from(req: String) -> (r: HttpRequest)
        requires
            request_ok(req@),
        ensures
            r@ == parse_request(req@),
    {
        let chars = chars_of(req.as_str());
        let ls = lines_of(chars.as_slice());
        let ghost lv = views(ls@);
        let tag = ['H', 'T', 'T', 'P'];
        assert(tag@ =~= http_tag());
        let mut method = Method::Uninitialized;
        let mut version = Version::V1_1;
        let mut resource: Vec<char> = Vec::new();
        let mut headers: TextMap<String> = TextMap::new();
        let mut body: Vec<char> = Vec::new();
        let mut i: usize = 0;
        while i < ls.len()
            invariant
                lv == views(ls@),
                lv == lines(req@),
                request_ok(req@),
                tag@ == http_tag(),
                i <= ls@.len(),
                (RequestView {
                    method,
                    version,
                    resource: resource@,
                    headers: headers.as_map(),
                    msg_body: body@,
                }) == read_lines(lv.take(i as int)),
            decreases ls@.len() - i,
        {
            let line = ls[i].as_slice();
            assert(line@ == lv[i as int]);
            assert(lv.take(i + 1).drop_last() == lv.take(i as int));
            assert(lv.take(i + 1).last() == lv[i as int]);
            if contains_sub(line, &tag) {
                assert(line_ok(lines(req@)[i as int]));
                let (m, p, v) = request_line_parts(line);
                method = m;
                resource = p;
                version = v;
            } else if has_char(line, ':') {
                let (k, v) = header_parts(line);
                headers.insert(string_of(k.as_slice()), string_of(v.as_slice()));
            } else if line.len() == 0 {
            } else {
                body = take_chars(line, line.len());
                assert(line@.take(line@.len() as int) == line@);
            }
            i += 1;
        }
        assert(lv.take(ls@.len() as int) == lv);
        HttpRequest {
            method,
            version,
            resource: Resource::Path(string_of(resource.as_slice())),
            headers,
            msg_body: string_of(body.as_slice()),
        }
    }

    /// Reads a request if [`request_is_readable`] holds of it, else `None`.
    pub fn parse_checked(req: String) -> (r: Option<HttpRequest>)
        ensures
            r is Some <==> request_ok(req@),
            r matches Some(q) ==> q@ == parse_request(req@),
    {
        if request_is_readable(req.as_str()) {
            Some(HttpRequest::from(req))
        } else {
            None
        }
    }
}

} // verus!
