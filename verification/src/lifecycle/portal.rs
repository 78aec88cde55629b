//! The developer portal: a read-only page that lists the configured OpenAPI
//! documents.
//!
//! A document that cannot be had does not keep the page from being rendered:
//! it is listed as unavailable.

pub mod laws;

use vstd::prelude::*;
use vstd::string::*;

use crate::json;
use crate::json::{parse_json, Json, JsonView};
use crate::text;
use crate::text::{
    begins_with, cat2, cat3, cat5, clone_opt, cut, cut_last, cut_once, drop_chars, parse_number,
    utf8_text,
};

verus! {

// ---------------------------------------------------------------------------
// Sources
// ---------------------------------------------------------------------------

/// A configured document: a file, or a URL to fetch it from.
#[derive(Debug, Clone, PartialEq, Eq)]
pub struct DevPortalSpec {
    pub name: Option<String>,
    pub file: Option<String>,
    pub url: Option<String>,
}

/// The configuration of the portal.
#[derive(Debug, Clone, PartialEq, Eq)]
pub struct DevPortalConfig {
    pub enabled: bool,
    pub path: String,
    pub specs: Vec<DevPortalSpec>,
}

/// Where a document comes from.
#[derive(Debug, Clone, PartialEq, Eq)]
pub enum DevPortalSpecSource {
    File(String),
    Url(String),
}

/// Where a document comes from, as what it is.
#[verifier::ext_equal]
pub enum SourceView {
    File { path: Seq<char> },
    Url { url: Seq<char> },
}

impl View for DevPortalSpecSource {
    type V = SourceView;

    open spec fn view(&self) -> SourceView {
        match self {
            DevPortalSpecSource::File(p) => SourceView::File { path: p@ },
            DevPortalSpecSource::Url(u) => SourceView::Url { url: u@ },
        }
    }
}

impl DevPortalSpecSource {
    /// A copy of the source.
    pub fn copy(&self) -> (s: Self)
        ensures
            s@ == self@,
    {
        match self {
            DevPortalSpecSource::File(p) => DevPortalSpecSource::File(p.clone()),
            DevPortalSpecSource::Url(u) => DevPortalSpecSource::Url(u.clone()),
        }
    }
}

/// The source of a configured document: the file where one is set, the URL
/// otherwise; without either, a file without a path.
pub open spec fn source_of(file: Option<Seq<char>>, url: Option<Seq<char>>) -> SourceView {
    match (file, url) {
        (Some(path), _) => SourceView::File { path },
        (None, Some(url)) => SourceView::Url { url },
        (None, None) => SourceView::File { path: ""@ },
    }
}

/// The source of a configured document.
pub fn resolve_source(spec: &DevPortalSpec) -> (s: DevPortalSpecSource)
    ensures
        s@ == source_of(text::opt_text(spec.file), text::opt_text(spec.url)),
{
    if let Some(file) = &spec.file {
        return DevPortalSpecSource::File(file.clone());
    }
    if let Some(url) = &spec.url {
        return DevPortalSpecSource::Url(url.clone());
    }
    DevPortalSpecSource::File("".to_owned())
}

// ---------------------------------------------------------------------------
// Names
// ---------------------------------------------------------------------------

/// The name of a file without its directory.
pub open spec fn base_name(path: Seq<char>) -> Seq<char> {
    let i = text::rfind(path, '/');
    if 0 <= i < path.len() {
        path.skip(i + 1)
    } else {
        path
    }
}

/// The name of a file without its directory and its last extension.
pub open spec fn stem(path: Seq<char>) -> Seq<char> {
    let base = base_name(path);
    let i = text::rfind(base, '.');
    if 0 <= i < base.len() {
        base.take(i)
    } else {
        base
    }
}

/// The name of a file without its directory and its last extension.
pub fn file_stem(path: &str) -> (r: Option<String>)
    ensures
        r matches Some(s) && s@ == stem(path@),
{
    let base = match cut_last(path, '/') {
        Some(p) => p.1,
        None => path.to_owned(),
    };
    match cut_last(base.as_str(), '.') {
        Some(p) => Some(p.0),
        None => Some(base),
    }
}

/// What follows a scheme.
pub open spec fn after_scheme(url: Seq<char>, scheme: Seq<char>) -> Option<Seq<char>> {
    if scheme.len() <= url.len() && url.take(scheme.len() as int) == scheme {
        Some(url.skip(scheme.len() as int))
    } else {
        None
    }
}

/// The host of a text that begins with an authority.
pub open spec fn host_in(rest: Seq<char>) -> Seq<char> {
    text::split(text::split(rest, '/')[0], ':')[0]
}

/// The host of a URL.
pub open spec fn host_of(url: Seq<char>) -> Option<Seq<char>> {
    match after_scheme(url, "http://"@) {
        Some(rest) => Some(host_in(rest)),
        None => match after_scheme(url, "https://"@) {
            Some(rest) => Some(host_in(rest)),
            None => None,
        },
    }
}

fn first_piece(s: &str, c: char) -> (r: String)
    ensures
        r@ == text::split(s@, c)[0],
{
    let pieces = cut(s, c);
    let ghost all = text::split(s@, c);
    assert(text::texts(pieces@) == all);
    assert(all.len() > 0);
    assert(all[0] == pieces@[0]@);
    pieces[0].clone()
}

/// The host of a URL; none where its scheme is another one.
pub fn url_host(url: &str) -> (r: Option<String>)
    ensures
        text::opt_text(r) == host_of(url@),
{
    proof {
        reveal_strlit("http://");
        reveal_strlit("https://");
    }
    let rest = if begins_with(url, "http://") {
        drop_chars(url, 7)
    } else if begins_with(url, "https://") {
        drop_chars(url, 8)
    } else {
        return None;
    };
    let authority = first_piece(rest.as_str(), '/');
    Some(first_piece(authority.as_str(), ':'))
}

/// The title and the version of a document.
pub open spec fn title_version(doc: JsonView) -> (Option<Seq<char>>, Option<Seq<char>>) {
    match json::member(doc, "info"@) {
        Some(info) => (text_member(info, "title"@), text_member(info, "version"@)),
        None => (None, None),
    }
}

/// The text under a key.
pub open spec fn text_member(v: JsonView, key: Seq<char>) -> Option<Seq<char>> {
    match json::member(v, key) {
        Some(JsonView::Text { text }) => Some(text),
        _ => None,
    }
}

fn text_of(v: &Json, key: &str) -> (r: Option<String>)
    ensures
        text::opt_text(r) == text_member(v@, key@),
{
    match v.get(key) {
        Some(x) => match x.as_str() {
            Some(s) => Some(s.to_owned()),
            None => None,
        },
        None => None,
    }
}

/// The title and the version of a document.
pub fn extract_title_version(doc: &Json) -> (r: (Option<String>, Option<String>))
    ensures
        (text::opt_text(r.0), text::opt_text(r.1)) == title_version(doc@),
{
    match doc.get("info") {
        Some(info) => (text_of(info, "title"), text_of(info, "version")),
        None => (None, None),
    }
}

// ---------------------------------------------------------------------------
// Loaded documents
// ---------------------------------------------------------------------------

/// A document of the portal.
#[derive(Debug, Clone)]
pub struct LoadedSpec {
    pub source: DevPortalSpecSource,
    pub doc: Option<Json>,
    pub name: String,
    pub version: String,
    pub error: Option<String>,
}

/// What a document of the portal is.
#[verifier::ext_equal]
pub struct LoadedView {
    pub source: SourceView,
    pub doc: Option<JsonView>,
    pub name: Seq<char>,
    pub version: Seq<char>,
    pub error: Option<Seq<char>>,
}

/// An optional document.
pub open spec fn doc_of(d: Option<Json>) -> Option<JsonView> {
    match d {
        Some(j) => Some(j@),
        None => None,
    }
}

impl View for LoadedSpec {
    type V = LoadedView;

    open spec fn view(&self) -> LoadedView {
        LoadedView {
            source: self.source@,
            doc: doc_of(self.doc),
            name: self.name@,
            version: self.version@,
            error: text::opt_text(self.error),
        }
    }
}

/// What documents are.
pub open spec fn loaded_of(v: Seq<LoadedSpec>) -> Seq<LoadedView> {
    v.map_values(|s: LoadedSpec| s@)
}

impl LoadedSpec {
    /// A copy of the document.
    pub fn copy(&self) -> (s: Self)
        ensures
            s@ == self@,
    {
        let doc = match &self.doc {
            Some(j) => Some(j.copy()),
            None => None,
        };
        LoadedSpec {
            source: self.source.copy(),
            doc,
            name: self.name.clone(),
            version: self.version.clone(),
            error: clone_opt(&self.error),
        }
    }
}

/// The first of two texts that is there, or the stem of a path.
pub open spec fn name_or_stem(
    given: Option<Seq<char>>,
    title: Option<Seq<char>>,
    path: Seq<char>,
) -> Seq<char> {
    match (given, title) {
        (Some(n), _) => n,
        (None, Some(t)) => t,
        (None, None) => stem(path),
    }
}

/// A text, or the empty one.
pub open spec fn or_empty(s: Option<Seq<char>>) -> Seq<char> {
    match s {
        Some(t) => t,
        None => ""@,
    }
}

/// A file document, from what parsing it gave.
pub open spec fn parsed_file(
    path: Seq<char>,
    given: Option<Seq<char>>,
    parsed: Result<JsonView, Seq<char>>,
) -> LoadedView {
    match parsed {
        Ok(doc) => LoadedView {
            source: SourceView::File { path },
            doc: Some(doc),
            name: name_or_stem(given, title_version(doc).0, path),
            version: or_empty(title_version(doc).1),
            error: None,
        },
        Err(e) => LoadedView {
            source: SourceView::File { path },
            doc: None,
            name: name_or_stem(given, None, path),
            version: ""@,
            error: Some("parse failed: "@ + e),
        },
    }
}

/// A file document, from what reading it gave.
pub open spec fn read_file(
    path: Seq<char>,
    given: Option<Seq<char>>,
    read: Result<Seq<char>, Seq<char>>,
) -> LoadedView {
    match read {
        Err(e) => LoadedView {
            source: SourceView::File { path },
            doc: None,
            name: name_or_stem(given, None, path),
            version: ""@,
            error: Some("read failed: "@ + e),
        },
        Ok(content) => parsed_file(path, given, json::parsed_json(content)),
    }
}

/// What reading gave.
pub open spec fn read_view(r: Result<String, String>) -> Result<Seq<char>, Seq<char>> {
    match r {
        Ok(s) => Ok(s@),
        Err(e) => Err(e@),
    }
}

fn choose_name(given: Option<&str>, title: Option<String>, path: &str) -> (s: String)
    ensures
        s@ == name_or_stem(text::opt_str(given), text::opt_text(title), path@),
{
    match given {
        Some(n) => n.to_owned(),
        None => match title {
            Some(t) => t,
            None => match file_stem(path) {
                Some(s) => s,
                None => path.to_owned(),
            },
        },
    }
}

/// A file document, from what parsing it gave.
pub fn file_spec_from_parsed(path: &str, override_name: Option<&str>, parsed: Result<
    Json,
    String,
>) -> (s: LoadedSpec)
    ensures
        s@ == parsed_file(path@, text::opt_str(override_name), json::parse_view(parsed)),
{
    match parsed {
        Ok(doc) => {
            let (title, version) = extract_title_version(&doc);
            let name = choose_name(override_name, title, path);
            let version = match version {
                Some(v) => v,
                None => "".to_owned(),
            };
            LoadedSpec {
                source: DevPortalSpecSource::File(path.to_owned()),
                doc: Some(doc),
                name,
                version,
                error: None,
            }
        },
        Err(e) => LoadedSpec {
            source: DevPortalSpecSource::File(path.to_owned()),
            doc: None,
            name: choose_name(override_name, None, path),
            version: "".to_owned(),
            error: Some(cat2("parse failed: ", e.as_str())),
        },
    }
}

/// A file document, from what reading it gave. What went wrong is recorded
/// with the document.
pub fn load_file_spec(path: &str, override_name: Option<&str>, read: Result<String, String>) -> (s:
    LoadedSpec)
    ensures
        s@ == read_file(path@, text::opt_str(override_name), read_view(read)),
{
    match read {
        Ok(content) => file_spec_from_parsed(path, override_name, parse_json(content.as_str())),
        Err(e) => LoadedSpec {
            source: DevPortalSpecSource::File(path.to_owned()),
            doc: None,
            name: choose_name(override_name, None, path),
            version: "".to_owned(),
            error: Some(cat2("read failed: ", e.as_str())),
        },
    }
}

// ---------------------------------------------------------------------------
// Fetching
// ---------------------------------------------------------------------------

/// The parts of an `http` URL: the host, the port and the path.
#[verifier::ext_equal]
pub struct HttpUrlView {
    pub host: Seq<char>,
    pub port: nat,
    pub path: Seq<char>,
}

/// The host and the port of an authority.
pub open spec fn host_port(authority: Seq<char>) -> Result<(Seq<char>, nat), Seq<char>> {
    match text::split_once(authority, ':') {
        Some(p) => match text::parse_max(p.1, u16::MAX as nat) {
            Some(n) => Ok((p.0, n)),
            None => Err("invalid port"@),
        },
        None => Ok((authority, 80)),
    }
}

/// The parts of an `http` URL, or the text of the error.
pub open spec fn http_parts(url: Seq<char>) -> Result<HttpUrlView, Seq<char>> {
    match after_scheme(url, "http://"@) {
        None => Err("not an http URL"@),
        Some(rest) => {
            let i = text::find(rest, '/');
            let path = if i < rest.len() {
                rest.skip(i)
            } else {
                "/"@
            };
            match host_port(rest.take(i)) {
                Ok(hp) => Ok(HttpUrlView { host: hp.0, port: hp.1, path }),
                Err(e) => Err(e),
            }
        },
    }
}

/// The parts of an `http://host[:port]/path` URL: the host, the port and the
/// path.
pub fn parse_http_url(url: &str) -> (r: Result<(String, u16, String), String>)
    ensures
        match (r, http_parts(url@)) {
            (Ok(p), Ok(w)) => p.0@ == w.host && p.1 == w.port && p.2@ == w.path,
            (Err(e), Err(w)) => e@ == w,
            _ => false,
        },
{
    proof {
        reveal_strlit("http://");
        reveal_strlit("/");
    }
    if !begins_with(url, "http://") {
        return Err("not an http URL".to_owned());
    }
    let rest = drop_chars(url, 7);
    proof {
        text::lemma_find(rest@, '/');
    }
    let (authority, path) = match cut_once(rest.as_str(), '/') {
        Some(p) => {
            let path = cat2("/", p.1.as_str());
            assert(path@ =~= rest@.skip(text::find(rest@, '/')));
            (p.0, path)
        },
        None => {
            assert(rest@.take(text::find(rest@, '/')) =~= rest@);
            (rest, "/".to_owned())
        },
    };
    match cut_once(authority.as_str(), ':') {
        Some(p) => match parse_number(p.1.as_str(), 65535) {
            Some(n) => Ok((p.0, n as u16, path)),
            None => Err("invalid port".to_owned()),
        },
        None => Ok((authority, 80, path)),
    }
}

/// What to send to a host for a document.
#[derive(Debug, Clone, PartialEq, Eq)]
pub struct SpecRequest {
    pub host: String,
    pub port: u16,
    pub request: String,
}

/// The request line and the fields of a request.
pub open spec fn request_text(host: Seq<char>, path: Seq<char>) -> Seq<char> {
    "GET "@ + path + " HTTP/1.1\r\nHost: "@ + host
        + "\r\nConnection: close\r\nAccept: application/json\r\n\r\n"@
}

/// The note on documents that are behind TLS.
pub const HTTPS_NOTE: &'static str =
    "https URL specs are not fetched by the portal renderer yet (list the spec with its name/version from a file copy, or expose the spec over http)";

/// What to send for the document of a URL. One behind TLS is not fetched.
pub fn spec_request(url: &str) -> (r: Result<SpecRequest, String>)
    ensures
        if after_scheme(url@, "https://"@) is Some {
            r matches Err(e) && e@ == HTTPS_NOTE@
        } else {
            match (r, http_parts(url@)) {
                (Ok(q), Ok(w)) => q.host@ == w.host && q.port == w.port && q.request@
                    == request_text(w.host, w.path),
                (Err(e), Err(w)) => e@ == w,
                _ => false,
            }
        },
{
    if begins_with(url, "https://") {
        return Err(HTTPS_NOTE.to_owned());
    }
    match parse_http_url(url) {
        Ok((host, port, path)) => {
            let request = cat5(
                "GET ",
                path.as_str(),
                " HTTP/1.1\r\nHost: ",
                host.as_str(),
                "\r\nConnection: close\r\nAccept: application/json\r\n\r\n",
            );
            Ok(SpecRequest { host, port, request })
        },
        Err(e) => Err(e),
    }
}

/// What kept a document from being fetched.
#[derive(Debug, Clone, PartialEq, Eq)]
pub enum FetchFailure {
    Connect(String),
    Write(String),
    Read(String),
}

/// The text of a failure.
pub open spec fn failure_text(f: FetchFailure) -> Seq<char> {
    match f {
        FetchFailure::Connect(e) => "connect failed: "@ + e@,
        FetchFailure::Write(e) => "write failed: "@ + e@,
        FetchFailure::Read(e) => "read failed: "@ + e@,
    }
}

/// The first place, from `from` on, at which a response's fields end.
pub open spec fn fields_end(buf: Seq<u8>, from: int) -> int
    decreases buf.len() - from,
{
    if from < 0 || from + 4 > buf.len() {
        -1
    } else if buf[from] == 13 && buf[from + 1] == 10 && buf[from + 2] == 13 && buf[from + 3]
        == 10 {
        from
    } else {
        fields_end(buf, from + 1)
    }
}

/// The body of a response, or the text of the error.
pub open spec fn body_of(buf: Seq<u8>) -> Result<Seq<char>, Seq<char>> {
    let i = fields_end(buf, 0);
    if i < 0 {
        Err("no header/body separator"@)
    } else {
        let body = buf.skip(i + 4);
        if vstd::utf8::valid_utf8(body) {
            Ok(vstd::utf8::decode_utf8(body))
        } else {
            Err("body not utf-8: "@ + text::utf8_error(body))
        }
    }
}

/// The body of a response: what follows the first empty line.
pub fn extract_http_body(buf: &Vec<u8>) -> (r: Result<String, String>)
    ensures
        read_view(r) == body_of(buf@),
{
    if buf.len() < 4 {
        return Err("no header/body separator".to_owned());
    }
    let mut i: usize = 0;
    while i <= buf.len() - 4
        invariant
            4 <= buf.len(),
            i <= buf.len() - 3,
            fields_end(buf@, 0) == fields_end(buf@, i as int),
        decreases buf.len() - i,
    {
        if buf[i] == 13 && buf[i + 1] == 10 && buf[i + 2] == 13 && buf[i + 3] == 10 {
            let mut body: Vec<u8> = Vec::new();
            let mut k: usize = i + 4;
            while k < buf.len()
                invariant
                    i + 4 <= k <= buf.len(),
                    body@ == buf@.subrange(i + 4, k as int),
                decreases buf.len() - k,
            {
                body.push(buf[k]);
                k = k + 1;
                assert(body@ =~= buf@.subrange(i + 4, k as int));
            }
            assert(body@ =~= buf@.skip(i + 4));
            return match utf8_text(body) {
                Ok(s) => Ok(s),
                Err(e) => Err(cat2("body not utf-8: ", e.as_str())),
            };
        }
        i = i + 1;
    }
    assert(fields_end(buf@, i as int) == -1);
    Err("no header/body separator".to_owned())
}

/// A document that was fetched, with its name and version.
#[derive(Debug)]
pub struct FetchedSpec {
    pub doc: Json,
    pub name: String,
    pub version: String,
}

/// What a fetched document is.
#[verifier::ext_equal]
pub struct FetchedView {
    pub doc: JsonView,
    pub name: Seq<char>,
    pub version: Seq<char>,
}

impl View for FetchedSpec {
    type V = FetchedView;

    open spec fn view(&self) -> FetchedView {
        FetchedView { doc: self.doc@, name: self.name@, version: self.version@ }
    }
}

/// The document of a host, from what parsing it gave.
pub open spec fn parsed_url(host: Seq<char>, parsed: Result<JsonView, Seq<char>>) -> Result<
    FetchedView,
    Seq<char>,
> {
    match parsed {
        Err(e) => Err("parse failed: "@ + e),
        Ok(doc) => Ok(
            FetchedView {
                doc,
                name: match title_version(doc).0 {
                    Some(t) => t,
                    None => host,
                },
                version: or_empty(title_version(doc).1),
            },
        ),
    }
}

/// The document of a host, from the response.
pub open spec fn fetched_url(host: Seq<char>, response: Result<Seq<u8>, Seq<char>>) -> Result<
    FetchedView,
    Seq<char>,
> {
    match response {
        Err(e) => Err(e),
        Ok(buf) => match body_of(buf) {
            Err(e) => Err(e),
            Ok(body) => parsed_url(host, json::parsed_json(body)),
        },
    }
}

/// Whether a result is the document that was to be had.
pub open spec fn is_fetched(
    r: Result<FetchedSpec, String>,
    want: Result<FetchedView, Seq<char>>,
) -> bool {
    match (r, want) {
        (Ok(f), Ok(w)) => f@ == w,
        (Err(e), Err(w)) => e@ == w,
        _ => false,
    }
}

/// The response of a host.
pub open spec fn response_view(r: Result<Vec<u8>, FetchFailure>) -> Result<Seq<u8>, Seq<char>> {
    match r {
        Ok(b) => Ok(b@),
        Err(f) => Err(failure_text(f)),
    }
}

/// The document of a host, from what parsing it gave.
pub fn url_spec_from_parsed(host: &str, parsed: Result<Json, String>) -> (r: Result<
    FetchedSpec,
    String,
>)
    ensures
        is_fetched(r, parsed_url(host@, json::parse_view(parsed))),
{
    match parsed {
        Err(e) => Err(cat2("parse failed: ", e.as_str())),
        Ok(doc) => {
            let (title, version) = extract_title_version(&doc);
            let name = match title {
                Some(t) => t,
                None => host.to_owned(),
            };
            let version = match version {
                Some(v) => v,
                None => "".to_owned(),
            };
            Ok(FetchedSpec { doc, name, version })
        },
    }
}

/// The document of a host, from the response.
pub fn url_spec_from_response(host: &str, response: Result<Vec<u8>, FetchFailure>) -> (r: Result<
    FetchedSpec,
    String,
>)
    ensures
        is_fetched(r, fetched_url(host@, response_view(response))),
{
    let buf = match response {
        Ok(b) => b,
        Err(FetchFailure::Connect(e)) => {
            return Err(cat2("connect failed: ", e.as_str()));
        },
        Err(FetchFailure::Write(e)) => {
            return Err(cat2("write failed: ", e.as_str()));
        },
        Err(FetchFailure::Read(e)) => {
            return Err(cat2("read failed: ", e.as_str()));
        },
    };
    match extract_http_body(&buf) {
        Err(e) => Err(e),
        Ok(body) => url_spec_from_parsed(host, parse_json(body.as_str())),
    }
}

/// A document once it was fetched: what went wrong is recorded with it, and
/// one without a name then goes by its host.
pub open spec fn settled(s: LoadedView, fetched: Result<FetchedView, Seq<char>>) -> LoadedView {
    match s.source {
        SourceView::File { path } => s,
        SourceView::Url { url } => match fetched {
            Ok(f) => LoadedView { doc: Some(f.doc), name: f.name, version: f.version, ..s },
            Err(e) => LoadedView {
                error: Some(e),
                name: if s.name.len() > 0 {
                    s.name
                } else {
                    match host_of(url) {
                        Some(h) => h,
                        None => url,
                    }
                },
                ..s
            },
        },
    }
}

/// What fetching gave.
pub open spec fn fetched_view(r: Result<FetchedSpec, String>) -> Result<FetchedView, Seq<char>> {
    match r {
        Ok(f) => Ok(f@),
        Err(e) => Err(e@),
    }
}

/// A document once it was fetched. A file document stays as it is.
pub fn settle(spec: LoadedSpec, fetched: Result<FetchedSpec, String>) -> (s: LoadedSpec)
    ensures
        s@ == settled(spec@, fetched_view(fetched)),
{
    let url = match &spec.source {
        DevPortalSpecSource::File(_) => {
            return spec;
        },
        DevPortalSpecSource::Url(u) => u.clone(),
    };
    match fetched {
        Ok(f) => LoadedSpec {
            source: spec.source,
            doc: Some(f.doc),
            name: f.name,
            version: f.version,
            error: spec.error,
        },
        Err(e) => {
            let name = if spec.name.as_str().unicode_len() > 0 {
                spec.name
            } else {
                match url_host(url.as_str()) {
                    Some(h) => h,
                    None => url,
                }
            };
            LoadedSpec {
                source: spec.source,
                doc: spec.doc,
                name,
                version: spec.version,
                error: Some(e),
            }
        },
    }
}

// ---------------------------------------------------------------------------
// The page
// ---------------------------------------------------------------------------

/// What a character is in the page.
pub open spec fn escaped_char(c: char) -> Seq<char> {
    if c == '&' {
        "&amp;"@
    } else if c == '<' {
        "&lt;"@
    } else if c == '>' {
        "&gt;"@
    } else if c == '"' {
        "&quot;"@
    } else {
        seq![c]
    }
}

/// What a text is in the page.
pub open spec fn html(s: Seq<char>) -> Seq<char>
    decreases s.len(),
{
    if s.len() == 0 {
        seq![]
    } else {
        html(s.drop_last()) + escaped_char(s.last())
    }
}

/// A text with `&`, `<`, `>` and `"` escaped.
pub fn html_escape(s: &str) -> (r: String)
    ensures
        r@ == html(s@),
{
    let n: usize = s.unicode_len();
    let mut r = String::new();
    let mut i: usize = 0;
    assert(s@.take(0) =~= seq![]);
    assert(r@ =~= html(s@.take(0)));
    while i < n
        invariant
            i <= n,
            n == s@.len(),
            r@ == html(s@.take(i as int)),
        decreases n - i,
    {
        let c = s.get_char(i);
        assert(s@.take(i + 1).drop_last() =~= s@.take(i as int));
        if c == '&' {
            r.append("&amp;");
        } else if c == '<' {
            r.append("&lt;");
        } else if c == '>' {
            r.append("&gt;");
        } else if c == '"' {
            r.append("&quot;");
        } else {
            let ghost before = r@;
            r.push(c);
            assert(r@ =~= before + seq![c]);
        }
        i = i + 1;
    }
    assert(s@.take(n as int) =~= s@);
    r
}

/// The row of a page without documents.
pub const EMPTY_ROW: &'static str =
    "      <tr><td colspan=\"4\" class=\"empty\">No APIs configured yet. Add OpenAPI spec sources to the <code>lifecycle.portal.specs</code> config block.</td></tr>\n";

/// The page up to its rows.
pub const PAGE_HEAD: &'static str =
    "<!DOCTYPE html>\n<html lang=\"en\">\n<head>\n<meta charset=\"utf-8\">\n<meta name=\"viewport\" content=\"width=device-width, initial-scale=1\">\n<title>dwara developer portal</title>\n<style>\nbody { font-family: system-ui, sans-serif; margin: 2rem; color: #222; }\nh1 { font-size: 1.5rem; }\ntable { border-collapse: collapse; width: 100%; }\nth, td { border: 1px solid #ddd; padding: 0.5rem; text-align: left; }\nth { background: #f5f5f5; }\n.empty { color: #888; font-style: italic; }\n.ok { color: #2a7d2a; }\n.error { color: #b00; }\ncode { background: #f5f5f5; padding: 0.1rem 0.3rem; border-radius: 3px; }\n</style>\n</head>\n<body>\n<h1>dwara developer portal</h1>\n<p>The APIs the gateway fronts, aggregated from the configured OpenAPI specs. This is a read-only listing -- spec management is via config.</p>\n<table>\n<thead>\n<tr><th>API</th><th>Version</th><th>Spec</th><th>Status</th></tr>\n</thead>\n<tbody>\n";

/// The page from its rows on.
pub const PAGE_TAIL: &'static str = "</tbody>\n</table>\n</body>\n</html>\n";

/// The status cell of a document.
pub open spec fn status_cell(error: Option<Seq<char>>) -> Seq<char> {
    match error {
        Some(e) => "<span class=\"error\">unavailable: "@ + e + "</span>"@,
        None => "<span class=\"ok\">available</span>"@,
    }
}

/// The cell that says where a document comes from.
pub open spec fn source_cell(source: SourceView) -> Seq<char> {
    match source {
        SourceView::File { path } => "<code>"@ + html(path) + "</code>"@,
        SourceView::Url { url } => "<a href=\""@ + html(url) + "\" target=\"_blank\">"@ + html(
            url,
        ) + "</a>"@,
    }
}

/// The row of a document.
pub open spec fn row(s: LoadedView) -> Seq<char> {
    "      <tr>\n        <td>"@ + html(s.name) + "</td>\n        <td>"@ + html(s.version) + (
    "</td>\n        <td>"@ + source_cell(s.source) + "</td>\n        <td>"@ + status_cell(s.error)
        + "</td>\n      </tr>\n"@)
}

/// The rows of documents.
pub open spec fn rows(s: Seq<LoadedView>) -> Seq<char>
    decreases s.len(),
{
    if s.len() == 0 {
        seq![]
    } else {
        rows(s.drop_last()) + row(s.last())
    }
}

/// The page of documents.
pub open spec fn page(s: Seq<LoadedView>) -> Seq<char> {
    PAGE_HEAD@ + (if s.len() == 0 {
        EMPTY_ROW@
    } else {
        rows(s)
    }) + PAGE_TAIL@
}

fn render_row(spec: &LoadedSpec) -> (s: String)
    ensures
        s@ == row(spec@),
{
    let status = match &spec.error {
        Some(e) => cat3("<span class=\"error\">unavailable: ", e.as_str(), "</span>"),
        None => "<span class=\"ok\">available</span>".to_owned(),
    };
    let link = match &spec.source {
        DevPortalSpecSource::File(p) => cat3(
            "<code>",
            html_escape(p.as_str()).as_str(),
            "</code>",
        ),
        DevPortalSpecSource::Url(u) => cat5(
            "<a href=\"",
            html_escape(u.as_str()).as_str(),
            "\" target=\"_blank\">",
            html_escape(u.as_str()).as_str(),
            "</a>",
        ),
    };
    let tail = cat5(
        "</td>\n        <td>",
        link.as_str(),
        "</td>\n        <td>",
        status.as_str(),
        "</td>\n      </tr>\n",
    );
    cat5(
        "      <tr>\n        <td>",
        html_escape(spec.name.as_str()).as_str(),
        "</td>\n        <td>",
        html_escape(spec.version.as_str()).as_str(),
        tail.as_str(),
    )
}

/// The page of documents.
pub fn render_portal_html(specs: &Vec<LoadedSpec>) -> (s: String)
    ensures
        s@ == page(loaded_of(specs@)),
{
    let ghost all = loaded_of(specs@);
    if specs.len() == 0 {
        return cat3(PAGE_HEAD, EMPTY_ROW, PAGE_TAIL);
    }
    let mut body = String::new();
    let mut i: usize = 0;
    assert(all.take(0) =~= seq![]);
    assert(body@ =~= rows(all.take(0)));
    while i < specs.len()
        invariant
            i <= specs.len(),
            all == loaded_of(specs@),
            body@ == rows(all.take(i as int)),
        decreases specs.len() - i,
    {
        assert(all.take(i + 1).drop_last() =~= all.take(i as int));
        assert(all[i as int] == specs@[i as int]@);
        body.append(render_row(&specs[i]).as_str());
        i = i + 1;
    }
    assert(all.take(specs.len() as int) =~= all);
    cat3(PAGE_HEAD, body.as_str(), PAGE_TAIL)
}

// ---------------------------------------------------------------------------
// The portal
// ---------------------------------------------------------------------------

/// The document of a configured source as it is when the portal is built: a
/// file is loaded, a URL is listed and fetched later.
pub open spec fn built(
    name: Option<Seq<char>>,
    source: SourceView,
    read: Result<Seq<char>, Seq<char>>,
) -> LoadedView {
    match source {
        SourceView::File { path } => read_file(path, name, read),
        SourceView::Url { url } => LoadedView {
            source,
            doc: None,
            name: or_empty(name),
            version: ""@,
            error: None,
        },
    }
}

/// The document of a configured source as it is when the portal is built;
/// `read` is what reading the file gave, and does not matter for a URL.
pub fn build_spec(spec: &DevPortalSpec, read: Result<String, String>) -> (s: LoadedSpec)
    ensures
        s@ == built(
            text::opt_text(spec.name),
            source_of(text::opt_text(spec.file), text::opt_text(spec.url)),
            read_view(read),
        ),
{
    let name = match &spec.name {
        Some(n) => Some(n.as_str()),
        None => None,
    };
    assert(text::opt_str(name) == text::opt_text(spec.name));
    match resolve_source(spec) {
        DevPortalSpecSource::File(path) => load_file_spec(path.as_str(), name, read),
        DevPortalSpecSource::Url(url) => {
            let name = match &spec.name {
                Some(n) => n.clone(),
                None => "".to_owned(),
            };
            LoadedSpec {
                source: DevPortalSpecSource::Url(url),
                doc: None,
                name,
                version: "".to_owned(),
                error: None,
            }
        },
    }
}

/// The developer portal.
#[derive(Debug, Clone)]
pub struct DevPortal {
    enabled: bool,
    path: String,
    file_specs: Vec<LoadedSpec>,
}

/// What a portal is.
#[verifier::ext_equal]
pub struct PortalView {
    pub enabled: bool,
    pub path: Seq<char>,
    pub specs: Seq<LoadedView>,
}

impl View for DevPortal {
    type V = PortalView;

    closed spec fn view(&self) -> PortalView {
        PortalView {
            enabled: self.enabled,
            path: self.path@,
            specs: loaded_of(self.file_specs@),
        }
    }
}

/// The documents of a configuration as they are when the portal is built.
pub open spec fn built_all(
    specs: Seq<DevPortalSpec>,
    reads: Seq<Result<String, String>>,
) -> Seq<LoadedView> {
    Seq::new(
        specs.len(),
        |i: int|
            built(
                text::opt_text(specs[i].name),
                source_of(text::opt_text(specs[i].file), text::opt_text(specs[i].url)),
                read_view(reads[i]),
            ),
    )
}

/// Documents once they were fetched.
pub open spec fn settled_all(
    specs: Seq<LoadedView>,
    fetched: Seq<Result<FetchedSpec, String>>,
) -> Seq<LoadedView> {
    Seq::new(specs.len(), |i: int| settled(specs[i], fetched_view(fetched[i])))
}

impl DevPortal {
    /// A portal of a configuration; `reads` holds, for each configured
    /// document, what reading its file gave.
    pub fn build(config: &DevPortalConfig, reads: Vec<Result<String, String>>) -> (p: Self)
        requires
            reads@.len() == config.specs@.len(),
        ensures
            p@ == (PortalView {
                enabled: config.enabled,
                path: config.path@,
                specs: built_all(config.specs@, reads@),
            }),
    {
        let ghost all = reads@;
        let mut reads = reads;
        let mut rev: Vec<LoadedSpec> = Vec::new();
        let n: usize = config.specs.len();
        let mut i: usize = n;
        let ghost want = built_all(config.specs@, all);
        while i > 0
            invariant
                i <= n,
                n == config.specs@.len(),
                n == all.len(),
                reads@ == all.take(i as int),
                want == built_all(config.specs@, all),
                rev@.len() == n - i,
                forall|k: int| 0 <= k < n - i ==> (#[trigger] rev@[k])@ == want[n - 1 - k],
            decreases i,
        {
            i = i - 1;
            match reads.pop() {
                Some(read) => {
                    assert(read == all[i as int]);
                    rev.push(build_spec(&config.specs[i], read));
                    assert(reads@ =~= all.take(i as int));
                },
                None => {
                    assert(false);
                },
            }
        }
        let file_specs = reversed(rev);
        assert(loaded_of(file_specs@) =~= want);
        DevPortal { enabled: config.enabled, path: config.path.clone(), file_specs }
    }

    /// The path the portal is served at.
    pub fn path(&self) -> (s: &str)
        ensures
            s@ == self@.path,
    {
        self.path.as_str()
    }

    /// Whether the portal is enabled.
    pub fn enabled(&self) -> (r: bool)
        ensures
            r == self@.enabled,
    {
        self.enabled
    }

    /// The documents as they were when the portal was built.
    pub fn file_specs(&self) -> (v: &Vec<LoadedSpec>)
        ensures
            loaded_of(v@) == self@.specs,
    {
        &self.file_specs
    }

    /// The page; `fetched` holds, for each document, what fetching it gave,
    /// which does not matter for a file.
    pub fn render_html(&self, fetched: Vec<Result<FetchedSpec, String>>) -> (s: String)
        requires
            fetched@.len() == self@.specs.len(),
        ensures
            s@ == page(settled_all(self@.specs, fetched@)),
    {
        let ghost all = fetched@;
        let mut fetched = fetched;
        let mut rev: Vec<LoadedSpec> = Vec::new();
        let n: usize = self.file_specs.len();
        let mut i: usize = n;
        let ghost want = settled_all(self@.specs, all);
        while i > 0
            invariant
                i <= n,
                n == self.file_specs@.len(),
                n == all.len(),
                fetched@ == all.take(i as int),
                want == settled_all(self@.specs, all),
                rev@.len() == n - i,
                forall|k: int| 0 <= k < n - i ==> (#[trigger] rev@[k])@ == want[n - 1 - k],
            decreases i,
        {
            i = i - 1;
            match fetched.pop() {
                Some(f) => {
                    assert(f == all[i as int]);
                    assert(self@.specs[i as int] == self.file_specs@[i as int]@);
                    rev.push(settle(self.file_specs[i].copy(), f));
                    assert(fetched@ =~= all.take(i as int));
                },
                None => {
                    assert(false);
                },
            }
        }
        let specs = reversed(rev);
        assert(loaded_of(specs@) =~= want);
        render_portal_html(&specs)
    }
}

fn reversed(v: Vec<LoadedSpec>) -> (r: Vec<LoadedSpec>)
    ensures
        r@ == v@.reverse(),
{
    let ghost all = v@;
    let mut v = v;
    let mut r: Vec<LoadedSpec> = Vec::new();
    while v.len() > 0
        invariant
            v@ == all.take(v@.len() as int),
            v@.len() <= all.len(),
            r@ == all.skip(v@.len() as int).reverse(),
        decreases v@.len(),
    {
        let ghost n = v@.len();
        match v.pop() {
            Some(x) => {
                assert(x == all[n - 1]);
                r.push(x);
                assert(v@ =~= all.take(n - 1));
                assert(r@ =~= all.skip(n - 1).reverse());
            },
            None => {},
        }
    }
    assert(all.skip(0) =~= all);
    r
}

// ---------------------------------------------------------------------------
// Laws
// ---------------------------------------------------------------------------

/// Whether a text holds no character that ends a text in the page.
pub open spec fn is_inert(s: Seq<char>) -> bool {
    forall|i: int| 0 <= i < s.len() ==> (#[trigger] s[i]) != '<' && s[i] != '>' && s[i] != '"'
}

/// An escaped text cannot open or close a tag, nor end an attribute.
pub proof fn law_escaped_text_is_inert(s: Seq<char>)
    ensures
        is_inert(html(s)),
    decreases s.len(),
{
    reveal_strlit("&amp;");
    reveal_strlit("&lt;");
    reveal_strlit("&gt;");
    reveal_strlit("&quot;");
    if s.len() > 0 {
        law_escaped_text_is_inert(s.drop_last());
        let a = html(s.drop_last());
        let b = escaped_char(s.last());
        assert(is_inert(b));
        assert forall|i: int| 0 <= i < html(s).len() implies (#[trigger] html(s)[i]) != '<'
            && html(s)[i] != '>' && html(s)[i] != '"' by {
            if i < a.len() {
                assert(html(s)[i] == a[i]);
            } else {
                assert(html(s)[i] == b[i - a.len()]);
            }
        }
    }
}

/// Every configured document is among those of the page, in the order of the
/// configuration, whatever reading and fetching gave.
pub proof fn law_every_document_is_listed(
    specs: Seq<DevPortalSpec>,
    reads: Seq<Result<String, String>>,
    fetched: Seq<Result<FetchedSpec, String>>,
    i: int,
)
    requires
        reads.len() == specs.len(),
        fetched.len() == specs.len(),
        0 <= i < specs.len(),
    ensures
        settled_all(built_all(specs, reads), fetched).len() == specs.len(),
        settled_all(built_all(specs, reads), fetched)[i].source == source_of(
            text::opt_text(specs[i].file),
            text::opt_text(specs[i].url),
        ),
{
}

/// A document is listed as unavailable exactly if something went wrong with
/// it.
pub proof fn law_unavailable_iff_something_went_wrong(
    url: Seq<char>,
    name: Option<Seq<char>>,
    fetched: Result<FetchedView, Seq<char>>,
    path: Seq<char>,
    read: Result<Seq<char>, Seq<char>>,
)
    ensures
        ({
            let u = settled(built(name, SourceView::Url { url }, read), fetched);
            &&& u.error is Some <==> fetched is Err
            &&& u.doc is Some <==> fetched is Ok
        }),
        ({
            let f = read_file(path, name, read);
            &&& f.error is Some <==> f.doc is None
            &&& f.error is None <==> (read is Ok && json::parsed_json(read->Ok_0) is Ok)
        }),
{
}

} // verus!
