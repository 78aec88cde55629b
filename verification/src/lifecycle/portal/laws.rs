//! What the portal shows of each document.

use vstd::prelude::*;

use crate::json;
use crate::json::JsonView;
use crate::lifecycle::portal;
use crate::lifecycle::portal::{FetchedView, LoadedView, SourceView};
use crate::text;

verus! {

// ---------------------------------------------------------------------------
// Names
// ---------------------------------------------------------------------------

/// Whether a text is under a name in the `info` of a document.
pub open spec fn is_info(doc: JsonView, name: Seq<char>, t: Seq<char>) -> bool {
    &&& json::member(doc, "info"@) is Some
    &&& json::member(json::member(doc, "info"@)->Some_0, name) == Some(JsonView::Text { text: t })
}

/// Whether there is no text under a name in the `info` of a document.
pub open spec fn has_no_info(doc: JsonView, name: Seq<char>) -> bool {
    json::member(doc, "info"@) is Some ==> {
        let m = json::member(json::member(doc, "info"@)->Some_0, name);
        m is None || !(m->Some_0 is Text)
    }
}

/// A source is the file that is named, or else the URL.
pub proof fn law_file_comes_before_url(file: Option<Seq<char>>, url: Option<Seq<char>>)
    ensures
        file is Some ==> portal::source_of(file, url) == (SourceView::File { path: file->Some_0 }),
        file is None && url is Some ==> portal::source_of(file, url) == (SourceView::Url {
            url: url->Some_0,
        }),
{
}

/// A document from a file goes by the name that was given, or else its title,
/// or else the name of the file; it shows its version, if it has one, and it is
/// unavailable exactly if it could not be read or parsed.
pub proof fn law_file_goes_by_its_name(
    path: Seq<char>,
    given: Option<Seq<char>>,
    read: Result<Seq<char>, Seq<char>>,
    t: Seq<char>,
)
    ensures
        ({
            let s = portal::read_file(path, given, read);
            let parsed = json::parsed_json(read->Ok_0);
            let ok = read is Ok && parsed is Ok;
            &&& s.source == (SourceView::File { path })
            &&& s.error is None <==> ok
            &&& ok ==> s.doc == Some(parsed->Ok_0)
            &&& given is Some ==> s.name == given->Some_0
            &&& given is None && ok && is_info(parsed->Ok_0, "title"@, t) ==> s.name == t
            &&& given is None && (!ok || has_no_info(parsed->Ok_0, "title"@)) ==> s.name
                == portal::stem(path)
            &&& ok && is_info(parsed->Ok_0, "version"@, t) ==> s.version == t
            &&& !ok || has_no_info(parsed->Ok_0, "version"@) ==> s.version.len() == 0
        }),
{
    reveal_strlit("");
}

/// A document from a URL goes by its title, or else the host; one that could
/// not be fetched by the name that was given, or else the host, or else the
/// URL.
pub proof fn law_url_goes_by_its_name(
    url: Seq<char>,
    given: Option<Seq<char>>,
    read: Result<Seq<char>, Seq<char>>,
    fetched: Result<FetchedView, Seq<char>>,
)
    ensures
        ({
            let s = portal::settled(
                portal::built(given, SourceView::Url { url }, read),
                fetched,
            );
            let unnamed = given is None || given->Some_0.len() == 0;
            &&& s.source == (SourceView::Url { url })
            &&& fetched is Ok ==> s.name == fetched->Ok_0.name && s.version
                == fetched->Ok_0.version && s.doc == Some(fetched->Ok_0.doc) && s.error is None
            &&& fetched is Err ==> s.error == Some(fetched->Err_0) && s.doc is None
            &&& fetched is Err && !unnamed ==> s.name == given->Some_0
            &&& fetched is Err && unnamed && portal::host_of(url) is Some ==> s.name
                == portal::host_of(url)->Some_0
            &&& fetched is Err && unnamed && portal::host_of(url) is None ==> s.name == url
        }),
{
    reveal_strlit("");
}

/// A fetched document goes by its title, or else by the host that it was
/// fetched from, and shows its version.
pub proof fn law_fetched_document_goes_by_its_title(
    host: Seq<char>,
    doc: JsonView,
    t: Seq<char>,
)
    ensures
        ({
            let r = portal::parsed_url(host, Ok(doc));
            &&& r is Ok && r->Ok_0.doc == doc
            &&& is_info(doc, "title"@, t) ==> r->Ok_0.name == t
            &&& has_no_info(doc, "title"@) ==> r->Ok_0.name == host
            &&& is_info(doc, "version"@, t) ==> r->Ok_0.version == t
            &&& has_no_info(doc, "version"@) ==> r->Ok_0.version.len() == 0
        }),
{
    reveal_strlit("");
}

proof fn lemma_rfind_at(s: Seq<char>, c: char, i: int)
    requires
        0 <= i < s.len(),
        s[i] == c,
        forall|j: int| i < j < s.len() ==> s[j] != c,
    ensures
        text::rfind(s, c) == i,
    decreases s.len(),
{
    if i < s.len() - 1 {
        lemma_rfind_at(s.drop_last(), c, i);
    }
}

/// The name of a file is its last part, without the extension.
pub proof fn law_stem_is_the_last_part(dir: Seq<char>, base: Seq<char>, ext: Seq<char>)
    requires
        forall|i: int| 0 <= i < base.len() ==> base[i] != '/',
        forall|i: int| 0 <= i < ext.len() ==> ext[i] != '/' && ext[i] != '.',
        base.len() > 0,
    ensures
        portal::stem(dir + seq!['/'] + base + seq!['.'] + ext) == base,
{
    let name = base + seq!['.'] + ext;
    let path = dir + seq!['/'] + base + seq!['.'] + ext;
    assert(path =~= dir + seq!['/'] + name);
    let d = dir.len() as int;
    assert(path[d] == '/');
    assert forall|j: int| d < j < path.len() implies path[j] != '/' by {
        if j < d + 1 + base.len() {
            assert(path[j] == base[j - d - 1]);
        } else if j > d + 1 + base.len() {
            assert(path[j] == ext[j - d - 2 - base.len()]);
        }
    }
    lemma_rfind_at(path, '/', d);
    assert(path.skip(d + 1) =~= name);
    assert(name[base.len() as int] == '.');
    assert forall|j: int| base.len() < j < name.len() implies name[j] != '.' by {
        assert(name[j] == ext[j - base.len() - 1]);
    }
    lemma_rfind_at(name, '.', base.len() as int);
    assert(name.take(base.len() as int) =~= base);
}

// ---------------------------------------------------------------------------
// URLs
// ---------------------------------------------------------------------------

/// A document is fetched from the host, the port and the path of its URL; the
/// port is 80 and the path `/` where there is none.
pub proof fn law_http_url_is_taken_apart(host: Seq<char>, port: Seq<char>, path: Seq<char>)
    requires
        forall|i: int| 0 <= i < host.len() ==> host[i] != '/' && host[i] != ':',
        forall|i: int| 0 <= i < port.len() ==> port[i] != '/',
    ensures
        ({
            let r = portal::http_parts("http://"@ + host + seq!['/'] + path);
            r is Ok && r->Ok_0.host == host && r->Ok_0.port == 80 && r->Ok_0.path == seq!['/']
                + path
        }),
        ({
            let r = portal::http_parts("http://"@ + host);
            r is Ok && r->Ok_0.host == host && r->Ok_0.port == 80 && r->Ok_0.path == "/"@
        }),
        ({
            let r = portal::http_parts("http://"@ + host + seq![':'] + port + seq!['/'] + path);
            let n = text::parse_max(port, 65535);
            &&& r is Ok <==> n is Some
            &&& r is Ok ==> r->Ok_0.host == host && Some(r->Ok_0.port) == n && r->Ok_0.path
                == seq!['/'] + path
        }),
{
    let scheme = "http://"@;
    let u1 = scheme + host + seq!['/'] + path;
    let r1 = host + seq!['/'] + path;
    assert(u1.take(scheme.len() as int) =~= scheme);
    assert(u1.skip(scheme.len() as int) =~= r1);
    lemma_find_at(r1, '/', host.len() as int);
    assert(r1.take(host.len() as int) =~= host);
    assert(r1.skip(host.len() as int) =~= seq!['/'] + path);
    lemma_find_none(host, ':');
    let u2 = scheme + host;
    assert(u2.take(scheme.len() as int) =~= scheme);
    assert(u2.skip(scheme.len() as int) =~= host);
    lemma_find_none(host, '/');
    assert(host.take(host.len() as int) =~= host);
    let u3 = scheme + host + seq![':'] + port + seq!['/'] + path;
    let hp = host + seq![':'] + port;
    let r3 = hp + seq!['/'] + path;
    assert(u3.take(scheme.len() as int) =~= scheme);
    assert(u3.skip(scheme.len() as int) =~= r3);
    assert forall|j: int| 0 <= j < hp.len() implies r3[j] != '/' by {
        if j < host.len() {
            assert(r3[j] == host[j]);
        } else if j > host.len() {
            assert(r3[j] == port[j - host.len() - 1]);
        }
    }
    lemma_find_at(r3, '/', hp.len() as int);
    assert(r3.take(hp.len() as int) =~= hp);
    assert(r3.skip(hp.len() as int) =~= seq!['/'] + path);
    lemma_find_at(hp, ':', host.len() as int);
    assert(hp.take(host.len() as int) =~= host);
    assert(hp.skip(host.len() as int + 1) =~= port);
}

proof fn lemma_find_at(s: Seq<char>, c: char, i: int)
    requires
        0 <= i < s.len(),
        s[i] == c,
        forall|j: int| 0 <= j < i ==> s[j] != c,
    ensures
        text::find(s, c) == i,
{
    text::lemma_find(s, c);
}

proof fn lemma_find_none(s: Seq<char>, c: char)
    requires
        forall|j: int| 0 <= j < s.len() ==> s[j] != c,
    ensures
        text::find(s, c) == s.len(),
{
    text::lemma_find(s, c);
}

// ---------------------------------------------------------------------------
// The page
// ---------------------------------------------------------------------------

/// Text is escaped piece by piece.
pub proof fn law_text_is_escaped_piece_by_piece(a: Seq<char>, b: Seq<char>)
    ensures
        portal::html(a + b) == portal::html(a) + portal::html(b),
    decreases b.len(),
{
    if b.len() == 0 {
        assert(a + b =~= a);
        assert(portal::html(a) + portal::html(b) =~= portal::html(a));
    } else {
        law_text_is_escaped_piece_by_piece(a, b.drop_last());
        assert((a + b).drop_last() =~= a + b.drop_last());
        assert(portal::html(a + b) =~= portal::html(a) + portal::html(b));
    }
}

/// The four characters that mean something to HTML are escaped, and no other
/// is changed.
pub proof fn law_special_characters_are_escaped(c: char)
    ensures
        ({
            let h = portal::html(seq![c]);
            &&& c == '&' ==> h == "&amp;"@
            &&& c == '<' ==> h == "&lt;"@
            &&& c == '>' ==> h == "&gt;"@
            &&& c == '"' ==> h == "&quot;"@
            &&& c != '&' && c != '<' && c != '>' && c != '"' ==> h == seq![c]
        }),
{
    let s = seq![c];
    assert(s.drop_last() =~= seq![]);
    assert(portal::html(seq![]) =~= seq![]);
    assert(portal::html(s) =~= portal::escaped_char(c));
}

/// Whether a text stands within another.
pub open spec fn stands_in(part: Seq<char>, whole: Seq<char>) -> bool {
    exists|a: Seq<char>, b: Seq<char>| #[trigger] is_between(part, whole, a, b)
}

/// Whether a text stands between two others.
pub open spec fn is_between(
    part: Seq<char>,
    whole: Seq<char>,
    a: Seq<char>,
    b: Seq<char>,
) -> bool {
    whole == a + part + b
}

proof fn lemma_stands_in(a: Seq<char>, part: Seq<char>, b: Seq<char>)
    ensures
        stands_in(part, a + part + b),
{
    assert(is_between(part, a + part + b, a, b));
}

proof fn lemma_stands_trans(x: Seq<char>, y: Seq<char>, z: Seq<char>)
    requires
        stands_in(x, y),
        stands_in(y, z),
    ensures
        stands_in(x, z),
{
    let (a, b) = choose|a: Seq<char>, b: Seq<char>| #[trigger] is_between(x, y, a, b);
    let (c, d) = choose|c: Seq<char>, d: Seq<char>| #[trigger] is_between(y, z, c, d);
    assert(z =~= (c + a) + x + (b + d));
    assert(is_between(x, z, c + a, b + d));
}

proof fn lemma_rows(s: Seq<LoadedView>, i: int)
    requires
        0 <= i < s.len(),
    ensures
        stands_in(portal::row(s[i]), portal::rows(s)),
    decreases s.len(),
{
    let before = portal::rows(s.drop_last());
    let last = portal::row(s.last());
    if i == s.len() - 1 {
        assert(portal::rows(s) =~= before + last + seq![]);
        lemma_stands_in(before, last, seq![]);
    } else {
        lemma_rows(s.drop_last(), i);
        assert(portal::rows(s) =~= Seq::<char>::empty() + before + last);
        lemma_stands_in(Seq::<char>::empty(), before, last);
        lemma_stands_trans(portal::row(s[i]), before, portal::rows(s));
    }
}

/// The page shows every document: its name, its version, where it is, and
/// whether it is available, all of it escaped but the error.
pub proof fn law_page_shows_every_document(s: Seq<LoadedView>, i: int)
    requires
        0 <= i < s.len(),
    ensures
        ({
            let p = portal::page(s);
            let x = s[i];
            &&& stands_in("<td>"@ + portal::html(x.name) + "</td>"@, p)
            &&& stands_in("<td>"@ + portal::html(x.version) + "</td>"@, p)
            &&& x.source is File ==> stands_in(
                "<code>"@ + portal::html(x.source->path) + "</code>"@,
                p,
            )
            &&& x.source is Url ==> stands_in(
                "<a href=\""@ + portal::html(x.source->url) + "\""@,
                p,
            )
            &&& x.error is None ==> stands_in("<span class=\"ok\">available</span>"@, p)
            &&& x.error is Some ==> stands_in("unavailable: "@ + x.error->Some_0, p)
        }),
{
    let x = s[i];
    let r = portal::row(x);
    let p = portal::page(s);
    lemma_rows(s, i);
    lemma_stands_in(portal::PAGE_HEAD@, portal::rows(s), portal::PAGE_TAIL@);
    lemma_stands_trans(r, portal::rows(s), p);
    lemma_name_cell(x);
    lemma_stands_trans("<td>"@ + portal::html(x.name) + "</td>"@, r, p);
    lemma_version_cell(x);
    lemma_stands_trans("<td>"@ + portal::html(x.version) + "</td>"@, r, p);
    lemma_source_and_status(x);
    lemma_stands_trans(portal::source_cell(x.source), r, p);
    lemma_stands_trans(portal::status_cell(x.error), r, p);
    if x.source is Url {
        lemma_link(x.source->url);
        lemma_stands_trans(
            "<a href=\""@ + portal::html(x.source->url) + "\""@,
            portal::source_cell(x.source),
            p,
        );
    }
    if x.error is Some {
        lemma_unavailable(x.error->Some_0);
        lemma_stands_trans(
            "unavailable: "@ + x.error->Some_0,
            portal::status_cell(x.error),
            p,
        );
    }
}

proof fn lemma_name_cell(x: LoadedView)
    ensures
        stands_in("<td>"@ + portal::html(x.name) + "</td>"@, portal::row(x)),
{
    reveal_strlit("      <tr>\n        <td>");
    reveal_strlit("</td>\n        <td>");
    reveal_strlit("<td>");
    reveal_strlit("</td>");
    let open = "      <tr>\n        <td>"@;
    let mid = "</td>\n        <td>"@;
    let td = "<td>"@;
    let dt = "</td>"@;
    let a = open.take(open.len() - 4);
    assert(open =~= a + td);
    assert(mid =~= dt + mid.skip(5));
    let n = portal::html(x.name);
    let v = portal::html(x.version);
    let rest = v + (mid + portal::source_cell(x.source) + mid + portal::status_cell(x.error)
        + "</td>\n      </tr>\n"@);
    let b = mid.skip(5) + rest;
    assert(portal::row(x) =~= open + n + mid + rest);
    assert(open + n + mid + rest =~= a + (td + n + dt) + b);
    lemma_stands_in(a, td + n + dt, b);
}

proof fn lemma_version_cell(x: LoadedView)
    ensures
        stands_in("<td>"@ + portal::html(x.version) + "</td>"@, portal::row(x)),
{
    reveal_strlit("</td>\n        <td>");
    reveal_strlit("<td>");
    reveal_strlit("</td>");
    let mid = "</td>\n        <td>"@;
    let td = "<td>"@;
    let dt = "</td>"@;
    let front = "      <tr>\n        <td>"@ + portal::html(x.name);
    let v = portal::html(x.version);
    let rest = portal::source_cell(x.source) + mid + portal::status_cell(x.error)
        + "</td>\n      </tr>\n"@;
    assert(mid =~= mid.take(mid.len() - 4) + td);
    assert(mid =~= dt + mid.skip(5));
    let a = front + mid.take(mid.len() - 4);
    let b = mid.skip(5) + rest;
    assert(portal::row(x) =~= front + mid + v + mid + rest);
    assert(front + mid + v + mid + rest =~= a + (td + v + dt) + b);
    lemma_stands_in(a, td + v + dt, b);
}

proof fn lemma_source_and_status(x: LoadedView)
    ensures
        stands_in(portal::source_cell(x.source), portal::row(x)),
        stands_in(portal::status_cell(x.error), portal::row(x)),
{
    let mid = "</td>\n        <td>"@;
    let end = "</td>\n      </tr>\n"@;
    let front = "      <tr>\n        <td>"@ + portal::html(x.name) + mid + portal::html(x.version)
        + mid;
    let src = portal::source_cell(x.source);
    let st = portal::status_cell(x.error);
    assert(portal::row(x) =~= front + src + (mid + st + end));
    lemma_stands_in(front, src, mid + st + end);
    assert(portal::row(x) =~= (front + src + mid) + st + end);
    lemma_stands_in(front + src + mid, st, end);
}

proof fn lemma_link(url: Seq<char>)
    ensures
        stands_in(
            "<a href=\""@ + portal::html(url) + "\""@,
            portal::source_cell(SourceView::Url { url }),
        ),
{
    let u = portal::html(url);
    reveal_strlit("\" target=\"_blank\">");
    reveal_strlit("\"");
    let t = "\" target=\"_blank\">"@;
    assert(t =~= "\""@ + t.skip(1));
    let part = "<a href=\""@ + u + "\""@;
    let tail = t.skip(1) + u + "</a>"@;
    let none = Seq::<char>::empty();
    assert(portal::source_cell(SourceView::Url { url }) =~= none + part + tail);
    lemma_stands_in(none, part, tail);
}

proof fn lemma_unavailable(e: Seq<char>)
    ensures
        stands_in("unavailable: "@ + e, portal::status_cell(Some(e))),
{
    reveal_strlit("<span class=\"error\">unavailable: ");
    reveal_strlit("unavailable: ");
    let f = "<span class=\"error\">unavailable: "@;
    let w = "unavailable: "@;
    let front = f.take(f.len() - 13);
    assert(f =~= front + w);
    assert(portal::status_cell(Some(e)) =~= front + (w + e) + "</span>"@);
    lemma_stands_in(front, w + e, "</span>"@);
}

/// Whether a blank line stands at a place.
pub open spec fn is_blank_line(buf: Seq<u8>, i: int) -> bool {
    &&& 0 <= i
    &&& i + 4 <= buf.len()
    &&& buf[i] == 13
    &&& buf[i + 1] == 10
    &&& buf[i + 2] == 13
    &&& buf[i + 3] == 10
}

proof fn lemma_fields_end(buf: Seq<u8>, from: int, i: int)
    requires
        0 <= from <= i,
        is_blank_line(buf, i),
        forall|j: int| from <= j < i ==> !#[trigger] is_blank_line(buf, j),
    ensures
        portal::fields_end(buf, from) == i,
    decreases i - from,
{
    if from < i {
        assert(!is_blank_line(buf, from));
        lemma_fields_end(buf, from + 1, i);
    }
}

/// The body of a response is what stands behind the first blank line, if that
/// is text.
pub proof fn law_body_stands_behind_the_blank_line(buf: Seq<u8>, i: int)
    requires
        is_blank_line(buf, i),
        forall|j: int| 0 <= j < i ==> !#[trigger] is_blank_line(buf, j),
    ensures
        ({
            let body = buf.skip(i + 4);
            let r = portal::body_of(buf);
            &&& r is Ok <==> vstd::utf8::valid_utf8(body)
            &&& r is Ok ==> r->Ok_0 == vstd::utf8::decode_utf8(body)
        }),
{
    lemma_fields_end(buf, 0, i);
}

} // verus!
