//! What a translation carries over from each resource.

use vstd::prelude::*;

use crate::config;
use crate::config::{Endpoint, ListenerProtocol, PathMatchKind, TlsMode};
use crate::k8s_gateway;
use crate::k8s_gateway::laws;
use crate::k8s_gateway::{
    Gateway, GatewayListener, HttpHeaderFilter, HttpHeaderMatch, HttpQueryParamMatch, HttpRoute,
    HttpRouteFilter, HttpRouteMatch, HttpRouteRule, PlanView, SecretObjectReference,
};
use crate::text;

verus! {

/// Whether an optional text is that of an optional string.
pub open spec fn same_opt(o: Option<String>, v: Option<Seq<char>>) -> bool {
    &&& o is Some <==> v is Some
    &&& o is Some ==> o->Some_0@ == v->Some_0
}

// ---------------------------------------------------------------------------
// Redirects and rewrites
// ---------------------------------------------------------------------------

/// Whether an action sends the client where a redirect filter says, field by
/// field.
pub open spec fn redirects_as(a: config::RouteActionView, f: HttpRouteFilter) -> bool {
    &&& a is Redirect
    &&& f is RequestRedirect
    &&& same_opt(f->scheme, a->scheme)
    &&& same_opt(f->RequestRedirect_hostname, a->host)
    &&& same_opt(f->RequestRedirect_path, a->Redirect_path)
    &&& f->status_code == a->Redirect_status
}

/// Whether the filter at `i` is the last redirect.
pub open spec fn is_last_redirect(fs: Seq<HttpRouteFilter>, i: int) -> bool {
    &&& 0 <= i < fs.len()
    &&& fs[i] is RequestRedirect
    &&& forall|j: int| i < j < fs.len() ==> !((#[trigger] fs[j]) is RequestRedirect)
}

/// Whether no filter redirects.
pub open spec fn no_redirect(fs: Seq<HttpRouteFilter>) -> bool {
    forall|j: int| 0 <= j < fs.len() ==> !((#[trigger] fs[j]) is RequestRedirect)
}

/// Whether a filter rewrites the path.
pub open spec fn rewrites_path(f: HttpRouteFilter) -> bool {
    f is UrlRewrite && f->UrlRewrite_path is Some
}

/// Whether a rewrite puts what a filter says in place of the path.
pub open spec fn rewrites_as(r: config::PathRewriteView, f: HttpRouteFilter) -> bool {
    &&& rewrites_path(f)
    &&& r->prefix == "/"@
    &&& f->UrlRewrite_path->Some_0 is ReplaceFullPath ==> r->replacement
        == f->UrlRewrite_path->Some_0->replace_full_path@
    &&& f->UrlRewrite_path->Some_0 is ReplacePrefixMatch ==> r->replacement
        == f->UrlRewrite_path->Some_0->replace_prefix_match@
}

proof fn lemma_action(fs: Seq<HttpRouteFilter>, n: nat)
    requires
        n <= fs.len(),
    ensures
        ({
            let e = k8s_gateway::filters_effect(fs, n);
            &&& forall|i: int| #[trigger]
                is_last_redirect(fs.take(n as int), i) ==> e.action is Some && redirects_as(
                    e.action->Some_0,
                    fs[i],
                )
            &&& no_redirect(fs.take(n as int)) <==> e.action is None
            &&& no_redirect(fs.take(n as int)) ==> ({
                &&& forall|i: int|
                    0 <= i < n && rewrites_path(#[trigger] fs[i]) && (forall|j: int|
                        i < j < n ==> !rewrites_path(#[trigger] fs[j])) ==> e.rewrite is Some
                        && rewrites_as(e.rewrite->Some_0, fs[i])
                &&& (forall|j: int| 0 <= j < n ==> !rewrites_path(#[trigger] fs[j]))
                    ==> e.rewrite is None
            })
        }),
    decreases n,
{
    if n > 0 {
        let m = (n - 1) as nat;
        lemma_action(fs, m);
        let f = fs[m as int];
        let t = fs.take(n as int);
        let b = fs.take(m as int);
        let e = k8s_gateway::filters_effect(fs, n);
        assert(t =~= b.push(f));
        assert(t[m as int] == f);
        if f is RequestRedirect {
            assert(redirects_as(e.action->Some_0, f));
            assert forall|i: int| #[trigger] is_last_redirect(t, i) implies e.action is Some
                && redirects_as(e.action->Some_0, fs[i]) by {
                if i < m {
                    assert(t[m as int] is RequestRedirect);
                }
            }
        } else {
            assert forall|i: int| #[trigger] is_last_redirect(t, i) implies e.action is Some
                && redirects_as(e.action->Some_0, fs[i]) by {
                assert(i < m);
                assert forall|j: int| i < j < b.len() implies !(
                (#[trigger] b[j]) is RequestRedirect) by {
                    assert(t[j] == b[j]);
                }
                assert(is_last_redirect(b, i));
            }
            if no_redirect(t) {
                assert forall|j: int| 0 <= j < b.len() implies !(
                (#[trigger] b[j]) is RequestRedirect) by {
                    assert(t[j] == b[j]);
                }
            }
            if no_redirect(b) {
                assert forall|j: int| 0 <= j < t.len() implies !(
                (#[trigger] t[j]) is RequestRedirect) by {
                    if j < m {
                        assert(t[j] == b[j]);
                    }
                }
            }
        }
    }
}

/// A rule redirects as its last redirect filter says, scheme, host, path and
/// status; without such a filter it does not redirect, and its path is
/// rewritten as its last path rewrite says, or not at all.
pub proof fn law_filters_redirect_or_rewrite(fs: Seq<HttpRouteFilter>)
    ensures
        ({
            let e = k8s_gateway::filters_effect(fs, fs.len());
            &&& forall|i: int| #[trigger]
                is_last_redirect(fs, i) ==> e.action is Some && redirects_as(
                    e.action->Some_0,
                    fs[i],
                )
            &&& no_redirect(fs) <==> e.action is None
            &&& no_redirect(fs) ==> ({
                &&& forall|i: int|
                    0 <= i < fs.len() && rewrites_path(#[trigger] fs[i]) && (forall|j: int|
                        i < j < fs.len() ==> !rewrites_path(#[trigger] fs[j])) ==> e.rewrite is Some
                        && rewrites_as(e.rewrite->Some_0, fs[i])
                &&& (forall|j: int| 0 <= j < fs.len() ==> !rewrites_path(#[trigger] fs[j]))
                    ==> e.rewrite is None
            })
        }),
{
    lemma_action(fs, fs.len());
    assert(fs.take(fs.len() as int) =~= fs);
}

// ---------------------------------------------------------------------------
// Header edits
// ---------------------------------------------------------------------------

/// The headers that a filter sets, on requests or on responses.
pub open spec fn set_by(f: HttpRouteFilter, on_request: bool) -> Seq<HttpHeaderFilter> {
    if on_request && f is RequestHeaderModifier {
        f->RequestHeaderModifier_set@
    } else if !on_request && f is ResponseHeaderModifier {
        f->ResponseHeaderModifier_set@
    } else {
        seq![]
    }
}

/// The headers that a filter adds, on requests or on responses.
pub open spec fn added_by(f: HttpRouteFilter, on_request: bool) -> Seq<HttpHeaderFilter> {
    if on_request && f is RequestHeaderModifier {
        f->RequestHeaderModifier_add@
    } else if !on_request && f is ResponseHeaderModifier {
        f->ResponseHeaderModifier_add@
    } else {
        seq![]
    }
}

/// The headers that a filter removes, from requests or from responses.
pub open spec fn removed_by(f: HttpRouteFilter, on_request: bool) -> Seq<String> {
    if on_request && f is RequestHeaderModifier {
        f->RequestHeaderModifier_remove@
    } else if !on_request && f is ResponseHeaderModifier {
        f->ResponseHeaderModifier_remove@
    } else {
        seq![]
    }
}

/// Whether a filter edits the headers of requests, or of responses.
pub open spec fn edits(f: HttpRouteFilter, on_request: bool) -> bool {
    if on_request {
        f is RequestHeaderModifier
    } else {
        f is ResponseHeaderModifier
    }
}

/// Whether some filter edits.
pub open spec fn some_edits(fs: Seq<HttpRouteFilter>, on_request: bool) -> bool {
    exists|i: int| 0 <= i < fs.len() && edits(#[trigger] fs[i], on_request)
}

/// All headers that filters set, in order.
pub open spec fn all_set(fs: Seq<HttpRouteFilter>, on_request: bool) -> Seq<HttpHeaderFilter>
    decreases fs.len(),
{
    if fs.len() == 0 {
        seq![]
    } else {
        all_set(fs.drop_last(), on_request) + set_by(fs.last(), on_request)
    }
}

/// All headers that filters add, in order.
pub open spec fn all_added(fs: Seq<HttpRouteFilter>, on_request: bool) -> Seq<HttpHeaderFilter>
    decreases fs.len(),
{
    if fs.len() == 0 {
        seq![]
    } else {
        all_added(fs.drop_last(), on_request) + added_by(fs.last(), on_request)
    }
}

/// All headers that filters remove, in order.
pub open spec fn all_removed(fs: Seq<HttpRouteFilter>, on_request: bool) -> Seq<String>
    decreases fs.len(),
{
    if fs.len() == 0 {
        seq![]
    } else {
        all_removed(fs.drop_last(), on_request) + removed_by(fs.last(), on_request)
    }
}

/// Whether the entry at `i` of a list of headers is on a name.
pub open spec fn is_on(hs: Seq<HttpHeaderFilter>, i: int, name: Seq<char>) -> bool {
    0 <= i < hs.len() && hs[i].name@ == name
}

/// Whether a map holds what a list of headers says: the names in the list,
/// each with the value that stands last.
pub open spec fn holds(m: Map<Seq<char>, Seq<char>>, hs: Seq<HttpHeaderFilter>) -> bool {
    &&& forall|name: Seq<char>| #[trigger]
        m.dom().contains(name) <==> exists|i: int| #[trigger] is_on(hs, i, name)
    &&& forall|name: Seq<char>, i: int| #[trigger]
        is_on(hs, i, name) && (forall|j: int| i < j ==> !#[trigger] is_on(hs, j, name))
            ==> m[name] == hs[i].value@
}

proof fn lemma_holds_push(m: Map<Seq<char>, Seq<char>>, hs: Seq<HttpHeaderFilter>, h: HttpHeaderFilter)
    requires
        holds(m, hs),
    ensures
        holds(m.insert(h.name@, h.value@), hs.push(h)),
{
    let q = hs.push(h);
    let w = m.insert(h.name@, h.value@);
    let n = hs.len() as int;
    assert forall|name: Seq<char>| #[trigger] w.dom().contains(name) <==> exists|i: int| #[trigger]
        is_on(q, i, name) by {
        if name == h.name@ {
            assert(is_on(q, n, name));
        } else {
            if m.dom().contains(name) {
                let i = choose|i: int| #[trigger] is_on(hs, i, name);
                assert(is_on(q, i, name));
            }
            if exists|i: int| #[trigger] is_on(q, i, name) {
                let i = choose|i: int| #[trigger] is_on(q, i, name);
                assert(is_on(hs, i, name));
            }
        }
    }
    assert forall|name: Seq<char>, i: int| #[trigger]
        is_on(q, i, name) && (forall|j: int| i < j ==> !#[trigger] is_on(q, j, name)) implies w[name]
        == q[i].value@ by {
        if name == h.name@ {
            assert(is_on(q, n, name));
            assert(i == n);
        } else {
            assert(is_on(hs, i, name));
            assert forall|j: int| i < j implies !#[trigger] is_on(hs, j, name) by {
                if is_on(hs, j, name) {
                    assert(is_on(q, j, name));
                }
            }
        }
    }
}

proof fn lemma_put_headers(
    m: Map<Seq<char>, Seq<char>>,
    before: Seq<HttpHeaderFilter>,
    hs: Seq<HttpHeaderFilter>,
    n: nat,
)
    requires
        n <= hs.len(),
        holds(m, before),
    ensures
        holds(k8s_gateway::put_headers(m, hs, n), before + hs.take(n as int)),
    decreases n,
{
    if n > 0 {
        lemma_put_headers(m, before, hs, (n - 1) as nat);
        lemma_holds_push(
            k8s_gateway::put_headers(m, hs, (n - 1) as nat),
            before + hs.take(n - 1),
            hs[n - 1],
        );
        assert(before + hs.take(n as int) =~= (before + hs.take(n - 1)).push(hs[n - 1]));
    } else {
        assert(before + hs.take(0) =~= before);
    }
}

/// Whether texts are those of strings, in order.
pub open spec fn same_texts(v: Seq<Seq<char>>, s: Seq<String>) -> bool {
    &&& v.len() == s.len()
    &&& forall|i: int| 0 <= i < s.len() ==> #[trigger] v[i] == s[i]@
}

/// Whether header edits are those that filters ask for.
pub open spec fn edits_as(
    ops: config::HeaderOpsView,
    fs: Seq<HttpRouteFilter>,
    on_request: bool,
) -> bool {
    &&& holds(ops.set, all_set(fs, on_request))
    &&& holds(ops.add, all_added(fs, on_request))
    &&& same_texts(ops.remove, all_removed(fs, on_request))
}

/// The edits of an effect.
spec fn ops_of(e: k8s_gateway::FilterEffect, on_request: bool) -> Option<config::HeaderOpsView> {
    if on_request {
        e.request
    } else {
        e.response
    }
}

proof fn lemma_edits(fs: Seq<HttpRouteFilter>, n: nat, on_request: bool)
    requires
        n <= fs.len(),
    ensures
        ({
            let o = ops_of(k8s_gateway::filters_effect(fs, n), on_request);
            let t = fs.take(n as int);
            &&& o is Some <==> some_edits(t, on_request)
            &&& o is Some ==> edits_as(o->Some_0, t, on_request)
            &&& o is None ==> all_set(t, on_request).len() == 0 && all_added(t, on_request).len()
                == 0 && all_removed(t, on_request).len() == 0
        }),
    decreases n,
{
    let t = fs.take(n as int);
    if n > 0 {
        let m = (n - 1) as nat;
        lemma_edits(fs, m, on_request);
        let b = fs.take(m as int);
        let f = fs[m as int];
        assert(t.drop_last() =~= b);
        assert(t.last() == f);
        let before = ops_of(k8s_gateway::filters_effect(fs, m), on_request);
        if some_edits(b, on_request) {
            let i = choose|i: int| 0 <= i < b.len() && edits(#[trigger] b[i], on_request);
            assert(edits(t[i], on_request));
        }
        if edits(f, on_request) {
            assert(edits(t[m as int], on_request));
            let start = match before {
                Some(o) => o,
                None => config::HeaderOpsView {
                    set: Map::empty(),
                    add: Map::empty(),
                    remove: seq![],
                },
            };
            let set = set_by(f, on_request);
            let add = added_by(f, on_request);
            if before is None {
                assert(holds(start.set, all_set(b, on_request)));
                assert(holds(start.add, all_added(b, on_request)));
            }
            lemma_put_headers(start.set, all_set(b, on_request), set, set.len());
            lemma_put_headers(start.add, all_added(b, on_request), add, add.len());
            assert(set.take(set.len() as int) =~= set);
            assert(add.take(add.len() as int) =~= add);
        } else {
            assert(all_set(t, on_request) =~= all_set(b, on_request));
            assert(all_added(t, on_request) =~= all_added(b, on_request));
            assert(all_removed(t, on_request) =~= all_removed(b, on_request));
            if some_edits(t, on_request) {
                let i = choose|i: int| 0 <= i < t.len() && edits(#[trigger] t[i], on_request);
                assert(edits(b[i], on_request));
            }
        }
    } else {
        assert(t =~= seq![]);
    }
}

/// Whether the edits of a route are those that filters ask for, of requests
/// and of responses.
pub open spec fn transforms_as(
    t: Option<config::TransformsView>,
    fs: Seq<HttpRouteFilter>,
) -> bool {
    &&& t is Some <==> some_edits(fs, true) || some_edits(fs, false)
    &&& t is Some ==> ({
        let (request, response) = (t->Some_0.request, t->Some_0.response);
        &&& request is Some <==> some_edits(fs, true)
        &&& some_edits(fs, true) ==> request->Some_0 is Some && edits_as(
            request->Some_0->Some_0,
            fs,
            true,
        )
        &&& response is Some <==> some_edits(fs, false)
        &&& some_edits(fs, false) ==> response->Some_0 is Some && edits_as(
            response->Some_0->Some_0,
            fs,
            false,
        )
    })
}

/// The headers that filters set, add and remove are set, added and removed,
/// those of requests on requests and those of responses on responses; of two
/// values for one name the later stands.
pub proof fn law_filters_edit_headers(fs: Seq<HttpRouteFilter>)
    ensures
        transforms_as(
            k8s_gateway::effect_transforms(k8s_gateway::filters_effect(fs, fs.len())),
            fs,
        ),
{
    lemma_edits(fs, fs.len(), true);
    lemma_edits(fs, fs.len(), false);
    assert(fs.take(fs.len() as int) =~= fs);
}

// ---------------------------------------------------------------------------
// Matches
// ---------------------------------------------------------------------------

/// Whether a match type asks for equality.
pub open spec fn asks_equality(match_type: String) -> bool {
    match_type@ == "Exact"@ || match_type@.len() == 0
}

/// Whether the header match at `i` is a usable one on a name.
pub open spec fn asks_header(hs: Seq<HttpHeaderMatch>, i: int, name: Seq<char>) -> bool {
    0 <= i < hs.len() && asks_equality(hs[i].match_type) && hs[i].name@ == name
}

/// Whether a map holds the headers that matches ask for.
pub open spec fn asks_headers(m: Map<Seq<char>, Seq<char>>, hs: Seq<HttpHeaderMatch>) -> bool {
    &&& forall|name: Seq<char>| #[trigger]
        m.dom().contains(name) <==> exists|i: int| #[trigger] asks_header(hs, i, name)
    &&& forall|name: Seq<char>, i: int| #[trigger]
        asks_header(hs, i, name) && (forall|j: int| i < j ==> !#[trigger] asks_header(hs, j, name))
            ==> m[name] == hs[i].value@
}

proof fn lemma_header_values(hs: Seq<HttpHeaderMatch>, n: nat)
    requires
        n <= hs.len(),
    ensures
        asks_headers(k8s_gateway::header_values(hs, n), hs.take(n as int)),
    decreases n,
{
    let q = hs.take(n as int);
    let w = k8s_gateway::header_values(hs, n);
    if n > 0 {
        let m = (n - 1) as nat;
        lemma_header_values(hs, m);
        let b = hs.take(m as int);
        let h = hs[m as int];
        let before = k8s_gateway::header_values(hs, m);
        let on = asks_equality(h.match_type);
        assert forall|name: Seq<char>| #[trigger] w.dom().contains(name) <==> exists|i: int|
            #[trigger] asks_header(q, i, name) by {
            if on && name == h.name@ {
                assert(asks_header(q, m as int, name));
            } else {
                if before.dom().contains(name) {
                    let i = choose|i: int| #[trigger] asks_header(b, i, name);
                    assert(asks_header(q, i, name));
                }
                if exists|i: int| #[trigger] asks_header(q, i, name) {
                    let i = choose|i: int| #[trigger] asks_header(q, i, name);
                    assert(asks_header(b, i, name));
                }
            }
        }
        assert forall|name: Seq<char>, i: int| #[trigger]
            asks_header(q, i, name) && (forall|j: int|
                i < j ==> !#[trigger] asks_header(q, j, name)) implies w[name] == q[i].value@ by {
            if on && name == h.name@ {
                assert(asks_header(q, m as int, name));
                assert(i == m);
            } else {
                assert(asks_header(b, i, name));
                assert forall|j: int| i < j implies !#[trigger] asks_header(b, j, name) by {
                    if asks_header(b, j, name) {
                        assert(asks_header(q, j, name));
                    }
                }
            }
        }
    } else {
        assert forall|name: Seq<char>| #[trigger] w.dom().contains(name) <==> exists|i: int|
            #[trigger] asks_header(q, i, name) by {}
    }
}

/// The query matches that ask for equality.
pub open spec fn equality_queries(qs: Seq<HttpQueryParamMatch>) -> Seq<HttpQueryParamMatch> {
    qs.filter(|q: HttpQueryParamMatch| asks_equality(q.match_type))
}

/// Whether queries are those that matches ask for, in order.
pub open spec fn asks_queries(
    v: Seq<config::NameValueMatchView>,
    qs: Seq<HttpQueryParamMatch>,
) -> bool {
    let asked = equality_queries(qs);
    &&& v.len() == asked.len()
    &&& forall|i: int|
        0 <= i < v.len() ==> (#[trigger] v[i]).name == asked[i].name@ && v[i].value == Some(
            asked[i].value@,
        )
}

proof fn lemma_query_values(qs: Seq<HttpQueryParamMatch>, n: nat)
    requires
        n <= qs.len(),
    ensures
        asks_queries(k8s_gateway::query_values(qs, n), qs.take(n as int)),
    decreases n,
{
    reveal(Seq::filter);
    if n > 0 {
        lemma_query_values(qs, (n - 1) as nat);
        assert(qs.take(n as int).drop_last() =~= qs.take(n - 1));
    }
}

/// Whether a route match asks what an HTTPRoute match asks, under the host of
/// the route.
pub open spec fn matches_as(
    r: config::RouteMatchView,
    m: Option<HttpRouteMatch>,
    hostnames: Seq<String>,
) -> bool {
    &&& hostnames.len() > 0 ==> r.host == Some(hostnames[0]@)
    &&& hostnames.len() == 0 ==> r.host is None
    &&& m is None || m->Some_0.path is None ==> r.path.kind == PathMatchKind::Prefix
        && r.path.value == "/"@
    &&& m is Some && m->Some_0.path is Some ==> ({
        let p = m->Some_0.path->Some_0;
        &&& r.path.value == p.value@
        &&& p.match_type@ == "Exact"@ <==> r.path.kind == PathMatchKind::Exact
        &&& p.match_type@ == "RegularExpression"@ <==> r.path.kind == PathMatchKind::Regex
    })
    &&& m is Some ==> asks_headers(r.headers, m->Some_0.headers@)
    &&& m is Some ==> asks_queries(r.query, m->Some_0.query_params@)
    &&& m is None ==> r.headers == Map::<Seq<char>, Seq<char>>::empty() && r.query.len() == 0
}

/// A route matches what the HTTPRoute match says: its path in the way that it
/// names, the headers and the query parameters that it asks to be equal, and
/// the first host of the route.
pub proof fn law_match_is_carried_over(m: Option<HttpRouteMatch>, hostnames: Seq<String>)
    ensures
        matches_as(
            k8s_gateway::route_match(
                m,
                if hostnames.len() > 0 {
                    Some(hostnames[0]@)
                } else {
                    None
                },
            ),
            m,
            hostnames,
        ),
{
    reveal_strlit("Exact");
    reveal_strlit("RegularExpression");
    assert("Exact"@.len() != "RegularExpression"@.len());
    if let Some(x) = m {
        lemma_header_values(x.headers@, x.headers@.len());
        lemma_query_values(x.query_params@, x.query_params@.len());
        assert(x.headers@.take(x.headers@.len() as int) =~= x.headers@);
        assert(x.query_params@.take(x.query_params@.len() as int) =~= x.query_params@);
    }
}

// ---------------------------------------------------------------------------
// Backends
// ---------------------------------------------------------------------------

/// Whether a list of endpoints is the one on record, address by address.
pub open spec fn same_endpoints(v: Seq<config::EndpointView>, s: Seq<Endpoint>) -> bool {
    &&& v.len() == s.len()
    &&& forall|i: int|
        0 <= i < s.len() ==> (#[trigger] v[i]).address == s[i].address@ && v[i].port == s[i].port
}

/// The key under which the endpoints of a service's port are on record.
pub open spec fn record_key(ns: Seq<char>, service: Seq<char>, port: u16) -> Seq<char> {
    ns + "/"@ + service + ":"@ + text::dec(port as nat)
}

/// Whether the service at `k` leads to the endpoints on record for a backend,
/// and to none where nothing is on record.
pub open spec fn leads_to(
    services: Seq<config::ServiceView>,
    upstreams: Seq<config::UpstreamView>,
    k: int,
    service: Seq<char>,
    endpoints: Map<Seq<char>, Vec<Endpoint>>,
    ns: Seq<char>,
    backend: Seq<char>,
    port: u16,
) -> bool {
    &&& 0 <= k < services.len()
    &&& k < upstreams.len()
    &&& services[k].name == service
    &&& services[k].upstream == Some(upstreams[k].name)
    &&& endpoints.dom().contains(record_key(ns, backend, port)) ==> same_endpoints(
        upstreams[k].endpoints,
        endpoints[record_key(ns, backend, port)]@,
    )
    &&& !endpoints.dom().contains(record_key(ns, backend, port)) ==> upstreams[k].endpoints.len()
        == 0
}

/// Whether a service leads to the endpoints of a backend.
pub open spec fn is_served(
    services: Seq<config::ServiceView>,
    upstreams: Seq<config::UpstreamView>,
    service: Seq<char>,
    endpoints: Map<Seq<char>, Vec<Endpoint>>,
    ns: Seq<char>,
    backend: Seq<char>,
    port: u16,
) -> bool {
    exists|k: int| #[trigger]
        leads_to(services, upstreams, k, service, endpoints, ns, backend, port)
}

/// Whether a plan holds all of another, at the same places, and as many
/// services as upstreams.
pub open spec fn grows(p: PlanView, q: PlanView) -> bool {
    &&& p.routes.is_prefix_of(q.routes)
    &&& p.services.is_prefix_of(q.services)
    &&& p.upstreams.is_prefix_of(q.upstreams)
    &&& p.warnings.is_prefix_of(q.warnings)
    &&& p.services.len() == p.upstreams.len() ==> q.services.len() == q.upstreams.len()
}

pub proof fn lemma_prefix_trans<A>(a: Seq<A>, b: Seq<A>, c: Seq<A>)
    requires
        a.is_prefix_of(b),
        b.is_prefix_of(c),
    ensures
        a.is_prefix_of(c),
{
    assert forall|i: int| 0 <= i < a.len() implies a[i] == c[i] by {
        assert(a[i] == b.subrange(0, a.len() as int)[i]);
        assert(b[i] == c.subrange(0, b.len() as int)[i]);
    }
    assert(a =~= c.subrange(0, a.len() as int));
}

pub proof fn lemma_prefix_at<A>(a: Seq<A>, b: Seq<A>, i: int)
    requires
        a.is_prefix_of(b),
        0 <= i < a.len(),
    ensures
        a[i] == b[i],
        a.len() <= b.len(),
{
    assert(a[i] == b.subrange(0, a.len() as int)[i]);
}

pub proof fn lemma_grows_trans(p: PlanView, q: PlanView, r: PlanView)
    requires
        grows(p, q),
        grows(q, r),
    ensures
        grows(p, r),
{
    lemma_prefix_trans(p.routes, q.routes, r.routes);
    lemma_prefix_trans(p.services, q.services, r.services);
    lemma_prefix_trans(p.upstreams, q.upstreams, r.upstreams);
    lemma_prefix_trans(p.warnings, q.warnings, r.warnings);
}

pub proof fn lemma_served_grows(
    p: PlanView,
    q: PlanView,
    service: Seq<char>,
    endpoints: Map<Seq<char>, Vec<Endpoint>>,
    ns: Seq<char>,
    backend: Seq<char>,
    port: u16,
)
    requires
        grows(p, q),
        is_served(p.services, p.upstreams, service, endpoints, ns, backend, port),
    ensures
        is_served(q.services, q.upstreams, service, endpoints, ns, backend, port),
{
    let k = choose|k: int| #[trigger]
        leads_to(p.services, p.upstreams, k, service, endpoints, ns, backend, port);
    lemma_prefix_at(p.services, q.services, k);
    lemma_prefix_at(p.upstreams, q.upstreams, k);
    assert(leads_to(q.services, q.upstreams, k, service, endpoints, ns, backend, port));
}

pub proof fn lemma_backend_serves(
    p: PlanView,
    route: Seq<char>,
    ns: Seq<char>,
    backend: Seq<char>,
    port: u16,
    endpoints: Map<Seq<char>, Vec<Endpoint>>,
)
    requires
        p.services.len() == p.upstreams.len(),
    ensures
        ({
            let q = k8s_gateway::plan_backend(p, route, ns, backend, port, endpoints);
            &&& grows(p, q)
            &&& q.routes == p.routes
            &&& is_served(
                q.services,
                q.upstreams,
                k8s_gateway::service_name(route, backend, port),
                endpoints,
                ns,
                backend,
                port,
            )
            &&& endpoints.dom().contains(record_key(ns, backend, port)) ==> q.warnings
                == p.warnings
            &&& !endpoints.dom().contains(record_key(ns, backend, port)) ==> q.warnings.len()
                == p.warnings.len() + 1
        }),
{
    let q = k8s_gateway::plan_backend(p, route, ns, backend, port, endpoints);
    let k = p.services.len() as int;
    assert(p.services =~= q.services.subrange(0, k));
    assert(p.upstreams =~= q.upstreams.subrange(0, k));
    assert(p.warnings =~= q.warnings.subrange(0, p.warnings.len() as int));
    assert(p.routes =~= q.routes.subrange(0, p.routes.len() as int));
    assert(leads_to(
        q.services,
        q.upstreams,
        k,
        k8s_gateway::service_name(route, backend, port),
        endpoints,
        ns,
        backend,
        port,
    ));
}

// ---------------------------------------------------------------------------
// Routes
// ---------------------------------------------------------------------------

/// The namespace that a reference of a route means: its own, or the route's,
/// which is `default` where it has none.
pub open spec fn meant_namespace(own: Option<String>, route: HttpRoute) -> Seq<char> {
    if own is Some {
        own->Some_0@
    } else if route.metadata.namespace is Some {
        route.metadata.namespace->Some_0@
    } else {
        "default"@
    }
}

/// Whether a route does what a rule says: it redirects as the last redirect
/// filter says; else it proxies to the first backend, with the path rewritten
/// as the filters say; else, without a backend, it answers 503.
pub open spec fn acts_as(
    r: config::RouteView,
    services: Seq<config::ServiceView>,
    upstreams: Seq<config::UpstreamView>,
    route: HttpRoute,
    rule: HttpRouteRule,
    endpoints: Map<Seq<char>, Vec<Endpoint>>,
) -> bool {
    let fs = rule.filters@;
    &&& forall|i: int| #[trigger] is_last_redirect(fs, i) ==> redirects_as(r.action, fs[i])
    &&& no_redirect(fs) && rule.backend_refs@.len() == 0 ==> r.action is Respond
        && r.action->Respond_status == 503 && r.action->body is None
    &&& no_redirect(fs) && rule.backend_refs@.len() > 0 ==> ({
        let b = rule.backend_refs@[0];
        &&& r.action is Proxy
        &&& r.service == r.name + "-svc-"@ + b.name@ + "-"@ + text::dec(
            if b.port is Some {
                b.port->Some_0 as nat
            } else {
                80
            },
        )
        &&& is_served(
            services,
            upstreams,
            r.service,
            endpoints,
            meant_namespace(b.namespace, route),
            b.name@,
            if b.port is Some {
                b.port->Some_0
            } else {
                80
            },
        )
        &&& forall|i: int|
            0 <= i < fs.len() && rewrites_path(#[trigger] fs[i]) && (forall|j: int|
                i < j < fs.len() ==> !rewrites_path(#[trigger] fs[j])) ==> r.action->rewrite is Some
                && rewrites_as(r.action->rewrite->Some_0, fs[i])
        &&& (forall|j: int| 0 <= j < fs.len() ==> !rewrites_path(#[trigger] fs[j]))
            ==> r.action->rewrite is None
    })
}

/// Whether a route is that of one match of one rule of an HTTPRoute.
pub open spec fn is_route_of(
    r: config::RouteView,
    services: Seq<config::ServiceView>,
    upstreams: Seq<config::UpstreamView>,
    route: HttpRoute,
    rule_idx: int,
    match_idx: int,
    endpoints: Map<Seq<char>, Vec<Endpoint>>,
) -> bool {
    let rule = route.spec.rules@[rule_idx];
    &&& rule.matches@.len() <= 1 ==> r.name == route.metadata.name@ + "-rule-"@ + text::dec(
        rule_idx as nat,
    )
    &&& rule.matches@.len() > 1 ==> r.name == route.metadata.name@ + "-rule-"@ + text::dec(
        rule_idx as nat,
    ) + "-match-"@ + text::dec(match_idx as nat)
    &&& matches_as(
        r.match_,
        if rule.matches@.len() == 0 {
            None
        } else {
            Some(rule.matches@[match_idx])
        },
        route.spec.hostnames@,
    )
    &&& acts_as(r, services, upstreams, route, rule, endpoints)
    &&& transforms_as(r.transforms, rule.filters@)
}

/// Whether a rule has a match at a place; one without matches has one place.
pub open spec fn is_place(rule: HttpRouteRule, match_idx: int) -> bool {
    0 <= match_idx < rule.matches@.len() || (rule.matches@.len() == 0 && match_idx == 0)
}

proof fn lemma_route_grows(
    p: PlanView,
    q: PlanView,
    r: config::RouteView,
    route: HttpRoute,
    rule_idx: int,
    match_idx: int,
    endpoints: Map<Seq<char>, Vec<Endpoint>>,
)
    requires
        grows(p, q),
        is_route_of(r, p.services, p.upstreams, route, rule_idx, match_idx, endpoints),
    ensures
        is_route_of(r, q.services, q.upstreams, route, rule_idx, match_idx, endpoints),
{
    let rule = route.spec.rules@[rule_idx];
    if no_redirect(rule.filters@) && rule.backend_refs@.len() > 0 {
        let b = rule.backend_refs@[0];
        lemma_served_grows(
            p,
            q,
            r.service,
            endpoints,
            meant_namespace(b.namespace, route),
            b.name@,
            if b.port is Some {
                b.port->Some_0
            } else {
                80
            },
        );
    }
}

proof fn lemma_warnings_grow(w: Seq<Seq<char>>, m: Option<HttpRouteMatch>)
    ensures
        w.is_prefix_of(k8s_gateway::warn_match(w, m)),
{
    if let Some(x) = m {
        lemma_warn_headers(w, x.headers@, x.headers@.len());
        let v = k8s_gateway::warn_headers(w, x.headers@, x.headers@.len());
        lemma_warn_query(v, x.query_params@, x.query_params@.len());
        lemma_prefix_trans(
            w,
            v,
            k8s_gateway::warn_query(v, x.query_params@, x.query_params@.len()),
        );
    } else {
        assert(w =~= w.subrange(0, w.len() as int));
    }
}

/// How many of the first `n` header matches cannot be carried over.
pub open spec fn lost_headers(hs: Seq<HttpHeaderMatch>, n: nat) -> nat
    decreases n,
{
    if n == 0 {
        0
    } else {
        lost_headers(hs, (n - 1) as nat) + if asks_equality(hs[n - 1].match_type) {
            0nat
        } else {
            1
        }
    }
}

/// How many of the first `n` query matches cannot be carried over.
pub open spec fn lost_queries(qs: Seq<HttpQueryParamMatch>, n: nat) -> nat
    decreases n,
{
    if n == 0 {
        0
    } else {
        lost_queries(qs, (n - 1) as nat) + if asks_equality(qs[n - 1].match_type) {
            0nat
        } else {
            1
        }
    }
}

proof fn lemma_warn_headers(w: Seq<Seq<char>>, hs: Seq<HttpHeaderMatch>, n: nat)
    ensures
        w.is_prefix_of(k8s_gateway::warn_headers(w, hs, n)),
        k8s_gateway::warn_headers(w, hs, n).len() == w.len() + lost_headers(hs, n),
    decreases n,
{
    if n > 0 {
        lemma_warn_headers(w, hs, (n - 1) as nat);
        let a = k8s_gateway::warn_headers(w, hs, (n - 1) as nat);
        let b = k8s_gateway::warn_headers(w, hs, n);
        assert(a =~= b.subrange(0, a.len() as int));
        lemma_prefix_trans(w, a, b);
    } else {
        assert(w =~= w.subrange(0, w.len() as int));
    }
}

proof fn lemma_warn_query(w: Seq<Seq<char>>, qs: Seq<HttpQueryParamMatch>, n: nat)
    ensures
        w.is_prefix_of(k8s_gateway::warn_query(w, qs, n)),
        k8s_gateway::warn_query(w, qs, n).len() == w.len() + lost_queries(qs, n),
    decreases n,
{
    if n > 0 {
        lemma_warn_query(w, qs, (n - 1) as nat);
        let a = k8s_gateway::warn_query(w, qs, (n - 1) as nat);
        let b = k8s_gateway::warn_query(w, qs, n);
        assert(a =~= b.subrange(0, a.len() as int));
        lemma_prefix_trans(w, a, b);
    } else {
        assert(w =~= w.subrange(0, w.len() as int));
    }
}

/// No condition of a match is dropped silently: each header or query match
/// that cannot be carried over adds one warning, and nothing else adds any.
pub proof fn law_no_condition_is_dropped_silently(w: Seq<Seq<char>>, m: HttpRouteMatch)
    ensures
        w.is_prefix_of(k8s_gateway::warn_match(w, Some(m))),
        k8s_gateway::warn_match(w, Some(m)).len() == w.len() + lost_headers(
            m.headers@,
            m.headers@.len(),
        ) + lost_queries(m.query_params@, m.query_params@.len()),
{
    lemma_warnings_grow(w, Some(m));
    lemma_warn_headers(w, m.headers@, m.headers@.len());
    lemma_warn_query(
        k8s_gateway::warn_headers(w, m.headers@, m.headers@.len()),
        m.query_params@,
        m.query_params@.len(),
    );
}

proof fn lemma_match(
    p: PlanView,
    route: HttpRoute,
    rule_idx: nat,
    match_idx: nat,
    endpoints: Map<Seq<char>, Vec<Endpoint>>,
)
    requires
        p.services.len() == p.upstreams.len(),
        rule_idx < route.spec.rules@.len(),
        is_place(route.spec.rules@[rule_idx as int], match_idx as int),
    ensures
        ({
            let q = k8s_gateway::plan_match(p, route, rule_idx, match_idx, endpoints);
            &&& grows(p, q)
            &&& q.routes.len() == p.routes.len() + 1
            &&& is_route_of(
                q.routes.last(),
                q.services,
                q.upstreams,
                route,
                rule_idx as int,
                match_idx as int,
                endpoints,
            )
        }),
{
    let rule = route.spec.rules@[rule_idx as int];
    let fs = rule.filters@;
    let m = k8s_gateway::match_at(rule, match_idx);
    let w = k8s_gateway::warn_match(p.warnings, m);
    let q = k8s_gateway::plan_match(p, route, rule_idx, match_idx, endpoints);
    let mid = PlanView { warnings: k8s_gateway::warn_filters(w, fs, fs.len()), ..p };
    lemma_warnings_grow(p.warnings, m);
    laws::law_no_filter_is_dropped_silently(w, fs, fs.len());
    lemma_prefix_trans(p.warnings, w, mid.warnings);
    assert(p.routes =~= mid.routes.subrange(0, p.routes.len() as int));
    assert(p.services =~= mid.services.subrange(0, p.services.len() as int));
    assert(p.upstreams =~= mid.upstreams.subrange(0, p.upstreams.len() as int));
    assert(grows(p, mid));
    law_filters_redirect_or_rewrite(fs);
    law_filters_edit_headers(fs);
    law_match_is_carried_over(m, route.spec.hostnames@);
    let name = k8s_gateway::http_route_name(route, rule_idx, match_idx);
    let e = k8s_gateway::filters_effect(fs, fs.len());
    if e.action is None && rule.backend_refs@.len() > 0 {
        let b = rule.backend_refs@[0];
        let ns = k8s_gateway::backend_namespace(b, route);
        let port = k8s_gateway::backend_port(b);
        lemma_backend_serves(mid, name, ns, b.name@, port, endpoints);
        let done = k8s_gateway::plan_backend(mid, name, ns, b.name@, port, endpoints);
        lemma_grows_trans(p, mid, done);
        assert(done.routes =~= q.routes.subrange(0, done.routes.len() as int));
        lemma_prefix_trans(p.routes, done.routes, q.routes);
    } else {
        assert(mid.routes =~= q.routes.subrange(0, mid.routes.len() as int));
        assert(mid.warnings =~= q.warnings.subrange(0, mid.warnings.len() as int));
        lemma_prefix_trans(p.warnings, mid.warnings, q.warnings);
        lemma_prefix_trans(p.routes, mid.routes, q.routes);
    }
}

/// Whether a plan has a route for one match of one rule.
pub open spec fn has_route(
    p: PlanView,
    route: HttpRoute,
    rule_idx: int,
    match_idx: int,
    endpoints: Map<Seq<char>, Vec<Endpoint>>,
) -> bool {
    exists|k: int|
        0 <= k < p.routes.len() && is_route_of(
            #[trigger] p.routes[k],
            p.services,
            p.upstreams,
            route,
            rule_idx,
            match_idx,
            endpoints,
        )
}

proof fn lemma_has_route_grows(
    p: PlanView,
    q: PlanView,
    route: HttpRoute,
    rule_idx: int,
    match_idx: int,
    endpoints: Map<Seq<char>, Vec<Endpoint>>,
)
    requires
        grows(p, q),
        has_route(p, route, rule_idx, match_idx, endpoints),
    ensures
        has_route(q, route, rule_idx, match_idx, endpoints),
{
    let k = choose|k: int|
        0 <= k < p.routes.len() && is_route_of(
            #[trigger] p.routes[k],
            p.services,
            p.upstreams,
            route,
            rule_idx,
            match_idx,
            endpoints,
        );
    lemma_prefix_at(p.routes, q.routes, k);
    lemma_route_grows(p, q, p.routes[k], route, rule_idx, match_idx, endpoints);
    assert(is_route_of(
        q.routes[k],
        q.services,
        q.upstreams,
        route,
        rule_idx,
        match_idx,
        endpoints,
    ));
}

pub proof fn lemma_grows_self(p: PlanView)
    ensures
        grows(p, p),
{
    assert(p.routes =~= p.routes.subrange(0, p.routes.len() as int));
    assert(p.services =~= p.services.subrange(0, p.services.len() as int));
    assert(p.upstreams =~= p.upstreams.subrange(0, p.upstreams.len() as int));
    assert(p.warnings =~= p.warnings.subrange(0, p.warnings.len() as int));
}

proof fn lemma_rule(
    p: PlanView,
    route: HttpRoute,
    rule_idx: nat,
    n: nat,
    endpoints: Map<Seq<char>, Vec<Endpoint>>,
)
    requires
        p.services.len() == p.upstreams.len(),
        rule_idx < route.spec.rules@.len(),
        n == 0 || is_place(route.spec.rules@[rule_idx as int], n - 1),
    ensures
        grows(p, k8s_gateway::plan_rule(p, route, rule_idx, n, endpoints)),
        forall|m: int|
            0 <= m < n ==> #[trigger] has_route(
                k8s_gateway::plan_rule(p, route, rule_idx, n, endpoints),
                route,
                rule_idx as int,
                m,
                endpoints,
            ),
    decreases n,
{
    if n > 0 {
        let k = (n - 1) as nat;
        lemma_rule(p, route, rule_idx, k, endpoints);
        let before = k8s_gateway::plan_rule(p, route, rule_idx, k, endpoints);
        let after = k8s_gateway::plan_rule(p, route, rule_idx, n, endpoints);
        lemma_match(before, route, rule_idx, k, endpoints);
        lemma_grows_trans(p, before, after);
        assert forall|m: int| 0 <= m < n implies #[trigger] has_route(
            after,
            route,
            rule_idx as int,
            m,
            endpoints,
        ) by {
            if m < k {
                lemma_has_route_grows(before, after, route, rule_idx as int, m, endpoints);
            } else {
                assert(is_route_of(
                    after.routes[after.routes.len() - 1],
                    after.services,
                    after.upstreams,
                    route,
                    rule_idx as int,
                    m,
                    endpoints,
                ));
            }
        }
    } else {
        lemma_grows_self(p);
    }
}

proof fn lemma_rules(
    p: PlanView,
    route: HttpRoute,
    n: nat,
    endpoints: Map<Seq<char>, Vec<Endpoint>>,
)
    requires
        p.services.len() == p.upstreams.len(),
        n <= route.spec.rules@.len(),
    ensures
        grows(p, k8s_gateway::plan_rules(p, route, n, endpoints)),
        forall|i: int, m: int|
            0 <= i < n && is_place(route.spec.rules@[i], m) ==> #[trigger] has_route(
                k8s_gateway::plan_rules(p, route, n, endpoints),
                route,
                i,
                m,
                endpoints,
            ),
    decreases n,
{
    if n > 0 {
        let k = (n - 1) as nat;
        lemma_rules(p, route, k, endpoints);
        let before = k8s_gateway::plan_rules(p, route, k, endpoints);
        let after = k8s_gateway::plan_rules(p, route, n, endpoints);
        let rule = route.spec.rules@[k as int];
        lemma_rule(before, route, k, k8s_gateway::match_count(rule), endpoints);
        lemma_grows_trans(p, before, after);
        assert forall|i: int, m: int|
            0 <= i < n && is_place(route.spec.rules@[i], m) implies #[trigger] has_route(
            after,
            route,
            i,
            m,
            endpoints,
        ) by {
            if i < k {
                lemma_has_route_grows(before, after, route, i, m, endpoints);
            }
        }
    } else {
        lemma_grows_self(p);
    }
}

/// Whether an HTTPRoute attaches to a Gateway: it names no parent at all, or
/// one of its parents is a Gateway of that name in the Gateway's namespace.
pub open spec fn is_child_of(route: HttpRoute, gateway: Gateway) -> bool {
    ||| route.spec.parent_refs@.len() == 0
    ||| exists|i: int|
        0 <= i < route.spec.parent_refs@.len() && (
        #[trigger] route.spec.parent_refs@[i]).name@ == gateway.metadata.name@
            && route.spec.parent_refs@[i].kind@ == "Gateway"@ && meant_namespace(
            route.spec.parent_refs@[i].namespace,
            route,
        ) == (if gateway.metadata.namespace is Some {
            gateway.metadata.namespace->Some_0@
        } else {
            "default"@
        })
}

proof fn lemma_attaches(route: HttpRoute, gateway: Gateway)
    ensures
        k8s_gateway::attaches(route, gateway.metadata.name@, gateway.metadata.namespace)
            <==> is_child_of(route, gateway),
{
    let refs = route.spec.parent_refs@;
    if refs.len() > 0 && is_child_of(route, gateway) {
        let i = choose|i: int|
            0 <= i < refs.len() && (#[trigger] refs[i]).name@ == gateway.metadata.name@
                && refs[i].kind@ == "Gateway"@ && meant_namespace(refs[i].namespace, route) == (
            if gateway.metadata.namespace is Some {
                gateway.metadata.namespace->Some_0@
            } else {
                "default"@
            });
        assert(k8s_gateway::names_gateway(
            refs[i],
            route,
            gateway.metadata.name@,
            gateway.metadata.namespace,
        ));
    }
}

proof fn lemma_routes(
    p: PlanView,
    gateway: Gateway,
    routes: Seq<HttpRoute>,
    n: nat,
    endpoints: Map<Seq<char>, Vec<Endpoint>>,
    h: int,
    i: int,
    m: int,
)
    requires
        p.services.len() == p.upstreams.len(),
        n <= routes.len(),
    ensures
        grows(p, k8s_gateway::plan_routes(p, gateway, routes, n, endpoints)),
        0 <= h < n && is_child_of(routes[h], gateway) && 0 <= i < routes[h].spec.rules@.len()
            && is_place(routes[h].spec.rules@[i], m) ==> has_route(
            k8s_gateway::plan_routes(p, gateway, routes, n, endpoints),
            routes[h],
            i,
            m,
            endpoints,
        ),
    decreases n,
{
    if n > 0 {
        let k = (n - 1) as nat;
        lemma_routes(p, gateway, routes, k, endpoints, h, i, m);
        let before = k8s_gateway::plan_routes(p, gateway, routes, k, endpoints);
        let after = k8s_gateway::plan_routes(p, gateway, routes, n, endpoints);
        let route = routes[k as int];
        lemma_attaches(route, gateway);
        if is_child_of(route, gateway) {
            lemma_rules(before, route, route.spec.rules@.len(), endpoints);
        } else {
            lemma_grows_self(before);
        }
        lemma_grows_trans(p, before, after);
        if 0 <= h < k && is_child_of(routes[h], gateway) && 0 <= i < routes[h].spec.rules@.len()
            && is_place(routes[h].spec.rules@[i], m) {
            lemma_has_route_grows(before, after, routes[h], i, m, endpoints);
        }
    } else {
        lemma_grows_self(p);
    }
}

/// Every match of every rule of an HTTPRoute that attaches to a Gateway has a
/// route in the configuration: under the route's first host, on the match's
/// path, headers and query, with the action, the edits and the endpoints that
/// the rule asks for.
pub proof fn law_every_match_is_routed(
    gateway: Gateway,
    routes: Seq<HttpRoute>,
    endpoints: Map<Seq<char>, Vec<Endpoint>>,
    h: int,
    rule_idx: int,
    match_idx: int,
)
    requires
        0 <= h < routes.len(),
        is_child_of(routes[h], gateway),
        0 <= rule_idx < routes[h].spec.rules@.len(),
        is_place(routes[h].spec.rules@[rule_idx], match_idx),
    ensures
        ({
            let g = k8s_gateway::translation(gateway, routes, endpoints).gateway;
            exists|k: int|
                0 <= k < g.routes.len() && is_route_of(
                    #[trigger] g.routes[k],
                    g.services,
                    g.upstreams,
                    routes[h],
                    rule_idx,
                    match_idx,
                    endpoints,
                )
        }),
{
    let start = PlanView {
        routes: seq![],
        services: seq![],
        upstreams: seq![],
        warnings: k8s_gateway::warn_listeners(
            seq![],
            gateway.spec.listeners@,
            gateway.spec.listeners@.len(),
        ),
    };
    lemma_routes(
        start,
        gateway,
        routes,
        routes.len(),
        endpoints,
        h,
        rule_idx,
        match_idx,
    );
    let p = k8s_gateway::gateway_plan(gateway, routes, endpoints);
    assert(has_route(p, routes[h], rule_idx, match_idx, endpoints));
    let g = k8s_gateway::translation(gateway, routes, endpoints).gateway;
    let k = choose|k: int|
        0 <= k < p.routes.len() && is_route_of(
            #[trigger] p.routes[k],
            p.services,
            p.upstreams,
            routes[h],
            rule_idx,
            match_idx,
            endpoints,
        );
    assert(g.routes[k] == p.routes[k]);
}

/// Whether a configuration has a route for a match of a rule of a route.
pub open spec fn is_routed(
    g: config::GatewayView,
    route: HttpRoute,
    rule_idx: int,
    match_idx: int,
    endpoints: Map<Seq<char>, Vec<Endpoint>>,
) -> bool {
    exists|k: int|
        0 <= k < g.routes.len() && is_route_of(
            #[trigger] g.routes[k],
            g.services,
            g.upstreams,
            route,
            rule_idx,
            match_idx,
            endpoints,
        )
}

/// Whether a configuration is that of a Gateway: it listens as the Gateway
/// does, and routes every match of every HTTPRoute that attaches to it.
pub open spec fn serves_gateway(
    g: config::GatewayView,
    gateway: Gateway,
    routes: Seq<HttpRoute>,
    endpoints: Map<Seq<char>, Vec<Endpoint>>,
) -> bool {
    let ns = if gateway.metadata.namespace is Some {
        gateway.metadata.namespace->Some_0@
    } else {
        "default"@
    };
    &&& g.listeners.len() == gateway.spec.listeners@.len()
    &&& forall|i: int|
        0 <= i < g.listeners.len() ==> is_listener_of(
            #[trigger] g.listeners[i],
            gateway.spec.listeners@[i],
            ns,
        )
    &&& forall|h: int, i: int, m: int|
        0 <= h < routes.len() && is_child_of(routes[h], gateway) && 0 <= i
            < routes[h].spec.rules@.len() && is_place(routes[h].spec.rules@[i], m)
            ==> #[trigger] is_routed(g, routes[h], i, m, endpoints)
}

/// The configuration of a Gateway serves it.
pub proof fn law_translation_serves_the_gateway(
    gateway: Gateway,
    routes: Seq<HttpRoute>,
    endpoints: Map<Seq<char>, Vec<Endpoint>>,
)
    ensures
        serves_gateway(
            k8s_gateway::translation(gateway, routes, endpoints).gateway,
            gateway,
            routes,
            endpoints,
        ),
{
    let g = k8s_gateway::translation(gateway, routes, endpoints).gateway;
    law_every_listener_is_carried_over(gateway, routes, endpoints);
    assert forall|h: int, i: int, m: int|
        0 <= h < routes.len() && is_child_of(routes[h], gateway) && 0 <= i
            < routes[h].spec.rules@.len() && is_place(routes[h].spec.rules@[i], m) implies #[trigger] is_routed(
        g,
        routes[h],
        i,
        m,
        endpoints,
    ) by {
        law_every_match_is_routed(gateway, routes, endpoints, h, i, m);
    }
}

/// Whether an action, a rewrite and header edits are those that filters ask
/// for.
pub open spec fn does_as(
    action: Option<config::RouteActionView>,
    rewrite: Option<config::PathRewriteView>,
    transforms: Option<config::TransformsView>,
    fs: Seq<HttpRouteFilter>,
) -> bool {
    &&& forall|i: int| #[trigger]
        is_last_redirect(fs, i) ==> action is Some && redirects_as(action->Some_0, fs[i])
    &&& no_redirect(fs) <==> action is None
    &&& no_redirect(fs) ==> forall|i: int|
        0 <= i < fs.len() && rewrites_path(#[trigger] fs[i]) && (forall|j: int|
            i < j < fs.len() ==> !rewrites_path(#[trigger] fs[j])) ==> rewrite is Some
            && rewrites_as(rewrite->Some_0, fs[i])
    &&& no_redirect(fs) && (forall|j: int|
        0 <= j < fs.len() ==> !rewrites_path(#[trigger] fs[j])) ==> rewrite is None
    &&& transforms_as(transforms, fs)
}

/// A route attaches to a Gateway exactly if it is a child of it.
pub proof fn law_routes_attach_to_their_parents(route: HttpRoute, gateway: Gateway)
    ensures
        k8s_gateway::attaches(route, gateway.metadata.name@, gateway.metadata.namespace)
            <==> is_child_of(route, gateway),
{
    lemma_attaches(route, gateway);
}

// ---------------------------------------------------------------------------
// Listeners
// ---------------------------------------------------------------------------

/// Whether a certificate is that of a reference: the Secret by its namespace,
/// or the Gateway's, and its name, for the listener's host.
pub open spec fn is_certificate_of(
    c: config::TlsCertificateView,
    secret: SecretObjectReference,
    hostname: Option<String>,
    gateway_ns: Seq<char>,
) -> bool {
    &&& c.cert_file == "k8s-secret:"@ + (if secret.namespace is Some {
        secret.namespace->Some_0@
    } else {
        gateway_ns
    }) + "/"@ + secret.name@
    &&& c.key_file == c.cert_file
    &&& hostname is Some ==> c.server_names == seq![hostname->Some_0@]
    &&& hostname is None ==> c.server_names.len() == 0
}

/// Whether a listener is that of a Gateway listener.
pub open spec fn is_listener_of(
    v: config::ListenerView,
    l: GatewayListener,
    gateway_ns: Seq<char>,
) -> bool {
    &&& v.name == l.name@
    &&& v.address == "0.0.0.0"@
    &&& v.port == l.port
    &&& v.protocol == ListenerProtocol::Https <==> l.protocol@ == "HTTPS"@ || l.protocol@ == "TLS"@
    &&& v.tls is Some <==> l.tls is Some
    &&& l.tls is Some ==> ({
        let t = l.tls->Some_0;
        let w = v.tls->Some_0;
        &&& w.mode == TlsMode::Passthrough <==> t.mode@ == "Passthrough"@
        &&& w.mode == TlsMode::Terminate <==> t.mode@ != "Passthrough"@
        &&& w.certificates.len() == t.certificate_refs@.len()
        &&& forall|i: int|
            0 <= i < w.certificates.len() ==> is_certificate_of(
                #[trigger] w.certificates[i],
                t.certificate_refs@[i],
                l.hostname,
                gateway_ns,
            )
        &&& w.certificates.len() > 0 ==> w.cert_file == Some(w.certificates[0].cert_file)
            && w.key_file == Some(w.certificates[0].key_file)
        &&& w.certificates.len() == 0 ==> w.cert_file is None && w.key_file is None
    })
}

/// Every listener of a Gateway is listened on, and no other: with its name,
/// port and protocol, and its certificates.
pub proof fn law_every_listener_is_carried_over(
    gateway: Gateway,
    routes: Seq<HttpRoute>,
    endpoints: Map<Seq<char>, Vec<Endpoint>>,
)
    ensures
        ({
            let v = k8s_gateway::translation(gateway, routes, endpoints).gateway.listeners;
            let ls = gateway.spec.listeners@;
            let ns = if gateway.metadata.namespace is Some {
                gateway.metadata.namespace->Some_0@
            } else {
                "default"@
            };
            &&& v.len() == ls.len()
            &&& forall|i: int|
                0 <= i < v.len() ==> is_listener_of(#[trigger] v[i], ls[i], ns)
        }),
{
}

/// How many of the first `n` listeners ask for something unknown: a protocol
/// that there is not, or a TLS mode that is not carried over as it is.
pub open spec fn odd_listeners(ls: Seq<GatewayListener>, n: nat) -> nat
    decreases n,
{
    if n == 0 {
        0
    } else {
        let l = ls[n - 1];
        odd_listeners(ls, (n - 1) as nat) + (if l.protocol@ == "HTTP"@ || l.protocol@ == "HTTPS"@
            || l.protocol@ == "TLS"@ {
            0nat
        } else {
            1
        }) + (if l.tls is None || l.tls->Some_0.mode@ == "Terminate"@ || l.tls->Some_0.mode@
            == "Passthrough"@ {
            0nat
        } else {
            1
        })
    }
}

/// Nothing that a listener asks for is dropped silently.
pub proof fn law_no_listener_is_bent_silently(
    w: Seq<Seq<char>>,
    ls: Seq<GatewayListener>,
    n: nat,
)
    ensures
        w.is_prefix_of(k8s_gateway::warn_listeners(w, ls, n)),
        k8s_gateway::warn_listeners(w, ls, n).len() == w.len() + odd_listeners(ls, n),
    decreases n,
{
    if n > 0 {
        law_no_listener_is_bent_silently(w, ls, (n - 1) as nat);
        let a = k8s_gateway::warn_listeners(w, ls, (n - 1) as nat);
        let b = k8s_gateway::warn_listeners(w, ls, n);
        assert(a =~= b.subrange(0, a.len() as int));
        lemma_prefix_trans(w, a, b);
    } else {
        assert(w =~= w.subrange(0, w.len() as int));
    }
}

} // verus!
