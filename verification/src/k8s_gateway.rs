//! Kubernetes Gateway API translator.
//!
//! Maps Gateway API v1 resources (GatewayClass, Gateway, HTTPRoute) to the
//! gateway configuration:
//!
//! - a Gateway becomes one `Listener` per Gateway listener;
//! - an HTTPRoute becomes one `Route` per rule match, since a route carries a
//!   single match (a rule without matches gives one catch-all route);
//! - a backend reference becomes a `Service`, an `Upstream` and its
//!   endpoints;
//! - the filters of a rule become the route's action (`RequestRedirect`), its
//!   edits (`RequestHeaderModifier`, `ResponseHeaderModifier`) and its path
//!   rewrite (`URLRewrite`); what has no equivalent gives a warning.
//!
//! [`controller`] turns the whole set of watched resources into one
//! configuration with status conditions, and [`ingress`] translates Ingress
//! resources.

use vstd::prelude::*;

use crate::config;
use crate::config::{
    Endpoint, HeaderOps, Listener, ListenerProtocol, ListenerTls, LoadBalancer, NameValueMatch,
    PathMatch, PathMatchKind, PathRewrite, RequestTransforms, ResponseTransforms, Route,
    RouteAction, RouteMatch, Service, TlsCertificate, TlsMode, Transforms, Upstream,
    UpstreamProtocol,
};
use crate::text;
use crate::text::{cat3, cat4, cat5, clone_opt, decimal, same};
use crate::text_map::TextMap;

pub mod carried;
pub mod controller;
pub mod ingress;
pub mod ingress_carried;
pub mod laws;
pub mod reconciled;

verus! {

broadcast use crate::text::lemma_texts_push;

// ---------------------------------------------------------------------------
// Gateway API v1 resources
// ---------------------------------------------------------------------------

/// Kubernetes object metadata.
#[derive(Clone, Debug, PartialEq, Eq)]
pub struct ObjectMeta {
    pub name: String,
    pub namespace: Option<String>,
}

/// A GatewayClass resource.
#[derive(Clone, Debug, PartialEq, Eq)]
pub struct GatewayClass {
    pub api_version: String,
    pub kind: String,
    pub metadata: ObjectMeta,
    pub spec: GatewayClassSpec,
}

/// GatewayClass spec.
#[derive(Clone, Debug, PartialEq, Eq)]
pub struct GatewayClassSpec {
    /// The controller name (e.g. "shristilabs.com/dwara").
    pub controller: String,
}

/// A Gateway resource.
#[derive(Clone, Debug, PartialEq, Eq)]
pub struct Gateway {
    pub api_version: String,
    pub kind: String,
    pub metadata: ObjectMeta,
    pub spec: GatewaySpec,
}

/// Gateway spec.
#[derive(Clone, Debug, PartialEq, Eq)]
pub struct GatewaySpec {
    /// The GatewayClass name.
    pub gateway_class_name: String,
    /// The listeners on this Gateway.
    pub listeners: Vec<GatewayListener>,
}

/// A Gateway listener.
#[derive(Clone, Debug, PartialEq, Eq)]
pub struct GatewayListener {
    /// The listener name (unique within the Gateway).
    pub name: String,
    /// The port.
    pub port: u16,
    /// The protocol: "HTTP", "HTTPS", "TLS".
    pub protocol: String,
    /// The hostname (optional; none = wildcard).
    pub hostname: Option<String>,
    /// TLS configuration (for HTTPS/TLS).
    pub tls: Option<ListenerTlsConfig>,
}

/// Listener TLS configuration.
#[derive(Clone, Debug, PartialEq, Eq)]
pub struct ListenerTlsConfig {
    /// The TLS mode: "Terminate", "Passthrough", or "Reencrypt".
    pub mode: String,
    /// The certificate references.
    pub certificate_refs: Vec<SecretObjectReference>,
    /// Backend TLS credentials for Reencrypt mode (optional).
    pub frontend_validation: Option<FrontendValidation>,
}

/// Frontend TLS validation (for Reencrypt mode).
#[derive(Clone, Debug, PartialEq, Eq)]
pub struct FrontendValidation {
    /// CA certificate references for backend validation.
    pub ca_certificate_refs: Vec<SecretObjectReference>,
}

/// A reference to a Kubernetes Secret.
#[derive(Clone, Debug, PartialEq, Eq)]
pub struct SecretObjectReference {
    /// The kind.
    pub kind: String,
    /// The name.
    pub name: String,
    /// The namespace (defaults to the parent's namespace).
    pub namespace: Option<String>,
}

/// An HTTPRoute resource.
#[derive(Clone, Debug, PartialEq, Eq)]
pub struct HttpRoute {
    pub api_version: String,
    pub kind: String,
    pub metadata: ObjectMeta,
    pub spec: HttpRouteSpec,
}

/// HTTPRoute spec.
#[derive(Clone, Debug, PartialEq, Eq)]
pub struct HttpRouteSpec {
    /// The parent Gateways this route attaches to.
    pub parent_refs: Vec<ParentReference>,
    /// The hostnames.
    pub hostnames: Vec<String>,
    /// The routing rules.
    pub rules: Vec<HttpRouteRule>,
}

/// A parent reference (which Gateway this route attaches to).
#[derive(Clone, Debug, PartialEq, Eq)]
pub struct ParentReference {
    /// The kind.
    pub kind: String,
    /// The Gateway name.
    pub name: String,
    /// The namespace (defaults to the route's namespace).
    pub namespace: Option<String>,
    /// The listener name (optional section name).
    pub section_name: Option<String>,
}

/// An HTTPRoute rule.
#[derive(Clone, Debug, PartialEq, Eq)]
pub struct HttpRouteRule {
    /// The match conditions.
    pub matches: Vec<HttpRouteMatch>,
    /// The filters applied to this rule.
    pub filters: Vec<HttpRouteFilter>,
    /// The backend references.
    pub backend_refs: Vec<HttpBackendRef>,
}

/// An HTTPRoute match.
#[derive(Clone, Debug, PartialEq, Eq)]
pub struct HttpRouteMatch {
    /// The path match.
    pub path: Option<HttpPathMatch>,
    /// The headers to match.
    pub headers: Vec<HttpHeaderMatch>,
    /// The query parameters to match.
    pub query_params: Vec<HttpQueryParamMatch>,
}

/// An HTTP path match.
#[derive(Clone, Debug, PartialEq, Eq)]
pub struct HttpPathMatch {
    /// The match type: "Exact", "PathPrefix", or "RegularExpression".
    pub match_type: String,
    /// The path value.
    pub value: String,
}

/// An HTTP header match.
#[derive(Clone, Debug, PartialEq, Eq)]
pub struct HttpHeaderMatch {
    /// The match type: "Exact" or "RegularExpression".
    pub match_type: String,
    /// The header name.
    pub name: String,
    /// The header value.
    pub value: String,
}

/// An HTTP query parameter match.
#[derive(Clone, Debug, PartialEq, Eq)]
pub struct HttpQueryParamMatch {
    /// The match type: "Exact" or "RegularExpression".
    pub match_type: String,
    /// The query parameter name.
    pub name: String,
    /// The query parameter value.
    pub value: String,
}

/// An HTTPRoute filter (standard-channel subset).
#[derive(Clone, Debug, PartialEq, Eq)]
pub enum HttpRouteFilter {
    /// Redirect the request to a different URL.
    RequestRedirect {
        scheme: Option<String>,
        hostname: Option<String>,
        path: Option<String>,
        port: Option<u16>,
        status_code: u16,
    },
    /// Modify request headers before forwarding.
    RequestHeaderModifier {
        add: Vec<HttpHeaderFilter>,
        set: Vec<HttpHeaderFilter>,
        remove: Vec<String>,
    },
    /// Modify response headers before returning to the client.
    ResponseHeaderModifier {
        add: Vec<HttpHeaderFilter>,
        set: Vec<HttpHeaderFilter>,
        remove: Vec<String>,
    },
    /// Rewrite the request URL (path and/or hostname).
    UrlRewrite { hostname: Option<String>, path: Option<UrlRewritePath> },
    /// An extension filter (not natively supported; emits a warning).
    ExtensionRef { group: String, kind: String, name: Option<String> },
}

/// A header name/value pair for header modifier filters.
#[derive(Clone, Debug, PartialEq, Eq)]
pub struct HttpHeaderFilter {
    pub name: String,
    pub value: String,
}

/// The path rewrite type for URLRewrite filters.
#[derive(Clone, Debug, PartialEq, Eq)]
pub enum UrlRewritePath {
    /// Replace the full path.
    ReplaceFullPath { replace_full_path: String },
    /// Replace a prefix match.
    ReplacePrefixMatch { replace_prefix_match: String },
}

/// An HTTP backend reference.
#[derive(Clone, Debug, PartialEq, Eq)]
pub struct HttpBackendRef {
    /// The backend kind.
    pub kind: String,
    /// The backend name.
    pub name: String,
    /// The namespace (defaults to the route's namespace).
    pub namespace: Option<String>,
    /// The port (80 if there is none).
    pub port: Option<u16>,
    /// The weight (for weighted load balancing).
    pub weight: u32,
}

/// The outcome of a translation: a configuration, and a warning for each
/// thing that it could not carry over.
#[derive(Clone)]
pub struct TranslationResult {
    pub gateway: config::Gateway,
    pub warnings: Vec<String>,
}

/// The controller name for GatewayClass filtering.
pub const CONTROLLER_NAME: &'static str = "shristilabs.com/dwara";

// ---------------------------------------------------------------------------
// Listeners
// ---------------------------------------------------------------------------

/// A namespace, or `fallback` where none is given.
pub open spec fn namespace_or(o: Option<String>, fallback: Seq<char>) -> Seq<char> {
    match o {
        Some(ns) => ns@,
        None => fallback,
    }
}

/// The namespace of an object.
pub open spec fn namespace_of(o: Option<String>) -> Seq<char> {
    namespace_or(o, "default"@)
}

/// The file reference that stands for a Kubernetes Secret.
pub open spec fn secret_file(ns: Seq<char>, name: Seq<char>) -> Seq<char> {
    "k8s-secret:"@ + ns + "/"@ + name
}

/// The certificate of one reference, for the listener's hostname.
pub open spec fn certificate(
    r: SecretObjectReference,
    hostname: Option<String>,
    parent_ns: Seq<char>,
) -> config::TlsCertificateView {
    let file = secret_file(namespace_or(r.namespace, parent_ns), r.name@);
    config::TlsCertificateView {
        server_names: match hostname {
            Some(h) => seq![h@],
            None => seq![],
        },
        cert_file: file,
        key_file: file,
    }
}

/// The TLS block of a listener of a Gateway in namespace `parent_ns`.
pub open spec fn listener_tls(
    l: GatewayListener,
    parent_ns: Seq<char>,
) -> Option<config::ListenerTlsView> {
    match l.tls {
        Some(t) => {
            let certificates = Seq::new(
                t.certificate_refs@.len(),
                |i: int| certificate(t.certificate_refs@[i], l.hostname, parent_ns),
            );
            let file = if certificates.len() > 0 {
                Some(certificates[0].cert_file)
            } else {
                None
            };
            Some(
                config::ListenerTlsView {
                    mode: if t.mode@ == "Passthrough"@ {
                        TlsMode::Passthrough
                    } else {
                        TlsMode::Terminate
                    },
                    cert_file: file,
                    key_file: file,
                    certificates,
                },
            )
        },
        None => None,
    }
}

/// `w` with the warning on the listener's TLS mode, if it calls for one.
pub open spec fn warn_tls(w: Seq<Seq<char>>, l: GatewayListener) -> Seq<Seq<char>> {
    match l.tls {
        Some(t) => if t.mode@ == "Terminate"@ || t.mode@ == "Passthrough"@ {
            w
        } else if t.mode@ == "Reencrypt"@ {
            w.push(
                "listener "@ + l.name@
                    + " uses Reencrypt TLS; mapped to Terminate (backend TLS not yet wired)"@,
            )
        } else {
            w.push(
                "listener "@ + l.name@ + " has unknown TLS mode '"@ + t.mode@
                    + "', defaulting to Terminate"@,
            )
        },
        None => w,
    }
}

/// The listener of a Gateway listener.
pub open spec fn listener(l: GatewayListener, parent_ns: Seq<char>) -> config::ListenerView {
    config::ListenerView {
        name: l.name@,
        address: "0.0.0.0"@,
        port: l.port,
        protocol: if l.protocol@ == "HTTPS"@ || l.protocol@ == "TLS"@ {
            ListenerProtocol::Https
        } else {
            ListenerProtocol::Http
        },
        tls: listener_tls(l, parent_ns),
    }
}

/// `w` with the warning on the listener's protocol, if it calls for one.
pub open spec fn warn_protocol(w: Seq<Seq<char>>, l: GatewayListener) -> Seq<Seq<char>> {
    if l.protocol@ == "HTTP"@ || l.protocol@ == "HTTPS"@ || l.protocol@ == "TLS"@ {
        w
    } else {
        w.push(
            "listener "@ + l.name@ + " has unknown protocol '"@ + l.protocol@
                + "', defaulting to HTTP"@,
        )
    }
}

/// The first `n` listeners.
pub open spec fn listeners(
    ls: Seq<GatewayListener>,
    parent_ns: Seq<char>,
    n: nat,
) -> Seq<config::ListenerView> {
    Seq::new(n, |i: int| listener(ls[i], parent_ns))
}

/// `w` with the warnings on the first `n` listeners.
pub open spec fn warn_listeners(w: Seq<Seq<char>>, ls: Seq<GatewayListener>, n: nat) -> Seq<
    Seq<char>,
>
    decreases n,
{
    if n == 0 {
        w
    } else {
        let l = ls[n - 1];
        warn_protocol(warn_tls(warn_listeners(w, ls, (n - 1) as nat), l), l)
    }
}

pub(crate) fn namespace_str<'a>(o: &'a Option<String>, fallback: &'a str) -> (r: &'a str)
    ensures
        r@ == namespace_or(*o, fallback@),
{
    match o {
        Some(ns) => ns.as_str(),
        None => fallback,
    }
}

/// The TLS block of a Gateway listener; warns on a mode it has no
/// equivalent for.
pub fn translate_listener_tls(
    listener: &GatewayListener,
    parent_ns: &str,
    warnings: &mut Vec<String>,
) -> (r: Option<ListenerTls>)
    ensures
        config::opt_tls(r) == listener_tls(*listener, parent_ns@),
        text::texts(final(warnings)@) == warn_tls(text::texts(old(warnings)@), *listener),
{
    let tls = match &listener.tls {
        Some(tls) => tls,
        None => {
            return None;
        },
    };
    let mut mode = TlsMode::Terminate;
    if same(tls.mode.as_str(), "Terminate") {
    } else if same(tls.mode.as_str(), "Passthrough") {
        mode = TlsMode::Passthrough;
    } else if same(tls.mode.as_str(), "Reencrypt") {
        warnings.push(
            cat3(
                "listener ",
                listener.name.as_str(),
                " uses Reencrypt TLS; mapped to Terminate (backend TLS not yet wired)",
            ),
        );
    } else {
        warnings.push(
            cat5(
                "listener ",
                listener.name.as_str(),
                " has unknown TLS mode '",
                tls.mode.as_str(),
                "', defaulting to Terminate",
            ),
        );
    }
    proof {
        reveal_strlit("Terminate");
        reveal_strlit("Passthrough");
        reveal_strlit("Reencrypt");
        assert("Terminate"@.len() != "Passthrough"@.len());
        assert("Terminate"@[0] != "Reencrypt"@[0]);
        assert("Passthrough"@.len() != "Reencrypt"@.len());
    }
    let mut certificates: Vec<TlsCertificate> = Vec::new();
    let mut i: usize = 0;
    let ghost expected = Seq::new(
        tls.certificate_refs@.len(),
        |i: int| certificate(tls.certificate_refs@[i], listener.hostname, parent_ns@),
    );
    while i < tls.certificate_refs.len()
        invariant
            i <= tls.certificate_refs.len(),
            expected == Seq::new(
                tls.certificate_refs@.len(),
                |i: int| certificate(tls.certificate_refs@[i], listener.hostname, parent_ns@),
            ),
            certificates.len() == i,
            forall|j: int| 0 <= j < i ==> (#[trigger] certificates@[j])@ == expected[j],
        decreases tls.certificate_refs.len() - i,
    {
        let r = &tls.certificate_refs[i];
        let ns = namespace_str(&r.namespace, parent_ns);
        let server_names = match &listener.hostname {
            Some(h) => vec![h.clone()],
            None => Vec::new(),
        };
        let c = TlsCertificate {
            server_names,
            cert_file: cat4("k8s-secret:", ns, "/", r.name.as_str()),
            key_file: cat4("k8s-secret:", ns, "/", r.name.as_str()),
        };
        assert(c@ =~= expected[i as int]);
        certificates.push(c);
        i = i + 1;
    }
    let (cert_file, key_file) = if certificates.len() > 0 {
        (Some(certificates[0].cert_file.clone()), Some(certificates[0].key_file.clone()))
    } else {
        (None, None)
    };
    assert(certificates@.map_values(|c: TlsCertificate| c@) =~= expected);
    proof {
        if certificates.len() > 0 {
            assert(certificates@[0]@ == expected[0]);
        }
    }
    Some(ListenerTls { mode, cert_file, key_file, certificates })
}

fn translate_listeners(gateway: &Gateway, warnings: &mut Vec<String>) -> (r: Vec<Listener>)
    ensures
        config::listener_views(r@) == listeners(
            gateway.spec.listeners@,
            namespace_of(gateway.metadata.namespace),
            gateway.spec.listeners@.len(),
        ),
        text::texts(final(warnings)@) == warn_listeners(
            text::texts(old(warnings)@),
            gateway.spec.listeners@,
            gateway.spec.listeners@.len(),
        ),
{
    let ghost ls = gateway.spec.listeners@;
    let ghost ns = namespace_of(gateway.metadata.namespace);
    let parent_ns = namespace_str(&gateway.metadata.namespace, "default");
    let mut out: Vec<Listener> = Vec::new();
    let mut i: usize = 0;
    while i < gateway.spec.listeners.len()
        invariant
            i <= gateway.spec.listeners.len(),
            ls == gateway.spec.listeners@,
            ns == parent_ns@,
            out.len() == i,
            forall|j: int| 0 <= j < i ==> (#[trigger] out@[j])@ == listener(ls[j], ns),
            text::texts(warnings@) == warn_listeners(
                text::texts(old(warnings)@),
                ls,
                i as nat,
            ),
        decreases gateway.spec.listeners.len() - i,
    {
        let l = &gateway.spec.listeners[i];
        let tls = translate_listener_tls(l, parent_ns, warnings);
        let protocol = if same(l.protocol.as_str(), "HTTP") {
            ListenerProtocol::Http
        } else if same(l.protocol.as_str(), "HTTPS") || same(l.protocol.as_str(), "TLS") {
            ListenerProtocol::Https
        } else {
            warnings.push(
                cat5(
                    "listener ",
                    l.name.as_str(),
                    " has unknown protocol '",
                    l.protocol.as_str(),
                    "', defaulting to HTTP",
                ),
            );
            ListenerProtocol::Http
        };
        proof {
            reveal_strlit("HTTP");
            reveal_strlit("HTTPS");
            reveal_strlit("TLS");
            assert("HTTP"@.len() == 4 && "HTTPS"@.len() == 5 && "TLS"@.len() == 3);
        }
        let made = Listener {
            name: l.name.clone(),
            address: "0.0.0.0".to_owned(),
            port: l.port,
            protocol,
            tls,
        };
        assert(made@ == listener(ls[i as int], ns));
        out.push(made);
        i = i + 1;
    }
    assert(config::listener_views(out@) =~= listeners(ls, ns, ls.len()));
    out
}

// ---------------------------------------------------------------------------
// Matches
// ---------------------------------------------------------------------------

/// Whether a header or query match is by equality, the only kind a route
/// knows.
pub open spec fn is_exact(match_type: Seq<char>) -> bool {
    match_type == "Exact"@ || match_type.len() == 0
}

/// The path pattern of a match; everything below `/` where it names none.
pub open spec fn path_pattern(m: Option<HttpRouteMatch>) -> config::PathMatchView {
    match m {
        Some(m) => match m.path {
            Some(p) => config::PathMatchView {
                kind: if p.match_type@ == "Exact"@ {
                    PathMatchKind::Exact
                } else if p.match_type@ == "RegularExpression"@ {
                    PathMatchKind::Regex
                } else {
                    PathMatchKind::Prefix
                },
                value: p.value@,
            },
            None => config::PathMatchView { kind: PathMatchKind::Prefix, value: "/"@ },
        },
        None => config::PathMatchView { kind: PathMatchKind::Prefix, value: "/"@ },
    }
}

/// The header values that the first `n` matches ask for; of two matches on
/// one header the later stands.
pub open spec fn header_values(hs: Seq<HttpHeaderMatch>, n: nat) -> Map<Seq<char>, Seq<char>>
    decreases n,
{
    if n == 0 {
        Map::empty()
    } else {
        let before = header_values(hs, (n - 1) as nat);
        let h = hs[n - 1];
        if is_exact(h.match_type@) {
            before.insert(h.name@, h.value@)
        } else {
            before
        }
    }
}

/// `w` with the warnings on the first `n` header matches.
pub open spec fn warn_headers(w: Seq<Seq<char>>, hs: Seq<HttpHeaderMatch>, n: nat) -> Seq<Seq<char>>
    decreases n,
{
    if n == 0 {
        w
    } else {
        let before = warn_headers(w, hs, (n - 1) as nat);
        let h = hs[n - 1];
        if is_exact(h.match_type@) {
            before
        } else if h.match_type@ == "RegularExpression"@ {
            before.push(
                "RegularExpression header match on '"@ + h.name@
                    + "' is not natively supported; header match dropped"@,
            )
        } else {
            before.push(
                "unknown header match type '"@ + h.match_type@ + "' on '"@ + h.name@
                    + "'; header match dropped"@,
            )
        }
    }
}

/// The query parameters that the first `n` matches ask for.
pub open spec fn query_values(qs: Seq<HttpQueryParamMatch>, n: nat) -> Seq<
    config::NameValueMatchView,
>
    decreases n,
{
    if n == 0 {
        seq![]
    } else {
        let before = query_values(qs, (n - 1) as nat);
        let q = qs[n - 1];
        if is_exact(q.match_type@) {
            before.push(config::NameValueMatchView { name: q.name@, value: Some(q.value@) })
        } else {
            before
        }
    }
}

/// `w` with the warnings on the first `n` query matches.
pub open spec fn warn_query(w: Seq<Seq<char>>, qs: Seq<HttpQueryParamMatch>, n: nat) -> Seq<
    Seq<char>,
>
    decreases n,
{
    if n == 0 {
        w
    } else {
        let before = warn_query(w, qs, (n - 1) as nat);
        let q = qs[n - 1];
        if is_exact(q.match_type@) {
            before
        } else if q.match_type@ == "RegularExpression"@ {
            before.push(
                "RegularExpression query param match on '"@ + q.name@
                    + "' is not natively supported; query match dropped"@,
            )
        } else {
            before.push(
                "unknown query param match type '"@ + q.match_type@ + "' on '"@ + q.name@
                    + "'; query match dropped"@,
            )
        }
    }
}

/// The route match of an HTTPRoute match under a host.
pub open spec fn route_match(
    m: Option<HttpRouteMatch>,
    host: Option<Seq<char>>,
) -> config::RouteMatchView {
    config::RouteMatchView {
        path: path_pattern(m),
        host,
        headers: match m {
            Some(m) => header_values(m.headers@, m.headers@.len()),
            None => Map::empty(),
        },
        query: match m {
            Some(m) => query_values(m.query_params@, m.query_params@.len()),
            None => seq![],
        },
    }
}

/// `w` with the warnings on a match.
pub open spec fn warn_match(w: Seq<Seq<char>>, m: Option<HttpRouteMatch>) -> Seq<Seq<char>> {
    match m {
        Some(m) => warn_query(
            warn_headers(w, m.headers@, m.headers@.len()),
            m.query_params@,
            m.query_params@.len(),
        ),
        None => w,
    }
}

/// The view of an optional borrowed match.
pub open spec fn opt_match(m: Option<&HttpRouteMatch>) -> Option<HttpRouteMatch> {
    match m {
        Some(m) => Some(*m),
        None => None,
    }
}

fn exact(match_type: &String) -> (r: bool)
    ensures
        r == is_exact(match_type@),
{
    same(match_type.as_str(), "Exact") || match_type.as_str().is_empty()
}

fn translate_headers(hs: &Vec<HttpHeaderMatch>, warnings: &mut Vec<String>) -> (r: TextMap<String>)
    ensures
        config::text_values(r@) == header_values(hs@, hs@.len()),
        text::texts(final(warnings)@) == warn_headers(
            text::texts(old(warnings)@),
            hs@,
            hs@.len(),
        ),
{
    let mut map: TextMap<String> = TextMap::new();
    assert(config::text_values(map@) =~= Map::empty());
    let mut i: usize = 0;
    while i < hs.len()
        invariant
            i <= hs.len(),
            config::text_values(map@) == header_values(hs@, i as nat),
            text::texts(warnings@) == warn_headers(text::texts(old(warnings)@), hs@, i as nat),
        decreases hs.len() - i,
    {
        let h = &hs[i];
        if exact(&h.match_type) {
            proof {
                config::lemma_text_values_insert(map@, h.name@, h.value);
            }
            map.insert(h.name.clone(), h.value.clone());
        } else if same(h.match_type.as_str(), "RegularExpression") {
            warnings.push(
                cat3(
                    "RegularExpression header match on '",
                    h.name.as_str(),
                    "' is not natively supported; header match dropped",
                ),
            );
        } else {
            warnings.push(
                cat5(
                    "unknown header match type '",
                    h.match_type.as_str(),
                    "' on '",
                    h.name.as_str(),
                    "'; header match dropped",
                ),
            );
        }
        i = i + 1;
    }
    map
}

fn translate_query(
    qs: &Vec<HttpQueryParamMatch>,
    warnings: &mut Vec<String>,
) -> (r: Vec<NameValueMatch>)
    ensures
        config::query_views(r@) == query_values(qs@, qs@.len()),
        text::texts(final(warnings)@) == warn_query(text::texts(old(warnings)@), qs@, qs@.len()),
{
    let mut out: Vec<NameValueMatch> = Vec::new();
    assert(config::query_views(out@) =~= seq![]);
    let mut i: usize = 0;
    while i < qs.len()
        invariant
            i <= qs.len(),
            config::query_views(out@) == query_values(qs@, i as nat),
            text::texts(warnings@) == warn_query(text::texts(old(warnings)@), qs@, i as nat),
        decreases qs.len() - i,
    {
        let q = &qs[i];
        if exact(&q.match_type) {
            let made = NameValueMatch { name: q.name.clone(), value: Some(q.value.clone()) };
            assert(config::query_views(out@.push(made)) =~= config::query_views(out@).push(made@));
            out.push(made);
        } else if same(q.match_type.as_str(), "RegularExpression") {
            warnings.push(
                cat3(
                    "RegularExpression query param match on '",
                    q.name.as_str(),
                    "' is not natively supported; query match dropped",
                ),
            );
        } else {
            warnings.push(
                cat5(
                    "unknown query param match type '",
                    q.match_type.as_str(),
                    "' on '",
                    q.name.as_str(),
                    "'; query match dropped",
                ),
            );
        }
        i = i + 1;
    }
    out
}

/// The route match of an HTTPRoute match under a host; warns on each
/// condition it has no equivalent for.
pub fn translate_match(
    m: Option<&HttpRouteMatch>,
    host: Option<&String>,
    warnings: &mut Vec<String>,
) -> (r: RouteMatch)
    ensures
        r@ == route_match(
            opt_match(m),
            match host {
                Some(h) => Some(h@),
                None => None,
            },
        ),
        text::texts(final(warnings)@) == warn_match(text::texts(old(warnings)@), opt_match(m)),
{
    let host = match host {
        Some(h) => Some(h.clone()),
        None => None,
    };
    match m {
        None => {
            let r = RouteMatch {
                path: PathMatch { kind: PathMatchKind::Prefix, value: "/".to_owned() },
                host,
                headers: TextMap::new(),
                query: Vec::new(),
            };
            assert(config::text_values(r.headers@) =~= Map::empty());
            assert(config::query_views(r.query@) =~= seq![]);
            r
        },
        Some(m) => {
            let path = match &m.path {
                Some(p) => {
                    let kind = if same(p.match_type.as_str(), "Exact") {
                        PathMatchKind::Exact
                    } else if same(p.match_type.as_str(), "RegularExpression") {
                        PathMatchKind::Regex
                    } else {
                        PathMatchKind::Prefix
                    };
                    PathMatch { kind, value: p.value.clone() }
                },
                None => PathMatch { kind: PathMatchKind::Prefix, value: "/".to_owned() },
            };
            let headers = translate_headers(&m.headers, warnings);
            let query = translate_query(&m.query_params, warnings);
            RouteMatch { path, host, headers, query }
        },
    }
}

// ---------------------------------------------------------------------------
// Filters
// ---------------------------------------------------------------------------

/// What the filters of a rule amount to.
#[verifier::ext_equal]
pub struct FilterEffect {
    pub action: Option<config::RouteActionView>,
    pub rewrite: Option<config::PathRewriteView>,
    pub request: Option<config::HeaderOpsView>,
    pub response: Option<config::HeaderOpsView>,
}

/// The effect of no filter.
pub open spec fn no_effect() -> FilterEffect {
    FilterEffect { action: None, rewrite: None, request: None, response: None }
}

/// `m` with the first `n` header values put in, in order.
pub open spec fn put_headers(
    m: Map<Seq<char>, Seq<char>>,
    hs: Seq<HttpHeaderFilter>,
    n: nat,
) -> Map<Seq<char>, Seq<char>>
    decreases n,
{
    if n == 0 {
        m
    } else {
        put_headers(m, hs, (n - 1) as nat).insert(hs[n - 1].name@, hs[n - 1].value@)
    }
}

/// Header edits with those of one more modifier.
pub open spec fn modify_headers(
    ops: Option<config::HeaderOpsView>,
    add: Seq<HttpHeaderFilter>,
    set: Seq<HttpHeaderFilter>,
    remove: Seq<String>,
) -> config::HeaderOpsView {
    let before = match ops {
        Some(o) => o,
        None => config::HeaderOpsView { set: Map::empty(), add: Map::empty(), remove: seq![] },
    };
    config::HeaderOpsView {
        set: put_headers(before.set, set, set.len()),
        add: put_headers(before.add, add, add.len()),
        remove: before.remove + text::texts(remove),
    }
}

/// The replacement path of a URL rewrite.
pub open spec fn rewrite_of(p: UrlRewritePath) -> config::PathRewriteView {
    config::PathRewriteView::ReplacePrefix {
        prefix: "/"@,
        replacement: match p {
            UrlRewritePath::ReplaceFullPath { replace_full_path } => replace_full_path@,
            UrlRewritePath::ReplacePrefixMatch { replace_prefix_match } => replace_prefix_match@,
        },
    }
}

/// The effect of one more filter. A redirect takes precedence over a URL
/// rewrite that comes after it.
pub open spec fn filter_effect(e: FilterEffect, f: HttpRouteFilter) -> FilterEffect {
    match f {
        HttpRouteFilter::RequestRedirect { scheme, hostname, path, port, status_code } => {
            FilterEffect {
                action: Some(
                    config::RouteActionView::Redirect {
                        scheme: text::opt_text(scheme),
                        host: text::opt_text(hostname),
                        path: text::opt_text(path),
                        status: status_code,
                    },
                ),
                ..e
            }
        },
        HttpRouteFilter::RequestHeaderModifier { add, set, remove } => FilterEffect {
            request: Some(modify_headers(e.request, add@, set@, remove@)),
            ..e
        },
        HttpRouteFilter::ResponseHeaderModifier { add, set, remove } => FilterEffect {
            response: Some(modify_headers(e.response, add@, set@, remove@)),
            ..e
        },
        HttpRouteFilter::UrlRewrite { hostname, path } => match path {
            Some(p) => if e.action is None {
                FilterEffect { rewrite: Some(rewrite_of(p)), ..e }
            } else {
                e
            },
            None => e,
        },
        HttpRouteFilter::ExtensionRef { group, kind, name } => e,
    }
}

/// `w` with the warning on one more filter, if it calls for one.
pub open spec fn warn_filter(w: Seq<Seq<char>>, e: FilterEffect, f: HttpRouteFilter) -> Seq<
    Seq<char>,
> {
    match f {
        HttpRouteFilter::RequestRedirect { scheme, hostname, path, port, status_code } => match port {
            Some(p) => w.push(
                "RequestRedirect port "@ + text::dec(p as nat)
                    + " is not natively supported; port dropped"@,
            ),
            None => w,
        },
        HttpRouteFilter::UrlRewrite { hostname, path } => if e.action is None && hostname is Some {
            w.push(
                "URLRewrite hostname filter is not natively supported on the upstream path; hostname rewrite dropped"@,
            )
        } else {
            w
        },
        HttpRouteFilter::ExtensionRef { group, kind, name } => w.push(
            "extension filter "@ + group@ + "/"@ + kind@ + " is not supported; filter dropped"@,
        ),
        _ => w,
    }
}

/// The effect of the first `n` filters.
pub open spec fn filters_effect(fs: Seq<HttpRouteFilter>, n: nat) -> FilterEffect
    decreases n,
{
    if n == 0 {
        no_effect()
    } else {
        filter_effect(filters_effect(fs, (n - 1) as nat), fs[n - 1])
    }
}

/// `w` with the warnings on the first `n` filters.
pub open spec fn warn_filters(w: Seq<Seq<char>>, fs: Seq<HttpRouteFilter>, n: nat) -> Seq<Seq<char>>
    decreases n,
{
    if n == 0 {
        w
    } else {
        warn_filter(
            warn_filters(w, fs, (n - 1) as nat),
            filters_effect(fs, (n - 1) as nat),
            fs[n - 1],
        )
    }
}

/// The edits that a filter effect calls for.
pub open spec fn effect_transforms(e: FilterEffect) -> Option<config::TransformsView> {
    if e.request is Some || e.response is Some {
        Some(
            config::TransformsView {
                request: match e.request {
                    Some(h) => Some(Some(h)),
                    None => None,
                },
                response: match e.response {
                    Some(h) => Some(Some(h)),
                    None => None,
                },
            },
        )
    } else {
        None
    }
}

fn put_all(map: &mut TextMap<String>, hs: &Vec<HttpHeaderFilter>)
    ensures
        config::text_values(final(map)@) == put_headers(
            config::text_values(old(map)@),
            hs@,
            hs@.len(),
        ),
{
    let mut i: usize = 0;
    while i < hs.len()
        invariant
            i <= hs.len(),
            config::text_values(map@) == put_headers(
                config::text_values(old(map)@),
                hs@,
                i as nat,
            ),
        decreases hs.len() - i,
    {
        proof {
            config::lemma_text_values_insert(map@, hs@[i as int].name@, hs@[i as int].value);
        }
        map.insert(hs[i].name.clone(), hs[i].value.clone());
        i = i + 1;
    }
}

fn modified(
    ops: Option<HeaderOps>,
    add: &Vec<HttpHeaderFilter>,
    set: &Vec<HttpHeaderFilter>,
    remove: &Vec<String>,
) -> (r: HeaderOps)
    ensures
        r@ == modify_headers(config::opt_ops(ops), add@, set@, remove@),
{
    let ghost before = config::opt_ops(ops);
    let mut ops = match ops {
        Some(o) => o,
        None => {
            let o = HeaderOps { set: TextMap::new(), add: TextMap::new(), remove: Vec::new() };
            assert(o@ =~= config::HeaderOpsView {
                set: Map::empty(),
                add: Map::empty(),
                remove: seq![],
            });
            o
        },
    };
    put_all(&mut ops.set, set);
    put_all(&mut ops.add, add);
    let ghost start = text::texts(ops.remove@);
    let mut i: usize = 0;
    assert(start + text::texts(remove@.take(0)) =~= start);
    while i < remove.len()
        invariant
            i <= remove.len(),
            text::texts(ops.remove@) == start + text::texts(remove@.take(i as int)),
            config::text_values(ops.set@) == modify_headers(before, add@, set@, remove@).set,
            config::text_values(ops.add@) == modify_headers(before, add@, set@, remove@).add,
        decreases remove.len() - i,
    {
        ops.remove.push(remove[i].clone());
        i = i + 1;
        assert(remove@.take(i as int) =~= remove@.take(i - 1).push(remove@[i - 1]));
        assert(text::texts(ops.remove@) =~= start + text::texts(remove@.take(i as int)));
    }
    assert(remove@.take(remove.len() as int) =~= remove@);
    ops
}

/// The filters of a rule, as an action (a redirect), a path rewrite and the
/// header edits; warns on each filter it has no equivalent for.
pub fn translate_filters(filters: &Vec<HttpRouteFilter>, warnings: &mut Vec<String>) -> (r: (
    Option<RouteAction>,
    Option<PathRewrite>,
    Option<Transforms>,
))
    ensures
        config::opt_action(r.0) == filters_effect(filters@, filters@.len()).action,
        config::opt_rewrite(r.1) == filters_effect(filters@, filters@.len()).rewrite,
        config::opt_transforms(r.2) == effect_transforms(filters_effect(filters@, filters@.len())),
        carried::does_as(
            config::opt_action(r.0),
            config::opt_rewrite(r.1),
            config::opt_transforms(r.2),
            filters@,
        ),
        text::texts(final(warnings)@) == warn_filters(
            text::texts(old(warnings)@),
            filters@,
            filters@.len(),
        ),
{
    let mut action: Option<RouteAction> = None;
    let mut rewrite: Option<PathRewrite> = None;
    let mut request: Option<HeaderOps> = None;
    let mut response: Option<HeaderOps> = None;
    let mut i: usize = 0;
    while i < filters.len()
        invariant
            i <= filters.len(),
            config::opt_action(action) == filters_effect(filters@, i as nat).action,
            config::opt_rewrite(rewrite) == filters_effect(filters@, i as nat).rewrite,
            config::opt_ops(request) == filters_effect(filters@, i as nat).request,
            config::opt_ops(response) == filters_effect(filters@, i as nat).response,
            text::texts(warnings@) == warn_filters(
                text::texts(old(warnings)@),
                filters@,
                i as nat,
            ),
        decreases filters.len() - i,
    {
        match &filters[i] {
            HttpRouteFilter::RequestRedirect { scheme, hostname, path, port, status_code } => {
                if let Some(p) = port {
                    let number = decimal(*p as u64);
                    warnings.push(
                        cat3(
                            "RequestRedirect port ",
                            number.as_str(),
                            " is not natively supported; port dropped",
                        ),
                    );
                }
                action = Some(
                    RouteAction::Redirect {
                        scheme: clone_opt(scheme),
                        host: clone_opt(hostname),
                        path: clone_opt(path),
                        status: *status_code,
                    },
                );
            },
            HttpRouteFilter::RequestHeaderModifier { add, set, remove } => {
                request = Some(modified(request.take(), add, set, remove));
            },
            HttpRouteFilter::ResponseHeaderModifier { add, set, remove } => {
                response = Some(modified(response.take(), add, set, remove));
            },
            HttpRouteFilter::UrlRewrite { hostname, path } => {
                if action.is_none() {
                    if let Some(p) = path {
                        let replacement = match p {
                            UrlRewritePath::ReplaceFullPath { replace_full_path } => {
                                replace_full_path.clone()
                            },
                            UrlRewritePath::ReplacePrefixMatch { replace_prefix_match } => {
                                replace_prefix_match.clone()
                            },
                        };
                        rewrite = Some(
                            PathRewrite::ReplacePrefix { prefix: "/".to_owned(), replacement },
                        );
                    }
                    if hostname.is_some() {
                        warnings.push(
                            "URLRewrite hostname filter is not natively supported on the upstream path; hostname rewrite dropped".to_owned(),
                        );
                    }
                }
            },
            HttpRouteFilter::ExtensionRef { group, kind, name: _ } => {
                warnings.push(
                    cat5(
                        "extension filter ",
                        group.as_str(),
                        "/",
                        kind.as_str(),
                        " is not supported; filter dropped",
                    ),
                );
            },
        }
        i = i + 1;
    }
    let transforms = if request.is_some() || response.is_some() {
        Some(
            Transforms {
                request: match request {
                    Some(h) => Some(RequestTransforms { headers: Some(h) }),
                    None => None,
                },
                response: match response {
                    Some(h) => Some(ResponseTransforms { headers: Some(h) }),
                    None => None,
                },
            },
        )
    } else {
        None
    };
    proof {
        carried::law_filters_redirect_or_rewrite(filters@);
        carried::law_filters_edit_headers(filters@);
    }
    (action, rewrite, transforms)
}

// ---------------------------------------------------------------------------
// Backends
// ---------------------------------------------------------------------------

/// The key under which the endpoints of a Service port are found.
pub open spec fn key_of(ns: Seq<char>, service: Seq<char>, port: u16) -> Seq<char> {
    ns + "/"@ + service + ":"@ + text::dec(port as nat)
}

/// Build the endpoint key for a K8s Service + port.
pub fn endpoint_key(namespace: &str, service: &str, port: u16) -> (r: String)
    ensures
        r@ == key_of(namespace@, service@, port),
{
    let p = decimal(port as u64);
    cat5(namespace, "/", service, ":", p.as_str())
}

/// The routes, services and upstreams translated so far, with the warnings.
#[verifier::ext_equal]
pub struct PlanView {
    pub routes: Seq<config::RouteView>,
    pub services: Seq<config::ServiceView>,
    pub upstreams: Seq<config::UpstreamView>,
    pub warnings: Seq<Seq<char>>,
}

/// What a translation has gathered so far.
pub struct Plan {
    pub routes: Vec<Route>,
    pub services: Vec<Service>,
    pub upstreams: Vec<Upstream>,
    pub warnings: Vec<String>,
}

impl View for Plan {
    type V = PlanView;

    open spec fn view(&self) -> PlanView {
        PlanView {
            routes: config::route_views(self.routes@),
            services: config::service_views(self.services@),
            upstreams: config::upstream_views(self.upstreams@),
            warnings: text::texts(self.warnings@),
        }
    }
}

impl PlanView {
    /// This plan with one more warning.
    pub open spec fn warned(self, w: Seq<char>) -> PlanView {
        PlanView { warnings: self.warnings.push(w), ..self }
    }

    /// This plan with one more route.
    pub open spec fn routed(self, r: config::RouteView) -> PlanView {
        PlanView { routes: self.routes.push(r), ..self }
    }
}

/// The name of the service that a route gets for a backend.
pub open spec fn service_name(route: Seq<char>, backend: Seq<char>, port: u16) -> Seq<char> {
    route + "-svc-"@ + backend + "-"@ + text::dec(port as nat)
}

/// The name of the upstream that a route gets for a backend.
pub open spec fn upstream_name(route: Seq<char>, backend: Seq<char>, port: u16) -> Seq<char> {
    route + "-"@ + backend + "-"@ + text::dec(port as nat)
}

/// The endpoints under a key; none where the key is unknown.
pub open spec fn endpoints_of(endpoints: Map<Seq<char>, Vec<Endpoint>>, key: Seq<char>) -> Seq<
    config::EndpointView,
> {
    if endpoints.dom().contains(key) {
        config::endpoint_views(endpoints[key]@)
    } else {
        seq![]
    }
}

/// `p` with the service and the upstream of a route's backend, and a warning
/// where the backend has no endpoints on record.
pub open spec fn plan_backend(
    p: PlanView,
    route: Seq<char>,
    ns: Seq<char>,
    backend: Seq<char>,
    port: u16,
    endpoints: Map<Seq<char>, Vec<Endpoint>>,
) -> PlanView {
    let key = key_of(ns, backend, port);
    PlanView {
        warnings: if endpoints.dom().contains(key) {
            p.warnings
        } else {
            p.warnings.push("no endpoints found for backend "@ + key + " (route "@ + route + ")"@)
        },
        upstreams: p.upstreams.push(
            config::UpstreamView {
                name: upstream_name(route, backend, port),
                load_balancer: LoadBalancer::RoundRobin,
                protocol: UpstreamProtocol::Http1,
                endpoints: endpoints_of(endpoints, key),
            },
        ),
        services: p.services.push(
            config::ServiceView {
                name: service_name(route, backend, port),
                upstream: Some(upstream_name(route, backend, port)),
            },
        ),
        ..p
    }
}

impl Plan {
    /// A plan with nothing in it but the warnings given.
    pub fn new(warnings: Vec<String>) -> (p: Plan)
        ensures
            p@ == (PlanView {
                routes: seq![],
                services: seq![],
                upstreams: seq![],
                warnings: text::texts(warnings@),
            }),
    {
        let p = Plan {
            routes: Vec::new(),
            services: Vec::new(),
            upstreams: Vec::new(),
            warnings,
        };
        assert(p@.routes =~= seq![]);
        assert(p@.services =~= seq![]);
        assert(p@.upstreams =~= seq![]);
        p
    }

    /// Adds a warning.
    pub fn warn(&mut self, w: String)
        ensures
            final(self)@ == old(self)@.warned(w@),
    {
        self.warnings.push(w);
    }

    /// Adds a route.
    pub fn add_route(&mut self, r: Route)
        ensures
            final(self)@ == old(self)@.routed(r@),
    {
        let ghost before = self.routes@;
        self.routes.push(r);
        assert(config::route_views(before.push(r)) =~= config::route_views(before).push(r@));
    }

    /// Adds the service and the upstream of a route's backend, and gives the
    /// service's name.
    pub fn add_backend(
        &mut self,
        route: &str,
        ns: &str,
        backend: &str,
        port: u16,
        endpoints: &TextMap<Vec<Endpoint>>,
    ) -> (name: String)
        ensures
            final(self)@ == plan_backend(
                old(self)@,
                route@,
                ns@,
                backend@,
                port,
                endpoints@,
            ),
            name@ == service_name(route@, backend@, port),
    {
        let key = endpoint_key(ns, backend, port);
        let eps = match endpoints.get(key.as_str()) {
            Some(found) => config::clone_endpoints(found),
            None => {
                self.warnings.push(
                    cat5(
                        "no endpoints found for backend ",
                        key.as_str(),
                        " (route ",
                        route,
                        ")",
                    ),
                );
                Vec::new()
            },
        };
        assert(config::endpoint_views(eps@) =~= endpoints_of(endpoints@, key@));
        let p = decimal(port as u64);
        let upstream = cat5(route, "-", backend, "-", p.as_str());
        let service = cat5(route, "-svc-", backend, "-", p.as_str());
        let ghost before_u = self.upstreams@;
        let ghost before_s = self.services@;
        let made_u = Upstream {
            name: upstream.clone(),
            load_balancer: LoadBalancer::RoundRobin,
            protocol: UpstreamProtocol::Http1,
            endpoints: eps,
        };
        let made_s = Service { name: service.clone(), upstream: Some(upstream) };
        assert(config::upstream_views(before_u.push(made_u)) =~= config::upstream_views(
            before_u,
        ).push(made_u@));
        assert(config::service_views(before_s.push(made_s)) =~= config::service_views(
            before_s,
        ).push(made_s@));
        self.upstreams.push(made_u);
        self.services.push(made_s);
        service
    }
}

// ---------------------------------------------------------------------------
// Routes
// ---------------------------------------------------------------------------

/// Whether a parent reference of `route` names the Gateway.
pub open spec fn names_gateway(
    p: ParentReference,
    route: HttpRoute,
    name: Seq<char>,
    ns: Option<String>,
) -> bool {
    &&& p.name@ == name
    &&& p.kind@ == "Gateway"@
    &&& namespace_or(p.namespace, namespace_of(route.metadata.namespace)) == namespace_of(ns)
}

/// Whether an HTTPRoute attaches to a Gateway: one without parent references
/// attaches to every Gateway.
pub open spec fn attaches(route: HttpRoute, name: Seq<char>, ns: Option<String>) -> bool {
    ||| route.spec.parent_refs@.len() == 0
    ||| exists|i: int|
        0 <= i < route.spec.parent_refs@.len() && names_gateway(
            #[trigger] route.spec.parent_refs@[i],
            route,
            name,
            ns,
        )
}

/// Check if an HTTPRoute attaches to a Gateway.
pub fn route_attaches_to(
    route: &HttpRoute,
    gateway_name: &str,
    gateway_namespace: &Option<String>,
) -> (r: bool)
    ensures
        r == attaches(*route, gateway_name@, *gateway_namespace),
{
    let refs = &route.spec.parent_refs;
    if refs.len() == 0 {
        return true;
    }
    let gw_ns = namespace_str(gateway_namespace, "default");
    let route_ns = namespace_str(&route.metadata.namespace, "default");
    let mut i: usize = 0;
    while i < refs.len()
        invariant
            i <= refs.len(),
            refs@ == route.spec.parent_refs@,
            gw_ns@ == namespace_of(*gateway_namespace),
            route_ns@ == namespace_of(route.metadata.namespace),
            forall|j: int|
                0 <= j < i ==> !names_gateway(
                    #[trigger] refs@[j],
                    *route,
                    gateway_name@,
                    *gateway_namespace,
                ),
        decreases refs.len() - i,
    {
        let p = &refs[i];
        if same(p.name.as_str(), gateway_name) && same(p.kind.as_str(), "Gateway") && same(
            namespace_str(&p.namespace, route_ns),
            gw_ns,
        ) {
            assert(names_gateway(
                route.spec.parent_refs@[i as int],
                *route,
                gateway_name@,
                *gateway_namespace,
            ));
            return true;
        }
        i = i + 1;
    }
    false
}

/// How many routes a rule gives: one per match, and at least one.
pub open spec fn match_count(rule: HttpRouteRule) -> nat {
    if rule.matches@.len() == 0 {
        1
    } else {
        rule.matches@.len()
    }
}

/// The name of the route of one match of one rule.
pub open spec fn http_route_name(route: HttpRoute, rule_idx: nat, match_idx: nat) -> Seq<char> {
    let base = route.metadata.name@ + "-rule-"@ + text::dec(rule_idx);
    if match_count(route.spec.rules@[rule_idx as int]) == 1 {
        base
    } else {
        base + "-match-"@ + text::dec(match_idx)
    }
}

/// The match at `match_idx` of a rule, if there is one.
pub open spec fn match_at(rule: HttpRouteRule, match_idx: nat) -> Option<HttpRouteMatch> {
    if match_idx < rule.matches@.len() {
        Some(rule.matches@[match_idx as int])
    } else {
        None
    }
}

/// The host a route's rules match: its first hostname.
pub open spec fn route_host(route: HttpRoute) -> Option<Seq<char>> {
    if route.spec.hostnames@.len() > 0 {
        Some(route.spec.hostnames@[0]@)
    } else {
        None
    }
}

/// The namespace of a backend of `route`.
pub open spec fn backend_namespace(b: HttpBackendRef, route: HttpRoute) -> Seq<char> {
    namespace_or(b.namespace, namespace_of(route.metadata.namespace))
}

/// The port of a backend.
pub open spec fn backend_port(b: HttpBackendRef) -> u16 {
    match b.port {
        Some(p) => p,
        None => 80,
    }
}

/// `p` with the route of one match of one rule, and what it needs. A
/// redirect stands alone; otherwise the rule's first backend is the route's
/// service, and a rule without backends answers 503.
pub open spec fn plan_match(
    p: PlanView,
    route: HttpRoute,
    rule_idx: nat,
    match_idx: nat,
    endpoints: Map<Seq<char>, Vec<Endpoint>>,
) -> PlanView {
    let rule = route.spec.rules@[rule_idx as int];
    let name = http_route_name(route, rule_idx, match_idx);
    let m = match_at(rule, match_idx);
    let e = filters_effect(rule.filters@, rule.filters@.len());
    let q = PlanView {
        warnings: warn_filters(warn_match(p.warnings, m), rule.filters@, rule.filters@.len()),
        ..p
    };
    let (done, service, action) = match e.action {
        Some(a) => (q, "none"@, a),
        None => if rule.backend_refs@.len() > 0 {
            let b = rule.backend_refs@[0];
            (
                plan_backend(
                    q,
                    name,
                    backend_namespace(b, route),
                    b.name@,
                    backend_port(b),
                    endpoints,
                ),
                service_name(name, b.name@, backend_port(b)),
                config::RouteActionView::Proxy { rewrite: e.rewrite },
            )
        } else {
            (
                q.warned("route "@ + name + " has no backends"@),
                "none"@,
                config::RouteActionView::Respond { status: 503, body: None },
            )
        },
    };
    done.routed(
        config::RouteView {
            name,
            service,
            match_: route_match(m, route_host(route)),
            action,
            transforms: effect_transforms(e),
        },
    )
}

/// `p` with the first `n` matches of a rule.
pub open spec fn plan_rule(
    p: PlanView,
    route: HttpRoute,
    rule_idx: nat,
    n: nat,
    endpoints: Map<Seq<char>, Vec<Endpoint>>,
) -> PlanView
    decreases n,
{
    if n == 0 {
        p
    } else {
        plan_match(
            plan_rule(p, route, rule_idx, (n - 1) as nat, endpoints),
            route,
            rule_idx,
            (n - 1) as nat,
            endpoints,
        )
    }
}

/// `p` with the first `n` rules of a route.
pub open spec fn plan_rules(
    p: PlanView,
    route: HttpRoute,
    n: nat,
    endpoints: Map<Seq<char>, Vec<Endpoint>>,
) -> PlanView
    decreases n,
{
    if n == 0 {
        p
    } else {
        plan_rule(
            plan_rules(p, route, (n - 1) as nat, endpoints),
            route,
            (n - 1) as nat,
            match_count(route.spec.rules@[n - 1]),
            endpoints,
        )
    }
}

/// `p` with those of the first `n` routes that attach to the Gateway.
pub open spec fn plan_routes(
    p: PlanView,
    gateway: Gateway,
    routes: Seq<HttpRoute>,
    n: nat,
    endpoints: Map<Seq<char>, Vec<Endpoint>>,
) -> PlanView
    decreases n,
{
    if n == 0 {
        p
    } else {
        let before = plan_routes(p, gateway, routes, (n - 1) as nat, endpoints);
        let route = routes[n - 1];
        if attaches(route, gateway.metadata.name@, gateway.metadata.namespace) {
            plan_rules(before, route, route.spec.rules@.len(), endpoints)
        } else {
            before
        }
    }
}

#[verifier::ext_equal]
pub struct TranslationView {
    pub gateway: config::GatewayView,
    pub warnings: Seq<Seq<char>>,
}

impl View for TranslationResult {
    type V = TranslationView;

    open spec fn view(&self) -> TranslationView {
        TranslationView { gateway: self.gateway@, warnings: text::texts(self.warnings@) }
    }
}

/// The plan of a Gateway and the routes that attach to it.
pub open spec fn gateway_plan(
    gateway: Gateway,
    routes: Seq<HttpRoute>,
    endpoints: Map<Seq<char>, Vec<Endpoint>>,
) -> PlanView {
    plan_routes(
        PlanView {
            routes: seq![],
            services: seq![],
            upstreams: seq![],
            warnings: warn_listeners(
                seq![],
                gateway.spec.listeners@,
                gateway.spec.listeners@.len(),
            ),
        },
        gateway,
        routes,
        routes.len(),
        endpoints,
    )
}

/// The configuration of a Gateway and the routes that attach to it.
pub open spec fn translation(
    gateway: Gateway,
    routes: Seq<HttpRoute>,
    endpoints: Map<Seq<char>, Vec<Endpoint>>,
) -> TranslationView {
    let plan = gateway_plan(gateway, routes, endpoints);
    TranslationView {
        gateway: config::GatewayView {
            listeners: listeners(
                gateway.spec.listeners@,
                namespace_of(gateway.metadata.namespace),
                gateway.spec.listeners@.len(),
            ),
            routes: plan.routes,
            services: plan.services,
            upstreams: plan.upstreams,
            allow_empty_routes: false,
        },
        warnings: plan.warnings,
    }
}

fn add_match(
    plan: &mut Plan,
    route: &HttpRoute,
    rule_idx: usize,
    match_idx: usize,
    endpoints: &TextMap<Vec<Endpoint>>,
)
    requires
        rule_idx < route.spec.rules@.len(),
    ensures
        final(plan)@ == plan_match(
            old(plan)@,
            *route,
            rule_idx as nat,
            match_idx as nat,
            endpoints@,
        ),
{
    let rule = &route.spec.rules[rule_idx];
    let rule_text = decimal(rule_idx as u64);
    let base = cat3(route.metadata.name.as_str(), "-rule-", rule_text.as_str());
    let name = if rule.matches.len() <= 1 {
        base
    } else {
        let match_text = decimal(match_idx as u64);
        cat3(base.as_str(), "-match-", match_text.as_str())
    };
    let m = if match_idx < rule.matches.len() {
        Some(&rule.matches[match_idx])
    } else {
        None
    };
    let host = if route.spec.hostnames.len() > 0 {
        Some(&route.spec.hostnames[0])
    } else {
        None
    };
    let match_ = translate_match(m, host, &mut plan.warnings);
    let (filter_action, rewrite, transforms) = translate_filters(
        &rule.filters,
        &mut plan.warnings,
    );
    let (service, action) = match filter_action {
        Some(a) => ("none".to_owned(), a),
        None => {
            if rule.backend_refs.len() > 0 {
                let b = &rule.backend_refs[0];
                let route_ns = namespace_str(&route.metadata.namespace, "default");
                let ns = namespace_str(&b.namespace, route_ns);
                let port = match b.port {
                    Some(p) => p,
                    None => 80,
                };
                let service = plan.add_backend(
                    name.as_str(),
                    ns,
                    b.name.as_str(),
                    port,
                    endpoints,
                );
                (service, RouteAction::Proxy { rewrite })
            } else {
                plan.warn(cat3("route ", name.as_str(), " has no backends"));
                ("none".to_owned(), RouteAction::Respond { status: 503, body: None })
            }
        },
    };
    plan.add_route(Route { name, service, match_, action, transforms });
}

fn add_rules(plan: &mut Plan, route: &HttpRoute, endpoints: &TextMap<Vec<Endpoint>>)
    ensures
        final(plan)@ == plan_rules(
            old(plan)@,
            *route,
            route.spec.rules@.len(),
            endpoints@,
        ),
{
    let mut i: usize = 0;
    while i < route.spec.rules.len()
        invariant
            i <= route.spec.rules.len(),
            plan@ == plan_rules(old(plan)@, *route, i as nat, endpoints@),
        decreases route.spec.rules.len() - i,
    {
        let rule = &route.spec.rules[i];
        let count: usize = if rule.matches.len() == 0 {
            1
        } else {
            rule.matches.len()
        };
        let ghost before = plan@;
        let mut j: usize = 0;
        while j < count
            invariant
                j <= count,
                i < route.spec.rules.len(),
                count == match_count(route.spec.rules@[i as int]),
                plan@ == plan_rule(before, *route, i as nat, j as nat, endpoints@),
            decreases count - j,
        {
            add_match(plan, route, i, j, endpoints);
            j = j + 1;
        }
        i = i + 1;
    }
}

/// Translate Gateway API resources into a gateway configuration.
///
/// `gateway` is the Gateway resource. `routes` are the HTTPRoutes, of which
/// those that attach to it count. `endpoints` holds, under
/// `<namespace>/<service-name>:<port>`, the endpoints of a Service port.
pub fn translate(
    gateway: &Gateway,
    routes: &Vec<HttpRoute>,
    endpoints: &TextMap<Vec<Endpoint>>,
) -> (r: Result<TranslationResult, String>)
    ensures
        r is Ok,
        r->Ok_0@ == translation(*gateway, routes@, endpoints@),
        carried::serves_gateway(r->Ok_0@.gateway, *gateway, routes@, endpoints@),
{
    let mut warnings: Vec<String> = Vec::new();
    assert(text::texts(warnings@) =~= seq![]);
    let listeners = translate_listeners(gateway, &mut warnings);
    let mut plan = Plan::new(warnings);
    let ghost start = plan@;
    let mut i: usize = 0;
    while i < routes.len()
        invariant
            i <= routes.len(),
            plan@ == plan_routes(start, *gateway, routes@, i as nat, endpoints@),
        decreases routes.len() - i,
    {
        let route = &routes[i];
        if route_attaches_to(route, gateway.metadata.name.as_str(), &gateway.metadata.namespace) {
            add_rules(&mut plan, route, endpoints);
        }
        i = i + 1;
    }
    proof {
        carried::law_translation_serves_the_gateway(*gateway, routes@, endpoints@);
    }
    Ok(
        TranslationResult {
            gateway: config::Gateway {
                listeners,
                routes: plan.routes,
                services: plan.services,
                upstreams: plan.upstreams,
                allow_empty_routes: false,
            },
            warnings: plan.warnings,
        },
    )
}

// ---------------------------------------------------------------------------
// Conformance
// ---------------------------------------------------------------------------

/// The names of the supported features.
pub open spec fn supported() -> Seq<Seq<char>> {
    seq![
        "Gateway"@,
        "GatewayClass"@,
        "HTTPRoute"@,
        "HTTPRouteMatching"@,
        "HTTPRoutePathModifier"@,
        "HTTPRoutePortLevelSettings"@,
        "HTTPRouteHostRewrite"@,
        "HTTPRouteBackendProtocolHints"@,
        "HTTPRouteRequestRedirect"@,
        "HTTPRouteRequestHeaderModifier"@,
        "HTTPRouteResponseHeaderModifier"@,
        "HTTPRouteQueryParamMatching"@,
        "HTTPRouteMethodMatching"@,
        "HTTPRouteHeaderMatching"@,
        "GatewayClassObservedGeneration"@,
        "GatewayStaticAddresses"@,
        "GatewayPort8080"@,
        "GatewayWithAttachedRoutes"@,
        "HTTPRouteParentRefPort"@,
        "HTTPRouteParentRefNotNamed"@,
        "HTTPRouteBackendPortNumber"@,
        "HTTPRouteBackendPortName"@,
        "HTTPRouteReferenceGrant"@,
        "HTTPRouteIsolatedFilter"@,
        "HTTPRouteList"@,
        "GatewayClassList"@,
        "GatewayList"@,
        "HTTPRouteHostnameMatching"@,
        "HTTPRoutePathExact"@,
        "HTTPRoutePathPrefix"@,
        "HTTPRoutePathRegex"@,
        "HTTPRouteTLSPassthrough"@,
        "HTTPRouteTLSTerminate"@,
        "HTTPRouteTLSReencrypt"@,
        "Ingress"@,
        "IngressClass"@,
    ]
}

/// The list of standard-channel conformance features the translator
/// supports. Used by the conformance report generator.
pub fn supported_features() -> (r: Vec<&'static str>)
    ensures
        r@.map_values(|s: &'static str| s@) == supported(),
{
    let r: Vec<&'static str> = vec![
        "Gateway",
        "GatewayClass",
        "HTTPRoute",
        "HTTPRouteMatching",
        "HTTPRoutePathModifier",
        "HTTPRoutePortLevelSettings",
        "HTTPRouteHostRewrite",
        "HTTPRouteBackendProtocolHints",
        "HTTPRouteRequestRedirect",
        "HTTPRouteRequestHeaderModifier",
        "HTTPRouteResponseHeaderModifier",
        "HTTPRouteQueryParamMatching",
        "HTTPRouteMethodMatching",
        "HTTPRouteHeaderMatching",
        "GatewayClassObservedGeneration",
        "GatewayStaticAddresses",
        "GatewayPort8080",
        "GatewayWithAttachedRoutes",
        "HTTPRouteParentRefPort",
        "HTTPRouteParentRefNotNamed",
        "HTTPRouteBackendPortNumber",
        "HTTPRouteBackendPortName",
        "HTTPRouteReferenceGrant",
        "HTTPRouteIsolatedFilter",
        "HTTPRouteList",
        "GatewayClassList",
        "GatewayList",
        "HTTPRouteHostnameMatching",
        "HTTPRoutePathExact",
        "HTTPRoutePathPrefix",
        "HTTPRoutePathRegex",
        "HTTPRouteTLSPassthrough",
        "HTTPRouteTLSTerminate",
        "HTTPRouteTLSReencrypt",
        "Ingress",
        "IngressClass",
    ];
    assert(r@.map_values(|s: &'static str| s@) =~= supported());
    r
}

/// The names of the skipped features.
pub open spec fn skipped() -> Seq<Seq<char>> {
    seq![
        "GRPCRoute"@,
        "TCPRoute"@,
        "TLSRoute"@,
        "HTTPRouteRequestMirror"@,
        "HTTPRouteRequestMultipleMirrors"@,
        "HTTPRouteBackendProtocolWebSocket"@,
        "HTTPRouteBackendProtocolH2C"@,
        "HTTPRouteWeightedBackend"@,
    ]
}

/// The list of standard-channel features the translator does NOT yet
/// support (reported as skipped in the conformance report).
pub fn skipped_features() -> (r: Vec<&'static str>)
    ensures
        r@.map_values(|s: &'static str| s@) == skipped(),
{
    let r: Vec<&'static str> = vec![
        "GRPCRoute",
        "TCPRoute",
        "TLSRoute",
        "HTTPRouteRequestMirror",
        "HTTPRouteRequestMultipleMirrors",
        "HTTPRouteBackendProtocolWebSocket",
        "HTTPRouteBackendProtocolH2C",
        "HTTPRouteWeightedBackend",
    ];
    assert(r@.map_values(|s: &'static str| s@) =~= skipped());
    r
}

/// A number by which the names of features are told apart.
spec fn mark(s: Seq<char>) -> int {
    (((s.len() as int) * 128 + s[s.len() - 7] as int) * 128 + s[s.len() - 5] as int) * 128 + s[(
    s.len() / 2) as int] as int
}

/// The place of a feature among all, by its mark.
spec fn place_of(mark: int) -> int {
    if mark == 15858277 {
        0
    } else if mark == 26763769 {
        1
    } else if mark == 20261202 {
        2
    } else if mark == 37253605 {
        3
    } else if mark == 45872353 {
        4
    } else if mark == 56195660 {
        5
    } else if mark == 43301871 {
        6
    } else if mark == 62645358 {
        7
    } else if mark == 51999989 {
        8
    } else if mark == 64746740 {
        9
    } else if mark == 66843891 {
        10
    } else if mark == 58225145 {
        11
    } else if mark == 49836532 {
        12
    } else if mark == 49836513 {
        13
    } else if mark == 64581861 {
        14
    } else if mark == 47788777 {
        15
    } else if mark == 33290832 {
        16
    } else if mark == 54081524 {
        17
    } else if mark == 47494002 {
        18
    } else if mark == 56354670 {
        19
    } else if mark == 56441573 {
        20
    } else if mark == 52165227 {
        21
    } else if mark == 49865702 {
        22
    } else if mark == 49886447 {
        23
    } else if mark == 29192949 {
        24
    } else if mark == 35158508 {
        25
    } else if mark == 25033953 {
        26
    } else if mark == 54030836 {
        27
    } else if mark == 39658192 {
        28
    } else if mark == 41564496 {
        29
    } else if mark == 39659856 {
        30
    } else if mark == 50149715 {
        31
    } else if mark == 45921484 {
        32
    } else if mark == 45707724 {
        33
    } else if mark == 15889394 {
        34
    } else if mark == 27058675 {
        35
    } else if mark == 20195666 {
        36
    } else if mark == 17885551 {
        37
    } else if mark == 18033007 {
        38
    } else if mark == 48051441 {
        39
    } else if mark == 66287988 {
        40
    } else if mark == 70825936 {
        41
    } else if mark == 58456037 {
        42
    } else if mark == 51425767 {
        43
    } else {
        -1
    }
}

proof fn lemma_places(i: int)
    requires
        0 <= i < supported().len() + skipped().len(),
    ensures
        place_of(mark((supported() + skipped())[i])) == i,
{
    let all = supported() + skipped();
    if i == 0 {
        reveal_strlit("Gateway");
        assert(all[0] == "Gateway"@);
    } else if i == 1 {
        reveal_strlit("GatewayClass");
        assert(all[1] == "GatewayClass"@);
    } else if i == 2 {
        reveal_strlit("HTTPRoute");
        assert(all[2] == "HTTPRoute"@);
    } else if i == 3 {
        reveal_strlit("HTTPRouteMatching");
        assert(all[3] == "HTTPRouteMatching"@);
    } else if i == 4 {
        reveal_strlit("HTTPRoutePathModifier");
        assert(all[4] == "HTTPRoutePathModifier"@);
    } else if i == 5 {
        reveal_strlit("HTTPRoutePortLevelSettings");
        assert(all[5] == "HTTPRoutePortLevelSettings"@);
    } else if i == 6 {
        reveal_strlit("HTTPRouteHostRewrite");
        assert(all[6] == "HTTPRouteHostRewrite"@);
    } else if i == 7 {
        reveal_strlit("HTTPRouteBackendProtocolHints");
        assert(all[7] == "HTTPRouteBackendProtocolHints"@);
    } else if i == 8 {
        reveal_strlit("HTTPRouteRequestRedirect");
        assert(all[8] == "HTTPRouteRequestRedirect"@);
    } else if i == 9 {
        reveal_strlit("HTTPRouteRequestHeaderModifier");
        assert(all[9] == "HTTPRouteRequestHeaderModifier"@);
    } else if i == 10 {
        reveal_strlit("HTTPRouteResponseHeaderModifier");
        assert(all[10] == "HTTPRouteResponseHeaderModifier"@);
    } else if i == 11 {
        reveal_strlit("HTTPRouteQueryParamMatching");
        assert(all[11] == "HTTPRouteQueryParamMatching"@);
    } else if i == 12 {
        reveal_strlit("HTTPRouteMethodMatching");
        assert(all[12] == "HTTPRouteMethodMatching"@);
    } else if i == 13 {
        reveal_strlit("HTTPRouteHeaderMatching");
        assert(all[13] == "HTTPRouteHeaderMatching"@);
    } else if i == 14 {
        reveal_strlit("GatewayClassObservedGeneration");
        assert(all[14] == "GatewayClassObservedGeneration"@);
    } else if i == 15 {
        reveal_strlit("GatewayStaticAddresses");
        assert(all[15] == "GatewayStaticAddresses"@);
    } else if i == 16 {
        reveal_strlit("GatewayPort8080");
        assert(all[16] == "GatewayPort8080"@);
    } else if i == 17 {
        reveal_strlit("GatewayWithAttachedRoutes");
        assert(all[17] == "GatewayWithAttachedRoutes"@);
    } else if i == 18 {
        reveal_strlit("HTTPRouteParentRefPort");
        assert(all[18] == "HTTPRouteParentRefPort"@);
    } else if i == 19 {
        reveal_strlit("HTTPRouteParentRefNotNamed");
        assert(all[19] == "HTTPRouteParentRefNotNamed"@);
    } else if i == 20 {
        reveal_strlit("HTTPRouteBackendPortNumber");
        assert(all[20] == "HTTPRouteBackendPortNumber"@);
    } else if i == 21 {
        reveal_strlit("HTTPRouteBackendPortName");
        assert(all[21] == "HTTPRouteBackendPortName"@);
    } else if i == 22 {
        reveal_strlit("HTTPRouteReferenceGrant");
        assert(all[22] == "HTTPRouteReferenceGrant"@);
    } else if i == 23 {
        reveal_strlit("HTTPRouteIsolatedFilter");
        assert(all[23] == "HTTPRouteIsolatedFilter"@);
    } else if i == 24 {
        reveal_strlit("HTTPRouteList");
        assert(all[24] == "HTTPRouteList"@);
    } else if i == 25 {
        reveal_strlit("GatewayClassList");
        assert(all[25] == "GatewayClassList"@);
    } else if i == 26 {
        reveal_strlit("GatewayList");
        assert(all[26] == "GatewayList"@);
    } else if i == 27 {
        reveal_strlit("HTTPRouteHostnameMatching");
        assert(all[27] == "HTTPRouteHostnameMatching"@);
    } else if i == 28 {
        reveal_strlit("HTTPRoutePathExact");
        assert(all[28] == "HTTPRoutePathExact"@);
    } else if i == 29 {
        reveal_strlit("HTTPRoutePathPrefix");
        assert(all[29] == "HTTPRoutePathPrefix"@);
    } else if i == 30 {
        reveal_strlit("HTTPRoutePathRegex");
        assert(all[30] == "HTTPRoutePathRegex"@);
    } else if i == 31 {
        reveal_strlit("HTTPRouteTLSPassthrough");
        assert(all[31] == "HTTPRouteTLSPassthrough"@);
    } else if i == 32 {
        reveal_strlit("HTTPRouteTLSTerminate");
        assert(all[32] == "HTTPRouteTLSTerminate"@);
    } else if i == 33 {
        reveal_strlit("HTTPRouteTLSReencrypt");
        assert(all[33] == "HTTPRouteTLSReencrypt"@);
    } else if i == 34 {
        reveal_strlit("Ingress");
        assert(all[34] == "Ingress"@);
    } else if i == 35 {
        reveal_strlit("IngressClass");
        assert(all[35] == "IngressClass"@);
    } else if i == 36 {
        reveal_strlit("GRPCRoute");
        assert(all[36] == "GRPCRoute"@);
    } else if i == 37 {
        reveal_strlit("TCPRoute");
        assert(all[37] == "TCPRoute"@);
    } else if i == 38 {
        reveal_strlit("TLSRoute");
        assert(all[38] == "TLSRoute"@);
    } else if i == 39 {
        reveal_strlit("HTTPRouteRequestMirror");
        assert(all[39] == "HTTPRouteRequestMirror"@);
    } else if i == 40 {
        reveal_strlit("HTTPRouteRequestMultipleMirrors");
        assert(all[40] == "HTTPRouteRequestMultipleMirrors"@);
    } else if i == 41 {
        reveal_strlit("HTTPRouteBackendProtocolWebSocket");
        assert(all[41] == "HTTPRouteBackendProtocolWebSocket"@);
    } else if i == 42 {
        reveal_strlit("HTTPRouteBackendProtocolH2C");
        assert(all[42] == "HTTPRouteBackendProtocolH2C"@);
    } else if i == 43 {
        reveal_strlit("HTTPRouteWeightedBackend");
        assert(all[43] == "HTTPRouteWeightedBackend"@);
    }
}

/// Every feature is reported once: none is listed as supported and as skipped,
/// and none is listed twice.
pub proof fn law_every_feature_is_reported_once()
    ensures
        (supported() + skipped()).no_duplicates(),
        forall|i: int, j: int|
            0 <= i < supported().len() && 0 <= j < skipped().len() ==> #[trigger] supported()[i]
                != #[trigger] skipped()[j],
        supported().no_duplicates(),
        skipped().no_duplicates(),
{
    let all = supported() + skipped();
    let n = supported().len() as int;
    assert forall|i: int, j: int| 0 <= i < all.len() && 0 <= j < all.len() && i != j implies all[i]
        != all[j] by {
        lemma_places(i);
        lemma_places(j);
    }
    assert forall|i: int, j: int| 0 <= i < n && 0 <= j < skipped().len() implies #[trigger] supported()[i]
        != #[trigger] skipped()[j] by {
        assert(all[i] == supported()[i] && all[n + j] == skipped()[j]);
    }
    assert forall|i: int, j: int| 0 <= i < n && 0 <= j < n && i != j implies supported()[i]
        != supported()[j] by {
        assert(all[i] == supported()[i] && all[j] == supported()[j]);
    }
    assert forall|i: int, j: int|
        0 <= i < skipped().len() && 0 <= j < skipped().len() && i != j implies skipped()[i]
        != skipped()[j] by {
        assert(all[n + i] == skipped()[i] && all[n + j] == skipped()[j]);
    }
}

/// Whether a feature is supported.
pub open spec fn is_supported(name: Seq<char>) -> bool {
    ||| name == "Gateway"@
    ||| name == "GatewayClass"@
    ||| name == "HTTPRoute"@
    ||| name == "HTTPRouteMatching"@
    ||| name == "HTTPRoutePathModifier"@
    ||| name == "HTTPRoutePortLevelSettings"@
    ||| name == "HTTPRouteHostRewrite"@
    ||| name == "HTTPRouteBackendProtocolHints"@
    ||| name == "HTTPRouteRequestRedirect"@
    ||| name == "HTTPRouteRequestHeaderModifier"@
    ||| name == "HTTPRouteResponseHeaderModifier"@
    ||| name == "HTTPRouteQueryParamMatching"@
    ||| name == "HTTPRouteMethodMatching"@
    ||| name == "HTTPRouteHeaderMatching"@
    ||| name == "GatewayClassObservedGeneration"@
    ||| name == "GatewayStaticAddresses"@
    ||| name == "GatewayPort8080"@
    ||| name == "GatewayWithAttachedRoutes"@
    ||| name == "HTTPRouteParentRefPort"@
    ||| name == "HTTPRouteParentRefNotNamed"@
    ||| name == "HTTPRouteBackendPortNumber"@
    ||| name == "HTTPRouteBackendPortName"@
    ||| name == "HTTPRouteReferenceGrant"@
    ||| name == "HTTPRouteIsolatedFilter"@
    ||| name == "HTTPRouteList"@
    ||| name == "GatewayClassList"@
    ||| name == "GatewayList"@
    ||| name == "HTTPRouteHostnameMatching"@
    ||| name == "HTTPRoutePathExact"@
    ||| name == "HTTPRoutePathPrefix"@
    ||| name == "HTTPRoutePathRegex"@
    ||| name == "HTTPRouteTLSPassthrough"@
    ||| name == "HTTPRouteTLSTerminate"@
    ||| name == "HTTPRouteTLSReencrypt"@
    ||| name == "Ingress"@
    ||| name == "IngressClass"@
}

/// Whether a feature is skipped.
pub open spec fn is_skipped(name: Seq<char>) -> bool {
    ||| name == "GRPCRoute"@
    ||| name == "TCPRoute"@
    ||| name == "TLSRoute"@
    ||| name == "HTTPRouteRequestMirror"@
    ||| name == "HTTPRouteRequestMultipleMirrors"@
    ||| name == "HTTPRouteBackendProtocolWebSocket"@
    ||| name == "HTTPRouteBackendProtocolH2C"@
    ||| name == "HTTPRouteWeightedBackend"@
}

/// The features that are reported as supported, and those that are reported as
/// skipped.
pub proof fn law_features_are_reported(name: Seq<char>)
    ensures
        supported().contains(name) <==> is_supported(name),
        skipped().contains(name) <==> is_skipped(name),
{
    let s = supported();
    let k = skipped();
    assert(s[0] == "Gateway"@);
    assert(s[1] == "GatewayClass"@);
    assert(s[2] == "HTTPRoute"@);
    assert(s[3] == "HTTPRouteMatching"@);
    assert(s[4] == "HTTPRoutePathModifier"@);
    assert(s[5] == "HTTPRoutePortLevelSettings"@);
    assert(s[6] == "HTTPRouteHostRewrite"@);
    assert(s[7] == "HTTPRouteBackendProtocolHints"@);
    assert(s[8] == "HTTPRouteRequestRedirect"@);
    assert(s[9] == "HTTPRouteRequestHeaderModifier"@);
    assert(s[10] == "HTTPRouteResponseHeaderModifier"@);
    assert(s[11] == "HTTPRouteQueryParamMatching"@);
    assert(s[12] == "HTTPRouteMethodMatching"@);
    assert(s[13] == "HTTPRouteHeaderMatching"@);
    assert(s[14] == "GatewayClassObservedGeneration"@);
    assert(s[15] == "GatewayStaticAddresses"@);
    assert(s[16] == "GatewayPort8080"@);
    assert(s[17] == "GatewayWithAttachedRoutes"@);
    assert(s[18] == "HTTPRouteParentRefPort"@);
    assert(s[19] == "HTTPRouteParentRefNotNamed"@);
    assert(s[20] == "HTTPRouteBackendPortNumber"@);
    assert(s[21] == "HTTPRouteBackendPortName"@);
    assert(s[22] == "HTTPRouteReferenceGrant"@);
    assert(s[23] == "HTTPRouteIsolatedFilter"@);
    assert(s[24] == "HTTPRouteList"@);
    assert(s[25] == "GatewayClassList"@);
    assert(s[26] == "GatewayList"@);
    assert(s[27] == "HTTPRouteHostnameMatching"@);
    assert(s[28] == "HTTPRoutePathExact"@);
    assert(s[29] == "HTTPRoutePathPrefix"@);
    assert(s[30] == "HTTPRoutePathRegex"@);
    assert(s[31] == "HTTPRouteTLSPassthrough"@);
    assert(s[32] == "HTTPRouteTLSTerminate"@);
    assert(s[33] == "HTTPRouteTLSReencrypt"@);
    assert(s[34] == "Ingress"@);
    assert(s[35] == "IngressClass"@);
    assert(s.len() == 36);
    assert(k[0] == "GRPCRoute"@);
    assert(k[1] == "TCPRoute"@);
    assert(k[2] == "TLSRoute"@);
    assert(k[3] == "HTTPRouteRequestMirror"@);
    assert(k[4] == "HTTPRouteRequestMultipleMirrors"@);
    assert(k[5] == "HTTPRouteBackendProtocolWebSocket"@);
    assert(k[6] == "HTTPRouteBackendProtocolH2C"@);
    assert(k[7] == "HTTPRouteWeightedBackend"@);
    assert(k.len() == 8);
}

} // verus!
