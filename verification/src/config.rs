//! The part of the gateway configuration that the library reads and writes,
//! with the mathematical view of each type.

use vstd::prelude::*;

use crate::text;
use crate::text_map::TextMap;

verus! {

// ---------------------------------------------------------------------------
// Listeners
// ---------------------------------------------------------------------------

/// The protocol a listener speaks.
#[derive(Clone, Copy, Debug, PartialEq, Eq, Structural)]
pub enum ListenerProtocol {
    Http,
    Https,
}

/// What a listener does with TLS.
#[derive(Clone, Copy, Debug, PartialEq, Eq, Structural)]
pub enum TlsMode {
    /// The gateway holds the certificate and ends the TLS connection.
    Terminate,
    /// The TLS bytes go through to the backend.
    Passthrough,
}

/// A certificate and the server names it is for (none: any name).
#[derive(Clone, Debug, PartialEq, Eq)]
pub struct TlsCertificate {
    pub server_names: Vec<String>,
    pub cert_file: String,
    pub key_file: String,
}

/// The TLS block of a listener.
#[derive(Clone, Debug, PartialEq, Eq)]
pub struct ListenerTls {
    pub mode: TlsMode,
    pub cert_file: Option<String>,
    pub key_file: Option<String>,
    pub certificates: Vec<TlsCertificate>,
}

/// A listener: where the gateway accepts connections.
#[derive(Clone, Debug, PartialEq, Eq)]
pub struct Listener {
    pub name: String,
    pub address: String,
    pub port: u16,
    pub protocol: ListenerProtocol,
    pub tls: Option<ListenerTls>,
}

#[verifier::ext_equal]
pub struct TlsCertificateView {
    pub server_names: Seq<Seq<char>>,
    pub cert_file: Seq<char>,
    pub key_file: Seq<char>,
}

impl View for TlsCertificate {
    type V = TlsCertificateView;

    open spec fn view(&self) -> TlsCertificateView {
        TlsCertificateView {
            server_names: text::texts(self.server_names@),
            cert_file: self.cert_file@,
            key_file: self.key_file@,
        }
    }
}

#[verifier::ext_equal]
pub struct ListenerTlsView {
    pub mode: TlsMode,
    pub cert_file: Option<Seq<char>>,
    pub key_file: Option<Seq<char>>,
    pub certificates: Seq<TlsCertificateView>,
}

impl View for ListenerTls {
    type V = ListenerTlsView;

    open spec fn view(&self) -> ListenerTlsView {
        ListenerTlsView {
            mode: self.mode,
            cert_file: text::opt_text(self.cert_file),
            key_file: text::opt_text(self.key_file),
            certificates: self.certificates@.map_values(|c: TlsCertificate| c@),
        }
    }
}

/// The view of an optional TLS block.
pub open spec fn opt_tls(o: Option<ListenerTls>) -> Option<ListenerTlsView> {
    match o {
        Some(t) => Some(t@),
        None => None,
    }
}

#[verifier::ext_equal]
pub struct ListenerView {
    pub name: Seq<char>,
    pub address: Seq<char>,
    pub port: u16,
    pub protocol: ListenerProtocol,
    pub tls: Option<ListenerTlsView>,
}

impl View for Listener {
    type V = ListenerView;

    open spec fn view(&self) -> ListenerView {
        ListenerView {
            name: self.name@,
            address: self.address@,
            port: self.port,
            protocol: self.protocol,
            tls: opt_tls(self.tls),
        }
    }
}

// ---------------------------------------------------------------------------
// Routes
// ---------------------------------------------------------------------------

/// How a path pattern is compared with a request path.
#[derive(Clone, Copy, Debug, PartialEq, Eq, Structural)]
pub enum PathMatchKind {
    Exact,
    Prefix,
    Regex,
}

/// A path pattern.
#[derive(Clone, Debug, PartialEq, Eq)]
pub struct PathMatch {
    pub kind: PathMatchKind,
    pub value: String,
}

/// A query parameter that must be there, with the given value if there is
/// one.
#[derive(Clone, Debug, PartialEq, Eq)]
pub struct NameValueMatch {
    pub name: String,
    pub value: Option<String>,
}

/// What a request must look like to take a route.
#[derive(Clone)]
pub struct RouteMatch {
    pub path: PathMatch,
    pub host: Option<String>,
    pub headers: TextMap<String>,
    pub query: Vec<NameValueMatch>,
}

/// A change of the request path on the way to the upstream.
#[derive(Clone, Debug, PartialEq, Eq)]
pub enum PathRewrite {
    /// Replace a leading `prefix` by `replacement`.
    ReplacePrefix { prefix: String, replacement: String },
}

/// What a route does with a request.
#[derive(Clone, Debug, PartialEq, Eq)]
pub enum RouteAction {
    /// Send it to the route's service.
    Proxy { rewrite: Option<PathRewrite> },
    /// Answer with a redirect.
    Redirect { scheme: Option<String>, host: Option<String>, path: Option<String>, status: u16 },
    /// Answer with a fixed status.
    Respond { status: u16, body: Option<String> },
}

/// Header edits: `set` replaces, `add` appends, `remove` deletes.
#[derive(Clone)]
pub struct HeaderOps {
    pub set: TextMap<String>,
    pub add: TextMap<String>,
    pub remove: Vec<String>,
}

/// The edits of a request.
#[derive(Clone)]
pub struct RequestTransforms {
    pub headers: Option<HeaderOps>,
}

/// The edits of a response.
#[derive(Clone)]
pub struct ResponseTransforms {
    pub headers: Option<HeaderOps>,
}

/// The edits of a route.
#[derive(Clone)]
pub struct Transforms {
    pub request: Option<RequestTransforms>,
    pub response: Option<ResponseTransforms>,
}

/// A route: a match, and what to do with what matches.
#[derive(Clone)]
pub struct Route {
    pub name: String,
    pub service: String,
    pub match_: RouteMatch,
    pub action: RouteAction,
    pub transforms: Option<Transforms>,
}

#[verifier::ext_equal]
pub struct PathMatchView {
    pub kind: PathMatchKind,
    pub value: Seq<char>,
}

impl View for PathMatch {
    type V = PathMatchView;

    open spec fn view(&self) -> PathMatchView {
        PathMatchView { kind: self.kind, value: self.value@ }
    }
}

#[verifier::ext_equal]
pub struct NameValueMatchView {
    pub name: Seq<char>,
    pub value: Option<Seq<char>>,
}

impl View for NameValueMatch {
    type V = NameValueMatchView;

    open spec fn view(&self) -> NameValueMatchView {
        NameValueMatchView { name: self.name@, value: text::opt_text(self.value) }
    }
}

/// The texts under the keys of a map of strings.
pub open spec fn text_values(m: Map<Seq<char>, String>) -> Map<Seq<char>, Seq<char>> {
    m.map_values(|s: String| s@)
}

/// Putting a string under a key puts its text there.
pub proof fn lemma_text_values_insert(m: Map<Seq<char>, String>, k: Seq<char>, v: String)
    ensures
        text_values(m.insert(k, v)) == text_values(m).insert(k, v@),
{
    assert(text_values(m.insert(k, v)) =~= text_values(m).insert(k, v@));
}

/// The views of a list of query matches.
pub open spec fn query_views(v: Seq<NameValueMatch>) -> Seq<NameValueMatchView> {
    v.map_values(|q: NameValueMatch| q@)
}

#[verifier::ext_equal]
pub struct RouteMatchView {
    pub path: PathMatchView,
    pub host: Option<Seq<char>>,
    pub headers: Map<Seq<char>, Seq<char>>,
    pub query: Seq<NameValueMatchView>,
}

impl View for RouteMatch {
    type V = RouteMatchView;

    open spec fn view(&self) -> RouteMatchView {
        RouteMatchView {
            path: self.path@,
            host: text::opt_text(self.host),
            headers: text_values(self.headers@),
            query: query_views(self.query@),
        }
    }
}

#[verifier::ext_equal]
pub enum PathRewriteView {
    ReplacePrefix { prefix: Seq<char>, replacement: Seq<char> },
}

impl View for PathRewrite {
    type V = PathRewriteView;

    open spec fn view(&self) -> PathRewriteView {
        match self {
            PathRewrite::ReplacePrefix { prefix, replacement } => PathRewriteView::ReplacePrefix {
                prefix: prefix@,
                replacement: replacement@,
            },
        }
    }
}

/// The view of an optional rewrite.
pub open spec fn opt_rewrite(o: Option<PathRewrite>) -> Option<PathRewriteView> {
    match o {
        Some(r) => Some(r@),
        None => None,
    }
}

#[verifier::ext_equal]
pub enum RouteActionView {
    Proxy { rewrite: Option<PathRewriteView> },
    Redirect {
        scheme: Option<Seq<char>>,
        host: Option<Seq<char>>,
        path: Option<Seq<char>>,
        status: u16,
    },
    Respond { status: u16, body: Option<Seq<char>> },
}

impl View for RouteAction {
    type V = RouteActionView;

    open spec fn view(&self) -> RouteActionView {
        match self {
            RouteAction::Proxy { rewrite } => RouteActionView::Proxy {
                rewrite: opt_rewrite(*rewrite),
            },
            RouteAction::Redirect { scheme, host, path, status } => RouteActionView::Redirect {
                scheme: text::opt_text(*scheme),
                host: text::opt_text(*host),
                path: text::opt_text(*path),
                status: *status,
            },
            RouteAction::Respond { status, body } => RouteActionView::Respond {
                status: *status,
                body: text::opt_text(*body),
            },
        }
    }
}

/// The view of an optional action.
pub open spec fn opt_action(o: Option<RouteAction>) -> Option<RouteActionView> {
    match o {
        Some(a) => Some(a@),
        None => None,
    }
}

#[verifier::ext_equal]
pub struct HeaderOpsView {
    pub set: Map<Seq<char>, Seq<char>>,
    pub add: Map<Seq<char>, Seq<char>>,
    pub remove: Seq<Seq<char>>,
}

impl View for HeaderOps {
    type V = HeaderOpsView;

    open spec fn view(&self) -> HeaderOpsView {
        HeaderOpsView {
            set: text_values(self.set@),
            add: text_values(self.add@),
            remove: text::texts(self.remove@),
        }
    }
}

/// The header edits of a route, of the request and of the response; the
/// outer level tells a route without edits from one whose edits are empty.
#[verifier::ext_equal]
pub struct TransformsView {
    pub request: Option<Option<HeaderOpsView>>,
    pub response: Option<Option<HeaderOpsView>>,
}

/// The view of optional header edits.
pub open spec fn opt_ops(o: Option<HeaderOps>) -> Option<HeaderOpsView> {
    match o {
        Some(h) => Some(h@),
        None => None,
    }
}

impl View for Transforms {
    type V = TransformsView;

    open spec fn view(&self) -> TransformsView {
        TransformsView {
            request: match self.request {
                Some(r) => Some(opt_ops(r.headers)),
                None => None,
            },
            response: match self.response {
                Some(r) => Some(opt_ops(r.headers)),
                None => None,
            },
        }
    }
}

/// The view of optional edits.
pub open spec fn opt_transforms(o: Option<Transforms>) -> Option<TransformsView> {
    match o {
        Some(t) => Some(t@),
        None => None,
    }
}

#[verifier::ext_equal]
pub struct RouteView {
    pub name: Seq<char>,
    pub service: Seq<char>,
    pub match_: RouteMatchView,
    pub action: RouteActionView,
    pub transforms: Option<TransformsView>,
}

impl View for Route {
    type V = RouteView;

    open spec fn view(&self) -> RouteView {
        RouteView {
            name: self.name@,
            service: self.service@,
            match_: self.match_@,
            action: self.action@,
            transforms: opt_transforms(self.transforms),
        }
    }
}

// ---------------------------------------------------------------------------
// Services and upstreams
// ---------------------------------------------------------------------------

/// One address that serves an upstream.
#[derive(Clone, Debug, PartialEq, Eq)]
pub struct Endpoint {
    pub address: String,
    pub port: u16,
}

/// How an upstream spreads requests over its endpoints.
#[derive(Clone, Copy, Debug, PartialEq, Eq, Structural)]
pub enum LoadBalancer {
    RoundRobin,
}

/// The protocol spoken to an upstream.
#[derive(Clone, Copy, Debug, PartialEq, Eq, Structural)]
pub enum UpstreamProtocol {
    Http1,
}

/// A named set of endpoints.
#[derive(Clone, Debug, PartialEq, Eq)]
pub struct Upstream {
    pub name: String,
    pub load_balancer: LoadBalancer,
    pub protocol: UpstreamProtocol,
    pub endpoints: Vec<Endpoint>,
}

/// A service: what routes refer to, backed by an upstream.
#[derive(Clone, Debug, PartialEq, Eq)]
pub struct Service {
    pub name: String,
    pub upstream: Option<String>,
}

#[verifier::ext_equal]
pub struct EndpointView {
    pub address: Seq<char>,
    pub port: u16,
}

impl View for Endpoint {
    type V = EndpointView;

    open spec fn view(&self) -> EndpointView {
        EndpointView { address: self.address@, port: self.port }
    }
}

/// The views of a list of endpoints.
pub open spec fn endpoint_views(v: Seq<Endpoint>) -> Seq<EndpointView> {
    v.map_values(|e: Endpoint| e@)
}

#[verifier::ext_equal]
pub struct UpstreamView {
    pub name: Seq<char>,
    pub load_balancer: LoadBalancer,
    pub protocol: UpstreamProtocol,
    pub endpoints: Seq<EndpointView>,
}

impl View for Upstream {
    type V = UpstreamView;

    open spec fn view(&self) -> UpstreamView {
        UpstreamView {
            name: self.name@,
            load_balancer: self.load_balancer,
            protocol: self.protocol,
            endpoints: endpoint_views(self.endpoints@),
        }
    }
}

#[verifier::ext_equal]
pub struct ServiceView {
    pub name: Seq<char>,
    pub upstream: Option<Seq<char>>,
}

impl View for Service {
    type V = ServiceView;

    open spec fn view(&self) -> ServiceView {
        ServiceView { name: self.name@, upstream: text::opt_text(self.upstream) }
    }
}

/// A fresh copy of a list of endpoints.
pub fn clone_endpoints(v: &Vec<Endpoint>) -> (r: Vec<Endpoint>)
    ensures
        r@ == v@,
{
    let mut r: Vec<Endpoint> = Vec::new();
    let mut i: usize = 0;
    while i < v.len()
        invariant
            i <= v.len(),
            r@ == v@.take(i as int),
        decreases v.len() - i,
    {
        r.push(Endpoint { address: v[i].address.clone(), port: v[i].port });
        i = i + 1;
        assert(v@.take(i as int) =~= v@.take(i - 1).push(v@[i - 1]));
    }
    assert(v@.take(v.len() as int) =~= v@);
    r
}

// ---------------------------------------------------------------------------
// The gateway
// ---------------------------------------------------------------------------

/// A gateway configuration.
#[derive(Clone)]
pub struct Gateway {
    pub listeners: Vec<Listener>,
    pub routes: Vec<Route>,
    pub services: Vec<Service>,
    pub upstreams: Vec<Upstream>,
    /// Whether a configuration without routes is accepted.
    pub allow_empty_routes: bool,
}

#[verifier::ext_equal]
pub struct GatewayView {
    pub listeners: Seq<ListenerView>,
    pub routes: Seq<RouteView>,
    pub services: Seq<ServiceView>,
    pub upstreams: Seq<UpstreamView>,
    pub allow_empty_routes: bool,
}

/// The views of a list of listeners.
pub open spec fn listener_views(v: Seq<Listener>) -> Seq<ListenerView> {
    v.map_values(|l: Listener| l@)
}

/// The views of a list of routes.
pub open spec fn route_views(v: Seq<Route>) -> Seq<RouteView> {
    v.map_values(|r: Route| r@)
}

/// The views of a list of services.
pub open spec fn service_views(v: Seq<Service>) -> Seq<ServiceView> {
    v.map_values(|s: Service| s@)
}

/// The views of a list of upstreams.
pub open spec fn upstream_views(v: Seq<Upstream>) -> Seq<UpstreamView> {
    v.map_values(|u: Upstream| u@)
}

impl View for Gateway {
    type V = GatewayView;

    open spec fn view(&self) -> GatewayView {
        GatewayView {
            listeners: listener_views(self.listeners@),
            routes: route_views(self.routes@),
            services: service_views(self.services@),
            upstreams: upstream_views(self.upstreams@),
            allow_empty_routes: self.allow_empty_routes,
        }
    }
}

} // verus!
