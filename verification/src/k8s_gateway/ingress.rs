//! Kubernetes Ingress / IngressClass translator.
//!
//! - An Ingress rule path becomes a `Route` (pathType `Prefix` and `Exact`
//!   keep their meaning, `ImplementationSpecific` becomes a prefix with a
//!   warning).
//! - An Ingress backend (that of the path, or the default backend) becomes a
//!   `Service`, an `Upstream` and its endpoints.
//! - Ingress TLS becomes the TLS block of the HTTPS listener, with the
//!   certificate of the named Secret.
//! - An annotation without an equivalent gives a warning.

use vstd::prelude::*;

use crate::config;
use crate::config::{
    Endpoint, Listener, ListenerProtocol, ListenerTls, PathMatch, PathMatchKind, Route,
    RouteAction, RouteMatch, TlsCertificate, TlsMode,
};
use crate::k8s_gateway;
use crate::k8s_gateway::ingress_carried;
use crate::k8s_gateway::{namespace_str, Plan, PlanView, TranslationResult, TranslationView};
use crate::text;
use crate::text::{begins_with, cat2, cat3, cat5, cat7, clone_opt, decimal, same};
use crate::text_map::TextMap;

verus! {

broadcast use crate::text::lemma_texts_push;

// ---------------------------------------------------------------------------
// Ingress resources
// ---------------------------------------------------------------------------

/// An Ingress resource.
#[derive(Clone, Debug, PartialEq, Eq)]
pub struct Ingress {
    pub api_version: String,
    pub kind: String,
    pub metadata: IngressObjectMeta,
    pub spec: IngressSpec,
}

/// Ingress object metadata.
#[derive(Clone, Debug, PartialEq, Eq)]
pub struct IngressObjectMeta {
    pub name: String,
    pub namespace: Option<String>,
    /// The annotations, in the order in which warnings on them are given.
    pub annotations: Vec<(String, String)>,
}

/// Ingress spec.
#[derive(Clone, Debug, PartialEq, Eq)]
pub struct IngressSpec {
    /// The ingress class name (matched against the configured class).
    pub ingress_class_name: Option<String>,
    /// The routing rules.
    pub rules: Vec<IngressRule>,
    /// The TLS configurations.
    pub tls: Vec<IngressTls>,
    /// The default backend, for paths without one of their own.
    pub default_backend: Option<IngressBackend>,
}

/// An Ingress routing rule.
#[derive(Clone, Debug, PartialEq, Eq)]
pub struct IngressRule {
    /// The host (optional; none = wildcard).
    pub host: Option<String>,
    /// The HTTP paths.
    pub http: Vec<HTTPIngressPath>,
}

/// An HTTP path in an Ingress rule.
#[derive(Clone, Debug, PartialEq, Eq)]
pub struct HTTPIngressPath {
    /// The path match type: "Prefix", "Exact", "ImplementationSpecific".
    pub path_type: String,
    /// The path value.
    pub path: String,
    /// The backend for this path.
    pub backend: IngressBackend,
}

/// An Ingress backend reference.
#[derive(Clone, Debug, PartialEq, Eq)]
pub struct IngressBackend {
    /// The Service backend.
    pub service: Option<IngressServiceBackend>,
}

/// A Service backend reference.
#[derive(Clone, Debug, PartialEq, Eq)]
pub struct IngressServiceBackend {
    /// The Service name.
    pub name: String,
    /// The port (name or number).
    pub port: Option<ServiceBackendPort>,
}

/// A Service backend port (name or number).
#[derive(Clone, Debug, PartialEq, Eq)]
pub struct ServiceBackendPort {
    /// The named port.
    pub name: Option<String>,
    /// The numeric port.
    pub number: Option<u16>,
}

/// An Ingress TLS configuration.
#[derive(Clone, Debug, PartialEq, Eq)]
pub struct IngressTls {
    /// The hostnames this TLS config serves.
    pub hosts: Vec<String>,
    /// The name of the TLS Secret.
    pub secret_name: Option<String>,
}

/// An IngressClass resource.
#[derive(Clone, Debug, PartialEq, Eq)]
pub struct IngressClass {
    pub api_version: String,
    pub kind: String,
    pub metadata: IngressClassObjectMeta,
    pub spec: IngressClassSpec,
}

/// IngressClass object metadata.
#[derive(Clone, Debug, PartialEq, Eq)]
pub struct IngressClassObjectMeta {
    pub name: String,
}

/// IngressClass spec.
#[derive(Clone, Debug, PartialEq, Eq)]
pub struct IngressClassSpec {
    /// The controller name.
    pub controller: String,
}

/// The default Ingress class: an Ingress that names no class belongs to it.
pub const DEFAULT_INGRESS_CLASS: &'static str = "dwara";

// ---------------------------------------------------------------------------
// Annotations
// ---------------------------------------------------------------------------

/// Whether an annotation belongs to one of the NGINX, HAProxy or ALB
/// families that have no equivalent.
pub open spec fn unsupported_annotation(key: Seq<char>) -> bool {
    ||| "nginx.ingress.kubernetes.io/"@.is_prefix_of(key)
    ||| "nginx.org/"@.is_prefix_of(key)
    ||| "haproxy.org/"@.is_prefix_of(key)
    ||| "alb.ingress.kubernetes.io/"@.is_prefix_of(key)
    ||| "kubernetes.io/ingress.allow-http"@.is_prefix_of(key)
    ||| "ingress.kubernetes.io/rewrite-target"@.is_prefix_of(key)
    ||| "nginx.ingress.kubernetes.io/rewrite-target"@.is_prefix_of(key)
    ||| "nginx.ingress.kubernetes.io/ssl-redirect"@.is_prefix_of(key)
    ||| "nginx.ingress.kubernetes.io/auth"@.is_prefix_of(key)
    ||| "nginx.ingress.kubernetes.io/proxy"@.is_prefix_of(key)
    ||| "nginx.ingress.kubernetes.io/configuration"@.is_prefix_of(key)
}

/// `p` with the warnings on the first `n` annotations of an Ingress.
pub open spec fn plan_annotations(p: PlanView, ingress: Ingress, n: nat) -> PlanView
    decreases n,
{
    if n == 0 {
        p
    } else {
        let before = plan_annotations(p, ingress, (n - 1) as nat);
        let key = ingress.metadata.annotations@[n - 1].0@;
        if unsupported_annotation(key) {
            before.warned(
                "Ingress "@ + k8s_gateway::namespace_of(ingress.metadata.namespace) + "/"@
                    + ingress.metadata.name@ + " has unsupported annotation '"@ + key
                    + "'; ignored"@,
            )
        } else {
            before
        }
    }
}

fn unsupported(key: &str) -> (r: bool)
    ensures
        r == unsupported_annotation(key@),
{
    begins_with(key, "nginx.ingress.kubernetes.io/") || begins_with(key, "nginx.org/")
        || begins_with(key, "haproxy.org/") || begins_with(key, "alb.ingress.kubernetes.io/")
        || begins_with(key, "kubernetes.io/ingress.allow-http") || begins_with(
        key,
        "ingress.kubernetes.io/rewrite-target",
    ) || begins_with(key, "nginx.ingress.kubernetes.io/rewrite-target") || begins_with(
        key,
        "nginx.ingress.kubernetes.io/ssl-redirect",
    ) || begins_with(key, "nginx.ingress.kubernetes.io/auth") || begins_with(
        key,
        "nginx.ingress.kubernetes.io/proxy",
    ) || begins_with(key, "nginx.ingress.kubernetes.io/configuration")
}

fn add_annotations(plan: &mut Plan, ingress: &Ingress)
    ensures
        final(plan)@ == plan_annotations(
            old(plan)@,
            *ingress,
            ingress.metadata.annotations@.len(),
        ),
{
    let mut i: usize = 0;
    while i < ingress.metadata.annotations.len()
        invariant
            i <= ingress.metadata.annotations.len(),
            plan@ == plan_annotations(old(plan)@, *ingress, i as nat),
        decreases ingress.metadata.annotations.len() - i,
    {
        let key = ingress.metadata.annotations[i].0.as_str();
        if unsupported(key) {
            plan.warn(
                cat7(
                    "Ingress ",
                    namespace_str(&ingress.metadata.namespace, "default"),
                    "/",
                    ingress.metadata.name.as_str(),
                    " has unsupported annotation '",
                    key,
                    "'; ignored",
                ),
            );
        }
        i = i + 1;
    }
}

// ---------------------------------------------------------------------------
// Class and TLS
// ---------------------------------------------------------------------------

/// Whether an Ingress belongs to a class: by name, or, where it names none,
/// because the class is the default one.
pub open spec fn in_class(ingress: Ingress, class: Seq<char>) -> bool {
    match ingress.spec.ingress_class_name {
        Some(c) => c@ == class,
        None => class == DEFAULT_INGRESS_CLASS@,
    }
}

fn belongs(ingress: &Ingress, class: &str) -> (r: bool)
    ensures
        r == in_class(*ingress, class@),
{
    match &ingress.spec.ingress_class_name {
        Some(c) => same(c.as_str(), class),
        None => same(class, DEFAULT_INGRESS_CLASS),
    }
}

/// The certificate of a Secret for a host; the empty host is any host.
pub open spec fn ingress_certificate(
    host: Seq<char>,
    secret: Seq<char>,
) -> config::TlsCertificateView {
    let file = "k8s-secret:default/"@ + secret;
    config::TlsCertificateView {
        server_names: if host.len() == 0 {
            seq![]
        } else {
            seq![host]
        },
        cert_file: file,
        key_file: file,
    }
}

/// The certificates of the first `n` TLS blocks that name a Secret: one per
/// host, or one for any host where the block names none.
pub open spec fn tls_certificates(tls: Seq<IngressTls>, n: nat) -> Seq<config::TlsCertificateView>
    decreases n,
{
    if n == 0 {
        seq![]
    } else {
        let before = tls_certificates(tls, (n - 1) as nat);
        let t = tls[n - 1];
        match t.secret_name {
            Some(s) => if t.hosts@.len() == 0 {
                before.push(ingress_certificate(seq![], s@))
            } else {
                before + Seq::new(
                    t.hosts@.len(),
                    |i: int| ingress_certificate(t.hosts@[i]@, s@),
                )
            },
            None => before,
        }
    }
}

/// The certificates of those of the first `n` Ingresses that belong to the
/// class.
pub open spec fn class_certificates(ingresses: Seq<Ingress>, class: Seq<char>, n: nat) -> Seq<
    config::TlsCertificateView,
>
    decreases n,
{
    if n == 0 {
        seq![]
    } else {
        let before = class_certificates(ingresses, class, (n - 1) as nat);
        let i = ingresses[n - 1];
        if in_class(i, class) {
            before + tls_certificates(i.spec.tls@, i.spec.tls@.len())
        } else {
            before
        }
    }
}

/// The views of a list of certificates.
pub open spec fn certificate_views(v: Seq<TlsCertificate>) -> Seq<config::TlsCertificateView> {
    v.map_values(|c: TlsCertificate| c@)
}

fn make_certificate(host: &str, secret: &str) -> (c: TlsCertificate)
    ensures
        c@ == ingress_certificate(host@, secret@),
{
    let server_names = if host.is_empty() {
        Vec::new()
    } else {
        vec![host.to_owned()]
    };
    let c = TlsCertificate {
        server_names,
        cert_file: cat2("k8s-secret:default/", secret),
        key_file: cat2("k8s-secret:default/", secret),
    };
    assert(c@.server_names =~= ingress_certificate(host@, secret@).server_names);
    c
}

fn add_certificates(out: &mut Vec<TlsCertificate>, tls: &Vec<IngressTls>)
    ensures
        certificate_views(final(out)@) == certificate_views(old(out)@) + tls_certificates(
            tls@,
            tls@.len(),
        ),
{
    let ghost start = certificate_views(out@);
    let mut i: usize = 0;
    assert(certificate_views(out@) =~= start + tls_certificates(tls@, 0));
    while i < tls.len()
        invariant
            i <= tls.len(),
            certificate_views(out@) == start + tls_certificates(tls@, i as nat),
        decreases tls.len() - i,
    {
        let t = &tls[i];
        let ghost before = tls_certificates(tls@, i as nat);
        match &t.secret_name {
            Some(s) => {
                if t.hosts.len() == 0 {
                    let c = make_certificate("", s.as_str());
                    proof {
                        reveal_strlit("");
                        assert(""@ =~= seq![]);
                        assert(certificate_views(out@.push(c)) =~= certificate_views(out@).push(
                            c@,
                        ));
                    }
                    out.push(c);
                    assert(certificate_views(out@) =~= start + tls_certificates(
                        tls@,
                        (i + 1) as nat,
                    ));
                } else {
                    let ghost wanted = Seq::new(
                        t.hosts@.len(),
                        |k: int| ingress_certificate(t.hosts@[k]@, s@),
                    );
                    let mut j: usize = 0;
                    assert(certificate_views(out@) =~= start + before + wanted.take(0));
                    while j < t.hosts.len()
                        invariant
                            j <= t.hosts.len(),
                            wanted == Seq::new(
                                t.hosts@.len(),
                                |k: int| ingress_certificate(t.hosts@[k]@, s@),
                            ),
                            certificate_views(out@) == start + before + wanted.take(j as int),
                        decreases t.hosts.len() - j,
                    {
                        let c = make_certificate(t.hosts[j].as_str(), s.as_str());
                        assert(certificate_views(out@.push(c)) =~= certificate_views(out@).push(
                            c@,
                        ));
                        out.push(c);
                        j = j + 1;
                        assert(wanted.take(j as int) =~= wanted.take(j - 1).push(wanted[j - 1]));
                        assert(certificate_views(out@) =~= start + before + wanted.take(j as int));
                    }
                    assert(wanted.take(t.hosts@.len() as int) =~= wanted);
                    assert(certificate_views(out@) =~= start + tls_certificates(
                        tls@,
                        (i + 1) as nat,
                    ));
                }
            },
            None => {},
        }
        i = i + 1;
    }
}

// ---------------------------------------------------------------------------
// Rules
// ---------------------------------------------------------------------------

/// The name of the route of one path of one rule.
pub open spec fn ingress_route_name(ingress: Ingress, rule_idx: nat, path_idx: nat) -> Seq<char> {
    ingress.metadata.name@ + "-rule-"@ + text::dec(rule_idx) + "-path-"@ + text::dec(path_idx)
}

/// `p` with the warning on a pathType, if it calls for one.
pub open spec fn plan_path_type(p: PlanView, path: HTTPIngressPath) -> PlanView {
    if path.path_type@ == "Exact"@ || path.path_type@ == "Prefix"@ {
        p
    } else if path.path_type@ == "ImplementationSpecific"@ {
        p.warned(
            "Ingress path '"@ + path.path@
                + "' uses ImplementationSpecific pathType; defaulting to Prefix"@,
        )
    } else {
        p.warned(
            "Ingress path '"@ + path.path@ + "' has unknown pathType '"@ + path.path_type@
                + "'; defaulting to Prefix"@,
        )
    }
}

/// The backend of a path: its own, or the default one of the Ingress.
pub open spec fn path_backend(ingress: Ingress, path: HTTPIngressPath) -> Option<
    IngressServiceBackend,
> {
    match path.backend.service {
        Some(s) => Some(s),
        None => match ingress.spec.default_backend {
            Some(b) => b.service,
            None => None,
        },
    }
}

/// The numeric port of a backend, 80 where it gives none.
pub open spec fn service_port(s: IngressServiceBackend) -> u16 {
    match s.port {
        Some(p) => match p.number {
            Some(n) => n,
            None => 80,
        },
        None => 80,
    }
}

/// `p` with the warning on a named port, if the backend has one.
pub open spec fn plan_port_name(p: PlanView, ns: Seq<char>, s: IngressServiceBackend) -> PlanView {
    match s.port {
        Some(port) => match port.name {
            Some(name) => p.warned(
                "Ingress backend "@ + ns + "/"@ + s.name@ + " uses named port '"@ + name@
                    + "'; numeric port resolution not available without Service definition, using default 80"@,
            ),
            None => p,
        },
        None => p,
    }
}

/// `p` with the route of one path, and what it needs. A path without a
/// backend answers 503.
pub open spec fn plan_path(
    p: PlanView,
    ingress: Ingress,
    rule_idx: nat,
    path_idx: nat,
    endpoints: Map<Seq<char>, Vec<Endpoint>>,
) -> PlanView {
    let rule = ingress.spec.rules@[rule_idx as int];
    let path = rule.http@[path_idx as int];
    let name = ingress_route_name(ingress, rule_idx, path_idx);
    let ns = k8s_gateway::namespace_of(ingress.metadata.namespace);
    let q = plan_path_type(p, path);
    let (done, service, action) = match path_backend(ingress, path) {
        Some(s) => (
            k8s_gateway::plan_backend(
                plan_port_name(q, ns, s),
                name,
                ns,
                s.name@,
                service_port(s),
                endpoints,
            ),
            k8s_gateway::service_name(name, s.name@, service_port(s)),
            config::RouteActionView::Proxy { rewrite: None },
        ),
        None => (
            q.warned("route "@ + name + " has no backend"@),
            "none"@,
            config::RouteActionView::Respond { status: 503, body: None },
        ),
    };
    done.routed(
        config::RouteView {
            name,
            service,
            match_: config::RouteMatchView {
                path: config::PathMatchView {
                    kind: if path.path_type@ == "Exact"@ {
                        PathMatchKind::Exact
                    } else {
                        PathMatchKind::Prefix
                    },
                    value: path.path@,
                },
                host: text::opt_text(rule.host),
                headers: Map::empty(),
                query: seq![],
            },
            action,
            transforms: None,
        },
    )
}

/// `p` with the first `n` paths of a rule.
pub open spec fn plan_paths(
    p: PlanView,
    ingress: Ingress,
    rule_idx: nat,
    n: nat,
    endpoints: Map<Seq<char>, Vec<Endpoint>>,
) -> PlanView
    decreases n,
{
    if n == 0 {
        p
    } else {
        plan_path(
            plan_paths(p, ingress, rule_idx, (n - 1) as nat, endpoints),
            ingress,
            rule_idx,
            (n - 1) as nat,
            endpoints,
        )
    }
}

/// `p` with the first `n` rules of an Ingress.
pub open spec fn plan_ingress_rules(
    p: PlanView,
    ingress: Ingress,
    n: nat,
    endpoints: Map<Seq<char>, Vec<Endpoint>>,
) -> PlanView
    decreases n,
{
    if n == 0 {
        p
    } else {
        plan_paths(
            plan_ingress_rules(p, ingress, (n - 1) as nat, endpoints),
            ingress,
            (n - 1) as nat,
            ingress.spec.rules@[n - 1].http@.len(),
            endpoints,
        )
    }
}

/// `p` with the first `n` Ingresses: the annotations of each, and the rules
/// of those that belong to the class.
pub open spec fn plan_ingresses(
    p: PlanView,
    ingresses: Seq<Ingress>,
    class: Seq<char>,
    n: nat,
    endpoints: Map<Seq<char>, Vec<Endpoint>>,
) -> PlanView
    decreases n,
{
    if n == 0 {
        p
    } else {
        let i = ingresses[n - 1];
        let before = plan_annotations(
            plan_ingresses(p, ingresses, class, (n - 1) as nat, endpoints),
            i,
            i.metadata.annotations@.len(),
        );
        if in_class(i, class) {
            plan_ingress_rules(before, i, i.spec.rules@.len(), endpoints)
        } else {
            before
        }
    }
}

/// The listeners of an Ingress configuration: HTTP on port 80, and HTTPS on
/// port 443 where there is a certificate.
pub open spec fn ingress_listeners(certificates: Seq<config::TlsCertificateView>) -> Seq<
    config::ListenerView,
> {
    let http = config::ListenerView {
        name: "ingress-http"@,
        address: "0.0.0.0"@,
        port: 80,
        protocol: ListenerProtocol::Http,
        tls: None,
    };
    if certificates.len() == 0 {
        seq![http]
    } else {
        seq![
            http,
            config::ListenerView {
                name: "ingress-https"@,
                address: "0.0.0.0"@,
                port: 443,
                protocol: ListenerProtocol::Https,
                tls: Some(
                    config::ListenerTlsView {
                        mode: TlsMode::Terminate,
                        cert_file: Some(certificates[0].cert_file),
                        key_file: Some(certificates[0].key_file),
                        certificates,
                    },
                ),
            },
        ]
    }
}

/// The plan of a set of Ingresses.
pub open spec fn ingress_plan(
    ingresses: Seq<Ingress>,
    class: Seq<char>,
    endpoints: Map<Seq<char>, Vec<Endpoint>>,
) -> PlanView {
    plan_ingresses(
        PlanView { routes: seq![], services: seq![], upstreams: seq![], warnings: seq![] },
        ingresses,
        class,
        ingresses.len(),
        endpoints,
    )
}

/// The configuration of a set of Ingresses.
pub open spec fn ingress_translation(
    ingresses: Seq<Ingress>,
    class: Seq<char>,
    endpoints: Map<Seq<char>, Vec<Endpoint>>,
) -> TranslationView {
    let plan = ingress_plan(ingresses, class, endpoints);
    TranslationView {
        gateway: config::GatewayView {
            listeners: ingress_listeners(class_certificates(ingresses, class, ingresses.len())),
            routes: plan.routes,
            services: plan.services,
            upstreams: plan.upstreams,
            allow_empty_routes: false,
        },
        warnings: plan.warnings,
    }
}

fn add_path(
    plan: &mut Plan,
    ingress: &Ingress,
    rule_idx: usize,
    path_idx: usize,
    endpoints: &TextMap<Vec<Endpoint>>,
)
    requires
        rule_idx < ingress.spec.rules@.len(),
        path_idx < ingress.spec.rules@[rule_idx as int].http@.len(),
    ensures
        final(plan)@ == plan_path(
            old(plan)@,
            *ingress,
            rule_idx as nat,
            path_idx as nat,
            endpoints@,
        ),
{
    let rule = &ingress.spec.rules[rule_idx];
    let path = &rule.http[path_idx];
    let rule_text = decimal(rule_idx as u64);
    let path_text = decimal(path_idx as u64);
    let name = cat5(
        ingress.metadata.name.as_str(),
        "-rule-",
        rule_text.as_str(),
        "-path-",
        path_text.as_str(),
    );
    let ns = namespace_str(&ingress.metadata.namespace, "default");
    let kind = if same(path.path_type.as_str(), "Exact") {
        PathMatchKind::Exact
    } else if same(path.path_type.as_str(), "Prefix") {
        PathMatchKind::Prefix
    } else if same(path.path_type.as_str(), "ImplementationSpecific") {
        plan.warn(
            cat3(
                "Ingress path '",
                path.path.as_str(),
                "' uses ImplementationSpecific pathType; defaulting to Prefix",
            ),
        );
        PathMatchKind::Prefix
    } else {
        plan.warn(
            cat5(
                "Ingress path '",
                path.path.as_str(),
                "' has unknown pathType '",
                path.path_type.as_str(),
                "'; defaulting to Prefix",
            ),
        );
        PathMatchKind::Prefix
    };
    let match_ = RouteMatch {
        path: PathMatch { kind, value: path.path.clone() },
        host: clone_opt(&rule.host),
        headers: TextMap::new(),
        query: Vec::new(),
    };
    assert(config::text_values(match_.headers@) =~= Map::empty());
    assert(config::query_views(match_.query@) =~= seq![]);
    let backend = match &path.backend.service {
        Some(s) => Some(s),
        None => match &ingress.spec.default_backend {
            Some(b) => b.service.as_ref(),
            None => None,
        },
    };
    let (service, action) = match backend {
        Some(s) => {
            let mut port: u16 = 80;
            if let Some(p) = &s.port {
                if let Some(n) = p.number {
                    port = n;
                }
                if let Some(port_name) = &p.name {
                    plan.warn(
                        cat7(
                            "Ingress backend ",
                            ns,
                            "/",
                            s.name.as_str(),
                            " uses named port '",
                            port_name.as_str(),
                            "'; numeric port resolution not available without Service definition, using default 80",
                        ),
                    );
                }
            }
            let service = plan.add_backend(name.as_str(), ns, s.name.as_str(), port, endpoints);
            (service, RouteAction::Proxy { rewrite: None })
        },
        None => {
            plan.warn(cat3("route ", name.as_str(), " has no backend"));
            ("none".to_owned(), RouteAction::Respond { status: 503, body: None })
        },
    };
    plan.add_route(Route { name, service, match_, action, transforms: None });
}

fn add_ingress_rules(plan: &mut Plan, ingress: &Ingress, endpoints: &TextMap<Vec<Endpoint>>)
    ensures
        final(plan)@ == plan_ingress_rules(
            old(plan)@,
            *ingress,
            ingress.spec.rules@.len(),
            endpoints@,
        ),
{
    let mut i: usize = 0;
    while i < ingress.spec.rules.len()
        invariant
            i <= ingress.spec.rules.len(),
            plan@ == plan_ingress_rules(old(plan)@, *ingress, i as nat, endpoints@),
        decreases ingress.spec.rules.len() - i,
    {
        let count: usize = ingress.spec.rules[i].http.len();
        let ghost before = plan@;
        let mut j: usize = 0;
        while j < count
            invariant
                j <= count,
                i < ingress.spec.rules.len(),
                count == ingress.spec.rules@[i as int].http@.len(),
                plan@ == plan_paths(before, *ingress, i as nat, j as nat, endpoints@),
            decreases count - j,
        {
            add_path(plan, ingress, i, j, endpoints);
            j = j + 1;
        }
        i = i + 1;
    }
}

fn make_listeners(certificates: Vec<TlsCertificate>) -> (r: Vec<Listener>)
    ensures
        config::listener_views(r@) == ingress_listeners(certificate_views(certificates@)),
{
    let mut out: Vec<Listener> = Vec::new();
    out.push(
        Listener {
            name: "ingress-http".to_owned(),
            address: "0.0.0.0".to_owned(),
            port: 80,
            protocol: ListenerProtocol::Http,
            tls: None,
        },
    );
    let ghost wanted = ingress_listeners(certificate_views(certificates@));
    if certificates.len() > 0 {
        assert(certificate_views(certificates@)[0] == certificates@[0]@);
        let cert_file = Some(certificates[0].cert_file.clone());
        let key_file = Some(certificates[0].key_file.clone());
        out.push(
            Listener {
                name: "ingress-https".to_owned(),
                address: "0.0.0.0".to_owned(),
                port: 443,
                protocol: ListenerProtocol::Https,
                tls: Some(
                    ListenerTls { mode: TlsMode::Terminate, cert_file, key_file, certificates },
                ),
            },
        );
    }
    assert(config::listener_views(out@) =~= wanted);
    out
}

/// Translate Ingress resources into a gateway configuration.
///
/// `ingresses` are the Ingress resources. `ingress_class` is the configured
/// class name: only Ingresses with `spec.ingressClassName` matching this, or
/// with no class name when the class is the default, are translated.
/// `endpoints` holds, under `<namespace>/<service-name>:<port>`, the
/// endpoints of a Service port.
pub fn translate_ingress(
    ingresses: &Vec<Ingress>,
    ingress_class: &str,
    endpoints: &TextMap<Vec<Endpoint>>,
) -> (r: Result<TranslationResult, String>)
    ensures
        r is Ok,
        r->Ok_0@ == ingress_translation(ingresses@, ingress_class@, endpoints@),
        ingress_carried::serves_ingresses(
            r->Ok_0@.gateway,
            ingresses@,
            ingress_class@,
            endpoints@,
        ),
{
    let warnings: Vec<String> = Vec::new();
    assert(text::texts(warnings@) =~= seq![]);
    let mut plan = Plan::new(warnings);
    let ghost start = plan@;
    let mut certificates: Vec<TlsCertificate> = Vec::new();
    assert(certificate_views(certificates@) =~= seq![]);
    let mut i: usize = 0;
    while i < ingresses.len()
        invariant
            i <= ingresses.len(),
            plan@ == plan_ingresses(start, ingresses@, ingress_class@, i as nat, endpoints@),
            certificate_views(certificates@) == class_certificates(
                ingresses@,
                ingress_class@,
                i as nat,
            ),
        decreases ingresses.len() - i,
    {
        let ingress = &ingresses[i];
        add_annotations(&mut plan, ingress);
        if belongs(ingress, ingress_class) {
            add_certificates(&mut certificates, &ingress.spec.tls);
            add_ingress_rules(&mut plan, ingress, endpoints);
        }
        i = i + 1;
    }
    let listeners = make_listeners(certificates);
    proof {
        ingress_carried::law_translation_serves_the_ingresses(
            ingresses@,
            ingress_class@,
            endpoints@,
        );
    }
    Ok(
        TranslationResult {
            gateway: config::Gateway {
                listeners,
                routes: plan.routes,
                services: plan.services,
                upstreams: plan.upstreams,
                allow_empty_routes: false,
            },
            warnings: plan.warnings,
        },
    )
}

} // verus!
