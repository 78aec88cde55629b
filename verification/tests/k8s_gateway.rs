//! The Gateway API and Ingress translators and the reconciler.

use dwara_core::config::{
    Endpoint, ListenerProtocol, PathMatchKind, PathRewrite, RouteAction, TlsMode,
};
use dwara_core::k8s_gateway::controller::{Controller, ControllerConfig, Reconciler};
use dwara_core::k8s_gateway::ingress::{
    translate_ingress, HTTPIngressPath, Ingress, IngressBackend, IngressObjectMeta, IngressRule,
    IngressServiceBackend, IngressSpec, IngressTls, ServiceBackendPort,
};
use dwara_core::k8s_gateway::{
    endpoint_key, route_attaches_to, skipped_features, supported_features, translate,
    translate_filters, translate_listener_tls, translate_match, Gateway, GatewayClass,
    GatewayClassSpec, GatewayListener, GatewaySpec, HttpBackendRef, HttpHeaderFilter,
    HttpHeaderMatch, HttpPathMatch, HttpQueryParamMatch, HttpRoute, HttpRouteFilter,
    HttpRouteMatch, HttpRouteRule, HttpRouteSpec, ListenerTlsConfig, ObjectMeta, ParentReference,
    SecretObjectReference, UrlRewritePath, CONTROLLER_NAME,
};
use dwara_core::text_map::TextMap;

fn s(text: &str) -> String {
    text.to_string()
}

fn meta(name: &str, namespace: Option<&str>) -> ObjectMeta {
    ObjectMeta { name: s(name), namespace: namespace.map(s) }
}

fn class(name: &str, controller: &str) -> GatewayClass {
    GatewayClass {
        api_version: s("gateway.networking.k8s.io/v1"),
        kind: s("GatewayClass"),
        metadata: meta(name, None),
        spec: GatewayClassSpec { controller: s(controller) },
    }
}

fn listener(name: &str, port: u16, protocol: &str, tls: Option<ListenerTlsConfig>) -> GatewayListener {
    GatewayListener { name: s(name), port, protocol: s(protocol), hostname: None, tls }
}

fn gateway(name: &str, namespace: Option<&str>, class: &str, listeners: Vec<GatewayListener>) -> Gateway {
    Gateway {
        api_version: s("gateway.networking.k8s.io/v1"),
        kind: s("Gateway"),
        metadata: meta(name, namespace),
        spec: GatewaySpec { gateway_class_name: s(class), listeners },
    }
}

fn backend(name: &str, port: Option<u16>) -> HttpBackendRef {
    HttpBackendRef { kind: s("Service"), name: s(name), namespace: None, port, weight: 1 }
}

fn path_match(kind: &str, value: &str) -> HttpRouteMatch {
    HttpRouteMatch {
        path: Some(HttpPathMatch { match_type: s(kind), value: s(value) }),
        headers: vec![],
        query_params: vec![],
    }
}

fn parent(name: &str, namespace: Option<&str>) -> ParentReference {
    ParentReference { kind: s("Gateway"), name: s(name), namespace: namespace.map(s), section_name: None }
}

fn route(name: &str, namespace: Option<&str>, parents: Vec<ParentReference>, rules: Vec<HttpRouteRule>) -> HttpRoute {
    HttpRoute {
        api_version: s("gateway.networking.k8s.io/v1"),
        kind: s("HTTPRoute"),
        metadata: meta(name, namespace),
        spec: HttpRouteSpec { parent_refs: parents, hostnames: vec![s("api.example.com"), s("b.example.com")], rules },
    }
}

fn rule(matches: Vec<HttpRouteMatch>, filters: Vec<HttpRouteFilter>, backends: Vec<HttpBackendRef>) -> HttpRouteRule {
    HttpRouteRule { matches, filters, backend_refs: backends }
}

fn endpoints(entries: &[(&str, &str, u16)]) -> TextMap<Vec<Endpoint>> {
    let mut map = TextMap::new();
    for (key, address, port) in entries {
        map.insert(s(key), vec![Endpoint { address: s(address), port: *port }]);
    }
    map
}

#[test]
fn listeners_keep_name_port_and_protocol() {
    let gw = gateway(
        "gw",
        None,
        "dwara",
        vec![listener("web", 80, "HTTP", None), listener("secure", 443, "TLS", None), listener("odd", 9, "UDP", None)],
    );
    let result = translate(&gw, &vec![], &TextMap::new()).unwrap();
    let found: Vec<(&str, &str, u16, ListenerProtocol)> = result
        .gateway
        .listeners
        .iter()
        .map(|l| (l.name.as_str(), l.address.as_str(), l.port, l.protocol))
        .collect();
    assert_eq!(
        found,
        vec![
            ("web", "0.0.0.0", 80, ListenerProtocol::Http),
            ("secure", "0.0.0.0", 443, ListenerProtocol::Https),
            ("odd", "0.0.0.0", 9, ListenerProtocol::Http),
        ]
    );
    assert_eq!(result.warnings, vec![s("listener odd has unknown protocol 'UDP', defaulting to HTTP")]);
    assert!(!result.gateway.allow_empty_routes);
}

#[test]
fn tls_modes_and_certificates() {
    let secret = |name: &str, ns: Option<&str>| SecretObjectReference {
        kind: s("Secret"),
        name: s(name),
        namespace: ns.map(s),
    };
    let with_mode = |mode: &str| GatewayListener {
        name: s("l"),
        port: 443,
        protocol: s("HTTPS"),
        hostname: Some(s("api.example.com")),
        tls: Some(ListenerTlsConfig {
            mode: s(mode),
            certificate_refs: vec![secret("own", None), secret("far", Some("certs"))],
            frontend_validation: None,
        }),
    };
    let mut warnings = vec![];
    let tls = translate_listener_tls(&with_mode("Terminate"), "prod", &mut warnings).unwrap();
    assert_eq!(tls.mode, TlsMode::Terminate);
    assert_eq!(tls.cert_file, Some(s("k8s-secret:prod/own")));
    assert_eq!(tls.key_file, Some(s("k8s-secret:prod/own")));
    assert_eq!(tls.certificates.len(), 2);
    assert_eq!(tls.certificates[1].cert_file, "k8s-secret:certs/far");
    assert_eq!(tls.certificates[1].server_names, vec![s("api.example.com")]);
    assert!(warnings.is_empty());

    let tls = translate_listener_tls(&with_mode("Passthrough"), "prod", &mut warnings).unwrap();
    assert_eq!(tls.mode, TlsMode::Passthrough);
    assert!(warnings.is_empty());

    translate_listener_tls(&with_mode("Reencrypt"), "prod", &mut warnings).unwrap();
    let tls = translate_listener_tls(&with_mode("Odd"), "prod", &mut warnings).unwrap();
    assert_eq!(tls.mode, TlsMode::Terminate);
    assert_eq!(
        warnings,
        vec![
            s("listener l uses Reencrypt TLS; mapped to Terminate (backend TLS not yet wired)"),
            s("listener l has unknown TLS mode 'Odd', defaulting to Terminate"),
        ]
    );
    assert!(translate_listener_tls(&listener("plain", 80, "HTTP", None), "prod", &mut warnings).is_none());
}

#[test]
fn paths_headers_and_query_parameters_are_matched() {
    let mut warnings = vec![];
    let host = s("h");
    let any = translate_match(None, Some(&host), &mut warnings);
    assert_eq!(any.path.kind, PathMatchKind::Prefix);
    assert_eq!(any.path.value, "/");
    assert_eq!(any.host, Some(s("h")));

    for (kind, expected) in [
        ("Exact", PathMatchKind::Exact),
        ("PathPrefix", PathMatchKind::Prefix),
        ("", PathMatchKind::Prefix),
        ("RegularExpression", PathMatchKind::Regex),
        ("Other", PathMatchKind::Prefix),
    ] {
        let m = translate_match(Some(&path_match(kind, "/v1")), None, &mut warnings);
        assert_eq!(m.path.kind, expected);
        assert_eq!(m.path.value, "/v1");
        assert_eq!(m.host, None);
    }
    assert!(warnings.is_empty());

    let header = |kind: &str, name: &str, value: &str| HttpHeaderMatch {
        match_type: s(kind),
        name: s(name),
        value: s(value),
    };
    let query = |kind: &str, name: &str, value: &str| HttpQueryParamMatch {
        match_type: s(kind),
        name: s(name),
        value: s(value),
    };
    let m = HttpRouteMatch {
        path: None,
        headers: vec![
            header("Exact", "x-a", "1"),
            header("", "x-b", "2"),
            header("Exact", "x-a", "3"),
            header("RegularExpression", "x-c", ".*"),
            header("Odd", "x-d", "4"),
        ],
        query_params: vec![
            query("Exact", "q", "1"),
            query("RegularExpression", "r", ".*"),
            query("Odd", "t", "2"),
        ],
    };
    let found = translate_match(Some(&m), None, &mut warnings);
    assert_eq!(found.headers.len(), 2);
    assert_eq!(found.headers.get("x-a"), Some(&s("3")));
    assert_eq!(found.headers.get("x-b"), Some(&s("2")));
    assert_eq!(found.query.len(), 1);
    assert_eq!(found.query[0].name, "q");
    assert_eq!(found.query[0].value, Some(s("1")));
    assert_eq!(
        warnings,
        vec![
            s("RegularExpression header match on 'x-c' is not natively supported; header match dropped"),
            s("unknown header match type 'Odd' on 'x-d'; header match dropped"),
            s("RegularExpression query param match on 'r' is not natively supported; query match dropped"),
            s("unknown query param match type 'Odd' on 't'; query match dropped"),
        ]
    );
}

#[test]
fn filters_become_action_rewrite_and_transforms() {
    let h = |name: &str, value: &str| HttpHeaderFilter { name: s(name), value: s(value) };
    let mut warnings = vec![];
    let (action, rewrite, transforms) = translate_filters(
        &vec![
            HttpRouteFilter::RequestHeaderModifier {
                add: vec![h("x-add", "1")],
                set: vec![h("x-set", "2")],
                remove: vec![s("x-gone")],
            },
            HttpRouteFilter::RequestHeaderModifier { add: vec![], set: vec![h("x-set", "9")], remove: vec![s("x-also")] },
            HttpRouteFilter::UrlRewrite {
                hostname: None,
                path: Some(UrlRewritePath::ReplacePrefixMatch { replace_prefix_match: s("/v2") }),
            },
            HttpRouteFilter::UrlRewrite { hostname: Some(s("other")), path: None },
            HttpRouteFilter::ExtensionRef { group: s("g"), kind: s("k"), name: None },
        ],
        &mut warnings,
    );
    assert!(action.is_none());
    match rewrite {
        Some(PathRewrite::ReplacePrefix { prefix, replacement }) => {
            assert_eq!(prefix, "/");
            assert_eq!(replacement, "/v2");
        }
        None => panic!("no rewrite"),
    }
    let transforms = transforms.unwrap();
    assert!(transforms.response.is_none());
    let ops = transforms.request.unwrap().headers.unwrap();
    assert_eq!(ops.set.get("x-set"), Some(&s("9")));
    assert_eq!(ops.add.get("x-add"), Some(&s("1")));
    assert_eq!(ops.remove, vec![s("x-gone"), s("x-also")]);
    assert_eq!(
        warnings,
        vec![
            s("URLRewrite hostname filter is not natively supported on the upstream path; hostname rewrite dropped"),
            s("extension filter g/k is not supported; filter dropped"),
        ]
    );

    let mut warnings = vec![];
    let (action, rewrite, transforms) = translate_filters(
        &vec![
            HttpRouteFilter::RequestRedirect {
                scheme: Some(s("https")),
                hostname: None,
                path: Some(s("/new")),
                port: Some(8443),
                status_code: 301,
            },
            HttpRouteFilter::UrlRewrite {
                hostname: None,
                path: Some(UrlRewritePath::ReplaceFullPath { replace_full_path: s("/x") }),
            },
            HttpRouteFilter::ResponseHeaderModifier { add: vec![], set: vec![], remove: vec![s("server")] },
        ],
        &mut warnings,
    );
    match action {
        Some(RouteAction::Redirect { scheme, host, path, status }) => {
            assert_eq!((scheme, host, path, status), (Some(s("https")), None, Some(s("/new")), 301));
        }
        _ => panic!("no redirect"),
    }
    assert!(rewrite.is_none());
    let transforms = transforms.unwrap();
    assert!(transforms.request.is_none());
    assert_eq!(transforms.response.unwrap().headers.unwrap().remove, vec![s("server")]);
    assert_eq!(
        warnings,
        vec![s("RequestRedirect port 8443 is not natively supported; port dropped")]
    );
}

#[test]
fn a_hostname_rewrite_is_never_dropped_silently() {
    let mut warnings = Vec::new();
    let (action, rewrite, transforms) = translate_filters(
        &vec![HttpRouteFilter::UrlRewrite {
            hostname: Some(s("h")),
            path: Some(UrlRewritePath::ReplacePrefixMatch { replace_prefix_match: s("/new") }),
        }],
        &mut warnings,
    );
    assert!(action.is_none() && transforms.is_none());
    match rewrite {
        Some(PathRewrite::ReplacePrefix { prefix, replacement }) => {
            assert_eq!((prefix.as_str(), replacement.as_str()), ("/", "/new"));
        }
        _ => panic!("the path is rewritten"),
    }
    assert_eq!(
        warnings,
        vec![s("URLRewrite hostname filter is not natively supported on the upstream path; \
                hostname rewrite dropped")]
    );
}

#[test]
fn a_route_is_translated_with_its_service_and_upstream() {
    let gw = gateway("gw", Some("prod"), "dwara", vec![listener("web", 80, "HTTP", None)]);
    let r = route(
        "orders",
        Some("prod"),
        vec![parent("gw", None)],
        vec![
            rule(vec![path_match("Exact", "/orders")], vec![], vec![backend("orders", Some(8080)), backend("spare", None)]),
            rule(vec![path_match("Exact", "/a"), path_match("PathPrefix", "/b")], vec![], vec![]),
            rule(vec![], vec![], vec![backend("missing", None)]),
        ],
    );
    let eps = endpoints(&[("prod/orders:8080", "10.0.0.1", 8080)]);
    let result = translate(&gw, &vec![r], &eps).unwrap();
    let g = &result.gateway;
    let names: Vec<&str> = g.routes.iter().map(|r| r.name.as_str()).collect();
    assert_eq!(
        names,
        vec!["orders-rule-0", "orders-rule-1-match-0", "orders-rule-1-match-1", "orders-rule-2"]
    );
    assert_eq!(g.routes[0].service, "orders-rule-0-svc-orders-8080");
    assert_eq!(g.routes[0].match_.host, Some(s("api.example.com")));
    assert!(matches!(g.routes[0].action, RouteAction::Proxy { rewrite: None }));
    assert_eq!(g.services[0].name, "orders-rule-0-svc-orders-8080");
    assert_eq!(g.services[0].upstream, Some(s("orders-rule-0-orders-8080")));
    assert_eq!(g.upstreams[0].name, "orders-rule-0-orders-8080");
    assert_eq!(g.upstreams[0].endpoints, vec![Endpoint { address: s("10.0.0.1"), port: 8080 }]);
    assert_eq!(g.routes[1].service, "none");
    assert!(matches!(g.routes[1].action, RouteAction::Respond { status: 503, body: None }));
    assert_eq!(g.routes[3].service, "orders-rule-2-svc-missing-80");
    assert!(g.upstreams[1].endpoints.is_empty());
    assert_eq!(g.services.len(), 2);
    assert_eq!(
        result.warnings,
        vec![
            s("route orders-rule-1-match-0 has no backends"),
            s("route orders-rule-1-match-1 has no backends"),
            s("no endpoints found for backend prod/missing:80 (route orders-rule-2)"),
        ]
    );
    assert_eq!(endpoint_key("prod", "orders", 8080), "prod/orders:8080");
}

#[test]
fn routes_attach_by_name_kind_and_namespace() {
    let free = route("r", None, vec![], vec![]);
    assert!(route_attaches_to(&free, "gw", &None));
    let named = route("r", Some("prod"), vec![parent("gw", None)], vec![]);
    assert!(route_attaches_to(&named, "gw", &Some(s("prod"))));
    assert!(!route_attaches_to(&named, "gw", &None));
    assert!(!route_attaches_to(&named, "other", &Some(s("prod"))));
    let across = route("r", Some("prod"), vec![parent("gw", Some("infra"))], vec![]);
    assert!(route_attaches_to(&across, "gw", &Some(s("infra"))));
    assert!(!route_attaches_to(&across, "gw", &Some(s("prod"))));
    let mut service = parent("gw", None);
    service.kind = s("Service");
    assert!(!route_attaches_to(&route("r", None, vec![service], vec![]), "gw", &None));

    let gw = gateway("gw", None, "dwara", vec![]);
    let result = translate(&gw, &vec![named], &TextMap::new()).unwrap();
    assert!(result.gateway.routes.is_empty());
}

#[test]
fn features_are_listed() {
    let supported = supported_features();
    assert_eq!(supported.len(), 36);
    assert_eq!((supported[0], supported[35]), ("Gateway", "IngressClass"));
    let skipped = skipped_features();
    assert_eq!(skipped.len(), 8);
    assert_eq!((skipped[0], skipped[7]), ("GRPCRoute", "HTTPRouteWeightedBackend"));
    assert_eq!((supported[6], supported[12]), ("HTTPRouteHostRewrite", "HTTPRouteMethodMatching"));
    assert!(skipped.contains(&"TLSRoute"));
    assert!(skipped.iter().all(|f| !supported.contains(f)));
}

fn service_backend(name: &str, port: Option<ServiceBackendPort>) -> IngressBackend {
    IngressBackend { service: Some(IngressServiceBackend { name: s(name), port }) }
}

fn numbered(port: u16) -> Option<ServiceBackendPort> {
    Some(ServiceBackendPort { name: None, number: Some(port) })
}

fn ingress(name: &str, class: Option<&str>, paths: Vec<HTTPIngressPath>) -> Ingress {
    Ingress {
        api_version: s("networking.k8s.io/v1"),
        kind: s("Ingress"),
        metadata: IngressObjectMeta { name: s(name), namespace: Some(s("prod")), annotations: vec![] },
        spec: IngressSpec {
            ingress_class_name: class.map(s),
            rules: vec![IngressRule { host: Some(s("api.example.com")), http: paths }],
            tls: vec![],
            default_backend: None,
        },
    }
}

fn ingress_path(kind: &str, path: &str, backend: IngressBackend) -> HTTPIngressPath {
    HTTPIngressPath { path_type: s(kind), path: s(path), backend }
}

#[test]
fn an_ingress_is_translated() {
    let mut one = ingress(
        "shop",
        Some("dwara"),
        vec![
            ingress_path("Exact", "/a", service_backend("web", numbered(8080))),
            ingress_path("ImplementationSpecific", "/b", IngressBackend { service: None }),
            ingress_path("Odd", "/c", service_backend("api", Some(ServiceBackendPort { name: Some(s("http")), number: None }))),
        ],
    );
    one.spec.tls = vec![
        IngressTls { hosts: vec![s("a.example.com"), s("b.example.com")], secret_name: Some(s("cert")) },
        IngressTls { hosts: vec![], secret_name: Some(s("any")) },
        IngressTls { hosts: vec![s("c.example.com")], secret_name: None },
    ];
    one.metadata.annotations = vec![(s("nginx.org/x"), s("1")), (s("example.com/y"), s("2"))];
    let eps = endpoints(&[("prod/web:8080", "10.0.0.1", 8080)]);
    let result = translate_ingress(&vec![one], "dwara", &eps).unwrap();
    let g = &result.gateway;
    assert_eq!(g.listeners.len(), 2);
    assert_eq!((g.listeners[0].name.as_str(), g.listeners[0].port), ("ingress-http", 80));
    assert_eq!((g.listeners[1].name.as_str(), g.listeners[1].port), ("ingress-https", 443));
    let certificates = &g.listeners[1].tls.as_ref().unwrap().certificates;
    assert_eq!(certificates.len(), 3);
    assert_eq!(certificates[0].server_names, vec![s("a.example.com")]);
    assert!(certificates[2].server_names.is_empty());
    let kinds: Vec<PathMatchKind> = g.routes.iter().map(|r| r.match_.path.kind).collect();
    assert_eq!(kinds, vec![PathMatchKind::Exact, PathMatchKind::Prefix, PathMatchKind::Prefix]);
    assert_eq!(g.routes[0].name, "shop-rule-0-path-0");
    assert_eq!(g.routes[0].service, "shop-rule-0-path-0-svc-web-8080");
    assert_eq!(g.routes[0].match_.host, Some(s("api.example.com")));
    assert_eq!(g.routes[1].service, "none");
    assert!(matches!(g.routes[1].action, RouteAction::Respond { status: 503, body: None }));
    assert_eq!(g.upstreams[0].endpoints, vec![Endpoint { address: s("10.0.0.1"), port: 8080 }]);
    assert_eq!(
        result.warnings,
        vec![
            s("Ingress prod/shop has unsupported annotation 'nginx.org/x'; ignored"),
            s("Ingress path '/b' uses ImplementationSpecific pathType; defaulting to Prefix"),
            s("route shop-rule-0-path-1 has no backend"),
            s("Ingress path '/c' has unknown pathType 'Odd'; defaulting to Prefix"),
            s("Ingress backend prod/api uses named port 'http'; numeric port resolution not available without Service definition, using default 80"),
            s("no endpoints found for backend prod/api:80 (route shop-rule-0-path-2)"),
        ]
    );
}

#[test]
fn an_ingress_falls_back_to_its_default_backend() {
    let mut one = ingress("shop", None, vec![ingress_path("Prefix", "/", IngressBackend { service: None })]);
    one.spec.default_backend = Some(service_backend("fallback", None));
    let eps = endpoints(&[("prod/fallback:80", "10.0.0.9", 80)]);
    let result = translate_ingress(&vec![one], "dwara", &eps).unwrap();
    assert!(result.warnings.is_empty());
    assert_eq!(result.gateway.routes[0].service, "shop-rule-0-path-0-svc-fallback-80");
    assert_eq!(result.gateway.listeners.len(), 1);
}

#[test]
fn only_ingresses_of_the_class_are_translated() {
    let path = || vec![ingress_path("Prefix", "/", service_backend("web", numbered(80)))];
    let mut other = ingress("other", Some("nginx"), path());
    other.metadata.annotations = vec![(s("haproxy.org/z"), s("1"))];
    let list = vec![ingress("own", Some("dwara"), path()), other, ingress("free", None, path())];
    let eps = endpoints(&[("prod/web:80", "10.0.0.1", 80)]);
    let result = translate_ingress(&list, "dwara", &eps).unwrap();
    let names: Vec<&str> = result.gateway.routes.iter().map(|r| r.name.as_str()).collect();
    assert_eq!(names, vec!["own-rule-0-path-0", "free-rule-0-path-0"]);
    assert_eq!(result.warnings, vec![s("Ingress prod/other has unsupported annotation 'haproxy.org/z'; ignored")]);

    let result = translate_ingress(&list, "nginx", &eps).unwrap();
    let names: Vec<&str> = result.gateway.routes.iter().map(|r| r.name.as_str()).collect();
    assert_eq!(names, vec!["other-rule-0-path-0"]);
}

#[test]
fn reconciliation_merges_and_reports() {
    let eps = endpoints(&[("default/web:80", "10.0.0.1", 80)]);
    let simple = |name: &str, parents: Vec<ParentReference>, target: &str| {
        route(name, None, parents, vec![rule(vec![], vec![], vec![backend(target, None)])])
    };
    let out = Reconciler::with_defaults()
        .with_gateway_classes(vec![class("ours", CONTROLLER_NAME), class("theirs", "example.com/other")])
        .with_gateways(vec![
            gateway("gw", None, "ours", vec![listener("web", 80, "HTTP", None)]),
            gateway("foreign", None, "theirs", vec![listener("far", 81, "HTTP", None)]),
        ])
        .with_httproutes(vec![
            simple("good", vec![parent("gw", None)], "web"),
            simple("lost", vec![parent("nowhere", None)], "gone"),
        ])
        .with_ingresses(vec![ingress("shop", None, vec![])])
        .with_ingress_classes(vec![])
        .with_endpoints(eps)
        .reconcile()
        .unwrap();

    let listeners: Vec<&str> = out.config.gateway.listeners.iter().map(|l| l.name.as_str()).collect();
    assert_eq!(listeners, vec!["web", "ingress-http"]);
    let routes: Vec<&str> = out.config.gateway.routes.iter().map(|r| r.name.as_str()).collect();
    assert_eq!(routes, vec!["good-rule-0"]);
    assert!(out.config.gateway.allow_empty_routes);

    let ours = &out.gateway_class_statuses.get("ours").unwrap().conditions[0];
    assert_eq!((ours.type_.as_str(), ours.status.as_str()), ("Accepted", "True"));
    assert_eq!(ours.message, "GatewayClass ours accepted by controller shristilabs.com/dwara");
    let theirs = &out.gateway_class_statuses.get("theirs").unwrap().conditions[0];
    assert_eq!((theirs.status.as_str(), theirs.reason.as_str()), ("False", "InvalidController"));
    assert_eq!(
        theirs.message,
        "GatewayClass theirs controller 'example.com/other' does not match 'shristilabs.com/dwara'"
    );

    let gw = &out.gateway_statuses.get("default/gw").unwrap().conditions;
    assert_eq!(gw.len(), 2);
    assert_eq!((gw[1].type_.as_str(), gw[1].status.as_str()), ("Programmed", "True"));
    let foreign = &out.gateway_statuses.get("default/foreign").unwrap().conditions;
    assert_eq!(foreign.len(), 1);
    assert_eq!(
        foreign[0].message,
        "Gateway references GatewayClass 'theirs' not controlled by shristilabs.com/dwara"
    );

    let good = &out.httproute_statuses.get("default/good").unwrap().conditions;
    assert_eq!((good[0].status.as_str(), good[1].status.as_str()), ("True", "True"));
    let lost = &out.httproute_statuses.get("default/lost").unwrap().conditions;
    assert_eq!((lost[0].reason.as_str(), lost[1].reason.as_str()), ("NoMatchingGateway", "BackendNotFound"));
    assert_eq!(out.httproute_statuses.len(), 2);
}

#[test]
fn watched_resources_are_replaced() {
    let mut reconciler = Reconciler::new("example.com/c", "dwara");
    reconciler.set_gateway_classes(vec![class("c", "example.com/c")]);
    reconciler.set_gateways(vec![gateway("gw", None, "c", vec![listener("web", 80, "HTTP", None)])]);
    reconciler.set_httproutes(vec![route("r", None, vec![], vec![rule(vec![], vec![], vec![backend("web", None)])])]);
    reconciler.set_ingresses(vec![]);
    reconciler.set_endpoints(endpoints(&[("default/web:80", "10.0.0.1", 80)]));
    let out = reconciler.reconcile().unwrap();
    assert_eq!(out.config.gateway.upstreams[0].endpoints[0].address, "10.0.0.1");
    reconciler.set_gateways(vec![]);
    let out = reconciler.reconcile().unwrap();
    assert!(out.config.gateway.routes.is_empty());
    assert_eq!(out.httproute_statuses.get("default/r").unwrap().conditions[0].status, "False");
}

#[test]
fn controller_starts_from_its_configuration() {
    let config = ControllerConfig::default();
    assert_eq!(config.controller_name, CONTROLLER_NAME);
    assert_eq!(config.ingress_class, "dwara");
    assert_eq!(config.output_config_path, "/etc/dwara/dwara.yaml");
    assert_eq!(config.namespace, "");
    let controller = Controller::new(config);
    assert_eq!(controller.config().ingress_class, "dwara");
    let out = controller.reconciler().reconcile().unwrap();
    assert_eq!(out.config.gateway.listeners.len(), 1);
}
