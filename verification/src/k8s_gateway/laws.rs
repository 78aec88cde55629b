//! What holds of every translation.

use vstd::prelude::*;

use crate::config;
use crate::config::Endpoint;
use crate::k8s_gateway;
use crate::k8s_gateway::controller;
use crate::k8s_gateway::ingress;
use crate::k8s_gateway::ingress::Ingress;
use crate::k8s_gateway::{Gateway, HttpRoute, HttpRouteFilter, PlanView};

verus! {

// ---------------------------------------------------------------------------
// References resolve
// ---------------------------------------------------------------------------

/// Whether some service bears the name.
pub open spec fn has_service(services: Seq<config::ServiceView>, name: Seq<char>) -> bool {
    exists|i: int| 0 <= i < services.len() && (#[trigger] services[i]).name == name
}

/// Whether a route's service is as its action wants it: a route that proxies
/// names one of the services, and any other route names none.
pub open spec fn route_resolves(
    r: config::RouteView,
    services: Seq<config::ServiceView>,
) -> bool {
    if r.action is Proxy {
        has_service(services, r.service)
    } else {
        r.service == "none"@
    }
}

/// Whether every reference inside a configuration leads somewhere: each
/// service stands beside the upstream that it names, and each route resolves.
pub open spec fn resolves(
    routes: Seq<config::RouteView>,
    services: Seq<config::ServiceView>,
    upstreams: Seq<config::UpstreamView>,
) -> bool {
    &&& services.len() == upstreams.len()
    &&& forall|i: int|
        0 <= i < services.len() ==> (#[trigger] services[i]).upstream == Some(upstreams[i].name)
    &&& forall|i: int| 0 <= i < routes.len() ==> route_resolves(#[trigger] routes[i], services)
}

/// Whether every reference inside a plan leads somewhere.
pub open spec fn plan_resolves(p: PlanView) -> bool {
    resolves(p.routes, p.services, p.upstreams)
}

proof fn lemma_has_service_grows(
    a: Seq<config::ServiceView>,
    b: Seq<config::ServiceView>,
    name: Seq<char>,
)
    requires
        has_service(a, name) || has_service(b, name),
    ensures
        has_service(a + b, name),
{
    if has_service(a, name) {
        let i = choose|i: int| 0 <= i < a.len() && (#[trigger] a[i]).name == name;
        assert((a + b)[i].name == name);
    } else {
        let i = choose|i: int| 0 <= i < b.len() && (#[trigger] b[i]).name == name;
        assert((a + b)[a.len() + i].name == name);
    }
}

proof fn lemma_backend_resolves(
    p: PlanView,
    route: Seq<char>,
    ns: Seq<char>,
    backend: Seq<char>,
    port: u16,
    endpoints: Map<Seq<char>, Vec<Endpoint>>,
)
    requires
        plan_resolves(p),
    ensures
        plan_resolves(k8s_gateway::plan_backend(p, route, ns, backend, port, endpoints)),
        has_service(
            k8s_gateway::plan_backend(p, route, ns, backend, port, endpoints).services,
            k8s_gateway::service_name(route, backend, port),
        ),
{
    let q = k8s_gateway::plan_backend(p, route, ns, backend, port, endpoints);
    let n = p.services.len() as int;
    assert(q.services[n].name == k8s_gateway::service_name(route, backend, port));
    assert forall|i: int| 0 <= i < q.routes.len() implies route_resolves(
        #[trigger] q.routes[i],
        q.services,
    ) by {
        assert(route_resolves(p.routes[i], p.services));
        if q.routes[i].action is Proxy {
            lemma_has_service_grows(p.services, seq![q.services[n]], q.routes[i].service);
            assert(q.services =~= p.services + seq![q.services[n]]);
        }
    }
}

/// Filters give a redirect or no action.
proof fn lemma_filters_redirect(fs: Seq<HttpRouteFilter>, n: nat)
    requires
        n <= fs.len(),
    ensures
        match k8s_gateway::filters_effect(fs, n).action {
            Some(a) => a is Redirect,
            None => true,
        },
    decreases n,
{
    if n > 0 {
        lemma_filters_redirect(fs, (n - 1) as nat);
    }
}

proof fn lemma_match_resolves(
    p: PlanView,
    route: HttpRoute,
    rule_idx: nat,
    match_idx: nat,
    endpoints: Map<Seq<char>, Vec<Endpoint>>,
)
    requires
        plan_resolves(p),
    ensures
        plan_resolves(k8s_gateway::plan_match(p, route, rule_idx, match_idx, endpoints)),
        k8s_gateway::plan_match(p, route, rule_idx, match_idx, endpoints).routes.len()
            == p.routes.len() + 1,
{
    let rule = route.spec.rules@[rule_idx as int];
    let fs = rule.filters@;
    lemma_filters_redirect(fs, fs.len());
    let name = k8s_gateway::http_route_name(route, rule_idx, match_idx);
    let q = PlanView {
        warnings: k8s_gateway::warn_filters(
            k8s_gateway::warn_match(p.warnings, k8s_gateway::match_at(rule, match_idx)),
            fs,
            fs.len(),
        ),
        ..p
    };
    assert(plan_resolves(q));
    let e = k8s_gateway::filters_effect(fs, fs.len());
    if e.action is None && rule.backend_refs@.len() > 0 {
        let b = rule.backend_refs@[0];
        lemma_backend_resolves(
            q,
            name,
            k8s_gateway::backend_namespace(b, route),
            b.name@,
            k8s_gateway::backend_port(b),
            endpoints,
        );
    }
}

proof fn lemma_rule_resolves(
    p: PlanView,
    route: HttpRoute,
    rule_idx: nat,
    n: nat,
    endpoints: Map<Seq<char>, Vec<Endpoint>>,
)
    requires
        plan_resolves(p),
    ensures
        plan_resolves(k8s_gateway::plan_rule(p, route, rule_idx, n, endpoints)),
        k8s_gateway::plan_rule(p, route, rule_idx, n, endpoints).routes.len() == p.routes.len() + n,
    decreases n,
{
    if n > 0 {
        lemma_rule_resolves(p, route, rule_idx, (n - 1) as nat, endpoints);
        lemma_match_resolves(
            k8s_gateway::plan_rule(p, route, rule_idx, (n - 1) as nat, endpoints),
            route,
            rule_idx,
            (n - 1) as nat,
            endpoints,
        );
    }
}

/// How many matches the first `n` rules of a route come to, a rule without
/// matches counting as one.
pub open spec fn rule_matches(route: HttpRoute, n: nat) -> nat
    decreases n,
{
    if n == 0 {
        0
    } else {
        rule_matches(route, (n - 1) as nat) + k8s_gateway::match_count(route.spec.rules@[n - 1])
    }
}

/// How many matches those of the first `n` routes that attach to the Gateway
/// come to.
pub open spec fn attached_matches(gateway: Gateway, routes: Seq<HttpRoute>, n: nat) -> nat
    decreases n,
{
    if n == 0 {
        0
    } else {
        let before = attached_matches(gateway, routes, (n - 1) as nat);
        let r = routes[n - 1];
        if k8s_gateway::attaches(r, gateway.metadata.name@, gateway.metadata.namespace) {
            before + rule_matches(r, r.spec.rules@.len())
        } else {
            before
        }
    }
}

proof fn lemma_rules_resolve(
    p: PlanView,
    route: HttpRoute,
    n: nat,
    endpoints: Map<Seq<char>, Vec<Endpoint>>,
)
    requires
        plan_resolves(p),
    ensures
        plan_resolves(k8s_gateway::plan_rules(p, route, n, endpoints)),
        k8s_gateway::plan_rules(p, route, n, endpoints).routes.len() == p.routes.len()
            + rule_matches(route, n),
    decreases n,
{
    if n > 0 {
        lemma_rules_resolve(p, route, (n - 1) as nat, endpoints);
        lemma_rule_resolves(
            k8s_gateway::plan_rules(p, route, (n - 1) as nat, endpoints),
            route,
            (n - 1) as nat,
            k8s_gateway::match_count(route.spec.rules@[n - 1]),
            endpoints,
        );
    }
}

proof fn lemma_routes_resolve(
    p: PlanView,
    gateway: Gateway,
    routes: Seq<HttpRoute>,
    n: nat,
    endpoints: Map<Seq<char>, Vec<Endpoint>>,
)
    requires
        plan_resolves(p),
    ensures
        plan_resolves(k8s_gateway::plan_routes(p, gateway, routes, n, endpoints)),
        k8s_gateway::plan_routes(p, gateway, routes, n, endpoints).routes.len() == p.routes.len()
            + attached_matches(gateway, routes, n),
    decreases n,
{
    if n > 0 {
        lemma_routes_resolve(p, gateway, routes, (n - 1) as nat, endpoints);
        let before = k8s_gateway::plan_routes(p, gateway, routes, (n - 1) as nat, endpoints);
        let r = routes[n - 1];
        if k8s_gateway::attaches(r, gateway.metadata.name@, gateway.metadata.namespace) {
            lemma_rules_resolve(before, r, r.spec.rules@.len(), endpoints);
        }
    }
}

/// A translated Gateway is consistent: every route that proxies names a
/// service of the configuration, every service names an upstream of it, and
/// a route that does not proxy names no service. Each match of each rule of
/// each attached HTTPRoute gives exactly one route.
pub proof fn law_translation_resolves(
    gateway: Gateway,
    routes: Seq<HttpRoute>,
    endpoints: Map<Seq<char>, Vec<Endpoint>>,
)
    ensures
        ({
            let g = k8s_gateway::translation(gateway, routes, endpoints).gateway;
            &&& resolves(g.routes, g.services, g.upstreams)
            &&& g.routes.len() == attached_matches(gateway, routes, routes.len())
            &&& g.listeners.len() == gateway.spec.listeners@.len()
        }),
{
    let start = PlanView {
        routes: seq![],
        services: seq![],
        upstreams: seq![],
        warnings: k8s_gateway::warn_listeners(
            seq![],
            gateway.spec.listeners@,
            gateway.spec.listeners@.len(),
        ),
    };
    assert(plan_resolves(start));
    lemma_routes_resolve(start, gateway, routes, routes.len(), endpoints);
}

// ---------------------------------------------------------------------------
// Ingresses
// ---------------------------------------------------------------------------

proof fn lemma_annotations_only_warn(p: PlanView, i: Ingress, n: nat)
    ensures
        ({
            let q = ingress::plan_annotations(p, i, n);
            &&& q.routes == p.routes
            &&& q.services == p.services
            &&& q.upstreams == p.upstreams
        }),
    decreases n,
{
    if n > 0 {
        lemma_annotations_only_warn(p, i, (n - 1) as nat);
    }
}

proof fn lemma_path_resolves(
    p: PlanView,
    i: Ingress,
    rule_idx: nat,
    path_idx: nat,
    endpoints: Map<Seq<char>, Vec<Endpoint>>,
)
    requires
        plan_resolves(p),
    ensures
        plan_resolves(ingress::plan_path(p, i, rule_idx, path_idx, endpoints)),
        ingress::plan_path(p, i, rule_idx, path_idx, endpoints).routes.len() == p.routes.len() + 1,
{
    let path = i.spec.rules@[rule_idx as int].http@[path_idx as int];
    let name = ingress::ingress_route_name(i, rule_idx, path_idx);
    let ns = k8s_gateway::namespace_of(i.metadata.namespace);
    let q = ingress::plan_path_type(p, path);
    assert(plan_resolves(q));
    if let Some(s) = ingress::path_backend(i, path) {
        let q2 = ingress::plan_port_name(q, ns, s);
        assert(plan_resolves(q2));
        lemma_backend_resolves(q2, name, ns, s.name@, ingress::service_port(s), endpoints);
    }
}

proof fn lemma_paths_resolve(
    p: PlanView,
    i: Ingress,
    rule_idx: nat,
    n: nat,
    endpoints: Map<Seq<char>, Vec<Endpoint>>,
)
    requires
        plan_resolves(p),
    ensures
        plan_resolves(ingress::plan_paths(p, i, rule_idx, n, endpoints)),
        ingress::plan_paths(p, i, rule_idx, n, endpoints).routes.len() == p.routes.len() + n,
    decreases n,
{
    if n > 0 {
        lemma_paths_resolve(p, i, rule_idx, (n - 1) as nat, endpoints);
        lemma_path_resolves(
            ingress::plan_paths(p, i, rule_idx, (n - 1) as nat, endpoints),
            i,
            rule_idx,
            (n - 1) as nat,
            endpoints,
        );
    }
}

/// How many paths the first `n` rules of an Ingress hold.
pub open spec fn rule_paths(i: Ingress, n: nat) -> nat
    decreases n,
{
    if n == 0 {
        0
    } else {
        rule_paths(i, (n - 1) as nat) + i.spec.rules@[n - 1].http@.len()
    }
}

/// How many paths those of the first `n` Ingresses hold that belong to the
/// class.
pub open spec fn class_paths(ingresses: Seq<Ingress>, class: Seq<char>, n: nat) -> nat
    decreases n,
{
    if n == 0 {
        0
    } else {
        let before = class_paths(ingresses, class, (n - 1) as nat);
        let i = ingresses[n - 1];
        if ingress::in_class(i, class) {
            before + rule_paths(i, i.spec.rules@.len())
        } else {
            before
        }
    }
}

proof fn lemma_ingress_rules_resolve(
    p: PlanView,
    i: Ingress,
    n: nat,
    endpoints: Map<Seq<char>, Vec<Endpoint>>,
)
    requires
        plan_resolves(p),
    ensures
        plan_resolves(ingress::plan_ingress_rules(p, i, n, endpoints)),
        ingress::plan_ingress_rules(p, i, n, endpoints).routes.len() == p.routes.len() + rule_paths(
            i,
            n,
        ),
    decreases n,
{
    if n > 0 {
        lemma_ingress_rules_resolve(p, i, (n - 1) as nat, endpoints);
        lemma_paths_resolve(
            ingress::plan_ingress_rules(p, i, (n - 1) as nat, endpoints),
            i,
            (n - 1) as nat,
            i.spec.rules@[n - 1].http@.len(),
            endpoints,
        );
    }
}

proof fn lemma_ingresses_resolve(
    p: PlanView,
    ingresses: Seq<Ingress>,
    class: Seq<char>,
    n: nat,
    endpoints: Map<Seq<char>, Vec<Endpoint>>,
)
    requires
        plan_resolves(p),
    ensures
        plan_resolves(ingress::plan_ingresses(p, ingresses, class, n, endpoints)),
        ingress::plan_ingresses(p, ingresses, class, n, endpoints).routes.len() == p.routes.len()
            + class_paths(ingresses, class, n),
    decreases n,
{
    if n > 0 {
        lemma_ingresses_resolve(p, ingresses, class, (n - 1) as nat, endpoints);
        let before = ingress::plan_ingresses(p, ingresses, class, (n - 1) as nat, endpoints);
        let i = ingresses[n - 1];
        lemma_annotations_only_warn(before, i, i.metadata.annotations@.len());
        let warned = ingress::plan_annotations(before, i, i.metadata.annotations@.len());
        assert(plan_resolves(warned));
        if ingress::in_class(i, class) {
            lemma_ingress_rules_resolve(warned, i, i.spec.rules@.len(), endpoints);
        }
    }
}

/// A translated set of Ingresses is consistent in the same way, and gives
/// one route for each path of each Ingress of the class. It has an HTTPS
/// listener exactly where there is a certificate.
pub proof fn law_ingress_translation_resolves(
    ingresses: Seq<Ingress>,
    class: Seq<char>,
    endpoints: Map<Seq<char>, Vec<Endpoint>>,
)
    ensures
        ({
            let g = ingress::ingress_translation(ingresses, class, endpoints).gateway;
            &&& resolves(g.routes, g.services, g.upstreams)
            &&& g.routes.len() == class_paths(ingresses, class, ingresses.len())
            &&& g.listeners.len() == 2 <==> ingress::class_certificates(
                ingresses,
                class,
                ingresses.len(),
            ).len() > 0
        }),
{
    let start = PlanView { routes: seq![], services: seq![], upstreams: seq![], warnings: seq![] };
    assert(plan_resolves(start));
    lemma_ingresses_resolve(start, ingresses, class, ingresses.len(), endpoints);
}

/// An Ingress of another class adds nothing but the warnings on its
/// annotations.
pub proof fn law_other_class_only_warns(
    ingresses: Seq<Ingress>,
    class: Seq<char>,
    endpoints: Map<Seq<char>, Vec<Endpoint>>,
    other: Ingress,
)
    requires
        !ingress::in_class(other, class),
    ensures
        ({
            let without = ingress::ingress_translation(ingresses, class, endpoints);
            let with = ingress::ingress_translation(ingresses.push(other), class, endpoints);
            &&& with.gateway == without.gateway
            &&& with.warnings == ingress::plan_annotations(
                ingress::ingress_plan(ingresses, class, endpoints),
                other,
                other.metadata.annotations@.len(),
            ).warnings
        }),
{
    let all = ingresses.push(other);
    let n = ingresses.len();
    let start = PlanView { routes: seq![], services: seq![], upstreams: seq![], warnings: seq![] };
    lemma_ingresses_prefix(start, ingresses, all, class, n, endpoints);
    lemma_annotations_only_warn(
        ingress::plan_ingresses(start, all, class, n, endpoints),
        other,
        other.metadata.annotations@.len(),
    );
}

proof fn lemma_ingresses_prefix(
    p: PlanView,
    a: Seq<Ingress>,
    b: Seq<Ingress>,
    class: Seq<char>,
    n: nat,
    endpoints: Map<Seq<char>, Vec<Endpoint>>,
)
    requires
        n <= a.len() <= b.len(),
        forall|i: int| 0 <= i < a.len() ==> a[i] == b[i],
    ensures
        ingress::plan_ingresses(p, a, class, n, endpoints) == ingress::plan_ingresses(
            p,
            b,
            class,
            n,
            endpoints,
        ),
        ingress::class_certificates(a, class, n) == ingress::class_certificates(b, class, n),
    decreases n,
{
    if n > 0 {
        lemma_ingresses_prefix(p, a, b, class, (n - 1) as nat, endpoints);
    }
}

// ---------------------------------------------------------------------------
// Reconciliation
// ---------------------------------------------------------------------------

proof fn lemma_resolves_joined(
    r1: Seq<config::RouteView>,
    s1: Seq<config::ServiceView>,
    u1: Seq<config::UpstreamView>,
    r2: Seq<config::RouteView>,
    s2: Seq<config::ServiceView>,
    u2: Seq<config::UpstreamView>,
)
    requires
        resolves(r1, s1, u1),
        resolves(r2, s2, u2),
    ensures
        resolves(r1 + r2, s1 + s2, u1 + u2),
{
    let s = s1 + s2;
    let u = u1 + u2;
    let r = r1 + r2;
    assert forall|i: int| 0 <= i < s.len() implies (#[trigger] s[i]).upstream == Some(u[i].name) by {
        if i < s1.len() {
            assert(s[i] == s1[i] && u[i] == u1[i]);
        } else {
            assert(s[i] == s2[i - s1.len()] && u[i] == u2[i - u1.len()]);
        }
    }
    assert forall|i: int| 0 <= i < r.len() implies route_resolves(#[trigger] r[i], s) by {
        if i < r1.len() {
            assert(r[i] == r1[i]);
        } else {
            assert(r[i] == r2[i - r1.len()]);
        }
        if r[i].action is Proxy {
            lemma_has_service_grows(s1, s2, r[i].service);
        }
    }
}

proof fn lemma_merged_resolves(w: controller::Watched, n: nat)
    requires
        n <= w.gateways.len(),
    ensures
        ({
            let m = controller::merged_gateways(w, n);
            resolves(m.routes, m.services, m.upstreams)
        }),
    decreases n,
{
    if n > 0 {
        lemma_merged_resolves(w, (n - 1) as nat);
        let m = controller::merged_gateways(w, (n - 1) as nat);
        let gw = w.gateways[n - 1];
        law_translation_resolves(gw, w.httproutes, w.endpoints);
        let g = k8s_gateway::translation(gw, w.httproutes, w.endpoints).gateway;
        lemma_resolves_joined(m.routes, m.services, m.upstreams, g.routes, g.services, g.upstreams);
    }
}

/// A reconciled configuration is consistent: every route that proxies names
/// a service of it, and every service an upstream of it.
pub proof fn law_reconciliation_resolves(w: controller::Watched)
    ensures
        ({
            let g = controller::reconciliation(w).config.gateway;
            resolves(g.routes, g.services, g.upstreams)
        }),
{
    lemma_merged_resolves(w, w.gateways.len());
    law_ingress_translation_resolves(w.ingresses, w.ingress_class, w.endpoints);
    let m = controller::merged_gateways(w, w.gateways.len());
    let g = ingress::ingress_translation(w.ingresses, w.ingress_class, w.endpoints).gateway;
    lemma_resolves_joined(m.routes, m.services, m.upstreams, g.routes, g.services, g.upstreams);
}

proof fn lemma_merged_prefix(a: controller::Watched, b: controller::Watched, n: nat)
    requires
        n <= a.gateways.len() <= b.gateways.len(),
        forall|i: int| 0 <= i < a.gateways.len() ==> a.gateways[i] == b.gateways[i],
        b == (controller::Watched { gateways: b.gateways, ..a }),
    ensures
        controller::merged_gateways(a, n) == controller::merged_gateways(b, n),
    decreases n,
{
    if n > 0 {
        lemma_merged_prefix(a, b, (n - 1) as nat);
        assert(controller::is_ours(a, a.gateways[n - 1]) == controller::is_ours(
            b,
            b.gateways[n - 1],
        ));
    }
}

/// A Gateway of a class that the controller does not accept adds nothing to
/// the configuration, and is told so in its status.
pub proof fn law_foreign_gateway_is_left_out(w: controller::Watched, gw: Gateway)
    requires
        !controller::is_ours(w, gw),
    ensures
        ({
            let with = controller::Watched { gateways: w.gateways.push(gw), ..w };
            let r = controller::reconciliation(with);
            let key = controller::object_key(gw.metadata.namespace, gw.metadata.name@);
            &&& r.config == controller::reconciliation(w).config
            &&& r.gateway_statuses.dom().contains(key)
            &&& r.gateway_statuses[key].len() == 1
            &&& r.gateway_statuses[key][0].type_ == "Accepted"@
            &&& r.gateway_statuses[key][0].status == "False"@
            &&& r.gateway_statuses[key][0].reason == "InvalidGatewayClass"@
        }),
{
    let with = controller::Watched { gateways: w.gateways.push(gw), ..w };
    lemma_merged_prefix(w, with, w.gateways.len());
    assert(!controller::is_ours(with, gw));
    assert(controller::merged_gateways(with, with.gateways.len())
        == controller::merged_gateways(w, w.gateways.len()));
}

proof fn lemma_route_status_present(w: controller::Watched, n: nat, i: int)
    requires
        n <= w.httproutes.len(),
        0 <= i < n,
    ensures
        controller::route_statuses(w, n).dom().contains(
            controller::object_key(
                w.httproutes[i].metadata.namespace,
                w.httproutes[i].metadata.name@,
            ),
        ),
    decreases n,
{
    if i < n - 1 {
        lemma_route_status_present(w, (n - 1) as nat, i);
    }
}

proof fn lemma_gateway_status_present(w: controller::Watched, n: nat, i: int)
    requires
        n <= w.gateways.len(),
        0 <= i < n,
    ensures
        controller::gateway_statuses(w, n).dom().contains(
            controller::object_key(
                w.gateways[i].metadata.namespace,
                w.gateways[i].metadata.name@,
            ),
        ),
    decreases n,
{
    if i < n - 1 {
        lemma_gateway_status_present(w, (n - 1) as nat, i);
    }
}

proof fn lemma_class_status_present(w: controller::Watched, n: nat, i: int)
    requires
        n <= w.gateway_classes.len(),
        0 <= i < n,
    ensures
        w.gateway_classes[i].spec.controller@ == w.controller_name
            ==> controller::accepted_statuses(
            w.gateway_classes,
            w.controller_name,
            n,
        ).dom().contains(w.gateway_classes[i].metadata.name@),
        forall|m: Map<Seq<char>, Seq<controller::ConditionView>>|
            w.gateway_classes[i].spec.controller@ != w.controller_name || m.dom().contains(
                w.gateway_classes[i].metadata.name@,
            ) ==> (#[trigger] controller::rejected_statuses(
                m,
                w.gateway_classes,
                w.controller_name,
                n,
            )).dom().contains(w.gateway_classes[i].metadata.name@),
    decreases n,
{
    if i < n - 1 {
        lemma_class_status_present(w, (n - 1) as nat, i);
        assert forall|m: Map<Seq<char>, Seq<controller::ConditionView>>|
            w.gateway_classes[i].spec.controller@ != w.controller_name || m.dom().contains(
                w.gateway_classes[i].metadata.name@,
            ) implies (#[trigger] controller::rejected_statuses(
            m,
            w.gateway_classes,
            w.controller_name,
            n,
        )).dom().contains(w.gateway_classes[i].metadata.name@) by {
            assert(controller::rejected_statuses(
                m,
                w.gateway_classes,
                w.controller_name,
                (n - 1) as nat,
            ).dom().contains(w.gateway_classes[i].metadata.name@));
        }
    } else {
        assert forall|m: Map<Seq<char>, Seq<controller::ConditionView>>|
            w.gateway_classes[i].spec.controller@ != w.controller_name || m.dom().contains(
                w.gateway_classes[i].metadata.name@,
            ) implies (#[trigger] controller::rejected_statuses(
            m,
            w.gateway_classes,
            w.controller_name,
            n,
        )).dom().contains(w.gateway_classes[i].metadata.name@) by {
            if w.gateway_classes[i].spec.controller@ == w.controller_name {
                lemma_rejected_keeps(
                    m,
                    w,
                    (n - 1) as nat,
                    w.gateway_classes[i].metadata.name@,
                );
            }
        }
    }
}

proof fn lemma_rejected_keeps(
    m: Map<Seq<char>, Seq<controller::ConditionView>>,
    w: controller::Watched,
    n: nat,
    name: Seq<char>,
)
    requires
        m.dom().contains(name),
    ensures
        controller::rejected_statuses(
            m,
            w.gateway_classes,
            w.controller_name,
            n,
        ).dom().contains(name),
    decreases n,
{
    if n > 0 {
        lemma_rejected_keeps(m, w, (n - 1) as nat, name);
    }
}

/// Every watched GatewayClass, Gateway and HTTPRoute gets a status.
pub proof fn law_every_resource_has_a_status(w: controller::Watched)
    ensures
        ({
            let r = controller::reconciliation(w);
            &&& forall|i: int|
                0 <= i < w.gateway_classes.len() ==> r.gateway_class_statuses.dom().contains(
                    (#[trigger] w.gateway_classes[i]).metadata.name@,
                )
            &&& forall|i: int|
                0 <= i < w.gateways.len() ==> r.gateway_statuses.dom().contains(
                    controller::object_key(
                        (#[trigger] w.gateways[i]).metadata.namespace,
                        w.gateways[i].metadata.name@,
                    ),
                )
            &&& forall|i: int|
                0 <= i < w.httproutes.len() ==> r.httproute_statuses.dom().contains(
                    controller::object_key(
                        (#[trigger] w.httproutes[i]).metadata.namespace,
                        w.httproutes[i].metadata.name@,
                    ),
                )
        }),
{
    let r = controller::reconciliation(w);
    assert forall|i: int|
        0 <= i < w.gateway_classes.len() implies r.gateway_class_statuses.dom().contains(
        (#[trigger] w.gateway_classes[i]).metadata.name@,
    ) by {
        lemma_class_status_present(w, w.gateway_classes.len(), i);
    }
    assert forall|i: int| 0 <= i < w.gateways.len() implies r.gateway_statuses.dom().contains(
        controller::object_key(
            (#[trigger] w.gateways[i]).metadata.namespace,
            w.gateways[i].metadata.name@,
        ),
    ) by {
        lemma_gateway_status_present(w, w.gateways.len(), i);
    }
    assert forall|i: int| 0 <= i < w.httproutes.len() implies r.httproute_statuses.dom().contains(
        controller::object_key(
            (#[trigger] w.httproutes[i]).metadata.namespace,
            w.httproutes[i].metadata.name@,
        ),
    ) by {
        lemma_route_status_present(w, w.httproutes.len(), i);
    }
}

/// Whether a filter, after what came before it, asks for something that has
/// no equivalent: an extension, the port of a redirect, or the hostname of a
/// rewrite that no redirect stands in front of.
pub open spec fn has_unsupported_part(e: k8s_gateway::FilterEffect, f: HttpRouteFilter) -> bool {
    match f {
        HttpRouteFilter::RequestRedirect { scheme, hostname, path, port, status_code } => port is Some,
        HttpRouteFilter::UrlRewrite { hostname, path } => hostname is Some && e.action is None,
        HttpRouteFilter::ExtensionRef { group, kind, name } => true,
        _ => false,
    }
}

/// How many of the first `n` filters ask for something that has no
/// equivalent.
pub open spec fn unsupported_parts(fs: Seq<HttpRouteFilter>, n: nat) -> nat
    decreases n,
{
    if n == 0 {
        0
    } else {
        let m = (n - 1) as nat;
        unsupported_parts(fs, m) + if has_unsupported_part(
            k8s_gateway::filters_effect(fs, m),
            fs[n - 1],
        ) {
            1nat
        } else {
            0
        }
    }
}

/// Nothing that the filters of a rule ask for is dropped silently: each part
/// without an equivalent adds one warning, and nothing else adds any.
pub proof fn law_no_filter_is_dropped_silently(
    w: Seq<Seq<char>>,
    fs: Seq<HttpRouteFilter>,
    n: nat,
)
    ensures
        w.is_prefix_of(k8s_gateway::warn_filters(w, fs, n)),
        k8s_gateway::warn_filters(w, fs, n).len() == w.len() + unsupported_parts(fs, n),
    decreases n,
{
    if n > 0 {
        let m = (n - 1) as nat;
        law_no_filter_is_dropped_silently(w, fs, m);
        let before = k8s_gateway::warn_filters(w, fs, m);
        let after = k8s_gateway::warn_filters(w, fs, n);
        assert(before.is_prefix_of(after));
        assert(w =~= after.subrange(0, w.len() as int));
    }
}

} // verus!
