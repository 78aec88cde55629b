//! What a translation carries over from each Ingress.

use vstd::prelude::*;

use crate::config;
use crate::config::{Endpoint, ListenerProtocol, PathMatchKind, TlsMode};
use crate::k8s_gateway;
use crate::k8s_gateway::carried;
use crate::k8s_gateway::carried::{grows, is_served, record_key, same_opt};
use crate::k8s_gateway::ingress;
use crate::k8s_gateway::ingress::{HTTPIngressPath, Ingress, IngressServiceBackend, IngressTls};
use crate::k8s_gateway::PlanView;
use crate::text;

verus! {

// ---------------------------------------------------------------------------
// Routes
// ---------------------------------------------------------------------------

/// Whether an Ingress is of a class: by the name that it gives, or, where it
/// gives none, as one of the class `dwara`.
pub open spec fn is_of_class(i: Ingress, class: Seq<char>) -> bool {
    &&& i.spec.ingress_class_name is Some ==> i.spec.ingress_class_name->Some_0@ == class
    &&& i.spec.ingress_class_name is None ==> class == "dwara"@
}

/// Whether a path leads to a service: its own, or where it has none that of
/// the default backend.
pub open spec fn is_backend_of(s: IngressServiceBackend, i: Ingress, path: HTTPIngressPath) -> bool {
    if path.backend.service is Some {
        path.backend.service->Some_0 == s
    } else {
        i.spec.default_backend is Some && i.spec.default_backend->Some_0.service == Some(s)
    }
}

/// Whether a path has no backend at all.
pub open spec fn has_no_backend(i: Ingress, path: HTTPIngressPath) -> bool {
    path.backend.service is None && (i.spec.default_backend is None
        || i.spec.default_backend->Some_0.service is None)
}

/// The port number of a backend, 80 where it gives none.
pub open spec fn number_of(s: IngressServiceBackend) -> u16 {
    if s.port is Some && s.port->Some_0.number is Some {
        s.port->Some_0.number->Some_0
    } else {
        80
    }
}

/// The namespace of an Ingress, `default` where it gives none.
pub open spec fn own_namespace(i: Ingress) -> Seq<char> {
    if i.metadata.namespace is Some {
        i.metadata.namespace->Some_0@
    } else {
        "default"@
    }
}

/// Whether a route is that of one path of one rule of an Ingress: on the
/// rule's host and the path, to the endpoints of the path's backend.
pub open spec fn is_path_route(
    r: config::RouteView,
    services: Seq<config::ServiceView>,
    upstreams: Seq<config::UpstreamView>,
    i: Ingress,
    rule_idx: int,
    path_idx: int,
    endpoints: Map<Seq<char>, Vec<Endpoint>>,
) -> bool {
    let rule = i.spec.rules@[rule_idx];
    let path = rule.http@[path_idx];
    &&& r.name == i.metadata.name@ + "-rule-"@ + text::dec(rule_idx as nat) + "-path-"@ + text::dec(
        path_idx as nat,
    )
    &&& same_opt(rule.host, r.match_.host)
    &&& r.match_.path.value == path.path@
    &&& path.path_type@ == "Exact"@ ==> r.match_.path.kind == PathMatchKind::Exact
    &&& path.path_type@ != "Exact"@ ==> r.match_.path.kind == PathMatchKind::Prefix
    &&& r.match_.headers == Map::<Seq<char>, Seq<char>>::empty()
    &&& r.match_.query.len() == 0
    &&& r.transforms is None
    &&& forall|s: IngressServiceBackend| #[trigger]
        is_backend_of(s, i, path) ==> r.action is Proxy && r.action->rewrite is None && is_served(
            services,
            upstreams,
            r.service,
            endpoints,
            own_namespace(i),
            s.name@,
            number_of(s),
        )
    &&& has_no_backend(i, path) ==> r.action is Respond && r.action->Respond_status == 503
        && r.action->body is None
}

/// How many things a path asks for that are not carried over as they are: an
/// unknown way to match, a port by its name, a backend without endpoints on
/// record, or no backend at all.
pub open spec fn odd_parts(
    i: Ingress,
    path: HTTPIngressPath,
    endpoints: Map<Seq<char>, Vec<Endpoint>>,
) -> nat {
    (if path.path_type@ == "Exact"@ || path.path_type@ == "Prefix"@ {
        0nat
    } else {
        1
    }) + (if has_no_backend(i, path) {
        1nat
    } else {
        let s = if path.backend.service is Some {
            path.backend.service->Some_0
        } else {
            i.spec.default_backend->Some_0.service->Some_0
        };
        (if s.port is Some && s.port->Some_0.name is Some {
            1nat
        } else {
            0
        }) + (if endpoints.dom().contains(record_key(own_namespace(i), s.name@, number_of(s))) {
            0nat
        } else {
            1
        })
    })
}

proof fn lemma_warned(p: PlanView, w: Seq<char>)
    ensures
        grows(p, p.warned(w)),
        p.warned(w).warnings.len() == p.warnings.len() + 1,
{
    let q = p.warned(w);
    assert(p.routes =~= q.routes.subrange(0, p.routes.len() as int));
    assert(p.services =~= q.services.subrange(0, p.services.len() as int));
    assert(p.upstreams =~= q.upstreams.subrange(0, p.upstreams.len() as int));
    assert(p.warnings =~= q.warnings.subrange(0, p.warnings.len() as int));
}

proof fn lemma_routed(p: PlanView, r: config::RouteView)
    ensures
        grows(p, p.routed(r)),
{
    let q = p.routed(r);
    assert(p.routes =~= q.routes.subrange(0, p.routes.len() as int));
    assert(p.services =~= q.services.subrange(0, p.services.len() as int));
    assert(p.upstreams =~= q.upstreams.subrange(0, p.upstreams.len() as int));
    assert(p.warnings =~= q.warnings.subrange(0, p.warnings.len() as int));
}

proof fn lemma_path_type(p: PlanView, path: HTTPIngressPath)
    ensures
        grows(p, ingress::plan_path_type(p, path)),
        ingress::plan_path_type(p, path).routes == p.routes,
        ingress::plan_path_type(p, path).warnings.len() == p.warnings.len() + if path.path_type@
            == "Exact"@ || path.path_type@ == "Prefix"@ {
            0nat
        } else {
            1
        },
{
    carried::lemma_grows_self(p);
    if path.path_type@ == "Exact"@ || path.path_type@ == "Prefix"@ {
    } else if path.path_type@ == "ImplementationSpecific"@ {
        lemma_warned(
            p,
            "Ingress path '"@ + path.path@
                + "' uses ImplementationSpecific pathType; defaulting to Prefix"@,
        );
    } else {
        lemma_warned(
            p,
            "Ingress path '"@ + path.path@ + "' has unknown pathType '"@ + path.path_type@
                + "'; defaulting to Prefix"@,
        );
    }
}

proof fn lemma_port_name(p: PlanView, ns: Seq<char>, s: IngressServiceBackend)
    ensures
        grows(p, ingress::plan_port_name(p, ns, s)),
        ingress::plan_port_name(p, ns, s).routes == p.routes,
        ingress::plan_port_name(p, ns, s).warnings.len() == p.warnings.len() + if s.port is Some
            && s.port->Some_0.name is Some {
            1nat
        } else {
            0
        },
{
    carried::lemma_grows_self(p);
    let q = ingress::plan_port_name(p, ns, s);
    if s.port is Some && s.port->Some_0.name is Some {
        lemma_warned(p, q.warnings.last());
        assert(q =~= p.warned(q.warnings.last()));
    }
}

proof fn lemma_path(
    p: PlanView,
    i: Ingress,
    rule_idx: nat,
    path_idx: nat,
    endpoints: Map<Seq<char>, Vec<Endpoint>>,
)
    requires
        p.services.len() == p.upstreams.len(),
        rule_idx < i.spec.rules@.len(),
        path_idx < i.spec.rules@[rule_idx as int].http@.len(),
    ensures
        ({
            let q = ingress::plan_path(p, i, rule_idx, path_idx, endpoints);
            let path = i.spec.rules@[rule_idx as int].http@[path_idx as int];
            &&& grows(p, q)
            &&& q.routes.len() == p.routes.len() + 1
            &&& q.warnings.len() == p.warnings.len() + odd_parts(i, path, endpoints)
            &&& is_path_route(
                q.routes.last(),
                q.services,
                q.upstreams,
                i,
                rule_idx as int,
                path_idx as int,
                endpoints,
            )
        }),
{
    let path = i.spec.rules@[rule_idx as int].http@[path_idx as int];
    let name = ingress::ingress_route_name(i, rule_idx, path_idx);
    let ns = k8s_gateway::namespace_of(i.metadata.namespace);
    let q = ingress::plan_path(p, i, rule_idx, path_idx, endpoints);
    let a = ingress::plan_path_type(p, path);
    lemma_path_type(p, path);
    match ingress::path_backend(i, path) {
        Some(s) => {
            let b = ingress::plan_port_name(a, ns, s);
            lemma_port_name(a, ns, s);
            carried::lemma_grows_trans(p, a, b);
            let c = k8s_gateway::plan_backend(
                b,
                name,
                ns,
                s.name@,
                ingress::service_port(s),
                endpoints,
            );
            carried::lemma_backend_serves(
                b,
                name,
                ns,
                s.name@,
                ingress::service_port(s),
                endpoints,
            );
            carried::lemma_grows_trans(p, b, c);
            lemma_routed(c, q.routes.last());
            assert(q =~= c.routed(q.routes.last()));
            carried::lemma_grows_trans(p, c, q);
            assert forall|t: IngressServiceBackend| #[trigger] is_backend_of(t, i, path) implies t
                == s by {}
        },
        None => {
            let c = a.warned("route "@ + name + " has no backend"@);
            lemma_warned(a, "route "@ + name + " has no backend"@);
            carried::lemma_grows_trans(p, a, c);
            lemma_routed(c, q.routes.last());
            assert(q =~= c.routed(q.routes.last()));
            carried::lemma_grows_trans(p, c, q);
        },
    }
}

/// Whether a plan has a route for one path of one rule.
pub open spec fn has_path_route(
    p: PlanView,
    i: Ingress,
    rule_idx: int,
    path_idx: int,
    endpoints: Map<Seq<char>, Vec<Endpoint>>,
) -> bool {
    exists|k: int|
        0 <= k < p.routes.len() && is_path_route(
            #[trigger] p.routes[k],
            p.services,
            p.upstreams,
            i,
            rule_idx,
            path_idx,
            endpoints,
        )
}

proof fn lemma_has_path_route_grows(
    p: PlanView,
    q: PlanView,
    i: Ingress,
    rule_idx: int,
    path_idx: int,
    endpoints: Map<Seq<char>, Vec<Endpoint>>,
)
    requires
        grows(p, q),
        has_path_route(p, i, rule_idx, path_idx, endpoints),
    ensures
        has_path_route(q, i, rule_idx, path_idx, endpoints),
{
    let k = choose|k: int|
        0 <= k < p.routes.len() && is_path_route(
            #[trigger] p.routes[k],
            p.services,
            p.upstreams,
            i,
            rule_idx,
            path_idx,
            endpoints,
        );
    let path = i.spec.rules@[rule_idx].http@[path_idx];
    carried::lemma_prefix_at(p.routes, q.routes, k);
    let r = q.routes[k];
    assert forall|s: IngressServiceBackend| #[trigger] is_backend_of(s, i, path) implies r.action is Proxy
        && r.action->rewrite is None && is_served(
        q.services,
        q.upstreams,
        r.service,
        endpoints,
        own_namespace(i),
        s.name@,
        number_of(s),
    ) by {
        carried::lemma_served_grows(
            p,
            q,
            r.service,
            endpoints,
            own_namespace(i),
            s.name@,
            number_of(s),
        );
    }
    assert(is_path_route(r, q.services, q.upstreams, i, rule_idx, path_idx, endpoints));
}

proof fn lemma_paths(
    p: PlanView,
    i: Ingress,
    rule_idx: nat,
    n: nat,
    endpoints: Map<Seq<char>, Vec<Endpoint>>,
)
    requires
        p.services.len() == p.upstreams.len(),
        rule_idx < i.spec.rules@.len(),
        n <= i.spec.rules@[rule_idx as int].http@.len(),
    ensures
        grows(p, ingress::plan_paths(p, i, rule_idx, n, endpoints)),
        forall|m: int|
            0 <= m < n ==> #[trigger] has_path_route(
                ingress::plan_paths(p, i, rule_idx, n, endpoints),
                i,
                rule_idx as int,
                m,
                endpoints,
            ),
    decreases n,
{
    if n > 0 {
        let k = (n - 1) as nat;
        lemma_paths(p, i, rule_idx, k, endpoints);
        let before = ingress::plan_paths(p, i, rule_idx, k, endpoints);
        let after = ingress::plan_paths(p, i, rule_idx, n, endpoints);
        lemma_path(before, i, rule_idx, k, endpoints);
        carried::lemma_grows_trans(p, before, after);
        assert forall|m: int| 0 <= m < n implies #[trigger] has_path_route(
            after,
            i,
            rule_idx as int,
            m,
            endpoints,
        ) by {
            if m < k {
                lemma_has_path_route_grows(before, after, i, rule_idx as int, m, endpoints);
            } else {
                assert(is_path_route(
                    after.routes[after.routes.len() - 1],
                    after.services,
                    after.upstreams,
                    i,
                    rule_idx as int,
                    m,
                    endpoints,
                ));
            }
        }
    } else {
        carried::lemma_grows_self(p);
    }
}

proof fn lemma_ingress_rules(
    p: PlanView,
    i: Ingress,
    n: nat,
    endpoints: Map<Seq<char>, Vec<Endpoint>>,
)
    requires
        p.services.len() == p.upstreams.len(),
        n <= i.spec.rules@.len(),
    ensures
        grows(p, ingress::plan_ingress_rules(p, i, n, endpoints)),
        forall|r: int, m: int|
            0 <= r < n && 0 <= m < i.spec.rules@[r].http@.len() ==> #[trigger] has_path_route(
                ingress::plan_ingress_rules(p, i, n, endpoints),
                i,
                r,
                m,
                endpoints,
            ),
    decreases n,
{
    if n > 0 {
        let k = (n - 1) as nat;
        lemma_ingress_rules(p, i, k, endpoints);
        let before = ingress::plan_ingress_rules(p, i, k, endpoints);
        let after = ingress::plan_ingress_rules(p, i, n, endpoints);
        lemma_paths(before, i, k, i.spec.rules@[k as int].http@.len(), endpoints);
        carried::lemma_grows_trans(p, before, after);
        assert forall|r: int, m: int|
            0 <= r < n && 0 <= m < i.spec.rules@[r].http@.len() implies #[trigger] has_path_route(
            after,
            i,
            r,
            m,
            endpoints,
        ) by {
            if r < k {
                lemma_has_path_route_grows(before, after, i, r, m, endpoints);
            }
        }
    } else {
        carried::lemma_grows_self(p);
    }
}

/// Whether an annotation belongs to a family that has no equivalent.
pub open spec fn is_foreign(key: Seq<char>) -> bool {
    ||| "nginx.ingress.kubernetes.io/"@.is_prefix_of(key)
    ||| "nginx.org/"@.is_prefix_of(key)
    ||| "haproxy.org/"@.is_prefix_of(key)
    ||| "alb.ingress.kubernetes.io/"@.is_prefix_of(key)
    ||| "kubernetes.io/ingress.allow-http"@.is_prefix_of(key)
    ||| "ingress.kubernetes.io/rewrite-target"@.is_prefix_of(key)
}

/// How many of the first `n` annotations belong to such a family.
pub open spec fn foreign_annotations(i: Ingress, n: nat) -> nat
    decreases n,
{
    if n == 0 {
        0
    } else {
        foreign_annotations(i, (n - 1) as nat) + if is_foreign(
            i.metadata.annotations@[n - 1].0@,
        ) {
            1nat
        } else {
            0
        }
    }
}

proof fn lemma_family(key: Seq<char>, family: Seq<char>, member: Seq<char>)
    requires
        family.is_prefix_of(member),
        member.is_prefix_of(key),
    ensures
        family.is_prefix_of(key),
{
    carried::lemma_prefix_trans(family, member, key);
}

proof fn lemma_foreign(key: Seq<char>)
    ensures
        ingress::unsupported_annotation(key) <==> is_foreign(key),
{
    reveal_strlit("nginx.ingress.kubernetes.io/");
    reveal_strlit("nginx.ingress.kubernetes.io/rewrite-target");
    reveal_strlit("nginx.ingress.kubernetes.io/ssl-redirect");
    reveal_strlit("nginx.ingress.kubernetes.io/auth");
    reveal_strlit("nginx.ingress.kubernetes.io/proxy");
    reveal_strlit("nginx.ingress.kubernetes.io/configuration");
    let f = "nginx.ingress.kubernetes.io/"@;
    let a = "nginx.ingress.kubernetes.io/rewrite-target"@;
    let b = "nginx.ingress.kubernetes.io/ssl-redirect"@;
    let c = "nginx.ingress.kubernetes.io/auth"@;
    let d = "nginx.ingress.kubernetes.io/proxy"@;
    let e = "nginx.ingress.kubernetes.io/configuration"@;
    assert(f =~= a.subrange(0, f.len() as int));
    assert(f =~= b.subrange(0, f.len() as int));
    assert(f =~= c.subrange(0, f.len() as int));
    assert(f =~= d.subrange(0, f.len() as int));
    assert(f =~= e.subrange(0, f.len() as int));
    if a.is_prefix_of(key) {
        lemma_family(key, f, a);
    }
    if b.is_prefix_of(key) {
        lemma_family(key, f, b);
    }
    if c.is_prefix_of(key) {
        lemma_family(key, f, c);
    }
    if d.is_prefix_of(key) {
        lemma_family(key, f, d);
    }
    if e.is_prefix_of(key) {
        lemma_family(key, f, e);
    }
}

/// Each annotation of a family that has no equivalent adds one warning, and
/// no annotation changes anything else.
pub proof fn law_foreign_annotations_are_warned_of(p: PlanView, i: Ingress, n: nat)
    ensures
        ({
            let q = ingress::plan_annotations(p, i, n);
            &&& q.routes == p.routes
            &&& q.services == p.services
            &&& q.upstreams == p.upstreams
            &&& p.warnings.is_prefix_of(q.warnings)
            &&& q.warnings.len() == p.warnings.len() + foreign_annotations(i, n)
            &&& grows(p, q)
        }),
    decreases n,
{
    if n > 0 {
        law_foreign_annotations_are_warned_of(p, i, (n - 1) as nat);
        let before = ingress::plan_annotations(p, i, (n - 1) as nat);
        let q = ingress::plan_annotations(p, i, n);
        let key = i.metadata.annotations@[n - 1].0@;
        lemma_foreign(key);
        if is_foreign(key) {
            lemma_warned(before, q.warnings.last());
            assert(q =~= before.warned(q.warnings.last()));
            carried::lemma_grows_trans(p, before, q);
        }
    } else {
        carried::lemma_grows_self(p);
    }
}

proof fn lemma_ingresses(
    p: PlanView,
    ingresses: Seq<Ingress>,
    class: Seq<char>,
    n: nat,
    endpoints: Map<Seq<char>, Vec<Endpoint>>,
    h: int,
    r: int,
    m: int,
)
    requires
        p.services.len() == p.upstreams.len(),
        n <= ingresses.len(),
    ensures
        grows(p, ingress::plan_ingresses(p, ingresses, class, n, endpoints)),
        0 <= h < n && is_of_class(ingresses[h], class) && 0 <= r < ingresses[h].spec.rules@.len()
            && 0 <= m < ingresses[h].spec.rules@[r].http@.len() ==> has_path_route(
            ingress::plan_ingresses(p, ingresses, class, n, endpoints),
            ingresses[h],
            r,
            m,
            endpoints,
        ),
    decreases n,
{
    if n > 0 {
        let k = (n - 1) as nat;
        lemma_ingresses(p, ingresses, class, k, endpoints, h, r, m);
        let i = ingresses[k as int];
        let before = ingress::plan_ingresses(p, ingresses, class, k, endpoints);
        let mid = ingress::plan_annotations(before, i, i.metadata.annotations@.len());
        let after = ingress::plan_ingresses(p, ingresses, class, n, endpoints);
        law_foreign_annotations_are_warned_of(before, i, i.metadata.annotations@.len());
        assert(ingress::in_class(i, class) <==> is_of_class(i, class));
        if is_of_class(i, class) {
            lemma_ingress_rules(mid, i, i.spec.rules@.len(), endpoints);
        } else {
            carried::lemma_grows_self(mid);
        }
        carried::lemma_grows_trans(before, mid, after);
        carried::lemma_grows_trans(p, before, after);
        if 0 <= h < k && is_of_class(ingresses[h], class) && 0 <= r < ingresses[h].spec.rules@.len()
            && 0 <= m < ingresses[h].spec.rules@[r].http@.len() {
            lemma_has_path_route_grows(before, after, ingresses[h], r, m, endpoints);
        }
    } else {
        carried::lemma_grows_self(p);
    }
}

/// Every path of every rule of an Ingress of the class has a route in the
/// configuration: on the rule's own host and the path's own value, to the
/// endpoints of the path's backend.
pub proof fn law_every_path_is_routed(
    ingresses: Seq<Ingress>,
    class: Seq<char>,
    endpoints: Map<Seq<char>, Vec<Endpoint>>,
    h: int,
    rule_idx: int,
    path_idx: int,
)
    requires
        0 <= h < ingresses.len(),
        is_of_class(ingresses[h], class),
        0 <= rule_idx < ingresses[h].spec.rules@.len(),
        0 <= path_idx < ingresses[h].spec.rules@[rule_idx].http@.len(),
    ensures
        ({
            let g = ingress::ingress_translation(ingresses, class, endpoints).gateway;
            exists|k: int|
                0 <= k < g.routes.len() && is_path_route(
                    #[trigger] g.routes[k],
                    g.services,
                    g.upstreams,
                    ingresses[h],
                    rule_idx,
                    path_idx,
                    endpoints,
                )
        }),
{
    let start = PlanView { routes: seq![], services: seq![], upstreams: seq![], warnings: seq![] };
    lemma_ingresses(
        start,
        ingresses,
        class,
        ingresses.len(),
        endpoints,
        h,
        rule_idx,
        path_idx,
    );
    let p = ingress::ingress_plan(ingresses, class, endpoints);
    let g = ingress::ingress_translation(ingresses, class, endpoints).gateway;
    assert(has_path_route(p, ingresses[h], rule_idx, path_idx, endpoints));
    let k = choose|k: int|
        0 <= k < p.routes.len() && is_path_route(
            #[trigger] p.routes[k],
            p.services,
            p.upstreams,
            ingresses[h],
            rule_idx,
            path_idx,
            endpoints,
        );
    assert(g.routes[k] == p.routes[k]);
}

/// Whether a configuration has a route for a path of a rule of an Ingress.
pub open spec fn is_path_routed(
    g: config::GatewayView,
    i: Ingress,
    rule_idx: int,
    path_idx: int,
    endpoints: Map<Seq<char>, Vec<Endpoint>>,
) -> bool {
    exists|k: int|
        0 <= k < g.routes.len() && is_path_route(
            #[trigger] g.routes[k],
            g.services,
            g.upstreams,
            i,
            rule_idx,
            path_idx,
            endpoints,
        )
}

/// Whether a configuration routes every path of every Ingress of a class.
pub open spec fn serves_ingresses(
    g: config::GatewayView,
    ingresses: Seq<Ingress>,
    class: Seq<char>,
    endpoints: Map<Seq<char>, Vec<Endpoint>>,
) -> bool {
    forall|h: int, r: int, p: int|
        0 <= h < ingresses.len() && is_of_class(ingresses[h], class) && 0 <= r
            < ingresses[h].spec.rules@.len() && 0 <= p < ingresses[h].spec.rules@[r].http@.len()
            ==> #[trigger] is_path_routed(g, ingresses[h], r, p, endpoints)
}

/// The configuration of Ingresses serves them.
pub proof fn law_translation_serves_the_ingresses(
    ingresses: Seq<Ingress>,
    class: Seq<char>,
    endpoints: Map<Seq<char>, Vec<Endpoint>>,
)
    ensures
        serves_ingresses(
            ingress::ingress_translation(ingresses, class, endpoints).gateway,
            ingresses,
            class,
            endpoints,
        ),
{
    let g = ingress::ingress_translation(ingresses, class, endpoints).gateway;
    assert forall|h: int, r: int, p: int|
        0 <= h < ingresses.len() && is_of_class(ingresses[h], class) && 0 <= r
            < ingresses[h].spec.rules@.len() && 0 <= p
            < ingresses[h].spec.rules@[r].http@.len() implies #[trigger] is_path_routed(
        g,
        ingresses[h],
        r,
        p,
        endpoints,
    ) by {
        law_every_path_is_routed(ingresses, class, endpoints, h, r, p);
    }
}

/// Nothing that a path asks for is dropped silently: each part that is not
/// carried over as it is adds one warning.
pub proof fn law_no_path_is_bent_silently(
    p: PlanView,
    i: Ingress,
    rule_idx: nat,
    path_idx: nat,
    endpoints: Map<Seq<char>, Vec<Endpoint>>,
)
    requires
        p.services.len() == p.upstreams.len(),
        rule_idx < i.spec.rules@.len(),
        path_idx < i.spec.rules@[rule_idx as int].http@.len(),
    ensures
        ingress::plan_path(p, i, rule_idx, path_idx, endpoints).warnings.len()
            == p.warnings.len() + odd_parts(
            i,
            i.spec.rules@[rule_idx as int].http@[path_idx as int],
            endpoints,
        ),
{
    lemma_path(p, i, rule_idx, path_idx, endpoints);
}

// ---------------------------------------------------------------------------
// Certificates and listeners
// ---------------------------------------------------------------------------

/// Whether a certificate is that of a TLS block: its Secret, for one of its
/// hosts, or for any host where it names none.
pub open spec fn is_certificate_of(c: config::TlsCertificateView, t: IngressTls) -> bool {
    &&& t.secret_name is Some
    &&& c.cert_file == "k8s-secret:default/"@ + t.secret_name->Some_0@
    &&& c.key_file == c.cert_file
    &&& if t.hosts@.len() == 0 {
        c.server_names.len() == 0
    } else {
        exists|k: int| 0 <= k < t.hosts@.len() && serves_host(c, #[trigger] t.hosts@[k])
    }
}

/// Whether a certificate is for a host; the empty host is any host.
pub open spec fn serves_host(c: config::TlsCertificateView, host: String) -> bool {
    if host@.len() == 0 {
        c.server_names.len() == 0
    } else {
        c.server_names == seq![host@]
    }
}

/// Whether certificates cover a TLS block: one for each of its hosts, or one
/// for any host where it names none.
pub open spec fn covers(v: Seq<config::TlsCertificateView>, t: IngressTls) -> bool {
    &&& t.secret_name is Some && t.hosts@.len() == 0 ==> exists|j: int|
        0 <= j < v.len() && is_certificate_of(#[trigger] v[j], t)
    &&& t.secret_name is Some ==> forall|k: int|
        0 <= k < t.hosts@.len() ==> #[trigger] covers_host(v, t, k)
}

/// Whether some certificate is that of a TLS block for the host at `k`.
pub open spec fn covers_host(v: Seq<config::TlsCertificateView>, t: IngressTls, k: int) -> bool {
    exists|j: int|
        0 <= j < v.len() && is_certificate_of(#[trigger] v[j], t) && serves_host(v[j], t.hosts@[k])
}

proof fn lemma_covers_grows(
    a: Seq<config::TlsCertificateView>,
    b: Seq<config::TlsCertificateView>,
    t: IngressTls,
)
    requires
        covers(a, t) || covers(b, t),
    ensures
        covers(a + b, t),
{
    let v = a + b;
    let off: int = if covers(a, t) {
        0
    } else {
        a.len() as int
    };
    let s = if covers(a, t) {
        a
    } else {
        b
    };
    assert(forall|j: int| 0 <= j < s.len() ==> v[off + j] == #[trigger] s[j]);
    if t.secret_name is Some && t.hosts@.len() == 0 {
        let j = choose|j: int| 0 <= j < s.len() && is_certificate_of(#[trigger] s[j], t);
        assert(is_certificate_of(v[off + j], t));
    }
    if t.secret_name is Some {
        assert forall|k: int| 0 <= k < t.hosts@.len() implies #[trigger] covers_host(v, t, k) by {
            assert(covers_host(s, t, k));
            let j = choose|j: int|
                0 <= j < s.len() && is_certificate_of(#[trigger] s[j], t) && serves_host(
                    s[j],
                    t.hosts@[k],
                );
            assert(is_certificate_of(v[off + j], t));
        }
    }
}

/// Whether a certificate is that of one of the first `n` TLS blocks.
spec fn has_block(c: config::TlsCertificateView, tls: Seq<IngressTls>, n: int) -> bool {
    exists|b: int| 0 <= b < n && b < tls.len() && is_certificate_of(c, #[trigger] tls[b])
}

proof fn lemma_tls(tls: Seq<IngressTls>, n: nat)
    requires
        n <= tls.len(),
    ensures
        forall|b: int|
            0 <= b < n ==> covers(ingress::tls_certificates(tls, n), #[trigger] tls[b]),
        forall|j: int|
            0 <= j < ingress::tls_certificates(tls, n).len() ==> has_block(
                #[trigger] ingress::tls_certificates(tls, n)[j],
                tls,
                n as int,
            ),
    decreases n,
{
    if n > 0 {
        let m = (n - 1) as nat;
        lemma_tls(tls, m);
        let before = ingress::tls_certificates(tls, m);
        let after = ingress::tls_certificates(tls, n);
        let t = tls[m as int];
        let added = after.skip(before.len() as int);
        assert(after =~= before + added);
        if t.secret_name is Some {
            let s = t.secret_name->Some_0@;
            if t.hosts@.len() == 0 {
                assert(added[0] == ingress::ingress_certificate(seq![], s));
                assert(is_certificate_of(added[0], t));
            } else {
                assert forall|k: int| 0 <= k < t.hosts@.len() implies is_certificate_of(
                    #[trigger] added[k],
                    t,
                ) && serves_host(added[k], t.hosts@[k]) by {
                    assert(added[k] == ingress::ingress_certificate(t.hosts@[k]@, s));
                    assert(serves_host(added[k], t.hosts@[k]));
                }
                assert forall|k: int| 0 <= k < t.hosts@.len() implies #[trigger] covers_host(
                    added,
                    t,
                    k,
                ) by {
                    assert(is_certificate_of(added[k], t));
                }
            }
        }
        assert(covers(added, t));
        assert forall|b: int| 0 <= b < n implies covers(after, #[trigger] tls[b]) by {
            lemma_covers_grows(before, added, tls[b]);
        }
        assert forall|j: int| 0 <= j < after.len() implies has_block(
            #[trigger] after[j],
            tls,
            n as int,
        ) by {
            if j < before.len() {
                assert(has_block(before[j], tls, m as int));
                let b = choose|b: int|
                    0 <= b < m && b < tls.len() && is_certificate_of(before[j], #[trigger] tls[b]);
                assert(is_certificate_of(after[j], tls[b]));
            } else {
                assert(after[j] == added[j - before.len()]);
                assert(is_certificate_of(after[j], tls[m as int]));
            }
        }
    }
}

/// Whether a certificate is that of a TLS block of one of the first `n`
/// Ingresses, which is of the class.
pub open spec fn has_source(
    c: config::TlsCertificateView,
    ingresses: Seq<Ingress>,
    class: Seq<char>,
    n: int,
) -> bool {
    exists|h: int, b: int| #[trigger] is_source(c, ingresses, class, h, b) && h < n
}

/// Whether a certificate is that of a TLS block of an Ingress of the class.
pub open spec fn is_source(
    c: config::TlsCertificateView,
    ingresses: Seq<Ingress>,
    class: Seq<char>,
    h: int,
    b: int,
) -> bool {
    &&& 0 <= h < ingresses.len()
    &&& is_of_class(ingresses[h], class)
    &&& 0 <= b < ingresses[h].spec.tls@.len()
    &&& is_certificate_of(c, ingresses[h].spec.tls@[b])
}

proof fn lemma_class_certificates(ingresses: Seq<Ingress>, class: Seq<char>, n: nat)
    requires
        n <= ingresses.len(),
    ensures
        forall|h: int, b: int|
            0 <= h < n && is_of_class(ingresses[h], class) && 0 <= b
                < ingresses[h].spec.tls@.len() ==> covers(
                ingress::class_certificates(ingresses, class, n),
                #[trigger] ingresses[h].spec.tls@[b],
            ),
        forall|j: int|
            0 <= j < ingress::class_certificates(ingresses, class, n).len() ==> has_source(
                #[trigger] ingress::class_certificates(ingresses, class, n)[j],
                ingresses,
                class,
                n as int,
            ),
    decreases n,
{
    if n > 0 {
        let m = (n - 1) as nat;
        lemma_class_certificates(ingresses, class, m);
        let before = ingress::class_certificates(ingresses, class, m);
        let after = ingress::class_certificates(ingresses, class, n);
        let i = ingresses[m as int];
        assert(ingress::in_class(i, class) <==> is_of_class(i, class));
        let added = ingress::tls_certificates(i.spec.tls@, i.spec.tls@.len());
        lemma_tls(i.spec.tls@, i.spec.tls@.len());
        assert forall|h: int, b: int|
            0 <= h < n && is_of_class(ingresses[h], class) && 0 <= b
                < ingresses[h].spec.tls@.len() implies covers(
            after,
            #[trigger] ingresses[h].spec.tls@[b],
        ) by {
            if is_of_class(i, class) {
                lemma_covers_grows(before, added, ingresses[h].spec.tls@[b]);
            }
        }
        assert forall|j: int| 0 <= j < after.len() implies has_source(
            #[trigger] after[j],
            ingresses,
            class,
            n as int,
        ) by {
            if j < before.len() {
                assert(has_source(before[j], ingresses, class, m as int));
                let (h, b) = choose|h: int, b: int| #[trigger]
                    is_source(before[j], ingresses, class, h, b) && h < m;
                assert(is_source(after[j], ingresses, class, h, b));
            } else {
                let c = added[j - before.len()];
                assert(has_block(c, i.spec.tls@, i.spec.tls@.len() as int));
                let b = choose|b: int|
                    0 <= b < i.spec.tls@.len() && b < i.spec.tls@.len() && is_certificate_of(
                        c,
                        #[trigger] i.spec.tls@[b],
                    );
                assert(is_source(after[j], ingresses, class, m as int, b));
            }
        }
    }
}

/// Ingresses are listened for on port 80, and on port 443 where a TLS block of
/// an Ingress of the class names a Secret: with a certificate for every host
/// of every such block, and with no other.
pub proof fn law_every_tls_block_is_served(
    ingresses: Seq<Ingress>,
    class: Seq<char>,
    endpoints: Map<Seq<char>, Vec<Endpoint>>,
)
    ensures
        ({
            let ls = ingress::ingress_translation(ingresses, class, endpoints).gateway.listeners;
            &&& 1 <= ls.len() <= 2
            &&& ls[0].port == 80 && ls[0].protocol == ListenerProtocol::Http && ls[0].tls is None
            &&& ls[0].address == "0.0.0.0"@
            &&& forall|h: int, b: int|
                0 <= h < ingresses.len() && is_of_class(ingresses[h], class) && 0 <= b
                    < ingresses[h].spec.tls@.len() && (
                #[trigger] ingresses[h].spec.tls@[b]).secret_name is Some ==> ls.len() == 2
                    && covers(ls[1].tls->Some_0.certificates, ingresses[h].spec.tls@[b])
            &&& ls.len() == 2 ==> ({
                let t = ls[1].tls->Some_0;
                &&& ls[1].port == 443 && ls[1].protocol == ListenerProtocol::Https
                &&& ls[1].address == "0.0.0.0"@
                &&& ls[1].tls is Some && t.mode == TlsMode::Terminate
                &&& t.certificates.len() > 0
                &&& t.cert_file == Some(t.certificates[0].cert_file)
                &&& t.key_file == Some(t.certificates[0].key_file)
                &&& forall|j: int|
                    0 <= j < t.certificates.len() ==> has_source(
                        #[trigger] t.certificates[j],
                        ingresses,
                        class,
                        ingresses.len() as int,
                    )
            })
        }),
{
    let ls = ingress::ingress_translation(ingresses, class, endpoints).gateway.listeners;
    let v = ingress::class_certificates(ingresses, class, ingresses.len());
    lemma_class_certificates(ingresses, class, ingresses.len());
    assert forall|h: int, b: int|
        0 <= h < ingresses.len() && is_of_class(ingresses[h], class) && 0 <= b
            < ingresses[h].spec.tls@.len() && (
        #[trigger] ingresses[h].spec.tls@[b]).secret_name is Some implies ls.len() == 2 && covers(
        ls[1].tls->Some_0.certificates,
        ingresses[h].spec.tls@[b],
    ) by {
        let t = ingresses[h].spec.tls@[b];
        assert(covers(v, t));
        if t.hosts@.len() > 0 {
            assert(covers_host(v, t, 0));
        }
        assert(v.len() > 0);
        assert(ls[1].tls->Some_0.certificates == v);
    }
}

} // verus!
