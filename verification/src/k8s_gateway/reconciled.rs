//! What a reconciliation publishes, and what it reports.

use vstd::prelude::*;

use crate::config;
use crate::config::Endpoint;
use crate::k8s_gateway;
use crate::k8s_gateway::carried;
use crate::k8s_gateway::carried::{
    is_child_of, is_listener_of, is_place, is_route_of, is_routed, is_served, leads_to,
    meant_namespace, record_key,
};
use crate::k8s_gateway::controller;
use crate::k8s_gateway::controller::{ConditionView, Merged, Watched};
use crate::k8s_gateway::ingress;
use crate::k8s_gateway::ingress::IngressServiceBackend;
use crate::k8s_gateway::ingress_carried;
use crate::k8s_gateway::ingress_carried::{
    is_backend_of, is_of_class, is_path_route, is_path_routed, serves_ingresses,
};
use crate::k8s_gateway::laws;
use crate::k8s_gateway::{Gateway, HttpRoute, HttpRouteRule, TranslationView};

verus! {

// ---------------------------------------------------------------------------
// Ownership
// ---------------------------------------------------------------------------

/// Whether a Gateway is ours: its class is watched, and is of our controller.
pub open spec fn is_own(w: Watched, gw: Gateway) -> bool {
    exists|i: int|
        0 <= i < w.gateway_classes.len() && (#[trigger] w.gateway_classes[i]).metadata.name@
            == gw.spec.gateway_class_name@ && w.gateway_classes[i].spec.controller@
            == w.controller_name
}

proof fn lemma_accepted(w: Watched, n: nat, name: Seq<char>)
    requires
        n <= w.gateway_classes.len(),
    ensures
        controller::accepted_classes(w.gateway_classes, w.controller_name, n).contains(name)
            <==> exists|i: int|
            0 <= i < n && (#[trigger] w.gateway_classes[i]).metadata.name@ == name
                && w.gateway_classes[i].spec.controller@ == w.controller_name,
    decreases n,
{
    if n > 0 {
        let m = (n - 1) as nat;
        lemma_accepted(w, m, name);
        let before = controller::accepted_classes(w.gateway_classes, w.controller_name, m);
        let after = controller::accepted_classes(w.gateway_classes, w.controller_name, n);
        let c = w.gateway_classes[m as int];
        if before.contains(name) {
            let k = before.index_of(name);
            assert(after[k] == name);
        }
        if c.spec.controller@ == w.controller_name {
            assert(after[before.len() as int] == c.metadata.name@);
        }
        if after.contains(name) {
            let k = after.index_of(name);
            if k < before.len() {
                assert(before[k] == name);
            } else {
                assert(w.gateway_classes[m as int].metadata.name@ == name);
            }
        }
    }
}

/// A Gateway is ours exactly if its class is of our controller.
pub proof fn law_own_gateways_are_of_own_classes(w: Watched, gw: Gateway)
    ensures
        controller::is_ours(w, gw) <==> is_own(w, gw),
{
    lemma_accepted(w, w.gateway_classes.len(), gw.spec.gateway_class_name@);
}

// ---------------------------------------------------------------------------
// The configuration
// ---------------------------------------------------------------------------

/// Whether a merged configuration holds a translation, from these places on.
spec fn holds_at(m: Merged, t: TranslationView, l: int, r: int, s: int) -> bool {
    &&& 0 <= l && l + t.gateway.listeners.len() <= m.listeners.len()
    &&& 0 <= r && r + t.gateway.routes.len() <= m.routes.len()
    &&& 0 <= s && s + t.gateway.services.len() <= m.services.len()
    &&& m.services.len() == m.upstreams.len()
    &&& t.gateway.services.len() == t.gateway.upstreams.len()
    &&& forall|i: int|
        0 <= i < t.gateway.listeners.len() ==> m.listeners[l + i]
            == #[trigger] t.gateway.listeners[i]
    &&& forall|i: int|
        0 <= i < t.gateway.routes.len() ==> m.routes[r + i] == #[trigger] t.gateway.routes[i]
    &&& forall|i: int|
        0 <= i < t.gateway.services.len() ==> m.services[s + i] == #[trigger] t.gateway.services[i]
    &&& forall|i: int|
        0 <= i < t.gateway.upstreams.len() ==> m.upstreams[s + i]
            == #[trigger] t.gateway.upstreams[i]
}

/// Whether a merged configuration holds a translation.
spec fn includes(m: Merged, t: TranslationView) -> bool {
    exists|l: int, r: int, s: int| #[trigger] holds_at(m, t, l, r, s)
}

proof fn lemma_includes_grows(m: Merged, t: TranslationView, u: TranslationView)
    requires
        m.services.len() == m.upstreams.len(),
        u.gateway.services.len() == u.gateway.upstreams.len(),
    ensures
        includes(m, t) ==> includes(m.then_translated(u), t),
        includes(m.then_translated(u), u),
        m.then_translated(u).services.len() == m.then_translated(u).upstreams.len(),
{
    let n = m.then_translated(u);
    assert(holds_at(
        n,
        u,
        m.listeners.len() as int,
        m.routes.len() as int,
        m.services.len() as int,
    ));
    if includes(m, t) {
        let (l, r, s) = choose|l: int, r: int, s: int| #[trigger] holds_at(m, t, l, r, s);
        assert(holds_at(n, t, l, r, s));
    }
}

proof fn lemma_merged(w: Watched, n: nat, g: int)
    requires
        n <= w.gateways.len(),
    ensures
        ({
            let m = controller::merged_gateways(w, n);
            &&& m.services.len() == m.upstreams.len()
            &&& 0 <= g < n && is_own(w, w.gateways[g]) ==> includes(
                m,
                k8s_gateway::translation(w.gateways[g], w.httproutes, w.endpoints),
            )
        }),
    decreases n,
{
    if n > 0 {
        let k = (n - 1) as nat;
        lemma_merged(w, k, g);
        let gw = w.gateways[k as int];
        law_own_gateways_are_of_own_classes(w, gw);
        if is_own(w, gw) {
            let u = k8s_gateway::translation(gw, w.httproutes, w.endpoints);
            laws::law_translation_resolves(gw, w.httproutes, w.endpoints);
            let t = k8s_gateway::translation(w.gateways[g], w.httproutes, w.endpoints);
            lemma_includes_grows(controller::merged_gateways(w, k), t, u);
        }
    }
}

/// The merged configuration of a reconciliation.
spec fn merged(w: Watched) -> Merged {
    controller::merged_gateways(w, w.gateways.len()).then_translated(
        ingress::ingress_translation(w.ingresses, w.ingress_class, w.endpoints),
    )
}

proof fn lemma_published(w: Watched, g: int)
    requires
        0 <= g < w.gateways.len(),
        is_own(w, w.gateways[g]),
    ensures
        includes(
            merged(w),
            k8s_gateway::translation(w.gateways[g], w.httproutes, w.endpoints),
        ),
{
    lemma_merged(w, w.gateways.len(), g);
    laws::law_ingress_translation_resolves(w.ingresses, w.ingress_class, w.endpoints);
    lemma_includes_grows(
        controller::merged_gateways(w, w.gateways.len()),
        k8s_gateway::translation(w.gateways[g], w.httproutes, w.endpoints),
        ingress::ingress_translation(w.ingresses, w.ingress_class, w.endpoints),
    );
}

proof fn lemma_ingress_published(w: Watched)
    ensures
        includes(
            merged(w),
            ingress::ingress_translation(w.ingresses, w.ingress_class, w.endpoints),
        ),
{
    lemma_merged(w, w.gateways.len(), 0);
    laws::law_ingress_translation_resolves(w.ingresses, w.ingress_class, w.endpoints);
    let u = ingress::ingress_translation(w.ingresses, w.ingress_class, w.endpoints);
    lemma_includes_grows(controller::merged_gateways(w, w.gateways.len()), u, u);
}

proof fn lemma_served(
    m: Merged,
    t: TranslationView,
    l: int,
    r: int,
    s: int,
    service: Seq<char>,
    endpoints: Map<Seq<char>, Vec<Endpoint>>,
    ns: Seq<char>,
    backend: Seq<char>,
    port: u16,
)
    requires
        holds_at(m, t, l, r, s),
        is_served(
            t.gateway.services,
            t.gateway.upstreams,
            service,
            endpoints,
            ns,
            backend,
            port,
        ),
    ensures
        is_served(m.services, m.upstreams, service, endpoints, ns, backend, port),
{
    let k = choose|k: int| #[trigger]
        leads_to(
            t.gateway.services,
            t.gateway.upstreams,
            k,
            service,
            endpoints,
            ns,
            backend,
            port,
        );
    assert(m.services[s + k] == t.gateway.services[k]);
    assert(m.upstreams[s + k] == t.gateway.upstreams[k]);
    assert(leads_to(m.services, m.upstreams, s + k, service, endpoints, ns, backend, port));
}

/// Every listener of an own Gateway is published, and every match of every
/// rule of every HTTPRoute that attaches to it, as each of them asks.
pub proof fn law_own_gateways_are_published(
    w: Watched,
    g: int,
    listener: int,
    h: int,
    rule_idx: int,
    match_idx: int,
)
    requires
        0 <= g < w.gateways.len(),
        is_own(w, w.gateways[g]),
    ensures
        ({
            let c = controller::reconciliation(w).config.gateway;
            let gw = w.gateways[g];
            let ns = if gw.metadata.namespace is Some {
                gw.metadata.namespace->Some_0@
            } else {
                "default"@
            };
            &&& 0 <= listener < gw.spec.listeners@.len() ==> exists|k: int|
                0 <= k < c.listeners.len() && is_listener_of(
                    #[trigger] c.listeners[k],
                    gw.spec.listeners@[listener],
                    ns,
                )
            &&& 0 <= h < w.httproutes.len() && is_child_of(w.httproutes[h], gw) && 0 <= rule_idx
                < w.httproutes[h].spec.rules@.len() && is_place(
                w.httproutes[h].spec.rules@[rule_idx],
                match_idx,
            ) ==> exists|k: int|
                0 <= k < c.routes.len() && is_route_of(
                    #[trigger] c.routes[k],
                    c.services,
                    c.upstreams,
                    w.httproutes[h],
                    rule_idx,
                    match_idx,
                    w.endpoints,
                )
        }),
{
    let c = controller::reconciliation(w).config.gateway;
    let gw = w.gateways[g];
    let t = k8s_gateway::translation(gw, w.httproutes, w.endpoints);
    let m = merged(w);
    lemma_published(w, g);
    let (l, r, s) = choose|l: int, r: int, s: int| #[trigger] holds_at(m, t, l, r, s);
    carried::law_every_listener_is_carried_over(gw, w.httproutes, w.endpoints);
    if 0 <= listener < gw.spec.listeners@.len() {
        assert(c.listeners[l + listener] == t.gateway.listeners[listener]);
    }
    if 0 <= h < w.httproutes.len() && is_child_of(w.httproutes[h], gw) && 0 <= rule_idx
        < w.httproutes[h].spec.rules@.len() && is_place(
        w.httproutes[h].spec.rules@[rule_idx],
        match_idx,
    ) {
        carried::law_every_match_is_routed(
            gw,
            w.httproutes,
            w.endpoints,
            h,
            rule_idx,
            match_idx,
        );
        let route = w.httproutes[h];
        let rule = route.spec.rules@[rule_idx];
        let k = choose|k: int|
            0 <= k < t.gateway.routes.len() && is_route_of(
                #[trigger] t.gateway.routes[k],
                t.gateway.services,
                t.gateway.upstreams,
                route,
                rule_idx,
                match_idx,
                w.endpoints,
            );
        let x = t.gateway.routes[k];
        if carried::no_redirect(rule.filters@) && rule.backend_refs@.len() > 0 {
            let b = rule.backend_refs@[0];
            lemma_served(
                m,
                t,
                l,
                r,
                s,
                x.service,
                w.endpoints,
                meant_namespace(b.namespace, route),
                b.name@,
                if b.port is Some {
                    b.port->Some_0
                } else {
                    80
                },
            );
        }
        assert(c.routes[r + k] == x);
        assert(is_route_of(
            c.routes[r + k],
            c.services,
            c.upstreams,
            route,
            rule_idx,
            match_idx,
            w.endpoints,
        ));
    }
}

/// Every path of every rule of an Ingress of our class is published.
pub proof fn law_ingresses_are_published(w: Watched, h: int, rule_idx: int, path_idx: int)
    requires
        0 <= h < w.ingresses.len(),
        is_of_class(w.ingresses[h], w.ingress_class),
        0 <= rule_idx < w.ingresses[h].spec.rules@.len(),
        0 <= path_idx < w.ingresses[h].spec.rules@[rule_idx].http@.len(),
    ensures
        ({
            let c = controller::reconciliation(w).config.gateway;
            exists|k: int|
                0 <= k < c.routes.len() && is_path_route(
                    #[trigger] c.routes[k],
                    c.services,
                    c.upstreams,
                    w.ingresses[h],
                    rule_idx,
                    path_idx,
                    w.endpoints,
                )
        }),
{
    let c = controller::reconciliation(w).config.gateway;
    let t = ingress::ingress_translation(w.ingresses, w.ingress_class, w.endpoints);
    let m = merged(w);
    lemma_ingress_published(w);
    let (l, r, s) = choose|l: int, r: int, s: int| #[trigger] holds_at(m, t, l, r, s);
    ingress_carried::law_every_path_is_routed(
        w.ingresses,
        w.ingress_class,
        w.endpoints,
        h,
        rule_idx,
        path_idx,
    );
    let i = w.ingresses[h];
    let path = i.spec.rules@[rule_idx].http@[path_idx];
    let k = choose|k: int|
        0 <= k < t.gateway.routes.len() && is_path_route(
            #[trigger] t.gateway.routes[k],
            t.gateway.services,
            t.gateway.upstreams,
            i,
            rule_idx,
            path_idx,
            w.endpoints,
        );
    let x = t.gateway.routes[k];
    assert(c.routes[r + k] == x);
    assert forall|b: IngressServiceBackend| #[trigger] is_backend_of(b, i, path) implies x.action is Proxy
        && x.action->rewrite is None && is_served(
        c.services,
        c.upstreams,
        x.service,
        w.endpoints,
        ingress_carried::own_namespace(i),
        b.name@,
        ingress_carried::number_of(b),
    ) by {
        lemma_served(
            m,
            t,
            l,
            r,
            s,
            x.service,
            w.endpoints,
            ingress_carried::own_namespace(i),
            b.name@,
            ingress_carried::number_of(b),
        );
    }
    assert(is_path_route(
        c.routes[r + k],
        c.services,
        c.upstreams,
        i,
        rule_idx,
        path_idx,
        w.endpoints,
    ));
}

/// Whether a configuration serves every own Gateway, and every Ingress of our
/// class.
pub open spec fn publishes(g: config::GatewayView, w: Watched) -> bool {
    &&& forall|n: int, h: int, i: int, m: int|
        #![trigger w.gateways[n], is_routed(g, w.httproutes[h], i, m, w.endpoints)]
        0 <= n < w.gateways.len() && is_own(w, w.gateways[n]) && 0 <= h < w.httproutes.len()
            && is_child_of(w.httproutes[h], w.gateways[n]) && 0 <= i
            < w.httproutes[h].spec.rules@.len() && is_place(w.httproutes[h].spec.rules@[i], m)
            ==> is_routed(g, w.httproutes[h], i, m, w.endpoints)
    &&& serves_ingresses(g, w.ingresses, w.ingress_class, w.endpoints)
}

/// What is published serves what is watched.
pub proof fn law_reconciliation_publishes_what_is_watched(w: Watched)
    ensures
        publishes(controller::reconciliation(w).config.gateway, w),
{
    let g = controller::reconciliation(w).config.gateway;
    assert forall|n: int, h: int, i: int, m: int|
        #![trigger w.gateways[n], is_routed(g, w.httproutes[h], i, m, w.endpoints)]
        0 <= n < w.gateways.len() && is_own(w, w.gateways[n]) && 0 <= h < w.httproutes.len()
            && is_child_of(w.httproutes[h], w.gateways[n]) && 0 <= i
            < w.httproutes[h].spec.rules@.len() && is_place(
            w.httproutes[h].spec.rules@[i],
            m,
        ) implies is_routed(g, w.httproutes[h], i, m, w.endpoints) by {
        law_own_gateways_are_published(w, n, 0, h, i, m);
    }
    assert forall|h: int, r: int, p: int|
        0 <= h < w.ingresses.len() && is_of_class(w.ingresses[h], w.ingress_class) && 0 <= r
            < w.ingresses[h].spec.rules@.len() && 0 <= p
            < w.ingresses[h].spec.rules@[r].http@.len() implies #[trigger] is_path_routed(
        g,
        w.ingresses[h],
        r,
        p,
        w.endpoints,
    ) by {
        law_ingresses_are_published(w, h, r, p);
    }
}

// ---------------------------------------------------------------------------
// Statuses
// ---------------------------------------------------------------------------

/// Whether a condition says yes, or no, to a question.
pub open spec fn says(c: ConditionView, question: Seq<char>, yes: bool) -> bool {
    &&& c.type_ == question
    &&& c.status == if yes {
        "True"@
    } else {
        "False"@
    }
}

/// The key of an object among the statuses.
pub open spec fn status_key(ns: Option<String>, name: Seq<char>) -> Seq<char> {
    (if ns is Some {
        ns->Some_0@
    } else {
        "default"@
    }) + "/"@ + name
}

proof fn lemma_accepted_statuses(w: Watched, n: nat, i: int)
    requires
        n <= w.gateway_classes.len(),
        0 <= i < n,
        w.gateway_classes[i].spec.controller@ == w.controller_name,
    ensures
        ({
            let m = controller::accepted_statuses(w.gateway_classes, w.controller_name, n);
            let name = w.gateway_classes[i].metadata.name@;
            m.dom().contains(name) && m[name].len() == 1 && says(m[name][0], "Accepted"@, true)
        }),
    decreases n,
{
    if i < n - 1 {
        lemma_accepted_statuses(w, (n - 1) as nat, i);
    }
}

proof fn lemma_rejected_statuses(
    w: Watched,
    m: Map<Seq<char>, Seq<ConditionView>>,
    n: nat,
    name: Seq<char>,
)
    requires
        n <= w.gateway_classes.len(),
    ensures
        ({
            let r = controller::rejected_statuses(m, w.gateway_classes, w.controller_name, n);
            let refused = exists|i: int|
                0 <= i < n && (#[trigger] w.gateway_classes[i]).metadata.name@ == name
                    && w.gateway_classes[i].spec.controller@ != w.controller_name;
            &&& refused ==> r.dom().contains(name) && r[name].len() == 1 && says(
                r[name][0],
                "Accepted"@,
                false,
            )
            &&& !refused ==> r.dom().contains(name) == m.dom().contains(name) && r[name] == m[name]
        }),
    decreases n,
{
    if n > 0 {
        lemma_rejected_statuses(w, m, (n - 1) as nat, name);
    }
}

/// A GatewayClass is told whether it is accepted: it is exactly if it is of our
/// controller.
pub proof fn law_classes_are_told_whether_they_are_ours(w: Watched, i: int)
    requires
        0 <= i < w.gateway_classes.len(),
        forall|j: int|
            0 <= j < w.gateway_classes.len() && j != i ==> (
            #[trigger] w.gateway_classes[j]).metadata.name@
                != w.gateway_classes[i].metadata.name@,
    ensures
        ({
            let m = controller::reconciliation(w).gateway_class_statuses;
            let gc = w.gateway_classes[i];
            &&& m.dom().contains(gc.metadata.name@)
            &&& m[gc.metadata.name@].len() == 1
            &&& says(
                m[gc.metadata.name@][0],
                "Accepted"@,
                gc.spec.controller@ == w.controller_name,
            )
        }),
{
    let n = w.gateway_classes.len();
    let gc = w.gateway_classes[i];
    let m = controller::accepted_statuses(w.gateway_classes, w.controller_name, n);
    lemma_rejected_statuses(w, m, n, gc.metadata.name@);
    if gc.spec.controller@ == w.controller_name {
        lemma_accepted_statuses(w, n, i);
    }
}

proof fn lemma_gateway_statuses(w: Watched, n: nat, i: int)
    requires
        n <= w.gateways.len(),
        0 <= i < n,
        forall|j: int|
            i < j < n ==> status_key(
                (#[trigger] w.gateways[j]).metadata.namespace,
                w.gateways[j].metadata.name@,
            ) != status_key(w.gateways[i].metadata.namespace, w.gateways[i].metadata.name@),
    ensures
        ({
            let gw = w.gateways[i];
            let key = status_key(gw.metadata.namespace, gw.metadata.name@);
            let m = controller::gateway_statuses(w, n);
            m.dom().contains(key) && m[key] == controller::gateway_status(w, gw)
        }),
    decreases n,
{
    let gw = w.gateways[n - 1];
    assert(controller::object_key(gw.metadata.namespace, gw.metadata.name@) == status_key(
        gw.metadata.namespace,
        gw.metadata.name@,
    ));
    if i < n - 1 {
        lemma_gateway_statuses(w, (n - 1) as nat, i);
    }
}

/// A Gateway is told whether it is accepted, and programmed if it is: it is
/// exactly if it is ours.
pub proof fn law_gateways_are_told_whether_they_are_ours(w: Watched, i: int)
    requires
        0 <= i < w.gateways.len(),
        forall|j: int|
            i < j < w.gateways.len() ==> status_key(
                (#[trigger] w.gateways[j]).metadata.namespace,
                w.gateways[j].metadata.name@,
            ) != status_key(w.gateways[i].metadata.namespace, w.gateways[i].metadata.name@),
    ensures
        ({
            let gw = w.gateways[i];
            let m = controller::reconciliation(w).gateway_statuses;
            let key = status_key(gw.metadata.namespace, gw.metadata.name@);
            &&& m.dom().contains(key)
            &&& m[key].len() > 0 && says(m[key][0], "Accepted"@, is_own(w, gw))
            &&& is_own(w, gw) ==> m[key].len() == 2 && says(m[key][1], "Programmed"@, true)
            &&& !is_own(w, gw) ==> m[key].len() == 1
        }),
{
    lemma_gateway_statuses(w, w.gateways.len(), i);
    law_own_gateways_are_of_own_classes(w, w.gateways[i]);
}

/// Whether some own Gateway takes a route.
pub open spec fn is_taken(w: Watched, route: HttpRoute) -> bool {
    exists|i: int|
        0 <= i < w.gateways.len() && is_own(w, #[trigger] w.gateways[i]) && is_child_of(
            route,
            w.gateways[i],
        )
}

/// Whether every backend of a rule has endpoints on record.
pub open spec fn rule_resolves(w: Watched, route: HttpRoute, rule: HttpRouteRule) -> bool {
    forall|j: int|
        0 <= j < rule.backend_refs@.len() ==> w.endpoints.dom().contains(
            record_key(
                meant_namespace((#[trigger] rule.backend_refs@[j]).namespace, route),
                rule.backend_refs@[j].name@,
                if rule.backend_refs@[j].port is Some {
                    rule.backend_refs@[j].port->Some_0
                } else {
                    80
                },
            ),
        )
}

/// Whether every backend of a route has endpoints on record.
pub open spec fn all_resolve(w: Watched, route: HttpRoute) -> bool {
    forall|i: int|
        0 <= i < route.spec.rules@.len() ==> rule_resolves(
            w,
            route,
            #[trigger] route.spec.rules@[i],
        )
}

proof fn lemma_route_statuses(w: Watched, n: nat, i: int)
    requires
        n <= w.httproutes.len(),
        0 <= i < n,
        forall|j: int|
            i < j < n ==> status_key(
                (#[trigger] w.httproutes[j]).metadata.namespace,
                w.httproutes[j].metadata.name@,
            ) != status_key(w.httproutes[i].metadata.namespace, w.httproutes[i].metadata.name@),
    ensures
        ({
            let route = w.httproutes[i];
            let key = status_key(route.metadata.namespace, route.metadata.name@);
            let m = controller::route_statuses(w, n);
            m.dom().contains(key) && m[key] == controller::route_status(w, route)
        }),
    decreases n,
{
    let route = w.httproutes[n - 1];
    assert(controller::object_key(route.metadata.namespace, route.metadata.name@) == status_key(
        route.metadata.namespace,
        route.metadata.name@,
    ));
    if i < n - 1 {
        lemma_route_statuses(w, (n - 1) as nat, i);
    }
}

/// An HTTPRoute is told whether some own Gateway takes it, and whether all of
/// its backends have endpoints on record.
pub proof fn law_routes_are_told_whether_they_are_taken(w: Watched, i: int)
    requires
        0 <= i < w.httproutes.len(),
        forall|j: int|
            i < j < w.httproutes.len() ==> status_key(
                (#[trigger] w.httproutes[j]).metadata.namespace,
                w.httproutes[j].metadata.name@,
            ) != status_key(w.httproutes[i].metadata.namespace, w.httproutes[i].metadata.name@),
    ensures
        ({
            let route = w.httproutes[i];
            let m = controller::reconciliation(w).httproute_statuses;
            let key = status_key(route.metadata.namespace, route.metadata.name@);
            &&& m.dom().contains(key)
            &&& m[key].len() == 2
            &&& says(m[key][0], "Accepted"@, is_taken(w, route))
            &&& says(m[key][1], "ResolvedRefs"@, all_resolve(w, route))
        }),
{
    let route = w.httproutes[i];
    lemma_route_statuses(w, w.httproutes.len(), i);
    assert(controller::route_attached(w, route) <==> is_taken(w, route)) by {
        assert forall|k: int| 0 <= k < w.gateways.len() implies (controller::takes_route(
            w,
            #[trigger] w.gateways[k],
            route,
        ) <==> is_own(w, w.gateways[k]) && is_child_of(route, w.gateways[k])) by {
            law_own_gateways_are_of_own_classes(w, w.gateways[k]);
            carried::law_routes_attach_to_their_parents(route, w.gateways[k]);
        }
    }
    assert(controller::refs_resolved(w, route) <==> all_resolve(w, route)) by {
        assert forall|x: int, y: int|
            0 <= x < route.spec.rules@.len() && 0 <= y < route.spec.rules@[x].backend_refs@.len()
                implies (controller::backend_resolved(
            w,
            route,
            #[trigger] route.spec.rules@[x].backend_refs@[y],
        ) <==> w.endpoints.dom().contains(
            record_key(
                meant_namespace(route.spec.rules@[x].backend_refs@[y].namespace, route),
                route.spec.rules@[x].backend_refs@[y].name@,
                if route.spec.rules@[x].backend_refs@[y].port is Some {
                    route.spec.rules@[x].backend_refs@[y].port->Some_0
                } else {
                    80
                },
            ),
        )) by {}
        if controller::refs_resolved(w, route) {
            assert forall|x: int| 0 <= x < route.spec.rules@.len() implies rule_resolves(
                w,
                route,
                #[trigger] route.spec.rules@[x],
            ) by {}
        }
        if all_resolve(w, route) {
            assert forall|x: int, y: int|
                0 <= x < route.spec.rules@.len() && 0 <= y
                    < route.spec.rules@[x].backend_refs@.len() implies controller::backend_resolved(
                w,
                route,
                #[trigger] route.spec.rules@[x].backend_refs@[y],
            ) by {
                assert(rule_resolves(w, route, route.spec.rules@[x]));
            }
        }
    }
}

} // verus!
