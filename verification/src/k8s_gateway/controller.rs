//! Kubernetes Gateway API controller.
//!
//! [`Reconciler`] is the reconciliation core: it holds the current set of
//! watched resources (GatewayClass, Gateway, HTTPRoute, Ingress,
//! IngressClass, endpoints) and turns them into one gateway configuration
//! with status conditions (Accepted for a GatewayClass, Accepted and
//! Programmed for a Gateway, Accepted and ResolvedRefs for an HTTPRoute). It
//! needs no cluster.

use vstd::prelude::*;

use crate::config;
use crate::config::{Endpoint, Listener, Route, Service, Upstream};
use crate::k8s_gateway;
use crate::k8s_gateway::ingress;
use crate::k8s_gateway::ingress::{
    translate_ingress, Ingress, IngressClass, DEFAULT_INGRESS_CLASS,
};
use crate::k8s_gateway::reconciled;
use crate::k8s_gateway::{
    endpoint_key, namespace_str, route_attaches_to, translate, Gateway, GatewayClass,
    HttpBackendRef, HttpRoute, TranslationResult, TranslationView, CONTROLLER_NAME,
};
use crate::text;
use crate::text::{cat2, cat3, cat4, cat7, holds, same};
use crate::text_map::TextMap;

verus! {

broadcast use {crate::text::lemma_texts_push, crate::text::lemma_texts_add};

// ---------------------------------------------------------------------------
// Status
// ---------------------------------------------------------------------------

/// A status condition.
#[derive(Clone, Debug, PartialEq, Eq)]
pub struct Condition {
    pub type_: String,
    pub status: String,
    pub reason: String,
    pub message: String,
    pub observed_generation: Option<i64>,
}

/// The status of a GatewayClass (Accepted condition).
#[derive(Clone, Debug, PartialEq, Eq)]
pub struct GatewayClassStatus {
    pub conditions: Vec<Condition>,
}

/// The status of a Gateway (Accepted + Programmed conditions).
#[derive(Clone, Debug, PartialEq, Eq)]
pub struct GatewayStatus {
    pub conditions: Vec<Condition>,
}

/// The status of an HTTPRoute (Accepted + ResolvedRefs conditions).
#[derive(Clone, Debug, PartialEq, Eq)]
pub struct HttpRouteStatus {
    pub conditions: Vec<Condition>,
}

/// The reconciliation output: the translated config plus the status
/// conditions to patch back onto the watched resources.
#[derive(Clone)]
pub struct ReconcileOutput {
    /// The merged configuration (Gateway API + Ingress).
    pub config: TranslationResult,
    /// Status conditions for each GatewayClass (by name).
    pub gateway_class_statuses: TextMap<GatewayClassStatus>,
    /// Status conditions for each Gateway (by namespace/name).
    pub gateway_statuses: TextMap<GatewayStatus>,
    /// Status conditions for each HTTPRoute (by namespace/name).
    pub httproute_statuses: TextMap<HttpRouteStatus>,
}

#[verifier::ext_equal]
pub struct ConditionView {
    pub type_: Seq<char>,
    pub status: Seq<char>,
    pub reason: Seq<char>,
    pub message: Seq<char>,
    pub observed_generation: Option<i64>,
}

impl View for Condition {
    type V = ConditionView;

    open spec fn view(&self) -> ConditionView {
        ConditionView {
            type_: self.type_@,
            status: self.status@,
            reason: self.reason@,
            message: self.message@,
            observed_generation: self.observed_generation,
        }
    }
}

/// The views of a list of conditions.
pub open spec fn condition_views(v: Seq<Condition>) -> Seq<ConditionView> {
    v.map_values(|c: Condition| c@)
}

/// The conditions of each GatewayClass.
pub open spec fn class_conditions(m: Map<Seq<char>, GatewayClassStatus>) -> Map<
    Seq<char>,
    Seq<ConditionView>,
> {
    m.map_values(|s: GatewayClassStatus| condition_views(s.conditions@))
}

/// The conditions of each Gateway.
pub open spec fn gateway_conditions(m: Map<Seq<char>, GatewayStatus>) -> Map<
    Seq<char>,
    Seq<ConditionView>,
> {
    m.map_values(|s: GatewayStatus| condition_views(s.conditions@))
}

/// The conditions of each HTTPRoute.
pub open spec fn route_conditions(m: Map<Seq<char>, HttpRouteStatus>) -> Map<
    Seq<char>,
    Seq<ConditionView>,
> {
    m.map_values(|s: HttpRouteStatus| condition_views(s.conditions@))
}

/// A condition that has been observed on no particular generation.
pub open spec fn condition(
    type_: Seq<char>,
    status: Seq<char>,
    reason: Seq<char>,
    message: Seq<char>,
) -> ConditionView {
    ConditionView { type_, status, reason, message, observed_generation: None }
}

fn make_condition(type_: &str, status: &str, reason: &str, message: String) -> (c: Condition)
    ensures
        c@ == condition(type_@, status@, reason@, message@),
{
    Condition {
        type_: type_.to_owned(),
        status: status.to_owned(),
        reason: reason.to_owned(),
        message,
        observed_generation: None,
    }
}

#[verifier::ext_equal]
pub struct ReconcileView {
    pub config: TranslationView,
    pub gateway_class_statuses: Map<Seq<char>, Seq<ConditionView>>,
    pub gateway_statuses: Map<Seq<char>, Seq<ConditionView>>,
    pub httproute_statuses: Map<Seq<char>, Seq<ConditionView>>,
}

impl View for ReconcileOutput {
    type V = ReconcileView;

    open spec fn view(&self) -> ReconcileView {
        ReconcileView {
            config: self.config@,
            gateway_class_statuses: class_conditions(self.gateway_class_statuses@),
            gateway_statuses: gateway_conditions(self.gateway_statuses@),
            httproute_statuses: route_conditions(self.httproute_statuses@),
        }
    }
}

// ---------------------------------------------------------------------------
// What is watched
// ---------------------------------------------------------------------------

/// The pure reconciliation core. Holds the current set of watched
/// resources and produces a configuration and status conditions.
#[derive(Clone)]
pub struct Reconciler {
    controller_name: String,
    ingress_class: String,
    gateway_classes: Vec<GatewayClass>,
    gateways: Vec<Gateway>,
    httproutes: Vec<HttpRoute>,
    ingresses: Vec<Ingress>,
    ingress_classes: Vec<IngressClass>,
    endpoints: TextMap<Vec<Endpoint>>,
}

/// The resources that a reconciler watches.
#[verifier::ext_equal]
pub struct Watched {
    /// The controller name for GatewayClass filtering.
    pub controller_name: Seq<char>,
    /// The Ingress class name for Ingress filtering.
    pub ingress_class: Seq<char>,
    pub gateway_classes: Seq<GatewayClass>,
    pub gateways: Seq<Gateway>,
    pub httproutes: Seq<HttpRoute>,
    pub ingresses: Seq<Ingress>,
    pub ingress_classes: Seq<IngressClass>,
    /// The endpoints under `<namespace>/<service>:<port>`.
    pub endpoints: Map<Seq<char>, Vec<Endpoint>>,
}

impl View for Reconciler {
    type V = Watched;

    closed spec fn view(&self) -> Watched {
        Watched {
            controller_name: self.controller_name@,
            ingress_class: self.ingress_class@,
            gateway_classes: self.gateway_classes@,
            gateways: self.gateways@,
            httproutes: self.httproutes@,
            ingresses: self.ingresses@,
            ingress_classes: self.ingress_classes@,
            endpoints: self.endpoints@,
        }
    }
}

// ---------------------------------------------------------------------------
// GatewayClasses
// ---------------------------------------------------------------------------

/// The names of those of the first `n` GatewayClasses that the controller
/// accepts: those that name it.
pub open spec fn accepted_classes(
    gcs: Seq<GatewayClass>,
    controller: Seq<char>,
    n: nat,
) -> Seq<Seq<char>>
    decreases n,
{
    if n == 0 {
        seq![]
    } else {
        let before = accepted_classes(gcs, controller, (n - 1) as nat);
        if gcs[n - 1].spec.controller@ == controller {
            before.push(gcs[n - 1].metadata.name@)
        } else {
            before
        }
    }
}

/// The conditions of an accepted GatewayClass.
pub open spec fn class_accepted(gc: GatewayClass, controller: Seq<char>) -> Seq<ConditionView> {
    seq![
        condition(
            "Accepted"@,
            "True"@,
            "Accepted"@,
            "GatewayClass "@ + gc.metadata.name@ + " accepted by controller "@ + controller,
        ),
    ]
}

/// The conditions of a GatewayClass of another controller.
pub open spec fn class_rejected(gc: GatewayClass, controller: Seq<char>) -> Seq<ConditionView> {
    seq![
        condition(
            "Accepted"@,
            "False"@,
            "InvalidController"@,
            "GatewayClass "@ + gc.metadata.name@ + " controller '"@ + gc.spec.controller@
                + "' does not match '"@ + controller + "'"@,
        ),
    ]
}

/// The statuses of the accepted ones among the first `n` GatewayClasses.
pub open spec fn accepted_statuses(
    gcs: Seq<GatewayClass>,
    controller: Seq<char>,
    n: nat,
) -> Map<Seq<char>, Seq<ConditionView>>
    decreases n,
{
    if n == 0 {
        Map::empty()
    } else {
        let before = accepted_statuses(gcs, controller, (n - 1) as nat);
        let gc = gcs[n - 1];
        if gc.spec.controller@ == controller {
            before.insert(gc.metadata.name@, class_accepted(gc, controller))
        } else {
            before
        }
    }
}

/// `m` with the statuses of the rejected ones among the first `n`
/// GatewayClasses.
pub open spec fn rejected_statuses(
    m: Map<Seq<char>, Seq<ConditionView>>,
    gcs: Seq<GatewayClass>,
    controller: Seq<char>,
    n: nat,
) -> Map<Seq<char>, Seq<ConditionView>>
    decreases n,
{
    if n == 0 {
        m
    } else {
        let before = rejected_statuses(m, gcs, controller, (n - 1) as nat);
        let gc = gcs[n - 1];
        if gc.spec.controller@ == controller {
            before
        } else {
            before.insert(gc.metadata.name@, class_rejected(gc, controller))
        }
    }
}

/// The statuses of all GatewayClasses.
pub open spec fn class_statuses(gcs: Seq<GatewayClass>, controller: Seq<char>) -> Map<
    Seq<char>,
    Seq<ConditionView>,
> {
    rejected_statuses(
        accepted_statuses(gcs, controller, gcs.len()),
        gcs,
        controller,
        gcs.len(),
    )
}

// ---------------------------------------------------------------------------
// Gateways
// ---------------------------------------------------------------------------

/// What the translated Gateways come to so far.
#[verifier::ext_equal]
pub struct Merged {
    pub listeners: Seq<config::ListenerView>,
    pub routes: Seq<config::RouteView>,
    pub services: Seq<config::ServiceView>,
    pub upstreams: Seq<config::UpstreamView>,
    pub warnings: Seq<Seq<char>>,
}

impl Merged {
    /// This configuration followed by a translated one.
    pub open spec fn then_translated(self, t: TranslationView) -> Merged {
        Merged {
            listeners: self.listeners + t.gateway.listeners,
            routes: self.routes + t.gateway.routes,
            services: self.services + t.gateway.services,
            upstreams: self.upstreams + t.gateway.upstreams,
            warnings: self.warnings + t.warnings,
        }
    }
}

/// The configuration of nothing.
pub open spec fn merged_nothing() -> Merged {
    Merged {
        listeners: seq![],
        routes: seq![],
        services: seq![],
        upstreams: seq![],
        warnings: seq![],
    }
}

/// `<namespace>/<name>`.
pub open spec fn object_key(ns: Option<String>, name: Seq<char>) -> Seq<char> {
    k8s_gateway::namespace_of(ns) + "/"@ + name
}

/// Whether the Gateway is of an accepted class.
pub open spec fn is_ours(w: Watched, gw: Gateway) -> bool {
    accepted_classes(w.gateway_classes, w.controller_name, w.gateway_classes.len()).contains(
        gw.spec.gateway_class_name@,
    )
}

/// The configurations of the accepted ones among the first `n` Gateways, one
/// after the other.
pub open spec fn merged_gateways(w: Watched, n: nat) -> Merged
    decreases n,
{
    if n == 0 {
        merged_nothing()
    } else {
        let before = merged_gateways(w, (n - 1) as nat);
        let gw = w.gateways[n - 1];
        if is_ours(w, gw) {
            before.then_translated(k8s_gateway::translation(gw, w.httproutes, w.endpoints))
        } else {
            before
        }
    }
}

/// The conditions of a Gateway.
pub open spec fn gateway_status(w: Watched, gw: Gateway) -> Seq<ConditionView> {
    if is_ours(w, gw) {
        seq![
            condition("Accepted"@, "True"@, "Accepted"@, "Gateway accepted and programmed"@),
            condition("Programmed"@, "True"@, "Programmed"@, "Gateway config published"@),
        ]
    } else {
        seq![
            condition(
                "Accepted"@,
                "False"@,
                "InvalidGatewayClass"@,
                "Gateway references GatewayClass '"@ + gw.spec.gateway_class_name@
                    + "' not controlled by "@ + w.controller_name,
            ),
        ]
    }
}

/// The statuses of the first `n` Gateways.
pub open spec fn gateway_statuses(w: Watched, n: nat) -> Map<Seq<char>, Seq<ConditionView>>
    decreases n,
{
    if n == 0 {
        Map::empty()
    } else {
        let gw = w.gateways[n - 1];
        gateway_statuses(w, (n - 1) as nat).insert(
            object_key(gw.metadata.namespace, gw.metadata.name@),
            gateway_status(w, gw),
        )
    }
}

// ---------------------------------------------------------------------------
// HTTPRoutes
// ---------------------------------------------------------------------------

/// Whether a Gateway is ours and the route attaches to it.
pub open spec fn takes_route(w: Watched, gw: Gateway, route: HttpRoute) -> bool {
    is_ours(w, gw) && k8s_gateway::attaches(route, gw.metadata.name@, gw.metadata.namespace)
}

/// Whether the route attaches to one of our Gateways.
pub open spec fn route_attached(w: Watched, route: HttpRoute) -> bool {
    exists|i: int| 0 <= i < w.gateways.len() && takes_route(w, #[trigger] w.gateways[i], route)
}

/// Whether a backend of the route has endpoints on record.
pub open spec fn backend_resolved(w: Watched, route: HttpRoute, b: HttpBackendRef) -> bool {
    w.endpoints.dom().contains(
        k8s_gateway::key_of(
            k8s_gateway::backend_namespace(b, route),
            b.name@,
            k8s_gateway::backend_port(b),
        ),
    )
}

/// Whether every backend of every rule has endpoints on record.
pub open spec fn refs_resolved(w: Watched, route: HttpRoute) -> bool {
    forall|i: int, j: int|
        0 <= i < route.spec.rules@.len() && 0 <= j < route.spec.rules@[i].backend_refs@.len()
            ==> backend_resolved(w, route, #[trigger] route.spec.rules@[i].backend_refs@[j])
}

/// The conditions of an HTTPRoute.
pub open spec fn route_status(w: Watched, route: HttpRoute) -> Seq<ConditionView> {
    seq![
        if route_attached(w, route) {
            condition("Accepted"@, "True"@, "Accepted"@, "Route accepted by a Gateway"@)
        } else {
            condition(
                "Accepted"@,
                "False"@,
                "NoMatchingGateway"@,
                "Route does not attach to any Gateway"@,
            )
        },
        if refs_resolved(w, route) {
            condition(
                "ResolvedRefs"@,
                "True"@,
                "ResolvedRefs"@,
                "All backend references resolved"@,
            )
        } else {
            condition(
                "ResolvedRefs"@,
                "False"@,
                "BackendNotFound"@,
                "One or more backend references could not be resolved"@,
            )
        },
    ]
}

/// The statuses of the first `n` HTTPRoutes.
pub open spec fn route_statuses(w: Watched, n: nat) -> Map<Seq<char>, Seq<ConditionView>>
    decreases n,
{
    if n == 0 {
        Map::empty()
    } else {
        let route = w.httproutes[n - 1];
        route_statuses(w, (n - 1) as nat).insert(
            object_key(route.metadata.namespace, route.metadata.name@),
            route_status(w, route),
        )
    }
}

// ---------------------------------------------------------------------------
// Reconciliation
// ---------------------------------------------------------------------------

/// The configuration and the statuses of what is watched: the accepted
/// Gateways in order, then the Ingresses.
pub open spec fn reconciliation(w: Watched) -> ReconcileView {
    let merged = merged_gateways(w, w.gateways.len()).then_translated(
        ingress::ingress_translation(w.ingresses, w.ingress_class, w.endpoints),
    );
    ReconcileView {
        config: TranslationView {
            gateway: config::GatewayView {
                listeners: merged.listeners,
                routes: merged.routes,
                services: merged.services,
                upstreams: merged.upstreams,
                allow_empty_routes: true,
            },
            warnings: merged.warnings,
        },
        gateway_class_statuses: class_statuses(w.gateway_classes, w.controller_name),
        gateway_statuses: gateway_statuses(w, w.gateways.len()),
        httproute_statuses: route_statuses(w, w.httproutes.len()),
    }
}

/// The configuration merged so far.
struct Merge {
    listeners: Vec<Listener>,
    routes: Vec<Route>,
    services: Vec<Service>,
    upstreams: Vec<Upstream>,
    warnings: Vec<String>,
}

impl Merge {
    spec fn merged(self) -> Merged {
        Merged {
            listeners: config::listener_views(self.listeners@),
            routes: config::route_views(self.routes@),
            services: config::service_views(self.services@),
            upstreams: config::upstream_views(self.upstreams@),
            warnings: text::texts(self.warnings@),
        }
    }

    fn take_in(&mut self, t: TranslationResult)
        ensures
            final(self).merged() == old(self).merged().then_translated(t@),
    {
        let mut t = t;
        let ghost wanted = self.merged().then_translated(t@);
        self.listeners.append(&mut t.gateway.listeners);
        self.routes.append(&mut t.gateway.routes);
        self.services.append(&mut t.gateway.services);
        self.upstreams.append(&mut t.gateway.upstreams);
        self.warnings.append(&mut t.warnings);
        assert(self.merged().listeners =~= wanted.listeners);
        assert(self.merged().routes =~= wanted.routes);
        assert(self.merged().services =~= wanted.services);
        assert(self.merged().upstreams =~= wanted.upstreams);
        assert(self.merged().warnings =~= wanted.warnings);
    }
}

fn key_of_object(ns: &Option<String>, name: &String) -> (k: String)
    ensures
        k@ == object_key(*ns, name@),
{
    cat3(namespace_str(ns, "default"), "/", name.as_str())
}

impl Reconciler {
    /// Create a new Reconciler with the given controller and Ingress class.
    pub fn new(controller_name: &str, ingress_class: &str) -> (r: Self)
        ensures
            r@ == (Watched {
                controller_name: controller_name@,
                ingress_class: ingress_class@,
                gateway_classes: seq![],
                gateways: seq![],
                httproutes: seq![],
                ingresses: seq![],
                ingress_classes: seq![],
                endpoints: Map::empty(),
            }),
    {
        let r = Reconciler {
            controller_name: controller_name.to_owned(),
            ingress_class: ingress_class.to_owned(),
            gateway_classes: Vec::new(),
            gateways: Vec::new(),
            httproutes: Vec::new(),
            ingresses: Vec::new(),
            ingress_classes: Vec::new(),
            endpoints: TextMap::new(),
        };
        assert(r@.gateway_classes =~= seq![]);
        assert(r@.gateways =~= seq![]);
        assert(r@.httproutes =~= seq![]);
        assert(r@.ingresses =~= seq![]);
        assert(r@.ingress_classes =~= seq![]);
        r
    }

    /// Create a Reconciler with the default controller name and Ingress
    /// class.
    pub fn with_defaults() -> (r: Self)
        ensures
            r@ == (Watched {
                controller_name: CONTROLLER_NAME@,
                ingress_class: DEFAULT_INGRESS_CLASS@,
                gateway_classes: seq![],
                gateways: seq![],
                httproutes: seq![],
                ingresses: seq![],
                ingress_classes: seq![],
                endpoints: Map::empty(),
            }),
    {
        Self::new(CONTROLLER_NAME, DEFAULT_INGRESS_CLASS)
    }

    /// Set the watched GatewayClasses.
    pub fn with_gateway_classes(self, gcs: Vec<GatewayClass>) -> (r: Self)
        ensures
            r@ == (Watched { gateway_classes: gcs@, ..self@ }),
    {
        Reconciler { gateway_classes: gcs, ..self }
    }

    /// Set the watched Gateways.
    pub fn with_gateways(self, gws: Vec<Gateway>) -> (r: Self)
        ensures
            r@ == (Watched { gateways: gws@, ..self@ }),
    {
        Reconciler { gateways: gws, ..self }
    }

    /// Set the watched HTTPRoutes.
    pub fn with_httproutes(self, routes: Vec<HttpRoute>) -> (r: Self)
        ensures
            r@ == (Watched { httproutes: routes@, ..self@ }),
    {
        Reconciler { httproutes: routes, ..self }
    }

    /// Set the watched Ingresses.
    pub fn with_ingresses(self, ingresses: Vec<Ingress>) -> (r: Self)
        ensures
            r@ == (Watched { ingresses: ingresses@, ..self@ }),
    {
        Reconciler { ingresses, ..self }
    }

    /// Set the watched IngressClasses.
    pub fn with_ingress_classes(self, classes: Vec<IngressClass>) -> (r: Self)
        ensures
            r@ == (Watched { ingress_classes: classes@, ..self@ }),
    {
        Reconciler { ingress_classes: classes, ..self }
    }

    /// Set the endpoint map.
    pub fn with_endpoints(self, endpoints: TextMap<Vec<Endpoint>>) -> (r: Self)
        ensures
            r@ == (Watched { endpoints: endpoints@, ..self@ }),
    {
        Reconciler { endpoints, ..self }
    }

    /// Update the GatewayClasses (called by the controller on watch events).
    pub fn set_gateway_classes(&mut self, gcs: Vec<GatewayClass>)
        ensures
            final(self)@ == (Watched { gateway_classes: gcs@, ..old(self)@ }),
    {
        self.gateway_classes = gcs;
    }

    /// Update the Gateways.
    pub fn set_gateways(&mut self, gws: Vec<Gateway>)
        ensures
            final(self)@ == (Watched { gateways: gws@, ..old(self)@ }),
    {
        self.gateways = gws;
    }

    /// Update the HTTPRoutes.
    pub fn set_httproutes(&mut self, routes: Vec<HttpRoute>)
        ensures
            final(self)@ == (Watched { httproutes: routes@, ..old(self)@ }),
    {
        self.httproutes = routes;
    }

    /// Update the Ingresses.
    pub fn set_ingresses(&mut self, ingresses: Vec<Ingress>)
        ensures
            final(self)@ == (Watched { ingresses: ingresses@, ..old(self)@ }),
    {
        self.ingresses = ingresses;
    }

    /// Update the endpoints.
    pub fn set_endpoints(&mut self, endpoints: TextMap<Vec<Endpoint>>)
        ensures
            final(self)@ == (Watched { endpoints: endpoints@, ..old(self)@ }),
    {
        self.endpoints = endpoints;
    }

    fn accept_classes(&self) -> (r: (Vec<String>, TextMap<GatewayClassStatus>))
        ensures
            text::texts(r.0@) == accepted_classes(
                self@.gateway_classes,
                self@.controller_name,
                self@.gateway_classes.len(),
            ),
            class_conditions(r.1@) == class_statuses(self@.gateway_classes, self@.controller_name),
    {
        let ghost gcs = self.gateway_classes@;
        let ghost controller = self.controller_name@;
        let mut names: Vec<String> = Vec::new();
        let mut statuses: TextMap<GatewayClassStatus> = TextMap::new();
        assert(text::texts(names@) =~= seq![]);
        assert(class_conditions(statuses@) =~= Map::empty());
        let mut i: usize = 0;
        while i < self.gateway_classes.len()
            invariant
                i <= self.gateway_classes.len(),
                gcs == self.gateway_classes@,
                controller == self.controller_name@,
                text::texts(names@) == accepted_classes(gcs, controller, i as nat),
                class_conditions(statuses@) == accepted_statuses(gcs, controller, i as nat),
            decreases self.gateway_classes.len() - i,
        {
            let gc = &self.gateway_classes[i];
            if same(gc.spec.controller.as_str(), self.controller_name.as_str()) {
                let message = cat4(
                    "GatewayClass ",
                    gc.metadata.name.as_str(),
                    " accepted by controller ",
                    self.controller_name.as_str(),
                );
                let status = GatewayClassStatus {
                    conditions: vec![make_condition("Accepted", "True", "Accepted", message)],
                };
                assert(condition_views(status.conditions@) =~= class_accepted(
                    gcs[i as int],
                    controller,
                ));
                let ghost before = statuses@;
                statuses.insert(gc.metadata.name.clone(), status);
                assert(class_conditions(statuses@) =~= class_conditions(before).insert(
                    gc.metadata.name@,
                    class_accepted(gcs[i as int], controller),
                ));
                names.push(gc.metadata.name.clone());
            }
            i = i + 1;
        }
        let ghost accepted = class_conditions(statuses@);
        i = 0;
        while i < self.gateway_classes.len()
            invariant
                i <= self.gateway_classes.len(),
                gcs == self.gateway_classes@,
                controller == self.controller_name@,
                class_conditions(statuses@) == rejected_statuses(
                    accepted,
                    gcs,
                    controller,
                    i as nat,
                ),
            decreases self.gateway_classes.len() - i,
        {
            let gc = &self.gateway_classes[i];
            if !same(gc.spec.controller.as_str(), self.controller_name.as_str()) {
                let message = cat7(
                    "GatewayClass ",
                    gc.metadata.name.as_str(),
                    " controller '",
                    gc.spec.controller.as_str(),
                    "' does not match '",
                    self.controller_name.as_str(),
                    "'",
                );
                let status = GatewayClassStatus {
                    conditions: vec![
                        make_condition("Accepted", "False", "InvalidController", message),
                    ],
                };
                assert(condition_views(status.conditions@) =~= class_rejected(
                    gcs[i as int],
                    controller,
                ));
                let ghost before = statuses@;
                statuses.insert(gc.metadata.name.clone(), status);
                assert(class_conditions(statuses@) =~= class_conditions(before).insert(
                    gc.metadata.name@,
                    class_rejected(gcs[i as int], controller),
                ));
            }
            i = i + 1;
        }
        (names, statuses)
    }

    fn gateway_status_of(&self, gw: &Gateway, ours: bool) -> (r: GatewayStatus)
        requires
            ours == is_ours(self@, *gw),
        ensures
            condition_views(r.conditions@) == gateway_status(self@, *gw),
    {
        let r = if ours {
            GatewayStatus {
                conditions: vec![
                    make_condition(
                        "Accepted",
                        "True",
                        "Accepted",
                        "Gateway accepted and programmed".to_owned(),
                    ),
                    make_condition(
                        "Programmed",
                        "True",
                        "Programmed",
                        "Gateway config published".to_owned(),
                    ),
                ],
            }
        } else {
            let message = cat4(
                "Gateway references GatewayClass '",
                gw.spec.gateway_class_name.as_str(),
                "' not controlled by ",
                self.controller_name.as_str(),
            );
            GatewayStatus {
                conditions: vec![
                    make_condition("Accepted", "False", "InvalidGatewayClass", message),
                ],
            }
        };
        assert(condition_views(r.conditions@) =~= gateway_status(self@, *gw));
        r
    }

    fn attached(&self, accepted: &Vec<String>, route: &HttpRoute) -> (r: bool)
        requires
            text::texts(accepted@) == accepted_classes(
                self@.gateway_classes,
                self@.controller_name,
                self@.gateway_classes.len(),
            ),
        ensures
            r == route_attached(self@, *route),
    {
        let ghost w = self@;
        let mut i: usize = 0;
        while i < self.gateways.len()
            invariant
                i <= self.gateways.len(),
                w == self@,
                w.gateways == self.gateways@,
                text::texts(accepted@) == accepted_classes(
                    w.gateway_classes,
                    w.controller_name,
                    w.gateway_classes.len(),
                ),
                forall|j: int| 0 <= j < i ==> !takes_route(w, #[trigger] w.gateways[j], *route),
            decreases self.gateways.len() - i,
        {
            let gw = &self.gateways[i];
            if holds(accepted, gw.spec.gateway_class_name.as_str()) && route_attaches_to(
                route,
                gw.metadata.name.as_str(),
                &gw.metadata.namespace,
            ) {
                assert(takes_route(w, w.gateways[i as int], *route));
                return true;
            }
            i = i + 1;
        }
        false
    }

    fn resolved(&self, route: &HttpRoute) -> (r: bool)
        ensures
            r == refs_resolved(self@, *route),
    {
        let ghost w = self@;
        let rules = &route.spec.rules;
        let mut i: usize = 0;
        while i < rules.len()
            invariant
                i <= rules.len(),
                w == self@,
                rules@ == route.spec.rules@,
                forall|a: int, b: int|
                    0 <= a < i && 0 <= b < rules@[a].backend_refs@.len() ==> backend_resolved(
                        w,
                        *route,
                        #[trigger] rules@[a].backend_refs@[b],
                    ),
            decreases rules.len() - i,
        {
            let refs = &rules[i].backend_refs;
            let mut j: usize = 0;
            while j < refs.len()
                invariant
                    j <= refs.len(),
                    i < rules.len(),
                    w == self@,
                    rules@ == route.spec.rules@,
                    refs@ == rules@[i as int].backend_refs@,
                    forall|b: int| 0 <= b < j ==> backend_resolved(w, *route, #[trigger] refs@[b]),
                decreases refs.len() - j,
            {
                let b = &refs[j];
                let port = match b.port {
                    Some(p) => p,
                    None => 80,
                };
                let route_ns = namespace_str(&route.metadata.namespace, "default");
                let key = endpoint_key(
                    namespace_str(&b.namespace, route_ns),
                    b.name.as_str(),
                    port,
                );
                if !self.endpoints.contains_key(key.as_str()) {
                    assert(!backend_resolved(
                        w,
                        *route,
                        route.spec.rules@[i as int].backend_refs@[j as int],
                    ));
                    return false;
                }
                j = j + 1;
            }
            i = i + 1;
        }
        true
    }

    fn route_status_of(&self, accepted: &Vec<String>, route: &HttpRoute) -> (r: HttpRouteStatus)
        requires
            text::texts(accepted@) == accepted_classes(
                self@.gateway_classes,
                self@.controller_name,
                self@.gateway_classes.len(),
            ),
        ensures
            condition_views(r.conditions@) == route_status(self@, *route),
    {
        let first = if self.attached(accepted, route) {
            make_condition(
                "Accepted",
                "True",
                "Accepted",
                "Route accepted by a Gateway".to_owned(),
            )
        } else {
            make_condition(
                "Accepted",
                "False",
                "NoMatchingGateway",
                "Route does not attach to any Gateway".to_owned(),
            )
        };
        let second = if self.resolved(route) {
            make_condition(
                "ResolvedRefs",
                "True",
                "ResolvedRefs",
                "All backend references resolved".to_owned(),
            )
        } else {
            make_condition(
                "ResolvedRefs",
                "False",
                "BackendNotFound",
                "One or more backend references could not be resolved".to_owned(),
            )
        };
        let r = HttpRouteStatus { conditions: vec![first, second] };
        assert(condition_views(r.conditions@) =~= route_status(self@, *route));
        r
    }

    /// Run the reconciliation: translate all watched resources into one
    /// configuration and compute status conditions.
    pub fn reconcile(&self) -> (r: Result<ReconcileOutput, String>)
        ensures
            r is Ok,
            r->Ok_0@ == reconciliation(self@),
            reconciled::publishes(r->Ok_0@.config.gateway, self@),
    {
        let ghost w = self@;
        proof {
            reconciled::law_reconciliation_publishes_what_is_watched(w);
        }
        let (accepted, gateway_class_statuses) = self.accept_classes();
        let mut merge = Merge {
            listeners: Vec::new(),
            routes: Vec::new(),
            services: Vec::new(),
            upstreams: Vec::new(),
            warnings: Vec::new(),
        };
        assert(merge.merged() =~= merged_nothing());
        let mut statuses: TextMap<GatewayStatus> = TextMap::new();
        assert(gateway_conditions(statuses@) =~= Map::empty());
        let mut i: usize = 0;
        while i < self.gateways.len()
            invariant
                i <= self.gateways.len(),
                w == self@,
                text::texts(accepted@) == accepted_classes(
                    w.gateway_classes,
                    w.controller_name,
                    w.gateway_classes.len(),
                ),
                merge.merged() == merged_gateways(w, i as nat),
                gateway_conditions(statuses@) == gateway_statuses(w, i as nat),
            decreases self.gateways.len() - i,
        {
            let gw = &self.gateways[i];
            let key = key_of_object(&gw.metadata.namespace, &gw.metadata.name);
            let ours = holds(&accepted, gw.spec.gateway_class_name.as_str());
            if ours {
                match translate(gw, &self.httproutes, &self.endpoints) {
                    Ok(t) => {
                        merge.take_in(t);
                    },
                    Err(e) => {
                        return Err(
                            cat4(
                                "translation failed for Gateway ",
                                key.as_str(),
                                ": ",
                                e.as_str(),
                            ),
                        );
                    },
                }
            }
            let status = self.gateway_status_of(gw, ours);
            let ghost before = statuses@;
            statuses.insert(key, status);
            assert(gateway_conditions(statuses@) =~= gateway_conditions(before).insert(
                key@,
                gateway_status(w, *gw),
            ));
            i = i + 1;
        }
        let mut route_map: TextMap<HttpRouteStatus> = TextMap::new();
        assert(route_conditions(route_map@) =~= Map::empty());
        i = 0;
        while i < self.httproutes.len()
            invariant
                i <= self.httproutes.len(),
                w == self@,
                text::texts(accepted@) == accepted_classes(
                    w.gateway_classes,
                    w.controller_name,
                    w.gateway_classes.len(),
                ),
                route_conditions(route_map@) == route_statuses(w, i as nat),
            decreases self.httproutes.len() - i,
        {
            let route = &self.httproutes[i];
            let key = key_of_object(&route.metadata.namespace, &route.metadata.name);
            let status = self.route_status_of(&accepted, route);
            let ghost before = route_map@;
            route_map.insert(key, status);
            assert(route_conditions(route_map@) =~= route_conditions(before).insert(
                key@,
                route_status(w, *route),
            ));
            i = i + 1;
        }
        match translate_ingress(&self.ingresses, self.ingress_class.as_str(), &self.endpoints) {
            Ok(t) => {
                merge.take_in(t);
            },
            Err(e) => {
                return Err(cat2("Ingress translation failed: ", e.as_str()));
            },
        }
        Ok(
            ReconcileOutput {
                config: TranslationResult {
                    gateway: config::Gateway {
                        listeners: merge.listeners,
                        routes: merge.routes,
                        services: merge.services,
                        upstreams: merge.upstreams,
                        allow_empty_routes: true,
                    },
                    warnings: merge.warnings,
                },
                gateway_class_statuses,
                gateway_statuses: statuses,
                httproute_statuses: route_map,
            },
        )
    }
}

/// Configuration of the controller.
#[derive(Clone, Debug)]
pub struct ControllerConfig {
    /// The controller name for GatewayClass filtering.
    pub controller_name: String,
    /// The Ingress class name for Ingress filtering.
    pub ingress_class: String,
    /// The output path for the generated configuration.
    pub output_config_path: String,
    /// The namespace to watch (empty = all namespaces).
    pub namespace: String,
}

impl Default for ControllerConfig {
    fn default() -> (c: Self)
        ensures
            c.controller_name@ == CONTROLLER_NAME@,
            c.ingress_class@ == DEFAULT_INGRESS_CLASS@,
            c.output_config_path@ == "/etc/dwara/dwara.yaml"@,
            c.namespace@ == Seq::<char>::empty(),
    {
        ControllerConfig {
            controller_name: CONTROLLER_NAME.to_owned(),
            ingress_class: DEFAULT_INGRESS_CLASS.to_owned(),
            output_config_path: "/etc/dwara/dwara.yaml".to_owned(),
            namespace: String::new(),
        }
    }
}

/// A controller: its configuration and the reconciler it feeds.
pub struct Controller {
    config: ControllerConfig,
    reconciler: Reconciler,
}

impl Controller {
    /// The configuration.
    pub closed spec fn configured(self) -> ControllerConfig {
        self.config
    }

    /// What the reconciler watches.
    pub closed spec fn watched(self) -> Watched {
        self.reconciler@
    }

    /// Create a new controller with the given configuration.
    pub fn new(config: ControllerConfig) -> (c: Self)
        ensures
            c.configured() == config,
            c.watched() == (Watched {
                controller_name: config.controller_name@,
                ingress_class: config.ingress_class@,
                gateway_classes: seq![],
                gateways: seq![],
                httproutes: seq![],
                ingresses: seq![],
                ingress_classes: seq![],
                endpoints: Map::empty(),
            }),
    {
        let reconciler = Reconciler::new(
            config.controller_name.as_str(),
            config.ingress_class.as_str(),
        );
        Controller { config, reconciler }
    }

    /// The configuration.
    pub fn config(&self) -> (c: &ControllerConfig)
        ensures
            *c == self.configured(),
    {
        &self.config
    }

    /// The reconciler.
    pub fn reconciler(&self) -> (r: &Reconciler)
        ensures
            r@ == self.watched(),
    {
        &self.reconciler
    }
}

} // verus!
