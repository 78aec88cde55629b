//! The metric families and what is recorded in them.
//!
//! A family has a name, a help text, a kind and label names. What happened is
//! turned into updates: which family, under which label values, and how it
//! changes. A registry that is made of [`families`] can take every update,
//! since an update carries as many label values as its family has labels.

use vstd::prelude::*;
use vstd::string::*;

use crate::observability::{status_class, Observability};
use crate::text;
use crate::text::decimal;

verus! {

/// How a family counts.
#[derive(Debug, Clone, Copy, PartialEq, Eq, Structural)]
pub enum Kind {
    /// A number that only grows.
    Counter,
    /// A number that is set.
    Gauge,
    /// Observed values in buckets.
    Histogram,
}

/// A metric family.
#[derive(Debug, Clone, Copy, PartialEq, Eq, Structural)]
pub enum Family {
    RequestsTotal,
    RequestDuration,
    UpstreamAttemptsTotal,
    RetriesTotal,
    RateLimitedTotal,
    ShedTotal,
    BreakerState,
    EndpointHealth,
    FailOpenPicks,
    JwksRefreshTotal,
    ActiveRequests,
    ConfigGeneration,
    RateLimiterEvictions,
    RateLimiterLiveKeys,
}

/// What a registry has to know of a family.
#[derive(Debug, Clone)]
pub struct Definition {
    pub name: &'static str,
    pub help: &'static str,
    pub kind: Kind,
    pub labels: Vec<&'static str>,
}

/// The name of a family.
pub open spec fn name_of(f: Family) -> Seq<char> {
    match f {
        Family::RequestsTotal => "requests_total"@,
        Family::RequestDuration => "request_duration_seconds"@,
        Family::UpstreamAttemptsTotal => "upstream_attempts_total"@,
        Family::RetriesTotal => "retries_total"@,
        Family::RateLimitedTotal => "rate_limited_total"@,
        Family::ShedTotal => "shed_total"@,
        Family::BreakerState => "breaker_state"@,
        Family::EndpointHealth => "endpoint_health"@,
        Family::FailOpenPicks => "upstream_fail_open_picks"@,
        Family::JwksRefreshTotal => "jwks_refresh_total"@,
        Family::ActiveRequests => "active_requests"@,
        Family::ConfigGeneration => "config_generation"@,
        Family::RateLimiterEvictions => "dwara_rate_limiter_evictions_total"@,
        Family::RateLimiterLiveKeys => "dwara_rate_limiter_live_keys"@,
    }
}

/// The help text of a family.
pub open spec fn help_of(f: Family) -> Seq<char> {
    match f {
        Family::RequestsTotal => "Requests handled by the gateway, by route/listener/status class."@,
        Family::RequestDuration => "Gateway request latency (route resolution to response headers)."@,
        Family::UpstreamAttemptsTotal => "Upstream send attempts, by upstream/endpoint/status class."@,
        Family::RetriesTotal => "Retried upstream attempts, by upstream."@,
        Family::RateLimitedTotal => "Requests denied by rate limiting, by route."@,
        Family::ShedTotal => "Requests shed by the gateway concurrency cap, by priority class."@,
        Family::BreakerState => "Upstream circuit breaker state: 0 closed, 1 open, 2 half-open."@,
        Family::EndpointHealth => "Endpoint availability under passive/active health: 1 available, 0 ejected."@,
        Family::FailOpenPicks => "Balancer picks that fail-opened over an all-ejected pool (scrape-time snapshot)."@,
        Family::JwksRefreshTotal => "JWKS fetch attempts (stale and rotation-triggered), by provider."@,
        Family::ActiveRequests => "Requests currently between handle() entry and response-header completion."@,
        Family::ConfigGeneration => "Currently published configuration generation number."@,
        Family::RateLimiterEvictions => "Rate-limiter per-key cells dropped by eviction sweeps, aggregated over every compiled rule (scrape-time snapshot of the engine's monotonic counter; resets when a reload rebuilds the engine)."@,
        Family::RateLimiterLiveKeys => "Live per-key rate-limiter cells across every compiled rule (approximate under concurrent checks; bounded by the sharded store cap per window)."@,
    }
}

/// The kind of a family.
pub open spec fn kind_of(f: Family) -> Kind {
    match f {
        Family::RequestsTotal => Kind::Counter,
        Family::RequestDuration => Kind::Histogram,
        Family::UpstreamAttemptsTotal => Kind::Counter,
        Family::RetriesTotal => Kind::Counter,
        Family::RateLimitedTotal => Kind::Counter,
        Family::ShedTotal => Kind::Counter,
        Family::BreakerState => Kind::Gauge,
        Family::EndpointHealth => Kind::Gauge,
        Family::FailOpenPicks => Kind::Gauge,
        Family::JwksRefreshTotal => Kind::Counter,
        Family::ActiveRequests => Kind::Gauge,
        Family::ConfigGeneration => Kind::Gauge,
        Family::RateLimiterEvictions => Kind::Gauge,
        Family::RateLimiterLiveKeys => Kind::Gauge,
    }
}

/// The label names of a family.
pub open spec fn labels_of(f: Family) -> Seq<Seq<char>> {
    match f {
        Family::RequestsTotal => seq!["route"@, "listener"@, "status_class"@],
        Family::RequestDuration => seq!["route"@],
        Family::UpstreamAttemptsTotal => seq!["upstream"@, "endpoint"@, "status_class"@],
        Family::RetriesTotal => seq!["upstream"@],
        Family::RateLimitedTotal => seq!["route"@],
        Family::ShedTotal => seq!["priority"@],
        Family::BreakerState => seq!["upstream"@],
        Family::EndpointHealth => seq!["upstream"@, "endpoint"@],
        Family::FailOpenPicks => seq!["upstream"@],
        Family::JwksRefreshTotal => seq!["provider"@],
        Family::ActiveRequests => seq![],
        Family::ConfigGeneration => seq![],
        Family::RateLimiterEvictions => seq![],
        Family::RateLimiterLiveKeys => seq![],
    }
}

/// The families in the order in which they are registered.
pub open spec fn all_families() -> Seq<Family> {
    seq![
        Family::RequestsTotal,
        Family::RequestDuration,
        Family::UpstreamAttemptsTotal,
        Family::RetriesTotal,
        Family::RateLimitedTotal,
        Family::ShedTotal,
        Family::BreakerState,
        Family::EndpointHealth,
        Family::FailOpenPicks,
        Family::JwksRefreshTotal,
        Family::ActiveRequests,
        Family::ConfigGeneration,
        Family::RateLimiterEvictions,
        Family::RateLimiterLiveKeys,
    ]
}

/// The families in the order in which they are registered.
pub fn families() -> (r: Vec<Family>)
    ensures
        r@ == all_families(),
{
    let r: Vec<Family> = vec![
        Family::RequestsTotal,
        Family::RequestDuration,
        Family::UpstreamAttemptsTotal,
        Family::RetriesTotal,
        Family::RateLimitedTotal,
        Family::ShedTotal,
        Family::BreakerState,
        Family::EndpointHealth,
        Family::FailOpenPicks,
        Family::JwksRefreshTotal,
        Family::ActiveRequests,
        Family::ConfigGeneration,
        Family::RateLimiterEvictions,
        Family::RateLimiterLiveKeys,
    ];
    assert(r@ =~= all_families());
    r
}

fn names(labels: Vec<&'static str>, Ghost(expected): Ghost<Seq<Seq<char>>>) -> (r: Vec<
    &'static str,
>)
    requires
        labels@.map_values(|s: &'static str| s@) =~= expected,
    ensures
        r@.map_values(|s: &'static str| s@) == expected,
{
    labels
}

impl Family {
    /// What a registry has to know of the family.
    pub fn definition(self) -> (d: Definition)
        ensures
            d.name@ == name_of(self),
            d.help@ == help_of(self),
            d.kind == kind_of(self),
            d.labels@.map_values(|s: &'static str| s@) == labels_of(self),
    {
        let none: Vec<&'static str> = Vec::new();
        match self {
            Family::RequestsTotal => Definition {
                name: "requests_total",
                help: "Requests handled by the gateway, by route/listener/status class.",
                kind: Kind::Counter,
                labels: names(
                    vec!["route", "listener", "status_class"],
                    Ghost(labels_of(self)),
                ),
            },
            Family::RequestDuration => Definition {
                name: "request_duration_seconds",
                help: "Gateway request latency (route resolution to response headers).",
                kind: Kind::Histogram,
                labels: names(vec!["route"], Ghost(labels_of(self))),
            },
            Family::UpstreamAttemptsTotal => Definition {
                name: "upstream_attempts_total",
                help: "Upstream send attempts, by upstream/endpoint/status class.",
                kind: Kind::Counter,
                labels: names(
                    vec!["upstream", "endpoint", "status_class"],
                    Ghost(labels_of(self)),
                ),
            },
            Family::RetriesTotal => Definition {
                name: "retries_total",
                help: "Retried upstream attempts, by upstream.",
                kind: Kind::Counter,
                labels: names(vec!["upstream"], Ghost(labels_of(self))),
            },
            Family::RateLimitedTotal => Definition {
                name: "rate_limited_total",
                help: "Requests denied by rate limiting, by route.",
                kind: Kind::Counter,
                labels: names(vec!["route"], Ghost(labels_of(self))),
            },
            Family::ShedTotal => Definition {
                name: "shed_total",
                help: "Requests shed by the gateway concurrency cap, by priority class.",
                kind: Kind::Counter,
                labels: names(vec!["priority"], Ghost(labels_of(self))),
            },
            Family::BreakerState => Definition {
                name: "breaker_state",
                help: "Upstream circuit breaker state: 0 closed, 1 open, 2 half-open.",
                kind: Kind::Gauge,
                labels: names(vec!["upstream"], Ghost(labels_of(self))),
            },
            Family::EndpointHealth => Definition {
                name: "endpoint_health",
                help: "Endpoint availability under passive/active health: 1 available, 0 ejected.",
                kind: Kind::Gauge,
                labels: names(vec!["upstream", "endpoint"], Ghost(labels_of(self))),
            },
            Family::FailOpenPicks => Definition {
                name: "upstream_fail_open_picks",
                help: "Balancer picks that fail-opened over an all-ejected pool (scrape-time snapshot).",
                kind: Kind::Gauge,
                labels: names(vec!["upstream"], Ghost(labels_of(self))),
            },
            Family::JwksRefreshTotal => Definition {
                name: "jwks_refresh_total",
                help: "JWKS fetch attempts (stale and rotation-triggered), by provider.",
                kind: Kind::Counter,
                labels: names(vec!["provider"], Ghost(labels_of(self))),
            },
            Family::ActiveRequests => Definition {
                name: "active_requests",
                help: "Requests currently between handle() entry and response-header completion.",
                kind: Kind::Gauge,
                labels: names(none, Ghost(labels_of(self))),
            },
            Family::ConfigGeneration => Definition {
                name: "config_generation",
                help: "Currently published configuration generation number.",
                kind: Kind::Gauge,
                labels: names(none, Ghost(labels_of(self))),
            },
            Family::RateLimiterEvictions => Definition {
                name: "dwara_rate_limiter_evictions_total",
                help: "Rate-limiter per-key cells dropped by eviction sweeps, aggregated over every compiled rule (scrape-time snapshot of the engine's monotonic counter; resets when a reload rebuilds the engine).",
                kind: Kind::Gauge,
                labels: names(none, Ghost(labels_of(self))),
            },
            Family::RateLimiterLiveKeys => Definition {
                name: "dwara_rate_limiter_live_keys",
                help: "Live per-key rate-limiter cells across every compiled rule (approximate under concurrent checks; bounded by the sharded store cap per window).",
                kind: Kind::Gauge,
                labels: names(none, Ghost(labels_of(self))),
            },
        }
    }
}

// ---------------------------------------------------------------------------
// Updates
// ---------------------------------------------------------------------------

/// How a metric changes.
#[derive(Debug, Clone, Copy, PartialEq, Eq, Structural)]
pub enum Change {
    /// One more.
    Increment,
    /// One less.
    Decrement,
    /// This value from now on.
    Assign(i64),
    /// A duration in nanoseconds was observed.
    Observe(u128),
}

/// One change of one metric: the family, the label values in the order of its
/// labels, and how it changes.
#[derive(Debug, Clone, PartialEq, Eq)]
pub struct Update {
    pub family: Family,
    pub labels: Vec<String>,
    pub change: Change,
}

/// What an update is.
#[verifier::ext_equal]
pub struct UpdateView {
    pub family: Family,
    pub labels: Seq<Seq<char>>,
    pub change: Change,
}

impl View for Update {
    type V = UpdateView;

    open spec fn view(&self) -> UpdateView {
        UpdateView {
            family: self.family,
            labels: text::texts(self.labels@),
            change: self.change,
        }
    }
}

/// Whether a family can take an update: as many label values as it has
/// labels, and a change of its kind.
pub open spec fn fits(u: UpdateView) -> bool {
    &&& u.labels.len() == labels_of(u.family).len()
    &&& match kind_of(u.family) {
        Kind::Counter => u.change is Increment,
        Kind::Gauge => u.change is Increment || u.change is Decrement || u.change is Assign,
        Kind::Histogram => u.change is Observe,
    }
}

fn update0(family: Family, change: Change) -> (u: Update)
    ensures
        u@ == (UpdateView { family, labels: Seq::empty(), change }),
{
    let u = Update { family, labels: Vec::new(), change };
    assert(u@.labels =~= Seq::empty());
    u
}

fn update1(family: Family, a: &str, change: Change) -> (u: Update)
    ensures
        u@ == (UpdateView { family, labels: seq![a@], change }),
{
    let mut labels: Vec<String> = Vec::new();
    labels.push(a.to_owned());
    let u = Update { family, labels, change };
    assert(u@.labels =~= seq![a@]);
    u
}

fn update2(family: Family, a: &str, b: &str, change: Change) -> (u: Update)
    ensures
        u@ == (UpdateView { family, labels: seq![a@, b@], change }),
{
    let mut labels: Vec<String> = Vec::new();
    labels.push(a.to_owned());
    labels.push(b.to_owned());
    let u = Update { family, labels, change };
    assert(u@.labels =~= seq![a@, b@]);
    u
}

fn update3(family: Family, a: &str, b: &str, c: &str, change: Change) -> (u: Update)
    ensures
        u@ == (UpdateView { family, labels: seq![a@, b@, c@], change }),
{
    let mut labels: Vec<String> = Vec::new();
    labels.push(a.to_owned());
    labels.push(b.to_owned());
    labels.push(c.to_owned());
    let u = Update { family, labels, change };
    assert(u@.labels =~= seq![a@, b@, c@]);
    u
}

/// The class of a status as a label.
pub open spec fn class_label(status: u16) -> Seq<char> {
    text::dec((status / 100) as nat) + "xx"@
}

/// A generation number as the value of a gauge: the upper half of its range
/// shows as negative numbers.
pub open spec fn gauge_value(n: u64) -> int {
    if n <= i64::MAX {
        n as int
    } else {
        n - 0x1_0000_0000_0000_0000
    }
}

impl Observability {
    /// What a completed request changes: its count and its latency.
    pub fn record_request(
        &self,
        route: &str,
        listener: &str,
        status: u16,
        elapsed_ns: u128,
    ) -> (r: (Update, Update))
        ensures
            r.0@ == (UpdateView {
                family: Family::RequestsTotal,
                labels: seq![route@, listener@, class_label(status)],
                change: Change::Increment,
            }),
            r.1@ == (UpdateView {
                family: Family::RequestDuration,
                labels: seq![route@],
                change: Change::Observe(elapsed_ns),
            }),
            fits(r.0@) && fits(r.1@),
    {
        (
            update3(
                Family::RequestsTotal,
                route,
                listener,
                status_class(status).as_str(),
                Change::Increment,
            ),
            update1(Family::RequestDuration, route, Change::Observe(elapsed_ns)),
        )
    }

    /// What an upstream send attempt changes.
    pub fn record_upstream_attempt(&self, upstream: &str, endpoint: &str, status: u16) -> (r:
        Update)
        ensures
            r@ == (UpdateView {
                family: Family::UpstreamAttemptsTotal,
                labels: seq![upstream@, endpoint@, class_label(status)],
                change: Change::Increment,
            }),
            fits(r@),
    {
        update3(
            Family::UpstreamAttemptsTotal,
            upstream,
            endpoint,
            status_class(status).as_str(),
            Change::Increment,
        )
    }

    /// What a retry changes.
    pub fn record_retry(&self, upstream: &str) -> (r: Update)
        ensures
            r@ == (UpdateView {
                family: Family::RetriesTotal,
                labels: seq![upstream@],
                change: Change::Increment,
            }),
            fits(r@),
    {
        update1(Family::RetriesTotal, upstream, Change::Increment)
    }

    /// What a rate-limit denial changes.
    pub fn record_rate_limited(&self, route: &str) -> (r: Update)
        ensures
            r@ == (UpdateView {
                family: Family::RateLimitedTotal,
                labels: seq![route@],
                change: Change::Increment,
            }),
            fits(r@),
    {
        update1(Family::RateLimitedTotal, route, Change::Increment)
    }

    /// What a shed request of a priority class changes.
    pub fn record_shed(&self, priority: u8) -> (r: Update)
        ensures
            r@ == (UpdateView {
                family: Family::ShedTotal,
                labels: seq![text::dec(priority as nat)],
                change: Change::Increment,
            }),
            fits(r@),
    {
        update1(Family::ShedTotal, decimal(priority as u64).as_str(), Change::Increment)
    }

    /// What a fetch of a provider's key set changes.
    pub fn jwks_refresh_counter(&self, provider: &str) -> (r: Update)
        ensures
            r@ == (UpdateView {
                family: Family::JwksRefreshTotal,
                labels: seq![provider@],
                change: Change::Increment,
            }),
            fits(r@),
    {
        update1(Family::JwksRefreshTotal, provider, Change::Increment)
    }

    /// What the entry of a request changes, or the completion of its response
    /// headers.
    pub fn active_requests(&self, entered: bool) -> (r: Update)
        ensures
            r@ == (UpdateView {
                family: Family::ActiveRequests,
                labels: Seq::empty(),
                change: if entered {
                    Change::Increment
                } else {
                    Change::Decrement
                },
            }),
            fits(r@),
    {
        update0(
            Family::ActiveRequests,
            if entered {
                Change::Increment
            } else {
                Change::Decrement
            },
        )
    }

    /// Publishes the current configuration generation.
    pub fn set_config_generation(&self, generation: u64) -> (r: Update)
        ensures
            r@ == (UpdateView {
                family: Family::ConfigGeneration,
                labels: Seq::empty(),
                change: Change::Assign(gauge_value(generation) as i64),
            }),
            fits(r@),
    {
        let value: i64 = if generation <= 0x7fff_ffff_ffff_ffff {
            generation as i64
        } else {
            (generation - 0x8000_0000_0000_0000) as i64 + i64::MIN
        };
        update0(Family::ConfigGeneration, Change::Assign(value))
    }

    /// Publishes the state of an upstream's breaker (0 closed, 1 open, 2
    /// half-open).
    pub fn set_breaker_state(&self, upstream: &str, state: i64) -> (r: Update)
        ensures
            r@ == (UpdateView {
                family: Family::BreakerState,
                labels: seq![upstream@],
                change: Change::Assign(state),
            }),
            fits(r@),
    {
        update1(Family::BreakerState, upstream, Change::Assign(state))
    }

    /// Publishes how often picks of an upstream failed open.
    pub fn set_fail_open_picks(&self, upstream: &str, picks: i64) -> (r: Update)
        ensures
            r@ == (UpdateView {
                family: Family::FailOpenPicks,
                labels: seq![upstream@],
                change: Change::Assign(picks),
            }),
            fits(r@),
    {
        update1(Family::FailOpenPicks, upstream, Change::Assign(picks))
    }

    /// Publishes how many cells the rate limiter's sweeps dropped.
    pub fn set_rate_limiter_evictions(&self, evictions: i64) -> (r: Update)
        ensures
            r@ == (UpdateView {
                family: Family::RateLimiterEvictions,
                labels: Seq::empty(),
                change: Change::Assign(evictions),
            }),
            fits(r@),
    {
        update0(Family::RateLimiterEvictions, Change::Assign(evictions))
    }

    /// Publishes how many cells the rate limiter holds.
    pub fn set_rate_limiter_live_keys(&self, keys: i64) -> (r: Update)
        ensures
            r@ == (UpdateView {
                family: Family::RateLimiterLiveKeys,
                labels: Seq::empty(),
                change: Change::Assign(keys),
            }),
            fits(r@),
    {
        update0(Family::RateLimiterLiveKeys, Change::Assign(keys))
    }

    /// Publishes whether an endpoint is available.
    pub fn set_endpoint_health(&self, upstream: &str, endpoint: &str, up: bool) -> (r: Update)
        ensures
            r@ == (UpdateView {
                family: Family::EndpointHealth,
                labels: seq![upstream@, endpoint@],
                change: Change::Assign(
                    if up {
                        1
                    } else {
                        0
                    },
                ),
            }),
            fits(r@),
    {
        let value: i64 = if up {
            1
        } else {
            0
        };
        update2(Family::EndpointHealth, upstream, endpoint, Change::Assign(value))
    }
}

// ---------------------------------------------------------------------------
// Laws
// ---------------------------------------------------------------------------

/// No two families have the same name, so that a registry takes each of them.
pub proof fn law_family_names_are_distinct(a: Family, b: Family)
    requires
        a != b,
    ensures
        name_of(a) != name_of(b),
{
    reveal_strlit("requests_total");
    reveal_strlit("request_duration_seconds");
    reveal_strlit("upstream_attempts_total");
    reveal_strlit("retries_total");
    reveal_strlit("rate_limited_total");
    reveal_strlit("shed_total");
    reveal_strlit("breaker_state");
    reveal_strlit("endpoint_health");
    reveal_strlit("upstream_fail_open_picks");
    reveal_strlit("jwks_refresh_total");
    reveal_strlit("active_requests");
    reveal_strlit("config_generation");
    reveal_strlit("dwara_rate_limiter_evictions_total");
    reveal_strlit("dwara_rate_limiter_live_keys");
    assert(name_of(a).len() != name_of(b).len() || name_of(a)[0] != name_of(b)[0]);
}

/// Every family is registered, and none of them twice.
pub proof fn law_every_family_is_registered_once(f: Family)
    ensures
        all_families().contains(f),
        all_families().no_duplicates(),
{
    let s = all_families();
    let i: int = match f {
        Family::RequestsTotal => 0,
        Family::RequestDuration => 1,
        Family::UpstreamAttemptsTotal => 2,
        Family::RetriesTotal => 3,
        Family::RateLimitedTotal => 4,
        Family::ShedTotal => 5,
        Family::BreakerState => 6,
        Family::EndpointHealth => 7,
        Family::FailOpenPicks => 8,
        Family::JwksRefreshTotal => 9,
        Family::ActiveRequests => 10,
        Family::ConfigGeneration => 11,
        Family::RateLimiterEvictions => 12,
        Family::RateLimiterLiveKeys => 13,
    };
    assert(s[i] == f);
}

/// Whether a name is that under which a family is exposed.
pub open spec fn is_exposed_as(f: Family, name: Seq<char>) -> bool {
    &&& f is RequestsTotal ==> name == "requests_total"@
    &&& f is RequestDuration ==> name == "request_duration_seconds"@
    &&& f is UpstreamAttemptsTotal ==> name == "upstream_attempts_total"@
    &&& f is RetriesTotal ==> name == "retries_total"@
    &&& f is RateLimitedTotal ==> name == "rate_limited_total"@
    &&& f is ShedTotal ==> name == "shed_total"@
    &&& f is BreakerState ==> name == "breaker_state"@
    &&& f is EndpointHealth ==> name == "endpoint_health"@
    &&& f is FailOpenPicks ==> name == "upstream_fail_open_picks"@
    &&& f is JwksRefreshTotal ==> name == "jwks_refresh_total"@
    &&& f is ActiveRequests ==> name == "active_requests"@
    &&& f is ConfigGeneration ==> name == "config_generation"@
    &&& f is RateLimiterEvictions ==> name == "dwara_rate_limiter_evictions_total"@
    &&& f is RateLimiterLiveKeys ==> name == "dwara_rate_limiter_live_keys"@
}

/// Whether a family is a counter.
pub open spec fn counts(f: Family) -> bool {
    ||| f is RequestsTotal
    ||| f is UpstreamAttemptsTotal
    ||| f is RetriesTotal
    ||| f is RateLimitedTotal
    ||| f is ShedTotal
    ||| f is JwksRefreshTotal
}

/// Whether the values of a family are told apart by labels.
pub open spec fn is_labelled(f: Family, labels: Seq<Seq<char>>) -> bool {
    &&& f is RequestsTotal ==> labels == seq!["route"@, "listener"@, "status_class"@]
    &&& f is RequestDuration ==> labels == seq!["route"@]
    &&& f is UpstreamAttemptsTotal ==> labels == seq!["upstream"@, "endpoint"@, "status_class"@]
    &&& f is RetriesTotal ==> labels == seq!["upstream"@]
    &&& f is RateLimitedTotal ==> labels == seq!["route"@]
    &&& f is ShedTotal ==> labels == seq!["priority"@]
    &&& f is BreakerState ==> labels == seq!["upstream"@]
    &&& f is EndpointHealth ==> labels == seq!["upstream"@, "endpoint"@]
    &&& f is FailOpenPicks ==> labels == seq!["upstream"@]
    &&& f is JwksRefreshTotal ==> labels == seq!["provider"@]
    &&& f is ActiveRequests ==> labels == Seq::<Seq<char>>::empty()
    &&& f is ConfigGeneration ==> labels == Seq::<Seq<char>>::empty()
    &&& f is RateLimiterEvictions ==> labels == Seq::<Seq<char>>::empty()
    &&& f is RateLimiterLiveKeys ==> labels == Seq::<Seq<char>>::empty()
}

/// Each family is exposed under its name, with its labels; what only grows is
/// a counter, the latency a histogram, and all else is set.
pub proof fn law_families_are_exposed(f: Family)
    ensures
        is_exposed_as(f, name_of(f)),
        is_labelled(f, labels_of(f)),
        kind_of(f) is Counter <==> counts(f),
        kind_of(f) is Histogram <==> f is RequestDuration,
{
}

} // verus!
