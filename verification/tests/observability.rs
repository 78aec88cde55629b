use dwara_core::headers::{add_field, set_field};
use dwara_core::observability::metrics::{families, Change, Family, Kind, Update};
use dwara_core::observability::{
    envelope_body, generate_request_id, resolve_request_id, stamp_request_id, status_class,
    valid_inbound_request_id, Observability, SAMPLE_RANGE,
};

#[test]
fn statuses_have_classes() {
    assert_eq!(status_class(200), "2xx");
    assert_eq!(status_class(404), "4xx");
    assert_eq!(status_class(599), "5xx");
}

#[test]
fn error_bodies_are_json() {
    let body = envelope_body("not_found", "no \"route\"", "req-1");
    let v: serde_json::Value = serde_json::from_str(&body).unwrap();
    assert_eq!(v["error"]["code"], "not_found");
    assert_eq!(v["error"]["message"], "no \"route\"");
    assert_eq!(v["error"]["request_id"], "req-1");
}

#[test]
fn inbound_ids_are_kept_if_valid() {
    assert!(valid_inbound_request_id(b"abc-123"));
    assert!(!valid_inbound_request_id(b""));
    assert!(valid_inbound_request_id(b"a b"));
    assert!(!valid_inbound_request_id(b"a\x7f"));
    assert!(!valid_inbound_request_id(&vec![b'a'; 129]));
    assert_eq!(resolve_request_id(Some(b"abc-123"), 1, 2), "abc-123");
    let made = resolve_request_id(Some(b"a\nb"), 255, 10);
    assert_eq!(made, generate_request_id(255, 10));
    assert_eq!(resolve_request_id(None, 255, 10), made);
    assert!(valid_inbound_request_id(made.as_bytes()));
}

#[test]
fn responses_carry_one_request_id() {
    let mut h = vec![("x-request-id".to_string(), "old".to_string())];
    stamp_request_id(&mut h, "new");
    assert_eq!(h, vec![("x-request-id".to_string(), "new".to_string())]);
    stamp_request_id(&mut h, "bad\r\nvalue");
    assert_eq!(h[0].1, "new");
}

#[test]
fn fields_are_set_and_added() {
    let mut h = Vec::new();
    set_field(&mut h, "a", "1");
    add_field(&mut h, "a", "2");
    assert_eq!(h.len(), 2);
    set_field(&mut h, "a", "3");
    assert_eq!(h, vec![("a".to_string(), "3".to_string())]);
}

#[test]
fn errors_are_always_logged() {
    let mut none = Observability::new(1, 0);
    assert!(none.should_log_access(500));
    assert!((0..100).all(|_| !none.should_log_access(200)));
    let mut all = Observability::new(1, SAMPLE_RANGE);
    assert!((0..100).all(|_| all.should_log_access(200)));
    let mut half = Observability::new(1, 0);
    half.set_access_sample(SAMPLE_RANGE / 2);
    assert_eq!(half.access_sample(), SAMPLE_RANGE / 2);
    let n = (0..10_000).filter(|_| half.should_log_access(200)).count();
    assert!(4_500 < n && n < 5_500);
}

fn update(family: Family, labels: &[&str], change: Change) -> Update {
    Update { family, labels: labels.iter().map(|l| l.to_string()).collect(), change }
}

#[test]
fn what_happened_becomes_updates() {
    let o = Observability::new(1, 0);
    let (count, latency) = o.record_request("r", "web", 404, 1_500);
    assert_eq!(count, update(Family::RequestsTotal, &["r", "web", "4xx"], Change::Increment));
    assert_eq!(latency, update(Family::RequestDuration, &["r"], Change::Observe(1_500)));
    assert_eq!(
        o.record_upstream_attempt("u", "unpicked", 502),
        update(Family::UpstreamAttemptsTotal, &["u", "unpicked", "5xx"], Change::Increment)
    );
    assert_eq!(o.record_retry("u"), update(Family::RetriesTotal, &["u"], Change::Increment));
    assert_eq!(o.record_rate_limited("r"), update(Family::RateLimitedTotal, &["r"], Change::Increment));
    assert_eq!(o.record_shed(7), update(Family::ShedTotal, &["7"], Change::Increment));
    assert_eq!(o.jwks_refresh_counter("p"), update(Family::JwksRefreshTotal, &["p"], Change::Increment));
    assert_eq!(o.active_requests(true), update(Family::ActiveRequests, &[], Change::Increment));
    assert_eq!(o.active_requests(false), update(Family::ActiveRequests, &[], Change::Decrement));
    assert_eq!(o.set_config_generation(3), update(Family::ConfigGeneration, &[], Change::Assign(3)));
    assert_eq!(o.set_config_generation(u64::MAX), update(Family::ConfigGeneration, &[], Change::Assign(-1)));
    assert_eq!(o.set_breaker_state("u", 2), update(Family::BreakerState, &["u"], Change::Assign(2)));
    assert_eq!(o.set_fail_open_picks("u", 5), update(Family::FailOpenPicks, &["u"], Change::Assign(5)));
    assert_eq!(o.set_rate_limiter_evictions(6), update(Family::RateLimiterEvictions, &[], Change::Assign(6)));
    assert_eq!(o.set_rate_limiter_live_keys(8), update(Family::RateLimiterLiveKeys, &[], Change::Assign(8)));
    assert_eq!(
        o.set_endpoint_health("u", "e:1", false),
        update(Family::EndpointHealth, &["u", "e:1"], Change::Assign(0))
    );
}

#[test]
fn families_have_distinct_names_and_register() {
    let registry = prometheus::Registry::new();
    for family in families() {
        let d = family.definition();
        let opts = prometheus::Opts::new(d.name, d.help);
        let taken = match d.kind {
            Kind::Counter => registry.register(Box::new(prometheus::IntCounterVec::new(opts, &d.labels).unwrap())),
            Kind::Gauge => registry.register(Box::new(prometheus::IntGaugeVec::new(opts, &d.labels).unwrap())),
            Kind::Histogram => {
                registry.register(Box::new(prometheus::HistogramVec::new(opts.into(), &d.labels).unwrap()))
            }
        };
        assert!(taken.is_ok(), "{} is refused", d.name);
    }
    assert_eq!(families().len(), 14);
    assert_eq!(Family::RequestDuration.definition().name, "request_duration_seconds");
}
