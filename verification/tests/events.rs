use dwara_core::events::stream::{
    compile_stream_targets, flush_plan, AccessRecordStream, AnalyticsStreamConfig,
    AnalyticsStreamWebhook, Batcher, Flush, StreamDefaults, StreamTargets, MAX_RECORD_BYTES,
};
use dwara_core::events::webhook::{
    dispatch, envelope_json, is_retryable_status, read_head, request_head, retry_after_seconds,
    triage, Attempt, Delivery, DeliveryEnd, Dispatch, Exchange, HeadRead, ResolvedHeader,
    RetrySettings, Step, Webhook, WebhookTarget, MAX_ENVELOPE_BYTES, MAX_RESPONSE_HEAD_BYTES,
};
use dwara_core::events::{
    channel_capacity, instance_id, make_stamped_id, EventBus, EventKind, EventPayload,
    SendOutcome, UpstreamEmitter,
};
use dwara_core::observability::AccessRecord;

const MS: u128 = 1_000_000;

fn retry() -> RetrySettings {
    RetrySettings { timeout_ms: 10_000, max_attempts: 3, backoff_base_ms: 100, backoff_cap_ms: 150 }
}

fn header(name: &str, value: &str) -> ResolvedHeader {
    ResolvedHeader { name: name.to_string(), value: Ok(value.to_string()) }
}

fn hook(url: &str, events: &[&str]) -> Webhook {
    Webhook {
        url: url.to_string(),
        events: events.iter().map(|s| s.to_string()).collect(),
        headers: vec![header("x-token", "t0ken")],
        retry: retry(),
    }
}

fn target(url: &str) -> WebhookTarget {
    WebhookTarget::compile(&hook(url, &["breaker_opened"])).unwrap()
}

#[test]
fn kinds_round_trip_through_their_spelling() {
    let all = EventKind::all();
    assert_eq!(all.len(), 8);
    for k in all {
        assert_eq!(EventKind::from_config(k.as_str()), Some(k));
    }
    assert_eq!(EventKind::QuotaNearLimit.as_str(), "quota_near_limit");
    assert_eq!(EventKind::from_config("Breaker_Opened"), None);
}

#[test]
fn payloads_omit_what_is_unset() {
    assert_eq!(
        EventPayload::breaker("u\"1", Some("error_ratio")).to_json(),
        r#"{"upstream":"u\"1","detail":"error_ratio"}"#
    );
    assert_eq!(
        EventPayload::endpoint("u", "10.0.0.1:80").to_json(),
        r#"{"upstream":"u","endpoint":"10.0.0.1:80"}"#
    );
    assert_eq!(
        EventPayload::quota("c", "daily", 8, 10).to_json(),
        r#"{"detail":"daily","consumer":"c","used":8,"limit":10}"#
    );
    let e = UpstreamEmitter { upstream: "u".to_string() };
    assert_eq!(e.breaker_transition(None), EventPayload::breaker("u", None));
    assert_eq!(e.endpoint_event("a:1"), EventPayload::endpoint("u", "a:1"));
    assert_eq!(e.for_endpoint("a:1").payload(), EventPayload::endpoint("u", "a:1"));
}

#[test]
fn ids_are_stamped() {
    assert_eq!(make_stamped_id("evt-", 255, 10), "evt-ff-00000a");
    assert_eq!(make_stamped_id("evt-", 255, 0x100_0001), "evt-ff-000001");
    assert_eq!(instance_id(42, 255), "dwara-42-ff");
    assert_eq!(channel_capacity(0), 1);
    assert_eq!(channel_capacity(256), 256);
}

#[test]
fn every_event_is_counted_once() {
    let mut bus = EventBus::new("dwara-1-0");
    for outcome in [SendOutcome::Queued, SendOutcome::Full, SendOutcome::Closed] {
        let e = bus.stamp(
            EventKind::ConfigPublished,
            EventPayload::breaker("u", None),
            1,
            2,
        );
        assert_eq!(e.gateway, "dwara-1-0");
        assert_eq!(e.timestamp_ms, 2);
        bus.settle(outcome);
    }
    assert_eq!(bus.emitted_total(), 1);
    assert_eq!(bus.dropped_total(), 2);
    assert_eq!(bus.instance(), "dwara-1-0");
    let e = bus.stamp(EventKind::ConfigPublished, EventPayload::breaker("u", None), 1, 2);
    assert_eq!(e.id, "evt-1-000003");
    assert_eq!(
        envelope_json(&e),
        r#"{"id":"evt-1-000003","kind":"config_published","timestamp":"1970-01-01T00:00:00.002Z","gateway":"dwara-1-0","payload":{"upstream":"u"}}"#
    );
}

#[test]
fn targets_are_compiled() {
    let t = target("https://hooks.test/in?x=1");
    assert_eq!(t.url(), "https://hooks.test/in?x=1");
    assert_eq!((t.dial_host(), t.port(), t.tls()), ("hooks.test", 443, true));
    assert_eq!(t.host_header(), "hooks.test");
    assert_eq!(t.header_names(), vec!["x-token"]);
    assert!(t.wants(EventKind::BreakerOpened));
    assert!(!t.wants(EventKind::BreakerClosed));
    let v6 = target("http://[::1]:8080");
    assert_eq!((v6.dial_host(), v6.port(), v6.tls()), ("::1", 8080, false));
    assert_eq!(v6.host_header(), "[::1]:8080");
    assert_eq!(
        request_head(&t, 12, "application/json", "dwara-webhook"),
        "POST /in?x=1 HTTP/1.1\r\nhost: hooks.test\r\ncontent-length: 12\r\n\
         connection: close\r\nuser-agent: dwara-webhook\r\n\
         content-type: application/json\r\nx-token: t0ken\r\n\r\n"
    );
    assert!(request_head(&v6, 0, "a", "b").starts_with("POST / HTTP/1.1\r\n"));
}

#[test]
fn malformed_targets_are_refused() {
    let e = |w: Webhook| WebhookTarget::compile(&w).err().unwrap();
    assert_eq!(
        e(hook("ftp://h/", &[])),
        "webhook url 'ftp://h/' must be http:// or https://, got Some(\"ftp\")"
    );
    assert_eq!(
        e(hook("/path", &[])),
        "webhook url '/path' must be http:// or https://, got None"
    );
    assert!(e(hook("http://[", &[])).starts_with("webhook url 'http://[' does not parse: "));
    assert_eq!(
        e(hook("http://h", &["nope"])),
        "webhook url 'http://h' lists unknown event kind 'nope'"
    );
    let mut split = hook("http://h", &[]);
    split.headers = vec![header("x", "a\r\nb: c")];
    assert_eq!(
        e(split),
        "webhook url 'http://h' header 'x': the resolved value contains characters that cannot \
         appear in an HTTP header value"
    );
    let mut unresolved = hook("http://h", &[]);
    unresolved.headers =
        vec![ResolvedHeader { name: "x".to_string(), value: Err("no such secret".to_string()) }];
    assert_eq!(e(unresolved), "webhook url 'http://h' header 'x': no such secret");
}

#[test]
fn events_go_to_their_subscribers() {
    let targets = vec![
        target("http://a"),
        WebhookTarget::compile(&hook("http://b", &["breaker_closed"])).unwrap(),
        target("http://c"),
    ];
    assert_eq!(dispatch(10, &targets, EventKind::BreakerOpened), Dispatch::To(vec![0, 2]));
    assert_eq!(dispatch(10, &targets, EventKind::ConfigRejected), Dispatch::To(vec![]));
    assert_eq!(
        dispatch(MAX_ENVELOPE_BYTES + 1, &targets, EventKind::BreakerOpened),
        Dispatch::Oversize
    );
}

#[test]
fn response_heads_are_read() {
    let t = target("http://h");
    let r = read_head(&t, &b"HTTP/1.1 503 Busy\r\nRetry-After: 7\r\n\r\nbody".to_vec());
    match r {
        HeadRead::Answer { status, head } => {
            assert_eq!(status, 503);
            assert_eq!(retry_after_seconds(&head), Some(7));
        }
        other => panic!("unexpected: {other:?}"),
    }
    assert_eq!(read_head(&t, &b"HTTP/1.1 200".to_vec()), HeadRead::More);
    assert_eq!(
        read_head(&t, &b"garbage\r\n\r\n".to_vec()),
        HeadRead::Broken("webhook h answered an unparseable status line".to_string())
    );
    assert_eq!(
        read_head(&t, &vec![b'x'; MAX_RESPONSE_HEAD_BYTES + 1]),
        HeadRead::Broken("webhook h response head exceeded the 8192 byte cap".to_string())
    );
    assert_eq!(retry_after_seconds("HTTP/1.1 503\r\nretry-after: soon"), None);
    assert_eq!(retry_after_seconds("HTTP/1.1 503"), None);
}

#[test]
fn only_transient_answers_are_retried() {
    for s in [429, 502, 503, 504] {
        assert!(is_retryable_status(s));
    }
    for s in [200, 400, 404, 500, 501] {
        assert!(!is_retryable_status(s));
    }
    let t = target("http://h");
    let answered = |status| Exchange::Answered { status, head: "HTTP/1.1 x".to_string() };
    assert_eq!(triage(&t, answered(204)), Attempt::Accepted);
    assert_eq!(
        triage(&t, answered(503)),
        Attempt::Retry { retry_after: None, error: "webhook h answered 503".to_string() }
    );
    assert_eq!(
        triage(&t, answered(500)),
        Attempt::Fatal("webhook h answered 500 (not retryable)".to_string())
    );
    assert_eq!(
        triage(&t, Exchange::TimedOut),
        Attempt::Fatal("webhook h delivery exceeded its timeout budget".to_string())
    );
    assert_eq!(
        triage(&t, Exchange::NoBudget),
        Attempt::Fatal("delivery budget spent before the attempt".to_string())
    );
    assert_eq!(
        triage(&t, Exchange::Failed("e".to_string())),
        Attempt::Retry { retry_after: None, error: "e".to_string() }
    );
}

fn again(retry_after: Option<u64>) -> Attempt {
    Attempt::Retry { retry_after, error: "e".to_string() }
}

#[test]
fn backoff_doubles_to_its_cap() {
    let t = target("http://h");
    let mut d = Delivery::start(&t, 0);
    assert_eq!(d.remaining(0), Some(10_000 * MS));
    assert_eq!(d.step(again(None), 0), Step::Wait(100 * MS));
    assert_eq!(d.step(again(Some(0)), 0), Step::Wait(150 * MS));
    assert_eq!(
        d.step(again(None), 0),
        Step::End(DeliveryEnd::Failed {
            attempts: 3,
            error: "still not accepted after 3 attempts: e".to_string()
        })
    );
}

#[test]
fn waits_stay_within_the_budget() {
    let t = target("http://h");
    let mut d = Delivery::start(&t, 0);
    assert_eq!(d.step(again(Some(3)), 0), Step::Wait(3_000 * MS));
    assert_eq!(
        d.step(again(Some(20)), 3_000_000_000),
        Step::End(DeliveryEnd::Failed {
            attempts: 2,
            error: "retry wait 20s would exhaust the delivery budget: e".to_string()
        })
    );
    let mut late = Delivery::start(&t, 0);
    assert_eq!(late.remaining(10_000_000_000), None);
    assert_eq!(
        late.step(again(None), 10_000_000_000),
        Step::End(DeliveryEnd::Failed {
            attempts: 1,
            error: "delivery budget spent before retry: e".to_string()
        })
    );
    let mut ok = Delivery::start(&t, 0);
    assert_eq!(
        ok.step(Attempt::Accepted, 1),
        Step::End(DeliveryEnd::Delivered { attempts: 1 })
    );
}

fn record() -> AccessRecord {
    let mut r = AccessRecord::new(
        "req-1".to_string(),
        "GET".to_string(),
        "/p".to_string(),
        "main".to_string(),
    );
    r.status = 200;
    r.duration_ms = "1.5".to_string();
    r.custom = vec![("k".to_string(), "v\"".to_string())];
    r
}

#[test]
fn records_become_lines() {
    let mut s = AccessRecordStream::new("dwara-1-0");
    assert!(s.offer(&record(), 255).is_none());
    s.set_enabled(true);
    assert!(s.enabled());
    let r = s.offer(&record(), 255).unwrap();
    assert_eq!(r.id, "rec-ff-000000");
    let line = r.line();
    assert!(line.ends_with("}\n"));
    let v: serde_json::Value = serde_json::from_str(&line).unwrap();
    assert_eq!(v["gateway"], "dwara-1-0");
    assert_eq!(v["request_id"], "req-1");
    assert_eq!(v["status"], 200);
    assert_eq!(v["duration_ms"], 1.5);
    assert_eq!(v["dimensions"]["k"], "v\"");
    assert!(!s.settle(true));
    assert!(s.settle(false));
    assert!(!s.settle(false));
    assert_eq!((s.offered(), s.dropped()), (1, 2));
    assert_eq!(s.instance(), "dwara-1-0");
}

#[test]
fn dimensions_are_written_in_order_of_their_names() {
    let mut rec = record();
    rec.custom = vec![
        ("b".to_string(), "1".to_string()),
        ("a\u{e9}".to_string(), "x\"\n".to_string()),
        ("b".to_string(), "2".to_string()),
        ("a".to_string(), String::new()),
    ];
    let mut map = serde_json::Map::new();
    for (k, v) in &rec.custom {
        map.insert(k.clone(), serde_json::Value::String(v.clone()));
    }
    let expected = format!("\"dimensions\":{}", serde_json::to_string(&map).unwrap());
    let mut s = AccessRecordStream::new("dwara-1-0");
    s.set_enabled(true);
    let line = s.offer(&rec, 0).unwrap().line();
    assert!(line.contains(&expected), "{line}");
    assert!(line.contains("\"dimensions\":{\"a\":\"\""));
}

#[test]
fn a_batch_knows_how_long_it_may_wait() {
    let mut b = Batcher::new();
    assert_eq!(b.time_left(50, 7), 50);
    assert!(b.push_record("x\n", 100));
    assert_eq!(b.time_left(50, 120), 30);
    assert!(!b.due(50, 149));
    assert_eq!(b.time_left(50, 150), 0);
    assert!(b.due(50, 150));
}

#[test]
fn batches_keep_lines_in_order() {
    let mut b = Batcher::new();
    assert!(b.is_empty());
    assert!(b.push_record("a\n", 100));
    assert!(b.push_record("b\n", 200));
    assert!(!b.push_record(&"x".repeat(MAX_RECORD_BYTES + 1), 200));
    assert!(!b.should_flush(3));
    assert!(b.should_flush(2));
    assert!(!b.due(150, 249));
    assert!(b.due(150, 250));
    assert_eq!(b.take(), Some((b"a\nb\n".to_vec(), 2)));
    assert_eq!(b.take(), None);
    assert!(!b.due(0, 1_000));
    assert_eq!(flush_plan(0), Flush::Drop);
    assert_eq!(flush_plan(1), Flush::Deliver);
}

#[test]
fn stream_targets_are_compiled() {
    let defaults = StreamDefaults { flush_ms: 1_000, batch_max: 100 };
    let none = compile_stream_targets(None, defaults);
    assert!(!none.enabled());
    assert_eq!((none.flush_ms, none.batch_max), (1_000, 100));
    assert!(!StreamTargets::empty(defaults).enabled());
    let cfg = |url: &str| AnalyticsStreamConfig {
        webhook: AnalyticsStreamWebhook { url: url.to_string(), headers: vec![], retry: retry() },
        flush_ms: Some(5),
        batch_max: None,
    };
    let some = compile_stream_targets(Some(&cfg("http://h")), defaults);
    assert!(some.enabled());
    assert_eq!((some.flush_ms, some.batch_max), (5, 100));
    let bad = compile_stream_targets(Some(&cfg("ftp://h")), defaults);
    assert!(!bad.enabled());
    assert!(bad.error.is_some());
}
