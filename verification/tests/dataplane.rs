use dwara_core::dataplane::upstream_h3::{
    resolve_one, H3Error, QuicStreamPool, TransportFailure, DEFAULT_H3_CONNECTION_CAP,
};
use dwara_core::dataplane::versioning::{accept_matches, decorate, CompiledDeprecation};
use dwara_core::dataplane::waf::{
    builtin_patterns, should_inspect_body, truncate_preview, BodyPrefix, RouteWaf, WafFilter,
    WafGeneration, WafTarget,
};
use dwara_core::dataplane::websocket::{
    count_data_frames, flag_to_metric, handshake_verdict, offers_websocket, origin_allowed,
    FrameCounter, FrameViolation, Handshake, RouteWebsocket, WsPolice, FLAG_NONE,
    FLAG_PROTOCOL_CLOSED, FLAG_RATE_CLOSED, FLAG_SIZE_CLOSED,
};

fn ws(origins: &[&str]) -> RouteWebsocket {
    RouteWebsocket {
        origins: origins.iter().map(|s| s.to_string()).collect(),
        max_frames_per_sec: None,
        max_frame_size_bytes: None,
    }
}

/// A masked frame of a kind with a payload.
fn frame(opcode: u8, payload: &[u8]) -> Vec<u8> {
    let mut v = vec![0x80 | opcode];
    if payload.len() < 126 {
        v.push(0x80 | payload.len() as u8);
    } else {
        v.push(0x80 | 126);
        v.extend_from_slice(&(payload.len() as u16).to_be_bytes());
    }
    v.extend_from_slice(&[0, 0, 0, 0]);
    v.extend_from_slice(payload);
    v
}

#[test]
fn websocket_handshakes_are_judged() {
    assert!(offers_websocket(Some("WebSocket")));
    assert!(!offers_websocket(Some("h2c")));
    assert!(!offers_websocket(None));
    assert!(!offers_websocket(Some("websocket, \u{e9}")));
    assert!(!origin_allowed(Some("\u{e9}"), &ws(&["\u{e9}"])));
    assert!(origin_allowed(None, &ws(&[])));
    assert!(origin_allowed(Some("https://a.test"), &ws(&["https://a.test"])));
    assert_eq!(
        handshake_verdict(Some("https://b.test"), &ws(&["https://a.test"])),
        Handshake::OriginDenied
    );
    assert_eq!(handshake_verdict(Some("https://b.test"), &ws(&[])), Handshake::Allowed);
}

#[test]
fn data_frames_are_counted_across_reads() {
    let mut bytes = frame(1, b"hello");
    bytes.extend(frame(9, b"ping"));
    bytes.extend(frame(2, &vec![7; 300]));
    assert_eq!(count_data_frames(&bytes), 2);
    let mut c = FrameCounter::new();
    for b in &bytes {
        c.feed(&[*b]);
    }
    assert_eq!(c.data_frames(), 2);
    assert_eq!(c.violation(), FrameViolation::Clean);
}

#[test]
fn oversized_frames_are_violations() {
    let mut c = FrameCounter::new().with_max_frame_size(4);
    c.feed(&frame(1, b"four"));
    assert_eq!(c.violation(), FrameViolation::Clean);
    c.feed(&frame(1, b"five!"));
    assert_eq!(c.violation(), FrameViolation::SizeExceeded);
}

#[test]
fn counted_frames_stay_counted() {
    let mut bytes = frame(1, b"a");
    bytes.extend(frame(2, b""));
    bytes.extend(frame(1, b"bc"));
    bytes.extend([0x83, 0x00]);
    bytes.extend(frame(1, b"late"));
    let mut c = FrameCounter::new();
    let mut last = 0;
    for b in &bytes {
        c.feed(&[*b]);
        let n = c.data_frames();
        assert!(last <= n && n <= last + 1);
        c.feed(&[]);
        assert_eq!(c.data_frames(), n);
        last = n;
    }
    assert_eq!((last, c.violation()), (3, FrameViolation::ProtocolError));
}

#[test]
fn policed_connections_are_closed() {
    let mut p = WsPolice::new(Some(1), None, 0);
    assert!(p.may_read());
    p.sent(&frame(1, b"a"), 0);
    assert_eq!(p.flag(), FLAG_NONE);
    p.sent(&frame(1, b"b"), 0);
    assert!(p.violated());
    assert!(!p.may_read());
    assert_eq!(p.flag(), FLAG_RATE_CLOSED);
    let n = p.pending().len();
    assert!(n > 0);
    p.written(n);
    assert!(p.pending().is_empty());
    let mut big = WsPolice::new(None, Some(1), 0);
    big.sent(&frame(1, b"abc"), 0);
    assert_eq!(big.flag(), FLAG_SIZE_CLOSED);
    assert_ne!(flag_to_metric(FLAG_SIZE_CLOSED), flag_to_metric(FLAG_RATE_CLOSED));
    assert_ne!(flag_to_metric(FLAG_PROTOCOL_CLOSED), flag_to_metric(FLAG_RATE_CLOSED));
}

fn waf(filters: &[&str], custom: &[&str]) -> RouteWaf {
    RouteWaf {
        enabled: true,
        filters: filters.iter().map(|s| s.to_string()).collect(),
        custom_patterns: custom.iter().map(|s| s.to_string()).collect(),
        max_body_inspect_bytes: 32,
        dry_run: true,
    }
}

#[test]
fn waf_matches_its_patterns() {
    let g = WafGeneration::from_config(&waf(&["sqli", "xss"], &[])).unwrap();
    assert!(g.dry_run());
    assert_eq!(g.max_body_inspect_bytes(), 32);
    assert!(g.inspect_value(WafTarget::Query, "name=bob").is_none());
    let m = g.inspect_value(WafTarget::Query, "<script>alert(1)</script>").unwrap();
    assert_eq!(m.filter, WafFilter::Xss);
    assert_eq!(m.target, WafTarget::Query);
    assert!(builtin_patterns(WafFilter::Xss).contains(&m.pattern.as_str()));
    let head = g.inspect_head("/", Some("q=1 UNION SELECT password FROM users"), None, None, None, None);
    assert_eq!(head.unwrap().filter, WafFilter::Sqli);
    assert!(g.inspect_head("/", None, Some("curl"), None, None, None).is_none());
    assert!(g.inspect_head("/", None, Some("<script>"), None, None, None).is_some());
    assert!(g.inspect_head("/", None, Some("<script>\u{e9}"), None, None, None).is_none());
    assert!(g.inspect_body_slice(b"<script>x</script>").is_some());
}

#[test]
fn disabled_waf_has_no_generation() {
    let mut w = waf(&["sqli"], &[]);
    w.enabled = false;
    assert!(WafGeneration::from_config(&w).is_none());
}

#[test]
fn bodies_are_inspected_up_to_the_cap() {
    let g = WafGeneration::from_config(&waf(&["xss"], &[])).unwrap();
    let mut p = BodyPrefix::new(&g);
    assert_eq!(p.push(&[b'a'; 30]), 30);
    assert!(!p.is_full());
    assert_eq!(p.push(b"<script>"), 2);
    assert!(p.is_full());
    assert_eq!(p.bytes().len(), 32);
    assert!(p.inspect(&g).is_none());
    assert!(should_inspect_body(Some("application/json; charset=utf-8")));
    assert!(should_inspect_body(Some("application/x-www-form-urlencoded")));
    assert!(!should_inspect_body(Some("image/png")));
    assert!(!should_inspect_body(None));
    assert!(!should_inspect_body(Some("application/json; \u{e9}")));
}

#[test]
fn previews_are_bounded() {
    let long = "x".repeat(1_000);
    assert!(truncate_preview(&long).chars().count() < 200);
    assert_eq!(truncate_preview("short"), "short");
}

#[test]
fn versions_are_matched_and_deprecated() {
    let h = |v: &str| vec![("accept".to_string(), v.to_string())];
    assert!(accept_matches(&h("text/html, application/vnd.api.v2+json"), "application/vnd.api.v2+json"));
    assert!(!accept_matches(&h("text/html"), "application/vnd.api.v2+json"));
    assert!(!accept_matches(&vec![], "application/vnd.api.v2+json"));
    assert!(accept_matches(&h("a/b;\tq=1"), "a/b"));
    assert!(!accept_matches(&h("a/b;\u{e9}"), "a/b"));
    let mut headers = vec![("etag".to_string(), "1".to_string())];
    decorate(
        &mut headers,
        &CompiledDeprecation {
            deprecation: Some("true".to_string()),
            sunset: None,
            link: Some("<https://d.test>; rel=\"deprecation\"".to_string()),
        },
    );
    assert!(headers.contains(&("etag".to_string(), "1".to_string())));
    assert!(headers.contains(&("deprecation".to_string(), "true".to_string())));
    assert!(headers.iter().any(|(n, _)| n == "link"));
    assert!(!headers.iter().any(|(n, _)| n == "sunset"));
}

#[test]
fn quic_pool_reuses_the_least_recently_used() {
    let mut p = QuicStreamPool::new(2, 1_000);
    let none = vec![];
    assert_eq!(p.try_take_live("a", &none, 0), None);
    assert!(p.pool_dialed("a", 1, &none, 0));
    assert!(p.pool_dialed("a", 2, &none, 5));
    assert!(!p.pool_dialed("a", 3, &none, 5));
    assert_eq!(p.try_take_live("a", &none, 10), Some(1));
    assert_eq!(p.try_take_live("a", &none, 11), Some(2));
    assert_eq!(p.try_take_live("a", &vec![1], 12), Some(2));
    assert_eq!(p.live_count("a", &none), 1);
    p.sweep(&none, 1_011);
    assert_eq!(p.live_count("a", &none), 1);
    p.sweep(&none, 1_012);
    assert_eq!(p.live_count("a", &none), 0);
    assert_eq!(DEFAULT_H3_CONNECTION_CAP, 8);
}

#[test]
fn h3_failures_are_classified() {
    let c = || "c".to_string();
    assert_eq!(H3Error::Stream(c()).message(), "h3 upstream stream error: c");
    assert_eq!(H3Error::H3(c()).message(), "h3 upstream connection setup failed: c");
    assert_eq!(H3Error::Endpoint(c()).message(), "h3 upstream endpoint bind failed: c");
    assert_eq!(H3Error::Crypto(c()).message(), "h3 upstream QUIC crypto config failed: c");
    assert_eq!(H3Error::Connect(c()).message(), "h3 upstream QUIC connect failed: c");
    assert_eq!(
        H3Error::ConnectTimedOut(c()).into_failure(),
        TransportFailure::ConnectTimeout { after_ms: 0 }
    );
    assert_eq!(H3Error::Connect(c()).into_failure(), TransportFailure::Io(c()));
    assert_eq!(
        resolve_one("h", 443, Ok(vec!["1.2.3.4:443".to_string(), "x".to_string()])),
        Ok("1.2.3.4:443".to_string())
    );
    assert_eq!(
        resolve_one("h", 443, Ok(vec![])),
        Err(TransportFailure::Io("'h:443' resolved to no addresses".to_string()))
    );
    assert_eq!(resolve_one("h", 443, Err(c())), Err(TransportFailure::Io(c())));
}
