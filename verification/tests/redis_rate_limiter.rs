use dwara_core::extensions::rate_limiter::gcra::GcraWindowSpec;
use dwara_core::extensions::redis_rate_limiter::{
    build_windows, CheckState, RedisRateLimiter, ScriptReply,
};

fn window(requests: u32, window_secs: u64, burst: Option<u32>) -> GcraWindowSpec {
    GcraWindowSpec::new(requests, window_secs, 0, burst).unwrap()
}

#[test]
fn build_windows_sorts_shortest_first() {
    let ws = build_windows(&vec![
        window(100, 3600, None), // 1h window
        window(10, 1, Some(20)), // 1s window
        window(100, 60, None),   // 1m window
    ]);
    assert_eq!(ws.len(), 3);
    // Shortest window first.
    assert_eq!(ws[0].burst, 20);
    assert_eq!(ws[1].burst, 100);
    assert_eq!(ws[2].burst, 100);
}

#[test]
fn build_windows_computes_emission_interval() {
    // 10 requests per 1 second = 1 token per 100ms = 100_000_000 ns.
    let ws = build_windows(&vec![window(10, 1, None)]);
    assert_eq!(ws[0].emission_interval_ns, 100_000_000);
    // burst defaults to requests (10), so burst_tolerance = 10 * 100ms = 1s.
    assert_eq!(ws[0].burst_tolerance_ns, 1_000_000_000);
    assert_eq!(ws[0].full_refill_ms, 1000);
}

#[test]
fn build_windows_burst_overrides_default() {
    // 10 r/s with burst 20: emission = 100ms, burst_tolerance = 2s.
    let ws = build_windows(&vec![window(10, 1, Some(20))]);
    assert_eq!(ws[0].emission_interval_ns, 100_000_000);
    assert_eq!(ws[0].burst_tolerance_ns, 2_000_000_000);
    assert_eq!(ws[0].burst, 20);
    assert_eq!(ws[0].full_refill_ms, 2000);
}

#[test]
fn build_windows_clamps_sub_nanos_interval() {
    // 1 billion requests per 1 second = sub-nanosecond interval.
    let ws = build_windows(&vec![window(1_000_000_000, 1, None)]);
    assert_eq!(ws[0].emission_interval_ns, 1); // clamped to 1ns
}

fn limiter(fail_open: bool) -> RedisRateLimiter {
    let specs = vec![window(100, 60, None), window(10, 1, None)];
    RedisRateLimiter::new(&specs, fail_open, "rl:".to_string(), 120).unwrap()
}

fn check(l: &RedisRateLimiter, replies: Vec<ScriptReply>) -> (Vec<String>, CheckState) {
    let mut state = l.begin();
    let mut keys = Vec::new();
    for reply in replies {
        match l.next_call(&state, "k", 0, 5) {
            Some(call) => {
                assert_eq!(call.cost, 1);
                assert_eq!(call.now_ns, 5);
                assert_eq!(call.key_ttl_s, 120);
                keys.push(call.key);
            }
            None => break,
        }
        state = l.on_reply(state, &reply);
    }
    (keys, state)
}

#[test]
fn every_window_is_asked_in_order() {
    let l = limiter(true);
    let replies = vec![
        ScriptReply::Numbers(vec![1, 9, 0]),
        ScriptReply::Numbers(vec![1, 3, 0]),
    ];
    let (keys, state) = check(&l, replies);
    assert_eq!(keys, vec!["rl:k:0", "rl:k:1"]);
    let outcome = l.finish(state);
    assert!(outcome.decision.allowed);
    // The least remaining window binds.
    assert_eq!(outcome.decision.remaining, 3);
    assert_eq!(outcome.limit, 100);
}

#[test]
fn a_denial_ends_the_check() {
    let l = limiter(true);
    let (keys, state) = check(&l, vec![ScriptReply::Numbers(vec![0, 0, 250])]);
    assert_eq!(keys.len(), 1);
    let outcome = l.finish(state);
    assert!(!outcome.decision.allowed);
    assert_eq!(outcome.decision.retry_after_ms, Some(250));
    assert_eq!(outcome.limit, 10);
}

#[test]
fn unreachable_redis_follows_the_policy() {
    let open = limiter(true);
    let down = || vec![ScriptReply::Unreachable, ScriptReply::Unreachable];
    let (_, state) = check(&open, down());
    assert!(open.finish(state).decision.allowed);
    let closed = limiter(false);
    let (_, state) = check(&closed, down());
    assert!(!closed.finish(state).decision.allowed);
}
