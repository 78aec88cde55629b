use std::num::NonZeroU32;
use std::time::Duration;

use dwara_core::extensions::rate_limiter::engine::{
    build_key, combine, rate_outcome, window_specs, Policy, RateLimit, RateLimitRule,
    RateLimitSelector, RateRequestsPer, RuleOutcome,
};
use dwara_core::extensions::rate_limiter::gcra::{decide, remaining, sort_specs, Verdict};
use dwara_core::extensions::rate_limiter::shard::{sweep_if_crowded, GcraCell};
use dwara_core::extensions::rate_limiter::{
    denied_outcome, AttachedPolicies, GcraRateLimiter, GcraWindowSpec, InMemoryRateLimiter,
    RateLimitEngine, RateLimitKeyContext, RateLimitOutcome,
};
use dwara_core::text_map::TextMap;
use governor::clock::{Clock, FakeRelativeClock};
use governor::middleware::StateInformationMiddleware;
use governor::{Quota, RateLimiter};

const MS: u64 = 1_000_000;

fn spec(requests: u32, secs: u64, burst: Option<u32>) -> GcraWindowSpec {
    GcraWindowSpec::new(requests, secs, 0, burst).unwrap()
}

/// Requests of pseudo-random costs at pseudo-random distances, decided by the
/// library and by the `governor` crate.
fn agree(period_ns: u64, burst: u32, seed: u64) {
    let clock = FakeRelativeClock::default();
    let quota = Quota::with_period(Duration::from_nanos(period_ns))
        .unwrap()
        .allow_burst(NonZeroU32::new(burst).unwrap());
    let other = RateLimiter::direct_with_clock(quota, clock.clone())
        .with_middleware::<StateInformationMiddleware>();
    let mut now: u64 = 0;
    let mut tat: Option<u128> = None;
    let mut x = seed;
    for _ in 0..500 {
        x = x.wrapping_mul(6364136223846793005).wrapping_add(1442695040888963407);
        let step = (x >> 33) % (3 * period_ns);
        let cost = 1 + ((x >> 20) % (burst as u64 + 1)) as u32;
        clock.advance(Duration::from_nanos(step));
        now += step;
        let mine = decide(period_ns as u128, burst, tat, cost, now);
        match other.check_n(NonZeroU32::new(cost).unwrap()) {
            Err(_) => assert_eq!(mine, Verdict::TooLarge),
            Ok(Ok(snapshot)) => match mine {
                Verdict::Allowed(next) => {
                    assert_eq!(
                        remaining(period_ns as u128, burst, now, next),
                        snapshot.remaining_burst_capacity() as u64
                    );
                    tat = Some(next);
                }
                v => panic!("governor allows, the library says {v:?}"),
            },
            Ok(Err(not_until)) => match mine {
                Verdict::NotUntil(at) => assert_eq!(
                    at - now as u128,
                    not_until.wait_time_from(clock.now()).as_nanos()
                ),
                v => panic!("governor denies, the library says {v:?}"),
            },
        }
    }
}

#[test]
fn decisions_agree_with_governor() {
    agree(100 * MS, 20, 1);
    agree(100 * MS, 1, 2);
    agree(7, 3, 3);
    agree(1_234_567, 10, 4);
}

#[test]
fn fresh_bucket_holds_its_burst() {
    let mut l = GcraRateLimiter::new(&vec![spec(10, 1, Some(3))], 100).unwrap();
    for left in [2, 1, 0] {
        let o = l.check("k", 1, 7, 0, 0);
        assert!(o.decision.allowed);
        assert_eq!(o.decision.remaining, left);
        assert_eq!(o.limit, 3);
        assert_eq!(o.refill_ms, 300);
    }
    let denied = l.check("k", 1, 7, 0, 0);
    assert!(!denied.decision.allowed);
    assert_eq!(denied.decision.retry_after_ms, Some(100));
    assert_eq!(denied, denied_outcome(3, 100));
    // Waiting as told is enough, and other keys have buckets of their own.
    assert!(l.check("k", 1, 7, 100 * MS, 100).decision.allowed);
    assert!(l.check("other", 3, 7, 0, 0).decision.allowed);
    assert_eq!(l.live_keys(), 2);
}

#[test]
fn cost_above_the_burst_is_always_denied() {
    let mut l = GcraRateLimiter::new(&vec![spec(10, 1, Some(3))], 100).unwrap();
    let o = l.check("k", 4, 0, 0, 0);
    assert!(!o.decision.allowed);
    assert_eq!(o.decision.retry_after_ms, Some(300));
    assert!(GcraRateLimiter::new(&vec![], 100).is_none());
}

#[test]
fn tightest_window_binds() {
    let mut l = GcraRateLimiter::new(&vec![spec(100, 60, None), spec(5, 1, None)], 100).unwrap();
    let o = l.check("k", 1, 0, 0, 0);
    assert_eq!((o.limit, o.decision.remaining), (5, 4));
}

#[test]
fn store_stays_within_its_cap() {
    let mut l = GcraRateLimiter::new(&vec![spec(1, 3600, None)], 4).unwrap();
    for i in 0..100u64 {
        l.check(&format!("k{i}"), 1, 0, i * MS, i);
    }
    assert!(l.live_keys() <= 5);
    assert!(l.evictions() >= 95);
}

#[test]
fn sweeping_drops_idle_cells_first() {
    let mut cells = TextMap::new();
    for (k, t) in [("old", 0u64), ("new", 100)] {
        cells.insert(k.to_string(), GcraCell { tat: 1, last_touch_ms: t });
    }
    assert_eq!(sweep_if_crowded(&mut cells, 100, 50, 3), 0);
    assert_eq!(sweep_if_crowded(&mut cells, 100, 50, 2), 1);
    assert!(cells.contains_key("new") && !cells.contains_key("old"));
}

#[test]
fn windows_are_sorted_and_validated() {
    let sorted = sort_specs(&vec![spec(1, 60, None), spec(2, 1, None)]);
    assert_eq!(sorted[0].window_ns(), 1_000_000_000);
    assert_eq!((sorted[1].requests(), sorted[1].burst()), (1, 1));
    assert!(GcraWindowSpec::new(0, 1, 0, None).is_none());
    let v = window_specs(
        &RateRequestsPer { per_second: Some(5), minute: None, hour: Some(100) },
        Some(7),
    );
    assert_eq!(v.len(), 2);
    assert_eq!((v[0].burst(), v[1].window_ns()), (7, 3_600_000_000_000));
}

#[test]
fn fixed_windows_start_over() {
    let mut l = InMemoryRateLimiter::new(2, 1_000);
    assert_eq!(l.check("k", 1, 0).remaining, 1);
    assert!(l.check("k", 1, 10).allowed);
    let d = l.check("k", 1, 400);
    assert!(!d.allowed);
    assert_eq!(d.retry_after_ms, Some(600));
    assert!(l.check("k", 2, 1_000).allowed);
}

fn policy(name: &str, per_second: u32, dry_run: bool) -> Policy {
    Policy {
        name: name.to_string(),
        rate_limit: None,
        rate_limits: vec![RateLimitRule {
            selector: vec![RateLimitSelector::Ip],
            requests_per: RateRequestsPer {
                per_second: Some(per_second),
                minute: None,
                hour: None,
            },
            burst: None,
        }],
        dry_run,
    }
}

fn attached(route: &[&str], global: &[&str]) -> AttachedPolicies {
    let v = |s: &[&str]| s.iter().map(|x| x.to_string()).collect::<Vec<_>>();
    AttachedPolicies {
        consumer: vec![],
        route: v(route),
        service: vec![],
        listener: vec![],
        global: v(global),
    }
}

fn ctx() -> RateLimitKeyContext<'static> {
    RateLimitKeyContext { peer: "10.0.0.1", consumer: Some("c"), route: "r" }
}

#[test]
fn engine_denies_iff_an_enforced_rule_denies() {
    let policies = vec![policy("strict", 1, false), policy("dry", 1, true)];
    let mut e = RateLimitEngine::compile(&policies, 100);
    assert!(!e.is_empty());
    let a = attached(&["strict"], &["strict"]);
    // No rule is asked twice: the budget of one request is enough.
    assert!(matches!(
        e.evaluate(&ctx(), &a, 0, 0, 1_000).outcome,
        RateLimitOutcome::Allowed { limit: 1, remaining: 0, reset_epoch_s: 1_001 }
    ));
    assert!(matches!(
        e.evaluate(&ctx(), &a, 0, 0, 1_000).outcome,
        RateLimitOutcome::Denied { retry_after_s: 1, .. }
    ));
    let dry = attached(&["dry"], &[]);
    e.evaluate(&ctx(), &dry, 0, 0, 1_000);
    let second = e.evaluate(&ctx(), &dry, 0, 0, 1_000);
    assert!(!matches!(second.outcome, RateLimitOutcome::Denied { .. }));
    assert!(second.dry_denied.is_some());
    let unknown = attached(&["unknown"], &[]);
    assert!(matches!(
        e.evaluate(&ctx(), &unknown, 0, 0, 0).outcome,
        RateLimitOutcome::NotLimited
    ));
    assert_eq!(e.live_keys(), 2);
    assert_eq!(e.evictions(), 0);
    assert!(RateLimitEngine::compile(&vec![], 100).is_empty());
}

#[test]
fn legacy_limit_is_one_window() {
    let p = Policy {
        name: "p".to_string(),
        rate_limit: Some(RateLimit { requests: 2, window_seconds: 60 }),
        rate_limits: vec![],
        dry_run: false,
    };
    let mut e = RateLimitEngine::compile(&vec![p], 100);
    let a = attached(&["p"], &[]);
    for _ in 0..2 {
        assert!(matches!(
            e.evaluate(&ctx(), &a, 0, 0, 0).outcome,
            RateLimitOutcome::Allowed { .. }
        ));
    }
    assert!(matches!(
        e.evaluate(&ctx(), &a, 0, 0, 0).outcome,
        RateLimitOutcome::Denied { .. }
    ));
}

#[test]
fn keys_differ_by_what_is_selected() {
    let all = vec![RateLimitSelector::Ip, RateLimitSelector::Credential, RateLimitSelector::Route];
    let k = build_key(&ctx(), &all);
    assert_eq!(k.split('|').count(), 3);
    assert!(k.contains("10.0.0.1"));
    let other = RateLimitKeyContext { peer: "10.0.0.2", consumer: Some("c"), route: "r" };
    assert_ne!(k, build_key(&other, &all));
    assert_eq!(build_key(&ctx(), &vec![]), "");
}

#[test]
fn every_selector_has_a_component() {
    let unrouted = RateLimitKeyContext { peer: "10.0.0.1", consumer: None, route: "" };
    let key = |v: &[RateLimitSelector]| build_key(&unrouted, &v.to_vec());
    assert_eq!(key(&[RateLimitSelector::Route]), "");
    assert_eq!(key(&[RateLimitSelector::Route, RateLimitSelector::Ip]), "|10.0.0.1");
    assert_eq!(key(&[RateLimitSelector::Ip, RateLimitSelector::Route]), "10.0.0.1|");
    assert_eq!(
        key(&[RateLimitSelector::Route, RateLimitSelector::Route, RateLimitSelector::Credential]),
        "||10.0.0.1"
    );
}

#[test]
fn a_key_is_let_pass_as_often_as_its_bucket_allows() {
    // Ten tokens, and one more every 100 ms.
    let mut e = RateLimitEngine::compile(&vec![policy("p", 10, false)], 100);
    let a = attached(&["p"], &[]);
    let mut passed = 0;
    for ms in 0..1_000 {
        for other in ["10.0.0.2", "10.0.0.3", "10.0.0.4"] {
            let c = RateLimitKeyContext { peer: other, ..ctx() };
            e.evaluate(&c, &a, ms * MS, ms, 0);
        }
        if !matches!(e.evaluate(&ctx(), &a, ms * MS, ms, 0).outcome, RateLimitOutcome::Denied { .. }) {
            passed += 1;
        }
    }
    assert_eq!(passed, 10 + 9);
    assert_eq!(e.live_keys(), 4);
}

#[test]
fn longest_wait_is_reported() {
    let d = |ms| RuleOutcome { dry_run: false, outcome: rate_outcome(denied_outcome(5, ms), 100) };
    let r = combine(&vec![d(1_500), d(4_200), d(10)]);
    assert!(matches!(
        r.outcome,
        RateLimitOutcome::Denied { retry_after_s: 5, reset_epoch_s: 105, .. }
    ));
}

#[test]
fn an_engine_without_the_dry_run_policies_decides_the_same() {
    let both = vec![policy("dry", 1, true), policy("strict", 2, false)];
    let live = vec![policy("strict", 2, false)];
    let mut e = RateLimitEngine::compile(&both, 100);
    let mut f = RateLimitEngine::compile(&live, 100);
    let a = attached(&["dry", "strict"], &["dry"]);
    let mut reported = Vec::new();
    for _ in 0..4 {
        let x = e.evaluate(&ctx(), &a, 0, 0, 1_000);
        let y = f.evaluate(&ctx(), &a, 0, 0, 1_000);
        assert_eq!(x.outcome, y.outcome);
        assert!(y.dry_denied.is_none());
        reported.push(x.dry_denied);
    }
    assert!(reported[0].is_none());
    assert!(reported[1..].iter().all(|d| matches!(
        d,
        Some(RateLimitOutcome::Denied { limit: 1, remaining: 0, retry_after_s: 1, .. })
    )));
}
