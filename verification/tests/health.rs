use dwara_core::health::{EndpointHealth, HealthDispatch, HealthParams, DEFAULT_FAILURE_RATIO};

const HALF: u64 = 500_000_000;

fn params() -> HealthParams {
    HealthParams {
        window_ms: 60_000,
        consecutive_failures: 3,
        failure_ratio: HALF,
        failure_min_volume: 4,
        eject_ms: 1_000,
        half_open_probes: 1,
    }
}

#[test]
fn consecutive_failures_eject_and_block_picks() {
    let p = params();
    let mut t = EndpointHealth::new();
    let now = 10_000;
    for i in 1..=2 {
        t.report(&p, now, true);
        assert!(
            t.is_available(now),
            "two failures stay healthy (threshold 3), iter {i}"
        );
    }
    t.report(&p, now, true);
    assert!(!t.is_available(now), "third consecutive failure ejects");
    assert!(!t.acquire(&p, now), "ejected endpoint is not pickable");
    assert_eq!(t.ejections(), 1);
}

#[test]
fn success_resets_the_consecutive_streak() {
    let mut p = params();
    p.failure_min_volume = 100;
    let mut t = EndpointHealth::new();
    t.report(&p, 1_000, true);
    t.report(&p, 1_001, true);
    t.report(&p, 1_002, false);
    t.report(&p, 1_003, true);
    assert!(t.is_available(1_003), "1-of-4 streak is below threshold");
}

#[test]
fn ratio_requires_volume_before_ejection() {
    let mut p = params();
    p.consecutive_failures = 100;
    p.failure_min_volume = 4;
    p.failure_ratio = HALF;
    let mut t = EndpointHealth::new();
    let now = 5_000;
    for _ in 0..3 {
        t.report(&p, now, true);
    }
    assert!(t.is_available(now), "volume below threshold: no ejection");
    t.report(&p, now, true);
    assert!(!t.is_available(now), "ratio with volume met ejects");
}

#[test]
fn mixed_window_ratio_ejects_at_threshold() {
    let mut p = params();
    p.consecutive_failures = 100;
    p.failure_min_volume = 4;
    p.failure_ratio = HALF;
    let mut t = EndpointHealth::new();
    let now = 5_000;
    t.report(&p, now, true);
    t.report(&p, now, true);
    t.report(&p, now, false);
    assert!(t.is_available(now));
    t.report(&p, now, true);
    assert!(!t.is_available(now));
}

#[test]
fn old_failures_expire_from_the_window() {
    let mut p = params();
    p.consecutive_failures = 100;
    p.failure_min_volume = 3;
    p.failure_ratio = HALF;
    p.window_ms = 1_000;
    let mut t = EndpointHealth::new();
    t.report(&p, 10_000, true);
    t.report(&p, 10_100, true);
    t.report(&p, 11_200, false);
    assert!(t.is_available(11_200), "expired failures leave the window");
    t.report(&p, 11_200, true);
    assert!(t.is_available(11_200));
}

#[test]
fn half_open_probe_success_restores_health() {
    let p = params();
    let mut t = EndpointHealth::new();
    let t0 = 100_000;
    for _ in 0..3 {
        t.report(&p, t0, true);
    }
    assert!(!t.acquire(&p, t0 + 500), "inside eject_ms: no pickup");
    assert!(t.acquire(&p, t0 + p.eject_ms + 1), "probe granted");
    assert!(
        !t.acquire(&p, t0 + p.eject_ms + 2),
        "single probe budget exhausted"
    );
    t.report(&p, t0 + p.eject_ms + 3, false);
    assert!(t.acquire(&p, t0 + p.eject_ms + 4), "back in rotation");
}

#[test]
fn half_open_probe_failure_re_ejects_for_another_window() {
    let p = params();
    let mut t = EndpointHealth::new();
    let t0 = 100_000;
    for _ in 0..3 {
        t.report(&p, t0, true);
    }
    let probe_at = t0 + p.eject_ms + 1;
    assert!(t.acquire(&p, probe_at));
    t.report(&p, probe_at, true);
    assert_eq!(t.ejections(), 2, "failed probe re-ejects");
    assert!(!t.is_available(probe_at + p.eject_ms - 1), "still out");
    assert!(t.acquire(&p, probe_at + p.eject_ms + 1));
}

#[test]
fn multiple_half_open_probes_are_granted_then_gated() {
    let mut p = params();
    p.half_open_probes = 2;
    let mut t = EndpointHealth::new();
    let t0 = 100_000;
    for _ in 0..3 {
        t.report(&p, t0, true);
    }
    let at = t0 + p.eject_ms + 1;
    assert!(t.acquire(&p, at), "probe 1");
    assert!(t.acquire(&p, at), "probe 2");
    assert!(!t.acquire(&p, at), "budget of 2 exhausted");
}

#[test]
fn fail_open_success_on_ejected_endpoint_recovers_it() {
    let p = params();
    let mut t = EndpointHealth::new();
    let t0 = 100_000;
    for _ in 0..3 {
        t.report(&p, t0, true);
    }
    assert!(!t.is_available(t0 + 10));
    t.report(&p, t0 + 20, false);
    assert!(t.is_available(t0 + 20), "observed success restores health");
}

#[test]
fn candidates_take_no_probe_until_selected() {
    let p = params();
    let mut d = HealthDispatch { tracker: EndpointHealth::new(), params: p };
    for _ in 0..3 {
        d.report(0, true);
    }
    assert!(!d.tracker.is_candidate(&p, 999));
    assert!(d.tracker.is_candidate(&p, 1_000));
    assert!(d.tracker.is_candidate(&p, 1_000));
    d.tracker.consume_probe();
    assert!(!d.tracker.is_candidate(&p, 1_000));
    assert!(!d.tracker().is_available(1_000));
}

#[test]
fn standard_parameters() {
    let p = HealthParams::standard();
    assert_eq!(p.window_ms, 60_000);
    assert_eq!(p.consecutive_failures, 5);
    assert_eq!(p.failure_ratio, DEFAULT_FAILURE_RATIO);
    assert_eq!(p.failure_min_volume, 20);
    assert_eq!(p.eject_ms, 30_000);
    assert_eq!(p.half_open_probes, 1);
}

#[test]
fn ejection_goes_by_the_window_and_lasts_its_time() {
    let mut p = params();
    p.consecutive_failures = 100;
    p.window_ms = 1_000;
    // Two of four in the window are failures; the first report has left it.
    let mut t = EndpointHealth::new();
    for (at, failed) in [(0, false), (500, false), (900, false), (1_000, true)] {
        t.report(&p, at, failed);
        assert!(t.is_available(at));
    }
    t.report(&p, 1_100, true);
    assert!(!t.is_available(1_100));
    assert!(!t.is_available(2_099));
    assert!(t.is_available(2_100));
    // One of four is too small a share.
    let mut t = EndpointHealth::new();
    for (at, failed) in [(0, false), (0, false), (0, false), (0, true)] {
        t.report(&p, at, failed);
    }
    assert!(t.is_available(0));
}
