use dwara_core::civil_time::{civil_from_days, days_in_month, rfc3339_ms};
use dwara_core::extensions::redis_quotas::{
    read_reply, retry_after, Budget, ConsumerQuotas, QuotaCall, QuotaOutcome, QuotaReply,
    QuotaState, RedisQuotaChecker,
};

// 2024-02-15T12:00:00Z
const NOW: i64 = 1_707_998_400;
// 2024-02-16T00:00:00Z
const TOMORROW: i64 = 1_708_041_600;
// 2024-03-01T00:00:00Z
const NEXT_MONTH: i64 = 1_709_251_200;

fn quotas(daily: Option<u64>, monthly: Option<u64>) -> ConsumerQuotas {
    ConsumerQuotas { daily, monthly }
}

fn run(fail_open: bool, q: &ConsumerQuotas, replies: Vec<QuotaReply>) -> (Vec<QuotaCall>, QuotaState) {
    let c = RedisQuotaChecker::new(fail_open, "q:".to_string());
    let mut state = c.begin(q);
    let mut calls = Vec::new();
    for r in replies {
        match c.next_call(&state, 7, q, NOW) {
            Some(call) => calls.push(call),
            None => break,
        }
        state = c.on_reply(state, &r, q, NOW);
    }
    (calls, state)
}

#[test]
fn windows_follow_the_calendar() {
    assert_eq!(Budget::Daily.window(NOW).1, TOMORROW);
    assert_eq!(Budget::Daily.window(NOW).0, TOMORROW - 86_400);
    assert_eq!(Budget::Monthly.window(NOW).1, NEXT_MONTH);
    assert_eq!(retry_after(TOMORROW, NOW), 43_200);
    assert_eq!(retry_after(NOW, NOW + 5), 1);
}

#[test]
fn budgets_are_asked_in_turn() {
    let q = quotas(Some(10), Some(100));
    let (calls, state) = run(
        true,
        &q,
        vec![
            QuotaReply::Reserved { allowed: true, counter: 4 },
            QuotaReply::Reserved { allowed: true, counter: 99 },
        ],
    );
    assert_eq!(calls.len(), 2);
    assert!(matches!(&calls[0], QuotaCall::Reserve { limit: 10, increment: 1, .. }));
    assert!(matches!(&calls[1], QuotaCall::Reserve { limit: 100, .. }));
    match state {
        QuotaState::Ended(QuotaOutcome::Allowed { limit, remaining, .. }) => {
            assert_eq!((limit, remaining), (100, 1));
        }
        other => panic!("unexpected: {other:?}"),
    }
}

#[test]
fn denial_names_its_budget() {
    let q = quotas(Some(10), None);
    let (_, state) = run(
        true,
        &q,
        vec![QuotaReply::Reserved { allowed: false, counter: 10 }, QuotaReply::Unreachable],
    );
    match state {
        QuotaState::Ended(QuotaOutcome::Denied { limit, remaining, retry_after_s, budget, .. }) => {
            assert_eq!((limit, remaining, retry_after_s), (10, 0, 43_200));
            assert_eq!(budget, Budget::Daily);
        }
        other => panic!("unexpected: {other:?}"),
    }
}

#[test]
fn exhausted_other_budget_stretches_the_wait() {
    let q = quotas(Some(10), Some(100));
    let (calls, state) = run(
        true,
        &q,
        vec![QuotaReply::Reserved { allowed: false, counter: 10 }, QuotaReply::Counter(100)],
    );
    assert!(matches!(&calls[1], QuotaCall::Peek { .. }));
    match state {
        QuotaState::Ended(QuotaOutcome::Denied { retry_after_s, .. }) => {
            assert_eq!(retry_after_s, (NEXT_MONTH - NOW) as u64);
        }
        other => panic!("unexpected: {other:?}"),
    }
}

#[test]
fn no_quota_means_no_call() {
    let (calls, state) = run(true, &quotas(None, None), vec![QuotaReply::Unreachable]);
    assert!(calls.is_empty());
    assert_eq!(state, QuotaState::Ended(QuotaOutcome::NotQuotaed));
}

#[test]
fn unreachable_redis_follows_the_quota_policy() {
    let q = quotas(Some(10), None);
    let down = || vec![QuotaReply::Unreachable, QuotaReply::Unreachable];
    let (_, open) = run(true, &q, down());
    assert!(!matches!(open, QuotaState::Ended(QuotaOutcome::Denied { .. })));
    let (_, closed) = run(false, &q, down());
    assert!(matches!(closed, QuotaState::Ended(QuotaOutcome::Denied { .. })));
}

#[test]
fn script_replies_are_read() {
    assert_eq!(read_reply(&vec![1, 5]), QuotaReply::Reserved { allowed: true, counter: 5 });
    assert_eq!(read_reply(&vec![0, 9]), QuotaReply::Reserved { allowed: false, counter: 9 });
}

#[test]
fn calendar_dates() {
    assert_eq!(civil_from_days(0), (1970, 1, 1));
    assert_eq!(civil_from_days(19_782), (2024, 2, 29));
    assert_eq!(civil_from_days(-1), (1969, 12, 31));
    assert_eq!(days_in_month(2024, 2), 29);
    assert_eq!(days_in_month(2100, 2), 28);
    assert_eq!(rfc3339_ms(0), "1970-01-01T00:00:00.000Z");
    assert_eq!(rfc3339_ms(1_707_998_400_007), "2024-02-15T12:00:00.007Z");
}

#[test]
fn calendar_agrees_with_chrono() {
    let mut ms: u64 = 0;
    for i in 0..2_000u64 {
        ms = ms + 1_234_567_891 + i * 97;
        let t = chrono::DateTime::from_timestamp_millis(ms as i64).unwrap();
        assert_eq!(rfc3339_ms(ms), t.to_rfc3339_opts(chrono::SecondsFormat::Millis, true));
    }
}
