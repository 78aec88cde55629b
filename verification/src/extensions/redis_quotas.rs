//! Consumer request quotas with their counters in Redis.
//!
//! A consumer may have a daily and a monthly budget, over calendar windows in
//! UTC. A request is checked against every configured budget in turn, and
//! evaluation stops at the first one that denies it; the other budget is then
//! only looked at, so that the reported wait is the longest that applies. The
//! counters are read, compared and incremented in one script call per budget,
//! so that gateway instances that share a Redis share a quota.

pub mod laws;

use vstd::prelude::*;
use vstd::string::*;

use crate::civil_time;
use crate::civil_time::{civil_from_days, days_in_month};
use crate::text;
use crate::text::{cat6, decimal_signed};

verus! {

/// The script that checks one budget and reserves from it.
///
/// Its key is the counter key; its arguments are a window start that is not
/// used, the limit, the increment and the lifetime of the key in seconds. It
/// returns whether the request is allowed (1 or 0) and the counter.
pub const QUOTA_LUA: &'static str = r#"
local counter = tonumber(redis.call('GET', KEYS[1]) or '0')
local limit = tonumber(ARGV[2])
local increment = tonumber(ARGV[3])
local ttl = tonumber(ARGV[4])
if counter + increment > limit then
    return {0, counter}
end
local new_counter = counter + increment
redis.call('SET', KEYS[1], new_counter, 'EX', ttl)
return {1, new_counter}
"#;

/// The lifetime of daily keys: a day and five minutes.
pub const DAILY_TTL_S: u64 = 86_700;

/// The lifetime of monthly keys: 31 days and an hour.
pub const MONTHLY_TTL_S: u64 = 2_682_000;

/// A request budget.
#[derive(Debug, Clone, Copy, PartialEq, Eq, Structural)]
pub enum Budget {
    Daily,
    Monthly,
}

/// The request budgets of a consumer.
#[derive(Debug, Clone, Copy, PartialEq, Eq, Structural)]
pub struct ConsumerQuotas {
    pub daily: Option<u64>,
    pub monthly: Option<u64>,
}

/// What a quota check decided.
#[derive(Debug, Clone, Copy, PartialEq, Eq, Structural)]
pub enum QuotaOutcome {
    /// No budget applied.
    NotQuotaed,
    /// Admitted; the budget with the least left.
    Allowed { limit: u64, remaining: u64, reset_epoch_s: u64 },
    /// Denied by a budget.
    Denied {
        limit: u64,
        remaining: u64,
        reset_epoch_s: u64,
        retry_after_s: u64,
        budget: Budget,
    },
}

/// The seconds of a day.
pub const DAY_S: i64 = 86_400;

/// Whether a time is far enough from the ends of 64 bits.
pub open spec fn is_time(now: i64) -> bool {
    -9_000_000_000_000_000_000 <= now <= 9_000_000_000_000_000_000
}

/// The limit of a budget, if it is configured.
pub open spec fn limit_of(b: Budget, q: ConsumerQuotas) -> Option<u64> {
    match b {
        Budget::Daily => q.daily,
        Budget::Monthly => q.monthly,
    }
}

/// The name of a budget.
pub open spec fn budget_name(b: Budget) -> Seq<char> {
    match b {
        Budget::Daily => "daily"@,
        Budget::Monthly => "monthly"@,
    }
}

/// The first day of the month of a day.
pub open spec fn month_start(day: int) -> int {
    let (y, m, d) = date_of(day);
    civil_time::day_number(y, m, 1)
}

/// The first day of the month after that of a day.
pub open spec fn month_end(day: int) -> int {
    let (y, m, d) = date_of(day);
    civil_time::day_number(y, m, 1) + civil_time::month_days(y, m)
}

/// The date of a day.
pub open spec fn date_of(day: int) -> (int, int, int) {
    choose|y: int, m: int, d: int|
        civil_time::is_date(y, m, d) && #[trigger] civil_time::day_number(y, m, d) == day
}

/// The window of a budget at a time: when it began and when it ends (Unix
/// seconds).
pub open spec fn window_of(b: Budget, now: int) -> (int, int) {
    let day = now / 86_400;
    match b {
        Budget::Daily => (day * 86_400, (day + 1) * 86_400),
        Budget::Monthly => (month_start(day) * 86_400, month_end(day) * 86_400),
    }
}

/// The wait until a time, at least one second.
pub open spec fn wait_until(reset: int, now: int) -> int {
    if reset - now >= 1 {
        reset - now
    } else {
        1
    }
}

/// How far a number is from zero.
pub open spec fn distance(n: int) -> int {
    if n >= 0 {
        n
    } else {
        -n
    }
}

fn magnitude(n: i64) -> (r: u64)
    ensures
        r == distance(n as int),
{
    if n >= 0 {
        n as u64
    } else {
        (-(n + 1)) as u64 + 1
    }
}

/// The wait until a time in seconds, at least one.
pub fn retry_after(reset_epoch_s: i64, now_epoch_s: i64) -> (r: u64)
    ensures
        r == wait_until(reset_epoch_s as int, now_epoch_s as int),
{
    let d: i128 = reset_epoch_s as i128 - now_epoch_s as i128;
    if d >= 1 {
        d as u64
    } else {
        1
    }
}

fn day_of(now: i64) -> (d: i64)
    requires
        is_time(now),
    ensures
        d == now as int / 86_400,
{
    if now >= 0 {
        now / DAY_S
    } else {
        -((-(now + 1)) / DAY_S) - 1
    }
}

impl Budget {
    /// The limit of the budget, if it is configured.
    pub fn limit(&self, quotas: &ConsumerQuotas) -> (r: Option<u64>)
        ensures
            r == limit_of(*self, *quotas),
    {
        match self {
            Budget::Daily => quotas.daily,
            Budget::Monthly => quotas.monthly,
        }
    }

    /// The name of the budget.
    pub fn key(&self) -> (s: &'static str)
        ensures
            s@ == budget_name(*self),
    {
        match self {
            Budget::Daily => "daily",
            Budget::Monthly => "monthly",
        }
    }

    /// The window of the budget at a time: when it began and when it ends.
    pub fn window(&self, now_epoch_s: i64) -> (r: (i64, i64))
        requires
            is_time(now_epoch_s),
        ensures
            (r.0 as int, r.1 as int) == window_of(*self, now_epoch_s as int),
    {
        let day: i64 = day_of(now_epoch_s);
        match self {
            Budget::Daily => (day * DAY_S, (day + 1) * DAY_S),
            Budget::Monthly => {
                let (y, m, d) = civil_from_days(day);
                proof {
                    lemma_date(y as int, m as int, d as int, day as int);
                }
                let start: i64 = day - (d - 1);
                let days: i64 = days_in_month(y, m);
                (start * DAY_S, (start + days) * DAY_S)
            },
        }
    }

    /// The lifetime of the budget's keys in seconds.
    pub fn ttl(&self) -> (n: u64)
        ensures
            n == match *self {
                Budget::Daily => DAILY_TTL_S,
                Budget::Monthly => MONTHLY_TTL_S,
            },
    {
        match self {
            Budget::Daily => DAILY_TTL_S,
            Budget::Monthly => MONTHLY_TTL_S,
        }
    }
}

proof fn lemma_date(y: int, m: int, d: int, day: int)
    requires
        civil_time::is_date(y, m, d),
        civil_time::day_number(y, m, d) == day,
    ensures
        date_of(day) == (y, m, d),
{
    let (y2, m2, d2) = date_of(day);
    assert(civil_time::is_date(y2, m2, d2) && civil_time::day_number(y2, m2, d2) == day);
    civil_time::law_day_numbers_are_unique(y, m, d, y2, m2, d2);
}

// ---------------------------------------------------------------------------
// A check
// ---------------------------------------------------------------------------

/// The budget with the least left, of those that allowed a request.
#[derive(Debug, Clone, Copy, PartialEq, Eq, Structural)]
pub struct Binding {
    pub limit: u64,
    pub remaining: u64,
    pub reset_epoch_s: u64,
}

/// A denial whose wait is still to be held against the other budget.
#[derive(Debug, Clone, Copy, PartialEq, Eq, Structural)]
pub struct Denial {
    pub limit: u64,
    pub remaining: u64,
    pub reset_epoch_s: u64,
    pub retry_after_s: u64,
    pub budget: Budget,
}

/// How far a check has come.
#[derive(Debug, Clone, Copy, PartialEq, Eq, Structural)]
pub enum QuotaState {
    /// A budget is to be checked.
    Asking { budget: Budget, binding: Option<Binding> },
    /// A budget denied the request; this one is to be looked at.
    Peeking { other: Budget, denial: Denial },
    /// The check has ended.
    Ended(QuotaOutcome),
}

/// What is to be asked of Redis.
#[derive(Debug, Clone, PartialEq, Eq)]
pub enum QuotaCall {
    /// Check a budget and reserve one request from it.
    Reserve { key: String, limit: u64, increment: u64, ttl_s: u64 },
    /// Read a counter.
    Peek { key: String },
}

/// What Redis replied.
#[derive(Debug, Clone, PartialEq, Eq)]
pub enum QuotaReply {
    /// Whether the request was allowed, and the counter.
    Reserved { allowed: bool, counter: u64 },
    /// The counter that was read.
    Counter(u64),
    /// Redis could not be reached.
    Unreachable,
}

/// The numbers that the script returned, as a reply.
pub fn read_reply(v: &Vec<i64>) -> (r: QuotaReply)
    ensures
        r == (QuotaReply::Reserved {
            allowed: v@.len() > 0 && v@[0] == 1,
            counter: if v@.len() > 1 {
                v@[1] as u64
            } else {
                0
            },
        }),
{
    QuotaReply::Reserved {
        allowed: v.len() > 0 && v[0] == 1,
        counter: if v.len() > 1 {
            v[1] as u64
        } else {
            0
        },
    }
}

/// The outcome when every budget was asked.
pub open spec fn settled_outcome(binding: Option<Binding>) -> QuotaOutcome {
    match binding {
        Some(b) => QuotaOutcome::Allowed {
            limit: b.limit,
            remaining: b.remaining,
            reset_epoch_s: b.reset_epoch_s,
        },
        None => QuotaOutcome::NotQuotaed,
    }
}

/// The state when the monthly budget is next.
pub open spec fn at_monthly(q: ConsumerQuotas, binding: Option<Binding>) -> QuotaState {
    if q.monthly is Some {
        QuotaState::Asking { budget: Budget::Monthly, binding }
    } else {
        QuotaState::Ended(settled_outcome(binding))
    }
}

/// The state of a check that nothing was asked for yet.
pub open spec fn first_state(q: ConsumerQuotas) -> QuotaState {
    if q.daily is Some {
        QuotaState::Asking { budget: Budget::Daily, binding: None }
    } else {
        at_monthly(q, None)
    }
}

/// The state when a budget let a request pass.
pub open spec fn next_state(
    q: ConsumerQuotas,
    budget: Budget,
    binding: Option<Binding>,
) -> QuotaState {
    match budget {
        Budget::Daily => at_monthly(q, binding),
        Budget::Monthly => QuotaState::Ended(settled_outcome(binding)),
    }
}

/// What is left of a limit.
pub open spec fn left_of(limit: u64, counter: u64) -> u64 {
    if counter <= limit {
        (limit - counter) as u64
    } else {
        0
    }
}

/// The other budget.
pub open spec fn other_budget(b: Budget) -> Budget {
    match b {
        Budget::Daily => Budget::Monthly,
        Budget::Monthly => Budget::Daily,
    }
}

/// The denial of a budget at a time.
pub open spec fn denial_of(b: Budget, limit: u64, remaining: u64, now: int) -> Denial {
    Denial {
        limit,
        remaining,
        reset_epoch_s: distance(window_of(b, now).1) as u64,
        retry_after_s: wait_until(window_of(b, now).1, now) as u64,
        budget: b,
    }
}

/// The outcome of a denial.
pub open spec fn denied_as(d: Denial) -> QuotaOutcome {
    QuotaOutcome::Denied {
        limit: d.limit,
        remaining: d.remaining,
        reset_epoch_s: d.reset_epoch_s,
        retry_after_s: d.retry_after_s,
        budget: d.budget,
    }
}

/// A denial held against another budget that is used up.
pub open spec fn stretched(d: Denial, other: Budget, now: int) -> Denial {
    let wait = wait_until(window_of(other, now).1, now);
    if wait > d.retry_after_s {
        Denial {
            retry_after_s: wait as u64,
            reset_epoch_s: distance(window_of(other, now).1) as u64,
            ..d
        }
    } else {
        d
    }
}

/// The state of a check after a reply.
pub open spec fn state_after(
    fail_open: bool,
    q: ConsumerQuotas,
    s: QuotaState,
    reply: QuotaReply,
    now: int,
) -> QuotaState {
    match s {
        QuotaState::Ended(_) => s,
        QuotaState::Asking { budget, binding } => {
            let limit = limit_of(budget, q)->Some_0;
            match reply {
                QuotaReply::Reserved { allowed, counter } => if allowed {
                    let left = left_of(limit, counter);
                    let next = Binding {
                        limit,
                        remaining: left,
                        reset_epoch_s: distance(window_of(budget, now).1) as u64,
                    };
                    let tightest = match binding {
                        Some(b) => if left < b.remaining {
                            next
                        } else {
                            b
                        },
                        None => next,
                    };
                    next_state(q, budget, Some(tightest))
                } else {
                    let d = denial_of(budget, limit, left_of(limit, counter), now);
                    if limit_of(other_budget(budget), q) is Some {
                        QuotaState::Peeking { other: other_budget(budget), denial: d }
                    } else {
                        QuotaState::Ended(denied_as(d))
                    }
                },
                _ => if fail_open {
                    next_state(q, budget, binding)
                } else {
                    QuotaState::Ended(denied_as(denial_of(budget, limit, 0, now)))
                },
            }
        },
        QuotaState::Peeking { other, denial } => match reply {
            QuotaReply::Counter(used) => if used >= limit_of(other, q)->Some_0 {
                QuotaState::Ended(denied_as(stretched(denial, other, now)))
            } else {
                QuotaState::Ended(denied_as(denial))
            },
            _ => QuotaState::Ended(denied_as(denial)),
        },
    }
}

/// Whether a state speaks of configured budgets only.
pub open spec fn is_state(q: ConsumerQuotas, s: QuotaState) -> bool {
    match s {
        QuotaState::Asking { budget, .. } => limit_of(budget, q) is Some,
        QuotaState::Peeking { other, .. } => limit_of(other, q) is Some,
        QuotaState::Ended(_) => true,
    }
}

/// The counter key of a consumer's budget at a time.
pub open spec fn counter_key(prefix: Seq<char>, consumer: i64, b: Budget, now: int) -> Seq<char> {
    prefix + text::dec_int(consumer as int) + ":"@ + budget_name(b) + ":"@ + text::dec_int(
        window_of(b, now).0,
    )
}

/// Redis-backed quota checker.
#[derive(Debug)]
pub struct RedisQuotaChecker {
    fail_open: bool,
    key_prefix: String,
}

impl RedisQuotaChecker {
    /// Whether budgets that cannot be reached are skipped.
    pub closed spec fn fails_open(self) -> bool {
        self.fail_open
    }

    /// What stands in front of every key.
    pub closed spec fn prefix(self) -> Seq<char> {
        self.key_prefix@
    }

    /// New checker.
    pub fn new(fail_open: bool, key_prefix: String) -> (c: Self)
        ensures
            c.fails_open() == fail_open,
            c.prefix() == key_prefix@,
    {
        RedisQuotaChecker { fail_open, key_prefix }
    }

    fn redis_key(&self, consumer_id: i64, budget: Budget, now_epoch_s: i64) -> (s: String)
        requires
            is_time(now_epoch_s),
        ensures
            s@ == counter_key(self.prefix(), consumer_id, budget, now_epoch_s as int),
    {
        let (start, _) = budget.window(now_epoch_s);
        cat6(
            self.key_prefix.as_str(),
            decimal_signed(consumer_id).as_str(),
            ":",
            budget.key(),
            ":",
            decimal_signed(start).as_str(),
        )
    }

    /// The state of a check that nothing was asked for yet.
    pub fn begin(&self, quotas: &ConsumerQuotas) -> (s: QuotaState)
        ensures
            s == first_state(*quotas),
            is_state(*quotas, s),
    {
        if quotas.daily.is_some() {
            QuotaState::Asking { budget: Budget::Daily, binding: None }
        } else {
            Self::to_monthly(quotas, None)
        }
    }

    fn to_monthly(quotas: &ConsumerQuotas, binding: Option<Binding>) -> (s: QuotaState)
        ensures
            s == at_monthly(*quotas, binding),
            is_state(*quotas, s),
    {
        if quotas.monthly.is_some() {
            QuotaState::Asking { budget: Budget::Monthly, binding }
        } else {
            QuotaState::Ended(Self::settle(binding))
        }
    }

    fn settle(binding: Option<Binding>) -> (o: QuotaOutcome)
        ensures
            o == settled_outcome(binding),
    {
        match binding {
            Some(b) => QuotaOutcome::Allowed {
                limit: b.limit,
                remaining: b.remaining,
                reset_epoch_s: b.reset_epoch_s,
            },
            None => QuotaOutcome::NotQuotaed,
        }
    }

    fn pass(quotas: &ConsumerQuotas, budget: Budget, binding: Option<Binding>) -> (s: QuotaState)
        ensures
            s == next_state(*quotas, budget, binding),
            is_state(*quotas, s),
    {
        match budget {
            Budget::Daily => Self::to_monthly(quotas, binding),
            Budget::Monthly => QuotaState::Ended(Self::settle(binding)),
        }
    }

    /// What is to be asked of Redis next; nothing where the check has ended.
    pub fn next_call(
        &self,
        s: &QuotaState,
        consumer_id: i64,
        quotas: &ConsumerQuotas,
        now_epoch_s: i64,
    ) -> (r: Option<QuotaCall>)
        requires
            is_time(now_epoch_s),
            is_state(*quotas, *s),
        ensures
            match (*s, r) {
                (QuotaState::Ended(_), None) => true,
                (
                    QuotaState::Asking { budget, .. },
                    Some(QuotaCall::Reserve { key, limit, increment, ttl_s }),
                ) => {
                    &&& key@ == counter_key(
                        self.prefix(),
                        consumer_id,
                        budget,
                        now_epoch_s as int,
                    )
                    &&& limit_of(budget, *quotas) == Some(limit)
                    &&& increment == 1
                    &&& ttl_s == match budget {
                        Budget::Daily => DAILY_TTL_S,
                        Budget::Monthly => MONTHLY_TTL_S,
                    }
                },
                (QuotaState::Peeking { other, .. }, Some(QuotaCall::Peek { key })) => key@
                    == counter_key(self.prefix(), consumer_id, other, now_epoch_s as int),
                _ => false,
            },
    {
        match s {
            QuotaState::Ended(_) => None,
            QuotaState::Asking { budget, .. } => {
                let b: Budget = *budget;
                match b.limit(quotas) {
                    Some(limit) => Some(
                        QuotaCall::Reserve {
                            key: self.redis_key(consumer_id, b, now_epoch_s),
                            limit,
                            increment: 1,
                            ttl_s: b.ttl(),
                        },
                    ),
                    None => None,
                }
            },
            QuotaState::Peeking { other, .. } => {
                Some(QuotaCall::Peek { key: self.redis_key(consumer_id, *other, now_epoch_s) })
            },
        }
    }

    /// The state of a check after a reply.
    pub fn on_reply(
        &self,
        s: QuotaState,
        reply: &QuotaReply,
        quotas: &ConsumerQuotas,
        now_epoch_s: i64,
    ) -> (r: QuotaState)
        requires
            is_time(now_epoch_s),
            is_state(*quotas, s),
        ensures
            r == state_after(self.fails_open(), *quotas, s, *reply, now_epoch_s as int),
            is_state(*quotas, r),
    {
        match s {
            QuotaState::Ended(_) => s,
            QuotaState::Asking { budget, binding } => {
                let limit: u64 = match budget.limit(quotas) {
                    Some(n) => n,
                    None => 0,
                };
                let (_, reset) = budget.window(now_epoch_s);
                match reply {
                    QuotaReply::Reserved { allowed, counter } => {
                        let left: u64 = limit.saturating_sub(*counter);
                        if *allowed {
                            let next = Binding {
                                limit,
                                remaining: left,
                                reset_epoch_s: magnitude(reset),
                            };
                            let tightest = match binding {
                                Some(b) => if left < b.remaining {
                                    next
                                } else {
                                    b
                                },
                                None => next,
                            };
                            Self::pass(quotas, budget, Some(tightest))
                        } else {
                            let d = Denial {
                                limit,
                                remaining: left,
                                reset_epoch_s: magnitude(reset),
                                retry_after_s: retry_after(reset, now_epoch_s),
                                budget,
                            };
                            let other = match budget {
                                Budget::Daily => Budget::Monthly,
                                Budget::Monthly => Budget::Daily,
                            };
                            if other.limit(quotas).is_some() {
                                QuotaState::Peeking { other, denial: d }
                            } else {
                                Self::deny(d)
                            }
                        }
                    },
                    _ => {
                        if self.fail_open {
                            Self::pass(quotas, budget, binding)
                        } else {
                            Self::deny(
                                Denial {
                                    limit,
                                    remaining: 0,
                                    reset_epoch_s: magnitude(reset),
                                    retry_after_s: retry_after(reset, now_epoch_s),
                                    budget,
                                },
                            )
                        }
                    },
                }
            },
            QuotaState::Peeking { other, denial } => {
                let limit: u64 = match other.limit(quotas) {
                    Some(n) => n,
                    None => 0,
                };
                let mut d = denial;
                if let QuotaReply::Counter(used) = reply {
                    if *used >= limit {
                        let (_, reset) = other.window(now_epoch_s);
                        let wait: u64 = retry_after(reset, now_epoch_s);
                        if wait > d.retry_after_s {
                            d.retry_after_s = wait;
                            d.reset_epoch_s = magnitude(reset);
                        }
                    }
                }
                Self::deny(d)
            },
        }
    }

    fn deny(d: Denial) -> (s: QuotaState)
        ensures
            s == QuotaState::Ended(denied_as(d)),
    {
        QuotaState::Ended(
            QuotaOutcome::Denied {
                limit: d.limit,
                remaining: d.remaining,
                reset_epoch_s: d.reset_epoch_s,
                retry_after_s: d.retry_after_s,
                budget: d.budget,
            },
        )
    }
}

// ---------------------------------------------------------------------------
// Laws
// ---------------------------------------------------------------------------

/// The state of a check after the first `n` replies.
pub open spec fn state_after_all(
    fail_open: bool,
    q: ConsumerQuotas,
    replies: Seq<QuotaReply>,
    now: int,
    n: nat,
) -> QuotaState
    decreases n,
{
    if n == 0 {
        first_state(q)
    } else {
        state_after(
            fail_open,
            q,
            state_after_all(fail_open, q, replies, now, (n - 1) as nat),
            replies[n - 1],
            now,
        )
    }
}

/// A check ends after at most three replies, and a budget that denies a
/// request is the last from which anything is reserved.
pub proof fn law_check_ends_after_three_replies(
    fail_open: bool,
    q: ConsumerQuotas,
    replies: Seq<QuotaReply>,
    now: int,
)
    ensures
        state_after_all(fail_open, q, replies, now, 3) is Ended,
        forall|s: QuotaState, reply: QuotaReply|
            reply matches QuotaReply::Reserved { allowed: false, .. } ==> !(#[trigger] state_after(
                fail_open,
                q,
                s,
                reply,
                now,
            ) is Asking),
{
    reveal_with_fuel(state_after_all, 4);
}

/// With Redis down, a checker that fails open applies no quota, and one that
/// fails closed denies every request of a consumer that has a budget.
pub proof fn law_redis_down(q: ConsumerQuotas, now: int)
    ensures
        ({
            let down = seq![QuotaReply::Unreachable, QuotaReply::Unreachable];
            &&& state_after_all(true, q, down, now, 2) == QuotaState::Ended(
                QuotaOutcome::NotQuotaed,
            )
            &&& (q.daily is Some || q.monthly is Some) ==> state_after_all(
                false,
                q,
                down,
                now,
                2,
            )->Ended_0 is Denied
        }),
{
    reveal_with_fuel(state_after_all, 3);
}

/// The wait of a denial is never shortened by a look at the other budget.
pub proof fn law_other_budget_only_stretches_the_wait(d: Denial, other: Budget, now: int)
    ensures
        stretched(d, other, now).retry_after_s >= d.retry_after_s || wait_until(
            window_of(other, now).1,
            now,
        ) > u64::MAX,
        stretched(d, other, now).budget == d.budget,
        stretched(d, other, now).limit == d.limit,
        stretched(d, other, now).remaining == d.remaining,
{
}

/// Every time lies in its window, and every time of a window has that
/// window: the windows of a budget follow one another without a gap.
pub proof fn law_windows_part_time(b: Budget, now: int, t: int)
    requires
        window_of(b, now).0 <= t < window_of(b, now).1,
    ensures
        window_of(b, now).0 <= now < window_of(b, now).1,
        window_of(b, t) == window_of(b, now),
{
    let day = now / 86_400;
    let other = t / 86_400;
    lemma_day_has_date(day);
    lemma_day_has_date(other);
    let (y, m, d) = date_of(day);
    if b is Monthly {
        let first = civil_time::day_number(y, m, 1);
        assert(civil_time::day_number(y, m, d) == first + d - 1);
        assert(first <= other < first + civil_time::month_days(y, m));
        let e = other - first + 1;
        assert(civil_time::is_date(y, m, e));
        assert(civil_time::day_number(y, m, e) == other);
        lemma_date(y, m, e, other);
    }
}

proof fn lemma_day_has_date(day: int)
    ensures
        ({
            let (y, m, d) = date_of(day);
            civil_time::is_date(y, m, d) && civil_time::day_number(y, m, d) == day
        }),
{
    civil_time::law_every_day_has_a_date(day);
}

} // verus!
