//! When a request is within its budgets.

use vstd::prelude::*;

use crate::civil_time;
use crate::extensions::redis_quotas;
use crate::extensions::redis_quotas::{
    Budget, ConsumerQuotas, Denial, QuotaOutcome, QuotaReply, QuotaState,
};

verus! {

/// Whether a budget lets a request pass: it was reserved, or the budget could
/// not be reached and that is taken for a yes.
pub open spec fn lets_pass(r: QuotaReply, fail_open: bool) -> bool {
    if r is Reserved {
        r->allowed
    } else {
        fail_open
    }
}

/// What is left of a budget after a reply.
pub open spec fn left(limit: u64, r: QuotaReply) -> int {
    if r is Reserved && r->counter <= limit {
        limit - r->counter
    } else {
        0
    }
}

/// Whether a check has come to a denial.
pub open spec fn has_denied(s: QuotaState) -> bool {
    s is Peeking || (s is Ended && s->Ended_0 is Denied)
}

/// The budget that denied.
pub open spec fn denier(s: QuotaState) -> Budget {
    if s is Peeking {
        s->denial.budget
    } else {
        s->Ended_0->budget
    }
}

/// The limit that a denial reports.
pub open spec fn denied_limit(s: QuotaState) -> u64 {
    if s is Peeking {
        s->denial.limit
    } else {
        s->Ended_0->Denied_limit
    }
}

/// What a denial reports as left.
pub open spec fn denied_left(s: QuotaState) -> u64 {
    if s is Peeking {
        s->denial.remaining
    } else {
        s->Ended_0->Denied_remaining
    }
}

/// A consumer without budgets is not held to any.
pub proof fn law_no_budget_no_quota(q: ConsumerQuotas)
    ensures
        redis_quotas::first_state(q) == QuotaState::Ended(QuotaOutcome::NotQuotaed) <==> q.daily is None
            && q.monthly is None,
        q.daily is Some ==> redis_quotas::first_state(q) is Asking && redis_quotas::first_state(
            q,
        )->budget is Daily,
        q.daily is None && q.monthly is Some ==> redis_quotas::first_state(q) is Asking
            && redis_quotas::first_state(q)->budget is Monthly,
{
}

/// A consumer with one budget passes exactly if that budget lets it, with what
/// is left of it; else it is denied by that budget.
pub proof fn law_one_budget_decides(
    fail_open: bool,
    q: ConsumerQuotas,
    r: QuotaReply,
    now: int,
)
    requires
        q.daily is Some && q.monthly is None || q.daily is None && q.monthly is Some,
    ensures
        ({
            let s = redis_quotas::state_after(
                fail_open,
                q,
                redis_quotas::first_state(q),
                r,
                now,
            );
            let limit = if q.daily is Some {
                q.daily->Some_0
            } else {
                q.monthly->Some_0
            };
            &&& s is Ended
            &&& has_denied(s) <==> !lets_pass(r, fail_open)
            &&& has_denied(s) ==> (denier(s) is Daily <==> q.daily is Some) && denied_limit(s)
                == limit && denied_left(s) == left(limit, r)
            &&& r is Reserved && r->allowed ==> s->Ended_0 is Allowed
                && s->Ended_0->Allowed_limit == limit && s->Ended_0->Allowed_remaining == left(
                limit,
                r,
            )
            &&& !(r is Reserved) && fail_open ==> s->Ended_0 is NotQuotaed
        }),
{
}

/// A consumer with both budgets passes exactly if both let it: the daily one
/// is asked first, and the monthly one only then. The one with less left is
/// reported, the daily one of equals. Else the first that refused is.
pub proof fn law_both_budgets_hold(
    fail_open: bool,
    q: ConsumerQuotas,
    daily: QuotaReply,
    monthly: QuotaReply,
    now: int,
)
    requires
        q.daily is Some,
        q.monthly is Some,
    ensures
        ({
            let first = redis_quotas::state_after(
                fail_open,
                q,
                redis_quotas::first_state(q),
                daily,
                now,
            );
            let second = redis_quotas::state_after(fail_open, q, first, monthly, now);
            let d = left(q.daily->Some_0, daily);
            let m = left(q.monthly->Some_0, monthly);
            &&& !lets_pass(daily, fail_open) ==> has_denied(first) && denier(first) is Daily
                && denied_limit(first) == q.daily->Some_0 && denied_left(first) == d
            &&& lets_pass(daily, fail_open) ==> first is Asking && first->budget is Monthly
            &&& lets_pass(daily, fail_open) && !lets_pass(monthly, fail_open) ==> has_denied(second)
                && denier(second) is Monthly && denied_limit(second) == q.monthly->Some_0
                && denied_left(second) == m
            &&& lets_pass(daily, fail_open) && lets_pass(monthly, fail_open) ==> second is Ended && (
            if daily is Reserved && monthly is Reserved {
                &&& second->Ended_0 is Allowed
                &&& second->Ended_0->Allowed_remaining == (if m < d {
                    m
                } else {
                    d
                })
                &&& second->Ended_0->Allowed_limit == (if m < d {
                    q.monthly->Some_0
                } else {
                    q.daily->Some_0
                })
            } else if daily is Reserved {
                second->Ended_0 is Allowed && second->Ended_0->Allowed_remaining == d
            } else if monthly is Reserved {
                second->Ended_0 is Allowed && second->Ended_0->Allowed_remaining == m
            } else {
                second->Ended_0 is NotQuotaed
            })
        }),
{
}

/// A budget that denied stays the one that is reported; if the other is used
/// up too, the wait is the longer of the two.
pub proof fn law_longer_wait_is_reported(
    fail_open: bool,
    q: ConsumerQuotas,
    other: Budget,
    d: Denial,
    reply: QuotaReply,
    now: int,
)
    requires
        0 <= redis_quotas::window_of(other, now).1 - now <= u64::MAX,
    ensures
        ({
            let s = redis_quotas::state_after(
                fail_open,
                q,
                QuotaState::Peeking { other, denial: d },
                reply,
                now,
            );
            let limit = if other is Daily {
                q.daily->Some_0
            } else {
                q.monthly->Some_0
            };
            let used_up = reply is Counter && reply->Counter_0 >= limit;
            let wait: int = if redis_quotas::window_of(other, now).1 - now >= 1 {
                redis_quotas::window_of(other, now).1 - now
            } else {
                1
            };
            &&& s is Ended && s->Ended_0 is Denied
            &&& denier(s) == d.budget && denied_limit(s) == d.limit && denied_left(s)
                == d.remaining
            &&& used_up && wait > d.retry_after_s ==> s->Ended_0->retry_after_s == wait
            &&& !(used_up && wait > d.retry_after_s) ==> s->Ended_0->retry_after_s
                == d.retry_after_s && s->Ended_0->Denied_reset_epoch_s == d.reset_epoch_s
        }),
{
}

/// A day's window begins at midnight, ends at the next, and holds the time.
pub proof fn law_daily_window_is_the_day(now: int)
    ensures
        ({
            let w = redis_quotas::window_of(Budget::Daily, now);
            &&& w.0 <= now < w.1
            &&& w.1 - w.0 == 86_400
            &&& w.0 % 86_400 == 0
        }),
{
}

/// A client that waits as it was told comes back when the budget is new, and
/// not at once.
pub proof fn law_wait_reaches_the_reset(reset: int, now: int)
    ensures
        redis_quotas::wait_until(reset, now) >= 1,
        now + redis_quotas::wait_until(reset, now) >= reset,
        reset > now ==> now + redis_quotas::wait_until(reset, now) == reset,
{
}

/// A month's window begins with the first of the month that the time is in,
/// and ends with the last.
pub proof fn law_monthly_window_is_the_month(now: int, y: int, m: int, d: int)
    requires
        civil_time::is_date(y, m, d),
        civil_time::day_number(y, m, d) == now / 86_400,
    ensures
        ({
            let w = redis_quotas::window_of(Budget::Monthly, now);
            let first = civil_time::day_number(y, m, 1);
            &&& w.0 == first * 86_400
            &&& w.1 == (first + civil_time::month_days(y, m)) * 86_400
        }),
{
    redis_quotas::lemma_date(y, m, d, now / 86_400);
}

} // verus!
