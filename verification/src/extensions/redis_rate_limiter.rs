//! The decisions of the Redis-backed limiter.
//!
//! The per-key arrival time lives in Redis and is read, updated and decided
//! on in one script call per window, so that gateway instances that share a
//! Redis share a rate limit. What is asked of Redis, what its replies mean,
//! and what happens when it cannot be reached is decided here: with
//! `fail_open` a window that cannot be reached is skipped, without it the
//! window denies.

pub mod laws;

use vstd::prelude::*;
use vstd::string::*;

use crate::extensions::rate_limiter::gcra;
use crate::extensions::rate_limiter::gcra::{
    denied_outcome, sort_specs, GcraOutcome, GcraWindowSpec, RateDecision, WindowSpec,
};
use crate::extensions::rate_limiter::limiter;
use crate::text;
use crate::text::{cat4, decimal};

verus! {

/// The script that decides on one window.
///
/// Its key is the rate-limit key; its arguments are the time between two
/// tokens (nanoseconds), the burst tolerance (nanoseconds), the cost, the
/// current time (Unix nanoseconds) and the least lifetime of the key
/// (seconds). It returns whether the request is allowed (1 or 0), the tokens
/// that remain, and the wait in milliseconds.
pub const GCRA_LUA: &'static str = r#"
local state = redis.call('HMGET', KEYS[1], 'tat')
local tat = tonumber(state[1])
if tat == nil then tat = tonumber(ARGV[4]) end
local interval = tonumber(ARGV[1])
local burst = tonumber(ARGV[2])
local cost = tonumber(ARGV[3])
local now = tonumber(ARGV[4])
local ttl = tonumber(ARGV[5])
local new_tat = math.max(tat, now) + interval * cost
local allow_at = new_tat - burst
if allow_at <= now then
    redis.call('HMSET', KEYS[1], 'tat', new_tat)
    redis.call('EXPIRE', KEYS[1], math.max(math.ceil(burst / 1e9) + 1, ttl))
    return {1, math.floor((burst - (new_tat - now)) / interval), 0}
else
    return {0, 0, math.ceil((allow_at - now) / 1e6)}
end
"#;

/// One stacked window.
#[derive(Debug, Clone, Copy, PartialEq, Eq, Structural)]
pub struct RedisWindow {
    /// Nanoseconds between two tokens.
    pub emission_interval_ns: u64,
    /// Nanoseconds of burst tolerance.
    pub burst_tolerance_ns: u128,
    /// Bucket size.
    pub burst: u32,
    /// Time in which an empty bucket fills up, in milliseconds.
    pub full_refill_ms: u64,
}

/// The time between two tokens: the window, as far as 64 bits go, over the
/// requests, and at least one nanosecond.
pub open spec fn interval_of(s: WindowSpec) -> int {
    gcra::later((s.window_ns % 0x1_0000_0000_0000_0000) / s.requests, 1)
}

/// The window of a specification.
pub open spec fn redis_window(s: WindowSpec) -> RedisWindow {
    RedisWindow {
        emission_interval_ns: interval_of(s) as u64,
        burst_tolerance_ns: (interval_of(s) * s.burst) as u128,
        burst: s.burst as u32,
        full_refill_ms: limiter::as_millis(interval_of(s) * s.burst),
    }
}

fn build_window(spec: GcraWindowSpec) -> (w: RedisWindow)
    ensures
        w == redis_window(spec@),
{
    let burst: u32 = spec.burst();
    let requests: u64 = spec.requests() as u64;
    let window: u64 = (spec.window_ns() % 0x1_0000_0000_0000_0000) as u64;
    let quotient: u64 = window / requests;
    let interval: u64 = if quotient >= 1 {
        quotient
    } else {
        1
    };
    proof {
        assert(interval * burst <= 0x1_0000_0000_0000_0000 * 0x1_0000_0000) by (nonlinear_arith)
            requires
                interval <= 0xffff_ffff_ffff_ffff,
                burst <= 0xffff_ffff,
        ;
    }
    let tolerance: u128 = interval as u128 * burst as u128;
    let refill: u128 = tolerance / 1_000_000;
    RedisWindow {
        emission_interval_ns: interval,
        burst_tolerance_ns: tolerance,
        burst,
        full_refill_ms: if refill <= u64::MAX as u128 {
            refill as u64
        } else {
            u64::MAX
        },
    }
}

/// The windows of specifications, the shortest first.
pub fn build_windows(specs: &Vec<GcraWindowSpec>) -> (v: Vec<RedisWindow>)
    ensures
        v@ == gcra::in_order(gcra::spec_views(specs@)).map_values(|s: WindowSpec| redis_window(s)),
        v@.len() == specs@.len(),
{
    let sorted = sort_specs(specs);
    let ghost views = gcra::spec_views(sorted@);
    let mut v: Vec<RedisWindow> = Vec::new();
    let mut i: usize = 0;
    while i < sorted.len()
        invariant
            i <= sorted.len(),
            v.len() == i,
            views == gcra::spec_views(sorted@),
            forall|j: int| 0 <= j < i ==> #[trigger] v@[j] == redis_window(views[j]),
        decreases sorted.len() - i,
    {
        v.push(build_window(sorted[i]));
        i = i + 1;
    }
    assert(v@ =~= views.map_values(|s: WindowSpec| redis_window(s)));
    v
}

/// One call of the script.
#[derive(Debug, Clone, PartialEq, Eq)]
pub struct ScriptCall {
    pub key: String,
    pub emission_interval_ns: u64,
    pub burst_tolerance_ns: u128,
    pub cost: u32,
    pub now_ns: u64,
    pub key_ttl_s: u64,
}

/// The reply to a call: the numbers that the script returned, or that Redis
/// could not be reached.
#[derive(Debug, Clone, PartialEq, Eq)]
pub enum ScriptReply {
    Numbers(Vec<i64>),
    Unreachable,
}

/// The number at a place of a reply, and zero where there is none.
pub open spec fn number_at(v: Seq<i64>, i: int) -> i64 {
    if 0 <= i < v.len() {
        v[i]
    } else {
        0
    }
}

/// The number at a place of a reply, and zero where it is negative.
pub open spec fn count_at(v: Seq<i64>, i: int) -> u64 {
    if number_at(v, i) >= 0 {
        number_at(v, i) as u64
    } else {
        0
    }
}

fn read_number(v: &Vec<i64>, i: usize) -> (n: i64)
    ensures
        n == number_at(v@, i as int),
{
    if i < v.len() {
        v[i]
    } else {
        0
    }
}

fn read_count(v: &Vec<i64>, i: usize) -> (n: u64)
    ensures
        n == count_at(v@, i as int),
{
    let n: i64 = read_number(v, i);
    if n >= 0 {
        n as u64
    } else {
        0
    }
}

/// How far a check has come.
#[derive(Debug, Clone, Copy, PartialEq, Eq, Structural)]
pub enum CheckState {
    /// The windows before this one allowed the request or were skipped; the
    /// tightest of those that allowed it, if any did.
    Going { next: usize, binding: Option<GcraOutcome> },
    /// The check has ended.
    Ended(GcraOutcome),
}

/// The outcome of a window that allowed a request.
pub open spec fn allowance(w: RedisWindow, remaining: u64) -> GcraOutcome {
    GcraOutcome {
        decision: RateDecision { allowed: true, remaining, retry_after_ms: None },
        limit: w.burst,
        refill_ms: w.full_refill_ms,
    }
}

/// The tighter of two outcomes, the first of equals.
pub open spec fn tighter(binding: Option<GcraOutcome>, next: GcraOutcome) -> Option<GcraOutcome> {
    match binding {
        Some(b) => if next.decision.remaining < b.decision.remaining {
            Some(next)
        } else {
            Some(b)
        },
        None => Some(next),
    }
}

/// The state of a check after the reply of its next window.
pub open spec fn state_after(
    windows: Seq<RedisWindow>,
    fail_open: bool,
    s: CheckState,
    reply: ScriptReply,
) -> CheckState {
    match s {
        CheckState::Ended(o) => s,
        CheckState::Going { next, binding } => if next >= windows.len() {
            s
        } else {
            let w = windows[next as int];
            let after = (next + 1) as usize;
            match reply {
                ScriptReply::Numbers(v) => if number_at(v@, 0) == 1 {
                    CheckState::Going {
                        next: after,
                        binding: tighter(binding, allowance(w, count_at(v@, 1))),
                    }
                } else {
                    CheckState::Ended(gcra::denial(w.burst, count_at(v@, 2)))
                },
                ScriptReply::Unreachable => if fail_open {
                    CheckState::Going { next: after, binding }
                } else {
                    CheckState::Ended(gcra::denial(w.burst, w.full_refill_ms))
                },
            }
        },
    }
}

/// The outcome of a check that has come this far: where every window was
/// skipped, the full bucket of the first one.
pub open spec fn outcome_of_state(windows: Seq<RedisWindow>, s: CheckState) -> GcraOutcome {
    match s {
        CheckState::Ended(o) => o,
        CheckState::Going { binding: Some(b), .. } => b,
        CheckState::Going { binding: None, .. } => allowance(windows[0], windows[0].burst as u64),
    }
}

/// The settings of a Redis-backed limiter.
#[derive(Debug, Clone)]
pub struct RedisRateLimiterConfig {
    pub fail_open: bool,
    pub key_prefix: String,
    pub key_ttl_s: u64,
}

/// Redis-backed limiter over stacked windows.
#[derive(Debug)]
pub struct RedisRateLimiter {
    windows: Vec<RedisWindow>,
    fail_open: bool,
    key_prefix: String,
    key_ttl_s: u64,
}

impl RedisRateLimiter {
    /// The windows, the shortest first.
    pub closed spec fn windows(self) -> Seq<RedisWindow> {
        self.windows@
    }

    /// Whether windows that cannot be reached are skipped.
    pub closed spec fn fails_open(self) -> bool {
        self.fail_open
    }

    /// What stands in front of every key.
    pub closed spec fn prefix(self) -> Seq<char> {
        self.key_prefix@
    }

    /// The least lifetime of a key.
    pub closed spec fn ttl(self) -> u64 {
        self.key_ttl_s
    }

    #[verifier::type_invariant]
    spec fn well_formed(self) -> bool {
        self.windows@.len() > 0
    }

    /// New limiter over the given windows. None for no windows.
    pub fn new(
        specs: &Vec<GcraWindowSpec>,
        fail_open: bool,
        key_prefix: String,
        key_ttl_s: u64,
    ) -> (r: Option<Self>)
        ensures
            match r {
                Some(l) => {
                    &&& specs@.len() > 0
                    &&& l.windows() == gcra::in_order(gcra::spec_views(specs@)).map_values(
                        |s: WindowSpec| redis_window(s),
                    )
                    &&& l.windows().len() > 0
                    &&& l.fails_open() == fail_open
                    &&& l.prefix() == key_prefix@
                    &&& l.ttl() == key_ttl_s
                },
                None => specs@.len() == 0,
            },
    {
        if specs.len() == 0 {
            return None;
        }
        let windows = build_windows(specs);
        Some(RedisRateLimiter { windows, fail_open, key_prefix, key_ttl_s })
    }

    /// New limiter from its settings.
    pub fn from_config(specs: &Vec<GcraWindowSpec>, config: &RedisRateLimiterConfig) -> (r: Option<
        Self,
    >)
        ensures
            match r {
                Some(l) => {
                    &&& specs@.len() > 0
                    &&& l.windows() == gcra::in_order(gcra::spec_views(specs@)).map_values(
                        |s: WindowSpec| redis_window(s),
                    )
                    &&& l.windows().len() > 0
                    &&& l.fails_open() == config.fail_open
                    &&& l.prefix() == config.key_prefix@
                    &&& l.ttl() == config.key_ttl_s
                },
                None => specs@.len() == 0,
            },
    {
        Self::new(specs, config.fail_open, config.key_prefix.clone(), config.key_ttl_s)
    }

    /// A check that nothing was asked for yet.
    pub fn begin(&self) -> (s: CheckState)
        ensures
            s == (CheckState::Going { next: 0, binding: None }),
    {
        CheckState::Going { next: 0, binding: None }
    }

    /// The next call of a check of `cost` units (at least one) for `key`;
    /// none where the check has ended or every window was asked.
    pub fn next_call(&self, s: &CheckState, key: &str, cost: u32, now_ns: u64) -> (r: Option<
        ScriptCall,
    >)
        ensures
            match r {
                Some(c) => {
                    &&& s matches CheckState::Going { next, .. }
                    &&& next < self.windows().len()
                    &&& c.key@ == self.prefix() + key@ + ":"@ + text::dec(next as nat)
                    &&& c.emission_interval_ns == self.windows()[next as int].emission_interval_ns
                    &&& c.burst_tolerance_ns == self.windows()[next as int].burst_tolerance_ns
                    &&& c.cost == if cost == 0 {
                        1
                    } else {
                        cost
                    }
                    &&& c.now_ns == now_ns
                    &&& c.key_ttl_s == self.ttl()
                },
                None => match *s {
                    CheckState::Going { next, .. } => next >= self.windows().len(),
                    CheckState::Ended(_) => true,
                },
            },
    {
        match s {
            CheckState::Ended(_) => None,
            CheckState::Going { next, .. } => {
                let i: usize = *next;
                if i >= self.windows.len() {
                    return None;
                }
                let w = self.windows[i];
                Some(
                    ScriptCall {
                        key: cat4(
                            self.key_prefix.as_str(),
                            key,
                            ":",
                            decimal(i as u64).as_str(),
                        ),
                        emission_interval_ns: w.emission_interval_ns,
                        burst_tolerance_ns: w.burst_tolerance_ns,
                        cost: if cost == 0 {
                            1
                        } else {
                            cost
                        },
                        now_ns,
                        key_ttl_s: self.key_ttl_s,
                    },
                )
            },
        }
    }

    /// The state of a check after the reply to its last call.
    pub fn on_reply(&self, s: CheckState, reply: &ScriptReply) -> (r: CheckState)
        ensures
            r == state_after(self.windows(), self.fails_open(), s, *reply),
    {
        match s {
            CheckState::Ended(_) => s,
            CheckState::Going { next, binding } => {
                if next >= self.windows.len() {
                    return s;
                }
                let w = self.windows[next];
                let after: usize = next + 1;
                match reply {
                    ScriptReply::Numbers(v) => {
                        if read_number(v, 0) == 1 {
                            let candidate = GcraOutcome {
                                decision: RateDecision {
                                    allowed: true,
                                    remaining: read_count(v, 1),
                                    retry_after_ms: None,
                                },
                                limit: w.burst,
                                refill_ms: w.full_refill_ms,
                            };
                            let binding = match binding {
                                Some(b) => if candidate.decision.remaining < b.decision.remaining {
                                    Some(candidate)
                                } else {
                                    Some(b)
                                },
                                None => Some(candidate),
                            };
                            CheckState::Going { next: after, binding }
                        } else {
                            CheckState::Ended(denied_outcome(w.burst, read_count(v, 2)))
                        }
                    },
                    ScriptReply::Unreachable => {
                        if self.fail_open {
                            CheckState::Going { next: after, binding }
                        } else {
                            CheckState::Ended(denied_outcome(w.burst, w.full_refill_ms))
                        }
                    },
                }
            },
        }
    }

    /// The outcome of a check.
    pub fn finish(&self, s: CheckState) -> (o: GcraOutcome)
        ensures
            o == outcome_of_state(self.windows(), s),
    {
        proof {
            use_type_invariant(self);
        }
        match s {
            CheckState::Ended(o) => o,
            CheckState::Going { binding, .. } => match binding {
                Some(b) => b,
                None => {
                    let w = self.windows[0];
                    GcraOutcome {
                        decision: RateDecision {
                            allowed: true,
                            remaining: w.burst as u64,
                            retry_after_ms: None,
                        },
                        limit: w.burst,
                        refill_ms: w.full_refill_ms,
                    }
                },
            },
        }
    }
}

// ---------------------------------------------------------------------------
// Laws
// ---------------------------------------------------------------------------

/// The state of a check after the first `n` replies.
pub open spec fn state_after_all(
    windows: Seq<RedisWindow>,
    fail_open: bool,
    replies: Seq<ScriptReply>,
    n: nat,
) -> CheckState
    decreases n,
{
    if n == 0 {
        CheckState::Going { next: 0, binding: None }
    } else {
        state_after(
            windows,
            fail_open,
            state_after_all(windows, fail_open, replies, (n - 1) as nat),
            replies[n - 1],
        )
    }
}

/// Whether a reply lets a request pass a window.
pub open spec fn passes(fail_open: bool, reply: ScriptReply) -> bool {
    match reply {
        ScriptReply::Numbers(v) => number_at(v@, 0) == 1,
        ScriptReply::Unreachable => fail_open,
    }
}

proof fn lemma_going(
    windows: Seq<RedisWindow>,
    fail_open: bool,
    replies: Seq<ScriptReply>,
    n: nat,
)
    requires
        n <= windows.len(),
        n <= replies.len(),
        windows.len() <= usize::MAX,
    ensures
        ({
            let s = state_after_all(windows, fail_open, replies, n);
            let all = forall|i: int| 0 <= i < n ==> passes(fail_open, #[trigger] replies[i]);
            &&& all <==> s is Going
            &&& s matches CheckState::Going { next, binding } ==> next == n && (binding matches Some(
                b,
            ) ==> b.decision.allowed)
            &&& s matches CheckState::Ended(o) ==> !o.decision.allowed
        }),
    decreases n,
{
    if n > 0 {
        lemma_going(windows, fail_open, replies, (n - 1) as nat);
        let m = (n - 1) as nat;
        if forall|i: int| 0 <= i < n ==> passes(fail_open, #[trigger] replies[i]) {
            assert(forall|i: int| 0 <= i < m ==> passes(fail_open, #[trigger] replies[i]));
            assert(passes(fail_open, replies[m as int]));
        }
    }
}

/// A request is allowed exactly when every window lets it pass; a window
/// that cannot be reached does so only where the limiter fails open.
pub proof fn law_allowed_iff_every_window_passes(
    windows: Seq<RedisWindow>,
    fail_open: bool,
    replies: Seq<ScriptReply>,
)
    requires
        0 < windows.len() <= usize::MAX,
        replies.len() == windows.len(),
    ensures
        outcome_of_state(
            windows,
            state_after_all(windows, fail_open, replies, windows.len()),
        ).decision.allowed <==> forall|i: int|
            0 <= i < replies.len() ==> passes(fail_open, #[trigger] replies[i]),
{
    lemma_going(windows, fail_open, replies, windows.len());
}

proof fn lemma_all_skipped(
    windows: Seq<RedisWindow>,
    replies: Seq<ScriptReply>,
    n: nat,
)
    requires
        n <= windows.len() <= usize::MAX,
        n <= replies.len(),
        forall|i: int| 0 <= i < replies.len() ==> (#[trigger] replies[i]) is Unreachable,
    ensures
        state_after_all(windows, true, replies, n) == (CheckState::Going {
            next: n as usize,
            binding: None,
        }),
    decreases n,
{
    if n > 0 {
        lemma_all_skipped(windows, replies, (n - 1) as nat);
        assert(replies[n - 1] is Unreachable);
    }
}

/// With Redis down, a limiter that fails open allows the request and reports
/// a full bucket, and one that fails closed denies it.
pub proof fn law_redis_down(windows: Seq<RedisWindow>, replies: Seq<ScriptReply>)
    requires
        0 < windows.len() <= usize::MAX,
        replies.len() == windows.len(),
        forall|i: int| 0 <= i < replies.len() ==> (#[trigger] replies[i]) is Unreachable,
    ensures
        outcome_of_state(windows, state_after_all(windows, true, replies, windows.len()))
            == allowance(windows[0], windows[0].burst as u64),
        state_after_all(windows, false, replies, 1) == CheckState::Ended(
            gcra::denial(windows[0].burst, windows[0].full_refill_ms),
        ),
{
    lemma_all_skipped(windows, replies, windows.len());
    assert(replies[0] is Unreachable);
    reveal_with_fuel(state_after_all, 2);
}

} // verus!
