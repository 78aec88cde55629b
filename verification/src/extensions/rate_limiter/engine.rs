//! Policy resolution and key building for request rate limiting.
//!
//! The rules of all policies that are attached to a request apply. Policies
//! resolve in the order consumer, route, service, listener, global; one that
//! is attached at several levels counts once, at its first place. On success
//! the reported constraint is the one with the least remaining budget. On
//! denial the first denying rule binds the reported limit, and the wait is
//! the longest that any denying rule demands. The rules of a dry-run policy
//! are evaluated like any other, but their denials are reported instead of
//! enforced, and nothing else of them shows.

use vstd::prelude::*;
use vstd::string::*;

use std::hash::{BuildHasher, RandomState};

use crate::extensions::rate_limiter::gcra;
use crate::extensions::rate_limiter::gcra::{GcraOutcome, GcraWindowSpec, WindowSpec};
use crate::extensions::rate_limiter::limiter;
use crate::extensions::rate_limiter::limiter::{GcraRateLimiter, Window};
use crate::extensions::rate_limiter::resolution;
use crate::text;
use crate::text::{clone_strings, same};

verus! {

broadcast use {crate::text::lemma_texts_push, crate::text::lemma_texts_add};

// ---------------------------------------------------------------------------
// Configuration
// ---------------------------------------------------------------------------

/// What a rule's key is built from.
#[derive(Debug, Clone, Copy, PartialEq, Eq, Structural)]
pub enum RateLimitSelector {
    /// The address of the peer.
    Ip,
    /// The authenticated consumer, or else the address of the peer.
    Credential,
    /// The name of the matched route.
    Route,
}

/// The request counts of a rule's windows.
#[derive(Debug, Clone, Copy, PartialEq, Eq, Structural)]
pub struct RateRequestsPer {
    pub per_second: Option<u32>,
    pub minute: Option<u32>,
    pub hour: Option<u32>,
}

/// One rate rule of a policy.
#[derive(Debug)]
pub struct RateLimitRule {
    pub selector: Vec<RateLimitSelector>,
    pub requests_per: RateRequestsPer,
    pub burst: Option<u32>,
}

/// The single-window form: `requests` per `window_seconds`, per route.
#[derive(Debug, Clone, Copy, PartialEq, Eq, Structural)]
pub struct RateLimit {
    pub requests: u64,
    pub window_seconds: u64,
}

/// The rate-limiting part of a policy bundle.
#[derive(Debug)]
pub struct Policy {
    pub name: String,
    pub rate_limit: Option<RateLimit>,
    pub rate_limits: Vec<RateLimitRule>,
    /// Evaluate and report, but do not enforce.
    pub dry_run: bool,
}

/// One compiled rate-limit rule.
#[derive(Debug)]
pub struct EngineRule {
    policy: String,
    selectors: Vec<RateLimitSelector>,
    windows: Vec<GcraWindowSpec>,
    dry_run: bool,
}

/// What a compiled rule is.
#[verifier::ext_equal]
pub struct Rule {
    pub policy: Seq<char>,
    pub selectors: Seq<RateLimitSelector>,
    pub windows: Seq<WindowSpec>,
    pub dry_run: bool,
}

impl View for EngineRule {
    type V = Rule;

    closed spec fn view(&self) -> Rule {
        Rule {
            policy: self.policy@,
            selectors: self.selectors@,
            windows: gcra::spec_views(self.windows@),
            dry_run: self.dry_run,
        }
    }
}

impl EngineRule {
    /// The windows that the rule stacks.
    pub fn windows(&self) -> (w: &Vec<GcraWindowSpec>)
        ensures
            gcra::spec_views(w@) == self@.windows,
    {
        &self.windows
    }

    /// Whether the rule only reports what it would deny.
    pub fn dry_run(&self) -> (b: bool)
        ensures
            b == self@.dry_run,
    {
        self.dry_run
    }
}

/// What compiled rules are.
pub open spec fn rule_views(v: Seq<EngineRule>) -> Seq<Rule> {
    v.map_values(|r: EngineRule| r@)
}

/// The window of a request count, if the count is not zero.
pub open spec fn with_window(
    v: Seq<WindowSpec>,
    requests: Option<u32>,
    secs: int,
    burst: Option<u32>,
) -> Seq<WindowSpec> {
    match requests {
        Some(n) => if n > 0 {
            v.push(
                WindowSpec {
                    requests: n as int,
                    window_ns: secs * 1_000_000_000,
                    burst: match burst {
                        Some(b) => if b > 0 {
                            b as int
                        } else {
                            n as int
                        },
                        None => n as int,
                    },
                },
            )
        } else {
            v
        },
        None => v,
    }
}

/// The windows of a rule.
pub open spec fn windows_of(rp: RateRequestsPer, burst: Option<u32>) -> Seq<WindowSpec> {
    with_window(
        with_window(with_window(seq![], rp.per_second, 1, burst), rp.minute, 60, burst),
        rp.hour,
        3600,
        burst,
    )
}

/// The window of the single-window form.
pub open spec fn single_window(rl: RateLimit) -> Seq<WindowSpec> {
    let requests: int = if rl.requests <= u32::MAX {
        rl.requests as int
    } else {
        u32::MAX as int
    };
    if rl.requests > 0 && rl.window_seconds > 0 {
        seq![
            WindowSpec {
                requests,
                window_ns: rl.window_seconds * 1_000_000_000,
                burst: requests,
            },
        ]
    } else {
        seq![]
    }
}

/// Rules with one more behind them, unless it has no windows.
pub open spec fn with_rule(v: Seq<Rule>, r: Rule) -> Seq<Rule> {
    if r.windows.len() > 0 {
        v.push(r)
    } else {
        v
    }
}

/// Rules with that of the single-window form of a policy behind them.
pub open spec fn with_single(v: Seq<Rule>, p: Policy) -> Seq<Rule> {
    match p.rate_limit {
        Some(rl) => with_rule(
            v,
            Rule {
                policy: p.name@,
                selectors: seq![RateLimitSelector::Route],
                windows: single_window(rl),
                dry_run: p.dry_run,
            },
        ),
        None => v,
    }
}

/// Rules with the first `n` rate rules of a policy behind them.
pub open spec fn with_rate_rules(v: Seq<Rule>, p: Policy, n: nat) -> Seq<Rule>
    decreases n,
{
    if n == 0 {
        v
    } else {
        let r = p.rate_limits@[n - 1];
        with_rule(
            with_rate_rules(v, p, (n - 1) as nat),
            Rule {
                policy: p.name@,
                selectors: r.selector@,
                windows: windows_of(r.requests_per, r.burst),
                dry_run: p.dry_run,
            },
        )
    }
}

/// The rules of the first `n` policies.
pub open spec fn rules_of(policies: Seq<Policy>, n: nat) -> Seq<Rule>
    decreases n,
{
    if n == 0 {
        seq![]
    } else {
        let p = policies[n - 1];
        with_rate_rules(
            with_single(rules_of(policies, (n - 1) as nat), p),
            p,
            p.rate_limits@.len(),
        )
    }
}

fn push_window(v: &mut Vec<GcraWindowSpec>, requests: Option<u32>, secs: u64, burst: Option<u32>)
    ensures
        gcra::spec_views(final(v)@) == with_window(
            gcra::spec_views(old(v)@),
            requests,
            secs as int,
            burst,
        ),
{
    if let Some(n) = requests {
        if n > 0 {
            let bucket: u32 = match burst {
                Some(b) => if b > 0 {
                    b
                } else {
                    n
                },
                None => n,
            };
            if let Some(s) = GcraWindowSpec::new(n, secs, 0, Some(bucket)) {
                assert(gcra::spec_views(v@.push(s)) =~= gcra::spec_views(v@).push(s@));
                v.push(s);
            }
        }
    }
}

/// The windows of a rule: one for each request count that is not zero.
pub fn window_specs(rp: &RateRequestsPer, burst: Option<u32>) -> (v: Vec<GcraWindowSpec>)
    ensures
        gcra::spec_views(v@) == windows_of(*rp, burst),
{
    let mut v: Vec<GcraWindowSpec> = Vec::new();
    assert(gcra::spec_views(v@) =~= seq![]);
    push_window(&mut v, rp.per_second, 1, burst);
    push_window(&mut v, rp.minute, 60, burst);
    push_window(&mut v, rp.hour, 3600, burst);
    v
}

fn single_spec(rl: &RateLimit) -> (v: Vec<GcraWindowSpec>)
    ensures
        gcra::spec_views(v@) == single_window(*rl),
{
    let mut v: Vec<GcraWindowSpec> = Vec::new();
    assert(gcra::spec_views(v@) =~= seq![]);
    if rl.requests > 0 && rl.window_seconds > 0 {
        let n: u32 = if rl.requests <= u32::MAX as u64 {
            rl.requests as u32
        } else {
            u32::MAX
        };
        if let Some(s) = GcraWindowSpec::new(n, rl.window_seconds, 0, Some(n)) {
            v.push(s);
            assert(gcra::spec_views(v@) =~= single_window(*rl));
        }
    }
    v
}

fn push_rule(
    v: &mut Vec<EngineRule>,
    policy: &Policy,
    selectors: Vec<RateLimitSelector>,
    windows: Vec<GcraWindowSpec>,
)
    ensures
        rule_views(final(v)@) == with_rule(
            rule_views(old(v)@),
            Rule {
                policy: policy.name@,
                selectors: selectors@,
                windows: gcra::spec_views(windows@),
                dry_run: policy.dry_run,
            },
        ),
{
    if windows.len() > 0 {
        let r = EngineRule {
            policy: policy.name.clone(),
            selectors,
            windows,
            dry_run: policy.dry_run,
        };
        assert(rule_views(v@.push(r)) =~= rule_views(v@).push(r@));
        v.push(r);
    }
}

fn copy_selectors(v: &Vec<RateLimitSelector>) -> (r: Vec<RateLimitSelector>)
    ensures
        r@ == v@,
{
    let mut r: Vec<RateLimitSelector> = Vec::new();
    let mut i: usize = 0;
    while i < v.len()
        invariant
            i <= v.len(),
            r@ == v@.take(i as int),
        decreases v.len() - i,
    {
        r.push(v[i]);
        i = i + 1;
    }
    assert(r@ =~= v@);
    r
}

/// Compile every policy's rate rules. A rule without windows is left out.
pub fn compile_rules(policies: &Vec<Policy>) -> (v: Vec<EngineRule>)
    ensures
        rule_views(v@) == rules_of(policies@, policies@.len()),
        resolution::is_compiled(rule_views(v@), policies@),
{
    proof {
        resolution::law_every_limit_is_compiled(policies@);
    }
    let mut v: Vec<EngineRule> = Vec::new();
    assert(rule_views(v@) =~= seq![]);
    let mut i: usize = 0;
    while i < policies.len()
        invariant
            i <= policies.len(),
            rule_views(v@) == rules_of(policies@, i as nat),
        decreases policies.len() - i,
    {
        let p = &policies[i];
        if let Some(rl) = &p.rate_limit {
            let selectors = vec![RateLimitSelector::Route];
            assert(selectors@ =~= seq![RateLimitSelector::Route]);
            push_rule(&mut v, p, selectors, single_spec(rl));
        }
        let ghost start = rule_views(v@);
        assert(start == with_single(rules_of(policies@, i as nat), *p));
        let mut j: usize = 0;
        while j < p.rate_limits.len()
            invariant
                j <= p.rate_limits.len(),
                rule_views(v@) == with_rate_rules(start, *p, j as nat),
            decreases p.rate_limits.len() - j,
        {
            let r = &p.rate_limits[j];
            push_rule(
                &mut v,
                p,
                copy_selectors(&r.selector),
                window_specs(&r.requests_per, r.burst),
            );
            j = j + 1;
        }
        i = i + 1;
    }
    v
}

// ---------------------------------------------------------------------------
// Keys
// ---------------------------------------------------------------------------

/// The per-request attributes a rule key can be built from.
#[derive(Debug, Clone, Copy)]
pub struct RateLimitKeyContext<'a> {
    /// Address of the peer.
    pub peer: &'a str,
    /// Authenticated consumer name; none for anonymous traffic.
    pub consumer: Option<&'a str>,
    /// Name of the matched route; empty on unrouted traffic.
    pub route: &'a str,
}

/// What a selector contributes to a key.
pub open spec fn component(ctx: RateLimitKeyContext, s: RateLimitSelector) -> Seq<char> {
    match s {
        RateLimitSelector::Ip => ctx.peer@,
        RateLimitSelector::Credential => match ctx.consumer {
            Some(c) => c@,
            None => ctx.peer@,
        },
        RateLimitSelector::Route => ctx.route@,
    }
}

/// The key of the first `n` selectors: the components of all of them, empty
/// ones too, joined with bars.
pub open spec fn key_of(ctx: RateLimitKeyContext, s: Seq<RateLimitSelector>, n: nat) -> Seq<char>
    decreases n,
{
    if n == 0 {
        seq![]
    } else if n == 1 {
        component(ctx, s[0])
    } else {
        key_of(ctx, s, (n - 1) as nat).push('|') + component(ctx, s[n - 1])
    }
}

/// The key of a request under a rule's selectors.
pub fn build_key(ctx: &RateLimitKeyContext, selectors: &Vec<RateLimitSelector>) -> (key: String)
    ensures
        key@ == key_of(*ctx, selectors@, selectors@.len()),
        key@ == resolution::barred(resolution::parts_of(*ctx, selectors@)),
{
    proof {
        resolution::law_key_joins_what_is_read(*ctx, selectors@);
    }
    let mut key = String::new();
    let mut i: usize = 0;
    assert(key@ =~= seq![]);
    while i < selectors.len()
        invariant
            i <= selectors.len(),
            key@ == key_of(*ctx, selectors@, i as nat),
        decreases selectors.len() - i,
    {
        if i > 0 {
            key.push('|');
        }
        match selectors[i] {
            RateLimitSelector::Ip => {
                key.append(ctx.peer);
            },
            RateLimitSelector::Credential => {
                match ctx.consumer {
                    Some(c) => {
                        key.append(c);
                    },
                    None => {
                        key.append(ctx.peer);
                    },
                }
            },
            RateLimitSelector::Route => {
                key.append(ctx.route);
            },
        }
        i = i + 1;
        assert(key@ =~= key_of(*ctx, selectors@, i as nat));
    }
    key
}

// ---------------------------------------------------------------------------
// Resolution
// ---------------------------------------------------------------------------

/// A rule that applies to a request, by its place, and the request's key
/// under it.
#[derive(Debug, Clone)]
pub struct Hit {
    pub rule: usize,
    pub key: String,
}

/// What a hit is.
#[verifier::ext_equal]
pub struct HitView {
    pub rule: int,
    pub key: Seq<char>,
}

/// What hits are.
pub open spec fn hit_views(v: Seq<Hit>) -> Seq<HitView> {
    v.map_values(|h: Hit| HitView { rule: h.rule as int, key: h.key@ })
}

/// Hits with those of the first `n` rules that belong to a policy behind
/// them.
pub open spec fn with_hits(
    h: Seq<HitView>,
    rules: Seq<Rule>,
    ctx: RateLimitKeyContext,
    name: Seq<char>,
    n: nat,
) -> Seq<HitView>
    decreases n,
{
    if n == 0 {
        h
    } else {
        let before = with_hits(h, rules, ctx, name, (n - 1) as nat);
        let r = rules[n - 1];
        if r.policy == name {
            before.push(
                HitView { rule: n - 1, key: key_of(ctx, r.selectors, r.selectors.len()) },
            )
        } else {
            before
        }
    }
}

/// The rules that apply by the first `n` policy names, each name at its
/// first place.
pub open spec fn hits_of(
    rules: Seq<Rule>,
    ctx: RateLimitKeyContext,
    names: Seq<Seq<char>>,
    n: nat,
) -> Seq<HitView>
    decreases n,
{
    if n == 0 {
        seq![]
    } else {
        let before = hits_of(rules, ctx, names, (n - 1) as nat);
        if names.take(n - 1).contains(names[n - 1]) {
            before
        } else {
            with_hits(before, rules, ctx, names[n - 1], rules.len())
        }
    }
}

/// The policy names attached to a request, in order of precedence.
#[derive(Debug)]
pub struct AttachedPolicies {
    pub consumer: Vec<String>,
    pub route: Vec<String>,
    pub service: Vec<String>,
    pub listener: Vec<String>,
    pub global: Vec<String>,
}

/// All attached names, in order of precedence.
pub open spec fn attached_names(a: AttachedPolicies) -> Seq<Seq<char>> {
    text::texts(a.consumer@) + text::texts(a.route@) + text::texts(a.service@) + text::texts(
        a.listener@,
    ) + text::texts(a.global@)
}

fn append_names(all: &mut Vec<String>, v: &Vec<String>)
    ensures
        text::texts(final(all)@) == text::texts(old(all)@) + text::texts(v@),
{
    let mut copy = clone_strings(v);
    all.append(&mut copy);
}

fn collect_names(a: &AttachedPolicies) -> (all: Vec<String>)
    ensures
        text::texts(all@) == attached_names(*a),
{
    let mut all = clone_strings(&a.consumer);
    append_names(&mut all, &a.route);
    append_names(&mut all, &a.service);
    append_names(&mut all, &a.listener);
    append_names(&mut all, &a.global);
    all
}

fn seen_before(names: &Vec<String>, n: usize) -> (r: bool)
    requires
        n < names@.len(),
    ensures
        r == text::texts(names@).take(n as int).contains(text::texts(names@)[n as int]),
{
    let ghost all = text::texts(names@);
    let mut i: usize = 0;
    while i < n
        invariant
            i <= n < names@.len(),
            all == text::texts(names@),
            forall|j: int| 0 <= j < i ==> #[trigger] all[j] != all[n as int],
        decreases n - i,
    {
        assert(all[i as int] == names@[i as int]@);
        assert(all[n as int] == names@[n as int]@);
        if same(names[i].as_str(), names[n].as_str()) {
            assert(all.take(n as int)[i as int] == all[n as int]);
            return true;
        }
        i = i + 1;
    }
    assert(forall|j: int| 0 <= j < n ==> all.take(n as int)[j] == all[j]);
    false
}

/// Resolves the rules that apply to a request and its keys under them.
pub fn resolve(
    rules: &Vec<EngineRule>,
    ctx: &RateLimitKeyContext,
    attached: &AttachedPolicies,
) -> (v: Vec<Hit>)
    ensures
        hit_views(v@) == hits_of(
            rule_views(rules@),
            *ctx,
            attached_names(*attached),
            attached_names(*attached).len(),
        ),
        forall|r: int|
            0 <= r < rules@.len() ==> (#[trigger] resolution::is_hit(hit_views(v@), r)
                <==> resolution::is_attached(*attached, rules@[r]@.policy)),
{
    let names = collect_names(attached);
    let ghost all = text::texts(names@);
    let ghost rs = rule_views(rules@);
    let mut v: Vec<Hit> = Vec::new();
    assert(hit_views(v@) =~= seq![]);
    let mut i: usize = 0;
    while i < names.len()
        invariant
            i <= names.len(),
            all == text::texts(names@),
            rs == rule_views(rules@),
            hit_views(v@) == hits_of(rs, *ctx, all, i as nat),
        decreases names.len() - i,
    {
        assert(all[i as int] == names@[i as int]@);
        if !seen_before(&names, i) {
            let ghost start = hit_views(v@);
            let mut j: usize = 0;
            while j < rules.len()
                invariant
                    j <= rules.len(),
                    i < names.len(),
                    all == text::texts(names@),
                    all[i as int] == names@[i as int]@,
                    rs == rule_views(rules@),
                    hit_views(v@) == with_hits(start, rs, *ctx, all[i as int], j as nat),
                decreases rules.len() - j,
            {
                assert(rs[j as int] == rules@[j as int]@);
                if same(rules[j].policy.as_str(), names[i].as_str()) {
                    let h = Hit { rule: j, key: build_key(ctx, &rules[j].selectors) };
                    assert(hit_views(v@.push(h)) =~= hit_views(v@).push(
                        HitView { rule: h.rule as int, key: h.key@ },
                    ));
                    v.push(h);
                }
                j = j + 1;
            }
        }
        i = i + 1;
    }
    proof {
        assert forall|r: int| 0 <= r < rules@.len() implies (#[trigger] resolution::is_hit(
            hit_views(v@),
            r,
        ) <==> resolution::is_attached(*attached, rules@[r]@.policy)) by {
            assert(rs[r] == rules@[r]@);
            resolution::law_every_attached_policy_applies(rs, *ctx, *attached, r);
        }
    }
    v
}

// ---------------------------------------------------------------------------
// Outcomes
// ---------------------------------------------------------------------------

/// What was decided for one request.
#[derive(Debug, Clone, Copy, PartialEq, Eq, Structural)]
pub enum RateLimitOutcome {
    /// No rule applied to the request.
    NotLimited,
    /// Admitted; the numbers describe the binding constraint.
    Allowed { limit: u32, remaining: u32, reset_epoch_s: u64 },
    /// Denied: the numbers of the first denying rule, with the longest wait
    /// of all denying rules.
    Denied { limit: u32, remaining: u32, reset_epoch_s: u64, retry_after_s: u32 },
}

/// The full rate-limit decision for one request: the outcome to enforce, and
/// the first denial of a dry-run policy, if there was one.
#[derive(Debug, Clone, Copy, PartialEq, Eq, Structural)]
pub struct RateLimitEvaluation {
    pub outcome: RateLimitOutcome,
    pub dry_denied: Option<RateLimitOutcome>,
}

/// Milliseconds as whole seconds, rounded up.
pub open spec fn ceil_s(ms: u64) -> int {
    (ms + 999) / 1000
}

/// The outcome of a limiter's answer at a time.
pub open spec fn outcome_of(o: GcraOutcome, now_epoch_s: u64) -> RateLimitOutcome {
    if o.decision.allowed {
        RateLimitOutcome::Allowed {
            limit: o.limit,
            remaining: o.decision.remaining as u32,
            reset_epoch_s: (now_epoch_s + ceil_s(o.refill_ms)) as u64,
        }
    } else {
        let ms = match o.decision.retry_after_ms {
            Some(n) => n,
            None => 0,
        };
        RateLimitOutcome::Denied {
            limit: o.limit,
            remaining: o.decision.remaining as u32,
            reset_epoch_s: (now_epoch_s + ceil_s(ms)) as u64,
            retry_after_s: if 1 <= ceil_s(ms) <= u32::MAX {
                ceil_s(ms) as u32
            } else {
                1
            },
        }
    }
}

/// The latest time for which a reset time is sure to fit in 64 bits.
pub const MAX_EPOCH_S: u64 = 18_428_297_329_635_842_063;

fn ceil_seconds(ms: u64) -> (s: u64)
    ensures
        s == ceil_s(ms),
        s <= 18_446_744_073_709_552,
{
    let s: u64 = ms / 1000;
    if ms % 1000 == 0 {
        s
    } else {
        s + 1
    }
}

/// The outcome of a limiter's answer at a time (Unix seconds).
pub fn rate_outcome(result: GcraOutcome, now_epoch_s: u64) -> (r: RateLimitOutcome)
    requires
        now_epoch_s <= MAX_EPOCH_S,
    ensures
        r == outcome_of(result, now_epoch_s),
{
    if result.decision.allowed {
        RateLimitOutcome::Allowed {
            limit: result.limit,
            remaining: result.decision.remaining as u32,
            reset_epoch_s: now_epoch_s + ceil_seconds(result.refill_ms),
        }
    } else {
        let retry_ms: u64 = match result.decision.retry_after_ms {
            Some(n) => n,
            None => 0,
        };
        let secs: u64 = ceil_seconds(retry_ms);
        RateLimitOutcome::Denied {
            limit: result.limit,
            remaining: result.decision.remaining as u32,
            reset_epoch_s: now_epoch_s + secs,
            retry_after_s: if 1 <= secs && secs <= u32::MAX as u64 {
                secs as u32
            } else {
                1
            },
        }
    }
}

/// What is known while outcomes are combined: the tightest of the allowing
/// outcomes, the denial to enforce, and the denial to report.
#[derive(Debug, Clone, Copy, PartialEq, Eq, Structural)]
pub struct Combined {
    pub allowed: Option<RateLimitOutcome>,
    pub denied: Option<RateLimitOutcome>,
    pub dry_denied: Option<RateLimitOutcome>,
}

/// A denial after one more: the first one stays, with the longer wait.
pub open spec fn stretched(first: Option<RateLimitOutcome>, next: RateLimitOutcome) -> Option<
    RateLimitOutcome,
> {
    match (first, next) {
        (
            Some(RateLimitOutcome::Denied { limit, remaining, reset_epoch_s, retry_after_s }),
            RateLimitOutcome::Denied { reset_epoch_s: reset, retry_after_s: wait, .. },
        ) => if wait > retry_after_s {
            Some(
                RateLimitOutcome::Denied {
                    limit,
                    remaining,
                    reset_epoch_s: reset,
                    retry_after_s: wait,
                },
            )
        } else {
            first
        },
        _ => Some(next),
    }
}

/// The tighter of two allowing outcomes, the first of equals.
pub open spec fn tighter(first: Option<RateLimitOutcome>, next: RateLimitOutcome) -> Option<
    RateLimitOutcome,
> {
    match (first, next) {
        (
            Some(RateLimitOutcome::Allowed { remaining: prev, .. }),
            RateLimitOutcome::Allowed { remaining, .. },
        ) => if remaining >= prev {
            first
        } else {
            Some(next)
        },
        _ => Some(next),
    }
}

/// What is known after one more outcome.
pub open spec fn combined_with(c: Combined, dry_run: bool, o: RateLimitOutcome) -> Combined {
    match o {
        RateLimitOutcome::Denied { .. } => if dry_run {
            Combined { dry_denied: stretched(c.dry_denied, o), ..c }
        } else {
            Combined { denied: stretched(c.denied, o), ..c }
        },
        RateLimitOutcome::Allowed { .. } => if c.denied is Some || dry_run {
            c
        } else {
            Combined { allowed: tighter(c.allowed, o), ..c }
        },
        RateLimitOutcome::NotLimited => c,
    }
}

/// An outcome together with whether its rule is of a dry-run policy.
#[derive(Debug, Clone, Copy, PartialEq, Eq, Structural)]
pub struct RuleOutcome {
    pub dry_run: bool,
    pub outcome: RateLimitOutcome,
}

/// What is known after the first `n` outcomes.
pub open spec fn combined_of(v: Seq<RuleOutcome>, n: nat) -> Combined
    decreases n,
{
    if n == 0 {
        Combined { allowed: None, denied: None, dry_denied: None }
    } else {
        combined_with(
            combined_of(v, (n - 1) as nat),
            v[n - 1].dry_run,
            v[n - 1].outcome,
        )
    }
}

/// The decision from the outcomes of all rules that apply.
pub open spec fn evaluation_of(v: Seq<RuleOutcome>) -> RateLimitEvaluation {
    let c = combined_of(v, v.len());
    RateLimitEvaluation {
        outcome: match c.denied {
            Some(d) => d,
            None => match c.allowed {
                Some(a) => a,
                None => RateLimitOutcome::NotLimited,
            },
        },
        dry_denied: c.dry_denied,
    }
}

fn stretch(first: Option<RateLimitOutcome>, next: RateLimitOutcome) -> (r: Option<
    RateLimitOutcome,
>)
    ensures
        r == stretched(first, next),
{
    if let Some(RateLimitOutcome::Denied { limit, remaining, reset_epoch_s, retry_after_s }) =
        first {
        if let RateLimitOutcome::Denied { reset_epoch_s: reset, retry_after_s: wait, .. } = next {
            if wait > retry_after_s {
                return Some(
                    RateLimitOutcome::Denied {
                        limit,
                        remaining,
                        reset_epoch_s: reset,
                        retry_after_s: wait,
                    },
                );
            }
            return first;
        }
    }
    Some(next)
}

fn tighten(first: Option<RateLimitOutcome>, next: RateLimitOutcome) -> (r: Option<
    RateLimitOutcome,
>)
    ensures
        r == tighter(first, next),
{
    if let Some(RateLimitOutcome::Allowed { remaining: prev, .. }) = first {
        if let RateLimitOutcome::Allowed { remaining, .. } = next {
            if remaining >= prev {
                return first;
            }
        }
    }
    Some(next)
}

/// Combines the outcomes of the rules that apply to a request, in the order
/// of their resolution.
pub fn combine(v: &Vec<RuleOutcome>) -> (r: RateLimitEvaluation)
    ensures
        r == evaluation_of(v@),
        resolution::is_report(v@, r.outcome),
{
    proof {
        resolution::law_report(v@);
    }
    let mut c = Combined { allowed: None, denied: None, dry_denied: None };
    let mut i: usize = 0;
    while i < v.len()
        invariant
            i <= v.len(),
            c == combined_of(v@, i as nat),
        decreases v.len() - i,
    {
        let o = v[i].outcome;
        match o {
            RateLimitOutcome::Denied { .. } => {
                if v[i].dry_run {
                    c = Combined {
                        allowed: c.allowed,
                        denied: c.denied,
                        dry_denied: stretch(c.dry_denied, o),
                    };
                } else {
                    c = Combined {
                        allowed: c.allowed,
                        denied: stretch(c.denied, o),
                        dry_denied: c.dry_denied,
                    };
                }
            },
            RateLimitOutcome::Allowed { .. } => {
                if c.denied.is_none() && !v[i].dry_run {
                    c = Combined {
                        allowed: tighten(c.allowed, o),
                        denied: c.denied,
                        dry_denied: c.dry_denied,
                    };
                }
            },
            RateLimitOutcome::NotLimited => {},
        }
        i = i + 1;
    }
    let outcome = match c.denied {
        Some(d) => d,
        None => match c.allowed {
            Some(a) => a,
            None => RateLimitOutcome::NotLimited,
        },
    };
    RateLimitEvaluation { outcome, dry_denied: c.dry_denied }
}

// ---------------------------------------------------------------------------
// The engine
// ---------------------------------------------------------------------------

/// `std::hash::RandomState::new`: keys for hashing, picked at random.
#[verifier::external_body]
fn new_hasher() -> (h: RandomState)
{
    RandomState::new()
}

/// The hash of a key under the keys of a hasher.
pub uninterp spec fn key_hash(hasher: RandomState, key: Seq<char>) -> u64;

/// `std::hash::BuildHasher::hash_one`: the hash of a key under keys that were
/// picked at random. Claimed is that one hasher gives one hash to one text:
/// the hashers that a `BuildHasher` builds are identical. Which hash that is
/// depends on the random keys, and nothing is claimed of it.
#[verifier::external_body]
fn hash_key(hasher: &RandomState, key: &str) -> (n: u64)
    ensures
        n == key_hash(*hasher, key@),
{
    hasher.hash_one(key)
}

/// Rules with a limiter for each of them.
pub struct RateLimitEngine {
    rules: Vec<EngineRule>,
    limiters: Vec<GcraRateLimiter>,
    hasher: RandomState,
}

/// The windows of limiters.
pub open spec fn limiter_views(v: Seq<GcraRateLimiter>) -> Seq<Seq<Window>> {
    v.map_values(|l: GcraRateLimiter| l@)
}

/// Whether there is a working limiter for each rule.
pub open spec fn is_engine(rules: Seq<Rule>, limiters: Seq<Seq<Window>>) -> bool {
    &&& limiters.len() == rules.len()
    &&& forall|j: int| 0 <= j < limiters.len() ==> limiter::is_limiter(#[trigger] limiters[j])
}

/// The answers of limiters to hits: whether the limiters of the rules that
/// were hit answered `outs`, each asked for one unit under its key, and are
/// `after` it, the others being left as they were.
pub open spec fn is_run(
    limiters: Seq<Seq<Window>>,
    hits: Seq<HitView>,
    hashes: Seq<u64>,
    now_ns: u64,
    now_ms: u64,
    outs: Seq<GcraOutcome>,
    after: Seq<Seq<Window>>,
) -> bool {
    &&& hashes.len() == outs.len()
    &&& outs.len() <= hits.len()
    &&& after.len() == limiters.len()
    &&& forall|h: int|
        0 <= h < outs.len() ==> limiter_answers(
            limiters[(#[trigger] hits[h]).rule],
            limiter::ask_of(hits[h].key, 1, hashes[h], now_ns, now_ms),
            outs[h],
            after[hits[h].rule],
        )
    &&& forall|j: int|
        0 <= j < limiters.len() && (forall|h: int|
            0 <= h < outs.len() ==> (#[trigger] hits[h]).rule != j) ==> #[trigger] after[j]
            == limiters[j]
}

/// Whether a limiter answers a request so and is `after` it.
pub open spec fn limiter_answers(
    ws: Seq<Window>,
    a: limiter::Ask,
    o: GcraOutcome,
    after: Seq<Window>,
) -> bool {
    exists|vs: Seq<gcra::Verdict>|
        #[trigger] limiter::is_stacked_step(ws, a, vs, after) && limiter::is_outcome(ws, a, vs, o)
}

/// The hashes of the keys of hits.
pub open spec fn hashes_of(seed: RandomState, hits: Seq<HitView>) -> Seq<u64> {
    hits.map_values(|h: HitView| key_hash(seed, h.key))
}

/// A request to an engine: what keys are built from, the policies that are
/// attached to it, and the time on three clocks.
pub struct Call<'a> {
    pub ctx: RateLimitKeyContext<'a>,
    pub names: Seq<Seq<char>>,
    pub now_ns: u64,
    pub now_ms: u64,
    pub now_epoch_s: u64,
}

/// The rules that a request hits.
pub open spec fn call_hits(rules: Seq<Rule>, c: Call) -> Seq<HitView> {
    hits_of(rules, c.ctx, c.names, c.names.len())
}

/// Whether the limiters of rules answer a request with `outs`, which combine
/// to `r`, and are `after` it. The shard of a key is picked by its hash under
/// the seed.
pub open spec fn is_answered(
    rules: Seq<Rule>,
    seed: RandomState,
    limiters: Seq<Seq<Window>>,
    c: Call,
    outs: Seq<GcraOutcome>,
    r: RateLimitEvaluation,
    after: Seq<Seq<Window>>,
) -> bool {
    let hits = call_hits(rules, c);
    &&& outs.len() == hits.len()
    &&& is_run(limiters, hits, hashes_of(seed, hits), c.now_ns, c.now_ms, outs, after)
    &&& r == evaluation_of(rule_outcomes(rules, hits, outs, c.now_epoch_s))
}

/// Whether an engine evaluates a request to `r` and has limiters `after` it.
pub open spec fn is_evaluation(
    rules: Seq<Rule>,
    seed: RandomState,
    limiters: Seq<Seq<Window>>,
    c: Call,
    r: RateLimitEvaluation,
    after: Seq<Seq<Window>>,
) -> bool {
    exists|outs: Seq<GcraOutcome>| #[trigger]
        is_answered(rules, seed, limiters, c, outs, r, after)
}

/// The outcomes of the answers to hits at a time.
pub open spec fn rule_outcomes(
    rules: Seq<Rule>,
    hits: Seq<HitView>,
    outs: Seq<GcraOutcome>,
    now_epoch_s: u64,
) -> Seq<RuleOutcome> {
    Seq::new(
        outs.len(),
        |h: int|
            RuleOutcome {
                dry_run: rules[hits[h].rule].dry_run,
                outcome: outcome_of(outs[h], now_epoch_s),
            },
    )
}

/// No rule is hit twice, and every hit is of a rule that there is.
pub open spec fn hits_are_distinct(hits: Seq<HitView>, n: nat) -> bool {
    &&& forall|i: int| 0 <= i < hits.len() ==> 0 <= (#[trigger] hits[i]).rule < n
    &&& forall|i: int, j: int|
        0 <= i < j < hits.len() ==> (#[trigger] hits[i]).rule != (#[trigger] hits[j]).rule
}

proof fn lemma_with_hits(
    h: Seq<HitView>,
    rules: Seq<Rule>,
    ctx: RateLimitKeyContext,
    name: Seq<char>,
    n: nat,
)
    requires
        n <= rules.len(),
        hits_are_distinct(h, rules.len()),
        forall|i: int| 0 <= i < h.len() ==> rules[(#[trigger] h[i]).rule].policy != name,
    ensures
        ({
            let r = with_hits(h, rules, ctx, name, n);
            &&& hits_are_distinct(r, rules.len())
            &&& forall|i: int|
                0 <= i < r.len() ==> (#[trigger] r[i]).rule < n || (exists|k: int|
                    0 <= k < h.len() && #[trigger] h[k] == r[i])
            &&& forall|i: int|
                0 <= i < r.len() ==> rules[(#[trigger] r[i]).rule].policy == name || (exists|k: int|
                    0 <= k < h.len() && #[trigger] h[k] == r[i])
        }),
    decreases n,
{
    if n > 0 {
        let m = (n - 1) as nat;
        lemma_with_hits(h, rules, ctx, name, m);
        let before = with_hits(h, rules, ctx, name, m);
        let r = with_hits(h, rules, ctx, name, n);
        if rules[m as int].policy == name {
            assert forall|i: int, j: int| 0 <= i < j < r.len() implies (#[trigger] r[i]).rule != (
            #[trigger] r[j]).rule by {
                assert(r[i] == before[i]);
                if j < before.len() {
                    assert(r[j] == before[j]);
                } else {
                    if !(before[i].rule < m) {
                        let k = choose|k: int| 0 <= k < h.len() && #[trigger] h[k] == before[i];
                        assert(rules[h[k].rule].policy != name);
                    }
                }
            }
            assert forall|i: int| 0 <= i < r.len() implies 0 <= (#[trigger] r[i]).rule
                < rules.len() by {
                if i < before.len() {
                    assert(r[i] == before[i]);
                }
            }
            assert forall|i: int| 0 <= i < r.len() implies (#[trigger] r[i]).rule < n || (exists|
                k: int,
            |
                0 <= k < h.len() && #[trigger] h[k] == r[i]) by {
                if i < before.len() {
                    assert(r[i] == before[i]);
                }
            }
            assert forall|i: int| 0 <= i < r.len() implies rules[(#[trigger] r[i]).rule].policy
                == name || (exists|k: int| 0 <= k < h.len() && #[trigger] h[k] == r[i]) by {
                if i < before.len() {
                    assert(r[i] == before[i]);
                }
            }
        }
    } else {
        let r = with_hits(h, rules, ctx, name, n);
        assert(r == h);
    }
}

proof fn lemma_hits(
    rules: Seq<Rule>,
    ctx: RateLimitKeyContext,
    names: Seq<Seq<char>>,
    n: nat,
)
    requires
        n <= names.len(),
    ensures
        hits_are_distinct(hits_of(rules, ctx, names, n), rules.len()),
        forall|i: int|
            0 <= i < hits_of(rules, ctx, names, n).len() ==> names.take(n as int).contains(
                rules[(#[trigger] hits_of(rules, ctx, names, n)[i]).rule].policy,
            ),
    decreases n,
{
    if n > 0 {
        let m = (n - 1) as nat;
        lemma_hits(rules, ctx, names, m);
        let before = hits_of(rules, ctx, names, m);
        let r = hits_of(rules, ctx, names, n);
        let name = names[m as int];
        assert(names.take(n as int) =~= names.take(m as int).push(name));
        assert forall|x: Seq<char>| #[trigger]
            names.take(m as int).contains(x) implies names.take(n as int).contains(x) by {
            let k = choose|k: int| 0 <= k < m && names.take(m as int)[k] == x;
            assert(names.take(n as int)[k] == x);
        }
        assert(names.take(n as int)[m as int] == name);
        if !names.take(m as int).contains(name) {
            lemma_with_hits(before, rules, ctx, name, rules.len());
            assert forall|i: int| 0 <= i < r.len() implies names.take(n as int).contains(
                rules[(#[trigger] r[i]).rule].policy,
            ) by {
                if rules[r[i].rule].policy != name {
                    let k = choose|k: int| 0 <= k < before.len() && #[trigger] before[k] == r[i];
                    assert(names.take(m as int).contains(rules[before[k].rule].policy));
                }
            }
        }
    }
}

/// A policy that is attached at several levels is evaluated once: no rule is
/// asked twice for one request.
pub proof fn law_no_rule_is_asked_twice(
    rules: Seq<Rule>,
    ctx: RateLimitKeyContext,
    names: Seq<Seq<char>>,
)
    ensures
        hits_are_distinct(hits_of(rules, ctx, names, names.len()), rules.len()),
{
    lemma_hits(rules, ctx, names, names.len());
}

/// The limiters of compiled rules.
pub open spec fn new_limiters(rules: Seq<Rule>, cap: nat) -> Seq<Seq<Window>> {
    rules.map_values(|r: Rule| limiter::new_windows(r.windows, cap))
}

impl RateLimitEngine {
    /// The compiled rules.
    pub closed spec fn rules(self) -> Seq<Rule> {
        rule_views(self.rules@)
    }

    /// The windows of the rules' limiters.
    pub closed spec fn limiters(self) -> Seq<Seq<Window>> {
        limiter_views(self.limiters@)
    }

    /// The random keys by which keys are hashed to their shards.
    pub closed spec fn seed(self) -> RandomState {
        self.hasher
    }

    /// Compile every policy's rate rules, with limiters of at most `cap` keys
    /// in a shard.
    pub fn compile(policies: &Vec<Policy>, cap: usize) -> (e: Self)
        ensures
            e.rules() == rules_of(policies@, policies@.len()),
            resolution::is_compiled(e.rules(), policies@),
            e.limiters() == new_limiters(e.rules(), cap as nat),
            is_engine(e.rules(), e.limiters()),
    {
        let rules = compile_rules(policies);
        let ghost rs = rule_views(rules@);
        proof {
            lemma_rules_have_windows(policies@, policies@.len());
        }
        let mut limiters: Vec<GcraRateLimiter> = Vec::new();
        let mut i: usize = 0;
        while i < rules.len()
            invariant
                i <= rules.len(),
                limiters.len() == i,
                rs == rule_views(rules@),
                forall|j: int| 0 <= j < rs.len() ==> (#[trigger] rs[j]).windows.len() > 0,
                forall|j: int|
                    0 <= j < i ==> (#[trigger] limiters@[j])@ == limiter::new_windows(
                        rs[j].windows,
                        cap as nat,
                    ) && limiter::is_limiter(limiters@[j]@),
            decreases rules.len() - i,
        {
            assert(rs[i as int] == rules@[i as int]@);
            if let Some(l) = GcraRateLimiter::new(&rules[i].windows, cap) {
                limiters.push(l);
            }
            i = i + 1;
        }
        let e = RateLimitEngine { rules, limiters, hasher: new_hasher() };
        assert(e.limiters() =~= new_limiters(e.rules(), cap as nat));
        e
    }

    /// Whether no rule is compiled in at all.
    pub fn is_empty(&self) -> (r: bool)
        ensures
            r == (self.rules().len() == 0),
    {
        self.rules.len() == 0
    }

    /// Asks the limiter of a rule for one unit under a key.
    pub fn check_rule(&mut self, rule: usize, key: &str, hash: u64, now_ns: u64, now_ms: u64) -> (o:
        GcraOutcome)
        requires
            is_engine(old(self).rules(), old(self).limiters()),
            rule < old(self).rules().len(),
        ensures
            final(self).rules() == old(self).rules(),
            final(self).seed() == old(self).seed(),
            is_engine(final(self).rules(), final(self).limiters()),
            limiter_answers(
                old(self).limiters()[rule as int],
                limiter::ask_of(key@, 1, hash, now_ns, now_ms),
                o,
                final(self).limiters()[rule as int],
            ),
            final(self).limiters() == old(self).limiters().update(
                rule as int,
                final(self).limiters()[rule as int],
            ),
    {
        let ghost before = self.limiters();
        assert(before[rule as int] == self.limiters@[rule as int]@);
        let o = self.limiters[rule].check(key, 1, hash, now_ns, now_ms);
        assert(self.limiters() =~= before.update(rule as int, self.limiters@[rule as int]@));
        o
    }

    /// Resolves the rules that apply to a request, asks each of their
    /// limiters for one unit, and combines the answers. The shard of a key is
    /// picked by its hash under the engine's seed, which stays.
    pub fn evaluate(
        &mut self,
        ctx: &RateLimitKeyContext,
        attached: &AttachedPolicies,
        now_ns: u64,
        now_ms: u64,
        now_epoch_s: u64,
    ) -> (r: RateLimitEvaluation)
        requires
            is_engine(old(self).rules(), old(self).limiters()),
            now_epoch_s <= MAX_EPOCH_S,
        ensures
            final(self).rules() == old(self).rules(),
            final(self).seed() == old(self).seed(),
            is_engine(final(self).rules(), final(self).limiters()),
            is_evaluation(
                old(self).rules(),
                old(self).seed(),
                old(self).limiters(),
                (Call {
                    ctx: *ctx,
                    names: attached_names(*attached),
                    now_ns,
                    now_ms,
                    now_epoch_s,
                }),
                r,
                final(self).limiters(),
            ),
            forall|rule: int|
                0 <= rule < old(self).rules().len() ==> #[trigger] resolution::is_held_to(
                    old(self).rules(),
                    old(self).seed(),
                    old(self).limiters(),
                    *attached,
                    (Call {
                        ctx: *ctx,
                        names: attached_names(*attached),
                        now_ns,
                        now_ms,
                        now_epoch_s,
                    }),
                    r,
                    final(self).limiters(),
                    rule,
                ),
    {
        let hits = resolve(&self.rules, ctx, attached);
        let ghost names = attached_names(*attached);
        let ghost hv = hit_views(hits@);
        let ghost rules = self.rules();
        let ghost start = self.limiters();
        let ghost seed = self.seed();
        let ghost all_hashes = hashes_of(seed, hv);
        proof {
            lemma_hits(rules, *ctx, names, names.len());
        }
        let ghost mut hashes: Seq<u64> = all_hashes.take(0);
        let ghost mut outs: Seq<GcraOutcome> = seq![];
        let mut v: Vec<RuleOutcome> = Vec::new();
        let mut i: usize = 0;
        assert(v@ =~= rule_outcomes(rules, hv, outs, now_epoch_s));
        while i < hits.len()
            invariant
                i <= hits.len(),
                hv == hit_views(hits@),
                hv.len() == hits@.len(),
                hits_are_distinct(hv, rules.len()),
                rules == self.rules(),
                is_engine(rules, start),
                is_engine(rules, self.limiters()),
                now_epoch_s <= MAX_EPOCH_S,
                outs.len() == i,
                seed == self.seed(),
                all_hashes == hashes_of(seed, hv),
                hashes == all_hashes.take(i as int),
                is_run(start, hv, hashes, now_ns, now_ms, outs, self.limiters()),
                v@ == rule_outcomes(rules, hv, outs, now_epoch_s),
            decreases hits.len() - i,
        {
            let h = &hits[i];
            assert(hv[i as int] == HitView { rule: h.rule as int, key: h.key@ });
            let n: u64 = hash_key(&self.hasher, h.key.as_str());
            let ghost before = self.limiters();
            let ghost old_outs = outs;
            let ghost old_hashes = hashes;
            assert(before[h.rule as int] == start[h.rule as int]) by {
                assert(forall|k: int|
                    0 <= k < old_outs.len() ==> (#[trigger] hv[k]).rule != hv[i as int].rule);
            }
            let o = self.check_rule(h.rule, h.key.as_str(), n, now_ns, now_ms);
            proof {
                outs = outs.push(o);
                hashes = hashes.push(n);
                assert(hashes =~= all_hashes.take(i + 1));
                let after = self.limiters();
                assert forall|k: int| 0 <= k < outs.len() implies limiter_answers(
                    start[(#[trigger] hv[k]).rule],
                    limiter::ask_of(hv[k].key, 1, hashes[k], now_ns, now_ms),
                    outs[k],
                    after[hv[k].rule],
                ) by {
                    if k < i {
                        assert(outs[k] == old_outs[k] && hashes[k] == old_hashes[k]);
                        assert(hv[k].rule != hv[i as int].rule);
                        assert(after[hv[k].rule] == before[hv[k].rule]);
                    }
                }
                assert forall|j: int|
                    0 <= j < start.len() && (forall|k: int|
                        0 <= k < outs.len() ==> (#[trigger] hv[k]).rule != j) implies #[trigger] after[j]
                    == start[j] by {
                    assert(hv[i as int].rule != j);
                    assert(forall|k: int| 0 <= k < old_outs.len() ==> (#[trigger] hv[k]).rule != j);
                    assert(after[j] == before[j]);
                }
                assert(is_run(start, hv, hashes, now_ns, now_ms, outs, after));
            }
            let ro = RuleOutcome {
                dry_run: self.rules[h.rule].dry_run,
                outcome: rate_outcome(o, now_epoch_s),
            };
            v.push(ro);
            proof {
                assert(rules[h.rule as int] == self.rules@[h.rule as int]@);
                assert(v@ =~= rule_outcomes(rules, hv, outs, now_epoch_s));
            }
            i = i + 1;
        }
        proof {
            assert(all_hashes.take(i as int) =~= all_hashes);
        }
        let r = combine(&v);
        proof {
            let c = Call { ctx: *ctx, names, now_ns, now_ms, now_epoch_s };
            assert(is_answered(rules, seed, start, c, outs, r, self.limiters()));
            assert forall|rule: int| 0 <= rule < rules.len() implies #[trigger] resolution::is_held_to(
                rules,
                seed,
                start,
                *attached,
                c,
                r,
                self.limiters(),
                rule,
            ) by {
                resolution::law_request_is_held_to_every_attached_rule(
                    rules,
                    seed,
                    start,
                    *attached,
                    c,
                    r,
                    self.limiters(),
                    rule,
                );
            }
        }
        r
    }

    /// Live cells across every compiled rule.
    pub fn live_keys(&self) -> (n: u64)
        ensures
            n == limiter::capped(live_in_rules(self.limiters(), self.limiters().len())),
    {
        let mut n: u64 = 0;
        let mut i: usize = 0;
        let ghost ls = self.limiters();
        while i < self.limiters.len()
            invariant
                i <= self.limiters.len(),
                ls == self.limiters(),
                ls.len() == self.limiters@.len(),
                n == limiter::capped(live_in_rules(ls, i as nat)),
            decreases self.limiters.len() - i,
        {
            assert(ls[i as int] == self.limiters@[i as int]@);
            n = n.saturating_add(self.limiters[i].live_keys());
            i = i + 1;
        }
        n
    }

    /// Cells dropped by sweeps across every compiled rule.
    pub fn evictions(&self) -> (n: u64)
        ensures
            n == dropped_in_rules(self.limiters(), self.limiters().len()),
    {
        let mut n: u64 = 0;
        let mut i: usize = 0;
        let ghost ls = self.limiters();
        while i < self.limiters.len()
            invariant
                i <= self.limiters.len(),
                ls == self.limiters(),
                ls.len() == self.limiters@.len(),
                n == dropped_in_rules(ls, i as nat),
            decreases self.limiters.len() - i,
        {
            assert(ls[i as int] == self.limiters@[i as int]@);
            n = n.wrapping_add(self.limiters[i].evictions());
            i = i + 1;
        }
        n
    }
}

/// The live cells of the first `n` rules.
pub open spec fn live_in_rules(ls: Seq<Seq<Window>>, n: nat) -> nat
    decreases n,
{
    if n == 0 {
        0
    } else {
        live_in_rules(ls, (n - 1) as nat) + limiter::live_in_windows(ls[n - 1], ls[n - 1].len())
    }
}

/// The cells dropped for the first `n` rules, on a counter of 64 bits.
pub open spec fn dropped_in_rules(ls: Seq<Seq<Window>>, n: nat) -> int
    decreases n,
{
    if n == 0 {
        0
    } else {
        (dropped_in_rules(ls, (n - 1) as nat) + limiter::dropped_in_windows(
            ls[n - 1],
            ls[n - 1].len(),
        )) % 0x1_0000_0000_0000_0000
    }
}

proof fn lemma_rate_rules_have_windows(v: Seq<Rule>, p: Policy, n: nat)
    requires
        forall|j: int| 0 <= j < v.len() ==> (#[trigger] v[j]).windows.len() > 0,
    ensures
        forall|j: int|
            0 <= j < with_rate_rules(v, p, n).len() ==> (#[trigger] with_rate_rules(
                v,
                p,
                n,
            )[j]).windows.len() > 0,
    decreases n,
{
    if n > 0 {
        lemma_rate_rules_have_windows(v, p, (n - 1) as nat);
        let before = with_rate_rules(v, p, (n - 1) as nat);
        let after = with_rate_rules(v, p, n);
        assert forall|j: int| 0 <= j < after.len() implies (#[trigger] after[j]).windows.len()
            > 0 by {
            if j < before.len() {
                assert(after[j] == before[j]);
            }
        }
    }
}

/// Every compiled rule has a window.
pub proof fn lemma_rules_have_windows(policies: Seq<Policy>, n: nat)
    ensures
        forall|j: int|
            0 <= j < rules_of(policies, n).len() ==> (#[trigger] rules_of(
                policies,
                n,
            )[j]).windows.len() > 0,
    decreases n,
{
    if n > 0 {
        lemma_rules_have_windows(policies, (n - 1) as nat);
        let p = policies[n - 1];
        let v = with_single(rules_of(policies, (n - 1) as nat), p);
        lemma_rate_rules_have_windows(v, p, p.rate_limits@.len());
    }
}

// ---------------------------------------------------------------------------
// Laws
// ---------------------------------------------------------------------------

/// Whether outcomes hold a denial of a rule that is enforced.
pub open spec fn any_denied(v: Seq<RuleOutcome>, n: nat) -> bool {
    exists|i: int| 0 <= i < n && !(#[trigger] v[i]).dry_run && v[i].outcome is Denied
}

proof fn lemma_combined_shape(v: Seq<RuleOutcome>, n: nat)
    requires
        n <= v.len(),
    ensures
        ({
            let c = combined_of(v, n);
            &&& c.denied matches Some(d) ==> d is Denied
            &&& c.allowed matches Some(a) ==> a is Allowed
            &&& c.dry_denied matches Some(d) ==> d is Denied
            &&& c.denied is Some == any_denied(v, n)
        }),
    decreases n,
{
    if n > 0 {
        lemma_combined_shape(v, (n - 1) as nat);
        let m = (n - 1) as nat;
        if any_denied(v, m) {
            let i = choose|i: int| 0 <= i < m && !(#[trigger] v[i]).dry_run && v[i].outcome is Denied;
            assert(any_denied(v, n));
        }
        if !v[m as int].dry_run && v[m as int].outcome is Denied {
            assert(any_denied(v, n));
        }
        if any_denied(v, n) && !any_denied(v, m) {
            let i = choose|i: int| 0 <= i < n && !(#[trigger] v[i]).dry_run && v[i].outcome is Denied;
            assert(i == m);
        }
    }
}

/// A request is denied exactly when a rule of a policy that is enforced
/// denies it.
pub proof fn law_denied_iff_an_enforced_rule_denies(v: Seq<RuleOutcome>)
    ensures
        evaluation_of(v).outcome is Denied <==> any_denied(v, v.len()),
{
    lemma_combined_shape(v, v.len());
}

/// The wait of an outcome.
pub open spec fn wait_of(o: RateLimitOutcome) -> int {
    match o {
        RateLimitOutcome::Denied { retry_after_s, .. } => retry_after_s as int,
        _ => 0,
    }
}

proof fn lemma_longest_wait(v: Seq<RuleOutcome>, n: nat)
    requires
        n <= v.len(),
    ensures
        forall|i: int|
            0 <= i < n && !(#[trigger] v[i]).dry_run && v[i].outcome is Denied ==> {
                &&& combined_of(v, n).denied matches Some(d)
                &&& wait_of(v[i].outcome) <= wait_of(d)
            },
    decreases n,
{
    if n > 0 {
        let m = (n - 1) as nat;
        lemma_longest_wait(v, m);
        lemma_combined_shape(v, m);
        assert forall|i: int|
            0 <= i < n && !(#[trigger] v[i]).dry_run && v[i].outcome is Denied implies {
            &&& combined_of(v, n).denied matches Some(d)
            &&& wait_of(v[i].outcome) <= wait_of(d)
        } by {
            if i < m {
                let d = combined_of(v, m).denied->Some_0;
                assert(wait_of(v[i].outcome) <= wait_of(d));
            }
        }
    }
}

/// A client that honours the reported wait is not told too little: no
/// enforced rule that denied the request demanded a longer one.
pub proof fn law_wait_is_the_longest(v: Seq<RuleOutcome>, i: int)
    requires
        0 <= i < v.len(),
        !v[i].dry_run,
        v[i].outcome is Denied,
    ensures
        evaluation_of(v).outcome is Denied,
        wait_of(v[i].outcome) <= wait_of(evaluation_of(v).outcome),
{
    lemma_longest_wait(v, v.len());
    lemma_combined_shape(v, v.len());
}

/// The outcomes of the rules that are enforced.
pub open spec fn enforced(v: Seq<RuleOutcome>, n: nat) -> Seq<RuleOutcome>
    decreases n,
{
    if n == 0 {
        seq![]
    } else if v[n - 1].dry_run {
        enforced(v, (n - 1) as nat)
    } else {
        enforced(v, (n - 1) as nat).push(v[n - 1])
    }
}

proof fn lemma_combined_push(v: Seq<RuleOutcome>, x: RuleOutcome, n: nat)
    requires
        n <= v.len(),
    ensures
        combined_of(v.push(x), n) == combined_of(v, n),
    decreases n,
{
    if n > 0 {
        lemma_combined_push(v, x, (n - 1) as nat);
    }
}

proof fn lemma_enforced(v: Seq<RuleOutcome>, n: nat)
    requires
        n <= v.len(),
    ensures
        combined_of(v, n).denied == combined_of(enforced(v, n), enforced(v, n).len()).denied,
        combined_of(v, n).allowed == combined_of(enforced(v, n), enforced(v, n).len()).allowed,
    decreases n,
{
    if n > 0 {
        let m = (n - 1) as nat;
        lemma_enforced(v, m);
        if !v[m as int].dry_run {
            let e = enforced(v, m);
            lemma_combined_push(e, v[m as int], e.len());
        }
    }
}

/// A dry-run policy never changes what is enforced: the outcome is that of
/// the other rules alone.
pub proof fn law_dry_run_never_changes_the_outcome(v: Seq<RuleOutcome>)
    ensures
        evaluation_of(v).outcome == evaluation_of(enforced(v, v.len())).outcome,
{
    lemma_enforced(v, v.len());
}

} // verus!
