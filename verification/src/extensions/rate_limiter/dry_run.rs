//! What a dry-run policy does and does not do.
//!
//! A dry-run policy is evaluated like any other, and its denials are
//! reported. Nothing that is enforced depends on it: an engine that was
//! compiled without the dry-run policies decides the same, request after
//! request.

pub mod across_seeds;

use vstd::prelude::*;

use std::hash::RandomState;

use crate::extensions::rate_limiter::engine;
use crate::extensions::rate_limiter::engine::{
    Call, HitView, Policy, RateLimitEvaluation, RateLimitKeyContext, RateLimitOutcome, Rule,
    RuleOutcome,
};
use crate::extensions::rate_limiter::gcra;
use crate::extensions::rate_limiter::gcra::{GcraOutcome, Verdict};
use crate::extensions::rate_limiter::limiter;
use crate::extensions::rate_limiter::limiter::{Ask, Window};
use crate::extensions::rate_limiter::shard;
use crate::extensions::rate_limiter::shard::GcraCell;

verus! {

// ---------------------------------------------------------------------------
// One answer
// ---------------------------------------------------------------------------

proof fn lemma_one_sweep(
    m: Map<Seq<char>, GcraCell>,
    r: Map<Seq<char>, GcraCell>,
    s: Map<Seq<char>, GcraCell>,
    now_ms: u64,
    max_idle_ms: u64,
    cap: nat,
)
    requires
        shard::is_swept(m, r, now_ms, max_idle_ms, cap),
        shard::is_swept(m, s, now_ms, max_idle_ms, cap),
    ensures
        r == s,
{
    let fresh = shard::fresh_cells(m, now_ms, max_idle_ms);
    if m.dom().len() >= cap && fresh.dom().len() >= cap {
        shard::law_trimming_has_one_result(fresh, r, s, cap / 2);
    }
}

proof fn lemma_one_step(w: Window, a: Ask, v1: Verdict, after1: Window, v2: Verdict, after2: Window)
    requires
        limiter::is_step(w, a, v1, after1),
        limiter::is_step(w, a, v2, after2),
    ensures
        v1 == v2,
        after1 == after2,
{
    let h = (a.hash % 16) as int;
    if a.cost <= w.burst {
        let m1 = choose|m: Map<Seq<char>, GcraCell>|
            {
                &&& #[trigger] shard::is_swept(w.shards[h], m, a.now_ms, w.full_refill_ms, w.cap)
                &&& v1 == gcra::verdict(
                    w.t,
                    w.burst,
                    limiter::arrival(m, a.key),
                    a.cost,
                    a.now_ns as int,
                )
                &&& after1 == (Window {
                    shards: w.shards.update(h, limiter::touched(m, a.key, v1, a.now_ms)),
                    evictions: ((w.evictions + w.shards[h].dom().len() - m.dom().len())
                        % 0x1_0000_0000_0000_0000) as u64,
                    ..w
                })
            };
        let m2 = choose|m: Map<Seq<char>, GcraCell>|
            {
                &&& #[trigger] shard::is_swept(w.shards[h], m, a.now_ms, w.full_refill_ms, w.cap)
                &&& v2 == gcra::verdict(
                    w.t,
                    w.burst,
                    limiter::arrival(m, a.key),
                    a.cost,
                    a.now_ns as int,
                )
                &&& after2 == (Window {
                    shards: w.shards.update(h, limiter::touched(m, a.key, v2, a.now_ms)),
                    evictions: ((w.evictions + w.shards[h].dom().len() - m.dom().len())
                        % 0x1_0000_0000_0000_0000) as u64,
                    ..w
                })
            };
        lemma_one_sweep(w.shards[h], m1, m2, a.now_ms, w.full_refill_ms, w.cap);
    }
}

proof fn lemma_one_stacked_step(
    ws: Seq<Window>,
    a: Ask,
    vs1: Seq<Verdict>,
    after1: Seq<Window>,
    vs2: Seq<Verdict>,
    after2: Seq<Window>,
)
    requires
        limiter::is_stacked_step(ws, a, vs1, after1),
        limiter::is_stacked_step(ws, a, vs2, after2),
    ensures
        vs1 == vs2,
        after1 == after2,
{
    assert forall|j: int| 0 <= j < vs1.len() && j < vs2.len() implies #[trigger] vs1[j] == vs2[j]
        && after1[j] == after2[j] by {
        lemma_one_step(ws[j], a, vs1[j], after1[j], vs2[j], after2[j]);
    }
    if vs1.len() < vs2.len() {
        assert(vs1[vs1.len() - 1] == vs2[vs1.len() - 1]);
        assert(false);
    }
    if vs2.len() < vs1.len() {
        assert(vs1[vs2.len() - 1] == vs2[vs2.len() - 1]);
        assert(false);
    }
    assert(vs1 =~= vs2);
    assert forall|j: int| 0 <= j < ws.len() implies after1[j] == after2[j] by {
        if j < vs1.len() {
            assert(vs1[j] == vs2[j]);
        } else {
            assert(after1[j] == ws[j] && after2[j] == ws[j]);
        }
    }
    assert(after1 =~= after2);
}

/// A limiter's answer, and what it is afterwards, is fixed by what it was and
/// what it was asked.
pub proof fn law_answers_are_determined(
    ws: Seq<Window>,
    a: Ask,
    o1: GcraOutcome,
    after1: Seq<Window>,
    o2: GcraOutcome,
    after2: Seq<Window>,
)
    requires
        engine::limiter_answers(ws, a, o1, after1),
        engine::limiter_answers(ws, a, o2, after2),
    ensures
        o1 == o2,
        after1 == after2,
{
    let vs1 = choose|vs: Seq<Verdict>|
        #[trigger] limiter::is_stacked_step(ws, a, vs, after1) && limiter::is_outcome(
            ws,
            a,
            vs,
            o1,
        );
    let vs2 = choose|vs: Seq<Verdict>|
        #[trigger] limiter::is_stacked_step(ws, a, vs, after2) && limiter::is_outcome(
            ws,
            a,
            vs,
            o2,
        );
    lemma_one_stacked_step(ws, a, vs1, after1, vs2, after2);
    if vs1.last() is Allowed {
        let b1 = choose|b: int|
            {
                &&& #[trigger] limiter::is_tightest(ws, a, vs1, b)
                &&& o1.limit == ws[b].burst as u32
                &&& o1.decision.remaining == limiter::left_in(ws[b], a, vs1[b]) as u64
                &&& o1.decision.allowed
                &&& o1.decision.retry_after_ms is None
                &&& o1.refill_ms == limiter::as_millis(ws[b].t * ws[b].burst)
            };
        let b2 = choose|b: int|
            {
                &&& #[trigger] limiter::is_tightest(ws, a, vs1, b)
                &&& o2.limit == ws[b].burst as u32
                &&& o2.decision.remaining == limiter::left_in(ws[b], a, vs1[b]) as u64
                &&& o2.decision.allowed
                &&& o2.decision.retry_after_ms is None
                &&& o2.refill_ms == limiter::as_millis(ws[b].t * ws[b].burst)
            };
        assert(limiter::is_tightest(ws, a, vs1, b1));
        assert(limiter::is_tightest(ws, a, vs1, b2));
        assert(vs1[b1] == vs1[b1] && vs1[b2] == vs1[b2]);
        assert(b1 == b2);
    }
}

// ---------------------------------------------------------------------------
// Rules
// ---------------------------------------------------------------------------

/// The policies that are enforced.
pub open spec fn live_policies(policies: Seq<Policy>) -> Seq<Policy> {
    policies.filter(|p: Policy| !p.dry_run)
}

/// The rules that are enforced.
pub open spec fn live_rules(rules: Seq<Rule>) -> Seq<Rule> {
    rules.filter(|r: Rule| !r.dry_run)
}

/// How many enforced rules stand before the rule at `j`: its place among
/// them, if it is enforced.
pub open spec fn rank(rules: Seq<Rule>, j: int) -> nat {
    live_rules(rules.take(j)).len()
}

proof fn lemma_live_push(v: Seq<Rule>, r: Rule)
    ensures
        live_rules(v.push(r)) == if r.dry_run {
            live_rules(v)
        } else {
            live_rules(v).push(r)
        },
{
    reveal(Seq::filter);
    assert(v.push(r).drop_last() =~= v);
}

/// The rule at `j`, if it is enforced, stands at its rank among those that
/// are.
proof fn lemma_rank(rules: Seq<Rule>, j: int)
    requires
        0 <= j < rules.len(),
    ensures
        rank(rules, j + 1) == rank(rules, j) + if rules[j].dry_run {
            0nat
        } else {
            1
        },
        !rules[j].dry_run ==> rank(rules, j) < live_rules(rules).len() && live_rules(
            rules,
        )[rank(rules, j) as int] == rules[j],
        rank(rules, rules.len() as int) == live_rules(rules).len(),
{
    assert(rules.take(j + 1) =~= rules.take(j).push(rules[j]));
    lemma_live_push(rules.take(j), rules[j]);
    assert(rules.take(rules.len() as int) =~= rules);
    if !rules[j].dry_run {
        lemma_live_extends(rules, j + 1);
        assert(live_rules(rules.take(j + 1))[rank(rules, j) as int] == rules[j]);
    }
}

/// The enforced rules of a prefix are a prefix of the enforced rules.
proof fn lemma_live_extends(rules: Seq<Rule>, n: int)
    requires
        0 <= n <= rules.len(),
    ensures
        live_rules(rules.take(n)).len() <= live_rules(rules).len(),
        forall|i: int|
            0 <= i < live_rules(rules.take(n)).len() ==> #[trigger] live_rules(rules.take(n))[i]
                == live_rules(rules)[i],
    decreases rules.len() - n,
{
    if n < rules.len() {
        lemma_live_extends(rules, n + 1);
        assert(rules.take(n + 1) =~= rules.take(n).push(rules[n]));
        lemma_live_push(rules.take(n), rules[n]);
        assert forall|i: int| 0 <= i < live_rules(rules.take(n)).len() implies #[trigger] live_rules(
            rules.take(n),
        )[i] == live_rules(rules)[i] by {
            assert(live_rules(rules.take(n))[i] == live_rules(rules.take(n + 1))[i]);
        }
    } else {
        assert(rules.take(n) =~= rules);
    }
}

proof fn lemma_rank_grows(rules: Seq<Rule>, i: int, j: int)
    requires
        0 <= i < j <= rules.len(),
        !rules[i].dry_run,
    ensures
        rank(rules, i) < rank(rules, j),
    decreases j - i,
{
    lemma_rank(rules, j - 1);
    if i < j - 1 {
        lemma_rank_grows(rules, i, j - 1);
    }
}

proof fn lemma_live_with_rate_rules(v: Seq<Rule>, p: Policy, n: nat)
    ensures
        live_rules(engine::with_rate_rules(v, p, n)) == if p.dry_run {
            live_rules(v)
        } else {
            engine::with_rate_rules(live_rules(v), p, n)
        },
    decreases n,
{
    if n > 0 {
        let m = (n - 1) as nat;
        lemma_live_with_rate_rules(v, p, m);
        let r = p.rate_limits@[n - 1];
        lemma_live_push(
            engine::with_rate_rules(v, p, m),
            Rule {
                policy: p.name@,
                selectors: r.selector@,
                windows: engine::windows_of(r.requests_per, r.burst),
                dry_run: p.dry_run,
            },
        );
    }
}

proof fn lemma_live_with_single(v: Seq<Rule>, p: Policy)
    ensures
        live_rules(engine::with_single(v, p)) == if p.dry_run {
            live_rules(v)
        } else {
            engine::with_single(live_rules(v), p)
        },
{
    if let Some(rl) = p.rate_limit {
        lemma_live_push(
            v,
            Rule {
                policy: p.name@,
                selectors: seq![engine::RateLimitSelector::Route],
                windows: engine::single_window(rl),
                dry_run: p.dry_run,
            },
        );
    }
}

proof fn lemma_rules_of_prefix(a: Seq<Policy>, b: Seq<Policy>, n: nat)
    requires
        n <= a.len(),
        n <= b.len(),
        forall|i: int| 0 <= i < n ==> a[i] == b[i],
    ensures
        engine::rules_of(a, n) == engine::rules_of(b, n),
    decreases n,
{
    if n > 0 {
        lemma_rules_of_prefix(a, b, (n - 1) as nat);
    }
}

/// Compiling without the dry-run policies gives the rules that are enforced.
pub proof fn law_live_policies_give_the_live_rules(policies: Seq<Policy>)
    ensures
        engine::rules_of(live_policies(policies), live_policies(policies).len()) == live_rules(
            engine::rules_of(policies, policies.len()),
        ),
    decreases policies.len(),
{
    reveal(Seq::filter);
    if policies.len() > 0 {
        let prior = policies.drop_last();
        let p = policies.last();
        let n = prior.len();
        law_live_policies_give_the_live_rules(prior);
        lemma_rules_of_prefix(policies, prior, n);
        let v = engine::rules_of(policies, n);
        lemma_live_with_single(v, p);
        lemma_live_with_rate_rules(engine::with_single(v, p), p, p.rate_limits@.len());
        let q = live_policies(prior);
        if !p.dry_run {
            assert(live_policies(policies) == q.push(p));
            lemma_rules_of_prefix(q.push(p), q, q.len());
        }
    }
}

// ---------------------------------------------------------------------------
// Hits
// ---------------------------------------------------------------------------

/// The hits of rules that are enforced, each with the rule's place among
/// those that are.
pub open spec fn live_hits(rules: Seq<Rule>, hits: Seq<HitView>) -> Seq<HitView>
    decreases hits.len(),
{
    if hits.len() == 0 {
        seq![]
    } else {
        let before = live_hits(rules, hits.drop_last());
        let h = hits.last();
        if rules[h.rule].dry_run {
            before
        } else {
            before.push(HitView { rule: rank(rules, h.rule) as int, key: h.key })
        }
    }
}

proof fn lemma_live_hits_push(rules: Seq<Rule>, hits: Seq<HitView>, h: HitView)
    ensures
        live_hits(rules, hits.push(h)) == if rules[h.rule].dry_run {
            live_hits(rules, hits)
        } else {
            live_hits(rules, hits).push(HitView { rule: rank(rules, h.rule) as int, key: h.key })
        },
{
    assert(hits.push(h).drop_last() =~= hits);
}

proof fn lemma_live_with_hits(
    h: Seq<HitView>,
    rules: Seq<Rule>,
    ctx: RateLimitKeyContext,
    name: Seq<char>,
    n: nat,
)
    requires
        n <= rules.len(),
    ensures
        engine::with_hits(
            live_hits(rules, h),
            live_rules(rules),
            ctx,
            name,
            rank(rules, n as int),
        ) == live_hits(rules, engine::with_hits(h, rules, ctx, name, n)),
    decreases n,
{
    if n == 0 {
        assert(rules.take(0) =~= seq![]);
        reveal(Seq::filter);
    } else {
        let m = (n - 1) as nat;
        lemma_live_with_hits(h, rules, ctx, name, m);
        lemma_rank(rules, m as int);
        let r = rules[m as int];
        let before = engine::with_hits(h, rules, ctx, name, m);
        let hit = HitView {
            rule: m as int,
            key: engine::key_of(ctx, r.selectors, r.selectors.len()),
        };
        lemma_live_hits_push(rules, before, hit);
    }
}

proof fn lemma_live_hits_of(
    rules: Seq<Rule>,
    ctx: RateLimitKeyContext,
    names: Seq<Seq<char>>,
    n: nat,
)
    requires
        n <= names.len(),
    ensures
        engine::hits_of(live_rules(rules), ctx, names, n) == live_hits(
            rules,
            engine::hits_of(rules, ctx, names, n),
        ),
    decreases n,
{
    if n > 0 {
        let m = (n - 1) as nat;
        lemma_live_hits_of(rules, ctx, names, m);
        lemma_live_with_hits(
            engine::hits_of(rules, ctx, names, m),
            rules,
            ctx,
            names[m as int],
            rules.len(),
        );
        assert(rules.take(rules.len() as int) =~= rules);
    }
}

/// How many of the first `n` hits are of rules that are enforced.
spec fn live_count(rules: Seq<Rule>, hits: Seq<HitView>, n: int) -> nat {
    live_hits(rules, hits.take(n)).len()
}

/// A hit of an enforced rule stands at its place among those.
proof fn lemma_live_hit(rules: Seq<Rule>, hits: Seq<HitView>, n: int)
    requires
        0 <= n < hits.len(),
    ensures
        live_count(rules, hits, n + 1) == live_count(rules, hits, n) + if rules[hits[n].rule].dry_run {
            0nat
        } else {
            1
        },
        !rules[hits[n].rule].dry_run ==> live_count(rules, hits, n) < live_hits(rules, hits).len()
            && live_hits(rules, hits)[live_count(rules, hits, n) as int] == (HitView {
            rule: rank(rules, hits[n].rule) as int,
            key: hits[n].key,
        }),
{
    assert(hits.take(n + 1) =~= hits.take(n).push(hits[n]));
    lemma_live_hits_push(rules, hits.take(n), hits[n]);
    lemma_live_hits_extend(rules, hits, n + 1);
    if !rules[hits[n].rule].dry_run {
        assert(live_hits(rules, hits.take(n + 1))[live_count(rules, hits, n) as int] == (HitView {
            rule: rank(rules, hits[n].rule) as int,
            key: hits[n].key,
        }));
    }
}

proof fn lemma_live_hits_extend(rules: Seq<Rule>, hits: Seq<HitView>, n: int)
    requires
        0 <= n <= hits.len(),
    ensures
        live_hits(rules, hits.take(n)).len() <= live_hits(rules, hits).len(),
        forall|i: int|
            0 <= i < live_hits(rules, hits.take(n)).len() ==> #[trigger] live_hits(
                rules,
                hits.take(n),
            )[i] == live_hits(rules, hits)[i],
    decreases hits.len() - n,
{
    if n < hits.len() {
        lemma_live_hits_extend(rules, hits, n + 1);
        assert(hits.take(n + 1) =~= hits.take(n).push(hits[n]));
        lemma_live_hits_push(rules, hits.take(n), hits[n]);
        assert forall|i: int|
            0 <= i < live_hits(rules, hits.take(n)).len() implies #[trigger] live_hits(
            rules,
            hits.take(n),
        )[i] == live_hits(rules, hits)[i] by {
            assert(live_hits(rules, hits.take(n))[i] == live_hits(rules, hits.take(n + 1))[i]);
        }
    } else {
        assert(hits.take(n) =~= hits);
    }
}

/// Every hit among those of enforced rules comes from one.
proof fn lemma_live_hit_source(rules: Seq<Rule>, hits: Seq<HitView>, i: int) -> (n: int)
    requires
        0 <= i < live_hits(rules, hits).len(),
    ensures
        0 <= n < hits.len(),
        !rules[hits[n].rule].dry_run,
        live_hits(rules, hits)[i] == (HitView {
            rule: rank(rules, hits[n].rule) as int,
            key: hits[n].key,
        }),
    decreases hits.len(),
{
    let t = hits.drop_last();
    let before = live_hits(rules, t);
    if i < before.len() {
        let n = lemma_live_hit_source(rules, t, i);
        assert(t[n] == hits[n]);
        n
    } else {
        hits.len() - 1
    }
}

/// A rule that is not hit is not hit at its place among the enforced rules.
proof fn lemma_not_hit(rules: Seq<Rule>, hits: Seq<HitView>, j: int)
    requires
        engine::hits_are_distinct(hits, rules.len()),
        0 <= j < rules.len(),
        !rules[j].dry_run,
        forall|h: int| 0 <= h < hits.len() ==> (#[trigger] hits[h]).rule != j,
    ensures
        forall|i: int|
            0 <= i < live_hits(rules, hits).len() ==> (#[trigger] live_hits(rules, hits)[i]).rule
                != rank(rules, j),
{
    assert forall|i: int| 0 <= i < live_hits(rules, hits).len() implies (#[trigger] live_hits(
        rules,
        hits,
    )[i]).rule != rank(rules, j) by {
        let n = lemma_live_hit_source(rules, hits, i);
        let k = hits[n].rule;
        assert(k != j && 0 <= k < rules.len());
        if k < j {
            lemma_rank_grows(rules, k, j);
        } else {
            lemma_rank_grows(rules, j, k);
        }
    }
}

// ---------------------------------------------------------------------------
// Two engines
// ---------------------------------------------------------------------------

/// Whether the limiters of two engines are alike, as far as the rules are
/// enforced: each enforced rule's limiter is in the same state as the one at
/// the rule's place among the enforced rules.
pub open spec fn alike(rules: Seq<Rule>, all: Seq<Seq<Window>>, live: Seq<Seq<Window>>) -> bool {
    &&& all.len() == rules.len()
    &&& live.len() == live_rules(rules).len()
    &&& forall|j: int|
        0 <= j < rules.len() && !(#[trigger] rules[j]).dry_run ==> live[rank(rules, j) as int]
            == all[j]
}

/// An engine that was just compiled, and one that was compiled without the
/// dry-run policies, are alike.
pub proof fn law_compiled_engines_are_alike(policies: Seq<Policy>, cap: nat)
    ensures
        ({
            let rules = engine::rules_of(policies, policies.len());
            let live = engine::rules_of(live_policies(policies), live_policies(policies).len());
            alike(rules, engine::new_limiters(rules, cap), engine::new_limiters(live, cap))
        }),
{
    law_live_policies_give_the_live_rules(policies);
    let rules = engine::rules_of(policies, policies.len());
    let all = engine::new_limiters(rules, cap);
    let live = engine::new_limiters(live_rules(rules), cap);
    assert forall|j: int| 0 <= j < rules.len() && !(#[trigger] rules[j]).dry_run implies live[rank(
        rules,
        j,
    ) as int] == all[j] by {
        lemma_rank(rules, j);
    }
}

proof fn lemma_outcomes(
    rules: Seq<Rule>,
    hits: Seq<HitView>,
    outs: Seq<GcraOutcome>,
    live_outs: Seq<GcraOutcome>,
    now_epoch_s: u64,
    n: nat,
)
    requires
        n <= hits.len(),
        outs.len() == hits.len(),
        live_outs.len() == live_hits(rules, hits).len(),
        engine::hits_are_distinct(hits, rules.len()),
        forall|h: int|
            0 <= h < hits.len() && !rules[(#[trigger] hits[h]).rule].dry_run ==> live_outs[live_count(
                rules,
                hits,
                h,
            ) as int] == outs[h],
    ensures
        ({
            let all = engine::rule_outcomes(rules, hits, outs, now_epoch_s);
            let live = engine::rule_outcomes(
                live_rules(rules),
                live_hits(rules, hits),
                live_outs,
                now_epoch_s,
            );
            &&& live_count(rules, hits, n as int) <= live.len()
            &&& engine::enforced(all, n) == live.take(live_count(rules, hits, n as int) as int)
        }),
    decreases n,
{
    let all = engine::rule_outcomes(rules, hits, outs, now_epoch_s);
    let live = engine::rule_outcomes(
        live_rules(rules),
        live_hits(rules, hits),
        live_outs,
        now_epoch_s,
    );
    if n == 0 {
        assert(hits.take(0) =~= seq![]);
        assert(live.take(0) =~= seq![]);
    } else {
        let m = (n - 1) as nat;
        lemma_outcomes(rules, hits, outs, live_outs, now_epoch_s, m);
        lemma_live_hit(rules, hits, m as int);
        let c = live_count(rules, hits, m as int) as int;
        assert(0 <= hits[m as int].rule < rules.len());
        if !rules[hits[m as int].rule].dry_run {
            lemma_rank(rules, hits[m as int].rule);
            assert(live[c] == all[m as int]);
            assert(live.take(c + 1) =~= live.take(c).push(live[c]));
        }
    }
}

/// A dry-run policy never changes what is enforced: of two engines with one
/// seed whose buckets are alike, one compiled from some policies and one from
/// those of them that are not dry-run, the same request gets the same outcome
/// at the same time, and their buckets are alike afterwards.
pub proof fn law_dry_run_policies_change_nothing(
    policies: Seq<Policy>,
    seed: RandomState,
    c: Call,
    all: Seq<Seq<Window>>,
    r: RateLimitEvaluation,
    all_after: Seq<Seq<Window>>,
    live: Seq<Seq<Window>>,
    live_r: RateLimitEvaluation,
    live_after: Seq<Seq<Window>>,
)
    requires
        ({
            let rules = engine::rules_of(policies, policies.len());
            let few = engine::rules_of(live_policies(policies), live_policies(policies).len());
            &&& alike(rules, all, live)
            &&& engine::is_evaluation(rules, seed, all, c, r, all_after)
            &&& engine::is_evaluation(few, seed, live, c, live_r, live_after)
        }),
    ensures
        r.outcome == live_r.outcome,
        alike(engine::rules_of(policies, policies.len()), all_after, live_after),
{
    let rules = engine::rules_of(policies, policies.len());
    let hits = engine::call_hits(rules, c);
    law_live_policies_give_the_live_rules(policies);
    lemma_live_hits_of(rules, c.ctx, c.names, c.names.len());
    engine::law_no_rule_is_asked_twice(rules, c.ctx, c.names);
    let outs = choose|outs: Seq<GcraOutcome>| #[trigger]
        engine::is_answered(rules, seed, all, c, outs, r, all_after);
    let live_outs = choose|outs: Seq<GcraOutcome>| #[trigger]
        engine::is_answered(live_rules(rules), seed, live, c, outs, live_r, live_after);
    let few = live_rules(rules);
    let few_hits = live_hits(rules, hits);
    assert forall|h: int|
        0 <= h < hits.len() && !rules[(#[trigger] hits[h]).rule].dry_run implies live_outs[live_count(
        rules,
        hits,
        h,
    ) as int] == outs[h] && live_after[rank(rules, hits[h].rule) as int]
        == all_after[hits[h].rule] by {
        lemma_same_answer(
            rules,
            hits,
            seed,
            c,
            all,
            outs,
            all_after,
            live,
            live_outs,
            live_after,
            h,
        );
    }
    lemma_outcomes(rules, hits, outs, live_outs, c.now_epoch_s, hits.len());
    let v = engine::rule_outcomes(rules, hits, outs, c.now_epoch_s);
    let w = engine::rule_outcomes(few, few_hits, live_outs, c.now_epoch_s);
    assert(hits.take(hits.len() as int) =~= hits);
    assert(w.take(w.len() as int) =~= w);
    engine::law_dry_run_never_changes_the_outcome(v);
    assert forall|j: int|
        0 <= j < rules.len() && !(#[trigger] rules[j]).dry_run implies live_after[rank(
        rules,
        j,
    ) as int] == all_after[j] by {
        lemma_rank(rules, j);
        if exists|h: int| 0 <= h < hits.len() && (#[trigger] hits[h]).rule == j {
            let h = choose|h: int| 0 <= h < hits.len() && (#[trigger] hits[h]).rule == j;
            assert(!rules[hits[h].rule].dry_run);
        } else {
            assert(all_after[j] == all[j]);
            lemma_not_hit(rules, hits, j);
            assert(live_after[rank(rules, j) as int] == live[rank(rules, j) as int]);
        }
    }
}

proof fn lemma_same_answer(
    rules: Seq<Rule>,
    hits: Seq<HitView>,
    seed: RandomState,
    c: Call,
    all: Seq<Seq<Window>>,
    outs: Seq<GcraOutcome>,
    all_after: Seq<Seq<Window>>,
    live: Seq<Seq<Window>>,
    live_outs: Seq<GcraOutcome>,
    live_after: Seq<Seq<Window>>,
    h: int,
)
    requires
        engine::hits_are_distinct(hits, rules.len()),
        alike(rules, all, live),
        outs.len() == hits.len(),
        engine::is_run(
            all,
            hits,
            engine::hashes_of(seed, hits),
            c.now_ns,
            c.now_ms,
            outs,
            all_after,
        ),
        live_outs.len() == live_hits(rules, hits).len(),
        engine::is_run(
            live,
            live_hits(rules, hits),
            engine::hashes_of(seed, live_hits(rules, hits)),
            c.now_ns,
            c.now_ms,
            live_outs,
            live_after,
        ),
        0 <= h < hits.len(),
        !rules[hits[h].rule].dry_run,
    ensures
        live_outs[live_count(rules, hits, h) as int] == outs[h],
        live_after[rank(rules, hits[h].rule) as int] == all_after[hits[h].rule],
{
    let few_hits = live_hits(rules, hits);
    let i = live_count(rules, hits, h) as int;
    let j = hits[h].rule;
    lemma_live_hit(rules, hits, h);
    assert(few_hits[i] == HitView { rule: rank(rules, j) as int, key: hits[h].key });
    let hash = engine::key_hash(seed, hits[h].key);
    assert(engine::hashes_of(seed, hits)[h] == hash);
    assert(engine::hashes_of(seed, few_hits)[i] == hash);
    assert(rules[j] == rules[j]);
    assert(live[rank(rules, j) as int] == all[j]);
    law_answers_are_determined(
        all[j],
        limiter::ask_of(hits[h].key, 1, hash, c.now_ns, c.now_ms),
        outs[h],
        all_after[j],
        live_outs[i],
        live_after[rank(rules, j) as int],
    );
}

// ---------------------------------------------------------------------------
// The report
// ---------------------------------------------------------------------------

/// Whether an outcome is a denial of a dry-run rule.
pub open spec fn is_dry_denial(o: RuleOutcome) -> bool {
    o.dry_run && o.outcome is Denied
}

/// Whether `d` is the report on the dry-run denials among the first `n`
/// outcomes, of which the one at `first` is the first and the one at `longest`
/// demands the longest wait.
pub open spec fn is_report(
    v: Seq<RuleOutcome>,
    n: nat,
    d: RateLimitOutcome,
    first: int,
    longest: int,
) -> bool {
    &&& 0 <= first < n
    &&& 0 <= longest < n
    &&& is_dry_denial(v[first])
    &&& is_dry_denial(v[longest])
    &&& forall|j: int| 0 <= j < first ==> !is_dry_denial(#[trigger] v[j])
    &&& forall|j: int|
        0 <= j < n && is_dry_denial(#[trigger] v[j]) ==> engine::wait_of(v[j].outcome)
            <= engine::wait_of(v[longest].outcome)
    &&& d is Denied
    &&& d->Denied_limit == v[first].outcome->Denied_limit
    &&& d->Denied_remaining == v[first].outcome->Denied_remaining
    &&& engine::wait_of(d) == engine::wait_of(v[longest].outcome)
}

/// Whether `d` is the report on the dry-run denials among the first `n`
/// outcomes: the limit and the remaining budget of the first of them, and the
/// longest wait of all.
pub open spec fn reports_denials(v: Seq<RuleOutcome>, n: nat, d: RateLimitOutcome) -> bool {
    exists|first: int, longest: int| #[trigger] is_report(v, n, d, first, longest)
}

proof fn lemma_report(v: Seq<RuleOutcome>, n: nat)
    requires
        n <= v.len(),
    ensures
        match engine::combined_of(v, n).dry_denied {
            Some(d) => reports_denials(v, n, d),
            None => forall|j: int| 0 <= j < n ==> !is_dry_denial(#[trigger] v[j]),
        },
    decreases n,
{
    if n > 0 {
        let m = (n - 1) as nat;
        lemma_report(v, m);
        let x = v[m as int];
        let c = engine::combined_of(v, m).dry_denied;
        let e = engine::combined_of(v, n).dry_denied;
        assert(e == if is_dry_denial(x) {
            engine::stretched(c, x.outcome)
        } else {
            c
        });
        if let Some(d) = c {
            let (i, k) = choose|i: int, k: int| #[trigger] is_report(v, m, d, i, k);
            let longest = if is_dry_denial(x) && engine::wait_of(x.outcome) > engine::wait_of(d) {
                m as int
            } else {
                k
            };
            assert(is_report(v, n, e->0, i, longest));
        } else if is_dry_denial(x) {
            assert(is_report(v, n, x.outcome, m as int, m as int));
        }
    }
}

/// A denial is reported exactly if a dry-run rule denied the request, with the
/// limit and the remaining budget of the first such rule and the longest wait
/// of all of them.
pub proof fn law_dry_denials_are_reported(v: Seq<RuleOutcome>)
    ensures
        engine::evaluation_of(v).dry_denied is Some <==> exists|i: int|
            0 <= i < v.len() && is_dry_denial(#[trigger] v[i]),
        engine::evaluation_of(v).dry_denied matches Some(d) ==> reports_denials(v, v.len(), d),
{
    lemma_report(v, v.len());
}

} // verus!
