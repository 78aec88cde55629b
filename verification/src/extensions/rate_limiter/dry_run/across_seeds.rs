//! Engines with different seeds.
//!
//! A seed only picks the shards of keys. As long as no shard is full enough
//! to be swept, nothing that is decided depends on it.

use vstd::prelude::*;

use std::hash::RandomState;

use crate::extensions::rate_limiter::dry_run;
use crate::extensions::rate_limiter::dry_run::{
    lemma_live_hit, lemma_live_hits_of, lemma_not_hit, lemma_outcomes, lemma_rank, live_count,
    live_hits, live_policies, live_rules, rank,
};
use crate::extensions::rate_limiter::engine;
use crate::extensions::rate_limiter::engine::{Call, HitView, Policy, RateLimitEvaluation, Rule};
use crate::extensions::rate_limiter::gcra;
use crate::extensions::rate_limiter::gcra::{GcraOutcome, Verdict};
use crate::extensions::rate_limiter::key_rate::shard_of;
use crate::extensions::rate_limiter::limiter;
use crate::extensions::rate_limiter::limiter::{Ask, Window};
use crate::extensions::rate_limiter::shard::GcraCell;

verus! {

/// The arrival time of a key in a window, unless it is fresh.
pub open spec fn known_arrival(w: Window, seed: RandomState, key: Seq<char>) -> Option<u128> {
    limiter::arrival(w.shards[shard_of(engine::key_hash(seed, key))], key)
}

/// Whether two windows are the same bucket for every key, wherever its cell
/// stands.
pub open spec fn same_buckets(w: Window, seed: RandomState, u: Window, other: RandomState) -> bool {
    &&& w.t == u.t
    &&& w.burst == u.burst
    &&& w.full_refill_ms == u.full_refill_ms
    &&& forall|key: Seq<char>| #[trigger]
        known_arrival(w, seed, key) == known_arrival(u, other, key)
}

/// Whether stacked windows are the same buckets.
pub open spec fn same_stack(
    ws: Seq<Window>,
    seed: RandomState,
    us: Seq<Window>,
    other: RandomState,
) -> bool {
    &&& ws.len() == us.len()
    &&& forall|x: int| 0 <= x < ws.len() ==> same_buckets(#[trigger] ws[x], seed, us[x], other)
}

/// Whether no shard of a window has reached its cap.
pub open spec fn has_room(w: Window) -> bool {
    &&& w.shards.len() == gcra::GCRA_STORE_SHARDS
    &&& forall|i: int| 0 <= i < w.shards.len() ==> (#[trigger] w.shards[i]).dom().len() < w.cap
}

/// Whether no shard of stacked windows has reached its cap.
pub open spec fn stack_has_room(ws: Seq<Window>) -> bool {
    forall|x: int| 0 <= x < ws.len() ==> has_room(#[trigger] ws[x])
}

/// Whether no shard of any limiter has reached its cap.
pub open spec fn all_have_room(limiters: Seq<Seq<Window>>) -> bool {
    forall|j: int| 0 <= j < limiters.len() ==> stack_has_room(#[trigger] limiters[j])
}

proof fn lemma_touched_arrival(
    m: Map<Seq<char>, GcraCell>,
    key: Seq<char>,
    v: Verdict,
    now_ms: u64,
    k: Seq<char>,
)
    ensures
        limiter::arrival(limiter::touched(m, key, v, now_ms), k) == match v {
            Verdict::Allowed(next) => if k != key {
                limiter::arrival(m, k)
            } else if next != 0 {
                Some(next)
            } else {
                None
            },
            _ => limiter::arrival(m, k),
        },
{
}

/// What a request makes of the arrival times of keys in a window with room.
proof fn lemma_roomy_step(w: Window, seed: RandomState, a: Ask, v: Verdict, after: Window, k: Seq<char>)
    requires
        has_room(w),
        a.hash == engine::key_hash(seed, a.key),
        limiter::is_step(w, a, v, after),
    ensures
        after.t == w.t,
        after.burst == w.burst,
        after.full_refill_ms == w.full_refill_ms,
        v == if a.cost > w.burst {
            Verdict::TooLarge
        } else {
            gcra::verdict(w.t, w.burst, known_arrival(w, seed, a.key), a.cost, a.now_ns as int)
        },
        known_arrival(after, seed, k) == match v {
            Verdict::Allowed(next) => if k != a.key {
                known_arrival(w, seed, k)
            } else if next != 0 {
                Some(next)
            } else {
                None
            },
            _ => known_arrival(w, seed, k),
        },
{
    if a.cost <= w.burst {
        let h = shard_of(a.hash);
        let m = w.shards[h];
        assert(m.dom().len() < w.cap);
        assert(after.shards == w.shards.update(h, limiter::touched(m, a.key, v, a.now_ms)));
        lemma_touched_arrival(m, a.key, v, a.now_ms, k);
        let s = shard_of(engine::key_hash(seed, k));
        if s == h {
            assert(after.shards[s] == limiter::touched(m, a.key, v, a.now_ms));
        } else {
            assert(after.shards[s] == w.shards[s]);
        }
    }
}

/// A request to another engine: the same but for the hash of its key.
spec fn rehashed(a: Ask, other: RandomState) -> Ask {
    Ask { hash: engine::key_hash(other, a.key), ..a }
}

proof fn lemma_same_step(
    w: Window,
    seed: RandomState,
    a: Ask,
    v: Verdict,
    after: Window,
    u: Window,
    other: RandomState,
    z: Verdict,
    u_after: Window,
)
    requires
        has_room(w),
        has_room(u),
        same_buckets(w, seed, u, other),
        a.hash == engine::key_hash(seed, a.key),
        limiter::is_step(w, a, v, after),
        limiter::is_step(u, rehashed(a, other), z, u_after),
    ensures
        v == z,
        same_buckets(after, seed, u_after, other),
{
    let b = rehashed(a, other);
    assert(known_arrival(w, seed, a.key) == known_arrival(u, other, a.key));
    lemma_roomy_step(w, seed, a, v, after, a.key);
    lemma_roomy_step(u, other, b, z, u_after, a.key);
    assert forall|k: Seq<char>| #[trigger]
        known_arrival(after, seed, k) == known_arrival(u_after, other, k) by {
        assert(known_arrival(w, seed, k) == known_arrival(u, other, k));
        lemma_roomy_step(w, seed, a, v, after, k);
        lemma_roomy_step(u, other, b, z, u_after, k);
    }
}

proof fn lemma_same_stacked_step(
    ws: Seq<Window>,
    seed: RandomState,
    a: Ask,
    vs: Seq<Verdict>,
    after: Seq<Window>,
    us: Seq<Window>,
    other: RandomState,
    zs: Seq<Verdict>,
    us_after: Seq<Window>,
)
    requires
        stack_has_room(ws),
        stack_has_room(us),
        same_stack(ws, seed, us, other),
        a.hash == engine::key_hash(seed, a.key),
        limiter::is_stacked_step(ws, a, vs, after),
        limiter::is_stacked_step(us, rehashed(a, other), zs, us_after),
    ensures
        vs == zs,
        same_stack(after, seed, us_after, other),
{
    assert forall|x: int| 0 <= x < vs.len() && x < zs.len() implies #[trigger] vs[x] == zs[x]
        && same_buckets(after[x], seed, us_after[x], other) by {
        assert(has_room(ws[x]) && has_room(us[x]));
        assert(same_buckets(ws[x], seed, us[x], other));
        assert(zs[x] == zs[x]);
        lemma_same_step(
            ws[x],
            seed,
            a,
            vs[x],
            after[x],
            us[x],
            other,
            zs[x],
            us_after[x],
        );
    }
    if vs.len() < zs.len() {
        assert(vs[vs.len() - 1] == zs[vs.len() - 1]);
        assert(false);
    }
    if zs.len() < vs.len() {
        assert(vs[zs.len() - 1] == zs[zs.len() - 1]);
        assert(false);
    }
    assert(vs =~= zs);
    assert forall|x: int| 0 <= x < after.len() implies same_buckets(
        #[trigger] after[x],
        seed,
        us_after[x],
        other,
    ) by {
        if x < vs.len() {
            assert(vs[x] == zs[x]);
        } else {
            assert(after[x] == ws[x] && us_after[x] == us[x]);
            assert(same_buckets(ws[x], seed, us[x], other));
        }
    }
}

/// The seed of an engine does not show: limiters that are the same buckets
/// and have room give the same answer to a request, and are the same buckets
/// afterwards.
pub proof fn law_seed_does_not_show(
    ws: Seq<Window>,
    seed: RandomState,
    us: Seq<Window>,
    other: RandomState,
    key: Seq<char>,
    now_ns: u64,
    now_ms: u64,
    o1: GcraOutcome,
    after: Seq<Window>,
    o2: GcraOutcome,
    us_after: Seq<Window>,
)
    requires
        ws.len() > 0,
        stack_has_room(ws),
        stack_has_room(us),
        same_stack(ws, seed, us, other),
        engine::limiter_answers(
            ws,
            limiter::ask_of(key, 1, engine::key_hash(seed, key), now_ns, now_ms),
            o1,
            after,
        ),
        engine::limiter_answers(
            us,
            limiter::ask_of(key, 1, engine::key_hash(other, key), now_ns, now_ms),
            o2,
            us_after,
        ),
    ensures
        o1 == o2,
        same_stack(after, seed, us_after, other),
{
    let a = limiter::ask_of(key, 1, engine::key_hash(seed, key), now_ns, now_ms);
    let b = limiter::ask_of(key, 1, engine::key_hash(other, key), now_ns, now_ms);
    assert(b == rehashed(a, other));
    let vs = choose|vs: Seq<Verdict>|
        #[trigger] limiter::is_stacked_step(ws, a, vs, after) && limiter::is_outcome(
            ws,
            a,
            vs,
            o1,
        );
    let zs = choose|zs: Seq<Verdict>|
        #[trigger] limiter::is_stacked_step(us, b, zs, us_after) && limiter::is_outcome(
            us,
            b,
            zs,
            o2,
        );
    lemma_same_stacked_step(ws, seed, a, vs, after, us, other, zs, us_after);
    assert forall|x: int| 0 <= x < vs.len() implies limiter::left_in(ws[x], a, #[trigger] vs[x])
        == limiter::left_in(us[x], b, vs[x]) by {
        assert(same_buckets(ws[x], seed, us[x], other));
    }
    assert(same_buckets(ws[vs.len() - 1], seed, us[vs.len() - 1], other));
    if vs.last() is Allowed {
        let p = choose|p: int|
            {
                &&& #[trigger] limiter::is_tightest(ws, a, vs, p)
                &&& o1 == outcome_at(ws, a, vs, p)
            };
        let q = choose|q: int|
            {
                &&& #[trigger] limiter::is_tightest(us, b, vs, q)
                &&& o2 == outcome_at(us, b, vs, q)
            };
        assert(vs[p] == vs[p] && vs[q] == vs[q]);
        assert(p == q);
        assert(same_buckets(ws[p], seed, us[p], other));
    }
}

/// The outcome that names the window at `b`.
spec fn outcome_at(ws: Seq<Window>, a: Ask, vs: Seq<Verdict>, b: int) -> GcraOutcome {
    GcraOutcome {
        decision: gcra::RateDecision {
            allowed: true,
            remaining: limiter::left_in(ws[b], a, vs[b]) as u64,
            retry_after_ms: None,
        },
        limit: ws[b].burst as u32,
        refill_ms: limiter::as_millis(ws[b].t * ws[b].burst),
    }
}

// ---------------------------------------------------------------------------
// Two engines
// ---------------------------------------------------------------------------

/// Whether the limiters of two engines are the same buckets, as far as the
/// rules are enforced.
pub open spec fn alike_across(
    rules: Seq<Rule>,
    seed: RandomState,
    all: Seq<Seq<Window>>,
    other: RandomState,
    live: Seq<Seq<Window>>,
) -> bool {
    &&& all.len() == rules.len()
    &&& live.len() == live_rules(rules).len()
    &&& forall|j: int|
        0 <= j < rules.len() && !(#[trigger] rules[j]).dry_run ==> same_stack(
            all[j],
            seed,
            live[rank(rules, j) as int],
            other,
        )
}

/// An engine that was just compiled, and one that was compiled without the
/// dry-run policies, are the same buckets whatever their seeds, and have room
/// if the cap is not zero.
pub proof fn law_compiled_engines_are_alike_across_seeds(
    policies: Seq<Policy>,
    cap: nat,
    seed: RandomState,
    other: RandomState,
)
    ensures
        ({
            let rules = engine::rules_of(policies, policies.len());
            let few = engine::rules_of(live_policies(policies), live_policies(policies).len());
            let all = engine::new_limiters(rules, cap);
            let live = engine::new_limiters(few, cap);
            &&& alike_across(rules, seed, all, other, live)
            &&& cap > 0 ==> all_have_room(all) && all_have_room(live)
        }),
{
    let rules = engine::rules_of(policies, policies.len());
    let few = engine::rules_of(live_policies(policies), live_policies(policies).len());
    let all = engine::new_limiters(rules, cap);
    let live = engine::new_limiters(few, cap);
    dry_run::law_compiled_engines_are_alike(policies, cap);
    assert forall|j: int| 0 <= j < rules.len() && !(#[trigger] rules[j]).dry_run implies same_stack(
        all[j],
        seed,
        live[rank(rules, j) as int],
        other,
    ) by {
        lemma_new_windows(rules[j].windows, cap, seed, other);
    }
    if cap > 0 {
        assert forall|j: int| 0 <= j < all.len() implies stack_has_room(#[trigger] all[j]) by {
            lemma_new_windows(rules[j].windows, cap, seed, other);
        }
        assert forall|j: int| 0 <= j < live.len() implies stack_has_room(#[trigger] live[j]) by {
            lemma_new_windows(few[j].windows, cap, seed, other);
        }
    }
}

proof fn lemma_new_windows(
    specs: Seq<gcra::WindowSpec>,
    cap: nat,
    seed: RandomState,
    other: RandomState,
)
    ensures
        same_stack(
            limiter::new_windows(specs, cap),
            seed,
            limiter::new_windows(specs, cap),
            other,
        ),
        cap > 0 ==> stack_has_room(limiter::new_windows(specs, cap)),
{
    let ws = limiter::new_windows(specs, cap);
    assert forall|x: int| 0 <= x < ws.len() implies same_buckets(
        #[trigger] ws[x],
        seed,
        ws[x],
        other,
    ) by {
        assert forall|key: Seq<char>| #[trigger]
            known_arrival(ws[x], seed, key) == known_arrival(ws[x], other, key) by {
            let h = shard_of(engine::key_hash(seed, key));
            let i = shard_of(engine::key_hash(other, key));
            assert(ws[x].shards[h] == Map::<Seq<char>, GcraCell>::empty());
            assert(ws[x].shards[i] == Map::<Seq<char>, GcraCell>::empty());
        }
    }
    if cap > 0 {
        assert forall|x: int| 0 <= x < ws.len() implies has_room(#[trigger] ws[x]) by {
            assert(Map::<Seq<char>, GcraCell>::empty().dom() =~= Set::<Seq<char>>::empty());
        }
    }
}

proof fn lemma_same_answer_across(
    rules: Seq<Rule>,
    hits: Seq<HitView>,
    c: Call,
    seed: RandomState,
    all: Seq<Seq<Window>>,
    outs: Seq<GcraOutcome>,
    all_after: Seq<Seq<Window>>,
    other: RandomState,
    live: Seq<Seq<Window>>,
    live_outs: Seq<GcraOutcome>,
    live_after: Seq<Seq<Window>>,
    h: int,
)
    requires
        engine::hits_are_distinct(hits, rules.len()),
        engine::is_engine(rules, all),
        alike_across(rules, seed, all, other, live),
        all_have_room(all),
        all_have_room(live),
        outs.len() == hits.len(),
        engine::is_run(
            all,
            hits,
            engine::hashes_of(seed, hits),
            c.now_ns,
            c.now_ms,
            outs,
            all_after,
        ),
        live_outs.len() == live_hits(rules, hits).len(),
        engine::is_run(
            live,
            live_hits(rules, hits),
            engine::hashes_of(other, live_hits(rules, hits)),
            c.now_ns,
            c.now_ms,
            live_outs,
            live_after,
        ),
        0 <= h < hits.len(),
        !rules[hits[h].rule].dry_run,
    ensures
        live_outs[live_count(rules, hits, h) as int] == outs[h],
        same_stack(
            all_after[hits[h].rule],
            seed,
            live_after[rank(rules, hits[h].rule) as int],
            other,
        ),
{
    let few_hits = live_hits(rules, hits);
    let i = live_count(rules, hits, h) as int;
    let j = hits[h].rule;
    let k = rank(rules, j) as int;
    lemma_live_hit(rules, hits, h);
    lemma_rank(rules, j);
    assert(few_hits[i] == HitView { rule: k, key: hits[h].key });
    assert(engine::hashes_of(seed, hits)[h] == engine::key_hash(seed, hits[h].key));
    assert(engine::hashes_of(other, few_hits)[i] == engine::key_hash(other, hits[h].key));
    assert(rules[j] == rules[j]);
    assert(limiter::is_limiter(all[j]));
    assert(stack_has_room(all[j]) && stack_has_room(live[k]));
    law_seed_does_not_show(
        all[j],
        seed,
        live[k],
        other,
        hits[h].key,
        c.now_ns,
        c.now_ms,
        outs[h],
        all_after[j],
        live_outs[i],
        live_after[k],
    );
}

/// A dry-run policy never changes what is enforced, whatever the seeds: of two
/// engines that are the same buckets, one compiled from some policies and one
/// from those of them that are not dry-run, the same request gets the same
/// outcome at the same time, and they are the same buckets afterwards, as long
/// as no shard has reached its cap.
pub proof fn law_dry_run_policies_change_nothing_across_seeds(
    policies: Seq<Policy>,
    c: Call,
    seed: RandomState,
    all: Seq<Seq<Window>>,
    r: RateLimitEvaluation,
    all_after: Seq<Seq<Window>>,
    other: RandomState,
    live: Seq<Seq<Window>>,
    live_r: RateLimitEvaluation,
    live_after: Seq<Seq<Window>>,
)
    requires
        ({
            let rules = engine::rules_of(policies, policies.len());
            let few = engine::rules_of(live_policies(policies), live_policies(policies).len());
            &&& engine::is_engine(rules, all)
            &&& alike_across(rules, seed, all, other, live)
            &&& all_have_room(all)
            &&& all_have_room(live)
            &&& engine::is_evaluation(rules, seed, all, c, r, all_after)
            &&& engine::is_evaluation(few, other, live, c, live_r, live_after)
        }),
    ensures
        r.outcome == live_r.outcome,
        alike_across(
            engine::rules_of(policies, policies.len()),
            seed,
            all_after,
            other,
            live_after,
        ),
{
    let rules = engine::rules_of(policies, policies.len());
    let hits = engine::call_hits(rules, c);
    dry_run::law_live_policies_give_the_live_rules(policies);
    lemma_live_hits_of(rules, c.ctx, c.names, c.names.len());
    engine::law_no_rule_is_asked_twice(rules, c.ctx, c.names);
    let few = live_rules(rules);
    let few_hits = live_hits(rules, hits);
    let outs = choose|outs: Seq<GcraOutcome>| #[trigger]
        engine::is_answered(rules, seed, all, c, outs, r, all_after);
    let live_outs = choose|outs: Seq<GcraOutcome>| #[trigger]
        engine::is_answered(few, other, live, c, outs, live_r, live_after);
    assert forall|h: int|
        0 <= h < hits.len() && !rules[(#[trigger] hits[h]).rule].dry_run implies live_outs[live_count(
        rules,
        hits,
        h,
    ) as int] == outs[h] && same_stack(
        all_after[hits[h].rule],
        seed,
        live_after[rank(rules, hits[h].rule) as int],
        other,
    ) by {
        lemma_same_answer_across(
            rules,
            hits,
            c,
            seed,
            all,
            outs,
            all_after,
            other,
            live,
            live_outs,
            live_after,
            h,
        );
    }
    lemma_outcomes(rules, hits, outs, live_outs, c.now_epoch_s, hits.len());
    let v = engine::rule_outcomes(rules, hits, outs, c.now_epoch_s);
    let w = engine::rule_outcomes(few, few_hits, live_outs, c.now_epoch_s);
    assert(hits.take(hits.len() as int) =~= hits);
    assert(w.take(w.len() as int) =~= w);
    engine::law_dry_run_never_changes_the_outcome(v);
    assert forall|j: int| 0 <= j < rules.len() && !(#[trigger] rules[j]).dry_run implies same_stack(
        all_after[j],
        seed,
        live_after[rank(rules, j) as int],
        other,
    ) by {
        lemma_rank(rules, j);
        if exists|h: int| 0 <= h < hits.len() && (#[trigger] hits[h]).rule == j {
            let h = choose|h: int| 0 <= h < hits.len() && (#[trigger] hits[h]).rule == j;
            assert(!rules[hits[h].rule].dry_run);
        } else {
            assert(all_after[j] == all[j]);
            lemma_not_hit(rules, hits, j);
            assert(live_after[rank(rules, j) as int] == live[rank(rules, j) as int]);
        }
    }
}

} // verus!
