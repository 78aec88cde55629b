//! What one key is allowed over time, whatever else is asked in between.

use vstd::prelude::*;

use std::hash::RandomState;

use crate::extensions::rate_limiter::engine;
use crate::extensions::rate_limiter::engine::{Call, HitView, RateLimitEvaluation, Rule};
use crate::extensions::rate_limiter::gcra;
use crate::extensions::rate_limiter::gcra::{GcraOutcome, Verdict};
use crate::extensions::rate_limiter::limiter;
use crate::extensions::rate_limiter::limiter::{Ask, Window};
use crate::extensions::rate_limiter::shard;
use crate::extensions::rate_limiter::shard::GcraCell;

verus! {

/// The shard that a hash picks.
pub open spec fn shard_of(hash: u64) -> int {
    (hash % 16) as int
}

/// Whether a sweep of a shard, if there is one at a time, leaves the cell of
/// a key where it is.
pub open spec fn keeps_cell(w: Window, h: int, key: Seq<char>, now_ms: u64) -> bool {
    forall|m: Map<Seq<char>, GcraCell>| #[trigger]
        shard::is_swept(w.shards[h], m, now_ms, w.full_refill_ms, w.cap)
            && w.shards[h].dom().contains(key) ==> m.dom().contains(key)
}

/// No cell is dropped from a shard that has not reached its cap.
pub proof fn law_room_keeps_cells(w: Window, h: int, key: Seq<char>, now_ms: u64)
    requires
        w.shards[h].dom().len() < w.cap,
    ensures
        keeps_cell(w, h, key, now_ms),
{
}

/// Whether a window has taken account of units that were allowed to a key
/// from a time on, as of a later time: the arrival time of the key has moved
/// on by as much, and is no further ahead than the bucket holds.
spec fn accounts_for(
    w: Window,
    h: int,
    key: Seq<char>,
    units: int,
    start: int,
    now: int,
) -> bool {
    &&& units >= 0
    &&& units > 0 ==> {
        &&& limiter::arrival(w.shards[h], key) matches Some(x)
        &&& w.t * units <= x - start
        &&& x <= now + w.t * w.burst
    }
}

proof fn lemma_fewer_units(
    w: Window,
    h: int,
    key: Seq<char>,
    units: int,
    fewer: int,
    start: int,
    now: int,
    later: int,
)
    requires
        gcra::is_bucket(w.t, w.burst),
        accounts_for(w, h, key, units, start, now),
        0 <= fewer <= units,
        now <= later,
    ensures
        accounts_for(w, h, key, fewer, start, later),
{
    assert(w.t * fewer <= w.t * units) by (nonlinear_arith)
        requires
            fewer <= units,
            w.t >= 1,
    ;
}

/// The units that a verdict on a request allows to a key.
pub open spec fn units_of(a: Ask, v: Verdict, key: Seq<char>) -> int {
    if a.key == key && v is Allowed {
        a.cost
    } else {
        0
    }
}

proof fn lemma_step(
    w: Window,
    a: Ask,
    v: Verdict,
    after: Window,
    h: int,
    key: Seq<char>,
    units: int,
    start: int,
    now: int,
)
    requires
        limiter::is_window(w),
        limiter::is_step(w, a, v, after),
        a.cost >= 1,
        0 <= h < gcra::GCRA_STORE_SHARDS,
        a.key == key ==> shard_of(a.hash) == h,
        keeps_cell(w, h, key, a.now_ms),
        0 <= start <= a.now_ns,
        now <= a.now_ns,
        accounts_for(w, h, key, units, start, now),
    ensures
        after.t == w.t,
        after.burst == w.burst,
        accounts_for(after, h, key, units + units_of(a, v, key), start, a.now_ns as int),
{
    if a.cost <= w.burst {
        let s = shard_of(a.hash);
        let m = choose|m: Map<Seq<char>, GcraCell>|
            {
                &&& #[trigger] shard::is_swept(w.shards[s], m, a.now_ms, w.full_refill_ms, w.cap)
                &&& v == gcra::verdict(
                    w.t,
                    w.burst,
                    limiter::arrival(m, a.key),
                    a.cost,
                    a.now_ns as int,
                )
                &&& after == (Window {
                    shards: w.shards.update(s, limiter::touched(m, a.key, v, a.now_ms)),
                    evictions: ((w.evictions + w.shards[s].dom().len() - m.dom().len())
                        % 0x1_0000_0000_0000_0000) as u64,
                    ..w
                })
            };
        if s == h {
            assert(m.dom().contains(key) == w.shards[h].dom().contains(key));
            assert(limiter::arrival(m, key) == limiter::arrival(w.shards[h], key));
            assert(after.shards[h] == limiter::touched(m, a.key, v, a.now_ms));
        } else {
            assert(after.shards[h] == w.shards[h]);
        }
        if a.key == key && v is Allowed {
            gcra::lemma_bucket_bounds(w.t, w.burst, a.cost);
            gcra::lemma_bucket_bounds(w.t, w.burst, w.burst);
            assert(w.t * (units + a.cost) == w.t * units + w.t * a.cost) by (nonlinear_arith);
            assert(units == 0 ==> w.t * units == 0) by (nonlinear_arith);
            if let Some(x) = limiter::arrival(w.shards[h], key) {
                assert(w.shards[h].dom().contains(key));
            }
        }
    }
}

// ---------------------------------------------------------------------------
// A window
// ---------------------------------------------------------------------------

/// Whether a window goes through states as it gives verdicts on requests.
pub open spec fn is_window_run(ws: Seq<Window>, asks: Seq<Ask>, vs: Seq<Verdict>) -> bool {
    &&& ws.len() == asks.len() + 1
    &&& vs.len() == asks.len()
    &&& forall|i: int|
        0 <= i < asks.len() ==> limiter::is_window(ws[i]) && limiter::is_step(
            ws[i],
            #[trigger] asks[i],
            vs[i],
            ws[i + 1],
        )
}

/// The units that the first `n` verdicts allow to a key.
pub open spec fn units_allowed(asks: Seq<Ask>, vs: Seq<Verdict>, key: Seq<char>, n: nat) -> int
    decreases n,
{
    if n == 0 {
        0
    } else {
        units_allowed(asks, vs, key, (n - 1) as nat) + units_of(asks[n - 1], vs[n - 1], key)
    }
}

proof fn lemma_window_run(
    ws: Seq<Window>,
    asks: Seq<Ask>,
    vs: Seq<Verdict>,
    key: Seq<char>,
    hash: u64,
    start: int,
    n: nat,
)
    requires
        0 < n <= asks.len(),
        is_window_run(ws, asks, vs),
        0 <= start,
        forall|i: int|
            0 <= i < asks.len() ==> (#[trigger] asks[i]).cost >= 1 && start <= asks[i].now_ns
                && keeps_cell(ws[i], shard_of(hash), key, asks[i].now_ms),
        forall|i: int, j: int|
            0 <= i <= j < asks.len() ==> (#[trigger] asks[i]).now_ns <= (#[trigger] asks[j]).now_ns,
        forall|i: int|
            0 <= i < asks.len() && (#[trigger] asks[i]).key == key ==> asks[i].hash == hash,
    ensures
        ws[n as int].t == ws[0].t,
        ws[n as int].burst == ws[0].burst,
        accounts_for(
            ws[n as int],
            shard_of(hash),
            key,
            units_allowed(asks, vs, key, n),
            start,
            asks[n - 1].now_ns as int,
        ),
    decreases n,
{
    let m = (n - 1) as nat;
    let a = asks[m as int];
    if m > 0 {
        lemma_window_run(ws, asks, vs, key, hash, start, m);
        assert(asks[m - 1].now_ns <= a.now_ns);
        lemma_step(
            ws[m as int],
            a,
            vs[m as int],
            ws[n as int],
            shard_of(hash),
            key,
            units_allowed(asks, vs, key, m),
            start,
            asks[m - 1].now_ns as int,
        );
    } else {
        assert(units_allowed(asks, vs, key, 0) == 0);
        lemma_step(ws[0], a, vs[0], ws[1], shard_of(hash), key, 0, start, start);
    }
}

/// The sustained rate is kept for every key: whatever is asked of a window,
/// for this key and others, it allows the key at most what its bucket holds
/// and what comes back in the time that goes by, as long as no sweep drops
/// the key's cell.
pub proof fn law_key_is_bounded_in_a_window(
    ws: Seq<Window>,
    asks: Seq<Ask>,
    vs: Seq<Verdict>,
    key: Seq<char>,
    hash: u64,
    start: int,
)
    requires
        asks.len() > 0,
        is_window_run(ws, asks, vs),
        0 <= start,
        forall|i: int|
            0 <= i < asks.len() ==> (#[trigger] asks[i]).cost >= 1 && start <= asks[i].now_ns
                && keeps_cell(ws[i], shard_of(hash), key, asks[i].now_ms),
        forall|i: int, j: int|
            0 <= i <= j < asks.len() ==> (#[trigger] asks[i]).now_ns <= (#[trigger] asks[j]).now_ns,
        forall|i: int|
            0 <= i < asks.len() && (#[trigger] asks[i]).key == key ==> asks[i].hash == hash,
    ensures
        ws[0].t * units_allowed(asks, vs, key, asks.len()) <= (asks.last().now_ns - start)
            + ws[0].t * ws[0].burst,
{
    lemma_window_run(ws, asks, vs, key, hash, start, asks.len());
    assert(limiter::is_window(ws[0])) by {
        let a = asks[0];
    }
    lemma_bound(
        ws[asks.len() as int],
        shard_of(hash),
        key,
        units_allowed(asks, vs, key, asks.len()),
        start,
        asks.last().now_ns as int,
    );
}

proof fn lemma_bound(w: Window, h: int, key: Seq<char>, units: int, start: int, now: int)
    requires
        gcra::is_bucket(w.t, w.burst),
        start <= now,
        accounts_for(w, h, key, units, start, now),
    ensures
        w.t * units <= (now - start) + w.t * w.burst,
{
    assert(units == 0 ==> w.t * units == 0) by (nonlinear_arith);
    gcra::lemma_bucket_bounds(w.t, w.burst, w.burst);
}

// ---------------------------------------------------------------------------
// An engine
// ---------------------------------------------------------------------------

/// Whether a request hits a rule with a key.
pub open spec fn hits_key(rules: Seq<Rule>, c: Call, j: int, key: Seq<char>) -> bool {
    engine::call_hits(rules, c).contains(HitView { rule: j, key })
}

/// Whether an evaluation lets a request pass that hits a rule with a key.
pub open spec fn lets_pass(
    rules: Seq<Rule>,
    c: Call,
    r: RateLimitEvaluation,
    j: int,
    key: Seq<char>,
) -> bool {
    hits_key(rules, c, j, key) && !(r.outcome is Denied)
}

/// How many of the first `n` requests that hit a rule with a key were let
/// pass.
pub open spec fn passed(
    rules: Seq<Rule>,
    calls: Seq<Call>,
    rs: Seq<RateLimitEvaluation>,
    j: int,
    key: Seq<char>,
    n: nat,
) -> int
    decreases n,
{
    if n == 0 {
        0
    } else {
        passed(rules, calls, rs, j, key, (n - 1) as nat) + if lets_pass(
            rules,
            calls[n - 1],
            rs[n - 1],
            j,
            key,
        ) {
            1int
        } else {
            0
        }
    }
}

/// Whether the limiters of an engine go through states as it evaluates
/// requests.
pub open spec fn is_engine_run(
    rules: Seq<Rule>,
    seed: RandomState,
    states: Seq<Seq<Seq<Window>>>,
    calls: Seq<Call>,
    rs: Seq<RateLimitEvaluation>,
) -> bool {
    &&& states.len() == calls.len() + 1
    &&& rs.len() == calls.len()
    &&& forall|i: int|
        0 <= i < calls.len() ==> engine::is_engine(rules, states[i]) && engine::is_evaluation(
            rules,
            seed,
            states[i],
            #[trigger] calls[i],
            rs[i],
            states[i + 1],
        )
}

proof fn lemma_stacked(
    ws: Seq<Window>,
    a: Ask,
    o: GcraOutcome,
    after: Seq<Window>,
    x: int,
    h: int,
    key: Seq<char>,
    units: int,
    start: int,
    now: int,
)
    requires
        limiter::is_limiter(ws),
        engine::limiter_answers(ws, a, o, after),
        0 <= x < ws.len(),
        a.cost == 1,
        0 <= h < gcra::GCRA_STORE_SHARDS,
        a.key == key ==> shard_of(a.hash) == h,
        keeps_cell(ws[x], h, key, a.now_ms),
        0 <= start <= a.now_ns,
        now <= a.now_ns,
        accounts_for(ws[x], h, key, units, start, now),
    ensures
        after.len() == ws.len(),
        after[x].t == ws[x].t,
        after[x].burst == ws[x].burst,
        accounts_for(
            after[x],
            h,
            key,
            units + if a.key == key && o.decision.allowed {
                1int
            } else {
                0
            },
            start,
            a.now_ns as int,
        ),
{
    let vs = choose|vs: Seq<Verdict>|
        #[trigger] limiter::is_stacked_step(ws, a, vs, after) && limiter::is_outcome(ws, a, vs, o);
    assert(limiter::is_window(ws[x]));
    if x < vs.len() {
        let v = vs[x];
        lemma_step(ws[x], a, v, after[x], h, key, units, start, now);
        if o.decision.allowed {
            assert(vs.last() is Allowed);
            assert(v is Allowed);
        }
        lemma_fewer_units(
            after[x],
            h,
            key,
            units + units_of(a, v, key),
            units + if a.key == key && o.decision.allowed {
                1int
            } else {
                0
            },
            start,
            a.now_ns as int,
            a.now_ns as int,
        );
    } else {
        assert(after[x] == ws[x]);
        assert(!o.decision.allowed);
        lemma_fewer_units(ws[x], h, key, units, units, start, now, a.now_ns as int);
    }
}

proof fn lemma_call(
    rules: Seq<Rule>,
    seed: RandomState,
    limiters: Seq<Seq<Window>>,
    c: Call,
    r: RateLimitEvaluation,
    after: Seq<Seq<Window>>,
    j: int,
    x: int,
    key: Seq<char>,
    units: int,
    start: int,
    now: int,
)
    requires
        engine::is_engine(rules, limiters),
        engine::is_evaluation(rules, seed, limiters, c, r, after),
        0 <= j < rules.len(),
        !rules[j].dry_run,
        0 <= x < limiters[j].len(),
        keeps_cell(limiters[j][x], shard_of(engine::key_hash(seed, key)), key, c.now_ms),
        0 <= start <= c.now_ns,
        now <= c.now_ns,
        accounts_for(
            limiters[j][x],
            shard_of(engine::key_hash(seed, key)),
            key,
            units,
            start,
            now,
        ),
    ensures
        after[j].len() == limiters[j].len(),
        after[j][x].t == limiters[j][x].t,
        after[j][x].burst == limiters[j][x].burst,
        accounts_for(
            after[j][x],
            shard_of(engine::key_hash(seed, key)),
            key,
            units + if lets_pass(rules, c, r, j, key) {
                1int
            } else {
                0
            },
            start,
            c.now_ns as int,
        ),
{
    let hits = engine::call_hits(rules, c);
    let h = shard_of(engine::key_hash(seed, key));
    let outs = choose|outs: Seq<GcraOutcome>| #[trigger]
        engine::is_answered(rules, seed, limiters, c, outs, r, after);
    engine::law_no_rule_is_asked_twice(rules, c.ctx, c.names);
    assert(limiter::is_limiter(limiters[j]));
    assert(limiter::is_window(limiters[j][x]));
    let add: int = if lets_pass(rules, c, r, j, key) {
        1
    } else {
        0
    };
    if exists|i: int| 0 <= i < hits.len() && (#[trigger] hits[i]).rule == j {
        let i = choose|i: int| 0 <= i < hits.len() && (#[trigger] hits[i]).rule == j;
        let a = limiter::ask_of(
            hits[i].key,
            1,
            engine::key_hash(seed, hits[i].key),
            c.now_ns,
            c.now_ms,
        );
        assert(engine::hashes_of(seed, hits)[i] == a.hash);
        lemma_stacked(limiters[j], a, outs[i], after[j], x, h, key, units, start, now);
        if lets_pass(rules, c, r, j, key) {
            let k = choose|k: int| 0 <= k < hits.len() && hits[k] == (HitView { rule: j, key });
            assert(hits[k].rule == j);
            assert(k == i);
            let v = engine::rule_outcomes(rules, hits, outs, c.now_epoch_s);
            engine::law_denied_iff_an_enforced_rule_denies(v);
            assert(!v[i].dry_run);
            assert(outs[i].decision.allowed);
        }
        lemma_fewer_units(
            after[j][x],
            h,
            key,
            units + if a.key == key && outs[i].decision.allowed {
                1int
            } else {
                0
            },
            units + add,
            start,
            c.now_ns as int,
            c.now_ns as int,
        );
    } else {
        assert(after[j] == limiters[j]);
        assert(!hits_key(rules, c, j, key));
        lemma_fewer_units(limiters[j][x], h, key, units, units, start, now, c.now_ns as int);
    }
}

proof fn lemma_engine_run(
    rules: Seq<Rule>,
    seed: RandomState,
    states: Seq<Seq<Seq<Window>>>,
    calls: Seq<Call>,
    rs: Seq<RateLimitEvaluation>,
    j: int,
    x: int,
    key: Seq<char>,
    start: int,
    n: nat,
)
    requires
        0 < n <= calls.len(),
        is_engine_run(rules, seed, states, calls, rs),
        0 <= j < rules.len(),
        !rules[j].dry_run,
        0 <= x < states[0][j].len(),
        0 <= start,
        forall|i: int|
            0 <= i < calls.len() ==> start <= (#[trigger] calls[i]).now_ns && keeps_cell(
                states[i][j][x],
                shard_of(engine::key_hash(seed, key)),
                key,
                calls[i].now_ms,
            ),
        forall|i: int, k: int|
            0 <= i <= k < calls.len() ==> (#[trigger] calls[i]).now_ns <= (
            #[trigger] calls[k]).now_ns,
    ensures
        states[n as int][j].len() == states[0][j].len(),
        states[n as int][j][x].t == states[0][j][x].t,
        states[n as int][j][x].burst == states[0][j][x].burst,
        accounts_for(
            states[n as int][j][x],
            shard_of(engine::key_hash(seed, key)),
            key,
            passed(rules, calls, rs, j, key, n),
            start,
            calls[n - 1].now_ns as int,
        ),
    decreases n,
{
    let m = (n - 1) as nat;
    let c = calls[m as int];
    let now: int = if m > 0 {
        lemma_engine_run(rules, seed, states, calls, rs, j, x, key, start, m);
        assert(calls[m - 1].now_ns <= c.now_ns);
        calls[m - 1].now_ns as int
    } else {
        assert(passed(rules, calls, rs, j, key, 0) == 0);
        start
    };
    lemma_call(
        rules,
        seed,
        states[m as int],
        c,
        rs[m as int],
        states[n as int],
        j,
        x,
        key,
        passed(rules, calls, rs, j, key, m),
        start,
        now,
    );
}

/// The sustained rate is kept: over any stretch of time, and whatever else is
/// asked in between, an engine lets no more requests pass that hit one
/// enforced rule with one key than each window of the rule holds and gets
/// back in that time, as long as no sweep drops the key's cell.
pub proof fn law_key_is_bounded(
    rules: Seq<Rule>,
    seed: RandomState,
    states: Seq<Seq<Seq<Window>>>,
    calls: Seq<Call>,
    rs: Seq<RateLimitEvaluation>,
    j: int,
    x: int,
    key: Seq<char>,
    start: int,
)
    requires
        calls.len() > 0,
        is_engine_run(rules, seed, states, calls, rs),
        0 <= j < rules.len(),
        !rules[j].dry_run,
        0 <= x < states[0][j].len(),
        0 <= start,
        forall|i: int|
            0 <= i < calls.len() ==> start <= (#[trigger] calls[i]).now_ns && keeps_cell(
                states[i][j][x],
                shard_of(engine::key_hash(seed, key)),
                key,
                calls[i].now_ms,
            ),
        forall|i: int, k: int|
            0 <= i <= k < calls.len() ==> (#[trigger] calls[i]).now_ns <= (
            #[trigger] calls[k]).now_ns,
    ensures
        states[0][j][x].t * passed(rules, calls, rs, j, key, calls.len()) <= (calls.last().now_ns
            - start) + states[0][j][x].t * states[0][j][x].burst,
{
    lemma_engine_run(rules, seed, states, calls, rs, j, x, key, start, calls.len());
    assert(engine::is_engine(rules, states[0])) by {
        let c = calls[0];
    }
    assert(limiter::is_limiter(states[0][j]));
    assert(limiter::is_window(states[0][j][x]));
    lemma_bound(
        states[calls.len() as int][j][x],
        shard_of(engine::key_hash(seed, key)),
        key,
        passed(rules, calls, rs, j, key, calls.len()),
        start,
        calls.last().now_ns as int,
    );
}

} // verus!
