//! What holds of every bucket, whatever is asked of it.

use vstd::prelude::*;

use crate::extensions::rate_limiter::engine;
use crate::extensions::rate_limiter::gcra;
use crate::extensions::rate_limiter::gcra::Verdict;
use crate::extensions::rate_limiter::limiter;
use crate::extensions::rate_limiter::shard;
use crate::extensions::rate_limiter::shard::GcraCell;

verus! {

/// A request that may be asked of a bucket: its cost and its time.
pub struct Request {
    pub cost: int,
    pub now: int,
}

/// The arrival time after requests, from one that a bucket has.
pub open spec fn arrival_after(
    t: int,
    burst: int,
    from: Option<u128>,
    reqs: Seq<Request>,
) -> Option<u128>
    decreases reqs.len(),
{
    if reqs.len() == 0 {
        from
    } else {
        let before = arrival_after(t, burst, from, reqs.drop_last());
        match gcra::verdict(t, burst, before, reqs.last().cost, reqs.last().now) {
            Verdict::Allowed(next) => Some(next),
            _ => before,
        }
    }
}

/// The units that were allowed to requests.
pub open spec fn allowed_units(
    t: int,
    burst: int,
    from: Option<u128>,
    reqs: Seq<Request>,
) -> int
    decreases reqs.len(),
{
    if reqs.len() == 0 {
        0
    } else {
        let before = arrival_after(t, burst, from, reqs.drop_last());
        allowed_units(t, burst, from, reqs.drop_last()) + match gcra::verdict(
            t,
            burst,
            before,
            reqs.last().cost,
            reqs.last().now,
        ) {
            Verdict::Allowed(_) => reqs.last().cost,
            _ => 0,
        }
    }
}

/// Whether requests come in order of time, from a time on.
pub open spec fn in_time(reqs: Seq<Request>, start: int) -> bool {
    &&& forall|i: int|
        0 <= i < reqs.len() ==> (#[trigger] reqs[i]).cost >= 1 && start <= reqs[i].now <= u64::MAX
    &&& forall|i: int, j: int|
        0 <= i <= j < reqs.len() ==> (#[trigger] reqs[i]).now <= (#[trigger] reqs[j]).now
}

proof fn lemma_allowed(t: int, burst: int, from: Option<u128>, reqs: Seq<Request>, start: int)
    requires
        gcra::is_bucket(t, burst),
        0 <= start,
        in_time(reqs, start),
        from matches Some(x) ==> gcra::is_arrival(t, burst, x as int),
    ensures
        allowed_units(t, burst, from, reqs) >= 0,
        arrival_after(t, burst, from, reqs) matches Some(x) ==> gcra::is_arrival(
            t,
            burst,
            x as int,
        ),
        allowed_units(t, burst, from, reqs) > 0 ==> {
            &&& reqs.len() > 0
            &&& arrival_after(t, burst, from, reqs) matches Some(x)
            &&& t * allowed_units(t, burst, from, reqs) <= x - start
            &&& x <= reqs.last().now + t * burst
        },
    decreases reqs.len(),
{
    if reqs.len() > 0 {
        let r = reqs.last();
        let init = reqs.drop_last();
        assert(in_time(init, start)) by {
            assert forall|i: int| 0 <= i < init.len() implies (#[trigger] init[i]).cost >= 1
                && start <= init[i].now <= u64::MAX by {
                assert(init[i] == reqs[i]);
            }
            assert forall|i: int, j: int| 0 <= i <= j < init.len() implies (
            #[trigger] init[i]).now <= (#[trigger] init[j]).now by {
                assert(init[i] == reqs[i] && init[j] == reqs[j]);
            }
        }
        lemma_allowed(t, burst, from, init, start);
        assert(r == reqs[reqs.len() - 1]);
        let before = arrival_after(t, burst, from, init);
        let units = allowed_units(t, burst, from, init);
        if r.cost <= burst {
            gcra::lemma_bucket_bounds(t, burst, r.cost);
            gcra::lemma_bucket_bounds(t, burst, burst);
            assert(t * (units + r.cost) == t * units + t * r.cost) by (nonlinear_arith);
            assert(units == 0 ==> t * units == 0) by (nonlinear_arith);
            if init.len() > 0 {
                assert(reqs[init.len() - 1].now <= reqs[reqs.len() - 1].now);
                assert(init.last() == reqs[init.len() - 1]);
            }
        } else {
            assert(t * (r.cost - 1) > t * (burst - 1)) by (nonlinear_arith)
                requires
                    t >= 1,
                    r.cost > burst,
            ;
        }
    }
}

/// The sustained rate is kept: over any stretch of time a bucket allows at
/// most what it holds and what comes back in that time, one unit per `t`.
pub proof fn law_rate_is_bounded(
    t: int,
    burst: int,
    from: Option<u128>,
    reqs: Seq<Request>,
    start: int,
)
    requires
        gcra::is_bucket(t, burst),
        0 <= start,
        reqs.len() > 0,
        in_time(reqs, start),
        from matches Some(x) ==> gcra::is_arrival(t, burst, x as int),
    ensures
        t * allowed_units(t, burst, from, reqs) <= (reqs.last().now - start) + t * burst,
{
    lemma_allowed(t, burst, from, reqs, start);
    let units = allowed_units(t, burst, from, reqs);
    assert(units == 0 ==> t * units == 0) by (nonlinear_arith);
    gcra::lemma_bucket_bounds(t, burst, burst);
    assert(reqs.last() == reqs[reqs.len() - 1]);
}

/// A fresh bucket allows its whole burst at once, and nothing larger ever.
pub proof fn law_fresh_bucket_holds_its_burst(t: int, burst: int, cost: int, now: int)
    requires
        gcra::is_bucket(t, burst),
        1 <= cost,
        0 <= now <= u64::MAX,
    ensures
        cost <= burst ==> gcra::verdict(t, burst, None, cost, now) is Allowed,
        cost > burst ==> forall|tat: Option<u128>| #[trigger]
            gcra::verdict(t, burst, tat, cost, now) is TooLarge,
{
    if cost <= burst {
        gcra::lemma_bucket_bounds(t, burst, cost);
    } else {
        assert(t * (cost - 1) > t * (burst - 1)) by (nonlinear_arith)
            requires
                t >= 1,
                cost > burst,
        ;
    }
}

/// A client that waits for as long as it was told is allowed, if nothing
/// else was asked of the bucket.
pub proof fn law_waiting_as_told_is_enough(
    t: int,
    burst: int,
    tat: Option<u128>,
    cost: int,
    now: int,
)
    requires
        gcra::is_bucket(t, burst),
        1 <= cost,
        0 <= now <= u64::MAX,
        tat matches Some(x) ==> gcra::is_arrival(t, burst, x as int),
        gcra::verdict(t, burst, tat, cost, now) is NotUntil,
    ensures
        ({
            let e = gcra::verdict(t, burst, tat, cost, now)->NotUntil_0;
            &&& e > now
            &&& gcra::verdict(t, burst, tat, cost, e as int) is Allowed
        }),
{
    if cost <= burst {
        gcra::lemma_bucket_bounds(t, burst, cost);
        gcra::lemma_bucket_bounds(t, burst, burst);
    } else {
        assert(t * (cost - 1) > t * (burst - 1)) by (nonlinear_arith)
            requires
                t >= 1,
                cost > burst,
        ;
    }
}

/// A denied request spends nothing: the arrival time of its key stays.
pub proof fn law_denied_request_spends_nothing(
    m: Map<Seq<char>, GcraCell>,
    key: Seq<char>,
    v: Verdict,
    now_ms: u64,
)
    requires
        !(v is Allowed),
    ensures
        limiter::arrival(limiter::touched(m, key, v, now_ms), key) == limiter::arrival(m, key),
        forall|k: Seq<char>|
            k != key ==> #[trigger] limiter::arrival(limiter::touched(m, key, v, now_ms), k)
                == limiter::arrival(m, k),
{
}

/// A key that was left alone for as long as its bucket takes to fill up is
/// treated like one that was never seen.
pub proof fn law_refilled_key_is_like_a_fresh_one(
    t: int,
    burst: int,
    tat: u128,
    cost: int,
    touched: int,
    now: int,
)
    requires
        tat <= touched + t * burst,
        now >= touched + t * burst,
    ensures
        gcra::verdict(t, burst, Some(tat), cost, now) == gcra::verdict(t, burst, None, cost, now),
{
}

/// Whether every shard of a window holds at most its cap of keys.
pub open spec fn within_cap(w: limiter::Window) -> bool {
    forall|i: int|
        0 <= i < w.shards.len() ==> (#[trigger] w.shards[i]).dom().finite()
            && w.shards[i].dom().len() <= w.cap
}

/// The keyed state is bounded: no request brings a shard over its cap,
/// however many keys come in.
pub proof fn law_store_stays_within_cap(
    w: limiter::Window,
    a: limiter::Ask,
    v: Verdict,
    after: limiter::Window,
)
    requires
        w.cap > 0,
        w.shards.len() == gcra::GCRA_STORE_SHARDS,
        within_cap(w),
        limiter::is_step(w, a, v, after),
    ensures
        within_cap(after),
{
    if a.cost <= w.burst {
        let h = (a.hash % 16) as int;
        let m = choose|m: Map<Seq<char>, GcraCell>|
            {
                &&& #[trigger] shard::is_swept(
                    w.shards[h],
                    m,
                    a.now_ms,
                    w.full_refill_ms,
                    w.cap,
                )
                &&& v == gcra::verdict(
                    w.t,
                    w.burst,
                    limiter::arrival(m, a.key),
                    a.cost,
                    a.now_ns as int,
                )
                &&& after == (limiter::Window {
                    shards: w.shards.update(h, limiter::touched(m, a.key, v, a.now_ms)),
                    evictions: ((w.evictions + w.shards[h].dom().len() - m.dom().len())
                        % 0x1_0000_0000_0000_0000) as u64,
                    ..w
                })
            };
        assert(w.shards[h].dom().finite());
        let fresh = shard::fresh_cells(w.shards[h], a.now_ms, w.full_refill_ms);
        assert(fresh.dom().subset_of(w.shards[h].dom()));
        vstd::set_lib::lemma_len_subset(fresh.dom(), w.shards[h].dom());
        shard::law_sweep_makes_room(w.shards[h], m, a.now_ms, w.full_refill_ms, w.cap);
        assert(m.dom().finite());
        let t = limiter::touched(m, a.key, v, a.now_ms);
        assert(t.dom() =~= m.dom() || t.dom() =~= m.dom().insert(a.key));
        assert forall|i: int| 0 <= i < after.shards.len() implies (
        #[trigger] after.shards[i]).dom().finite() && after.shards[i].dom().len() <= after.cap by {
            if i == h {
                assert(after.shards[i] == t);
            } else {
                assert(after.shards[i] == w.shards[i]);
            }
        }
    }
}

/// What is reported as left can still be had: after a request was allowed, as
/// many units as are left are allowed at the same instant, and not one more.
pub proof fn law_what_is_left_can_be_had(
    t: int,
    burst: int,
    tat: Option<u128>,
    cost: int,
    now: int,
    more: int,
)
    requires
        gcra::is_bucket(t, burst),
        1 <= cost,
        1 <= more,
        0 <= now <= u64::MAX,
        tat matches Some(x) ==> gcra::is_arrival(t, burst, x as int),
        gcra::verdict(t, burst, tat, cost, now) is Allowed,
    ensures
        ({
            let next = gcra::verdict(t, burst, tat, cost, now)->Allowed_0;
            let left = gcra::tokens_left(t, burst, now, next as int);
            &&& gcra::verdict(t, burst, Some(next), more, now) is Allowed <==> more <= left
            &&& 0 <= left <= burst - cost
        }),
{
    let next = gcra::verdict(t, burst, tat, cost, now)->Allowed_0;
    assert(cost <= burst) by (nonlinear_arith)
        requires
            t * (cost - 1) <= t * (burst - 1),
            t >= 1,
    ;
    gcra::lemma_bucket_bounds(t, burst, cost);
    gcra::lemma_bucket_bounds(t, burst, burst);
    let room = now + t * burst - next;
    assert(next >= now + t * cost);
    assert(next <= now + t * burst);
    let left = gcra::tokens_left(t, burst, now, next as int);
    assert(room <= t * (burst - cost)) by (nonlinear_arith)
        requires
            room == now + t * burst - next,
            next >= now + t * cost,
    ;
    assert(left == room / t) by (nonlinear_arith)
        requires
            t >= 1,
            left == if room == 0 {
                0int
            } else {
                room / t
            },
    ;
    assert(t * left <= room < t * left + t && left >= 0) by (nonlinear_arith)
        requires
            left == room / t,
            t >= 1,
            room >= 0,
    ;
    assert(left <= burst - cost) by (nonlinear_arith)
        requires
            t * left <= room,
            room <= t * (burst - cost),
            t >= 1,
    ;
    assert(t * (more - 1) == t * more - t && t * (burst - 1) == t * burst - t)
        by (nonlinear_arith);
    if more <= left {
        assert(t * more <= t * left) by (nonlinear_arith)
            requires
                more <= left,
                t >= 1,
        ;
    } else {
        assert(t * more >= t * left + t) by (nonlinear_arith)
            requires
                more >= left + 1,
                t >= 1,
        ;
    }
}

/// A window gives one token back in the time that its requests leave for
/// each: over the window its requests come back, as exactly as whole
/// nanoseconds allow. It starts with an empty store.
pub proof fn law_new_window_has_the_rate(s: gcra::WindowSpec, cap: nat)
    requires
        1 <= s.requests <= s.window_ns,
    ensures
        ({
            let w = limiter::new_window(s, cap);
            &&& w.t * s.requests <= s.window_ns < (w.t + 1) * s.requests
            &&& w.burst == s.burst
            &&& w.cap == cap
            &&& w.evictions == 0
            &&& w.shards.len() == 16
            &&& forall|i: int| 0 <= i < 16 ==> #[trigger] w.shards[i] == Map::<
                Seq<char>,
                GcraCell,
            >::empty()
            &&& w.t * s.burst <= 1_000_000 * u64::MAX && s.burst >= 0 ==> 1_000_000 * w.full_refill_ms
                <= w.t * s.burst < 1_000_000 * (w.full_refill_ms + 1)
        }),
{
    let w = limiter::new_window(s, cap);
    let q = s.window_ns / s.requests;
    assert(q >= 1 && q * s.requests <= s.window_ns < (q + 1) * s.requests) by (nonlinear_arith)
        requires
            q == s.window_ns / s.requests,
            1 <= s.requests <= s.window_ns,
    ;
    assert(w.t == q);
    if s.burst >= 0 {
        assert(w.t * s.burst >= 0) by (nonlinear_arith)
            requires
                w.t >= 1,
                s.burst >= 0,
        ;
    }
}

/// A limiter says yes exactly if all of its windows do, and then reports the
/// least that any of them has left; else it reports the window that refused,
/// with the time until that would allow the request.
pub proof fn law_limiter_says_yes_if_all_windows_do(
    ws: Seq<limiter::Window>,
    a: limiter::Ask,
    vs: Seq<Verdict>,
    after: Seq<limiter::Window>,
    o: gcra::GcraOutcome,
)
    requires
        limiter::is_limiter(ws),
        limiter::is_stacked_step(ws, a, vs, after),
        limiter::is_outcome(ws, a, vs, o),
    ensures
        vs.len() > 0,
        o.decision.allowed <==> vs.len() == ws.len() && forall|j: int|
            0 <= j < vs.len() ==> (#[trigger] vs[j]) is Allowed,
        o.decision.allowed ==> forall|j: int|
            0 <= j < vs.len() ==> o.decision.remaining <= gcra::tokens_left(
                ws[j].t,
                ws[j].burst,
                a.now_ns as int,
                (#[trigger] vs[j])->Allowed_0 as int,
            ),
        o.decision.allowed ==> exists|b: int|
            0 <= b < vs.len() && o.limit == ws[b].burst && o.decision.remaining
                == gcra::tokens_left(
                ws[b].t,
                ws[b].burst,
                a.now_ns as int,
                (#[trigger] vs[b])->Allowed_0 as int,
            ),
        !o.decision.allowed ==> o.decision.remaining == 0 && o.limit == ws[vs.len() - 1].burst
            && o.decision.retry_after_ms is Some,
        !o.decision.allowed && vs.last() is TooLarge ==> o.decision.retry_after_ms->Some_0
            == ws[vs.len() - 1].full_refill_ms,
        !o.decision.allowed && vs.last() is NotUntil && a.now_ns <= vs.last()->NotUntil_0
            <= 1_000_000 * u64::MAX ==> ({
            let ms = o.decision.retry_after_ms->Some_0;
            1_000_000 * ms <= vs.last()->NotUntil_0 - a.now_ns < 1_000_000 * (ms + 1)
        }),
{
    assert(limiter::is_window(ws[vs.len() - 1])) by {
        assert(vs.len() > 0);
    }
    if vs.last() is Allowed {
        let b = choose|b: int|
            #[trigger] limiter::is_tightest(ws, a, vs, b) && o.decision.allowed && o.limit
                == ws[b].burst as u32 && o.decision.remaining == limiter::left_in(
                ws[b],
                a,
                vs[b],
            ) as u64;
        assert(limiter::is_tightest(ws, a, vs, b));
        assert(limiter::is_window(ws[b]));
        lemma_left_is_small(ws[b].t, ws[b].burst, a.now_ns as int, vs[b]->Allowed_0 as int);
        assert forall|j: int| 0 <= j < vs.len() implies (#[trigger] vs[j]) is Allowed by {
            assert(vs[j] == vs[j]);
        }
    } else {
        assert(!(vs[vs.len() - 1] is Allowed));
    }
}

proof fn lemma_left_is_small(t: int, burst: int, now: int, next: int)
    requires
        gcra::is_bucket(t, burst),
    ensures
        0 <= gcra::tokens_left(t, burst, now, next) <= burst,
{
    if now < next < now + t * burst {
        let room = now + t * burst - next;
        assert(0 <= room / t <= burst) by (nonlinear_arith)
            requires
                0 <= room <= t * burst,
                t >= 1,
                burst >= 1,
        ;
    }
}

/// A limiter has a window for every specification, and no other.
pub proof fn law_limiter_has_every_window(specs: Seq<gcra::WindowSpec>, cap: nat, i: int)
    requires
        0 <= i < specs.len(),
    ensures
        limiter::new_windows(specs, cap).len() == specs.len(),
        exists|j: int|
            0 <= j < specs.len() && #[trigger] limiter::new_windows(specs, cap)[j]
                == limiter::new_window(specs[i], cap),
{
    gcra::law_sorting_keeps_every_window(specs);
    let sorted = gcra::in_order(specs);
    specs.to_multiset_ensures();
    sorted.to_multiset_ensures();
    assert(specs.to_multiset().contains(specs[i]));
    assert(sorted.to_multiset().contains(specs[i]));
    assert(sorted.contains(specs[i]));
    let j = sorted.index_of(specs[i]);
    assert(sorted.len() == specs.len());
    assert(limiter::new_windows(specs, cap)[j] == limiter::new_window(specs[i], cap));
}

/// Every rule has a limiter of its own, with the windows of the rule and
/// nothing spent.
pub proof fn law_every_rule_has_its_limiter(rules: Seq<engine::Rule>, cap: nat, j: int)
    requires
        0 <= j < rules.len(),
    ensures
        engine::new_limiters(rules, cap).len() == rules.len(),
        engine::new_limiters(rules, cap)[j] == limiter::new_windows(rules[j].windows, cap),
        forall|x: int, s: int|
            0 <= x < engine::new_limiters(rules, cap)[j].len() && 0 <= s < 16
                ==> #[trigger] engine::new_limiters(rules, cap)[j][x].shards[s] == Map::<
                Seq<char>,
                GcraCell,
            >::empty(),
{
}

} // verus!
