//! Which rules a request is held to, under which keys, and what is reported.

use vstd::prelude::*;

use std::hash::RandomState;

use crate::extensions::rate_limiter::engine;
use crate::extensions::rate_limiter::engine::{
    AttachedPolicies, Call, HitView, Policy, RateLimitEvaluation, RateLimitKeyContext,
    RateLimitOutcome, RateLimitSelector, Rule, RuleOutcome,
};
use crate::extensions::rate_limiter::gcra::{GcraOutcome, WindowSpec};
use crate::extensions::rate_limiter::limiter::{Ask, Window};

verus! {

// ---------------------------------------------------------------------------
// Levels
// ---------------------------------------------------------------------------

/// Whether a policy is named in the list of a level.
pub open spec fn named(list: Seq<String>, policy: Seq<char>) -> bool {
    exists|i: int| 0 <= i < list.len() && (#[trigger] list[i])@ == policy
}

/// Whether a request is held to a rule.
pub open spec fn is_hit(hits: Seq<HitView>, rule: int) -> bool {
    exists|i: int| 0 <= i < hits.len() && (#[trigger] hits[i]).rule == rule
}

/// The hits of a request with policies attached to it.
pub open spec fn attached_hits(
    rules: Seq<Rule>,
    ctx: RateLimitKeyContext,
    a: AttachedPolicies,
) -> Seq<HitView> {
    engine::hits_of(rules, ctx, engine::attached_names(a), engine::attached_names(a).len())
}

proof fn lemma_with_hits(
    h: Seq<HitView>,
    rules: Seq<Rule>,
    ctx: RateLimitKeyContext,
    name: Seq<char>,
    n: nat,
    r: int,
)
    requires
        n <= rules.len(),
    ensures
        is_hit(engine::with_hits(h, rules, ctx, name, n), r) <==> is_hit(h, r) || (0 <= r < n
            && rules[r].policy == name),
        h.len() <= engine::with_hits(h, rules, ctx, name, n).len(),
        forall|i: int|
            0 <= i < h.len() ==> #[trigger] engine::with_hits(h, rules, ctx, name, n)[i] == h[i],
        forall|i: int|
            h.len() <= i < engine::with_hits(h, rules, ctx, name, n).len() ==> {
                let x = #[trigger] engine::with_hits(h, rules, ctx, name, n)[i];
                0 <= x.rule < n && rules[x.rule].policy == name && x.key == engine::key_of(
                    ctx,
                    rules[x.rule].selectors,
                    rules[x.rule].selectors.len(),
                )
            },
        forall|i: int, j: int|
            h.len() <= i < j < engine::with_hits(h, rules, ctx, name, n).len()
                ==> (#[trigger] engine::with_hits(h, rules, ctx, name, n)[i]).rule < (
            #[trigger] engine::with_hits(h, rules, ctx, name, n)[j]).rule,
    decreases n,
{
    if n > 0 {
        let m = (n - 1) as nat;
        lemma_with_hits(h, rules, ctx, name, m, r);
        let before = engine::with_hits(h, rules, ctx, name, m);
        let after = engine::with_hits(h, rules, ctx, name, n);
        if rules[m as int].policy == name {
            if is_hit(before, r) {
                let i = choose|i: int| 0 <= i < before.len() && (#[trigger] before[i]).rule == r;
                assert(after[i].rule == r);
            }
            if r == m {
                assert(after[before.len() as int].rule == r);
            }
            if is_hit(after, r) && r != m {
                let i = choose|i: int| 0 <= i < after.len() && (#[trigger] after[i]).rule == r;
                assert(before[i].rule == r);
            }
            assert forall|i: int| 0 <= i < before.len() implies #[trigger] after[i]
                == before[i] by {}
        }
    } else {
        assert(engine::with_hits(h, rules, ctx, name, n) == h);
    }
}

proof fn lemma_hits_of(
    rules: Seq<Rule>,
    ctx: RateLimitKeyContext,
    names: Seq<Seq<char>>,
    n: nat,
    r: int,
)
    requires
        n <= names.len(),
        0 <= r < rules.len(),
    ensures
        is_hit(engine::hits_of(rules, ctx, names, n), r) <==> names.take(n as int).contains(
            rules[r].policy,
        ),
        forall|i: int|
            0 <= i < engine::hits_of(rules, ctx, names, n).len() ==> {
                let x = #[trigger] engine::hits_of(rules, ctx, names, n)[i];
                0 <= x.rule < rules.len() && x.key == engine::key_of(
                    ctx,
                    rules[x.rule].selectors,
                    rules[x.rule].selectors.len(),
                )
            },
    decreases n,
{
    if n > 0 {
        let m = (n - 1) as nat;
        lemma_hits_of(rules, ctx, names, m, r);
        let before = engine::hits_of(rules, ctx, names, m);
        let name = names[m as int];
        let p = rules[r].policy;
        assert(names.take(n as int) =~= names.take(m as int).push(name));
        if names.take(m as int).contains(p) {
            let k = choose|k: int| 0 <= k < m && names.take(m as int)[k] == p;
            assert(names.take(n as int)[k] == p);
        }
        assert(names.take(n as int)[m as int] == name);
        if names.take(n as int).contains(p) && p != name {
            let k = choose|k: int| 0 <= k < n && names.take(n as int)[k] == p;
            assert(names.take(m as int)[k] == p);
        }
        lemma_with_hits(before, rules, ctx, name, rules.len(), r);
        let after = engine::hits_of(rules, ctx, names, n);
        assert forall|i: int| 0 <= i < after.len() implies ({
            let x = #[trigger] after[i];
            0 <= x.rule < rules.len() && x.key == engine::key_of(
                ctx,
                rules[x.rule].selectors,
                rules[x.rule].selectors.len(),
            )
        }) by {
            if i < before.len() {
                assert(after[i] == before[i]);
            }
        }
    } else {
        assert(names.take(0) =~= seq![]);
    }
}

proof fn lemma_named(a: AttachedPolicies, p: Seq<char>)
    ensures
        engine::attached_names(a).contains(p) <==> named(a.consumer@, p) || named(a.route@, p)
            || named(a.service@, p) || named(a.listener@, p) || named(a.global@, p),
{
    let all = engine::attached_names(a);
    let (c, r, s, l) = (
        a.consumer@.len() as int,
        a.route@.len() as int,
        a.service@.len() as int,
        a.listener@.len() as int,
    );
    if named(a.consumer@, p) {
        let i = choose|i: int| 0 <= i < a.consumer@.len() && (#[trigger] a.consumer@[i])@ == p;
        assert(all[i] == p);
    }
    if named(a.route@, p) {
        let i = choose|i: int| 0 <= i < a.route@.len() && (#[trigger] a.route@[i])@ == p;
        assert(all[c + i] == p);
    }
    if named(a.service@, p) {
        let i = choose|i: int| 0 <= i < a.service@.len() && (#[trigger] a.service@[i])@ == p;
        assert(all[c + r + i] == p);
    }
    if named(a.listener@, p) {
        let i = choose|i: int| 0 <= i < a.listener@.len() && (#[trigger] a.listener@[i])@ == p;
        assert(all[c + r + s + i] == p);
    }
    if named(a.global@, p) {
        let i = choose|i: int| 0 <= i < a.global@.len() && (#[trigger] a.global@[i])@ == p;
        assert(all[c + r + s + l + i] == p);
    }
    if all.contains(p) {
        let k = choose|k: int| 0 <= k < all.len() && all[k] == p;
        if k < c {
            assert(a.consumer@[k]@ == p);
        } else if k < c + r {
            assert(a.route@[k - c]@ == p);
        } else if k < c + r + s {
            assert(a.service@[k - c - r]@ == p);
        } else if k < c + r + s + l {
            assert(a.listener@[k - c - r - s]@ == p);
        } else {
            assert(a.global@[k - c - r - s - l]@ == p);
        }
    }
}

/// A policy applies wherever it is attached: a request is held to a rule
/// exactly if the rule's policy is named by the consumer, the route, the
/// service, the listener or the global level.
pub proof fn law_every_attached_policy_applies(
    rules: Seq<Rule>,
    ctx: RateLimitKeyContext,
    a: AttachedPolicies,
    r: int,
)
    requires
        0 <= r < rules.len(),
    ensures
        is_hit(attached_hits(rules, ctx, a), r) <==> {
            ||| named(a.consumer@, rules[r].policy)
            ||| named(a.route@, rules[r].policy)
            ||| named(a.service@, rules[r].policy)
            ||| named(a.listener@, rules[r].policy)
            ||| named(a.global@, rules[r].policy)
        },
{
    let names = engine::attached_names(a);
    lemma_hits_of(rules, ctx, names, names.len(), r);
    assert(names.take(names.len() as int) =~= names);
    lemma_named(a, rules[r].policy);
}

/// The list of a level, by the rank of the level: the consumer first, then
/// the route, the service, the listener, and the global level.
pub open spec fn list_at(a: AttachedPolicies, level: int) -> Seq<String> {
    if level == 0 {
        a.consumer@
    } else if level == 1 {
        a.route@
    } else if level == 2 {
        a.service@
    } else if level == 3 {
        a.listener@
    } else {
        a.global@
    }
}

/// Whether a level is the first that names a policy.
pub open spec fn is_first_level(a: AttachedPolicies, policy: Seq<char>, level: int) -> bool {
    &&& 0 <= level < 5
    &&& named(list_at(a, level), policy)
    &&& forall|l: int| 0 <= l < level ==> !named(#[trigger] list_at(a, l), policy)
}

/// Whether a list names `p` no later than `q`.
pub open spec fn listed_first(list: Seq<String>, p: Seq<char>, q: Seq<char>) -> bool {
    forall|y: int|
        0 <= y < list.len() && (#[trigger] list[y])@ == q ==> named(list.take(y + 1), p)
}

spec fn no_later(names: Seq<Seq<char>>, p: Seq<char>, q: Seq<char>) -> bool {
    forall|k: int| 0 <= k < names.len() && #[trigger] names[k] == q ==> names.take(k + 1).contains(p)
}

proof fn lemma_hits_in_order(
    rules: Seq<Rule>,
    ctx: RateLimitKeyContext,
    names: Seq<Seq<char>>,
    n: nat,
)
    requires
        n <= names.len(),
    ensures
        forall|i: int|
            0 <= i < engine::hits_of(rules, ctx, names, n).len() ==> names.take(n as int).contains(
                rules[(#[trigger] engine::hits_of(rules, ctx, names, n)[i]).rule].policy,
            ),
        forall|i: int, j: int|
            0 <= i < j < engine::hits_of(rules, ctx, names, n).len() ==> {
                let x = (#[trigger] engine::hits_of(rules, ctx, names, n)[i]).rule;
                let y = (#[trigger] engine::hits_of(rules, ctx, names, n)[j]).rule;
                &&& no_later(names, rules[x].policy, rules[y].policy)
                &&& rules[x].policy == rules[y].policy ==> x < y
            },
    decreases n,
{
    if n > 0 {
        let m = (n - 1) as nat;
        lemma_hits_in_order(rules, ctx, names, m);
        let before = engine::hits_of(rules, ctx, names, m);
        let after = engine::hits_of(rules, ctx, names, n);
        let name = names[m as int];
        assert forall|x: Seq<char>| #[trigger]
            names.take(m as int).contains(x) implies names.take(n as int).contains(x) by {
            let k = choose|k: int| 0 <= k < m && names.take(m as int)[k] == x;
            assert(names.take(n as int)[k] == x);
        }
        assert(names.take(n as int)[m as int] == name);
        if !names.take(m as int).contains(name) {
            lemma_with_hits(before, rules, ctx, name, rules.len(), 0);
            assert forall|i: int| 0 <= i < after.len() implies names.take(n as int).contains(
                rules[(#[trigger] after[i]).rule].policy,
            ) by {
                if i < before.len() {
                    assert(after[i] == before[i]);
                }
            }
            assert forall|i: int, j: int| 0 <= i < j < after.len() implies ({
                let x = (#[trigger] after[i]).rule;
                let y = (#[trigger] after[j]).rule;
                &&& no_later(names, rules[x].policy, rules[y].policy)
                &&& rules[x].policy == rules[y].policy ==> x < y
            }) by {
                let x = after[i].rule;
                let y = after[j].rule;
                if j < before.len() {
                    assert(after[i] == before[i] && after[j] == before[j]);
                } else {
                    assert(rules[y].policy == name);
                    if i < before.len() {
                        assert(after[i] == before[i]);
                        assert(names.take(m as int).contains(rules[x].policy));
                    }
                    assert forall|k: int| 0 <= k < names.len() && #[trigger] names[k]
                        == rules[y].policy implies names.take(k + 1).contains(rules[x].policy) by {
                        if k < m {
                            assert(names.take(m as int)[k] == name);
                        }
                        if i < before.len() {
                            let z = choose|z: int|
                                0 <= z < m && names.take(m as int)[z] == rules[x].policy;
                            assert(names.take(k + 1)[z] == rules[x].policy);
                        } else {
                            assert(names.take(k + 1)[k] == rules[x].policy);
                        }
                    }
                }
            }
        } else {
            assert(after == before);
        }
    }
}

/// Where a level's list begins among all names.
spec fn offset(a: AttachedPolicies, level: int) -> int {
    (if level > 0 {
        a.consumer@.len() as int
    } else {
        0
    }) + (if level > 1 {
        a.route@.len() as int
    } else {
        0
    }) + (if level > 2 {
        a.service@.len() as int
    } else {
        0
    }) + (if level > 3 {
        a.listener@.len() as int
    } else {
        0
    })
}

proof fn lemma_level_names(a: AttachedPolicies, level: int, i: int)
    requires
        0 <= level < 5,
        0 <= i < list_at(a, level).len(),
    ensures
        0 <= offset(a, level) + i < engine::attached_names(a).len(),
        engine::attached_names(a)[offset(a, level) + i] == list_at(a, level)[i]@,
{
}

/// The level and the place at which a name stands.
proof fn lemma_name_level(a: AttachedPolicies, k: int) -> (r: (int, int))
    requires
        0 <= k < engine::attached_names(a).len(),
    ensures
        0 <= r.0 < 5,
        0 <= r.1 < list_at(a, r.0).len(),
        k == offset(a, r.0) + r.1,
        list_at(a, r.0)[r.1]@ == engine::attached_names(a)[k],
        named(list_at(a, r.0), engine::attached_names(a)[k]),
{
    let level: int = if k < offset(a, 1) {
        0
    } else if k < offset(a, 2) {
        1
    } else if k < offset(a, 3) {
        2
    } else if k < offset(a, 4) {
        3
    } else {
        4
    };
    let i = k - offset(a, level);
    lemma_level_names(a, level, i);
    assert(list_at(a, level)[i]@ == engine::attached_names(a)[k]);
    (level, i)
}

/// Precedence: rules come in the order of the first level that names their
/// policy, the consumer's before the route's, the service's, the listener's
/// and the global ones; within a level in the order of its list; and within
/// a policy in their own order.
pub proof fn law_rules_come_in_order_of_precedence(
    rules: Seq<Rule>,
    ctx: RateLimitKeyContext,
    a: AttachedPolicies,
    i: int,
    j: int,
    level_i: int,
    level_j: int,
)
    requires
        0 <= i < j < attached_hits(rules, ctx, a).len(),
        is_first_level(a, rules[attached_hits(rules, ctx, a)[i].rule].policy, level_i),
        is_first_level(a, rules[attached_hits(rules, ctx, a)[j].rule].policy, level_j),
    ensures
        ({
            let x = attached_hits(rules, ctx, a)[i].rule;
            let y = attached_hits(rules, ctx, a)[j].rule;
            &&& level_i <= level_j
            &&& level_i == level_j ==> listed_first(
                list_at(a, level_i),
                rules[x].policy,
                rules[y].policy,
            )
            &&& rules[x].policy == rules[y].policy ==> x < y
        }),
{
    let names = engine::attached_names(a);
    let hits = attached_hits(rules, ctx, a);
    lemma_hits_in_order(rules, ctx, names, names.len());
    let p = rules[hits[i].rule].policy;
    let q = rules[hits[j].rule].policy;
    assert(no_later(names, p, q));
    let list = list_at(a, level_j);
    assert forall|y: int| 0 <= y < list.len() && (#[trigger] list[y])@ == q implies level_i
        <= level_j && (level_i == level_j ==> named(list.take(y + 1), p)) by {
        lemma_level_names(a, level_j, y);
        let k = offset(a, level_j) + y;
        assert(names[k] == q);
        let z = names.take(k + 1).index_of(p);
        let at = lemma_name_level(a, z);
        assert(named(list_at(a, at.0), p));
        if at.0 > level_j {
            assert(offset(a, at.0) >= offset(a, level_j) + list.len());
        }
        if at.0 < level_i {
            assert(!named(list_at(a, at.0), p));
        }
        if level_i == level_j {
            assert(at.0 == level_j);
            assert(list.take(y + 1)[at.1]@ == p);
        }
    }
    let y = choose|y: int| 0 <= y < list.len() && (#[trigger] list[y])@ == q;
    assert(list[y]@ == q);
}

// ---------------------------------------------------------------------------
// Keys
// ---------------------------------------------------------------------------

/// Texts with a bar between each two of them.
pub open spec fn barred(parts: Seq<Seq<char>>) -> Seq<char>
    decreases parts.len(),
{
    if parts.len() == 0 {
        seq![]
    } else if parts.len() == 1 {
        parts[0]
    } else {
        barred(parts.drop_last()) + seq!['|'] + parts.last()
    }
}

/// Whether a text is what a selector reads off a request: the peer's address;
/// the consumer, or the peer's address where there is none; or the route.
pub open spec fn is_read_off(
    part: Seq<char>,
    ctx: RateLimitKeyContext,
    s: RateLimitSelector,
) -> bool {
    &&& s is Ip ==> part == ctx.peer@
    &&& s is Credential && ctx.consumer is Some ==> part == ctx.consumer->Some_0@
    &&& s is Credential && ctx.consumer is None ==> part == ctx.peer@
    &&& s is Route ==> part == ctx.route@
}

/// What selectors read off a request.
pub open spec fn parts_of(ctx: RateLimitKeyContext, s: Seq<RateLimitSelector>) -> Seq<Seq<char>> {
    Seq::new(
        s.len(),
        |i: int|
            if s[i] is Route {
                ctx.route@
            } else if s[i] is Credential && ctx.consumer is Some {
                ctx.consumer->Some_0@
            } else {
                ctx.peer@
            },
    )
}

proof fn lemma_key(
    ctx: RateLimitKeyContext,
    s: Seq<RateLimitSelector>,
    parts: Seq<Seq<char>>,
    n: nat,
)
    requires
        n <= s.len(),
        parts.len() == s.len(),
        forall|i: int| 0 <= i < s.len() ==> is_read_off(#[trigger] parts[i], ctx, s[i]),
    ensures
        engine::key_of(ctx, s, n) == barred(parts.take(n as int)),
    decreases n,
{
    if n > 0 {
        let m = (n - 1) as nat;
        lemma_key(ctx, s, parts, m);
        assert(is_read_off(parts[m as int], ctx, s[m as int]));
        let t = parts.take(n as int);
        assert(t.last() == parts[m as int]);
        assert(t.drop_last() =~= parts.take(m as int));
        if n > 1 {
            assert(engine::key_of(ctx, s, n) =~= barred(t));
        }
    } else {
        assert(parts.take(0) =~= seq![]);
    }
}

/// A key is what the selectors read off a request, with bars in between.
pub proof fn law_key_joins_what_is_read(ctx: RateLimitKeyContext, s: Seq<RateLimitSelector>)
    ensures
        engine::key_of(ctx, s, s.len()) == barred(parts_of(ctx, s)),
{
    let parts = parts_of(ctx, s);
    lemma_key(ctx, s, parts, s.len());
    assert(parts.take(s.len() as int) =~= parts);
}

/// The key of a request under a rule is what the rule's selectors read off
/// it, one part for each selector, with bars in between.
pub proof fn law_key_is_what_the_selectors_read(
    rules: Seq<Rule>,
    ctx: RateLimitKeyContext,
    a: AttachedPolicies,
    i: int,
    parts: Seq<Seq<char>>,
)
    requires
        0 <= i < attached_hits(rules, ctx, a).len(),
        ({
            let s = rules[attached_hits(rules, ctx, a)[i].rule].selectors;
            &&& parts.len() == s.len()
            &&& forall|k: int| 0 <= k < s.len() ==> is_read_off(#[trigger] parts[k], ctx, s[k])
        }),
    ensures
        0 <= attached_hits(rules, ctx, a)[i].rule < rules.len(),
        attached_hits(rules, ctx, a)[i].key == barred(parts),
{
    let names = engine::attached_names(a);
    let hits = attached_hits(rules, ctx, a);
    engine::law_no_rule_is_asked_twice(rules, ctx, names);
    assert(0 <= hits[i].rule < rules.len());
    lemma_hits_of(rules, ctx, names, names.len(), hits[i].rule);
    let s = rules[hits[i].rule].selectors;
    lemma_key(ctx, s, parts, s.len());
    assert(parts.take(s.len() as int) =~= parts);
}

// ---------------------------------------------------------------------------
// Compiled rules
// ---------------------------------------------------------------------------

/// Whether a window is that of a request count over so many seconds: a bucket
/// of the named burst, or of the count where none is named.
pub open spec fn is_window_of(
    w: WindowSpec,
    count: Option<u32>,
    secs: int,
    burst: Option<u32>,
) -> bool {
    &&& count is Some
    &&& count->Some_0 > 0
    &&& w.requests == count->Some_0
    &&& w.window_ns == secs * 1_000_000_000
    &&& burst is Some && burst->Some_0 > 0 ==> w.burst == burst->Some_0
    &&& burst is None || burst->Some_0 == 0 ==> w.burst == count->Some_0
}

/// Whether a rule is one of the rate rules of a policy: it has the policy's
/// name and mode, the rule's selectors, and one window for each count per
/// second, per minute and per hour.
pub open spec fn is_rate_rule(r: Rule, p: Policy, k: int) -> bool {
    let rule = p.rate_limits@[k];
    &&& 0 <= k < p.rate_limits@.len()
    &&& r.policy == p.name@
    &&& r.dry_run == p.dry_run
    &&& r.selectors == rule.selector@
    &&& forall|w: WindowSpec| #[trigger]
        r.windows.contains(w) <==> {
            ||| is_window_of(w, rule.requests_per.per_second, 1, rule.burst)
            ||| is_window_of(w, rule.requests_per.minute, 60, rule.burst)
            ||| is_window_of(w, rule.requests_per.hour, 3600, rule.burst)
        }
}

/// Whether a rule is the single window of a policy, which counts by route.
pub open spec fn is_single_rule(r: Rule, p: Policy) -> bool {
    &&& p.rate_limit is Some
    &&& r.policy == p.name@
    &&& r.dry_run == p.dry_run
    &&& r.selectors == seq![RateLimitSelector::Route]
    &&& r.windows.len() == 1
    &&& r.windows[0].requests == r.windows[0].burst
    &&& p.rate_limit->Some_0.requests <= u32::MAX ==> r.windows[0].requests
        == p.rate_limit->Some_0.requests
    &&& p.rate_limit->Some_0.requests > u32::MAX ==> r.windows[0].requests == u32::MAX
    &&& r.windows[0].window_ns == p.rate_limit->Some_0.window_seconds * 1_000_000_000
}

/// Whether a count asks for a window.
pub open spec fn counts(n: Option<u32>) -> bool {
    n is Some && n->Some_0 > 0
}

proof fn lemma_push_contains(v: Seq<WindowSpec>, x: WindowSpec)
    ensures
        forall|w: WindowSpec| #[trigger] v.push(x).contains(w) <==> v.contains(w) || w == x,
{
    assert forall|w: WindowSpec| #[trigger] v.push(x).contains(w) <==> v.contains(w) || w == x by {
        if v.contains(w) {
            let i = v.index_of(w);
            assert(v.push(x)[i] == w);
        }
        if w == x {
            assert(v.push(x)[v.len() as int] == w);
        }
        if v.push(x).contains(w) && w != x {
            let i = v.push(x).index_of(w);
            assert(v[i] == w);
        }
    }
}

proof fn lemma_with_window(
    v: Seq<WindowSpec>,
    count: Option<u32>,
    secs: int,
    burst: Option<u32>,
)
    ensures
        forall|w: WindowSpec| #[trigger]
            engine::with_window(v, count, secs, burst).contains(w) <==> v.contains(w)
                || is_window_of(w, count, secs, burst),
        counts(count) ==> engine::with_window(v, count, secs, burst).len() > 0,
        !counts(count) ==> engine::with_window(v, count, secs, burst) == v,
        v.len() > 0 ==> engine::with_window(v, count, secs, burst).len() > 0,
{
    if counts(count) {
        let n = count->Some_0;
        let x = WindowSpec {
            requests: n as int,
            window_ns: secs * 1_000_000_000,
            burst: match burst {
                Some(b) => if b > 0 {
                    b as int
                } else {
                    n as int
                },
                None => n as int,
            },
        };
        lemma_push_contains(v, x);
        assert(engine::with_window(v, count, secs, burst) == v.push(x));
        assert forall|w: WindowSpec| #[trigger] v.push(x).contains(w) <==> v.contains(w)
            || is_window_of(w, count, secs, burst) by {
            assert(is_window_of(w, count, secs, burst) ==> w == x);
        }
    }
}

/// The rule that a rate rule is compiled to.
spec fn rate_rule(p: Policy, k: int) -> Rule {
    let r = p.rate_limits@[k];
    Rule {
        policy: p.name@,
        selectors: r.selector@,
        windows: engine::windows_of(r.requests_per, r.burst),
        dry_run: p.dry_run,
    }
}

proof fn lemma_rate_rule(p: Policy, k: int)
    requires
        0 <= k < p.rate_limits@.len(),
    ensures
        is_rate_rule(rate_rule(p, k), p, k),
        ({
            let rp = p.rate_limits@[k].requests_per;
            counts(rp.per_second) || counts(rp.minute) || counts(rp.hour) <==> rate_rule(
                p,
                k,
            ).windows.len() > 0
        }),
{
    let r = p.rate_limits@[k];
    let rp = r.requests_per;
    let a = engine::with_window(seq![], rp.per_second, 1, r.burst);
    let b = engine::with_window(a, rp.minute, 60, r.burst);
    lemma_with_window(seq![], rp.per_second, 1, r.burst);
    lemma_with_window(a, rp.minute, 60, r.burst);
    lemma_with_window(b, rp.hour, 3600, r.burst);
}

/// Whether one of the first `n` policies gives a rule.
spec fn has_source(r: Rule, policies: Seq<Policy>, n: int) -> bool {
    exists|i: int|
        0 <= i < n && 0 <= i < policies.len() && #[trigger] comes_from(r, policies[i])
}

/// Whether a rule is the single window of a policy or one of its rate rules.
pub open spec fn comes_from(r: Rule, p: Policy) -> bool {
    is_single_rule(r, p) || exists|k: int| #[trigger] is_rate_rule(r, p, k)
}

proof fn lemma_with_rate_rules(v: Seq<Rule>, p: Policy, n: nat)
    requires
        n <= p.rate_limits@.len(),
    ensures
        v.len() <= engine::with_rate_rules(v, p, n).len(),
        forall|j: int|
            0 <= j < v.len() ==> #[trigger] engine::with_rate_rules(v, p, n)[j] == v[j],
        forall|j: int|
            v.len() <= j < engine::with_rate_rules(v, p, n).len() ==> comes_from(
                #[trigger] engine::with_rate_rules(v, p, n)[j],
                p,
            ),
        forall|k: int|
            0 <= k < n && (#[trigger] rate_rule(p, k)).windows.len() > 0
                ==> engine::with_rate_rules(v, p, n).contains(rate_rule(p, k)),
    decreases n,
{
    if n > 0 {
        let m = (n - 1) as nat;
        lemma_with_rate_rules(v, p, m);
        let before = engine::with_rate_rules(v, p, m);
        let after = engine::with_rate_rules(v, p, n);
        let r = rate_rule(p, m as int);
        assert(after == engine::with_rule(before, r));
        assert forall|j: int| 0 <= j < before.len() implies #[trigger] after[j] == before[j] by {}
        lemma_rate_rule(p, m as int);
        assert(comes_from(r, p));
        assert forall|k: int|
            0 <= k < n && (#[trigger] rate_rule(p, k)).windows.len() > 0 implies after.contains(
            rate_rule(p, k),
        ) by {
            if k < m {
                let i = before.index_of(rate_rule(p, k));
                assert(before.contains(rate_rule(p, k)));
                assert(after[i] == rate_rule(p, k));
            } else {
                assert(after[before.len() as int] == r);
            }
        }
    }
}

proof fn lemma_rules_of(policies: Seq<Policy>, n: nat)
    requires
        n <= policies.len(),
    ensures
        forall|j: int|
            0 <= j < engine::rules_of(policies, n).len() ==> has_source(
                #[trigger] engine::rules_of(policies, n)[j],
                policies,
                n as int,
            ),
        forall|i: int, k: int|
            0 <= i < n && 0 <= k < policies[i].rate_limits@.len() && (#[trigger] rate_rule(
                policies[i],
                k,
            )).windows.len() > 0 ==> engine::rules_of(policies, n).contains(
                rate_rule(policies[i], k),
            ),
        forall|i: int|
            0 <= i < n && has_single(#[trigger] policies[i]) ==> exists|j: int|
                0 <= j < engine::rules_of(policies, n).len() && is_single_rule(
                    #[trigger] engine::rules_of(policies, n)[j],
                    policies[i],
                ),
    decreases n,
{
    if n > 0 {
        let m = (n - 1) as nat;
        lemma_rules_of(policies, m);
        let p = policies[m as int];
        let before = engine::rules_of(policies, m);
        let v = engine::with_single(before, p);
        let after = engine::rules_of(policies, n);
        lemma_with_rate_rules(v, p, p.rate_limits@.len());
        assert forall|j: int| 0 <= j < before.len() implies #[trigger] v[j] == before[j] by {}
        assert forall|j: int| 0 <= j < v.len() implies #[trigger] after[j] == v[j] by {}
        assert forall|j: int| 0 <= j < after.len() implies has_source(
            #[trigger] after[j],
            policies,
            n as int,
        ) by {
            if j < before.len() {
                assert(after[j] == before[j]);
                let i = choose|i: int|
                    0 <= i < m && 0 <= i < policies.len() && #[trigger] comes_from(
                        before[j],
                        policies[i],
                    );
                assert(comes_from(after[j], policies[i]));
            } else if j < v.len() {
                assert(after[j] == v[j]);
                assert(is_single_rule(v[j], p));
                assert(comes_from(after[j], policies[m as int]));
            } else {
                assert(comes_from(after[j], policies[m as int]));
            }
        }
        assert forall|i: int, k: int|
            0 <= i < n && 0 <= k < policies[i].rate_limits@.len() && (#[trigger] rate_rule(
                policies[i],
                k,
            )).windows.len() > 0 implies after.contains(rate_rule(policies[i], k)) by {
            if i < m {
                let j = before.index_of(rate_rule(policies[i], k));
                assert(before.contains(rate_rule(policies[i], k)));
                assert(after[j] == rate_rule(policies[i], k));
            }
        }
        assert forall|i: int| 0 <= i < n && has_single(#[trigger] policies[i]) implies exists|j: int|
            0 <= j < after.len() && is_single_rule(#[trigger] after[j], policies[i]) by {
            if i < m {
                let j = choose|j: int|
                    0 <= j < before.len() && is_single_rule(#[trigger] before[j], policies[i]);
                assert(after[j] == before[j]);
            } else {
                let j = before.len() as int;
                assert(is_single_rule(v[j], p));
                assert(after[j] == v[j]);
            }
        }
    }
}

/// Whether a policy has a single window.
pub open spec fn has_single(p: Policy) -> bool {
    p.rate_limit is Some && p.rate_limit->Some_0.requests > 0
        && p.rate_limit->Some_0.window_seconds > 0
}

/// Whether rules are those of policies: each rate rule that has a count, each
/// single window, and nothing else.
pub open spec fn is_compiled(rules: Seq<Rule>, policies: Seq<Policy>) -> bool {
    &&& forall|i: int, k: int|
        #![trigger policies[i].rate_limits@[k]]
        {
            let rp = policies[i].rate_limits@[k].requests_per;
            0 <= i < policies.len() && 0 <= k < policies[i].rate_limits@.len() && (counts(
                rp.per_second,
            ) || counts(rp.minute) || counts(rp.hour)) ==> exists|j: int|
                0 <= j < rules.len() && is_rate_rule(#[trigger] rules[j], policies[i], k)
        }
    &&& forall|i: int|
        0 <= i < policies.len() && has_single(#[trigger] policies[i]) ==> exists|j: int|
            0 <= j < rules.len() && is_single_rule(#[trigger] rules[j], policies[i])
    &&& forall|j: int|
        0 <= j < rules.len() ==> exists|i: int|
            0 <= i < policies.len() && comes_from(#[trigger] rules[j], #[trigger] policies[i])
}

/// Every limit that a policy names is compiled: each of its rate rules that
/// has a count becomes a rule of the policy, and so does its single window.
/// Nothing else is compiled.
pub proof fn law_every_limit_is_compiled(policies: Seq<Policy>)
    ensures
        is_compiled(engine::rules_of(policies, policies.len()), policies),
{
    let rules = engine::rules_of(policies, policies.len());
    lemma_rules_of(policies, policies.len());
    assert forall|i: int, k: int|
        #![trigger policies[i].rate_limits@[k]]
        ({
            let rp = policies[i].rate_limits@[k].requests_per;
            0 <= i < policies.len() && 0 <= k < policies[i].rate_limits@.len() && (counts(
                rp.per_second,
            ) || counts(rp.minute) || counts(rp.hour))
        }) implies exists|j: int|
        0 <= j < rules.len() && is_rate_rule(#[trigger] rules[j], policies[i], k) by {
        lemma_rate_rule(policies[i], k);
        let r = rate_rule(policies[i], k);
        assert(rules.contains(r));
        let j = rules.index_of(r);
        assert(is_rate_rule(rules[j], policies[i], k));
    }
    assert forall|j: int| 0 <= j < rules.len() implies exists|i: int|
        0 <= i < policies.len() && comes_from(#[trigger] rules[j], #[trigger] policies[i]) by {
        assert(has_source(rules[j], policies, policies.len() as int));
        let i = choose|i: int|
            0 <= i < policies.len() && 0 <= i < policies.len() && #[trigger] comes_from(
                rules[j],
                policies[i],
            );
        assert(comes_from(rules[j], policies[i]));
    }
}

// ---------------------------------------------------------------------------
// Reports
// ---------------------------------------------------------------------------

/// Whether the outcome at `i` is of a rule that is enforced, and a denial.
pub open spec fn denies(v: Seq<RuleOutcome>, i: int) -> bool {
    0 <= i < v.len() && !v[i].dry_run && v[i].outcome is Denied
}

/// Whether the outcome at `i` is of a rule that is enforced, and admits.
pub open spec fn admits(v: Seq<RuleOutcome>, i: int) -> bool {
    0 <= i < v.len() && !v[i].dry_run && v[i].outcome is Allowed
}

/// Whether the outcome at `i` is the admitting one with the least left, the
/// first of several.
pub open spec fn is_tightest(v: Seq<RuleOutcome>, i: int, n: int) -> bool {
    &&& i < n
    &&& admits(v, i)
    &&& forall|j: int|
        0 <= j < n && #[trigger] admits(v, j) ==> v[i].outcome->Allowed_remaining
            <= v[j].outcome->Allowed_remaining
    &&& forall|j: int|
        0 <= j < i && #[trigger] admits(v, j) ==> v[i].outcome->Allowed_remaining
            < v[j].outcome->Allowed_remaining
}

/// Whether a denial is the first denying outcome's but for the wait, which is
/// the longest of all.
pub open spec fn is_denial_of(
    v: Seq<RuleOutcome>,
    o: RateLimitOutcome,
    first: int,
    longest: int,
    n: int,
) -> bool {
    &&& first < n && longest < n
    &&& denies(v, first) && denies(v, longest)
    &&& forall|j: int| 0 <= j < first ==> !#[trigger] denies(v, j)
    &&& forall|j: int|
        0 <= j < n && #[trigger] denies(v, j) ==> v[j].outcome->retry_after_s
            <= v[longest].outcome->retry_after_s
    &&& o is Denied
    &&& o->Denied_limit == v[first].outcome->Denied_limit
    &&& o->Denied_remaining == v[first].outcome->Denied_remaining
    &&& o->retry_after_s == v[longest].outcome->retry_after_s
    &&& o->Denied_reset_epoch_s == v[longest].outcome->Denied_reset_epoch_s
}

proof fn lemma_combined(v: Seq<RuleOutcome>, n: nat)
    requires
        n <= v.len(),
    ensures
        ({
            let c = engine::combined_of(v, n);
            &&& c.denied is None <==> forall|j: int| 0 <= j < n ==> !#[trigger] denies(v, j)
            &&& c.denied is Some ==> exists|f: int, l: int| #[trigger]
                is_denial_of(v, c.denied->Some_0, f, l, n as int)
            &&& c.denied is None && c.allowed is None ==> forall|j: int|
                0 <= j < n ==> !#[trigger] admits(v, j)
            &&& c.denied is None && c.allowed is Some ==> exists|i: int|
                0 <= i < n && c.allowed->Some_0 == v[i].outcome && #[trigger] is_tightest(
                    v,
                    i,
                    n as int,
                )
        }),
    decreases n,
{
    if n > 0 {
        let m = (n - 1) as nat;
        lemma_combined(v, m);
        let b = engine::combined_of(v, m);
        let c = engine::combined_of(v, n);
        let x = v[m as int];
        if c.denied is None {
            assert(b.denied is None);
            assert(!denies(v, m as int));
        }
        if denies(v, m as int) {
            if b.denied is Some {
                let (f, l) = choose|f: int, l: int| #[trigger]
                    is_denial_of(v, b.denied->Some_0, f, l, m as int);
                if x.outcome->retry_after_s > b.denied->Some_0->retry_after_s {
                    assert(is_denial_of(v, c.denied->Some_0, f, m as int, n as int));
                } else {
                    assert(is_denial_of(v, c.denied->Some_0, f, l, n as int));
                }
            } else {
                assert(is_denial_of(v, c.denied->Some_0, m as int, m as int, n as int));
            }
        } else if c.denied is Some {
            let (f, l) = choose|f: int, l: int| #[trigger]
                is_denial_of(v, b.denied->Some_0, f, l, m as int);
            assert(is_denial_of(v, c.denied->Some_0, f, l, n as int));
        } else if admits(v, m as int) {
            if b.allowed is Some {
                let i = choose|i: int|
                    0 <= i < m && b.allowed->Some_0 == v[i].outcome && #[trigger] is_tightest(
                        v,
                        i,
                        m as int,
                    );
                if x.outcome->Allowed_remaining >= v[i].outcome->Allowed_remaining {
                    assert(is_tightest(v, i, n as int));
                } else {
                    assert(is_tightest(v, m as int, n as int));
                }
            } else {
                assert(is_tightest(v, m as int, n as int));
            }
        } else if b.allowed is Some {
            let i = choose|i: int|
                0 <= i < m && b.allowed->Some_0 == v[i].outcome && #[trigger] is_tightest(
                    v,
                    i,
                    m as int,
                );
            assert(is_tightest(v, i, n as int));
        }
    }
}

/// Whether an outcome is what is to be reported of several: a denial if an
/// enforced rule denies, with the numbers of the first that does and the
/// longest wait of all; else the admitting outcome with the least left; else
/// that nothing applied.
pub open spec fn is_report(v: Seq<RuleOutcome>, o: RateLimitOutcome) -> bool {
    let denied = exists|j: int| #[trigger] denies(v, j);
    let admitted = exists|j: int| #[trigger] admits(v, j);
    &&& denied ==> exists|f: int, l: int| #[trigger] is_denial_of(v, o, f, l, v.len() as int)
    &&& !denied && admitted ==> exists|i: int|
        0 <= i < v.len() && o == v[i].outcome && #[trigger] is_tightest(v, i, v.len() as int)
    &&& !denied && !admitted ==> o == RateLimitOutcome::NotLimited
}

/// What is reported: a denial if an enforced rule denies, with the numbers of
/// the first that does and the longest wait of all; else the admitting
/// outcome with the least left; else that nothing applied.
pub proof fn law_report(v: Seq<RuleOutcome>)
    ensures
        is_report(v, engine::evaluation_of(v).outcome),
{
    lemma_combined(v, v.len());
}

/// What a limiter's answer is reported as: the numbers of its window, the
/// time at which the bucket is full again or the wait is over, and a wait of
/// whole seconds, at least one, that is long enough and no second too long.
pub proof fn law_answer_is_reported(o: GcraOutcome, now_epoch_s: u64)
    requires
        now_epoch_s <= engine::MAX_EPOCH_S,
        o.decision.remaining <= u32::MAX,
        o.decision.retry_after_ms matches Some(ms) ==> ms <= u32::MAX,
    ensures
        ({
            let r = engine::outcome_of(o, now_epoch_s);
            let wait_ms: int = match o.decision.retry_after_ms {
                Some(ms) => ms as int,
                None => 0,
            };
            &&& o.decision.allowed ==> {
                &&& r is Allowed
                &&& r->Allowed_limit == o.limit
                &&& r->Allowed_remaining == o.decision.remaining
                &&& o.refill_ms <= 1000 * (r->Allowed_reset_epoch_s - now_epoch_s) < o.refill_ms
                    + 1000
            }
            &&& !o.decision.allowed ==> {
                &&& r is Denied
                &&& r->Denied_limit == o.limit
                &&& r->Denied_remaining == o.decision.remaining
                &&& wait_ms <= 1000 * (r->Denied_reset_epoch_s - now_epoch_s) < wait_ms + 1000
                &&& r->retry_after_s >= 1
                &&& wait_ms <= 1000 * r->retry_after_s
                &&& r->retry_after_s > 1 ==> 1000 * r->retry_after_s < wait_ms + 1000
            }
        }),
{
}

// ---------------------------------------------------------------------------
// A request
// ---------------------------------------------------------------------------

/// Whether a rule's policy is attached to a request at any level.
pub open spec fn is_attached(a: AttachedPolicies, policy: Seq<char>) -> bool {
    ||| named(a.consumer@, policy)
    ||| named(a.route@, policy)
    ||| named(a.service@, policy)
    ||| named(a.listener@, policy)
    ||| named(a.global@, policy)
}

/// A request is held to every rule whose policy is attached to it at some
/// level: the rule's limiter is asked for one unit, and if the rule is
/// enforced and its limiter says no, the request is denied. The limiter of
/// any other rule is not touched.
pub proof fn law_request_is_held_to_every_attached_rule(
    rules: Seq<Rule>,
    seed: RandomState,
    limiters: Seq<Seq<Window>>,
    a: AttachedPolicies,
    c: Call,
    r: RateLimitEvaluation,
    after: Seq<Seq<Window>>,
    rule: int,
)
    requires
        c.names == engine::attached_names(a),
        limiters.len() == rules.len(),
        engine::is_evaluation(rules, seed, limiters, c, r, after),
        0 <= rule < rules.len(),
    ensures
        is_held_to(rules, seed, limiters, a, c, r, after, rule),
{
    let hits = engine::call_hits(rules, c);
    let outs = choose|outs: Seq<GcraOutcome>| #[trigger]
        engine::is_answered(rules, seed, limiters, c, outs, r, after);
    law_every_attached_policy_applies(rules, c.ctx, a, rule);
    let v = engine::rule_outcomes(rules, hits, outs, c.now_epoch_s);
    law_report(v);
    if is_attached(a, rules[rule].policy) {
        let h = choose|h: int| 0 <= h < hits.len() && (#[trigger] hits[h]).rule == rule;
        assert(engine::hashes_of(seed, hits)[h] == engine::key_hash(seed, hits[h].key));
        let s = rules[rule].selectors;
        law_key_is_what_the_selectors_read(rules, c.ctx, a, h, parts_of(c.ctx, s));
        assert(is_asked(seed, limiters[rule], c, hits[h].key, outs[h], after[rule]));
        if !rules[rule].dry_run {
            if !outs[h].decision.allowed {
                assert(denies(v, h));
            } else {
                assert(admits(v, h));
            }
        }
    } else {
        assert(after[rule] == limiters[rule]);
    }
}

/// Whether a request is held to a rule exactly if the rule's policy is attached
/// to it: the rule's limiter is asked for one unit, and if the rule is enforced
/// and its limiter says no, the request is denied. Else the limiter is not
/// touched.
pub open spec fn is_held_to(
    rules: Seq<Rule>,
    seed: RandomState,
    limiters: Seq<Seq<Window>>,
    a: AttachedPolicies,
    c: Call,
    r: RateLimitEvaluation,
    after: Seq<Seq<Window>>,
    rule: int,
) -> bool {
    &&& is_attached(a, rules[rule].policy) ==> exists|o: GcraOutcome| #[trigger]
        is_asked(
            seed,
            limiters[rule],
            c,
            barred(parts_of(c.ctx, rules[rule].selectors)),
            o,
            after[rule],
        ) && (!rules[rule].dry_run && !o.decision.allowed ==> r.outcome is Denied) && (
        !rules[rule].dry_run && o.decision.allowed ==> !(r.outcome is NotLimited))
    &&& !is_attached(a, rules[rule].policy) ==> after[rule] == limiters[rule]
}

/// Whether a limiter was asked for one unit under a key, said `o`, and is
/// `after` it.
pub open spec fn is_asked(
    seed: RandomState,
    ws: Seq<Window>,
    c: Call,
    key: Seq<char>,
    o: GcraOutcome,
    after: Seq<Window>,
) -> bool {
    engine::limiter_answers(
        ws,
        (Ask {
            key,
            cost: 1,
            hash: engine::key_hash(seed, key),
            now_ns: c.now_ns,
            now_ms: c.now_ms,
        }),
        o,
        after,
    )
}

/// A request is denied only for a reason: some enforced rule's limiter was
/// asked and said no.
pub proof fn law_denial_has_a_reason(
    rules: Seq<Rule>,
    seed: RandomState,
    limiters: Seq<Seq<Window>>,
    a: AttachedPolicies,
    c: Call,
    r: RateLimitEvaluation,
    after: Seq<Seq<Window>>,
)
    requires
        c.names == engine::attached_names(a),
        engine::is_evaluation(rules, seed, limiters, c, r, after),
        r.outcome is Denied,
    ensures
        exists|rule: int, key: Seq<char>, o: GcraOutcome|
            0 <= rule < rules.len() && !rules[rule].dry_run && is_attached(a, rules[rule].policy)
                && !o.decision.allowed && #[trigger] is_asked(
                seed,
                limiters[rule],
                c,
                key,
                o,
                after[rule],
            ),
{
    let hits = engine::call_hits(rules, c);
    let outs = choose|outs: Seq<GcraOutcome>| #[trigger]
        engine::is_answered(rules, seed, limiters, c, outs, r, after);
    let v = engine::rule_outcomes(rules, hits, outs, c.now_epoch_s);
    law_report(v);
    assert(exists|j: int| #[trigger] denies(v, j));
    let h = choose|h: int| #[trigger] denies(v, h);
    engine::law_no_rule_is_asked_twice(rules, c.ctx, c.names);
    let rule = hits[h].rule;
    assert(is_hit(hits, rule));
    law_every_attached_policy_applies(rules, c.ctx, a, rule);
    assert(engine::hashes_of(seed, hits)[h] == engine::key_hash(seed, hits[h].key));
    assert(is_asked(seed, limiters[rule], c, hits[h].key, outs[h], after[rule]));
}

} // verus!
