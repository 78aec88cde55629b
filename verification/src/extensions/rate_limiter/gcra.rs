//! The Generic Cell Rate Algorithm over stacked windows.
//!
//! A window of `requests` per `window` with a bucket of `burst` tokens
//! replenishes one token per `window / requests`. Its state for a key is one
//! number, the theoretical arrival time. A limiter may stack several windows:
//! a request is allowed when every window allows it. Windows are evaluated
//! from the shortest to the longest and evaluation stops at the first denial,
//! so the windows before the denying one have spent their tokens: stricter
//! than a decision over all windows at once, never more permissive.

use vstd::prelude::*;
use vstd::string::*;


verus! {

/// Number of independent shards of a window's keyed state.
pub const GCRA_STORE_SHARDS: usize = 16;

/// The longest window in nanoseconds.
pub const MAX_WINDOW_NS: u128 = 18_446_744_073_709_551_616_000_000_000;

// ---------------------------------------------------------------------------
// Decisions
// ---------------------------------------------------------------------------

/// Outcome of a check.
#[derive(Debug, Clone, Copy, PartialEq, Eq, Structural)]
pub struct RateDecision {
    /// Whether the request is allowed (cost already reserved if true).
    pub allowed: bool,
    /// Units remaining for the key after this decision.
    pub remaining: u64,
    /// When not allowed: milliseconds until the caller may retry.
    pub retry_after_ms: Option<u64>,
}

/// Result of a check across stacked windows.
#[derive(Debug, Clone, Copy, PartialEq, Eq, Structural)]
pub struct GcraOutcome {
    pub decision: RateDecision,
    /// Bucket size of the binding window (the denying window on denial, the
    /// least-remaining window on success).
    pub limit: u32,
    /// Milliseconds until the binding window is fully replenished (on
    /// denial: until the next conforming retry).
    pub refill_ms: u64,
}

/// The outcome of a denial.
pub open spec fn denial(limit: u32, retry_after_ms: u64) -> GcraOutcome {
    GcraOutcome {
        decision: RateDecision {
            allowed: false,
            remaining: 0,
            retry_after_ms: Some(retry_after_ms),
        },
        limit,
        refill_ms: retry_after_ms,
    }
}

/// The outcome of a denial.
pub fn denied_outcome(limit: u32, retry_after_ms: u64) -> (o: GcraOutcome)
    ensures
        o == denial(limit, retry_after_ms),
{
    GcraOutcome {
        decision: RateDecision {
            allowed: false,
            remaining: 0,
            retry_after_ms: Some(retry_after_ms),
        },
        limit,
        refill_ms: retry_after_ms,
    }
}

/// What one bucket says to a request.
#[derive(Debug, Clone, Copy, PartialEq, Eq, Structural)]
pub enum Verdict {
    /// The cost can never fit the bucket.
    TooLarge,
    /// The request conforms from this time on (nanoseconds), not before.
    NotUntil(u128),
    /// The request conforms; the arrival time after it is this.
    Allowed(u128),
}

/// The later of two times.
pub open spec fn later(a: int, b: int) -> int {
    if a >= b {
        a
    } else {
        b
    }
}

/// What a bucket says to a request of a cost at a time: one token takes `t`
/// to come back, the bucket holds `burst` of them, and `tat` is the arrival
/// time that earlier requests left behind.
pub open spec fn verdict(t: int, burst: int, tat: Option<u128>, cost: int, now: int) -> Verdict {
    let add = t * (cost - 1);
    let tau = t * (burst - 1);
    let tat: int = match tat {
        Some(x) => x as int,
        None => now,
    };
    if add > tau {
        Verdict::TooLarge
    } else if now < tat + add - tau {
        Verdict::NotUntil((tat + add - tau) as u128)
    } else {
        Verdict::Allowed((later(tat, now) + t + add) as u128)
    }
}

/// Whether a bucket's numbers stay within 128 bits.
pub open spec fn is_bucket(t: int, burst: int) -> bool {
    1 <= t <= MAX_WINDOW_NS && 1 <= burst <= u32::MAX
}

/// Whether an arrival time is one that a bucket can have.
pub open spec fn is_arrival(t: int, burst: int, tat: int) -> bool {
    0 <= tat <= u64::MAX + t * burst
}

pub proof fn lemma_bucket_bounds(t: int, burst: int, cost: int)
    requires
        is_bucket(t, burst),
        1 <= cost <= burst,
    ensures
        0 <= t * (cost - 1) <= t * (burst - 1),
        t * (burst - 1) + t == t * burst,
        t * (cost - 1) + t == t * cost,
        t * burst <= 79_228_162_514_264_337_593_543_950_336_000_000_000,
{
    assert(0 <= t * (cost - 1) <= t * (burst - 1)) by (nonlinear_arith)
        requires
            t >= 1,
            1 <= cost <= burst,
    ;
    assert(t * (burst - 1) + t == t * burst) by (nonlinear_arith);
    assert(t * (cost - 1) + t == t * cost) by (nonlinear_arith);
    assert(t * burst <= MAX_WINDOW_NS * 4_294_967_296) by (nonlinear_arith)
        requires
            1 <= t <= MAX_WINDOW_NS,
            1 <= burst <= 4_294_967_295,
    ;
}

/// What a bucket says to a request of a cost at a time.
pub fn decide(t: u128, burst: u32, tat: Option<u128>, cost: u32, now: u64) -> (v: Verdict)
    requires
        is_bucket(t as int, burst as int),
        cost >= 1,
        tat matches Some(x) ==> is_arrival(t as int, burst as int, x as int),
    ensures
        v == verdict(t as int, burst as int, tat, cost as int, now as int),
        (v is TooLarge) == (cost > burst),
        v matches Verdict::Allowed(next) ==> is_arrival(t as int, burst as int, next as int) && next
            >= 1,
{
    if cost > burst {
        proof {
            assert(t * (cost - 1) > t * (burst - 1)) by (nonlinear_arith)
                requires
                    t >= 1,
                    cost > burst,
            ;
        }
        return Verdict::TooLarge;
    }
    proof {
        lemma_bucket_bounds(t as int, burst as int, cost as int);
        lemma_bucket_bounds(t as int, burst as int, burst as int);
    }
    let add: u128 = t * (cost as u128 - 1);
    let tau: u128 = t * (burst as u128 - 1);
    let now: u128 = now as u128;
    let tat: u128 = match tat {
        Some(x) => x,
        None => now,
    };
    if now + tau < tat + add {
        Verdict::NotUntil(tat + add - tau)
    } else {
        let base: u128 = if tat >= now {
            tat
        } else {
            now
        };
        Verdict::Allowed(base + t + add)
    }
}

/// The tokens left in a bucket at a time, when the arrival time after the
/// request is `next`.
pub open spec fn tokens_left(t: int, burst: int, now: int, next: int) -> int {
    if next <= now {
        burst
    } else if next >= now + t * burst {
        0
    } else {
        (now + t * burst - next) / t
    }
}

pub fn remaining(t: u128, burst: u32, now: u64, next: u128) -> (n: u64)
    requires
        is_bucket(t as int, burst as int),
    ensures
        n == tokens_left(t as int, burst as int, now as int, next as int),
        n <= burst,
{
    proof {
        lemma_bucket_bounds(t as int, burst as int, burst as int);
    }
    let now: u128 = now as u128;
    let full: u128 = t * burst as u128;
    if next <= now {
        burst as u64
    } else if next >= now + full {
        0
    } else {
        let left: u128 = now + full - next;
        let n: u128 = left / t;
        proof {
            assert(n <= burst) by (nonlinear_arith)
                requires
                    n == left / t,
                    left <= t * burst,
                    t >= 1,
            ;
        }
        n as u64
    }
}

// ---------------------------------------------------------------------------
// Window specifications
// ---------------------------------------------------------------------------

/// One window specification: `requests` per window, with a bucket of `burst`
/// tokens (of `requests` tokens where none is named).
#[derive(Debug, Clone, Copy)]
pub struct GcraWindowSpec {
    requests: u32,
    window_ns: u128,
    burst: Option<u32>,
}

/// What a window specification is.
#[verifier::ext_equal]
pub struct WindowSpec {
    pub requests: int,
    pub window_ns: int,
    pub burst: int,
}

impl View for GcraWindowSpec {
    type V = WindowSpec;

    closed spec fn view(&self) -> WindowSpec {
        WindowSpec {
            requests: self.requests as int,
            window_ns: self.window_ns as int,
            burst: match self.burst {
                Some(b) => b as int,
                None => self.requests as int,
            },
        }
    }
}

impl GcraWindowSpec {
    #[verifier::type_invariant]
    spec fn well_formed(self) -> bool {
        &&& self.requests >= 1
        &&& self.window_ns <= MAX_WINDOW_NS
        &&& self.burst matches Some(b) ==> b >= 1
    }

    /// A window of seconds and nanoseconds. There is none of zero requests
    /// or with an empty bucket.
    pub fn new(requests: u32, window_secs: u64, window_nanos: u32, burst: Option<u32>) -> (r:
        Option<Self>)
        ensures
            match r {
                Some(s) => {
                    &&& requests > 0
                    &&& burst != Some(0u32)
                    &&& window_nanos < 1_000_000_000
                    &&& s@ == (WindowSpec {
                        requests: requests as int,
                        window_ns: window_secs * 1_000_000_000 + window_nanos,
                        burst: match burst {
                            Some(b) => b as int,
                            None => requests as int,
                        },
                    })
                },
                None => requests == 0 || burst == Some(0u32) || window_nanos >= 1_000_000_000,
            },
    {
        if requests == 0 || window_nanos >= 1_000_000_000 {
            return None;
        }
        if let Some(b) = burst {
            if b == 0 {
                return None;
            }
        }
        Some(
            GcraWindowSpec {
                requests,
                window_ns: window_secs as u128 * 1_000_000_000 + window_nanos as u128,
                burst,
            },
        )
    }

    /// Requests per window.
    pub fn requests(&self) -> (n: u32)
        ensures
            n == self@.requests,
            n >= 1,
    {
        proof {
            use_type_invariant(self);
        }
        self.requests
    }

    /// The window in nanoseconds.
    pub fn window_ns(&self) -> (n: u128)
        ensures
            n == self@.window_ns,
            n <= MAX_WINDOW_NS,
    {
        proof {
            use_type_invariant(self);
        }
        self.window_ns
    }

    /// The bucket size.
    pub fn burst(&self) -> (n: u32)
        ensures
            n == self@.burst,
            n >= 1,
    {
        proof {
            use_type_invariant(self);
        }
        match self.burst {
            Some(b) => b,
            None => self.requests,
        }
    }
}

/// What window specifications are.
pub open spec fn spec_views(v: Seq<GcraWindowSpec>) -> Seq<WindowSpec> {
    v.map_values(|s: GcraWindowSpec| s@)
}

/// A specification put into a list in order of the window, behind those of
/// the same window.
pub open spec fn put_in_order(s: Seq<WindowSpec>, x: WindowSpec) -> Seq<WindowSpec>
    decreases s.len(),
{
    if s.len() == 0 || s.last().window_ns <= x.window_ns {
        s.push(x)
    } else {
        put_in_order(s.drop_last(), x).push(s.last())
    }
}

/// Specifications in order of the window, those of the same window in the
/// order in which they came.
pub open spec fn in_order(s: Seq<WindowSpec>) -> Seq<WindowSpec>
    decreases s.len(),
{
    if s.len() == 0 {
        s
    } else {
        put_in_order(in_order(s.drop_last()), s.last())
    }
}

fn insert_in_order(v: &mut Vec<GcraWindowSpec>, x: GcraWindowSpec)
    ensures
        spec_views(final(v)@) == put_in_order(spec_views(old(v)@), x@),
{
    let ghost start = v@;
    let w: u128 = x.window_ns();
    let mut p: usize = v.len();
    let ghost views = spec_views(v@);
    assert(views.take(p as int) =~= views);
    assert(views.skip(p as int) =~= seq![]);
    assert(put_in_order(views, x@) =~= put_in_order(views.take(p as int), x@) + views.skip(
        p as int,
    ));
    while p > 0 && v[p - 1].window_ns() > w
        invariant
            p <= v.len(),
            v@ == start,
            views == spec_views(start),
            w == x@.window_ns,
            put_in_order(views, x@) == put_in_order(views.take(p as int), x@) + views.skip(
                p as int,
            ),
        decreases p,
    {
        proof {
            let t = views.take(p as int);
            assert(t.last() == views[p - 1]);
            assert(t.drop_last() =~= views.take(p - 1));
            assert(put_in_order(t, x@) == put_in_order(views.take(p - 1), x@).push(views[p - 1]));
            assert(put_in_order(views.take(p - 1), x@).push(views[p - 1]) + views.skip(p as int)
                =~= put_in_order(views.take(p - 1), x@) + views.skip(p - 1));
        }
        p = p - 1;
    }
    proof {
        let t = views.take(p as int);
        if p > 0 {
            assert(t.last() == views[p - 1]);
        }
        assert(put_in_order(t, x@) == t.push(x@));
    }
    v.insert(p, x);
    assert(spec_views(v@) =~= views.take(p as int).push(x@) + views.skip(p as int));
}

/// The specifications in order of the window.
pub fn sort_specs(specs: &Vec<GcraWindowSpec>) -> (r: Vec<GcraWindowSpec>)
    ensures
        spec_views(r@) == in_order(spec_views(specs@)),
        r@.len() == specs@.len(),
{
    let ghost all = spec_views(specs@);
    let mut r: Vec<GcraWindowSpec> = Vec::new();
    let mut i: usize = 0;
    assert(spec_views(r@) =~= all.take(0));
    while i < specs.len()
        invariant
            i <= specs.len(),
            all == spec_views(specs@),
            spec_views(r@) == in_order(all.take(i as int)),
        decreases specs.len() - i,
    {
        assert(all.take(i + 1).drop_last() =~= all.take(i as int));
        assert(all.take(i + 1).last() == specs@[i as int]@);
        insert_in_order(&mut r, specs[i]);
        i = i + 1;
    }
    assert(all.take(i as int) =~= all);
    proof {
        law_sorting_keeps_every_window(all);
        all.to_multiset_ensures();
        in_order(all).to_multiset_ensures();
        assert(r@.len() == spec_views(r@).len());
    }
    r
}

/// Sorting keeps every window, and orders them from the shortest to the
/// longest.
pub proof fn law_sorting_keeps_every_window(s: Seq<WindowSpec>)
    ensures
        in_order(s).to_multiset() == s.to_multiset(),
        forall|i: int, j: int|
            0 <= i <= j < in_order(s).len() ==> (#[trigger] in_order(s)[i]).window_ns <= (
            #[trigger] in_order(s)[j]).window_ns,
    decreases s.len(),
{
    if s.len() > 0 {
        let t = s.drop_last();
        law_sorting_keeps_every_window(t);
        lemma_put_in_order(in_order(t), s.last());
        assert(s =~= t.push(s.last()));
        t.to_multiset_ensures();
    }
}

proof fn lemma_put_in_order(s: Seq<WindowSpec>, x: WindowSpec)
    requires
        forall|i: int, j: int|
            0 <= i <= j < s.len() ==> (#[trigger] s[i]).window_ns <= (#[trigger] s[j]).window_ns,
    ensures
        put_in_order(s, x).to_multiset() == s.to_multiset().insert(x),
        put_in_order(s, x).len() == s.len() + 1,
        forall|i: int, j: int|
            0 <= i <= j < put_in_order(s, x).len() ==> (#[trigger] put_in_order(s, x)[i]).window_ns
                <= (#[trigger] put_in_order(s, x)[j]).window_ns,
        s.len() > 0 && s.last().window_ns > x.window_ns ==> put_in_order(s, x).last() == s.last(),
        forall|i: int|
            0 <= i < put_in_order(s, x).len() ==> (#[trigger] put_in_order(s, x)[i]) == x
                || s.contains(put_in_order(s, x)[i]),
    decreases s.len(),
{
    s.to_multiset_ensures();
    if s.len() == 0 || s.last().window_ns <= x.window_ns {
        let r = s.push(x);
        assert forall|i: int, j: int| 0 <= i <= j < r.len() implies (#[trigger] r[i]).window_ns <= (
        #[trigger] r[j]).window_ns by {
            if j == s.len() && i < s.len() {
                assert(s[i].window_ns <= s[s.len() - 1].window_ns);
            }
        }
        assert forall|i: int| 0 <= i < r.len() implies (#[trigger] r[i]) == x || s.contains(
            r[i],
        ) by {
            if i < s.len() {
                assert(s[i] == r[i]);
            }
        }
    } else {
        let t = s.drop_last();
        assert forall|i: int, j: int| 0 <= i <= j < t.len() implies (#[trigger] t[i]).window_ns <= (
        #[trigger] t[j]).window_ns by {
            assert(t[i] == s[i] && t[j] == s[j]);
        }
        lemma_put_in_order(t, x);
        let u = put_in_order(t, x);
        let r = u.push(s.last());
        t.to_multiset_ensures();
        u.to_multiset_ensures();
        assert(s =~= t.push(s.last()));
        assert(r.to_multiset() =~= s.to_multiset().insert(x));
        assert forall|i: int| 0 <= i < u.len() implies (#[trigger] u[i]).window_ns
            <= s.last().window_ns by {
            if u[i] != x {
                assert(t.contains(u[i]));
                let k = choose|k: int| 0 <= k < t.len() && t[k] == u[i];
                assert(s[k].window_ns <= s[s.len() - 1].window_ns);
            }
        }
        assert forall|i: int, j: int| 0 <= i <= j < r.len() implies (#[trigger] r[i]).window_ns <= (
        #[trigger] r[j]).window_ns by {
            if i < u.len() {
                assert(r[i] == u[i]);
            }
            if j < u.len() {
                assert(r[j] == u[j]);
            }
        }
        assert forall|i: int| 0 <= i < r.len() implies (#[trigger] r[i]) == x || s.contains(
            r[i],
        ) by {
            if i < u.len() {
                assert(r[i] == u[i]);
                if u[i] != x {
                    let k = choose|k: int| 0 <= k < t.len() && t[k] == u[i];
                    assert(s[k] == r[i]);
                }
            } else {
                assert(s[s.len() - 1] == r[i]);
            }
        }
    }
}

} // verus!
