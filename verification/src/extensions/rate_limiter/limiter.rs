//! The limiter: stacked windows with their keyed state.

use vstd::prelude::*;
use vstd::string::*;

use crate::extensions::rate_limiter::gcra;
use crate::extensions::rate_limiter::gcra::{
    decide, denied_outcome, remaining, sort_specs, GcraOutcome, GcraWindowSpec, RateDecision,
    Verdict, WindowSpec, GCRA_STORE_SHARDS,
};
use crate::extensions::rate_limiter::shard;
use crate::extensions::rate_limiter::shard::{sweep_if_crowded, GcraCell};
use crate::text_map::TextMap;

verus! {

/// One stacked window with its keyed state.
pub struct GcraWindow {
    t: u128,
    burst: u32,
    full_refill_ms: u64,
    cap: usize,
    shards: Vec<TextMap<GcraCell>>,
    evictions: u64,
}

/// What a window is: the time in which one token comes back (nanoseconds),
/// the bucket size, the time in which an empty bucket fills up
/// (milliseconds), the keys that a shard holds at most, the cells of its
/// shards, and how many cells were dropped.
#[verifier::ext_equal]
pub struct Window {
    pub t: int,
    pub burst: int,
    pub full_refill_ms: u64,
    pub cap: nat,
    pub shards: Seq<Map<Seq<char>, GcraCell>>,
    pub evictions: u64,
}

impl View for GcraWindow {
    type V = Window;

    closed spec fn view(&self) -> Window {
        Window {
            t: self.t as int,
            burst: self.burst as int,
            full_refill_ms: self.full_refill_ms,
            cap: self.cap as nat,
            shards: self.shards@.map_values(|m: TextMap<GcraCell>| m@),
            evictions: self.evictions,
        }
    }
}

/// Whether a window's numbers fit together.
pub open spec fn is_window(w: Window) -> bool {
    &&& gcra::is_bucket(w.t, w.burst)
    &&& w.shards.len() == GCRA_STORE_SHARDS
    &&& forall|i: int, k: Seq<char>|
        0 <= i < w.shards.len() && (#[trigger] w.shards[i].dom().contains(k)) ==> gcra::is_arrival(
            w.t,
            w.burst,
            w.shards[i][k].tat as int,
        )
}

/// The time in which a token comes back, in nanoseconds. A window too short
/// for its requests counts as one second.
pub open spec fn period_of(s: WindowSpec) -> int {
    if s.window_ns / s.requests > 0 {
        s.window_ns / s.requests
    } else {
        1_000_000_000int / s.requests
    }
}

/// Nanoseconds as milliseconds, as far as 64 bits go.
pub open spec fn as_millis(ns: int) -> u64 {
    if ns / 1_000_000 <= u64::MAX {
        (ns / 1_000_000) as u64
    } else {
        u64::MAX
    }
}

/// A window that nothing was asked of yet.
pub open spec fn new_window(s: WindowSpec, cap: nat) -> Window {
    Window {
        t: gcra::later(period_of(s), 1),
        burst: s.burst,
        full_refill_ms: as_millis(period_of(s) * s.burst),
        cap,
        shards: Seq::new(GCRA_STORE_SHARDS as nat, |i: int| Map::empty()),
        evictions: 0,
    }
}

/// The arrival time of a key in a shard, unless it is fresh.
pub open spec fn arrival(m: Map<Seq<char>, GcraCell>, key: Seq<char>) -> Option<u128> {
    if m.dom().contains(key) && m[key].tat != 0 {
        Some(m[key].tat)
    } else {
        None
    }
}

/// A shard after a verdict on a key: an allowed request moves the arrival
/// time on, and every request touches the cell of a key that has one.
pub open spec fn touched(
    m: Map<Seq<char>, GcraCell>,
    key: Seq<char>,
    v: Verdict,
    now_ms: u64,
) -> Map<Seq<char>, GcraCell> {
    match v {
        Verdict::Allowed(next) => m.insert(key, GcraCell { tat: next, last_touch_ms: now_ms }),
        _ => if m.dom().contains(key) {
            m.insert(key, GcraCell { tat: m[key].tat, last_touch_ms: now_ms })
        } else {
            m
        },
    }
}

/// A request: its key, its cost, the hash by which the shard of the key is
/// picked, and the time on the two clocks.
pub struct Ask {
    pub key: Seq<char>,
    pub cost: int,
    pub hash: u64,
    pub now_ns: u64,
    pub now_ms: u64,
}

/// A request of a cost, which is at least one.
pub open spec fn ask_of(key: Seq<char>, cost: u32, hash: u64, now_ns: u64, now_ms: u64) -> Ask {
    Ask {
        key,
        cost: if cost == 0 {
            1
        } else {
            cost as int
        },
        hash,
        now_ns,
        now_ms,
    }
}

/// Whether a window gives a verdict on a request and is `after` it: a cost
/// that never fits changes nothing; any other request first sweeps its shard
/// if that has reached its cap, and is then decided by the arrival time of
/// its key.
pub open spec fn is_step(w: Window, a: Ask, v: Verdict, after: Window) -> bool {
    let h = (a.hash % 16) as int;
    if a.cost > w.burst {
        v == Verdict::TooLarge && after == w
    } else {
        exists|m: Map<Seq<char>, GcraCell>|
            {
                &&& #[trigger] shard::is_swept(
                    w.shards[h],
                    m,
                    a.now_ms,
                    w.full_refill_ms,
                    w.cap,
                )
                &&& v == gcra::verdict(w.t, w.burst, arrival(m, a.key), a.cost, a.now_ns as int)
                &&& after == (Window {
                    shards: w.shards.update(h, touched(m, a.key, v, a.now_ms)),
                    evictions: ((w.evictions + w.shards[h].dom().len() - m.dom().len())
                        % 0x1_0000_0000_0000_0000) as u64,
                    ..w
                })
            }
    }
}

impl GcraWindow {
    /// A window that nothing was asked of yet, with at most `cap` keys in a
    /// shard.
    pub fn new(spec: GcraWindowSpec, cap: usize) -> (w: Self)
        ensures
            w@ == new_window(spec@, cap as nat),
            is_window(w@),
    {
        let requests: u128 = spec.requests() as u128;
        let burst: u32 = spec.burst();
        let window: u128 = spec.window_ns();
        let quotient: u128 = window / requests;
        proof {
            assert(quotient <= window) by (nonlinear_arith)
                requires
                    quotient == window / requests,
                    requests >= 1,
            ;
            assert(1_000_000_000u128 / requests <= 1_000_000_000) by (nonlinear_arith)
                requires
                    requests >= 1,
            ;
        }
        let period: u128 = if quotient > 0 {
            quotient
        } else {
            1_000_000_000 / requests
        };
        let t: u128 = if period >= 1 {
            period
        } else {
            1
        };
        proof {
            assert(period * burst <= gcra::MAX_WINDOW_NS * 4_294_967_296) by (nonlinear_arith)
                requires
                    0 <= period <= gcra::MAX_WINDOW_NS,
                    burst <= 4_294_967_295,
            ;
        }
        let refill: u128 = (period * burst as u128) / 1_000_000;
        let full_refill_ms: u64 = if refill <= u64::MAX as u128 {
            refill as u64
        } else {
            u64::MAX
        };
        let mut shards: Vec<TextMap<GcraCell>> = Vec::new();
        let mut i: usize = 0;
        while i < GCRA_STORE_SHARDS
            invariant
                i <= GCRA_STORE_SHARDS,
                shards.len() == i,
                forall|j: int|
                    0 <= j < i ==> (#[trigger] shards@[j])@ == Map::<Seq<char>, GcraCell>::empty(),
            decreases GCRA_STORE_SHARDS - i,
        {
            shards.push(TextMap::new());
            i = i + 1;
        }
        let w = GcraWindow { t, burst, full_refill_ms, cap, shards, evictions: 0 };
        assert(w@.shards =~= new_window(spec@, cap as nat).shards);
        w
    }

    /// Decides on a request, and reserves its cost if it is allowed.
    pub fn check(&mut self, key: &str, cost: u32, hash: u64, now_ns: u64, now_ms: u64) -> (v:
        Verdict)
        requires
            is_window(old(self)@),
            cost >= 1,
        ensures
            is_window(final(self)@),
            is_step(
                old(self)@,
                (Ask { key: key@, cost: cost as int, hash, now_ns, now_ms }),
                v,
                final(self)@,
            ),
            v matches Verdict::Allowed(next) ==> gcra::is_arrival(
                old(self)@.t,
                old(self)@.burst,
                next as int,
            ),
    {
        if cost > self.burst {
            return Verdict::TooLarge;
        }
        let ghost before = self@;
        let h: usize = (hash % 16) as usize;
        let mut cells: TextMap<GcraCell> = TextMap::new();
        std::mem::swap(&mut cells, &mut self.shards[h]);
        let ghost m0 = cells@;
        assert(m0 == before.shards[h as int]);
        let dropped: u64 = sweep_if_crowded(&mut cells, now_ms, self.full_refill_ms, self.cap);
        let ghost m = cells@;
        assert(forall|k: Seq<char>| #[trigger]
            m.dom().contains(k) ==> m0.dom().contains(k) && m[k] == m0[k]);
        let known: Option<GcraCell> = match cells.get(key) {
            Some(c) => Some(*c),
            None => None,
        };
        let tat: Option<u128> = match known {
            Some(c) => if c.tat == 0 {
                None
            } else {
                Some(c.tat)
            },
            None => None,
        };
        assert(tat == arrival(m, key@));
        let v = decide(self.t, self.burst, tat, cost, now_ns);
        match v {
            Verdict::Allowed(next) => {
                cells.insert(key.to_owned(), GcraCell { tat: next, last_touch_ms: now_ms });
            },
            _ => {
                if let Some(c) = known {
                    cells.insert(key.to_owned(), GcraCell { tat: c.tat, last_touch_ms: now_ms });
                }
            },
        }
        let ghost after = cells@;
        assert(after == touched(m, key@, v, now_ms));
        std::mem::swap(&mut cells, &mut self.shards[h]);
        self.evictions = self.evictions.wrapping_add(dropped);
        proof {
            assert(self@.shards =~= before.shards.update(h as int, after));
            let a = Ask { key: key@, cost: cost as int, hash, now_ns, now_ms };
            assert(shard::is_swept(
                before.shards[h as int],
                m,
                now_ms,
                before.full_refill_ms,
                before.cap,
            ));
            assert(is_step(before, a, v, self@));
            assert forall|i: int, k: Seq<char>|
                0 <= i < self@.shards.len() && (#[trigger] self@.shards[i].dom().contains(k)) implies
                    gcra::is_arrival(self@.t, self@.burst, self@.shards[i][k].tat as int) by {
                if i == h {
                    if k != key@ {
                        assert(m.dom().contains(k));
                        assert(before.shards[i].dom().contains(k));
                    } else if m.dom().contains(k) {
                        assert(before.shards[i].dom().contains(k));
                    }
                } else {
                    assert(before.shards[i].dom().contains(k));
                }
            }
        }
        v
    }

    /// The number of live cells.
    pub fn len(&self) -> (n: u64)
        ensures
            n == capped(live_cells(self@.shards, self@.shards.len())),
    {
        let mut n: u64 = 0;
        let mut i: usize = 0;
        let ghost s = self@.shards;
        while i < self.shards.len()
            invariant
                i <= self.shards.len(),
                s == self@.shards,
                s.len() == self.shards@.len(),
                n == capped(live_cells(s, i as nat)),
            decreases self.shards.len() - i,
        {
            assert(s[i as int] == self.shards@[i as int]@);
            n = n.saturating_add(self.shards[i].len() as u64);
            i = i + 1;
        }
        n
    }
}

/// A count, as far as 64 bits go.
pub open spec fn capped(n: nat) -> u64 {
    if n <= u64::MAX {
        n as u64
    } else {
        u64::MAX
    }
}

/// The live cells of the first `n` shards.
pub open spec fn live_cells(s: Seq<Map<Seq<char>, GcraCell>>, n: nat) -> nat
    decreases n,
{
    if n == 0 {
        0
    } else {
        live_cells(s, (n - 1) as nat) + s[n - 1].dom().len()
    }
}

/// What windows are.
pub open spec fn window_views(v: Seq<GcraWindow>) -> Seq<Window> {
    v.map_values(|w: GcraWindow| w@)
}

/// Whether stacked windows give verdicts on a request, one after the other up
/// to the first that does not allow it, and are `after` it.
pub open spec fn is_stacked_step(
    ws: Seq<Window>,
    a: Ask,
    vs: Seq<Verdict>,
    after: Seq<Window>,
) -> bool {
    &&& vs.len() <= ws.len()
    &&& after.len() == ws.len()
    &&& forall|j: int| 0 <= j < vs.len() ==> is_step(ws[j], a, #[trigger] vs[j], after[j])
    &&& forall|j: int| vs.len() <= j < ws.len() ==> #[trigger] after[j] == ws[j]
    &&& forall|j: int| 0 <= j < vs.len() - 1 ==> (#[trigger] vs[j]) is Allowed
    &&& vs.len() < ws.len() ==> vs.len() > 0 && !(vs.last() is Allowed)
}

/// The tokens left in each window after it allowed a request.
pub open spec fn left_in(w: Window, a: Ask, v: Verdict) -> int {
    gcra::tokens_left(w.t, w.burst, a.now_ns as int, v->Allowed_0 as int)
}

/// Whether the window at `b` is the one with the fewest tokens left, the
/// first of several.
pub open spec fn is_tightest(ws: Seq<Window>, a: Ask, vs: Seq<Verdict>, b: int) -> bool {
    &&& 0 <= b < vs.len()
    &&& forall|j: int|
        0 <= j < vs.len() ==> left_in(ws[b], a, vs[b]) <= left_in(ws[j], a, #[trigger] vs[j])
    &&& forall|j: int|
        0 <= j < b ==> left_in(ws[b], a, vs[b]) < left_in(ws[j], a, #[trigger] vs[j])
}

/// Whether `o` is the outcome of the verdicts of stacked windows: the denial
/// of the last of them, or else the window with the fewest tokens left.
pub open spec fn is_outcome(ws: Seq<Window>, a: Ask, vs: Seq<Verdict>, o: GcraOutcome) -> bool {
    let w = ws[vs.len() - 1];
    match vs.last() {
        Verdict::TooLarge => o == gcra::denial(w.burst as u32, w.full_refill_ms),
        Verdict::NotUntil(e) => o == gcra::denial(w.burst as u32, as_millis(e - a.now_ns)),
        Verdict::Allowed(_) => exists|b: int|
            {
                &&& #[trigger] is_tightest(ws, a, vs, b)
                &&& o == (GcraOutcome {
                    decision: RateDecision {
                        allowed: true,
                        remaining: left_in(ws[b], a, vs[b]) as u64,
                        retry_after_ms: None,
                    },
                    limit: ws[b].burst as u32,
                    refill_ms: as_millis(ws[b].t * ws[b].burst),
                })
            },
    }
}

/// Limiter over one or more stacked windows, the shortest first.
pub struct GcraRateLimiter {
    windows: Vec<GcraWindow>,
}

impl View for GcraRateLimiter {
    type V = Seq<Window>;

    closed spec fn view(&self) -> Seq<Window> {
        window_views(self.windows@)
    }
}

/// Whether a limiter's windows fit together.
pub open spec fn is_limiter(ws: Seq<Window>) -> bool {
    &&& ws.len() > 0
    &&& forall|j: int| 0 <= j < ws.len() ==> is_window(#[trigger] ws[j])
}

/// The windows of a limiter that nothing was asked of yet.
pub open spec fn new_windows(specs: Seq<WindowSpec>, cap: nat) -> Seq<Window> {
    gcra::in_order(specs).map_values(|s: WindowSpec| new_window(s, cap))
}

impl GcraRateLimiter {
    /// New limiter over the given windows (in any order), with at most `cap`
    /// keys in a shard of a window. None for no windows: a limiter without
    /// windows cannot make decisions.
    pub fn new(specs: &Vec<GcraWindowSpec>, cap: usize) -> (r: Option<Self>)
        ensures
            match r {
                Some(l) => {
                    &&& specs@.len() > 0
                    &&& l@ == new_windows(gcra::spec_views(specs@), cap as nat)
                    &&& is_limiter(l@)
                },
                None => specs@.len() == 0,
            },
    {
        if specs.len() == 0 {
            return None;
        }
        let sorted = sort_specs(specs);
        let ghost views = gcra::spec_views(sorted@);
        let mut windows: Vec<GcraWindow> = Vec::new();
        let mut i: usize = 0;
        while i < sorted.len()
            invariant
                i <= sorted.len(),
                windows.len() == i,
                views == gcra::spec_views(sorted@),
                forall|j: int|
                    0 <= j < i ==> (#[trigger] windows@[j])@ == new_window(views[j], cap as nat)
                        && is_window(windows@[j]@),
            decreases sorted.len() - i,
        {
            windows.push(GcraWindow::new(sorted[i], cap));
            i = i + 1;
        }
        let l = GcraRateLimiter { windows };
        assert(l@ =~= new_windows(gcra::spec_views(specs@), cap as nat));
        Some(l)
    }

    /// Check-and-reserve `cost` units for `key` across all stacked windows.
    /// A cost of 0 is treated as 1; a cost larger than any window's bucket is
    /// always denied. `hash` picks the shard of the key and is to be the same
    /// for the same key.
    pub fn check(&mut self, key: &str, cost: u32, hash: u64, now_ns: u64, now_ms: u64) -> (o:
        GcraOutcome)
        requires
            is_limiter(old(self)@),
        ensures
            is_limiter(final(self)@),
            ({
                let a = ask_of(key@, cost, hash, now_ns, now_ms);
                exists|vs: Seq<Verdict>|
                    #[trigger] is_stacked_step(old(self)@, a, vs, final(self)@) && is_outcome(
                        old(self)@,
                        a,
                        vs,
                        o,
                    )
            }),
    {
        let units: u32 = if cost == 0 {
            1
        } else {
            cost
        };
        let ghost a = ask_of(key@, cost, hash, now_ns, now_ms);
        assert(a == Ask { key: key@, cost: units as int, hash, now_ns, now_ms });
        let ghost start = self@;
        let ghost mut vs: Seq<Verdict> = seq![];
        let mut best: Option<(usize, u64)> = None;
        let mut i: usize = 0;
        while i < self.windows.len()
            invariant
                i <= self.windows.len(),
                start == old(self)@,
                is_limiter(start),
                self@.len() == start.len(),
                self.windows@.len() == start.len(),
                a == ask_of(key@, cost, hash, now_ns, now_ms),
                a == (Ask { key: key@, cost: units as int, hash, now_ns, now_ms }),
                units >= 1,
                units == if cost == 0 {
                    1
                } else {
                    cost
                },
                vs.len() == i,
                forall|j: int|
                    0 <= j < i ==> is_step(start[j], a, #[trigger] vs[j], self@[j])
                        && vs[j] is Allowed,
                forall|j: int| i <= j < start.len() ==> #[trigger] self@[j] == start[j],
                forall|j: int| 0 <= j < start.len() ==> is_window(#[trigger] self@[j]),
                i == 0 ==> best is None,
                i > 0 ==> {
                    &&& best matches Some(p)
                    &&& is_tightest(start, a, vs, p.0 as int)
                    &&& p.1 == left_in(start[p.0 as int], a, vs[p.0 as int])
                },
            decreases self.windows.len() - i,
        {
            let ghost before = self@;
            assert(before[i as int] == self.windows@[i as int]@);
            let v = self.windows[i].check(key, units, hash, now_ns, now_ms);
            let ghost old_vs = vs;
            proof {
                vs = vs.push(v);
                assert(self@ =~= before.update(i as int, self.windows@[i as int]@));
                assert forall|j: int| 0 <= j < vs.len() implies is_step(
                    start[j],
                    a,
                    #[trigger] vs[j],
                    self@[j],
                ) by {
                    if j < i {
                        assert(vs[j] == old_vs[j]);
                    }
                }
            }
            match v {
                Verdict::TooLarge => {
                    let w = &self.windows[i];
                    let o = denied_outcome(w.burst, w.full_refill_ms);
                    proof {
                        lemma_step_keeps(start[i as int], a, v, self@[i as int]);
                        assert(is_stacked_step(start, a, vs, self@));
                        assert(is_outcome(start, a, vs, o));
                    }
                    return o;
                },
                Verdict::NotUntil(e) => {
                    let w = &self.windows[i];
                    proof {
                        lemma_step_keeps(start[i as int], a, v, self@[i as int]);
                        lemma_not_until_is_later(start[i as int], a, v, self@[i as int]);
                    }
                    let wait: u128 = (e - now_ns as u128) / 1_000_000;
                    let wait_ms: u64 = if wait <= u64::MAX as u128 {
                        wait as u64
                    } else {
                        u64::MAX
                    };
                    let o = denied_outcome(w.burst, wait_ms);
                    proof {
                        assert(is_stacked_step(start, a, vs, self@));
                        assert(is_outcome(start, a, vs, o));
                    }
                    return o;
                },
                Verdict::Allowed(next) => {
                    proof {
                        lemma_step_keeps(start[i as int], a, v, self@[i as int]);
                    }
                    let left: u64 = remaining(self.windows[i].t, self.windows[i].burst, now_ns, next);
                    let tighter = match best {
                        Some(p) => left < p.1,
                        None => true,
                    };
                    proof {
                        assert(left == left_in(start[i as int], a, vs[i as int]));
                        if i > 0 {
                            let p = best->Some_0;
                            assert(vs[p.0 as int] == old_vs[p.0 as int]);
                            assert forall|j: int| 0 <= j < i implies left_in(
                                start[j],
                                a,
                                #[trigger] vs[j],
                            ) == left_in(start[j], a, old_vs[j]) by {}
                            if tighter {
                                assert forall|j: int| 0 <= j < i implies left < left_in(
                                    start[j],
                                    a,
                                    #[trigger] vs[j],
                                ) by {
                                    assert(old_vs[j] == vs[j]);
                                    assert(left_in(start[p.0 as int], a, old_vs[p.0 as int])
                                        <= left_in(start[j], a, old_vs[j]));
                                }
                                assert(is_tightest(start, a, vs, i as int));
                            } else {
                                assert forall|j: int| 0 <= j < vs.len() implies left_in(
                                    start[p.0 as int],
                                    a,
                                    vs[p.0 as int],
                                ) <= left_in(start[j], a, #[trigger] vs[j]) by {
                                    if j < i {
                                        assert(old_vs[j] == vs[j]);
                                    }
                                }
                                assert forall|j: int| 0 <= j < p.0 implies left_in(
                                    start[p.0 as int],
                                    a,
                                    vs[p.0 as int],
                                ) < left_in(start[j], a, #[trigger] vs[j]) by {
                                    assert(old_vs[j] == vs[j]);
                                }
                                assert(is_tightest(start, a, vs, p.0 as int));
                            }
                        } else {
                            assert(is_tightest(start, a, vs, 0));
                        }
                    }
                    if tighter {
                        best = Some((i, left));
                    }
                },
            }
            i = i + 1;
        }
        let (b, left) = match best {
            Some(p) => p,
            None => {
                assert(false);
                (0, 0)
            },
        };
        let w = &self.windows[b];
        proof {
            assert(is_step(start[b as int], a, vs[b as int], self@[b as int]));
            lemma_step_keeps(start[b as int], a, vs[b as int], self@[b as int]);
            assert(self@[b as int] == self.windows@[b as int]@);
            assert(is_window(self@[b as int]));
            lemma_full(w@.t, w@.burst);
        }
        let refill: u128 = (w.t * w.burst as u128) / 1_000_000;
        let refill_ms: u64 = if refill <= u64::MAX as u128 {
            refill as u64
        } else {
            u64::MAX
        };
        let o = GcraOutcome {
            decision: RateDecision { allowed: true, remaining: left, retry_after_ms: None },
            limit: w.burst,
            refill_ms,
        };
        proof {
            assert(is_stacked_step(start, a, vs, self@));
            assert(is_tightest(start, a, vs, b as int));
            assert(is_outcome(start, a, vs, o));
        }
        o
    }

    /// Live cells across all stacked windows.
    pub fn live_keys(&self) -> (n: u64)
        ensures
            n == capped(live_in_windows(self@, self@.len())),
    {
        let mut n: u64 = 0;
        let mut i: usize = 0;
        let ghost ws = self@;
        while i < self.windows.len()
            invariant
                i <= self.windows.len(),
                ws == self@,
                ws.len() == self.windows@.len(),
                n == capped(live_in_windows(ws, i as nat)),
            decreases self.windows.len() - i,
        {
            assert(ws[i as int] == self.windows@[i as int]@);
            n = n.saturating_add(self.windows[i].len());
            i = i + 1;
        }
        n
    }

    /// Cells dropped by sweeps across all stacked windows.
    pub fn evictions(&self) -> (n: u64)
        ensures
            n == dropped_in_windows(self@, self@.len()),
    {
        let mut n: u64 = 0;
        let mut i: usize = 0;
        let ghost ws = self@;
        while i < self.windows.len()
            invariant
                i <= self.windows.len(),
                ws == self@,
                ws.len() == self.windows@.len(),
                n == dropped_in_windows(ws, i as nat),
            decreases self.windows.len() - i,
        {
            assert(ws[i as int] == self.windows@[i as int]@);
            n = n.wrapping_add(self.windows[i].evictions);
            i = i + 1;
        }
        n
    }
}

/// The live cells of the first `n` windows.
pub open spec fn live_in_windows(ws: Seq<Window>, n: nat) -> nat
    decreases n,
{
    if n == 0 {
        0
    } else {
        live_in_windows(ws, (n - 1) as nat) + live_cells(ws[n - 1].shards, ws[n - 1].shards.len())
    }
}

/// The cells dropped by the first `n` windows, on a counter of 64 bits.
pub open spec fn dropped_in_windows(ws: Seq<Window>, n: nat) -> int
    decreases n,
{
    if n == 0 {
        0
    } else {
        (dropped_in_windows(ws, (n - 1) as nat) + ws[n - 1].evictions) % 0x1_0000_0000_0000_0000
    }
}

proof fn lemma_full(t: int, burst: int)
    requires
        gcra::is_bucket(t, burst),
    ensures
        0 <= t * burst <= 79_228_162_514_264_337_593_543_950_336_000_000_000,
{
    assert(0 <= t * burst <= gcra::MAX_WINDOW_NS * 4_294_967_296) by (nonlinear_arith)
        requires
            1 <= t <= gcra::MAX_WINDOW_NS,
            1 <= burst <= 4_294_967_295,
    ;
}

proof fn lemma_step_keeps(w: Window, a: Ask, v: Verdict, after: Window)
    requires
        is_step(w, a, v, after),
    ensures
        after.t == w.t,
        after.burst == w.burst,
        after.full_refill_ms == w.full_refill_ms,
        after.cap == w.cap,
{
}

proof fn lemma_not_until_is_later(w: Window, a: Ask, v: Verdict, after: Window)
    requires
        is_window(w),
        a.cost >= 1,
        is_step(w, a, v, after),
        v is NotUntil,
    ensures
        v->NotUntil_0 > a.now_ns,
{
    let h = (a.hash % 16) as int;
    let m = choose|m: Map<Seq<char>, GcraCell>|
        {
            &&& #[trigger] shard::is_swept(w.shards[h], m, a.now_ms, w.full_refill_ms, w.cap)
            &&& v == gcra::verdict(w.t, w.burst, arrival(m, a.key), a.cost, a.now_ns as int)
            &&& after == (Window {
                shards: w.shards.update(h, touched(m, a.key, v, a.now_ms)),
                evictions: ((w.evictions + w.shards[h].dom().len() - m.dom().len())
                    % 0x1_0000_0000_0000_0000) as u64,
                ..w
            })
        };
    if m.dom().contains(a.key) {
        assert(w.shards[h].dom().contains(a.key));
        assert(m[a.key] == w.shards[h][a.key]);
    }
    gcra::lemma_bucket_bounds(w.t, w.burst, a.cost);
    gcra::lemma_bucket_bounds(w.t, w.burst, w.burst);
}

} // verus!
