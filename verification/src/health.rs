//! Passive health checking: which endpoints of an upstream to leave alone.
//!
//! Every request's outcome is reported to the tracker of the endpoint it
//! went to. An endpoint is ejected after a run of failures, or when the share
//! of failures in a rolling window is high enough and the window saw enough
//! observations. Once the ejection is over, a few trial requests decide: a
//! success restores the endpoint with a clean history, a failure ejects it
//! again.

use std::collections::VecDeque;
use vstd::prelude::*;

verus! {

/// Default rolling observation window in milliseconds.
pub const DEFAULT_WINDOW_MS: u64 = 60_000;

/// Default consecutive-failure ejection threshold.
pub const DEFAULT_CONSECUTIVE_FAILURES: u32 = 5;

/// Default failure ratio, in billionths: one half.
pub const DEFAULT_FAILURE_RATIO: u64 = 500_000_000;

/// Default minimum observations in the window before the ratio applies.
pub const DEFAULT_FAILURE_MIN_VOLUME: u32 = 20;

/// Default ejection duration in milliseconds.
pub const DEFAULT_EJECT_MS: u64 = 30_000;

/// Default trial requests allowed through per half-open recovery attempt.
pub const DEFAULT_HALF_OPEN_PROBES: u32 = 1;

/// The whole, in billionths.
pub const BILLION: u64 = 1_000_000_000;

/// Passive-health parameters.
#[derive(Debug, Clone, Copy, PartialEq, Eq)]
pub struct HealthParams {
    /// Rolling observation window for the failure ratio (milliseconds).
    pub window_ms: u64,
    /// Eject after this many consecutive failures.
    pub consecutive_failures: u32,
    /// Eject when the failure share in the window is at least this ratio (in
    /// billionths) and there are at least `failure_min_volume` observations.
    pub failure_ratio: u64,
    /// Minimum observations in the window before `failure_ratio` applies.
    pub failure_min_volume: u32,
    /// How long an ejected endpoint stays out of rotation (milliseconds).
    pub eject_ms: u64,
    /// Trial requests allowed through per half-open recovery attempt.
    pub half_open_probes: u32,
}

impl HealthParams {
    /// The parameters that hold where nothing is configured.
    pub fn standard() -> (p: Self)
        ensures
            p == (HealthParams {
                window_ms: DEFAULT_WINDOW_MS,
                consecutive_failures: DEFAULT_CONSECUTIVE_FAILURES,
                failure_ratio: DEFAULT_FAILURE_RATIO,
                failure_min_volume: DEFAULT_FAILURE_MIN_VOLUME,
                eject_ms: DEFAULT_EJECT_MS,
                half_open_probes: DEFAULT_HALF_OPEN_PROBES,
            }),
    {
        HealthParams {
            window_ms: DEFAULT_WINDOW_MS,
            consecutive_failures: DEFAULT_CONSECUTIVE_FAILURES,
            failure_ratio: DEFAULT_FAILURE_RATIO,
            failure_min_volume: DEFAULT_FAILURE_MIN_VOLUME,
            eject_ms: DEFAULT_EJECT_MS,
            half_open_probes: DEFAULT_HALF_OPEN_PROBES,
        }
    }
}

/// The state of an endpoint.
#[derive(Debug, Clone, Copy, PartialEq, Eq, Structural)]
pub enum Status {
    Healthy,
    Ejected,
    HalfOpen,
}

/// What a tracker knows of an endpoint.
#[verifier::ext_equal]
pub struct HealthView {
    pub status: Status,
    /// When the ejection is over; meaningful while ejected.
    pub until: u64,
    /// The trial requests left; meaningful while half-open.
    pub probes: u32,
    /// The failures in a row.
    pub streak: u32,
    /// The observations in the window, oldest first: when, and whether it
    /// was a failure.
    pub events: Seq<(u64, bool)>,
    /// How often the endpoint was ejected.
    pub ejections: u64,
}

/// The observations without those at the front that are older than the
/// window.
pub open spec fn within(s: Seq<(u64, bool)>, now: u64, window: u64) -> Seq<(u64, bool)>
    decreases s.len(),
{
    if s.len() > 0 && (if now >= s[0].0 {
        now - s[0].0
    } else {
        0
    }) >= window {
        within(s.skip(1), now, window)
    } else {
        s
    }
}

/// The number of failures.
pub open spec fn failures(s: Seq<(u64, bool)>) -> nat
    decreases s.len(),
{
    if s.len() == 0 {
        0
    } else {
        failures(s.drop_last()) + if s.last().1 {
            1nat
        } else {
            0
        }
    }
}

/// Whether a healthy endpoint is to be ejected: after enough failures in a
/// row, or with a high enough share of failures among enough observations.
pub open spec fn should_eject(streak: u32, events: Seq<(u64, bool)>, p: HealthParams) -> bool {
    ||| streak >= p.consecutive_failures
    ||| events.len() >= p.failure_min_volume && failures(events) * BILLION >= p.failure_ratio
        * events.len()
}

/// An endpoint that is ejected, with a clean history.
pub open spec fn ejected(v: HealthView, p: HealthParams, now: u64) -> HealthView {
    HealthView {
        status: Status::Ejected,
        until: (now + p.eject_ms) as u64,
        streak: 0,
        events: seq![],
        ejections: if v.ejections == u64::MAX {
            0
        } else {
            (v.ejections + 1) as u64
        },
        ..v
    }
}

/// An endpoint that is healthy again, with a clean history.
pub open spec fn recovered(v: HealthView) -> HealthView {
    HealthView { status: Status::Healthy, streak: 0, events: seq![], ..v }
}

/// The endpoint with one observation taken in.
pub open spec fn observed(v: HealthView, p: HealthParams, now: u64, failure: bool) -> HealthView {
    HealthView {
        events: within(v.events.push((now, failure)), now, p.window_ms),
        streak: if !failure || v.streak == u32::MAX {
            0
        } else {
            (v.streak + 1) as u32
        },
        ..v
    }
}

/// Whether one observation ejects an endpoint: a failed trial does, and so
/// does a failure that makes a healthy endpoint meet the conditions.
pub open spec fn ejects(v: HealthView, p: HealthParams, now: u64, failure: bool) -> bool {
    let w = observed(v, p, now, failure);
    failure && (v.status == Status::HalfOpen || (v.status == Status::Healthy && should_eject(
        w.streak,
        w.events,
        p,
    )))
}

/// What one observation makes of an endpoint.
pub open spec fn reported(v: HealthView, p: HealthParams, now: u64, failure: bool) -> HealthView {
    let w = observed(v, p, now, failure);
    if ejects(v, p, now, failure) {
        ejected(w, p, now)
    } else if !failure && v.status != Status::Healthy {
        recovered(w)
    } else {
        w
    }
}

/// The endpoint once a pick looked at it: an ejection that is over makes it
/// half-open.
pub open spec fn looked_at(v: HealthView, p: HealthParams, now: u64) -> HealthView {
    if v.status == Status::Ejected && now >= v.until {
        HealthView { status: Status::HalfOpen, probes: p.half_open_probes, ..v }
    } else {
        v
    }
}

/// The endpoint with one trial request taken, if any was left.
pub open spec fn probed(v: HealthView) -> HealthView {
    HealthView {
        probes: if v.probes > 0 {
            (v.probes - 1) as u32
        } else {
            0
        },
        ..v
    }
}

/// Whether a pick may use the endpoint, and the endpoint from then on.
pub open spec fn acquired(v: HealthView, p: HealthParams, now: u64) -> (bool, HealthView) {
    let w = looked_at(v, p, now);
    match w.status {
        Status::Healthy => (true, w),
        Status::Ejected => (false, w),
        Status::HalfOpen => (w.probes > 0, probed(w)),
    }
}

/// Whether an endpoint is available at a time.
pub open spec fn available(v: HealthView, now: u64) -> bool {
    match v.status {
        Status::Healthy => true,
        Status::Ejected => now >= v.until,
        Status::HalfOpen => v.probes > 0,
    }
}

/// Passive health tracker of one endpoint.
#[derive(Debug)]
pub struct EndpointHealth {
    status: Status,
    ejected_until_ms: u64,
    probes_remaining: u32,
    consecutive_failures: u32,
    events: VecDeque<(u64, bool)>,
    ejections: u64,
}

impl View for EndpointHealth {
    type V = HealthView;

    closed spec fn view(&self) -> HealthView {
        HealthView {
            status: self.status,
            until: self.ejected_until_ms,
            probes: self.probes_remaining,
            streak: self.consecutive_failures,
            events: self.events@,
            ejections: self.ejections,
        }
    }
}

/// What a fresh tracker knows.
pub open spec fn fresh() -> HealthView {
    HealthView {
        status: Status::Healthy,
        until: 0,
        probes: 0,
        streak: 0,
        events: seq![],
        ejections: 0,
    }
}

impl EndpointHealth {
    /// Fresh tracker: healthy, empty window.
    pub fn new() -> (h: Self)
        ensures
            h@ == fresh(),
    {
        EndpointHealth {
            status: Status::Healthy,
            ejected_until_ms: 0,
            probes_remaining: 0,
            consecutive_failures: 0,
            events: VecDeque::new(),
            ejections: 0,
        }
    }

    /// Makes an endpoint half-open whose ejection is over.
    fn look(&mut self, params: &HealthParams, now: u64)
        ensures
            final(self)@ == looked_at(old(self)@, *params, now),
    {
        if self.status == Status::Ejected && now >= self.ejected_until_ms {
            self.status = Status::HalfOpen;
            self.probes_remaining = params.half_open_probes;
        }
    }

    /// Whether a pick may use this endpoint at `now`; takes one trial
    /// request when the endpoint is half-open.
    pub fn acquire(&mut self, params: &HealthParams, now: u64) -> (r: bool)
        ensures
            (r, final(self)@) == acquired(old(self)@, *params, now),
    {
        self.look(params, now);
        match self.status {
            Status::Healthy => true,
            Status::Ejected => false,
            Status::HalfOpen => self.try_probe(),
        }
    }

    /// Whether a pick may consider this endpoint at `now`; takes no trial
    /// request.
    pub fn is_candidate(&mut self, params: &HealthParams, now: u64) -> (r: bool)
        ensures
            final(self)@ == looked_at(old(self)@, *params, now),
            r == available(old(self)@, now),
    {
        let before = self.status;
        self.look(params, now);
        match before {
            Status::Healthy => true,
            Status::Ejected => self.status == Status::HalfOpen,
            Status::HalfOpen => self.probes_remaining > 0,
        }
    }

    /// Takes one trial request for a pick that selected this endpoint, if
    /// any is left.
    pub fn consume_probe(&mut self)
        ensures
            final(self)@ == probed(old(self)@),
    {
        if self.probes_remaining > 0 {
            self.probes_remaining = self.probes_remaining - 1;
        }
    }

    fn try_probe(&mut self) -> (r: bool)
        ensures
            r == (old(self)@.probes > 0),
            final(self)@ == probed(old(self)@),
    {
        let granted = self.probes_remaining > 0;
        self.consume_probe();
        granted
    }

    /// Whether the endpoint is available at `now`; takes no trial request.
    pub fn is_available(&self, now: u64) -> (r: bool)
        ensures
            r == available(self@, now),
    {
        match self.status {
            Status::Healthy => true,
            Status::Ejected => now >= self.ejected_until_ms,
            Status::HalfOpen => self.probes_remaining > 0,
        }
    }

    /// How often this tracker has ejected the endpoint.
    pub fn ejections(&self) -> (n: u64)
        ensures
            n == self@.ejections,
    {
        self.ejections
    }

    /// Reports one observation at `now`: a failure is a transport error or a
    /// status of 500 or more.
    pub fn report(&mut self, params: &HealthParams, now: u64, is_failure: bool)
        requires
            ejects(old(self)@, *params, now, is_failure) ==> now + params.eject_ms <= u64::MAX,
        ensures
            final(self)@ == reported(old(self)@, *params, now, is_failure),
    {
        let ghost before = self@;
        self.events.push_back((now, is_failure));
        self.forget(now, params.window_ms);
        if is_failure {
            self.consecutive_failures = self.consecutive_failures.wrapping_add(1);
        } else {
            self.consecutive_failures = 0;
        }
        assert(self@ =~= observed(before, *params, now, is_failure));
        match self.status {
            Status::HalfOpen => {
                if is_failure {
                    self.eject(params, now);
                } else {
                    self.recover();
                }
            },
            Status::Ejected => {
                if !is_failure {
                    self.recover();
                }
            },
            Status::Healthy => {
                if is_failure && self.should_eject(params) {
                    self.eject(params, now);
                }
            },
        }
    }

    /// Takes the observations out that are older than the window.
    fn forget(&mut self, now: u64, window: u64)
        ensures
            final(self)@ == (HealthView {
                events: within(old(self)@.events, now, window),
                ..old(self)@
            }),
    {
        let ghost before = self@;
        while self.events.len() > 0 && now.saturating_sub(self.events[0].0) >= window
            invariant
                within(before.events, now, window) == within(self.events@, now, window),
                self@ == (HealthView { events: self.events@, ..before }),
            decreases self.events@.len(),
        {
            let ghost s = self.events@;
            self.events.pop_front();
            assert(self.events@ =~= s.skip(1));
        }
    }

    /// Whether this endpoint, while healthy, is to be ejected.
    fn should_eject(&self, params: &HealthParams) -> (r: bool)
        ensures
            r == should_eject(self@.streak, self@.events, *params),
    {
        if self.consecutive_failures >= params.consecutive_failures {
            return true;
        }
        let volume: usize = self.events.len();
        if (volume as u64) < params.failure_min_volume as u64 {
            return false;
        }
        let mut count: usize = 0;
        let mut i: usize = 0;
        assert(self.events@.take(0) =~= Seq::<(u64, bool)>::empty());
        while i < volume
            invariant
                i <= volume,
                volume == self.events@.len(),
                count == failures(self.events@.take(i as int)),
                count <= i,
            decreases volume - i,
        {
            assert(self.events@.take(i + 1).drop_last() =~= self.events@.take(i as int));
            if self.events[i].1 {
                count = count + 1;
            }
            i = i + 1;
        }
        assert(self.events@.take(volume as int) =~= self.events@);
        proof {
            assert(count * BILLION <= u64::MAX * 1_000_000_000) by (nonlinear_arith)
                requires
                    count <= u64::MAX,
                    BILLION == 1_000_000_000,
            ;
            assert(params.failure_ratio * volume <= u64::MAX * u64::MAX) by (nonlinear_arith)
                requires
                    params.failure_ratio <= u64::MAX,
                    volume <= u64::MAX,
            ;
        }
        count as u128 * BILLION as u128 >= params.failure_ratio as u128 * volume as u128
    }

    /// Ejects the endpoint, with a clean history.
    fn eject(&mut self, params: &HealthParams, now: u64)
        requires
            now + params.eject_ms <= u64::MAX,
        ensures
            final(self)@ == ejected(old(self)@, *params, now),
    {
        self.ejected_until_ms = now + params.eject_ms;
        self.status = Status::Ejected;
        self.consecutive_failures = 0;
        self.events.clear();
        self.ejections = self.ejections.wrapping_add(1);
    }

    /// Makes the endpoint healthy, with a clean history.
    fn recover(&mut self)
        ensures
            final(self)@ == recovered(old(self)@),
    {
        self.status = Status::Healthy;
        self.consecutive_failures = 0;
        self.events.clear();
    }
}

/// The report handle that a pick carries: the endpoint's tracker and the
/// parameters the pick ran against.
#[derive(Debug)]
pub struct HealthDispatch {
    pub tracker: EndpointHealth,
    pub params: HealthParams,
}

impl HealthDispatch {
    /// Reports one outcome at `now`.
    pub fn report(&mut self, now: u64, is_failure: bool)
        requires
            ejects(old(self).tracker@, old(self).params, now, is_failure) ==> now
                + old(self).params.eject_ms <= u64::MAX,
        ensures
            final(self).params == old(self).params,
            final(self).tracker@ == reported(
                old(self).tracker@,
                old(self).params,
                now,
                is_failure,
            ),
    {
        let params = self.params;
        self.tracker.report(&params, now, is_failure);
    }

    /// The tracker behind this dispatch.
    pub fn tracker(&self) -> (t: &EndpointHealth)
        ensures
            *t == self.tracker,
    {
        &self.tracker
    }
}

// ---------------------------------------------------------------------------
// Laws
// ---------------------------------------------------------------------------

/// The endpoint after failures at the given times.
pub open spec fn after_failures(v: HealthView, p: HealthParams, times: Seq<u64>) -> HealthView
    decreases times.len(),
{
    if times.len() == 0 {
        v
    } else {
        reported(after_failures(v, p, times.drop_last()), p, times.last(), true)
    }
}

proof fn lemma_streak(v: HealthView, p: HealthParams, times: Seq<u64>)
    requires
        v.status == Status::Healthy,
        v.streak == 0,
        0 < times.len() <= p.consecutive_failures,
    ensures
        ({
            let w = after_failures(v, p, times);
            ||| w.status == Status::Ejected
            ||| w.status == Status::Healthy && w.streak == times.len() < p.consecutive_failures
        }),
    decreases times.len(),
{
    let before = times.drop_last();
    if before.len() > 0 {
        lemma_streak(v, p, before);
    } else {
        assert(after_failures(v, p, before) == v);
    }
}

/// Enough failures in a row eject an endpoint that had none, whatever the
/// volume and however far apart they are.
pub proof fn law_failures_in_a_row_eject(v: HealthView, p: HealthParams, times: Seq<u64>)
    requires
        v.status == Status::Healthy,
        v.streak == 0,
        times.len() > 0,
        times.len() == p.consecutive_failures,
    ensures
        after_failures(v, p, times).status == Status::Ejected,
{
    lemma_streak(v, p, times);
}

/// A trickle of traffic does not eject: below the threshold of failures in
/// a row and below the volume, a healthy endpoint stays healthy.
pub proof fn law_ratio_needs_volume(v: HealthView, p: HealthParams, now: u64, failure: bool)
    requires
        v.status == Status::Healthy,
        v.streak + 1 < p.consecutive_failures,
        observed(v, p, now, failure).events.len() < p.failure_min_volume,
    ensures
        reported(v, p, now, failure).status == Status::Healthy,
{
}

/// An ejected endpoint is picked no sooner than its ejection is over.
pub proof fn law_ejected_endpoint_is_left_alone(v: HealthView, p: HealthParams, now: u64)
    requires
        v.status == Status::Ejected,
        now < v.until,
    ensures
        acquired(v, p, now) == (false, v),
{
}

/// What picks at the given times get.
pub open spec fn picks(v: HealthView, p: HealthParams, times: Seq<u64>) -> (nat, HealthView)
    decreases times.len(),
{
    if times.len() == 0 {
        (0, v)
    } else {
        let before = picks(v, p, times.drop_last());
        let a = acquired(before.1, p, times.last());
        (
            if a.0 {
                before.0 + 1
            } else {
                before.0
            },
            a.1,
        )
    }
}

/// Once an ejection is over, no more trial requests go through than the
/// budget allows, until one of them is reported; and as many do, if there
/// are as many picks.
pub proof fn law_trials_keep_their_budget(v: HealthView, p: HealthParams, times: Seq<u64>)
    requires
        v.status == Status::Ejected,
        forall|i: int| 0 <= i < times.len() ==> (#[trigger] times[i]) >= v.until,
    ensures
        picks(v, p, times).0 == if times.len() <= p.half_open_probes {
            times.len()
        } else {
            p.half_open_probes as nat
        },
        times.len() > 0 ==> picks(v, p, times).1.status == Status::HalfOpen && picks(
            v,
            p,
            times,
        ).1.probes == p.half_open_probes - picks(v, p, times).0,
    decreases times.len(),
{
    if times.len() > 0 {
        let before = times.drop_last();
        assert forall|i: int| 0 <= i < before.len() implies (#[trigger] before[i])
            >= v.until by {
            assert(before[i] == times[i]);
        }
        law_trials_keep_their_budget(v, p, before);
        assert(times.last() == times[times.len() - 1]);
    }
}

/// A success on an endpoint that is not healthy restores it with a clean
/// history: its old failures cannot eject it again.
pub proof fn law_success_restores(v: HealthView, p: HealthParams, now: u64)
    requires
        v.status != Status::Healthy,
    ensures
        reported(v, p, now, false) == (HealthView {
            status: Status::Healthy,
            streak: 0,
            events: seq![],
            ..v
        }),
{
}

/// A failed trial ejects the endpoint for the whole duration again.
pub proof fn law_failed_trial_ejects_again(v: HealthView, p: HealthParams, now: u64)
    requires
        v.status == Status::HalfOpen,
        now + p.eject_ms <= u64::MAX,
    ensures
        reported(v, p, now, true).status == Status::Ejected,
        reported(v, p, now, true).until == now + p.eject_ms,
{
}

/// The endpoint after reports on a fresh tracker: when each came in, and
/// whether it was a failure.
pub open spec fn after_reports(p: HealthParams, s: Seq<(u64, bool)>) -> HealthView
    decreases s.len(),
{
    if s.len() == 0 {
        fresh()
    } else {
        reported(after_reports(p, s.drop_last()), p, s.last().0, s.last().1)
    }
}

/// Whether an observation is inside the window that ends now.
pub open spec fn in_window(r: (u64, bool), now: u64, window: u64) -> bool {
    now - r.0 < window
}

/// The observations inside the window that ends now.
pub open spec fn window_of(s: Seq<(u64, bool)>, now: u64, window: u64) -> Seq<(u64, bool)> {
    s.filter(|r: (u64, bool)| in_window(r, now, window))
}

/// Whether the last `n` observations were all failures.
pub open spec fn last_failed(s: Seq<(u64, bool)>, n: nat) -> bool {
    n <= s.len() && forall|i: int| s.len() - n <= i < s.len() ==> (#[trigger] s[i]).1
}

/// Whether no time comes before an earlier one.
pub open spec fn in_time(s: Seq<(u64, bool)>) -> bool {
    forall|i: int, j: int| 0 <= i <= j < s.len() ==> (#[trigger] s[i]).0 <= (#[trigger] s[j]).0
}

/// The failures at the end.
spec fn trailing(s: Seq<(u64, bool)>) -> nat
    decreases s.len(),
{
    if s.len() > 0 && s.last().1 {
        1 + trailing(s.drop_last())
    } else {
        0
    }
}

proof fn lemma_trailing(s: Seq<(u64, bool)>, n: nat)
    ensures
        trailing(s) >= n <==> last_failed(s, n),
    decreases s.len(),
{
    if n > 0 {
        if s.len() > 0 {
            let t = s.drop_last();
            lemma_trailing(t, (n - 1) as nat);
            if last_failed(s, n) {
                assert(s[s.len() - 1].1);
                assert forall|i: int| t.len() - (n - 1) <= i < t.len() implies (
                #[trigger] t[i]).1 by {
                    assert(s[i] == t[i]);
                }
            }
            if trailing(s) >= n {
                assert forall|i: int| s.len() - n <= i < s.len() implies (#[trigger] s[i]).1 by {
                    if i < t.len() {
                        assert(t[i] == s[i]);
                    }
                }
            }
        }
    }
}

/// Observations that are too old are passed over, however many they are.
proof fn lemma_within_skips(s: Seq<(u64, bool)>, now: u64, window: u64, n: int)
    requires
        0 <= n <= s.len(),
        forall|i: int| 0 <= i < n ==> (#[trigger] s[i]).0 <= now && !in_window(s[i], now, window),
    ensures
        within(s, now, window) == within(s.skip(n), now, window),
    decreases n,
{
    if n == 0 {
        assert(s.skip(0) =~= s);
    } else {
        let t = s.skip(1);
        assert(s[0].0 <= now);
        assert forall|i: int| 0 <= i < n - 1 implies (#[trigger] t[i]).0 <= now && !in_window(
            t[i],
            now,
            window,
        ) by {
            assert(t[i] == s[i + 1]);
        }
        lemma_within_skips(t, now, window, n - 1);
        assert(t.skip(n - 1) =~= s.skip(n));
    }
}

/// Forgetting takes a number of observations off the front, all too old.
proof fn lemma_within_cut(s: Seq<(u64, bool)>, now: u64, window: u64) -> (n: int)
    requires
        forall|i: int| 0 <= i < s.len() ==> (#[trigger] s[i]).0 <= now,
    ensures
        0 <= n <= s.len(),
        within(s, now, window) == s.skip(n),
        forall|i: int| 0 <= i < n ==> !in_window(#[trigger] s[i], now, window),
        n < s.len() ==> in_window(s[n], now, window),
    decreases s.len(),
{
    if s.len() > 0 && !in_window(s[0], now, window) {
        let t = s.skip(1);
        assert forall|i: int| 0 <= i < t.len() implies (#[trigger] t[i]).0 <= now by {
            assert(t[i] == s[i + 1]);
        }
        let n = lemma_within_cut(t, now, window);
        assert(t.skip(n) =~= s.skip(n + 1));
        assert forall|i: int| 0 <= i < n + 1 implies !in_window(#[trigger] s[i], now, window) by {
            if i > 0 {
                assert(t[i - 1] == s[i]);
            }
        }
        n + 1
    } else {
        assert(s.skip(0) =~= s);
        0
    }
}

proof fn lemma_filter_from(s: Seq<(u64, bool)>, now: u64, window: u64, n: int)
    requires
        0 <= n <= s.len(),
        forall|i: int| 0 <= i < n ==> !in_window(#[trigger] s[i], now, window),
        forall|i: int| n <= i < s.len() ==> in_window(#[trigger] s[i], now, window),
    ensures
        window_of(s, now, window) == s.skip(n),
    decreases s.len(),
{
    reveal(Seq::filter);
    if s.len() > 0 {
        let t = s.drop_last();
        if n == s.len() {
            lemma_filter_from(t, now, window, n - 1);
            assert(t.skip(n - 1) =~= seq![]);
            assert(s.skip(n) =~= seq![]);
            assert(!in_window(s[s.len() - 1], now, window));
        } else {
            lemma_filter_from(t, now, window, n);
            assert(in_window(s[s.len() - 1], now, window));
            assert(t.skip(n).push(s.last()) =~= s.skip(n));
        }
    } else {
        assert(s.skip(n) =~= seq![]);
    }
}

/// In the order of time, what is not forgotten is what is in the window.
proof fn lemma_within_is_window(s: Seq<(u64, bool)>, now: u64, window: u64)
    requires
        in_time(s),
        forall|i: int| 0 <= i < s.len() ==> (#[trigger] s[i]).0 <= now,
    ensures
        within(s, now, window) == window_of(s, now, window),
{
    let n = lemma_within_cut(s, now, window);
    assert forall|i: int| n <= i < s.len() implies in_window(#[trigger] s[i], now, window) by {
        assert(s[n].0 <= s[i].0);
    }
    lemma_filter_from(s, now, window, n);
}

/// Whether no report before the last ejected the endpoint.
pub open spec fn not_ejected_before(p: HealthParams, s: Seq<(u64, bool)>) -> bool {
    forall|i: int|
        0 <= i < s.len() ==> (#[trigger] after_reports(p, s.take(i))).status == Status::Healthy
}

/// What the tracker knows after reports of which none ejected the endpoint.
proof fn lemma_history(p: HealthParams, s: Seq<(u64, bool)>)
    requires
        in_time(s),
        not_ejected_before(p, s),
        after_reports(p, s).status == Status::Healthy,
    ensures
        s.len() > 0 ==> after_reports(p, s).events == within(s, s.last().0, p.window_ms),
        s.len() == 0 ==> after_reports(p, s).events == s,
        after_reports(p, s).streak == trailing(s),
        s.len() > 0 && s.last().1 ==> trailing(s) < p.consecutive_failures,
    decreases s.len(),
{
    if s.len() > 0 {
        let t = s.drop_last();
        lemma_prefix(p, s);
        lemma_history(p, t);
        lemma_observed(p, s);
    }
}

proof fn lemma_prefix(p: HealthParams, s: Seq<(u64, bool)>)
    requires
        s.len() > 0,
        in_time(s),
        not_ejected_before(p, s),
    ensures
        in_time(s.drop_last()),
        not_ejected_before(p, s.drop_last()),
        after_reports(p, s.drop_last()).status == Status::Healthy,
{
    let t = s.drop_last();
    assert forall|i: int, j: int| 0 <= i <= j < t.len() implies (#[trigger] t[i]).0 <= (
    #[trigger] t[j]).0 by {
        assert(s[i] == t[i] && s[j] == t[j]);
    }
    assert forall|i: int| 0 <= i < t.len() implies (#[trigger] after_reports(
        p,
        t.take(i),
    )).status == Status::Healthy by {
        assert(t.take(i) =~= s.take(i));
    }
    assert(s.take(s.len() - 1) =~= t);
}

/// What one more report brings in.
proof fn lemma_observed(p: HealthParams, s: Seq<(u64, bool)>)
    requires
        s.len() > 0,
        in_time(s),
        ({
            let t = s.drop_last();
            let v = after_reports(p, t);
            &&& t.len() > 0 ==> v.events == within(t, t.last().0, p.window_ms)
            &&& t.len() == 0 ==> v.events == t
            &&& v.streak == trailing(t)
            &&& t.len() > 0 && t.last().1 ==> trailing(t) < p.consecutive_failures
        }),
    ensures
        ({
            let w = observed(after_reports(p, s.drop_last()), p, s.last().0, s.last().1);
            &&& w.events == within(s, s.last().0, p.window_ms)
            &&& w.streak == trailing(s)
        }),
{
    let t = s.drop_last();
    let v = after_reports(p, t);
    let now = s.last().0;
    if t.len() > 0 {
        assert forall|i: int| 0 <= i < t.len() implies (#[trigger] t[i]).0 <= t.last().0 by {
            assert(t[i] == s[i] && t.last() == s[t.len() - 1]);
        }
        let n = lemma_within_cut(t, t.last().0, p.window_ms);
        assert(v.events.push(s.last()) =~= s.skip(n));
        assert(t.last() == s[t.len() - 1] && s.last() == s[s.len() - 1]);
        assert forall|i: int| 0 <= i < n implies (#[trigger] s[i]).0 <= now && !in_window(
            s[i],
            now,
            p.window_ms,
        ) by {
            assert(t[i] == s[i]);
            assert(s[i].0 <= s[s.len() - 1].0);
        }
        lemma_within_skips(s, now, p.window_ms, n);
    } else {
        assert(v.events.push(s.last()) =~= s);
    }
}

/// When passive health ejects an endpoint, over any run of reports of which
/// none before the last ejected it: the last report, a failure, does so
/// exactly if the failures in a row have reached the threshold, or if the
/// window holds enough observations and a large enough share of failures.
/// The endpoint is then unavailable for as long as the ejection lasts, and
/// available from then on.
pub proof fn law_ejection(p: HealthParams, s: Seq<(u64, bool)>, now: u64)
    requires
        s.len() > 0,
        in_time(s),
        not_ejected_before(p, s),
        s.last().1,
        p.eject_ms > 0,
        s.last().0 + p.eject_ms <= u64::MAX,
    ensures
        ({
            let v = after_reports(p, s);
            let w = window_of(s, s.last().0, p.window_ms);
            let row = if p.consecutive_failures == 0 {
                1
            } else {
                p.consecutive_failures as nat
            };
            let out = last_failed(s, row) || (w.len() >= p.failure_min_volume && failures(w)
                * BILLION >= p.failure_ratio * w.len());
            &&& !available(v, s.last().0) <==> out
            &&& out ==> available(v, now) == (now >= s.last().0 + p.eject_ms)
            &&& !out ==> v.status == Status::Healthy
        }),
{
    let t = s.drop_last();
    lemma_prefix(p, s);
    lemma_history(p, t);
    lemma_observed(p, s);
    assert forall|i: int| 0 <= i < s.len() implies (#[trigger] s[i]).0 <= s.last().0 by {
        assert(s[i].0 <= s[s.len() - 1].0);
    }
    lemma_within_is_window(s, s.last().0, p.window_ms);
    lemma_trailing(s, p.consecutive_failures as nat);
    lemma_trailing(s, 1);
}

} // verus!
