//! The journeys of requests through the gateway.
//!
//! A journey is the sequence of phases that a request passed through. The
//! recorder keeps the recent ones for debugging; the durable copy rides on
//! the access record as a custom dimension.

use std::collections::VecDeque;
use vstd::prelude::*;
use vstd::string::*;

use crate::json::{Json, JsonView};
use crate::json_text;
use crate::json_text::{join, Members};
use crate::text;
use crate::text::{cat3, clone_opt, decimal};

verus! {

broadcast use {
    crate::text::lemma_texts_push,
    crate::json::lemma_array,
    crate::json::lemma_object,
};

/// The result of a journey step.
#[derive(Debug, Clone, Copy, PartialEq, Eq, Structural)]
pub enum JourneyStepResult {
    Success,
    Failure,
}

/// The name of a result.
pub open spec fn result_name(r: JourneyStepResult) -> Seq<char> {
    match r {
        JourneyStepResult::Success => "success"@,
        JourneyStepResult::Failure => "failure"@,
    }
}

impl JourneyStepResult {
    /// The name of the result.
    pub fn as_str(self) -> (s: &'static str)
        ensures
            s@ == result_name(self),
    {
        match self {
            JourneyStepResult::Success => "success",
            JourneyStepResult::Failure => "failure",
        }
    }
}

/// One step of a request's journey.
#[derive(Debug, Clone, PartialEq, Eq)]
pub struct JourneyStep {
    /// The phase name, such as `route_match` or `authn`.
    pub phase: String,
    /// The duration of this phase in milliseconds, as a JSON number.
    pub duration_ms: String,
    /// The outcome of this phase.
    pub result: JourneyStepResult,
    /// A free-form detail; never a secret.
    pub detail: Option<String>,
}

/// What a step is.
#[verifier::ext_equal]
pub struct StepView {
    pub phase: Seq<char>,
    pub duration_ms: Seq<char>,
    pub result: JourneyStepResult,
    pub detail: Option<Seq<char>>,
}

impl View for JourneyStep {
    type V = StepView;

    open spec fn view(&self) -> StepView {
        StepView {
            phase: self.phase@,
            duration_ms: self.duration_ms@,
            result: self.result,
            detail: text::opt_text(self.detail),
        }
    }
}

/// A recorded request journey.
#[derive(Debug, Clone, PartialEq, Eq)]
pub struct Journey {
    pub request_id: String,
    pub steps: Vec<JourneyStep>,
    pub timestamp_ms: u64,
}

/// What a journey is.
#[verifier::ext_equal]
pub struct JourneyView {
    pub request_id: Seq<char>,
    pub steps: Seq<StepView>,
    pub timestamp_ms: nat,
}

/// What steps are.
pub open spec fn steps_of(v: Seq<JourneyStep>) -> Seq<StepView> {
    v.map_values(|s: JourneyStep| s@)
}

impl View for Journey {
    type V = JourneyView;

    open spec fn view(&self) -> JourneyView {
        JourneyView {
            request_id: self.request_id@,
            steps: steps_of(self.steps@),
            timestamp_ms: self.timestamp_ms as nat,
        }
    }
}

/// A step as a JSON text.
pub open spec fn step_json(s: StepView) -> Seq<char> {
    json_text::object(
        json_text::with_member(
            seq![
                json_text::member("phase"@, json_text::quoted(s.phase)),
                json_text::member("duration_ms"@, s.duration_ms),
                json_text::member("result"@, json_text::quoted(result_name(s.result))),
            ],
            "detail"@,
            json_text::opt_quoted(s.detail),
        ),
    )
}

/// Steps as JSON texts.
pub open spec fn steps_json(s: Seq<StepView>) -> Seq<Seq<char>> {
    s.map_values(|x: StepView| step_json(x))
}

/// A journey as a JSON text.
pub open spec fn journey_json(j: JourneyView) -> Seq<char> {
    json_text::object(
        seq![
            json_text::member("request_id"@, json_text::quoted(j.request_id)),
            json_text::member(
                "steps"@,
                "["@ + json_text::joined(steps_json(j.steps), ","@) + "]"@,
            ),
            json_text::member("timestamp_ms"@, text::dec(j.timestamp_ms)),
        ],
    )
}

/// A step as a JSON value, its members in the order of their names.
pub open spec fn step_value(s: StepView) -> JsonView {
    let rest = seq![
        ("duration_ms"@, JsonView::Number { digits: s.duration_ms }),
        ("phase"@, JsonView::Text { text: s.phase }),
        ("result"@, JsonView::Text { text: result_name(s.result) }),
    ];
    JsonView::Object {
        members: match s.detail {
            Some(d) => seq![("detail"@, JsonView::Text { text: d })] + rest,
            None => rest,
        },
    }
}

/// A journey as a JSON value, its members in the order of their names.
pub open spec fn journey_value(j: JourneyView) -> JsonView {
    JsonView::Object {
        members: seq![
            ("request_id"@, JsonView::Text { text: j.request_id }),
            ("steps"@, JsonView::Array { items: j.steps.map_values(|s: StepView| step_value(s)) }),
            ("timestamp_ms"@, JsonView::Number { digits: text::dec(j.timestamp_ms) }),
        ],
    }
}

impl JourneyStep {
    fn to_json(&self) -> (s: String)
        ensures
            s@ == step_json(self@),
    {
        let mut m = Members::new();
        m.string("phase", self.phase.as_str());
        m.raw("duration_ms", self.duration_ms.as_str());
        m.string("result", self.result.as_str());
        assert(m@ =~= seq![
            json_text::member("phase"@, json_text::quoted(self@.phase)),
            json_text::member("duration_ms"@, self@.duration_ms),
            json_text::member("result"@, json_text::quoted(result_name(self.result))),
        ]);
        m.opt_string("detail", &self.detail);
        m.finish()
    }

    fn to_value(&self) -> (v: Json)
        ensures
            v@ == step_value(self@),
    {
        let mut m: Vec<(String, Json)> = Vec::new();
        if let Some(d) = &self.detail {
            m.push(("detail".to_owned(), Json::Text(d.clone())));
        }
        m.push(("duration_ms".to_owned(), Json::Number(self.duration_ms.clone())));
        m.push(("phase".to_owned(), Json::Text(self.phase.clone())));
        m.push(("result".to_owned(), Json::Text(self.result.as_str().to_owned())));
        assert(Json::Object(m)@->members =~= step_value(self@)->members);
        Json::Object(m)
    }

    /// A copy of the step.
    pub fn copy(&self) -> (s: Self)
        ensures
            s@ == self@,
    {
        JourneyStep {
            phase: self.phase.clone(),
            duration_ms: self.duration_ms.clone(),
            result: self.result,
            detail: clone_opt(&self.detail),
        }
    }
}

impl Journey {
    /// An empty journey of a request at a time.
    pub fn new(request_id: &str, timestamp_ms: u64) -> (j: Self)
        ensures
            j@ == (JourneyView {
                request_id: request_id@,
                steps: seq![],
                timestamp_ms: timestamp_ms as nat,
            }),
    {
        let steps: Vec<JourneyStep> = Vec::new();
        assert(steps_of(steps@) =~= seq![]);
        Journey { request_id: request_id.to_owned(), steps, timestamp_ms }
    }

    /// Records a step.
    pub fn add_step(&mut self, step: JourneyStep)
        ensures
            final(self)@ == (JourneyView {
                steps: old(self)@.steps.push(step@),
                ..old(self)@
            }),
    {
        let ghost before = self.steps@;
        self.steps.push(step);
        assert(steps_of(self.steps@) =~= steps_of(before).push(step@));
    }

    /// Records a step of a phase, its duration being a JSON number.
    pub fn add_timed_step(
        &mut self,
        phase: &str,
        duration_ms: String,
        result: JourneyStepResult,
        detail: Option<String>,
    )
        ensures
            final(self)@ == (JourneyView {
                steps: old(self)@.steps.push(
                    StepView {
                        phase: phase@,
                        duration_ms: duration_ms@,
                        result,
                        detail: text::opt_text(detail),
                    },
                ),
                ..old(self)@
            }),
    {
        self.add_step(JourneyStep { phase: phase.to_owned(), duration_ms, result, detail });
    }

    /// The journey as a JSON text; it never fails.
    pub fn to_json(&self) -> (r: Result<String, String>)
        ensures
            r matches Ok(s) && s@ == journey_json(self@),
    {
        let mut parts: Vec<String> = Vec::new();
        let mut i: usize = 0;
        while i < self.steps.len()
            invariant
                i <= self.steps.len(),
                parts@.len() == i,
                forall|k: int| 0 <= k < i ==> (#[trigger] parts@[k])@ == step_json(self.steps@[k]@),
            decreases self.steps.len() - i,
        {
            parts.push(self.steps[i].to_json());
            i = i + 1;
        }
        assert(text::texts(parts@) =~= steps_json(self@.steps));
        let mut m = Members::new();
        m.string("request_id", self.request_id.as_str());
        m.raw("steps", cat3("[", join(&parts, ",").as_str(), "]").as_str());
        m.number("timestamp_ms", self.timestamp_ms);
        assert(m@ =~= seq![
            json_text::member("request_id"@, json_text::quoted(self@.request_id)),
            json_text::member(
                "steps"@,
                "["@ + json_text::joined(steps_json(self@.steps), ","@) + "]"@,
            ),
            json_text::member("timestamp_ms"@, text::dec(self@.timestamp_ms)),
        ]);
        Ok(m.finish())
    }

    /// The journey as a JSON value; it never fails.
    pub fn to_value(&self) -> (r: Result<Json, String>)
        ensures
            r matches Ok(v) && v@ == journey_value(self@),
    {
        let mut items: Vec<Json> = Vec::new();
        let mut i: usize = 0;
        while i < self.steps.len()
            invariant
                i <= self.steps.len(),
                items@.len() == i,
                forall|k: int|
                    0 <= k < i ==> (#[trigger] items@[k])@ == step_value(self.steps@[k]@),
            decreases self.steps.len() - i,
        {
            items.push(self.steps[i].to_value());
            i = i + 1;
        }
        let ghost want = self@.steps.map_values(|s: StepView| step_value(s));
        assert(Json::Array(items)@->items =~= want);
        let mut m: Vec<(String, Json)> = Vec::new();
        m.push(("request_id".to_owned(), Json::Text(self.request_id.clone())));
        m.push(("steps".to_owned(), Json::Array(items)));
        m.push(("timestamp_ms".to_owned(), Json::Number(decimal(self.timestamp_ms))));
        assert(Json::Object(m)@->members =~= journey_value(self@)->members);
        Ok(Json::Object(m))
    }

    /// Whether any step failed.
    pub fn has_failure(&self) -> (r: bool)
        ensures
            r == exists|i: int|
                0 <= i < self@.steps.len() && (#[trigger] self@.steps[i]).result
                    == JourneyStepResult::Failure,
    {
        let mut i: usize = 0;
        while i < self.steps.len()
            invariant
                i <= self.steps.len(),
                forall|k: int|
                    0 <= k < i ==> (#[trigger] self@.steps[k]).result
                        != JourneyStepResult::Failure,
            decreases self.steps.len() - i,
        {
            assert(self@.steps[i as int].result == self.steps@[i as int].result);
            if self.steps[i].result == JourneyStepResult::Failure {
                return true;
            }
            i = i + 1;
        }
        false
    }

    /// A copy of the journey.
    pub fn copy(&self) -> (j: Self)
        ensures
            j@ == self@,
    {
        let mut steps: Vec<JourneyStep> = Vec::new();
        let mut i: usize = 0;
        while i < self.steps.len()
            invariant
                i <= self.steps.len(),
                steps@.len() == i,
                forall|k: int| 0 <= k < i ==> (#[trigger] steps@[k])@ == self.steps@[k]@,
            decreases self.steps.len() - i,
        {
            steps.push(self.steps[i].copy());
            i = i + 1;
        }
        assert(steps_of(steps@) =~= steps_of(self.steps@));
        Journey { request_id: self.request_id.clone(), steps, timestamp_ms: self.timestamp_ms }
    }
}

// ---------------------------------------------------------------------------
// The recorder
// ---------------------------------------------------------------------------

/// The number of journeys kept at most.
pub const JOURNEY_BUFFER_CAP: usize = 4096;

/// How journeys are recorded.
#[derive(Debug, Clone, Copy, PartialEq, Eq)]
pub struct JourneyConfig {
    /// Whether recording is enabled.
    pub enabled: bool,
    /// The retention window in hours.
    pub retention_hours: u64,
}

/// The oldest time that is inside the retention window.
pub open spec fn cutoff(now: nat, hours: nat) -> nat {
    if now >= hours * 3_600_000 {
        (now - hours * 3_600_000) as nat
    } else {
        0
    }
}

fn oldest_kept(now_ms: u64, hours: u64) -> (c: u64)
    ensures
        c == cutoff(now_ms as nat, hours as nat),
{
    let window: u128 = hours as u128 * 3_600_000;
    if now_ms as u128 >= window {
        (now_ms as u128 - window) as u64
    } else {
        0
    }
}

/// The journeys without the ones at the front that are older than a time.
pub open spec fn without_stale(s: Seq<JourneyView>, oldest: nat) -> Seq<JourneyView>
    decreases s.len(),
{
    if s.len() > 0 && s[0].timestamp_ms < oldest {
        without_stale(s.skip(1), oldest)
    } else {
        s
    }
}

/// The journeys with one recorded: stale ones at the front go, and the
/// oldest one if there would be too many.
pub open spec fn with_journey(s: Seq<JourneyView>, j: JourneyView, oldest: nat) -> Seq<
    JourneyView,
> {
    let kept = without_stale(s, oldest);
    if kept.len() >= JOURNEY_BUFFER_CAP {
        kept.skip(1).push(j)
    } else {
        kept.push(j)
    }
}

/// The last `n` journeys that are no older than a time, newest first.
pub open spec fn newest_first(s: Seq<JourneyView>, oldest: nat, n: nat) -> Seq<JourneyView>
    decreases n,
{
    if n == 0 {
        seq![]
    } else {
        let before = newest_first(s, oldest, (n - 1) as nat);
        let j = s[s.len() - n];
        if j.timestamp_ms >= oldest {
            before.push(j)
        } else {
            before
        }
    }
}

/// What journeys are.
pub open spec fn journeys_of(v: Seq<Journey>) -> Seq<JourneyView> {
    v.map_values(|j: Journey| j@)
}

/// Keeps the recent journeys.
#[derive(Debug)]
pub struct JourneyRecorder {
    config: JourneyConfig,
    buffer: VecDeque<Journey>,
}

impl View for JourneyRecorder {
    type V = Seq<JourneyView>;

    closed spec fn view(&self) -> Seq<JourneyView> {
        journeys_of(self.buffer@)
    }
}

impl JourneyRecorder {
    /// The configuration.
    pub closed spec fn config(self) -> JourneyConfig {
        self.config
    }

    /// A recorder without journeys.
    pub fn new(config: JourneyConfig) -> (r: Self)
        ensures
            r@ == Seq::<JourneyView>::empty(),
            r.config() == config,
    {
        let buffer: VecDeque<Journey> = VecDeque::new();
        assert(journeys_of(buffer@) =~= Seq::<JourneyView>::empty());
        JourneyRecorder { config, buffer }
    }

    /// Whether recording is enabled.
    pub fn enabled(&self) -> (r: bool)
        ensures
            r == self.config().enabled,
    {
        self.config.enabled
    }

    /// The retention window in hours.
    pub fn retention_hours(&self) -> (n: u64)
        ensures
            n == self.config().retention_hours,
    {
        self.config.retention_hours
    }

    /// Records a completed journey, if recording is enabled.
    pub fn record(&mut self, journey: Journey, now_ms: u64)
        ensures
            final(self).config() == old(self).config(),
            final(self)@ == if old(self).config().enabled {
                with_journey(
                    old(self)@,
                    journey@,
                    cutoff(now_ms as nat, old(self).config().retention_hours as nat),
                )
            } else {
                old(self)@
            },
    {
        if !self.config.enabled {
            return;
        }
        let ghost before = self@;
        let ghost config = self.config;
        let oldest: u64 = oldest_kept(now_ms, self.config.retention_hours);
        while self.buffer.len() > 0 && self.buffer[0].timestamp_ms < oldest
            invariant
                self.config == config,
                without_stale(before, oldest as nat) == without_stale(
                    journeys_of(self.buffer@),
                    oldest as nat,
                ),
            decreases self.buffer@.len(),
        {
            let ghost s = self.buffer@;
            assert(journeys_of(s)[0] == s[0]@);
            self.buffer.pop_front();
            assert(journeys_of(self.buffer@) =~= journeys_of(s).skip(1));
        }
        let ghost kept = self.buffer@;
        proof {
            if kept.len() > 0 {
                assert(journeys_of(kept)[0] == kept[0]@);
            }
            assert(journeys_of(kept) == without_stale(before, oldest as nat));
        }
        if self.buffer.len() >= JOURNEY_BUFFER_CAP {
            self.buffer.pop_front();
            assert(journeys_of(self.buffer@) =~= journeys_of(kept).skip(1));
        }
        let ghost b = self.buffer@;
        self.buffer.push_back(journey);
        assert(journeys_of(self.buffer@) =~= journeys_of(b).push(journey@));
    }

    /// The journeys inside the retention window, newest first.
    pub fn snapshot(&self, now_ms: u64) -> (r: Vec<Journey>)
        ensures
            journeys_of(r@) == newest_first(
                self@,
                cutoff(now_ms as nat, self.config().retention_hours as nat),
                self@.len(),
            ),
    {
        let ghost all = self@;
        let oldest: u64 = oldest_kept(now_ms, self.config.retention_hours);
        let mut r: Vec<Journey> = Vec::new();
        let n: usize = self.buffer.len();
        let mut i: usize = 0;
        assert(journeys_of(r@) =~= seq![]);
        while i < n
            invariant
                i <= n,
                n == self.buffer@.len(),
                all == journeys_of(self.buffer@),
                journeys_of(r@) == newest_first(all, oldest as nat, i as nat),
            decreases n - i,
        {
            let at: usize = n - 1 - i;
            assert(all[n - (i + 1)] == self.buffer@[at as int]@);
            if self.buffer[at].timestamp_ms >= oldest {
                let ghost before = r@;
                let j = self.buffer[at].copy();
                r.push(j);
                assert(journeys_of(r@) =~= journeys_of(before).push(j@));
            }
            i = i + 1;
        }
        r
    }

    /// The number of journeys that are kept.
    pub fn len(&self) -> (n: usize)
        ensures
            n == self@.len(),
    {
        self.buffer.len()
    }

    /// Whether no journey is kept.
    pub fn is_empty(&self) -> (r: bool)
        ensures
            r == (self@.len() == 0),
    {
        self.buffer.len() == 0
    }
}

/// The custom dimension that carries a journey on an access record.
pub fn journey_dimension(journey: &Journey) -> (r: Result<(String, String), String>)
    ensures
        r matches Ok(p) && p.0@ == "_journey"@ && p.1@ == journey_json(journey@),
{
    match journey.to_json() {
        Ok(s) => Ok(("_journey".to_owned(), s)),
        Err(e) => Err(e),
    }
}

// ---------------------------------------------------------------------------
// Laws
// ---------------------------------------------------------------------------

proof fn lemma_without_stale(s: Seq<JourneyView>, oldest: nat)
    ensures
        without_stale(s, oldest).len() <= s.len(),
    decreases s.len(),
{
    if s.len() > 0 {
        lemma_without_stale(s.skip(1), oldest);
    }
}

/// A recorder that keeps no more than its cap keeps no more than its cap
/// after recording, and the journey recorded last is the last one it keeps.
pub proof fn law_recorder_is_bounded(s: Seq<JourneyView>, j: JourneyView, oldest: nat)
    requires
        s.len() <= JOURNEY_BUFFER_CAP,
    ensures
        with_journey(s, j, oldest).len() <= JOURNEY_BUFFER_CAP,
        with_journey(s, j, oldest).last() == j,
{
    lemma_without_stale(s, oldest);
}

/// No snapshot shows a journey that is older than the retention window.
pub proof fn law_snapshots_show_no_stale_journey(s: Seq<JourneyView>, oldest: nat, n: nat)
    requires
        n <= s.len(),
    ensures
        forall|i: int|
            0 <= i < newest_first(s, oldest, n).len() ==> (#[trigger] newest_first(
                s,
                oldest,
                n,
            )[i]).timestamp_ms >= oldest,
    decreases n,
{
    if n > 0 {
        law_snapshots_show_no_stale_journey(s, oldest, (n - 1) as nat);
        let before = newest_first(s, oldest, (n - 1) as nat);
        assert forall|i: int| 0 <= i < newest_first(s, oldest, n).len() implies (
        #[trigger] newest_first(s, oldest, n)[i]).timestamp_ms >= oldest by {
            if i < before.len() {
                assert(newest_first(s, oldest, n)[i] == before[i]);
            }
        }
    }
}

/// A snapshot shows every journey inside the retention window.
pub proof fn law_snapshots_show_every_recent_journey(
    s: Seq<JourneyView>,
    oldest: nat,
    n: nat,
    i: int,
)
    requires
        n <= s.len(),
        s.len() - n <= i < s.len(),
        s[i].timestamp_ms >= oldest,
    ensures
        newest_first(s, oldest, n).contains(s[i]),
    decreases n,
{
    let all = newest_first(s, oldest, n);
    let before = newest_first(s, oldest, (n - 1) as nat);
    if i == s.len() - n {
        assert(all[all.len() - 1] == s[i]);
    } else {
        law_snapshots_show_every_recent_journey(s, oldest, (n - 1) as nat, i);
        let k = choose|k: int| 0 <= k < before.len() && before[k] == s[i];
        assert(all[k] == s[i]);
    }
}

/// A journey is within the retention exactly if it is not older than so many
/// hours.
pub proof fn law_retention_is_in_hours(timestamp_ms: nat, now_ms: nat, hours: nat)
    ensures
        timestamp_ms >= cutoff(now_ms, hours) <==> timestamp_ms + hours * 3_600_000 >= now_ms,
{
}

proof fn lemma_stale_front(s: Seq<JourneyView>, oldest: nat) -> (k: int)
    ensures
        0 <= k <= s.len(),
        without_stale(s, oldest) == s.skip(k),
        forall|i: int| 0 <= i < k ==> (#[trigger] s[i]).timestamp_ms < oldest,
        k < s.len() ==> s[k].timestamp_ms >= oldest,
    decreases s.len(),
{
    if s.len() > 0 && s[0].timestamp_ms < oldest {
        let t = s.skip(1);
        let k = lemma_stale_front(t, oldest);
        assert(t.skip(k) =~= s.skip(k + 1));
        assert forall|i: int| 0 <= i < k + 1 implies (#[trigger] s[i]).timestamp_ms < oldest by {
            if i > 0 {
                assert(t[i - 1] == s[i]);
            }
        }
        if k < t.len() {
            assert(t[k] == s[k + 1]);
        }
        k + 1
    } else {
        assert(s.skip(0) =~= s);
        0
    }
}

/// A recorded journey stands last. Of those before it only stale ones at the
/// front go, and one more where the buffer is full; the rest stay in order.
pub proof fn law_recorded_journey_is_kept(s: Seq<JourneyView>, j: JourneyView, oldest: nat) -> (k:
    int)
    requires
        s.len() <= 4096,
    ensures
        0 <= k <= s.len(),
        with_journey(s, j, oldest) == s.skip(k).push(j),
        forall|i: int|
            0 <= i < k && (#[trigger] s[i]).timestamp_ms >= oldest ==> i == 0 && s.len() == 4096,
        k < s.len() && s.len() < 4096 ==> s[k].timestamp_ms >= oldest,
{
    let k = lemma_stale_front(s, oldest);
    let kept = s.skip(k);
    if kept.len() >= JOURNEY_BUFFER_CAP {
        assert(kept.skip(1) =~= s.skip(k + 1));
        k + 1
    } else {
        k
    }
}

/// Whether a journey is recent.
pub open spec fn is_recent(oldest: nat) -> spec_fn(JourneyView) -> bool {
    |j: JourneyView| j.timestamp_ms >= oldest
}

proof fn lemma_newest_first(s: Seq<JourneyView>, oldest: nat, n: nat)
    requires
        n <= s.len(),
    ensures
        newest_first(s, oldest, n) == s.skip(s.len() - n).filter(is_recent(oldest)).reverse(),
    decreases n,
{
    let p = is_recent(oldest);
    let t = s.skip(s.len() - n);
    if n > 0 {
        lemma_newest_first(s, oldest, (n - 1) as nat);
        let rest = s.skip(s.len() - n + 1);
        let x = seq![s[s.len() - n]];
        assert(t =~= x + rest);
        Seq::filter_distributes_over_add(x, rest, p);
        reveal(Seq::filter);
        assert(x.drop_last() =~= seq![]);
        assert(x.drop_last().filter(p) =~= seq![]);
        assert(x.filter(p) =~= if p(x[0]) {
            x
        } else {
            seq![]
        });
        assert(newest_first(s, oldest, n) =~= t.filter(p).reverse());
    } else {
        reveal(Seq::filter);
        assert(t =~= seq![]);
        assert(newest_first(s, oldest, n) =~= t.filter(p).reverse());
    }
}

/// A snapshot shows the recent journeys, the newest first.
pub proof fn law_snapshot_is_newest_first(s: Seq<JourneyView>, oldest: nat)
    ensures
        newest_first(s, oldest, s.len()) == s.filter(is_recent(oldest)).reverse(),
{
    lemma_newest_first(s, oldest, s.len());
    assert(s.skip(0) =~= s);
}

} // verus!
