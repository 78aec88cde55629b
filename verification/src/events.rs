//! The event bus: the notices behind alert and event webhooks.
//!
//! Subsystems with a state machine worth alerting on (the circuit breaker,
//! endpoint health, the config publish pipeline) emit a small event at every
//! transition. Kinds are a closed set. A payload is a flat set of bounded
//! labels and numbers, with no free-form field, so that an envelope is small
//! and safe to hand to a third party.
//!
//! Emission never waits: an event that the queue does not take is dropped
//! and the drop is counted.

use vstd::prelude::*;
use vstd::string::*;

use crate::json_text;
use crate::json_text::Members;
use crate::text;
use crate::text::{cat4, decimal, hexadecimal, pad_zeros, same};

pub mod laws;
pub mod stream;
pub mod webhook;

verus! {

/// Capacity of the event channel. Transition events are rare per upstream,
/// so this many queued events is a gateway in serious trouble already:
/// beyond it, drops are the right answer, not buffering.
pub const EVENT_CHANNEL_CAPACITY: usize = 256;

/// Every event kind the gateway emits.
#[derive(Debug, Clone, Copy, PartialEq, Eq, Hash, Structural)]
pub enum EventKind {
    /// A per-upstream circuit breaker moved closed -> open.
    BreakerOpened,
    /// An open breaker's cooling-off elapsed.
    BreakerHalfOpen,
    /// A half-open probe succeeded: the breaker closed again.
    BreakerClosed,
    /// Passive or active health ejected an endpoint from rotation.
    EndpointEjected,
    /// An ejected endpoint is back in rotation.
    EndpointRecovered,
    /// A config generation was validated, compiled, and published.
    ConfigPublished,
    /// A config candidate was rejected.
    ConfigRejected,
    /// A consumer's request budget crossed the near-limit threshold.
    QuotaNearLimit,
}

/// The closed set, in display order.
pub open spec fn all_kinds() -> Seq<EventKind> {
    seq![
        EventKind::BreakerOpened,
        EventKind::BreakerHalfOpen,
        EventKind::BreakerClosed,
        EventKind::EndpointEjected,
        EventKind::EndpointRecovered,
        EventKind::ConfigPublished,
        EventKind::ConfigRejected,
        EventKind::QuotaNearLimit,
    ]
}

/// The spelling of a kind.
pub open spec fn kind_name(k: EventKind) -> Seq<char> {
    match k {
        EventKind::BreakerOpened => "breaker_opened"@,
        EventKind::BreakerHalfOpen => "breaker_half_open"@,
        EventKind::BreakerClosed => "breaker_closed"@,
        EventKind::EndpointEjected => "endpoint_ejected"@,
        EventKind::EndpointRecovered => "endpoint_recovered"@,
        EventKind::ConfigPublished => "config_published"@,
        EventKind::ConfigRejected => "config_rejected"@,
        EventKind::QuotaNearLimit => "quota_near_limit"@,
    }
}

/// The kind that a spelling stands for.
pub open spec fn kind_of(value: Seq<char>) -> Option<EventKind> {
    if exists|k: EventKind| #[trigger] kind_name(k) == value {
        Some(choose|k: EventKind| #[trigger] kind_name(k) == value)
    } else {
        None
    }
}

proof fn lemma_kind_names()
    ensures
        forall|a: EventKind, b: EventKind|
            #[trigger] kind_name(a) == #[trigger] kind_name(b) ==> a == b,
{
    reveal_strlit("breaker_opened");
    reveal_strlit("breaker_half_open");
    reveal_strlit("breaker_closed");
    reveal_strlit("endpoint_ejected");
    reveal_strlit("endpoint_recovered");
    reveal_strlit("config_published");
    reveal_strlit("config_rejected");
    reveal_strlit("quota_near_limit");
    assert("breaker_opened"@[8] == 'o' && "breaker_closed"@[8] == 'c');
    assert("breaker_opened"@[0] == 'b' && "breaker_closed"@[0] == 'b' && "config_rejected"@[0] == 'c'
        && "endpoint_ejected"@[0] == 'e' && "config_published"@[0] == 'c' && "quota_near_limit"@[0]
        == 'q' && "endpoint_recovered"@[0] == 'e' && "breaker_half_open"@[0] == 'b');
    assert("breaker_half_open"@.len() == 17 && "breaker_opened"@.len() == 14
        && "breaker_closed"@.len() == 14 && "endpoint_recovered"@.len() == 18
        && "endpoint_ejected"@.len() == 16 && "config_published"@.len() == 16
        && "config_rejected"@.len() == 15 && "quota_near_limit"@.len() == 16);
}

impl EventKind {
    /// The closed set, in display order.
    pub fn all() -> (r: Vec<EventKind>)
        ensures
            r@ == all_kinds(),
    {
        let r = vec![
            EventKind::BreakerOpened,
            EventKind::BreakerHalfOpen,
            EventKind::BreakerClosed,
            EventKind::EndpointEjected,
            EventKind::EndpointRecovered,
            EventKind::ConfigPublished,
            EventKind::ConfigRejected,
            EventKind::QuotaNearLimit,
        ];
        assert(r@ =~= all_kinds());
        r
    }

    /// Stable wire and config spelling.
    pub fn as_str(self) -> (r: &'static str)
        ensures
            r@ == kind_name(self),
    {
        match self {
            EventKind::BreakerOpened => "breaker_opened",
            EventKind::BreakerHalfOpen => "breaker_half_open",
            EventKind::BreakerClosed => "breaker_closed",
            EventKind::EndpointEjected => "endpoint_ejected",
            EventKind::EndpointRecovered => "endpoint_recovered",
            EventKind::ConfigPublished => "config_published",
            EventKind::ConfigRejected => "config_rejected",
            EventKind::QuotaNearLimit => "quota_near_limit",
        }
    }

    /// The kind of a spelling. Other spellings have none.
    pub fn from_config(value: &str) -> (r: Option<EventKind>)
        ensures
            r == kind_of(value@),
    {
        let all = EventKind::all();
        let mut i: usize = 0;
        while i < all.len()
            invariant
                i <= all.len(),
                all@ == all_kinds(),
                forall|j: int| 0 <= j < i ==> kind_name(#[trigger] all@[j]) != value@,
            decreases all.len() - i,
        {
            if same(all[i].as_str(), value) {
                proof {
                    law_kind_spelling_round_trips(all@[i as int]);
                }
                return Some(all[i]);
            }
            i = i + 1;
        }
        proof {
            assert forall|k: EventKind| #[trigger] kind_name(k) != value@ by {
                lemma_kind_is_listed(k);
                let j = choose|j: int| 0 <= j < all_kinds().len() && all_kinds()[j] == k;
                assert(all@[j] == k);
            }
        }
        None
    }
}

proof fn lemma_kind_is_listed(k: EventKind)
    ensures
        exists|j: int| 0 <= j < all_kinds().len() && all_kinds()[j] == k,
{
    let l = all_kinds();
    assert(l[0] == EventKind::BreakerOpened && l[1] == EventKind::BreakerHalfOpen && l[2]
        == EventKind::BreakerClosed && l[3] == EventKind::EndpointEjected && l[4]
        == EventKind::EndpointRecovered && l[5] == EventKind::ConfigPublished && l[6]
        == EventKind::ConfigRejected && l[7] == EventKind::QuotaNearLimit);
}

/// Every kind is the one that its spelling stands for.
pub proof fn law_kind_spelling_round_trips(k: EventKind)
    ensures
        kind_of(kind_name(k)) == Some(k),
{
    lemma_kind_names();
    let found = choose|f: EventKind| #[trigger] kind_name(f) == kind_name(k);
    assert(kind_name(found) == kind_name(k));
}

/// The payload of one event: a flat set of bounded labels and numbers. Each
/// event kind sets the fields it owns; unset fields are left out of the
/// serialized envelope.
#[derive(Debug, Clone, PartialEq)]
pub struct EventPayload {
    /// Upstream name (breaker and ejection events).
    pub upstream: Option<String>,
    /// Endpoint `address:port` (ejection events).
    pub endpoint: Option<String>,
    /// The rule that tripped a breaker, the probe outcome that closed it, or
    /// the budget's name.
    pub detail: Option<&'static str>,
    /// Published generation number (config events).
    pub generation: Option<u64>,
    /// Change-detection token of the published config.
    pub content_hash: Option<u64>,
    /// Routes in the published generation.
    pub route_count: Option<u64>,
    /// Validation issues counted on a rejected config.
    pub issue_count: Option<u64>,
    /// Config-declared consumer name.
    pub consumer: Option<String>,
    /// Requests counted in the budget's current window.
    pub used: Option<u64>,
    /// The budget's configured cap.
    pub limit: Option<u64>,
}

/// What a payload holds.
#[verifier::ext_equal]
pub struct PayloadView {
    pub upstream: Option<Seq<char>>,
    pub endpoint: Option<Seq<char>>,
    pub detail: Option<Seq<char>>,
    pub generation: Option<u64>,
    pub content_hash: Option<u64>,
    pub route_count: Option<u64>,
    pub issue_count: Option<u64>,
    pub consumer: Option<Seq<char>>,
    pub used: Option<u64>,
    pub limit: Option<u64>,
}

/// A payload with nothing set.
pub open spec fn empty_payload() -> PayloadView {
    PayloadView {
        upstream: None,
        endpoint: None,
        detail: None,
        generation: None,
        content_hash: None,
        route_count: None,
        issue_count: None,
        consumer: None,
        used: None,
        limit: None,
    }
}

impl View for EventPayload {
    type V = PayloadView;

    open spec fn view(&self) -> PayloadView {
        PayloadView {
            upstream: text::opt_text(self.upstream),
            endpoint: text::opt_text(self.endpoint),
            detail: text::opt_str(self.detail),
            generation: self.generation,
            content_hash: self.content_hash,
            route_count: self.route_count,
            issue_count: self.issue_count,
            consumer: text::opt_text(self.consumer),
            used: self.used,
            limit: self.limit,
        }
    }
}

impl Default for EventPayload {
    fn default() -> (p: Self)
        ensures
            p@ == empty_payload(),
    {
        EventPayload {
            upstream: None,
            endpoint: None,
            detail: None,
            generation: None,
            content_hash: None,
            route_count: None,
            issue_count: None,
            consumer: None,
            used: None,
            limit: None,
        }
    }
}

/// The members of a payload as JSON.
pub open spec fn payload_members(p: PayloadView) -> Seq<Seq<char>> {
    let m = Seq::<Seq<char>>::empty();
    let m = json_text::with_member(m, "upstream"@, json_text::opt_quoted(p.upstream));
    let m = json_text::with_member(m, "endpoint"@, json_text::opt_quoted(p.endpoint));
    let m = json_text::with_member(m, "detail"@, json_text::opt_quoted(p.detail));
    let m = json_text::with_member(m, "generation"@, json_text::opt_dec(p.generation));
    let m = json_text::with_member(m, "content_hash"@, json_text::opt_dec(p.content_hash));
    let m = json_text::with_member(m, "route_count"@, json_text::opt_dec(p.route_count));
    let m = json_text::with_member(m, "issue_count"@, json_text::opt_dec(p.issue_count));
    let m = json_text::with_member(m, "consumer"@, json_text::opt_quoted(p.consumer));
    let m = json_text::with_member(m, "used"@, json_text::opt_dec(p.used));
    json_text::with_member(m, "limit"@, json_text::opt_dec(p.limit))
}

impl EventPayload {
    /// Payload for a breaker transition of `upstream`.
    pub fn breaker(upstream: &str, detail: Option<&'static str>) -> (p: Self)
        ensures
            p@ == (PayloadView {
                upstream: Some(upstream@),
                detail: text::opt_str(detail),
                ..empty_payload()
            }),
    {
        let mut p = EventPayload::default();
        p.upstream = Some(upstream.to_owned());
        p.detail = detail;
        p
    }

    /// Payload for an endpoint ejection or recovery event.
    pub fn endpoint(upstream: &str, endpoint: &str) -> (p: Self)
        ensures
            p@ == (PayloadView {
                upstream: Some(upstream@),
                endpoint: Some(endpoint@),
                ..empty_payload()
            }),
    {
        let mut p = EventPayload::default();
        p.upstream = Some(upstream.to_owned());
        p.endpoint = Some(endpoint.to_owned());
        p
    }

    /// Payload for a quota near-limit crossing: `budget` is the name of the
    /// budget, carried in `detail`.
    pub fn quota(consumer: &str, budget: &'static str, used: u64, limit: u64) -> (p: Self)
        ensures
            p@ == (PayloadView {
                consumer: Some(consumer@),
                detail: Some(budget@),
                used: Some(used),
                limit: Some(limit),
                ..empty_payload()
            }),
    {
        let mut p = EventPayload::default();
        p.consumer = Some(consumer.to_owned());
        p.detail = Some(budget);
        p.used = Some(used);
        p.limit = Some(limit);
        p
    }

    /// The payload as a JSON object.
    pub fn to_json(&self) -> (s: String)
        ensures
            s@ == json_text::object(payload_members(self@)),
    {
        let mut m = Members::new();
        m.opt_string("upstream", &self.upstream);
        m.opt_string("endpoint", &self.endpoint);
        if let Some(d) = self.detail {
            m.string("detail", d);
        }
        m.opt_number("generation", self.generation);
        m.opt_number("content_hash", self.content_hash);
        m.opt_number("route_count", self.route_count);
        m.opt_number("issue_count", self.issue_count);
        m.opt_string("consumer", &self.consumer);
        m.opt_number("used", self.used);
        m.opt_number("limit", self.limit);
        m.finish()
    }
}

/// One emitted event. `id` and `timestamp_ms` are assigned by the bus at
/// emit time, `gateway` identifies the process.
#[derive(Debug, Clone, PartialEq)]
pub struct Event {
    /// `evt-<hex unix ms>-<hex counter>`: a correlation handle.
    pub id: String,
    pub kind: EventKind,
    /// Emission time, Unix epoch milliseconds.
    pub timestamp_ms: u64,
    /// Instance label.
    pub gateway: String,
    pub payload: EventPayload,
}

/// An identifier made of a prefix, a time and a counter: the time in
/// hexadecimal, and the low 24 bits of the counter in at least six
/// hexadecimal digits.
pub open spec fn stamped_id(prefix: Seq<char>, unix_ms: u64, n: u64) -> Seq<char> {
    prefix + text::hex(unix_ms as nat) + "-"@ + text::zero_pad(text::hex((n % 0x100_0000) as nat), 6)
}

/// An identifier made of a prefix, a time and a counter.
pub fn make_stamped_id(prefix: &str, unix_ms: u64, n: u64) -> (s: String)
    ensures
        s@ == stamped_id(prefix@, unix_ms, n),
{
    let low: u64 = n % 0x100_0000;
    let ms = hexadecimal(unix_ms as u128);
    let counter = pad_zeros(hexadecimal(low as u128).as_str(), 6);
    cat4(prefix, ms.as_str(), "-", counter.as_str())
}

/// The label of a process: `dwara-<pid>-<boot unix ms hex>`.
pub fn instance_id(pid: u32, boot_unix_ms: u64) -> (s: String)
    ensures
        s@ == "dwara-"@ + text::dec(pid as nat) + "-"@ + text::hex(boot_unix_ms as nat),
{
    cat4(
        "dwara-",
        decimal(pid as u64).as_str(),
        "-",
        hexadecimal(boot_unix_ms as u128).as_str(),
    )
}

/// What became of an event that was put to the queue.
#[derive(Debug, Clone, Copy, PartialEq, Eq, Structural)]
pub enum SendOutcome {
    /// The queue took it.
    Queued,
    /// The queue was full.
    Full,
    /// Nobody drains the queue any more.
    Closed,
}

/// The identity and the counters of the event queue.
#[derive(Debug)]
pub struct EventBus {
    instance: String,
    next_id: u64,
    emitted_total: u64,
    dropped_total: u64,
}

/// What an event bus holds: its label, the number of the next event, and how
/// many events were queued and dropped.
#[verifier::ext_equal]
pub struct Bus {
    pub instance: Seq<char>,
    pub next: u64,
    pub emitted: u64,
    pub dropped: u64,
}

/// One more on a counter that starts over after the last 64-bit number.
pub open spec fn counted(n: u64) -> u64 {
    if n == u64::MAX {
        0
    } else {
        (n + 1) as u64
    }
}

/// The bus after an event was put to the queue.
pub open spec fn settled(b: Bus, outcome: SendOutcome) -> Bus {
    if outcome is Queued {
        Bus { emitted: counted(b.emitted), ..b }
    } else {
        Bus { dropped: counted(b.dropped), ..b }
    }
}

impl View for EventBus {
    type V = Bus;

    closed spec fn view(&self) -> Bus {
        Bus {
            instance: self.instance@,
            next: self.next_id,
            emitted: self.emitted_total,
            dropped: self.dropped_total,
        }
    }
}

/// The queue length for a wanted capacity: at least one.
pub fn channel_capacity(wanted: usize) -> (r: usize)
    ensures
        r == if wanted == 0 {
            1
        } else {
            wanted
        },
{
    if wanted == 0 {
        1
    } else {
        wanted
    }
}

impl EventBus {
    /// A bus under an instance label, with nothing emitted yet.
    pub fn new(instance: &str) -> (b: Self)
        ensures
            b@ == (Bus { instance: instance@, next: 0, emitted: 0, dropped: 0 }),
    {
        EventBus { instance: instance.to_owned(), next_id: 0, emitted_total: 0, dropped_total: 0 }
    }

    /// The instance label stamped on every envelope.
    pub fn instance(&self) -> (s: &str)
        ensures
            s@ == self@.instance,
    {
        self.instance.as_str()
    }

    /// Events handed to the channel since process start.
    pub fn emitted_total(&self) -> (n: u64)
        ensures
            n == self@.emitted,
    {
        self.emitted_total
    }

    /// Events dropped at emit time.
    pub fn dropped_total(&self) -> (n: u64)
        ensures
            n == self@.dropped,
    {
        self.dropped_total
    }

    /// Assigns its identity to an event: the next number, the label of the
    /// process, and the times that the clock showed for the identifier and
    /// for the event.
    pub fn stamp(
        &mut self,
        kind: EventKind,
        payload: EventPayload,
        id_unix_ms: u64,
        now_unix_ms: u64,
    ) -> (e: Event)
        ensures
            e.id@ == stamped_id("evt-"@, id_unix_ms, old(self)@.next),
            e.kind == kind,
            e.timestamp_ms == now_unix_ms,
            e.gateway@ == old(self)@.instance,
            e.payload == payload,
            final(self)@ == (Bus { next: counted(old(self)@.next), ..old(self)@ }),
    {
        let n: u64 = self.next_id;
        self.next_id = n.wrapping_add(1);
        Event {
            id: make_stamped_id("evt-", id_unix_ms, n),
            kind,
            timestamp_ms: now_unix_ms,
            gateway: self.instance.clone(),
            payload,
        }
    }

    /// Counts what became of an event: one more queued, or one more dropped.
    pub fn settle(&mut self, outcome: SendOutcome)
        ensures
            final(self)@ == settled(old(self)@, outcome),
    {
        match outcome {
            SendOutcome::Queued => {
                self.emitted_total = self.emitted_total.wrapping_add(1);
            },
            SendOutcome::Full | SendOutcome::Closed => {
                self.dropped_total = self.dropped_total.wrapping_add(1);
            },
        }
    }
}

/// The label of an upstream, for the events of its state machines.
#[derive(Debug, Clone)]
pub struct UpstreamEmitter {
    pub upstream: String,
}

/// The labels of an upstream and one of its endpoints.
#[derive(Debug, Clone)]
pub struct EndpointEvents {
    pub upstream: String,
    pub endpoint: String,
}

impl UpstreamEmitter {
    /// The payload of a breaker state transition of the upstream.
    pub fn breaker_transition(&self, detail: Option<&'static str>) -> (p: EventPayload)
        ensures
            p@ == (PayloadView {
                upstream: Some(self.upstream@),
                detail: text::opt_str(detail),
                ..empty_payload()
            }),
    {
        EventPayload::breaker(self.upstream.as_str(), detail)
    }

    /// The payload of an endpoint ejection or recovery of the upstream.
    pub fn endpoint_event(&self, endpoint: &str) -> (p: EventPayload)
        ensures
            p@ == (PayloadView {
                upstream: Some(self.upstream@),
                endpoint: Some(endpoint@),
                ..empty_payload()
            }),
    {
        EventPayload::endpoint(self.upstream.as_str(), endpoint)
    }

    /// Bind one endpoint label.
    pub fn for_endpoint(&self, endpoint: &str) -> (e: EndpointEvents)
        ensures
            e.upstream@ == self.upstream@,
            e.endpoint@ == endpoint@,
    {
        EndpointEvents { upstream: self.upstream.clone(), endpoint: endpoint.to_owned() }
    }
}

impl EndpointEvents {
    /// The payload of an event of the endpoint.
    pub fn payload(&self) -> (p: EventPayload)
        ensures
            p@ == (PayloadView {
                upstream: Some(self.upstream@),
                endpoint: Some(self.endpoint@),
                ..empty_payload()
            }),
    {
        EventPayload::endpoint(self.upstream.as_str(), self.endpoint.as_str())
    }
}

/// Every event is counted once: as queued or as dropped.
pub proof fn law_every_event_is_counted_once(b: Bus, outcome: SendOutcome)
    requires
        b.emitted < u64::MAX,
        b.dropped < u64::MAX,
    ensures
        settled(b, outcome).emitted + settled(b, outcome).dropped == b.emitted + b.dropped + 1,
        settled(b, outcome).next == b.next,
        settled(b, outcome).instance == b.instance,
{
}

} // verus!
