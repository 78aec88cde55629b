//! The access-record stream: one record per completed request, serialized as
//! lines of JSON and delivered in batches.
//!
//! A batch is flushed on the first of: the maximum number of records, the
//! byte cap, or the maximum latency since the batch's first record. One
//! delivery is made per batch, in order. A record whose line is over the
//! byte cap is dropped and counted, never truncated. Offering a record never
//! waits: when the queue does not take it, it is dropped and counted; a
//! stream without a sink takes no records at all.

use vstd::prelude::*;
use vstd::string::*;

use crate::civil_time;
use crate::events;
use crate::events::make_stamped_id;
use crate::events::webhook;
use crate::events::webhook::{ResolvedHeader, RetrySettings, WebhookTarget};
use crate::json_text;
use crate::json_text::{write_strings, Members};
use crate::observability::AccessRecord;
use crate::text;
use crate::text::clone_pairs;
use crate::url;

verus! {

/// Hard cap on one serialized record line (bytes).
pub const MAX_RECORD_BYTES: usize = 16384;

/// Hard cap on one flushed batch (bytes).
pub const MAX_BATCH_BYTES: usize = 2097152;

/// `User-Agent` stamped on every batch delivery.
pub const USER_AGENT: &'static str = "dwara-record-stream";

/// The flush settings where a configuration names none.
#[derive(Debug, Clone, Copy, PartialEq, Eq, Structural)]
pub struct StreamDefaults {
    /// Maximum batch latency (ms).
    pub flush_ms: u64,
    /// Maximum records per batch.
    pub batch_max: u64,
}

/// One completed request as it crosses the stream.
#[derive(Debug)]
pub struct StreamRecord {
    /// `rec-<hex unix ms>-<hex seq>`.
    pub id: String,
    /// Instance label.
    pub gateway: String,
    /// Completion time, Unix epoch milliseconds.
    pub timestamp_ms: u64,
    request_id: String,
    listener: String,
    route: String,
    consumer: String,
    upstream: String,
    endpoint: String,
    method: String,
    path: String,
    status: u16,
    duration_ms: String,
    attempts: u32,
    rate_limited: bool,
    broken: bool,
    shed: bool,
    dimensions: Vec<(String, String)>,
}

/// What a stream record holds.
#[verifier::ext_equal]
pub struct RecordView {
    pub id: Seq<char>,
    pub gateway: Seq<char>,
    pub timestamp_ms: u64,
    pub request_id: Seq<char>,
    pub listener: Seq<char>,
    pub route: Seq<char>,
    pub consumer: Seq<char>,
    pub upstream: Seq<char>,
    pub endpoint: Seq<char>,
    pub method: Seq<char>,
    pub path: Seq<char>,
    pub status: u16,
    pub duration_ms: Seq<char>,
    pub attempts: u32,
    pub rate_limited: bool,
    pub broken: bool,
    pub shed: bool,
    pub dimensions: Seq<(Seq<char>, Seq<char>)>,
}

impl View for StreamRecord {
    type V = RecordView;

    closed spec fn view(&self) -> RecordView {
        RecordView {
            id: self.id@,
            gateway: self.gateway@,
            timestamp_ms: self.timestamp_ms,
            request_id: self.request_id@,
            listener: self.listener@,
            route: self.route@,
            consumer: self.consumer@,
            upstream: self.upstream@,
            endpoint: self.endpoint@,
            method: self.method@,
            path: self.path@,
            status: self.status,
            duration_ms: self.duration_ms@,
            attempts: self.attempts,
            rate_limited: self.rate_limited,
            broken: self.broken,
            shed: self.shed,
            dimensions: text::text_pairs(self.dimensions@),
        }
    }
}

/// The text of an optional string, empty where there is none.
pub open spec fn or_empty(o: Option<String>) -> Seq<char> {
    match o {
        Some(s) => s@,
        None => seq![],
    }
}

fn or_default(o: &Option<String>) -> (s: String)
    ensures
        s@ == or_empty(*o),
{
    match o {
        Some(s) => s.clone(),
        None => {
            let s = String::new();
            assert(s@ =~= seq![]);
            s
        },
    }
}

/// The stream record of an access record.
pub open spec fn record_of(
    rec: AccessRecord,
    id: Seq<char>,
    gateway: Seq<char>,
    timestamp_ms: u64,
) -> RecordView {
    RecordView {
        id,
        gateway,
        timestamp_ms,
        request_id: rec.request_id@,
        listener: rec.listener@,
        route: rec.route@,
        consumer: rec.consumer@,
        upstream: or_empty(rec.upstream),
        endpoint: or_empty(rec.endpoint),
        method: rec.method@,
        path: rec.path@,
        status: rec.status,
        duration_ms: rec.duration_ms@,
        attempts: rec.attempts,
        rate_limited: rec.rate_limited,
        broken: rec.broken,
        shed: rec.shed,
        dimensions: text::text_pairs(rec.custom@),
    }
}

/// The members of the line of a record.
pub open spec fn record_members(r: RecordView) -> Seq<Seq<char>> {
    seq![
        json_text::member("id"@, json_text::quoted(r.id)),
        json_text::member("gateway"@, json_text::quoted(r.gateway)),
        json_text::member(
            "timestamp"@,
            json_text::quoted(civil_time::rfc3339_text(r.timestamp_ms)),
        ),
        json_text::member("request_id"@, json_text::quoted(r.request_id)),
        json_text::member("listener"@, json_text::quoted(r.listener)),
        json_text::member("route"@, json_text::quoted(r.route)),
        json_text::member("consumer"@, json_text::quoted(r.consumer)),
        json_text::member("upstream"@, json_text::quoted(r.upstream)),
        json_text::member("endpoint"@, json_text::quoted(r.endpoint)),
        json_text::member("method"@, json_text::quoted(r.method)),
        json_text::member("path"@, json_text::quoted(r.path)),
        json_text::member("status"@, text::dec(r.status as nat)),
        json_text::member("duration_ms"@, r.duration_ms),
        json_text::member("attempts"@, text::dec(r.attempts as nat)),
        json_text::member("rate_limited"@, json_text::truth(r.rate_limited)),
        json_text::member("broken"@, json_text::truth(r.broken)),
        json_text::member("shed"@, json_text::truth(r.shed)),
        json_text::member("dimensions"@, json_text::string_object(r.dimensions)),
    ]
}

/// The line of a record.
pub open spec fn record_line(r: RecordView) -> Seq<char> {
    json_text::object(record_members(r)).push('\n')
}

impl StreamRecord {
    /// The completion-time copy of one access record.
    pub fn from_access(rec: &AccessRecord, id: String, gateway: String, timestamp_ms: u64) -> (r:
        Self)
        ensures
            r@ == record_of(*rec, id@, gateway@, timestamp_ms),
    {
        StreamRecord {
            id,
            gateway,
            timestamp_ms,
            request_id: rec.request_id.clone(),
            listener: rec.listener.clone(),
            route: rec.route.clone(),
            consumer: rec.consumer.clone(),
            upstream: or_default(&rec.upstream),
            endpoint: or_default(&rec.endpoint),
            method: rec.method.clone(),
            path: rec.path.clone(),
            status: rec.status,
            duration_ms: rec.duration_ms.clone(),
            attempts: rec.attempts,
            rate_limited: rec.rate_limited,
            broken: rec.broken,
            shed: rec.shed,
            dimensions: clone_pairs(&rec.custom),
        }
    }

    /// The line for this record: one JSON object and a newline.
    pub fn line(&self) -> (s: String)
        ensures
            s@ == record_line(self@),
    {
        let dimensions = write_strings(&self.dimensions);
        let mut m = Members::new();
        m.string("id", self.id.as_str());
        m.string("gateway", self.gateway.as_str());
        m.string("timestamp", civil_time::rfc3339_ms(self.timestamp_ms).as_str());
        m.string("request_id", self.request_id.as_str());
        m.string("listener", self.listener.as_str());
        m.string("route", self.route.as_str());
        m.string("consumer", self.consumer.as_str());
        m.string("upstream", self.upstream.as_str());
        m.string("endpoint", self.endpoint.as_str());
        m.string("method", self.method.as_str());
        m.string("path", self.path.as_str());
        m.number("status", self.status as u64);
        m.raw("duration_ms", self.duration_ms.as_str());
        m.number("attempts", self.attempts as u64);
        m.boolean("rate_limited", self.rate_limited);
        m.boolean("broken", self.broken);
        m.boolean("shed", self.shed);
        m.raw("dimensions", dimensions.as_str());
        assert(m@ =~= record_members(self@));
        let mut line = m.finish();
        line.push('\n');
        line
    }
}

// ---------------------------------------------------------------------------
// Offering records
// ---------------------------------------------------------------------------

/// The counters and the enabled flag of the record queue.
#[derive(Debug)]
pub struct AccessRecordStream {
    enabled: bool,
    instance: String,
    next_seq: u64,
    offered: u64,
    dropped: u64,
}

/// What the record queue keeps.
#[verifier::ext_equal]
pub struct StreamState {
    pub enabled: bool,
    pub instance: Seq<char>,
    pub next: u64,
    pub offered: u64,
    pub dropped: u64,
}

impl View for AccessRecordStream {
    type V = StreamState;

    closed spec fn view(&self) -> StreamState {
        StreamState {
            enabled: self.enabled,
            instance: self.instance@,
            next: self.next_seq,
            offered: self.offered,
            dropped: self.dropped,
        }
    }
}

/// What became of a record that was put to the queue.
pub open spec fn record_settled(s: StreamState, queued: bool) -> StreamState {
    if queued {
        StreamState { offered: events::counted(s.offered), ..s }
    } else {
        StreamState { dropped: events::counted(s.dropped), ..s }
    }
}

impl AccessRecordStream {
    /// A stream under an instance label, not enabled yet.
    pub fn new(instance: &str) -> (s: Self)
        ensures
            s@ == (StreamState {
                enabled: false,
                instance: instance@,
                next: 0,
                offered: 0,
                dropped: 0,
            }),
    {
        AccessRecordStream {
            enabled: false,
            instance: instance.to_owned(),
            next_seq: 0,
            offered: 0,
            dropped: 0,
        }
    }

    /// The instance label stamped on every envelope.
    pub fn instance(&self) -> (s: &str)
        ensures
            s@ == self@.instance,
    {
        self.instance.as_str()
    }

    /// Arm or disarm the offer path.
    pub fn set_enabled(&mut self, on: bool)
        ensures
            final(self)@ == (StreamState { enabled: on, ..old(self)@ }),
    {
        self.enabled = on;
    }

    /// Whether offers currently queue.
    pub fn enabled(&self) -> (b: bool)
        ensures
            b == self@.enabled,
    {
        self.enabled
    }

    /// Records offered (and queued) since process start.
    pub fn offered(&self) -> (n: u64)
        ensures
            n == self@.offered,
    {
        self.offered
    }

    /// Records dropped at offer time.
    pub fn dropped(&self) -> (n: u64)
        ensures
            n == self@.dropped,
    {
        self.dropped
    }

    /// The record to put to the queue for a completed request, with its
    /// identity assigned; none where the stream is not enabled.
    pub fn offer(&mut self, rec: &AccessRecord, now_unix_ms: u64) -> (r: Option<StreamRecord>)
        ensures
            match r {
                None => !old(self)@.enabled && final(self)@ == old(self)@,
                Some(s) => {
                    &&& old(self)@.enabled
                    &&& s@ == record_of(
                        *rec,
                        events::stamped_id("rec-"@, now_unix_ms, old(self)@.next),
                        old(self)@.instance,
                        now_unix_ms,
                    )
                    &&& final(self)@ == (StreamState {
                        next: events::counted(old(self)@.next),
                        ..old(self)@
                    })
                },
            },
    {
        if !self.enabled {
            return None;
        }
        let n: u64 = self.next_seq;
        self.next_seq = n.wrapping_add(1);
        Some(
            StreamRecord::from_access(
                rec,
                make_stamped_id("rec-", now_unix_ms, n),
                self.instance.clone(),
                now_unix_ms,
            ),
        )
    }

    /// Counts what became of a record: one more queued, or one more dropped.
    /// Says whether this drop is one that is to be logged (each 4096th, the
    /// first of them included).
    pub fn settle(&mut self, queued: bool) -> (log: bool)
        ensures
            final(self)@ == record_settled(old(self)@, queued),
            log == (!queued && old(self)@.dropped % 4096 == 0),
    {
        if queued {
            self.offered = self.offered.wrapping_add(1);
            return false;
        }
        let n: u64 = self.dropped;
        self.dropped = n.wrapping_add(1);
        n % 4096 == 0
    }
}

// ---------------------------------------------------------------------------
// Batches
// ---------------------------------------------------------------------------

/// In-order batch assembly: appends serialized lines and answers whether a
/// flush trigger has been reached.
#[derive(Debug)]
pub struct Batcher {
    lines: Vec<u8>,
    records: usize,
    first_at: u64,
}

/// What a batch under assembly holds: its bytes, its records, and when the
/// first of them came (milliseconds).
#[verifier::ext_equal]
pub struct Batch {
    pub lines: Seq<u8>,
    pub records: nat,
    pub first_at: u64,
}

impl View for Batcher {
    type V = Batch;

    closed spec fn view(&self) -> Batch {
        Batch { lines: self.lines@, records: self.records as nat, first_at: self.first_at }
    }
}

/// The bytes of a text.
pub open spec fn bytes_of(s: Seq<char>) -> Seq<u8> {
    vstd::utf8::encode_utf8(s)
}

/// A batch with one line more.
pub open spec fn with_line(b: Batch, line: Seq<char>, now: u64) -> Batch {
    Batch {
        lines: b.lines + bytes_of(line),
        records: b.records + 1,
        first_at: if b.records == 0 {
            now
        } else {
            b.first_at
        },
    }
}

/// A batch after a line was put to it: a line over the byte cap stays out.
pub open spec fn after_push(b: Batch, line: Seq<char>, now: u64) -> Batch {
    if bytes_of(line).len() <= MAX_RECORD_BYTES {
        with_line(b, line, now)
    } else {
        b
    }
}

/// Whether a batch is to be flushed for its size.
pub open spec fn is_full(b: Batch, batch_max: usize) -> bool {
    b.records >= batch_max || b.lines.len() >= MAX_BATCH_BYTES
}

/// Whether a batch is to be flushed for its age.
pub open spec fn is_due(b: Batch, flush_ms: u64, now: u64) -> bool {
    b.records > 0 && now >= b.first_at && now - b.first_at >= flush_ms
}

impl Batcher {
    /// An empty batch.
    pub fn new() -> (b: Self)
        ensures
            b@ == (Batch { lines: seq![], records: 0, first_at: 0 }),
    {
        let b = Batcher { lines: Vec::new(), records: 0, first_at: 0 };
        assert(b@.lines =~= seq![]);
        b
    }

    /// Whether nothing is in the batch.
    pub fn is_empty(&self) -> (r: bool)
        ensures
            r == (self@.records == 0),
    {
        self.records == 0
    }

    /// Puts one serialized line to the batch. One over the byte cap is left
    /// out; says whether it was taken.
    pub fn push_record(&mut self, line: &str, now: u64) -> (taken: bool)
        requires
            old(self)@.records < usize::MAX,
        ensures
            taken == (bytes_of(line@).len() <= MAX_RECORD_BYTES),
            final(self)@ == after_push(old(self)@, line@, now),
    {
        let bytes = line.as_bytes();
        if bytes.len() > MAX_RECORD_BYTES {
            return false;
        }
        if self.records == 0 {
            self.first_at = now;
        }
        let ghost start = self.lines@;
        let mut i: usize = 0;
        assert(start + bytes@.take(0) =~= start);
        while i < bytes.len()
            invariant
                i <= bytes.len(),
                self.lines@ == start + bytes@.take(i as int),
                self.records == old(self).records,
                self.first_at == with_line(old(self)@, line@, now).first_at,
            decreases bytes.len() - i,
        {
            self.lines.push(bytes[i]);
            i = i + 1;
            assert(start + bytes@.take(i as int) =~= (start + bytes@.take(i - 1)).push(
                bytes@[i - 1],
            ));
        }
        assert(bytes@.take(i as int) =~= bytes@);
        self.records = self.records + 1;
        true
    }

    /// Whether a size trigger has been reached (record count or byte cap).
    pub fn should_flush(&self, batch_max: usize) -> (r: bool)
        ensures
            r == is_full(self@, batch_max),
    {
        self.records >= batch_max || self.lines.len() >= MAX_BATCH_BYTES
    }

    /// Whether the batch has waited for its maximum latency.
    pub fn due(&self, flush_ms: u64, now: u64) -> (r: bool)
        ensures
            r == is_due(self@, flush_ms, now),
    {
        self.records > 0 && now >= self.first_at && now - self.first_at >= flush_ms
    }

    /// How long the batch may still wait (milliseconds): it is due after
    /// that, and not before.
    pub fn time_left(&self, flush_ms: u64, now: u64) -> (r: u64)
        ensures
            self@.records > 0 && self@.first_at <= now ==> (r == 0 <==> is_due(
                self@,
                flush_ms,
                now,
            )),
            self@.records > 0 && self@.first_at <= now && r > 0 && now + r <= u64::MAX ==> is_due(
                self@,
                flush_ms,
                (now + r) as u64,
            ) && !is_due(self@, flush_ms, (now + r - 1) as u64),
            self@.records == 0 || self@.first_at > now ==> r == flush_ms,
    {
        if self.records == 0 || now < self.first_at {
            flush_ms
        } else if now - self.first_at >= flush_ms {
            0
        } else {
            flush_ms - (now - self.first_at)
        }
    }

    /// Take the assembled batch: its bytes and its record count. Nothing
    /// where it is empty.
    pub fn take(&mut self) -> (r: Option<(Vec<u8>, usize)>)
        ensures
            match r {
                None => old(self)@.records == 0 && final(self)@ == old(self)@,
                Some(b) => {
                    &&& old(self)@.records > 0
                    &&& b.0@ == old(self)@.lines
                    &&& b.1 == old(self)@.records
                    &&& final(self)@.lines == Seq::<u8>::empty()
                    &&& final(self)@.records == 0
                },
            },
    {
        if self.records == 0 {
            return None;
        }
        let records: usize = self.records;
        self.records = 0;
        let mut lines: Vec<u8> = Vec::new();
        std::mem::swap(&mut lines, &mut self.lines);
        Some((lines, records))
    }
}

/// What is to be done with a batch that was taken.
#[derive(Debug, Clone, Copy, PartialEq, Eq, Structural)]
pub enum Flush {
    /// No sink is left: count the records as dropped.
    Drop,
    /// Deliver the batch to every sink, one after the other.
    Deliver,
}

/// Decides what is to be done with a batch that was taken.
pub fn flush_plan(sinks: usize) -> (f: Flush)
    ensures
        f is Drop == (sinks == 0),
{
    if sinks == 0 {
        Flush::Drop
    } else {
        Flush::Deliver
    }
}

// ---------------------------------------------------------------------------
// Targets
// ---------------------------------------------------------------------------

/// The webhook of a stream, with its header values resolved.
pub struct AnalyticsStreamWebhook {
    pub url: String,
    pub headers: Vec<ResolvedHeader>,
    pub retry: RetrySettings,
}

/// The stream block of a configuration.
pub struct AnalyticsStreamConfig {
    pub webhook: AnalyticsStreamWebhook,
    pub flush_ms: Option<u64>,
    pub batch_max: Option<u64>,
}

/// The compiled stream state of a generation. No sink is the disabled state.
#[derive(Clone)]
pub struct StreamTargets {
    /// The sink, if there is one.
    pub sink: Option<WebhookTarget>,
    /// Why the configured sink could not be compiled.
    pub error: Option<String>,
    /// Maximum batch latency (ms).
    pub flush_ms: u64,
    /// Maximum records per batch.
    pub batch_max: u64,
}

impl StreamTargets {
    /// The disabled state.
    pub fn empty(defaults: StreamDefaults) -> (t: Self)
        ensures
            t.sink is None,
            t.error is None,
            t.flush_ms == defaults.flush_ms,
            t.batch_max == defaults.batch_max,
    {
        StreamTargets {
            sink: None,
            error: None,
            flush_ms: defaults.flush_ms,
            batch_max: defaults.batch_max,
        }
    }

    /// Whether records are to be offered under these targets.
    pub fn enabled(&self) -> (r: bool)
        ensures
            r == (self.sink is Some),
    {
        self.sink.is_some()
    }
}

/// Compile one generation's stream state. A sink that cannot be compiled is
/// left out, and the stream is disabled.
pub fn compile_stream_targets(
    cfg: Option<&AnalyticsStreamConfig>,
    defaults: StreamDefaults,
) -> (t: StreamTargets)
    ensures
        match cfg {
            None => {
                &&& t.sink is None
                &&& t.error is None
                &&& t.flush_ms == defaults.flush_ms
                &&& t.batch_max == defaults.batch_max
            },
            Some(c) => {
                &&& t.flush_ms == c.flush_ms.unwrap_or(defaults.flush_ms)
                &&& t.batch_max == c.batch_max.unwrap_or(defaults.batch_max)
                &&& match webhook::endpoint_of(
                    c.webhook.url@,
                    url::parsed_uri(c.webhook.url@),
                    webhook::header_views(c.webhook.headers@),
                    c.webhook.retry,
                ) {
                    Ok(target) => {
                        &&& t.sink matches Some(s)
                        &&& s@ == target
                        &&& t.error is None
                    },
                    Err(e) => {
                        &&& t.sink is None
                        &&& t.error matches Some(s)
                        &&& s@ == e
                    },
                }
            },
        },
{
    match cfg {
        None => StreamTargets::empty(defaults),
        Some(c) => {
            let (sink, error) = match WebhookTarget::compile_endpoint(
                c.webhook.url.as_str(),
                &c.webhook.headers,
                c.webhook.retry,
            ) {
                Ok(t) => (Some(t), None),
                Err(e) => (None, Some(e)),
            };
            StreamTargets {
                sink,
                error,
                flush_ms: c.flush_ms.unwrap_or(defaults.flush_ms),
                batch_max: c.batch_max.unwrap_or(defaults.batch_max),
            }
        },
    }
}

// ---------------------------------------------------------------------------
// Laws
// ---------------------------------------------------------------------------

/// Something that happens to a batch: a line is put to it, or it is taken.
pub enum BatchEvent {
    Line { text: Seq<char>, now: u64 },
    Taken,
}

/// The batch after events, from an empty one.
pub open spec fn batch_after(e: Seq<BatchEvent>) -> Batch
    decreases e.len(),
{
    if e.len() == 0 {
        Batch { lines: seq![], records: 0, first_at: 0 }
    } else {
        let before = batch_after(e.drop_last());
        match e.last() {
            BatchEvent::Line { text, now } => after_push(before, text, now),
            BatchEvent::Taken => Batch { lines: seq![], records: 0, first_at: before.first_at },
        }
    }
}

/// The bytes of all batches that were taken, one after the other.
pub open spec fn handed_out(e: Seq<BatchEvent>) -> Seq<u8>
    decreases e.len(),
{
    if e.len() == 0 {
        seq![]
    } else if e.last() is Taken {
        handed_out(e.drop_last()) + batch_after(e.drop_last()).lines
    } else {
        handed_out(e.drop_last())
    }
}

/// The bytes of all lines within the byte cap, one after the other.
pub open spec fn lines_put(e: Seq<BatchEvent>) -> Seq<u8>
    decreases e.len(),
{
    if e.len() == 0 {
        seq![]
    } else {
        match e.last() {
            BatchEvent::Line { text, now } => if bytes_of(text).len() <= MAX_RECORD_BYTES {
                lines_put(e.drop_last()) + bytes_of(text)
            } else {
                lines_put(e.drop_last())
            },
            BatchEvent::Taken => lines_put(e.drop_last()),
        }
    }
}

/// Batching loses no line and keeps their order: what was handed out and
/// what is still in the batch is what was put to it.
pub proof fn law_batches_keep_every_line_in_order(e: Seq<BatchEvent>)
    ensures
        handed_out(e) + batch_after(e).lines == lines_put(e),
    decreases e.len(),
{
    if e.len() > 0 {
        law_batches_keep_every_line_in_order(e.drop_last());
        let b = batch_after(e.drop_last()).lines;
        let h = handed_out(e.drop_last());
        match e.last() {
            BatchEvent::Line { text, now } => {
                if bytes_of(text).len() <= MAX_RECORD_BYTES {
                    assert(h + (b + bytes_of(text)) =~= (h + b) + bytes_of(text));
                }
            },
            BatchEvent::Taken => {
                assert((h + b) + Seq::<u8>::empty() =~= h + b);
            },
        }
    } else {
        assert(handed_out(e) + batch_after(e).lines =~= lines_put(e));
    }
}

/// A batch that is flushed as soon as it is full never exceeds the byte cap
/// by more than one line.
pub proof fn law_batches_stay_bounded(b: Batch, line: Seq<char>, now: u64)
    requires
        b.lines.len() < MAX_BATCH_BYTES,
    ensures
        after_push(b, line, now).lines.len() < MAX_BATCH_BYTES + MAX_RECORD_BYTES,
{
}

/// Every record that is put to the queue is counted once.
pub proof fn law_every_record_is_counted_once(s: StreamState, queued: bool)
    requires
        s.offered < u64::MAX,
        s.dropped < u64::MAX,
    ensures
        record_settled(s, queued).offered + record_settled(s, queued).dropped == s.offered
            + s.dropped + 1,
{
}

/// A record carries what the access carried, field by field; what is not there
/// is empty.
pub proof fn law_record_carries_the_access(
    rec: AccessRecord,
    id: Seq<char>,
    gateway: Seq<char>,
    timestamp_ms: u64,
)
    ensures
        ({
            let r = record_of(rec, id, gateway, timestamp_ms);
            &&& r.id == id && r.gateway == gateway && r.timestamp_ms == timestamp_ms
            &&& r.request_id == rec.request_id@ && r.listener == rec.listener@
            &&& r.route == rec.route@ && r.consumer == rec.consumer@
            &&& rec.upstream is Some ==> r.upstream == rec.upstream->Some_0@
            &&& rec.upstream is None ==> r.upstream.len() == 0
            &&& rec.endpoint is Some ==> r.endpoint == rec.endpoint->Some_0@
            &&& rec.endpoint is None ==> r.endpoint.len() == 0
            &&& r.method == rec.method@ && r.path == rec.path@ && r.status == rec.status
            &&& r.duration_ms == rec.duration_ms@ && r.attempts == rec.attempts
            &&& r.rate_limited == rec.rate_limited && r.broken == rec.broken && r.shed == rec.shed
            &&& r.dimensions.len() == rec.custom@.len()
            &&& forall|i: int|
                0 <= i < rec.custom@.len() ==> #[trigger] r.dimensions[i] == (
                    rec.custom@[i].0@,
                    rec.custom@[i].1@,
                )
        }),
{
}

/// A line shows every field of the record under its name, and no other, and
/// ends with a line break.
pub proof fn law_line_shows_the_record(r: RecordView)
    ensures
        ({
            let m = record_members(r);
            &&& m.len() == 18
            &&& m[0] == seq!['"'] + "id"@ + "\":"@ + json_text::quoted(r.id)
            &&& m[1] == seq!['"'] + "gateway"@ + "\":"@ + json_text::quoted(r.gateway)
            &&& m[2] == seq!['"'] + "timestamp"@ + "\":"@ + json_text::quoted(civil_time::rfc3339_text(r.timestamp_ms))
            &&& m[3] == seq!['"'] + "request_id"@ + "\":"@ + json_text::quoted(r.request_id)
            &&& m[4] == seq!['"'] + "listener"@ + "\":"@ + json_text::quoted(r.listener)
            &&& m[5] == seq!['"'] + "route"@ + "\":"@ + json_text::quoted(r.route)
            &&& m[6] == seq!['"'] + "consumer"@ + "\":"@ + json_text::quoted(r.consumer)
            &&& m[7] == seq!['"'] + "upstream"@ + "\":"@ + json_text::quoted(r.upstream)
            &&& m[8] == seq!['"'] + "endpoint"@ + "\":"@ + json_text::quoted(r.endpoint)
            &&& m[9] == seq!['"'] + "method"@ + "\":"@ + json_text::quoted(r.method)
            &&& m[10] == seq!['"'] + "path"@ + "\":"@ + json_text::quoted(r.path)
            &&& m[11] == seq!['"'] + "status"@ + "\":"@ + text::dec(r.status as nat)
            &&& m[12] == seq!['"'] + "duration_ms"@ + "\":"@ + r.duration_ms
            &&& m[13] == seq!['"'] + "attempts"@ + "\":"@ + text::dec(r.attempts as nat)
            &&& m[14] == seq!['"'] + "rate_limited"@ + "\":"@ + (if r.rate_limited { "true"@ } else { "false"@ })
            &&& m[15] == seq!['"'] + "broken"@ + "\":"@ + (if r.broken { "true"@ } else { "false"@ })
            &&& m[16] == seq!['"'] + "shed"@ + "\":"@ + (if r.shed { "true"@ } else { "false"@ })
            &&& m[17] == seq!['"'] + "dimensions"@ + "\":"@ + json_text::string_object(r.dimensions)
            &&& record_line(r) == "{"@ + json_text::joined(m, ","@) + "}"@ + seq!['\n']
        }),
{
    assert(record_line(r) =~= "{"@ + json_text::joined(record_members(r), ","@) + "}"@ + seq!['\n']);
}

/// A batch is flushed when it holds as many records as it may, or as many
/// bytes, or when its first record has waited for as long as it may. An empty
/// batch never is due. A line that is too long is left out, and any other adds
/// itself.
pub proof fn law_batches_are_flushed_in_time(
    b: Batch,
    batch_max: usize,
    flush_ms: u64,
    now: u64,
    line: Seq<char>,
)
    ensures
        is_full(b, batch_max) <==> b.records >= batch_max || b.lines.len() >= 2_097_152,
        b.records == 0 ==> !is_due(b, flush_ms, now),
        b.records > 0 && b.first_at <= now ==> (is_due(b, flush_ms, now) <==> b.first_at + flush_ms
            <= now),
        bytes_of(line).len() > 16_384 ==> after_push(b, line, now) == b,
        bytes_of(line).len() <= 16_384 ==> ({
            let a = after_push(b, line, now);
            &&& a.lines == b.lines + vstd::utf8::encode_utf8(line)
            &&& a.records == b.records + 1
            &&& b.records == 0 ==> a.first_at == now
            &&& b.records > 0 ==> a.first_at == b.first_at
        }),
{
}

} // verus!
