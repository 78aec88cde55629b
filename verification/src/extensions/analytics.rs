//! The analytics sink.
//!
//! Recording an event never blocks: the sink keeps the most recent events
//! and drops the oldest ones.

use vstd::prelude::*;
use vstd::string::*;

use crate::text;
use crate::text::{clone_opt, clone_pairs};

verus! {

/// A single analytics event.
#[derive(Debug, Clone, PartialEq, Eq)]
#[non_exhaustive]
pub struct Event {
    /// Event type discriminator, such as `request`.
    pub kind: String,
    /// Unix epoch milliseconds.
    pub timestamp_ms: u64,
    /// Route name, when the event is tied to a matched route.
    pub route: Option<String>,
    /// Consumer name, when authenticated.
    pub consumer: Option<String>,
    /// Upstream endpoint the request was forwarded to, if any.
    pub endpoint: Option<String>,
    /// Upstream response status code, if a response was produced.
    pub status: Option<u16>,
    /// Listener that accepted the request.
    pub listener: Option<String>,
    /// HTTP method.
    pub method: Option<String>,
    /// End-to-end request duration in milliseconds, as a decimal text.
    pub duration_ms: Option<String>,
    /// Upstream attempts made.
    pub attempts: Option<u32>,
    /// The request was rejected by a rate limit.
    pub rate_limited: bool,
    /// The request failed through an open breaker.
    pub broken: bool,
    /// The request was shed by admission control.
    pub shed: bool,
    /// Additional key/value data.
    pub attributes: Vec<(String, String)>,
}

/// What an event is.
#[verifier::ext_equal]
pub struct EventView {
    pub kind: Seq<char>,
    pub timestamp_ms: u64,
    pub route: Option<Seq<char>>,
    pub consumer: Option<Seq<char>>,
    pub endpoint: Option<Seq<char>>,
    pub status: Option<u16>,
    pub listener: Option<Seq<char>>,
    pub method: Option<Seq<char>>,
    pub duration_ms: Option<Seq<char>>,
    pub attempts: Option<u32>,
    pub rate_limited: bool,
    pub broken: bool,
    pub shed: bool,
    pub attributes: Seq<(Seq<char>, Seq<char>)>,
}

impl View for Event {
    type V = EventView;

    open spec fn view(&self) -> EventView {
        EventView {
            kind: self.kind@,
            timestamp_ms: self.timestamp_ms,
            route: text::opt_text(self.route),
            consumer: text::opt_text(self.consumer),
            endpoint: text::opt_text(self.endpoint),
            status: self.status,
            listener: text::opt_text(self.listener),
            method: text::opt_text(self.method),
            duration_ms: text::opt_text(self.duration_ms),
            attempts: self.attempts,
            rate_limited: self.rate_limited,
            broken: self.broken,
            shed: self.shed,
            attributes: text::text_pairs(self.attributes@),
        }
    }
}

/// A `request` event that knows its time only.
pub open spec fn bare_request(timestamp_ms: u64) -> EventView {
    EventView {
        kind: "request"@,
        timestamp_ms,
        route: None,
        consumer: None,
        endpoint: None,
        status: None,
        listener: None,
        method: None,
        duration_ms: None,
        attempts: None,
        rate_limited: false,
        broken: false,
        shed: false,
        attributes: seq![],
    }
}

impl Event {
    /// A `request` event stamped with a time.
    pub fn request_now(timestamp_ms: u64) -> (e: Self)
        ensures
            e@ == bare_request(timestamp_ms),
    {
        let attributes: Vec<(String, String)> = Vec::new();
        assert(text::text_pairs(attributes@) =~= seq![]);
        Event {
            kind: "request".to_owned(),
            timestamp_ms,
            route: None,
            consumer: None,
            endpoint: None,
            status: None,
            listener: None,
            method: None,
            duration_ms: None,
            attempts: None,
            rate_limited: false,
            broken: false,
            shed: false,
            attributes,
        }
    }

    /// A copy of the event.
    pub fn copy(&self) -> (e: Self)
        ensures
            e@ == self@,
    {
        Event {
            kind: self.kind.clone(),
            timestamp_ms: self.timestamp_ms,
            route: clone_opt(&self.route),
            consumer: clone_opt(&self.consumer),
            endpoint: clone_opt(&self.endpoint),
            status: self.status,
            listener: clone_opt(&self.listener),
            method: clone_opt(&self.method),
            duration_ms: clone_opt(&self.duration_ms),
            attempts: self.attempts,
            rate_limited: self.rate_limited,
            broken: self.broken,
            shed: self.shed,
            attributes: clone_pairs(&self.attributes),
        }
    }
}

/// What events are.
pub open spec fn events_of(v: Seq<Event>) -> Seq<EventView> {
    v.map_values(|e: Event| e@)
}

/// The most recent events, as many as a sink holds.
pub open spec fn recent(s: Seq<EventView>, capacity: nat) -> Seq<EventView> {
    if s.len() > capacity {
        s.skip(s.len() - capacity)
    } else {
        s
    }
}

/// Bounded in-memory sink: keeps the most recent `capacity` events.
#[derive(Debug)]
pub struct InMemoryAnalyticsSink {
    events: Vec<Event>,
    capacity: usize,
}

impl View for InMemoryAnalyticsSink {
    type V = Seq<EventView>;

    closed spec fn view(&self) -> Seq<EventView> {
        events_of(self.events@)
    }
}

impl InMemoryAnalyticsSink {
    /// The number of events kept at most.
    pub closed spec fn capacity(self) -> nat {
        self.capacity as nat
    }

    #[verifier::type_invariant]
    spec fn well_formed(self) -> bool {
        self.events@.len() <= self.capacity
    }

    /// A sink that keeps the most recent `capacity` events.
    pub fn new(capacity: usize) -> (s: Self)
        ensures
            s@ == Seq::<EventView>::empty(),
            s.capacity() == capacity,
    {
        let events: Vec<Event> = Vec::new();
        assert(events_of(events@) =~= Seq::<EventView>::empty());
        InMemoryAnalyticsSink { events, capacity }
    }

    /// The events that are kept, oldest first.
    pub fn events(&self) -> (r: Vec<Event>)
        ensures
            events_of(r@) == self@,
            r@.len() <= self.capacity(),
    {
        proof {
            use_type_invariant(self);
        }
        let mut r: Vec<Event> = Vec::new();
        let mut i: usize = 0;
        while i < self.events.len()
            invariant
                i <= self.events.len(),
                r@.len() == i,
                forall|j: int| 0 <= j < i ==> (#[trigger] r@[j])@ == self.events@[j]@,
            decreases self.events.len() - i,
        {
            r.push(self.events[i].copy());
            i = i + 1;
        }
        assert(events_of(r@) =~= events_of(self.events@));
        r
    }

    /// Records an event; the oldest one gives way if there are too many.
    pub fn record(&mut self, event: Event)
        ensures
            final(self).capacity() == old(self).capacity(),
            final(self)@ == recent(old(self)@.push(event@), old(self).capacity()),
    {
        proof {
            use_type_invariant(&*self);
        }
        let ghost before = self@;
        let ghost e = event@;
        let mut events: Vec<Event> = Vec::new();
        std::mem::swap(&mut events, &mut self.events);
        let ghost kept = events@;
        if self.capacity == 0 {
            assert(recent(before.push(e), 0) =~= events_of(events@));
        } else {
            if events.len() == self.capacity {
                events.remove(0);
            }
            events.push(event);
            assert(before.len() == kept.len());
            assert(events_of(events@) =~= recent(before.push(e), self.capacity as nat));
        }
        self.events = events;
    }
}

/// What a sink holds after it recorded events one by one.
pub open spec fn after_recording(events: Seq<EventView>, capacity: nat) -> Seq<EventView>
    decreases events.len(),
{
    if events.len() == 0 {
        seq![]
    } else {
        recent(after_recording(events.drop_last(), capacity).push(events.last()), capacity)
    }
}

/// However many events are recorded, the most recent ones are kept, in
/// order, and never more than the capacity.
pub proof fn law_most_recent_events_are_kept(events: Seq<EventView>, capacity: nat)
    ensures
        after_recording(events, capacity) == recent(events, capacity),
        after_recording(events, capacity).len() <= capacity,
    decreases events.len(),
{
    if events.len() > 0 {
        law_most_recent_events_are_kept(events.drop_last(), capacity);
        assert(recent(recent(events.drop_last(), capacity).push(events.last()), capacity)
            =~= recent(events, capacity));
    } else {
        assert(recent(events, capacity) =~= seq![]);
    }
}

} // verus!
