//! What is told to whom, and how often it is tried.

use vstd::prelude::*;

use crate::events;
use crate::events::webhook;
use crate::events::webhook::{
    AttemptView, Exchange, HeaderSpec, Progress, RetrySettings,
};
use crate::events::{EventKind, PayloadView};
use crate::headers;
use crate::json_text;
use crate::text;
use crate::url::UrlView;

verus! {

// ---------------------------------------------------------------------------
// Kinds and payloads
// ---------------------------------------------------------------------------

/// The name by which a kind of event is subscribed to.
pub open spec fn is_name_of(name: Seq<char>, k: EventKind) -> bool {
    &&& k is BreakerOpened ==> name == "breaker_opened"@
    &&& k is BreakerHalfOpen ==> name == "breaker_half_open"@
    &&& k is BreakerClosed ==> name == "breaker_closed"@
    &&& k is EndpointEjected ==> name == "endpoint_ejected"@
    &&& k is EndpointRecovered ==> name == "endpoint_recovered"@
    &&& k is ConfigPublished ==> name == "config_published"@
    &&& k is ConfigRejected ==> name == "config_rejected"@
    &&& k is QuotaNearLimit ==> name == "quota_near_limit"@
}

/// Every kind of event is listed, and goes by its name; no other name stands
/// for a kind.
pub proof fn law_kinds_go_by_their_names(k: EventKind, name: Seq<char>)
    ensures
        events::all_kinds().contains(k),
        is_name_of(events::kind_name(k), k),
        events::kind_of(name) == Some(k) <==> is_name_of(name, k),
{
    let all = events::all_kinds();
    assert(all[0] is BreakerOpened && all[1] is BreakerHalfOpen && all[2] is BreakerClosed);
    assert(all[3] is EndpointEjected && all[4] is EndpointRecovered);
    assert(all[5] is ConfigPublished && all[6] is ConfigRejected && all[7] is QuotaNearLimit);
    assert(exists|i: int| 0 <= i < all.len() && all[i] == k) by {
        if k is BreakerOpened {
            assert(all[0] == k);
        } else if k is BreakerHalfOpen {
            assert(all[1] == k);
        } else if k is BreakerClosed {
            assert(all[2] == k);
        } else if k is EndpointEjected {
            assert(all[3] == k);
        } else if k is EndpointRecovered {
            assert(all[4] == k);
        } else if k is ConfigPublished {
            assert(all[5] == k);
        } else if k is ConfigRejected {
            assert(all[6] == k);
        } else {
            assert(all[7] == k);
        }
    }
    events::law_kind_spelling_round_trips(k);
    if events::kind_of(name) == Some(k) {
        let j = choose|j: EventKind| #[trigger] events::kind_name(j) == name;
        assert(events::kind_name(j) == name);
        assert(j == k);
    }
    if is_name_of(name, k) {
        assert(name == events::kind_name(k));
    }
}

/// How many of the fields of a payload are there.
pub open spec fn fields_of(p: PayloadView) -> nat {
    (if p.upstream is Some { 1nat } else { 0 }) + (if p.endpoint is Some { 1nat } else { 0 }) + (
    if p.detail is Some { 1nat } else { 0 }) + (if p.generation is Some { 1nat } else { 0 }) + (
    if p.content_hash is Some { 1nat } else { 0 }) + (if p.route_count is Some { 1nat } else { 0 })
        + (if p.issue_count is Some { 1nat } else { 0 }) + (if p.consumer is Some { 1nat } else { 0 })
        + (if p.used is Some { 1nat } else { 0 }) + (if p.limit is Some { 1nat } else { 0 })
}

/// Whether members hold a field.
pub open spec fn shows(m: Seq<Seq<char>>, name: Seq<char>, value: Seq<char>) -> bool {
    m.contains(seq!['"'] + name + "\":"@ + value)
}

proof fn lemma_with_member(m: Seq<Seq<char>>, name: Seq<char>, v: Option<Seq<char>>)
    ensures
        forall|x: Seq<char>| #[trigger]
            m.contains(x) ==> json_text::with_member(m, name, v).contains(x),
        v is Some ==> shows(json_text::with_member(m, name, v), name, v->Some_0),
        json_text::with_member(m, name, v).len() == m.len() + if v is Some {
            1nat
        } else {
            0
        },
{
    let w = json_text::with_member(m, name, v);
    assert forall|x: Seq<char>| #[trigger] m.contains(x) implies w.contains(x) by {
        let k = m.index_of(x);
        assert(w[k] == x);
    }
    if v is Some {
        assert(w[m.len() as int] == seq!['"'] + name + "\":"@ + v->Some_0);
    }
}

/// A payload shows every field that is there, under its name, and no other.
pub proof fn law_payload_shows_its_fields(p: PayloadView)
    ensures
        ({
            let m = events::payload_members(p);
            &&& m.len() == fields_of(p)
            &&& p.upstream is Some ==> shows(m, "upstream"@, json_text::quoted(p.upstream->Some_0))
            &&& p.endpoint is Some ==> shows(m, "endpoint"@, json_text::quoted(p.endpoint->Some_0))
            &&& p.detail is Some ==> shows(m, "detail"@, json_text::quoted(p.detail->Some_0))
            &&& p.generation is Some ==> shows(
                m,
                "generation"@,
                text::dec(p.generation->Some_0 as nat),
            )
            &&& p.content_hash is Some ==> shows(
                m,
                "content_hash"@,
                text::dec(p.content_hash->Some_0 as nat),
            )
            &&& p.route_count is Some ==> shows(
                m,
                "route_count"@,
                text::dec(p.route_count->Some_0 as nat),
            )
            &&& p.issue_count is Some ==> shows(
                m,
                "issue_count"@,
                text::dec(p.issue_count->Some_0 as nat),
            )
            &&& p.consumer is Some ==> shows(m, "consumer"@, json_text::quoted(p.consumer->Some_0))
            &&& p.used is Some ==> shows(m, "used"@, text::dec(p.used->Some_0 as nat))
            &&& p.limit is Some ==> shows(m, "limit"@, text::dec(p.limit->Some_0 as nat))
        }),
{
    let m0 = Seq::<Seq<char>>::empty();
    let m1 = json_text::with_member(m0, "upstream"@, json_text::opt_quoted(p.upstream));
    lemma_with_member(m0, "upstream"@, json_text::opt_quoted(p.upstream));
    let m2 = json_text::with_member(m1, "endpoint"@, json_text::opt_quoted(p.endpoint));
    lemma_with_member(m1, "endpoint"@, json_text::opt_quoted(p.endpoint));
    let m3 = json_text::with_member(m2, "detail"@, json_text::opt_quoted(p.detail));
    lemma_with_member(m2, "detail"@, json_text::opt_quoted(p.detail));
    let m4 = json_text::with_member(m3, "generation"@, json_text::opt_dec(p.generation));
    lemma_with_member(m3, "generation"@, json_text::opt_dec(p.generation));
    let m5 = json_text::with_member(m4, "content_hash"@, json_text::opt_dec(p.content_hash));
    lemma_with_member(m4, "content_hash"@, json_text::opt_dec(p.content_hash));
    let m6 = json_text::with_member(m5, "route_count"@, json_text::opt_dec(p.route_count));
    lemma_with_member(m5, "route_count"@, json_text::opt_dec(p.route_count));
    let m7 = json_text::with_member(m6, "issue_count"@, json_text::opt_dec(p.issue_count));
    lemma_with_member(m6, "issue_count"@, json_text::opt_dec(p.issue_count));
    let m8 = json_text::with_member(m7, "consumer"@, json_text::opt_quoted(p.consumer));
    lemma_with_member(m7, "consumer"@, json_text::opt_quoted(p.consumer));
    let m9 = json_text::with_member(m8, "used"@, json_text::opt_dec(p.used));
    lemma_with_member(m8, "used"@, json_text::opt_dec(p.used));
    lemma_with_member(m9, "limit"@, json_text::opt_dec(p.limit));
}

// ---------------------------------------------------------------------------
// Targets
// ---------------------------------------------------------------------------

proof fn lemma_headers(url: Seq<char>, h: Seq<HeaderSpec>, n: nat)
    requires
        n <= h.len(),
    ensures
        webhook::resolved_headers(url, h, n) is Ok <==> forall|i: int|
            0 <= i < n ==> is_usable(#[trigger] h[i]),
        webhook::resolved_headers(url, h, n) is Ok ==> {
            let v = webhook::resolved_headers(url, h, n)->Ok_0;
            &&& v.len() == n
            &&& forall|i: int| 0 <= i < n ==> #[trigger] v[i] == (h[i].name, h[i].value->Ok_0)
        },
    decreases n,
{
    if n > 0 {
        lemma_headers(url, h, (n - 1) as nat);
    }
}

/// Whether a header's value was resolved, and can stand in a request.
pub open spec fn is_usable(h: HeaderSpec) -> bool {
    h.value is Ok && headers::is_header_value(h.value->Ok_0)
}

/// Whether a URL can be delivered to: HTTP or HTTPS, with a host.
pub open spec fn is_deliverable(p: Result<UrlView, Seq<char>>) -> bool {
    &&& p is Ok
    &&& p->Ok_0.scheme == Some("http"@) || p->Ok_0.scheme == Some("https"@)
    &&& p->Ok_0.host is Some
}

proof fn lemma_kinds(url: Seq<char>, names: Seq<Seq<char>>, n: nat)
    requires
        n <= names.len(),
    ensures
        webhook::kinds_of(url, names, n) is Ok <==> forall|i: int|
            0 <= i < n ==> events::kind_of(#[trigger] names[i]) is Some,
        webhook::kinds_of(url, names, n) is Ok ==> {
            let v = webhook::kinds_of(url, names, n)->Ok_0;
            &&& v.len() == n
            &&& forall|i: int| 0 <= i < n ==> events::kind_of(names[i]) == Some(#[trigger] v[i])
        },
    decreases n,
{
    if n > 0 {
        lemma_kinds(url, names, (n - 1) as nat);
    }
}

/// A webhook is compiled exactly if its URL can be delivered to, its headers
/// can be used, and it lists known kinds of events. It then goes to the host,
/// the port and the path of its URL, over TLS exactly for HTTPS, with its
/// headers, for its events.
pub proof fn law_webhook_goes_where_its_url_says(
    url: Seq<char>,
    parsed: Result<UrlView, Seq<char>>,
    kinds: Seq<Seq<char>>,
    h: Seq<HeaderSpec>,
    retry: RetrySettings,
)
    ensures
        ({
            let r = webhook::target_of(url, parsed, kinds, h, retry);
            &&& r is Ok <==> is_deliverable(parsed) && (forall|i: int|
                0 <= i < h.len() ==> is_usable(#[trigger] h[i])) && (forall|i: int|
                0 <= i < kinds.len() ==> events::kind_of(#[trigger] kinds[i]) is Some)
            &&& r is Ok ==> ({
                let t = r->Ok_0;
                let p = parsed->Ok_0;
                let host = p.host->Some_0;
                &&& t.url == url
                &&& t.retry == retry
                &&& t.tls <==> p.scheme == Some("https"@)
                &&& p.port is Some ==> t.port == p.port->Some_0
                &&& p.port is None && t.tls ==> t.port == 443
                &&& p.port is None && !t.tls ==> t.port == 80
                &&& (t.tls && t.port == 443) || (!t.tls && t.port == 80) ==> t.host_header == host
                &&& !((t.tls && t.port == 443) || (!t.tls && t.port == 80)) ==> t.host_header
                    == host + ":"@ + text::dec(t.port as nat)
                &&& host.len() >= 2 && host[0] == '[' && host.last() == ']' ==> seq!['[']
                    + t.dial_host + seq![']'] == host
                &&& !(host.len() >= 2 && host[0] == '[' && host.last() == ']') ==> t.dial_host
                    == host
                &&& p.path_and_query is Some ==> t.path_and_query == p.path_and_query->Some_0
                &&& p.path_and_query is None ==> t.path_and_query == "/"@
                &&& t.headers.len() == h.len()
                &&& forall|i: int|
                    0 <= i < h.len() ==> #[trigger] t.headers[i] == (h[i].name, h[i].value->Ok_0)
                &&& t.events.len() == kinds.len()
                &&& forall|i: int|
                    0 <= i < kinds.len() ==> events::kind_of(kinds[i]) == Some(
                        #[trigger] t.events[i],
                    )
            })
        }),
{
    lemma_headers(url, h, h.len());
    lemma_kinds(url, kinds, kinds.len());
    let r = webhook::target_of(url, parsed, kinds, h, retry);
    if r is Ok {
        let host = parsed->Ok_0.host->Some_0;
        if host.len() >= 2 && host[0] == '[' && host.last() == ']' {
            assert(seq!['['] + r->Ok_0.dial_host + seq![']'] =~= host);
        }
    }
}

// ---------------------------------------------------------------------------
// Deliveries
// ---------------------------------------------------------------------------

/// An exchange that an answer ended is judged by its status; one that failed
/// on the way may be tried again; one that the budget ended may not.
pub proof fn law_exchanges_are_judged(host: Seq<char>, e: Exchange)
    ensures
        e is NoBudget || e is TimedOut ==> webhook::triaged(host, e) is Fatal,
        e is Failed ==> webhook::triaged(host, e) is Retry && webhook::triaged(
            host,
            e,
        )->retry_after is None && webhook::triaged(host, e)->Retry_error == e->Failed_0@,
        e is Answered ==> {
            let a = webhook::triaged(host, e);
            let s = e->status;
            &&& a is Accepted <==> 200 <= s <= 299
            &&& a is Retry <==> s == 429 || s == 502 || s == 503 || s == 504
            &&& a is Retry ==> (match webhook::retry_after(e->head@) {
                Some(n) => a->retry_after == Some(n as u64),
                None => a->retry_after is None,
            })
        },
{
}

/// A delivery ends with the first answer that accepts or that no retry can
/// help. Else it is tried again, as often as it may be, after the wait that
/// the target asked for, or else the backoff, as long as that ends before the
/// deadline. The backoff doubles up to its cap.
pub proof fn law_delivery_is_tried_again(p: Progress, a: AttemptView, now: int)
    ensures
        ({
            let s = webhook::step_of(p, a, now);
            let asked = a is Retry && a->retry_after is Some && a->retry_after->Some_0 > 0;
            let wait: int = if asked {
                a->retry_after->Some_0 * 1_000_000_000
            } else {
                p.backoff_ms * 1_000_000
            };
            &&& a is Accepted ==> s is Delivered && s->Delivered_attempts == p.attempt
            &&& a is Fatal ==> s is Failed && s->Failed_attempts == p.attempt && s->error
                == a->Fatal_error
            &&& a is Retry ==> (s is Wait <==> p.attempt < p.max_attempts && now + wait
                < p.deadline && now < p.deadline)
            &&& s is Wait ==> s->ns == wait
            &&& a is Retry && !(s is Wait) ==> s is Failed && s->Failed_attempts == p.attempt
        }),
        ({
            let q = webhook::next_progress(p);
            &&& p.attempt < u32::MAX ==> q.attempt == p.attempt + 1
            &&& q.deadline == p.deadline
            &&& q.max_attempts == p.max_attempts
            &&& q.backoff_cap_ms == p.backoff_cap_ms
            &&& 2 * p.backoff_ms <= p.backoff_cap_ms ==> q.backoff_ms == 2 * p.backoff_ms
            &&& 2 * p.backoff_ms > p.backoff_cap_ms ==> q.backoff_ms == p.backoff_cap_ms
        }),
{
}

/// Whether a line is a Retry-After header with a value, in whatever case and
/// with white space around either.
pub open spec fn is_retry_after(line: Seq<char>, name: Seq<char>, value: Seq<char>) -> bool {
    &&& !name.contains(':')
    &&& line == name + seq![':'] + value
    &&& text::lower(text::trim(name)) == text::lower("retry-after"@)
}

proof fn lemma_retry_line(line: Seq<char>, name: Seq<char>, value: Seq<char>)
    requires
        is_retry_after(line, name, value),
    ensures
        webhook::retry_after_value(line) == Some(text::trim(value)),
{
    text::lemma_find(line, ':');
    let i = text::find(line, ':');
    assert(line[name.len() as int] == ':');
    if i < name.len() {
        assert(name[i] == ':');
        assert(name.contains(':'));
    }
    assert(line.take(i) =~= name);
    assert(line.skip(i + 1) =~= value);
}

/// The wait that a target asks for is the number of its first Retry-After
/// header.
pub proof fn law_first_retry_after_counts(
    lines: Seq<Seq<char>>,
    i: int,
    name: Seq<char>,
    value: Seq<char>,
)
    requires
        0 <= i < lines.len(),
        is_retry_after(lines[i], name, value),
        forall|j: int| 0 <= j < i ==> webhook::retry_after_value(#[trigger] lines[j]) is None,
    ensures
        webhook::first_retry_after(lines) == Some(text::trim(value)),
    decreases lines.len(),
{
    lemma_retry_line(lines[i], name, value);
    if i > 0 {
        let t = lines.skip(1);
        assert(t[i - 1] == lines[i]);
        assert forall|j: int| 0 <= j < i - 1 implies webhook::retry_after_value(
            #[trigger] t[j],
        ) is None by {
            assert(t[j] == lines[j + 1]);
        }
        assert(webhook::retry_after_value(lines[0]) is None);
        law_first_retry_after_counts(t, i - 1, name, value);
    }
}

} // verus!
