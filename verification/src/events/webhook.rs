//! Webhook delivery: which targets get an event, what is sent to them, what
//! their answers mean, and when a delivery is tried again.
//!
//! One delivery is one target and one event. Every attempt of a delivery
//! shares one total budget of time. Transport failures and the statuses 429,
//! 502, 503 and 504 are retried, with a backoff that doubles up to a cap; a
//! `Retry-After` in seconds takes the place of the computed wait, unless it
//! is zero. Every other answer outside 2xx fails the delivery. A wait that
//! would use up the rest of the budget gives up instead.

use vstd::prelude::*;
use vstd::string::*;

use crate::civil_time;
use crate::events;
use crate::events::{Event, EventKind};
use crate::headers;
use crate::headers::header_value_accepts;
use crate::json_text;
use crate::json_text::Members;
use crate::text;
use crate::text::{
    cat2, cat3, cat4, clone_pairs, cut, cut_once, debug_duration, debug_str, decimal,
    parse_number, same, same_ignoring_case, trimmed, utf8_lossy, word_two,
};
use crate::url;
use crate::url::{parse_uri, UrlParts};

verus! {

/// Hard cap on one serialized envelope (bytes). An envelope over the cap is
/// dropped and counted, never sent truncated.
pub const MAX_ENVELOPE_BYTES: usize = 16384;

/// At most this many deliveries in flight across every target.
pub const MAX_CONCURRENT_DELIVERIES: usize = 32;

/// Response-head read bound while locating the blank line (bytes).
pub const MAX_RESPONSE_HEAD_BYTES: usize = 8192;

/// `User-Agent` stamped on every delivery.
pub const USER_AGENT: &'static str = "dwara-webhook";

// ---------------------------------------------------------------------------
// Targets
// ---------------------------------------------------------------------------

/// A configured header of a target: its name, and its value with secret
/// references resolved, or why they could not be.
pub struct ResolvedHeader {
    pub name: String,
    pub value: Result<String, String>,
}

/// What a configured header is.
#[verifier::ext_equal]
pub struct HeaderSpec {
    pub name: Seq<char>,
    pub value: Result<Seq<char>, Seq<char>>,
}

impl View for ResolvedHeader {
    type V = HeaderSpec;

    open spec fn view(&self) -> HeaderSpec {
        HeaderSpec {
            name: self.name@,
            value: match self.value {
                Ok(v) => Ok(v@),
                Err(e) => Err(e@),
            },
        }
    }
}

/// What configured headers are.
pub open spec fn header_views(v: Seq<ResolvedHeader>) -> Seq<HeaderSpec> {
    v.map_values(|h: ResolvedHeader| h@)
}

/// The retry settings of a target.
#[derive(Debug, Clone, Copy, PartialEq, Eq, Structural)]
pub struct RetrySettings {
    pub timeout_ms: u64,
    pub max_attempts: u32,
    pub backoff_base_ms: u64,
    pub backoff_cap_ms: u64,
}

/// A configured webhook with its header values resolved.
pub struct Webhook {
    pub url: String,
    pub events: Vec<String>,
    pub headers: Vec<ResolvedHeader>,
    pub retry: RetrySettings,
}

/// One compiled webhook: the URL decomposed for dialing, the event-kind
/// filter, and the resolved headers. Header values may be secret material.
#[derive(Clone)]
pub struct WebhookTarget {
    url: String,
    host_header: String,
    dial_host: String,
    port: u16,
    tls: bool,
    path_and_query: String,
    events: Vec<EventKind>,
    headers: Vec<(String, String)>,
    retry: RetrySettings,
}

/// What a target is.
#[verifier::ext_equal]
pub struct Target {
    pub url: Seq<char>,
    pub host_header: Seq<char>,
    pub dial_host: Seq<char>,
    pub port: u16,
    pub tls: bool,
    pub path_and_query: Seq<char>,
    pub events: Seq<EventKind>,
    pub headers: Seq<(Seq<char>, Seq<char>)>,
    pub retry: RetrySettings,
}

impl View for WebhookTarget {
    type V = Target;

    closed spec fn view(&self) -> Target {
        Target {
            url: self.url@,
            host_header: self.host_header@,
            dial_host: self.dial_host@,
            port: self.port,
            tls: self.tls,
            path_and_query: self.path_and_query@,
            events: self.events@,
            headers: text::text_pairs(self.headers@),
            retry: self.retry,
        }
    }
}

/// What compiling a target gives.
pub open spec fn target_view(r: Result<WebhookTarget, String>) -> Result<Target, Seq<char>> {
    match r {
        Ok(t) => Ok(t@),
        Err(e) => Err(e@),
    }
}

/// A host without the brackets of an IPv6 literal.
pub open spec fn unbracketed(host: Seq<char>) -> Seq<char> {
    if host.len() >= 2 && host[0] == '[' && host.last() == ']' {
        host.subrange(1, host.len() - 1)
    } else {
        host
    }
}

/// The debugging text of an optional scheme.
pub open spec fn scheme_text(scheme: Option<Seq<char>>) -> Seq<char> {
    match scheme {
        Some(s) => "Some("@ + text::debug_text(s) + ")"@,
        None => "None"@,
    }
}

/// The beginning of every message on a webhook URL.
pub open spec fn url_text(url: Seq<char>) -> Seq<char> {
    "webhook url '"@ + url + "'"@
}

/// The first `n` headers, resolved, or the message on the first of them that
/// cannot be sent.
pub open spec fn resolved_headers(url: Seq<char>, h: Seq<HeaderSpec>, n: nat) -> Result<
    Seq<(Seq<char>, Seq<char>)>,
    Seq<char>,
>
    decreases n,
{
    if n == 0 {
        Ok(seq![])
    } else {
        let last = h[n - 1];
        let intro = url_text(url) + " header '"@ + last.name + "': "@;
        match resolved_headers(url, h, (n - 1) as nat) {
            Err(e) => Err(e),
            Ok(before) => match last.value {
                Err(e) => Err(intro + e),
                Ok(v) => if headers::is_header_value(v) {
                    Ok(before.push((last.name, v)))
                } else {
                    Err(
                        intro
                            + "the resolved value contains characters that cannot appear in an HTTP header value"@,
                    )
                },
            },
        }
    }
}

/// The endpoint of a target from the parts of its URL.
pub open spec fn endpoint_of(
    url: Seq<char>,
    parsed: Result<url::UrlView, Seq<char>>,
    h: Seq<HeaderSpec>,
    retry: RetrySettings,
) -> Result<Target, Seq<char>> {
    match parsed {
        Err(e) => Err(url_text(url) + " does not parse: "@ + e),
        Ok(p) => {
            if p.scheme != Some("http"@) && p.scheme != Some("https"@) {
                Err(url_text(url) + " must be http:// or https://, got "@ + scheme_text(p.scheme))
            } else if p.host is None {
                Err(url_text(url) + " has no host"@)
            } else {
                match resolved_headers(url, h, h.len()) {
                    Err(e) => Err(e),
                    Ok(resolved) => {
                        let tls = p.scheme == Some("https"@);
                        let host = p.host->Some_0;
                        let default_port: u16 = if tls {
                            443
                        } else {
                            80
                        };
                        let port = match p.port {
                            Some(n) => n,
                            None => default_port,
                        };
                        Ok(
                            Target {
                                url,
                                host_header: if port == default_port {
                                    host
                                } else {
                                    host + ":"@ + text::dec(port as nat)
                                },
                                dial_host: unbracketed(host),
                                port,
                                tls,
                                path_and_query: match p.path_and_query {
                                    Some(s) => s,
                                    None => "/"@,
                                },
                                events: seq![],
                                headers: resolved,
                                retry,
                            },
                        )
                    },
                }
            }
        },
    }
}

/// The kinds of the first `n` names, or the message on the first name that
/// is no kind.
pub open spec fn kinds_of(url: Seq<char>, names: Seq<Seq<char>>, n: nat) -> Result<
    Seq<EventKind>,
    Seq<char>,
>
    decreases n,
{
    if n == 0 {
        Ok(seq![])
    } else {
        match kinds_of(url, names, (n - 1) as nat) {
            Err(e) => Err(e),
            Ok(before) => match events::kind_of(names[n - 1]) {
                Some(k) => Ok(before.push(k)),
                None => Err(
                    url_text(url) + " lists unknown event kind '"@ + names[n - 1] + "'"@,
                ),
            },
        }
    }
}

/// A webhook compiled from the parts of its URL.
pub open spec fn target_of(
    url: Seq<char>,
    parsed: Result<url::UrlView, Seq<char>>,
    kinds: Seq<Seq<char>>,
    h: Seq<HeaderSpec>,
    retry: RetrySettings,
) -> Result<Target, Seq<char>> {
    match endpoint_of(url, parsed, h, retry) {
        Err(e) => Err(e),
        Ok(t) => match kinds_of(url, kinds, kinds.len()) {
            Err(e) => Err(e),
            Ok(k) => Ok(Target { events: k, ..t }),
        },
    }
}

fn url_message(url: &str) -> (s: String)
    ensures
        s@ == url_text(url@),
{
    cat3("webhook url '", url, "'")
}

fn resolve_headers(url: &str, hs: &Vec<ResolvedHeader>) -> (r: Result<
    Vec<(String, String)>,
    String,
>)
    ensures
        match r {
            Ok(v) => resolved_headers(url@, header_views(hs@), hs@.len()) == Ok::<
                Seq<(Seq<char>, Seq<char>)>,
                Seq<char>,
            >(text::text_pairs(v@)),
            Err(e) => resolved_headers(url@, header_views(hs@), hs@.len()) == Err::<
                Seq<(Seq<char>, Seq<char>)>,
                Seq<char>,
            >(e@),
        },
{
    let ghost all = header_views(hs@);
    let mut out: Vec<(String, String)> = Vec::new();
    assert(text::text_pairs(out@) =~= seq![]);
    let mut i: usize = 0;
    while i < hs.len()
        invariant
            i <= hs.len(),
            all == header_views(hs@),
            resolved_headers(url@, all, i as nat) == Ok::<
                Seq<(Seq<char>, Seq<char>)>,
                Seq<char>,
            >(text::text_pairs(out@)),
        decreases hs.len() - i,
    {
        let h = &hs[i];
        assert(all[i as int] == h@);
        let mut message = url_message(url);
        message.append(" header '");
        message.append(h.name.as_str());
        message.append("': ");
        match &h.value {
            Err(e) => {
                message.append(e.as_str());
                proof {
                    lemma_header_error_stays(url@, all, i as nat + 1, all.len());
                }
                return Err(message);
            },
            Ok(v) => {
                if !header_value_accepts(v.as_str()) {
                    message.append(
                        "the resolved value contains characters that cannot appear in an HTTP header value",
                    );
                    proof {
                        lemma_header_error_stays(url@, all, i as nat + 1, all.len());
                    }
                    return Err(message);
                }
                let pair = (h.name.clone(), v.clone());
                assert(text::text_pairs(out@.push(pair)) =~= text::text_pairs(out@).push(
                    (h.name@, v@),
                ));
                out.push(pair);
            },
        }
        i = i + 1;
    }
    Ok(out)
}

proof fn lemma_header_error_stays(url: Seq<char>, h: Seq<HeaderSpec>, i: nat, n: nat)
    requires
        i <= n,
        resolved_headers(url, h, i) is Err,
    ensures
        resolved_headers(url, h, n) == resolved_headers(url, h, i),
    decreases n,
{
    if i < n {
        lemma_header_error_stays(url, h, i, (n - 1) as nat);
    }
}

proof fn lemma_kind_error_stays(url: Seq<char>, names: Seq<Seq<char>>, i: nat, n: nat)
    requires
        i <= n,
        kinds_of(url, names, i) is Err,
    ensures
        kinds_of(url, names, n) == kinds_of(url, names, i),
    decreases n,
{
    if i < n {
        lemma_kind_error_stays(url, names, i, (n - 1) as nat);
    }
}

fn strip_brackets(host: &str) -> (r: String)
    ensures
        r@ == unbracketed(host@),
{
    let v = text::chars(host);
    if v.len() >= 2 && v[0] == '[' && v[v.len() - 1] == ']' {
        text::from_chars(&v, 1, v.len() - 1)
    } else {
        host.to_owned()
    }
}

impl WebhookTarget {
    /// Compile one configured webhook: decompose its URL, take over its
    /// headers and its retry settings, and look up its event kinds. The
    /// message of a failure is safe for logs: it never holds a header value.
    pub fn compile(cfg: &Webhook) -> (r: Result<Self, String>)
        ensures
            target_view(r) == target_of(
                cfg.url@,
                url::parsed_uri(cfg.url@),
                text::texts(cfg.events@),
                header_views(cfg.headers@),
                cfg.retry,
            ),
    {
        Self::compile_parts(cfg, parse_uri(cfg.url.as_str()))
    }

    /// Compile one configured webhook whose URL was parsed.
    pub fn compile_parts(cfg: &Webhook, parsed: Result<UrlParts, String>) -> (r: Result<
        Self,
        String,
    >)
        ensures
            target_view(r) == target_of(
                cfg.url@,
                url::parse_view(parsed),
                text::texts(cfg.events@),
                header_views(cfg.headers@),
                cfg.retry,
            ),
    {
        let ghost endpoint = endpoint_of(
            cfg.url@,
            url::parse_view(parsed),
            header_views(cfg.headers@),
            cfg.retry,
        );
        let mut target = match Self::endpoint_from_parts(
            cfg.url.as_str(),
            parsed,
            &cfg.headers,
            cfg.retry,
        ) {
            Ok(t) => t,
            Err(e) => {
                return Err(e);
            },
        };
        let ghost names = text::texts(cfg.events@);
        let ghost start = target@;
        let mut kinds: Vec<EventKind> = Vec::new();
        let mut i: usize = 0;
        while i < cfg.events.len()
            invariant
                i <= cfg.events.len(),
                names == text::texts(cfg.events@),
                endpoint == Ok::<Target, Seq<char>>(start),
                endpoint == endpoint_of(
                    cfg.url@,
                    url::parse_view(parsed),
                    header_views(cfg.headers@),
                    cfg.retry,
                ),
                target@ == start,
                kinds_of(cfg.url@, names, i as nat) == Ok::<Seq<EventKind>, Seq<char>>(kinds@),
            decreases cfg.events.len() - i,
        {
            assert(names[i as int] == cfg.events@[i as int]@);
            match EventKind::from_config(cfg.events[i].as_str()) {
                Some(k) => {
                    kinds.push(k);
                },
                None => {
                    let mut message = url_message(cfg.url.as_str());
                    message.append(" lists unknown event kind '");
                    message.append(cfg.events[i].as_str());
                    message.append("'");
                    proof {
                        lemma_kind_error_stays(cfg.url@, names, i as nat + 1, names.len());
                    }
                    return Err(message);
                },
            }
            i = i + 1;
        }
        target.events = kinds;
        Ok(target)
    }

    /// Compile the endpoint half of a target, without any event-kind filter.
    pub fn compile_endpoint(url: &str, headers: &Vec<ResolvedHeader>, retry: RetrySettings) -> (r:
        Result<Self, String>)
        ensures
            target_view(r) == endpoint_of(
                url@,
                url::parsed_uri(url@),
                header_views(headers@),
                retry,
            ),
    {
        Self::endpoint_from_parts(url, parse_uri(url), headers, retry)
    }

    /// The endpoint half of a target whose URL was parsed.
    pub fn endpoint_from_parts(
        url: &str,
        parsed: Result<UrlParts, String>,
        headers: &Vec<ResolvedHeader>,
        retry: RetrySettings,
    ) -> (r: Result<Self, String>)
        ensures
            target_view(r) == endpoint_of(url@, url::parse_view(parsed), header_views(headers@), retry),
    {
        let parts = match parsed {
            Ok(p) => p,
            Err(e) => {
                let mut message = url_message(url);
                message.append(" does not parse: ");
                message.append(e.as_str());
                return Err(message);
            },
        };
        let tls = match &parts.scheme {
            Some(s) => {
                if same(s.as_str(), "https") {
                    true
                } else if same(s.as_str(), "http") {
                    proof {
                        reveal_strlit("http");
                        reveal_strlit("https");
                    }
                    false
                } else {
                    let mut message = url_message(url);
                    message.append(" must be http:// or https://, got ");
                    let scheme = cat3("Some(", debug_str(s.as_str()).as_str(), ")");
                    message.append(scheme.as_str());
                    return Err(message);
                }
            },
            None => {
                let mut message = url_message(url);
                message.append(" must be http:// or https://, got ");
                message.append("None");
                return Err(message);
            },
        };
        let host = match parts.host {
            Some(h) => h,
            None => {
                return Err(cat2(url_message(url).as_str(), " has no host"));
            },
        };
        let default_port: u16 = if tls {
            443
        } else {
            80
        };
        let port: u16 = match parts.port {
            Some(n) => n,
            None => default_port,
        };
        let host_header = if port == default_port {
            host.clone()
        } else {
            cat3(host.as_str(), ":", decimal(port as u64).as_str())
        };
        let dial_host = strip_brackets(host.as_str());
        let path_and_query = match parts.path_and_query {
            Some(p) => p,
            None => "/".to_owned(),
        };
        let resolved = match resolve_headers(url, headers) {
            Ok(v) => v,
            Err(e) => {
                return Err(e);
            },
        };
        Ok(
            WebhookTarget {
                url: url.to_owned(),
                host_header,
                dial_host,
                port,
                tls,
                path_and_query,
                events: Vec::new(),
                headers: resolved,
                retry,
            },
        )
    }

    /// The configured URL (operator config, safe to log).
    pub fn url(&self) -> (s: &str)
        ensures
            s@ == self@.url,
    {
        self.url.as_str()
    }

    /// Host for dialing and for the TLS server name.
    pub fn dial_host(&self) -> (s: &str)
        ensures
            s@ == self@.dial_host,
    {
        self.dial_host.as_str()
    }

    /// Host as it appears in the `Host` header.
    pub fn host_header(&self) -> (s: &str)
        ensures
            s@ == self@.host_header,
    {
        self.host_header.as_str()
    }

    /// Port for dialing.
    pub fn port(&self) -> (n: u16)
        ensures
            n == self@.port,
    {
        self.port
    }

    /// Whether the target speaks TLS.
    pub fn tls(&self) -> (b: bool)
        ensures
            b == self@.tls,
    {
        self.tls
    }

    /// The names of the headers of the target. Their values may be secrets.
    pub fn header_names(&self) -> (r: Vec<String>)
        ensures
            text::texts(r@) == self@.headers.map_values(|p: (Seq<char>, Seq<char>)| p.0),
    {
        let mut r: Vec<String> = Vec::new();
        let ghost names = self@.headers.map_values(|p: (Seq<char>, Seq<char>)| p.0);
        let mut i: usize = 0;
        while i < self.headers.len()
            invariant
                i <= self.headers.len(),
                names == self@.headers.map_values(|p: (Seq<char>, Seq<char>)| p.0),
                r.len() == i,
                forall|j: int| 0 <= j < i ==> (#[trigger] r@[j])@ == names[j],
            decreases self.headers.len() - i,
        {
            r.push(self.headers[i].0.clone());
            i = i + 1;
        }
        assert(text::texts(r@) =~= names);
        r
    }

    /// Whether this target receives `kind`.
    pub fn wants(&self, kind: EventKind) -> (r: bool)
        ensures
            r == self@.events.contains(kind),
    {
        let mut i: usize = 0;
        while i < self.events.len()
            invariant
                i <= self.events.len(),
                forall|j: int| 0 <= j < i ==> self.events@[j] != kind,
            decreases self.events.len() - i,
        {
            if self.events[i] == kind {
                assert(self.events@[i as int] == kind);
                return true;
            }
            i = i + 1;
        }
        false
    }

    /// A copy of the target.
    pub fn copy(&self) -> (t: Self)
        ensures
            t@ == self@,
    {
        let mut events: Vec<EventKind> = Vec::new();
        let mut i: usize = 0;
        while i < self.events.len()
            invariant
                i <= self.events.len(),
                events@ == self.events@.take(i as int),
            decreases self.events.len() - i,
        {
            events.push(self.events[i]);
            i = i + 1;
        }
        assert(events@ =~= self.events@);
        WebhookTarget {
            url: self.url.clone(),
            host_header: self.host_header.clone(),
            dial_host: self.dial_host.clone(),
            port: self.port,
            tls: self.tls,
            path_and_query: self.path_and_query.clone(),
            events,
            headers: clone_pairs(&self.headers),
            retry: self.retry,
        }
    }
}

// ---------------------------------------------------------------------------
// Envelopes
// ---------------------------------------------------------------------------

/// The envelope of an event.
pub open spec fn envelope_text(e: Event) -> Seq<char> {
    json_text::object(
        seq![
            json_text::member("id"@, json_text::quoted(e.id@)),
            json_text::member("kind"@, json_text::quoted(events::kind_name(e.kind))),
            json_text::member(
                "timestamp"@,
                json_text::quoted(civil_time::rfc3339_text(e.timestamp_ms)),
            ),
            json_text::member("gateway"@, json_text::quoted(e.gateway@)),
            json_text::member(
                "payload"@,
                json_text::object(events::payload_members(e.payload@)),
            ),
        ],
    )
}

/// Serialize one event into its envelope JSON.
pub fn envelope_json(event: &Event) -> (s: String)
    ensures
        s@ == envelope_text(*event),
{
    let mut m = Members::new();
    m.string("id", event.id.as_str());
    m.string("kind", event.kind.as_str());
    m.string("timestamp", civil_time::rfc3339_ms(event.timestamp_ms).as_str());
    m.string("gateway", event.gateway.as_str());
    m.raw("payload", event.payload.to_json().as_str());
    assert(m@ =~= seq![
        json_text::member("id"@, json_text::quoted(event.id@)),
        json_text::member("kind"@, json_text::quoted(events::kind_name(event.kind))),
        json_text::member(
            "timestamp"@,
            json_text::quoted(civil_time::rfc3339_text(event.timestamp_ms)),
        ),
        json_text::member("gateway"@, json_text::quoted(event.gateway@)),
        json_text::member(
            "payload"@,
            json_text::object(events::payload_members(event.payload@)),
        ),
    ]);
    m.finish()
}

/// The targets that receive a kind, by their place in the list.
pub open spec fn recipients_of(targets: Seq<WebhookTarget>, kind: EventKind, n: nat) -> Seq<usize>
    decreases n,
{
    if n == 0 {
        seq![]
    } else {
        let before = recipients_of(targets, kind, (n - 1) as nat);
        if targets[n - 1]@.events.contains(kind) {
            before.push((n - 1) as usize)
        } else {
            before
        }
    }
}

/// What is to be done with an event.
#[derive(Debug, Clone, PartialEq, Eq)]
pub enum Dispatch {
    /// The envelope is over the byte cap: count one drop.
    Oversize,
    /// Deliver the envelope to the targets at these places.
    To(Vec<usize>),
}

/// Decides what is to be done with an event whose envelope has the given
/// length in bytes.
pub fn dispatch(body_len: usize, targets: &Vec<WebhookTarget>, kind: EventKind) -> (d: Dispatch)
    ensures
        match d {
            Dispatch::Oversize => body_len > MAX_ENVELOPE_BYTES,
            Dispatch::To(to) => {
                &&& body_len <= MAX_ENVELOPE_BYTES
                &&& to@ == recipients_of(targets@, kind, targets@.len())
            },
        },
{
    if body_len > MAX_ENVELOPE_BYTES {
        return Dispatch::Oversize;
    }
    let mut to: Vec<usize> = Vec::new();
    let mut i: usize = 0;
    while i < targets.len()
        invariant
            i <= targets.len(),
            to@ == recipients_of(targets@, kind, i as nat),
        decreases targets.len() - i,
    {
        if targets[i].wants(kind) {
            to.push(i);
        }
        i = i + 1;
    }
    Dispatch::To(to)
}

// ---------------------------------------------------------------------------
// One attempt
// ---------------------------------------------------------------------------

/// The configured headers of a request head.
pub open spec fn header_lines(h: Seq<(Seq<char>, Seq<char>)>, n: nat) -> Seq<char>
    decreases n,
{
    if n == 0 {
        seq![]
    } else {
        header_lines(h, (n - 1) as nat) + (h[n - 1].0 + ": "@ + h[n - 1].1 + "\r\n"@)
    }
}

/// The head of the request of a delivery.
pub open spec fn request_head_text(
    t: Target,
    body_len: nat,
    content_type: Seq<char>,
    user_agent: Seq<char>,
) -> Seq<char> {
    "POST "@ + t.path_and_query + " HTTP/1.1\r\nhost: "@ + t.host_header
        + "\r\ncontent-length: "@ + text::dec(body_len) + "\r\nconnection: close\r\nuser-agent: "@
        + user_agent + "\r\ncontent-type: "@ + content_type + "\r\n"@ + header_lines(
        t.headers,
        t.headers.len(),
    ) + "\r\n"@
}

/// The head of the request of a delivery. The configured headers stand
/// behind those of the gateway.
pub fn request_head(
    target: &WebhookTarget,
    body_len: usize,
    content_type: &str,
    user_agent: &str,
) -> (head: String)
    ensures
        head@ == request_head_text(target@, body_len as nat, content_type@, user_agent@),
{
    let mut head = String::new();
    head.append("POST ");
    head.append(target.path_and_query.as_str());
    head.append(" HTTP/1.1\r\nhost: ");
    head.append(target.host_header.as_str());
    head.append("\r\ncontent-length: ");
    head.append(decimal(body_len as u64).as_str());
    head.append("\r\nconnection: close\r\nuser-agent: ");
    head.append(user_agent);
    head.append("\r\ncontent-type: ");
    head.append(content_type);
    head.append("\r\n");
    let ghost h = target@.headers;
    let ghost start = head@;
    let mut i: usize = 0;
    assert(head@ =~= start + header_lines(h, 0));
    while i < target.headers.len()
        invariant
            i <= target.headers.len(),
            h == target@.headers,
            head@ == start + header_lines(h, i as nat),
        decreases target.headers.len() - i,
    {
        assert(h[i as int] == (target.headers@[i as int].0@, target.headers@[i as int].1@));
        let line = cat4(target.headers[i].0.as_str(), ": ", target.headers[i].1.as_str(), "\r\n");
        head.append(line.as_str());
        i = i + 1;
        assert(head@ =~= start + header_lines(h, i as nat));
    }
    head.append("\r\n");
    head
}

/// Whether a blank line begins at a place of the bytes.
pub open spec fn blank_line_at(b: Seq<u8>, i: int) -> bool {
    &&& 0 <= i
    &&& i + 4 <= b.len()
    &&& b[i] == 13u8
    &&& b[i + 1] == 10u8
    &&& b[i + 2] == 13u8
    &&& b[i + 3] == 10u8
}

/// Whether the first blank line of the bytes begins at a place.
pub open spec fn head_ends_at(b: Seq<u8>, i: int) -> bool {
    blank_line_at(b, i) && forall|j: int| 0 <= j < i ==> !(#[trigger] blank_line_at(b, j))
}

/// What is known of an answer from the bytes read so far.
#[derive(Debug, Clone, PartialEq, Eq)]
pub enum HeadRead {
    /// The head is there: its status and its text.
    Answer { status: u16, head: String },
    /// The answer is of no use, for this reason.
    Broken(String),
    /// More is to be read.
    More,
}

/// Whether `r` is what is known of an answer from the bytes read so far.
pub open spec fn head_read_is(host: Seq<char>, b: Seq<u8>, r: HeadRead) -> bool {
    if exists|i: int| #[trigger] head_ends_at(b, i) {
        let head = text::lossy_text(b.take(choose|i: int| #[trigger] head_ends_at(b, i)));
        match status_of(head) {
            Some(n) => match r {
                HeadRead::Answer { status, head: t } => status == n && t@ == head,
                _ => false,
            },
            None => match r {
                HeadRead::Broken(e) => e@ == "webhook "@ + host
                    + " answered an unparseable status line"@,
                _ => false,
            },
        }
    } else if b.len() > MAX_RESPONSE_HEAD_BYTES {
        match r {
            HeadRead::Broken(e) => e@ == "webhook "@ + host
                + " response head exceeded the 8192 byte cap"@,
            _ => false,
        }
    } else {
        r == HeadRead::More
    }
}

/// The status of a response head: its second word as a number.
pub open spec fn status_of(head: Seq<char>) -> Option<nat> {
    match text::second_word(head) {
        Some(w) => text::parse_max(w, 65535),
        None => None,
    }
}

/// Looks for the head of the answer in the bytes read so far.
pub fn read_head(target: &WebhookTarget, buf: &Vec<u8>) -> (r: HeadRead)
    ensures
        head_read_is(target@.host_header, buf@, r),
{
    let n: usize = buf.len();
    let mut i: usize = 0;
    while i < n && n - i >= 4
        invariant
            n == buf.len(),
            i <= n,
            forall|j: int| 0 <= j < i ==> !(#[trigger] blank_line_at(buf@, j)),
        decreases n - i,
    {
        if buf[i] == 13 && buf[i + 1] == 10 && buf[i + 2] == 13 && buf[i + 3] == 10 {
            proof {
                assert(head_ends_at(buf@, i as int));
                let k = choose|k: int| #[trigger] head_ends_at(buf@, k);
                assert(k == i) by {
                    if k < i {
                        assert(!blank_line_at(buf@, k));
                    }
                    if i < k {
                        assert(!blank_line_at(buf@, i as int));
                    }
                }
            }
            let head = utf8_lossy(vstd::slice::slice_subrange(buf.as_slice(), 0, i));
            assert(buf@.subrange(0, i as int) =~= buf@.take(i as int));
            let status = match word_two(head.as_str()) {
                Some(w) => parse_number(w.as_str(), 65535),
                None => None,
            };
            match status {
                Some(s) => {
                    return HeadRead::Answer { status: s as u16, head };
                },
                None => {
                    return HeadRead::Broken(
                        cat3(
                            "webhook ",
                            target.host_header.as_str(),
                            " answered an unparseable status line",
                        ),
                    );
                },
            }
        }
        i = i + 1;
    }
    assert(forall|j: int| !(#[trigger] head_ends_at(buf@, j)));
    if n > MAX_RESPONSE_HEAD_BYTES {
        return HeadRead::Broken(
            cat3(
                "webhook ",
                target.host_header.as_str(),
                " response head exceeded the 8192 byte cap",
            ),
        );
    }
    HeadRead::More
}

/// Whether a status is in the transient retry set.
pub open spec fn retryable(status: u16) -> bool {
    status == 429 || status == 502 || status == 503 || status == 504
}

/// Whether a status is in the transient retry set (429 quota, 502/503/504
/// brief unavailability).
pub fn is_retryable_status(status: u16) -> (r: bool)
    ensures
        r == retryable(status),
{
    status == 429 || status == 502 || status == 503 || status == 504
}

/// The value of a line that is a `Retry-After` header.
pub open spec fn retry_after_value(line: Seq<char>) -> Option<Seq<char>> {
    match text::split_once(line, ':') {
        Some(p) => if text::lower(text::trim(p.0)) == text::lower("retry-after"@) {
            Some(text::trim(p.1))
        } else {
            None
        },
        None => None,
    }
}

/// The value of the first of the lines that is a `Retry-After` header.
pub open spec fn first_retry_after(lines: Seq<Seq<char>>) -> Option<Seq<char>>
    decreases lines.len(),
{
    if lines.len() == 0 {
        None
    } else {
        match retry_after_value(lines[0]) {
            Some(v) => Some(v),
            None => first_retry_after(lines.skip(1)),
        }
    }
}

/// The seconds that a response head asks to wait.
pub open spec fn retry_after(head: Seq<char>) -> Option<nat> {
    match first_retry_after(text::split(head, '\n')) {
        Some(v) => text::parse_max(v, u64::MAX as nat),
        None => None,
    }
}

/// Seconds-form `Retry-After` only (the date form is deliberately
/// uninterpreted).
pub fn retry_after_seconds(head: &str) -> (r: Option<u64>)
    ensures
        match (r, retry_after(head@)) {
            (Some(n), Some(m)) => n == m,
            (None, None) => true,
            _ => false,
        },
{
    let lines = cut(head, '\n');
    let ghost all = text::split(head@, '\n');
    let mut i: usize = 0;
    assert(all.skip(0) =~= all);
    while i < lines.len()
        invariant
            i <= lines.len(),
            text::texts(lines@) == all,
            all == text::split(head@, '\n'),
            first_retry_after(all) == first_retry_after(all.skip(i as int)),
        decreases lines.len() - i,
    {
        assert(all.len() == lines@.len());
        assert(all.skip(i as int)[0] == lines@[i as int]@);
        assert(all.skip(i as int).skip(1) =~= all.skip(i + 1));
        if let Some((name, value)) = cut_once(lines[i].as_str(), ':') {
            if same_ignoring_case(trimmed(name.as_str()).as_str(), "retry-after") {
                return parse_number(trimmed(value.as_str()).as_str(), u64::MAX);
            }
        }
        i = i + 1;
    }
    assert(all.len() == lines@.len());
    None
}

/// How the exchange of one attempt ended.
#[derive(Debug, Clone, PartialEq, Eq)]
pub enum Exchange {
    /// The budget was spent before the attempt began.
    NoBudget,
    /// An answer came.
    Answered { status: u16, head: String },
    /// The transport failed, or the answer was of no use.
    Failed(String),
    /// The budget ran out during the attempt.
    TimedOut,
}

/// One exchange attempt's outcome.
#[derive(Debug, Clone, PartialEq, Eq)]
pub enum Attempt {
    /// 2xx: accepted.
    Accepted,
    /// Not accepted, but a bounded retry may help. Carries the wait in
    /// seconds that the target asked for, if it did.
    Retry { retry_after: Option<u64>, error: String },
    /// Retrying cannot help.
    Fatal(String),
}

/// What an attempt's outcome is.
#[verifier::ext_equal]
pub enum AttemptView {
    Accepted,
    Retry { retry_after: Option<u64>, error: Seq<char> },
    Fatal { error: Seq<char> },
}

impl View for Attempt {
    type V = AttemptView;

    open spec fn view(&self) -> AttemptView {
        match *self {
            Attempt::Accepted => AttemptView::Accepted,
            Attempt::Retry { retry_after, error } => AttemptView::Retry {
                retry_after,
                error: error@,
            },
            Attempt::Fatal(error) => AttemptView::Fatal { error: error@ },
        }
    }
}

/// The seconds that a response head asks to wait, as a 64-bit number.
pub open spec fn asked_wait(head: Seq<char>) -> Option<u64> {
    match retry_after(head) {
        Some(n) => Some(n as u64),
        None => None,
    }
}

/// The outcome of an exchange with a target.
pub open spec fn triaged(host: Seq<char>, e: Exchange) -> AttemptView {
    match e {
        Exchange::NoBudget => AttemptView::Fatal {
            error: "delivery budget spent before the attempt"@,
        },
        Exchange::Answered { status, head } => if 200 <= status < 300 {
            AttemptView::Accepted
        } else if retryable(status) {
            AttemptView::Retry {
                retry_after: asked_wait(head@),
                error: "webhook "@ + host + " answered "@ + text::dec(status as nat),
            }
        } else {
            AttemptView::Fatal {
                error: "webhook "@ + host + " answered "@ + text::dec(status as nat)
                    + " (not retryable)"@,
            }
        },
        Exchange::Failed(error) => AttemptView::Retry { retry_after: None, error: error@ },
        Exchange::TimedOut => AttemptView::Fatal {
            error: "webhook "@ + host + " delivery exceeded its timeout budget"@,
        },
    }
}

/// Classifies the exchange of one attempt.
pub fn triage(target: &WebhookTarget, exchange: Exchange) -> (a: Attempt)
    ensures
        a@ == triaged(target@.host_header, exchange),
{
    match exchange {
        Exchange::NoBudget => {
            Attempt::Fatal("delivery budget spent before the attempt".to_owned())
        },
        Exchange::Answered { status, head } => {
            if 200 <= status && status < 300 {
                Attempt::Accepted
            } else {
                let answered = cat4(
                    "webhook ",
                    target.host_header.as_str(),
                    " answered ",
                    decimal(status as u64).as_str(),
                );
                if is_retryable_status(status) {
                    Attempt::Retry {
                        retry_after: retry_after_seconds(head.as_str()),
                        error: answered,
                    }
                } else {
                    Attempt::Fatal(cat2(answered.as_str(), " (not retryable)"))
                }
            }
        },
        Exchange::Failed(error) => Attempt::Retry { retry_after: None, error },
        Exchange::TimedOut => {
            Attempt::Fatal(
                cat3(
                    "webhook ",
                    target.host_header.as_str(),
                    " delivery exceeded its timeout budget",
                ),
            )
        },
    }
}

// ---------------------------------------------------------------------------
// One delivery
// ---------------------------------------------------------------------------

/// Terminal outcome of one body's retry cycle.
#[derive(Debug, Clone, PartialEq, Eq)]
pub enum DeliveryEnd {
    /// A 2xx answer arrived on the `attempts`-th attempt.
    Delivered { attempts: u32 },
    /// Retries exhausted, a non-transient answer, or the budget spent.
    Failed { attempts: u32, error: String },
}

/// What a delivery does after an attempt.
#[derive(Debug, Clone, PartialEq, Eq)]
pub enum Step {
    /// The delivery has ended.
    End(DeliveryEnd),
    /// Wait this long (nanoseconds), and try once more.
    Wait(u128),
}

/// What a step is.
#[verifier::ext_equal]
pub enum StepView {
    Delivered { attempts: u32 },
    Failed { attempts: u32, error: Seq<char> },
    Wait { ns: int },
}

impl View for Step {
    type V = StepView;

    open spec fn view(&self) -> StepView {
        match *self {
            Step::End(DeliveryEnd::Delivered { attempts }) => StepView::Delivered { attempts },
            Step::End(DeliveryEnd::Failed { attempts, error }) => StepView::Failed {
                attempts,
                error: error@,
            },
            Step::Wait(ns) => StepView::Wait { ns: ns as int },
        }
    }
}

/// The state of a delivery: when its budget ends, what it would wait next,
/// and which attempt it is at. Times are in nanoseconds of a clock that does
/// not run backwards.
#[derive(Debug)]
pub struct Delivery {
    deadline: u128,
    backoff_ms: u64,
    backoff_cap_ms: u64,
    attempt: u32,
    max_attempts: u32,
}

/// What the state of a delivery is.
#[verifier::ext_equal]
pub struct Progress {
    pub deadline: int,
    pub backoff_ms: u64,
    pub backoff_cap_ms: u64,
    pub attempt: u32,
    pub max_attempts: u32,
}

impl View for Delivery {
    type V = Progress;

    closed spec fn view(&self) -> Progress {
        Progress {
            deadline: self.deadline as int,
            backoff_ms: self.backoff_ms,
            backoff_cap_ms: self.backoff_cap_ms,
            attempt: self.attempt,
            max_attempts: self.max_attempts,
        }
    }
}

/// Twice a backoff, up to the cap.
pub open spec fn doubled(backoff_ms: u64, cap_ms: u64) -> u64 {
    if 2 * backoff_ms <= cap_ms {
        (2 * backoff_ms) as u64
    } else {
        cap_ms
    }
}

/// The wait before the next attempt, in nanoseconds: what the target asked
/// for, unless that is zero, or else the backoff.
pub open spec fn wait_ns(p: Progress, retry_after: Option<u64>) -> int {
    match retry_after {
        Some(s) => if s != 0 {
            s * 1_000_000_000
        } else {
            p.backoff_ms * 1_000_000
        },
        None => p.backoff_ms * 1_000_000,
    }
}

/// The text of a wait.
pub open spec fn wait_text(ns: int) -> Seq<char> {
    text::duration_text((ns / 1_000_000_000) as u64, (ns % 1_000_000_000) as u32)
}

/// What a delivery does after an attempt, at a time.
pub open spec fn step_of(p: Progress, a: AttemptView, now: int) -> StepView {
    match a {
        AttemptView::Accepted => StepView::Delivered { attempts: p.attempt },
        AttemptView::Fatal { error } => StepView::Failed { attempts: p.attempt, error },
        AttemptView::Retry { retry_after, error } => {
            let wait = wait_ns(p, retry_after);
            if p.attempt >= p.max_attempts {
                StepView::Failed {
                    attempts: p.attempt,
                    error: "still not accepted after "@ + text::dec(p.attempt as nat)
                        + " attempts: "@ + error,
                }
            } else if now >= p.deadline {
                StepView::Failed {
                    attempts: p.attempt,
                    error: "delivery budget spent before retry: "@ + error,
                }
            } else if wait >= p.deadline - now {
                StepView::Failed {
                    attempts: p.attempt,
                    error: "retry wait "@ + wait_text(wait)
                        + " would exhaust the delivery budget: "@ + error,
                }
            } else {
                StepView::Wait { ns: wait }
            }
        },
    }
}

/// The state of a delivery that goes on to its next attempt.
pub open spec fn next_progress(p: Progress) -> Progress {
    Progress {
        backoff_ms: doubled(p.backoff_ms, p.backoff_cap_ms),
        attempt: (p.attempt + 1) as u32,
        ..p
    }
}

impl Delivery {
    /// A delivery to a target that begins now.
    pub fn start(target: &WebhookTarget, now: u64) -> (d: Self)
        ensures
            d@ == (Progress {
                deadline: now + target@.retry.timeout_ms * 1_000_000,
                backoff_ms: target@.retry.backoff_base_ms,
                backoff_cap_ms: target@.retry.backoff_cap_ms,
                attempt: 1,
                max_attempts: target@.retry.max_attempts,
            }),
    {
        Delivery {
            deadline: now as u128 + target.retry.timeout_ms as u128 * 1_000_000,
            backoff_ms: target.retry.backoff_base_ms,
            backoff_cap_ms: target.retry.backoff_cap_ms,
            attempt: 1,
            max_attempts: target.retry.max_attempts,
        }
    }

    /// The time left against the deadline; nothing once it is spent.
    pub fn remaining(&self, now: u64) -> (r: Option<u128>)
        ensures
            match r {
                Some(left) => left > 0 && left == self@.deadline - now,
                None => now >= self@.deadline,
            },
    {
        let now: u128 = now as u128;
        if now < self.deadline {
            Some(self.deadline - now)
        } else {
            None
        }
    }

    /// Decides after an attempt, at a time: the delivery ends, or it waits
    /// and tries once more.
    pub fn step(&mut self, attempt: Attempt, now: u64) -> (s: Step)
        ensures
            s@ == step_of(old(self)@, attempt@, now as int),
            final(self)@ == if s is Wait {
                next_progress(old(self)@)
            } else {
                old(self)@
            },
    {
        match attempt {
            Attempt::Accepted => Step::End(DeliveryEnd::Delivered { attempts: self.attempt }),
            Attempt::Fatal(error) => {
                Step::End(DeliveryEnd::Failed { attempts: self.attempt, error })
            },
            Attempt::Retry { retry_after, error } => {
                if self.attempt >= self.max_attempts {
                    let message = cat4(
                        "still not accepted after ",
                        decimal(self.attempt as u64).as_str(),
                        " attempts: ",
                        error.as_str(),
                    );
                    return Step::End(
                        DeliveryEnd::Failed { attempts: self.attempt, error: message },
                    );
                }
                let computed: u128 = self.backoff_ms as u128 * 1_000_000;
                let wait: u128 = match retry_after {
                    Some(s) => if s != 0 {
                        s as u128 * 1_000_000_000
                    } else {
                        computed
                    },
                    None => computed,
                };
                let left: u128 = match self.remaining(now) {
                    Some(left) => left,
                    None => {
                        let message = cat2("delivery budget spent before retry: ", error.as_str());
                        return Step::End(
                            DeliveryEnd::Failed { attempts: self.attempt, error: message },
                        );
                    },
                };
                if wait >= left {
                    let shown = debug_duration(
                        (wait / 1_000_000_000) as u64,
                        (wait % 1_000_000_000) as u32,
                    );
                    let message = cat4(
                        "retry wait ",
                        shown.as_str(),
                        " would exhaust the delivery budget: ",
                        error.as_str(),
                    );
                    return Step::End(
                        DeliveryEnd::Failed { attempts: self.attempt, error: message },
                    );
                }
                self.backoff_ms = if self.backoff_ms <= self.backoff_cap_ms / 2 {
                    self.backoff_ms * 2
                } else {
                    self.backoff_cap_ms
                };
                self.attempt = self.attempt + 1;
                Step::Wait(wait)
            },
        }
    }
}

// ---------------------------------------------------------------------------
// Laws
// ---------------------------------------------------------------------------

/// A delivery never waits past its deadline, never waits for no time where
/// its backoff is not zero, and goes on only while attempts are left.
pub proof fn law_wait_stays_within_budget(p: Progress, a: AttemptView, now: int)
    requires
        step_of(p, a, now) is Wait,
    ensures
        now + step_of(p, a, now)->ns < p.deadline,
        p.backoff_ms > 0 ==> step_of(p, a, now)->ns > 0,
        next_progress(p).attempt <= p.max_attempts,
        next_progress(p).attempt == p.attempt + 1,
        next_progress(p).deadline == p.deadline,
{
    if let AttemptView::Retry { retry_after, error } = a {
        assert(p.backoff_ms > 0 ==> p.backoff_ms * 1_000_000 > 0);
    }
}

/// The backoff doubles with each attempt while that keeps it under the cap,
/// shrinks only if it started over the cap, and never grows past the cap.
pub proof fn law_backoff_doubles_to_the_cap(p: Progress)
    ensures
        next_progress(p).backoff_ms <= p.backoff_cap_ms,
        p.backoff_ms <= p.backoff_cap_ms ==> p.backoff_ms <= next_progress(p).backoff_ms,
        2 * p.backoff_ms <= p.backoff_cap_ms ==> next_progress(p).backoff_ms == 2 * p.backoff_ms,
{
}

/// Only the transient statuses are tried again: every other answer ends the
/// delivery.
pub proof fn law_only_transient_answers_are_retried(host: Seq<char>, status: u16, head: String)
    ensures
        ({
            let a = triaged(host, Exchange::Answered { status, head });
            &&& a is Accepted == (200 <= status < 300)
            &&& a is Retry == (status == 429 || status == 502 || status == 503 || status == 504)
        }),
{
}

/// An event goes to exactly the targets that list its kind, each of them
/// once and in their order.
pub proof fn law_event_goes_to_its_subscribers(
    targets: Seq<WebhookTarget>,
    kind: EventKind,
    n: nat,
)
    requires
        n <= targets.len(),
        targets.len() <= usize::MAX,
    ensures
        forall|k: int|
            0 <= k < recipients_of(targets, kind, n).len() ==> {
                let i = #[trigger] recipients_of(targets, kind, n)[k];
                i < n && targets[i as int]@.events.contains(kind)
            },
        forall|k: int, l: int|
            0 <= k < l < recipients_of(targets, kind, n).len() ==> recipients_of(
                targets,
                kind,
                n,
            )[k] < recipients_of(targets, kind, n)[l],
        forall|i: usize|
            i < n && (#[trigger] targets[i as int])@.events.contains(kind) ==> recipients_of(
                targets,
                kind,
                n,
            ).contains(i),
    decreases n,
{
    if n > 0 {
        let m = (n - 1) as nat;
        law_event_goes_to_its_subscribers(targets, kind, m);
        let before = recipients_of(targets, kind, m);
        let all = recipients_of(targets, kind, n);
        assert forall|k: int| 0 <= k < all.len() implies {
            let i = #[trigger] all[k];
            i < n && targets[i as int]@.events.contains(kind)
        } by {
            if k < before.len() {
                assert(all[k] == before[k]);
            }
        }
        assert forall|k: int, l: int| 0 <= k < l < all.len() implies all[k] < all[l] by {
            assert(all[k] == before[k]);
            if l < before.len() {
                assert(all[l] == before[l]);
            }
        }
        assert forall|i: usize|
            i < n && (#[trigger] targets[i as int])@.events.contains(kind) implies all.contains(
            i,
        ) by {
            if i < m {
                assert(before.contains(i));
                let k = choose|k: int| 0 <= k < before.len() && before[k] == i;
                assert(all[k] == i);
            } else {
                assert(all[all.len() - 1] == i);
            }
        }
    }
}

} // verus!
