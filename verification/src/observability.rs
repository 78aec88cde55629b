//! Request identifiers, access records, the access-log sampling rule, the
//! error envelope and the metrics.

use vstd::prelude::*;
use vstd::string::*;

use crate::headers;
use crate::headers::{header_value_accepts, set_field};
use crate::json_text;
use crate::json_text::Members;
use crate::text;
use crate::text::{cat2, cat4, decimal, hexadecimal, pad_zeros};

pub mod metrics;

verus! {

/// Header carrying the correlation identifier of a request.
pub const X_REQUEST_ID: &'static str = "x-request-id";

/// Prometheus status-class label ("2xx", "5xx", ...).
pub fn status_class(status: u16) -> (s: String)
    ensures
        s@ == text::dec((status / 100) as nat) + "xx"@,
{
    cat2(decimal((status / 100) as u64).as_str(), "xx")
}

/// The accumulated access-log record for one request.
#[derive(Debug)]
pub struct AccessRecord {
    pub request_id: String,
    pub method: String,
    /// Request path without the query string.
    pub path: String,
    pub listener: String,
    /// Matched route name, or "unrouted".
    pub route: String,
    /// Authenticated consumer, or "anonymous".
    pub consumer: String,
    pub upstream: Option<String>,
    pub endpoint: Option<String>,
    pub attempts: u32,
    pub rate_limited: bool,
    pub broken: bool,
    pub shed: bool,
    pub status: u16,
    /// The duration in milliseconds, as a JSON number.
    pub duration_ms: String,
    /// Config-declared dimensions and their values.
    pub custom: Vec<(String, String)>,
}

impl AccessRecord {
    /// The record of a request that nothing is known of yet.
    pub fn new(request_id: String, method: String, path: String, listener: String) -> (r: Self)
        ensures
            r.request_id@ == request_id@,
            r.method@ == method@,
            r.path@ == path@,
            r.listener@ == listener@,
            r.route@ == "unrouted"@,
            r.consumer@ == "anonymous"@,
            r.upstream is None,
            r.endpoint is None,
            r.attempts == 0,
            !r.rate_limited,
            !r.broken,
            !r.shed,
            r.status == 0,
            r.duration_ms@ == "0.0"@,
            r.custom@.len() == 0,
    {
        AccessRecord {
            request_id,
            method,
            path,
            listener,
            route: "unrouted".to_owned(),
            consumer: "anonymous".to_owned(),
            upstream: None,
            endpoint: None,
            attempts: 0,
            rate_limited: false,
            broken: false,
            shed: false,
            status: 0,
            duration_ms: "0.0".to_owned(),
            custom: Vec::new(),
        }
    }
}

/// The error body for a code, a message and a request.
pub open spec fn envelope_text(code: Seq<char>, message: Seq<char>, request_id: Seq<char>) -> Seq<
    char,
> {
    json_text::object(
        seq![
            json_text::member(
                "error"@,
                json_text::object(
                    seq![
                        json_text::member("code"@, json_text::quoted(code)),
                        json_text::member("message"@, json_text::quoted(message)),
                        json_text::member("request_id"@, json_text::quoted(request_id)),
                    ],
                ),
            ),
        ],
    )
}

/// The unified error body: `code` is a stable machine token, `message` a
/// human string with no upstream internals, `request_id` ties the response
/// to the access log.
pub fn envelope_body(code: &str, message: &str, request_id: &str) -> (s: String)
    ensures
        s@ == envelope_text(code@, message@, request_id@),
{
    let mut inner = Members::new();
    inner.string("code", code);
    inner.string("message", message);
    inner.string("request_id", request_id);
    assert(inner@ =~= seq![
        json_text::member("code"@, json_text::quoted(code@)),
        json_text::member("message"@, json_text::quoted(message@)),
        json_text::member("request_id"@, json_text::quoted(request_id@)),
    ]);
    let mut outer = Members::new();
    outer.raw("error", inner.finish().as_str());
    assert(outer@ =~= seq![json_text::member("error"@, json_text::object(inner@))]);
    outer.finish()
}

/// Whether bytes are an acceptable request identifier: printable ASCII, at
/// least one byte and at most 128.
pub open spec fn is_request_id(v: Seq<u8>) -> bool {
    &&& 0 < v.len() <= 128
    &&& forall|i: int| 0 <= i < v.len() ==> 0x20 <= (#[trigger] v[i]) <= 0x7e
}

/// Validate an inbound `X-Request-Id` value: printable ASCII, at most 128
/// bytes. Anything else is rejected so that hostile identifiers cannot
/// smuggle control characters into logs.
pub fn valid_inbound_request_id(v: &[u8]) -> (r: bool)
    ensures
        r == is_request_id(v@),
{
    if v.len() == 0 || v.len() > 128 {
        return false;
    }
    let mut i: usize = 0;
    while i < v.len()
        invariant
            i <= v.len(),
            forall|j: int| 0 <= j < i ==> 0x20 <= (#[trigger] v@[j]) <= 0x7e,
        decreases v.len() - i,
    {
        if v[i] < 0x20 || v[i] > 0x7e {
            assert(!(0x20 <= v@[i as int] <= 0x7e));
            return false;
        }
        i = i + 1;
    }
    true
}

/// ASCII bytes as text.
pub open spec fn ascii_text(v: Seq<u8>) -> Seq<char> {
    v.map_values(|b: u8| b as char)
}

/// The identifier made of a time in nanoseconds and a counter: the time in
/// at least sixteen hexadecimal digits, the low 24 bits of the counter in at
/// least six.
pub open spec fn request_id_text(nanos: u128, counter: u64) -> Seq<char> {
    "req-"@ + text::zero_pad(text::hex(nanos as nat), 16) + "-"@ + text::zero_pad(
        text::hex((counter % 0x100_0000) as nat),
        6,
    )
}

/// A request identifier from the clock and a counter of the process.
pub fn generate_request_id(nanos: u128, counter: u64) -> (s: String)
    ensures
        s@ == request_id_text(nanos, counter),
{
    let time = pad_zeros(hexadecimal(nanos).as_str(), 16);
    let low: u64 = counter % 0x100_0000;
    let count = pad_zeros(hexadecimal(low as u128).as_str(), 6);
    cat4("req-", time.as_str(), "-", count.as_str())
}

/// The request's correlation identifier: a valid inbound `X-Request-Id`
/// verbatim, else one from the clock and a counter of the process.
pub fn resolve_request_id(inbound: Option<&[u8]>, nanos: u128, counter: u64) -> (s: String)
    ensures
        s@ == match inbound {
            Some(v) => if is_request_id(v@) {
                ascii_text(v@)
            } else {
                request_id_text(nanos, counter)
            },
            None => request_id_text(nanos, counter),
        },
{
    if let Some(v) = inbound {
        if valid_inbound_request_id(v) {
            let mut s = String::new();
            let mut i: usize = 0;
            assert(s@ =~= ascii_text(v@).take(0));
            while i < v.len()
                invariant
                    i <= v.len(),
                    s@ == ascii_text(v@).take(i as int),
                decreases v.len() - i,
            {
                s.push(v[i] as char);
                i = i + 1;
                assert(ascii_text(v@).take(i as int) =~= ascii_text(v@).take(i - 1).push(
                    v@[i - 1] as char,
                ));
            }
            assert(ascii_text(v@).take(i as int) =~= ascii_text(v@));
            return s;
        }
    }
    generate_request_id(nanos, counter)
}

/// Echo a request identifier onto the header fields of a response: exactly
/// one `x-request-id`. One that cannot be sent is left out.
pub fn stamp_request_id(headers: &mut Vec<(String, String)>, request_id: &str)
    ensures
        text::text_pairs(final(headers)@) == if headers::is_header_value(request_id@) {
            headers::with_field(text::text_pairs(old(headers)@), X_REQUEST_ID@, request_id@)
        } else {
            text::text_pairs(old(headers)@)
        },
{
    if header_value_accepts(request_id) {
        set_field(headers, X_REQUEST_ID, request_id);
    }
}

// ---------------------------------------------------------------------------
// Access-log sampling
// ---------------------------------------------------------------------------

/// The step of the sampling sequence.
pub const SAMPLE_STEP: u64 = 0x9e37_79b9_7f4a_7c15;

/// The number of values that a sample can take.
pub const SAMPLE_RANGE: u64 = 0x20_0000_0000_0000;

/// What is observed of a gateway: which access-log lines are emitted, and what
/// is recorded in the [`metrics`]. A sample is a number below
/// `SAMPLE_RANGE`; a line is emitted when its sample is below the threshold.
#[derive(Debug)]
pub struct Observability {
    state: u64,
    threshold: u64,
}

/// The state and the threshold of the sampling.
#[verifier::ext_equal]
pub struct Sampler {
    pub state: u64,
    pub threshold: u64,
}

impl View for Observability {
    type V = Sampler;

    closed spec fn view(&self) -> Sampler {
        Sampler { state: self.state, threshold: self.threshold }
    }
}

/// The sample that a state gives.
pub open spec fn sample_of(state: u64) -> int {
    ((state * SAMPLE_STEP) as int % 0x1_0000_0000_0000_0000) / 2048
}

/// The state after a sample was drawn.
pub open spec fn next_state(state: u64) -> int {
    (state + SAMPLE_STEP) as int % 0x1_0000_0000_0000_0000
}

impl Observability {
    /// Sampling from a seed (made odd), for a threshold.
    pub fn new(seed: u64, threshold: u64) -> (s: Self)
        ensures
            s@.state == if seed % 2 == 0 {
                seed + 1
            } else {
                seed as int
            },
            s@.threshold == if threshold <= SAMPLE_RANGE {
                threshold
            } else {
                SAMPLE_RANGE
            },
    {
        Observability {
            state: if seed % 2 == 0 {
                seed + 1
            } else {
                seed
            },
            threshold: if threshold <= SAMPLE_RANGE {
                threshold
            } else {
                SAMPLE_RANGE
            },
        }
    }

    /// Sets the threshold: `SAMPLE_RANGE` or more for every line, 0 for none
    /// but those of errors.
    pub fn set_access_sample(&mut self, threshold: u64)
        ensures
            final(self)@.state == old(self)@.state,
            final(self)@.threshold == if threshold <= SAMPLE_RANGE {
                threshold
            } else {
                SAMPLE_RANGE
            },
    {
        self.threshold = if threshold <= SAMPLE_RANGE {
            threshold
        } else {
            SAMPLE_RANGE
        };
    }

    /// The threshold.
    pub fn access_sample(&self) -> (n: u64)
        ensures
            n == self@.threshold,
    {
        self.threshold
    }

    /// Whether this request's access-log line is emitted. Errors (status >=
    /// 500) are always logged; everything else follows the threshold.
    pub fn should_log_access(&mut self, status: u16) -> (r: bool)
        ensures
            r == (status >= 500 || old(self)@.threshold >= SAMPLE_RANGE || sample_of(
                old(self)@.state,
            ) < old(self)@.threshold),
            final(self)@.threshold == old(self)@.threshold,
            final(self)@.state == if status >= 500 || old(self)@.threshold >= SAMPLE_RANGE {
                old(self)@.state as int
            } else {
                next_state(old(self)@.state)
            },
    {
        if status >= 500 {
            return true;
        }
        if self.threshold >= SAMPLE_RANGE {
            return true;
        }
        let x: u64 = self.state;
        self.state = x.wrapping_add(SAMPLE_STEP);
        let sample: u64 = x.wrapping_mul(SAMPLE_STEP) / 2048;
        assert(sample == sample_of(x));
        sample < self.threshold
    }
}

// ---------------------------------------------------------------------------
// Laws
// ---------------------------------------------------------------------------

/// An identifier that the gateway makes is one that it would accept.
pub proof fn law_generated_ids_are_valid(nanos: u128, counter: u64, bytes: Seq<u8>)
    requires
        ascii_text(bytes) == request_id_text(nanos, counter),
    ensures
        is_request_id(bytes),
{
    reveal_strlit("req-");
    reveal_strlit("-");
    let low = (counter % 0x100_0000) as nat;
    assert(text::pow16(6) == 0x100_0000) by {
        reveal_with_fuel(text::pow16, 7);
    }
    assert(text::pow16(32) == 0x1_0000_0000_0000_0000_0000_0000_0000_0000) by {
        reveal_with_fuel(text::pow16, 33);
    }
    text::lemma_hex(nanos as nat, 32);
    text::lemma_hex(low, 6);
    let a = text::zero_pad(text::hex(nanos as nat), 16);
    let b = text::zero_pad(text::hex(low), 6);
    let s = request_id_text(nanos, counter);
    assert(s == "req-"@ + a + "-"@ + b);
    assert(s.len() == 4 + a.len() + 1 + b.len());
    assert(s.len() == bytes.len());
    assert forall|i: int| 0 <= i < bytes.len() implies 0x20 <= (#[trigger] bytes[i]) <= 0x7e by {
        assert(ascii_text(bytes)[i] == bytes[i] as char);
        if i < 4 {
            assert(s[i] == "req-"@[i]);
        } else if i < 4 + a.len() {
            assert(s[i] == a[i - 4]);
        } else if i == 4 + a.len() {
            assert(s[i] == '-');
        } else {
            assert(s[i] == b[i - 5 - a.len()]);
        }
    }
}

/// The body of an error: its code, its message and the request's identifier,
/// each quoted.
pub proof fn law_error_body_names_the_request(
    code: Seq<char>,
    message: Seq<char>,
    request_id: Seq<char>,
)
    ensures
        ({
            let c = seq!['"'] + "code"@ + "\":"@ + json_text::quoted(code);
            let m = seq!['"'] + "message"@ + "\":"@ + json_text::quoted(message);
            let r = seq!['"'] + "request_id"@ + "\":"@ + json_text::quoted(request_id);
            envelope_text(code, message, request_id) == "{"@ + (seq!['"'] + "error"@ + "\":"@ + ("{"@
                + (c + ","@ + m + ","@ + r) + "}"@)) + "}"@
        }),
{
    let c = json_text::member("code"@, json_text::quoted(code));
    let m = json_text::member("message"@, json_text::quoted(message));
    let r = json_text::member("request_id"@, json_text::quoted(request_id));
    let all = seq![c, m, r];
    assert(all.drop_last() =~= seq![c, m]);
    assert(seq![c, m].drop_last() =~= seq![c]);
    reveal_with_fuel(json_text::joined, 4);
    assert(json_text::joined(all, ","@) == c + ","@ + m + ","@ + r);
}

/// An identifier that comes in is taken exactly if it is of 1 to 128 visible
/// ASCII characters or spaces.
pub proof fn law_inbound_ids_are_plain_text(v: Seq<u8>)
    ensures
        is_request_id(v) <==> 1 <= v.len() <= 128 && forall|i: int|
            0 <= i < v.len() ==> 32 <= (#[trigger] v[i]) <= 126,
        ascii_text(v).len() == v.len(),
        forall|i: int| 0 <= i < v.len() ==> (#[trigger] ascii_text(v)[i]) as u32 == v[i],
{
}

} // verus!
