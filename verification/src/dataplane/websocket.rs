//! WebSocket policy: origin allowlisting at the handshake, and on the
//! upgraded connection frame-rate policing, per-frame size limits and RFC
//! 6455 protocol-error enforcement.
//!
//! The frame scanner reads headers only (2 to 14 bytes: opcode, mask bit,
//! 7/16/64-bit length). It never unmasks and never looks at a payload byte.
//!
//! # The origin gate
//!
//! A non-empty `origins` list admits only exact (case-sensitive) matches. A
//! missing `Origin` is denied: browsers always send one on a WebSocket
//! handshake.
//!
//! # The policer
//!
//! Every byte the client sends passes through while the scanner counts data
//! frames (text, binary, continuation; ping, pong and close are free). The
//! allowance is a token bucket of `rate` tokens per second with room for
//! `rate` tokens. A data frame without a token closes the connection with
//! status 1008, a data frame whose payload exceeds the size cap with 1009, a
//! reserved opcode or a control frame with an extended length with 1002.

pub mod laws;

use vstd::prelude::*;

use crate::headers;
use crate::headers::read;
use crate::text;
use crate::text::{cut, holds, same_ignoring_case, trimmed};

verus! {

// ---------------------------------------------------------------------------
// Handshake
// ---------------------------------------------------------------------------

/// The WebSocket block of a route.
#[derive(Clone, Debug, PartialEq, Eq)]
pub struct RouteWebsocket {
    /// The origins that may connect; none named: any may.
    pub origins: Vec<String>,
    /// Data frames per second that a client may send.
    pub max_frames_per_sec: Option<u64>,
    /// Largest payload of a data frame.
    pub max_frame_size_bytes: Option<u64>,
}

/// The handshake gate's outcome for one upgrade request.
#[derive(Debug, Clone, Copy, PartialEq, Eq, Structural)]
pub enum Handshake {
    /// Proceed with the transparent upgrade path.
    Allowed,
    /// A non-empty allowlist did not name this origin (or the request
    /// carried none): deny with 403 before any upstream contact.
    OriginDenied,
}

/// Whether one of the comma-separated tokens is `websocket`, in any letter
/// case.
pub open spec fn lists_websocket(value: Seq<char>) -> bool {
    exists|i: int|
        0 <= i < text::split(value, ',').len() && text::lower(
            text::trim(#[trigger] text::split(value, ',')[i]),
        ) == text::lower("websocket"@)
}

/// Whether the origin passes the allowlist.
pub open spec fn origin_passes(origin: Option<Seq<char>>, allowed: Seq<Seq<char>>) -> bool {
    allowed.len() == 0 || match origin {
        Some(o) => allowed.contains(o),
        None => false,
    }
}

/// The text of an optional header value.
pub open spec fn header_text(value: Option<&str>) -> Option<Seq<char>> {
    match value {
        Some(v) => Some(v@),
        None => None,
    }
}

/// Whether a request offering upgrades asks for WebSocket: `upgrade` is the
/// value of its `Upgrade` header, a comma list of case-insensitive tokens. A
/// value that is not visible ASCII asks for nothing.
pub fn offers_websocket(upgrade: Option<&str>) -> (r: bool)
    ensures
        r == match headers::read_value(upgrade) {
            Some(value) => lists_websocket(value@),
            None => false,
        },
{
    let value = match read(upgrade) {
        Some(v) => v,
        None => {
            return false;
        },
    };
    let tokens = cut(value, ',');
    let ghost pieces = text::split(value@, ',');
    let mut i: usize = 0;
    while i < tokens.len()
        invariant
            i <= tokens.len(),
            headers::read_value(upgrade) == Some(value),
            pieces == text::split(value@, ','),
            text::texts(tokens@) == pieces,
            forall|j: int|
                0 <= j < i ==> text::lower(text::trim(#[trigger] pieces[j])) != text::lower(
                    "websocket"@,
                ),
        decreases tokens.len() - i,
    {
        assert(text::texts(tokens@)[i as int] == tokens@[i as int]@);
        let t = trimmed(tokens[i].as_str());
        if same_ignoring_case(t.as_str(), "websocket") {
            assert(text::lower(text::trim(text::split(value@, ',')[i as int])) == text::lower(
                "websocket"@,
            ));
            return true;
        }
        i = i + 1;
    }
    assert(pieces.len() == tokens@.len());
    false
}

/// The origin gate: `true` when the handshake may proceed. A non-empty
/// allowlist admits only exact matches; a missing `Origin`, or one that is not
/// visible ASCII, is denied under a non-empty allowlist.
pub fn origin_allowed(origin: Option<&str>, ws: &RouteWebsocket) -> (r: bool)
    ensures
        r == origin_passes(header_text(headers::read_value(origin)), text::texts(ws.origins@)),
{
    if ws.origins.len() == 0 {
        return true;
    }
    match read(origin) {
        Some(o) => holds(&ws.origins, o),
        None => false,
    }
}

/// One policy decision at the handshake: the proxy calls this before
/// forwarding an upgrade request.
pub fn handshake_verdict(origin: Option<&str>, ws: &RouteWebsocket) -> (r: Handshake)
    ensures
        r == (if origin_passes(header_text(headers::read_value(origin)), text::texts(ws.origins@)) {
            Handshake::Allowed
        } else {
            Handshake::OriginDenied
        }),
{
    if ws.origins.len() != 0 && !origin_allowed(origin, ws) {
        return Handshake::OriginDenied;
    }
    Handshake::Allowed
}

// ---------------------------------------------------------------------------
// Frames
// ---------------------------------------------------------------------------

/// What part of the current frame the next byte belongs to.
#[derive(Debug, Clone, Copy, PartialEq, Eq, Structural)]
pub enum Scan {
    /// The fixed 2-byte header, of which the first byte may have come.
    Head { first: Option<u8> },
    /// An extended length field of `need` bytes, of which `have` have come
    /// and stand for `len`. The frame is a data frame: control frames have no
    /// such field.
    Extended { need: u8, have: u8, len: u64, mask_len: u8 },
    /// A payload with `remaining` bytes left, the mask bytes included.
    Payload { remaining: u128, data_frame: bool },
}

/// The kind of protocol violation the frame scanner detected.
#[derive(Debug, Clone, Copy, PartialEq, Eq, Structural)]
pub enum FrameViolation {
    /// The stream is clean.
    Clean,
    /// Data frame exceeded `max_frame_size_bytes`: close 1009.
    SizeExceeded,
    /// Reserved opcode (0x3-0x7 data, 0xB-0xF control) or a control
    /// frame with an extended length (RFC 6455 caps control payloads
    /// at 125 bytes): close 1002.
    ProtocolError,
}

impl Default for FrameViolation {
    fn default() -> (v: Self)
        ensures
            v == FrameViolation::Clean,
    {
        FrameViolation::Clean
    }
}

/// The state of a scanner.
pub struct Scanner {
    pub scan: Scan,
    /// The data frames seen to their end.
    pub frames: int,
    pub max_frame_size: Option<u64>,
    pub violation: FrameViolation,
}

/// The state before the first byte of a frame.
pub open spec fn at_head() -> Scan {
    Scan::Head { first: None }
}

/// The scanner when a frame has ended.
pub open spec fn frame_ended(s: Scanner, data_frame: bool) -> Scanner {
    Scanner {
        scan: at_head(),
        frames: if data_frame {
            s.frames + 1
        } else {
            s.frames
        },
        ..s
    }
}

/// The opcode in a first header byte.
pub open spec fn opcode_of(b0: u8) -> int {
    b0 as int % 16
}

/// Opcodes 0x3-0x7 and 0xB-0xF have no meaning.
pub open spec fn is_reserved(opcode: int) -> bool {
    3 <= opcode <= 7 || 11 <= opcode
}

/// Opcodes 0x0-0x2 carry data.
pub open spec fn is_data(opcode: int) -> bool {
    0 <= opcode <= 2
}

/// Whether a length exceeds the cap.
pub open spec fn too_big(max: Option<u64>, len: int) -> bool {
    match max {
        Some(m) => len > m,
        None => false,
    }
}

/// The scanner after a whole 2-byte header.
pub open spec fn after_head(s: Scanner, b0: u8, b1: u8) -> Scanner {
    let opcode = opcode_of(b0);
    let mask_len: u8 = if b1 >= 128 {
        4
    } else {
        0
    };
    let len7 = b1 as int % 128;
    if is_reserved(opcode) || (!is_data(opcode) && len7 >= 126) {
        Scanner { violation: FrameViolation::ProtocolError, ..s }
    } else if is_data(opcode) && len7 <= 125 && too_big(s.max_frame_size, len7) {
        Scanner { violation: FrameViolation::SizeExceeded, ..s }
    } else if len7 == 126 {
        Scanner { scan: Scan::Extended { need: 2, have: 0, len: 0, mask_len }, ..s }
    } else if len7 == 127 {
        Scanner { scan: Scan::Extended { need: 8, have: 0, len: 0, mask_len }, ..s }
    } else if len7 + mask_len == 0 {
        frame_ended(s, is_data(opcode))
    } else {
        Scanner {
            scan: Scan::Payload {
                remaining: (len7 + mask_len) as u128,
                data_frame: is_data(opcode),
            },
            ..s
        }
    }
}

/// The scanner after one more byte of an extended length.
pub open spec fn after_extended(
    s: Scanner,
    need: u8,
    have: u8,
    len: u64,
    mask_len: u8,
    b: u8,
) -> Scanner {
    let longer = len * 256 + b;
    if have + 1 < need {
        Scanner {
            scan: Scan::Extended { need, have: (have + 1) as u8, len: longer as u64, mask_len },
            ..s
        }
    } else if too_big(s.max_frame_size, longer) {
        Scanner { violation: FrameViolation::SizeExceeded, ..s }
    } else {
        Scanner {
            scan: Scan::Payload { remaining: (longer + mask_len) as u128, data_frame: true },
            ..s
        }
    }
}

/// The scanner after one more byte, on a stream that has been clean so far.
pub open spec fn step_clean(s: Scanner, b: u8) -> Scanner {
    match s.scan {
        Scan::Head { first: None } => Scanner { scan: Scan::Head { first: Some(b) }, ..s },
        Scan::Head { first: Some(b0) } => after_head(s, b0, b),
        Scan::Extended { need, have, len, mask_len } => after_extended(
            s,
            need,
            have,
            len,
            mask_len,
            b,
        ),
        Scan::Payload { remaining, data_frame } => if remaining <= 1 {
            frame_ended(s, data_frame)
        } else {
            Scanner { scan: Scan::Payload { remaining: (remaining - 1) as u128, data_frame }, ..s }
        },
    }
}

/// The scanner after one more byte. A violation stops it for good. A frame
/// that is over without a payload byte ends when the next byte comes.
pub open spec fn step(s: Scanner, b: u8) -> Scanner {
    if s.violation != FrameViolation::Clean {
        s
    } else {
        match s.scan {
            Scan::Payload { remaining: 0, data_frame } => step_clean(frame_ended(s, data_frame), b),
            _ => step_clean(s, b),
        }
    }
}

/// The scanner after a run of bytes.
pub open spec fn run(s: Scanner, bytes: Seq<u8>) -> Scanner
    decreases bytes.len(),
{
    if bytes.len() == 0 {
        s
    } else {
        step(run(s, bytes.drop_last()), bytes.last())
    }
}

/// A scanner at the start of a stream.
pub open spec fn fresh(max_frame_size: Option<u64>) -> Scanner {
    Scanner { scan: at_head(), frames: 0, max_frame_size, violation: FrameViolation::Clean }
}

/// Feeding a stream in two chunks is feeding it in one: where the chunks are
/// cut makes no difference.
pub proof fn law_chunks_do_not_matter(s: Scanner, a: Seq<u8>, b: Seq<u8>)
    ensures
        run(s, a + b) == run(run(s, a), b),
    decreases b.len(),
{
    if b.len() == 0 {
        assert(a + b =~= a);
    } else {
        law_chunks_do_not_matter(s, a, b.drop_last());
        assert((a + b).drop_last() =~= a + b.drop_last());
        assert((a + b).last() == b.last());
    }
}

/// The count of data frames never decreases, and grows by one at most with a
/// byte. Feeding nothing changes nothing.
pub proof fn law_count_never_decreases(s: Scanner, bytes: Seq<u8>)
    ensures
        s.frames <= run(s, bytes).frames <= s.frames + bytes.len(),
        bytes.len() == 0 ==> run(s, bytes) == s,
    decreases bytes.len(),
{
    if bytes.len() > 0 {
        law_count_never_decreases(s, bytes.drop_last());
    }
}

/// After a violation nothing changes any more.
pub proof fn law_violation_is_final(s: Scanner, bytes: Seq<u8>)
    requires
        s.violation != FrameViolation::Clean,
    ensures
        run(s, bytes) == s,
    decreases bytes.len(),
{
    if bytes.len() > 0 {
        law_violation_is_final(s, bytes.drop_last());
    }
}

/// The count after a part of a stream is at most that after all of it.
proof fn lemma_count_so_far(s: Scanner, bytes: Seq<u8>, n: int)
    requires
        0 <= n <= bytes.len(),
    ensures
        run(s, bytes.take(n)).frames <= run(s, bytes).frames,
{
    law_chunks_do_not_matter(s, bytes.take(n), bytes.skip(n));
    assert(bytes.take(n) + bytes.skip(n) =~= bytes);
    law_count_never_decreases(run(s, bytes.take(n)), bytes.skip(n));
}

proof fn lemma_next_count(s: Scanner, bytes: Seq<u8>, i: int)
    requires
        0 <= i < bytes.len(),
    ensures
        step(run(s, bytes.take(i)), bytes[i]).frames <= run(s, bytes).frames,
{
    assert(bytes.take(i + 1).drop_last() =~= bytes.take(i));
    lemma_count_so_far(s, bytes, i + 1);
}

/// 256 to the `n`.
pub open spec fn pow256(n: nat) -> nat
    decreases n,
{
    if n == 0 {
        1
    } else {
        256 * pow256((n - 1) as nat)
    }
}

/// What holds of the scanning state at every point of a stream.
pub open spec fn scan_fits(scan: Scan) -> bool {
    match scan {
        Scan::Head { first } => true,
        Scan::Extended { need, have, len, mask_len } => {
            &&& need == 2 || need == 8
            &&& have < need
            &&& len < pow256(have as nat)
            &&& mask_len == 0 || mask_len == 4
        },
        Scan::Payload { remaining, data_frame } => remaining <= 0x1_0000_0000_0000_0003,
    }
}

proof fn lemma_pow256()
    ensures
        pow256(0) == 1,
        pow256(1) == 0x100,
        pow256(2) == 0x1_0000,
        pow256(3) == 0x100_0000,
        pow256(4) == 0x1_0000_0000,
        pow256(5) == 0x100_0000_0000,
        pow256(6) == 0x1_0000_0000_0000,
        pow256(7) == 0x100_0000_0000_0000,
        pow256(8) == 0x1_0000_0000_0000_0000,
{
    reveal_with_fuel(pow256, 9);
}

/// The frame-boundary scanner: fed the exact byte stream the tunnel
/// forwards client-to-upstream, counts data frames. Bytes are
/// analyzed, never modified.
#[derive(Debug)]
pub struct FrameCounter {
    scan: Scan,
    frames: u64,
    max_frame_size: Option<u64>,
    violation: FrameViolation,
}

impl View for FrameCounter {
    type V = Scanner;

    closed spec fn view(&self) -> Scanner {
        Scanner {
            scan: self.scan,
            frames: self.frames as int,
            max_frame_size: self.max_frame_size,
            violation: self.violation,
        }
    }
}

impl FrameCounter {
    #[verifier::type_invariant]
    spec fn well_formed(self) -> bool {
        scan_fits(self.scan)
    }

    /// A scanner at the start of a stream, without a size cap.
    pub fn new() -> (c: Self)
        ensures
            c@ == fresh(None),
    {
        FrameCounter {
            scan: Scan::Head { first: None },
            frames: 0,
            max_frame_size: None,
            violation: FrameViolation::Clean,
        }
    }

    /// Configure a maximum payload size per data frame.
    pub fn with_max_frame_size(self, max: u64) -> (c: Self)
        ensures
            c@ == (Scanner { max_frame_size: Some(max), ..self@ }),
    {
        proof {
            use_type_invariant(&self);
        }
        FrameCounter {
            scan: self.scan,
            frames: self.frames,
            max_frame_size: Some(max),
            violation: self.violation,
        }
    }

    /// The data frames counted so far.
    pub fn data_frames(&self) -> (n: u64)
        ensures
            n == self@.frames,
    {
        self.frames
    }

    /// The first violation detected, or `Clean`.
    pub fn violation(&self) -> (v: FrameViolation)
        ensures
            v == self@.violation,
    {
        self.violation
    }

    fn end_frame(&mut self, data_frame: bool)
        requires
            frame_ended(old(self)@, data_frame).frames <= u64::MAX,
        ensures
            final(self)@ == frame_ended(old(self)@, data_frame),
    {
        proof {
            use_type_invariant(&*self);
        }
        if data_frame {
            self.frames = self.frames + 1;
        }
        self.scan = Scan::Head { first: None };
    }

    fn take_head(&mut self, b0: u8, b1: u8)
        requires
            after_head(old(self)@, b0, b1).frames <= u64::MAX,
        ensures
            final(self)@ == after_head(old(self)@, b0, b1),
    {
        proof {
            use_type_invariant(&*self);
        }
        let opcode: u8 = b0 & 0x0f;
        let masked = b1 & 0x80 != 0;
        let len7: u8 = b1 & 0x7f;
        assert(b0 & 0x0f == b0 % 16) by (bit_vector);
        assert((b1 & 0x80 != 0) == (b1 >= 128)) by (bit_vector);
        assert(b1 & 0x7f == b1 % 128) by (bit_vector);
        if (3 <= opcode && opcode <= 7) || 11 <= opcode {
            self.violation = FrameViolation::ProtocolError;
            return;
        }
        let data_frame = opcode <= 2;
        let mask_len: u8 = if masked {
            4
        } else {
            0
        };
        if !data_frame && len7 >= 126 {
            self.violation = FrameViolation::ProtocolError;
            return;
        }
        if let Some(max) = self.max_frame_size {
            if data_frame && len7 <= 125 && (len7 as u64) > max {
                self.violation = FrameViolation::SizeExceeded;
                return;
            }
        }
        proof {
            lemma_pow256();
        }
        if len7 == 126 {
            self.scan = Scan::Extended { need: 2, have: 0, len: 0, mask_len };
        } else if len7 == 127 {
            self.scan = Scan::Extended { need: 8, have: 0, len: 0, mask_len };
        } else if len7 + mask_len == 0 {
            self.end_frame(data_frame);
        } else {
            self.scan = Scan::Payload { remaining: (len7 + mask_len) as u128, data_frame };
        }
    }

    fn take_extended(&mut self, need: u8, have: u8, len: u64, mask_len: u8, b: u8)
        requires
            scan_fits(Scan::Extended { need, have, len, mask_len }),
        ensures
            final(self)@ == after_extended(old(self)@, need, have, len, mask_len, b),
    {
        proof {
            use_type_invariant(&*self);
            lemma_pow256();
            assert(len < pow256(have as nat) && pow256((have + 1) as nat) == 256 * pow256(
                have as nat,
            ));
        }
        assert(len * 256 + b < pow256((have + 1) as nat));
        assert(have as nat <= 7);
        let longer: u64 = len * 256 + b as u64;
        if have + 1 < need {
            self.scan = Scan::Extended { need, have: have + 1, len: longer, mask_len };
            return;
        }
        if let Some(max) = self.max_frame_size {
            if longer > max {
                self.violation = FrameViolation::SizeExceeded;
                return;
            }
        }
        self.scan = Scan::Payload {
            remaining: longer as u128 + mask_len as u128,
            data_frame: true,
        };
    }

    /// Feed the next chunk of the client-to-upstream byte stream
    /// (chunk boundaries are irrelevant: the scanner spans them).
    pub fn feed(&mut self, bytes: &[u8])
        requires
            run(old(self)@, bytes@).frames <= u64::MAX,
        ensures
            final(self)@ == run(old(self)@, bytes@),
    {
        let ghost start = self@;
        let mut i: usize = 0;
        assert(bytes@.take(0) =~= seq![]);
        while i < bytes.len()
            invariant
                i <= bytes.len(),
                start == old(self)@,
                self@ == run(start, bytes@.take(i as int)),
                run(start, bytes@).frames <= u64::MAX,
            decreases bytes.len() - i,
        {
            proof {
                use_type_invariant(&*self);
            }
            if self.violation != FrameViolation::Clean {
                proof {
                    law_chunks_do_not_matter(start, bytes@.take(i as int), bytes@.skip(i as int));
                    law_violation_is_final(self@, bytes@.skip(i as int));
                    assert(bytes@.take(i as int) + bytes@.skip(i as int) =~= bytes@);
                }
                return;
            }
            let b = bytes[i];
            proof {
                lemma_next_count(start, bytes@, i as int);
            }
            if let Scan::Payload { remaining: 0, data_frame } = self.scan {
                self.end_frame(data_frame);
            }
            match self.scan {
                Scan::Head { first: None } => {
                    self.scan = Scan::Head { first: Some(b) };
                    i = i + 1;
                },
                Scan::Head { first: Some(b0) } => {
                    self.take_head(b0, b);
                    i = i + 1;
                },
                Scan::Extended { need, have, len, mask_len } => {
                    self.take_extended(need, have, len, mask_len, b);
                    i = i + 1;
                },
                Scan::Payload { remaining, data_frame } => {
                    let ghost here = self@;
                    let ghost seen = bytes@.take(i as int);
                    let left: usize = bytes.len() - i;
                    let n: usize = if remaining > left as u128 {
                        left
                    } else {
                        remaining as usize
                    };
                    let ghost part = bytes@.subrange(i as int, i + n);
                    proof {
                        law_chunks_do_not_matter(start, seen, part);
                        assert(seen + part =~= bytes@.take(i + n));
                        lemma_count_so_far(start, bytes@, i + n);
                        if remaining == n as u128 {
                            lemma_payload_whole(here, remaining, data_frame, part);
                        } else {
                            lemma_payload_part(here, remaining, data_frame, part);
                        }
                    }
                    if remaining == n as u128 {
                        self.end_frame(data_frame);
                    } else {
                        self.scan = Scan::Payload { remaining: remaining - n as u128, data_frame };
                    }
                    i = i + n;
                    continue;
                },
            }
            assert(bytes@.take(i as int).drop_last() =~= bytes@.take(i - 1));
            assert(bytes@.take(i as int).last() == bytes@[i - 1]);
        }
        assert(bytes@.take(bytes.len() as int) =~= bytes@);
    }
}

impl Default for FrameCounter {
    fn default() -> (c: Self)
        ensures
            c@ == fresh(None),
    {
        Self::new()
    }
}

/// Data frames counted for a byte stream fed in one chunk.
pub fn count_data_frames(bytes: &[u8]) -> (n: u64)
    ensures
        n == run(fresh(None), bytes@).frames,
{
    let mut c = FrameCounter::new();
    proof {
        law_count_never_decreases(fresh(None), bytes@);
        assert(bytes@.len() == bytes.len());
    }
    c.feed(bytes);
    c.data_frames()
}

// ---------------------------------------------------------------------------
// Whole frames
// ---------------------------------------------------------------------------

/// The number that bytes stand for, most significant first.
pub open spec fn big_endian(bytes: Seq<u8>) -> nat
    decreases bytes.len(),
{
    if bytes.len() == 0 {
        0
    } else {
        big_endian(bytes.drop_last()) * 256 + bytes.last() as nat
    }
}

/// The length of the mask of a frame with second header byte `b1`.
pub open spec fn mask_of(b1: u8) -> nat {
    if b1 >= 128 {
        4
    } else {
        0
    }
}

proof fn lemma_payload_part(s: Scanner, r: u128, d: bool, body: Seq<u8>)
    requires
        s.violation == FrameViolation::Clean,
        s.scan == (Scan::Payload { remaining: r, data_frame: d }),
        body.len() < r,
    ensures
        run(s, body) == (Scanner {
            scan: Scan::Payload { remaining: (r - body.len()) as u128, data_frame: d },
            ..s
        }),
    decreases body.len(),
{
    if body.len() > 0 {
        lemma_payload_part(s, r, d, body.drop_last());
    }
}

proof fn lemma_payload_whole(s: Scanner, r: u128, d: bool, body: Seq<u8>)
    requires
        s.violation == FrameViolation::Clean,
        s.scan == (Scan::Payload { remaining: r, data_frame: d }),
        body.len() == r,
        r > 0,
    ensures
        run(s, body) == frame_ended(s, d),
{
    lemma_payload_part(s, r, d, body.drop_last());
}

proof fn lemma_big_endian_bound(bytes: Seq<u8>)
    ensures
        big_endian(bytes) < pow256(bytes.len()),
    decreases bytes.len(),
{
    if bytes.len() > 0 {
        lemma_big_endian_bound(bytes.drop_last());
    }
}

proof fn lemma_extended_part(s: Scanner, need: u8, m: u8, ext: Seq<u8>)
    requires
        s.violation == FrameViolation::Clean,
        s.scan == (Scan::Extended { need, have: 0, len: 0, mask_len: m }),
        ext.len() < need <= 8,
    ensures
        run(s, ext) == (Scanner {
            scan: Scan::Extended {
                need,
                have: ext.len() as u8,
                len: big_endian(ext) as u64,
                mask_len: m,
            },
            ..s
        }),
        big_endian(ext) <= u64::MAX,
    decreases ext.len(),
{
    lemma_pow256();
    lemma_big_endian_bound(ext);
    if ext.len() > 0 {
        lemma_extended_part(s, need, m, ext.drop_last());
    }
}

/// A frame with a short length is skipped as a whole: the scanner is back at
/// the start of a frame, and has counted it if it is a data frame.
pub proof fn law_short_frame(s: Scanner, b0: u8, b1: u8, body: Seq<u8>)
    requires
        s.violation == FrameViolation::Clean,
        s.scan == at_head(),
        !is_reserved(opcode_of(b0)),
        b1 % 128 <= 125,
        is_data(opcode_of(b0)) ==> !too_big(s.max_frame_size, b1 as int % 128),
        body.len() == b1 % 128 + mask_of(b1),
    ensures
        run(s, seq![b0, b1] + body) == frame_ended(s, is_data(opcode_of(b0))),
{
    law_chunks_do_not_matter(s, seq![b0, b1], body);
    let head = seq![b0, b1];
    assert(head.drop_last() =~= seq![b0]);
    assert(seq![b0].drop_last() =~= seq![]);
    assert(run(s, seq![]) == s);
    assert(run(s, seq![b0]) == step(s, b0));
    let t = run(s, head);
    assert(t == after_head(step(s, b0), b0, b1));
    if body.len() > 0 {
        lemma_payload_whole(
            t,
            (b1 % 128 + mask_of(b1)) as u128,
            is_data(opcode_of(b0)),
            body,
        );
    }
}

/// A data frame with a 16-bit or 64-bit length is skipped as a whole and
/// counted. (A frame that such a length gives no byte at all ends only with
/// the next byte of the stream.)
pub proof fn law_long_frame(s: Scanner, b0: u8, b1: u8, ext: Seq<u8>, body: Seq<u8>)
    requires
        s.violation == FrameViolation::Clean,
        s.scan == at_head(),
        is_data(opcode_of(b0)),
        b1 % 128 == 126 && ext.len() == 2 || b1 % 128 == 127 && ext.len() == 8,
        !too_big(s.max_frame_size, big_endian(ext) as int),
        body.len() == big_endian(ext) + mask_of(b1),
        body.len() > 0,
    ensures
        run(s, seq![b0, b1] + ext + body) == frame_ended(s, true),
{
    let head = seq![b0, b1];
    law_chunks_do_not_matter(s, head + ext, body);
    law_chunks_do_not_matter(s, head, ext);
    assert(head.drop_last() =~= seq![b0]);
    assert(seq![b0].drop_last() =~= seq![]);
    assert(run(s, seq![]) == s);
    assert(run(s, seq![b0]) == step(s, b0));
    let t = run(s, head);
    assert(t == after_head(step(s, b0), b0, b1));
    let need = ext.len() as u8;
    lemma_pow256();
    lemma_extended_part(t, need, mask_of(b1) as u8, ext.drop_last());
    lemma_big_endian_bound(ext);
    let u = run(t, ext);
    lemma_payload_whole(u, (big_endian(ext) + mask_of(b1)) as u128, true, body);
}

/// A frame with a reserved opcode, or a control frame with an extended
/// length, is a protocol error as soon as its header is in; a data frame over
/// the size cap is too big before any of its payload is read.
pub proof fn law_bad_header_is_flagged(s: Scanner, b0: u8, b1: u8)
    requires
        s.violation == FrameViolation::Clean,
        s.scan == at_head(),
    ensures
        is_reserved(opcode_of(b0)) || (!is_data(opcode_of(b0)) && b1 % 128 >= 126) ==> run(
            s,
            seq![b0, b1],
        ).violation == FrameViolation::ProtocolError,
        is_data(opcode_of(b0)) && b1 % 128 <= 125 && too_big(s.max_frame_size, b1 as int % 128)
            ==> run(s, seq![b0, b1]).violation == FrameViolation::SizeExceeded,
{
    let head = seq![b0, b1];
    assert(head.drop_last() =~= seq![b0]);
    assert(seq![b0].drop_last() =~= seq![]);
    assert(run(s, seq![]) == s);
    assert(run(s, seq![b0]) == step(s, b0));
}

// ---------------------------------------------------------------------------
// Close frames
// ---------------------------------------------------------------------------

/// The flag of a connection that broke no rule.
pub const FLAG_NONE: u64 = 0;

/// The flag of a connection closed for its frame rate.
pub const FLAG_RATE_CLOSED: u64 = 1;

/// The flag of a connection closed for a frame over the size cap.
pub const FLAG_SIZE_CLOSED: u64 = 2;

/// The flag of a connection closed for a protocol error.
pub const FLAG_PROTOCOL_CLOSED: u64 = 3;

/// The metric label of a flag.
pub open spec fn flag_label(flag: u64) -> Seq<char> {
    if flag == FLAG_RATE_CLOSED {
        "rate_closed"@
    } else if flag == FLAG_SIZE_CLOSED {
        "size_closed"@
    } else if flag == FLAG_PROTOCOL_CLOSED {
        "protocol_closed"@
    } else {
        ""@
    }
}

/// Decode the shared violation flag into the metric label the tunnel
/// spawner records. Returns an empty string when no violation occurred.
pub fn flag_to_metric(flag: u64) -> (r: &'static str)
    ensures
        r@ == flag_label(flag),
{
    if flag == FLAG_RATE_CLOSED {
        "rate_closed"
    } else if flag == FLAG_SIZE_CLOSED {
        "size_closed"
    } else if flag == FLAG_PROTOCOL_CLOSED {
        "protocol_closed"
    } else {
        ""
    }
}

/// An unmasked close frame with a status and no reason: FIN and opcode 8, a
/// payload of two bytes, the status most significant byte first.
pub open spec fn close_frame_of(status: nat) -> Seq<u8> {
    seq![0x88u8, 0x02u8, (status / 256) as u8, (status % 256) as u8]
}

/// The close frame that a violation calls for.
pub open spec fn violation_close(v: FrameViolation) -> Seq<u8> {
    match v {
        FrameViolation::Clean => seq![],
        FrameViolation::SizeExceeded => close_frame_of(1009),
        FrameViolation::ProtocolError => close_frame_of(1002),
    }
}

/// The flag that a violation raises.
pub open spec fn violation_flag(v: FrameViolation) -> u64 {
    match v {
        FrameViolation::Clean => FLAG_NONE,
        FrameViolation::SizeExceeded => FLAG_SIZE_CLOSED,
        FrameViolation::ProtocolError => FLAG_PROTOCOL_CLOSED,
    }
}

fn close_bytes(high: u8, low: u8) -> (r: Vec<u8>)
    ensures
        r@ == seq![0x88u8, 0x02u8, high, low],
{
    let r: Vec<u8> = vec![0x88, 0x02, high, low];
    assert(r@ =~= seq![0x88u8, 0x02u8, high, low]);
    r
}

impl FrameViolation {
    /// The close frame to send for this violation kind.
    pub fn close_frame(self) -> (r: Vec<u8>)
        ensures
            r@ == violation_close(self),
    {
        match self {
            FrameViolation::SizeExceeded => close_bytes(0x03, 0xf1),
            FrameViolation::ProtocolError => close_bytes(0x03, 0xea),
            FrameViolation::Clean => {
                let r: Vec<u8> = Vec::new();
                assert(r@ =~= seq![]);
                r
            },
        }
    }

    /// The shared-flag discriminant for the tunnel spawner's witness.
    pub fn flag(self) -> (r: u64)
        ensures
            r == violation_flag(self),
    {
        match self {
            FrameViolation::Clean => FLAG_NONE,
            FrameViolation::SizeExceeded => FLAG_SIZE_CLOSED,
            FrameViolation::ProtocolError => FLAG_PROTOCOL_CLOSED,
        }
    }
}

// ---------------------------------------------------------------------------
// Rate
// ---------------------------------------------------------------------------

/// The parts that a token is counted in: a bucket that gains `rate` tokens a
/// second gains `rate` parts a nanosecond.
pub const TOKEN: u64 = 1_000_000_000;

/// A token bucket: `rate` tokens per second, room for `rate` tokens (a
/// one-second burst).
#[derive(Debug, Clone, Copy)]
pub struct Bucket {
    /// Tokens per second.
    pub rate: u64,
    /// What is in the bucket, in parts of a token.
    pub parts: u128,
    /// When it was last filled up, in nanoseconds.
    pub last: u64,
}

/// What the bucket can hold.
pub open spec fn bucket_room(rate: u64) -> int {
    rate * TOKEN
}

/// What is in the bucket at `now`; a clock that runs backwards fills
/// nothing.
pub open spec fn bucket_at(b: Bucket, now: u64) -> int {
    let filled = b.parts + (if now >= b.last {
        (now - b.last) * b.rate
    } else {
        0
    });
    if filled <= bucket_room(b.rate) {
        filled
    } else {
        bucket_room(b.rate)
    }
}

impl Bucket {
    /// Whether the bucket holds no more than it has room for.
    pub open spec fn fits(self) -> bool {
        self.parts <= bucket_room(self.rate)
    }

    /// A full bucket.
    pub fn new(rate: u64, now: u64) -> (b: Self)
        ensures
            b.rate == rate,
            b.parts == bucket_room(rate),
            b.last == now,
            b.fits(),
    {
        assert(rate * TOKEN <= u64::MAX * 1_000_000_000) by (nonlinear_arith)
            requires
                rate <= u64::MAX,
                TOKEN == 1_000_000_000,
        ;
        Bucket { rate, parts: rate as u128 * TOKEN as u128, last: now }
    }

    /// Refill to the current instant and try to take one token.
    pub fn take(&mut self, now: u64) -> (granted: bool)
        requires
            old(self).fits(),
        ensures
            final(self).fits(),
            final(self).rate == old(self).rate,
            final(self).last == now,
            granted == (bucket_at(*old(self), now) >= TOKEN),
            final(self).parts == bucket_at(*old(self), now) - (if granted {
                TOKEN as int
            } else {
                0
            }),
    {
        let elapsed: u64 = now.saturating_sub(self.last);
        let ghost rate = self.rate as int;
        assert(self.rate * TOKEN <= u64::MAX * 1_000_000_000) by (nonlinear_arith)
            requires
                self.rate <= u64::MAX,
                TOKEN == 1_000_000_000,
        ;
        let room: u128 = self.rate as u128 * TOKEN as u128;
        self.last = now;
        if elapsed >= TOKEN {
            assert(elapsed * rate >= TOKEN * rate) by (nonlinear_arith)
                requires
                    elapsed >= TOKEN,
                    rate >= 0,
            ;
            assert(TOKEN * rate == rate * TOKEN) by (nonlinear_arith);
            self.parts = room;
        } else {
            assert(elapsed * rate <= TOKEN * rate) by (nonlinear_arith)
                requires
                    elapsed < TOKEN,
                    rate >= 0,
            ;
            assert(TOKEN * rate == rate * TOKEN) by (nonlinear_arith);
            assert(elapsed * rate >= 0) by (nonlinear_arith)
                requires
                    rate >= 0,
            ;
            assert(elapsed == 0 ==> elapsed * rate == 0) by (nonlinear_arith);
            let filled: u128 = self.parts + elapsed as u128 * self.rate as u128;
            self.parts = if filled <= room {
                filled
            } else {
                room
            };
        }
        if self.parts >= TOKEN as u128 {
            self.parts = self.parts - TOKEN as u128;
            true
        } else {
            false
        }
    }
}

/// The bucket after one try to take a token at `now`.
pub open spec fn bucket_after(b: Bucket, now: u64) -> Bucket {
    let here = bucket_at(b, now);
    Bucket {
        rate: b.rate,
        parts: (if here >= TOKEN {
            here - TOKEN
        } else {
            here
        }) as u128,
        last: now,
    }
}

/// How many of the tries at the given times get a token.
pub open spec fn granted(b: Bucket, times: Seq<u64>) -> nat
    decreases times.len(),
{
    if times.len() == 0 {
        0
    } else {
        (if bucket_at(b, times[0]) >= TOKEN {
            1nat
        } else {
            0nat
        }) + granted(bucket_after(b, times[0]), times.skip(1))
    }
}

/// However often a client tries, it gets no more tokens than the bucket
/// held at the start plus `rate` for each second that passed.
pub proof fn law_bucket_bounds_the_rate(b: Bucket, times: Seq<u64>)
    requires
        b.fits(),
        times.len() > 0,
        b.last <= times[0],
        forall|i: int, j: int| 0 <= i <= j < times.len() ==> times[i] <= times[j],
    ensures
        granted(b, times) * TOKEN <= b.parts + (times.last() - b.last) * b.rate,
    decreases times.len(),
{
    let now = times[0];
    let next = bucket_after(b, now);
    let rate = b.rate as int;
    let here = bucket_at(b, now);
    assert((now - b.last) * rate >= 0) by (nonlinear_arith)
        requires
            now >= b.last,
            rate >= 0,
    ;
    assert(bucket_room(b.rate) >= 0 && bucket_room(b.rate) <= u128::MAX) by (nonlinear_arith)
        requires
            b.rate <= u64::MAX,
            bucket_room(b.rate) == b.rate * TOKEN,
            TOKEN == 1_000_000_000,
    ;
    assert(next.parts == (if here >= TOKEN {
        here - TOKEN
    } else {
        here
    }));
    let one: nat = if here >= TOKEN {
        1
    } else {
        0
    };
    if times.len() == 1 {
        assert(times.skip(1).len() == 0);
        assert(granted(next, times.skip(1)) == 0);
        assert(granted(b, times) == one);
    } else {
        let rest = times.skip(1);
        assert(rest[0] == times[1]);
        assert(rest.last() == times.last());
        assert forall|i: int, j: int| 0 <= i <= j < rest.len() implies rest[i] <= rest[j] by {
            assert(rest[i] == times[i + 1] && rest[j] == times[j + 1]);
        }
        law_bucket_bounds_the_rate(next, rest);
        assert((times.last() - b.last) * rate == (times.last() - now) * rate + (now - b.last)
            * rate) by (nonlinear_arith);
        assert((one + granted(next, rest)) * TOKEN == one * TOKEN + granted(next, rest) * TOKEN)
            by (nonlinear_arith);
    }
}

// ---------------------------------------------------------------------------
// Policing
// ---------------------------------------------------------------------------

/// The policing state of the upgraded client side of a tunnel.
#[derive(Debug)]
pub struct WsPolice {
    counter: FrameCounter,
    bucket: Option<Bucket>,
    charged: u64,
    closing: bool,
    close_out: Vec<u8>,
    flag: u64,
}

/// The state of a policer.
pub struct PoliceView {
    pub scanner: Scanner,
    pub bucket: Option<Bucket>,
    /// Data frames already charged against the bucket.
    pub charged: int,
    /// Whether the connection is being closed: no more client bytes pass.
    pub closing: bool,
    /// The bytes to write to the client ahead of any others.
    pub close_out: Seq<u8>,
    /// Why the connection was closed.
    pub flag: u64,
}

impl View for WsPolice {
    type V = PoliceView;

    closed spec fn view(&self) -> PoliceView {
        PoliceView {
            scanner: self.counter@,
            bucket: self.bucket,
            charged: self.charged as int,
            closing: self.closing,
            close_out: self.close_out@,
            flag: self.flag,
        }
    }
}

/// The policer with up to `n` more data frames charged at `now`; the first
/// one without a token closes the connection with status 1008.
pub open spec fn charge(p: PoliceView, now: u64, n: nat) -> PoliceView
    decreases n,
{
    match p.bucket {
        None => p,
        Some(b) => if n == 0 || p.closing {
            p
        } else {
            let charged = PoliceView {
                bucket: Some(bucket_after(b, now)),
                charged: p.charged + 1,
                ..p
            };
            if bucket_at(b, now) >= TOKEN {
                charge(charged, now, (n - 1) as nat)
            } else {
                PoliceView {
                    closing: true,
                    close_out: p.close_out + close_frame_of(1008),
                    flag: FLAG_RATE_CLOSED,
                    ..charged
                }
            }
        },
    }
}

/// The policer after the client has sent `bytes`: a frame violation closes
/// the connection, and otherwise each data frame that ended is charged. Once
/// the connection is being closed nothing is looked at any more.
pub open spec fn police(p: PoliceView, bytes: Seq<u8>, now: u64) -> PoliceView {
    let scanner = run(p.scanner, bytes);
    let fed = PoliceView { scanner, ..p };
    if p.closing {
        p
    } else if scanner.violation != FrameViolation::Clean {
        PoliceView {
            closing: true,
            close_out: p.close_out + violation_close(scanner.violation),
            flag: violation_flag(scanner.violation),
            ..fed
        }
    } else if scanner.frames >= p.charged {
        charge(fed, now, (scanner.frames - p.charged) as nat)
    } else {
        fed
    }
}

impl WsPolice {
    #[verifier::type_invariant]
    spec fn well_formed(self) -> bool {
        match self.bucket {
            Some(b) => b.fits(),
            None => true,
        }
    }

    /// A policer for a fresh connection at `now` (nanoseconds).
    /// `max_frames_per_sec` enables rate policing (at least one frame a
    /// second); `max_frame_size_bytes` enables per-frame size policing.
    pub fn new(
        max_frames_per_sec: Option<u64>,
        max_frame_size_bytes: Option<u64>,
        now: u64,
    ) -> (p: Self)
        ensures
            p@.scanner == fresh(max_frame_size_bytes),
            p@.charged == 0,
            !p@.closing,
            p@.close_out == Seq::<u8>::empty(),
            p@.flag == FLAG_NONE,
            match (p@.bucket, max_frames_per_sec) {
                (Some(b), Some(rate)) => {
                    &&& b.rate == (if rate == 0 {
                        1
                    } else {
                        rate
                    })
                    &&& b.parts == bucket_room(b.rate)
                    &&& b.last == now
                },
                (None, None) => true,
                _ => false,
            },
    {
        let counter = match max_frame_size_bytes {
            Some(max) => FrameCounter::new().with_max_frame_size(max),
            None => FrameCounter::new(),
        };
        let bucket = match max_frames_per_sec {
            Some(rate) => Some(
                Bucket::new(
                    if rate == 0 {
                        1
                    } else {
                        rate
                    },
                    now,
                ),
            ),
            None => None,
        };
        WsPolice {
            counter,
            bucket,
            charged: 0,
            closing: false,
            close_out: Vec::new(),
            flag: FLAG_NONE,
        }
    }

    /// Whether client bytes may still pass.
    pub fn may_read(&self) -> (r: bool)
        ensures
            r == !self@.closing,
    {
        !self.closing
    }

    /// Whether policing has tripped.
    pub fn violated(&self) -> (r: bool)
        ensures
            r == (self@.flag != FLAG_NONE),
    {
        self.flag != FLAG_NONE
    }

    /// Why the connection was closed.
    pub fn flag(&self) -> (r: u64)
        ensures
            r == self@.flag,
    {
        self.flag
    }

    /// The bytes to write to the client ahead of any others.
    pub fn pending(&self) -> (r: &Vec<u8>)
        ensures
            r@ == self@.close_out,
    {
        &self.close_out
    }

    /// Notes that the first `n` pending bytes have been written.
    pub fn written(&mut self, n: usize)
        requires
            n <= old(self)@.close_out.len(),
        ensures
            final(self)@ == (PoliceView {
                close_out: old(self)@.close_out.skip(n as int),
                ..old(self)@
            }),
    {
        proof {
            use_type_invariant(&*self);
        }
        let mut rest: Vec<u8> = Vec::new();
        let mut i: usize = n;
        let ghost all = self.close_out@;
        while i < self.close_out.len()
            invariant
                n <= i <= self.close_out.len(),
                self.close_out@ == all,
                rest@ == all.subrange(n as int, i as int),
            decreases self.close_out.len() - i,
        {
            rest.push(self.close_out[i]);
            i = i + 1;
            assert(all.subrange(n as int, i as int) =~= all.subrange(n as int, i - 1).push(
                all[i - 1],
            ));
        }
        assert(all.subrange(n as int, all.len() as int) =~= all.skip(n as int));
        self.close_out = rest;
    }

    /// Takes in the bytes that the client sent by `now` (nanoseconds).
    /// Frame violations come first; then one token is charged for each newly
    /// counted data frame, and the first frame without one trips the policer.
    /// The bytes themselves still pass.
    pub fn sent(&mut self, bytes: &[u8], now: u64)
        requires
            !old(self)@.closing ==> run(old(self)@.scanner, bytes@).frames <= u64::MAX,
        ensures
            final(self)@ == police(old(self)@, bytes@, now),
    {
        proof {
            use_type_invariant(&*self);
        }
        if self.closing {
            return;
        }
        let mut counter = FrameCounter::new();
        std::mem::swap(&mut counter, &mut self.counter);
        counter.feed(bytes);
        self.counter = counter;
        let ghost fed = self@;
        let v = self.counter.violation();
        if v != FrameViolation::Clean {
            let mut close = v.close_frame();
            let mut out: Vec<u8> = Vec::new();
            std::mem::swap(&mut out, &mut self.close_out);
            out.append(&mut close);
            self.close_out = out;
            self.closing = true;
            self.flag = v.flag();
            return;
        }
        if self.bucket.is_none() {
            return;
        }
        let target: u64 = self.counter.data_frames();
        let ghost wanted = police(old(self)@, bytes@, now);
        while self.charged < target
            invariant
                !self.closing,
                self.bucket is Some,
                target == self@.scanner.frames,
                self@.scanner.frames >= self@.charged ==> wanted == charge(
                    self@,
                    now,
                    (self@.scanner.frames - self@.charged) as nat,
                ),
                self@.scanner.frames < self@.charged ==> wanted == self@,
                wanted == police(old(self)@, bytes@, now),
            decreases target - self.charged,
        {
            proof {
                use_type_invariant(&*self);
            }
            if let Some(mut b) = self.bucket {
                let ok = b.take(now);
                self.charged = self.charged + 1;
                self.bucket = Some(b);
                if !ok {
                    let mut close = close_bytes(0x03, 0xf0);
                    assert(close@ =~= close_frame_of(1008));
                    let mut out: Vec<u8> = Vec::new();
                    std::mem::swap(&mut out, &mut self.close_out);
                    out.append(&mut close);
                    self.close_out = out;
                    self.closing = true;
                    self.flag = FLAG_RATE_CLOSED;
                    return;
                }
            }
        }
    }
}

} // verus!
