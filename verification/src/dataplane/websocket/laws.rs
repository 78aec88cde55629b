//! Who may connect, and what closes a connection.

use vstd::prelude::*;

use crate::dataplane::websocket;
use crate::dataplane::websocket::{Bucket, FrameViolation, PoliceView};
use crate::text;

verus! {

// ---------------------------------------------------------------------------
// Handshakes
// ---------------------------------------------------------------------------

/// Every origin passes where none is listed; else exactly those that are.
pub proof fn law_listed_origins_pass(origin: Option<Seq<char>>, allowed: Seq<Seq<char>>)
    ensures
        allowed.len() == 0 ==> websocket::origin_passes(origin, allowed),
        allowed.len() > 0 ==> (websocket::origin_passes(origin, allowed) <==> origin is Some
            && exists|i: int| 0 <= i < allowed.len() && #[trigger] allowed[i] == origin->Some_0),
{
}

/// An Upgrade header is searched token by token.
pub proof fn law_tokens_are_searched_one_by_one(token: Seq<char>, rest: Seq<char>)
    requires
        forall|i: int| 0 <= i < token.len() ==> token[i] != ',',
    ensures
        websocket::lists_websocket(token.push(',') + rest) <==> websocket::lists_websocket(token)
            || websocket::lists_websocket(rest),
        websocket::lists_websocket(token) <==> text::lower(text::trim(token)) == text::lower(
            "websocket"@,
        ),
{
    text::lemma_split_piece(token, ',', rest);
    let whole = text::split(token.push(',') + rest, ',');
    let tail = text::split(rest, ',');
    let alone = text::split(token, ',');
    let want = text::lower("websocket"@);
    assert(whole[0] == token && alone[0] == token && alone.len() == 1);
    if websocket::lists_websocket(rest) {
        let k = choose|k: int|
            0 <= k < tail.len() && text::lower(text::trim(#[trigger] tail[k])) == want;
        assert(whole[k + 1] == tail[k]);
    }
    if websocket::lists_websocket(token.push(',') + rest) {
        let k = choose|k: int|
            0 <= k < whole.len() && text::lower(text::trim(#[trigger] whole[k])) == want;
        if k > 0 {
            assert(tail[k - 1] == whole[k]);
        }
    }
}

// ---------------------------------------------------------------------------
// Closing
// ---------------------------------------------------------------------------

/// Whether the connection is closed with a status: a close frame of two bytes
/// that hold it, behind what was to be written before.
pub open spec fn closes_with(before: PoliceView, after: PoliceView, high: u8, low: u8) -> bool {
    &&& after.closing
    &&& after.close_out == before.close_out + seq![0x88u8, 0x02u8, high, low]
}

/// A frame that is too big closes the connection with 1009, and a frame that
/// breaks the protocol with 1002; each is told apart by its flag. A
/// connection that is being closed stays as it is.
pub proof fn law_violations_close_the_connection(p: PoliceView, bytes: Seq<u8>, now: u64)
    ensures
        ({
            let q = websocket::police(p, bytes, now);
            let v = websocket::run(p.scanner, bytes).violation;
            &&& p.closing ==> q == p
            &&& !p.closing && v is SizeExceeded ==> closes_with(p, q, 0x03, 0xf1) && q.flag == 2
            &&& !p.closing && v is ProtocolError ==> closes_with(p, q, 0x03, 0xea) && q.flag == 3
            &&& !p.closing && v is Clean && p.bucket is None ==> !q.closing && q.close_out
                == p.close_out && q.flag == p.flag
        }),
{
    assert(websocket::close_frame_of(1009) =~= seq![0x88u8, 0x02u8, 0x03u8, 0xf1u8]);
    assert(websocket::close_frame_of(1002) =~= seq![0x88u8, 0x02u8, 0x03u8, 0xeau8]);
}

proof fn lemma_charge(p: PoliceView, now: u64, n: nat)
    requires
        p.bucket is Some,
        !p.closing,
        websocket::bucket_at(p.bucket->Some_0, now) >= 0,
        p.bucket->Some_0.parts <= websocket::bucket_room(p.bucket->Some_0.rate),
    ensures
        ({
            let q = websocket::charge(p, now, n);
            let have = websocket::bucket_at(p.bucket->Some_0, now);
            &&& q.closing <==> have < n * 1_000_000_000
            &&& q.closing ==> closes_with(p, q, 0x03, 0xf0) && q.flag == 1
            &&& !q.closing ==> q.close_out == p.close_out && q.flag == p.flag && q.charged
                == p.charged + n
        }),
    decreases n,
{
    assert(websocket::close_frame_of(1008) =~= seq![0x88u8, 0x02u8, 0x03u8, 0xf0u8]);
    let b = p.bucket->Some_0;
    if n > 0 && websocket::bucket_at(b, now) >= websocket::TOKEN {
        let charged = PoliceView {
            bucket: Some(websocket::bucket_after(b, now)),
            charged: p.charged + 1,
            ..p
        };
        lemma_taken(b, now);
        lemma_charge(charged, now, (n - 1) as nat);
    }
}

proof fn lemma_taken(b: Bucket, now: u64)
    requires
        websocket::bucket_at(b, now) >= websocket::TOKEN,
        b.parts <= websocket::bucket_room(b.rate),
    ensures
        ({
            let c = websocket::bucket_after(b, now);
            &&& websocket::bucket_at(c, now) == websocket::bucket_at(b, now) - websocket::TOKEN
            &&& c.parts <= websocket::bucket_room(c.rate)
        }),
{
    let c = websocket::bucket_after(b, now);
    assert(0 <= b.rate * websocket::TOKEN <= 0xffff_ffff_ffff_ffff * 1_000_000_000)
        by (nonlinear_arith)
        requires
            0 <= b.rate <= 0xffff_ffff_ffff_ffff,
            websocket::TOKEN == 1_000_000_000,
    ;
    assert(0 * (c.rate as int) == 0);
}

/// A client that sends frames faster than it may is closed with 1008: exactly
/// if more data frames have ended than the bucket holds tokens for.
pub proof fn law_too_many_frames_close_the_connection(p: PoliceView, bytes: Seq<u8>, now: u64)
    requires
        !p.closing,
        websocket::run(p.scanner, bytes).violation is Clean,
        p.bucket is Some,
        p.bucket->Some_0.parts <= websocket::bucket_room(p.bucket->Some_0.rate),
        p.charged <= websocket::run(p.scanner, bytes).frames,
    ensures
        ({
            let q = websocket::police(p, bytes, now);
            let ended = websocket::run(p.scanner, bytes).frames - p.charged;
            let have = websocket::bucket_at(p.bucket->Some_0, now);
            &&& q.closing <==> have < ended * 1_000_000_000
            &&& q.closing ==> closes_with(p, q, 0x03, 0xf0) && q.flag == 1
            &&& !q.closing ==> q.close_out == p.close_out && q.charged == p.charged + ended
        }),
{
    let b = p.bucket->Some_0;
    if now >= b.last {
        assert((now - b.last) * b.rate >= 0) by (nonlinear_arith)
            requires
                now >= b.last,
                b.rate >= 0,
        ;
    }
    assert(b.rate * websocket::TOKEN >= 0) by (nonlinear_arith)
        requires
            b.rate >= 0,
            websocket::TOKEN == 1_000_000_000,
    ;
    let fed = PoliceView { scanner: websocket::run(p.scanner, bytes), ..p };
    lemma_charge(fed, now, (fed.scanner.frames - p.charged) as nat);
}

/// The close frame and the flag of each violation.
pub proof fn law_violations_have_their_close_frame()
    ensures
        websocket::violation_close(FrameViolation::SizeExceeded) == seq![
            0x88u8,
            0x02u8,
            0x03u8,
            0xf1u8,
        ],
        websocket::violation_close(FrameViolation::ProtocolError) == seq![
            0x88u8,
            0x02u8,
            0x03u8,
            0xeau8,
        ],
        websocket::violation_close(FrameViolation::Clean).len() == 0,
        websocket::flag_label(1) == "rate_closed"@,
        websocket::flag_label(2) == "size_closed"@,
        websocket::flag_label(3) == "protocol_closed"@,
        websocket::flag_label(0).len() == 0,
{
    reveal_strlit("");
}

} // verus!
