//! What a check over several windows comes to.

use vstd::prelude::*;

use crate::extensions::rate_limiter::gcra::{GcraOutcome, WindowSpec};
use crate::extensions::redis_rate_limiter;
use crate::extensions::redis_rate_limiter::{state_after_all, RedisWindow, ScriptReply};

verus! {

/// Whether a window lets a request pass: its script said so, or it could not
/// be reached and that is taken for a yes.
pub open spec fn lets_pass(r: ScriptReply, fail_open: bool) -> bool {
    &&& r is Numbers ==> r->Numbers_0@.len() > 0 && r->Numbers_0@[0] == 1
    &&& r is Unreachable ==> fail_open
}

/// A number of a reply; none counts as zero, and so does a negative one.
pub open spec fn count(r: ScriptReply, i: int) -> int {
    if r is Numbers && i < r->Numbers_0@.len() && r->Numbers_0@[i] > 0 {
        r->Numbers_0@[i] as int
    } else {
        0
    }
}

/// Whether an outcome is that of the window at `i`, which allowed the request
/// and has the least left of all that did.
pub open spec fn is_tightest(
    windows: Seq<RedisWindow>,
    replies: Seq<ScriptReply>,
    n: nat,
    i: int,
    o: GcraOutcome,
) -> bool {
    &&& 0 <= i < n
    &&& replies[i] is Numbers
    &&& o.decision.allowed
    &&& o.decision.retry_after_ms is None
    &&& o.limit == windows[i].burst
    &&& o.refill_ms == windows[i].full_refill_ms
    &&& o.decision.remaining == count(replies[i], 1)
    &&& forall|j: int|
        0 <= j < n && (#[trigger] replies[j]) is Numbers ==> o.decision.remaining <= count(
            replies[j],
            1,
        )
}

/// Whether an outcome is the refusal of the window at `k`: with the wait that
/// its script gave, or the time in which it fills up where it could not be
/// reached.
pub open spec fn is_refusal(
    windows: Seq<RedisWindow>,
    replies: Seq<ScriptReply>,
    k: int,
    o: GcraOutcome,
) -> bool {
    &&& !o.decision.allowed
    &&& o.decision.remaining == 0
    &&& o.limit == windows[k].burst
    &&& o.decision.retry_after_ms is Some
    &&& replies[k] is Numbers ==> o.decision.retry_after_ms->Some_0 == count(replies[k], 2)
    &&& replies[k] is Unreachable ==> o.decision.retry_after_ms->Some_0
        == windows[k].full_refill_ms
}

proof fn lemma_after(
    windows: Seq<RedisWindow>,
    fail_open: bool,
    replies: Seq<ScriptReply>,
    n: nat,
)
    requires
        n <= windows.len() <= usize::MAX,
        n <= replies.len(),
    ensures
        ({
            let s = state_after_all(windows, fail_open, replies, n);
            let all = forall|i: int| 0 <= i < n ==> lets_pass(#[trigger] replies[i], fail_open);
            &&& all ==> s is Going && s->next == n
            &&& all && s->binding is None ==> forall|i: int|
                0 <= i < n ==> !((#[trigger] replies[i]) is Numbers)
            &&& all && s->binding is Some ==> exists|i: int| #[trigger]
                is_tightest(windows, replies, n, i, s->binding->Some_0)
            &&& !all ==> s is Ended && exists|k: int| #[trigger]
                is_first_refusal(windows, fail_open, replies, n, k, s->Ended_0)
        }),
    decreases n,
{
    if n > 0 {
        let m = (n - 1) as nat;
        lemma_after(windows, fail_open, replies, m);
        let b = state_after_all(windows, fail_open, replies, m);
        let s = state_after_all(windows, fail_open, replies, n);
        let r = replies[m as int];
        let w = windows[m as int];
        let before = forall|i: int| 0 <= i < m ==> lets_pass(#[trigger] replies[i], fail_open);
        if before {
            if lets_pass(r, fail_open) {
                assert forall|i: int| 0 <= i < n implies lets_pass(
                    #[trigger] replies[i],
                    fail_open,
                ) by {}
                if r is Numbers {
                    assert(redis_rate_limiter::number_at(r->Numbers_0@, 0) == 1);
                    if b->binding is Some {
                        let i = choose|i: int| #[trigger]
                            is_tightest(windows, replies, m, i, b->binding->Some_0);
                        if count(r, 1) < b->binding->Some_0.decision.remaining {
                            assert(is_tightest(
                                windows,
                                replies,
                                n,
                                m as int,
                                s->binding->Some_0,
                            ));
                        } else {
                            assert(is_tightest(windows, replies, n, i, s->binding->Some_0));
                        }
                    } else {
                        assert(is_tightest(windows, replies, n, m as int, s->binding->Some_0));
                    }
                } else if b->binding is Some {
                    let i = choose|i: int| #[trigger]
                        is_tightest(windows, replies, m, i, b->binding->Some_0);
                    assert(is_tightest(windows, replies, n, i, s->binding->Some_0));
                }
            } else {
                assert(!lets_pass(replies[m as int], fail_open));
                assert(is_first_refusal(
                    windows,
                    fail_open,
                    replies,
                    n,
                    m as int,
                    s->Ended_0,
                ));
            }
        } else {
            let k = choose|k: int| #[trigger]
                is_first_refusal(windows, fail_open, replies, m, k, b->Ended_0);
            assert(is_first_refusal(windows, fail_open, replies, n, k, s->Ended_0));
        }
    }
}

/// Whether the window at `k` is the first that does not let the request pass,
/// and an outcome is its refusal.
pub open spec fn is_first_refusal(
    windows: Seq<RedisWindow>,
    fail_open: bool,
    replies: Seq<ScriptReply>,
    n: nat,
    k: int,
    o: GcraOutcome,
) -> bool {
    &&& 0 <= k < n
    &&& !lets_pass(replies[k], fail_open)
    &&& forall|i: int| 0 <= i < k ==> lets_pass(#[trigger] replies[i], fail_open)
    &&& is_refusal(windows, replies, k, o)
}

/// A request passes exactly if every window lets it pass; then the window with
/// the least left is reported, or, if none could be reached, the first with
/// its whole bucket. Else the first window that refused is, with its wait.
pub proof fn law_request_passes_if_every_window_lets_it(
    windows: Seq<RedisWindow>,
    fail_open: bool,
    replies: Seq<ScriptReply>,
)
    requires
        0 < windows.len() <= usize::MAX,
        replies.len() == windows.len(),
    ensures
        ({
            let n = windows.len();
            let o = redis_rate_limiter::outcome_of_state(
                windows,
                state_after_all(windows, fail_open, replies, n),
            );
            let all = forall|i: int| 0 <= i < n ==> lets_pass(#[trigger] replies[i], fail_open);
            let none = forall|i: int| 0 <= i < n ==> !((#[trigger] replies[i]) is Numbers);
            &&& o.decision.allowed <==> all
            &&& all && !none ==> exists|i: int| #[trigger] is_tightest(windows, replies, n, i, o)
            &&& all && none ==> o.limit == windows[0].burst && o.decision.remaining
                == windows[0].burst
            &&& !all ==> exists|k: int| #[trigger]
                is_first_refusal(windows, fail_open, replies, n, k, o)
        }),
{
    let n = windows.len();
    lemma_after(windows, fail_open, replies, n);
    let s = state_after_all(windows, fail_open, replies, n);
    if s is Going && s->binding is Some {
        let i = choose|i: int| #[trigger] is_tightest(windows, replies, n, i, s->binding->Some_0);
        assert(replies[i] is Numbers);
    }
}

/// A window gives one token back in the time that its requests leave for each,
/// and holds its burst of them.
pub proof fn law_window_has_the_rate(s: WindowSpec)
    requires
        1 <= s.requests <= s.window_ns <= u64::MAX,
        1 <= s.burst <= u32::MAX,
    ensures
        ({
            let w = redis_rate_limiter::redis_window(s);
            &&& w.emission_interval_ns * s.requests <= s.window_ns < (w.emission_interval_ns + 1)
                * s.requests
            &&& w.burst == s.burst
            &&& w.burst_tolerance_ns == w.emission_interval_ns * s.burst
            &&& w.burst_tolerance_ns <= 1_000_000 * u64::MAX ==> 1_000_000 * w.full_refill_ms
                <= w.burst_tolerance_ns < 1_000_000 * (w.full_refill_ms + 1)
        }),
{
    let q = s.window_ns / s.requests;
    assert(s.window_ns % 0x1_0000_0000_0000_0000 == s.window_ns);
    assert(1 <= q <= s.window_ns && q * s.requests <= s.window_ns < (q + 1) * s.requests)
        by (nonlinear_arith)
        requires
            q == s.window_ns / s.requests,
            1 <= s.requests <= s.window_ns,
    ;
    assert(0 <= q * s.burst <= 0xffff_ffff_ffff_ffff * 0xffff_ffff) by (nonlinear_arith)
        requires
            0 <= q <= 0xffff_ffff_ffff_ffff,
            1 <= s.burst <= 0xffff_ffff,
    ;
    assert(0xffff_ffff_ffff_ffffu128 * 0xffff_ffffu128 <= u128::MAX);
}

} // verus!
