//! The in-memory fixed-window limiter.

use vstd::prelude::*;
use vstd::string::*;

use crate::extensions::rate_limiter::gcra::RateDecision;
use crate::text_map::TextMap;

verus! {

/// The window of one key: when it began (milliseconds), and the units used
/// in it.
#[derive(Debug, Clone, Copy, PartialEq, Eq, Structural)]
pub struct WindowState {
    pub window_start_ms: u128,
    pub used: u64,
}

/// In-memory fixed-window limiter: `limit` units per `window_ms` per key.
pub struct InMemoryRateLimiter {
    limit: u64,
    window_ms: u128,
    windows: TextMap<WindowState>,
}

/// What a fixed-window limiter holds.
#[verifier::ext_equal]
pub struct FixedWindows {
    pub limit: u64,
    pub window_ms: u128,
    pub windows: Map<Seq<char>, WindowState>,
}

impl View for InMemoryRateLimiter {
    type V = FixedWindows;

    closed spec fn view(&self) -> FixedWindows {
        FixedWindows { limit: self.limit, window_ms: self.window_ms, windows: self.windows@ }
    }
}

/// Whether no key has used more than the limit.
pub open spec fn within_limit(f: FixedWindows) -> bool {
    forall|k: Seq<char>| #[trigger]
        f.windows.dom().contains(k) ==> f.windows[k].used <= f.limit
}

/// The time since a window began.
pub open spec fn elapsed(w: WindowState, now: u128) -> int {
    if now >= w.window_start_ms {
        now - w.window_start_ms
    } else {
        0
    }
}

/// The window of a key at a time: the one it has, unless that is over.
pub open spec fn current_window(f: FixedWindows, key: Seq<char>, now: u128) -> WindowState {
    let fresh = WindowState { window_start_ms: now, used: 0 };
    if f.windows.dom().contains(key) && elapsed(f.windows[key], now) < f.window_ms {
        f.windows[key]
    } else {
        fresh
    }
}

/// Whether a request of a cost fits in the window of its key.
pub open spec fn fits(f: FixedWindows, key: Seq<char>, cost: u32, now: u128) -> bool {
    current_window(f, key, now).used + cost <= f.limit
}

/// The window of a key after a request.
pub open spec fn window_after(f: FixedWindows, key: Seq<char>, cost: u32, now: u128) -> WindowState {
    let w = current_window(f, key, now);
    if fits(f, key, cost, now) {
        WindowState { window_start_ms: w.window_start_ms, used: (w.used + cost) as u64 }
    } else {
        w
    }
}

/// The answer to a request.
pub open spec fn fixed_decision(f: FixedWindows, key: Seq<char>, cost: u32, now: u128) -> RateDecision {
    let w = window_after(f, key, cost, now);
    let rest = f.window_ms - elapsed(w, now);
    RateDecision {
        allowed: fits(f, key, cost, now),
        remaining: (f.limit - w.used) as u64,
        retry_after_ms: if fits(f, key, cost, now) {
            None
        } else if rest <= u64::MAX {
            Some(rest as u64)
        } else {
            Some(0)
        },
    }
}

impl InMemoryRateLimiter {
    #[verifier::type_invariant]
    spec fn well_formed(self) -> bool {
        within_limit(self@)
    }

    /// New limiter allowing `limit` units per `window_ms` per key.
    pub fn new(limit: u64, window_ms: u64) -> (l: Self)
        ensures
            l@ == (FixedWindows { limit, window_ms: window_ms as u128, windows: Map::empty() }),
    {
        InMemoryRateLimiter { limit, window_ms: window_ms as u128, windows: TextMap::new() }
    }

    /// Decides on a request of a key at a time, and reserves its cost if it
    /// is allowed. Times are Unix-epoch milliseconds.
    pub fn check(&mut self, key: &str, cost: u32, now: u128) -> (d: RateDecision)
        ensures
            d == fixed_decision(old(self)@, key@, cost, now),
            final(self)@ == (FixedWindows {
                windows: old(self)@.windows.insert(
                    key@,
                    window_after(old(self)@, key@, cost, now),
                ),
                ..old(self)@
            }),
    {
        proof {
            use_type_invariant(&*self);
        }
        let mut windows: TextMap<WindowState> = TextMap::new();
        std::mem::swap(&mut windows, &mut self.windows);
        let mut state = match windows.get(key) {
            Some(w) => *w,
            None => WindowState { window_start_ms: now, used: 0 },
        };
        if now.saturating_sub(state.window_start_ms) >= self.window_ms {
            state = WindowState { window_start_ms: now, used: 0 };
        }
        let cost: u64 = cost as u64;
        let allowed = cost <= self.limit - state.used;
        if allowed {
            state = WindowState {
                window_start_ms: state.window_start_ms,
                used: state.used + cost,
            };
        }
        let remaining: u64 = self.limit - state.used;
        let gone: u128 = now.saturating_sub(state.window_start_ms);
        let retry_after_ms = if allowed {
            None
        } else {
            let rest: u128 = self.window_ms.saturating_sub(gone);
            if rest <= u64::MAX as u128 {
                Some(rest as u64)
            } else {
                Some(0u64)
            }
        };
        windows.insert(key.to_owned(), state);
        self.windows = windows;
        RateDecision { allowed, remaining, retry_after_ms }
    }
}

/// No key is ever allowed more than the limit within one window, and a
/// denied request changes no budget.
pub proof fn law_fixed_window_is_kept(f: FixedWindows, key: Seq<char>, cost: u32, now: u128)
    requires
        within_limit(f),
    ensures
        window_after(f, key, cost, now).used <= f.limit,
        !fits(f, key, cost, now) ==> window_after(f, key, cost, now) == current_window(
            f,
            key,
            now,
        ),
        fixed_decision(f, key, cost, now).allowed ==> window_after(f, key, cost, now).used
            == current_window(f, key, now).used + cost,
{
}

} // verus!
