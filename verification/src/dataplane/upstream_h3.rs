//! The bookkeeping of HTTP/3 (QUIC) upstream connections.
//!
//! QUIC multiplexes many streams over one connection, so the pool keeps a
//! bounded set of connections per endpoint address, each carrying many
//! streams: a request reuses the least recently used live connection, and
//! dials one where no live connection is left. A dialed connection is pooled
//! as long as the endpoint is under its cap. Connections idle past a timeout
//! are reaped.
//!
//! A connection goes by a number here. Which connections have closed, and
//! what time it is, the caller says.

use vstd::prelude::*;
use vstd::string::*;

use crate::lists;
use crate::text;
use crate::text::{cat2, cat5, decimal, same};

verus! {

/// Default maximum QUIC connections per endpoint address when the
/// upstream's `connection_cap` is absent.
pub const DEFAULT_H3_CONNECTION_CAP: u32 = 8;

/// Default idle timeout for a pooled QUIC connection (no streams opened
/// through it for this long => close and reap).
pub const DEFAULT_H3_IDLE_TIMEOUT_MS: u64 = 30_000;

/// One pooled connection.
#[derive(Debug)]
struct ConnEntry {
    id: u64,
    addr: String,
    last_used: u64,
}

/// A pooled connection: its number, its endpoint address and when a stream
/// was last opened through it (milliseconds).
#[verifier::ext_equal]
pub struct Conn {
    pub id: u64,
    pub addr: Seq<char>,
    pub last_used: u64,
}

impl View for ConnEntry {
    type V = Conn;

    closed spec fn view(&self) -> Conn {
        Conn { id: self.id, addr: self.addr@, last_used: self.last_used }
    }
}

/// The connections to an address, in the order in which they were pooled.
pub open spec fn to_addr(s: Seq<Conn>, addr: Seq<char>) -> Seq<Conn> {
    s.filter(|c: Conn| c.addr == addr)
}

/// The connections without the closed ones to an address.
pub open spec fn reaped(s: Seq<Conn>, addr: Seq<char>, closed: Seq<u64>) -> Seq<Conn> {
    s.filter(|c: Conn| c.addr != addr || !closed.contains(c.id))
}

/// The connections that are open and were used within the idle timeout.
pub open spec fn fresh(s: Seq<Conn>, closed: Seq<u64>, now: u64, idle: u64) -> Seq<Conn> {
    s.filter(|c: Conn| !closed.contains(c.id) && idle_time(c, now) < idle)
}

/// How long a connection has been idle.
pub open spec fn idle_time(c: Conn, now: u64) -> int {
    if now >= c.last_used {
        now - c.last_used
    } else {
        0
    }
}

/// Whether the connection at `i` is the least recently used one to an
/// address, the first of several.
pub open spec fn is_oldest(s: Seq<Conn>, addr: Seq<char>, i: int) -> bool {
    &&& 0 <= i < s.len()
    &&& s[i].addr == addr
    &&& forall|j: int|
        0 <= j < s.len() && (#[trigger] s[j]).addr == addr ==> s[i].last_used <= s[j].last_used
    &&& forall|j: int|
        0 <= j < i && (#[trigger] s[j]).addr == addr ==> s[i].last_used < s[j].last_used
}

/// A connection used now.
pub open spec fn used(c: Conn, now: u64) -> Conn {
    Conn { last_used: now, ..c }
}

/// Whether no address has more connections than the cap.
pub open spec fn bounded(s: Seq<Conn>, cap: nat) -> bool {
    forall|addr: Seq<char>| (#[trigger] to_addr(s, addr)).len() <= cap
}

/// QUIC stream-aware connection pool: a bounded set of QUIC connections
/// per endpoint address, each carrying many H3 streams.
#[derive(Debug)]
pub struct QuicStreamPool {
    conns: Vec<ConnEntry>,
    max_conns_per_endpoint: usize,
    idle_timeout: u64,
}

fn is_closed(closed: &Vec<u64>, id: u64) -> (r: bool)
    ensures
        r == closed@.contains(id),
{
    let mut i: usize = 0;
    while i < closed.len()
        invariant
            i <= closed.len(),
            forall|j: int| 0 <= j < i ==> closed@[j] != id,
        decreases closed.len() - i,
    {
        if closed[i] == id {
            assert(closed@[i as int] == id);
            return true;
        }
        i = i + 1;
    }
    false
}

impl View for QuicStreamPool {
    type V = Seq<Conn>;

    closed spec fn view(&self) -> Seq<Conn> {
        self.conns@.map_values(|e: ConnEntry| e@)
    }
}

impl QuicStreamPool {
    /// The connection cap of an address.
    pub closed spec fn cap(self) -> nat {
        self.max_conns_per_endpoint as nat
    }

    /// The idle timeout in milliseconds.
    pub closed spec fn idle(self) -> u64 {
        self.idle_timeout
    }

    #[verifier::type_invariant]
    spec fn well_formed(self) -> bool {
        &&& self.max_conns_per_endpoint >= 1
        &&& bounded(self@, self.cap())
    }

    /// An empty pool. A cap of zero counts as one.
    pub fn new(max_conns_per_endpoint: usize, idle_timeout_ms: u64) -> (p: Self)
        ensures
            p@ == Seq::<Conn>::empty(),
            p.cap() == if max_conns_per_endpoint == 0 {
                1
            } else {
                max_conns_per_endpoint as nat
            },
            p.idle() == idle_timeout_ms,
    {
        let cap: usize = if max_conns_per_endpoint == 0 {
            1
        } else {
            max_conns_per_endpoint
        };
        let conns: Vec<ConnEntry> = Vec::new();
        proof {
            reveal(Seq::filter);
            assert(conns@.map_values(|e: ConnEntry| e@) =~= Seq::<Conn>::empty());
        }
        QuicStreamPool { conns, max_conns_per_endpoint: cap, idle_timeout: idle_timeout_ms }
    }

    /// Drops the closed connections to an address.
    fn reap(&mut self, addr: &str, closed: &Vec<u64>)
        ensures
            final(self)@ == reaped(old(self)@, addr@, closed@),
            final(self).cap() == old(self).cap(),
            final(self).idle() == old(self).idle(),
    {
        proof {
            use_type_invariant(&*self);
        }
        let ghost all = self@;
        let ghost p = |c: Conn| c.addr != addr@ || !closed@.contains(c.id);
        let mut kept: Vec<ConnEntry> = Vec::new();
        let mut i: usize = 0;
        proof {
            lists::lemma_filter_ends(all, p);
            assert(kept@.map_values(|e: ConnEntry| e@) =~= all.take(0).filter(p));
        }
        while i < self.conns.len()
            invariant
                i <= self.conns.len(),
                *self == *old(self),
                all == self@,
                p == (|c: Conn| c.addr != addr@ || !closed@.contains(c.id)),
                kept@.map_values(|e: ConnEntry| e@) == all.take(i as int).filter(p),
            decreases self.conns.len() - i,
        {
            proof {
                lists::lemma_filter_step(all, p, i as int);
            }
            let e = &self.conns[i];
            assert(all[i as int] == self.conns@[i as int]@);
            if !same(e.addr.as_str(), addr) || !is_closed(closed, e.id) {
                let e = ConnEntry { id: e.id, addr: e.addr.clone(), last_used: e.last_used };
                assert(kept@.push(e).map_values(|e: ConnEntry| e@) =~= kept@.map_values(
                    |e: ConnEntry| e@,
                ).push(e@));
                kept.push(e);
            }
            i = i + 1;
        }
        proof {
            assert(all.take(i as int) =~= all);
            lemma_filter_stays_bounded(all, p, self.cap());
        }
        self.conns = kept;
    }

    /// Picks a live connection to an address: the least recently used one,
    /// to spread streams across connections. Closed connections to the
    /// address are dropped on the way. Nothing is picked if there is no live
    /// connection.
    pub fn try_take_live(&mut self, addr: &str, closed: &Vec<u64>, now: u64) -> (r: Option<u64>)
        ensures
            final(self).cap() == old(self).cap(),
            final(self).idle() == old(self).idle(),
            ({
                let live = reaped(old(self)@, addr@, closed@);
                match r {
                    Some(id) => exists|i: int|
                        {
                            &&& #[trigger] is_oldest(live, addr@, i)
                            &&& id == live[i].id
                            &&& final(self)@ == live.update(i, used(live[i], now))
                        },
                    None => {
                        &&& to_addr(live, addr@).len() == 0
                        &&& final(self)@ == live
                    },
                }
            }),
    {
        self.reap(addr, closed);
        let ghost live = self@;
        let mut best: Option<usize> = None;
        let mut i: usize = 0;
        while i < self.conns.len()
            invariant
                i <= self.conns.len(),
                self@ == live,
                live.len() == self.conns@.len(),
                match best {
                    Some(b) => {
                        &&& b < i
                        &&& live[b as int].addr == addr@
                        &&& forall|j: int|
                            0 <= j < i && (#[trigger] live[j]).addr == addr@
                                ==> live[b as int].last_used <= live[j].last_used
                        &&& forall|j: int|
                            0 <= j < b && (#[trigger] live[j]).addr == addr@
                                ==> live[b as int].last_used < live[j].last_used
                    },
                    None => forall|j: int| 0 <= j < i ==> (#[trigger] live[j]).addr != addr@,
                },
                self.cap() == old(self).cap(),
                self.idle() == old(self).idle(),
            decreases self.conns.len() - i,
        {
            assert(live[i as int] == self.conns@[i as int]@);
            if same(self.conns[i].addr.as_str(), addr) {
                let better = match best {
                    Some(b) => {
                        assert(live[b as int] == self.conns@[b as int]@);
                        self.conns[i].last_used < self.conns[b].last_used
                    },
                    None => true,
                };
                if better {
                    best = Some(i);
                }
            }
            i = i + 1;
        }
        match best {
            Some(b) => {
                proof {
                    use_type_invariant(&*self);
                }
                let id: u64 = self.conns[b].id;
                assert(live[b as int] == self.conns@[b as int]@);
                let mut conns: Vec<ConnEntry> = Vec::new();
                std::mem::swap(&mut conns, &mut self.conns);
                let e = ConnEntry { id, addr: conns[b].addr.clone(), last_used: now };
                conns.set(b, e);
                proof {
                    let next = live.update(b as int, used(live[b as int], now));
                    assert(conns@.map_values(|e: ConnEntry| e@) =~= next);
                    assert(is_oldest(live, addr@, b as int));
                    lemma_use_stays_bounded(live, b as int, now, self.cap());
                }
                self.conns = conns;
                Some(id)
            },
            None => {
                proof {
                    lemma_none_to(live, addr@);
                }
                None
            },
        }
    }

    /// Pools a connection that was just dialed, unless the live connections
    /// to its address are at the cap already; then it stays outside the
    /// pool, rather than pushing out a live one. Says whether it was pooled.
    pub fn pool_dialed(&mut self, addr: &str, id: u64, closed: &Vec<u64>, now: u64) -> (r: bool)
        ensures
            final(self).cap() == old(self).cap(),
            final(self).idle() == old(self).idle(),
            ({
                let live = reaped(old(self)@, addr@, closed@);
                &&& r == (to_addr(live, addr@).len() < old(self).cap())
                &&& final(self)@ == if r {
                    live.push(Conn { id, addr: addr@, last_used: now })
                } else {
                    live
                }
            }),
    {
        self.reap(addr, closed);
        let ghost live = self@;
        let n: usize = self.count(addr);
        if n < self.max_conns_per_endpoint {
            proof {
                use_type_invariant(&*self);
            }
            let e = ConnEntry { id, addr: addr.to_owned(), last_used: now };
            let mut conns: Vec<ConnEntry> = Vec::new();
            std::mem::swap(&mut conns, &mut self.conns);
            proof {
                assert(conns@.push(e).map_values(|e: ConnEntry| e@) =~= live.push(e@));
                lemma_admission_stays_bounded(live, e@, self.cap());
            }
            conns.push(e);
            self.conns = conns;
            return true;
        }
        false
    }

    fn count(&self, addr: &str) -> (n: usize)
        ensures
            n == to_addr(self@, addr@).len(),
    {
        let ghost all = self@;
        let ghost p = |c: Conn| c.addr == addr@;
        let mut n: usize = 0;
        let mut i: usize = 0;
        proof {
            lists::lemma_filter_ends(all, p);
        }
        while i < self.conns.len()
            invariant
                i <= self.conns.len(),
                n <= i,
                all == self@,
                p == (|c: Conn| c.addr == addr@),
                n == all.take(i as int).filter(p).len(),
            decreases self.conns.len() - i,
        {
            proof {
                lists::lemma_filter_step(all, p, i as int);
            }
            assert(all[i as int] == self.conns@[i as int]@);
            if same(self.conns[i].addr.as_str(), addr) {
                n = n + 1;
            }
            i = i + 1;
        }
        assert(all.take(i as int) =~= all);
        n
    }

    /// Reap connections that are closed or idle past the idle timeout (no
    /// stream opened through them since).
    pub fn sweep(&mut self, closed: &Vec<u64>, now: u64)
        ensures
            final(self)@ == fresh(old(self)@, closed@, now, old(self).idle()),
            final(self).cap() == old(self).cap(),
            final(self).idle() == old(self).idle(),
    {
        proof {
            use_type_invariant(&*self);
        }
        let ghost all = self@;
        let idle: u64 = self.idle_timeout;
        let ghost p = |c: Conn| !closed@.contains(c.id) && idle_time(c, now) < idle;
        let mut kept: Vec<ConnEntry> = Vec::new();
        let mut i: usize = 0;
        proof {
            lists::lemma_filter_ends(all, p);
            assert(kept@.map_values(|e: ConnEntry| e@) =~= all.take(0).filter(p));
        }
        while i < self.conns.len()
            invariant
                i <= self.conns.len(),
                *self == *old(self),
                all == self@,
                p == (|c: Conn| !closed@.contains(c.id) && idle_time(c, now) < idle),
                kept@.map_values(|e: ConnEntry| e@) == all.take(i as int).filter(p),
            decreases self.conns.len() - i,
        {
            proof {
                lists::lemma_filter_step(all, p, i as int);
            }
            let e = &self.conns[i];
            assert(all[i as int] == self.conns@[i as int]@);
            if !is_closed(closed, e.id) && now.saturating_sub(e.last_used) < idle {
                let e = ConnEntry { id: e.id, addr: e.addr.clone(), last_used: e.last_used };
                assert(kept@.push(e).map_values(|e: ConnEntry| e@) =~= kept@.map_values(
                    |e: ConnEntry| e@,
                ).push(e@));
                kept.push(e);
            }
            i = i + 1;
        }
        proof {
            assert(all.take(i as int) =~= all);
            lemma_filter_stays_bounded(all, p, self.cap());
        }
        self.conns = kept;
    }

    /// Whether a connection is in the pool.
    pub fn holds(&self, id: u64) -> (r: bool)
        ensures
            r == exists|i: int| 0 <= i < self@.len() && (#[trigger] self@[i]).id == id,
    {
        let ghost all = self@;
        let mut i: usize = 0;
        while i < self.conns.len()
            invariant
                i <= self.conns.len(),
                all == self@,
                forall|j: int| 0 <= j < i ==> (#[trigger] all[j]).id != id,
            decreases self.conns.len() - i,
        {
            assert(all[i as int] == self.conns@[i as int]@);
            if self.conns[i].id == id {
                assert(self@[i as int].id == id);
                return true;
            }
            i = i + 1;
        }
        false
    }

    /// Number of live pooled connections for an address. Closed connections
    /// to it are dropped on the way.
    pub fn live_count(&mut self, addr: &str, closed: &Vec<u64>) -> (n: usize)
        ensures
            final(self)@ == reaped(old(self)@, addr@, closed@),
            final(self).cap() == old(self).cap(),
            final(self).idle() == old(self).idle(),
            n == to_addr(final(self)@, addr@).len(),
    {
        self.reap(addr, closed);
        self.count(addr)
    }
}

proof fn lemma_filter_push(s: Seq<Conn>, p: spec_fn(Conn) -> bool, c: Conn)
    ensures
        s.push(c).filter(p) == if p(c) {
            s.filter(p).push(c)
        } else {
            s.filter(p)
        },
{
    reveal(Seq::filter);
    assert(s.push(c).drop_last() =~= s);
}

proof fn lemma_filter_shrinks(s: Seq<Conn>, p: spec_fn(Conn) -> bool, addr: Seq<char>)
    ensures
        to_addr(s.filter(p), addr).len() <= to_addr(s, addr).len(),
    decreases s.len(),
{
    reveal(Seq::filter);
    if s.len() > 0 {
        lemma_filter_shrinks(s.drop_last(), p, addr);
        if p(s.last()) {
            lemma_filter_push(s.drop_last().filter(p), |c: Conn| c.addr == addr, s.last());
        }
    }
}

proof fn lemma_filter_stays_bounded(s: Seq<Conn>, p: spec_fn(Conn) -> bool, cap: nat)
    requires
        bounded(s, cap),
    ensures
        bounded(s.filter(p), cap),
{
    assert forall|addr: Seq<char>| (#[trigger] to_addr(s.filter(p), addr)).len() <= cap by {
        lemma_filter_shrinks(s, p, addr);
        assert(to_addr(s, addr).len() <= cap);
    }
}

proof fn lemma_update_keeps_len(s: Seq<Conn>, i: int, now: u64, addr: Seq<char>)
    requires
        0 <= i < s.len(),
    ensures
        to_addr(s.update(i, used(s[i], now)), addr).len() == to_addr(s, addr).len(),
    decreases s.len(),
{
    reveal(Seq::filter);
    let t = s.update(i, used(s[i], now));
    if i < s.len() - 1 {
        lemma_update_keeps_len(s.drop_last(), i, now, addr);
        assert(t.drop_last() =~= s.drop_last().update(i, used(s[i], now)));
    } else {
        assert(t.drop_last() =~= s.drop_last());
    }
}

proof fn lemma_use_stays_bounded(s: Seq<Conn>, i: int, now: u64, cap: nat)
    requires
        bounded(s, cap),
        0 <= i < s.len(),
    ensures
        bounded(s.update(i, used(s[i], now)), cap),
{
    let t = s.update(i, used(s[i], now));
    assert forall|addr: Seq<char>| (#[trigger] to_addr(t, addr)).len() <= cap by {
        lemma_update_keeps_len(s, i, now, addr);
        assert(to_addr(s, addr).len() <= cap);
    }
}

proof fn lemma_admission_stays_bounded(s: Seq<Conn>, c: Conn, cap: nat)
    requires
        bounded(s, cap),
        to_addr(s, c.addr).len() < cap,
    ensures
        bounded(s.push(c), cap),
{
    assert forall|addr: Seq<char>| (#[trigger] to_addr(s.push(c), addr)).len() <= cap by {
        lemma_filter_push(s, |x: Conn| x.addr == addr, c);
        assert(to_addr(s, addr).len() <= cap);
    }
}

proof fn lemma_none_to(s: Seq<Conn>, addr: Seq<char>)
    requires
        forall|j: int| 0 <= j < s.len() ==> (#[trigger] s[j]).addr != addr,
    ensures
        to_addr(s, addr).len() == 0,
    decreases s.len(),
{
    reveal(Seq::filter);
    if s.len() > 0 {
        lemma_none_to(s.drop_last(), addr);
    }
}

/// No operation brings an endpoint address over its connection cap.
pub proof fn law_pool_stays_bounded(
    s: Seq<Conn>,
    cap: nat,
    addr: Seq<char>,
    closed: Seq<u64>,
    id: u64,
    now: u64,
    idle: u64,
)
    requires
        bounded(s, cap),
    ensures
        bounded(reaped(s, addr, closed), cap),
        bounded(fresh(s, closed, now, idle), cap),
        forall|i: int|
            0 <= i < s.len() ==> bounded(#[trigger] s.update(i, used(s[i], now)), cap),
        to_addr(s, addr).len() < cap ==> bounded(
            s.push(Conn { id, addr, last_used: now }),
            cap,
        ),
{
    lemma_filter_stays_bounded(s, |c: Conn| c.addr != addr || !closed.contains(c.id), cap);
    lemma_filter_stays_bounded(
        s,
        |c: Conn| !closed.contains(c.id) && idle_time(c, now) < idle,
        cap,
    );
    assert forall|i: int| 0 <= i < s.len() implies bounded(
        #[trigger] s.update(i, used(s[i], now)),
        cap,
    ) by {
        lemma_use_stays_bounded(s, i, now, cap);
    }
    if to_addr(s, addr).len() < cap {
        lemma_admission_stays_bounded(s, Conn { id, addr, last_used: now }, cap);
    }
}

/// A sweep leaves no connection that has closed or been idle for the timeout.
pub proof fn law_sweep_leaves_only_fresh_connections(
    s: Seq<Conn>,
    closed: Seq<u64>,
    now: u64,
    idle: u64,
)
    ensures
        forall|i: int|
            0 <= i < fresh(s, closed, now, idle).len() ==> {
                let c = #[trigger] fresh(s, closed, now, idle)[i];
                !closed.contains(c.id) && idle_time(c, now) < idle
            },
    decreases s.len(),
{
    reveal(Seq::filter);
    if s.len() > 0 {
        law_sweep_leaves_only_fresh_connections(s.drop_last(), closed, now, idle);
        let rest = fresh(s.drop_last(), closed, now, idle);
        assert forall|i: int| 0 <= i < fresh(s, closed, now, idle).len() implies {
            let c = #[trigger] fresh(s, closed, now, idle)[i];
            !closed.contains(c.id) && idle_time(c, now) < idle
        } by {
            if i < rest.len() {
                assert(fresh(s, closed, now, idle)[i] == rest[i]);
            }
        }
    }
}

// ---------------------------------------------------------------------------
// Failures
// ---------------------------------------------------------------------------

/// Errors of the HTTP/3 transport, each with the text of its cause.
#[derive(Debug, Clone, PartialEq, Eq)]
pub enum H3Error {
    /// The connection attempt timed out.
    ConnectTimedOut(String),
    /// The connection attempt failed otherwise.
    Connect(String),
    /// The HTTP/3 client could not be built over the connection.
    H3(String),
    /// A stream failed.
    Stream(String),
    /// The endpoint could not be bound.
    Endpoint(String),
    /// The TLS configuration could not be used for QUIC.
    Crypto(String),
}

/// How the layers above any transport see a failure.
#[derive(Debug, Clone, PartialEq, Eq)]
pub enum TransportFailure {
    /// The connection attempt timed out after some milliseconds.
    ConnectTimeout { after_ms: u64 },
    /// Reading or writing failed.
    Io(String),
}

/// The text of an error.
pub open spec fn error_text(e: H3Error) -> Seq<char> {
    match e {
        H3Error::ConnectTimedOut(c) => "h3 upstream QUIC connect failed: "@ + c@,
        H3Error::Connect(c) => "h3 upstream QUIC connect failed: "@ + c@,
        H3Error::H3(c) => "h3 upstream connection setup failed: "@ + c@,
        H3Error::Stream(c) => "h3 upstream stream error: "@ + c@,
        H3Error::Endpoint(c) => "h3 upstream endpoint bind failed: "@ + c@,
        H3Error::Crypto(c) => "h3 upstream QUIC crypto config failed: "@ + c@,
    }
}

impl H3Error {
    /// The text of the error.
    pub fn message(&self) -> (s: String)
        ensures
            s@ == error_text(*self),
    {
        match self {
            H3Error::ConnectTimedOut(c) => cat2("h3 upstream QUIC connect failed: ", c.as_str()),
            H3Error::Connect(c) => cat2("h3 upstream QUIC connect failed: ", c.as_str()),
            H3Error::H3(c) => cat2("h3 upstream connection setup failed: ", c.as_str()),
            H3Error::Stream(c) => cat2("h3 upstream stream error: ", c.as_str()),
            H3Error::Endpoint(c) => cat2("h3 upstream endpoint bind failed: ", c.as_str()),
            H3Error::Crypto(c) => cat2("h3 upstream QUIC crypto config failed: ", c.as_str()),
        }
    }

    /// How the layers above the transport see the error: a timed-out
    /// connection attempt as such, anything else by its cause.
    pub fn into_failure(self) -> (f: TransportFailure)
        ensures
            f == match self {
                H3Error::ConnectTimedOut(_) => TransportFailure::ConnectTimeout { after_ms: 0 },
                H3Error::Connect(c) => TransportFailure::Io(c),
                H3Error::H3(c) => TransportFailure::Io(c),
                H3Error::Stream(c) => TransportFailure::Io(c),
                H3Error::Endpoint(c) => TransportFailure::Io(c),
                H3Error::Crypto(c) => TransportFailure::Io(c),
            },
    {
        match self {
            H3Error::ConnectTimedOut(_) => TransportFailure::ConnectTimeout { after_ms: 0 },
            H3Error::Connect(c) => TransportFailure::Io(c),
            H3Error::H3(c) => TransportFailure::Io(c),
            H3Error::Stream(c) => TransportFailure::Io(c),
            H3Error::Endpoint(c) => TransportFailure::Io(c),
            H3Error::Crypto(c) => TransportFailure::Io(c),
        }
    }
}

/// The address to dial: the first one that a name resolved to.
pub fn resolve_one(address: &str, port: u16, resolved: Result<Vec<String>, String>) -> (r: Result<
    String,
    TransportFailure,
>)
    ensures
        match resolved {
            Err(e) => r == Err::<String, TransportFailure>(TransportFailure::Io(e)),
            Ok(v) => if v@.len() > 0 {
                r matches Ok(s) && s@ == v@[0]@
            } else {
                r matches Err(TransportFailure::Io(m)) && m@ == "'"@ + address@ + ":"@
                    + text::dec(port as nat) + "' resolved to no addresses"@
            },
        },
{
    match resolved {
        Err(e) => Err(TransportFailure::Io(e)),
        Ok(v) => if v.len() > 0 {
            Ok(v[0].clone())
        } else {
            Err(
                TransportFailure::Io(
                    cat5(
                        "'",
                        address,
                        ":",
                        decimal(port as u64).as_str(),
                        "' resolved to no addresses",
                    ),
                ),
            )
        },
    }
}

/// Reaping an address drops its closed connections, and no other.
pub proof fn law_reaping_drops_the_closed_ones(
    s: Seq<Conn>,
    addr: Seq<char>,
    closed: Seq<u64>,
    c: Conn,
)
    ensures
        reaped(s, addr, closed).contains(c) <==> s.contains(c) && !(c.addr == addr
            && closed.contains(c.id)),
{
    let p = |c: Conn| c.addr != addr || !closed.contains(c.id);
    s.filter_lemma(p);
    if reaped(s, addr, closed).contains(c) {
        s.lemma_filter_contains_rev(p, c);
        let i = reaped(s, addr, closed).index_of(c);
        assert(p(s.filter(p)[i]));
    }
    if s.contains(c) && p(c) {
        let i = s.index_of(c);
        assert(s.filter(p).contains(s[i]));
    }
}

/// A connection that is taken again is open, goes to the address, and was used
/// least recently of those that are and do; there is none only if no open
/// connection goes there.
pub proof fn law_taken_connection_is_the_least_recently_used(
    s: Seq<Conn>,
    addr: Seq<char>,
    closed: Seq<u64>,
    i: int,
    c: Conn,
)
    requires
        s.contains(c),
        c.addr == addr,
        !closed.contains(c.id),
    ensures
        to_addr(reaped(s, addr, closed), addr).len() > 0,
        is_oldest(reaped(s, addr, closed), addr, i) ==> ({
            let t = reaped(s, addr, closed)[i];
            &&& s.contains(t)
            &&& t.addr == addr
            &&& !closed.contains(t.id)
            &&& t.last_used <= c.last_used
        }),
{
    let live = reaped(s, addr, closed);
    law_reaping_drops_the_closed_ones(s, addr, closed, c);
    let k = live.index_of(c);
    assert(live[k] == c);
    let p = |c: Conn| c.addr == addr;
    live.filter_lemma(p);
    assert(p(live[k]));
    assert(to_addr(live, addr).contains(live[k]));
    if is_oldest(live, addr, i) {
        assert(live.contains(live[i]));
        law_reaping_drops_the_closed_ones(s, addr, closed, live[i]);
        assert(live[k].addr == addr);
    }
}

/// A sweep keeps exactly the connections that are open and were used within
/// the idle time.
pub proof fn law_sweep_keeps_what_is_in_use(
    s: Seq<Conn>,
    closed: Seq<u64>,
    now: u64,
    idle: u64,
    c: Conn,
)
    ensures
        fresh(s, closed, now, idle).contains(c) <==> s.contains(c) && !closed.contains(c.id) && (
        if now >= c.last_used {
            now - c.last_used < idle
        } else {
            idle > 0
        }),
{
    let p = |c: Conn| !closed.contains(c.id) && idle_time(c, now) < idle;
    s.filter_lemma(p);
    if fresh(s, closed, now, idle).contains(c) {
        s.lemma_filter_contains_rev(p, c);
        let i = fresh(s, closed, now, idle).index_of(c);
        assert(p(s.filter(p)[i]));
    }
    if s.contains(c) && p(c) {
        let i = s.index_of(c);
        assert(s.filter(p).contains(s[i]));
    }
}

} // verus!
