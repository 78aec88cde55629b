//! One-time nonces that a fleet of gateways shares through Redis.
//!
//! A nonce is set only if it is not there yet, and it expires with the
//! signed URL that carried it.

use vstd::prelude::*;
use vstd::string::*;

use crate::extensions::ExtensionsError;
use crate::text::cat2;

verus! {

/// A number of seconds as Redis takes it: the 64 bits read as a signed
/// number.
pub open spec fn signed(n: u64) -> int {
    if n <= i64::MAX {
        n as int
    } else {
        n - 0x1_0000_0000_0000_0000
    }
}

/// A number of seconds as Redis takes it.
pub fn signed_seconds(n: u64) -> (r: i64)
    ensures
        r == signed(n),
{
    if n <= 0x7fff_ffff_ffff_ffff {
        n as i64
    } else {
        -((u64::MAX - n) as i64) - 1
    }
}

/// How long a nonce is kept: up to its expiry, and a second at least.
pub open spec fn nonce_ttl(expires: nat, now: nat) -> nat {
    if expires > now {
        (expires - now) as nat
    } else {
        1
    }
}

/// The command `SET key "1" NX EX ttl`.
#[derive(Debug, Clone, PartialEq, Eq)]
pub struct NonceCommand {
    pub key: String,
    pub ttl_s: i64,
}

/// A Redis-backed nonce store.
#[derive(Debug, Clone, PartialEq, Eq)]
pub struct RedisNonceStore {
    prefix: String,
}

impl View for RedisNonceStore {
    type V = Seq<char>;

    closed spec fn view(&self) -> Seq<char> {
        self.prefix@
    }
}

impl RedisNonceStore {
    /// A store whose keys begin with a prefix.
    pub fn new(prefix: &str) -> (s: Self)
        ensures
            s@ == prefix@,
    {
        RedisNonceStore { prefix: prefix.to_owned() }
    }

    /// The key of a nonce.
    pub fn full_key(&self, nonce: &str) -> (s: String)
        ensures
            s@ == self@ + nonce@,
    {
        cat2(self.prefix.as_str(), nonce)
    }

    /// The command that checks and records a nonce, which expires at a time
    /// in seconds.
    pub fn check_command(&self, nonce: &str, expires: u64, now_s: u64) -> (c: NonceCommand)
        ensures
            c.key@ == self@ + nonce@,
            c.ttl_s == signed(nonce_ttl(expires as nat, now_s as nat) as u64),
    {
        let ttl: u64 = if expires > now_s {
            expires - now_s
        } else {
            1
        };
        NonceCommand { key: self.full_key(nonce), ttl_s: signed_seconds(ttl) }
    }

    /// Whether the nonce is fresh: the command answers only if it set the
    /// key, and a key that is there already is a replay.
    pub fn is_fresh(&self, reply: Result<Option<String>, String>) -> (r: Result<
        bool,
        ExtensionsError,
    >)
        ensures
            match (reply, r) {
                (Ok(set), Ok(fresh)) => fresh == (set is Some),
                (Err(e), Err(ExtensionsError::Backend(m))) => m@ == "redis set: "@ + e@,
                _ => false,
            },
    {
        match reply {
            Ok(Some(_)) => Ok(true),
            Ok(None) => Ok(false),
            Err(e) => Err(ExtensionsError::Backend(cat2("redis set: ", e.as_str()))),
        }
    }
}

/// What a store of nonces that have not expired answers: whether it set the
/// nonce, and the nonces from then on, with their expiries.
pub open spec fn recorded(m: Map<Seq<char>, nat>, nonce: Seq<char>, expires: nat, now: nat) -> (
    bool,
    Map<Seq<char>, nat>,
) {
    if m.dom().contains(nonce) && now < m[nonce] {
        (false, m)
    } else {
        (true, m.insert(nonce, now + nonce_ttl(expires, now)))
    }
}

/// A nonce that was recorded is refused again until it expires, and no
/// sooner accepted.
pub proof fn law_replay_is_refused_until_expiry(
    m: Map<Seq<char>, nat>,
    nonce: Seq<char>,
    expires: nat,
    first: nat,
    again: nat,
)
    requires
        first < expires,
        first <= again,
        recorded(m, nonce, expires, first).0,
    ensures
        recorded(recorded(m, nonce, expires, first).1, nonce, expires, again).0 == (again
            >= expires),
{
}

} // verus!
