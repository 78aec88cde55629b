//! The cache that a fleet of gateways shares through Redis.
//!
//! An instance that deletes an entry tells the others on a channel, so that
//! they evict their local copies. A coordinated cache has a local tier in
//! front of the shared one.

use vstd::prelude::*;
use vstd::string::*;

use crate::extensions::ExtensionsError;
use crate::text::{cat2, same};

verus! {

/// The channel for invalidation messages.
pub const INVALIDATION_CHANNEL: &'static str = "dwara:cache:invalidate";

/// The invalidation channel name.
pub fn invalidation_channel() -> (s: &'static str)
    ensures
        s@ == "dwara:cache:invalidate"@,
{
    INVALIDATION_CHANNEL
}

/// The key that an invalidation message names: its payload, if it is a text
/// and not empty.
pub fn parse_invalidation(payload: Option<String>) -> (r: Option<String>)
    ensures
        match payload {
            Some(p) => match r {
                Some(k) => k@ == p@ && p@.len() > 0,
                None => p@.len() == 0,
            },
            None => r is None,
        },
{
    proof {
        reveal_strlit("");
    }
    match payload {
        Some(p) => if same(p.as_str(), "") {
            None
        } else {
            assert(p@.len() == 0 ==> p@ =~= ""@);
            Some(p)
        },
        None => None,
    }
}

/// A Redis-backed cache store.
#[derive(Debug, Clone, PartialEq, Eq)]
pub struct RedisCacheStore {
    prefix: String,
}

impl View for RedisCacheStore {
    type V = Seq<char>;

    closed spec fn view(&self) -> Seq<char> {
        self.prefix@
    }
}

/// Whether an error is one of the backend that says what failed.
pub open spec fn backend_error(e: ExtensionsError, what: Seq<char>, cause: Seq<char>) -> bool {
    e matches ExtensionsError::Backend(m) && m@ == what + cause
}

impl RedisCacheStore {
    /// A store whose keys begin with a prefix.
    pub fn new(prefix: &str) -> (s: Self)
        ensures
            s@ == prefix@,
    {
        RedisCacheStore { prefix: prefix.to_owned() }
    }

    /// The full Redis key of a cache key.
    pub fn full_key(&self, key: &str) -> (s: String)
        ensures
            s@ == self@ + key@,
    {
        cat2(self.prefix.as_str(), key)
    }

    /// What `GET` gave.
    pub fn got(&self, reply: Result<Option<Vec<u8>>, String>) -> (r: Result<
        Option<Vec<u8>>,
        ExtensionsError,
    >)
        ensures
            match (reply, r) {
                (Ok(v), Ok(w)) => v == w,
                (Err(e), Err(f)) => backend_error(f, "redis get: "@, e@),
                _ => false,
            },
    {
        match reply {
            Ok(v) => Ok(v),
            Err(e) => Err(ExtensionsError::Backend(cat2("redis get: ", e.as_str()))),
        }
    }

    /// What `SET` gave.
    pub fn stored(&self, reply: Result<(), String>) -> (r: Result<(), ExtensionsError>)
        ensures
            match (reply, r) {
                (Ok(_), Ok(_)) => true,
                (Err(e), Err(f)) => backend_error(f, "redis set: "@, e@),
                _ => false,
            },
    {
        match reply {
            Ok(_) => Ok(()),
            Err(e) => Err(ExtensionsError::Backend(cat2("redis set: ", e.as_str()))),
        }
    }

    /// What `SETEX` gave.
    pub fn stored_with_ttl(&self, reply: Result<(), String>) -> (r: Result<(), ExtensionsError>)
        ensures
            match (reply, r) {
                (Ok(_), Ok(_)) => true,
                (Err(e), Err(f)) => backend_error(f, "redis set_ex: "@, e@),
                _ => false,
            },
    {
        match reply {
            Ok(_) => Ok(()),
            Err(e) => Err(ExtensionsError::Backend(cat2("redis set_ex: ", e.as_str()))),
        }
    }

    /// What `DEL` gave: whether the key was there. Only then do the other
    /// instances have to be told.
    pub fn deleted(&self, reply: Result<i64, String>) -> (r: Result<bool, ExtensionsError>)
        ensures
            match (reply, r) {
                (Ok(n), Ok(existed)) => existed == (n > 0),
                (Err(e), Err(f)) => backend_error(f, "redis del: "@, e@),
                _ => false,
            },
    {
        match reply {
            Ok(n) => Ok(n > 0),
            Err(e) => Err(ExtensionsError::Backend(cat2("redis del: ", e.as_str()))),
        }
    }

    /// Redis does not report the number of entries under a prefix.
    pub fn entry_count(&self) -> (r: Option<u64>)
        ensures
            r is None,
    {
        None
    }
}

// ---------------------------------------------------------------------------
// The coordinated cache
// ---------------------------------------------------------------------------

/// An operation on a cache.
#[derive(Debug, PartialEq, Eq)]
pub enum CacheOp {
    Get { key: String },
    Put { key: String, value: Vec<u8>, ttl_ns: Option<u128> },
    Delete { key: String },
}

/// What a tier answered.
#[derive(Debug, PartialEq, Eq)]
pub enum TierReply {
    Value(Option<Vec<u8>>),
    Stored,
    Deleted(bool),
    Failed(ExtensionsError),
}

/// A tier of the cache.
#[derive(Debug, Clone, Copy, PartialEq, Eq, Structural)]
pub enum Tier {
    /// The tier of this instance.
    Local,
    /// The shared tier.
    Remote,
}

/// What to do next.
#[derive(Debug, PartialEq, Eq)]
pub enum Next {
    /// Ask a tier, and go on with its answer.
    Ask(Tier),
    /// Put the value into the local tier, whatever comes of it, and end with
    /// the value.
    Fill(Vec<u8>),
    /// End with the answer.
    End(TierReply),
}

/// What an operation is.
#[verifier::ext_equal]
pub enum OpView {
    Get { key: Seq<char> },
    Put { key: Seq<char>, value: Seq<u8>, ttl_ns: Option<u128> },
    Delete { key: Seq<char> },
}

/// What an answer is.
#[verifier::ext_equal]
pub enum ReplyView {
    Value { value: Option<Seq<u8>> },
    Stored,
    Deleted { existed: bool },
    Failed { error: ExtensionsError },
}

impl View for CacheOp {
    type V = OpView;

    open spec fn view(&self) -> OpView {
        match self {
            CacheOp::Get { key } => OpView::Get { key: key@ },
            CacheOp::Put { key, value, ttl_ns } => OpView::Put {
                key: key@,
                value: value@,
                ttl_ns: *ttl_ns,
            },
            CacheOp::Delete { key } => OpView::Delete { key: key@ },
        }
    }
}

impl View for TierReply {
    type V = ReplyView;

    open spec fn view(&self) -> ReplyView {
        match self {
            TierReply::Value(v) => ReplyView::Value {
                value: match v {
                    Some(b) => Some(b@),
                    None => None,
                },
            },
            TierReply::Stored => ReplyView::Stored,
            TierReply::Deleted(b) => ReplyView::Deleted { existed: *b },
            TierReply::Failed(e) => ReplyView::Failed { error: *e },
        }
    }
}

/// What to do next, as what it is.
#[verifier::ext_equal]
pub enum NextView {
    Ask { tier: Tier },
    Fill { value: Seq<u8> },
    End { reply: ReplyView },
}

impl View for Next {
    type V = NextView;

    open spec fn view(&self) -> NextView {
        match self {
            Next::Ask(t) => NextView::Ask { tier: *t },
            Next::Fill(v) => NextView::Fill { value: v@ },
            Next::End(r) => NextView::End { reply: r@ },
        }
    }
}

/// What follows the answer of a tier: the shared tier is asked unless the
/// local one failed or held the value; a value that only the shared tier
/// held goes into the local one.
pub open spec fn step(op: OpView, tier: Tier, reply: ReplyView) -> NextView {
    match (tier, reply) {
        (_, ReplyView::Failed { error }) => NextView::End { reply },
        (Tier::Local, ReplyView::Value { value: Some(_) }) => NextView::End { reply },
        (Tier::Local, _) => NextView::Ask { tier: Tier::Remote },
        (Tier::Remote, ReplyView::Value { value: Some(v) }) => if op is Get {
            NextView::Fill { value: v }
        } else {
            NextView::End { reply }
        },
        (Tier::Remote, _) => NextView::End { reply },
    }
}

/// A coordinated cache: a local tier in front of the shared one. The local
/// tier is always asked first.
#[derive(Debug, Clone, Copy)]
pub struct CoordinatedCache;

impl CoordinatedCache {
    /// The tier that an operation goes to first.
    pub fn first_tier(&self) -> (t: Tier)
        ensures
            t == Tier::Local,
    {
        Tier::Local
    }

    /// What follows the answer of a tier to an operation.
    pub fn on_reply(&self, op: &CacheOp, tier: Tier, reply: TierReply) -> (n: Next)
        ensures
            n@ == step(op@, tier, reply@),
    {
        match reply {
            TierReply::Failed(e) => Next::End(TierReply::Failed(e)),
            TierReply::Value(Some(v)) => match tier {
                Tier::Local => Next::End(TierReply::Value(Some(v))),
                Tier::Remote => match op {
                    CacheOp::Get { key: _ } => Next::Fill(v),
                    _ => Next::End(TierReply::Value(Some(v))),
                },
            },
            other => match tier {
                Tier::Local => Next::Ask(Tier::Remote),
                Tier::Remote => Next::End(other),
            },
        }
    }

    /// The number of entries: that of the local tier.
    pub fn entry_count(&self, local: Option<u64>) -> (r: Option<u64>)
        ensures
            r == local,
    {
        local
    }
}

// ---------------------------------------------------------------------------
// Laws
// ---------------------------------------------------------------------------

/// What a tier that does not fail makes of an operation: its entries from
/// then on, and its answer.
pub open spec fn served(m: Map<Seq<char>, Seq<u8>>, op: OpView) -> (
    Map<Seq<char>, Seq<u8>>,
    ReplyView,
) {
    match op {
        OpView::Get { key } => (
            m,
            ReplyView::Value {
                value: if m.dom().contains(key) {
                    Some(m[key])
                } else {
                    None
                },
            },
        ),
        OpView::Put { key, value, ttl_ns } => (m.insert(key, value), ReplyView::Stored),
        OpView::Delete { key } => (
            m.remove(key),
            ReplyView::Deleted { existed: m.dom().contains(key) },
        ),
    }
}

/// The entries of both tiers and the answer.
#[verifier::ext_equal]
pub struct Outcome {
    pub local: Map<Seq<char>, Seq<u8>>,
    pub remote: Map<Seq<char>, Seq<u8>>,
    pub reply: ReplyView,
}

/// An operation on two tiers that do not fail.
pub open spec fn run(
    local: Map<Seq<char>, Seq<u8>>,
    remote: Map<Seq<char>, Seq<u8>>,
    op: OpView,
) -> Outcome {
    let l = served(local, op);
    match step(op, Tier::Local, l.1) {
        NextView::Ask { tier } => {
            let r = served(remote, op);
            match step(op, Tier::Remote, r.1) {
                NextView::Fill { value } => Outcome {
                    local: match op {
                        OpView::Get { key } => l.0.insert(key, value),
                        _ => l.0,
                    },
                    remote: r.0,
                    reply: r.1,
                },
                _ => Outcome { local: l.0, remote: r.0, reply: r.1 },
            }
        },
        _ => Outcome { local: l.0, remote, reply: l.1 },
    }
}

/// A write reaches both tiers, and a read gives it back.
pub proof fn law_read_gives_back_what_was_written(
    local: Map<Seq<char>, Seq<u8>>,
    remote: Map<Seq<char>, Seq<u8>>,
    key: Seq<char>,
    value: Seq<u8>,
    ttl_ns: Option<u128>,
)
    ensures
        ({
            let o = run(local, remote, OpView::Put { key, value, ttl_ns });
            &&& o.local == local.insert(key, value)
            &&& o.remote == remote.insert(key, value)
            &&& run(o.local, o.remote, OpView::Get { key }).reply == (ReplyView::Value {
                value: Some(value),
            })
        }),
{
}

/// A value that only the shared tier holds is found, and from then on the
/// local tier holds it.
pub proof fn law_miss_falls_back_to_the_shared_tier(
    local: Map<Seq<char>, Seq<u8>>,
    remote: Map<Seq<char>, Seq<u8>>,
    key: Seq<char>,
)
    requires
        !local.dom().contains(key),
        remote.dom().contains(key),
    ensures
        run(local, remote, OpView::Get { key }) == (Outcome {
            local: local.insert(key, remote[key]),
            remote,
            reply: ReplyView::Value { value: Some(remote[key]) },
        }),
{
}

/// A deleted key is gone from both tiers; the answer is that of the shared
/// tier.
pub proof fn law_delete_reaches_both_tiers(
    local: Map<Seq<char>, Seq<u8>>,
    remote: Map<Seq<char>, Seq<u8>>,
    key: Seq<char>,
)
    ensures
        run(local, remote, OpView::Delete { key }) == (Outcome {
            local: local.remove(key),
            remote: remote.remove(key),
            reply: ReplyView::Deleted { existed: remote.dom().contains(key) },
        }),
{
}

/// A failure of the local tier ends the operation: the shared tier is not
/// asked.
pub proof fn law_local_failure_ends_the_operation(op: OpView, error: ExtensionsError)
    ensures
        step(op, Tier::Local, ReplyView::Failed { error }) == (NextView::End {
            reply: ReplyView::Failed { error },
        }),
{
}

/// A write goes to both tiers: after the local one has taken it the shared one
/// is asked, and its answer ends the operation. A value that the local tier
/// has ends a read at once, and one that only the shared tier has is filled
/// into the local one.
pub proof fn law_tiers_are_asked_in_turn(op: OpView, reply: ReplyView)
    ensures
        reply is Stored || reply is Deleted ==> step(op, Tier::Local, reply) == (NextView::Ask {
            tier: Tier::Remote,
        }),
        reply is Stored || reply is Deleted ==> step(op, Tier::Remote, reply) == (NextView::End {
            reply,
        }),
        reply is Failed ==> step(op, Tier::Local, reply) == (NextView::End { reply }) && step(
            op,
            Tier::Remote,
            reply,
        ) == (NextView::End { reply }),
        reply is Value && reply->value is Some ==> step(op, Tier::Local, reply) == (NextView::End {
            reply,
        }),
        reply is Value && reply->value is None ==> step(op, Tier::Local, reply) == (NextView::Ask {
            tier: Tier::Remote,
        }),
        op is Get && reply is Value && reply->value is Some ==> step(op, Tier::Remote, reply) == (
        NextView::Fill { value: reply->value->Some_0 }),
        reply is Value && reply->value is None ==> step(op, Tier::Remote, reply) == (NextView::End {
            reply,
        }),
{
}

} // verus!
