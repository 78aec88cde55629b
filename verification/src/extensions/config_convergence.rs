//! Sharing configuration generations among the instances of a fleet.
//!
//! Every instance publishes a record of the generation it serves, and the
//! body of the configuration. The records stand in a hash at
//! `{prefix}:instances`, one field for each instance, with the value
//! `generation|config_hash|timestamp`; the bodies stand at
//! `{prefix}:config:{generation}`.

use vstd::prelude::*;
use vstd::string::*;

use crate::extensions::nonce;
use crate::extensions::nonce::signed_seconds;
use crate::extensions::ExtensionsError;
use crate::text;
use crate::text::{cat2, cat3, cat5, cut, decimal, parse_u64};

verus! {

/// The generation that an instance currently serves.
#[derive(Debug, Clone, PartialEq, Eq)]
pub struct InstanceGeneration {
    /// The instance's unique id.
    pub instance_id: String,
    /// The generation number this instance is currently serving.
    pub generation: u64,
    /// The content hash of the configuration, as a hexadecimal text.
    pub config_hash: String,
    /// Unix-millisecond timestamp of the last publish.
    pub timestamp: u64,
}

/// What the generation of an instance is.
#[verifier::ext_equal]
pub struct InstanceView {
    pub id: Seq<char>,
    pub generation: nat,
    pub hash: Seq<char>,
    pub timestamp: nat,
}

impl View for InstanceGeneration {
    type V = InstanceView;

    open spec fn view(&self) -> InstanceView {
        InstanceView {
            id: self.instance_id@,
            generation: self.generation as nat,
            hash: self.config_hash@,
            timestamp: self.timestamp as nat,
        }
    }
}

/// Error of a convergence backend operation.
#[derive(Debug, Clone, PartialEq, Eq)]
#[non_exhaustive]
pub enum ConvergenceError {
    /// The backend itself failed.
    Backend(String),
    /// A stored value was malformed.
    Invalid(String),
    /// The body of the generation is not present.
    NotFound(String),
}

/// The text of an error.
pub open spec fn error_text(e: ConvergenceError) -> Seq<char> {
    match e {
        ConvergenceError::Backend(m) => "convergence backend error: "@ + m@,
        ConvergenceError::Invalid(m) => "convergence invalid data: "@ + m@,
        ConvergenceError::NotFound(m) => "convergence not found: "@ + m@,
    }
}

impl ConvergenceError {
    /// The text of the error.
    pub fn message(&self) -> (s: String)
        ensures
            s@ == error_text(*self),
    {
        match self {
            ConvergenceError::Backend(m) => cat2("convergence backend error: ", m.as_str()),
            ConvergenceError::Invalid(m) => cat2("convergence invalid data: ", m.as_str()),
            ConvergenceError::NotFound(m) => cat2("convergence not found: ", m.as_str()),
        }
    }

    /// The error as one of an extension: the backend failed.
    pub fn into_extensions_error(self) -> (e: ExtensionsError)
        ensures
            e matches ExtensionsError::Backend(m) && m@ == error_text(self),
    {
        ExtensionsError::Backend(self.message())
    }
}

/// The record of an instance.
pub open spec fn record_text(generation: nat, hash: Seq<char>, timestamp: nat) -> Seq<char> {
    text::dec(generation) + "|"@ + hash + "|"@ + text::dec(timestamp)
}

/// The generation in the record of an instance, or the text of the error.
pub open spec fn parsed_record(id: Seq<char>, record: Seq<char>) -> Result<
    InstanceView,
    Seq<char>,
> {
    let parts = text::split(record, '|');
    if parts.len() != 3 {
        Err("instance record for '"@ + id + "' is malformed: '"@ + record + "'"@)
    } else {
        match (
            text::parse_max(parts[0], u64::MAX as nat),
            text::parse_max(parts[2], u64::MAX as nat),
        ) {
            (None, _) => Err("generation parse: "@ + text::number_error(parts[0])),
            (_, None) => Err("timestamp parse: "@ + text::number_error(parts[2])),
            (Some(generation), Some(timestamp)) => Ok(
                InstanceView { id, generation, hash: parts[1], timestamp },
            ),
        }
    }
}

/// The generations in the first `n` records, or the text of the first error.
pub open spec fn parsed_records(records: Seq<(Seq<char>, Seq<char>)>, n: nat) -> Result<
    Seq<InstanceView>,
    Seq<char>,
>
    decreases n,
{
    if n == 0 {
        Ok(seq![])
    } else {
        match parsed_records(records, (n - 1) as nat) {
            Err(e) => Err(e),
            Ok(before) => match parsed_record(records[n - 1].0, records[n - 1].1) {
                Err(e) => Err(e),
                Ok(i) => Ok(before.push(i)),
            },
        }
    }
}

/// What generations of instances are.
pub open spec fn instances_of(v: Seq<InstanceGeneration>) -> Seq<InstanceView> {
    v.map_values(|i: InstanceGeneration| i@)
}

/// The generation in the record of an instance.
pub fn parse_record(instance_id: &str, record: &str) -> (r: Result<
    InstanceGeneration,
    ConvergenceError,
>)
    ensures
        match (r, parsed_record(instance_id@, record@)) {
            (Ok(i), Ok(w)) => i@ == w,
            (Err(ConvergenceError::Invalid(m)), Err(w)) => m@ == w,
            _ => false,
        },
{
    let parts = cut(record, '|');
    let ghost pieces = text::split(record@, '|');
    assert(text::texts(parts@) == pieces);
    assert(parts@.len() == pieces.len());
    if parts.len() != 3 {
        return Err(
            ConvergenceError::Invalid(
                cat5("instance record for '", instance_id, "' is malformed: '", record, "'"),
            ),
        );
    }
    assert(pieces[0] == parts@[0]@ && pieces[1] == parts@[1]@ && pieces[2] == parts@[2]@);
    let generation: u64 = match parse_u64(parts[0].as_str()) {
        Ok(n) => n,
        Err(e) => {
            return Err(ConvergenceError::Invalid(cat2("generation parse: ", e.as_str())));
        },
    };
    let timestamp: u64 = match parse_u64(parts[2].as_str()) {
        Ok(n) => n,
        Err(e) => {
            return Err(ConvergenceError::Invalid(cat2("timestamp parse: ", e.as_str())));
        },
    };
    Ok(
        InstanceGeneration {
            instance_id: instance_id.to_owned(),
            generation,
            config_hash: parts[1].clone(),
            timestamp,
        },
    )
}

/// The commands that publish a generation, in one atomic pipeline:
/// `HSET instances_key instance_id record`, `EXPIRE instances_key ttl`,
/// `SET config_key body`, `EXPIRE config_key ttl`.
#[derive(Debug, Clone, PartialEq, Eq)]
pub struct PublishCommands {
    pub instances_key: String,
    pub record: String,
    pub instances_ttl_s: i64,
    pub config_key: String,
    pub config_ttl_s: i64,
}

/// Redis-backed convergence backend.
#[derive(Debug, Clone, PartialEq, Eq)]
pub struct RedisConvergenceBackend {
    key_prefix: String,
    instances_ttl_s: u64,
    config_ttl_s: u64,
}

/// What a backend is.
#[verifier::ext_equal]
pub struct BackendView {
    pub prefix: Seq<char>,
    pub instances_ttl: u64,
    pub config_ttl: u64,
}

impl View for RedisConvergenceBackend {
    type V = BackendView;

    closed spec fn view(&self) -> BackendView {
        BackendView {
            prefix: self.key_prefix@,
            instances_ttl: self.instances_ttl_s,
            config_ttl: self.config_ttl_s,
        }
    }
}

/// The key of the body of a generation.
pub open spec fn config_key_of(prefix: Seq<char>, generation: nat) -> Seq<char> {
    prefix + ":config:"@ + text::dec(generation)
}

impl RedisConvergenceBackend {
    /// A backend whose keys begin with a prefix. The lifetimes are those of
    /// the records and of the bodies, in seconds.
    pub fn new(key_prefix: String, instances_ttl_s: u64, config_ttl_s: u64) -> (b: Self)
        ensures
            b@ == (BackendView {
                prefix: key_prefix@,
                instances_ttl: instances_ttl_s,
                config_ttl: config_ttl_s,
            }),
    {
        RedisConvergenceBackend { key_prefix, instances_ttl_s, config_ttl_s }
    }

    /// The key of the hash of records.
    pub fn instances_key(&self) -> (s: String)
        ensures
            s@ == self@.prefix + ":instances"@,
    {
        cat2(self.key_prefix.as_str(), ":instances")
    }

    /// The key of the body of a generation.
    pub fn config_key(&self, generation: u64) -> (s: String)
        ensures
            s@ == config_key_of(self@.prefix, generation as nat),
    {
        cat3(self.key_prefix.as_str(), ":config:", decimal(generation).as_str())
    }

    /// The commands that publish a generation at a time.
    pub fn publish_commands(&self, generation: u64, config_hash: &str, now_ms: u64) -> (c:
        PublishCommands)
        ensures
            c.instances_key@ == self@.prefix + ":instances"@,
            c.record@ == record_text(generation as nat, config_hash@, now_ms as nat),
            c.instances_ttl_s == nonce::signed(self@.instances_ttl),
            c.config_key@ == config_key_of(self@.prefix, generation as nat),
            c.config_ttl_s == nonce::signed(self@.config_ttl),
    {
        PublishCommands {
            instances_key: self.instances_key(),
            record: cat5(
                decimal(generation).as_str(),
                "|",
                config_hash,
                "|",
                decimal(now_ms).as_str(),
            ),
            instances_ttl_s: signed_seconds(self.instances_ttl_s),
            config_key: self.config_key(generation),
            config_ttl_s: signed_seconds(self.config_ttl_s),
        }
    }

    /// What publishing gave.
    pub fn published(&self, reply: Result<(), String>) -> (r: Result<(), ConvergenceError>)
        ensures
            match (reply, r) {
                (Ok(_), Ok(_)) => true,
                (Err(e), Err(ConvergenceError::Backend(m))) => m@ == "redis publish error: "@
                    + e@,
                _ => false,
            },
    {
        match reply {
            Ok(_) => Ok(()),
            Err(e) => Err(
                ConvergenceError::Backend(cat2("redis publish error: ", e.as_str())),
            ),
        }
    }

    /// The generations of all instances, from the fields of the hash, in
    /// their order. The first malformed record is the error.
    pub fn watch_generations(&self, reply: Result<Vec<(String, String)>, String>) -> (r: Result<
        Vec<InstanceGeneration>,
        ConvergenceError,
    >)
        ensures
            match reply {
                Err(e) => r matches Err(ConvergenceError::Backend(m)) && m@
                    == "redis watch error: "@ + e@,
                Ok(records) => match (
                    r,
                    parsed_records(text::text_pairs(records@), records@.len()),
                ) {
                    (Ok(v), Ok(w)) => instances_of(v@) == w,
                    (Err(ConvergenceError::Invalid(m)), Err(w)) => m@ == w,
                    _ => false,
                },
            },
    {
        let records = match reply {
            Ok(v) => v,
            Err(e) => {
                return Err(ConvergenceError::Backend(cat2("redis watch error: ", e.as_str())));
            },
        };
        let ghost all = text::text_pairs(records@);
        let mut out: Vec<InstanceGeneration> = Vec::new();
        let mut i: usize = 0;
        assert(instances_of(out@) =~= Seq::<InstanceView>::empty());
        while i < records.len()
            invariant
                i <= records.len(),
                reply == Ok::<Vec<(String, String)>, String>(records),
                all == text::text_pairs(records@),
                parsed_records(all, i as nat) == Ok::<Seq<InstanceView>, Seq<char>>(
                    instances_of(out@),
                ),
            decreases records.len() - i,
        {
            let ghost before = out@;
            assert(all[i as int] == (records@[i as int].0@, records@[i as int].1@));
            match parse_record(records[i].0.as_str(), records[i].1.as_str()) {
                Ok(g) => {
                    out.push(g);
                    assert(instances_of(out@) =~= instances_of(before).push(g@));
                },
                Err(e) => {
                    proof {
                        lemma_first_error(all, (i + 1) as nat, records@.len());
                    }
                    return Err(e);
                },
            }
            i = i + 1;
        }
        Ok(out)
    }

    /// The body of a generation.
    pub fn loaded_config(&self, generation: u64, reply: Result<Option<String>, String>) -> (r:
        Result<String, ConvergenceError>)
        ensures
            match (reply, r) {
                (Ok(Some(body)), Ok(b)) => b@ == body@,
                (Ok(None), Err(ConvergenceError::NotFound(m))) => m@
                    == "config body for generation "@ + text::dec(generation as nat)
                    + " is not present (expired or never published)"@,
                (Err(e), Err(ConvergenceError::Backend(m))) => m@ == "redis load_config error: "@
                    + e@,
                _ => false,
            },
    {
        match reply {
            Ok(Some(body)) => Ok(body),
            Ok(None) => Err(
                ConvergenceError::NotFound(
                    cat3(
                        "config body for generation ",
                        decimal(generation).as_str(),
                        " is not present (expired or never published)",
                    ),
                ),
            ),
            Err(e) => Err(
                ConvergenceError::Backend(cat2("redis load_config error: ", e.as_str())),
            ),
        }
    }

    /// What removing the record of an instance gave: that it was absent
    /// already is no error.
    pub fn removed_instance(&self, reply: Result<i64, String>) -> (r: Result<
        (),
        ConvergenceError,
    >)
        ensures
            match (reply, r) {
                (Ok(_), Ok(_)) => true,
                (Err(e), Err(ConvergenceError::Backend(m))) => m@
                    == "redis remove_instance error: "@ + e@,
                _ => false,
            },
    {
        match reply {
            Ok(_) => Ok(()),
            Err(e) => Err(
                ConvergenceError::Backend(cat2("redis remove_instance error: ", e.as_str())),
            ),
        }
    }
}

proof fn lemma_first_error(records: Seq<(Seq<char>, Seq<char>)>, k: nat, n: nat)
    requires
        k <= n,
        parsed_records(records, k) is Err,
    ensures
        parsed_records(records, n) == parsed_records(records, k),
    decreases n,
{
    if k < n {
        lemma_first_error(records, k, (n - 1) as nat);
    }
}

// ---------------------------------------------------------------------------
// Laws
// ---------------------------------------------------------------------------

/// What an instance publishes is what the others read back, for a hash
/// without a bar in it.
pub proof fn law_record_round_trips(
    id: Seq<char>,
    generation: nat,
    hash: Seq<char>,
    timestamp: nat,
)
    requires
        generation <= u64::MAX,
        timestamp <= u64::MAX,
        forall|i: int| 0 <= i < hash.len() ==> hash[i] != '|',
    ensures
        parsed_record(id, record_text(generation, hash, timestamp)) == Ok::<
            InstanceView,
            Seq<char>,
        >(InstanceView { id, generation, hash, timestamp }),
{
    reveal_strlit("|");
    let a = text::dec(generation);
    let c = text::dec(timestamp);
    text::lemma_dec(generation);
    text::lemma_dec(timestamp);
    let tail = hash.push('|') + c;
    assert(record_text(generation, hash, timestamp) =~= a.push('|') + tail);
    text::lemma_split_piece(a, '|', tail);
    text::lemma_split_piece(hash, '|', c);
    text::lemma_split_piece(c, '|', seq![]);
    let parts = text::split(record_text(generation, hash, timestamp), '|');
    assert(parts =~= seq![a, hash, c]);
}

/// The bodies of different generations stand at different keys.
pub proof fn law_bodies_stand_apart(prefix: Seq<char>, a: nat, b: nat)
    requires
        config_key_of(prefix, a) == config_key_of(prefix, b),
    ensures
        a == b,
{
    let p = prefix + ":config:"@;
    let ka = config_key_of(prefix, a);
    let kb = config_key_of(prefix, b);
    assert(ka.skip(p.len() as int) =~= text::dec(a));
    assert(kb.skip(p.len() as int) =~= text::dec(b));
    text::lemma_dec(a);
    text::lemma_dec(b);
}

/// Every instance is seen, in order, and as its own record says; one record
/// that cannot be read spoils the whole view.
pub proof fn law_every_instance_is_seen(records: Seq<(Seq<char>, Seq<char>)>, n: nat)
    requires
        n <= records.len(),
    ensures
        parsed_records(records, n) is Ok <==> forall|i: int|
            0 <= i < n ==> #[trigger] is_readable(records[i]),
        parsed_records(records, n) is Ok ==> ({
            let v = parsed_records(records, n)->Ok_0;
            &&& v.len() == n
            &&& forall|i: int|
                0 <= i < n ==> (#[trigger] v[i]).id == records[i].0 && parsed_record(
                    records[i].0,
                    records[i].1,
                ) == Ok::<InstanceView, Seq<char>>(v[i])
        }),
    decreases n,
{
    if n > 0 {
        law_every_instance_is_seen(records, (n - 1) as nat);
        assert(is_readable(records[n - 1]) <==> parsed_record(
            records[n - 1].0,
            records[n - 1].1,
        ) is Ok);
    }
}

/// Whether the record of an instance can be read.
pub open spec fn is_readable(r: (Seq<char>, Seq<char>)) -> bool {
    parsed_record(r.0, r.1) is Ok
}

/// What a record says: a generation, a hash and a time, with bars between
/// them. One with another number of parts cannot be read, nor one whose
/// numbers are none.
pub proof fn law_record_is_taken_apart(id: Seq<char>, record: Seq<char>)
    ensures
        ({
            let parts = text::split(record, '|');
            let r = parsed_record(id, record);
            &&& r is Ok <==> parts.len() == 3 && text::parse_max(parts[0], u64::MAX as nat) is Some
                && text::parse_max(parts[2], u64::MAX as nat) is Some
            &&& r is Ok ==> r->Ok_0.id == id && r->Ok_0.hash == parts[1] && Some(
                r->Ok_0.generation,
            ) == text::parse_max(parts[0], u64::MAX as nat) && Some(r->Ok_0.timestamp)
                == text::parse_max(parts[2], u64::MAX as nat)
        }),
{
}

} // verus!
