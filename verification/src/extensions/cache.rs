//! The caches: one bounded in its entries, one in its bytes.

use vstd::prelude::*;
use vstd::string::*;

use crate::lists::copy_bytes;
use crate::text::same;

pub mod laws;

verus! {

/// Default [`InMemoryCache`] capacity (entries, not bytes).
pub const DEFAULT_CACHE_CAPACITY: usize = 1024;

/// Default capacity of the byte-weighed cache (bytes).
pub const DEFAULT_CACHE_STORE_BYTES: u64 = 67_108_864;

/// Fixed overhead of an entry of the byte-weighed cache (bytes).
pub const ENTRY_OVERHEAD_BYTES: u64 = 256;

/// Idle-eviction window of the byte-weighed cache (seconds).
pub const TIME_TO_IDLE_S: u64 = 3600;

/// Slack added to every lifetime hint of the byte-weighed cache (seconds).
pub const TTL_SLACK_S: u64 = 60;

/// The weight of an entry of the byte-weighed cache: the bytes of its key
/// and its value and a fixed overhead, as far as 32 bits go round.
pub fn entry_weight(key_len: usize, value_len: usize) -> (w: u32)
    ensures
        w == (key_len + value_len + ENTRY_OVERHEAD_BYTES) as int % 0x1_0000_0000,
{
    let sum: u128 = key_len as u128 + value_len as u128 + ENTRY_OVERHEAD_BYTES as u128;
    (sum % 0x1_0000_0000) as u32
}

/// Whether a lifetime hint of nanoseconds leaves room for the slack in a
/// duration, whose seconds have 64 bits.
pub open spec fn ttl_fits(ttl_ns: u128) -> bool {
    ttl_ns / 1_000_000_000 + TTL_SLACK_S <= u64::MAX
}

/// The lifetime that the byte-weighed cache is given for a hint of
/// nanoseconds, in seconds and nanoseconds: the slack on top of the hint, so
/// that the reader's own expiry always fires first.
pub fn backend_ttl(ttl_ns: u128) -> (r: (u64, u32))
    requires
        ttl_fits(ttl_ns),
    ensures
        r.1 < 1_000_000_000,
        r.0 * 1_000_000_000 + r.1 == backend_lifetime_ns(ttl_ns),
{
    ((ttl_ns / 1_000_000_000) as u64 + TTL_SLACK_S, (ttl_ns % 1_000_000_000) as u32)
}

/// The lifetime of an entry with a hint of nanoseconds (nanoseconds).
pub open spec fn backend_lifetime_ns(ttl_ns: u128) -> nat {
    (ttl_ns + TTL_SLACK_S * 1_000_000_000) as nat
}

/// One entry.
#[derive(Debug)]
struct Entry {
    key: String,
    value: Vec<u8>,
}

/// In-memory cache bounded in its number of entries: reading and writing an
/// entry make it the most recently used one, and the least recently used
/// entry gives way when there are too many.
#[derive(Debug)]
pub struct InMemoryCache {
    entries: Vec<Entry>,
    capacity: usize,
}

/// A key and its value.
#[verifier::ext_equal]
pub struct Cached {
    pub key: Seq<char>,
    pub value: Seq<u8>,
}

impl View for Entry {
    type V = Cached;

    closed spec fn view(&self) -> Cached {
        Cached { key: self.key@, value: self.value@ }
    }
}

/// The entries of other keys.
pub open spec fn without(s: Seq<Cached>, key: Seq<char>) -> Seq<Cached> {
    s.filter(|c: Cached| c.key != key)
}

/// The value of a key.
pub open spec fn lookup(s: Seq<Cached>, key: Seq<char>) -> Option<Seq<u8>>
    decreases s.len(),
{
    if s.len() == 0 {
        None
    } else if s.last().key == key {
        Some(s.last().value)
    } else {
        lookup(s.drop_last(), key)
    }
}

/// The entries with one put in as the most recently used.
pub open spec fn with_entry(s: Seq<Cached>, key: Seq<char>, value: Seq<u8>) -> Seq<Cached> {
    without(s, key).push(Cached { key, value })
}

/// The most recently used entries, as many as the capacity allows.
pub open spec fn fitted(s: Seq<Cached>, capacity: nat) -> Seq<Cached> {
    if s.len() > capacity {
        s.skip(s.len() - capacity)
    } else {
        s
    }
}

/// Whether no key occurs twice.
pub open spec fn distinct(s: Seq<Cached>) -> bool {
    forall|i: int, j: int| 0 <= i < j < s.len() ==> (#[trigger] s[i]).key != (#[trigger] s[j]).key
}

impl View for InMemoryCache {
    type V = Seq<Cached>;

    closed spec fn view(&self) -> Seq<Cached> {
        self.entries@.map_values(|e: Entry| e@)
    }
}

proof fn lemma_without(s: Seq<Cached>, key: Seq<char>)
    requires
        distinct(s),
    ensures
        distinct(without(s, key)),
        without(s, key).len() <= s.len(),
        forall|i: int|
            0 <= i < without(s, key).len() ==> (#[trigger] without(s, key)[i]).key != key,
        forall|i: int|
            0 <= i < without(s, key).len() ==> exists|j: int|
                0 <= j < s.len() && s[j] == #[trigger] without(s, key)[i],
    decreases s.len(),
{
    reveal(Seq::filter);
    if s.len() > 0 {
        let t = s.drop_last();
        assert forall|i: int, j: int| 0 <= i < j < t.len() implies (#[trigger] t[i]).key != (
        #[trigger] t[j]).key by {
            assert(t[i] == s[i] && t[j] == s[j]);
        }
        lemma_without(t, key);
        let before = without(t, key);
        let all = without(s, key);
        assert forall|i: int| 0 <= i < all.len() implies (exists|j: int|
            0 <= j < s.len() && s[j] == #[trigger] all[i]) && all[i].key != key by {
            if i < before.len() {
                assert(all[i] == before[i]);
                let j = choose|j: int| 0 <= j < t.len() && t[j] == before[i];
                assert(s[j] == all[i]);
            } else {
                assert(s[s.len() - 1] == all[i]);
            }
        }
        assert forall|i: int, j: int| 0 <= i < j < all.len() implies (#[trigger] all[i]).key != (
        #[trigger] all[j]).key by {
            assert(all[i] == before[i]);
            if j < before.len() {
                assert(all[j] == before[j]);
            } else {
                let k = choose|k: int| 0 <= k < t.len() && t[k] == before[i];
                assert(s[k].key != s[s.len() - 1].key);
            }
        }
    }
}

proof fn lemma_lookup(s: Seq<Cached>, key: Seq<char>, i: int)
    requires
        distinct(s),
        0 <= i < s.len(),
        s[i].key == key,
    ensures
        lookup(s, key) == Some(s[i].value),
    decreases s.len(),
{
    if i < s.len() - 1 {
        let t = s.drop_last();
        assert(s[i].key != s[s.len() - 1].key);
        assert forall|a: int, b: int| 0 <= a < b < t.len() implies (#[trigger] t[a]).key != (
        #[trigger] t[b]).key by {
            assert(t[a] == s[a] && t[b] == s[b]);
        }
        lemma_lookup(t, key, i);
    }
}

proof fn lemma_lookup_none(s: Seq<Cached>, key: Seq<char>)
    requires
        forall|i: int| 0 <= i < s.len() ==> (#[trigger] s[i]).key != key,
    ensures
        lookup(s, key) is None,
        without(s, key) == s,
    decreases s.len(),
{
    reveal(Seq::filter);
    if s.len() > 0 {
        let t = s.drop_last();
        assert forall|i: int| 0 <= i < t.len() implies (#[trigger] t[i]).key != key by {
            assert(t[i] == s[i]);
        }
        lemma_lookup_none(t, key);
        assert(s =~= t.push(s.last()));
    }
}

proof fn lemma_without_one(s: Seq<Cached>, i: int)
    requires
        distinct(s),
        0 <= i < s.len(),
    ensures
        without(s, s[i].key) == s.remove(i),
    decreases s.len(),
{
    reveal(Seq::filter);
    let t = s.drop_last();
    assert forall|a: int, b: int| 0 <= a < b < t.len() implies (#[trigger] t[a]).key != (
    #[trigger] t[b]).key by {
        assert(t[a] == s[a] && t[b] == s[b]);
    }
    if i < t.len() {
        lemma_without_one(t, i);
        assert(s[i].key != s[s.len() - 1].key);
        assert(t.remove(i).push(s.last()) =~= s.remove(i));
    } else {
        assert forall|a: int| 0 <= a < t.len() implies (#[trigger] t[a]).key != s[i].key by {
            assert(s[a].key != s[i].key);
        }
        lemma_lookup_none(t, s[i].key);
        assert(s.remove(i) =~= t);
    }
}

impl InMemoryCache {
    /// The number of entries at most.
    pub closed spec fn capacity(self) -> nat {
        self.capacity as nat
    }

    #[verifier::type_invariant]
    spec fn well_formed(self) -> bool {
        &&& self.capacity >= 1
        &&& self@.len() <= self.capacity
        &&& distinct(self@)
    }

    /// Cache with the default capacity.
    pub fn new() -> (c: Self)
        ensures
            c@ == Seq::<Cached>::empty(),
            c.capacity() == DEFAULT_CACHE_CAPACITY,
    {
        Self::with_capacity(DEFAULT_CACHE_CAPACITY)
    }

    /// Cache bounded to `capacity` entries (at least one).
    pub fn with_capacity(capacity: usize) -> (c: Self)
        ensures
            c@ == Seq::<Cached>::empty(),
            c.capacity() == if capacity == 0 {
                1
            } else {
                capacity as nat
            },
    {
        let entries: Vec<Entry> = Vec::new();
        let capacity: usize = if capacity == 0 {
            1
        } else {
            capacity
        };
        assert(entries@.map_values(|e: Entry| e@) =~= Seq::<Cached>::empty());
        InMemoryCache { entries, capacity }
    }

    fn position(&self, key: &str) -> (r: Option<usize>)
        ensures
            match r {
                Some(i) => i < self@.len() && self@[i as int].key == key@,
                None => forall|i: int| 0 <= i < self@.len() ==> (#[trigger] self@[i]).key != key@,
            },
            self@.len() == self.entries@.len(),
    {
        let ghost all = self@;
        let mut i: usize = 0;
        while i < self.entries.len()
            invariant
                i <= self.entries.len(),
                all == self@,
                forall|j: int| 0 <= j < i ==> (#[trigger] all[j]).key != key@,
            decreases self.entries.len() - i,
        {
            assert(all[i as int] == self.entries@[i as int]@);
            if same(self.entries[i].key.as_str(), key) {
                return Some(i);
            }
            i = i + 1;
        }
        None
    }

    /// The value of a key, which becomes the most recently used one.
    pub fn get(&mut self, key: &str) -> (r: Option<Vec<u8>>)
        ensures
            final(self).capacity() == old(self).capacity(),
            match (r, lookup(old(self)@, key@)) {
                (Some(v), Some(w)) => v@ == w && final(self)@ == with_entry(old(self)@, key@, w),
                (None, None) => final(self)@ == old(self)@,
                _ => false,
            },
    {
        proof {
            use_type_invariant(&*self);
        }
        let ghost all = self@;
        match self.position(key) {
            None => {
                proof {
                    lemma_lookup_none(all, key@);
                }
                None
            },
            Some(i) => {
                proof {
                    lemma_lookup(all, key@, i as int);
                    lemma_without_one(all, i as int);
                    lemma_without(all, key@);
                }
                let mut entries: Vec<Entry> = Vec::new();
                std::mem::swap(&mut entries, &mut self.entries);
                let ghost before = entries@;
                let e = entries.remove(i);
                let value = copy_bytes(&e.value);
                entries.push(e);
                proof {
                    assert(before[i as int]@ == all[i as int]);
                    assert(entries@.map_values(|e: Entry| e@) =~= all.remove(i as int).push(
                        all[i as int],
                    ));
                    assert(distinct(with_entry(all, key@, value@)));
                }
                self.entries = entries;
                Some(value)
            },
        }
    }

    /// Puts a value under a key, in place of any other, as the most recently
    /// used entry; the least recently used one gives way if there are too
    /// many.
    pub fn set(&mut self, key: String, value: Vec<u8>)
        ensures
            final(self).capacity() == old(self).capacity(),
            final(self)@ == fitted(with_entry(old(self)@, key@, value@), old(self).capacity()),
    {
        proof {
            use_type_invariant(&*self);
        }
        let ghost all = self@;
        let position = self.position(key.as_str());
        let mut entries: Vec<Entry> = Vec::new();
        std::mem::swap(&mut entries, &mut self.entries);
        let ghost before = entries@;
        proof {
            lemma_without(all, key@);
        }
        if let Some(i) = position {
            proof {
                lemma_without_one(all, i as int);
            }
            entries.remove(i);
            assert(entries@.map_values(|e: Entry| e@) =~= all.remove(i as int));
        } else {
            proof {
                lemma_lookup_none(all, key@);
            }
        }
        assert(entries@.map_values(|e: Entry| e@) =~= without(all, key@));
        let e = Entry { key, value };
        let ghost kept = entries@;
        entries.push(e);
        let ghost next = with_entry(all, e.key@, e.value@);
        assert(entries@.map_values(|e: Entry| e@) =~= next);
        if entries.len() > self.capacity {
            entries.remove(0);
            assert(entries@.map_values(|e: Entry| e@) =~= next.skip(1));
        }
        proof {
            assert(distinct(next));
            let f = fitted(next, self.capacity as nat);
            assert(entries@.map_values(|e: Entry| e@) =~= f);
            assert(distinct(f));
        }
        self.entries = entries;
    }

    /// Takes a key out; says whether it had a value.
    pub fn delete(&mut self, key: &str) -> (r: bool)
        ensures
            final(self).capacity() == old(self).capacity(),
            r == (lookup(old(self)@, key@) is Some),
            final(self)@ == without(old(self)@, key@),
    {
        proof {
            use_type_invariant(&*self);
        }
        let ghost all = self@;
        match self.position(key) {
            None => {
                proof {
                    lemma_lookup_none(all, key@);
                }
                false
            },
            Some(i) => {
                proof {
                    lemma_lookup(all, key@, i as int);
                    lemma_without_one(all, i as int);
                    lemma_without(all, key@);
                }
                let mut entries: Vec<Entry> = Vec::new();
                std::mem::swap(&mut entries, &mut self.entries);
                entries.remove(i);
                assert(entries@.map_values(|e: Entry| e@) =~= all.remove(i as int));
                self.entries = entries;
                true
            },
        }
    }

    /// The number of entries.
    pub fn entry_count(&self) -> (n: usize)
        ensures
            n == self@.len(),
            n <= self.capacity(),
    {
        proof {
            use_type_invariant(self);
        }
        self.entries.len()
    }
}

// ---------------------------------------------------------------------------
// The byte-weighed cache
// ---------------------------------------------------------------------------

/// The concurrent cache of `moka`.
#[verifier::external_type_specification]
#[verifier::external_body]
#[verifier::reject_recursive_types(K)]
#[verifier::reject_recursive_types(V)]
#[verifier::reject_recursive_types(S)]
pub struct ExMokaSyncCache<K, V, S>(moka::sync::Cache<K, V, S>);

/// The clock reading that `moka` hands to an expiry policy.
#[verifier::external_type_specification]
#[verifier::external_body]
pub struct ExInstant(std::time::Instant);

/// What was last written under a key: the value, and its lifetime in
/// nanoseconds if it was given one.
#[verifier::ext_equal]
pub struct Written {
    pub value: Seq<u8>,
    pub lifetime_ns: Option<nat>,
}

/// No write at all.
pub open spec fn nothing_written() -> Map<Seq<char>, Written> {
    Map::empty()
}

/// The last write under every key that was not deleted since. It says
/// nothing of what was evicted meanwhile.
pub uninterp spec fn moka_written(
    cache: moka::sync::Cache<String, (Vec<u8>, Option<std::time::Duration>)>,
) -> Map<Seq<char>, Written>;

/// The weight that the cache was made to hold at most.
pub uninterp spec fn moka_max_bytes(
    cache: moka::sync::Cache<String, (Vec<u8>, Option<std::time::Duration>)>,
) -> nat;

/// The idle window that the cache was made with, in seconds.
pub uninterp spec fn moka_idle_s(
    cache: moka::sync::Cache<String, (Vec<u8>, Option<std::time::Duration>)>,
) -> nat;

/// The expiry policy: an entry lives as long as the duration stored with it.
struct TtlExpiry;

impl moka::Expiry<String, (Vec<u8>, Option<std::time::Duration>)> for TtlExpiry {
    fn expire_after_create(
        &self,
        _key: &String,
        value: &(Vec<u8>, Option<std::time::Duration>),
        _created_at: std::time::Instant,
    ) -> (r: Option<std::time::Duration>)
        ensures
            r == value.1,
    {
        value.1
    }
}

/// `moka::sync::Cache::builder`, with a capacity of `max_bytes`, a weigher, an
/// idle window and an expiry policy, and `build`: nothing was written to the
/// new cache yet.
#[verifier::external_body]
fn moka_build(max_bytes: u64, idle_s: u64, expiry: TtlExpiry) -> (cache: moka::sync::Cache<
    String,
    (Vec<u8>, Option<std::time::Duration>),
>)
    requires
        idle_s <= 3600,
    ensures
        moka_written(cache) == nothing_written(),
        moka_max_bytes(cache) == max_bytes,
        moka_idle_s(cache) == idle_s,
{
    moka::sync::Cache::builder()
        .max_capacity(max_bytes)
        .weigher(|k: &String, v: &(Vec<u8>, Option<std::time::Duration>)| entry_weight(k.len(), v.0.len()))
        .time_to_idle(std::time::Duration::from_secs(idle_s))
        .expire_after(expiry)
        .build()
}

/// `moka::sync::Cache::get`: nothing, or the value that was last written
/// under the key and not deleted since.
#[verifier::external_body]
fn moka_get(
    cache: &moka::sync::Cache<String, (Vec<u8>, Option<std::time::Duration>)>,
    key: &str,
) -> (r: Option<Vec<u8>>)
    ensures
        r matches Some(v) ==> moka_written(*cache).contains_key(key@) && moka_written(
            *cache,
        )[key@].value == v@,
{
    cache.get(key).map(|entry| entry.0)
}

/// `moka::sync::Cache::insert`: the pair takes the place of what was last
/// written under the key. The lifetime is given in seconds and nanoseconds.
#[verifier::external_body]
fn moka_insert(
    cache: &mut moka::sync::Cache<String, (Vec<u8>, Option<std::time::Duration>)>,
    key: String,
    value: Vec<u8>,
    lifetime: Option<(u64, u32)>,
)
    requires
        lifetime matches Some(l) ==> l.1 < 1_000_000_000,
    ensures
        moka_max_bytes(*final(cache)) == moka_max_bytes(*old(cache)),
        moka_idle_s(*final(cache)) == moka_idle_s(*old(cache)),
        moka_written(*final(cache)) == moka_written(*old(cache)).insert(
            key@,
            (Written {
                value: value@,
                lifetime_ns: match lifetime {
                    Some(l) => Some((l.0 * 1_000_000_000 + l.1) as nat),
                    None => None,
                },
            }),
        ),
{
    cache.insert(key, (value, lifetime.map(|l| std::time::Duration::new(l.0, l.1))));
}

/// `moka::sync::Cache::remove`: what was written under the key is gone; the
/// answer says whether a value was still there, and none is where none was
/// written.
#[verifier::external_body]
fn moka_remove(
    cache: &mut moka::sync::Cache<String, (Vec<u8>, Option<std::time::Duration>)>,
    key: &str,
) -> (r: bool)
    ensures
        moka_max_bytes(*final(cache)) == moka_max_bytes(*old(cache)),
        moka_idle_s(*final(cache)) == moka_idle_s(*old(cache)),
        moka_written(*final(cache)) == moka_written(*old(cache)).remove(key@),
        r ==> moka_written(*old(cache)).contains_key(key@),
{
    cache.remove(key).is_some()
}

/// `moka::sync::Cache::entry_count`: an estimate, of which nothing is
/// promised.
#[verifier::external_body]
fn moka_entry_count(
    cache: &moka::sync::Cache<String, (Vec<u8>, Option<std::time::Duration>)>,
) -> (n: u64)
{
    cache.entry_count()
}

/// Byte-weighed cache with a lifetime per entry.
///
/// Entries weigh the bytes of key and value and a fixed overhead; entries
/// that nobody reads for an hour go, and so do those whose lifetime is over.
/// When an entry goes is the cache's own affair: a value that was written may
/// be gone at any time, and a reader judges by the value itself whether it is
/// still fresh.
pub struct MokaCache {
    inner: moka::sync::Cache<String, (Vec<u8>, Option<std::time::Duration>)>,
}

impl MokaCache {
    /// The last write under every key that was not deleted since.
    pub closed spec fn written(self) -> Map<Seq<char>, Written> {
        moka_written(self.inner)
    }

    /// The weight of all entries at most.
    pub closed spec fn max_bytes(self) -> nat {
        moka_max_bytes(self.inner)
    }

    /// How long an entry that nobody reads may stay, in seconds.
    pub closed spec fn idle_s(self) -> nat {
        moka_idle_s(self.inner)
    }

    /// Cache bounded to `max_bytes` of keys, values and overhead.
    pub fn with_max_bytes(max_bytes: u64) -> (c: Self)
        ensures
            c.written() == nothing_written(),
            c.max_bytes() == max_bytes,
            c.idle_s() == TIME_TO_IDLE_S,
    {
        MokaCache { inner: moka_build(max_bytes, TIME_TO_IDLE_S, TtlExpiry) }
    }

    /// The value of a key: the one last written, or nothing. When an entry
    /// was evicted is not stated.
    pub fn get(&self, key: &str) -> (r: Option<Vec<u8>>)
        ensures
            r matches Some(v) ==> self.written().contains_key(key@) && self.written()[key@].value
                == v@,
    {
        moka_get(&self.inner, key)
    }

    /// Puts a value under a key, in place of any other, without a lifetime.
    pub fn set(&mut self, key: String, value: Vec<u8>)
        ensures
            final(self).max_bytes() == old(self).max_bytes(),
            final(self).idle_s() == old(self).idle_s(),
            final(self).written() == old(self).written().insert(
                key@,
                (Written { value: value@, lifetime_ns: None }),
            ),
    {
        moka_insert(&mut self.inner, key, value, None);
    }

    /// Puts a value under a key, in place of any other, with a hint of its
    /// lifetime (nanoseconds). The cache is given the slack on top of it.
    pub fn set_with_ttl(&mut self, key: String, value: Vec<u8>, ttl_ns: u128)
        requires
            ttl_fits(ttl_ns),
        ensures
            final(self).max_bytes() == old(self).max_bytes(),
            final(self).idle_s() == old(self).idle_s(),
            final(self).written() == old(self).written().insert(
                key@,
                (Written { value: value@, lifetime_ns: Some(backend_lifetime_ns(ttl_ns)) }),
            ),
    {
        moka_insert(&mut self.inner, key, value, Some(backend_ttl(ttl_ns)));
    }

    /// Takes a key out; says whether its value was still there.
    pub fn delete(&mut self, key: &str) -> (r: bool)
        ensures
            final(self).max_bytes() == old(self).max_bytes(),
            final(self).idle_s() == old(self).idle_s(),
            final(self).written() == old(self).written().remove(key@),
            r ==> old(self).written().contains_key(key@),
    {
        moka_remove(&mut self.inner, key)
    }

    /// The number of entries, which the cache estimates.
    pub fn entry_count(&self) -> (n: Option<u64>)
        ensures
            n is Some,
    {
        Some(moka_entry_count(&self.inner))
    }
}

impl Default for MokaCache {
    fn default() -> (c: Self)
        ensures
            c.written() == nothing_written(),
            c.max_bytes() == DEFAULT_CACHE_STORE_BYTES,
            c.idle_s() == TIME_TO_IDLE_S,
    {
        Self::with_max_bytes(DEFAULT_CACHE_STORE_BYTES)
    }
}

impl Default for InMemoryCache {
    fn default() -> (c: Self)
        ensures
            c@ == Seq::<Cached>::empty(),
            c.capacity() == DEFAULT_CACHE_CAPACITY,
    {
        Self::new()
    }
}

// ---------------------------------------------------------------------------
// Laws
// ---------------------------------------------------------------------------

/// A value that was put under a key is found under it, in a cache of any
/// capacity.
pub proof fn law_read_gives_back_what_was_written(
    s: Seq<Cached>,
    key: Seq<char>,
    value: Seq<u8>,
    capacity: nat,
)
    requires
        capacity >= 1,
    ensures
        lookup(fitted(with_entry(s, key, value), capacity), key) == Some(value),
{
    let next = with_entry(s, key, value);
    let f = fitted(next, capacity);
    assert(f.last() == next.last());
}

/// The cache never holds more entries than its capacity.
pub proof fn law_cache_is_bounded(s: Seq<Cached>, key: Seq<char>, value: Seq<u8>, capacity: nat)
    requires
        capacity >= 1,
    ensures
        fitted(with_entry(s, key, value), capacity).len() <= capacity,
{
}

/// A deleted key is not found.
pub proof fn law_deleted_key_is_gone(s: Seq<Cached>, key: Seq<char>)
    requires
        distinct(s),
    ensures
        lookup(without(s, key), key) is None,
{
    lemma_without(s, key);
    lemma_lookup_none(without(s, key), key);
}

/// The entry that gives way is the one that was not used for the longest
/// time.
pub proof fn law_least_recently_used_gives_way(
    s: Seq<Cached>,
    key: Seq<char>,
    value: Seq<u8>,
    capacity: nat,
)
    requires
        capacity >= 1,
        s.len() == capacity,
        forall|i: int| 0 <= i < s.len() ==> (#[trigger] s[i]).key != key,
    ensures
        fitted(with_entry(s, key, value), capacity) == s.skip(1).push(Cached { key, value }),
{
    lemma_lookup_none(s, key);
    assert(s.push(Cached { key, value }).skip(1) =~= s.skip(1).push(Cached { key, value }));
}

proof fn lemma_lookup_without(s: Seq<Cached>, key: Seq<char>, other: Seq<char>)
    requires
        other != key,
    ensures
        lookup(without(s, key), other) == lookup(s, other),
    decreases s.len(),
{
    reveal(Seq::filter);
    if s.len() > 0 {
        let t = s.drop_last();
        lemma_lookup_without(t, key, other);
        if s.last().key != key {
            assert(without(s, key) == without(t, key).push(s.last()));
            assert(without(s, key).drop_last() =~= without(t, key));
        } else {
            assert(without(s, key) == without(t, key));
        }
    } else {
        assert(without(s, key) =~= s);
    }
}

/// What is done under one key leaves the values under the others alone.
pub proof fn law_other_keys_are_left_alone(
    s: Seq<Cached>,
    key: Seq<char>,
    value: Seq<u8>,
    other: Seq<char>,
)
    requires
        other != key,
    ensures
        lookup(without(s, key), other) == lookup(s, other),
        lookup(with_entry(s, key, value), other) == lookup(s, other),
{
    lemma_lookup_without(s, key, other);
    let w = with_entry(s, key, value);
    assert(w.drop_last() =~= without(s, key));
}

/// An entry is kept for its lifetime and a minute more, so that a reader can
/// still see that it has expired.
pub proof fn law_entries_outlive_their_lifetime(ttl_ns: u128)
    requires
        ttl_fits(ttl_ns),
    ensures
        backend_lifetime_ns(ttl_ns) == ttl_ns + 60_000_000_000,
{
}

} // verus!
