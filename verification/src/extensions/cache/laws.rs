//! What holds of the entry-bounded cache over any sequence of calls.

use vstd::prelude::*;

use crate::extensions::cache;
use crate::extensions::cache::Cached;

verus! {

/// A call of the cache.
pub enum CacheOp {
    /// `set` of a key.
    Put { key: Seq<char>, value: Seq<u8> },
    /// `get` of a key.
    Get { key: Seq<char> },
    /// `delete` of a key.
    Delete { key: Seq<char> },
}

/// Whether a key is among the entries.
pub open spec fn held(s: Seq<Cached>, key: Seq<char>) -> bool {
    cache::lookup(s, key) is Some
}

/// The entries after one call, before any gives way.
pub open spec fn touched(s: Seq<Cached>, op: CacheOp) -> Seq<Cached> {
    match op {
        CacheOp::Put { key, value } => cache::with_entry(s, key, value),
        CacheOp::Get { key } => match cache::lookup(s, key) {
            Some(value) => cache::with_entry(s, key, value),
            None => s,
        },
        CacheOp::Delete { key } => cache::without(s, key),
    }
}

/// The entries of a cache of some capacity after one call.
pub open spec fn step(s: Seq<Cached>, op: CacheOp, capacity: nat) -> Seq<Cached> {
    match op {
        CacheOp::Put { key, value } => cache::fitted(touched(s, op), capacity),
        _ => touched(s, op),
    }
}

/// The entries of a fresh cache of some capacity after a sequence of calls.
pub open spec fn after(ops: Seq<CacheOp>, capacity: nat) -> Seq<Cached>
    decreases ops.len(),
{
    if ops.len() == 0 {
        seq![]
    } else {
        step(after(ops.drop_last(), capacity), ops.last(), capacity)
    }
}

/// The entries after a sequence of calls if none ever gave way.
pub open spec fn after_all(ops: Seq<CacheOp>) -> Seq<Cached>
    decreases ops.len(),
{
    if ops.len() == 0 {
        seq![]
    } else {
        touched(after_all(ops.drop_last()), ops.last())
    }
}

/// The value that was last set under a key and not deleted since.
pub open spec fn last_set(ops: Seq<CacheOp>, key: Seq<char>) -> Option<Seq<u8>>
    decreases ops.len(),
{
    if ops.len() == 0 {
        None
    } else {
        let before = last_set(ops.drop_last(), key);
        match ops.last() {
            CacheOp::Put { key: k, value } => if k == key {
                Some(value)
            } else {
                before
            },
            CacheOp::Get { key: k } => before,
            CacheOp::Delete { key: k } => if k == key {
                None
            } else {
                before
            },
        }
    }
}

/// Which call last set the key or found it; less than 0 where none did.
pub open spec fn last_use(ops: Seq<CacheOp>, capacity: nat, key: Seq<char>) -> int
    decreases ops.len(),
{
    if ops.len() == 0 {
        -1
    } else {
        let before = last_use(ops.drop_last(), capacity, key);
        let now = ops.len() - 1;
        match ops.last() {
            CacheOp::Put { key: k, value } => if k == key {
                now
            } else {
                before
            },
            CacheOp::Get { key: k } => if k == key && held(
                after(ops.drop_last(), capacity),
                key,
            ) {
                now
            } else {
                before
            },
            CacheOp::Delete { key: k } => before,
        }
    }
}

/// Whether a key was set and not deleted since, and is missing all the same.
pub open spec fn evicted(ops: Seq<CacheOp>, capacity: nat, key: Seq<char>) -> bool {
    last_set(ops, key) is Some && !held(after(ops, capacity), key)
}

proof fn lemma_held(s: Seq<Cached>, key: Seq<char>)
    ensures
        held(s, key) <==> exists|i: int| 0 <= i < s.len() && (#[trigger] s[i]).key == key,
        held(s, key) ==> exists|i: int|
            0 <= i < s.len() && (#[trigger] s[i]).key == key && cache::lookup(s, key) == Some(
                s[i].value,
            ),
    decreases s.len(),
{
    if s.len() > 0 {
        let t = s.drop_last();
        if s.last().key == key {
            assert(s[s.len() - 1].key == key);
        } else {
            lemma_held(t, key);
            if held(t, key) {
                let i = choose|i: int|
                    0 <= i < t.len() && (#[trigger] t[i]).key == key && cache::lookup(t, key)
                        == Some(t[i].value);
                assert(s[i] == t[i]);
            }
            if exists|i: int| 0 <= i < s.len() && (#[trigger] s[i]).key == key {
                let i = choose|i: int| 0 <= i < s.len() && (#[trigger] s[i]).key == key;
                assert(t[i] == s[i]);
            }
        }
    }
}

/// What `without` does to entries of distinct keys: at most one goes.
proof fn lemma_gone(s: Seq<Cached>, key: Seq<char>) -> (i: int)
    requires
        cache::distinct(s),
    ensures
        cache::distinct(cache::without(s, key)),
        !held(cache::without(s, key), key),
        held(s, key) ==> 0 <= i < s.len() && s[i].key == key && cache::without(s, key) == s.remove(i)
            && cache::lookup(s, key) == Some(s[i].value),
        !held(s, key) ==> cache::without(s, key) == s,
        forall|k: Seq<char>|
            k != key ==> #[trigger] cache::lookup(cache::without(s, key), k) == cache::lookup(s, k),
{
    cache::lemma_without(s, key);
    lemma_held(s, key);
    lemma_held(cache::without(s, key), key);
    let w = cache::without(s, key);
    let mut at: int = 0;
    if held(s, key) {
        let i = choose|i: int|
            0 <= i < s.len() && (#[trigger] s[i]).key == key && cache::lookup(s, key) == Some(
                s[i].value,
            );
        cache::lemma_without_one(s, i);
        at = i;
        assert forall|k: Seq<char>| k != key implies #[trigger] cache::lookup(w, k)
            == cache::lookup(s, k) by {
            lemma_held(s, k);
            lemma_held(w, k);
            if held(s, k) {
                let j = choose|j: int| 0 <= j < s.len() && (#[trigger] s[j]).key == k;
                cache::lemma_lookup(s, k, j);
                let j2 = if j < i { j } else { j - 1 };
                assert(w[j2] == s[j]);
                cache::lemma_lookup(w, k, j2);
            }
            if held(w, k) {
                let j = choose|j: int| 0 <= j < w.len() && (#[trigger] w[j]).key == k;
                let j2 = if j < i { j } else { j + 1 };
                assert(s[j2] == w[j]);
            }
        }
    } else {
        assert forall|i: int| 0 <= i < s.len() implies (#[trigger] s[i]).key != key by {}
        cache::lemma_lookup_none(s, key);
    }
    at
}

/// What putting an entry in as the most recently used does.
proof fn lemma_put(s: Seq<Cached>, key: Seq<char>, value: Seq<u8>)
    requires
        cache::distinct(s),
    ensures
        cache::distinct(cache::with_entry(s, key, value)),
        cache::lookup(cache::with_entry(s, key, value), key) == Some(value),
        forall|k: Seq<char>|
            k != key ==> #[trigger] cache::lookup(cache::with_entry(s, key, value), k)
                == cache::lookup(s, k),
        cache::with_entry(s, key, value).len() == s.len() + if held(s, key) {
            0int
        } else {
            1
        },
{
    let _ = lemma_gone(s, key);
    let w = cache::without(s, key);
    let t = cache::with_entry(s, key, value);
    lemma_held(w, key);
    assert(t.drop_last() =~= w);
    assert forall|i: int, j: int| 0 <= i < j < t.len() implies (#[trigger] t[i]).key != (
    #[trigger] t[j]).key by {
        assert(t[i] == w[i]);
        if j < w.len() {
            assert(t[j] == w[j]);
        }
    }
    assert forall|k: Seq<char>| k != key implies #[trigger] cache::lookup(t, k) == cache::lookup(
        s,
        k,
    ) by {
        assert(cache::lookup(t, k) == cache::lookup(t.drop_last(), k));
        assert(cache::lookup(w, k) == cache::lookup(s, k));
    }
}

/// The entries stand in the order of their last use, and every one was used
/// more recently than any evicted key.
spec fn in_order(s: Seq<Cached>, ops: Seq<CacheOp>, capacity: nat) -> bool {
    &&& forall|i: int, j: int|
        0 <= i < j < s.len() ==> last_use(ops, capacity, (#[trigger] s[i]).key) < last_use(
            ops,
            capacity,
            (#[trigger] s[j]).key,
        )
    &&& forall|i: int, e: Seq<char>|
        0 <= i < s.len() && last_set(ops, e) is Some && !held(s, e) ==> last_use(
            ops,
            capacity,
            (#[trigger] s[i]).key,
        ) > #[trigger] last_use(ops, capacity, e)
}

proof fn lemma_last_use_is_past(ops: Seq<CacheOp>, capacity: nat, key: Seq<char>)
    ensures
        last_use(ops, capacity, key) < ops.len(),
    decreases ops.len(),
{
    if ops.len() > 0 {
        lemma_last_use_is_past(ops.drop_last(), capacity, key);
    }
}

proof fn lemma_older(s: Seq<Cached>, ops: Seq<CacheOp>, capacity: nat, i: int, e: Seq<char>)
    requires
        in_order(s, ops, capacity),
        0 <= i < s.len(),
        last_set(ops, e) is Some,
        !held(s, e),
    ensures
        last_use(ops, capacity, s[i].key) > last_use(ops, capacity, e),
{
}

/// What holds at every point of a sequence of calls.
spec fn well_kept(ops: Seq<CacheOp>, capacity: nat) -> bool {
    let s = after(ops, capacity);
    &&& s.len() <= capacity
    &&& cache::distinct(s)
    &&& in_order(s, ops, capacity)
    &&& forall|k: Seq<char>|
        held(s, k) ==> #[trigger] cache::lookup(s, k) == last_set(ops, k)
}

proof fn lemma_well_kept(ops: Seq<CacheOp>, capacity: nat)
    requires
        capacity >= 1,
    ensures
        well_kept(ops, capacity),
    decreases ops.len(),
{
    if ops.len() > 0 {
        let prior = ops.drop_last();
        lemma_well_kept(prior, capacity);
        match ops.last() {
            CacheOp::Put { key, value } => lemma_set_keeps(ops, capacity, key, value),
            CacheOp::Get { key } => lemma_get_keeps(ops, capacity, key),
            CacheOp::Delete { key } => lemma_delete_keeps(ops, capacity, key),
        }
    }
}

proof fn lemma_set_keeps(ops: Seq<CacheOp>, capacity: nat, key: Seq<char>, value: Seq<u8>)
    requires
        capacity >= 1,
        ops.len() > 0,
        ops.last() == (CacheOp::Put { key, value }),
        well_kept(ops.drop_last(), capacity),
    ensures
        well_kept(ops, capacity),
{
    let prior = ops.drop_last();
    let s = after(prior, capacity);
    let at = lemma_gone(s, key);
    lemma_put(s, key, value);
    let w = cache::without(s, key);
    let t = cache::with_entry(s, key, value);
    let r = after(ops, capacity);
    let gone = t.len() - r.len();
    assert(gone == 0 || gone == 1);
    assert(r =~= t.skip(gone));
    assert forall|i: int, j: int| 0 <= i < j < r.len() implies (#[trigger] r[i]).key != (
    #[trigger] r[j]).key by {
        assert(r[i] == t[i + gone] && r[j] == t[j + gone]);
    }
    assert forall|k: Seq<char>| held(r, k) implies #[trigger] cache::lookup(r, k) == last_set(
        ops,
        k,
    ) by {
        lemma_held(r, k);
        let i = choose|i: int|
            0 <= i < r.len() && (#[trigger] r[i]).key == k && cache::lookup(r, k) == Some(
                r[i].value,
            );
        assert(r[i] == t[i + gone]);
        cache::lemma_lookup(t, k, i + gone);
        if k != key {
            assert(cache::lookup(t, k) == cache::lookup(s, k));
        }
    }
    // The place in `s` of an entry of `w`.
    let place = |i: int| if held(s, key) && i >= at { i + 1 } else { i };
    assert forall|i: int| 0 <= i < w.len() implies w[i] == s[#[trigger] place(i)] by {}
    assert forall|i: int| 0 <= i < w.len() implies (#[trigger] w[i]).key != key by {
        lemma_held(w, key);
    }
    assert forall|i: int, j: int| 0 <= i < j < t.len() implies last_use(
        ops,
        capacity,
        (#[trigger] t[i]).key,
    ) < last_use(ops, capacity, (#[trigger] t[j]).key) by {
        assert(t[i] == w[i] && w[i] == s[place(i)]);
        if j < w.len() {
            assert(t[j] == w[j] && w[j] == s[place(j)]);
            assert(place(i) < place(j));
        } else {
            lemma_last_use_is_past(prior, capacity, t[i].key);
        }
    }
    assert forall|i: int, j: int| 0 <= i < j < r.len() implies last_use(
        ops,
        capacity,
        (#[trigger] r[i]).key,
    ) < last_use(ops, capacity, (#[trigger] r[j]).key) by {
        assert(r[i] == t[i + gone] && r[j] == t[j + gone]);
    }
    assert forall|i: int, e: Seq<char>|
        0 <= i < r.len() && last_set(ops, e) is Some && !held(r, e) implies last_use(
        ops,
        capacity,
        (#[trigger] r[i]).key,
    ) > #[trigger] last_use(ops, capacity, e) by {
        assert(r[i] == t[i + gone]);
        lemma_held(r, e);
        lemma_held(t, e);
        assert(r[r.len() - 1] == t[t.len() - 1]);
        assert(e != key);
        if held(t, e) {
            let j = choose|j: int| 0 <= j < t.len() && (#[trigger] t[j]).key == e;
            if j >= gone {
                assert(r[j - gone] == t[j]);
            }
            assert(j == 0 && gone == 1);
        } else {
            assert(cache::lookup(t, e) == cache::lookup(s, e));
            assert(!held(s, e));
            if i + gone < w.len() {
                assert(w[i + gone] == s[place(i + gone)]);
                lemma_older(s, prior, capacity, place(i + gone), e);
            } else {
                lemma_last_use_is_past(prior, capacity, e);
            }
        }
    }
}

proof fn lemma_get_keeps(ops: Seq<CacheOp>, capacity: nat, key: Seq<char>)
    requires
        ops.len() > 0,
        ops.last() == (CacheOp::Get { key }),
        well_kept(ops.drop_last(), capacity),
    ensures
        well_kept(ops, capacity),
{
    let prior = ops.drop_last();
    let s = after(prior, capacity);
    if held(s, key) {
        let at = lemma_gone(s, key);
        let value = cache::lookup(s, key)->0;
        lemma_put(s, key, value);
        let w = cache::without(s, key);
        let r = after(ops, capacity);
        assert(r == cache::with_entry(s, key, value));
        assert forall|k: Seq<char>| held(r, k) implies #[trigger] cache::lookup(r, k) == last_set(
            ops,
            k,
        ) by {
            assert(cache::lookup(r, k) == cache::lookup(s, k));
        }
        let place = |i: int| if i >= at { i + 1 } else { i };
        assert forall|i: int| 0 <= i < w.len() implies w[i] == s[#[trigger] place(i)] by {}
        assert forall|i: int| 0 <= i < w.len() implies (#[trigger] w[i]).key != key by {
            lemma_held(w, key);
        }
        assert forall|i: int, j: int| 0 <= i < j < r.len() implies last_use(
            ops,
            capacity,
            (#[trigger] r[i]).key,
        ) < last_use(ops, capacity, (#[trigger] r[j]).key) by {
            assert(r[i] == w[i] && w[i] == s[place(i)]);
            if j < w.len() {
                assert(r[j] == w[j] && w[j] == s[place(j)]);
                assert(place(i) < place(j));
            } else {
                lemma_last_use_is_past(prior, capacity, r[i].key);
            }
        }
        assert forall|i: int, e: Seq<char>|
            0 <= i < r.len() && last_set(ops, e) is Some && !held(r, e) implies last_use(
            ops,
            capacity,
            (#[trigger] r[i]).key,
        ) > #[trigger] last_use(ops, capacity, e) by {
            assert(e != key);
            assert(cache::lookup(r, e) == cache::lookup(s, e));
            if i < w.len() {
                assert(r[i] == w[i] && w[i] == s[place(i)]);
                lemma_older(s, prior, capacity, place(i), e);
            } else {
                lemma_last_use_is_past(prior, capacity, e);
            }
        }
    } else {
        assert(after(ops, capacity) == s);
        lemma_held(s, key);
        assert forall|i: int, j: int| 0 <= i < j < s.len() implies last_use(
            ops,
            capacity,
            (#[trigger] s[i]).key,
        ) < last_use(ops, capacity, (#[trigger] s[j]).key) by {
            assert(last_use(prior, capacity, s[i].key) < last_use(prior, capacity, s[j].key));
        }
        assert forall|i: int, e: Seq<char>|
            0 <= i < s.len() && last_set(ops, e) is Some && !held(s, e) implies last_use(
            ops,
            capacity,
            (#[trigger] s[i]).key,
        ) > #[trigger] last_use(ops, capacity, e) by {
            assert(last_use(prior, capacity, s[i].key) > last_use(prior, capacity, e));
        }
    }
}

proof fn lemma_delete_keeps(ops: Seq<CacheOp>, capacity: nat, key: Seq<char>)
    requires
        ops.len() > 0,
        ops.last() == (CacheOp::Delete { key }),
        well_kept(ops.drop_last(), capacity),
    ensures
        well_kept(ops, capacity),
{
    let prior = ops.drop_last();
    let s = after(prior, capacity);
    let at = lemma_gone(s, key);
    let r = after(ops, capacity);
    assert(r == cache::without(s, key));
    assert forall|k: Seq<char>| held(r, k) implies #[trigger] cache::lookup(r, k) == last_set(
        ops,
        k,
    ) by {
        if k != key {
            assert(cache::lookup(r, k) == cache::lookup(s, k));
        }
    }
    let place = |i: int| if held(s, key) && i >= at { i + 1 } else { i };
    assert forall|i: int| 0 <= i < r.len() implies r[i] == s[#[trigger] place(i)] by {}
    assert forall|i: int, j: int| 0 <= i < j < r.len() implies last_use(
        ops,
        capacity,
        (#[trigger] r[i]).key,
    ) < last_use(ops, capacity, (#[trigger] r[j]).key) by {
        assert(r[i] == s[place(i)] && r[j] == s[place(j)]);
        assert(place(i) < place(j));
    }
    assert forall|i: int, e: Seq<char>|
        0 <= i < r.len() && last_set(ops, e) is Some && !held(r, e) implies last_use(
        ops,
        capacity,
        (#[trigger] r[i]).key,
    ) > #[trigger] last_use(ops, capacity, e) by {
        assert(e != key);
        assert(cache::lookup(r, e) == cache::lookup(s, e));
        assert(r[i] == s[place(i)]);
        lemma_older(s, prior, capacity, place(i), e);
    }
}

/// Whatever is asked of a fresh cache, it never holds more entries than its
/// capacity, and a key that it holds has the value that was last set. A key
/// that was set and not deleted since is missing only if it was evicted, and
/// every key that is kept was set or found more recently than every evicted
/// one.
pub proof fn law_least_recently_used_keys_give_way(ops: Seq<CacheOp>, capacity: nat)
    requires
        capacity >= 1,
    ensures
        after(ops, capacity).len() <= capacity,
        cache::distinct(after(ops, capacity)),
        forall|k: Seq<char>|
            held(after(ops, capacity), k) ==> #[trigger] cache::lookup(after(ops, capacity), k)
                == last_set(ops, k),
        forall|k: Seq<char>, e: Seq<char>|
            held(after(ops, capacity), k) && evicted(ops, capacity, e) ==> #[trigger] last_use(
                ops,
                capacity,
                k,
            ) > #[trigger] last_use(ops, capacity, e),
{
    lemma_well_kept(ops, capacity);
    let s = after(ops, capacity);
    assert forall|k: Seq<char>, e: Seq<char>|
        held(s, k) && evicted(ops, capacity, e) implies #[trigger] last_use(ops, capacity, k)
        > #[trigger] last_use(ops, capacity, e) by {
        lemma_held(s, k);
        let i = choose|i: int| 0 <= i < s.len() && (#[trigger] s[i]).key == k;
        assert(last_use(ops, capacity, s[i].key) > last_use(ops, capacity, e));
    }
}

/// Nothing is evicted while there is room: as long as the keys that were set
/// and not deleted since never were more than the capacity, every one of them
/// is held with the value that was last set.
pub proof fn law_nothing_is_evicted_while_there_is_room(ops: Seq<CacheOp>, capacity: nat)
    requires
        forall|n: int| 0 <= n <= ops.len() ==> (#[trigger] after_all(ops.take(n))).len() <= capacity,
    ensures
        after(ops, capacity) == after_all(ops),
        cache::distinct(after_all(ops)),
        forall|k: Seq<char>| #[trigger] cache::lookup(after(ops, capacity), k) == last_set(ops, k),
    decreases ops.len(),
{
    if ops.len() > 0 {
        let prior = ops.drop_last();
        assert forall|n: int| 0 <= n <= prior.len() implies (#[trigger] after_all(
            prior.take(n),
        )).len() <= capacity by {
            assert(prior.take(n) =~= ops.take(n));
        }
        law_nothing_is_evicted_while_there_is_room(prior, capacity);
        let s = after_all(prior);
        assert(ops.take(ops.len() as int) =~= ops);
        assert(after_all(ops).len() <= capacity);
        match ops.last() {
            CacheOp::Put { key, value } => {
                lemma_put(s, key, value);
            },
            CacheOp::Get { key } => {
                if held(s, key) {
                    lemma_put(s, key, cache::lookup(s, key)->0);
                }
            },
            CacheOp::Delete { key } => {
                let _ = lemma_gone(s, key);
            },
        }
        assert forall|k: Seq<char>| #[trigger] cache::lookup(after(ops, capacity), k) == last_set(
            ops,
            k,
        ) by {
            assert(cache::lookup(s, k) == last_set(prior, k));
        }
    }
}

} // verus!
