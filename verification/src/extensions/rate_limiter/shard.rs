//! The keyed state of one shard of a rate-limit window, bounded in size.
//!
//! When a shard reaches its cap it first drops idle cells: keys untouched
//! for at least the time in which the window's bucket fills up. If it is
//! still crowded it drops the keys that were touched longest ago, down to
//! half the cap.

use vstd::prelude::*;
use vstd::string::*;

use crate::text;
use crate::text::comes_before;
use crate::text_map;
use crate::text_map::TextMap;

verus! {

/// Per-key cell: the theoretical arrival time in nanoseconds since the
/// limiter was made (0 for a fresh cell), and when the key was last touched,
/// in milliseconds.
#[derive(Debug, Clone, Copy, PartialEq, Eq, Structural)]
pub struct GcraCell {
    pub tat: u128,
    pub last_touch_ms: u64,
}

/// Whether a key goes before another when keys are dropped: touched longer
/// ago, or at the same time and earlier in the dictionary.
pub open spec fn goes_before(a: GcraCell, ka: Seq<char>, b: GcraCell, kb: Seq<char>) -> bool {
    a.last_touch_ms < b.last_touch_ms || (a.last_touch_ms == b.last_touch_ms && text::precedes(
        ka,
        kb,
    ))
}

/// How long ago a cell was touched.
pub open spec fn idle_ms(c: GcraCell, now_ms: u64) -> int {
    if now_ms >= c.last_touch_ms {
        now_ms - c.last_touch_ms
    } else {
        0
    }
}

/// The cells that were touched within a time.
pub open spec fn fresh_cells(m: Map<Seq<char>, GcraCell>, now_ms: u64, max_idle_ms: u64) -> Map<
    Seq<char>,
    GcraCell,
> {
    Map::new(
        |k: Seq<char>| m.dom().contains(k) && idle_ms(m[k], now_ms) < max_idle_ms,
        |k: Seq<char>| m[k],
    )
}

/// Whether `r` is what is left of `m` when keys are dropped, in their order,
/// until `n` are left.
pub open spec fn is_trimmed(
    m: Map<Seq<char>, GcraCell>,
    r: Map<Seq<char>, GcraCell>,
    n: nat,
) -> bool {
    &&& r.dom().finite()
    &&& r.dom().len() == n
    &&& forall|k: Seq<char>| #[trigger]
        r.dom().contains(k) ==> m.dom().contains(k) && r[k] == m[k]
    &&& forall|k: Seq<char>, j: Seq<char>| #[trigger]
        r.dom().contains(k) && #[trigger] m.dom().contains(j) && !r.dom().contains(j)
            ==> goes_before(m[j], j, m[k], k)
}

/// Whether `r` is what a sweep leaves of a shard.
pub open spec fn is_swept(
    m: Map<Seq<char>, GcraCell>,
    r: Map<Seq<char>, GcraCell>,
    now_ms: u64,
    max_idle_ms: u64,
    cap: nat,
) -> bool {
    let fresh = fresh_cells(m, now_ms, max_idle_ms);
    if m.dom().len() < cap {
        r == m
    } else if fresh.dom().len() < cap {
        r == fresh
    } else {
        is_trimmed(fresh, r, cap / 2)
    }
}

/// The place of the key that is dropped next.
fn oldest(cells: &TextMap<GcraCell>) -> (b: usize)
    requires
        cells.list().len() > 0,
        text_map::distinct_keys(cells.list()),
    ensures
        b < cells.list().len(),
        forall|j: int|
            0 <= j < cells.list().len() && j != b ==> goes_before(
                cells.list()[b as int].1,
                cells.list()[b as int].0@,
                (#[trigger] cells.list()[j]).1,
                cells.list()[j].0@,
            ),
{
    let n: usize = cells.len();
    let ghost l = cells.list();
    let mut b: usize = 0;
    let mut i: usize = 1;
    while i < n
        invariant
            1 <= i <= n,
            n == l.len(),
            l == cells.list(),
            b < i,
            text_map::distinct_keys(l),
            forall|j: int|
                0 <= j < i && j != b ==> goes_before(
                    l[b as int].1,
                    l[b as int].0@,
                    (#[trigger] l[j]).1,
                    l[j].0@,
                ),
        decreases n - i,
    {
        let x: GcraCell = *cells.value_at(i);
        let y: GcraCell = *cells.value_at(b);
        let before = x.last_touch_ms < y.last_touch_ms || (x.last_touch_ms == y.last_touch_ms
            && comes_before(cells.key_at(i).as_str(), cells.key_at(b).as_str()));
        proof {
            assert(l[b as int].0@ != l[i as int].0@);
            text::lemma_precedes_total(l[i as int].0@, l[b as int].0@);
            if before {
                assert forall|j: int| 0 <= j < i + 1 && j != i implies goes_before(
                    l[i as int].1,
                    l[i as int].0@,
                    (#[trigger] l[j]).1,
                    l[j].0@,
                ) by {
                    if j != b && l[i as int].1.last_touch_ms == l[b as int].1.last_touch_ms
                        && l[b as int].1.last_touch_ms == l[j].1.last_touch_ms {
                        text::lemma_precedes_transitive(
                            l[i as int].0@,
                            l[b as int].0@,
                            l[j].0@,
                        );
                    }
                }
            }
        }
        if before {
            b = i;
        }
        i = i + 1;
    }
    b
}

/// Keeps the cells that were touched within a time.
fn drop_idle(cells: &TextMap<GcraCell>, now_ms: u64, max_idle_ms: u64) -> (r: TextMap<GcraCell>)
    ensures
        r@ == fresh_cells(cells@, now_ms, max_idle_ms),
{
    let n: usize = cells.len();
    let ghost l = cells.list();
    let mut r: TextMap<GcraCell> = TextMap::new();
    let mut i: usize = 0;
    proof {
        assert(l.take(0) =~= Seq::<(String, GcraCell)>::empty());
        assert(r@ =~= fresh_cells(text_map::map_of(l.take(0)), now_ms, max_idle_ms));
    }
    while i < n
        invariant
            i <= n,
            n == l.len(),
            l == cells.list(),
            text_map::distinct_keys(l),
            r@ == fresh_cells(text_map::map_of(l.take(i as int)), now_ms, max_idle_ms),
        decreases n - i,
    {
        let c: GcraCell = *cells.value_at(i);
        let ghost before = text_map::map_of(l.take(i as int));
        let ghost k = l[i as int].0@;
        proof {
            assert(l.take(i + 1).drop_last() =~= l.take(i as int));
            assert(text_map::map_of(l.take(i + 1)) == before.insert(k, c));
            lemma_take_lacks(l, i as int);
        }
        if now_ms.saturating_sub(c.last_touch_ms) < max_idle_ms {
            r.insert(cells.key_at(i).clone(), c);
        }
        i = i + 1;
        assert(r@ =~= fresh_cells(
            text_map::map_of(l.take(i as int)),
            now_ms,
            max_idle_ms,
        ));
    }
    assert(l.take(n as int) =~= l);
    r
}

proof fn lemma_take_lacks(l: Seq<(String, GcraCell)>, i: int)
    requires
        0 <= i < l.len(),
        text_map::distinct_keys(l),
    ensures
        !text_map::map_of(l.take(i)).dom().contains(l[i].0@),
{
    let t = l.take(i);
    assert forall|a: int, b: int| 0 <= a < b < t.len() implies (#[trigger] t[a]).0@ != (
    #[trigger] t[b]).0@ by {
        assert(t[a] == l[a] && t[b] == l[b]);
    }
    text_map::lemma_map_of(t);
    if text_map::map_of(t).dom().contains(l[i].0@) {
        let j = choose|j: int| 0 <= j < t.len() && (#[trigger] t[j]).0@ == l[i].0@;
        assert(l[j].0@ == l[i].0@);
    }
}

/// Drops keys, in their order, until `target` are left.
fn trim(cells: &mut TextMap<GcraCell>, target: usize)
    requires
        target <= old(cells)@.dom().len(),
    ensures
        is_trimmed(old(cells)@, final(cells)@, target as nat),
{
    let ghost m = cells@;
    let mut n: usize = cells.len();
    while n > target
        invariant
            n == cells.list().len(),
            n >= target,
            text_map::distinct_keys(cells.list()),
            is_trimmed(m, cells@, n as nat),
        decreases n,
    {
        let ghost l = cells.list();
        let ghost before = cells@;
        let b: usize = oldest(cells);
        let key = cells.key_at(b).clone();
        cells.remove(key.as_str());
        n = cells.len();
        proof {
            let after = cells@;
            text_map::lemma_map_of(l);
            assert(before.dom().contains(key@));
            assert(after.dom() =~= before.dom().remove(key@));
            assert forall|k: Seq<char>, j: Seq<char>| #[trigger]
                after.dom().contains(k) && #[trigger] m.dom().contains(j) && !after.dom().contains(
                    j,
                ) implies goes_before(m[j], j, m[k], k) by {
                assert(before.dom().contains(k));
                if j == key@ {
                    let i = choose|i: int| 0 <= i < l.len() && (#[trigger] l[i]).0@ == k;
                    assert(i != b);
                    assert(before[l[b as int].0@] == l[b as int].1);
                    assert(before[l[i].0@] == l[i].1);
                    assert(before.dom().contains(l[b as int].0@));
                    assert(before.dom().contains(l[i].0@));
                    assert(m[j] == before[j]);
                    assert(m[k] == before[k]);
                } else {
                    assert(!before.dom().contains(j));
                }
            }
        }
    }
}

/// Sweeps a shard that has reached its cap. Says how many cells it dropped.
pub fn sweep_if_crowded(
    cells: &mut TextMap<GcraCell>,
    now_ms: u64,
    max_idle_ms: u64,
    cap: usize,
) -> (dropped: u64)
    ensures
        is_swept(old(cells)@, final(cells)@, now_ms, max_idle_ms, cap as nat),
        dropped == old(cells)@.dom().len() - final(cells)@.dom().len(),
{
    let before: usize = cells.len();
    if before < cap {
        return 0;
    }
    let mut kept = drop_idle(cells, now_ms, max_idle_ms);
    let fresh: usize = kept.len();
    proof {
        let f = kept@.dom();
        assert(f.subset_of(cells@.dom()));
        vstd::set_lib::lemma_len_subset(f, cells@.dom());
    }
    if fresh >= cap {
        trim(&mut kept, cap / 2);
    }
    let after: usize = kept.len();
    proof {
        assert(kept@.dom().subset_of(cells@.dom()));
        vstd::set_lib::lemma_len_subset(kept@.dom(), cells@.dom());
    }
    *cells = kept;
    (before - after) as u64
}

// ---------------------------------------------------------------------------
// Laws
// ---------------------------------------------------------------------------

/// A sweep leaves room: a shard holds fewer keys than its cap afterwards,
/// and no cell is changed or made up.
pub proof fn law_sweep_makes_room(
    m: Map<Seq<char>, GcraCell>,
    r: Map<Seq<char>, GcraCell>,
    now_ms: u64,
    max_idle_ms: u64,
    cap: nat,
)
    requires
        cap > 0,
        is_swept(m, r, now_ms, max_idle_ms, cap),
    ensures
        r.dom().len() < cap,
        forall|k: Seq<char>| #[trigger]
            r.dom().contains(k) ==> m.dom().contains(k) && r[k] == m[k],
{
}

/// What a sweep leaves is fixed by what was there: dropping keys in their
/// order until a number is left has one result.
pub proof fn law_trimming_has_one_result(
    m: Map<Seq<char>, GcraCell>,
    r: Map<Seq<char>, GcraCell>,
    s: Map<Seq<char>, GcraCell>,
    n: nat,
)
    requires
        is_trimmed(m, r, n),
        is_trimmed(m, s, n),
    ensures
        r == s,
{
    if !r.dom().subset_of(s.dom()) {
        let k = choose|k: Seq<char>| r.dom().contains(k) && !s.dom().contains(k);
        if s.dom().subset_of(r.dom()) {
            vstd::set_lib::lemma_len_subset(s.dom(), r.dom().remove(k));
        } else {
            let j = choose|j: Seq<char>| s.dom().contains(j) && !r.dom().contains(j);
            assert(goes_before(m[j], j, m[k], k));
            assert(goes_before(m[k], k, m[j], j));
            text::lemma_precedes_total(j, k);
        }
    }
    vstd::set_lib::lemma_subset_equality(r.dom(), s.dom());
    assert(r =~= s);
}

/// A sweep leaves a shard below its cap alone. At the cap it drops the cells
/// that were not touched for the idle time, and where too many are left, those
/// that were touched longest ago, until half the cap is left.
pub proof fn law_sweep_drops_idle_cells_first(
    m: Map<Seq<char>, GcraCell>,
    r: Map<Seq<char>, GcraCell>,
    now_ms: u64,
    max_idle_ms: u64,
    cap: nat,
    k: Seq<char>,
)
    requires
        is_swept(m, r, now_ms, max_idle_ms, cap),
        m.dom().contains(k),
    ensures
        m.dom().len() < cap ==> r == m,
        m.dom().len() >= cap && r.dom().contains(k) && m[k].last_touch_ms <= now_ms ==> now_ms
            < m[k].last_touch_ms + max_idle_ms,
        m.dom().len() >= cap && !r.dom().contains(k) && m[k].last_touch_ms <= now_ms && now_ms
            < m[k].last_touch_ms + max_idle_ms ==> r.dom().len() == cap / 2 && forall|j: Seq<char>|
            #[trigger] r.dom().contains(j) ==> m[k].last_touch_ms <= m[j].last_touch_ms,
{
    let fresh = fresh_cells(m, now_ms, max_idle_ms);
    if m.dom().len() >= cap {
        if r.dom().contains(k) {
            assert(fresh.dom().contains(k));
        }
        if !r.dom().contains(k) && m[k].last_touch_ms <= now_ms && now_ms < m[k].last_touch_ms
            + max_idle_ms {
            assert(fresh.dom().contains(k));
            assert(is_trimmed(fresh, r, cap / 2));
            assert forall|j: Seq<char>| #[trigger] r.dom().contains(j) implies m[k].last_touch_ms
                <= m[j].last_touch_ms by {
                assert(fresh.dom().contains(j));
                assert(goes_before(fresh[k], k, fresh[j], j));
            }
        }
    }
}

} // verus!
