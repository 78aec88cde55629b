//! What taking texts apart and putting them in another case comes to.

use vstd::prelude::*;

use crate::text;

verus! {

/// Lower case changes the ASCII letters and nothing else, and so does upper
/// case.
pub proof fn law_case_changes_letters_only(s: Seq<char>, i: int)
    requires
        0 <= i < s.len(),
    ensures
        text::lower(s).len() == s.len(),
        text::upper(s).len() == s.len(),
        'A' <= s[i] <= 'Z' ==> text::lower(s)[i] as u32 == s[i] as u32 + 32,
        !('A' <= s[i] <= 'Z') ==> text::lower(s)[i] == s[i],
        'a' <= s[i] <= 'z' ==> text::upper(s)[i] as u32 == s[i] as u32 - 32,
        !('a' <= s[i] <= 'z') ==> text::upper(s)[i] == s[i],
{
}

/// Texts that differ in case only are the same in lower case.
pub proof fn law_lower_case_is_reached_at_once(s: Seq<char>)
    ensures
        text::lower(text::lower(s)) == text::lower(s),
        text::lower(text::upper(s)) == text::lower(s),
{
    assert(text::lower(text::lower(s)) =~= text::lower(s));
    assert(text::lower(text::upper(s)) =~= text::lower(s));
}

/// Whether a text is white space throughout.
pub open spec fn is_blank(s: Seq<char>) -> bool {
    forall|i: int| 0 <= i < s.len() ==> text::is_white(#[trigger] s[i])
}

proof fn lemma_trim_start(s: Seq<char>) -> (k: int)
    ensures
        0 <= k <= s.len(),
        text::trim_start(s) == s.skip(k),
        is_blank(s.take(k)),
        k < s.len() ==> !text::is_white(s[k]),
    decreases s.len(),
{
    if s.len() > 0 && text::is_white(s[0]) {
        let t = s.skip(1);
        let k = lemma_trim_start(t);
        assert(t.skip(k) =~= s.skip(k + 1));
        assert forall|i: int| 0 <= i < k + 1 implies text::is_white(
            #[trigger] s.take(k + 1)[i],
        ) by {
            if i > 0 {
                assert(t.take(k)[i - 1] == s[i]);
            }
        }
        if k < t.len() {
            assert(t[k] == s[k + 1]);
        }
        k + 1
    } else {
        assert(s.skip(0) =~= s);
        0
    }
}

proof fn lemma_trim_end(s: Seq<char>) -> (k: int)
    ensures
        0 <= k <= s.len(),
        text::trim_end(s) == s.take(k),
        is_blank(s.skip(k)),
        k > 0 ==> !text::is_white(s[k - 1]),
    decreases s.len(),
{
    if s.len() > 0 && text::is_white(s.last()) {
        let t = s.drop_last();
        let k = lemma_trim_end(t);
        assert(t.take(k) =~= s.take(k));
        assert forall|i: int| 0 <= i < s.skip(k).len() implies text::is_white(
            #[trigger] s.skip(k)[i],
        ) by {
            if k + i < t.len() {
                assert(t.skip(k)[i] == s[k + i]);
            }
        }
        k
    } else {
        assert(s.take(s.len() as int) =~= s);
        s.len() as int
    }
}

/// Trimming takes white space off both ends, all of it, and nothing else.
pub proof fn law_trimming_takes_white_space_off(s: Seq<char>) -> (r: (int, int))
    ensures
        0 <= r.0 <= r.1 <= s.len(),
        text::trim(s) == s.subrange(r.0, r.1),
        is_blank(s.take(r.0)),
        is_blank(s.skip(r.1)),
        text::trim(s).len() > 0 ==> !text::is_white(text::trim(s)[0]) && !text::is_white(
            text::trim(s).last(),
        ),
{
    let a = lemma_trim_start(s);
    let t = s.skip(a);
    let k = lemma_trim_end(t);
    assert(t.take(k) =~= s.subrange(a, a + k));
    assert forall|i: int| 0 <= i < s.skip(a + k).len() implies text::is_white(
        #[trigger] s.skip(a + k)[i],
    ) by {
        assert(t.skip(k)[i] == s[a + k + i]);
    }
    if k > 0 {
        assert(t[k - 1] == s[a + k - 1]);
        if a < s.len() {
            assert(t[0] == s[a]);
        }
    }
    (a, a + k)
}

/// A text is cut at the first occurrence of a character: what stands before it
/// does not hold it, and the two sides with it between them are the text.
pub proof fn law_cutting_keeps_both_sides(s: Seq<char>, c: char)
    ensures
        text::split_once(s, c) is None <==> forall|i: int| 0 <= i < s.len() ==> s[i] != c,
        text::split_once(s, c) is Some ==> ({
            let p = text::split_once(s, c)->Some_0;
            &&& s == p.0 + seq![c] + p.1
            &&& forall|i: int| 0 <= i < p.0.len() ==> p.0[i] != c
        }),
{
    text::lemma_find(s, c);
    let i = text::find(s, c);
    if i < s.len() {
        assert(s =~= s.take(i) + seq![c] + s.skip(i + 1));
    }
}

/// Pieces with a character between each two of them.
pub open spec fn rejoined(pieces: Seq<Seq<char>>, c: char) -> Seq<char>
    decreases pieces.len(),
{
    if pieces.len() == 0 {
        seq![]
    } else if pieces.len() == 1 {
        pieces[0]
    } else {
        pieces[0] + seq![c] + rejoined(pieces.skip(1), c)
    }
}

/// A text is split at every occurrence of a character: no piece holds it, and
/// the pieces with it between them are the text.
pub proof fn law_splitting_keeps_every_piece(s: Seq<char>, c: char)
    ensures
        text::split(s, c).len() > 0,
        rejoined(text::split(s, c), c) == s,
        forall|k: int, i: int|
            0 <= k < text::split(s, c).len() && 0 <= i < text::split(s, c)[k].len()
                ==> #[trigger] text::split(s, c)[k][i] != c,
    decreases s.len(),
{
    text::lemma_find(s, c);
    let i = text::find(s, c);
    let all = text::split(s, c);
    if 0 <= i < s.len() {
        let rest = s.skip(i + 1);
        law_splitting_keeps_every_piece(rest, c);
        let tail = text::split(rest, c);
        assert(all.skip(1) =~= tail);
        assert(s =~= s.take(i) + seq![c] + rest);
        assert forall|k: int, j: int| 0 <= k < all.len() && 0 <= j < all[k].len() implies #[trigger] all[k][j]
            != c by {
            if k > 0 {
                assert(all[k] == tail[k - 1]);
                assert(tail[k - 1][j] != c);
            } else {
                assert(all[0][j] == s[j]);
            }
        }
    } else {
        assert(all[0] == s);
    }
}

/// A number is written with decimal digits, and read back from them.
pub proof fn law_numbers_are_read_back(n: nat, max: nat)
    ensures
        text::all_digits(text::dec(n)),
        n <= max ==> text::parse_max(text::dec(n), max) == Some(n),
        n > max ==> text::parse_max(text::dec(n), max) is None,
{
    text::lemma_dec(n);
}

/// Numbers are told apart by their digits.
pub proof fn law_numbers_are_written_apart(a: nat, b: nat)
    requires
        text::dec(a) == text::dec(b),
    ensures
        a == b,
{
    text::lemma_dec(a);
    text::lemma_dec(b);
}

/// A numeral is read exactly if it is made of digits, with at most a plus sign
/// in front.
pub proof fn law_numerals_are_digits(s: Seq<char>)
    ensures
        s.len() > 0 && text::all_digits(s) ==> text::parse_dec(s) is Some,
        s.len() > 0 && s[0] != '+' && !text::all_digits(s) ==> text::parse_dec(s) is None,
        s.len() == 0 ==> text::parse_dec(s) is None,
        s.len() == 1 && '0' <= s[0] <= '9' ==> text::parse_dec(s) == Some(
            (s[0] as nat - 48) as nat,
        ),
{
    if s.len() > 0 && text::all_digits(s) {
        assert('0' <= s[0] <= '9');
    }
    if s.len() == 1 && '0' <= s[0] <= '9' {
        assert(text::all_digits(s));
        assert(s.drop_last() =~= seq![]);
        reveal_with_fuel(text::digits_value, 2);
    }
}

proof fn lemma_find_text(s: Seq<char>, p: Seq<char>, from: int, i: int)
    requires
        0 <= from <= i,
        text::stands_at(s, p, i),
        forall|j: int| from <= j < i ==> !#[trigger] text::stands_at(s, p, j),
    ensures
        text::find_text(s, p, from) == i,
    decreases i - from,
{
    if from < i {
        assert(!text::stands_at(s, p, from));
        lemma_find_text(s, p, from + 1, i);
    }
}

/// What follows a text is what stands behind the first place where it stands.
pub proof fn law_what_follows_stands_behind(a: Seq<char>, p: Seq<char>, b: Seq<char>)
    requires
        forall|j: int| 0 <= j < a.len() ==> !#[trigger] text::stands_at(a + p + b, p, j),
    ensures
        text::after_text(a + p + b, p) == Some(b),
{
    let s = a + p + b;
    let i = a.len() as int;
    assert(s.subrange(i, i + p.len()) =~= p);
    lemma_find_text(s, p, 0, i);
    assert(s.skip(i + p.len()) =~= b);
}

} // verus!
