//! Header fields as a list of names and values. Names are in lower case, and
//! a name may stand there more than once.

use vstd::prelude::*;
use vstd::string::*;

use crate::lists;
use crate::text;
use crate::text::same;

verus! {

/// Whether a text can be a header value: no control characters but the tab.
pub open spec fn is_header_value(s: Seq<char>) -> bool {
    forall|i: int| 0 <= i < s.len() ==> is_header_char(#[trigger] s[i])
}

/// Whether a character can stand in a header value.
pub open spec fn is_header_char(c: char) -> bool {
    let u = c as u32;
    (u >= 32 && u != 127) || u == 9
}

/// `http::HeaderValue::from_str`: accepts exactly the texts without control
/// characters, the tab excepted.
#[verifier::external_body]
pub(crate) fn header_value_accepts(s: &str) -> (r: bool)
    ensures
        r == is_header_value(s@),
{
    http::HeaderValue::from_str(s).is_ok()
}

/// Whether a header value can be read as text: visible ASCII, spaces and
/// tabs.
pub open spec fn is_readable(s: Seq<char>) -> bool {
    forall|i: int| 0 <= i < s.len() ==> is_readable_char(#[trigger] s[i])
}

/// Whether a character is visible ASCII, a space or a tab.
pub open spec fn is_readable_char(c: char) -> bool {
    let u = c as u32;
    (32 <= u && u < 127) || u == 9
}

/// A header value, if there is one that can be read as text.
pub open spec fn read_value(value: Option<&str>) -> Option<&str> {
    match value {
        Some(v) => if is_readable(v@) {
            Some(v)
        } else {
            None
        },
        None => None,
    }
}

/// Whether a header value can be read as text.
pub fn readable(s: &str) -> (r: bool)
    ensures
        r == is_readable(s@),
{
    let n: usize = s.unicode_len();
    let mut i: usize = 0;
    while i < n
        invariant
            i <= n,
            n == s@.len(),
            forall|j: int| 0 <= j < i ==> is_readable_char(#[trigger] s@[j]),
        decreases n - i,
    {
        let u: u32 = s.get_char(i) as u32;
        if !((32 <= u && u < 127) || u == 9) {
            assert(!is_readable_char(s@[i as int]));
            return false;
        }
        i = i + 1;
    }
    true
}

/// A header value, if there is one that can be read as text.
pub fn read<'a>(value: Option<&'a str>) -> (r: Option<&'a str>)
    ensures
        r == read_value(value),
{
    match value {
        Some(v) => if readable(v) {
            Some(v)
        } else {
            None
        },
        None => None,
    }
}

/// The fields of other names.
pub open spec fn without(h: Seq<(Seq<char>, Seq<char>)>, name: Seq<char>) -> Seq<
    (Seq<char>, Seq<char>),
> {
    h.filter(|p: (Seq<char>, Seq<char>)| p.0 != name)
}

/// The fields with one field put in place of all of its name.
pub open spec fn with_field(
    h: Seq<(Seq<char>, Seq<char>)>,
    name: Seq<char>,
    value: Seq<char>,
) -> Seq<(Seq<char>, Seq<char>)> {
    without(h, name).push((name, value))
}

/// Puts one field in place of all of its name.
pub fn set_field(h: &mut Vec<(String, String)>, name: &str, value: &str)
    ensures
        text::text_pairs(final(h)@) == with_field(text::text_pairs(old(h)@), name@, value@),
{
    let ghost all = text::text_pairs(h@);
    let ghost p = |p: (Seq<char>, Seq<char>)| p.0 != name@;
    let mut kept: Vec<(String, String)> = Vec::new();
    let mut i: usize = 0;
    proof {
        lists::lemma_filter_ends(all, p);
        assert(text::text_pairs(kept@) =~= all.take(0).filter(p));
    }
    while i < h.len()
        invariant
            i <= h.len(),
            h@ == old(h)@,
            all == text::text_pairs(h@),
            p == (|p: (Seq<char>, Seq<char>)| p.0 != name@),
            text::text_pairs(kept@) == all.take(i as int).filter(p),
        decreases h.len() - i,
    {
        proof {
            lists::lemma_filter_step(all, p, i as int);
        }
        if !same(h[i].0.as_str(), name) {
            let pair = (h[i].0.clone(), h[i].1.clone());
            assert(text::text_pairs(kept@.push(pair)) =~= text::text_pairs(kept@).push(
                all[i as int],
            ));
            kept.push(pair);
        }
        i = i + 1;
    }
    let pair = (name.to_owned(), value.to_owned());
    assert(text::text_pairs(kept@.push(pair)) =~= text::text_pairs(kept@).push((name@, value@)));
    kept.push(pair);
    *h = kept;
}

/// Adds one field behind the others.
pub fn add_field(h: &mut Vec<(String, String)>, name: &str, value: &str)
    ensures
        text::text_pairs(final(h)@) == text::text_pairs(old(h)@).push((name@, value@)),
{
    let pair = (name.to_owned(), value.to_owned());
    assert(text::text_pairs(h@.push(pair)) =~= text::text_pairs(h@).push((name@, value@)));
    h.push(pair);
}

} // verus!
