//! API versioning aids: the Accept media-type criterion of route matching,
//! and the Deprecation/Sunset response-header automation.
//!
//! `match.accept` of a route names one media type; the route applies when
//! any entry of an Accept header names that type and subtype, in any case,
//! parameters and q-values ignored. Wildcard entries and a missing Accept
//! never match: version selection requires the client to name the version,
//! so unconstrained clients fall through to the unversioned default route.

use vstd::prelude::*;
use vstd::string::*;

use crate::headers;
use crate::headers::{add_field, header_value_accepts, readable, set_field};
use crate::text;
use crate::text::{cut, same, same_ignoring_case, trimmed};

verus! {

/// The deprecation policy of a route, as the header values to emit.
#[derive(Debug, Clone, PartialEq, Eq)]
pub struct CompiledDeprecation {
    pub deprecation: Option<String>,
    pub sunset: Option<String>,
    pub link: Option<String>,
}

/// What an entry of an Accept header names: the entry up to its parameters,
/// without the white space around it.
pub open spec fn entry_type(entry: Seq<char>) -> Seq<char> {
    text::trim(text::split(entry, ';')[0])
}

/// Whether an entry names a media type.
pub open spec fn entry_names(entry: Seq<char>, want: Seq<char>) -> bool {
    entry_type(entry).len() > 0 && text::lower(entry_type(entry)) == text::lower(want)
}

/// Whether one Accept header value lists a media type.
pub open spec fn lists_media_type(raw: Seq<char>, want: Seq<char>) -> bool {
    exists|i: int|
        0 <= i < text::split(raw, ',').len() && entry_names(#[trigger] text::split(raw, ',')[i], want)
}

/// Whether a header field is an Accept header that lists a media type. One
/// that cannot be read as text lists none.
pub open spec fn field_accepts(field: (Seq<char>, Seq<char>), want: Seq<char>) -> bool {
    field.0 == "accept"@ && headers::is_readable(field.1) && lists_media_type(field.1, want)
}

/// Whether any Accept header of a request lists a media type.
pub open spec fn accepts(h: Seq<(Seq<char>, Seq<char>)>, want: Seq<char>) -> bool {
    exists|i: int| 0 <= i < h.len() && field_accepts(#[trigger] h[i], want)
}

/// One `Accept` header value: does any of its comma-separated media
/// ranges equal `want` on type/subtype?
fn accept_lists_media_type(raw: &str, want: &str) -> (r: bool)
    ensures
        r == lists_media_type(raw@, want@),
{
    let entries = cut(raw, ',');
    let ghost parts = text::split(raw@, ',');
    let mut i: usize = 0;
    while i < entries.len()
        invariant
            i <= entries.len(),
            text::texts(entries@) == parts,
            parts == text::split(raw@, ','),
            forall|j: int| 0 <= j < i ==> !entry_names(#[trigger] parts[j], want@),
        decreases entries.len() - i,
    {
        let fields = cut(entries[i].as_str(), ';');
        assert(text::texts(entries@)[i as int] == entries@[i as int]@);
        assert(text::split(entries@[i as int]@, ';').len() > 0);
        assert(text::texts(fields@)[0] == fields@[0]@);
        let media_type = trimmed(fields[0].as_str());
        if media_type.as_str().unicode_len() > 0 && same_ignoring_case(media_type.as_str(), want) {
            assert(entry_names(parts[i as int], want@));
            return true;
        }
        i = i + 1;
    }
    assert(parts.len() == entries@.len());
    false
}

/// Does the request's `Accept` header name `media_type`? Any
/// comma-separated entry of any `Accept` header line matches, in any case,
/// with parameters and surrounding whitespace ignored. A header line that is
/// not visible ASCII never matches.
pub fn accept_matches(headers: &Vec<(String, String)>, media_type: &str) -> (r: bool)
    ensures
        r == accepts(text::text_pairs(headers@), media_type@),
{
    let ghost h = text::text_pairs(headers@);
    let mut i: usize = 0;
    while i < headers.len()
        invariant
            i <= headers.len(),
            h == text::text_pairs(headers@),
            forall|j: int|
                0 <= j < i ==> !field_accepts(#[trigger] h[j], media_type@),
        decreases headers.len() - i,
    {
        assert(h[i as int] == (headers@[i as int].0@, headers@[i as int].1@));
        if same(headers[i].0.as_str(), "accept") && readable(headers[i].1.as_str())
            && accept_lists_media_type(headers[i].1.as_str(), media_type) {
            return true;
        }
        i = i + 1;
    }
    false
}

/// The header value to emit, if there is one that can be sent.
pub open spec fn emitted(v: Option<String>) -> Option<Seq<char>> {
    match v {
        Some(s) => if headers::is_header_value(s@) {
            Some(s@)
        } else {
            None
        },
        None => None,
    }
}

/// The fields with a policy header in place of those of its name.
pub open spec fn stamped(
    h: Seq<(Seq<char>, Seq<char>)>,
    name: Seq<char>,
    v: Option<String>,
) -> Seq<(Seq<char>, Seq<char>)> {
    match emitted(v) {
        Some(s) => headers::with_field(h, name, s),
        None => h,
    }
}

/// The fields of a response of a deprecated route.
pub open spec fn decorated(h: Seq<(Seq<char>, Seq<char>)>, dep: CompiledDeprecation) -> Seq<
    (Seq<char>, Seq<char>),
> {
    let h = stamped(stamped(h, "deprecation"@, dep.deprecation), "sunset"@, dep.sunset);
    match emitted(dep.link) {
        Some(s) => h.push(("link"@, s)),
        None => h,
    }
}

/// Stamp a route's deprecation policy onto the header fields of a response.
/// `deprecation` and `sunset` replace any values sent by the upstream;
/// `link` is appended, so that the upstream's links survive. A value that
/// cannot be sent is skipped.
pub fn decorate(headers: &mut Vec<(String, String)>, dep: &CompiledDeprecation)
    ensures
        text::text_pairs(final(headers)@) == decorated(text::text_pairs(old(headers)@), *dep),
{
    if let Some(v) = &dep.deprecation {
        if header_value_accepts(v.as_str()) {
            set_field(headers, "deprecation", v.as_str());
        }
    }
    if let Some(v) = &dep.sunset {
        if header_value_accepts(v.as_str()) {
            set_field(headers, "sunset", v.as_str());
        }
    }
    if let Some(v) = &dep.link {
        if header_value_accepts(v.as_str()) {
            add_field(headers, "link", v.as_str());
        }
    }
}

// ---------------------------------------------------------------------------
// Laws
// ---------------------------------------------------------------------------

/// Without an Accept header no media type matches.
pub proof fn law_missing_accept_never_matches(h: Seq<(Seq<char>, Seq<char>)>, want: Seq<char>)
    requires
        forall|i: int| 0 <= i < h.len() ==> (#[trigger] h[i]).0 != "accept"@,
    ensures
        !accepts(h, want),
{
}

/// The fields that are neither of the policy's names survive, in order.
pub proof fn law_other_fields_survive(h: Seq<(Seq<char>, Seq<char>)>, dep: CompiledDeprecation)
    ensures
        decorated(h, dep).filter(
            |p: (Seq<char>, Seq<char>)|
                p.0 != "deprecation"@ && p.0 != "sunset"@ && p.0 != "link"@,
        ) == h.filter(
            |p: (Seq<char>, Seq<char>)|
                p.0 != "deprecation"@ && p.0 != "sunset"@ && p.0 != "link"@,
        ),
{
    let other = |p: (Seq<char>, Seq<char>)|
        p.0 != "deprecation"@ && p.0 != "sunset"@ && p.0 != "link"@;
    let h1 = stamped(h, "deprecation"@, dep.deprecation);
    let h2 = stamped(h1, "sunset"@, dep.sunset);
    lemma_stamped_keeps(h, "deprecation"@, dep.deprecation, other);
    lemma_stamped_keeps(h1, "sunset"@, dep.sunset, other);
    if let Some(s) = emitted(dep.link) {
        lemma_filter_push(h2, other, ("link"@, s));
    }
}

proof fn lemma_filter_push(
    h: Seq<(Seq<char>, Seq<char>)>,
    p: spec_fn((Seq<char>, Seq<char>)) -> bool,
    x: (Seq<char>, Seq<char>),
)
    ensures
        h.push(x).filter(p) == if p(x) {
            h.filter(p).push(x)
        } else {
            h.filter(p)
        },
{
    reveal(Seq::filter);
    assert(h.push(x).drop_last() =~= h);
}

proof fn lemma_stamped_keeps(
    h: Seq<(Seq<char>, Seq<char>)>,
    name: Seq<char>,
    v: Option<String>,
    p: spec_fn((Seq<char>, Seq<char>)) -> bool,
)
    requires
        forall|x: (Seq<char>, Seq<char>)| x.0 == name ==> !(#[trigger] p(x)),
    ensures
        stamped(h, name, v).filter(p) == h.filter(p),
{
    if let Some(s) = emitted(v) {
        let kept = headers::without(h, name);
        lemma_filter_push(kept, p, (name, s));
        lemma_without_keeps(h, name, p);
    }
}

proof fn lemma_without_keeps(
    h: Seq<(Seq<char>, Seq<char>)>,
    name: Seq<char>,
    p: spec_fn((Seq<char>, Seq<char>)) -> bool,
)
    requires
        forall|x: (Seq<char>, Seq<char>)| x.0 == name ==> !(#[trigger] p(x)),
    ensures
        headers::without(h, name).filter(p) == h.filter(p),
    decreases h.len(),
{
    reveal(Seq::filter);
    if h.len() > 0 {
        let before = headers::without(h.drop_last(), name);
        lemma_without_keeps(h.drop_last(), name, p);
        if h.last().0 != name {
            assert(headers::without(h, name) == before.push(h.last()));
            lemma_filter_push(before, p, h.last());
        } else {
            assert(headers::without(h, name) == before);
            assert(!p(h.last()));
        }
    } else {
        assert(headers::without(h, name) =~= h);
    }
}

/// A list of media types is searched entry by entry: it names a type exactly
/// if its first entry does, or the rest of it.
pub proof fn law_lists_are_searched_entry_by_entry(
    entry: Seq<char>,
    rest: Seq<char>,
    want: Seq<char>,
)
    requires
        forall|i: int| 0 <= i < entry.len() ==> entry[i] != ',',
    ensures
        lists_media_type(entry.push(',') + rest, want) <==> lists_media_type(entry, want)
            || lists_media_type(rest, want),
        lists_media_type(entry, want) <==> entry_names(entry, want),
{
    text::lemma_split_piece(entry, ',', rest);
    let whole = text::split(entry.push(',') + rest, ',');
    let tail = text::split(rest, ',');
    let alone = text::split(entry, ',');
    assert(whole[0] == entry);
    assert(alone[0] == entry && alone.len() == 1);
    if lists_media_type(rest, want) {
        let k = choose|k: int| 0 <= k < tail.len() && entry_names(#[trigger] tail[k], want);
        assert(whole[k + 1] == tail[k]);
    }
    if lists_media_type(entry.push(',') + rest, want) {
        let k = choose|k: int| 0 <= k < whole.len() && entry_names(#[trigger] whole[k], want);
        if k > 0 {
            assert(tail[k - 1] == whole[k]);
        } else {
            assert(entry_names(alone[0], want));
        }
    }
    if entry_names(entry, want) {
        assert(entry_names(whole[0], want));
        assert(entry_names(alone[0], want));
    }
}

/// An entry names a media type in whatever case, and whatever parameters it
/// has; a wildcard names none but itself.
pub proof fn law_entries_name_types_in_any_case(t: Seq<char>, params: Seq<char>, want: Seq<char>)
    requires
        t.len() > 0,
        forall|i: int| 0 <= i < t.len() ==> t[i] != ';',
        !text::is_white(t[0]),
        !text::is_white(t.last()),
    ensures
        entry_names(t, want) <==> text::lower(t) == text::lower(want),
        entry_names(t.push(';') + params, want) <==> text::lower(t) == text::lower(want),
{
    text::lemma_split_piece(t, ';', params);
    assert(text::split(t, ';')[0] == t);
    assert(text::split(t.push(';') + params, ';')[0] == t);
}

/// The Accept fields count, all of them, and no other field does.
pub proof fn law_any_accept_field_counts(h: Seq<(Seq<char>, Seq<char>)>, want: Seq<char>)
    ensures
        accepts(h, want) <==> exists|i: int|
            0 <= i < h.len() && (#[trigger] h[i]).0 == "accept"@ && headers::is_readable(h[i].1)
                && lists_media_type(h[i].1, want),
{
    if exists|i: int|
        0 <= i < h.len() && (#[trigger] h[i]).0 == "accept"@ && headers::is_readable(h[i].1)
            && lists_media_type(h[i].1, want) {
        let i = choose|i: int|
            0 <= i < h.len() && (#[trigger] h[i]).0 == "accept"@ && headers::is_readable(h[i].1)
                && lists_media_type(h[i].1, want);
        assert(field_accepts(h[i], want));
    }
}

/// The fields of a name.
pub open spec fn fields_named(h: Seq<(Seq<char>, Seq<char>)>, name: Seq<char>) -> Seq<
    (Seq<char>, Seq<char>),
> {
    h.filter(is_named(name))
}

/// Whether a field has a name.
pub open spec fn is_named(name: Seq<char>) -> spec_fn((Seq<char>, Seq<char>)) -> bool {
    |p: (Seq<char>, Seq<char>)| p.0 == name
}

/// Whether a value is there and can stand in a header.
pub open spec fn is_set(v: Option<String>) -> bool {
    v is Some && headers::is_header_value(v->Some_0@)
}

proof fn lemma_without_named(h: Seq<(Seq<char>, Seq<char>)>, name: Seq<char>)
    ensures
        fields_named(headers::without(h, name), name) == Seq::<(Seq<char>, Seq<char>)>::empty(),
    decreases h.len(),
{
    reveal(Seq::filter);
    let named = is_named(name);
    if h.len() > 0 {
        let before = headers::without(h.drop_last(), name);
        lemma_without_named(h.drop_last(), name);
        if h.last().0 != name {
            assert(headers::without(h, name) == before.push(h.last()));
            lemma_filter_push(before, named, h.last());
            assert(!named(h.last()));
            assert(fields_named(headers::without(h, name), name) == before.filter(named));
        } else {
            assert(headers::without(h, name) == before);
        }
    } else {
        assert(headers::without(h, name) =~= h);
        assert(fields_named(h, name) =~= h);
    }
}

proof fn lemma_stamped_named(h: Seq<(Seq<char>, Seq<char>)>, name: Seq<char>, v: Option<String>)
    ensures
        is_set(v) ==> fields_named(stamped(h, name, v), name) == seq![(name, v->Some_0@)],
        !is_set(v) ==> stamped(h, name, v) == h,
{
    if is_set(v) {
        let named = is_named(name);
        lemma_without_named(h, name);
        let x = (name, v->Some_0@);
        lemma_filter_push(headers::without(h, name), named, x);
        assert(named(x));
        assert(stamped(h, name, v) == headers::without(h, name).push(x));
        assert(fields_named(stamped(h, name, v), name) =~= seq![(name, v->Some_0@)]);
    }
}

/// A deprecated version says so: the response has the Deprecation and the
/// Sunset of the policy, once each, and its Link behind those that are there;
/// what the policy does not set stays as it is.
pub proof fn law_deprecation_is_announced(h: Seq<(Seq<char>, Seq<char>)>, dep: CompiledDeprecation)
    ensures
        ({
            let r = decorated(h, dep);
            &&& is_set(dep.deprecation) ==> fields_named(r, "deprecation"@) == seq![
                ("deprecation"@, dep.deprecation->Some_0@),
            ]
            &&& !is_set(dep.deprecation) ==> fields_named(r, "deprecation"@) == fields_named(
                h,
                "deprecation"@,
            )
            &&& is_set(dep.sunset) ==> fields_named(r, "sunset"@) == seq![
                ("sunset"@, dep.sunset->Some_0@),
            ]
            &&& !is_set(dep.sunset) ==> fields_named(r, "sunset"@) == fields_named(h, "sunset"@)
            &&& is_set(dep.link) ==> fields_named(r, "link"@) == fields_named(h, "link"@).push(
                ("link"@, dep.link->Some_0@),
            )
            &&& !is_set(dep.link) ==> fields_named(r, "link"@) == fields_named(h, "link"@)
        }),
{
    reveal_strlit("deprecation");
    reveal_strlit("sunset");
    reveal_strlit("link");
    assert("deprecation"@.len() == 11 && "sunset"@.len() == 6 && "link"@.len() == 4);
    let a = is_named("deprecation"@);
    let b = is_named("sunset"@);
    let c = is_named("link"@);
    let h1 = stamped(h, "deprecation"@, dep.deprecation);
    let h2 = stamped(h1, "sunset"@, dep.sunset);
    lemma_stamped_named(h, "deprecation"@, dep.deprecation);
    lemma_stamped_named(h1, "sunset"@, dep.sunset);
    lemma_stamped_keeps(h, "deprecation"@, dep.deprecation, b);
    lemma_stamped_keeps(h, "deprecation"@, dep.deprecation, c);
    lemma_stamped_keeps(h1, "sunset"@, dep.sunset, a);
    lemma_stamped_keeps(h1, "sunset"@, dep.sunset, c);
    if is_set(dep.link) {
        let x = ("link"@, dep.link->Some_0@);
        lemma_filter_push(h2, a, x);
        lemma_filter_push(h2, b, x);
        lemma_filter_push(h2, c, x);
    }
}

} // verus!
