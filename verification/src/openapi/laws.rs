//! What a response is held against, and what that comes to.

use vstd::prelude::*;

use crate::json;
use crate::json::JsonView;
use crate::openapi;
use crate::openapi::{KeyView, ResponseView, StatusPattern, ValidatorView, VerdictView};
use crate::text;

verus! {

// ---------------------------------------------------------------------------
// The choice
// ---------------------------------------------------------------------------

/// Whether a content type is one that schemas are taken for.
pub open spec fn is_known_type(t: Seq<char>) -> bool {
    ||| t == "application/json"@
    ||| t == "application/problem+json"@
    ||| t == "application/vnd.api+json"@
    ||| t == "text/plain"@
    ||| t == "application/xml"@
}

/// Whether a schema under a key is one for a response: for its path, its
/// method in upper case and its status, by the code, the family or as the
/// default; and for its content type, for a known one, or for none.
pub open spec fn fits(key: KeyView, r: ResponseView) -> bool {
    &&& key.path == r.path
    &&& key.method == text::upper_text(r.method)
    &&& key.status is Exact ==> key.status->Exact_0 == r.status
    &&& key.status is Family ==> key.status->Family_0 == (r.status / 100) % 256
    &&& is_known_type(key.content_type) || key.content_type.len() == 0 || openapi::base_type(
        r.content_type,
    ) == Some(key.content_type)
}

/// How specific a status pattern is, the most specific first.
pub open spec fn rank(p: StatusPattern) -> int {
    if p is Exact {
        0
    } else if p is Family {
        1
    } else {
        2
    }
}

proof fn lemma_first_place(s: Seq<(KeyView, JsonView)>, key: KeyView)
    ensures
        openapi::place(s, key) <= s.len(),
        openapi::place(s, key) < s.len() ==> s[openapi::place(s, key) as int].0 == key,
        forall|i: int| 0 <= i < openapi::place(s, key) ==> (#[trigger] s[i]).0 != key,
    decreases s.len(),
{
    if s.len() > 0 && s[0].0 != key {
        let t = s.skip(1);
        lemma_first_place(t, key);
        assert forall|i: int| 0 <= i < openapi::place(s, key) implies (#[trigger] s[i]).0 != key by {
            if i > 0 {
                assert(t[i - 1] == s[i]);
            }
        }
    }
}

proof fn lemma_others(c: Seq<char>, n: nat)
    requires
        n <= openapi::supported().len(),
    ensures
        forall|k: int|
            0 <= k < n && #[trigger] openapi::supported()[k] != c ==> openapi::others(c, n).contains(
                openapi::supported()[k],
            ),
        forall|k: int|
            0 <= k < openapi::others(c, n).len() ==> openapi::supported().contains(
                #[trigger] openapi::others(c, n)[k],
            ),
    decreases n,
{
    if n > 0 {
        let m = (n - 1) as nat;
        lemma_others(c, m);
        let before = openapi::others(c, m);
        let after = openapi::others(c, n);
        let x = openapi::supported()[m as int];
        assert forall|k: int| 0 <= k < n && #[trigger] openapi::supported()[k] != c implies after.contains(
            openapi::supported()[k],
        ) by {
            if k < m {
                let j = before.index_of(openapi::supported()[k]);
                assert(after[j] == openapi::supported()[k]);
            } else {
                assert(after[before.len() as int] == x);
            }
        }
        assert forall|k: int| 0 <= k < after.len() implies openapi::supported().contains(
            #[trigger] after[k],
        ) by {
            if k < before.len() {
                assert(after[k] == before[k]);
            }
        }
    }
}

proof fn lemma_supported(t: Seq<char>)
    ensures
        openapi::supported().contains(t) <==> is_known_type(t),
{
    let s = openapi::supported();
    assert(s[0] == "application/json"@);
    assert(s[1] == "application/problem+json"@);
    assert(s[2] == "application/vnd.api+json"@);
    assert(s[3] == "text/plain"@);
    assert(s[4] == "application/xml"@);
    assert(s.len() == 5);
}

/// The types that are tried, and that the response's own comes first.
proof fn lemma_types(ct: Option<Seq<char>>, t: Seq<char>)
    ensures
        openapi::types_to_try(ct).contains(t) <==> is_known_type(t) || t.len() == 0 || ct == Some(
            t,
        ),
        ct is Some ==> openapi::types_to_try(ct).len() > 0 && openapi::types_to_try(ct)[0]
            == ct->Some_0,
{
    reveal_strlit("");
    lemma_supported(t);
    let s = openapi::supported();
    let v = openapi::types_to_try(ct);
    assert(t.len() == 0 ==> t =~= ""@);
    assert(v[v.len() - 1] == ""@);
    if ct is Some {
        let c = ct->Some_0;
        lemma_others(c, s.len());
        let o = openapi::others(c, s.len());
        if s.contains(t) && t != c {
            let k = s.index_of(t);
            assert(s[k] == t);
            let j = o.index_of(t);
            assert(v[1 + j] == t);
        }
        if v.contains(t) {
            let j = v.index_of(t);
            if 0 < j < v.len() - 1 {
                assert(o[j - 1] == t);
            }
        }
        if t == c {
            assert(v[0] == t);
        }
    } else {
        if s.contains(t) {
            let k = s.index_of(t);
            assert(v[k] == t);
        }
        if v.contains(t) {
            let j = v.index_of(t);
            if j < s.len() {
                assert(s[j] == t);
            }
        }
    }
}

/// What a schema was chosen from.
proof fn lemma_choice(s: Seq<(KeyView, JsonView)>, keys: Seq<KeyView>, i: nat)
    ensures
        openapi::chosen(s, keys, i) is Some ==> exists|j: int| #[trigger]
            is_first(s, (openapi::chosen(s, keys, i)->0).0, j) && s[j] == openapi::chosen(
                s,
                keys,
                i,
            )->0,
    decreases keys.len() - i,
{
    if i < keys.len() {
        lemma_first_place(s, keys[i as int]);
        if openapi::schema_at(s, keys[i as int]) is Some {
            let j = openapi::place(s, keys[i as int]) as int;
            assert(is_first(s, keys[i as int], j));
            assert(s[j] == (keys[i as int], s[j].1));
            assert(s[j] == openapi::chosen(s, keys, i)->0);
        } else {
            lemma_choice(s, keys, i + 1);
        }
    }
}

/// Whether the schema at `j` is the first under a key.
pub open spec fn is_first(s: Seq<(KeyView, JsonView)>, key: KeyView, j: int) -> bool {
    &&& 0 <= j < s.len()
    &&& s[j].0 == key
    &&& forall|i: int| 0 <= i < j ==> (#[trigger] s[i]).0 != key
}

/// The place of a key among the candidates.
proof fn lemma_candidate(r: ResponseView, key: KeyView) -> (k: int)
    requires
        fits(key, r),
    ensures
        ({
            let ct = openapi::base_type(r.content_type);
            let n = openapi::types_to_try(ct).len() as int;
            let keys = openapi::candidates(r.path, text::upper_text(r.method), r.status, ct);
            &&& 0 <= k < keys.len()
            &&& keys.len() == 3 * n
            &&& keys[k] == key
            &&& rank(key.status) == 0 ==> k < n
            &&& rank(key.status) == 1 ==> n <= k < 2 * n
            &&& rank(key.status) == 2 ==> 2 * n <= k
            &&& ct == Some(key.content_type) ==> k == 0 || k == n || k == 2 * n
        }),
{
    let ct = openapi::base_type(r.content_type);
    let types = openapi::types_to_try(ct);
    let n = types.len() as int;
    let keys = openapi::candidates(r.path, text::upper_text(r.method), r.status, ct);
    lemma_types(ct, key.content_type);
    let t: int = if ct == Some(key.content_type) {
        0
    } else {
        types.index_of(key.content_type)
    };
    assert(types[t] == key.content_type);
    let k: int = if key.status is Exact {
        t
    } else if key.status is Family {
        n + t
    } else {
        2 * n + t
    };
    assert(keys.len() == 3 * n);
    if key.status is Exact {
        assert(keys[t] =~= key);
    } else if key.status is Family {
        assert(keys[n + t] =~= key);
    } else {
        assert(keys[2 * n + t] =~= key);
    }
    assert(keys[k] == key);
    k
}

/// Every candidate fits.
proof fn lemma_candidates_fit(r: ResponseView, k: int)
    requires
        0 <= k < openapi::candidates(
            r.path,
            text::upper_text(r.method),
            r.status,
            openapi::base_type(r.content_type),
        ).len(),
    ensures
        ({
            let ct = openapi::base_type(r.content_type);
            let n = openapi::types_to_try(ct).len() as int;
            let keys = openapi::candidates(r.path, text::upper_text(r.method), r.status, ct);
            &&& fits(keys[k], r)
            &&& k < n ==> rank(keys[k].status) == 0
            &&& n <= k < 2 * n ==> rank(keys[k].status) == 1
            &&& 2 * n <= k ==> rank(keys[k].status) == 2
            &&& ct is Some && (k == 0 || k == n || k == 2 * n) ==> keys[k].content_type
                == ct->Some_0
        }),
{
    let ct = openapi::base_type(r.content_type);
    let types = openapi::types_to_try(ct);
    let n = types.len() as int;
    let keys = openapi::candidates(r.path, text::upper_text(r.method), r.status, ct);
    let t: int = if k < n {
        k
    } else if k < 2 * n {
        k - n
    } else {
        k - 2 * n
    };
    assert(types.contains(types[t]));
    lemma_types(ct, types[t]);
    assert(keys[k].content_type == types[t]);
}

/// A response is held against the most specific schema that fits it: where
/// there is one that fits, one is chosen, none is chosen over one with a more
/// specific status, and among those of one status the one for the response's
/// own content type is.
pub proof fn law_most_specific_schema_is_chosen(v: ValidatorView, r: ResponseView, i: int)
    requires
        0 <= i < v.schemas.len(),
        fits(v.schemas[i].0, r),
    ensures
        ({
            let key = v.schemas[i].0;
            let c = openapi::schema_of_response(v, r);
            &&& c is Some
            &&& rank((c->0).0.status) <= rank(key.status)
            &&& rank((c->0).0.status) == rank(key.status) && openapi::base_type(r.content_type)
                == Some(key.content_type) ==> (c->0).0.content_type == key.content_type
        }),
{
    let ct = openapi::base_type(r.content_type);
    let keys = openapi::candidates(r.path, text::upper_text(r.method), r.status, ct);
    let n = openapi::types_to_try(ct).len() as int;
    let key = v.schemas[i].0;
    let k = lemma_candidate(r, key);
    lemma_first_place(v.schemas, key);
    assert(openapi::schema_at(v.schemas, key) is Some);
    openapi::lemma_chosen(v.schemas, keys, 0, k as nat);
    let c = openapi::schema_of_response(v, r);
    let j = choose|j: nat|
        0 <= j <= k && (#[trigger] keys[j as int]) == (c->0).0 && openapi::schema_at(
            v.schemas,
            keys[j as int],
        ) == Some((c->0).1);
    lemma_candidates_fit(r, j as int);
    if rank(key.status) == 0 {
        assert(j < n);
    } else if rank(key.status) == 1 {
        assert(j < 2 * n);
    }
}

/// What is chosen fits the response, and is the first of the schemas under
/// its key; nothing is chosen where nothing fits.
pub proof fn law_chosen_schema_fits(v: ValidatorView, r: ResponseView)
    ensures
        ({
            let c = openapi::schema_of_response(v, r);
            &&& c is Some ==> fits((c->0).0, r) && exists|j: int| #[trigger]
                is_first(v.schemas, (c->0).0, j) && v.schemas[j] == c->0
            &&& c is None <==> forall|i: int|
                0 <= i < v.schemas.len() ==> !fits((#[trigger] v.schemas[i]).0, r)
        }),
{
    let ct = openapi::base_type(r.content_type);
    let keys = openapi::candidates(r.path, text::upper_text(r.method), r.status, ct);
    let c = openapi::schema_of_response(v, r);
    if c is Some {
        openapi::lemma_chosen_is_candidate(v.schemas, keys, 0);
        let k = keys.index_of((c->0).0);
        lemma_candidates_fit(r, k);
        lemma_choice(v.schemas, keys, 0);
        let j = choose|j: int| #[trigger]
            is_first(v.schemas, (c->0).0, j) && v.schemas[j] == c->0;
        assert(fits(v.schemas[j].0, r));
    } else {
        assert forall|i: int| 0 <= i < v.schemas.len() implies !fits(
            (#[trigger] v.schemas[i]).0,
            r,
        ) by {
            if fits(v.schemas[i].0, r) {
                law_most_specific_schema_is_chosen(v, r, i);
            }
        }
    }
}

// ---------------------------------------------------------------------------
// The verdict
// ---------------------------------------------------------------------------

/// The body of a response is judged by the schema that was chosen, for every
/// method: it is valid exactly if the schema has no violations for it, and
/// otherwise invalid with just these. Only a body under a schema for XML, and
/// a response without a body, are not judged. A response that nothing was
/// chosen for is invalid in strict mode, and else not validated.
pub proof fn law_body_is_judged_by_the_chosen_schema(v: ValidatorView, r: ResponseView)
    ensures
        ({
            let c = openapi::schema_of_response(v, r);
            let verdict = openapi::verdict(v, r);
            &&& c is Some && r.body is Some && (c->0).0.content_type != "application/xml"@ ==> ({
                let found = openapi::schema_violations((c->0).1, r.body->Some_0);
                &&& verdict is Valid <==> found.len() == 0
                &&& found.len() > 0 ==> verdict is Invalid && verdict->errors == found
            })
            &&& c is Some && (r.body is None || (c->0).0.content_type == "application/xml"@)
                ==> verdict is Valid
            &&& c is None && !v.strict ==> verdict is NoSchema
            &&& c is None && v.strict ==> verdict is Invalid && verdict->errors.len() == 1
                && verdict->errors[0].0 == r.path
        }),
{
}

/// Whether the schema at `j` is the one that a response is to be held
/// against: it fits, is the first under its key, and no schema that fits is
/// more specific.
pub open spec fn is_chosen(v: ValidatorView, r: ResponseView, j: int) -> bool {
    let key = v.schemas[j].0;
    &&& is_first(v.schemas, key, j)
    &&& fits(key, r)
    &&& forall|i: int|
        0 <= i < v.schemas.len() && fits((#[trigger] v.schemas[i]).0, r) ==> {
            &&& rank(key.status) <= rank(v.schemas[i].0.status)
            &&& rank(key.status) == rank(v.schemas[i].0.status) && openapi::base_type(
                r.content_type,
            ) == Some(v.schemas[i].0.content_type) ==> key.content_type
                == v.schemas[i].0.content_type
        }
}

/// Whether a verdict is that of holding a response against a schema.
pub open spec fn is_verdict(key: KeyView, schema: JsonView, r: ResponseView, x: VerdictView) -> bool {
    if r.body is None || key.content_type == "application/xml"@ {
        x is Valid
    } else {
        let found = openapi::schema_violations(schema, r.body->Some_0);
        &&& x is Valid <==> found.len() == 0
        &&& found.len() > 0 ==> x is Invalid && x->errors == found
    }
}

/// Whether a verdict is the right one: that of the schema that the response is
/// to be held against; or, where none fits, that it is not covered.
pub open spec fn is_judged(v: ValidatorView, r: ResponseView, x: VerdictView) -> bool {
    let fit = exists|i: int| 0 <= i < v.schemas.len() && fits((#[trigger] v.schemas[i]).0, r);
    &&& fit ==> exists|j: int|
        #[trigger] is_chosen(v, r, j) && is_verdict(v.schemas[j].0, v.schemas[j].1, r, x)
    &&& !fit && v.strict ==> x is Invalid && x->errors.len() == 1 && x->errors[0].0 == r.path
    &&& !fit && !v.strict ==> x is NoSchema
}

/// A response is judged by the most specific schema that fits it.
pub proof fn law_response_is_judged(v: ValidatorView, r: ResponseView)
    ensures
        is_judged(v, r, openapi::verdict(v, r)),
{
    law_chosen_schema_fits(v, r);
    law_body_is_judged_by_the_chosen_schema(v, r);
    let c = openapi::schema_of_response(v, r);
    if c is Some {
        let j = choose|j: int| #[trigger]
            is_first(v.schemas, (c->0).0, j) && v.schemas[j] == c->0;
        assert forall|i: int| 0 <= i < v.schemas.len() && fits((#[trigger] v.schemas[i]).0, r) implies {
            &&& rank((c->0).0.status) <= rank(v.schemas[i].0.status)
            &&& rank((c->0).0.status) == rank(v.schemas[i].0.status) && openapi::base_type(
                r.content_type,
            ) == Some(v.schemas[i].0.content_type) ==> (c->0).0.content_type
                == v.schemas[i].0.content_type
        } by {
            law_most_specific_schema_is_chosen(v, r, i);
        }
        assert(is_chosen(v, r, j));
        assert(fits(v.schemas[j].0, r));
    }
}

// ---------------------------------------------------------------------------
// Content types
// ---------------------------------------------------------------------------

/// The parameters of a content type do not count.
pub proof fn law_parameters_do_not_count(t: Seq<char>, params: Seq<char>)
    requires
        !t.contains(';'),
    ensures
        openapi::base_type(Some(t + seq![';'] + params)) == openapi::base_type(Some(t)),
{
    let s = t + seq![';'] + params;
    text::lemma_find(s, ';');
    text::lemma_find(t, ';');
    let i = text::find(s, ';');
    assert(s[t.len() as int] == ';');
    if i < t.len() {
        assert(t[i] == ';');
    }
    assert(i == t.len());
    assert(s.take(i) =~= t);
    assert(text::split(s, ';')[0] == t);
    let j = text::find(t, ';');
    if j < t.len() {
        assert(t[j] == ';');
    }
    assert(text::split(t, ';')[0] == t);
}

/// A content type without parameters and without white space around it counts
/// as it is, and an empty one counts as none.
pub proof fn law_plain_content_type_counts_as_it_is(t: Seq<char>)
    requires
        !t.contains(';'),
        t.len() > 0 ==> !text::is_white(t[0]) && !text::is_white(t.last()),
    ensures
        t.len() > 0 ==> openapi::base_type(Some(t)) == Some(t),
        t.len() == 0 ==> openapi::base_type(Some(t)) is None,
        openapi::base_type(None) is None,
{
    text::lemma_find(t, ';');
    let j = text::find(t, ';');
    if j < t.len() {
        assert(t[j] == ';');
    }
    assert(text::split(t, ';')[0] == t);
}

// ---------------------------------------------------------------------------
// The document
// ---------------------------------------------------------------------------

/// A schema under its key.
pub type Entry = (KeyView, JsonView);

/// Whether a text stands for a status pattern: `default`, a digit with `XX`
/// for the family, or a code.
pub open spec fn is_status(s: Seq<char>, p: StatusPattern) -> bool {
    &&& p is Default <==> s == "default"@
    &&& p is Family ==> s.len() == 3 && s[0] as nat == 48 + p->Family_0 && p->Family_0 <= 9
        && s[1] == 'X' && s[2] == 'X'
    &&& p is Exact ==> text::parse_max(s, 65535) == Some(p->Exact_0 as nat)
}

/// The members of an object.
pub open spec fn members(v: JsonView) -> Seq<(Seq<char>, JsonView)> {
    v->members
}

/// Whether a response declares a schema for a content type.
pub open spec fn declares(response: JsonView, ct: Seq<char>, schema: JsonView) -> bool {
    &&& is_known_type(ct)
    &&& json::member(response, "content"@) is Some
    &&& json::member(json::member(response, "content"@)->Some_0, ct) is Some
    &&& json::member(
        json::member(json::member(response, "content"@)->Some_0, ct)->Some_0,
        "schema"@,
    ) == Some(schema)
}

/// Whether an entry is that of the response at `r` of an operation.
pub open spec fn from_response(
    e: Entry,
    path: Seq<char>,
    method: Seq<char>,
    responses: Seq<(Seq<char>, JsonView)>,
    r: int,
) -> bool {
    &&& 0 <= r < responses.len()
    &&& e.0.path == path
    &&& e.0.method == text::upper_text(method)
    &&& is_status(responses[r].0, e.0.status)
    &&& declares(responses[r].1, e.0.content_type, e.1)
}

/// Whether a name is that of a method that has responses.
pub open spec fn is_operation(name: Seq<char>) -> bool {
    let m = text::lower(name);
    ||| m == "get"@
    ||| m == "post"@
    ||| m == "put"@
    ||| m == "delete"@
    ||| m == "patch"@
    ||| m == "head"@
    ||| m == "options"@
}

/// Whether an entry is that of the response at `r` of the operation at `o` of
/// a path.
pub open spec fn from_operation(
    e: Entry,
    path: Seq<char>,
    operations: Seq<(Seq<char>, JsonView)>,
    o: int,
    r: int,
) -> bool {
    &&& 0 <= o < operations.len()
    &&& is_operation(operations[o].0)
    &&& json::member(operations[o].1, "responses"@) is Some
    &&& json::member(operations[o].1, "responses"@)->Some_0 is Object
    &&& from_response(
        e,
        path,
        operations[o].0,
        members(json::member(operations[o].1, "responses"@)->Some_0),
        r,
    )
}

/// Whether an entry is that of the response at `r` of the operation at `o` of
/// the path at `p`.
pub open spec fn from_path(
    e: Entry,
    paths: Seq<(Seq<char>, JsonView)>,
    p: int,
    o: int,
    r: int,
) -> bool {
    &&& 0 <= p < paths.len()
    &&& paths[p].1 is Object
    &&& from_operation(e, paths[p].0, members(paths[p].1), o, r)
}

/// Whether an entry is that of some response.
pub open spec fn is_declared(e: Entry, paths: Seq<(Seq<char>, JsonView)>) -> bool {
    exists|p: int, o: int, r: int| #[trigger] from_path(e, paths, p, o, r)
}

/// Whether there is an entry under a key.
pub open spec fn has_key(s: Seq<Entry>, key: KeyView) -> bool {
    exists|i: int| 0 <= i < s.len() && (#[trigger] s[i]).0 == key
}

proof fn lemma_with_schema(s: Seq<Entry>, key: KeyView, schema: JsonView, k: KeyView)
    ensures
        has_key(openapi::with_schema(s, key, schema), k) <==> has_key(s, k) || k == key,
        forall|i: int|
            0 <= i < openapi::with_schema(s, key, schema).len() ==> {
                let e = #[trigger] openapi::with_schema(s, key, schema)[i];
                s.contains(e) || e == (key, schema)
            },
{
    lemma_first_place(s, key);
    let t = openapi::with_schema(s, key, schema);
    let p = openapi::place(s, key) as int;
    if has_key(s, k) {
        let i = choose|i: int| 0 <= i < s.len() && (#[trigger] s[i]).0 == k;
        assert(t[i].0 == k);
    }
    if k == key {
        assert(t[p].0 == k);
    }
    if has_key(t, k) && k != key {
        let i = choose|i: int| 0 <= i < t.len() && (#[trigger] t[i]).0 == k;
        assert(s[i].0 == k);
    }
    assert forall|i: int| 0 <= i < t.len() implies ({
        let e = #[trigger] t[i];
        s.contains(e) || e == (key, schema)
    }) by {
        if i != p {
            assert(t[i] == s[i]);
        }
    }
}

proof fn lemma_response_schemas(response: JsonView, n: nat)
    requires
        n <= openapi::supported().len(),
    ensures
        forall|i: int|
            0 <= i < openapi::response_schemas(response, n).len() ==> {
                let f = #[trigger] openapi::response_schemas(response, n)[i];
                declares(response, f.0, f.1)
            },
        forall|ct: Seq<char>, schema: JsonView| #[trigger]
            declares(response, ct, schema) && openapi::supported().take(n as int).contains(ct)
                ==> openapi::response_schemas(response, n).contains((ct, schema)),
    decreases n,
{
    if n > 0 {
        let m = (n - 1) as nat;
        lemma_response_schemas(response, m);
        let before = openapi::response_schemas(response, m);
        let after = openapi::response_schemas(response, n);
        let x = openapi::supported()[m as int];
        assert(openapi::supported().contains(x));
        lemma_supported(x);
        assert forall|i: int| 0 <= i < after.len() implies ({
            let f = #[trigger] after[i];
            declares(response, f.0, f.1)
        }) by {
            if i < before.len() {
                assert(after[i] == before[i]);
            }
        }
        assert forall|ct: Seq<char>, schema: JsonView| #[trigger]
            declares(response, ct, schema) && openapi::supported().take(n as int).contains(
                ct,
            ) implies after.contains((ct, schema)) by {
            let k = openapi::supported().take(n as int).index_of(ct);
            assert(openapi::supported()[k] == ct);
            if k < m {
                assert(openapi::supported().take(m as int)[k] == ct);
                let j = before.index_of((ct, schema));
                assert(after[j] == (ct, schema));
            } else {
                assert(after[before.len() as int] == (ct, schema));
            }
        }
    }
}

proof fn lemma_with_response(
    acc: Seq<Entry>,
    path: Seq<char>,
    method: Seq<char>,
    status: StatusPattern,
    found: Seq<(Seq<char>, JsonView)>,
    n: nat,
    k: KeyView,
)
    requires
        n <= found.len(),
    ensures
        ({
            let t = openapi::with_response(acc, path, method, status, found, n);
            &&& has_key(acc, k) ==> has_key(t, k)
            &&& forall|j: int|
                0 <= j < n && k == (KeyView {
                    path,
                    method,
                    status,
                    content_type: (#[trigger] found[j]).0,
                }) ==> has_key(t, k)
            &&& forall|i: int|
                0 <= i < t.len() ==> acc.contains(#[trigger] t[i]) || exists|j: int|
                    0 <= j < n && t[i] == (
                        KeyView { path, method, status, content_type: (#[trigger] found[j]).0 },
                        found[j].1,
                    )
        }),
    decreases n,
{
    if n > 0 {
        let m = (n - 1) as nat;
        lemma_with_response(acc, path, method, status, found, m, k);
        let before = openapi::with_response(acc, path, method, status, found, m);
        let key = KeyView { path, method, status, content_type: found[m as int].0 };
        lemma_with_schema(before, key, found[m as int].1, k);
        let t = openapi::with_response(acc, path, method, status, found, n);
        assert forall|i: int| 0 <= i < t.len() implies acc.contains(#[trigger] t[i]) || exists|
            j: int,
        |
            0 <= j < n && t[i] == (
                KeyView { path, method, status, content_type: (#[trigger] found[j]).0 },
                found[j].1,
            ) by {
            if before.contains(t[i]) {
                let b = before.index_of(t[i]);
                assert(before[b] == t[i]);
            } else {
                assert(t[i] == (
                    KeyView { path, method, status, content_type: found[m as int].0 },
                    found[m as int].1,
                ));
            }
        }
    } else {
        assert forall|i: int| 0 <= i < acc.len() implies acc.contains(#[trigger] acc[i]) by {}
    }
}

proof fn lemma_status(s: Seq<char>, path: Seq<char>, method: Seq<char>)
    ensures
        openapi::status_of(s, path, method) is Ok ==> is_status(
            s,
            openapi::status_of(s, path, method)->Ok_0,
        ),
{
    reveal_strlit("default");
}

proof fn lemma_with_responses(
    acc: Seq<Entry>,
    path: Seq<char>,
    method: Seq<char>,
    responses: Seq<(Seq<char>, JsonView)>,
    n: nat,
    r: int,
    ct: Seq<char>,
    schema: JsonView,
    k: KeyView,
)
    requires
        n <= responses.len(),
        openapi::with_responses(acc, path, method, responses, n) is Ok,
    ensures
        ({
            let t = openapi::with_responses(acc, path, method, responses, n)->Ok_0;
            &&& has_key(acc, k) ==> has_key(t, k)
            &&& 0 <= r < n && declares(responses[r].1, ct, schema) ==> exists|p: StatusPattern|
                is_status(responses[r].0, p) && has_key(
                    t,
                    #[trigger] key_of(path, method, p, ct),
                )
            &&& forall|i: int|
                0 <= i < t.len() ==> acc.contains(#[trigger] t[i]) || exists|x: int| #[trigger]
                    from_response(t[i], path, method, responses, x)
        }),
    decreases n,
{
    if n > 0 {
        let m = (n - 1) as nat;
        lemma_with_responses(acc, path, method, responses, m, r, ct, schema, k);
        let before = openapi::with_responses(acc, path, method, responses, m)->Ok_0;
        let t = openapi::with_responses(acc, path, method, responses, n)->Ok_0;
        let response = responses[m as int];
        lemma_status(response.0, path, method);
        let status = openapi::status_of(response.0, path, method)->Ok_0;
        let found = openapi::response_schemas(response.1, openapi::supported().len());
        lemma_response_schemas(response.1, openapi::supported().len());
        let up = text::upper_text(method);
        lemma_with_response(before, path, up, status, found, found.len(), k);
        if 0 <= r < n && declares(responses[r].1, ct, schema) {
            if r < m {
                let p = choose|p: StatusPattern|
                    is_status(responses[r].0, p) && has_key(
                        before,
                        #[trigger] key_of(path, method, p, ct),
                    );
                lemma_with_response(
                    before,
                    path,
                    up,
                    status,
                    found,
                    found.len(),
                    key_of(path, method, p, ct),
                );
            } else {
                lemma_supported(ct);
                assert(openapi::supported().take(openapi::supported().len() as int)
                    =~= openapi::supported());
                assert(declares(response.1, ct, schema));
                let j = found.index_of((ct, schema));
                assert(found[j].0 == ct);
                lemma_with_response(
                    before,
                    path,
                    up,
                    status,
                    found,
                    found.len(),
                    key_of(path, method, status, ct),
                );
            }
        }
        assert forall|i: int| 0 <= i < t.len() implies acc.contains(#[trigger] t[i]) || exists|
            x: int,
        | #[trigger]
            from_response(t[i], path, method, responses, x) by {
            if before.contains(t[i]) {
                let b = before.index_of(t[i]);
                assert(before[b] == t[i]);
            } else {
                let j = choose|j: int|
                    0 <= j < found.len() && t[i] == (
                        KeyView {
                            path,
                            method: up,
                            status,
                            content_type: (#[trigger] found[j]).0,
                        },
                        found[j].1,
                    );
                assert(declares(response.1, found[j].0, found[j].1));
                assert(from_response(t[i], path, method, responses, m as int));
            }
        }
    } else {
        assert forall|i: int| 0 <= i < acc.len() implies acc.contains(#[trigger] acc[i]) by {}
    }
}

/// The key of a schema of an operation.
pub open spec fn key_of(
    path: Seq<char>,
    method: Seq<char>,
    status: StatusPattern,
    ct: Seq<char>,
) -> KeyView {
    KeyView { path, method: text::upper_text(method), status, content_type: ct }
}

/// Whether schemas hold one for a declaration: under the path, the method in
/// upper case, the status that the text stands for, and the content type.
pub open spec fn has_declared(
    s: Seq<Entry>,
    path: Seq<char>,
    method: Seq<char>,
    status: Seq<char>,
    ct: Seq<char>,
) -> bool {
    exists|p: StatusPattern|
        is_status(status, p) && has_key(s, #[trigger] key_of(path, method, p, ct))
}

/// The responses of an operation.
pub open spec fn responses_of(operation: JsonView) -> Seq<(Seq<char>, JsonView)> {
    members(json::member(operation, "responses"@)->Some_0)
}

proof fn lemma_with_operations(
    acc: Seq<Entry>,
    path: Seq<char>,
    ops: Seq<(Seq<char>, JsonView)>,
    n: nat,
    o: int,
    r: int,
    ct: Seq<char>,
    schema: JsonView,
    k: KeyView,
)
    requires
        n <= ops.len(),
        openapi::with_operations(acc, path, ops, n) is Ok,
    ensures
        ({
            let t = openapi::with_operations(acc, path, ops, n)->Ok_0;
            &&& has_key(acc, k) ==> has_key(t, k)
            &&& 0 <= o < n && is_operation(ops[o].0) ==> json::member(
                ops[o].1,
                "responses"@,
            ) is Some && json::member(ops[o].1, "responses"@)->Some_0 is Object
            &&& 0 <= o < n && is_operation(ops[o].0) && 0 <= r < responses_of(ops[o].1).len()
                && declares(responses_of(ops[o].1)[r].1, ct, schema) ==> has_declared(
                t,
                path,
                ops[o].0,
                responses_of(ops[o].1)[r].0,
                ct,
            )
            &&& forall|i: int|
                0 <= i < t.len() ==> acc.contains(#[trigger] t[i]) || exists|x: int, y: int|
                    #[trigger] from_operation(t[i], path, ops, x, y)
        }),
    decreases n,
{
    if n > 0 {
        let m = (n - 1) as nat;
        lemma_with_operations(acc, path, ops, m, o, r, ct, schema, k);
        let before = openapi::with_operations(acc, path, ops, m)->Ok_0;
        let t = openapi::with_operations(acc, path, ops, n)->Ok_0;
        let name = ops[m as int].0;
        if is_operation(name) {
            let rs = responses_of(ops[m as int].1);
            lemma_with_responses(before, path, name, rs, rs.len(), r, ct, schema, k);
            if 0 <= o < m && is_operation(ops[o].0) && 0 <= r < responses_of(ops[o].1).len()
                && declares(responses_of(ops[o].1)[r].1, ct, schema) {
                let p = choose|p: StatusPattern|
                    is_status(responses_of(ops[o].1)[r].0, p) && has_key(
                        before,
                        #[trigger] key_of(path, ops[o].0, p, ct),
                    );
                lemma_with_responses(
                    before,
                    path,
                    name,
                    rs,
                    rs.len(),
                    r,
                    ct,
                    schema,
                    key_of(path, ops[o].0, p, ct),
                );
            }
            assert forall|i: int| 0 <= i < t.len() implies acc.contains(#[trigger] t[i]) || exists|
                x: int,
                y: int,
            | #[trigger]
                from_operation(t[i], path, ops, x, y) by {
                if before.contains(t[i]) {
                    let b = before.index_of(t[i]);
                    assert(before[b] == t[i]);
                } else {
                    let x = choose|x: int| #[trigger] from_response(t[i], path, name, rs, x);
                    assert(from_operation(t[i], path, ops, m as int, x));
                }
            }
        }
    } else {
        assert forall|i: int| 0 <= i < acc.len() implies acc.contains(#[trigger] acc[i]) by {}
    }
}

proof fn lemma_of_paths(
    paths: Seq<(Seq<char>, JsonView)>,
    n: nat,
    p: int,
    o: int,
    r: int,
    ct: Seq<char>,
    schema: JsonView,
)
    requires
        n <= paths.len(),
        openapi::of_paths(paths, n) is Ok,
    ensures
        ({
            let t = openapi::of_paths(paths, n)->Ok_0;
            let ops = members(paths[p].1);
            &&& 0 <= p < n ==> paths[p].1 is Object
            &&& 0 <= p < n && 0 <= o < ops.len() && is_operation(ops[o].0) && 0 <= r
                < responses_of(ops[o].1).len() && declares(
                responses_of(ops[o].1)[r].1,
                ct,
                schema,
            ) ==> has_declared(t, paths[p].0, ops[o].0, responses_of(ops[o].1)[r].0, ct)
            &&& forall|i: int|
                0 <= i < t.len() ==> is_declared(#[trigger] t[i], paths)
        }),
    decreases n,
{
    if n > 0 {
        let m = (n - 1) as nat;
        lemma_of_paths(paths, m, p, o, r, ct, schema);
        let before = openapi::of_paths(paths, m)->Ok_0;
        let t = openapi::of_paths(paths, n)->Ok_0;
        let name = paths[m as int].0;
        let own = members(paths[m as int].1);
        let ops = members(paths[p].1);
        let any = KeyView {
            path: seq![],
            method: seq![],
            status: StatusPattern::Default,
            content_type: seq![],
        };
        lemma_with_operations(before, name, own, own.len(), o, r, ct, schema, any);
        if 0 <= p < m && 0 <= o < ops.len() && is_operation(ops[o].0) && 0 <= r < responses_of(
            ops[o].1,
        ).len() && declares(responses_of(ops[o].1)[r].1, ct, schema) {
            let q = choose|q: StatusPattern|
                is_status(responses_of(ops[o].1)[r].0, q) && has_key(
                    before,
                    #[trigger] key_of(paths[p].0, ops[o].0, q, ct),
                );
            lemma_with_operations(
                before,
                name,
                own,
                own.len(),
                o,
                r,
                ct,
                schema,
                key_of(paths[p].0, ops[o].0, q, ct),
            );
        }
        assert forall|i: int| 0 <= i < t.len() implies is_declared(#[trigger] t[i], paths) by {
            if before.contains(t[i]) {
                let b = before.index_of(t[i]);
                assert(before[b] == t[i]);
            } else {
                let (x, y) = choose|x: int, y: int| #[trigger]
                    from_operation(t[i], name, own, x, y);
                assert(from_path(t[i], paths, m as int, x, y));
            }
        }
    }
}

/// The paths of a document.
pub open spec fn paths_of(doc: JsonView) -> Seq<(Seq<char>, JsonView)> {
    members(json::member(doc, "paths"@)->Some_0)
}

/// Every schema that a document declares is taken, and no other: for each
/// known content type of each response of each operation of each path there
/// is one under the path, the method, the status and the content type; and
/// each that there is was declared so.
pub proof fn law_every_declared_schema_is_taken(
    doc: JsonView,
    p: int,
    o: int,
    r: int,
    ct: Seq<char>,
    schema: JsonView,
)
    requires
        openapi::of_document(doc) is Ok,
    ensures
        ({
            let t = openapi::of_document(doc)->Ok_0;
            let ops = members(paths_of(doc)[p].1);
            &&& 0 <= p < paths_of(doc).len() && 0 <= o < ops.len() && is_operation(ops[o].0) && 0
                <= r < responses_of(ops[o].1).len() && declares(
                responses_of(ops[o].1)[r].1,
                ct,
                schema,
            ) ==> has_declared(
                t,
                paths_of(doc)[p].0,
                ops[o].0,
                responses_of(ops[o].1)[r].0,
                ct,
            )
            &&& forall|i: int|
                0 <= i < t.len() ==> is_declared(#[trigger] t[i], paths_of(doc))
        }),
{
    lemma_of_paths(paths_of(doc), paths_of(doc).len(), p, o, r, ct, schema);
}

/// What status texts stand for: `default` for the default, a digit with `XX`
/// for the family, and three digits for the code.
pub proof fn law_status_texts(s: Seq<char>, path: Seq<char>, method: Seq<char>)
    ensures
        s == "default"@ ==> openapi::status_of(s, path, method) == Ok::<StatusPattern, Seq<char>>(
            StatusPattern::Default,
        ),
        s.len() == 3 && '0' <= s[0] <= '9' && s[1] == 'X' && s[2] == 'X' ==> openapi::status_of(
            s,
            path,
            method,
        ) == Ok::<StatusPattern, Seq<char>>(StatusPattern::Family((s[0] as nat - 48) as u8)),
        s.len() == 3 && text::all_digits(s) ==> openapi::status_of(s, path, method) == Ok::<
            StatusPattern,
            Seq<char>,
        >(
            StatusPattern::Exact(
                (100 * (s[0] as nat - 48) + 10 * (s[1] as nat - 48) + (s[2] as nat - 48)) as u16,
            ),
        ),
{
    reveal_strlit("default");
    if s.len() == 3 && text::all_digits(s) {
        assert('0' <= s[0] <= '9' && '0' <= s[1] <= '9' && '0' <= s[2] <= '9');
        reveal_with_fuel(text::digits_value, 4);
        assert(s.drop_last().drop_last().drop_last() =~= seq![]);
    }
}

} // verus!
