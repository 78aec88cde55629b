//! Validation of upstream responses against an OpenAPI document.
//!
//! A response is held against the schema for its path, method, status and
//! content type. The schema for the exact status is tried first, then that
//! for its family (such as `2XX`), then the `default` one; for each of them
//! the exact content type first, then the other ones.

pub mod laws;

use vstd::prelude::*;
use vstd::string::*;

use crate::json;
use crate::json::{value_copy, value_get, value_members, JsonView};
use crate::text;
use crate::text::{
    ascii_lower, cat3, cat4, cat5, cat6, cat7, cut, debug_str, decimal, parse_number, same,
    trimmed, uppercase,
};

verus! {

broadcast use crate::text::lemma_texts_push;

// ---------------------------------------------------------------------------
// Keys
// ---------------------------------------------------------------------------

/// A status pattern of an OpenAPI response key.
#[derive(Debug, Clone, Copy, PartialEq, Eq, Hash, Structural)]
pub enum StatusPattern {
    /// An exact status code, such as 200.
    Exact(u16),
    /// A family wildcard, such as `2XX`, by its leading digit.
    Family(u8),
    /// The `default` key.
    Default,
}

/// The family of a status, in eight bits.
pub open spec fn family_of(status: u16) -> u8 {
    ((status / 100) % 256) as u8
}

/// Whether a pattern covers a status.
pub open spec fn covers(p: StatusPattern, status: u16) -> bool {
    match p {
        StatusPattern::Exact(s) => s == status,
        StatusPattern::Family(d) => d == family_of(status),
        StatusPattern::Default => true,
    }
}

fn family(status: u16) -> (d: u8)
    ensures
        d == family_of(status),
{
    ((status / 100) % 256) as u8
}

impl StatusPattern {
    /// Whether this pattern matches a concrete status code.
    pub fn matches(&self, status: u16) -> (r: bool)
        ensures
            r == covers(*self, status),
    {
        match self {
            StatusPattern::Exact(s) => *s == status,
            StatusPattern::Family(d) => *d == family(status),
            StatusPattern::Default => true,
        }
    }
}

/// The key of a response schema.
#[derive(Debug, Clone, PartialEq, Eq, Hash)]
pub struct ResponseKey {
    pub path: String,
    pub method: String,
    pub status: StatusPattern,
    pub content_type: String,
}

/// What a key is.
#[verifier::ext_equal]
pub struct KeyView {
    pub path: Seq<char>,
    pub method: Seq<char>,
    pub status: StatusPattern,
    pub content_type: Seq<char>,
}

impl View for ResponseKey {
    type V = KeyView;

    open spec fn view(&self) -> KeyView {
        KeyView {
            path: self.path@,
            method: self.method@,
            status: self.status,
            content_type: self.content_type@,
        }
    }
}

/// The debugging text of a status pattern.
pub open spec fn status_debug(p: StatusPattern) -> Seq<char> {
    match p {
        StatusPattern::Exact(s) => "Exact("@ + text::dec(s as nat) + ")"@,
        StatusPattern::Family(d) => "Family("@ + text::dec(d as nat) + ")"@,
        StatusPattern::Default => "Default"@,
    }
}

/// The debugging text of a key.
pub open spec fn key_debug(k: KeyView) -> Seq<char> {
    "ResponseKey { path: "@ + text::debug_text(k.path) + ", method: "@ + text::debug_text(k.method)
        + ", status: "@ + status_debug(k.status) + (", content_type: "@ + text::debug_text(
        k.content_type,
    ) + " }"@)
}

impl ResponseKey {
    fn is(&self, other: &ResponseKey) -> (r: bool)
        ensures
            r == (self@ == other@),
    {
        same(self.path.as_str(), other.path.as_str()) && same(
            self.method.as_str(),
            other.method.as_str(),
        ) && self.status == other.status && same(
            self.content_type.as_str(),
            other.content_type.as_str(),
        )
    }

    /// A copy of the key.
    pub fn copy(&self) -> (k: Self)
        ensures
            k@ == self@,
    {
        ResponseKey {
            path: self.path.clone(),
            method: self.method.clone(),
            status: self.status,
            content_type: self.content_type.clone(),
        }
    }

    /// The debugging text of the key.
    pub fn debug(&self) -> (s: String)
        ensures
            s@ == key_debug(self@),
    {
        let status = match self.status {
            StatusPattern::Exact(s) => cat3("Exact(", decimal(s as u64).as_str(), ")"),
            StatusPattern::Family(d) => cat3("Family(", decimal(d as u64).as_str(), ")"),
            StatusPattern::Default => "Default".to_owned(),
        };
        let tail = cat3(", content_type: ", debug_str(self.content_type.as_str()).as_str(), " }");
        cat7(
            "ResponseKey { path: ",
            debug_str(self.path.as_str()).as_str(),
            ", method: ",
            debug_str(self.method.as_str()).as_str(),
            ", status: ",
            status.as_str(),
            tail.as_str(),
        )
    }
}

/// The content types that schemas are taken for.
pub open spec fn supported() -> Seq<Seq<char>> {
    seq![
        "application/json"@,
        "application/problem+json"@,
        "application/vnd.api+json"@,
        "text/plain"@,
        "application/xml"@,
    ]
}

fn supported_content_types() -> (v: Vec<String>)
    ensures
        text::texts(v@) == supported(),
{
    let mut v: Vec<String> = Vec::new();
    v.push("application/json".to_owned());
    v.push("application/problem+json".to_owned());
    v.push("application/vnd.api+json".to_owned());
    v.push("text/plain".to_owned());
    v.push("application/xml".to_owned());
    assert(text::texts(v@) =~= supported());
    v
}

/// The status pattern of a response key, or the text of the error.
pub open spec fn status_of(s: Seq<char>, path: Seq<char>, method: Seq<char>) -> Result<
    StatusPattern,
    Seq<char>,
> {
    if s == "default"@ {
        Ok(StatusPattern::Default)
    } else if s.len() == 3 && s[0] as u32 <= 127 && s[1] == 'X' && s[2] == 'X' {
        if '0' <= s[0] <= '9' {
            Ok(StatusPattern::Family((s[0] as nat - 48) as u8))
        } else {
            Err("invalid wildcard status '"@ + s + "' in "@ + method + " "@ + path)
        }
    } else {
        match text::parse_max(s, u16::MAX as nat) {
            Some(n) => Ok(StatusPattern::Exact(n as u16)),
            None => Err("invalid status code '"@ + s + "' in "@ + method + " "@ + path),
        }
    }
}

/// The status pattern of a response key: `default`, a wildcard such as
/// `2XX`, or a status code.
pub fn parse_status(status_str: &str, path: &str, method: &str) -> (r: Result<
    StatusPattern,
    String,
>)
    ensures
        match (r, status_of(status_str@, path@, method@)) {
            (Ok(p), Ok(q)) => p == q,
            (Err(e), Err(w)) => e@ == w,
            _ => false,
        },
{
    if same(status_str, "default") {
        return Ok(StatusPattern::Default);
    }
    let n: usize = status_str.unicode_len();
    if n == 3 && status_str.get_char(1) == 'X' && status_str.get_char(2) == 'X' {
        let c = status_str.get_char(0);
        if c as u32 <= 127 {
            if '0' <= c && c <= '9' {
                let d: u8 = (c as u8) - 48;
                return Ok(StatusPattern::Family(d));
            }
            return Err(
                cat6("invalid wildcard status '", status_str, "' in ", method, " ", path),
            );
        }
    }
    match parse_number(status_str, 65535) {
        Some(code) => Ok(StatusPattern::Exact(code as u16)),
        None => Err(cat6("invalid status code '", status_str, "' in ", method, " ", path)),
    }
}

/// A content type without its parameters; none where nothing is left.
pub open spec fn base_type(ct: Option<Seq<char>>) -> Option<Seq<char>> {
    match ct {
        None => None,
        Some(s) => {
            let base = text::trim(text::split(s, ';')[0]);
            if base.len() == 0 {
                None
            } else {
                Some(base)
            }
        },
    }
}

/// A content type without its parameters: `application/json; charset=utf-8`
/// is `application/json`.
pub fn normalize_content_type(ct: Option<&str>) -> (r: Option<String>)
    ensures
        text::opt_text(r) == base_type(text::opt_str(ct)),
{
    match ct {
        None => None,
        Some(s) => {
            let pieces = cut(s, ';');
            let ghost all = text::split(s@, ';');
            assert(text::texts(pieces@) == all);
            assert(all.len() > 0);
            assert(all[0] == pieces@[0]@);
            let base = trimmed(pieces[0].as_str());
            if base.as_str().unicode_len() == 0 {
                None
            } else {
                Some(base)
            }
        },
    }
}

/// Whether a text is the name of an HTTP method that can have responses.
pub open spec fn is_method(s: Seq<char>) -> bool {
    let m = text::lower(s);
    m == "get"@ || m == "post"@ || m == "put"@ || m == "delete"@ || m == "patch"@ || m == "head"@
        || m == "options"@
}

/// Whether a text is the name of an HTTP method that can have responses.
pub fn is_http_method(s: &str) -> (r: bool)
    ensures
        r == is_method(s@),
{
    let m = ascii_lower(s);
    let m = m.as_str();
    same(m, "get") || same(m, "post") || same(m, "put") || same(m, "delete") || same(m, "patch")
        || same(m, "head") || same(m, "options")
}

// ---------------------------------------------------------------------------
// Candidates
// ---------------------------------------------------------------------------

/// The content types to try: the one that was given, the other supported
/// ones, and the empty one.
pub open spec fn types_to_try(ct: Option<Seq<char>>) -> Seq<Seq<char>> {
    match ct {
        Some(c) => (seq![c] + others(c, supported().len())).push(""@),
        None => supported().push(""@),
    }
}

/// The first `n` supported content types without one of them.
pub open spec fn others(c: Seq<char>, n: nat) -> Seq<Seq<char>>
    decreases n,
{
    if n == 0 {
        seq![]
    } else if supported()[n - 1] != c {
        others(c, (n - 1) as nat).push(supported()[n - 1])
    } else {
        others(c, (n - 1) as nat)
    }
}

/// The keys of a status pattern for content types.
pub open spec fn keys_for(
    path: Seq<char>,
    method: Seq<char>,
    status: StatusPattern,
    types: Seq<Seq<char>>,
) -> Seq<KeyView> {
    types.map_values(|t: Seq<char>| KeyView { path, method, status, content_type: t })
}

/// The keys to try, the most specific first.
pub open spec fn candidates(
    path: Seq<char>,
    method: Seq<char>,
    status: u16,
    ct: Option<Seq<char>>,
) -> Seq<KeyView> {
    let types = types_to_try(ct);
    keys_for(path, method, StatusPattern::Exact(status), types) + keys_for(
        path,
        method,
        StatusPattern::Family(family_of(status)),
        types,
    ) + keys_for(path, method, StatusPattern::Default, types)
}

/// What keys are.
pub open spec fn keys_of(v: Seq<ResponseKey>) -> Seq<KeyView> {
    v.map_values(|k: ResponseKey| k@)
}

fn content_types_to_try(ct: Option<&str>) -> (v: Vec<String>)
    ensures
        text::texts(v@) == types_to_try(text::opt_str(ct)),
{
    let all = supported_content_types();
    match ct {
        None => {
            let mut v = all;
            v.push("".to_owned());
            v
        },
        Some(c) => {
            let mut v: Vec<String> = Vec::new();
            v.push(c.to_owned());
            let mut i: usize = 0;
            assert(text::texts(v@) =~= seq![c@] + others(c@, 0));
            while i < all.len()
                invariant
                    i <= all.len(),
                    text::texts(all@) == supported(),
                    text::texts(v@) == seq![c@] + others(c@, i as nat),
                decreases all.len() - i,
            {
                assert(supported()[i as int] == all@[i as int]@);
                if !same(all[i].as_str(), c) {
                    let ghost before = v@;
                    v.push(all[i].clone());
                    assert(text::texts(v@) =~= seq![c@] + others(c@, (i + 1) as nat));
                }
                i = i + 1;
            }
            assert(all@.len() == supported().len());
            v.push("".to_owned());
            v
        },
    }
}

fn push_keys(
    keys: &mut Vec<ResponseKey>,
    path: &str,
    method: &str,
    status: StatusPattern,
    types: &Vec<String>,
)
    ensures
        keys_of(final(keys)@) == keys_of(old(keys)@) + keys_for(
            path@,
            method@,
            status,
            text::texts(types@),
        ),
{
    let ghost before = keys_of(keys@);
    let ghost all = keys_for(path@, method@, status, text::texts(types@));
    let mut i: usize = 0;
    assert(keys_of(keys@) =~= before + all.take(0));
    while i < types.len()
        invariant
            i <= types.len(),
            all == keys_for(path@, method@, status, text::texts(types@)),
            keys_of(keys@) == before + all.take(i as int),
        decreases types.len() - i,
    {
        let ghost k0 = keys@;
        let k = ResponseKey {
            path: path.to_owned(),
            method: method.to_owned(),
            status,
            content_type: types[i].clone(),
        };
        keys.push(k);
        assert(all[i as int] == k@);
        assert(keys_of(keys@) =~= keys_of(k0).push(k@));
        assert(all.take(i + 1) =~= all.take(i as int).push(all[i as int]));
        i = i + 1;
        assert(keys_of(keys@) =~= before + all.take(i as int));
    }
    assert(all.take(types.len() as int) =~= all);
}

/// The keys to try for a response, the most specific first: the exact
/// status, its family, the default; for each of them the content type, the
/// other supported ones, and the empty one.
pub fn lookup_candidates(path: &str, method: &str, status: u16, content_type: Option<&str>) -> (v:
    Vec<ResponseKey>)
    ensures
        keys_of(v@) == candidates(path@, method@, status, text::opt_str(content_type)),
{
    let types = content_types_to_try(content_type);
    let mut keys: Vec<ResponseKey> = Vec::new();
    assert(keys_of(keys@) =~= seq![]);
    push_keys(&mut keys, path, method, StatusPattern::Exact(status), &types);
    push_keys(&mut keys, path, method, StatusPattern::Family(family(status)), &types);
    push_keys(&mut keys, path, method, StatusPattern::Default, &types);
    assert(keys_of(keys@) =~= candidates(path@, method@, status, text::opt_str(content_type)));
    keys
}

// ---------------------------------------------------------------------------
// Schemas
// ---------------------------------------------------------------------------

/// What `jsonschema::Validator::new` says against a schema: the text of the
/// error, or nothing.
pub uninterp spec fn schema_fault(schema: JsonView) -> Option<Seq<char>>;

/// `jsonschema::Validator::new` of a schema: the text of the error, if there
/// is one. No reference is resolved outside the schema, so it depends on the
/// schema alone.
#[verifier::external_body]
fn check_schema(schema: &serde_json::Value) -> (r: Option<String>)
    ensures
        text::opt_text(r) == schema_fault(json::held_value(*schema)),
{
    jsonschema::Validator::new(schema).err().map(|e| e.to_string())
}

/// What `jsonschema::Validator::iter_errors` says against a body: for each
/// error the place in the body and the text.
pub uninterp spec fn schema_violations(schema: JsonView, body: JsonView) -> Seq<
    (Seq<char>, Seq<char>),
>;

/// `jsonschema::Validator::iter_errors` of a body, for the validator of a
/// schema: for each error the place in the body and the text.
#[verifier::external_body]
fn violations(schema: &serde_json::Value, body: &serde_json::Value) -> (r: Vec<(String, String)>)
    requires
        schema_fault(json::held_value(*schema)) is None,
    ensures
        text::text_pairs(r@) == schema_violations(
            json::held_value(*schema),
            json::held_value(*body),
        ),
{
    jsonschema::Validator::new(schema).expect("a schema without faults").iter_errors(body).map(
        |e| (e.instance_path().to_string(), e.to_string()),
    ).collect()
}

/// A schema for each of some keys.
pub open spec fn schemas_of(v: Seq<(ResponseKey, serde_json::Value)>) -> Seq<(KeyView, JsonView)> {
    v.map_values(|p: (ResponseKey, serde_json::Value)| (p.0@, json::held_value(p.1)))
}

/// The place of a key; the length where it does not occur.
pub open spec fn place(s: Seq<(KeyView, JsonView)>, key: KeyView) -> nat
    decreases s.len(),
{
    if s.len() == 0 {
        0
    } else if s[0].0 == key {
        0
    } else {
        1 + place(s.skip(1), key)
    }
}

/// The schema of a key.
pub open spec fn schema_at(s: Seq<(KeyView, JsonView)>, key: KeyView) -> Option<JsonView> {
    if place(s, key) < s.len() {
        Some(s[place(s, key) as int].1)
    } else {
        None
    }
}

/// The schemas with one put in: in place of another of the same key, or at
/// the end.
pub open spec fn with_schema(s: Seq<(KeyView, JsonView)>, key: KeyView, schema: JsonView) -> Seq<
    (KeyView, JsonView),
> {
    if place(s, key) < s.len() {
        s.update(place(s, key) as int, (key, schema))
    } else {
        s.push((key, schema))
    }
}

proof fn lemma_place(s: Seq<(KeyView, JsonView)>, key: KeyView, i: nat)
    requires
        i <= s.len(),
        forall|j: int| 0 <= j < i ==> (#[trigger] s[j]).0 != key,
        i < s.len() ==> s[i as int].0 == key,
    ensures
        place(s, key) == i,
    decreases s.len(),
{
    if i > 0 {
        let t = s.skip(1);
        assert forall|j: int| 0 <= j < i - 1 implies (#[trigger] t[j]).0 != key by {
            assert(t[j] == s[j + 1]);
        }
        assert(s[0].0 != key);
        lemma_place(t, key, (i - 1) as nat);
    }
}

fn find_schema(v: &Vec<(ResponseKey, serde_json::Value)>, key: &ResponseKey) -> (i: usize)
    ensures
        i == place(schemas_of(v@), key@),
        i <= v@.len(),
{
    let ghost all = schemas_of(v@);
    let mut i: usize = 0;
    while i < v.len()
        invariant
            i <= v.len(),
            all == schemas_of(v@),
            forall|j: int| 0 <= j < i ==> (#[trigger] all[j]).0 != key@,
        decreases v.len() - i,
    {
        assert(all[i as int].0 == v@[i as int].0@);
        if v[i].0.is(key) {
            proof {
                lemma_place(all, key@, i as nat);
            }
            return i;
        }
        i = i + 1;
    }
    proof {
        lemma_place(all, key@, i as nat);
    }
    i
}

fn put_schema(
    v: &mut Vec<(ResponseKey, serde_json::Value)>,
    key: ResponseKey,
    schema: serde_json::Value,
)
    ensures
        schemas_of(final(v)@) == with_schema(
            schemas_of(old(v)@),
            key@,
            json::held_value(schema),
        ),
{
    let ghost before = v@;
    let i: usize = find_schema(v, &key);
    if i < v.len() {
        v.set(i, (key, schema));
        assert(schemas_of(v@) =~= schemas_of(before).update(
            i as int,
            (key@, json::held_value(schema)),
        ));
    } else {
        v.push((key, schema));
        assert(schemas_of(v@) =~= schemas_of(before).push((key@, json::held_value(schema))));
    }
}

/// What pairs of a content type and a schema are.
pub open spec fn typed(v: Seq<(String, serde_json::Value)>) -> Seq<(Seq<char>, JsonView)> {
    v.map_values(|p: (String, serde_json::Value)| (p.0@, json::held_value(p.1)))
}

/// The schemas of a response for the first `n` supported content types.
pub open spec fn response_schemas(response: JsonView, n: nat) -> Seq<(Seq<char>, JsonView)>
    decreases n,
{
    if n == 0 {
        seq![]
    } else {
        let before = response_schemas(response, (n - 1) as nat);
        let ct = supported()[n - 1];
        match schema_for(response, ct) {
            Some(schema) => before.push((ct, schema)),
            None => before,
        }
    }
}

/// The schema of a response for a content type.
pub open spec fn schema_for(response: JsonView, ct: Seq<char>) -> Option<JsonView> {
    match json::member(response, "content"@) {
        Some(content) => match json::member(content, ct) {
            Some(media) => json::member(media, "schema"@),
            None => None,
        },
        None => None,
    }
}

/// The schemas of a response, for all supported content types that it has.
pub fn extract_response_schemas(response: &serde_json::Value) -> (v: Vec<
    (String, serde_json::Value),
>)
    ensures
        typed(v@) == response_schemas(json::held_value(*response), supported().len()),
{
    let types = supported_content_types();
    let ghost held = json::held_value(*response);
    let mut v: Vec<(String, serde_json::Value)> = Vec::new();
    let mut i: usize = 0;
    assert(typed(v@) =~= seq![]);
    while i < types.len()
        invariant
            i <= types.len(),
            text::texts(types@) == supported(),
            held == json::held_value(*response),
            typed(v@) == response_schemas(held, i as nat),
        decreases types.len() - i,
    {
        assert(supported()[i as int] == types@[i as int]@);
        let ghost before = v@;
        let schema = match value_get(response, "content") {
            Some(content) => match value_get(content, types[i].as_str()) {
                Some(media) => value_get(media, "schema"),
                None => None,
            },
            None => None,
        };
        if let Some(s) = schema {
            let p = (types[i].clone(), value_copy(s));
            v.push(p);
            assert(typed(v@) =~= typed(before).push((p.0@, json::held_value(p.1))));
        }
        i = i + 1;
    }
    assert(types@.len() == supported().len());
    v
}

// ---------------------------------------------------------------------------
// The document
// ---------------------------------------------------------------------------

/// Schemas collected so far, or the text of the error.
pub type Collected = Result<Seq<(KeyView, JsonView)>, Seq<char>>;

/// The schemas with the first `n` of a response put in.
pub open spec fn with_response(
    acc: Seq<(KeyView, JsonView)>,
    path: Seq<char>,
    method: Seq<char>,
    status: StatusPattern,
    found: Seq<(Seq<char>, JsonView)>,
    n: nat,
) -> Seq<(KeyView, JsonView)>
    decreases n,
{
    if n == 0 {
        acc
    } else {
        with_schema(
            with_response(acc, path, method, status, found, (n - 1) as nat),
            KeyView { path, method, status, content_type: found[n - 1].0 },
            found[n - 1].1,
        )
    }
}

/// The schemas with those of the first `n` responses of an operation put in.
pub open spec fn with_responses(
    acc: Seq<(KeyView, JsonView)>,
    path: Seq<char>,
    method: Seq<char>,
    responses: Seq<(Seq<char>, JsonView)>,
    n: nat,
) -> Collected
    decreases n,
{
    if n == 0 {
        Ok(acc)
    } else {
        match with_responses(acc, path, method, responses, (n - 1) as nat) {
            Err(e) => Err(e),
            Ok(before) => match status_of(responses[n - 1].0, path, method) {
                Err(e) => Err(e),
                Ok(status) => {
                    let found = response_schemas(responses[n - 1].1, supported().len());
                    Ok(
                        with_response(
                            before,
                            path,
                            text::upper_text(method),
                            status,
                            found,
                            found.len(),
                        ),
                    )
                },
            },
        }
    }
}

/// The schemas with those of an operation put in.
pub open spec fn with_operation(
    acc: Seq<(KeyView, JsonView)>,
    path: Seq<char>,
    method: Seq<char>,
    operation: JsonView,
) -> Collected {
    match json::member(operation, "responses"@) {
        Some(JsonView::Object { members }) => with_responses(
            acc,
            path,
            method,
            members,
            members.len(),
        ),
        _ => Err("operation "@ + method + " "@ + path + " missing 'responses'"@),
    }
}

/// The schemas with those of the first `n` operations of a path put in.
pub open spec fn with_operations(
    acc: Seq<(KeyView, JsonView)>,
    path: Seq<char>,
    operations: Seq<(Seq<char>, JsonView)>,
    n: nat,
) -> Collected
    decreases n,
{
    if n == 0 {
        Ok(acc)
    } else {
        match with_operations(acc, path, operations, (n - 1) as nat) {
            Err(e) => Err(e),
            Ok(before) => if is_method(operations[n - 1].0) {
                with_operation(before, path, operations[n - 1].0, operations[n - 1].1)
            } else {
                Ok(before)
            },
        }
    }
}

/// The schemas of the first `n` paths.
pub open spec fn of_paths(paths: Seq<(Seq<char>, JsonView)>, n: nat) -> Collected
    decreases n,
{
    if n == 0 {
        Ok(seq![])
    } else {
        match of_paths(paths, (n - 1) as nat) {
            Err(e) => Err(e),
            Ok(before) => match paths[n - 1].1 {
                JsonView::Object { members } => with_operations(
                    before,
                    paths[n - 1].0,
                    members,
                    members.len(),
                ),
                _ => Err("path '"@ + paths[n - 1].0 + "' is not an object"@),
            },
        }
    }
}

/// The schemas of a document.
pub open spec fn of_document(doc: JsonView) -> Collected {
    match json::member(doc, "paths"@) {
        Some(JsonView::Object { members }) => of_paths(members, members.len()),
        _ => Err("OpenAPI doc missing 'paths'"@),
    }
}

/// Whether schemas are those that were to be collected.
pub open spec fn is_collected(
    r: Result<Vec<(ResponseKey, serde_json::Value)>, String>,
    want: Collected,
) -> bool {
    match (r, want) {
        (Ok(v), Ok(w)) => schemas_of(v@) == w,
        (Err(e), Err(w)) => e@ == w,
        _ => false,
    }
}

proof fn lemma_responses_err(
    acc: Seq<(KeyView, JsonView)>,
    path: Seq<char>,
    method: Seq<char>,
    responses: Seq<(Seq<char>, JsonView)>,
    k: nat,
    n: nat,
)
    requires
        k <= n,
        with_responses(acc, path, method, responses, k) is Err,
    ensures
        with_responses(acc, path, method, responses, n) == with_responses(
            acc,
            path,
            method,
            responses,
            k,
        ),
    decreases n,
{
    if k < n {
        lemma_responses_err(acc, path, method, responses, k, (n - 1) as nat);
    }
}

proof fn lemma_operations_err(
    acc: Seq<(KeyView, JsonView)>,
    path: Seq<char>,
    operations: Seq<(Seq<char>, JsonView)>,
    k: nat,
    n: nat,
)
    requires
        k <= n,
        with_operations(acc, path, operations, k) is Err,
    ensures
        with_operations(acc, path, operations, n) == with_operations(acc, path, operations, k),
    decreases n,
{
    if k < n {
        lemma_operations_err(acc, path, operations, k, (n - 1) as nat);
    }
}

proof fn lemma_paths_err(paths: Seq<(Seq<char>, JsonView)>, k: nat, n: nat)
    requires
        k <= n,
        of_paths(paths, k) is Err,
    ensures
        of_paths(paths, n) == of_paths(paths, k),
    decreases n,
{
    if k < n {
        lemma_paths_err(paths, k, (n - 1) as nat);
    }
}

fn put_response(
    v: &mut Vec<(ResponseKey, serde_json::Value)>,
    path: &str,
    method: &str,
    status: StatusPattern,
    response: &serde_json::Value,
)
    ensures
        schemas_of(final(v)@) == ({
            let found = response_schemas(json::held_value(*response), supported().len());
            with_response(schemas_of(old(v)@), path@, method@, status, found, found.len())
        }),
{
    let ghost before = schemas_of(v@);
    let found = extract_response_schemas(response);
    let ghost all = typed(found@);
    let mut i: usize = 0;
    while i < found.len()
        invariant
            i <= found.len(),
            all == typed(found@),
            schemas_of(v@) == with_response(before, path@, method@, status, all, i as nat),
        decreases found.len() - i,
    {
        let key = ResponseKey {
            path: path.to_owned(),
            method: method.to_owned(),
            status,
            content_type: found[i].0.clone(),
        };
        assert(all[i as int] == (found@[i as int].0@, json::held_value(found@[i as int].1)));
        put_schema(v, key, value_copy(&found[i].1));
        i = i + 1;
    }
}

fn put_responses(
    start: Vec<(ResponseKey, serde_json::Value)>,
    path: &str,
    method: &str,
    responses: &Vec<(&str, &serde_json::Value)>,
) -> (r: Result<Vec<(ResponseKey, serde_json::Value)>, String>)
    ensures
        is_collected(
            r,
            with_responses(
                schemas_of(start@),
                path@,
                method@,
                json::held_members(responses@),
                responses@.len(),
            ),
        ),
{
    let ghost acc = schemas_of(start@);
    let ghost all = json::held_members(responses@);
    let mut v = start;
    let upper = uppercase(method);
    let mut i: usize = 0;
    while i < responses.len()
        invariant
            acc == schemas_of(start@),
            i <= responses.len(),
            all == json::held_members(responses@),
            upper@ == text::upper_text(method@),
            with_responses(acc, path@, method@, all, i as nat) == Collected::Ok(schemas_of(v@)),
        decreases responses.len() - i,
    {
        let (key, response) = responses[i];
        assert(all[i as int] == (key@, json::held_value(*response)));
        match parse_status(key, path, method) {
            Ok(status) => put_response(&mut v, path, upper.as_str(), status, response),
            Err(e) => {
                proof {
                    lemma_responses_err(
                        acc,
                        path@,
                        method@,
                        all,
                        (i + 1) as nat,
                        responses@.len(),
                    );
                }
                return Err(e);
            },
        }
        i = i + 1;
    }
    Ok(v)
}

fn put_operation(
    v: Vec<(ResponseKey, serde_json::Value)>,
    path: &str,
    method: &str,
    operation: &serde_json::Value,
) -> (r: Result<Vec<(ResponseKey, serde_json::Value)>, String>)
    ensures
        is_collected(
            r,
            with_operation(schemas_of(v@), path@, method@, json::held_value(*operation)),
        ),
{
    let responses = match value_get(operation, "responses") {
        Some(x) => value_members(x),
        None => None,
    };
    match responses {
        Some(m) => put_responses(v, path, method, &m),
        None => Err(cat5("operation ", method, " ", path, " missing 'responses'")),
    }
}

fn put_operations(
    start: Vec<(ResponseKey, serde_json::Value)>,
    path: &str,
    operations: &Vec<(&str, &serde_json::Value)>,
) -> (r: Result<Vec<(ResponseKey, serde_json::Value)>, String>)
    ensures
        is_collected(
            r,
            with_operations(
                schemas_of(start@),
                path@,
                json::held_members(operations@),
                operations@.len(),
            ),
        ),
{
    let ghost acc = schemas_of(start@);
    let ghost all = json::held_members(operations@);
    let mut v = start;
    let mut i: usize = 0;
    while i < operations.len()
        invariant
            acc == schemas_of(start@),
            i <= operations.len(),
            all == json::held_members(operations@),
            with_operations(acc, path@, all, i as nat) == Collected::Ok(schemas_of(v@)),
        decreases operations.len() - i,
    {
        let (method, operation) = operations[i];
        assert(all[i as int] == (method@, json::held_value(*operation)));
        if is_http_method(method) {
            match put_operation(v, path, method, operation) {
                Ok(w) => {
                    v = w;
                },
                Err(e) => {
                    proof {
                        lemma_operations_err(
                            acc,
                            path@,
                            all,
                            (i + 1) as nat,
                            operations@.len(),
                        );
                    }
                    return Err(e);
                },
            }
        }
        i = i + 1;
    }
    Ok(v)
}

/// The response schemas of an OpenAPI document, keyed; the first thing that
/// is wrong with the document is the error.
pub fn collect_schemas(doc: &serde_json::Value) -> (r: Result<
    Vec<(ResponseKey, serde_json::Value)>,
    String,
>)
    ensures
        is_collected(r, of_document(json::held_value(*doc))),
{
    let paths = match value_get(doc, "paths") {
        Some(x) => value_members(x),
        None => None,
    };
    let paths = match paths {
        Some(m) => m,
        None => {
            return Err("OpenAPI doc missing 'paths'".to_owned());
        },
    };
    let ghost all = json::held_members(paths@);
    let mut v: Vec<(ResponseKey, serde_json::Value)> = Vec::new();
    let mut i: usize = 0;
    assert(schemas_of(v@) =~= seq![]);
    while i < paths.len()
        invariant
            i <= paths.len(),
            all == json::held_members(paths@),
            of_document(json::held_value(*doc)) == of_paths(all, paths@.len()),
            of_paths(all, i as nat) == Collected::Ok(schemas_of(v@)),
        decreases paths.len() - i,
    {
        let (path, item) = paths[i];
        assert(all[i as int] == (path@, json::held_value(*item)));
        let next = match value_members(item) {
            Some(operations) => put_operations(v, path, &operations),
            None => Err(cat3("path '", path, "' is not an object")),
        };
        match next {
            Ok(w) => {
                v = w;
            },
            Err(e) => {
                proof {
                    lemma_paths_err(all, (i + 1) as nat, paths@.len());
                }
                return Err(e);
            },
        }
        i = i + 1;
    }
    Ok(v)
}

// ---------------------------------------------------------------------------
// The validator
// ---------------------------------------------------------------------------

/// A single validation error.
#[derive(Debug, Clone, PartialEq, Eq)]
pub struct ValidationError {
    pub path: String,
    pub message: String,
}

/// The result of validating a response.
#[derive(Debug, Clone, PartialEq, Eq)]
pub enum ValidationResult {
    /// The response conforms to the document.
    Valid,
    /// The response violates the document.
    Invalid(Vec<ValidationError>),
    /// The document does not cover the response.
    NoSchema,
}

/// What a result is; an error is a place and a text.
#[verifier::ext_equal]
pub enum VerdictView {
    Valid,
    Invalid { errors: Seq<(Seq<char>, Seq<char>)> },
    NoSchema,
}

/// What errors are.
pub open spec fn errors_of(v: Seq<ValidationError>) -> Seq<(Seq<char>, Seq<char>)> {
    v.map_values(|e: ValidationError| (e.path@, e.message@))
}

impl View for ValidationResult {
    type V = VerdictView;

    open spec fn view(&self) -> VerdictView {
        match self {
            ValidationResult::Valid => VerdictView::Valid,
            ValidationResult::Invalid(v) => VerdictView::Invalid { errors: errors_of(v@) },
            ValidationResult::NoSchema => VerdictView::NoSchema,
        }
    }
}

/// A response to validate.
#[derive(Debug, Clone)]
pub struct ResponseToValidate {
    pub path: String,
    pub method: String,
    pub status: u16,
    pub content_type: Option<String>,
    /// The body as a JSON value. Without one, only the status is checked.
    pub body: Option<serde_json::Value>,
}

/// What a response to validate is.
#[verifier::ext_equal]
pub struct ResponseView {
    pub path: Seq<char>,
    pub method: Seq<char>,
    pub status: u16,
    pub content_type: Option<Seq<char>>,
    pub body: Option<JsonView>,
}

impl View for ResponseToValidate {
    type V = ResponseView;

    open spec fn view(&self) -> ResponseView {
        ResponseView {
            path: self.path@,
            method: self.method@,
            status: self.status,
            content_type: text::opt_text(self.content_type),
            body: match self.body {
                Some(b) => Some(json::held_value(b)),
                None => None,
            },
        }
    }
}

/// The error of a schema with a fault.
pub open spec fn fault_text(key: KeyView, fault: Seq<char>) -> Seq<char> {
    "compile schema for "@ + key_debug(key) + ": "@ + fault
}

/// The first error among the first `n` schemas.
pub open spec fn first_error(s: Seq<(KeyView, JsonView)>, n: nat) -> Option<Seq<char>>
    decreases n,
{
    if n == 0 {
        None
    } else {
        match first_error(s, (n - 1) as nat) {
            Some(e) => Some(e),
            None => match schema_fault(s[n - 1].1) {
                Some(fault) => Some(fault_text(s[n - 1].0, fault)),
                None => None,
            },
        }
    }
}

proof fn lemma_first_error(s: Seq<(KeyView, JsonView)>, k: nat, n: nat)
    requires
        k <= n,
        first_error(s, k) is Some,
    ensures
        first_error(s, n) == first_error(s, k),
    decreases n,
{
    if k < n {
        lemma_first_error(s, k, (n - 1) as nat);
    }
}

/// The schema that a response is held against, and its key: that of the
/// first candidate, from the `i`-th on, that has one.
pub open spec fn chosen(s: Seq<(KeyView, JsonView)>, keys: Seq<KeyView>, i: nat) -> Option<
    (KeyView, JsonView),
>
    decreases keys.len() - i,
{
    if i >= keys.len() {
        None
    } else {
        match schema_at(s, keys[i as int]) {
            Some(schema) => Some((keys[i as int], schema)),
            None => chosen(s, keys, i + 1),
        }
    }
}

/// What a validator is.
#[verifier::ext_equal]
pub struct ValidatorView {
    pub schemas: Seq<(KeyView, JsonView)>,
    pub strict: bool,
}

/// The debugging text of an optional content type.
pub open spec fn type_debug(ct: Option<Seq<char>>) -> Seq<char> {
    match ct {
        Some(c) => "Some("@ + text::debug_text(c) + ")"@,
        None => "None"@,
    }
}

/// The text of the error of a response that the document does not cover.
pub open spec fn uncovered(
    path: Seq<char>,
    method: Seq<char>,
    status: u16,
    ct: Option<Seq<char>>,
) -> Seq<char> {
    "no schema for "@ + method + " "@ + path + (" status "@ + text::dec(status as nat)
        + " content_type "@ + type_debug(ct) + " (strict mode)"@)
}

/// The result for the errors of a body.
pub open spec fn judged(errors: Seq<(Seq<char>, Seq<char>)>) -> VerdictView {
    if errors.len() == 0 {
        VerdictView::Valid
    } else {
        VerdictView::Invalid { errors }
    }
}

/// The schema that a validator holds a response against.
pub open spec fn schema_of_response(v: ValidatorView, r: ResponseView) -> Option<
    (KeyView, JsonView),
> {
    chosen(
        v.schemas,
        candidates(r.path, text::upper_text(r.method), r.status, base_type(r.content_type)),
        0,
    )
}

/// The result of validating a response. A body is not held against a schema
/// for XML.
pub open spec fn verdict(v: ValidatorView, r: ResponseView) -> VerdictView {
    match schema_of_response(v, r) {
        None => if v.strict {
            VerdictView::Invalid {
                errors: seq![
                    (
                        r.path,
                        uncovered(
                            r.path,
                            text::upper_text(r.method),
                            r.status,
                            base_type(r.content_type),
                        ),
                    ),
                ],
            }
        } else {
            VerdictView::NoSchema
        },
        Some(p) => match r.body {
            None => VerdictView::Valid,
            Some(body) => if p.0.content_type == "application/xml"@ {
                VerdictView::Valid
            } else {
                judged(schema_violations(p.1, body))
            },
        },
    }
}

/// The result for the errors of a body: each is a place and a text.
pub fn judge(errors: Vec<(String, String)>) -> (r: ValidationResult)
    ensures
        r@ == judged(text::text_pairs(errors@)),
{
    if errors.len() == 0 {
        return ValidationResult::Valid;
    }
    let ghost all = text::text_pairs(errors@);
    let mut v: Vec<ValidationError> = Vec::new();
    let mut i: usize = 0;
    while i < errors.len()
        invariant
            i <= errors.len(),
            v@.len() == i,
            forall|j: int|
                0 <= j < i ==> (#[trigger] v@[j]).path@ == errors@[j].0@ && v@[j].message@
                    == errors@[j].1@,
        decreases errors.len() - i,
    {
        v.push(ValidationError { path: errors[i].0.clone(), message: errors[i].1.clone() });
        i = i + 1;
    }
    assert(errors_of(v@) =~= all);
    ValidationResult::Invalid(v)
}

/// A validator of responses: a schema for each of some keys, none of which
/// has a fault.
#[derive(Debug)]
pub struct ResponseValidator {
    schemas: Vec<(ResponseKey, serde_json::Value)>,
    strict: bool,
}

impl View for ResponseValidator {
    type V = ValidatorView;

    closed spec fn view(&self) -> ValidatorView {
        ValidatorView { schemas: schemas_of(self.schemas@), strict: self.strict }
    }
}

impl ResponseValidator {
    #[verifier::type_invariant]
    spec fn well_formed(self) -> bool {
        forall|i: int|
            0 <= i < self.schemas@.len() ==> schema_fault(
                json::held_value((#[trigger] self.schemas@[i]).1),
            ) is None
    }

    /// A validator without schemas.
    pub fn empty() -> (v: Self)
        ensures
            v@ == (ValidatorView { schemas: seq![], strict: false }),
    {
        let schemas: Vec<(ResponseKey, serde_json::Value)> = Vec::new();
        assert(schemas_of(schemas@) =~= seq![]);
        ResponseValidator { schemas, strict: false }
    }

    /// A validator of schemas. Of two schemas of one key the first counts.
    pub fn from_schemas(schemas: Vec<(ResponseKey, serde_json::Value)>) -> (r: Result<
        Self,
        String,
    >)
        ensures
            match (r, first_error(schemas_of(schemas@), schemas@.len())) {
                (Ok(v), None) => v@ == (ValidatorView {
                    schemas: schemas_of(schemas@),
                    strict: false,
                }),
                (Err(e), Some(w)) => e@ == w,
                _ => false,
            },
    {
        Self::from_schemas_strict(schemas, false)
    }

    /// A validator of schemas, strict or not. Of two schemas of one key the
    /// first counts.
    pub fn from_schemas_strict(schemas: Vec<(ResponseKey, serde_json::Value)>, strict: bool) -> (r:
        Result<Self, String>)
        ensures
            match (r, first_error(schemas_of(schemas@), schemas@.len())) {
                (Ok(v), None) => v@ == (ValidatorView { schemas: schemas_of(schemas@), strict }),
                (Err(e), Some(w)) => e@ == w,
                _ => false,
            },
    {
        let ghost all = schemas_of(schemas@);
        let mut i: usize = 0;
        while i < schemas.len()
            invariant
                i <= schemas.len(),
                all == schemas_of(schemas@),
                first_error(all, i as nat) is None,
                forall|j: int|
                    0 <= j < i ==> schema_fault(
                        json::held_value((#[trigger] schemas@[j]).1),
                    ) is None,
            decreases schemas.len() - i,
        {
            assert(all[i as int] == (
                schemas@[i as int].0@,
                json::held_value(schemas@[i as int].1),
            ));
            if let Some(fault) = check_schema(&schemas[i].1) {
                proof {
                    lemma_first_error(all, (i + 1) as nat, schemas@.len());
                }
                return Err(
                    cat4("compile schema for ", schemas[i].0.debug().as_str(), ": ", fault.as_str()),
                );
            }
            i = i + 1;
        }
        Ok(ResponseValidator { schemas, strict })
    }

    /// A validator of an OpenAPI document.
    pub fn from_openapi(doc: &serde_json::Value) -> (r: Result<Self, String>)
        ensures
            match of_document(json::held_value(*doc)) {
                Err(w) => r matches Err(e) && e@ == w,
                Ok(schemas) => match (r, first_error(schemas, schemas.len())) {
                    (Ok(v), None) => v@ == (ValidatorView { schemas, strict: false }),
                    (Err(e), Some(w)) => e@ == w,
                    _ => false,
                },
            },
    {
        Self::from_openapi_strict(doc, false)
    }

    /// A validator of an OpenAPI document, strict or not.
    pub fn from_openapi_strict(doc: &serde_json::Value, strict: bool) -> (r: Result<Self, String>)
        ensures
            match of_document(json::held_value(*doc)) {
                Err(w) => r matches Err(e) && e@ == w,
                Ok(schemas) => match (r, first_error(schemas, schemas.len())) {
                    (Ok(v), None) => v@ == (ValidatorView { schemas, strict }),
                    (Err(e), Some(w)) => e@ == w,
                    _ => false,
                },
            },
    {
        match collect_schemas(doc) {
            Ok(schemas) => {
                assert(schemas_of(schemas@).len() == schemas@.len());
                Self::from_schemas_strict(schemas, strict)
            },
            Err(e) => Err(e),
        }
    }

    /// The place of the schema of the first candidate that has one, and the
    /// candidate.
    fn choose_schema(&self, keys: &Vec<ResponseKey>) -> (r: Option<(usize, usize)>)
        ensures
            match (r, chosen(self@.schemas, keys_of(keys@), 0)) {
                (Some(p), Some(c)) => {
                    &&& p.0 < self.schemas@.len()
                    &&& p.1 < keys@.len()
                    &&& json::held_value(self.schemas@[p.0 as int].1) == c.1
                    &&& keys@[p.1 as int]@ == c.0
                },
                (None, None) => true,
                _ => false,
            },
    {
        let ghost all = keys_of(keys@);
        let mut i: usize = 0;
        while i < keys.len()
            invariant
                i <= keys.len(),
                all == keys_of(keys@),
                chosen(self@.schemas, all, 0) == chosen(self@.schemas, all, i as nat),
            decreases keys.len() - i,
        {
            assert(all[i as int] == keys@[i as int]@);
            let at: usize = find_schema(&self.schemas, &keys[i]);
            if at < self.schemas.len() {
                return Some((at, i));
            }
            i = i + 1;
        }
        None
    }

    /// Validates a response.
    pub fn validate(&self, response: &ResponseToValidate) -> (r: ValidationResult)
        ensures
            r@ == verdict(self@, response@),
            laws::is_judged(self@, response@, r@),
    {
        proof {
            use_type_invariant(self);
            laws::law_response_is_judged(self@, response@);
        }
        let method = uppercase(response.method.as_str());
        let given = match &response.content_type {
            Some(c) => Some(c.as_str()),
            None => None,
        };
        assert(text::opt_str(given) == response@.content_type);
        let ct = normalize_content_type(given);
        let known = match &ct {
            Some(c) => Some(c.as_str()),
            None => None,
        };
        assert(text::opt_str(known) == base_type(response@.content_type));
        let keys = lookup_candidates(
            response.path.as_str(),
            method.as_str(),
            response.status,
            known,
        );
        match self.choose_schema(&keys) {
            None => {
                if self.strict {
                    let ty = match &ct {
                        Some(c) => cat3("Some(", debug_str(c.as_str()).as_str(), ")"),
                        None => "None".to_owned(),
                    };
                    let tail = cat5(
                        " status ",
                        decimal(response.status as u64).as_str(),
                        " content_type ",
                        ty.as_str(),
                        " (strict mode)",
                    );
                    let message = cat5(
                        "no schema for ",
                        method.as_str(),
                        " ",
                        response.path.as_str(),
                        tail.as_str(),
                    );
                    let mut errors: Vec<ValidationError> = Vec::new();
                    errors.push(ValidationError { path: response.path.clone(), message });
                    let ghost want = seq![
                        (
                            response@.path,
                            uncovered(
                                response@.path,
                                text::upper_text(response@.method),
                                response.status,
                                base_type(response@.content_type),
                            ),
                        ),
                    ];
                    assert(errors_of(errors@) =~= want);
                    return ValidationResult::Invalid(errors);
                }
                ValidationResult::NoSchema
            },
            Some((at, key)) => match &response.body {
                None => ValidationResult::Valid,
                Some(body) => {
                    if same(keys[key].content_type.as_str(), "application/xml") {
                        return ValidationResult::Valid;
                    }
                    judge(violations(&self.schemas[at].1, body))
                },
            },
        }
    }

    /// The number of schemas.
    pub fn schema_count(&self) -> (n: usize)
        ensures
            n == self@.schemas.len(),
    {
        self.schemas.len()
    }

    /// Whether there is a schema for a path, a method and a status.
    pub fn has_schema(&self, path: &str, method: &str, status: u16) -> (r: bool)
        ensures
            r == (chosen(
                self@.schemas,
                candidates(path@, text::upper_text(method@), status, None),
                0,
            ) is Some),
    {
        let method = uppercase(method);
        let keys = lookup_candidates(path, method.as_str(), status, None);
        self.choose_schema(&keys).is_some()
    }

    /// Whether strict mode is enabled.
    pub fn is_strict(&self) -> (r: bool)
        ensures
            r == self@.strict,
    {
        self.strict
    }
}

// ---------------------------------------------------------------------------
// Laws
// ---------------------------------------------------------------------------

proof fn lemma_chosen(s: Seq<(KeyView, JsonView)>, keys: Seq<KeyView>, i: nat, k: nat)
    requires
        i <= k < keys.len(),
        schema_at(s, keys[k as int]) is Some,
    ensures
        chosen(s, keys, i) is Some,
        exists|j: nat|
            i <= j <= k && (#[trigger] keys[j as int]) == (chosen(s, keys, i)->0).0 && schema_at(
                s,
                keys[j as int],
            ) == Some((chosen(s, keys, i)->0).1),
    decreases keys.len() - i,
{
    if schema_at(s, keys[i as int]) is Some {
        assert(keys[i as int] == (chosen(s, keys, i)->0).0);
    } else {
        lemma_chosen(s, keys, i + 1, k);
        let j = choose|j: nat|
            i + 1 <= j <= k && (#[trigger] keys[j as int]) == (chosen(s, keys, i + 1)->0).0
                && schema_at(s, keys[j as int]) == Some((chosen(s, keys, i + 1)->0).1);
        assert(keys[j as int] == (chosen(s, keys, i)->0).0);
    }
}

proof fn lemma_chosen_is_candidate(s: Seq<(KeyView, JsonView)>, keys: Seq<KeyView>, i: nat)
    requires
        chosen(s, keys, i) is Some,
    ensures
        keys.contains((chosen(s, keys, i)->0).0),
    decreases keys.len() - i,
{
    if i < keys.len() && schema_at(s, keys[i as int]) is None {
        lemma_chosen_is_candidate(s, keys, i + 1);
    }
}

/// A schema for the exact status is preferred to one for the family, and
/// that to the default one, whatever their content types among those that
/// are tried.
pub proof fn law_more_specific_status_wins(
    s: Seq<(KeyView, JsonView)>,
    path: Seq<char>,
    method: Seq<char>,
    status: u16,
    ct: Option<Seq<char>>,
    t: int,
)
    requires
        0 <= t < types_to_try(ct).len(),
    ensures
        ({
            let types = types_to_try(ct);
            let exact = KeyView {
                path,
                method,
                status: StatusPattern::Exact(status),
                content_type: types[t],
            };
            let family = KeyView {
                path,
                method,
                status: StatusPattern::Family(family_of(status)),
                content_type: types[t],
            };
            let c = chosen(s, candidates(path, method, status, ct), 0);
            &&& schema_at(s, exact) is Some ==> c is Some && (c->0).0.status
                == StatusPattern::Exact(status)
            &&& schema_at(s, family) is Some ==> c is Some && (c->0).0.status
                != StatusPattern::Default
        }),
{
    let types = types_to_try(ct);
    let n = types.len();
    let keys = candidates(path, method, status, ct);
    let exact = keys_for(path, method, StatusPattern::Exact(status), types);
    let family = keys_for(path, method, StatusPattern::Family(family_of(status)), types);
    assert forall|j: int| 0 <= j < n implies (#[trigger] keys[j]).status == StatusPattern::Exact(
        status,
    ) by {
        assert(keys[j] == exact[j]);
    }
    assert forall|j: int| n <= j < 2 * n implies (#[trigger] keys[j]).status
        == StatusPattern::Family(family_of(status)) by {
        assert(keys[j] == family[j - n]);
    }
    assert(keys[t] == exact[t]);
    assert(keys[n + t] == family[t]);
    if schema_at(s, exact[t]) is Some {
        lemma_chosen(s, keys, 0, t as nat);
    }
    if schema_at(s, family[t]) is Some {
        lemma_chosen(s, keys, 0, (n + t) as nat);
    }
}

/// Whatever schema is chosen covers the status of the response.
pub proof fn law_chosen_schema_covers_the_status(
    s: Seq<(KeyView, JsonView)>,
    path: Seq<char>,
    method: Seq<char>,
    status: u16,
    ct: Option<Seq<char>>,
)
    requires
        chosen(s, candidates(path, method, status, ct), 0) is Some,
    ensures
        ({
            let key = (chosen(s, candidates(path, method, status, ct), 0)->0).0;
            &&& covers(key.status, status)
            &&& key.path == path
            &&& key.method == method
        }),
{
    let types = types_to_try(ct);
    let n = types.len() as int;
    let keys = candidates(path, method, status, ct);
    lemma_chosen_is_candidate(s, keys, 0);
    let key = (chosen(s, keys, 0)->0).0;
    let j = choose|j: int| 0 <= j < keys.len() && keys[j] == key;
    if j < n {
        assert(keys[j] == keys_for(path, method, StatusPattern::Exact(status), types)[j]);
    } else if j < 2 * n {
        assert(keys[j] == keys_for(
            path,
            method,
            StatusPattern::Family(family_of(status)),
            types,
        )[j - n]);
    } else {
        assert(keys[j] == keys_for(path, method, StatusPattern::Default, types)[j - 2 * n]);
    }
}

/// In strict mode a response that the document does not cover is invalid;
/// otherwise it is not validated.
pub proof fn law_strict_mode_refuses_what_is_not_covered(v: ValidatorView, r: ResponseView)
    requires
        schema_of_response(v, r) is None,
    ensures
        v.strict ==> verdict(v, r) is Invalid,
        !v.strict ==> verdict(v, r) == VerdictView::NoSchema,
{
}

/// A body is held against no schema where the schema that was chosen is one
/// for XML.
pub proof fn law_xml_bodies_are_not_held_against_schemas(v: ValidatorView, r: ResponseView)
    requires
        schema_of_response(v, r) is Some,
        (schema_of_response(v, r)->0).0.content_type == "application/xml"@,
    ensures
        verdict(v, r) == VerdictView::Valid,
{
}

} // verus!
