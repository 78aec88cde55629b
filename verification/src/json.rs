//! JSON values.

use vstd::prelude::*;
use vstd::string::*;

use crate::text;
use crate::text::same;

verus! {

/// A JSON value. A number is kept as its text; the members of an object are
/// in order.
#[derive(Debug, PartialEq, Eq)]
pub enum Json {
    Null,
    Bool(bool),
    Number(String),
    Text(String),
    Array(Vec<Json>),
    Object(Vec<(String, Json)>),
}

/// What a JSON value is.
pub enum JsonView {
    Null,
    Bool { value: bool },
    Number { digits: Seq<char> },
    Text { text: Seq<char> },
    Array { items: Seq<JsonView> },
    Object { members: Seq<(Seq<char>, JsonView)> },
}

/// What a JSON value is.
pub open spec fn value_of(j: Json) -> JsonView
    decreases j,
{
    match j {
        Json::Null => JsonView::Null,
        Json::Bool(b) => JsonView::Bool { value: b },
        Json::Number(s) => JsonView::Number { digits: s@ },
        Json::Text(s) => JsonView::Text { text: s@ },
        Json::Array(v) => JsonView::Array {
            items: Seq::new(
                v@.len(),
                |i: int|
                    if 0 <= i < v@.len() {
                        value_of(v@[i])
                    } else {
                        JsonView::Null
                    },
            ),
        },
        Json::Object(v) => JsonView::Object {
            members: Seq::new(
                v@.len(),
                |i: int|
                    if 0 <= i < v@.len() {
                        (v@[i].0@, value_of(v@[i].1))
                    } else {
                        (seq![], JsonView::Null)
                    },
            ),
        },
    }
}

impl View for Json {
    type V = JsonView;

    open spec fn view(&self) -> JsonView {
        value_of(*self)
    }
}

/// What JSON values are.
pub open spec fn values_of(v: Seq<Json>) -> Seq<JsonView> {
    v.map_values(|j: Json| value_of(j))
}

/// What the members of an object are.
pub open spec fn members_of(v: Seq<(String, Json)>) -> Seq<(Seq<char>, JsonView)> {
    v.map_values(|p: (String, Json)| (p.0@, value_of(p.1)))
}

/// The value of an array is that of its items.
pub broadcast proof fn lemma_array(v: Vec<Json>)
    ensures
        #[trigger] value_of(Json::Array(v)) == (JsonView::Array { items: values_of(v@) }),
{
    assert(value_of(Json::Array(v))->items =~= values_of(v@));
}

/// The value of an object is that of its members.
pub broadcast proof fn lemma_object(v: Vec<(String, Json)>)
    ensures
        #[trigger] value_of(Json::Object(v)) == (JsonView::Object { members: members_of(v@) }),
{
    assert(value_of(Json::Object(v))->members =~= members_of(v@));
}

/// The value of the first member of a name.
pub open spec fn member_of(m: Seq<(Seq<char>, JsonView)>, key: Seq<char>) -> Option<JsonView>
    decreases m.len(),
{
    if m.len() == 0 {
        None
    } else if m[0].0 == key {
        Some(m[0].1)
    } else {
        member_of(m.skip(1), key)
    }
}

/// The member of an object, if the value is one that has it.
pub open spec fn member(v: JsonView, key: Seq<char>) -> Option<JsonView> {
    match v {
        JsonView::Object { members } => member_of(members, key),
        _ => None,
    }
}

/// The first member of a name.
pub fn find_member<'a>(m: &'a Vec<(String, Json)>, key: &str) -> (r: Option<&'a Json>)
    ensures
        match (r, member_of(members_of(m@), key@)) {
            (Some(j), Some(v)) => j@ == v,
            (None, None) => true,
            _ => false,
        },
{
    let ghost all = members_of(m@);
    let mut i: usize = 0;
    assert(all.skip(0) =~= all);
    while i < m.len()
        invariant
            i <= m.len(),
            all == members_of(m@),
            member_of(all, key@) == member_of(all.skip(i as int), key@),
        decreases m.len() - i,
    {
        assert(all.skip(i as int)[0] == (m@[i as int].0@, value_of(m@[i as int].1)));
        assert(all.skip(i as int).skip(1) =~= all.skip(i + 1));
        if same(m[i].0.as_str(), key) {
            return Some(&m[i].1);
        }
        i = i + 1;
    }
    None
}

impl Json {
    /// The member of an object, if the value is one that has it.
    pub fn get(&self, key: &str) -> (r: Option<&Json>)
        ensures
            match (r, member(self@, key@)) {
                (Some(j), Some(v)) => j@ == v,
                (None, None) => true,
                _ => false,
            },
    {
        match self {
            Json::Object(m) => {
                proof {
                    lemma_object(*m);
                }
                find_member(m, key)
            },
            _ => None,
        }
    }

    /// The text of a string value.
    pub fn as_str(&self) -> (r: Option<&str>)
        ensures
            match (r, self@) {
                (Some(s), JsonView::Text { text }) => s@ == text,
                (None, JsonView::Text { .. }) => false,
                (None, _) => true,
                _ => false,
            },
    {
        match self {
            Json::Text(s) => Some(s.as_str()),
            _ => None,
        }
    }

    /// A copy of the value.
    pub fn copy(&self) -> (r: Json)
        ensures
            r@ == self@,
        decreases *self,
    {
        match self {
            Json::Null => Json::Null,
            Json::Bool(b) => Json::Bool(*b),
            Json::Number(s) => Json::Number(s.clone()),
            Json::Text(s) => Json::Text(s.clone()),
            Json::Array(v) => {
                let mut r: Vec<Json> = Vec::new();
                let mut i: usize = 0;
                while i < v.len()
                    invariant
                        i <= v.len(),
                        r.len() == i,
                        *self == Json::Array(*v),
                        forall|j: int| 0 <= j < i ==> (#[trigger] r@[j])@ == value_of(v@[j]),
                    decreases v.len() - i,
                {
                    assert(decreases_to!(*self => self->Array_0));
                    assert(decreases_to!(*v => v@));
                    assert(decreases_to!(v@ => v@[i as int]));
                    r.push(v[i].copy());
                    i = i + 1;
                }
                proof {
                    assert(values_of(r@) =~= values_of(v@));
                    lemma_array(r);
                    lemma_array(*v);
                }
                Json::Array(r)
            },
            Json::Object(v) => {
                let mut r: Vec<(String, Json)> = Vec::new();
                let mut i: usize = 0;
                while i < v.len()
                    invariant
                        i <= v.len(),
                        r.len() == i,
                        *self == Json::Object(*v),
                        forall|j: int|
                            0 <= j < i ==> (#[trigger] r@[j]).0@ == v@[j].0@ && value_of(r@[j].1)
                                == value_of(v@[j].1),
                    decreases v.len() - i,
                {
                    assert(decreases_to!(*self => self->Object_0));
                    assert(decreases_to!(*v => v@));
                    assert(decreases_to!(v@ => v@[i as int]));
                    assert(decreases_to!(v@[i as int] => v@[i as int].1));
                    r.push((v[i].0.clone(), v[i].1.copy()));
                    i = i + 1;
                }
                proof {
                    assert(members_of(r@) =~= members_of(v@));
                    lemma_object(r);
                    lemma_object(*v);
                }
                Json::Object(r)
            },
        }
    }
}

impl Clone for Json {
    fn clone(&self) -> (r: Self)
        ensures
            r@ == self@,
    {
        self.copy()
    }
}

// ---------------------------------------------------------------------------
// Parsing
// ---------------------------------------------------------------------------

/// A JSON value of the `serde_json` crate.
#[verifier::external_type_specification]
#[verifier::external_body]
pub struct ExSerdeValue(serde_json::Value);

/// What a `serde_json::Value` holds.
pub uninterp spec fn held_value(v: serde_json::Value) -> JsonView;

/// What `serde_json::from_str` makes of a text: the value, or the text of
/// the error.
pub uninterp spec fn parsed_json(s: Seq<char>) -> Result<JsonView, Seq<char>>;

/// `serde_json::from_str` of a text into a `serde_json::Value`. The value
/// depends on the text alone.
#[verifier::external_body]
pub(crate) fn parse_value(s: &str) -> (r: Result<serde_json::Value, String>)
    ensures
        match r {
            Ok(v) => parsed_json(s@) == Ok::<JsonView, Seq<char>>(held_value(v)),
            Err(e) => parsed_json(s@) == Err::<JsonView, Seq<char>>(e@),
        },
{
    serde_json::from_str(s).map_err(|e| e.to_string())
}

/// The variants and fields of a `serde_json::Value`, one for one: a number
/// as its text, the members of an object in the order of its map.
#[verifier::external_body]
pub(crate) fn json_from_value(v: &serde_json::Value) -> (j: Json)
    ensures
        j@ == held_value(*v),
{
    match v {
        serde_json::Value::Null => Json::Null,
        serde_json::Value::Bool(b) => Json::Bool(*b),
        serde_json::Value::Number(n) => Json::Number(n.to_string()),
        serde_json::Value::String(s) => Json::Text(s.clone()),
        serde_json::Value::Array(a) => Json::Array(a.iter().map(json_from_value).collect()),
        serde_json::Value::Object(m) => Json::Object(
            m.iter().map(|(k, x)| (k.clone(), json_from_value(x))).collect(),
        ),
    }
}

/// `serde_json::Value::get` of a key: the member of an object.
#[verifier::external_body]
pub(crate) fn value_get<'a>(v: &'a serde_json::Value, key: &str) -> (r: Option<
    &'a serde_json::Value,
>)
    ensures
        match (r, member(held_value(*v), key@)) {
            (Some(x), Some(m)) => held_value(*x) == m,
            (None, None) => true,
            _ => false,
        },
{
    v.get(key)
}

/// What the members of a `serde_json` object are.
pub open spec fn held_members(v: Seq<(&str, &serde_json::Value)>) -> Seq<(Seq<char>, JsonView)> {
    v.map_values(|p: (&str, &serde_json::Value)| (p.0@, held_value(*p.1)))
}

/// `serde_json::Value::as_object`: the members of an object in the order of
/// its map.
#[verifier::external_body]
pub(crate) fn value_members<'a>(v: &'a serde_json::Value) -> (r: Option<
    Vec<(&'a str, &'a serde_json::Value)>,
>)
    ensures
        match (r, held_value(*v)) {
            (Some(m), JsonView::Object { members }) => held_members(m@) == members,
            (None, JsonView::Object { members }) => false,
            (Some(_), _) => false,
            (None, _) => true,
        },
{
    v.as_object().map(|m| m.iter().map(|(k, x)| (k.as_str(), x)).collect())
}

/// `Clone` of a `serde_json::Value`: it holds the same value.
#[verifier::external_body]
pub(crate) fn value_copy(v: &serde_json::Value) -> (r: serde_json::Value)
    ensures
        held_value(r) == held_value(*v),
{
    v.clone()
}

/// The members of a sorted object with one put in: in place of another of
/// the same name, or where its name belongs.
pub open spec fn put_member(m: Seq<(Seq<char>, JsonView)>, key: Seq<char>, value: JsonView) -> Seq<
    (Seq<char>, JsonView),
>
    decreases m.len(),
{
    if m.len() == 0 {
        seq![(key, value)]
    } else if m[0].0 == key {
        seq![(key, value)] + m.skip(1)
    } else if text::precedes(key, m[0].0) {
        seq![(key, value)] + m
    } else {
        seq![m[0]] + put_member(m.skip(1), key, value)
    }
}

/// `serde_json::Map::insert` into an object, whose map keeps its members in
/// the order of their names.
#[verifier::external_body]
pub(crate) fn value_insert(v: &mut serde_json::Value, key: &str, value: serde_json::Value)
    requires
        held_value(*old(v)) is Object,
    ensures
        held_value(*final(v)) == (JsonView::Object {
            members: put_member(
                held_value(*old(v))->members,
                key@,
                held_value(value),
            ),
        }),
{
    if let Some(m) = v.as_object_mut() {
        m.insert(key.to_string(), value);
    }
}

/// What parsing a text gives.
pub open spec fn parse_view(r: Result<Json, String>) -> Result<JsonView, Seq<char>> {
    match r {
        Ok(j) => Ok(j@),
        Err(e) => Err(e@),
    }
}

/// The JSON value of a text, or the text of the error.
pub fn parse_json(s: &str) -> (r: Result<Json, String>)
    ensures
        parse_view(r) == parsed_json(s@),
{
    match parse_value(s) {
        Ok(v) => Ok(json_from_value(&v)),
        Err(e) => Err(e),
    }
}

} // verus!
