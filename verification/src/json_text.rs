//! JSON as text: strings, members and objects in the compact form.

use vstd::prelude::*;
use vstd::string::*;

use crate::text;
use crate::text::cat3;

verus! {

broadcast use crate::text::lemma_texts_push;

/// A character inside a JSON string.
pub open spec fn escaped_char(c: char) -> Seq<char> {
    let u = c as u32;
    if c == '"' {
        seq!['\\', '"']
    } else if c == '\\' {
        seq!['\\', '\\']
    } else if u == 8 {
        seq!['\\', 'b']
    } else if u == 9 {
        seq!['\\', 't']
    } else if u == 10 {
        seq!['\\', 'n']
    } else if u == 12 {
        seq!['\\', 'f']
    } else if u == 13 {
        seq!['\\', 'r']
    } else if u < 32 {
        seq!['\\', 'u', '0', '0', text::digit((u / 16) as nat), text::digit((u % 16) as nat)]
    } else {
        seq![c]
    }
}

/// The characters of a text inside a JSON string.
pub open spec fn escaped(s: Seq<char>) -> Seq<char>
    decreases s.len(),
{
    if s.len() == 0 {
        seq![]
    } else {
        escaped(s.drop_last()) + escaped_char(s.last())
    }
}

/// A text as a JSON string.
pub open spec fn quoted(s: Seq<char>) -> Seq<char> {
    seq!['"'] + escaped(s) + seq!['"']
}

/// `serde_json::to_string` of a string: the text between double quotes, with
/// the double quote, the backslash and the control characters below 32
/// escaped, the five of them that have a letter by that letter, the others by
/// four hexadecimal digits. It does not fail on a string.
#[verifier::external_body]
pub(crate) fn quote(s: &str) -> (r: String)
    ensures
        r@ == quoted(s@),
{
    serde_json::to_string(s).unwrap_or_default()
}

/// Texts with a separator between them.
pub open spec fn joined(parts: Seq<Seq<char>>, sep: Seq<char>) -> Seq<char>
    decreases parts.len(),
{
    if parts.len() == 0 {
        seq![]
    } else if parts.len() == 1 {
        parts[0]
    } else {
        joined(parts.drop_last(), sep) + sep + parts.last()
    }
}

/// Texts with a separator between them.
pub fn join(parts: &Vec<String>, sep: &str) -> (s: String)
    ensures
        s@ == joined(text::texts(parts@), sep@),
{
    let ghost all = text::texts(parts@);
    let mut s = String::new();
    let mut i: usize = 0;
    assert(all.take(0) =~= seq![]);
    assert(s@ =~= joined(all.take(0), sep@));
    while i < parts.len()
        invariant
            i <= parts.len(),
            all == text::texts(parts@),
            s@ == joined(all.take(i as int), sep@),
        decreases parts.len() - i,
    {
        assert(all.take(i + 1).drop_last() =~= all.take(i as int));
        assert(all[i as int] == parts@[i as int]@);
        if i > 0 {
            s.append(sep);
        } else {
            assert(s@ =~= seq![]);
        }
        s.append(parts[i].as_str());
        assert(i == 0 ==> s@ =~= parts@[0]@);
        i = i + 1;
    }
    assert(all.take(all.len() as int) =~= all);
    s
}

/// A member of an object: a name that needs no escapes, and a value.
pub open spec fn member(name: Seq<char>, value: Seq<char>) -> Seq<char> {
    seq!['"'] + name + "\":"@ + value
}

/// An object of members.
pub open spec fn object(members: Seq<Seq<char>>) -> Seq<char> {
    "{"@ + joined(members, ","@) + "}"@
}

/// Members with one more behind them, if there is a value.
pub open spec fn with_member(
    members: Seq<Seq<char>>,
    name: Seq<char>,
    value: Option<Seq<char>>,
) -> Seq<Seq<char>> {
    match value {
        Some(v) => members.push(member(name, v)),
        None => members,
    }
}

/// The members of an object under construction.
pub struct Members {
    list: Vec<String>,
}

impl View for Members {
    type V = Seq<Seq<char>>;

    closed spec fn view(&self) -> Seq<Seq<char>> {
        text::texts(self.list@)
    }
}

impl Members {
    /// No members.
    pub fn new() -> (m: Self)
        ensures
            m@ == Seq::<Seq<char>>::empty(),
    {
        let m = Members { list: Vec::new() };
        assert(m@ =~= Seq::<Seq<char>>::empty());
        m
    }

    /// Adds a member with a value that is JSON already.
    pub fn raw(&mut self, name: &str, value: &str)
        ensures
            final(self)@ == old(self)@.push(member(name@, value@)),
    {
        let mut s = String::new();
        s.push('"');
        s.append(name);
        s.append("\":");
        s.append(value);
        assert(s@ =~= member(name@, value@));
        self.list.push(s);
    }

    /// Adds a member with a string.
    pub fn string(&mut self, name: &str, value: &str)
        ensures
            final(self)@ == old(self)@.push(member(name@, quoted(value@))),
    {
        let q = quote(value);
        self.raw(name, q.as_str());
    }

    /// Adds a member with a string, if there is one.
    pub fn opt_string(&mut self, name: &str, value: &Option<String>)
        ensures
            final(self)@ == with_member(old(self)@, name@, opt_quoted(text::opt_text(*value))),
    {
        if let Some(v) = value {
            self.string(name, v.as_str());
        }
    }

    /// Adds a member with a number.
    pub fn number(&mut self, name: &str, value: u64)
        ensures
            final(self)@ == old(self)@.push(member(name@, text::dec(value as nat))),
    {
        let d = text::decimal(value);
        self.raw(name, d.as_str());
    }

    /// Adds a member with a number, if there is one.
    pub fn opt_number(&mut self, name: &str, value: Option<u64>)
        ensures
            final(self)@ == with_member(old(self)@, name@, opt_dec(value)),
    {
        if let Some(v) = value {
            self.number(name, v);
        }
    }

    /// Adds a member with a truth value.
    pub fn boolean(&mut self, name: &str, value: bool)
        ensures
            final(self)@ == old(self)@.push(member(name@, truth(value))),
    {
        if value {
            self.raw(name, "true");
        } else {
            self.raw(name, "false");
        }
    }

    /// The object of the members.
    pub fn finish(&self) -> (s: String)
        ensures
            s@ == object(self@),
    {
        cat3("{", join(&self.list, ",").as_str(), "}")
    }
}

// ---------------------------------------------------------------------------
// Objects of strings
// ---------------------------------------------------------------------------

/// Names in order with their values, with one pair put in: in place of
/// another of the same name, or where its name belongs.
pub open spec fn put_pair(
    m: Seq<(Seq<char>, Seq<char>)>,
    key: Seq<char>,
    value: Seq<char>,
) -> Seq<(Seq<char>, Seq<char>)>
    decreases m.len(),
{
    if m.len() == 0 {
        seq![(key, value)]
    } else if m[0].0 == key {
        seq![(key, value)] + m.skip(1)
    } else if text::precedes(key, m[0].0) {
        seq![(key, value)] + m
    } else {
        seq![m[0]] + put_pair(m.skip(1), key, value)
    }
}

/// Pairs in the order of their names, the last of each name.
pub open spec fn in_name_order(pairs: Seq<(Seq<char>, Seq<char>)>) -> Seq<(Seq<char>, Seq<char>)>
    decreases pairs.len(),
{
    if pairs.len() == 0 {
        pairs
    } else {
        put_pair(in_name_order(pairs.drop_last()), pairs.last().0, pairs.last().1)
    }
}

/// Pairs as members of an object.
pub open spec fn string_members(pairs: Seq<(Seq<char>, Seq<char>)>) -> Seq<Seq<char>> {
    pairs.map_values(|p: (Seq<char>, Seq<char>)| quoted(p.0) + ":"@ + quoted(p.1))
}

/// The object of names and string values: its members are in the order of
/// their names, and a later pair takes the place of an earlier one of the
/// same name.
pub open spec fn string_object(pairs: Seq<(Seq<char>, Seq<char>)>) -> Seq<char> {
    object(string_members(in_name_order(pairs)))
}

fn put_string(v: &mut Vec<(String, String)>, key: &str, value: &str)
    ensures
        text::text_pairs(final(v)@) == put_pair(text::text_pairs(old(v)@), key@, value@),
{
    let ghost all = text::text_pairs(v@);
    let ghost start = v@;
    let mut i: usize = 0;
    assert(all.skip(0) =~= all);
    assert(all.take(0) + put_pair(all.skip(0), key@, value@) =~= put_pair(all, key@, value@));
    while i < v.len()
        invariant
            i <= v.len(),
            v@ == start,
            all == text::text_pairs(start),
            all == text::text_pairs(old(v)@),
            put_pair(all, key@, value@) == all.take(i as int) + put_pair(
                all.skip(i as int),
                key@,
                value@,
            ),
        decreases v.len() - i,
    {
        let ghost rest = all.skip(i as int);
        assert(rest[0] == all[i as int]);
        assert(all[i as int] == (start[i as int].0@, start[i as int].1@));
        if text::same(v[i].0.as_str(), key) {
            v.remove(i);
            v.insert(i, (key.to_owned(), value.to_owned()));
            assert(text::text_pairs(v@) =~= all.take(i as int) + put_pair(rest, key@, value@));
            return;
        }
        if text::comes_before(key, v[i].0.as_str()) {
            v.insert(i, (key.to_owned(), value.to_owned()));
            assert(text::text_pairs(v@) =~= all.take(i as int) + put_pair(rest, key@, value@));
            return;
        }
        assert(rest.skip(1) =~= all.skip(i + 1));
        assert(all.take(i as int) + put_pair(rest, key@, value@) =~= all.take(i + 1) + put_pair(
            all.skip(i + 1),
            key@,
            value@,
        ));
        i = i + 1;
    }
    assert(all.skip(i as int) =~= seq![]);
    v.push((key.to_owned(), value.to_owned()));
    assert(text::text_pairs(v@) =~= all.take(i as int) + put_pair(
        all.skip(i as int),
        key@,
        value@,
    ));
}

/// The object of names and string values.
pub fn write_strings(pairs: &Vec<(String, String)>) -> (s: String)
    ensures
        s@ == string_object(text::text_pairs(pairs@)),
{
    let ghost all = text::text_pairs(pairs@);
    let mut sorted: Vec<(String, String)> = Vec::new();
    let mut i: usize = 0;
    assert(text::text_pairs(sorted@) =~= in_name_order(all.take(0)));
    while i < pairs.len()
        invariant
            i <= pairs.len(),
            all == text::text_pairs(pairs@),
            text::text_pairs(sorted@) == in_name_order(all.take(i as int)),
        decreases pairs.len() - i,
    {
        put_string(&mut sorted, pairs[i].0.as_str(), pairs[i].1.as_str());
        assert(all.take(i + 1).drop_last() =~= all.take(i as int));
        assert(all.take(i + 1).last() == (pairs@[i as int].0@, pairs@[i as int].1@));
        i = i + 1;
    }
    assert(all.take(i as int) =~= all);
    let ghost ordered = text::text_pairs(sorted@);
    let ghost want = string_members(ordered);
    let mut list: Vec<String> = Vec::new();
    let mut j: usize = 0;
    assert(text::texts(list@) =~= want.take(0));
    while j < sorted.len()
        invariant
            j <= sorted.len(),
            ordered == text::text_pairs(sorted@),
            want == string_members(ordered),
            text::texts(list@) == want.take(j as int),
        decreases sorted.len() - j,
    {
        let name = quote(sorted[j].0.as_str());
        let value = quote(sorted[j].1.as_str());
        let m = cat3(name.as_str(), ":", value.as_str());
        assert(ordered[j as int] == (sorted@[j as int].0@, sorted@[j as int].1@));
        assert(m@ =~= want[j as int]);
        list.push(m);
        assert(text::texts(list@) =~= want.take(j + 1));
        j = j + 1;
    }
    assert(want.take(j as int) =~= want);
    cat3("{", join(&list, ",").as_str(), "}")
}

/// A truth value.
pub open spec fn truth(b: bool) -> Seq<char> {
    if b {
        "true"@
    } else {
        "false"@
    }
}

/// An optional text as a JSON string.
pub open spec fn opt_quoted(v: Option<Seq<char>>) -> Option<Seq<char>> {
    match v {
        Some(s) => Some(quoted(s)),
        None => None,
    }
}

/// An optional number.
pub open spec fn opt_dec(v: Option<u64>) -> Option<Seq<char>> {
    match v {
        Some(n) => Some(text::dec(n as nat)),
        None => None,
    }
}

} // verus!
