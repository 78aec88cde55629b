//! Which secret a name stands for, and where it is read.

use vstd::prelude::*;

use crate::extensions::vault_secrets;
use crate::extensions::vault_secrets::{CachedView, LeaseView};
use crate::json;
use crate::json::JsonView;
use crate::text;
use crate::url::UrlView;

verus! {

proof fn lemma_rfind(s: Seq<char>, c: char)
    ensures
        -1 <= text::rfind(s, c) < s.len(),
        text::rfind(s, c) >= 0 ==> s[text::rfind(s, c)] == c,
        forall|i: int| text::rfind(s, c) < i < s.len() ==> s[i] != c,
    decreases s.len(),
{
    if s.len() > 0 && s.last() != c {
        let t = s.drop_last();
        lemma_rfind(t, c);
        assert forall|i: int| text::rfind(s, c) < i < s.len() implies s[i] != c by {
            if i < t.len() {
                assert(t[i] == s[i]);
            }
        }
    }
}

/// Whether the member at `i` is the first text among members.
pub open spec fn is_first_text(m: Seq<(Seq<char>, JsonView)>, i: int) -> bool {
    &&& 0 <= i < m.len()
    &&& m[i].1 is Text
    &&& forall|j: int| 0 <= j < i ==> !((#[trigger] m[j]).1 is Text)
}

proof fn lemma_first_text(m: Seq<(Seq<char>, JsonView)>, i: int)
    requires
        is_first_text(m, i),
    ensures
        vault_secrets::first_text(m) == Some(m[i].1->text),
    decreases m.len(),
{
    if i > 0 {
        let t = m.skip(1);
        assert(!(m[0].1 is Text));
        assert(t[i - 1] == m[i]);
        assert forall|j: int| 0 <= j < i - 1 implies !((#[trigger] t[j]).1 is Text) by {
            assert(t[j] == m[j + 1]);
        }
        lemma_first_text(t, i - 1);
    }
}

proof fn lemma_no_text(m: Seq<(Seq<char>, JsonView)>)
    requires
        forall|j: int| 0 <= j < m.len() ==> !((#[trigger] m[j]).1 is Text),
    ensures
        vault_secrets::first_text(m) is None,
    decreases m.len(),
{
    if m.len() > 0 {
        let t = m.skip(1);
        assert(!(m[0].1 is Text));
        assert forall|j: int| 0 <= j < t.len() implies !((#[trigger] t[j]).1 is Text) by {
            assert(t[j] == m[j + 1]);
        }
        lemma_no_text(t);
    }
}

/// The data that a reply holds.
pub open spec fn data_in(v: JsonView) -> Option<JsonView> {
    if json::member(v, "data"@) is Some {
        json::member(json::member(v, "data"@)->Some_0, "data"@)
    } else {
        None
    }
}

/// A name with a key behind a hash stands for the text under that key.
pub proof fn law_key_picks_the_secret(path: Seq<char>, key: Seq<char>, v: JsonView)
    requires
        forall|i: int| 0 <= i < key.len() ==> key[i] != '#',
    ensures
        ({
            let name = path + seq!['#'] + key;
            let r = vault_secrets::secret_in(name, v);
            let found = if data_in(v) is Some {
                json::member(data_in(v)->Some_0, key)
            } else {
                None
            };
            &&& r is Ok <==> found is Some && found->Some_0 is Text
            &&& r is Ok ==> r->Ok_0 == found->Some_0->text
        }),
{
    let name = path + seq!['#'] + key;
    lemma_rfind(name, '#');
    let i = text::rfind(name, '#');
    assert(name[path.len() as int] == '#');
    if i > path.len() {
        assert(name[i] == key[i - path.len() - 1]);
    }
    assert(i == path.len());
    assert(name.skip(i + 1) =~= key);
}

/// A name without a key stands for the first text that there is.
pub proof fn law_first_text_is_the_secret(name: Seq<char>, v: JsonView, i: int)
    requires
        forall|k: int| 0 <= k < name.len() ==> name[k] != '#',
        data_in(v) is Some,
        data_in(v)->Some_0 is Object,
    ensures
        is_first_text(data_in(v)->Some_0->members, i) ==> vault_secrets::secret_in(name, v) == Ok::<
            Seq<char>,
            Seq<char>,
        >(data_in(v)->Some_0->members[i].1->text),
        (forall|j: int|
            0 <= j < data_in(v)->Some_0->members.len() ==> !((
            #[trigger] data_in(v)->Some_0->members[j]).1 is Text)) ==> vault_secrets::secret_in(
            name,
            v,
        ) is Err,
{
    lemma_rfind(name, '#');
    let m = data_in(v)->Some_0->members;
    if is_first_text(m, i) {
        lemma_first_text(m, i);
    }
    if forall|j: int| 0 <= j < m.len() ==> !((#[trigger] m[j]).1 is Text) {
        lemma_no_text(m);
    }
}

/// A secret is asked of the host and the port of its URL, over TLS exactly for
/// HTTPS, under its path and with the token.
pub proof fn law_vault_is_asked_where_the_url_says(
    parts: Result<UrlView, Seq<char>>,
    token: Seq<char>,
)
    ensures
        ({
            let r = vault_secrets::request_of(parts, token);
            &&& r is Ok <==> parts is Ok && parts->Ok_0.host is Some
            &&& r is Ok ==> ({
                let u = parts->Ok_0;
                let host = u.host->Some_0;
                let port: nat = if u.port is Some {
                    u.port->Some_0 as nat
                } else if u.scheme == Some("https"@) {
                    443
                } else {
                    80
                };
                let path = if u.path_and_query is Some {
                    u.path_and_query->Some_0
                } else {
                    "/"@
                };
                &&& r->Ok_0.tls <==> u.scheme == Some("https"@)
                &&& r->Ok_0.host == host
                &&& r->Ok_0.addr == host + ":"@ + text::dec(port)
                &&& r->Ok_0.request == "GET "@ + path + " HTTP/1.1\r\nHost: "@ + host
                    + "\r\nX-Vault-Token: "@ + token + "\r\nConnection: close\r\n\r\n"@
            })
        }),
{
}

/// The API URL of a secret is that of the server, with the version and the
/// name behind it.
pub proof fn law_api_url_names_the_secret(base: Seq<char>, name: Seq<char>)
    ensures
        vault_secrets::url_of(base, name) == base + "/v1/"@ + name,
{
}

/// A cached secret is used exactly while it is younger than its lifetime; one
/// of another name never is.
pub proof fn law_cached_secret_is_used_while_fresh(
    cache: Map<Seq<char>, CachedView>,
    name: Seq<char>,
    ttl: nat,
    now: nat,
)
    ensures
        !cache.dom().contains(name) ==> vault_secrets::fresh_secret(cache, name, ttl, now) is None,
        cache.dom().contains(name) && cache[name].at <= now ==> (vault_secrets::fresh_secret(
            cache,
            name,
            ttl,
            now,
        ) is Some <==> now < cache[name].at + ttl),
        vault_secrets::fresh_secret(cache, name, ttl, now) is Some ==> vault_secrets::fresh_secret(
            cache,
            name,
            ttl,
            now,
        ) == Some(cache[name].secret),
{
}

/// A KMS name is a key and a ciphertext with a colon between them, neither of
/// them empty; the ciphertext may hold colons of its own.
pub proof fn law_kms_names_are_taken_apart(key: Seq<char>, ciphertext: Seq<char>)
    requires
        forall|i: int| 0 <= i < key.len() ==> key[i] != ':',
    ensures
        ({
            let r = vault_secrets::kms_parts(key + seq![':'] + ciphertext);
            &&& key.len() > 0 && ciphertext.len() > 0 ==> r == Ok::<
                (Seq<char>, Seq<char>),
                Seq<char>,
            >((key, ciphertext))
            &&& key.len() == 0 || ciphertext.len() == 0 ==> r is Err
        }),
        vault_secrets::kms_parts(key) is Err,
{
    let name = key + seq![':'] + ciphertext;
    text::lemma_find(name, ':');
    text::lemma_find(key, ':');
    let i = text::find(name, ':');
    assert(name[key.len() as int] == ':');
    if i < key.len() {
        assert(name[i] == key[i]);
    }
    assert(name.take(i) =~= key);
    assert(name.skip(i + 1) =~= ciphertext);
}

/// A lease is due for renewal exactly if it can be renewed and has less than
/// the threshold left.
pub proof fn law_leases_are_renewed_in_time(l: LeaseView, threshold: nat)
    ensures
        vault_secrets::needs_renewal(l, threshold) <==> l.renewable && l.duration < threshold,
{
}

} // verus!
