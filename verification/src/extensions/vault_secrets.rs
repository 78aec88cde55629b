//! Vault and KMS secret sources, and the leases of dynamic secrets.
//!
//! A name that was resolved stays cached for a while; after that the next
//! resolution reads the secret anew, so that it can be rotated without a
//! restart.

pub mod laws;

use vstd::prelude::*;
use vstd::string::*;

use crate::extensions::secrets::Secret;
use crate::extensions::ExtensionsError;
use crate::json;
use crate::json::{parse_json, Json, JsonView};
use crate::text;
use crate::text::{
    cat2, cat3, cat7, cut_after, cut_last, cut_once, decimal, same, trimmed_end_char, utf8_text,
};
use crate::text_map;
use crate::text_map::TextMap;
use crate::url;
use crate::url::{parse_uri, UrlParts, UrlView};

verus! {

// ---------------------------------------------------------------------------
// The cache of resolved secrets
// ---------------------------------------------------------------------------

/// A cached secret.
struct CachedSecret {
    secret: Secret,
    resolved_at_ns: u128,
}

/// A cached secret and when it was resolved.
#[verifier::ext_equal]
pub struct CachedView {
    pub secret: Seq<char>,
    pub at: nat,
}

impl View for CachedSecret {
    type V = CachedView;

    closed spec fn view(&self) -> CachedView {
        CachedView { secret: self.secret@, at: self.resolved_at_ns as nat }
    }
}

/// Whether what was resolved at a time is still fresh: for less than the
/// lifetime.
pub open spec fn is_fresh(at: nat, ttl: nat, now: nat) -> bool {
    if now >= at {
        now - at < ttl
    } else {
        0 < ttl
    }
}

/// The fresh secret of a name.
pub open spec fn fresh_secret(
    cache: Map<Seq<char>, CachedView>,
    name: Seq<char>,
    ttl: nat,
    now: nat,
) -> Option<Seq<char>> {
    if cache.dom().contains(name) && is_fresh(cache[name].at, ttl, now) {
        Some(cache[name].secret)
    } else {
        None
    }
}

// ---------------------------------------------------------------------------
// The request
// ---------------------------------------------------------------------------

/// One exchange with the server: where to connect, and what to send.
#[derive(Clone, PartialEq, Eq)]
pub struct VaultRequest {
    pub addr: String,
    pub tls: bool,
    pub host: String,
    pub request: String,
}

/// What an exchange with the server is.
#[verifier::ext_equal]
pub struct VaultRequestView {
    pub addr: Seq<char>,
    pub tls: bool,
    pub host: Seq<char>,
    pub request: Seq<char>,
}

impl View for VaultRequest {
    type V = VaultRequestView;

    open spec fn view(&self) -> VaultRequestView {
        VaultRequestView {
            addr: self.addr@,
            tls: self.tls,
            host: self.host@,
            request: self.request@,
        }
    }
}

/// Whether a URL asks for TLS.
pub open spec fn is_https(u: UrlView) -> bool {
    u.scheme == Some("https"@)
}

/// The port of a URL, or that of its scheme.
pub open spec fn port_of(u: UrlView) -> nat {
    match u.port {
        Some(p) => p as nat,
        None => if is_https(u) {
            443
        } else {
            80
        },
    }
}

/// The request line and the fields of a request.
pub open spec fn request_text(path: Seq<char>, host: Seq<char>, token: Seq<char>) -> Seq<char> {
    "GET "@ + path + " HTTP/1.1\r\nHost: "@ + host + "\r\nX-Vault-Token: "@ + token
        + "\r\nConnection: close\r\n\r\n"@
}

/// The exchange for a URL, or the text of the error.
pub open spec fn request_of(
    parts: Result<UrlView, Seq<char>>,
    token: Seq<char>,
) -> Result<VaultRequestView, Seq<char>> {
    match parts {
        Err(e) => Err("vault url parse: "@ + e),
        Ok(u) => match u.host {
            None => Err("vault url has no host"@),
            Some(host) => Ok(
                VaultRequestView {
                    addr: host + ":"@ + text::dec(port_of(u)),
                    tls: is_https(u),
                    host,
                    request: request_text(
                        match u.path_and_query {
                            Some(p) => p,
                            None => "/"@,
                        },
                        host,
                        token,
                    ),
                },
            ),
        },
    }
}

/// Whether a result is what was said, an error being one of the backend.
pub open spec fn is_request(
    r: Result<VaultRequest, ExtensionsError>,
    want: Result<VaultRequestView, Seq<char>>,
) -> bool {
    match (r, want) {
        (Ok(v), Ok(w)) => v@ == w,
        (Err(ExtensionsError::Backend(m)), Err(w)) => m@ == w,
        _ => false,
    }
}

/// The exchange for the parts of a URL.
pub fn request_from_parts(parts: Result<UrlParts, String>, token: &str) -> (r: Result<
    VaultRequest,
    ExtensionsError,
>)
    ensures
        is_request(r, request_of(url::parse_view(parts), token@)),
{
    let u = match parts {
        Err(e) => {
            return Err(ExtensionsError::Backend(cat2("vault url parse: ", e.as_str())));
        },
        Ok(u) => u,
    };
    let tls = match &u.scheme {
        Some(s) => same(s.as_str(), "https"),
        None => false,
    };
    let port: u16 = match u.port {
        Some(p) => p,
        None => if tls {
            443
        } else {
            80
        },
    };
    let path = match u.path_and_query {
        Some(p) => p,
        None => "/".to_owned(),
    };
    match u.host {
        None => Err(ExtensionsError::Backend("vault url has no host".to_owned())),
        Some(host) => {
            let addr = cat3(host.as_str(), ":", decimal(port as u64).as_str());
            let request = cat7(
                "GET ",
                path.as_str(),
                " HTTP/1.1\r\nHost: ",
                host.as_str(),
                "\r\nX-Vault-Token: ",
                token,
                "\r\nConnection: close\r\n\r\n",
            );
            Ok(VaultRequest { addr, tls, host, request })
        },
    }
}

// ---------------------------------------------------------------------------
// The answer
// ---------------------------------------------------------------------------

/// The first text among the values of an object.
pub open spec fn first_text(m: Seq<(Seq<char>, JsonView)>) -> Option<Seq<char>>
    decreases m.len(),
{
    if m.len() == 0 {
        None
    } else {
        match m[0].1 {
            JsonView::Text { text } => Some(text),
            _ => first_text(m.skip(1)),
        }
    }
}

/// The member `data.data` of an answer.
pub open spec fn inner_data(v: JsonView) -> Option<JsonView> {
    match json::member(v, "data"@) {
        Some(d) => json::member(d, "data"@),
        None => None,
    }
}

/// The key that a name asks for: what follows its last `#`.
pub open spec fn key_of(name: Seq<char>) -> Option<Seq<char>> {
    let i = text::rfind(name, '#');
    if 0 <= i < name.len() {
        Some(name.skip(i + 1))
    } else {
        None
    }
}

/// The secret in an answer: the text of the key that the name asks for, or
/// the first text of all; or the text of the error.
pub open spec fn secret_in(name: Seq<char>, v: JsonView) -> Result<Seq<char>, Seq<char>> {
    match inner_data(v) {
        None => Err("vault response missing data.data"@),
        Some(data) => match key_of(name) {
            Some(key) => match json::member(data, key) {
                Some(JsonView::Text { text }) => Ok(text),
                _ => Err("vault secret has no key '"@ + key + "'"@),
            },
            None => match data {
                JsonView::Object { members } => match first_text(members) {
                    Some(t) => Ok(t),
                    None => Err("vault secret has no string value"@),
                },
                _ => Err("vault secret has no string value"@),
            },
        },
    }
}

/// The secret in a parsed body.
pub open spec fn secret_of_parsed(
    name: Seq<char>,
    parsed: Result<JsonView, Seq<char>>,
) -> Result<Seq<char>, Seq<char>> {
    match parsed {
        Err(e) => Err("vault response parse: "@ + e),
        Ok(v) => secret_in(name, v),
    }
}

/// The secret in the text of a response.
pub open spec fn secret_of_response(
    name: Seq<char>,
    response: Result<Seq<char>, Seq<char>>,
) -> Result<Seq<char>, Seq<char>> {
    match response {
        Err(e) => Err("vault fetch: "@ + e),
        Ok(text) => match text::after_text(text, "\r\n\r\n"@) {
            None => Err("vault response has no body"@),
            Some(body) => secret_of_parsed(name, json::parsed_json(body)),
        },
    }
}

/// Whether a result is what was said, an error being one of the backend.
pub open spec fn is_secret(
    r: Result<Secret, ExtensionsError>,
    want: Result<Seq<char>, Seq<char>>,
) -> bool {
    match (r, want) {
        (Ok(s), Ok(w)) => s@ == w,
        (Err(ExtensionsError::Backend(m)), Err(w)) => m@ == w,
        _ => false,
    }
}

/// What was received, or the text of the error.
pub open spec fn response_view(r: Result<String, String>) -> Result<Seq<char>, Seq<char>> {
    match r {
        Ok(s) => Ok(s@),
        Err(e) => Err(e@),
    }
}

fn find_first_text(m: &Vec<(String, Json)>) -> (r: Option<Secret>)
    ensures
        match (r, first_text(json::members_of(m@))) {
            (Some(s), Some(t)) => s@ == t,
            (None, None) => true,
            _ => false,
        },
{
    let ghost all = json::members_of(m@);
    let mut i: usize = 0;
    assert(all.skip(0) =~= all);
    while i < m.len()
        invariant
            i <= m.len(),
            all == json::members_of(m@),
            first_text(all) == first_text(all.skip(i as int)),
        decreases m.len() - i,
    {
        proof {
            assert(all.skip(i as int)[0] == (m@[i as int].0@, m@[i as int].1@));
            assert(all.skip(i as int).skip(1) =~= all.skip(i + 1));
        }
        if let Some(s) = m[i].1.as_str() {
            return Some(Secret::new(s));
        }
        i = i + 1;
    }
    None
}

/// The secret in an answer.
pub fn secret_from_json(name: &str, body: &Json) -> (r: Result<Secret, ExtensionsError>)
    ensures
        is_secret(r, secret_in(name@, body@)),
{
    let data = match body.get("data") {
        Some(d) => d.get("data"),
        None => None,
    };
    let data = match data {
        Some(d) => d,
        None => {
            return Err(ExtensionsError::Backend("vault response missing data.data".to_owned()));
        },
    };
    match cut_last(name, '#') {
        Some(p) => {
            let value = match data.get(p.1.as_str()) {
                Some(v) => v.as_str(),
                None => None,
            };
            match value {
                Some(s) => Ok(Secret::new(s)),
                None => Err(
                    ExtensionsError::Backend(cat3("vault secret has no key '", p.1.as_str(), "'")),
                ),
            }
        },
        None => {
            let value = match data {
                Json::Object(m) => {
                    proof {
                        json::lemma_object(*m);
                    }
                    find_first_text(m)
                },
                _ => None,
            };
            match value {
                Some(s) => Ok(s),
                None => Err(
                    ExtensionsError::Backend("vault secret has no string value".to_owned()),
                ),
            }
        },
    }
}

/// The secret in the text of a response.
pub fn secret_from_response(name: &str, response: Result<String, String>) -> (r: Result<
    Secret,
    ExtensionsError,
>)
    ensures
        is_secret(r, secret_of_response(name@, response_view(response))),
{
    match response {
        Err(e) => Err(ExtensionsError::Backend(cat2("vault fetch: ", e.as_str()))),
        Ok(text) => match cut_after(text.as_str(), "\r\n\r\n") {
            None => Err(ExtensionsError::Backend("vault response has no body".to_owned())),
            Some(body) => match parse_json(body.as_str()) {
                Err(e) => Err(
                    ExtensionsError::Backend(cat2("vault response parse: ", e.as_str())),
                ),
                Ok(v) => secret_from_json(name, &v),
            },
        },
    }
}

// ---------------------------------------------------------------------------
// The source
// ---------------------------------------------------------------------------

/// A Vault KV v2 secret source.
///
/// A name is `<mount>/<path>`, or `<mount>/<path>#<key>` for one key of a
/// secret with several.
pub struct VaultSecretSource {
    url: String,
    token: String,
    cache_ttl_ns: u128,
    cache: TextMap<CachedSecret>,
}

/// What a source is.
#[verifier::ext_equal]
pub struct VaultView {
    pub url: Seq<char>,
    pub token: Seq<char>,
    pub ttl: nat,
    pub cache: Map<Seq<char>, CachedView>,
}

impl View for VaultSecretSource {
    type V = VaultView;

    closed spec fn view(&self) -> VaultView {
        VaultView {
            url: self.url@,
            token: self.token@,
            ttl: self.cache_ttl_ns as nat,
            cache: self.cache@.map_values(|c: CachedSecret| c@),
        }
    }
}

/// The URL of a secret.
pub open spec fn url_of(base: Seq<char>, name: Seq<char>) -> Seq<char> {
    base + "/v1/"@ + name
}

/// What to do to resolve a name.
pub enum VaultStep {
    /// The secret is cached.
    Cached(Secret),
    /// The secret has to be read.
    Fetch(VaultRequest),
}

impl VaultSecretSource {
    /// A source for a server, whose URL may end in slashes.
    pub fn new(url: &str, token: &str, cache_ttl_ns: u128) -> (s: Self)
        ensures
            s@ == (VaultView {
                url: text::trim_end_char(url@, '/'),
                token: token@,
                ttl: cache_ttl_ns as nat,
                cache: Map::empty(),
            }),
    {
        let s = VaultSecretSource {
            url: trimmed_end_char(url, '/'),
            token: token.to_owned(),
            cache_ttl_ns,
            cache: TextMap::new(),
        };
        assert(s@.cache =~= Map::<Seq<char>, CachedView>::empty());
        s
    }

    /// The URL of the server.
    pub fn url(&self) -> (s: &str)
        ensures
            s@ == self@.url,
    {
        self.url.as_str()
    }

    /// The token.
    pub fn token(&self) -> (s: &str)
        ensures
            s@ == self@.token,
    {
        self.token.as_str()
    }

    /// Whether what was resolved at a time is still fresh.
    fn is_cache_fresh(resolved_at_ns: u128, ttl_ns: u128, now_ns: u128) -> (r: bool)
        ensures
            r == is_fresh(resolved_at_ns as nat, ttl_ns as nat, now_ns as nat),
    {
        if now_ns >= resolved_at_ns {
            now_ns - resolved_at_ns < ttl_ns
        } else {
            0 < ttl_ns
        }
    }

    /// The cached secret of a name, if it is fresh.
    pub fn get_cached(&self, name: &str, now_ns: u128) -> (r: Option<Secret>)
        ensures
            match (r, fresh_secret(self@.cache, name@, self@.ttl, now_ns as nat)) {
                (Some(s), Some(t)) => s@ == t,
                (None, None) => true,
                _ => false,
            },
    {
        match self.cache.get(name) {
            Some(c) => if Self::is_cache_fresh(c.resolved_at_ns, self.cache_ttl_ns, now_ns) {
                Some(c.secret.copy())
            } else {
                None
            },
            None => None,
        }
    }

    /// Caches the secret of a name.
    pub fn store_cached(&mut self, name: &str, secret: Secret, now_ns: u128)
        ensures
            final(self)@ == (VaultView {
                cache: old(self)@.cache.insert(
                    name@,
                    CachedView { secret: secret@, at: now_ns as nat },
                ),
                ..old(self)@
            }),
    {
        let ghost before = self.cache@;
        let c = CachedSecret { secret, resolved_at_ns: now_ns };
        self.cache.insert(name.to_owned(), c);
        assert(self.cache@.map_values(|c: CachedSecret| c@) =~= before.map_values(
            |c: CachedSecret| c@,
        ).insert(name@, c@));
    }

    /// Clears the cache: the next resolution reads the secret anew.
    pub fn clear_cache(&mut self)
        ensures
            final(self)@ == (VaultView { cache: Map::empty(), ..old(self)@ }),
    {
        self.cache.clear();
        assert(self@.cache =~= Map::<Seq<char>, CachedView>::empty());
    }

    /// The number of cached secrets, stale ones included.
    pub fn cache_size(&self) -> (n: usize)
        ensures
            n == self@.cache.dom().len(),
            self@.cache.dom().finite(),
    {
        assert(self@.cache.dom() =~= self.cache@.dom());
        self.cache.len()
    }

    /// The URL of a secret.
    pub fn api_url(&self, name: &str) -> (s: String)
        ensures
            s@ == url_of(self@.url, name@),
    {
        cat3(self.url.as_str(), "/v1/", name)
    }

    /// What to do to resolve a name: use the fresh cached secret, or read
    /// the secret.
    pub fn plan(&self, name: &str, now_ns: u128) -> (r: Result<VaultStep, ExtensionsError>)
        ensures
            match fresh_secret(self@.cache, name@, self@.ttl, now_ns as nat) {
                Some(t) => r matches Ok(VaultStep::Cached(s)) && s@ == t,
                None => {
                    let want = request_of(
                        url::parsed_uri(url_of(self@.url, name@)),
                        self@.token,
                    );
                    match (r, want) {
                        (Ok(VaultStep::Fetch(q)), Ok(w)) => q@ == w,
                        (Err(ExtensionsError::Backend(m)), Err(w)) => m@ == w,
                        _ => false,
                    }
                },
            },
    {
        if let Some(s) = self.get_cached(name, now_ns) {
            return Ok(VaultStep::Cached(s));
        }
        let parts = parse_uri(self.api_url(name).as_str());
        match request_from_parts(parts, self.token.as_str()) {
            Ok(q) => Ok(VaultStep::Fetch(q)),
            Err(e) => Err(e),
        }
    }

    /// What came back for a name: the secret, which is cached from then on,
    /// or an error, which leaves the cache as it was.
    pub fn accept(&mut self, name: &str, response: Result<String, String>, now_ns: u128) -> (r:
        Result<Secret, ExtensionsError>)
        ensures
            is_secret(r, secret_of_response(name@, response_view(response))),
            final(self)@ == match r {
                Ok(s) => VaultView {
                    cache: old(self)@.cache.insert(
                        name@,
                        CachedView { secret: s@, at: now_ns as nat },
                    ),
                    ..old(self)@
                },
                Err(_) => old(self)@,
            },
    {
        match secret_from_response(name, response) {
            Ok(s) => {
                self.store_cached(name, s.copy(), now_ns);
                Ok(s)
            },
            Err(e) => Err(e),
        }
    }
}

// ---------------------------------------------------------------------------
// KMS
// ---------------------------------------------------------------------------

/// The key and the ciphertext of a name, or the text of the error.
pub open spec fn kms_parts(name: Seq<char>) -> Result<(Seq<char>, Seq<char>), Seq<char>> {
    match text::split_once(name, ':') {
        None => Err("KMS secret name must be <key_id>:<ciphertext>, got: "@ + name),
        Some(p) => if p.0.len() == 0 || p.1.len() == 0 {
            Err("KMS secret name has empty key_id or ciphertext: "@ + name)
        } else {
            Ok(p)
        },
    }
}

/// What a KMS provider is asked: to decrypt a ciphertext with a named key.
#[derive(Debug, Clone, PartialEq, Eq)]
pub struct KmsRequest {
    pub key_id: String,
    pub ciphertext: String,
}

/// A KMS secret source. It caches nothing: each resolution decrypts anew.
#[derive(Debug, Clone, Copy)]
pub struct KmsSecretSource;

impl KmsSecretSource {
    /// What to ask the provider for a name `<key_id>:<ciphertext>`.
    pub fn request(&self, name: &str) -> (r: Result<KmsRequest, ExtensionsError>)
        ensures
            match (r, kms_parts(name@)) {
                (Ok(q), Ok(p)) => q.key_id@ == p.0 && q.ciphertext@ == p.1,
                (Err(ExtensionsError::Invalid(m)), Err(w)) => m@ == w,
                _ => false,
            },
    {
        match cut_once(name, ':') {
            None => Err(
                ExtensionsError::Invalid(
                    cat2("KMS secret name must be <key_id>:<ciphertext>, got: ", name),
                ),
            ),
            Some(p) => {
                proof {
                    reveal_strlit("");
                }
                if same(p.0.as_str(), "") || same(p.1.as_str(), "") {
                    assert(p.0@.len() == 0 || p.1@.len() == 0);
                    return Err(
                        ExtensionsError::Invalid(
                            cat2("KMS secret name has empty key_id or ciphertext: ", name),
                        ),
                    );
                }
                assert(p.0@.len() == 0 ==> p.0@ =~= ""@);
                assert(p.1@.len() == 0 ==> p.1@ =~= ""@);
                Ok(KmsRequest { key_id: p.0, ciphertext: p.1 })
            },
        }
    }

    /// The secret of the provider's answer.
    pub fn finish(&self, decrypted: Result<String, ExtensionsError>) -> (r: Result<
        Option<Secret>,
        ExtensionsError,
    >)
        ensures
            match (decrypted, r) {
                (Ok(p), Ok(Some(s))) => s@ == p@,
                (Err(e), Err(f)) => e == f,
                _ => false,
            },
    {
        match decrypted {
            Ok(p) => Ok(Some(Secret::new(p.as_str()))),
            Err(e) => Err(e),
        }
    }
}

/// A stand-in for a KMS provider, for tests.
#[derive(Debug, Clone, Copy)]
pub struct MockKmsProvider;

impl MockKmsProvider {
    /// Decrypts by handing the ciphertext back as text, whatever the key.
    pub fn passthrough(ciphertext: Vec<u8>) -> (r: Result<String, ExtensionsError>)
        ensures
            match r {
                Ok(s) => vstd::utf8::valid_utf8(ciphertext@) && vstd::utf8::encode_utf8(s@)
                    == ciphertext@,
                Err(ExtensionsError::Backend(m)) => !vstd::utf8::valid_utf8(ciphertext@) && m@
                    == "KMS mock: "@ + text::utf8_error(ciphertext@),
                Err(_) => false,
            },
    {
        proof {
            if vstd::utf8::valid_utf8(ciphertext@) {
                vstd::utf8::decode_utf8_encode_utf8(ciphertext@);
            }
        }
        match utf8_text(ciphertext) {
            Ok(s) => Ok(s),
            Err(e) => Err(ExtensionsError::Backend(cat2("KMS mock: ", e.as_str()))),
        }
    }
}

// ---------------------------------------------------------------------------
// Leases
// ---------------------------------------------------------------------------

/// A renewable handle to a dynamic secret.
#[derive(Debug, Clone, PartialEq, Eq)]
pub struct Lease {
    /// The lease identifier.
    pub lease_id: String,
    /// The lease duration (seconds).
    pub lease_duration: u64,
    /// Whether the lease is renewable.
    pub renewable: bool,
}

/// What a lease is.
#[verifier::ext_equal]
pub struct LeaseView {
    pub id: Seq<char>,
    pub duration: nat,
    pub renewable: bool,
}

impl View for Lease {
    type V = LeaseView;

    open spec fn view(&self) -> LeaseView {
        LeaseView {
            id: self.lease_id@,
            duration: self.lease_duration as nat,
            renewable: self.renewable,
        }
    }
}

impl Lease {
    /// A copy of the lease.
    pub fn copy(&self) -> (l: Lease)
        ensures
            l@ == self@,
    {
        Lease {
            lease_id: self.lease_id.clone(),
            lease_duration: self.lease_duration,
            renewable: self.renewable,
        }
    }
}

/// Whether a lease has to be renewed: a renewable one that is shorter than
/// the threshold.
pub open spec fn needs_renewal(l: LeaseView, threshold: nat) -> bool {
    l.renewable && l.duration < threshold
}

/// The leases in a list that have to be renewed.
pub open spec fn due(s: Seq<(Seq<char>, LeaseView)>, threshold: nat) -> Seq<
    (Seq<char>, LeaseView),
>
    decreases s.len(),
{
    if s.len() == 0 {
        seq![]
    } else {
        let before = due(s.drop_last(), threshold);
        if needs_renewal(s.last().1, threshold) {
            before.push(s.last())
        } else {
            before
        }
    }
}

/// What a list of named leases holds.
pub open spec fn named(v: Seq<(String, Lease)>) -> Seq<(Seq<char>, LeaseView)> {
    v.map_values(|p: (String, Lease)| (p.0@, p.1@))
}

/// Tracks the active leases.
pub struct LeaseManager {
    leases: TextMap<Lease>,
}

impl View for LeaseManager {
    type V = Map<Seq<char>, LeaseView>;

    closed spec fn view(&self) -> Map<Seq<char>, LeaseView> {
        self.leases@.map_values(|l: Lease| l@)
    }
}

impl LeaseManager {
    /// The named leases, in the order in which they are kept.
    pub closed spec fn listed(self) -> Seq<(Seq<char>, LeaseView)> {
        named(self.leases.list())
    }

    /// A manager without leases.
    pub fn new() -> (m: Self)
        ensures
            m@ == Map::<Seq<char>, LeaseView>::empty(),
            m.listed() == Seq::<(Seq<char>, LeaseView)>::empty(),
    {
        let m = LeaseManager { leases: TextMap::new() };
        assert(m@ =~= Map::<Seq<char>, LeaseView>::empty());
        assert(m.listed() =~= Seq::<(Seq<char>, LeaseView)>::empty());
        m
    }

    /// Registers a lease for a secret name, in place of any other.
    pub fn register(&mut self, name: &str, lease: Lease)
        ensures
            final(self)@ == old(self)@.insert(name@, lease@),
    {
        let ghost before = self.leases@;
        self.leases.insert(name.to_owned(), lease);
        assert(self@ =~= before.map_values(|l: Lease| l@).insert(name@, lease@));
    }

    /// The lease of a secret name.
    pub fn get(&self, name: &str) -> (r: Option<Lease>)
        ensures
            match r {
                Some(l) => self@.dom().contains(name@) && l@ == self@[name@],
                None => !self@.dom().contains(name@),
            },
    {
        match self.leases.get(name) {
            Some(l) => Some(l.copy()),
            None => None,
        }
    }

    /// Removes the lease of a secret name and hands it out.
    pub fn revoke(&mut self, name: &str) -> (r: Option<Lease>)
        ensures
            final(self)@ == old(self)@.remove(name@),
            match r {
                Some(l) => old(self)@.dom().contains(name@) && l@ == old(self)@[name@],
                None => !old(self)@.dom().contains(name@),
            },
    {
        let ghost before = self.leases@;
        let r = self.leases.remove(name);
        assert(self@ =~= before.map_values(|l: Lease| l@).remove(name@));
        r
    }

    /// The leases that have to be renewed.
    pub fn leases_needing_renewal(&self, threshold_secs: u64) -> (r: Vec<(String, Lease)>)
        ensures
            named(r@) == due(self.listed(), threshold_secs as nat),
            forall|name: Seq<char>, l: LeaseView| #[trigger]
                named(r@).contains((name, l)) <==> self@.dom().contains(name) && l == self@[name]
                    && needs_renewal(l, threshold_secs as nat),
            forall|i: int, j: int|
                0 <= i < j < named(r@).len() ==> (#[trigger] named(r@)[i]).0 != (
                #[trigger] named(r@)[j]).0,
    {
        let ghost all = self.listed();
        let mut r: Vec<(String, Lease)> = Vec::new();
        let n: usize = self.leases.len();
        let mut i: usize = 0;
        assert(named(r@) =~= due(all.take(0), threshold_secs as nat));
        while i < n
            invariant
                i <= n,
                n == all.len(),
                n == self.leases.list().len(),
                all == named(self.leases.list()),
                named(r@) == due(all.take(i as int), threshold_secs as nat),
            decreases n - i,
        {
            let ghost before = r@;
            let l = self.leases.value_at(i);
            proof {
                assert(all.take(i + 1).drop_last() =~= all.take(i as int));
                assert(all[i as int].1 == l@);
            }
            if l.renewable && l.lease_duration < threshold_secs {
                let p = (self.leases.key_at(i).clone(), l.copy());
                r.push(p);
                assert(named(r@) =~= named(before).push(all[i as int]));
            }
            i = i + 1;
        }
        assert(all.take(n as int) =~= all);
        proof {
            let t = threshold_secs as nat;
            assert forall|name: Seq<char>, l: LeaseView|
                #![trigger named(r@).contains((name, l))]
                named(r@).contains((name, l)) <==> self@.dom().contains(name) && l == self@[name]
                    && needs_renewal(l, t) by {
                lemma_due(all, t, (name, l));
                self.lemma_listed(name, l);
            }
            lemma_due_distinct(all, t);
        }
        r
    }

    proof fn lemma_listed(&self, name: Seq<char>, l: LeaseView)
        requires
            text_map::distinct_keys(self.leases.list()),
        ensures
            self.listed().contains((name, l)) <==> self@.dom().contains(name) && l == self@[name],
    {
        let s = self.leases.list();
        text_map::lemma_map_of(s);
        if self.listed().contains((name, l)) {
            let i = choose|i: int|
                0 <= i < self.listed().len() && self.listed()[i] == (name, l);
            assert(s[i].0@ == name);
        }
        if self@.dom().contains(name) && l == self@[name] {
            let i = choose|i: int| 0 <= i < s.len() && (#[trigger] s[i]).0@ == name;
            assert(self.listed()[i] == (name, l));
        }
    }

    /// The number of active leases.
    pub fn lease_count(&self) -> (n: usize)
        ensures
            n == self@.dom().len(),
            self@.dom().finite(),
    {
        assert(self@.dom() =~= self.leases@.dom());
        self.leases.len()
    }

    /// Whether the lease of a secret name can be renewed.
    pub fn renew(&self, name: &str) -> (r: Result<(), ExtensionsError>)
        ensures
            match r {
                Ok(_) => self@.dom().contains(name@) && self@[name@].renewable,
                Err(ExtensionsError::Backend(m)) => if !self@.dom().contains(name@) {
                    m@ == "no lease for secret '"@ + name@ + "'"@
                } else {
                    !self@[name@].renewable && m@ == "lease '"@ + self@[name@].id
                        + "' is not renewable"@
                },
                Err(_) => false,
            },
    {
        match self.leases.get(name) {
            None => Err(ExtensionsError::Backend(cat3("no lease for secret '", name, "'"))),
            Some(l) => if l.renewable {
                Ok(())
            } else {
                Err(
                    ExtensionsError::Backend(
                        cat3("lease '", l.lease_id.as_str(), "' is not renewable"),
                    ),
                )
            },
        }
    }
}

/// No name stands in a list twice.
spec fn distinct_names(s: Seq<(Seq<char>, LeaseView)>) -> bool {
    forall|i: int, j: int| 0 <= i < j < s.len() ==> (#[trigger] s[i]).0 != (#[trigger] s[j]).0
}

proof fn lemma_due_distinct(s: Seq<(Seq<char>, LeaseView)>, threshold: nat)
    requires
        distinct_names(s),
    ensures
        distinct_names(due(s, threshold)),
    decreases s.len(),
{
    if s.len() > 0 {
        let t = s.drop_last();
        assert forall|i: int, j: int| 0 <= i < j < t.len() implies (#[trigger] t[i]).0 != (
        #[trigger] t[j]).0 by {
            assert(t[i] == s[i] && t[j] == s[j]);
        }
        lemma_due_distinct(t, threshold);
        let before = due(t, threshold);
        assert forall|i: int| 0 <= i < before.len() implies (#[trigger] before[i]).0
            != s.last().0 by {
            lemma_due(t, threshold, before[i]);
            assert(before.contains(before[i]));
            let k = choose|k: int| 0 <= k < t.len() && t[k] == before[i];
            assert(s[k] == t[k]);
            assert(s[s.len() - 1] == s.last());
        }
    }
}

proof fn lemma_due(s: Seq<(Seq<char>, LeaseView)>, threshold: nat, p: (Seq<char>, LeaseView))
    ensures
        due(s, threshold).contains(p) <==> s.contains(p) && needs_renewal(p.1, threshold),
    decreases s.len(),
{
    if s.len() > 0 {
        let t = s.drop_last();
        lemma_due(t, threshold, p);
        let before = due(t, threshold);
        assert(s =~= t.push(s.last()));
        assert(s.contains(p) <==> t.contains(p) || s.last() == p) by {
            if t.contains(p) {
                let i = choose|i: int| 0 <= i < t.len() && t[i] == p;
                assert(s[i] == p);
            }
            if s.last() == p {
                assert(s[s.len() - 1] == p);
            }
            if s.contains(p) {
                let i = choose|i: int| 0 <= i < s.len() && s[i] == p;
                if i < t.len() {
                    assert(t[i] == p);
                }
            }
        }
        let b2 = before.push(s.last());
        assert(b2.contains(p) <==> before.contains(p) || s.last() == p) by {
            if before.contains(p) {
                let i = choose|i: int| 0 <= i < before.len() && before[i] == p;
                assert(b2[i] == p);
            }
            if s.last() == p {
                assert(b2[b2.len() - 1] == p);
            }
            if b2.contains(p) {
                let i = choose|i: int| 0 <= i < b2.len() && b2[i] == p;
                if i < before.len() {
                    assert(before[i] == p);
                }
            }
        }
    }
}

// ---------------------------------------------------------------------------
// Laws
// ---------------------------------------------------------------------------

/// A revoked lease is gone: a second revocation finds none, the number of
/// leases has gone down by one if there was a lease, and every other name
/// keeps its lease.
pub proof fn law_revocation_takes_one_lease(m: Map<Seq<char>, LeaseView>, name: Seq<char>)
    requires
        m.dom().finite(),
    ensures
        !m.remove(name).dom().contains(name),
        m.remove(name).remove(name) == m.remove(name),
        m.remove(name).dom().len() == if m.dom().contains(name) {
            m.dom().len() - 1
        } else {
            m.dom().len() as int
        },
        forall|other: Seq<char>|
            other != name ==> #[trigger] m.remove(name).dom().contains(other)
                == m.dom().contains(other),
        forall|other: Seq<char>|
            other != name && m.dom().contains(other) ==> #[trigger] m.remove(name)[other]
                == m[other],
{
    assert(m.remove(name).remove(name) =~= m.remove(name));
    assert(m.remove(name).dom() =~= m.dom().remove(name));
}

/// A cached secret is used for less than its lifetime, and read anew from
/// then on.
pub proof fn law_secrets_are_read_anew(
    cache: Map<Seq<char>, CachedView>,
    name: Seq<char>,
    secret: Seq<char>,
    at: nat,
    ttl: nat,
    now: nat,
)
    requires
        at <= now,
    ensures
        fresh_secret(cache.insert(name, CachedView { secret, at }), name, ttl, now) == if now - at
            < ttl {
            Some(secret)
        } else {
            None
        },
{
}

} // verus!
