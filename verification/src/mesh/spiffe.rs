//! SPIFFE identities of workloads and the documents that prove them.

use vstd::prelude::*;
use vstd::string::*;

use crate::lists;
use crate::lists::{copy_blobs, copy_bytes};
use crate::text;
use crate::text::{begins_with, cat2, cat3, cut_once, drop_chars, same};

verus! {

/// A SPIFFE ID: a trust domain, and the path of a workload in it.
#[derive(Debug, Clone, PartialEq, Eq)]
pub struct SpiffeIdentity {
    /// The trust domain.
    pub trust_domain: String,
    /// The path, which begins with a slash.
    pub path: String,
}

/// What an identity is.
#[verifier::ext_equal]
pub struct IdentityView {
    pub trust_domain: Seq<char>,
    pub path: Seq<char>,
}

impl View for SpiffeIdentity {
    type V = IdentityView;

    open spec fn view(&self) -> IdentityView {
        IdentityView { trust_domain: self.trust_domain@, path: self.path@ }
    }
}

/// Whether a text begins with a slash.
pub open spec fn rooted(s: Seq<char>) -> bool {
    s.len() > 0 && s[0] == '/'
}

/// A well-formed identity: the trust domain is not empty, and the path
/// begins with a slash.
pub open spec fn is_valid_identity(v: IdentityView) -> bool {
    v.trust_domain.len() > 0 && rooted(v.path)
}

/// The URI of an identity.
pub open spec fn uri_of(v: IdentityView) -> Seq<char> {
    "spiffe://"@ + v.trust_domain + v.path
}

/// The identity of a URI.
pub open spec fn identity_of(uri: Seq<char>) -> Option<IdentityView> {
    let scheme = "spiffe://"@;
    if scheme.len() <= uri.len() && uri.take(scheme.len() as int) == scheme {
        match text::split_once(uri.skip(scheme.len() as int), '/') {
            Some(p) => if p.0.len() == 0 {
                None
            } else {
                Some(IdentityView { trust_domain: p.0, path: seq!['/'] + p.1 })
            },
            None => None,
        }
    } else {
        None
    }
}

fn is_rooted(s: &str) -> (r: bool)
    ensures
        r == rooted(s@),
{
    let n: usize = s.unicode_len();
    n > 0 && s.get_char(0) == '/'
}

impl SpiffeIdentity {
    /// An identity of a trust domain and a path; a slash is put in front of
    /// a path without one.
    pub fn new(trust_domain: &str, path: &str) -> (i: Self)
        ensures
            i@.trust_domain == trust_domain@,
            i@.path == if rooted(path@) {
                path@
            } else {
                seq!['/'] + path@
            },
    {
        let path = if is_rooted(path) {
            path.to_owned()
        } else {
            proof {
                reveal_strlit("/");
                assert("/"@ =~= seq!['/']);
            }
            cat2("/", path)
        };
        SpiffeIdentity { trust_domain: trust_domain.to_owned(), path }
    }

    /// The identity of a URI; none where the scheme is another one, the
    /// trust domain is empty, or there is no path.
    pub fn parse(uri: &str) -> (r: Option<Self>)
        ensures
            match (r, identity_of(uri@)) {
                (Some(i), Some(v)) => i@ == v,
                (None, None) => true,
                _ => false,
            },
    {
        proof {
            reveal_strlit("spiffe://");
            reveal_strlit("/");
            reveal_strlit("");
            assert("/"@ =~= seq!['/']);
        }
        if !begins_with(uri, "spiffe://") {
            return None;
        }
        let rest = drop_chars(uri, 9);
        match cut_once(rest.as_str(), '/') {
            Some(p) => {
                if same(p.0.as_str(), "") {
                    return None;
                }
                assert(p.0@.len() == 0 ==> p.0@ =~= ""@);
                Some(SpiffeIdentity { trust_domain: p.0, path: cat2("/", p.1.as_str()) })
            },
            None => None,
        }
    }

    /// The URI of the identity.
    pub fn to_uri(&self) -> (s: String)
        ensures
            s@ == uri_of(self@),
    {
        cat3("spiffe://", self.trust_domain.as_str(), self.path.as_str())
    }

    /// Whether the identity is well-formed.
    pub fn is_valid(&self) -> (r: bool)
        ensures
            r == is_valid_identity(self@),
    {
        self.trust_domain.as_str().unicode_len() > 0 && is_rooted(self.path.as_str())
    }

    /// A copy of the identity.
    pub fn copy(&self) -> (i: Self)
        ensures
            i@ == self@,
    {
        SpiffeIdentity { trust_domain: self.trust_domain.clone(), path: self.path.clone() }
    }
}

/// An X.509 SVID: the certificate chain and the key that prove an identity,
/// and when it expires.
#[derive(Debug, Clone, PartialEq, Eq)]
pub struct SpiffeSvid {
    /// The identity.
    pub spiffe_id: SpiffeIdentity,
    /// The certificate chain, leaf first.
    pub x509_cert: Vec<Vec<u8>>,
    /// The private key of the leaf certificate.
    pub private_key: Vec<u8>,
    /// The expiry, in seconds since the Unix epoch.
    pub expires_at: u64,
}

/// What an SVID is.
#[verifier::ext_equal]
pub struct SvidView {
    pub id: IdentityView,
    pub chain: Seq<Seq<u8>>,
    pub key: Seq<u8>,
    pub expires_at: nat,
}

impl View for SpiffeSvid {
    type V = SvidView;

    open spec fn view(&self) -> SvidView {
        SvidView {
            id: self.spiffe_id@,
            chain: lists::blobs(self.x509_cert@),
            key: self.private_key@,
            expires_at: self.expires_at as nat,
        }
    }
}

/// The seconds that are left: none once expired, and no more than a signed
/// number holds.
pub open spec fn seconds_left(expires_at: nat, now: nat) -> int {
    if expires_at <= now {
        0
    } else if expires_at - now > i64::MAX {
        i64::MAX as int
    } else {
        expires_at - now
    }
}

impl SpiffeSvid {
    /// Seconds until the SVID expires; never negative.
    pub fn seconds_until_expiry(&self, now: u64) -> (n: i64)
        ensures
            n == seconds_left(self@.expires_at, now as nat),
    {
        let remaining: u64 = self.expires_at.saturating_sub(now);
        if remaining > 0x7fff_ffff_ffff_ffff {
            i64::MAX
        } else {
            remaining as i64
        }
    }

    /// A copy of the SVID.
    pub fn copy(&self) -> (s: Self)
        ensures
            s@ == self@,
    {
        SpiffeSvid {
            spiffe_id: self.spiffe_id.copy(),
            x509_cert: copy_blobs(&self.x509_cert),
            private_key: copy_bytes(&self.private_key),
            expires_at: self.expires_at,
        }
    }
}

/// The certificates that sign the SVIDs of a trust domain.
#[derive(Debug, Clone, PartialEq, Eq)]
pub struct SpiffeTrustBundle {
    /// The trust domain this bundle covers.
    pub trust_domain: String,
    /// The certificates.
    pub x509_certs: Vec<Vec<u8>>,
}

/// What a trust bundle is.
#[verifier::ext_equal]
pub struct BundleView {
    pub trust_domain: Seq<char>,
    pub certs: Seq<Seq<u8>>,
}

impl View for SpiffeTrustBundle {
    type V = BundleView;

    open spec fn view(&self) -> BundleView {
        BundleView { trust_domain: self.trust_domain@, certs: lists::blobs(self.x509_certs@) }
    }
}

impl SpiffeTrustBundle {
    /// A copy of the bundle.
    pub fn copy(&self) -> (b: Self)
        ensures
            b@ == self@,
    {
        SpiffeTrustBundle {
            trust_domain: self.trust_domain.clone(),
            x509_certs: copy_blobs(&self.x509_certs),
        }
    }
}

/// The configured identity of a workload.
#[derive(Debug, Clone, PartialEq, Eq)]
pub struct MeshSpiffeConfig {
    pub trust_domain: String,
    pub workload_api_socket: String,
    pub svid_refresh_interval_secs: u64,
}

/// The resolved SPIFFE configuration.
#[derive(Debug, Clone, PartialEq, Eq)]
pub struct SpiffeConfig {
    /// The trust domain this workload belongs to.
    pub trust_domain: String,
    /// The path of the Workload API socket.
    pub workload_api_socket: String,
    /// The upper bound on the refresh cadence (seconds).
    pub svid_refresh_interval_secs: u64,
}

impl SpiffeConfig {
    /// The configuration of a workload.
    pub fn from_config(cfg: &MeshSpiffeConfig) -> (c: Self)
        ensures
            c.trust_domain@ == cfg.trust_domain@,
            c.workload_api_socket@ == cfg.workload_api_socket@,
            c.svid_refresh_interval_secs == cfg.svid_refresh_interval_secs,
    {
        SpiffeConfig {
            trust_domain: cfg.trust_domain.clone(),
            workload_api_socket: cfg.workload_api_socket.clone(),
            svid_refresh_interval_secs: cfg.svid_refresh_interval_secs,
        }
    }
}

/// Error of a Workload API call.
#[derive(Debug, Clone, PartialEq, Eq)]
pub enum SpiffeError {
    /// The Workload API socket could not be reached.
    WorkloadApiUnreachable(String),
    /// The Workload API returned no SVIDs.
    EmptyResponse,
    /// The Workload API returned a malformed response.
    MalformedResponse(String),
    /// The call failed with a status.
    GrpcStatus(String),
}

/// The text of an error.
pub open spec fn error_text(e: SpiffeError) -> Seq<char> {
    match e {
        SpiffeError::WorkloadApiUnreachable(m) => "spiffe workload api unreachable: "@ + m@,
        SpiffeError::EmptyResponse => "spiffe workload api returned no svids"@,
        SpiffeError::MalformedResponse(m) => "spiffe workload api malformed response: "@ + m@,
        SpiffeError::GrpcStatus(m) => "spiffe workload api grpc error: "@ + m@,
    }
}

impl SpiffeError {
    /// The text of the error.
    pub fn message(&self) -> (s: String)
        ensures
            s@ == error_text(*self),
    {
        match self {
            SpiffeError::WorkloadApiUnreachable(m) => cat2(
                "spiffe workload api unreachable: ",
                m.as_str(),
            ),
            SpiffeError::EmptyResponse => "spiffe workload api returned no svids".to_owned(),
            SpiffeError::MalformedResponse(m) => cat2(
                "spiffe workload api malformed response: ",
                m.as_str(),
            ),
            SpiffeError::GrpcStatus(m) => cat2("spiffe workload api grpc error: ", m.as_str()),
        }
    }

    /// A copy of the error.
    pub fn copy(&self) -> (e: Self)
        ensures
            error_text(e) == error_text(*self),
            e is WorkloadApiUnreachable == self is WorkloadApiUnreachable,
            e is EmptyResponse == self is EmptyResponse,
            e is MalformedResponse == self is MalformedResponse,
            e is GrpcStatus == self is GrpcStatus,
    {
        match self {
            SpiffeError::WorkloadApiUnreachable(m) => SpiffeError::WorkloadApiUnreachable(
                m.clone(),
            ),
            SpiffeError::EmptyResponse => SpiffeError::EmptyResponse,
            SpiffeError::MalformedResponse(m) => SpiffeError::MalformedResponse(m.clone()),
            SpiffeError::GrpcStatus(m) => SpiffeError::GrpcStatus(m.clone()),
        }
    }
}

/// The outcome of a refresh.
#[derive(Debug, Clone, Copy, PartialEq, Eq, Structural)]
pub enum SvidRefreshResult {
    /// The Workload API returned a fresh SVID.
    Success,
    /// The fetch failed; the previous SVID is served until it expires.
    Error,
}

impl SvidRefreshResult {
    /// The metric label.
    pub fn as_str(self) -> (s: &'static str)
        ensures
            s@ == match self {
                SvidRefreshResult::Success => "success"@,
                SvidRefreshResult::Error => "error"@,
            },
    {
        match self {
            SvidRefreshResult::Success => "success",
            SvidRefreshResult::Error => "error",
        }
    }
}

/// The client of the Workload API.
#[derive(Debug, Clone)]
pub struct SpiffeClient {
    config: SpiffeConfig,
}

impl View for SpiffeClient {
    type V = SpiffeConfig;

    closed spec fn view(&self) -> SpiffeConfig {
        self.config
    }
}

impl SpiffeClient {
    /// A client of a configuration.
    pub fn new(config: SpiffeConfig) -> (c: Self)
        ensures
            c@ == config,
    {
        SpiffeClient { config }
    }

    /// The configuration.
    pub fn config(&self) -> (c: &SpiffeConfig)
        ensures
            *c == self@,
    {
        &self.config
    }

    /// The identity of this workload for a path.
    pub fn workload_identity(&self, path: &str) -> (i: SpiffeIdentity)
        ensures
            i@.trust_domain == self@.trust_domain@,
            i@.path == if rooted(path@) {
                path@
            } else {
                seq!['/'] + path@
            },
    {
        SpiffeIdentity::new(self.config.trust_domain.as_str(), path)
    }

    /// The first of the SVIDs that were fetched.
    pub fn fetch_primary_svid(&self, fetched: Result<Vec<SpiffeSvid>, SpiffeError>) -> (r:
        Result<SpiffeSvid, SpiffeError>)
        ensures
            match fetched {
                Err(e) => r == Err::<SpiffeSvid, SpiffeError>(e),
                Ok(v) => if v@.len() == 0 {
                    r == Err::<SpiffeSvid, SpiffeError>(SpiffeError::EmptyResponse)
                } else {
                    r == Ok::<SpiffeSvid, SpiffeError>(v@[0])
                },
            },
    {
        match fetched {
            Err(e) => Err(e),
            Ok(svids) => {
                let mut svids = svids;
                if svids.len() == 0 {
                    return Err(SpiffeError::EmptyResponse);
                }
                Ok(svids.remove(0))
            },
        }
    }

    /// The outcome of a fetch.
    pub fn refresh_result_from_fetch(&self, fetch_result: &Result<SpiffeSvid, SpiffeError>) -> (r:
        SvidRefreshResult)
        ensures
            r == if fetch_result is Ok {
                SvidRefreshResult::Success
            } else {
                SvidRefreshResult::Error
            },
    {
        match fetch_result {
            Ok(_) => SvidRefreshResult::Success,
            Err(_) => SvidRefreshResult::Error,
        }
    }
}

/// What SVIDs are.
pub open spec fn svids_of(v: Seq<SpiffeSvid>) -> Seq<SvidView> {
    v.map_values(|s: SpiffeSvid| s@)
}

/// A Workload API that answers as it was told.
#[derive(Clone)]
pub struct FakeWorkloadApi {
    svids: Vec<SpiffeSvid>,
    bundle: SpiffeTrustBundle,
    svid_error: Option<SpiffeError>,
    bundle_error: Option<SpiffeError>,
}

/// What such a Workload API answers.
#[verifier::ext_equal]
pub struct FakeView {
    pub svids: Seq<SvidView>,
    pub bundle: BundleView,
    pub svid_error: Option<Seq<char>>,
    pub bundle_error: Option<Seq<char>>,
}

/// The text of an optional error.
pub open spec fn opt_error(e: Option<SpiffeError>) -> Option<Seq<char>> {
    match e {
        Some(x) => Some(error_text(x)),
        None => None,
    }
}

impl View for FakeWorkloadApi {
    type V = FakeView;

    closed spec fn view(&self) -> FakeView {
        FakeView {
            svids: svids_of(self.svids@),
            bundle: self.bundle@,
            svid_error: opt_error(self.svid_error),
            bundle_error: opt_error(self.bundle_error),
        }
    }
}

impl FakeWorkloadApi {
    /// One that answers with SVIDs and a bundle.
    pub fn new(svids: Vec<SpiffeSvid>, bundle: SpiffeTrustBundle) -> (f: Self)
        ensures
            f@ == (FakeView {
                svids: svids_of(svids@),
                bundle: bundle@,
                svid_error: None,
                bundle_error: None,
            }),
    {
        FakeWorkloadApi { svids, bundle, svid_error: None, bundle_error: None }
    }

    /// One that answers a fetch of SVIDs with an error.
    pub fn with_svid_error(self, error: SpiffeError) -> (f: Self)
        ensures
            f@ == (FakeView { svid_error: Some(error_text(error)), ..self@ }),
    {
        FakeWorkloadApi {
            svids: self.svids,
            bundle: self.bundle,
            svid_error: Some(error),
            bundle_error: self.bundle_error,
        }
    }

    /// One that answers a fetch of the bundle with an error.
    pub fn with_bundle_error(self, error: SpiffeError) -> (f: Self)
        ensures
            f@ == (FakeView { bundle_error: Some(error_text(error)), ..self@ }),
    {
        FakeWorkloadApi {
            svids: self.svids,
            bundle: self.bundle,
            svid_error: self.svid_error,
            bundle_error: Some(error),
        }
    }

    /// The answer to a fetch of SVIDs.
    pub fn fetch_x509_svid(&self) -> (r: Result<Vec<SpiffeSvid>, SpiffeError>)
        ensures
            match (r, self@.svid_error) {
                (Ok(v), None) => svids_of(v@) == self@.svids,
                (Err(e), Some(t)) => error_text(e) == t,
                _ => false,
            },
    {
        if let Some(e) = &self.svid_error {
            return Err(e.copy());
        }
        let mut r: Vec<SpiffeSvid> = Vec::new();
        let mut i: usize = 0;
        while i < self.svids.len()
            invariant
                i <= self.svids.len(),
                r@.len() == i,
                forall|j: int| 0 <= j < i ==> (#[trigger] r@[j])@ == self.svids@[j]@,
            decreases self.svids.len() - i,
        {
            r.push(self.svids[i].copy());
            i = i + 1;
        }
        assert(svids_of(r@) =~= svids_of(self.svids@));
        Ok(r)
    }

    /// The answer to a fetch of the bundle.
    pub fn fetch_x509_bundle(&self) -> (r: Result<SpiffeTrustBundle, SpiffeError>)
        ensures
            match (r, self@.bundle_error) {
                (Ok(b), None) => b@ == self@.bundle,
                (Err(e), Some(t)) => error_text(e) == t,
                _ => false,
            },
    {
        if let Some(e) = &self.bundle_error {
            return Err(e.copy());
        }
        Ok(self.bundle.copy())
    }
}

// ---------------------------------------------------------------------------
// Laws
// ---------------------------------------------------------------------------

/// The URI of a well-formed identity without a slash in its trust domain is
/// read back as that identity.
pub proof fn law_identity_round_trips(v: IdentityView)
    requires
        is_valid_identity(v),
        forall|i: int| 0 <= i < v.trust_domain.len() ==> v.trust_domain[i] != '/',
    ensures
        identity_of(uri_of(v)) == Some(v),
{
    let scheme = "spiffe://"@;
    let uri = uri_of(v);
    assert(uri.take(scheme.len() as int) =~= scheme);
    let rest = uri.skip(scheme.len() as int);
    assert(rest =~= v.trust_domain + v.path);
    text::lemma_find(rest, '/');
    assert(rest[v.trust_domain.len() as int] == '/');
    let i = text::find(rest, '/');
    if i < v.trust_domain.len() {
        assert(rest[i] == v.trust_domain[i]);
    }
    assert(rest.take(i) =~= v.trust_domain);
    assert(seq!['/'] + rest.skip(i + 1) =~= v.path);
}

/// What is read from a URI is well-formed, and its URI is the one that was
/// read.
pub proof fn law_parsed_identity_is_well_formed(uri: Seq<char>)
    requires
        identity_of(uri) is Some,
    ensures
        is_valid_identity(identity_of(uri)->0),
        uri_of(identity_of(uri)->0) == uri,
{
    let scheme = "spiffe://"@;
    let rest = uri.skip(scheme.len() as int);
    text::lemma_find(rest, '/');
    let v = identity_of(uri)->0;
    assert(uri =~= scheme + rest);
    assert(rest =~= v.trust_domain + v.path);
    assert(uri_of(v) =~= uri);
}

/// The time left is what is missing to the expiry, and nothing once that has
/// come.
pub proof fn law_time_left_reaches_the_expiry(expires_at: nat, now: nat)
    requires
        expires_at <= now + i64::MAX,
    ensures
        expires_at >= now ==> now + seconds_left(expires_at, now) == expires_at,
        expires_at < now ==> seconds_left(expires_at, now) == 0,
{
}

/// What is parsed: the scheme, a trust domain up to the first slash, and the
/// path from there on. Nothing else is an identity.
pub proof fn law_identity_is_taken_apart(domain: Seq<char>, rest: Seq<char>)
    requires
        forall|i: int| 0 <= i < domain.len() ==> domain[i] != '/',
    ensures
        domain.len() > 0 ==> identity_of("spiffe://"@ + domain + seq!['/'] + rest) == Some(
            IdentityView { trust_domain: domain, path: seq!['/'] + rest },
        ),
        domain.len() == 0 ==> identity_of("spiffe://"@ + domain + seq!['/'] + rest) is None,
        identity_of("spiffe://"@ + domain) is None,
        !"spiffe://"@.is_prefix_of(rest) ==> identity_of(rest) is None,
{
    let scheme = "spiffe://"@;
    let n = scheme.len() as int;
    let u = scheme + domain + seq!['/'] + rest;
    let t = domain + seq!['/'] + rest;
    assert(u.take(n) =~= scheme);
    assert(u.skip(n) =~= t);
    text::lemma_find(t, '/');
    assert(t[domain.len() as int] == '/');
    let i = text::find(t, '/');
    if i < domain.len() {
        assert(t[i] == domain[i]);
    }
    assert(t.take(i) =~= domain);
    assert(t.skip(i + 1) =~= rest);
    let v = scheme + domain;
    assert(v.take(n) =~= scheme);
    assert(v.skip(n) =~= domain);
    text::lemma_find(domain, '/');
    if n <= rest.len() && rest.take(n) == scheme {
        assert(scheme =~= rest.subrange(0, n));
    }
}

} // verus!
