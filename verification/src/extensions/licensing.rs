//! The enterprise licensing gate.
//!
//! A gate holds an optional verified license and answers the two questions
//! every enterprise feature asks before it engages: are we in enterprise
//! mode, and does this license grant a feature? A license that has expired
//! keeps working for a grace period; after that it degrades to the
//! open-source feature set.
//!
//! The signature of a license is checked elsewhere; what to make of
//! the verdict is decided here.

use vstd::prelude::*;
use vstd::string::*;

use crate::text;
use crate::text::{cat2, cat4, clone_strings, holds};

verus! {

/// Default grace period (days) after a license expires before its gate
/// degrades.
pub const DEFAULT_GRACE_PERIOD_DAYS: u32 = 7;

/// Maximum configurable grace period (days).
pub const MAX_GRACE_PERIOD_DAYS: u32 = 30;

/// The product that licenses are verified for.
pub const PRODUCT_ID: &'static str = "dwara";

/// The environment variable holding the public key for license
/// verification.
pub const PUBLIC_KEY_ENV_VAR: &'static str = "DWARA_LICENSE_PUBLIC_KEY";

/// License claim for the Redis rate-limiter backend.
pub const FEATURE_REDIS_RATE_LIMITER: &'static str = "redis_rate_limiter";

/// License claim for config convergence.
pub const FEATURE_CONFIG_CONVERGENCE: &'static str = "config_convergence";

/// The runtime status of the license gate.
#[derive(Debug, Clone, Copy, PartialEq, Eq, Structural)]
pub enum LicenseStatus {
    /// No license configured.
    NoLicense,
    /// A valid, unexpired license is loaded.
    Valid,
    /// The license is expired but within the grace period.
    ExpiredWithinGrace,
    /// The license is expired past the grace period.
    ExpiredPastGrace,
}

impl LicenseStatus {
    /// The numeric value exported as the `dwara_license_status` gauge.
    pub fn as_metric(self) -> (n: i64)
        ensures
            n == match self {
                LicenseStatus::NoLicense => 0i64,
                LicenseStatus::Valid => 1,
                LicenseStatus::ExpiredWithinGrace => 2,
                LicenseStatus::ExpiredPastGrace => 3,
            },
    {
        match self {
            LicenseStatus::NoLicense => 0,
            LicenseStatus::Valid => 1,
            LicenseStatus::ExpiredWithinGrace => 2,
            LicenseStatus::ExpiredPastGrace => 3,
        }
    }
}

/// Error produced while loading or verifying a license.
#[derive(Debug)]
pub enum LicenseLoadError {
    /// The license file could not be found.
    NotFound(String),
    /// The license signature is invalid.
    InvalidSignature,
    /// The license file could not be parsed.
    Parse(String),
    /// The license is for a different product.
    ProductMismatch { expected: String, actual: String },
    /// The license is for a different instance.
    InstanceMismatch { expected: String, actual: String },
    /// The public key could not be loaded.
    KeyError(String),
    /// Another I/O error.
    Io(String),
}

/// What a load error is.
#[verifier::ext_equal]
pub enum LoadError {
    NotFound { path: Seq<char> },
    InvalidSignature,
    Parse { message: Seq<char> },
    ProductMismatch { expected: Seq<char>, actual: Seq<char> },
    InstanceMismatch { expected: Seq<char>, actual: Seq<char> },
    KeyError { message: Seq<char> },
    Io { message: Seq<char> },
}

impl View for LicenseLoadError {
    type V = LoadError;

    open spec fn view(&self) -> LoadError {
        match *self {
            LicenseLoadError::NotFound(p) => LoadError::NotFound { path: p@ },
            LicenseLoadError::InvalidSignature => LoadError::InvalidSignature,
            LicenseLoadError::Parse(m) => LoadError::Parse { message: m@ },
            LicenseLoadError::ProductMismatch { expected, actual } => LoadError::ProductMismatch {
                expected: expected@,
                actual: actual@,
            },
            LicenseLoadError::InstanceMismatch { expected, actual } =>
            LoadError::InstanceMismatch { expected: expected@, actual: actual@ },
            LicenseLoadError::KeyError(m) => LoadError::KeyError { message: m@ },
            LicenseLoadError::Io(m) => LoadError::Io { message: m@ },
        }
    }
}

/// The text of a load error.
pub open spec fn load_error_text(e: LoadError) -> Seq<char> {
    match e {
        LoadError::NotFound { path } => "license file not found: "@ + path,
        LoadError::InvalidSignature => "license signature invalid"@,
        LoadError::Parse { message } => "license file parse error: "@ + message,
        LoadError::ProductMismatch { expected, actual } => "license product mismatch: expected "@
            + expected + ", got "@ + actual,
        LoadError::InstanceMismatch { expected, actual } =>
        "license instance ID mismatch: expected "@ + expected + ", got "@ + actual,
        LoadError::KeyError { message } => "license key error: "@ + message,
        LoadError::Io { message } => "license IO error: "@ + message,
    }
}

impl LicenseLoadError {
    /// The text of the error.
    pub fn message(&self) -> (s: String)
        ensures
            s@ == load_error_text(self@),
    {
        match self {
            LicenseLoadError::NotFound(p) => cat2("license file not found: ", p.as_str()),
            LicenseLoadError::InvalidSignature => "license signature invalid".to_owned(),
            LicenseLoadError::Parse(m) => cat2("license file parse error: ", m.as_str()),
            LicenseLoadError::ProductMismatch { expected, actual } => cat4(
                "license product mismatch: expected ",
                expected.as_str(),
                ", got ",
                actual.as_str(),
            ),
            LicenseLoadError::InstanceMismatch { expected, actual } => cat4(
                "license instance ID mismatch: expected ",
                expected.as_str(),
                ", got ",
                actual.as_str(),
            ),
            LicenseLoadError::KeyError(m) => cat2("license key error: ", m.as_str()),
            LicenseLoadError::Io(m) => cat2("license IO error: ", m.as_str()),
        }
    }
}

/// A point in time: Unix seconds and nanoseconds.
#[derive(Debug, Clone, Copy, PartialEq, Eq, Structural)]
pub struct Moment {
    pub secs: i64,
    pub nanos: u32,
}

/// A point in time in nanoseconds.
pub open spec fn moment_ns(m: Moment) -> int {
    m.secs * 1_000_000_000 + m.nanos
}

/// The RFC 3339 text of a point in time in UTC, as `chrono` writes it; none
/// where it is out of the range of `chrono`.
pub uninterp spec fn rfc3339_text(secs: i64, nanos: u32) -> Option<Seq<char>>;

/// `chrono::DateTime::to_rfc3339`, of the time that `from_timestamp` makes of
/// seconds and nanoseconds: goes by the name `rfc3339_text`.
#[verifier::external_body]
fn to_rfc3339(secs: i64, nanos: u32) -> (r: Option<String>)
    ensures
        text::opt_text(r) == rfc3339_text(secs, nanos),
{
    chrono::DateTime::from_timestamp(secs, nanos).map(|t| t.to_rfc3339())
}

/// What a license claims.
#[derive(Debug, Clone)]
pub struct LicenseClaims {
    pub customer: String,
    pub plan: String,
    pub features: Vec<String>,
    /// When the license expires.
    pub expires_at: Moment,
}

/// What claims are.
#[verifier::ext_equal]
pub struct Claims {
    pub customer: Seq<char>,
    pub plan: Seq<char>,
    pub features: Seq<Seq<char>>,
    pub expires_at: Moment,
}

impl View for LicenseClaims {
    type V = Claims;

    open spec fn view(&self) -> Claims {
        Claims {
            customer: self.customer@,
            plan: self.plan@,
            features: text::texts(self.features@),
            expires_at: self.expires_at,
        }
    }
}

/// The verdict on a license file.
#[derive(Debug)]
pub enum Verification {
    /// The license is genuine and has not expired.
    Verified(LicenseClaims),
    /// The license is genuine and has expired. Its claims, or why they could
    /// not be read.
    Expired { expires_at: Moment, claims: Result<LicenseClaims, LicenseLoadError> },
    /// The license is not to be used.
    Refused(LicenseLoadError),
}

/// The enterprise licensing gate.
#[derive(Debug, Clone)]
pub struct LicenseGate {
    license: Option<LicenseClaims>,
    grace_period_days: u32,
    status: LicenseStatus,
}

/// What a gate is.
#[verifier::ext_equal]
pub struct Gate {
    pub license: Option<Claims>,
    pub grace_period_days: u32,
    pub status: LicenseStatus,
}

/// What optional claims are.
pub open spec fn opt_claims(o: Option<LicenseClaims>) -> Option<Claims> {
    match o {
        Some(c) => Some(c@),
        None => None,
    }
}

impl View for LicenseGate {
    type V = Gate;

    closed spec fn view(&self) -> Gate {
        Gate {
            license: opt_claims(self.license),
            grace_period_days: self.grace_period_days,
            status: self.status,
        }
    }
}

/// Whether a time is within the grace period after an expiry.
pub open spec fn within_grace(expires_at: Moment, grace_period_days: u32, now: Moment) -> bool {
    moment_ns(now) <= moment_ns(expires_at) + grace_period_days * 86_400_000_000_000
}

/// What loading a license gives.
pub open spec fn load_view(r: Result<LicenseGate, LicenseLoadError>) -> Result<Gate, LoadError> {
    match r {
        Ok(g) => Ok(g@),
        Err(e) => Err(e@),
    }
}

/// What a verdict gives at a time.
pub open spec fn gate_of(v: Verification, grace_period_days: u32, now: Moment) -> Result<
    Gate,
    LoadError,
> {
    match v {
        Verification::Verified(claims) => Ok(
            Gate { license: Some(claims@), grace_period_days, status: LicenseStatus::Valid },
        ),
        Verification::Expired { expires_at, claims } => match claims {
            Err(e) => Err(e@),
            Ok(c) => if within_grace(expires_at, grace_period_days, now) {
                Ok(
                    Gate {
                        license: Some(c@),
                        grace_period_days,
                        status: LicenseStatus::ExpiredWithinGrace,
                    },
                )
            } else {
                Ok(
                    Gate {
                        license: None,
                        grace_period_days,
                        status: LicenseStatus::ExpiredPastGrace,
                    },
                )
            },
        },
        Verification::Refused(e) => Err(e@),
    }
}

/// Whether enterprise features are active under a gate.
pub open spec fn enterprise(g: Gate) -> bool {
    g.status is Valid || g.status is ExpiredWithinGrace
}

/// Whether a gate grants a feature.
pub open spec fn grants(g: Gate, feature: Seq<char>) -> bool {
    enterprise(g) && (g.license matches Some(c) && c.features.contains(feature))
}

fn ns(m: Moment) -> (n: i128)
    ensures
        n == moment_ns(m),
        -9_223_372_036_854_775_808_000_000_000 <= n <= 9_223_372_036_854_775_811_294_967_295,
{
    m.secs as i128 * 1_000_000_000 + m.nanos as i128
}

impl Default for LicenseGate {
    fn default() -> (g: Self)
        ensures
            g@ == (Gate {
                license: None,
                grace_period_days: DEFAULT_GRACE_PERIOD_DAYS,
                status: LicenseStatus::NoLicense,
            }),
    {
        Self::none()
    }
}

impl LicenseGate {
    /// No license: all enterprise features are inert.
    pub fn none() -> (g: Self)
        ensures
            g@ == (Gate {
                license: None,
                grace_period_days: DEFAULT_GRACE_PERIOD_DAYS,
                status: LicenseStatus::NoLicense,
            }),
    {
        Self::with_status(LicenseStatus::NoLicense)
    }

    /// A gate of a status, without a license.
    pub fn with_status(status: LicenseStatus) -> (g: Self)
        ensures
            g@ == (Gate {
                license: None,
                grace_period_days: DEFAULT_GRACE_PERIOD_DAYS,
                status,
            }),
    {
        LicenseGate { license: None, grace_period_days: DEFAULT_GRACE_PERIOD_DAYS, status }
    }

    /// The configured grace period (days).
    pub fn grace_period_days(&self) -> (n: u32)
        ensures
            n == self@.grace_period_days,
    {
        self.grace_period_days
    }

    /// The current license status.
    pub fn status(&self) -> (s: LicenseStatus)
        ensures
            s == self@.status,
    {
        self.status
    }

    /// Whether enterprise features are active: a license expired within the
    /// grace period counts, one expired past it does not.
    pub fn is_enterprise(&self) -> (r: bool)
        ensures
            r == enterprise(self@),
    {
        match self.status {
            LicenseStatus::Valid | LicenseStatus::ExpiredWithinGrace => true,
            LicenseStatus::NoLicense | LicenseStatus::ExpiredPastGrace => false,
        }
    }

    /// Whether the license grants the named feature.
    pub fn has_feature(&self, feature: &str) -> (r: bool)
        ensures
            r == grants(self@, feature@),
    {
        if !self.is_enterprise() {
            return false;
        }
        match &self.license {
            Some(c) => holds(&c.features, feature),
            None => false,
        }
    }

    /// Whether the license has passed its expiry, within the grace period or
    /// not.
    pub fn is_expired(&self) -> (r: bool)
        ensures
            r == (self@.status is ExpiredWithinGrace || self@.status is ExpiredPastGrace),
    {
        match self.status {
            LicenseStatus::ExpiredWithinGrace | LicenseStatus::ExpiredPastGrace => true,
            LicenseStatus::Valid | LicenseStatus::NoLicense => false,
        }
    }

    /// The customer of the license, if one is loaded.
    pub fn customer(&self) -> (r: Option<&str>)
        ensures
            text::opt_str(r) == match self@.license {
                Some(c) => Some(c.customer),
                None => None,
            },
    {
        match &self.license {
            Some(c) => Some(c.customer.as_str()),
            None => None,
        }
    }

    /// The plan of the license, if one is loaded.
    pub fn plan(&self) -> (r: Option<&str>)
        ensures
            text::opt_str(r) == match self@.license {
                Some(c) => Some(c.plan),
                None => None,
            },
    {
        match &self.license {
            Some(c) => Some(c.plan.as_str()),
            None => None,
        }
    }

    /// The features of the license; none without one.
    pub fn features(&self) -> (r: Vec<String>)
        ensures
            text::texts(r@) == match self@.license {
                Some(c) => c.features,
                None => Seq::empty(),
            },
    {
        match &self.license {
            Some(c) => clone_strings(&c.features),
            None => {
                let r: Vec<String> = Vec::new();
                assert(text::texts(r@) =~= Seq::empty());
                r
            },
        }
    }

    /// When the license expires (RFC 3339), if one is loaded.
    pub fn expires_at(&self) -> (r: Option<String>)
        ensures
            text::opt_text(r) == match self@.license {
                Some(c) => rfc3339_text(c.expires_at.secs, c.expires_at.nanos),
                None => None,
            },
    {
        match &self.license {
            Some(c) => to_rfc3339(c.expires_at.secs, c.expires_at.nanos),
            None => None,
        }
    }

    /// What a verdict on a license gives at a time. An expired license is
    /// held against the grace period: within it the license is kept,
    /// past it nothing is licensed.
    pub fn from_verification(v: Verification, grace_period_days: u32, now: Moment) -> (r: Result<
        Self,
        LicenseLoadError,
    >)
        ensures
            load_view(r) == gate_of(v, grace_period_days, now),
    {
        match v {
            Verification::Verified(claims) => Ok(
                LicenseGate {
                    license: Some(claims),
                    grace_period_days,
                    status: LicenseStatus::Valid,
                },
            ),
            Verification::Expired { expires_at, claims } => {
                let claims = match claims {
                    Ok(c) => c,
                    Err(e) => {
                        return Err(e);
                    },
                };
                let grace: i128 = grace_period_days as i128 * 86_400_000_000_000;
                if ns(now) <= ns(expires_at) + grace {
                    Ok(
                        LicenseGate {
                            license: Some(claims),
                            grace_period_days,
                            status: LicenseStatus::ExpiredWithinGrace,
                        },
                    )
                } else {
                    Ok(
                        LicenseGate {
                            license: None,
                            grace_period_days,
                            status: LicenseStatus::ExpiredPastGrace,
                        },
                    )
                }
            },
            Verification::Refused(e) => Err(e),
        }
    }
}

// ---------------------------------------------------------------------------
// Laws
// ---------------------------------------------------------------------------

/// An expired license degrades gracefully: it keeps granting its features
/// exactly until the grace period is over, and nothing afterwards.
pub proof fn law_expired_license_degrades(
    expires_at: Moment,
    claims: LicenseClaims,
    grace_period_days: u32,
    now: Moment,
    feature: Seq<char>,
)
    ensures
        gate_of(
            Verification::Expired { expires_at, claims: Ok(claims) },
            grace_period_days,
            now,
        ) matches Ok(g) && grants(g, feature) == (within_grace(
            expires_at,
            grace_period_days,
            now,
        ) && claims@.features.contains(feature)),
{
}

/// Without a grace period a license grants nothing once it has expired.
pub proof fn law_no_grace_means_immediate_degradation(
    expires_at: Moment,
    claims: LicenseClaims,
    now: Moment,
    feature: Seq<char>,
)
    requires
        moment_ns(now) > moment_ns(expires_at),
    ensures
        gate_of(
            Verification::Expired { expires_at, claims: Ok(claims) },
            0,
            now,
        ) matches Ok(g) && !enterprise(g) && !grants(g, feature),
{
}

/// Whether claims list a feature.
pub open spec fn lists_feature(c: LicenseClaims, feature: Seq<char>) -> bool {
    exists|i: int| 0 <= i < c.features@.len() && (#[trigger] c.features@[i])@ == feature
}

/// Whether a time is later than so many days after another.
pub open spec fn is_days_after(t: Moment, then: Moment, days: u32) -> bool {
    let past: int = 86_400 * (days as int);
    1_000_000_000 * (t.secs as int) + t.nanos > 1_000_000_000 * (then.secs + past) + then.nanos
}

/// What a license opens: a genuine one the features that it lists; an expired
/// one the same until its days of grace are over, and nothing after that; one
/// that is refused, nothing at all.
pub proof fn law_license_opens_what_it_lists(
    v: Verification,
    grace_period_days: u32,
    now: Moment,
    feature: Seq<char>,
)
    ensures
        ({
            let r = gate_of(v, grace_period_days, now);
            &&& v is Refused ==> r is Err && r->Err_0 == v->Refused_0@
            &&& v is Verified ==> r is Ok && r->Ok_0.status is Valid && enterprise(r->Ok_0)
                && r->Ok_0.license == Some(v->Verified_0@) && r->Ok_0.grace_period_days
                == grace_period_days && (grants(r->Ok_0, feature) <==> lists_feature(
                v->Verified_0,
                feature,
            ))
            &&& v is Expired && v->claims is Err ==> r is Err && r->Err_0 == v->claims->Err_0@
            &&& v is Expired && v->claims is Ok ==> ({
                let over = is_days_after(now, v->expires_at, grace_period_days);
                &&& r is Ok
                &&& r->Ok_0.status is ExpiredPastGrace <==> over
                &&& r->Ok_0.status is ExpiredWithinGrace <==> !over
                &&& enterprise(r->Ok_0) <==> !over
                &&& r->Ok_0.license is Some <==> !over
                &&& !over ==> r->Ok_0.license == Some(v->claims->Ok_0@)
                &&& grants(r->Ok_0, feature) <==> !over && lists_feature(v->claims->Ok_0, feature)
            })
        }),
{
    if v is Verified {
        lemma_lists(v->Verified_0, feature);
    }
    if v is Expired && v->claims is Ok {
        lemma_lists(v->claims->Ok_0, feature);
    }
}

proof fn lemma_lists(c: LicenseClaims, feature: Seq<char>)
    ensures
        lists_feature(c, feature) <==> c@.features.contains(feature),
{
    if lists_feature(c, feature) {
        let i = choose|i: int| 0 <= i < c.features@.len() && (#[trigger] c.features@[i])@ == feature;
        assert(c@.features[i] == feature);
    }
    if c@.features.contains(feature) {
        let i = c@.features.index_of(feature);
        assert(c.features@[i]@ == feature);
    }
}

/// Without a license nothing is open, whatever the status says beside it.
pub proof fn law_nothing_is_open_without_a_license(g: Gate, feature: Seq<char>)
    ensures
        g.license is None ==> !grants(g, feature),
        g.status is NoLicense || g.status is ExpiredPastGrace ==> !enterprise(g) && !grants(
            g,
            feature,
        ),
        g.status is Valid || g.status is ExpiredWithinGrace ==> enterprise(g),
{
}

} // verus!
