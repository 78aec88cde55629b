use dwara_core::extensions::licensing::{
    LicenseClaims, LicenseGate, LicenseLoadError, LicenseStatus, Moment, Verification,
    DEFAULT_GRACE_PERIOD_DAYS, MAX_GRACE_PERIOD_DAYS,
};

fn claims() -> LicenseClaims {
    LicenseClaims {
        customer: "acme".to_string(),
        plan: "enterprise".to_string(),
        features: vec!["redis_rate_limiter".to_string(), "ent".to_string()],
        expires_at: Moment { secs: 1_893_456_000, nanos: 500_000_000 },
    }
}

fn at(secs: i64) -> Moment {
    Moment { secs, nanos: 0 }
}

fn expired(secs: i64) -> Verification {
    Verification::Expired { expires_at: at(secs), claims: Ok(claims()) }
}

const DAY: i64 = 86_400;

#[test]
fn none_gate_is_oss() {
    let gate = LicenseGate::none();
    assert!(!gate.is_enterprise());
    assert!(!gate.is_expired());
    assert!(!gate.has_feature("redis_rate_limiter"));
    assert_eq!(gate.status(), LicenseStatus::NoLicense);
    assert_eq!(gate.status().as_metric(), 0);
}

#[test]
fn status_metric_values() {
    assert_eq!(LicenseStatus::NoLicense.as_metric(), 0);
    assert_eq!(LicenseStatus::Valid.as_metric(), 1);
    assert_eq!(LicenseStatus::ExpiredWithinGrace.as_metric(), 2);
    assert_eq!(LicenseStatus::ExpiredPastGrace.as_metric(), 3);
}

#[test]
fn is_enterprise_matrix() {
    assert!(LicenseGate::with_status(LicenseStatus::Valid).is_enterprise());
    assert!(LicenseGate::with_status(LicenseStatus::ExpiredWithinGrace).is_enterprise());
    assert!(!LicenseGate::with_status(LicenseStatus::NoLicense).is_enterprise());
    assert!(!LicenseGate::with_status(LicenseStatus::ExpiredPastGrace).is_enterprise());
}

#[test]
fn is_expired_matrix() {
    assert!(!LicenseGate::with_status(LicenseStatus::Valid).is_expired());
    assert!(LicenseGate::with_status(LicenseStatus::ExpiredWithinGrace).is_expired());
    assert!(LicenseGate::with_status(LicenseStatus::ExpiredPastGrace).is_expired());
    assert!(!LicenseGate::with_status(LicenseStatus::NoLicense).is_expired());
}

#[test]
fn verified_license_grants_its_features() {
    let gate = LicenseGate::from_verification(Verification::Verified(claims()), 7, at(0)).unwrap();
    assert_eq!(gate.status(), LicenseStatus::Valid);
    assert!(gate.has_feature("redis_rate_limiter"));
    assert!(!gate.has_feature("something_else"));
    assert_eq!(gate.customer(), Some("acme"));
    assert_eq!(gate.plan(), Some("enterprise"));
    assert_eq!(gate.expires_at().as_deref(), Some("2030-01-01T00:00:00.500+00:00"));
    assert_eq!(LicenseGate::none().expires_at(), None);
    assert_eq!(gate.features(), vec!["redis_rate_limiter", "ent"]);
    assert_eq!(gate.grace_period_days(), DEFAULT_GRACE_PERIOD_DAYS);
}

#[test]
fn expired_license_degrades_after_its_grace_period() {
    let within = LicenseGate::from_verification(expired(0), 7, at(6 * DAY)).unwrap();
    assert_eq!(within.status(), LicenseStatus::ExpiredWithinGrace);
    assert!(within.has_feature("redis_rate_limiter"));
    let past = LicenseGate::from_verification(expired(0), 7, at(9 * DAY)).unwrap();
    assert_eq!(past.status(), LicenseStatus::ExpiredPastGrace);
    assert!(!past.is_enterprise());
    assert!(!past.has_feature("redis_rate_limiter"));
}

#[test]
fn no_grace_means_immediate_degradation() {
    let gate = LicenseGate::from_verification(expired(0), 0, at(1)).unwrap();
    assert_eq!(gate.status(), LicenseStatus::ExpiredPastGrace);
    assert!(MAX_GRACE_PERIOD_DAYS == 30);
}

#[test]
fn refused_license_is_an_error() {
    let errors = vec![
        (LicenseLoadError::NotFound("/x".to_string()), "license file not found: /x"),
        (LicenseLoadError::InvalidSignature, "license signature invalid"),
        (LicenseLoadError::Parse("bad".to_string()), "license file parse error: bad"),
    ];
    for (e, text) in errors {
        let r = LicenseGate::from_verification(Verification::Refused(e), 7, at(0));
        assert_eq!(r.err().unwrap().message(), text);
    }
}
