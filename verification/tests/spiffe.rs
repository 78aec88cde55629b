use dwara_core::mesh::sidecar::{
    MeshSidecarConfig, SidecarConfig, SidecarController, SidecarMode, SidecarRedirectMode,
};
use dwara_core::mesh::spiffe::{
    FakeWorkloadApi, MeshSpiffeConfig, SpiffeClient, SpiffeConfig, SpiffeError, SpiffeIdentity,
    SpiffeSvid, SpiffeTrustBundle, SvidRefreshResult,
};

fn fake_svid(spiffe_id: &str, expires_at: u64) -> SpiffeSvid {
    SpiffeSvid {
        spiffe_id: SpiffeIdentity::parse(spiffe_id).expect("valid spiffe id"),
        x509_cert: vec![vec![0x30, 0x82]],
        private_key: vec![0x30, 0x82],
        expires_at,
    }
}

fn fake_bundle() -> SpiffeTrustBundle {
    SpiffeTrustBundle {
        trust_domain: "example.org".into(),
        x509_certs: vec![vec![0x30, 0x82]],
    }
}

fn fake_config() -> SpiffeConfig {
    SpiffeConfig::from_config(&MeshSpiffeConfig {
        trust_domain: "example.org".into(),
        workload_api_socket: "/tmp/spire-agent/public/api.sock".into(),
        svid_refresh_interval_secs: 60,
    })
}

#[test]
fn fetch_svid_returns_preconfigured_svids() {
    let svid = fake_svid("spiffe://example.org/ns/default/sa/my-svc", 9999);
    let transport = FakeWorkloadApi::new(vec![svid.clone()], fake_bundle());
    let svids = transport.fetch_x509_svid().expect("fetch");
    assert_eq!(svids.len(), 1);
    assert_eq!(svids[0].spiffe_id, svid.spiffe_id);
}

#[test]
fn fetch_primary_svid_returns_first_svid() {
    let svid1 = fake_svid("spiffe://example.org/ns/default/sa/svc1", 9999);
    let svid2 = fake_svid("spiffe://example.org/ns/default/sa/svc2", 8888);
    let transport = FakeWorkloadApi::new(vec![svid1.clone(), svid2], fake_bundle());
    let client = SpiffeClient::new(fake_config());
    let primary = client.fetch_primary_svid(transport.fetch_x509_svid()).expect("fetch");
    assert_eq!(primary.spiffe_id, svid1.spiffe_id);
}

#[test]
fn fetch_primary_svid_errors_on_empty_response() {
    let transport = FakeWorkloadApi::new(vec![], fake_bundle());
    let client = SpiffeClient::new(fake_config());
    let err = client
        .fetch_primary_svid(transport.fetch_x509_svid())
        .expect_err("should error");
    assert_eq!(err, SpiffeError::EmptyResponse);
}

#[test]
fn fetch_svid_propagates_transport_error() {
    let transport =
        FakeWorkloadApi::new(vec![fake_svid("spiffe://example.org/x", 1)], fake_bundle())
            .with_svid_error(SpiffeError::WorkloadApiUnreachable("connection refused".into()));
    let err = transport.fetch_x509_svid().expect_err("should error");
    assert!(matches!(err, SpiffeError::WorkloadApiUnreachable(_)));
    assert_eq!(err.message(), "spiffe workload api unreachable: connection refused");
}

#[test]
fn fetch_trust_bundle_returns_preconfigured_bundle() {
    let bundle = fake_bundle();
    let transport = FakeWorkloadApi::new(
        vec![fake_svid("spiffe://example.org/x", 1)],
        bundle.clone(),
    );
    let fetched = transport.fetch_x509_bundle().expect("fetch");
    assert_eq!(fetched.trust_domain, bundle.trust_domain);
    assert_eq!(fetched.x509_certs.len(), bundle.x509_certs.len());
}

#[test]
fn fetch_trust_bundle_propagates_transport_error() {
    let transport =
        FakeWorkloadApi::new(vec![fake_svid("spiffe://example.org/x", 1)], fake_bundle())
            .with_bundle_error(SpiffeError::GrpcStatus("permission denied".into()));
    let err = transport.fetch_x509_bundle().expect_err("should error");
    assert!(matches!(err, SpiffeError::GrpcStatus(_)));
    assert_eq!(err.message(), "spiffe workload api grpc error: permission denied");
}

#[test]
fn refresh_result_from_fetch_success() {
    let client = SpiffeClient::new(fake_config());
    let ok: Result<SpiffeSvid, SpiffeError> = Ok(fake_svid("spiffe://example.org/x", 1));
    assert_eq!(
        client.refresh_result_from_fetch(&ok),
        SvidRefreshResult::Success
    );
    assert_eq!(SvidRefreshResult::Success.as_str(), "success");
}

#[test]
fn refresh_result_from_fetch_error() {
    let client = SpiffeClient::new(fake_config());
    let err: Result<SpiffeSvid, SpiffeError> = Err(SpiffeError::EmptyResponse);
    assert_eq!(
        client.refresh_result_from_fetch(&err),
        SvidRefreshResult::Error
    );
    assert_eq!(SvidRefreshResult::Error.as_str(), "error");
}

#[test]
fn spiffe_identity_parse_and_to_uri_roundtrip() {
    let id = SpiffeIdentity::parse("spiffe://example.org/ns/default/sa/my-svc").expect("valid");
    assert_eq!(id.trust_domain, "example.org");
    assert_eq!(id.path, "/ns/default/sa/my-svc");
    assert_eq!(id.to_uri(), "spiffe://example.org/ns/default/sa/my-svc");
}

#[test]
fn spiffe_identity_parse_rejects_invalid() {
    assert!(SpiffeIdentity::parse("http://example.org/x").is_none());
    assert!(SpiffeIdentity::parse("spiffe:///x").is_none());
    assert!(SpiffeIdentity::parse("spiffe://").is_none());
}

#[test]
fn spiffe_identity_new_normalizes_path() {
    let id = SpiffeIdentity::new("example.org", "ns/default/sa/x");
    assert_eq!(id.path, "/ns/default/sa/x");
}

#[test]
fn spiffe_identity_validity() {
    assert!(SpiffeIdentity::new("example.org", "").is_valid());
    assert!(!SpiffeIdentity::new("", "x").is_valid());
    let bare = SpiffeIdentity { trust_domain: "d".into(), path: "x".into() };
    assert!(!bare.is_valid());
}

#[test]
fn spiffe_svid_seconds_until_expiry() {
    let svid = fake_svid("spiffe://example.org/x", 1000);
    assert_eq!(svid.seconds_until_expiry(900), 100);
    assert_eq!(svid.seconds_until_expiry(1000), 0);
    assert_eq!(svid.seconds_until_expiry(2000), 0); // clamped
    assert_eq!(fake_svid("spiffe://example.org/x", u64::MAX).seconds_until_expiry(0), i64::MAX);
}

#[test]
fn client_names_its_workload() {
    let client = SpiffeClient::new(fake_config());
    assert_eq!(client.workload_identity("a").to_uri(), "spiffe://example.org/a");
    assert_eq!(client.config().svid_refresh_interval_secs, 60);
    assert_eq!(
        client.config().workload_api_socket,
        "/tmp/spire-agent/public/api.sock"
    );
}

#[test]
fn spiffe_error_texts() {
    assert_eq!(
        SpiffeError::EmptyResponse.message(),
        "spiffe workload api returned no svids"
    );
    assert_eq!(
        SpiffeError::MalformedResponse("x".into()).message(),
        "spiffe workload api malformed response: x"
    );
}

#[test]
fn sidecar_listeners_follow_the_configuration() {
    let cfg = MeshSidecarConfig {
        inbound_port: 15006,
        outbound_port: 15001,
        redirect_mode: "tproxy".into(),
    };
    let c = SidecarController::new(SidecarConfig::from_config(&cfg, true));
    assert!(c.config().enabled);
    assert_eq!(
        c.inbound_listener(),
        (SidecarMode::Inbound, 15006, SidecarRedirectMode::Tproxy)
    );
    assert_eq!(
        c.outbound_listener(),
        (SidecarMode::Outbound, 15001, SidecarRedirectMode::Tproxy)
    );
    assert_eq!(SidecarRedirectMode::parse("iptables"), Some(SidecarRedirectMode::Iptables));
    assert_eq!(SidecarRedirectMode::parse("other"), None);
    assert_eq!(SidecarRedirectMode::Tproxy.as_str(), "tproxy");
    assert_eq!(SidecarMode::Outbound.as_str(), "outbound");
    let unknown = MeshSidecarConfig { redirect_mode: "x".into(), ..cfg };
    assert_eq!(
        SidecarConfig::from_config(&unknown, false).redirect_mode,
        SidecarRedirectMode::Iptables
    );
}
