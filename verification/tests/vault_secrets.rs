use dwara_core::extensions::secrets::Secret;
use dwara_core::extensions::vault_secrets::{
    KmsSecretSource, Lease, LeaseManager, MockKmsProvider, VaultSecretSource, VaultStep,
};
use dwara_core::extensions::ExtensionsError;

const SECOND: u128 = 1_000_000_000;

fn source() -> VaultSecretSource {
    VaultSecretSource::new("https://vault.example.com:8200", "s.token", 300 * SECOND)
}

fn backend(text: &str) -> ExtensionsError {
    ExtensionsError::Backend(text.to_string())
}

fn response(body: &str) -> Result<String, String> {
    Ok(format!("HTTP/1.1 200 OK\r\nContent-Type: application/json\r\n\r\n{body}"))
}

#[test]
fn vault_secret_source_construction() {
    let source = VaultSecretSource::new("https://vault.example.com:8200/", "s.token", 300 * SECOND);
    assert_eq!(source.url(), "https://vault.example.com:8200");
    assert_eq!(source.token(), "s.token");
    assert_eq!(source.cache_size(), 0);
}

#[test]
fn vault_cache_store_and_get() {
    let mut source = source();
    source.store_cached("secret/data/my-app", Secret::new("my-value"), 0);
    assert_eq!(source.cache_size(), 1);

    let cached = source.get_cached("secret/data/my-app", 0);
    assert!(cached.is_some());
    assert_eq!(cached.unwrap().expose(), "my-value");
}

#[test]
fn vault_cache_expires() {
    let mut source = VaultSecretSource::new(
        "https://vault.example.com:8200",
        "s.token",
        SECOND / 1000,
    );
    source.store_cached("secret/data/my-app", Secret::new("my-value"), 0);
    let cached = source.get_cached("secret/data/my-app", SECOND / 100);
    assert!(cached.is_none());
}

#[test]
fn vault_cache_clear() {
    let mut source = source();
    source.store_cached("secret/data/my-app", Secret::new("my-value"), 0);
    assert_eq!(source.cache_size(), 1);
    source.clear_cache();
    assert_eq!(source.cache_size(), 0);
}

#[test]
fn vault_api_url() {
    let source = VaultSecretSource::new("https://vault.example.com:8200/", "s.token", 300 * SECOND);
    assert_eq!(
        source.api_url("secret/data/my-app"),
        "https://vault.example.com:8200/v1/secret/data/my-app"
    );
}

#[test]
fn vault_request_names_host_path_and_token() {
    match source().plan("secret/data/my-app", 0).ok().unwrap() {
        VaultStep::Fetch(q) => {
            assert_eq!(q.addr, "vault.example.com:8200");
            assert!(q.tls);
            assert_eq!(q.host, "vault.example.com");
            assert_eq!(
                q.request,
                "GET /v1/secret/data/my-app HTTP/1.1\r\nHost: vault.example.com\r\n\
                 X-Vault-Token: s.token\r\nConnection: close\r\n\r\n"
            );
        }
        VaultStep::Cached(_) => panic!("nothing is cached"),
    }
    let plain = VaultSecretSource::new("http://vault", "t", SECOND);
    match plain.plan("a", 0).ok().unwrap() {
        VaultStep::Fetch(q) => {
            assert_eq!(q.addr, "vault:80");
            assert!(!q.tls);
        }
        VaultStep::Cached(_) => panic!("nothing is cached"),
    }
}

#[test]
fn vault_resolve_returns_error_without_http() {
    let mut source = source();
    assert!(matches!(
        source.plan("secret/data/my-app", 0).ok().unwrap(),
        VaultStep::Fetch(_)
    ));
    let result = source.accept("secret/data/my-app", Err("connect: refused".to_string()), 0);
    assert!(result.is_err());
    assert!(matches!(result.err().unwrap(), ExtensionsError::Backend(_)));
    assert_eq!(source.cache_size(), 0);
}

#[test]
fn vault_url_without_host_is_refused() {
    let r = VaultSecretSource::new("", "t", SECOND).plan("a", 0);
    assert_eq!(r.err().unwrap(), backend("vault url has no host"));
    let r = VaultSecretSource::new("http://[", "t", SECOND).plan("a", 0);
    assert!(r.err().unwrap().message().starts_with("extension backend error: vault url parse: "));
}

#[test]
fn vault_answer_is_cached_for_its_lifetime() {
    let mut source = source();
    let body = r#"{"data":{"data":{"n":1,"password":"hunter2","user":"u"},"metadata":{}}}"#;
    let secret = source.accept("secret/data/x", response(body), 0).ok().unwrap();
    assert_eq!(secret.expose(), "hunter2");
    match source.plan("secret/data/x", 299 * SECOND).ok().unwrap() {
        VaultStep::Cached(s) => assert_eq!(s.expose(), "hunter2"),
        VaultStep::Fetch(_) => panic!("the secret is fresh"),
    }
    assert!(matches!(
        source.plan("secret/data/x", 300 * SECOND).ok().unwrap(),
        VaultStep::Fetch(_)
    ));
}

#[test]
fn vault_name_can_ask_for_a_key() {
    let body = r#"{"data":{"data":{"a":"1","b":"2"}}}"#;
    let secret = source().accept("secret/data/x#b", response(body), 0).ok().unwrap();
    assert_eq!(secret.expose(), "2");
    let e = source().accept("secret/data/x#c", response(body), 0).err().unwrap();
    assert_eq!(e, backend("vault secret has no key 'c'"));
}

#[test]
fn vault_answers_without_a_secret_are_errors() {
    let mut source = source();
    let cases = vec![
        (Err("connect: refused".to_string()), "vault fetch: connect: refused"),
        (Ok("HTTP/1.1 200 OK\r\n".to_string()), "vault response has no body"),
        (response("{}"), "vault response missing data.data"),
        (response(r#"{"data":{"data":{"n":1}}}"#), "vault secret has no string value"),
        (response(r#"{"data":{"data":[]}}"#), "vault secret has no string value"),
    ];
    for (given, text) in cases {
        assert_eq!(source.accept("x", given, 0).err().unwrap(), backend(text));
    }
    let e = source.accept("x", response("{"), 0).err().unwrap();
    assert!(e.message().starts_with("extension backend error: vault response parse: "));
    assert_eq!(source.cache_size(), 0);
}

#[test]
fn kms_names_are_a_key_and_a_ciphertext() {
    let q = KmsSecretSource.request("key-1:abc:def").unwrap();
    assert_eq!(q.key_id, "key-1");
    assert_eq!(q.ciphertext, "abc:def");
    assert_eq!(
        KmsSecretSource.request("nokey").err().unwrap(),
        ExtensionsError::Invalid(
            "KMS secret name must be <key_id>:<ciphertext>, got: nokey".to_string()
        )
    );
    for name in [":x", "x:"] {
        assert_eq!(
            KmsSecretSource.request(name).err().unwrap(),
            ExtensionsError::Invalid(format!(
                "KMS secret name has empty key_id or ciphertext: {name}"
            ))
        );
    }
    let s = KmsSecretSource.finish(Ok("plain".to_string())).ok().unwrap().unwrap();
    assert_eq!(s.expose(), "plain");
    assert_eq!(KmsSecretSource.finish(Err(backend("x"))).err().unwrap(), backend("x"));
}

#[test]
fn the_stand_in_hands_back_text() {
    let plain = MockKmsProvider::passthrough("gr\u{fc}n".as_bytes().to_vec());
    assert_eq!(plain.ok().unwrap(), "gr\u{fc}n");
    assert_eq!(
        MockKmsProvider::passthrough(vec![b'a', 0xff]).err().unwrap(),
        backend("KMS mock: invalid utf-8 sequence of 1 bytes from index 1")
    );
}

fn lease(id: &str, duration: u64, renewable: bool) -> Lease {
    Lease { lease_id: id.to_string(), lease_duration: duration, renewable }
}

#[test]
fn leases_are_tracked_and_renewed() {
    let mut m = LeaseManager::new();
    m.register("a", lease("l1", 10, true));
    m.register("b", lease("l2", 10, false));
    m.register("c", lease("l3", 100, true));
    assert_eq!(m.lease_count(), 3);
    assert_eq!(m.get("a"), Some(lease("l1", 10, true)));
    assert_eq!(m.leases_needing_renewal(60), vec![("a".to_string(), lease("l1", 10, true))]);
    assert!(m.renew("a").is_ok());
    assert_eq!(m.renew("b").err().unwrap(), backend("lease 'l2' is not renewable"));
    assert_eq!(m.renew("z").err().unwrap(), backend("no lease for secret 'z'"));
    assert_eq!(m.revoke("a"), Some(lease("l1", 10, true)));
    assert_eq!(m.revoke("a"), None);
    assert_eq!(m.lease_count(), 2);
    assert_eq!(m.get("a"), None);
    assert_eq!(m.get("c"), Some(lease("l3", 100, true)));
    assert!(m.leases_needing_renewal(100).is_empty());
}
