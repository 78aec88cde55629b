use dwara_core::extensions::secrets::{EnvLookup, EnvSecretSource, Secret, StaticSecretSource};
use dwara_core::extensions::ExtensionsError;

#[test]
fn static_source_resolves_known_and_reports_miss() {
    let source = StaticSecretSource::new().with("upstream-token", "s3cr3t");
    let hit = source.resolve("upstream-token").unwrap();
    assert_eq!(hit.expose(), "s3cr3t");
    assert!(source.resolve("unknown").is_none());
}

#[test]
fn env_source_resolves_set_variable_and_misses_unset() {
    let name = "DWARA_TEST_SECRET_DW004_9f3a";
    let hit = EnvSecretSource
        .resolve(name, EnvLookup::Found("env-value".to_string()))
        .unwrap()
        .unwrap();
    assert_eq!(hit.expose(), "env-value");
    let miss = EnvSecretSource
        .resolve("DWARA_TEST_SECRET_DW004_unset_1c77", EnvLookup::Unset)
        .unwrap();
    assert!(miss.is_none());
}

#[test]
fn env_value_that_is_not_unicode_is_an_error() {
    let r = EnvSecretSource.resolve("NAME", EnvLookup::NotUnicode);
    assert_eq!(
        r.err().unwrap(),
        ExtensionsError::Invalid(
            "environment variable NAME is set but not valid Unicode".to_string()
        )
    );
}

#[test]
fn secret_debug_output_is_redacted() {
    let secret = Secret::new("super-secret-value-dw004");
    let rendered = secret.redacted();
    assert!(
        !rendered.contains("super-secret-value-dw004"),
        "the rendering must not leak the value, got: {rendered}"
    );
    assert!(rendered.contains("redacted"));
    assert_eq!(rendered, "Secret([24 bytes redacted])");
    // The same holds for what is rendered of several secrets.
    let wrapper: Vec<String> = vec![secret.copy()].iter().map(|s| s.redacted()).collect();
    assert!(!format!("{wrapper:?}").contains("super-secret-value-dw004"));
}

#[test]
fn redaction_counts_bytes() {
    assert_eq!(Secret::new("\u{e9}\u{e9}").redacted(), "Secret([4 bytes redacted])");
}

#[test]
fn static_source_builder_replaces_existing_key() {
    let source = StaticSecretSource::new().with("k", "first").with("k", "second");
    let value = source.resolve("k").unwrap();
    assert_eq!(value.expose(), "second");
}

#[test]
fn cloned_sources_resolve_alike() {
    let source = StaticSecretSource::new().with("a", "1").with("b", "2");
    let copy = source.clone().with("b", "3");
    assert_eq!(copy.resolve("a").unwrap().clone().expose(), "1");
    assert_eq!(copy.resolve("b").unwrap().expose(), "3");
    assert_eq!(source.resolve("b").unwrap().expose(), "2");
    assert!(copy.resolve("c").is_none());
}
