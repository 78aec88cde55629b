use dwara_core::extensions::analytics::{Event, InMemoryAnalyticsSink};
use dwara_core::extensions::cache::{
    backend_ttl, entry_weight, InMemoryCache, MokaCache, DEFAULT_CACHE_CAPACITY,
    DEFAULT_CACHE_STORE_BYTES,
};
use dwara_core::extensions::config_convergence::{
    parse_record, ConvergenceError, InstanceGeneration, RedisConvergenceBackend,
};
use dwara_core::extensions::config_source::FileConfigSource;
use dwara_core::extensions::nonce::{signed_seconds, RedisNonceStore};
use dwara_core::extensions::ExtensionsError;

#[test]
fn cache_gives_back_what_was_written() {
    let mut c = InMemoryCache::new();
    assert_eq!(c.get("a"), None);
    c.set("a".to_string(), vec![1]);
    c.set("a".to_string(), vec![2]);
    assert_eq!(c.get("a"), Some(vec![2]));
    assert_eq!(c.entry_count(), 1);
    assert!(c.delete("a"));
    assert!(!c.delete("a"));
    assert_eq!(c.get("a"), None);
    assert_eq!(DEFAULT_CACHE_CAPACITY, 1024);
    assert_eq!(DEFAULT_CACHE_STORE_BYTES, 64 * 1024 * 1024);
}

#[test]
fn least_recently_used_entry_gives_way() {
    let mut c = InMemoryCache::with_capacity(2);
    c.set("a".to_string(), vec![1]);
    c.set("b".to_string(), vec![2]);
    assert!(c.get("a").is_some());
    c.set("c".to_string(), vec![3]);
    assert_eq!(c.get("b"), None);
    assert_eq!(c.get("a"), Some(vec![1]));
    assert_eq!(c.get("c"), Some(vec![3]));
}

#[test]
fn cache_holds_at_least_one_entry() {
    let mut c = InMemoryCache::with_capacity(0);
    c.set("a".to_string(), vec![1]);
    assert_eq!(c.get("a"), Some(vec![1]));
    c.set("b".to_string(), vec![1]);
    assert_eq!(c.entry_count(), 1);
}

#[test]
fn weights_and_lifetimes_of_entries() {
    assert_eq!(entry_weight(10, 100), 366);
    assert_eq!(entry_weight(0, 0x1_0000_0000), 256);
    assert_eq!(backend_ttl(1_500_000_001), (61, 500_000_001));
    assert_eq!(backend_ttl(0), (60, 0));
}

#[test]
fn byte_weighed_cache_gives_back_the_last_write() {
    let mut c = MokaCache::default();
    assert_eq!(c.get("a"), None);
    c.set("a".to_string(), vec![1]);
    c.set_with_ttl("a".to_string(), vec![2, 3], 60_000_000_000);
    c.set("b".to_string(), vec![4]);
    assert_eq!(c.get("a"), Some(vec![2, 3]));
    assert_eq!(c.get("b"), Some(vec![4]));
    assert!(c.delete("a"));
    assert!(!c.delete("a"));
    assert_eq!(c.get("a"), None);
    assert!(c.entry_count().is_some());
}

#[test]
fn byte_weighed_cache_without_room_holds_nothing() {
    let mut c = MokaCache::with_max_bytes(0);
    c.set("a".to_string(), vec![1]);
    assert_eq!(c.get("a"), None);
}

#[test]
fn nonces_are_recorded_until_they_expire() {
    let s = RedisNonceStore::new("dwara:nonce:");
    let c = s.check_command("abc", 1_000, 900);
    assert_eq!(c.key, "dwara:nonce:abc");
    assert_eq!(c.ttl_s, 100);
    assert_eq!(s.check_command("abc", 900, 1_000).ttl_s, 1);
    assert_eq!(s.is_fresh(Ok(Some("OK".to_string()))), Ok(true));
    assert_eq!(s.is_fresh(Ok(None)), Ok(false));
    assert_eq!(
        s.is_fresh(Err("down".to_string())),
        Err(ExtensionsError::Backend("redis set: down".to_string()))
    );
    assert_eq!(signed_seconds(u64::MAX), -1);
    assert_eq!(signed_seconds(1 << 63), i64::MIN);
}

fn convergence() -> RedisConvergenceBackend {
    RedisConvergenceBackend::new("dwara:config".to_string(), 30, 600)
}

#[test]
fn published_records_are_read_back() {
    let b = convergence();
    let c = b.publish_commands(7, "abc123", 1_700_000_000_000);
    assert_eq!(c.instances_key, "dwara:config:instances");
    assert_eq!(c.config_key, "dwara:config:config:7");
    assert_eq!(c.record, "7|abc123|1700000000000");
    assert_eq!((c.instances_ttl_s, c.config_ttl_s), (30, 600));
    let r = b.watch_generations(Ok(vec![("i-1".to_string(), c.record)])).unwrap();
    assert_eq!(
        r,
        vec![InstanceGeneration {
            instance_id: "i-1".to_string(),
            generation: 7,
            config_hash: "abc123".to_string(),
            timestamp: 1_700_000_000_000,
        }]
    );
}

#[test]
fn malformed_records_are_errors() {
    assert_eq!(
        parse_record("i", "1|2").unwrap_err(),
        ConvergenceError::Invalid("instance record for 'i' is malformed: '1|2'".to_string())
    );
    assert_eq!(
        parse_record("i", "x|h|1").unwrap_err(),
        ConvergenceError::Invalid("generation parse: invalid digit found in string".to_string())
    );
    assert!(matches!(
        parse_record("i", "1|h|").unwrap_err(),
        ConvergenceError::Invalid(m) if m.starts_with("timestamp parse: ")
    ));
    let records = vec![
        ("a".to_string(), "1|h|1".to_string()),
        ("b".to_string(), "bad".to_string()),
    ];
    assert!(convergence().watch_generations(Ok(records)).is_err());
}

#[test]
fn convergence_replies_become_results() {
    let b = convergence();
    let x = || Err("x".to_string());
    assert_eq!(
        b.published(x()).unwrap_err().message(),
        "convergence backend error: redis publish error: x"
    );
    assert_eq!(
        b.watch_generations(Err("x".to_string())).unwrap_err().message(),
        "convergence backend error: redis watch error: x"
    );
    assert_eq!(b.loaded_config(3, Ok(Some("a: 1".to_string()))).unwrap(), "a: 1");
    assert_eq!(
        b.loaded_config(3, Ok(None)).unwrap_err().message(),
        "convergence not found: config body for generation 3 is not present (expired or never \
         published)"
    );
    assert_eq!(
        b.loaded_config(3, Err("x".to_string())).unwrap_err().message(),
        "convergence backend error: redis load_config error: x"
    );
    assert!(b.removed_instance(Ok(0)).is_ok());
    assert_eq!(
        b.removed_instance(Err("x".to_string())).unwrap_err().into_extensions_error(),
        ExtensionsError::Backend(
            "convergence backend error: redis remove_instance error: x".to_string()
        )
    );
    assert_eq!(
        ConvergenceError::Invalid("y".to_string()).message(),
        "convergence invalid data: y"
    );
}

#[test]
fn config_file_errors_name_the_file() {
    let s = FileConfigSource::new("/etc/gw.yaml".to_string());
    assert_eq!(s.path(), "/etc/gw.yaml");
    assert_eq!(s.read_text(Ok("a".to_string())), Ok("a".to_string()));
    assert_eq!(
        s.read_text(Err("gone".to_string())),
        Err(ExtensionsError::Io("/etc/gw.yaml: gone".to_string()))
    );
    assert_eq!(s.malformed("m".to_string()), ExtensionsError::Invalid("m".to_string()));
}

#[test]
fn sink_keeps_the_most_recent_events() {
    let mut sink = InMemoryAnalyticsSink::new(2);
    for t in 1..=3 {
        sink.record(Event::request_now(t));
    }
    let times: Vec<u64> = sink.events().iter().map(|e| e.timestamp_ms).collect();
    assert_eq!(times, vec![2, 3]);
    assert_eq!(sink.events()[0].kind, "request");
    let mut none = InMemoryAnalyticsSink::new(0);
    none.record(Event::request_now(1));
    none.record(Event::request_now(2));
    assert!(none.events().is_empty());
}

#[test]
fn extension_error_texts() {
    let m = || "m".to_string();
    assert_eq!(ExtensionsError::Io(m()).message(), "extension io error: m");
    assert_eq!(ExtensionsError::Invalid(m()).message(), "extension invalid-data error: m");
    assert_eq!(ExtensionsError::Backend(m()).message(), "extension backend error: m");
    assert_eq!(
        ExtensionsError::Unsupported(m()).message(),
        "extension unsupported operation: m"
    );
    let e = dwara_core::error::Error::from_extensions(ExtensionsError::Io(m()));
    assert_eq!(e.message(), "extension io error: m");
    assert_eq!(dwara_core::error::Error::Tls(m()).message(), "m");
}

#[test]
fn kept_keys_were_used_more_recently_than_evicted_ones() {
    let mut c = InMemoryCache::with_capacity(3);
    for key in ["a", "b", "c"] {
        c.set(key.to_string(), vec![0]);
    }
    // Room was made, so nothing is evicted.
    assert!(c.delete("b"));
    c.set("d".to_string(), vec![4]);
    assert_eq!(c.entry_count(), 3);
    assert_eq!(c.get("a"), Some(vec![0]));
    // A look at a key that is not there is no use of it.
    assert_eq!(c.get("b"), None);
    c.set("e".to_string(), vec![5]);
    c.set("f".to_string(), vec![6]);
    assert_eq!(c.get("c"), None);
    assert_eq!(c.get("d"), None);
    assert_eq!(c.get("a"), Some(vec![0]));
    assert_eq!(c.get("e"), Some(vec![5]));
    assert_eq!(c.get("f"), Some(vec![6]));
}
