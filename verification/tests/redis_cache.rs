use dwara_core::extensions::cache::InMemoryCache;
use dwara_core::extensions::redis_cache::{
    invalidation_channel, parse_invalidation, CacheOp, CoordinatedCache, Next, RedisCacheStore,
    Tier, TierReply,
};
use dwara_core::extensions::ExtensionsError;

/// A tier that serves operations from memory.
fn serve(cache: &mut InMemoryCache, op: &CacheOp) -> TierReply {
    match op {
        CacheOp::Get { key } => TierReply::Value(cache.get(key)),
        CacheOp::Put { key, value, .. } => {
            cache.set(key.clone(), value.clone());
            TierReply::Stored
        }
        CacheOp::Delete { key } => TierReply::Deleted(cache.delete(key)),
    }
}

fn run(local: &mut InMemoryCache, remote: &mut InMemoryCache, op: CacheOp) -> TierReply {
    let cache = CoordinatedCache;
    let mut tier = cache.first_tier();
    loop {
        let reply = match tier {
            Tier::Local => serve(local, &op),
            Tier::Remote => serve(remote, &op),
        };
        match cache.on_reply(&op, tier, reply) {
            Next::Ask(t) => tier = t,
            Next::Fill(v) => {
                if let CacheOp::Get { key } = &op {
                    local.set(key.clone(), v.clone());
                }
                return TierReply::Value(Some(v));
            }
            Next::End(r) => return r,
        }
    }
}

fn get(key: &str) -> CacheOp {
    CacheOp::Get { key: key.to_string() }
}

fn put(key: &str, value: &[u8], ttl_ns: Option<u128>) -> CacheOp {
    CacheOp::Put { key: key.to_string(), value: value.to_vec(), ttl_ns }
}

#[test]
fn full_key_with_prefix() {
    let prefix = "dwara:cache:";
    let key = "my-key";
    let full = RedisCacheStore::new(prefix).full_key(key);
    assert_eq!(full, "dwara:cache:my-key");
}

#[test]
fn invalidation_channel_name() {
    assert_eq!(invalidation_channel(), "dwara:cache:invalidate");
}

#[test]
fn coordinated_cache_get_falls_back_to_remote() {
    let mut local = InMemoryCache::new();
    let mut remote = InMemoryCache::new();
    remote.set("key1".to_string(), b"value1".to_vec());
    assert!(local.get("key1").is_none());
    let found = run(&mut local, &mut remote, get("key1"));
    assert_eq!(found, TierReply::Value(Some(b"value1".to_vec())));
    assert_eq!(local.get("key1"), Some(b"value1".to_vec()));
}

#[test]
fn coordinated_cache_set_writes_to_both() {
    let mut local = InMemoryCache::new();
    let mut remote = InMemoryCache::new();
    assert_eq!(run(&mut local, &mut remote, put("key1", b"value1", None)), TierReply::Stored);
    assert_eq!(local.get("key1"), Some(b"value1".to_vec()));
    assert_eq!(remote.get("key1"), Some(b"value1".to_vec()));
}

#[test]
fn coordinated_cache_delete_removes_from_both() {
    let mut local = InMemoryCache::new();
    let mut remote = InMemoryCache::new();
    run(&mut local, &mut remote, put("key1", b"value1", None));
    let delete = CacheOp::Delete { key: "key1".to_string() };
    assert_eq!(run(&mut local, &mut remote, delete), TierReply::Deleted(true));
    assert!(local.get("key1").is_none());
    assert!(remote.get("key1").is_none());
}

#[test]
fn coordinated_cache_set_with_ttl() {
    let mut local = InMemoryCache::new();
    let mut remote = InMemoryCache::new();
    run(&mut local, &mut remote, put("key1", b"value1", Some(60_000_000_000)));
    assert_eq!(local.get("key1"), Some(b"value1".to_vec()));
}

#[test]
fn local_failure_ends_the_operation() {
    let failed = || TierReply::Failed(ExtensionsError::Backend("down".to_string()));
    let next = CoordinatedCache.on_reply(&get("k"), Tier::Local, failed());
    assert_eq!(next, Next::End(failed()));
    assert_eq!(CoordinatedCache.entry_count(Some(3)), Some(3));
}

#[test]
fn redis_replies_become_results() {
    let store = RedisCacheStore::new("p:");
    assert_eq!(store.got(Ok(Some(vec![1]))), Ok(Some(vec![1])));
    assert_eq!(
        store.got(Err("x".to_string())),
        Err(ExtensionsError::Backend("redis get: x".to_string()))
    );
    assert_eq!(
        store.stored(Err("x".to_string())),
        Err(ExtensionsError::Backend("redis set: x".to_string()))
    );
    assert_eq!(
        store.stored_with_ttl(Err("x".to_string())),
        Err(ExtensionsError::Backend("redis set_ex: x".to_string()))
    );
    assert_eq!(store.deleted(Ok(1)), Ok(true));
    assert_eq!(store.deleted(Ok(0)), Ok(false));
    assert_eq!(
        store.deleted(Err("x".to_string())),
        Err(ExtensionsError::Backend("redis del: x".to_string()))
    );
    assert_eq!(store.entry_count(), None);
}

#[test]
fn empty_invalidations_are_dropped() {
    assert_eq!(parse_invalidation(Some("k".to_string())), Some("k".to_string()));
    assert_eq!(parse_invalidation(Some(String::new())), None);
    assert_eq!(parse_invalidation(None), None);
}
