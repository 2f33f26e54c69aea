use nodedb::cache::{
    cache_key, record_id_of_key, sweep_action, CacheConfig, CacheMode, SweepAction,
};
use nodedb::document::Document;
use nodedb::error::NoSqlError;
use nodedb::value::Value;

fn s(x: &str) -> Value {
    Value::Str(x.to_string())
}

fn now() -> (i64, u32) {
    let t = chrono::Utc::now();
    (t.timestamp(), t.timestamp_subsec_nanos())
}

fn make_doc(id: i64, created_at: (i64, u32), updated_at: (i64, u32)) -> Document {
    Document { id, collection: "test".to_string(), data: Value::Object(vec![]), created_at, updated_at }
}

fn minus(t: (i64, u32), secs: i64) -> (i64, u32) {
    (t.0 - secs, t.1)
}

#[test]
fn test_cache_config_from_value() {
    let val = Value::Object(vec![(s("mode"), s("expire_after_write")), (s("ttl_secs"), Value::Integer(3600))]);
    let config = CacheConfig::from_value(&val).unwrap();
    assert_eq!(config.mode, CacheMode::ExpireAfterWrite);
    assert_eq!(config.ttl_secs, 3600);
}

#[test]
fn test_cache_config_value_roundtrip() {
    let config = CacheConfig { mode: CacheMode::ExpireAfterCreate, ttl_secs: 7200 };
    let val = config.to_value();
    let parsed = CacheConfig::from_value(&val).unwrap();
    assert_eq!(parsed.mode, CacheMode::ExpireAfterCreate);
    assert_eq!(parsed.ttl_secs, 7200);
}

#[test]
fn test_cache_config_invalid_ttl() {
    let val = Value::Object(vec![(s("mode"), s("expire_after_write")), (s("ttl_secs"), Value::Integer(0))]);
    assert!(CacheConfig::from_value(&val).is_err());
}

#[test]
fn test_cache_config_missing_fields() {
    assert!(CacheConfig::from_value(&Value::Object(vec![])).is_err());
}

#[test]
fn cache_config_error_messages() {
    let msg = |v: &Value| match CacheConfig::from_value(v) {
        Err(NoSqlError::CacheConfigInvalid(m)) => m,
        other => panic!("unexpected {:?}", other.map(|c| c.ttl_secs)),
    };
    assert_eq!(msg(&Value::Nil), "expected map");
    assert_eq!(msg(&Value::Object(vec![])), "missing 'mode' field");
    assert_eq!(msg(&Value::Object(vec![(s("mode"), s("lru"))])), "unknown cache mode: lru");
    assert_eq!(msg(&Value::Object(vec![(s("mode"), s("expire_after_create"))])), "missing 'ttl_secs' field");
    assert_eq!(
        msg(&Value::Object(vec![(s("mode"), s("expire_after_create")), (s("ttl_secs"), Value::Integer(-5))])),
        "ttl_secs must be positive"
    );
}

#[test]
fn test_is_expired_after_write() {
    let now = now();
    let config = CacheConfig { mode: CacheMode::ExpireAfterWrite, ttl_secs: 60 };
    let doc = make_doc(1, minus(now, 120), minus(now, 120));
    assert!(config.is_expired(&doc, now));
    let doc = make_doc(1, minus(now, 120), now);
    assert!(!config.is_expired(&doc, now));
}

#[test]
fn test_is_expired_after_create() {
    let now = now();
    let config = CacheConfig { mode: CacheMode::ExpireAfterCreate, ttl_secs: 60 };
    let doc = make_doc(1, minus(now, 120), now);
    assert!(config.is_expired(&doc, now));
    let doc = make_doc(1, now, now);
    assert!(!config.is_expired(&doc, now));
}

#[test]
fn expiry_is_reached_at_exactly_the_ttl() {
    let config = CacheConfig { mode: CacheMode::ExpireAfterCreate, ttl_secs: 60 };
    let doc = make_doc(1, (1000, 5), (1000, 5));
    assert!(!config.is_expired(&doc, (1059, 999_999_999)));
    assert!(config.is_expired(&doc, (1060, 5)));
}

#[test]
fn cache_keys_roundtrip() {
    let key = cache_key("public::users", -42);
    assert_eq!(key, "public::users\u{0}-42");
    assert_eq!(record_id_of_key(&key), Some(-42));
    assert_eq!(record_id_of_key("no-separator"), None);
    assert_eq!(record_id_of_key("a\u{0}x1"), None);
}

#[test]
fn sweep_decisions() {
    let config = CacheConfig { mode: CacheMode::ExpireAfterWrite, ttl_secs: 10 };
    let now = (2000, 0);
    assert_eq!(sweep_action(&config, None, now), SweepAction::DropConfig);
    let old = make_doc(1, (0, 0), (1000, 0));
    assert_eq!(sweep_action(&config, Some(&old), now), SweepAction::DeleteRecord);
    let fresh = make_doc(1, (0, 0), (1995, 0));
    assert_eq!(sweep_action(&config, Some(&fresh), now), SweepAction::Keep);
}

#[test]
fn cache_keys_of_extreme_ids_roundtrip() {
    for id in [0i64, 7, i64::MAX, i64::MIN] {
        assert_eq!(record_id_of_key(&cache_key("s::c", id)), Some(id));
    }
}
