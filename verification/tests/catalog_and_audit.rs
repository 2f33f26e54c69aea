use nodedb::audit::recent_page;
use nodedb::catalog::{is_legacy_meta_key, legacy_meta_entry, plan_move_collection, Catalog};
use nodedb::error::NoSqlError;
use nodedb::wire::{NodeShareAuditEntry, Timestamp};

fn entry(id: i64) -> NodeShareAuditEntry {
    NodeShareAuditEntry {
        id,
        timestamp: Timestamp { secs: 0, nanos: 0 },
        peer_id: "p".to_string(),
        action: "share".to_string(),
        collection: None,
        record_count: 1,
        content_hash: String::new(),
    }
}

#[test]
fn audit_pages_skip_undecodable_entries() {
    let log = vec![Some(entry(1)), None, Some(entry(2)), Some(entry(3)), Some(entry(4))];
    let ids: Vec<i64> = recent_page(log, 1, 2).iter().map(|e| e.id).collect();
    assert_eq!(ids, vec![2, 3]);
    assert!(recent_page(vec![Some(entry(1))], 5, 2).is_empty());
    let all: Vec<i64> = recent_page(vec![Some(entry(1)), Some(entry(2))], 0, 10).iter().map(|e| e.id).collect();
    assert_eq!(all, vec![1, 2]);
}

#[test]
fn legacy_meta_keys_move_to_the_public_schema() {
    assert!(is_legacy_meta_key("users"));
    assert!(!is_legacy_meta_key("public::users"));
    let (key, e) = legacy_meta_entry("users", (10, 0));
    assert_eq!(key, "public::users");
    assert_eq!(e.schema_name, "public");
    assert_eq!(e.collection_name, "users");
    assert_eq!(e.tree_name, "users");
    assert!(!e.singleton);
    assert_eq!(e.created_at, (10, 0));
}

#[test]
fn schema_fingerprint_ignores_insertion_order() {
    let mut a = Catalog::new(None);
    a.add_collection("public::users".to_string());
    a.add_collection("app::orders".to_string());
    let mut b = Catalog::new(None);
    b.add_collection("app::orders".to_string());
    b.add_collection("public::users".to_string());
    assert_eq!(a.schema_fingerprint(), b.schema_fingerprint());
    assert_eq!(
        a.schema_fingerprint(),
        "1a26f0075990ea93bc191bef438264d01ee051d35d03a3b22b941676ecbfd3f3"
    );
    let empty = Catalog::new(None);
    assert_eq!(
        empty.schema_fingerprint(),
        "e3b0c44298fc1c149afbf4c8996fb92427ae41e4649b934ca495991b7852b855"
    );
}

#[test]
fn moving_a_collection_needs_another_schema() {
    let (from, to) = plan_move_collection("public.users", "analytics").unwrap();
    assert_eq!(from, "public::users");
    assert_eq!(to, "analytics::users");
    match plan_move_collection("analytics.users", "analytics") {
        Err(NoSqlError::InvalidSchema(m)) => {
            assert_eq!(m, "collection 'analytics.users' is already in schema 'analytics'")
        }
        other => panic!("unexpected: {:?}", other),
    }
    assert!(matches!(plan_move_collection("users", "public"), Err(NoSqlError::InvalidSchema(_))));
}
