use nodedb::access_history::{AccessEventType, AccessHistoryConfig, QueryScope};
use nodedb::cache::CacheMode;
use nodedb::conflict::ConflictResolution;
use nodedb::mesh::{compute_mesh_hmac, default_max_mesh_peers, verify_mesh_hmac, MeshConfig, MeshSharingStatus};
use nodedb::provenance::{build_signature_payload, AnomalySeverity, ProvenanceSourceType, ProvenanceVerificationStatus};
use nodedb::schema::QualifiedName;
use nodedb::storage::{decode_id, encode_id, validate_database_name};
use nodedb::trigger::{TriggerEvent, TriggerTiming};
use nodedb::wire::{GossipConfig, SearchConfig};

#[test]
fn test_access_event_type_roundtrip() {
    let types = vec![
        AccessEventType::Read,
        AccessEventType::Write,
        AccessEventType::Watch,
        AccessEventType::FederatedRead,
        AccessEventType::AiWrite,
    ];
    for t in types {
        assert_eq!(AccessEventType::from_str(t.as_str()), Some(t));
    }
    assert_eq!(AccessEventType::from_str("invalid"), None);
}

#[test]
fn test_query_scope_roundtrip() {
    let scopes = vec![
        QueryScope::Local,
        QueryScope::Federated,
        QueryScope::AiQuery,
        QueryScope::FederatedAndAi,
    ];
    for s in scopes {
        assert_eq!(QueryScope::from_str(s.as_str()), Some(s));
    }
    assert_eq!(QueryScope::from_str("invalid"), None);
}

#[test]
fn test_config_defaults() {
    let config = AccessHistoryConfig::default();
    assert_eq!(config.retention_period_secs, 365 * 24 * 3600);
    assert!(config.auto_trim);
    assert_eq!(config.auto_trim_interval_secs, 24 * 3600);
    assert!(!config.track_watch_events);
}

#[test]
fn test_cache_mode_roundtrip() {
    assert_eq!(
        CacheMode::from_str(CacheMode::ExpireAfterWrite.as_str()).unwrap(),
        CacheMode::ExpireAfterWrite
    );
    assert_eq!(
        CacheMode::from_str(CacheMode::ExpireAfterCreate.as_str()).unwrap(),
        CacheMode::ExpireAfterCreate
    );
}

#[test]
fn test_cache_mode_invalid() {
    assert!(CacheMode::from_str("bogus").is_err());
}

#[test]
fn default_is_lww() {
    assert_eq!(ConflictResolution::default(), ConflictResolution::LastWriteWins);
}

#[test]
fn as_str_from_str_roundtrip() {
    let variants = [
        ConflictResolution::LastWriteWins,
        ConflictResolution::LocalWins,
        ConflictResolution::RemoteWins,
        ConflictResolution::HighestConfidence,
        ConflictResolution::Manual,
    ];
    for v in &variants {
        let s = v.as_str();
        let parsed = ConflictResolution::from_str(s).unwrap();
        assert_eq!(*v, parsed);
    }
}

#[test]
fn from_str_unknown_returns_none() {
    assert!(ConflictResolution::from_str("unknown").is_none());
}

#[test]
fn parse_bare_name() {
    let qn = QualifiedName::parse("users");
    assert_eq!(qn.database, None);
    assert_eq!(qn.schema, "public");
    assert_eq!(qn.collection, "users");
}

#[test]
fn parse_schema_dot_collection() {
    let qn = QualifiedName::parse("analytics.page_views");
    assert_eq!(qn.database, None);
    assert_eq!(qn.schema, "analytics");
    assert_eq!(qn.collection, "page_views");
}

#[test]
fn parse_full_fqn() {
    let qn = QualifiedName::parse("warehouse.public.products");
    assert_eq!(qn.database, Some("warehouse".to_string()));
    assert_eq!(qn.schema, "public");
    assert_eq!(qn.collection, "products");
}

#[test]
fn parse_fqn_with_dots_in_collection() {
    let qn = QualifiedName::parse("db.schema.coll.extra");
    assert_eq!(qn.database, Some("db".to_string()));
    assert_eq!(qn.schema, "schema");
    assert_eq!(qn.collection, "coll.extra");
}

#[test]
fn meta_key_format() {
    let qn = QualifiedName::parse("analytics.page_views");
    assert_eq!(qn.meta_key(), "analytics::page_views");

    let qn2 = QualifiedName::parse("users");
    assert_eq!(qn2.meta_key(), "public::users");
}

#[test]
fn is_local_none_database() {
    let qn = QualifiedName::parse("users");
    assert!(qn.is_local(None));
    assert!(qn.is_local(Some("mydb")));
}

#[test]
fn is_local_explicit_local() {
    let qn = QualifiedName::parse("local.public.users");
    assert!(qn.is_local(None));
    assert!(qn.is_local(Some("mydb")));
}

#[test]
fn is_local_matching_db_name() {
    let qn = QualifiedName::parse("warehouse.public.products");
    assert!(!qn.is_local(None));
    assert!(qn.is_local(Some("warehouse")));
    assert!(!qn.is_local(Some("other")));
}

#[test]
fn display_name() {
    let qn = QualifiedName::parse("users");
    assert_eq!(qn.display_name(), "public.users");

    let qn2 = QualifiedName::parse("warehouse.analytics.events");
    assert_eq!(qn2.display_name(), "warehouse.analytics.events");
}

#[test]
fn test_trigger_event_as_str() {
    assert_eq!(TriggerEvent::Insert.as_str(), "insert");
    assert_eq!(TriggerEvent::Update.as_str(), "update");
    assert_eq!(TriggerEvent::Delete.as_str(), "delete");
}

#[test]
fn test_trigger_event_from_str() {
    assert_eq!(TriggerEvent::from_str("insert"), Some(TriggerEvent::Insert));
    assert_eq!(TriggerEvent::from_str("update"), Some(TriggerEvent::Update));
    assert_eq!(TriggerEvent::from_str("delete"), Some(TriggerEvent::Delete));
    assert_eq!(TriggerEvent::from_str("unknown"), None);
}

#[test]
fn test_trigger_timing_as_str() {
    assert_eq!(TriggerTiming::Before.as_str(), "before");
    assert_eq!(TriggerTiming::After.as_str(), "after");
    assert_eq!(TriggerTiming::Instead.as_str(), "instead");
}

#[test]
fn test_trigger_timing_from_str() {
    assert_eq!(TriggerTiming::from_str("before"), Some(TriggerTiming::Before));
    assert_eq!(TriggerTiming::from_str("after"), Some(TriggerTiming::After));
    assert_eq!(TriggerTiming::from_str("instead"), Some(TriggerTiming::Instead));
    assert_eq!(TriggerTiming::from_str("unknown"), None);
}

#[test]
fn source_type_roundtrip() {
    let types = vec![
        ProvenanceSourceType::Peer,
        ProvenanceSourceType::Import,
        ProvenanceSourceType::Model,
        ProvenanceSourceType::User,
        ProvenanceSourceType::Sensor,
        ProvenanceSourceType::AiQuery,
        ProvenanceSourceType::Unknown,
    ];
    for t in types {
        assert_eq!(ProvenanceSourceType::from_str(t.as_str()), t);
    }
}

#[test]
fn verification_status_roundtrip() {
    let statuses = vec![
        ProvenanceVerificationStatus::Unverified,
        ProvenanceVerificationStatus::Verified,
        ProvenanceVerificationStatus::Failed,
        ProvenanceVerificationStatus::KeyRequested,
        ProvenanceVerificationStatus::TrustAll,
    ];
    for s in statuses {
        assert_eq!(ProvenanceVerificationStatus::from_str(s.as_str()), s);
    }
}

#[test]
fn anomaly_severity_roundtrip() {
    let severities = vec![
        AnomalySeverity::Low,
        AnomalySeverity::Medium,
        AnomalySeverity::High,
        AnomalySeverity::Critical,
    ];
    for s in severities {
        assert_eq!(AnomalySeverity::from_str(s.as_str()), s);
    }
}

#[test]
fn build_payload_format() {
    let payload = build_signature_payload("abc123", "2025-01-01T00:00:00Z", "pki-1", "user-1");
    assert_eq!(
        String::from_utf8(payload).unwrap(),
        "abc123|2025-01-01T00:00:00Z|pki-1|user-1"
    );
}

#[test]
fn test_validate_database_name_valid() {
    assert!(validate_database_name("warehouse").is_ok());
    assert!(validate_database_name("my-db").is_ok());
    assert!(validate_database_name("db_01").is_ok());
    assert!(validate_database_name("a").is_ok());
    assert!(validate_database_name(&"x".repeat(64)).is_ok());
}

#[test]
fn test_validate_database_name_invalid() {
    assert!(validate_database_name("").is_err());
    assert!(validate_database_name("local").is_err());
    assert!(validate_database_name("mgmt").is_err());
    assert!(validate_database_name("MyDB").is_err());
    assert!(validate_database_name("db name").is_err());
    assert!(validate_database_name("db.name").is_err());
    assert!(validate_database_name(&"x".repeat(65)).is_err());
}

#[test]
fn test_id_ordering() {
    let a = encode_id(1);
    let b = encode_id(2);
    let c = encode_id(100);
    assert!(a < b);
    assert!(b < c);
}

#[test]
fn test_decode_id_invalid() {
    assert!(decode_id(&[1, 2, 3]).is_err());
    assert!(decode_id(&[]).is_err());
}

#[test]
fn hmac_roundtrip() {
    let secret = "my-mesh-secret";
    let payload = b"hello gossip data";
    let tag = compute_mesh_hmac(secret, payload);
    assert!(verify_mesh_hmac(secret, payload, &tag));
}

#[test]
fn hmac_wrong_secret_fails() {
    let tag = compute_mesh_hmac("secret-a", b"data");
    assert!(!verify_mesh_hmac("secret-b", b"data", &tag));
}

#[test]
fn hmac_tampered_payload_fails() {
    let tag = compute_mesh_hmac("secret", b"original");
    assert!(!verify_mesh_hmac("secret", b"tampered", &tag));
}

#[test]
fn mesh_sharing_status_str_roundtrip() {
    for status in [
        MeshSharingStatus::Private,
        MeshSharingStatus::ReadOnly,
        MeshSharingStatus::ReadWrite,
        MeshSharingStatus::Full,
    ] {
        let s = status.to_str();
        let parsed = MeshSharingStatus::from_str(s).unwrap();
        assert_eq!(parsed, status);
    }
    assert!(MeshSharingStatus::from_str("invalid").is_none());
}

#[test]
fn mesh_sharing_status_permissions() {
    assert!(!MeshSharingStatus::Private.allows_reads());
    assert!(!MeshSharingStatus::Private.allows_writes());

    assert!(MeshSharingStatus::ReadOnly.allows_reads());
    assert!(!MeshSharingStatus::ReadOnly.allows_writes());

    assert!(MeshSharingStatus::ReadWrite.allows_reads());
    assert!(MeshSharingStatus::ReadWrite.allows_writes());

    assert!(MeshSharingStatus::Full.allows_reads());
    assert!(MeshSharingStatus::Full.allows_writes());
}

#[test]
fn mesh_config_defaults() {
    let config = MeshConfig {
        mesh_name: "test".to_string(),
        database_name: "db".to_string(),
        sharing_status: MeshSharingStatus::Full,
        max_mesh_peers: default_max_mesh_peers(),
        mesh_secret: None,
    };
    assert_eq!(config.max_mesh_peers, 16);
    assert!(config.mesh_secret.is_none());
}

#[test]
fn gossip_config_defaults() {
    let gc = GossipConfig::default();
    assert_eq!(gc.interval_seconds, 30);
    assert_eq!(gc.fan_out, 3);
    assert_eq!(gc.ttl, 5);
}

#[test]
fn search_config_defaults() {
    let config = SearchConfig::default();
    assert_eq!(config.max_depth, 3);
    assert_eq!(config.timeout_secs, 10);
}

#[test]
fn display_name_parses_back() {
    for input in ["users", "analytics.page_views", "db.schema.coll.extra", "a..b", ".b", "a."] {
        let qn = QualifiedName::parse(input);
        let again = QualifiedName::parse(&qn.display_name());
        assert_eq!(again.database, qn.database);
        assert_eq!(again.schema, qn.schema);
        assert_eq!(again.collection, qn.collection);
    }
    assert_eq!(QualifiedName::parse("users").display_name(), "public.users");
}
