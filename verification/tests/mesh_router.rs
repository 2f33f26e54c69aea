use nodedb::mesh::{compute_mesh_hmac, verify_mesh_hmac, MeshRouter, MeshSharingStatus};
use nodedb::sealing::{batch_items, TreeMode};
use nodedb::wire::{GossipPeerEntry, Timestamp};

fn now_ts() -> Timestamp {
    let d = chrono::Utc::now();
    Timestamp { secs: d.timestamp(), nanos: d.timestamp_subsec_nanos() }
}

fn secs_before(t: Timestamp, secs: i64) -> Timestamp {
    Timestamp { secs: t.secs - secs, nanos: t.nanos }
}

fn make_gossip_entry(peer_id: &str, db_name: &str, mesh_name: &str, status: &str) -> GossipPeerEntry {
    GossipPeerEntry {
        peer_id: peer_id.to_string(),
        endpoint: format!("wss://{}:9400", peer_id),
        status: "active".to_string(),
        last_seen: now_ts(),
        ttl: 5,
        database_name: db_name.to_string(),
        mesh_name: mesh_name.to_string(),
        sharing_status: status.to_string(),
        schema_fingerprint: String::new(),
    }
}

#[test]
fn mesh_router_update_and_route() {
    let mut router = MeshRouter::new("corp-mesh");
    let entries = vec![
        make_gossip_entry("peer-a", "warehouse", "corp-mesh", "read_write"),
        make_gossip_entry("peer-b", "analytics", "corp-mesh", "read_only"),
        make_gossip_entry("peer-c", "warehouse", "corp-mesh", "full"),
    ];
    router.update_from_gossip(&entries);
    assert_eq!(router.route("warehouse").len(), 2);
    let analytics_peers = router.route("analytics");
    assert_eq!(analytics_peers.len(), 1);
    assert_eq!(analytics_peers[0].peer_id, "peer-b");
    assert!(router.route("unknown").is_empty());
}

#[test]
fn mesh_router_filters_by_mesh_name() {
    let mut router = MeshRouter::new("mesh-a");
    let entries = vec![
        make_gossip_entry("peer-1", "db1", "mesh-a", "full"),
        make_gossip_entry("peer-2", "db2", "mesh-b", "full"),
        make_gossip_entry("peer-3", "db3", "", "full"),
    ];
    router.update_from_gossip(&entries);
    assert_eq!(router.members().len(), 1);
    assert_eq!(router.route("db1").len(), 1);
    assert!(router.route("db2").is_empty());
}

#[test]
fn mesh_router_updates_existing_peer() {
    let mut router = MeshRouter::new("mesh");
    router.update_from_gossip(&vec![make_gossip_entry("peer-a", "db", "mesh", "read_only")]);
    assert_eq!(router.route("db")[0].sharing_status, MeshSharingStatus::ReadOnly);
    router.update_from_gossip(&vec![make_gossip_entry("peer-a", "db", "mesh", "full")]);
    let peers = router.route("db");
    assert_eq!(peers.len(), 1);
    assert_eq!(peers[0].sharing_status, MeshSharingStatus::Full);
}

#[test]
fn mesh_router_members_lists_all() {
    let mut router = MeshRouter::new("mesh");
    let entries = vec![
        make_gossip_entry("peer-a", "db1", "mesh", "full"),
        make_gossip_entry("peer-b", "db2", "mesh", "read_only"),
    ];
    router.update_from_gossip(&entries);
    assert_eq!(router.members().len(), 2);
}

#[test]
fn mesh_router_remove_stale() {
    let mut router = MeshRouter::new("mesh");
    let mut old_entry = make_gossip_entry("peer-old", "db", "mesh", "full");
    old_entry.last_seen = secs_before(now_ts(), 2 * 3600);
    router.update_from_gossip(&vec![old_entry]);
    router.update_from_gossip(&vec![make_gossip_entry("peer-new", "db2", "mesh", "full")]);
    router.remove_stale(secs_before(now_ts(), 3600));
    assert!(router.route("db").is_empty());
    assert_eq!(router.route("db2").len(), 1);
}

#[test]
fn unknown_sharing_status_is_private() {
    let mut router = MeshRouter::new("mesh");
    router.update_from_gossip(&vec![make_gossip_entry("peer-a", "db", "mesh", "bogus")]);
    assert_eq!(router.route("db")[0].sharing_status, MeshSharingStatus::Private);
}

#[test]
fn hmac_of_a_known_input() {
    let tag = compute_mesh_hmac("key", b"The quick brown fox jumps over the lazy dog");
    let hex: String = tag.iter().map(|b| format!("{:02x}", b)).collect();
    assert_eq!(hex, "f7bc83f430538424b13298e6aa6fb143ef4d59a14946175997479dbc2d1a3cd8");
    assert!(verify_mesh_hmac("key", b"The quick brown fox jumps over the lazy dog", &tag));
    assert!(!verify_mesh_hmac("key", b"The quick brown fox jumps over the lazy cat", &tag));
}

#[test]
fn routed_peers_stay_routed_after_later_gossip() {
    let mut router = MeshRouter::new("corp-mesh");
    router.update_from_gossip(&vec![make_gossip_entry("peer-a", "warehouse", "corp-mesh", "full")]);
    router.update_from_gossip(&vec![
        make_gossip_entry("peer-b", "warehouse", "corp-mesh", "read_only"),
        make_gossip_entry("peer-a", "warehouse", "corp-mesh", "private"),
        make_gossip_entry("peer-c", "warehouse", "other-mesh", "full"),
    ]);
    let ids: Vec<String> = router.route("warehouse").iter().map(|p| p.peer_id.clone()).collect();
    assert_eq!(ids, vec!["peer-a".to_string(), "peer-b".to_string()]);
    assert_eq!(router.route("warehouse")[0].sharing_status, MeshSharingStatus::Private);
}

#[test]
fn members_list_every_routed_peer_in_route_order() {
    let mut router = MeshRouter::new("corp-mesh");
    router.update_from_gossip(&vec![
        make_gossip_entry("peer-a", "warehouse", "corp-mesh", "full"),
        make_gossip_entry("peer-b", "analytics", "corp-mesh", "read_only"),
        make_gossip_entry("peer-c", "warehouse", "corp-mesh", "private"),
    ]);
    let mut members: Vec<(String, String, String)> = router
        .members()
        .into_iter()
        .map(|m| (m.database_name, m.peer_id, m.sharing_status))
        .collect();
    let warehouse: Vec<String> =
        members.iter().filter(|m| m.0 == "warehouse").map(|m| m.1.clone()).collect();
    assert_eq!(warehouse, vec!["peer-a".to_string(), "peer-c".to_string()]);
    members.sort();
    assert_eq!(
        members,
        vec![
            ("analytics".to_string(), "peer-b".to_string(), "read_only".to_string()),
            ("warehouse".to_string(), "peer-a".to_string(), "full".to_string()),
            ("warehouse".to_string(), "peer-c".to_string(), "private".to_string()),
        ]
    );
}

#[test]
fn batches_keep_their_items_in_each_mode() {
    let items = vec![(b"k1".to_vec(), Some(b"v1".to_vec())), (b"k2".to_vec(), None)];
    assert!(batch_items(&TreeMode::Mismatch, &items).unwrap().is_none());
    let plain = batch_items(&TreeMode::Plain, &items).unwrap().unwrap();
    assert_eq!(plain, items);
    let sealed = batch_items(&TreeMode::Encrypted([7u8; 32]), &items).unwrap().unwrap();
    assert_eq!(sealed.len(), 2);
    assert_eq!(sealed[0].0, b"k1".to_vec());
    assert_eq!(sealed[0].1.as_ref().unwrap().len(), 2 + 28);
    assert_eq!(sealed[1], (b"k2".to_vec(), None));
}
