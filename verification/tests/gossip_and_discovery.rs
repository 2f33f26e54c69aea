use nodedb::discovery::{mdns_endpoint, DiscoveryManager};
use nodedb::gossip::GossipManager;
use nodedb::wire::{DiscoverySource, GossipConfig, GossipPeerEntry, Timestamp};

fn now_ts() -> Timestamp {
    let d = chrono::Utc::now();
    Timestamp { secs: d.timestamp(), nanos: d.timestamp_subsec_nanos() }
}

fn secs_before(t: Timestamp, secs: i64) -> Timestamp {
    Timestamp { secs: t.secs - secs, nanos: t.nanos }
}

fn make_entry(peer_id: &str, ttl: u8) -> GossipPeerEntry {
    GossipPeerEntry {
        peer_id: peer_id.to_string(),
        endpoint: format!("wss://{}:9400", peer_id),
        status: "active".to_string(),
        last_seen: now_ts(),
        ttl,
        database_name: String::new(),
        mesh_name: String::new(),
        sharing_status: String::new(),
        schema_fingerprint: String::new(),
    }
}

fn manager() -> GossipManager {
    GossipManager::new(GossipConfig::default(), "self", "wss://127.0.0.1:9400", None)
}

#[test]
fn handle_gossip_adds_new_peers() {
    let mut discovery = DiscoveryManager::new("self", 9400);
    let mut mgr = manager();
    let entries = vec![make_entry("peer-a", 5), make_entry("peer-b", 3)];
    for (id, endpoint) in mgr.handle_gossip(entries) {
        discovery.add_gossip_peer(&id, &endpoint);
    }
    let known = mgr.known_peers();
    assert_eq!(known.len(), 2);
    for entry in &known {
        match entry.peer_id.as_str() {
            "peer-a" => assert_eq!(entry.ttl, 4),
            "peer-b" => assert_eq!(entry.ttl, 2),
            _ => panic!("unexpected peer"),
        }
    }
    assert_eq!(discovery.peer_count(), 2);
}

#[test]
fn handle_gossip_skips_self() {
    let mut mgr = manager();
    mgr.handle_gossip(vec![make_entry("self", 5)]);
    assert_eq!(mgr.known_peers().len(), 0);
}

#[test]
fn handle_gossip_discards_zero_ttl() {
    let mut mgr = manager();
    mgr.handle_gossip(vec![make_entry("peer-a", 0)]);
    assert_eq!(mgr.known_peers().len(), 0);
}

#[test]
fn handle_gossip_updates_with_newer() {
    let mut mgr = manager();
    let mut old = make_entry("peer-a", 5);
    old.last_seen = Timestamp { secs: 1_700_000_000, nanos: 5 };
    let old_seen = old.last_seen;
    mgr.handle_gossip(vec![old]);
    assert_eq!(mgr.known_peers()[0].ttl, 4);
    let mut newer = make_entry("peer-a", 3);
    newer.last_seen = Timestamp { secs: old_seen.secs, nanos: old_seen.nanos + 1 };
    newer.endpoint = "wss://updated:9400".to_string();
    mgr.handle_gossip(vec![newer]);
    let peers = mgr.known_peers();
    assert_eq!(peers.len(), 1);
    assert_eq!(peers[0].endpoint, "wss://updated:9400");
    assert_eq!(peers[0].ttl, 2);
}

#[test]
fn handle_gossip_ttl_1_becomes_0_and_stored() {
    let mut mgr = manager();
    mgr.handle_gossip(vec![make_entry("peer-a", 1)]);
    let peers = mgr.known_peers();
    assert_eq!(peers.len(), 1);
    assert_eq!(peers[0].ttl, 0);
}

#[test]
fn handle_gossip_keeps_newer_stored_entry() {
    let mut mgr = manager();
    let fresh = make_entry("peer-a", 5);
    let seen = fresh.last_seen;
    mgr.handle_gossip(vec![fresh]);
    let mut stale = make_entry("peer-a", 5);
    stale.last_seen = secs_before(seen, 1);
    stale.endpoint = "wss://stale:9400".to_string();
    let taken = mgr.handle_gossip(vec![stale]);
    assert!(taken.is_empty());
    assert_eq!(mgr.known_peers()[0].endpoint, "wss://peer-a:9400");
}

#[test]
fn seed_peer_resolution() {
    let mut mgr = DiscoveryManager::new("test-peer", 9400);
    mgr.add_seed_peers(&vec!["wss://192.168.1.10:9400".to_string(), "wss://192.168.1.11:9400".to_string()]);
    assert_eq!(mgr.peer_count(), 2);
    let peers = mgr.discovered_peers();
    assert!(peers.iter().all(|p| p.source == DiscoverySource::Seed));
    let p = mgr.get_peer("seed:wss://192.168.1.10:9400").unwrap();
    assert_eq!(p.endpoint, "wss://192.168.1.10:9400");
}

#[test]
fn gossip_peer_added() {
    let mut mgr = DiscoveryManager::new("my-peer", 9400);
    mgr.add_gossip_peer("other-peer", "wss://10.0.0.5:9400");
    assert_eq!(mgr.peer_count(), 1);
    let peer = mgr.get_peer("other-peer").unwrap();
    assert_eq!(peer.source, DiscoverySource::Gossip);
    assert_eq!(peer.endpoint, "wss://10.0.0.5:9400");
}

#[test]
fn self_not_added_via_gossip() {
    let mut mgr = DiscoveryManager::new("my-peer", 9400);
    mgr.add_gossip_peer("my-peer", "wss://127.0.0.1:9400");
    assert_eq!(mgr.peer_count(), 0);
}

#[test]
fn gossip_overwrites_existing() {
    let mut mgr = DiscoveryManager::new("my-peer", 9400);
    mgr.add_gossip_peer("other", "wss://10.0.0.1:9400");
    mgr.add_gossip_peer("other", "wss://10.0.0.2:9400");
    assert_eq!(mgr.peer_count(), 1);
    let peer = mgr.get_peer("other").unwrap();
    assert_eq!(peer.endpoint, "wss://10.0.0.2:9400");
}

#[test]
fn mdns_announcements() {
    let mut mgr = DiscoveryManager::new("my-peer", 9400);
    assert!(!mgr.add_mdns_peer("my-peer", Some("10.0.0.9"), 9400));
    assert!(!mgr.add_mdns_peer("", Some("10.0.0.9"), 9400));
    assert!(!mgr.add_mdns_peer("other", None, 9400));
    assert_eq!(mgr.peer_count(), 0);
    assert!(mgr.add_mdns_peer("other", Some("10.0.0.9"), 9401));
    let p = mgr.get_peer("other").unwrap();
    assert_eq!(p.endpoint, "wss://10.0.0.9:9401");
    assert_eq!(p.source, DiscoverySource::Mdns);
    assert_eq!(mdns_endpoint("::1", 0), "wss://::1:0");
}

#[test]
fn replayed_gossip_changes_nothing() {
    let mut mgr = manager();
    let entries = vec![make_entry("peer-a", 5), make_entry("peer-b", 2), make_entry("self", 3)];
    let replay: Vec<GossipPeerEntry> = entries.iter().cloned().collect();
    let first = mgr.handle_gossip(entries);
    assert_eq!(first.len(), 2);
    let before = mgr.known_peers().len();
    let second = mgr.handle_gossip(replay);
    assert!(second.is_empty());
    assert_eq!(mgr.known_peers().len(), before);
    assert!(mgr.known_peers().iter().all(|p| p.peer_id != "self"));
}

#[test]
fn gossip_orders_entries_below_the_millisecond() {
    let mut mgr = manager();
    let mut first = make_entry("peer-a", 5);
    first.last_seen = Timestamp { secs: 1_700_000_000, nanos: 1_000_100 };
    mgr.handle_gossip(vec![first]);
    // Same millisecond, earlier nanosecond: older, so not taken.
    let mut older = make_entry("peer-a", 5);
    older.last_seen = Timestamp { secs: 1_700_000_000, nanos: 1_000_050 };
    older.endpoint = "wss://older:9400".to_string();
    assert!(mgr.handle_gossip(vec![older]).is_empty());
    // Same millisecond, later nanosecond: newer, so taken.
    let mut later = make_entry("peer-a", 5);
    later.last_seen = Timestamp { secs: 1_700_000_000, nanos: 1_000_200 };
    later.endpoint = "wss://later:9400".to_string();
    assert_eq!(mgr.handle_gossip(vec![later]).len(), 1);
    assert_eq!(mgr.known_peers()[0].endpoint, "wss://later:9400");
    assert_eq!(mgr.known_peers()[0].last_seen, Timestamp { secs: 1_700_000_000, nanos: 1_000_200 });
}
