use nodedb::federation::{
    build_response, dispatch, forward_targets, listen_port, plan_query_request, pong_reply, query_targets,
    remote_successes, response_route, trusted_acceptance, DispatchAction, QueryStep, ResponseRoute,
};
use nodedb::handshake::{handshake_message, verify_reconnect, PairingRecord};
use nodedb::mesh::MeshSharingStatus;
use nodedb::query_handler::{default_merge, QueryHandler};
use nodedb::wire::{
    FederatedQueryEnvelope, FederatedQueryPolicy, FederatedQueryResponse, PeerAcceptance, Timestamp, TransportError,
    WireMessage, WireMessageType,
};

struct StubHandler;

impl QueryHandler for StubHandler {
    fn handle_query(&self, _query_type: &str, _query_data: &[u8], _origin_peer_id: &str) -> Result<Vec<u8>, TransportError> {
        Ok(vec![])
    }
}

#[test]
fn default_merge_returns_local_if_nonempty() {
    let handler = StubHandler;
    let result = handler.merge_results("nosql", vec![1, 2, 3], vec![vec![4, 5]]);
    assert_eq!(result, vec![1, 2, 3]);
}

#[test]
fn default_merge_returns_first_remote_if_local_empty() {
    let handler = StubHandler;
    let result = handler.merge_results("nosql", vec![], vec![vec![], vec![7, 8]]);
    assert_eq!(result, vec![7, 8]);
}

#[test]
fn default_merge_returns_empty_if_all_empty() {
    let handler = StubHandler;
    let result = handler.merge_results("nosql", vec![], vec![vec![], vec![]]);
    assert!(result.is_empty());
}

#[test]
fn default_merge_returns_empty_with_no_remotes() {
    let handler = StubHandler;
    let result = handler.merge_results("nosql", vec![], vec![]);
    assert!(result.is_empty());
}

#[test]
fn default_merge_takes_the_first_of_several_remotes() {
    assert_eq!(default_merge(vec![], vec![vec![], vec![1], vec![2]]), vec![1]);
}

fn request() -> WireMessage {
    WireMessage {
        version: 1,
        msg_id: "req-123".to_string(),
        msg_type: WireMessageType::QueryRequest,
        sender_id: "peer-a".to_string(),
        payload: vec![],
    }
}

#[test]
fn build_response_matches_msg_id() {
    let response = build_response(&request(), "self", vec![42]);
    assert_eq!(response.msg_id, "req-123");
    assert_eq!(response.msg_type, WireMessageType::QueryResponse);
    assert_eq!(response.payload, vec![42]);
    assert_eq!(response.sender_id, "self");
}

#[test]
fn local_only_returns_none() {
    assert!(query_targets(FederatedQueryPolicy::LocalOnly, vec!["peer-a".to_string()]).is_none());
}

#[test]
fn no_peers_returns_none() {
    assert!(query_targets(FederatedQueryPolicy::QueryPeersAlways, vec![]).is_none());
}

#[test]
fn query_all_local_only_returns_empty() {
    let targets = query_targets(FederatedQueryPolicy::LocalOnly, vec![]).unwrap_or_default();
    assert!(targets.is_empty());
}

#[test]
fn query_all_no_peers_returns_empty() {
    let targets = query_targets(FederatedQueryPolicy::QueryPeersAlways, vec![]).unwrap_or_default();
    assert!(targets.is_empty());
}

#[test]
fn forward_query_no_peers_returns_empty() {
    assert!(forward_targets(&vec![], &vec![]).is_empty());
}

#[test]
fn forward_query_all_excluded_returns_empty() {
    let connected = vec!["peer-a".to_string()];
    assert!(forward_targets(&connected, &vec!["peer-a".to_string()]).is_empty());
}

#[test]
fn forward_query_keeps_order_of_remaining_peers() {
    let connected = vec!["a".to_string(), "b".to_string(), "c".to_string()];
    assert_eq!(forward_targets(&connected, &vec!["b".to_string()]), vec!["a", "c"]);
}

#[test]
fn query_targets_with_peers() {
    let peers = vec!["a".to_string()];
    assert_eq!(query_targets(FederatedQueryPolicy::QueryPeersOnMiss, peers), Some(vec!["a".to_string()]));
}

#[test]
fn response_routing() {
    assert_eq!(response_route(true, true), ResponseRoute::Single);
    assert_eq!(response_route(false, true), ResponseRoute::Multi);
    assert_eq!(response_route(false, false), ResponseRoute::Unmatched);
}

#[test]
fn dispatch_by_message_kind() {
    assert_eq!(dispatch(WireMessageType::Ping, false), DispatchAction::ReplyPong);
    assert_eq!(dispatch(WireMessageType::GossipPeerList, false), DispatchAction::HandleGossip);
    assert_eq!(dispatch(WireMessageType::TriggerNotification, false), DispatchAction::Ignore);
    assert_eq!(dispatch(WireMessageType::TriggerNotification, true), DispatchAction::NotifyTrigger);
    assert_eq!(dispatch(WireMessageType::Hello, true), DispatchAction::Ignore);
}

#[test]
fn pong_answers_ping() {
    let mut ping = request();
    ping.msg_type = WireMessageType::Ping;
    let pong = pong_reply(&ping);
    assert_eq!(pong.msg_id, "req-123");
    assert_eq!(pong.msg_type, WireMessageType::Pong);
    assert!(pong.sender_id.is_empty());
    assert!(pong.payload.is_empty());
}

#[test]
fn listen_port_parsing() {
    assert_eq!(listen_port("0.0.0.0:9500"), 9500);
    assert_eq!(listen_port("[::1]:80"), 80);
    assert_eq!(listen_port("localhost"), 9400);
    assert_eq!(listen_port("host:70000"), 9400);
}

#[test]
fn trusted_keys_decide_acceptance() {
    let keys = vec!["abc".to_string()];
    assert_eq!(trusted_acceptance(&keys, "abc"), PeerAcceptance::Accept);
    assert_eq!(trusted_acceptance(&keys, "ABC"), PeerAcceptance::Reject);
}

fn envelope(ttl: u8, visited: Vec<String>) -> FederatedQueryEnvelope {
    FederatedQueryEnvelope {
        query_id: "q1".to_string(),
        origin_peer_id: "origin".to_string(),
        query_type: "nosql".to_string(),
        query_data: vec![1],
        ttl,
        visited,
    }
}

#[test]
fn query_request_rules() {
    assert!(matches!(plan_query_request(false, None, Some(envelope(2, vec![])), "me"), QueryStep::Drop));
    assert!(matches!(plan_query_request(true, None, None, "me"), QueryStep::Drop));
    match plan_query_request(true, Some(MeshSharingStatus::Private), Some(envelope(2, vec![])), "me") {
        QueryStep::Respond(r) => assert!(r.success && r.result_data.is_empty() && r.query_id == "q1"),
        other => panic!("unexpected {:?}", other),
    }
    match plan_query_request(true, None, Some(envelope(2, vec!["me".to_string()])), "me") {
        QueryStep::Respond(r) => assert!(r.success && r.error_message.is_none()),
        other => panic!("unexpected {:?}", other),
    }
    match plan_query_request(true, None, Some(envelope(0, vec![])), "me") {
        QueryStep::Respond(r) => {
            assert!(!r.success);
            assert_eq!(r.error_message, Some("TTL expired".to_string()));
        }
        other => panic!("unexpected {:?}", other),
    }
    match plan_query_request(true, Some(MeshSharingStatus::Full), Some(envelope(2, vec!["x".to_string()])), "me") {
        QueryStep::Execute { envelope, forward } => {
            assert_eq!(envelope.ttl, 1);
            assert!(forward);
            assert_eq!(envelope.visited, vec!["x".to_string(), "me".to_string()]);
        }
        other => panic!("unexpected {:?}", other),
    }
    match plan_query_request(true, None, Some(envelope(1, vec![])), "me") {
        QueryStep::Execute { envelope, forward } => {
            assert_eq!(envelope.ttl, 0);
            assert!(!forward);
        }
        other => panic!("unexpected {:?}", other),
    }
}

#[test]
fn successful_remote_answers_only() {
    let ok = FederatedQueryResponse {
        query_id: "q".to_string(),
        responder_peer_id: "a".to_string(),
        success: true,
        result_data: vec![5],
        error_message: None,
    };
    let failed = FederatedQueryResponse { success: false, result_data: vec![6], ..ok.clone() };
    assert_eq!(remote_successes(vec![Some(ok), None, Some(failed)]), vec![vec![5]]);
}

fn record(user_id: &str) -> PairingRecord {
    PairingRecord {
        peer_id: "peer-v".to_string(),
        public_key_bytes: vec![1, 2, 3, 4],
        user_id: user_id.to_string(),
        device_name: "Test Device".to_string(),
        paired_at: Timestamp { secs: 0, nanos: 0 },
        last_verified_at: Timestamp { secs: 0, nanos: 0 },
    }
}

#[test]
fn verify_reconnect_success() {
    let rec = record("user-v");
    assert!(verify_reconnect(Some(&rec), "peer-v", &vec![1, 2, 3, 4], "user-v").unwrap());
}

#[test]
fn verify_reconnect_wrong_user_id() {
    let rec = record("user-correct");
    let result = verify_reconnect(Some(&rec), "peer-u", &vec![1, 2, 3, 4], "user-wrong");
    assert!(matches!(result, Err(TransportError::PairingVerificationFailed(m)) if m == "user_id mismatch for peer peer-u"));
}

#[test]
fn verify_reconnect_wrong_key() {
    let rec = record("user-k");
    let result = verify_reconnect(Some(&rec), "peer-k", &vec![9, 9, 9, 9], "user-k");
    assert!(matches!(result, Err(TransportError::PairingVerificationFailed(m)) if m == "public key mismatch for peer peer-k"));
}

#[test]
fn verify_reconnect_unpaired_and_empty_user() {
    assert!(!verify_reconnect(None, "p", &vec![1], "u").unwrap());
    let rec = record("user-v");
    assert!(verify_reconnect(Some(&rec), "peer-v", &vec![1, 2, 3, 4], "").unwrap());
}

#[test]
fn handshake_messages_carry_their_kind_and_sender() {
    let a = handshake_message(WireMessageType::Hello, "peer1", vec![1, 2]);
    let b = handshake_message(WireMessageType::Hello, "peer1", vec![1, 2]);
    assert_eq!(a.version, 1);
    assert_eq!(a.msg_type, WireMessageType::Hello);
    assert_eq!(a.sender_id, "peer1");
    assert_eq!(a.payload, vec![1, 2]);
    assert_eq!(a.msg_id.len(), 36);
    let chars: Vec<char> = a.msg_id.chars().collect();
    for (i, c) in chars.iter().enumerate() {
        if [8, 13, 18, 23].contains(&i) {
            assert_eq!(*c, '-');
        } else {
            assert!(c.is_ascii_hexdigit() && !c.is_ascii_uppercase());
        }
    }
    assert_eq!(chars[14], '4');
    assert!(['8', '9', 'a', 'b'].contains(&chars[19]));
    assert_ne!(a.msg_id, b.msg_id);
}
