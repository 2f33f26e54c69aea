use nodedb::frame::{frame_body, frame_message};
use nodedb::wire::{TransportError, WireMessageType};

#[test]
fn decode_empty_fails() {
    assert!(matches!(frame_body(&[]), Err(TransportError::Receive(m)) if m == "empty message"));
}

#[test]
fn frame_roundtrip() {
    let framed = frame_message(1, &[0x93, 1, 2]);
    assert_eq!(framed, vec![1, 0x93, 1, 2]);
    assert_eq!(frame_body(&framed).unwrap(), vec![0x93, 1, 2]);
    assert_eq!(frame_body(&[7]).unwrap(), Vec::<u8>::new());
}

#[test]
fn wire_message_type_names() {
    let all = [
        WireMessageType::Hello,
        WireMessageType::HelloAck,
        WireMessageType::GossipPeerList,
        WireMessageType::QueryRequest,
        WireMessageType::QueryResponse,
        WireMessageType::Ping,
        WireMessageType::Pong,
        WireMessageType::TriggerNotification,
        WireMessageType::PreferenceSync,
        WireMessageType::SingletonSync,
    ];
    let names: Vec<&str> = all.iter().map(|t| t.name()).collect();
    assert_eq!(names, vec![
        "Hello", "HelloAck", "GossipPeerList", "QueryRequest", "QueryResponse", "Ping", "Pong",
        "TriggerNotification", "PreferenceSync", "SingletonSync",
    ]);
}
