//! The peer handshake and device pairing: the Hello / HelloAck payloads, the
//! checks each side makes, how the acceptor decides, and the pairing records.
//! Signatures, key exchange, the socket and the encoding are the caller's.

use vstd::prelude::*;
use vstd::string::StringExecFns;
use vstd::string::StrSliceExecFns;
use crate::value::bytes_eq;
use crate::text::str_eq;
use crate::federation::{new_uuid_text, uuid_v4_text};
use crate::wire::{PeerAcceptance, Timestamp, TransportError, WireMessage, WireMessageType, wire_message_type_name};

verus! {

/// Hello payload sent by the initiator.
#[derive(Debug, Clone)]
pub struct HelloPayload {
    pub peer_id: String,
    pub public_key_bytes: Vec<u8>,
    pub endpoint: String,
    /// Random nonce for the key-ownership proof. Empty for legacy peers.
    pub nonce: Vec<u8>,
    /// Signature of the nonce. Empty for legacy peers.
    pub signature: Vec<u8>,
    /// User id of the connecting user. Empty for legacy peers.
    pub user_id: String,
    /// Human-readable device name. Empty for legacy peers.
    pub device_name: String,
}

/// HelloAck payload sent by the acceptor.
#[derive(Debug, Clone)]
pub struct HelloAckPayload {
    pub peer_id: String,
    pub public_key_bytes: Vec<u8>,
    pub accepted: bool,
    /// Random nonce for the key-ownership proof. Empty for legacy peers.
    pub nonce: Vec<u8>,
    /// Signature of the nonce. Empty for legacy peers.
    pub signature: Vec<u8>,
    /// User id of the accepting user. Empty for legacy peers.
    pub user_id: String,
    /// Human-readable device name. Empty for legacy peers.
    pub device_name: String,
    /// Whether this is a new pairing request that needs user confirmation.
    pub pairing_required: bool,
}

/// Whether a payload carries a key-ownership proof that must be checked: both
/// the nonce and the signature are present (legacy peers send neither).
pub fn carries_key_proof(nonce: &Vec<u8>, signature: &Vec<u8>) -> (r: bool)
    ensures
        r == (nonce@.len() > 0 && signature@.len() > 0),
{
    nonce.len() > 0 && signature.len() > 0
}

/// The text of a wrong-message error: `expected X, got Y`.
pub open spec fn spec_unexpected_text(expected: WireMessageType, actual: WireMessageType) -> Seq<char> {
    "expected "@ + wire_message_type_name(expected) + ", got "@ + wire_message_type_name(actual)
}

/// Checks that a handshake message has the expected kind.
pub fn expect_message(actual: WireMessageType, expected: WireMessageType) -> (r: Result<(), TransportError>)
    ensures
        actual == expected ==> r is Ok,
        actual != expected ==> (r matches Err(TransportError::Handshake(m)) && m@ == spec_unexpected_text(
            expected,
            actual,
        )),
{
    if actual == expected {
        Ok(())
    } else {
        let mut m = String::from_str("expected ");
        m.append(expected.name());
        m.append(", got ");
        m.append(actual.name());
        proof {
            reveal_strlit("expected ");
            reveal_strlit(", got ");
        }
        Err(TransportError::Handshake(m))
    }
}

/// A handshake message (Hello or HelloAck) from `me`, under a fresh random id.
pub fn handshake_message(kind: WireMessageType, me: &str, payload: Vec<u8>) -> (r: WireMessage)
    ensures
        r.version == 1,
        uuid_v4_text(r.msg_id@),
        r.msg_type == kind,
        r.sender_id@ == me@,
        r.payload == payload,
{
    WireMessage { version: 1, msg_id: new_uuid_text(), msg_type: kind, sender_id: String::from_str(me), payload }
}

/// The initiator's check of a HelloAck: a pairing request comes first, then a
/// refusal; either ends the handshake with the acceptor's id.
pub fn check_hello_ack(ack: &HelloAckPayload) -> (r: Result<(), TransportError>)
    ensures
        ack.pairing_required ==> (r matches Err(TransportError::PairingRequired(p)) && p@ == ack.peer_id@),
        !ack.pairing_required && !ack.accepted ==> (r matches Err(TransportError::PeerRejected(p)) && p@
            == ack.peer_id@),
        !ack.pairing_required && ack.accepted ==> r is Ok,
{
    if ack.pairing_required {
        Err(TransportError::PairingRequired(ack.peer_id.clone()))
    } else if !ack.accepted {
        Err(TransportError::PeerRejected(ack.peer_id.clone()))
    } else {
        Ok(())
    }
}

/// The acceptor's decision, as (accepted, pairing required). `paired` is
/// whether the peer is paired when a pairing store is in use (none without
/// one); `credential` is the credential store's answer. A paired peer is
/// accepted; an unpaired one must pair; without a pairing store the
/// credential store decides.
pub fn acceptor_decision(paired: Option<bool>, credential: PeerAcceptance) -> (r: (bool, bool))
    ensures
        paired == Some(true) ==> r == (true, false),
        paired == Some(false) ==> r == (false, true),
        paired is None ==> r == (credential == PeerAcceptance::Accept, false),
{
    match paired {
        Some(true) => (true, false),
        Some(false) => (false, true),
        None => (credential == PeerAcceptance::Accept, false),
    }
}

/// How the acceptor's handshake ends after the HelloAck is sent.
pub fn acceptor_outcome(accepted: bool, pairing_required: bool, peer_id: &str) -> (r: Result<(), TransportError>)
    ensures
        pairing_required ==> (r matches Err(TransportError::PairingRequired(p)) && p@ == peer_id@),
        !pairing_required && !accepted ==> (r matches Err(TransportError::PeerRejected(p)) && p@ == peer_id@),
        !pairing_required && accepted ==> r is Ok,
{
    if pairing_required {
        Err(TransportError::PairingRequired(String::from_str(peer_id)))
    } else if !accepted {
        Err(TransportError::PeerRejected(String::from_str(peer_id)))
    } else {
        Ok(())
    }
}

/// A persistently stored pairing record for an approved device.
#[derive(Debug, Clone)]
pub struct PairingRecord {
    pub peer_id: String,
    pub public_key_bytes: Vec<u8>,
    pub user_id: String,
    pub device_name: String,
    /// When the pairing was approved (seconds since the epoch and nanoseconds).
    pub paired_at: Timestamp,
    /// When this peer was last verified (seconds since the epoch and nanoseconds).
    pub last_verified_at: Timestamp,
}

/// A pending pairing request (lives only in memory).
#[derive(Debug, Clone)]
pub struct PendingPairingRequest {
    pub peer_id: String,
    pub public_key_bytes: Vec<u8>,
    pub user_id: String,
    pub device_name: String,
    pub endpoint: String,
    /// Seconds since the epoch and nanoseconds.
    pub received_at: Timestamp,
}

/// The pending request that a Hello from an unknown peer opens at time `now`.
pub fn pending_request_of(hello: &HelloPayload, now: Timestamp) -> (r: PendingPairingRequest)
    ensures
        r.peer_id@ == hello.peer_id@,
        r.public_key_bytes@ == hello.public_key_bytes@,
        r.user_id@ == hello.user_id@,
        r.device_name@ == hello.device_name@,
        r.endpoint@ == hello.endpoint@,
        r.received_at == now,
{
    PendingPairingRequest {
        peer_id: hello.peer_id.clone(),
        public_key_bytes: hello.public_key_bytes.clone(),
        user_id: hello.user_id.clone(),
        device_name: hello.device_name.clone(),
        endpoint: hello.endpoint.clone(),
        received_at: now,
    }
}

/// The record an approved request becomes at time `now`: paired and verified now.
pub fn approved_record(request: PendingPairingRequest, now: Timestamp) -> (r: PairingRecord)
    ensures
        r.peer_id == request.peer_id,
        r.public_key_bytes == request.public_key_bytes,
        r.user_id == request.user_id,
        r.device_name == request.device_name,
        r.paired_at == now,
        r.last_verified_at == now,
{
    PairingRecord {
        peer_id: request.peer_id,
        public_key_bytes: request.public_key_bytes,
        user_id: request.user_id,
        device_name: request.device_name,
        paired_at: now,
        last_verified_at: now,
    }
}

/// The record of a device registered directly at time `now`.
pub fn device_record(peer_id: &str, public_key_bytes: &Vec<u8>, user_id: &str, device_name: &str, now: Timestamp) -> (r: PairingRecord)
    ensures
        r.peer_id@ == peer_id@,
        r.public_key_bytes@ == public_key_bytes@,
        r.user_id@ == user_id@,
        r.device_name@ == device_name@,
        r.paired_at == now,
        r.last_verified_at == now,
{
    PairingRecord {
        peer_id: String::from_str(peer_id),
        public_key_bytes: public_key_bytes.clone(),
        user_id: String::from_str(user_id),
        device_name: String::from_str(device_name),
        paired_at: now,
        last_verified_at: now,
    }
}

/// How a reconnecting peer is checked against its stored record: no record
/// gives `false`; a different public key, or two non-empty user ids that
/// differ, fail verification; otherwise `true`.
pub open spec fn spec_verify_reconnect(
    record: Option<PairingRecord>,
    peer_id: Seq<char>,
    key: Seq<u8>,
    user_id: Seq<char>,
    r: Result<bool, TransportError>,
) -> bool {
    match record {
        None => (r matches Ok(b) && !b),
        Some(rec) => if rec.public_key_bytes@ != key {
            r matches Err(TransportError::PairingVerificationFailed(m)) && m@ == "public key mismatch for peer "@
                + peer_id
        } else if user_id.len() > 0 && rec.user_id@.len() > 0 && rec.user_id@ != user_id {
            r matches Err(TransportError::PairingVerificationFailed(m)) && m@ == "user_id mismatch for peer "@
                + peer_id
        } else {
            (r matches Ok(b) && b)
        },
    }
}

/// Checks a reconnecting peer against its stored pairing record (none where
/// the peer is not paired).
pub fn verify_reconnect(
    record: Option<&PairingRecord>,
    peer_id: &str,
    public_key_bytes: &Vec<u8>,
    user_id: &str,
) -> (r: Result<bool, TransportError>)
    ensures
        spec_verify_reconnect(
            match record {
                Some(x) => Some(*x),
                None => None,
            },
            peer_id@,
            public_key_bytes@,
            user_id@,
            r,
        ),
{
    match record {
        None => Ok(false),
        Some(rec) => {
            if !bytes_eq(&rec.public_key_bytes, public_key_bytes) {
                let mut m = String::from_str("public key mismatch for peer ");
                m.append(peer_id);
                return Err(TransportError::PairingVerificationFailed(m));
            }
            let user_len = user_id.unicode_len();
            let rec_len = rec.user_id.as_str().unicode_len();
            if user_len > 0 && rec_len > 0 && !str_eq(rec.user_id.as_str(), user_id) {
                let mut m = String::from_str("user_id mismatch for peer ");
                m.append(peer_id);
                return Err(TransportError::PairingVerificationFailed(m));
            }
            Ok(true)
        },
    }
}

/// The record after a successful verification at time `now`.
pub fn touched(record: PairingRecord, now: Timestamp) -> (r: PairingRecord)
    ensures
        r == (PairingRecord { last_verified_at: now, ..record }),
{
    let mut record = record;
    record.last_verified_at = now;
    record
}

} // verus!
