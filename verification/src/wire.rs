//! Transport data model: configuration, the wire envelope, gossip entries,
//! federated query envelopes and responses, sync payloads and errors.
//! Timestamps are milliseconds since the Unix epoch; a confidence is carried
//! as the bit pattern of its `f64`, which orders non-negative values as the
//! numbers do.

use vstd::prelude::*;
use crate::error::StorageError;
use crate::mesh::MeshConfig;

verus! {

/// An instant: seconds since the Unix epoch and nanoseconds within the second.
#[derive(Debug, Clone, Copy, PartialEq, Eq, Structural)]
pub struct Timestamp {
    pub secs: i64,
    pub nanos: u32,
}

/// Whether instant `a` comes before `b`.
pub open spec fn ts_before(a: Timestamp, b: Timestamp) -> bool {
    a.secs < b.secs || (a.secs == b.secs && a.nanos < b.nanos)
}

impl Timestamp {
    /// Whether this instant comes before `other`.
    pub fn before(&self, other: &Timestamp) -> (r: bool)
        ensures
            r == ts_before(*self, *other),
    {
        self.secs < other.secs || (self.secs == other.secs && self.nanos < other.nanos)
    }
}

/// Configuration for the transport layer.
#[derive(Debug, Clone)]
pub struct TransportConfig {
    pub storage_path: String,
    pub listen_addr: String,
    pub tls_cert_pem: Option<String>,
    pub tls_key_pem: Option<String>,
    pub seed_peers: Vec<String>,
    pub mdns_enabled: bool,
    pub gossip: GossipConfig,
    pub query_policy: FederatedQueryPolicy,
    /// Optional mesh configuration for database mesh networking.
    pub mesh: Option<MeshConfig>,
    /// Trusted peer public keys (hex-encoded). If non-empty, only peers whose
    /// peer_id matches a key in this set are accepted during handshake.
    pub trusted_peer_keys: Vec<String>,
    /// When true, unknown peers must go through the pairing approval flow.
    pub require_pairing: bool,
    /// This user's globally unique ID, exchanged during handshake.
    pub user_id: String,
    /// Human-readable device name sent to peers during handshake.
    pub device_name: String,
}

impl Default for TransportConfig {
    fn default() -> (r: Self)
        ensures
            r.storage_path@ == Seq::<char>::empty(),
            r.listen_addr@ == "0.0.0.0:9400"@,
            r.tls_cert_pem is None,
            r.tls_key_pem is None,
            r.seed_peers@.len() == 0,
            r.mdns_enabled,
            r.gossip.interval_seconds == 30,
            r.gossip.fan_out == 3,
            r.gossip.ttl == 5,
            r.query_policy == FederatedQueryPolicy::QueryPeersOnMiss,
            r.mesh is None,
            r.trusted_peer_keys@.len() == 0,
            !r.require_pairing,
            r.user_id@ == Seq::<char>::empty(),
            r.device_name@ == Seq::<char>::empty(),
    {
        TransportConfig {
            storage_path: String::new(),
            listen_addr: String::from_str("0.0.0.0:9400"),
            tls_cert_pem: None,
            tls_key_pem: None,
            seed_peers: Vec::new(),
            mdns_enabled: true,
            gossip: GossipConfig::default(),
            query_policy: FederatedQueryPolicy::QueryPeersOnMiss,
            mesh: None,
            trusted_peer_keys: Vec::new(),
            require_pairing: false,
            user_id: String::new(),
            device_name: String::new(),
        }
    }
}

/// Gossip timing and spread.
#[derive(Debug, Clone, Copy, PartialEq, Eq, Structural)]
pub struct GossipConfig {
    pub interval_seconds: u64,
    pub fan_out: usize,
    pub ttl: u8,
}

impl Default for GossipConfig {
    fn default() -> (r: Self)
        ensures
            r.interval_seconds == 30,
            r.fan_out == 3,
            r.ttl == 5,
    {
        GossipConfig { interval_seconds: 30, fan_out: 3, ttl: 5 }
    }
}

/// When queries are sent to peers.
#[derive(Debug, Clone, Copy, PartialEq, Eq, Structural)]
pub enum FederatedQueryPolicy {
    LocalOnly,
    QueryPeersOnMiss,
    QueryPeersAlways,
    QueryPeersExplicitly,
}

/// The wire protocol envelope for all messages between peers.
#[derive(Debug, Clone)]
pub struct WireMessage {
    pub version: u8,
    pub msg_id: String,
    pub msg_type: WireMessageType,
    pub sender_id: String,
    pub payload: Vec<u8>,
}

/// The kinds of wire messages.
#[derive(Debug, Clone, Copy, PartialEq, Eq, Structural)]
pub enum WireMessageType {
    Hello,
    HelloAck,
    GossipPeerList,
    QueryRequest,
    QueryResponse,
    Ping,
    Pong,
    TriggerNotification,
    PreferenceSync,
    SingletonSync,
}

/// The name of each message kind, as its debug form writes it.
pub open spec fn wire_message_type_name(t: WireMessageType) -> Seq<char> {
    match t {
        WireMessageType::Hello => "Hello"@,
        WireMessageType::HelloAck => "HelloAck"@,
        WireMessageType::GossipPeerList => "GossipPeerList"@,
        WireMessageType::QueryRequest => "QueryRequest"@,
        WireMessageType::QueryResponse => "QueryResponse"@,
        WireMessageType::Ping => "Ping"@,
        WireMessageType::Pong => "Pong"@,
        WireMessageType::TriggerNotification => "TriggerNotification"@,
        WireMessageType::PreferenceSync => "PreferenceSync"@,
        WireMessageType::SingletonSync => "SingletonSync"@,
    }
}

impl WireMessageType {
    /// The name of this message kind.
    pub fn name(&self) -> (r: &'static str)
        ensures
            r@ == wire_message_type_name(*self),
    {
        match self {
            WireMessageType::Hello => "Hello",
            WireMessageType::HelloAck => "HelloAck",
            WireMessageType::GossipPeerList => "GossipPeerList",
            WireMessageType::QueryRequest => "QueryRequest",
            WireMessageType::QueryResponse => "QueryResponse",
            WireMessageType::Ping => "Ping",
            WireMessageType::Pong => "Pong",
            WireMessageType::TriggerNotification => "TriggerNotification",
            WireMessageType::PreferenceSync => "PreferenceSync",
            WireMessageType::SingletonSync => "SingletonSync",
        }
    }
}

/// Gossip payload entry: peer topology metadata.
#[derive(Debug, Clone)]
pub struct GossipPeerEntry {
    pub peer_id: String,
    pub endpoint: String,
    pub status: String,
    /// When the peer was last seen (seconds since the epoch and nanoseconds).
    pub last_seen: Timestamp,
    pub ttl: u8,
    /// Database name for mesh routing (empty if not in a mesh).
    pub database_name: String,
    /// Mesh name this peer belongs to (empty if not in a mesh).
    pub mesh_name: String,
    /// Sharing status as text (empty if not in a mesh).
    pub sharing_status: String,
    /// Schema fingerprint.
    pub schema_fingerprint: String,
}

impl GossipPeerEntry {
    /// A copy of this entry.
    pub fn duplicate(&self) -> (r: GossipPeerEntry)
        ensures
            r == *self,
    {
        GossipPeerEntry {
            peer_id: self.peer_id.clone(),
            endpoint: self.endpoint.clone(),
            status: self.status.clone(),
            last_seen: self.last_seen,
            ttl: self.ttl,
            database_name: self.database_name.clone(),
            mesh_name: self.mesh_name.clone(),
            sharing_status: self.sharing_status.clone(),
            schema_fingerprint: self.schema_fingerprint.clone(),
        }
    }
}

/// Per-peer credential stored in memory only.
#[derive(Debug, Clone)]
pub enum PeerCredential {
    BearerToken(String),
    MtlsCert(Vec<u8>),
    Custom(Vec<u8>),
}

/// Answer of the peer acceptance policy.
#[derive(Debug, Clone, Copy, PartialEq, Eq, Structural)]
pub enum PeerAcceptance {
    Accept,
    Reject,
}

/// Source of peer discovery.
#[derive(Debug, Clone, Copy, PartialEq, Eq, Structural)]
pub enum DiscoverySource {
    Mdns,
    Seed,
    Gossip,
}

/// A discovered peer (before connection).
#[derive(Debug, Clone)]
pub struct DiscoveredPeer {
    pub peer_id: String,
    pub endpoint: String,
    pub source: DiscoverySource,
    /// When the peer was discovered (seconds since the epoch and nanoseconds).
    pub discovered_at: Timestamp,
}

/// Audit log entry for outbound shares.
#[derive(Debug, Clone)]
pub struct NodeShareAuditEntry {
    pub id: i64,
    /// Seconds since the epoch and nanoseconds.
    pub timestamp: Timestamp,
    pub peer_id: String,
    pub action: String,
    pub collection: Option<String>,
    pub record_count: u64,
    pub content_hash: String,
}

/// Structured envelope for federated query requests.
#[derive(Debug, Clone)]
pub struct FederatedQueryEnvelope {
    pub query_type: String,
    pub query_id: String,
    pub origin_peer_id: String,
    pub ttl: u8,
    pub query_data: Vec<u8>,
    /// Peer IDs already visited by this query (loop prevention in multi-hop).
    pub visited: Vec<String>,
}

/// Configuration for bounded multi-hop search.
#[derive(Debug, Clone, Copy, PartialEq, Eq, Structural)]
pub struct SearchConfig {
    /// Maximum hop depth for federated queries.
    pub max_depth: u8,
    /// Overall timeout in seconds for the originator.
    pub timeout_secs: u64,
}

impl Default for SearchConfig {
    fn default() -> (r: Self)
        ensures
            r.max_depth == 3,
            r.timeout_secs == 10,
    {
        SearchConfig { max_depth: 3, timeout_secs: 10 }
    }
}

/// Payload for cross-database trigger notifications.
#[derive(Debug, Clone)]
pub struct TriggerNotificationPayload {
    pub source_database: String,
    /// The collection that was modified (qualified name).
    pub collection: String,
    /// The event type: "insert", "update", "delete".
    pub event: String,
    /// The old record (serialized document, none for inserts).
    pub old_record: Option<Vec<u8>>,
    /// The new record (serialized document, none for deletes).
    pub new_record: Option<Vec<u8>>,
}

/// Payload for preference sync between mesh peers.
#[derive(Debug, Clone)]
pub struct PreferenceSyncPayload {
    pub source_database: String,
    pub preference_store: String,
    pub key: String,
    pub encrypted_value: Vec<u8>,
    pub value_type: String,
    /// Milliseconds since the epoch.
    pub updated_at: i64,
    pub conflict_resolution: String,
    /// Optional confidence, as the bit pattern of its `f64`.
    pub confidence: Option<u64>,
}

/// Payload for singleton sync between mesh peers.
#[derive(Debug, Clone)]
pub struct SingletonSyncPayload {
    pub source_database: String,
    pub collection: String,
    pub record_data: Vec<u8>,
    /// Milliseconds since the epoch.
    pub updated_at: i64,
    pub conflict_resolution: String,
}

/// Structured response for federated queries.
#[derive(Debug, Clone)]
pub struct FederatedQueryResponse {
    pub query_id: String,
    pub responder_peer_id: String,
    pub success: bool,
    pub result_data: Vec<u8>,
    pub error_message: Option<String>,
}

/// A TLS certificate and its key, in PEM and DER form.
#[derive(Debug, Clone)]
pub struct TlsCertKey {
    pub cert_pem: String,
    pub key_pem: String,
    pub cert_der: Vec<u8>,
    pub key_der: Vec<u8>,
}

/// Errors of the transport layer.
#[derive(Debug)]
pub enum TransportError {
    Connection(String),
    Tls(String),
    WebSocket(String),
    Handshake(String),
    PeerRejected(String),
    Send(String),
    Receive(String),
    Serialization(String),
    Crypto(String),
    Federation(String),
    Storage(StorageError),
    Timeout(String),
    Discovery(String),
    Gossip(String),
    Audit(String),
    PeerNotConnected(String),
    Mesh(String),
    PairingRequired(String),
    Pairing(String),
    PairingVerificationFailed(String),
    Shutdown,
}

} // verus!
