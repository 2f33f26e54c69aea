//! Decisions of the transport engine: how an inbound federated query is
//! answered, how an inbound message is dispatched, how the engine is set up
//! from its configuration, and how a targeted mesh query is addressed.
//! The network, the local query handler and the encoding of messages are the
//! caller's; these functions take what they produced and say what comes next.

use vstd::prelude::*;
use vstd::string::StringExecFns;
use crate::document::{parse_index, parse_index_text};
use crate::mesh::{MeshConfig, MeshPeerInfo, MeshSharingStatus, MeshStatus, mesh_sharing_status_name};
use crate::text::{chars_of, lowercase, str_eq, string_from_range, to_lowercase};
use crate::wire::{FederatedQueryPolicy, FederatedQueryEnvelope, FederatedQueryResponse, PeerAcceptance, TransportConfig, WireMessage, WireMessageType};

verus! {

/// Whether a list of texts holds `s`.
pub open spec fn texts_contain(v: Seq<String>, s: Seq<char>) -> bool {
    exists|i: int| 0 <= i < v.len() && (#[trigger] v[i])@ == s
}

/// Whether `r` is the response with these fields.
pub open spec fn response_is(
    r: FederatedQueryResponse,
    query_id: Seq<char>,
    responder: Seq<char>,
    success: bool,
    data: Seq<u8>,
    error: Option<Seq<char>>,
) -> bool {
    &&& r.query_id@ == query_id
    &&& r.responder_peer_id@ == responder
    &&& r.success == success
    &&& r.result_data@ == data
    &&& match (r.error_message, error) {
        (None, None) => true,
        (Some(a), Some(b)) => a@ == b,
        _ => false,
    }
}

/// Builds a query response.
pub fn query_response(
    query_id: String,
    responder: &str,
    success: bool,
    data: Vec<u8>,
    error: Option<String>,
) -> (r: FederatedQueryResponse)
    ensures
        r.query_id == query_id,
        r.responder_peer_id@ == responder@,
        r.success == success,
        r.result_data == data,
        r.error_message == error,
{
    FederatedQueryResponse {
        query_id,
        responder_peer_id: String::from_str(responder),
        success,
        result_data: data,
        error_message: error,
    }
}

/// What a node does with an inbound query request.
#[derive(Debug)]
pub enum QueryStep {
    /// Nothing is sent back.
    Drop,
    /// This response is sent back at once.
    Respond(FederatedQueryResponse),
    /// The query runs locally with the updated envelope; when `forward` holds,
    /// the envelope also goes on to the peers it has not visited.
    Execute { envelope: FederatedQueryEnvelope, forward: bool },
}

/// How a node answers an inbound query request: the rules on sharing status,
/// visited peers and time to live, in that order.
pub open spec fn spec_plan_query_request(
    has_handler: bool,
    sharing: Option<MeshSharingStatus>,
    envelope: Option<FederatedQueryEnvelope>,
    me: Seq<char>,
    r: QueryStep,
) -> bool {
    if !has_handler {
        r is Drop
    } else if sharing == Some(MeshSharingStatus::Private) {
        match envelope {
            None => r is Drop,
            Some(e) => r matches QueryStep::Respond(resp) && response_is(
                resp,
                e.query_id@,
                me,
                true,
                Seq::empty(),
                None,
            ),
        }
    } else {
        match envelope {
            None => r is Drop,
            Some(e) => if texts_contain(e.visited@, me) {
                r matches QueryStep::Respond(resp) && response_is(
                    resp,
                    e.query_id@,
                    me,
                    true,
                    Seq::empty(),
                    None,
                )
            } else if e.ttl == 0 {
                r matches QueryStep::Respond(resp) && response_is(
                    resp,
                    e.query_id@,
                    me,
                    false,
                    Seq::empty(),
                    Some("TTL expired"@),
                )
            } else {
                r matches QueryStep::Execute { envelope: e2, forward } && {
                    &&& e2.ttl == e.ttl - 1
                    &&& forward == (e.ttl - 1 > 0)
                    &&& e2.visited@.len() == e.visited@.len() + 1
                    &&& e2.visited@.drop_last() == e.visited@
                    &&& e2.visited@.last()@ == me
                    &&& e2.query_type == e.query_type
                    &&& e2.query_id == e.query_id
                    &&& e2.origin_peer_id == e.origin_peer_id
                    &&& e2.query_data == e.query_data
                }
            },
        }
    }
}

/// Whether a list of texts holds `s`, computed.
pub fn contains_text(v: &Vec<String>, s: &str) -> (r: bool)
    ensures
        r == texts_contain(v@, s@),
{
    let mut i: usize = 0;
    while i < v.len()
        invariant
            i <= v.len(),
            forall|j: int| 0 <= j < i ==> (#[trigger] v@[j])@ != s@,
        decreases v.len() - i,
    {
        if str_eq(v[i].as_str(), s) {
            return true;
        }
        i = i + 1;
    }
    false
}

/// The position of the first text equal to `s`, if any.
pub fn index_of_text(v: &Vec<String>, s: &str) -> (r: Option<usize>)
    ensures
        match r {
            Some(i) => i < v@.len() && v@[i as int]@ == s@ && forall|j: int| 0 <= j < i ==> (#[trigger] v@[j])@ != s@,
            None => !texts_contain(v@, s@),
        },
{
    let mut i: usize = 0;
    while i < v.len()
        invariant
            i <= v.len(),
            forall|j: int| 0 <= j < i ==> (#[trigger] v@[j])@ != s@,
        decreases v.len() - i,
    {
        if str_eq(v[i].as_str(), s) {
            return Some(i);
        }
        i = i + 1;
    }
    None
}

/// Plans the answer to an inbound query request. `has_handler` says if a
/// local query handler is configured, `sharing` is this database's mesh
/// sharing status (none outside a mesh), `envelope` the decoded request
/// (none where it could not be decoded) and `me` this node's peer id.
pub fn plan_query_request(
    has_handler: bool,
    sharing: Option<MeshSharingStatus>,
    envelope: Option<FederatedQueryEnvelope>,
    me: &str,
) -> (r: QueryStep)
    ensures
        spec_plan_query_request(has_handler, sharing, envelope, me@, r),
{
    if !has_handler {
        return QueryStep::Drop;
    }
    let private = match sharing {
        Some(MeshSharingStatus::Private) => true,
        _ => false,
    };
    match envelope {
        None => QueryStep::Drop,
        Some(e) => {
            if private {
                return QueryStep::Respond(query_response(e.query_id, me, true, Vec::new(), None));
            }
            if contains_text(&e.visited, me) {
                return QueryStep::Respond(query_response(e.query_id, me, true, Vec::new(), None));
            }
            if e.ttl == 0 {
                return QueryStep::Respond(
                    query_response(
                        e.query_id,
                        me,
                        false,
                        Vec::new(),
                        Some(String::from_str("TTL expired")),
                    ),
                );
            }
            let mut e2 = e;
            e2.ttl = e2.ttl - 1;
            let ghost old_visited = e2.visited@;
            e2.visited.push(String::from_str(me));
            proof {
                assert(e2.visited@.drop_last() =~= old_visited);
            }
            let forward = e2.ttl > 0;
            QueryStep::Execute { envelope: e2, forward }
        },
    }
}

/// The result data of the successful responses among the decoded remote
/// answers, in order.
pub open spec fn spec_remote_successes(s: Seq<Option<FederatedQueryResponse>>) -> Seq<Seq<u8>>
    decreases s.len(),
{
    if s.len() == 0 {
        Seq::empty()
    } else {
        let rest = spec_remote_successes(s.drop_last());
        match s.last() {
            Some(resp) => if resp.success {
                rest.push(resp.result_data@)
            } else {
                rest
            },
            None => rest,
        }
    }
}

/// Collects the result data of the successful remote responses (`None` stands
/// for an answer that could not be decoded).
pub fn remote_successes(responses: Vec<Option<FederatedQueryResponse>>) -> (r: Vec<Vec<u8>>)
    ensures
        r@.len() == spec_remote_successes(responses@).len(),
        forall|i: int|
            0 <= i < r@.len() ==> (#[trigger] r@[i])@ == spec_remote_successes(responses@)[i],
{
    let mut out: Vec<Vec<u8>> = Vec::new();
    let mut i: usize = 0;
    while i < responses.len()
        invariant
            i <= responses@.len(),
            out@.len() == spec_remote_successes(responses@.take(i as int)).len(),
            forall|j: int|
                0 <= j < out@.len() ==> (#[trigger] out@[j])@ == spec_remote_successes(
                    responses@.take(i as int),
                )[j],
        decreases responses.len() - i,
    {
        proof {
            assert(responses@.take(i + 1).drop_last() =~= responses@.take(i as int));
        }
        match &responses[i] {
            Some(resp) => {
                if resp.success {
                    out.push(resp.result_data.clone());
                }
            },
            None => {},
        }
        i = i + 1;
    }
    proof {
        assert(responses@.take(responses@.len() as int) =~= responses@);
    }
    out
}

/// The data a node answers with: its local data where no remote peer answered
/// with success; otherwise what merging gave (`merged`), or the local data
/// where merging produced nothing.
pub fn answer_data(local: Vec<u8>, remote_count: usize, merged: Option<Vec<u8>>) -> (r: Vec<u8>)
    ensures
        remote_count == 0 ==> r == local,
        remote_count > 0 ==> r == (match merged {
            Some(m) => m,
            None => local,
        }),
{
    if remote_count == 0 {
        local
    } else {
        match merged {
            Some(m) => m,
            None => local,
        }
    }
}

/// The final answer to an executed query: a success with the given data.
pub fn final_query_response(query_id: String, me: &str, data: Vec<u8>) -> (r: FederatedQueryResponse)
    ensures
        response_is(r, query_id@, me@, true, data@, None),
{
    query_response(query_id, me, true, data, None)
}

/// Where an inbound message goes.
#[derive(Debug, Clone, Copy, PartialEq, Eq, Structural)]
pub enum DispatchAction {
    /// To the gossip manager.
    HandleGossip,
    /// To the router, as the answer to a query this node sent.
    HandleResponse,
    /// Answered as a federated query.
    HandleQuery,
    /// Answered with a pong.
    ReplyPong,
    /// To the query handler, as a trigger notification.
    NotifyTrigger,
    /// To the query handler, as a preference sync.
    SyncPreference,
    /// To the query handler, as a singleton sync.
    SyncSingleton,
    /// Dropped.
    Ignore,
}

/// Where each kind of message goes; the three sync kinds need a query handler.
pub open spec fn spec_dispatch(t: WireMessageType, has_handler: bool) -> DispatchAction {
    match t {
        WireMessageType::GossipPeerList => DispatchAction::HandleGossip,
        WireMessageType::QueryResponse => DispatchAction::HandleResponse,
        WireMessageType::QueryRequest => DispatchAction::HandleQuery,
        WireMessageType::Ping => DispatchAction::ReplyPong,
        WireMessageType::TriggerNotification => if has_handler {
            DispatchAction::NotifyTrigger
        } else {
            DispatchAction::Ignore
        },
        WireMessageType::PreferenceSync => if has_handler {
            DispatchAction::SyncPreference
        } else {
            DispatchAction::Ignore
        },
        WireMessageType::SingletonSync => if has_handler {
            DispatchAction::SyncSingleton
        } else {
            DispatchAction::Ignore
        },
        _ => DispatchAction::Ignore,
    }
}

/// Decides where an inbound message of kind `t` goes.
pub fn dispatch(t: WireMessageType, has_handler: bool) -> (r: DispatchAction)
    ensures
        r == spec_dispatch(t, has_handler),
{
    match t {
        WireMessageType::GossipPeerList => DispatchAction::HandleGossip,
        WireMessageType::QueryResponse => DispatchAction::HandleResponse,
        WireMessageType::QueryRequest => DispatchAction::HandleQuery,
        WireMessageType::Ping => DispatchAction::ReplyPong,
        WireMessageType::TriggerNotification => if has_handler {
            DispatchAction::NotifyTrigger
        } else {
            DispatchAction::Ignore
        },
        WireMessageType::PreferenceSync => if has_handler {
            DispatchAction::SyncPreference
        } else {
            DispatchAction::Ignore
        },
        WireMessageType::SingletonSync => if has_handler {
            DispatchAction::SyncSingleton
        } else {
            DispatchAction::Ignore
        },
        _ => DispatchAction::Ignore,
    }
}

/// The pong that answers a ping: same message id, no sender, no payload.
pub fn pong_reply(ping: &WireMessage) -> (r: WireMessage)
    ensures
        r.version == 1,
        r.msg_id@ == ping.msg_id@,
        r.msg_type == WireMessageType::Pong,
        r.sender_id@ == Seq::<char>::empty(),
        r.payload@.len() == 0,
{
    WireMessage {
        version: 1,
        msg_id: ping.msg_id.clone(),
        msg_type: WireMessageType::Pong,
        sender_id: String::new(),
        payload: Vec::new(),
    }
}

/// Whether `peer_id` is among the trusted keys, each taken in lowercase.
pub open spec fn spec_trusted(trusted: Seq<String>, peer_id: Seq<char>) -> bool {
    exists|i: int| 0 <= i < trusted.len() && lowercase((#[trigger] trusted[i])@) == peer_id
}

/// How peers are accepted during handshake.
#[derive(Debug)]
pub enum AcceptancePolicy {
    /// The caller's acceptance callback decides.
    Callback,
    /// Only peers whose id is one of these (lowercased) keys.
    Trusted(Vec<String>),
    /// Every peer.
    AcceptAll,
}

/// The acceptance answer of a trusted-key list (already lowercased) for a peer.
pub fn trusted_acceptance(keys: &Vec<String>, peer_id: &str) -> (r: PeerAcceptance)
    ensures
        r == (if texts_contain(keys@, peer_id@) {
            PeerAcceptance::Accept
        } else {
            PeerAcceptance::Reject
        }),
{
    if contains_text(keys, peer_id) {
        PeerAcceptance::Accept
    } else {
        PeerAcceptance::Reject
    }
}

/// The last `:`-separated part of a text (the whole text where it has none).
pub open spec fn last_colon_part(s: Seq<char>) -> Seq<char>
    decreases s.len(),
{
    if s.len() == 0 {
        s
    } else if s.last() == ':' {
        Seq::empty()
    } else {
        last_colon_part(s.drop_last()).push(s.last())
    }
}

/// The port that discovery advertises: the last `:`-separated part of the
/// listen address read as a `u16`, or 9400 where it does not read as one.
pub open spec fn spec_listen_port(addr: Seq<char>) -> u16 {
    match parse_index(last_colon_part(addr)) {
        Some(n) => if n <= 65535 {
            n as u16
        } else {
            9400
        },
        None => 9400,
    }
}

/// Position just after the last `:` in `v[0..end]`, or 0.
fn after_last_colon(v: &Vec<char>) -> (r: usize)
    ensures
        r <= v@.len(),
        v@.subrange(r as int, v@.len() as int) == last_colon_part(v@),
{
    let mut i: usize = v.len();
    let mut found = false;
    proof {
        assert(v@.subrange(0, v@.len() as int) =~= v@);
        assert(v@ + v@.subrange(v@.len() as int, v@.len() as int) =~= v@);
    }
    while i > 0 && !found
        invariant
            i <= v@.len(),
            found ==> i > 0 && v@[i - 1] == ':',
            !found ==> last_colon_part(v@) == last_colon_part(v@.subrange(0, i as int))
                + v@.subrange(i as int, v@.len() as int),
            found ==> last_colon_part(v@) == v@.subrange(i as int, v@.len() as int),
        decreases i + (if found { 0int } else { 1int }),
    {
        let ghost pre = v@.subrange(0, i as int);
        proof {
            assert(pre.drop_last() =~= v@.subrange(0, i - 1));
        }
        if v[i - 1] == ':' {
            found = true;
            proof {
                assert(last_colon_part(pre) == Seq::<char>::empty());
                assert(Seq::<char>::empty() + v@.subrange(i as int, v@.len() as int) =~= v@.subrange(
                    i as int,
                    v@.len() as int,
                ));
            }
        } else {
            proof {
                assert(last_colon_part(pre) == last_colon_part(v@.subrange(0, i - 1)).push(v@[i - 1]));
                assert(last_colon_part(v@.subrange(0, i - 1)).push(v@[i - 1]) + v@.subrange(
                    i as int,
                    v@.len() as int,
                ) =~= last_colon_part(v@.subrange(0, i - 1)) + v@.subrange(i - 1, v@.len() as int));
            }
            i = i - 1;
        }
    }
    if !found {
        proof {
            assert(v@.subrange(0, 0) =~= Seq::<char>::empty());
            assert(Seq::<char>::empty() + v@.subrange(0, v@.len() as int) =~= v@);
        }
    }
    i
}

/// The port of the listen address (see `spec_listen_port`).
pub fn listen_port(addr: &str) -> (r: u16)
    ensures
        r == spec_listen_port(addr@),
{
    let v = chars_of(addr);
    let start = after_last_colon(&v);
    let part = string_from_range(&v, start, v.len());
    match parse_index_text(part.as_str()) {
        Some(n) => if n <= 65535 {
            n as u16
        } else {
            9400
        },
        None => 9400,
    }
}

/// What the engine sets up from its configuration.
#[derive(Debug)]
pub struct StartPlan {
    pub acceptance: AcceptancePolicy,
    /// Whether an audit log is opened (it needs storage).
    pub open_audit: bool,
    /// Whether a pairing store is opened (pairing required and storage given).
    pub open_pairing: bool,
    /// The port advertised by discovery.
    pub port: u16,
    /// The endpoint advertised in gossip: `wss://` and the listen address.
    pub listen_endpoint: String,
    /// Whether mDNS discovery starts.
    pub start_mdns: bool,
}

/// Plans the engine's start: `has_callback` says if the caller gave an
/// acceptance callback, `has_storage` if storage was given.
pub fn plan_start(config: &TransportConfig, has_callback: bool, has_storage: bool) -> (r: StartPlan)
    ensures
        has_callback ==> r.acceptance is Callback,
        !has_callback && config.trusted_peer_keys@.len() > 0 ==> (r.acceptance matches AcceptancePolicy::Trusted(keys) && keys@.len() == config.trusted_peer_keys@.len() && forall|i: int|
            0 <= i < keys@.len() ==> (#[trigger] keys@[i])@ == lowercase(config.trusted_peer_keys@[i]@)),
        !has_callback && config.trusted_peer_keys@.len() == 0 ==> r.acceptance is AcceptAll,
        r.open_audit == has_storage,
        r.open_pairing == (config.require_pairing && has_storage),
        r.port == spec_listen_port(config.listen_addr@),
        r.listen_endpoint@ == "wss://"@ + config.listen_addr@,
        r.start_mdns == config.mdns_enabled,
{
    let acceptance = if has_callback {
        AcceptancePolicy::Callback
    } else if config.trusted_peer_keys.len() > 0 {
        let mut keys: Vec<String> = Vec::new();
        let mut i: usize = 0;
        while i < config.trusted_peer_keys.len()
            invariant
                i <= config.trusted_peer_keys@.len(),
                keys@.len() == i,
                forall|j: int|
                    0 <= j < i ==> (#[trigger] keys@[j])@ == lowercase(
                        config.trusted_peer_keys@[j]@,
                    ),
            decreases config.trusted_peer_keys.len() - i,
        {
            keys.push(to_lowercase(config.trusted_peer_keys[i].as_str()));
            i = i + 1;
        }
        AcceptancePolicy::Trusted(keys)
    } else {
        AcceptancePolicy::AcceptAll
    };
    let mut endpoint = String::from_str("wss://");
    endpoint.append(config.listen_addr.as_str());
    proof {
        reveal_strlit("wss://");
    }
    StartPlan {
        acceptance,
        open_audit: has_storage,
        open_pairing: config.require_pairing && has_storage,
        port: listen_port(config.listen_addr.as_str()),
        listen_endpoint: endpoint,
        start_mdns: config.mdns_enabled,
    }
}

/// The mesh status a node reports: none outside a mesh.
pub fn mesh_status_of(mesh: &Option<MeshConfig>, member_count: usize) -> (r: Option<MeshStatus>)
    ensures
        mesh is None ==> r is None,
        mesh matches Some(m) ==> (r matches Some(s) && s.mesh_name@ == m.mesh_name@
            && s.database_name@ == m.database_name@ && s.sharing_status@
            == mesh_sharing_status_name(m.sharing_status) && s.member_count == member_count),
{
    match mesh {
        None => None,
        Some(m) => Some(
            MeshStatus {
                mesh_name: m.mesh_name.clone(),
                database_name: m.database_name.clone(),
                sharing_status: String::from_str(m.sharing_status.to_str()),
                member_count,
            },
        ),
    }
}

/// The peers a targeted mesh query goes to: those whose sharing status allows
/// reads, in routing order.
pub open spec fn spec_read_targets(peers: Seq<MeshPeerInfo>) -> Seq<Seq<char>>
    decreases peers.len(),
{
    if peers.len() == 0 {
        Seq::empty()
    } else {
        let rest = spec_read_targets(peers.drop_last());
        if peers.last().sharing_status != MeshSharingStatus::Private {
            rest.push(peers.last().peer_id@)
        } else {
            rest
        }
    }
}

/// The ids of the routed peers that allow reads.
pub fn mesh_query_targets(peers: &Vec<MeshPeerInfo>) -> (r: Vec<String>)
    ensures
        r@.len() == spec_read_targets(peers@).len(),
        forall|i: int| 0 <= i < r@.len() ==> (#[trigger] r@[i])@ == spec_read_targets(peers@)[i],
{
    let mut out: Vec<String> = Vec::new();
    let mut i: usize = 0;
    while i < peers.len()
        invariant
            i <= peers@.len(),
            out@.len() == spec_read_targets(peers@.take(i as int)).len(),
            forall|j: int|
                0 <= j < out@.len() ==> (#[trigger] out@[j])@ == spec_read_targets(
                    peers@.take(i as int),
                )[j],
        decreases peers.len() - i,
    {
        proof {
            assert(peers@.take(i + 1).drop_last() =~= peers@.take(i as int));
        }
        if peers[i].sharing_status.allows_reads() {
            out.push(peers[i].peer_id.clone());
        }
        i = i + 1;
    }
    proof {
        assert(peers@.take(peers@.len() as int) =~= peers@);
    }
    out
}

/// Whether a character is a lowercase hexadecimal digit.
pub open spec fn is_lower_hex_char(c: char) -> bool {
    ('0' <= c && c <= '9') || ('a' <= c && c <= 'f')
}

/// Whether a text is a random (version 4, RFC variant) UUID in hyphenated
/// lowercase form: 36 characters, hyphens at 8, 13, 18 and 23, lowercase hex
/// digits elsewhere, the version digit `4` at 14 and a variant digit `8`, `9`,
/// `a` or `b` at 19.
pub open spec fn uuid_v4_text(s: Seq<char>) -> bool {
    &&& s.len() == 36
    &&& forall|i: int|
        0 <= i < 36 ==> (if i == 8 || i == 13 || i == 18 || i == 23 {
            #[trigger] s[i] == '-'
        } else {
            is_lower_hex_char(s[i])
        })
    &&& s[14] == '4'
    &&& (s[19] == '8' || s[19] == '9' || s[19] == 'a' || s[19] == 'b')
}

/// `uuid::Uuid::new_v4` in its hyphenated text form (`Display`).
/// Trusted: the text is a version 4 UUID in hyphenated lowercase form; its
/// other digits are random.
#[verifier::external_body]
pub(crate) fn new_uuid_text() -> (r: String)
    ensures
        uuid_v4_text(r@),
{
    uuid::Uuid::new_v4().to_string()
}

/// The envelope of a targeted mesh query: a fresh random query id, this node
/// as origin and only visited peer, a single hop.
pub fn mesh_query_envelope(me: &str, query_type: &str, query_data: Vec<u8>) -> (r: FederatedQueryEnvelope)
    ensures
        uuid_v4_text(r.query_id@),
        r.origin_peer_id@ == me@,
        r.query_type@ == query_type@,
        r.query_data == query_data,
        r.ttl == 1,
        r.visited@.len() == 1,
        r.visited@[0]@ == me@,
{
    let mut visited: Vec<String> = Vec::new();
    visited.push(String::from_str(me));
    FederatedQueryEnvelope {
        query_id: new_uuid_text(),
        origin_peer_id: String::from_str(me),
        query_type: String::from_str(query_type),
        query_data,
        ttl: 1,
        visited,
    }
}


/// The peers a federated query fans out to: none under `LocalOnly`, and
/// none when no peer is connected; otherwise every connected peer.
pub fn query_targets(policy: FederatedQueryPolicy, connected: Vec<String>) -> (r: Option<Vec<String>>)
    ensures
        policy == FederatedQueryPolicy::LocalOnly ==> r is None,
        policy != FederatedQueryPolicy::LocalOnly && connected@.len() == 0 ==> r is None,
        policy != FederatedQueryPolicy::LocalOnly && connected@.len() > 0 ==> r == Some(connected),
{
    if policy == FederatedQueryPolicy::LocalOnly {
        return None;
    }
    if connected.len() == 0 {
        return None;
    }
    Some(connected)
}

/// The connected peers a query is forwarded to: those not excluded, in order.
pub open spec fn spec_forward_targets(connected: Seq<String>, exclude: Seq<String>) -> Seq<Seq<char>>
    decreases connected.len(),
{
    if connected.len() == 0 {
        Seq::empty()
    } else {
        let rest = spec_forward_targets(connected.drop_last(), exclude);
        if texts_contain(exclude, connected.last()@) {
            rest
        } else {
            rest.push(connected.last()@)
        }
    }
}

/// Selects the peers a query is forwarded to.
pub fn forward_targets(connected: &Vec<String>, exclude: &Vec<String>) -> (r: Vec<String>)
    ensures
        r@.len() == spec_forward_targets(connected@, exclude@).len(),
        forall|i: int| 0 <= i < r@.len() ==> (#[trigger] r@[i])@ == spec_forward_targets(connected@, exclude@)[i],
{
    let mut out: Vec<String> = Vec::new();
    let mut i: usize = 0;
    while i < connected.len()
        invariant
            i <= connected@.len(),
            out@.len() == spec_forward_targets(connected@.take(i as int), exclude@).len(),
            forall|j: int| 0 <= j < out@.len() ==> (#[trigger] out@[j])@ == spec_forward_targets(connected@.take(i as int), exclude@)[j],
        decreases connected.len() - i,
    {
        proof {
            assert(connected@.take(i + 1).drop_last() =~= connected@.take(i as int));
            assert(connected@.take(i + 1).last() == connected@[i as int]);
        }
        if !contains_text(exclude, connected[i].as_str()) {
            out.push(connected[i].clone());
        }
        i = i + 1;
    }
    proof {
        assert(connected@.take(connected@.len() as int) =~= connected@);
    }
    out
}

/// The request message of a federated query, under a fresh random id.
pub fn query_request_message(me: &str, payload: Vec<u8>) -> (r: WireMessage)
    ensures
        r.version == 1,
        uuid_v4_text(r.msg_id@),
        r.msg_type == WireMessageType::QueryRequest,
        r.sender_id@ == me@,
        r.payload == payload,
{
    WireMessage {
        version: 1,
        msg_id: new_uuid_text(),
        msg_type: WireMessageType::QueryRequest,
        sender_id: String::from_str(me),
        payload,
    }
}

/// Whether collecting answers stops: every peer asked has answered.
pub fn collection_complete(received: usize, asked: usize) -> (r: bool)
    ensures
        r == (received >= asked),
{
    received >= asked
}

/// The response to a query request: the request's id, this node as sender.
pub fn build_response(request: &WireMessage, me: &str, payload: Vec<u8>) -> (r: WireMessage)
    ensures
        r.version == 1,
        r.msg_id@ == request.msg_id@,
        r.msg_type == WireMessageType::QueryResponse,
        r.sender_id@ == me@,
        r.payload == payload,
{
    WireMessage {
        version: 1,
        msg_id: request.msg_id.clone(),
        msg_type: WireMessageType::QueryResponse,
        sender_id: String::from_str(me),
        payload,
    }
}

/// Where an incoming query response goes.
#[derive(Debug, Clone, Copy, PartialEq, Eq, Structural)]
pub enum ResponseRoute {
    /// To the single-answer query waiting on its id (which stops waiting).
    Single,
    /// To the many-answer query collecting under its id.
    Multi,
    /// Nobody waits for it.
    Unmatched,
}

/// Routes a response: a single-answer query waiting on the id comes first.
pub fn response_route(single_waiting: bool, multi_waiting: bool) -> (r: ResponseRoute)
    ensures
        single_waiting ==> r == ResponseRoute::Single,
        !single_waiting && multi_waiting ==> r == ResponseRoute::Multi,
        !single_waiting && !multi_waiting ==> r == ResponseRoute::Unmatched,
{
    if single_waiting {
        ResponseRoute::Single
    } else if multi_waiting {
        ResponseRoute::Multi
    } else {
        ResponseRoute::Unmatched
    }
}

/// A query is forwarded to exactly the connected peers that are not excluded:
/// every target is a connected peer that no entry of the exclusion list names,
/// every such peer is a target, and targets keep the order of the connected
/// list (each target comes from a later connected position than the one before).
pub proof fn lemma_forward_targets_exclude(connected: Seq<String>, exclude: Seq<String>)
    ensures
        ({
            let out = spec_forward_targets(connected, exclude);
            &&& out.len() <= connected.len()
            &&& forall|i: int|
                #![trigger out[i]]
                0 <= i < out.len() ==> exists|j: int|
                    0 <= j < connected.len() && #[trigger] connected[j]@ == out[i] && forall|k: int|
                        0 <= k < exclude.len() ==> (#[trigger] exclude[k])@ != out[i]
            &&& forall|j: int|
                0 <= j < connected.len() && (forall|k: int|
                    0 <= k < exclude.len() ==> (#[trigger] exclude[k])@ != connected[j]@)
                    ==> out.contains(#[trigger] connected[j]@)
        }),
    decreases connected.len(),
{
    if connected.len() > 0 {
        let init = connected.drop_last();
        lemma_forward_targets_exclude(init, exclude);
        let prev = spec_forward_targets(init, exclude);
        let out = spec_forward_targets(connected, exclude);
        let x = connected.last();
        assert forall|j: int| 0 <= j < init.len() implies #[trigger] init[j] == connected[j] by {}
        assert forall|i: int| #![trigger out[i]] 0 <= i < out.len() implies exists|j: int|
            0 <= j < connected.len() && #[trigger] connected[j]@ == out[i] && forall|k: int|
                0 <= k < exclude.len() ==> (#[trigger] exclude[k])@ != out[i] by {
            if i < prev.len() {
                assert(out[i] == prev[i]);
                let j = choose|j: int|
                    0 <= j < init.len() && #[trigger] init[j]@ == prev[i] && forall|k: int|
                        0 <= k < exclude.len() ==> (#[trigger] exclude[k])@ != prev[i];
                assert(connected[j] == init[j]);
            } else {
                assert(out[i] == x@);
                assert(connected[connected.len() - 1] == x);
            }
        }
        assert forall|j: int|
            0 <= j < connected.len() && (forall|k: int|
                0 <= k < exclude.len() ==> (#[trigger] exclude[k])@ != connected[j]@) implies out.contains(
            #[trigger] connected[j]@,
        ) by {
            if j < init.len() {
                assert(init[j] == connected[j]);
                assert(prev.contains(init[j]@));
                let m = choose|m: int| 0 <= m < prev.len() && prev[m] == init[j]@;
                assert(out[m] == prev[m]);
            } else {
                assert(connected[j] == x);
                assert(!texts_contain(exclude, x@));
                assert(out[out.len() - 1] == x@);
            }
        }
    }
}

/// A targeted mesh query goes to exactly the routed peers whose sharing
/// status is not private, in routing order: the targets are the ids of the
/// non-private peers.
pub proof fn lemma_read_targets_not_private(peers: Seq<MeshPeerInfo>)
    ensures
        spec_read_targets(peers) == peers.filter(
            |p: MeshPeerInfo| p.sharing_status != MeshSharingStatus::Private,
        ).map_values(|p: MeshPeerInfo| p.peer_id@),
    decreases peers.len(),
{
    let pred = |p: MeshPeerInfo| p.sharing_status != MeshSharingStatus::Private;
    let f = |p: MeshPeerInfo| p.peer_id@;
    reveal(Seq::filter);
    if peers.len() == 0 {
        assert(peers.filter(pred).map_values(f) =~= Seq::<Seq<char>>::empty());
    } else {
        let init = peers.drop_last();
        lemma_read_targets_not_private(init);
        let x = peers.last();
        assert(peers.filter(pred) == if pred(x) {
            init.filter(pred).push(x)
        } else {
            init.filter(pred)
        });
        if pred(x) {
            assert(init.filter(pred).push(x).map_values(f) =~= init.filter(pred).map_values(f).push(f(x)));
        }
    }
}

} // verus!
