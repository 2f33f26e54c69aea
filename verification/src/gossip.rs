//! The gossip protocol: the table of peers learned from gossip, how an
//! incoming peer list updates it, how an incoming payload is authenticated,
//! and what a gossip round sends to whom. Sending, receiving, encoding and the
//! timer are the caller's.

use vstd::prelude::*;
use vstd::string::StringExecFns;
use crate::federation::{new_uuid_text, uuid_v4_text};
use crate::mesh::{MeshConfig, MeshRouter, mesh_sharing_status_name, route_fold, spec_mesh_tag_valid, verify_mesh_hmac};
use crate::tables::{PeerTable, peer_table, peer_table_get, peer_table_insert, peer_table_new, peer_table_values};
use rand::seq::SliceRandom;
use crate::wire::{GossipConfig, GossipPeerEntry, Timestamp, WireMessage, WireMessageType, ts_before};

verus! {

/// A peer list authenticated with the mesh secret.
#[derive(Debug)]
pub struct AuthenticatedGossipPayload {
    pub entries: Vec<GossipPeerEntry>,
    pub mesh_hmac: Vec<u8>,
}

/// Whether `vals` lists the entries of table `t`: one per key.
pub open spec fn enumerates(vals: Seq<GossipPeerEntry>, t: Map<Seq<char>, GossipPeerEntry>) -> bool {
    &&& vals.len() == t.dom().len()
    &&& forall|i: int|
        #![trigger vals[i]]
        0 <= i < vals.len() ==> exists|k: Seq<char>|
            #![trigger t[k]]
            t.dom().contains(k) && t[k] == vals[i]
    &&& forall|k: Seq<char>|
        #![trigger t[k]]
        t.dom().contains(k) ==> exists|i: int| 0 <= i < vals.len() && vals[i] == t[k]
}

/// An entry with its time to live one lower.
pub open spec fn aged(e: GossipPeerEntry) -> GossipPeerEntry {
    GossipPeerEntry { ttl: (e.ttl - 1) as u8, ..e }
}

/// Whether an incoming entry is taken into the table: not this node, not
/// expired, and either unknown or seen later than the stored entry.
pub open spec fn gossip_takes(t: Map<Seq<char>, GossipPeerEntry>, e: GossipPeerEntry, me: Seq<char>) -> bool {
    &&& e.peer_id@ != me
    &&& e.ttl != 0
    &&& (!t.dom().contains(e.peer_id@) || ts_before(t[e.peer_id@].last_seen, e.last_seen))
}

/// The table after one incoming entry: taken entries are stored with their
/// time to live one lower.
pub open spec fn gossip_step(
    t: Map<Seq<char>, GossipPeerEntry>,
    e: GossipPeerEntry,
    me: Seq<char>,
) -> Map<Seq<char>, GossipPeerEntry> {
    if gossip_takes(t, e, me) {
        t.insert(e.peer_id@, aged(e))
    } else {
        t
    }
}

/// The table after a list of incoming entries, taken in order.
pub open spec fn gossip_fold(
    t: Map<Seq<char>, GossipPeerEntry>,
    entries: Seq<GossipPeerEntry>,
    me: Seq<char>,
) -> Map<Seq<char>, GossipPeerEntry>
    decreases entries.len(),
{
    if entries.len() == 0 {
        t
    } else {
        gossip_step(gossip_fold(t, entries.drop_last(), me), entries.last(), me)
    }
}

/// The peers that a list of incoming entries newly announces to discovery:
/// the id and endpoint of each entry taken, in order.
pub open spec fn gossip_discovered(
    t: Map<Seq<char>, GossipPeerEntry>,
    entries: Seq<GossipPeerEntry>,
    me: Seq<char>,
) -> Seq<(Seq<char>, Seq<char>)>
    decreases entries.len(),
{
    if entries.len() == 0 {
        Seq::empty()
    } else {
        let before = gossip_fold(t, entries.drop_last(), me);
        let rest = gossip_discovered(t, entries.drop_last(), me);
        if gossip_takes(before, entries.last(), me) {
            rest.push((entries.last().peer_id@, entries.last().endpoint@))
        } else {
            rest
        }
    }
}

/// One gossip step never makes a stored entry older, and keeps every key.
proof fn lemma_step_monotone(t: Map<Seq<char>, GossipPeerEntry>, e: GossipPeerEntry, me: Seq<char>)
    ensures
        forall|k: Seq<char>|
            #[trigger] t.dom().contains(k) ==> gossip_step(t, e, me).dom().contains(k) && !ts_before(gossip_step(t, e, me)[k].last_seen, t[k].last_seen),
{
}

/// Gossip never makes a stored entry older, and never forgets a peer.
pub proof fn lemma_gossip_monotone(t: Map<Seq<char>, GossipPeerEntry>, entries: Seq<GossipPeerEntry>, me: Seq<char>)
    ensures
        forall|k: Seq<char>|
            #[trigger] t.dom().contains(k) ==> gossip_fold(t, entries, me).dom().contains(k) && !ts_before(gossip_fold(t, entries, me)[k].last_seen, t[k].last_seen),
    decreases entries.len(),
{
    if entries.len() > 0 {
        lemma_gossip_monotone(t, entries.drop_last(), me);
        lemma_step_monotone(gossip_fold(t, entries.drop_last(), me), entries.last(), me);
    }
}

/// After gossip, every live entry about another peer is known, as seen at least
/// as late as the entry says.
proof fn lemma_gossip_covers(t: Map<Seq<char>, GossipPeerEntry>, entries: Seq<GossipPeerEntry>, me: Seq<char>)
    ensures
        forall|i: int|
            0 <= i < entries.len() && (#[trigger] entries[i]).peer_id@ != me && entries[i].ttl != 0 ==> gossip_fold(
                t,
                entries,
                me,
            ).dom().contains(entries[i].peer_id@) && !ts_before(gossip_fold(t, entries, me)[entries[i].peer_id@].last_seen, entries[i].last_seen),
    decreases entries.len(),
{
    if entries.len() > 0 {
        let prev = gossip_fold(t, entries.drop_last(), me);
        lemma_gossip_covers(t, entries.drop_last(), me);
        lemma_step_monotone(prev, entries.last(), me);
        assert forall|i: int|
            0 <= i < entries.len() && (#[trigger] entries[i]).peer_id@ != me && entries[i].ttl != 0 implies gossip_fold(
                t,
                entries,
                me,
            ).dom().contains(entries[i].peer_id@) && !ts_before(gossip_fold(t, entries, me)[entries[i].peer_id@].last_seen, entries[i].last_seen) by {
            if i < entries.len() - 1 {
                assert(entries.drop_last()[i] == entries[i]);
                assert(prev.dom().contains(entries[i].peer_id@));
            }
        }
    }
}

/// A table that already knows every live entry of a list as seen at least as
/// late is left unchanged by that list.
proof fn lemma_gossip_fixed(t: Map<Seq<char>, GossipPeerEntry>, entries: Seq<GossipPeerEntry>, me: Seq<char>)
    requires
        forall|i: int|
            0 <= i < entries.len() && (#[trigger] entries[i]).peer_id@ != me && entries[i].ttl != 0 ==> t.dom().contains(
                entries[i].peer_id@,
            ) && !ts_before(t[entries[i].peer_id@].last_seen, entries[i].last_seen),
    ensures
        gossip_fold(t, entries, me) == t,
    decreases entries.len(),
{
    if entries.len() > 0 {
        assert forall|i: int|
            0 <= i < entries.drop_last().len() && (#[trigger] entries.drop_last()[i]).peer_id@ != me
                && entries.drop_last()[i].ttl != 0 implies t.dom().contains(entries.drop_last()[i].peer_id@)
                && !ts_before(t[entries.drop_last()[i].peer_id@].last_seen, entries.drop_last()[i].last_seen) by {
            assert(entries.drop_last()[i] == entries[i]);
        }
        lemma_gossip_fixed(t, entries.drop_last(), me);
        let e = entries.last();
        assert(entries[entries.len() - 1] == e);
    }
}

/// Receiving the same gossip twice changes nothing the second time.
pub proof fn lemma_gossip_replay(t: Map<Seq<char>, GossipPeerEntry>, entries: Seq<GossipPeerEntry>, me: Seq<char>)
    ensures
        gossip_fold(gossip_fold(t, entries, me), entries, me) == gossip_fold(t, entries, me),
{
    lemma_gossip_covers(t, entries, me);
    lemma_gossip_fixed(gossip_fold(t, entries, me), entries, me);
}

/// Gossip never stores this node itself.
pub proof fn lemma_gossip_never_stores_self(t: Map<Seq<char>, GossipPeerEntry>, entries: Seq<GossipPeerEntry>, me: Seq<char>)
    requires
        !t.dom().contains(me),
    ensures
        !gossip_fold(t, entries, me).dom().contains(me),
    decreases entries.len(),
{
    if entries.len() > 0 {
        lemma_gossip_never_stores_self(t, entries.drop_last(), me);
    }
}

/// Whether each stored entry is stored under its own peer id.
pub open spec fn keyed_by_peer(t: Map<Seq<char>, GossipPeerEntry>) -> bool {
    forall|k: Seq<char>| #[trigger] t.dom().contains(k) ==> t[k].peer_id@ == k
}

/// Whether an entry still has time to live.
pub open spec fn alive() -> spec_fn(GossipPeerEntry) -> bool {
    |e: GossipPeerEntry| e.ttl > 0
}

/// What a gossip round sends: the peer list, the secret it is authenticated
/// with (none for a plain list), and the peers it goes to.
#[derive(Debug)]
pub struct GossipRound {
    pub entries: Vec<GossipPeerEntry>,
    pub secret: Option<String>,
    pub targets: Vec<String>,
}

/// Manages the gossip protocol state: known peers and the mesh routing table.
pub struct GossipManager {
    config: GossipConfig,
    /// Known peers from gossip (peer id to entry).
    known_peers: PeerTable,
    my_peer_id: String,
    my_endpoint: String,
    /// Optional mesh config for advertising mesh fields in gossip.
    mesh: Option<MeshConfig>,
    /// Optional mesh router updated on gossip.
    mesh_router: Option<MeshRouter>,
    /// Runtime-set mesh secret (overrides the configured secret when set).
    mesh_secret_override: Option<String>,
}

impl GossipManager {
    /// The known peers, by peer id.
    pub closed spec fn known(&self) -> Map<Seq<char>, GossipPeerEntry> {
        peer_table(self.known_peers)
    }

    /// This node's peer id.
    pub closed spec fn me(&self) -> Seq<char> {
        self.my_peer_id@
    }

    /// This node's endpoint.
    pub closed spec fn endpoint(&self) -> Seq<char> {
        self.my_endpoint@
    }

    /// The gossip configuration.
    pub closed spec fn spec_config(&self) -> GossipConfig {
        self.config
    }

    /// The mesh configuration.
    pub closed spec fn spec_mesh(&self) -> Option<MeshConfig> {
        self.mesh
    }

    /// The mesh router.
    pub closed spec fn spec_router(&self) -> Option<MeshRouter> {
        self.mesh_router
    }

    /// The secret that authenticates gossip: the runtime override, else the
    /// configured mesh secret.
    pub closed spec fn spec_secret(&self) -> Option<String> {
        match self.mesh_secret_override {
            Some(s) => Some(s),
            None => match self.mesh {
                Some(m) => m.mesh_secret,
                None => None,
            },
        }
    }

    /// The manager's invariant: entries keyed by their own peer id, a router
    /// exactly when a mesh is configured, tracking that mesh.
    pub open spec fn wf(&self) -> bool {
        &&& keyed_by_peer(self.known())
        &&& self.spec_mesh() is Some == self.spec_router() is Some
        &&& (self.spec_router() matches Some(r) ==> r.wf() && r.spec_mesh_name()
            == self.spec_mesh()->0.mesh_name@)
    }

    /// A manager with no known peers; it keeps a mesh router when a mesh is configured.
    pub fn new(config: GossipConfig, my_peer_id: &str, my_endpoint: &str, mesh: Option<MeshConfig>) -> (r: GossipManager)
        ensures
            r.wf(),
            r.known().dom() == Set::<Seq<char>>::empty(),
            r.me() == my_peer_id@,
            r.endpoint() == my_endpoint@,
            r.spec_config() == config,
            r.spec_mesh() == mesh,
            r.spec_secret() == (match mesh {
                Some(m) => m.mesh_secret,
                None => None,
            }),
    {
        let mesh_router = match &mesh {
            Some(m) => Some(MeshRouter::new(m.mesh_name.as_str())),
            None => None,
        };
        GossipManager {
            config,
            known_peers: peer_table_new(),
            my_peer_id: String::from_str(my_peer_id),
            my_endpoint: String::from_str(my_endpoint),
            mesh,
            mesh_router,
            mesh_secret_override: None,
        }
    }

    /// Sets the mesh secret at runtime; it overrides the configured secret.
    pub fn set_mesh_secret(&mut self, secret: String)
        requires
            old(self).wf(),
        ensures
            final(self).wf(),
            final(self).spec_secret() == Some(secret),
            final(self).known() == old(self).known(),
            final(self).me() == old(self).me(),
            final(self).spec_mesh() == old(self).spec_mesh(),
            final(self).spec_router() == old(self).spec_router(),
    {
        self.mesh_secret_override = Some(secret);
    }

    /// The effective mesh secret (the override takes precedence).
    pub fn effective_mesh_secret(&self) -> (r: Option<String>)
        ensures
            r == self.spec_secret(),
    {
        match &self.mesh_secret_override {
            Some(s) => Some(s.clone()),
            None => match &self.mesh {
                Some(m) => match &m.mesh_secret {
                    Some(s) => Some(s.clone()),
                    None => None,
                },
                None => None,
            },
        }
    }

    /// The mesh router, if a mesh is configured.
    pub fn mesh_router(&self) -> (r: Option<&MeshRouter>)
        ensures
            r is Some == self.spec_router() is Some,
            r matches Some(x) ==> *x == self.spec_router()->0,
    {
        self.mesh_router.as_ref()
    }

    /// All known peers, in an order the table leaves open.
    pub fn known_peers(&self) -> (r: Vec<GossipPeerEntry>)
        ensures
            enumerates(r@, self.known()),
    {
        peer_table_values(&self.known_peers)
    }

    /// Handles an incoming gossip peer list: skips this node and expired
    /// entries, stores the others with their time to live one lower when they
    /// are unknown or newer than the stored entry, and then feeds all known
    /// peers to the mesh router. Returns the id and endpoint of each entry
    /// taken, for the discovery manager.
    pub fn handle_gossip(&mut self, entries: Vec<GossipPeerEntry>) -> (r: Vec<(String, String)>)
        requires
            old(self).wf(),
        ensures
            final(self).wf(),
            final(self).known() == gossip_fold(old(self).known(), entries@, old(self).me()),
            r@.len() == gossip_discovered(old(self).known(), entries@, old(self).me()).len(),
            forall|i: int|
                0 <= i < r@.len() ==> ((#[trigger] r@[i]).0@, r@[i].1@) == gossip_discovered(
                    old(self).known(),
                    entries@,
                    old(self).me(),
                )[i],
            final(self).me() == old(self).me(),
            final(self).endpoint() == old(self).endpoint(),
            final(self).spec_config() == old(self).spec_config(),
            final(self).spec_mesh() == old(self).spec_mesh(),
            final(self).spec_secret() == old(self).spec_secret(),
            old(self).spec_router() matches Some(r0) ==> (final(self).spec_router() matches Some(r1)
                && exists|vals: Seq<GossipPeerEntry>|
                enumerates(vals, final(self).known()) && r1.routes() == route_fold(
                    r0.routes(),
                    r0.spec_mesh_name(),
                    vals,
                )),
    {
        let ghost t0 = self.known();
        let mut out: Vec<(String, String)> = Vec::new();
        let mut i: usize = 0;
        while i < entries.len()
            invariant
                i <= entries@.len(),
                self.wf(),
                self.me() == old(self).me(),
                self.endpoint() == old(self).endpoint(),
                self.spec_config() == old(self).spec_config(),
                self.spec_mesh() == old(self).spec_mesh(),
                self.spec_secret() == old(self).spec_secret(),
                self.spec_router() == old(self).spec_router(),
                t0 == old(self).known(),
                self.known() == gossip_fold(t0, entries@.take(i as int), self.me()),
                out@.len() == gossip_discovered(t0, entries@.take(i as int), self.me()).len(),
                forall|j: int|
                    0 <= j < out@.len() ==> ((#[trigger] out@[j]).0@, out@[j].1@) == gossip_discovered(
                        t0,
                        entries@.take(i as int),
                        self.me(),
                    )[j],
            decreases entries.len() - i,
        {
            proof {
                assert(entries@.take(i + 1).drop_last() =~= entries@.take(i as int));
                assert(entries@.take(i + 1).last() == entries@[i as int]);
            }
            let e = &entries[i];
            if !crate::text::str_eq(e.peer_id.as_str(), self.my_peer_id.as_str()) && e.ttl != 0 {
                let take = match peer_table_get(&self.known_peers, e.peer_id.as_str()) {
                    None => true,
                    Some(existing) => existing.last_seen.before(&e.last_seen),
                };
                if take {
                    let mut stored = e.duplicate();
                    stored.ttl = stored.ttl - 1;
                    out.push((e.peer_id.clone(), e.endpoint.clone()));
                    peer_table_insert(&mut self.known_peers, e.peer_id.clone(), stored);
                    proof {
                        assert(stored == aged(entries@[i as int]));
                    }
                }
            }
            i = i + 1;
        }
        proof {
            assert(entries@.take(entries@.len() as int) =~= entries@);
        }
        let all = peer_table_values(&self.known_peers);
        match &mut self.mesh_router {
            Some(router) => {
                router.update_from_gossip(&all);
            },
            None => {},
        }
        out
    }

    /// Decides which peer list an incoming gossip payload yields. `auth` is the
    /// payload read as an authenticated list, with the encoding of its entries;
    /// `plain` the payload read as a plain list (none where it does not read
    /// as one). Under a mesh with a secret, an authenticated list is taken only
    /// when its tag verifies, and a plain list only when the payload is not an
    /// authenticated one; otherwise the plain list is taken.
    pub fn accept_gossip_payload(
        &self,
        auth: Option<(AuthenticatedGossipPayload, Vec<u8>)>,
        plain: Option<Vec<GossipPeerEntry>>,
    ) -> (r: Option<Vec<GossipPeerEntry>>)
        ensures
            (self.spec_mesh() is Some && self.spec_secret() is Some) ==> r == (match auth {
                Some(a) => if spec_mesh_tag_valid(self.spec_secret()->0@, a.1@, a.0.mesh_hmac@) {
                    Some(a.0.entries)
                } else {
                    None
                },
                None => plain,
            }),
            !(self.spec_mesh() is Some && self.spec_secret() is Some) ==> r == plain,
    {
        if self.mesh.is_some() {
            match self.effective_mesh_secret() {
                Some(secret) => {
                    return match auth {
                        Some(a) => {
                            let (payload, bytes) = a;
                            if verify_mesh_hmac(secret.as_str(), bytes.as_slice(), payload.mesh_hmac.as_slice()) {
                                Some(payload.entries)
                            } else {
                                None
                            }
                        },
                        None => plain,
                    };
                },
                None => {},
            }
        }
        plain
    }

    /// This node's own entry for a gossip round at time `now`.
    pub open spec fn spec_self_entry(&self, e: GossipPeerEntry, now: Timestamp) -> bool {
        &&& e.peer_id@ == self.me()
        &&& e.endpoint@ == self.endpoint()
        &&& e.status@ == "active"@
        &&& e.last_seen == now
        &&& e.ttl == self.spec_config().ttl
        &&& e.schema_fingerprint@ == Seq::<char>::empty()
        &&& match self.spec_mesh() {
            Some(m) => e.database_name@ == m.database_name@ && e.mesh_name@ == m.mesh_name@
                && e.sharing_status@ == mesh_sharing_status_name(m.sharing_status),
            None => e.database_name@ == Seq::<char>::empty() && e.mesh_name@ == Seq::<char>::empty()
                && e.sharing_status@ == Seq::<char>::empty(),
        }
    }

    /// Plans a gossip round at time `now` toward the `connected` peers: none
    /// when no peer is connected; otherwise this node's entry followed by the
    /// known entries that still have time to live, the effective secret, and
    /// up to `fan_out` connected peers picked at random.
    pub fn plan_gossip_round(&self, connected: Vec<String>, now: Timestamp) -> (r: Option<GossipRound>)
        ensures
            connected@.len() == 0 ==> r is None,
            connected@.len() > 0 ==> (r matches Some(g) && {
                &&& g.entries@.len() >= 1
                &&& self.spec_self_entry(g.entries@[0], now)
                &&& exists|vals: Seq<GossipPeerEntry>|
                    enumerates(vals, self.known()) && g.entries@.drop_first() == vals.filter(alive())
                &&& g.secret == self.spec_secret()
                &&& g.targets@.len() == (if connected@.len() < self.spec_config().fan_out {
                    connected@.len() as int
                } else {
                    self.spec_config().fan_out as int
                })
                &&& exists|s: Seq<String>|
                    s.to_multiset() == connected@.to_multiset() && g.targets@ == s.take(
                        g.targets@.len() as int,
                    )
            }),
    {
        if connected.len() == 0 {
            return None;
        }
        let mut entries: Vec<GossipPeerEntry> = Vec::new();
        let (db_name, m_name, share) = match &self.mesh {
            Some(m) => (
                m.database_name.clone(),
                m.mesh_name.clone(),
                String::from_str(m.sharing_status.to_str()),
            ),
            None => (String::new(), String::new(), String::new()),
        };
        let me = GossipPeerEntry {
            peer_id: self.my_peer_id.clone(),
            endpoint: self.my_endpoint.clone(),
            status: String::from_str("active"),
            last_seen: now,
            ttl: self.config.ttl,
            database_name: db_name,
            mesh_name: m_name,
            sharing_status: share,
            schema_fingerprint: String::new(),
        };
        entries.push(me);
        let vals = peer_table_values(&self.known_peers);
        let mut i: usize = 0;
        while i < vals.len()
            invariant
                i <= vals@.len(),
                entries@.len() >= 1,
                self.spec_self_entry(entries@[0], now),
                entries@.drop_first() == vals@.take(i as int).filter(alive()),
            decreases vals.len() - i,
        {
            proof {
                assert(vals@.take(i as int).push(vals@[i as int]) =~= vals@.take(i + 1));
                vals@.take(i as int).lemma_filter_push(vals@[i as int], alive());
            }
            let ghost before = entries@;
            if vals[i].ttl > 0 {
                entries.push(vals[i].duplicate());
                proof {
                    assert(entries@.drop_first() =~= before.drop_first().push(vals@[i as int]));
                }
            }
            i = i + 1;
        }
        proof {
            assert(vals@.take(vals@.len() as int) =~= vals@);
        }
        let targets = pick_gossip_targets(connected, self.config.fan_out);
        Some(GossipRound { entries, secret: self.effective_mesh_secret(), targets })
    }
}

/// The shuffle of `rand::seq::SliceRandom` with the thread's random generator.
/// Trusted: the result holds the same texts, each as often; the order is random.
#[verifier::external_body]
fn shuffle_texts(v: Vec<String>) -> (r: Vec<String>)
    ensures
        r@.to_multiset() == v@.to_multiset(),
{
    let mut v = v;
    v.shuffle(&mut rand::thread_rng());
    v
}

/// Picks up to `fan_out` of the connected peers at random.
pub fn pick_gossip_targets(connected: Vec<String>, fan_out: usize) -> (r: Vec<String>)
    ensures
        r@.len() == (if connected@.len() < fan_out {
            connected@.len() as int
        } else {
            fan_out as int
        }),
        exists|s: Seq<String>|
            s.to_multiset() == connected@.to_multiset() && r@ == s.take(r@.len() as int),
{
    let ghost c = connected@;
    let mut s = shuffle_texts(connected);
    let ghost all = s@;
    proof {
        broadcast use vstd::seq_lib::group_to_multiset_ensures;
        assert(all.len() == all.to_multiset().len());
        assert(c.len() == c.to_multiset().len());
    }
    s.truncate(fan_out);
    proof {
        if fan_out <= all.len() {
            assert(s@ == all.take(fan_out as int));
        } else {
            assert(s@ =~= all.take(all.len() as int));
        }
    }
    s
}

/// The message that carries a gossip payload, under a fresh random id.
pub fn gossip_message(me: &str, payload: Vec<u8>) -> (r: WireMessage)
    ensures
        r.version == 1,
        uuid_v4_text(r.msg_id@),
        r.msg_type == WireMessageType::GossipPeerList,
        r.sender_id@ == me@,
        r.payload == payload,
{
    WireMessage {
        version: 1,
        msg_id: new_uuid_text(),
        msg_type: WireMessageType::GossipPeerList,
        sender_id: String::from_str(me),
        payload,
    }
}

} // verus!
