//! Database mesh: sharing status, configuration, gossip authentication and
//! the routing table of mesh peers.

use vstd::prelude::*;
use vstd::string::StringSliceAdditionalSpecFns;
use vstd::utf8::encode_utf8;
use crate::text::str_eq;
use crate::tables::{RouteTable, route_table, route_table_entries, route_table_get, route_table_insert, route_table_new, route_table_remove};
use crate::wire::{GossipPeerEntry, Timestamp, ts_before};
use vstd::string::StringExecFns;
use vstd::string::StrSliceExecFns;
use hmac::Mac;

verus! {

/// Controls how a database participates in the mesh.
#[derive(Debug, Clone, Copy, PartialEq, Eq, Structural)]
pub enum MeshSharingStatus {
    /// Data is not shared. Visible in topology but returns no data.
    Private,
    /// Other mesh databases may read data (subject to access rules).
    ReadOnly,
    /// Other mesh databases may read and this database may write (subject to access rules).
    ReadWrite,
    /// Full participant: read, write, and relay.
    Full,
}

/// The text form of each `MeshSharingStatus`.
pub open spec fn mesh_sharing_status_name(x: MeshSharingStatus) -> Seq<char> {
    match x {
        MeshSharingStatus::Private => "private"@,
        MeshSharingStatus::ReadOnly => "read_only"@,
        MeshSharingStatus::ReadWrite => "read_write"@,
        MeshSharingStatus::Full => "full"@,
    }
}

/// The `MeshSharingStatus` that a text names, if any.
pub open spec fn mesh_sharing_status_parse(s: Seq<char>) -> Option<MeshSharingStatus> {
    if s == "private"@ {
        Some(MeshSharingStatus::Private)
    } else if s == "read_only"@ {
        Some(MeshSharingStatus::ReadOnly)
    } else if s == "read_write"@ {
        Some(MeshSharingStatus::ReadWrite)
    } else if s == "full"@ {
        Some(MeshSharingStatus::Full)
    } else {
        None
    }
}

impl MeshSharingStatus {
    /// The text form of this value.
    pub fn to_str(&self) -> (r: &'static str)
        ensures
            r@ == mesh_sharing_status_name(*self),
    {
        match self {
            MeshSharingStatus::Private => "private",
            MeshSharingStatus::ReadOnly => "read_only",
            MeshSharingStatus::ReadWrite => "read_write",
            MeshSharingStatus::Full => "full",
        }
    }

    /// Parses the text form; `None` for any other text.
    pub fn from_str(s: &str) -> (r: Option<MeshSharingStatus>)
        ensures
            r == mesh_sharing_status_parse(s@),
    {
        if str_eq(s, "private") {
            Some(MeshSharingStatus::Private)
        } else if str_eq(s, "read_only") {
            Some(MeshSharingStatus::ReadOnly)
        } else if str_eq(s, "read_write") {
            Some(MeshSharingStatus::ReadWrite)
        } else if str_eq(s, "full") {
            Some(MeshSharingStatus::Full)
        } else {
            None
        }
    }
}

/// Reading back the text form of a `MeshSharingStatus` gives the same value, and a text
/// that reads as a value is that value's text form.
pub proof fn lemma_mesh_sharing_status_roundtrip(x: MeshSharingStatus, s: Seq<char>)
    ensures
        mesh_sharing_status_parse(mesh_sharing_status_name(x)) == Some(x),
        mesh_sharing_status_parse(s) == Some(x) && s != mesh_sharing_status_name(x) ==> false,
{
    reveal_strlit("private");
    reveal_strlit("read_only");
    reveal_strlit("read_write");
    reveal_strlit("full");
    assert("read_only"@.len() != "private"@.len());
    assert("read_write"@.len() != "private"@.len());
    assert("read_write"@.len() != "read_only"@.len());
    assert("full"@.len() != "private"@.len());
    assert("full"@.len() != "read_only"@.len());
    assert("full"@.len() != "read_write"@.len());
}
impl MeshSharingStatus {
    /// Returns true if this status allows read queries from mesh peers.
    pub fn allows_reads(&self) -> (r: bool)
        ensures
            r == (*self != MeshSharingStatus::Private),
    {
        match self {
            MeshSharingStatus::ReadOnly | MeshSharingStatus::ReadWrite | MeshSharingStatus::Full => true,
            MeshSharingStatus::Private => false,
        }
    }

    /// Returns true if this status allows write queries from mesh peers.
    pub fn allows_writes(&self) -> (r: bool)
        ensures
            r == (*self == MeshSharingStatus::ReadWrite || *self == MeshSharingStatus::Full),
    {
        match self {
            MeshSharingStatus::ReadWrite | MeshSharingStatus::Full => true,
            MeshSharingStatus::Private | MeshSharingStatus::ReadOnly => false,
        }
    }
}

/// Every status that allows writes also allows reads.
pub proof fn lemma_writes_imply_reads(s: MeshSharingStatus)
    ensures
        (s == MeshSharingStatus::ReadWrite || s == MeshSharingStatus::Full) ==> s
            != MeshSharingStatus::Private,
{
}

/// Configuration for mesh participation.
#[derive(Debug, Clone)]
pub struct MeshConfig {
    /// The name of the mesh this database joins.
    pub mesh_name: String,
    /// This database's name within the mesh.
    pub database_name: String,
    /// How this database shares data with the mesh.
    pub sharing_status: MeshSharingStatus,
    /// Maximum mesh peers to maintain connections to.
    pub max_mesh_peers: usize,
    /// Optional shared secret for mesh authentication of gossip.
    pub mesh_secret: Option<String>,
}

/// The default maximum number of mesh peers.
pub fn default_max_mesh_peers() -> (r: usize)
    ensures
        r == 16,
{
    16
}

/// Current mesh status for this node.
#[derive(Debug, Clone)]
pub struct MeshStatus {
    pub mesh_name: String,
    pub database_name: String,
    pub sharing_status: String,
    pub member_count: usize,
}

/// A peer hosting a specific database in the mesh.
#[derive(Debug, Clone)]
pub struct MeshPeerInfo {
    pub peer_id: String,
    pub endpoint: String,
    pub sharing_status: MeshSharingStatus,
    /// When the peer was last seen (seconds since the epoch and nanoseconds).
    pub last_seen: Timestamp,
}

impl MeshPeerInfo {
    /// A copy of this entry.
    pub fn duplicate(&self) -> (r: MeshPeerInfo)
        ensures
            r == *self,
    {
        MeshPeerInfo {
            peer_id: self.peer_id.clone(),
            endpoint: self.endpoint.clone(),
            sharing_status: self.sharing_status,
            last_seen: self.last_seen,
        }
    }
}

/// Summary of a known mesh member (for listing).
#[derive(Debug, Clone)]
pub struct MeshMember {
    pub database_name: String,
    pub peer_id: String,
    pub sharing_status: String,
    /// Seconds since the epoch and nanoseconds.
    pub last_seen: Timestamp,
}


/// The routing entry that a gossip entry gives: its sharing status read from
/// text, `Private` where the text names none.
pub open spec fn peer_info_of(e: GossipPeerEntry) -> MeshPeerInfo {
    MeshPeerInfo {
        peer_id: e.peer_id,
        endpoint: e.endpoint,
        sharing_status: match mesh_sharing_status_parse(e.sharing_status@) {
            Some(s) => s,
            None => MeshSharingStatus::Private,
        },
        last_seen: e.last_seen,
    }
}

/// Whether no peer id occurs twice in a route.
pub open spec fn distinct_peers(peers: Seq<MeshPeerInfo>) -> bool {
    forall|i: int, j: int|
        0 <= i < j < peers.len() ==> (#[trigger] peers[i]).peer_id@ != (#[trigger] peers[j]).peer_id@
}

/// Whether a route holds a peer with this id.
pub open spec fn has_peer(peers: Seq<MeshPeerInfo>, id: Seq<char>) -> bool {
    exists|i: int| 0 <= i < peers.len() && (#[trigger] peers[i]).peer_id@ == id
}

/// A route with `info` put in: it replaces the peer with the same id, or is
/// appended where there is none.
pub open spec fn upsert_peer(peers: Seq<MeshPeerInfo>, info: MeshPeerInfo) -> Seq<MeshPeerInfo> {
    if has_peer(peers, info.peer_id@) {
        peers.update(
            choose|i: int| 0 <= i < peers.len() && (#[trigger] peers[i]).peer_id@ == info.peer_id@,
            info,
        )
    } else {
        peers.push(info)
    }
}

/// The routes after one gossip entry: only entries of this mesh with a
/// database name are taken.
pub open spec fn route_step(
    routes: Map<Seq<char>, Seq<MeshPeerInfo>>,
    mesh: Seq<char>,
    e: GossipPeerEntry,
) -> Map<Seq<char>, Seq<MeshPeerInfo>> {
    if e.mesh_name@ != mesh || e.database_name@.len() == 0 {
        routes
    } else {
        let peers = if routes.dom().contains(e.database_name@) {
            routes[e.database_name@]
        } else {
            Seq::empty()
        };
        routes.insert(e.database_name@, upsert_peer(peers, peer_info_of(e)))
    }
}

/// The routes after a list of gossip entries, taken in order.
pub open spec fn route_fold(
    routes: Map<Seq<char>, Seq<MeshPeerInfo>>,
    mesh: Seq<char>,
    entries: Seq<GossipPeerEntry>,
) -> Map<Seq<char>, Seq<MeshPeerInfo>>
    decreases entries.len(),
{
    if entries.len() == 0 {
        routes
    } else {
        route_step(route_fold(routes, mesh, entries.drop_last()), mesh, entries.last())
    }
}

/// Putting a peer into a route keeps every peer id it held and adds the new one.
proof fn lemma_upsert_keeps(peers: Seq<MeshPeerInfo>, info: MeshPeerInfo, id: Seq<char>)
    ensures
        has_peer(upsert_peer(peers, info), info.peer_id@),
        has_peer(peers, id) ==> has_peer(upsert_peer(peers, info), id),
{
    let r = upsert_peer(peers, info);
    if has_peer(peers, info.peer_id@) {
        let c = choose|i: int| 0 <= i < peers.len() && (#[trigger] peers[i]).peer_id@ == info.peer_id@;
        assert(r[c] == info);
        if has_peer(peers, id) {
            let j = choose|i: int| 0 <= i < peers.len() && (#[trigger] peers[i]).peer_id@ == id;
            if j != c {
                assert(r[j] == peers[j]);
            }
        }
    } else {
        assert(r[peers.len() as int] == info);
        if has_peer(peers, id) {
            let j = choose|i: int| 0 <= i < peers.len() && (#[trigger] peers[i]).peer_id@ == id;
            assert(r[j] == peers[j]);
        }
    }
}

/// One gossip entry keeps every routed peer routed.
proof fn lemma_step_keeps(
    routes: Map<Seq<char>, Seq<MeshPeerInfo>>,
    mesh: Seq<char>,
    e: GossipPeerEntry,
    db: Seq<char>,
    id: Seq<char>,
)
    requires
        routes.dom().contains(db),
        has_peer(routes[db], id),
    ensures
        route_step(routes, mesh, e).dom().contains(db),
        has_peer(route_step(routes, mesh, e)[db], id),
{
    if e.mesh_name@ == mesh && e.database_name@.len() > 0 && e.database_name@ == db {
        lemma_upsert_keeps(routes[db], peer_info_of(e), id);
    }
}

/// Peers stay routed: gossip replaces a routed peer's details but never drops
/// it (only removing stale peers does).
pub proof fn lemma_routed_peers_stay(
    routes: Map<Seq<char>, Seq<MeshPeerInfo>>,
    mesh: Seq<char>,
    entries: Seq<GossipPeerEntry>,
    db: Seq<char>,
    id: Seq<char>,
)
    requires
        routes.dom().contains(db),
        has_peer(routes[db], id),
    ensures
        route_fold(routes, mesh, entries).dom().contains(db),
        has_peer(route_fold(routes, mesh, entries)[db], id),
    decreases entries.len(),
{
    if entries.len() > 0 {
        lemma_routed_peers_stay(routes, mesh, entries.drop_last(), db, id);
        lemma_step_keeps(route_fold(routes, mesh, entries.drop_last()), mesh, entries.last(), db, id);
    }
}

/// Gossip makes peers routable: after a list of entries, every entry of this
/// mesh that names a database has its peer routed for that database.
pub proof fn lemma_gossip_routes_peer(
    routes: Map<Seq<char>, Seq<MeshPeerInfo>>,
    mesh: Seq<char>,
    entries: Seq<GossipPeerEntry>,
    k: int,
)
    requires
        0 <= k < entries.len(),
        entries[k].mesh_name@ == mesh,
        entries[k].database_name@.len() > 0,
    ensures
        route_fold(routes, mesh, entries).dom().contains(entries[k].database_name@),
        has_peer(route_fold(routes, mesh, entries)[entries[k].database_name@], entries[k].peer_id@),
    decreases entries.len(),
{
    let before = route_fold(routes, mesh, entries.drop_last());
    if k == entries.len() - 1 {
        let e = entries.last();
        let peers = if before.dom().contains(e.database_name@) {
            before[e.database_name@]
        } else {
            Seq::empty()
        };
        lemma_upsert_keeps(peers, peer_info_of(e), e.peer_id@);
    } else {
        assert(entries.drop_last()[k] == entries[k]);
        lemma_gossip_routes_peer(routes, mesh, entries.drop_last(), k);
        lemma_step_keeps(before, mesh, entries.last(), entries[k].database_name@, entries[k].peer_id@);
    }
}

/// Whether every route is free of repeated peers.
pub open spec fn routes_wf(routes: Map<Seq<char>, Seq<MeshPeerInfo>>) -> bool {
    forall|k: Seq<char>| #[trigger] routes.dom().contains(k) ==> distinct_peers(routes[k])
}

/// Whether a member listing names a peer routed for its database.
pub open spec fn member_of(routes: Map<Seq<char>, Seq<MeshPeerInfo>>, m: MeshMember) -> bool {
    exists|i: int|
        #![trigger routes[m.database_name@][i]]
        routes.dom().contains(m.database_name@) && 0 <= i < routes[m.database_name@].len() && {
            let p = routes[m.database_name@][i];
            &&& m.peer_id@ == p.peer_id@
            &&& m.sharing_status@ == mesh_sharing_status_name(p.sharing_status)
            &&& m.last_seen == p.last_seen
        }
}

/// Whether a member listing names this peer of this database.
pub open spec fn member_is(m: MeshMember, db: Seq<char>, p: MeshPeerInfo) -> bool {
    &&& m.database_name@ == db
    &&& m.peer_id@ == p.peer_id@
    &&& m.sharing_status@ == mesh_sharing_status_name(p.sharing_status)
    &&& m.last_seen == p.last_seen
}

/// Whether `e` lists the routes: each database once, with its peers.
pub open spec fn lists_routes(
    e: Seq<(Seq<char>, Seq<MeshPeerInfo>)>,
    routes: Map<Seq<char>, Seq<MeshPeerInfo>>,
) -> bool {
    &&& forall|i: int| 0 <= i < e.len() ==> routes.dom().contains((#[trigger] e[i]).0) && routes[e[i].0] == e[i].1
    &&& forall|k: Seq<char>| #[trigger] routes.dom().contains(k) ==> exists|i: int| 0 <= i < e.len() && e[i].0 == k
    &&& forall|i: int, j: int| 0 <= i < j < e.len() ==> (#[trigger] e[i]).0 != (#[trigger] e[j]).0
}

/// How many members a listing of routes has: one per peer of each route.
pub open spec fn members_len(e: Seq<(Seq<char>, Seq<MeshPeerInfo>)>) -> nat
    decreases e.len(),
{
    if e.len() == 0 {
        0
    } else {
        members_len(e.drop_last()) + e.last().1.len()
    }
}

/// Where a listing of routes puts peer `p` of route `i`: after the members
/// of the routes before it.
pub open spec fn member_index(e: Seq<(Seq<char>, Seq<MeshPeerInfo>)>, i: int, p: int) -> int {
    members_len(e.take(i)) + p
}

/// Every position of a member listing is the place of some peer of some route.
proof fn lemma_member_position(e: Seq<(Seq<char>, Seq<MeshPeerInfo>)>, q: int)
    requires
        0 <= q < members_len(e),
    ensures
        exists|a: int, c: int| 0 <= a < e.len() && 0 <= c < e[a].1.len() && member_index(e, a, c) == q,
    decreases e.len(),
{
    let n = e.len() - 1;
    assert(e.take(n) =~= e.drop_last());
    if q < members_len(e.drop_last()) {
        lemma_member_position(e.drop_last(), q);
        let (a, c) = choose|a: int, c: int|
            0 <= a < e.drop_last().len() && 0 <= c < e.drop_last()[a].1.len() && member_index(e.drop_last(), a, c) == q;
        assert(e.drop_last().take(a) =~= e.take(a));
        assert(member_index(e, a, c) == q);
    } else {
        assert(member_index(e, n, q - members_len(e.drop_last())) == q);
    }
}

/// The routes as listed by the table, by view.
pub open spec fn entry_views(v: Seq<(String, Vec<MeshPeerInfo>)>) -> Seq<(Seq<char>, Seq<MeshPeerInfo>)> {
    v.map_values(|x: (String, Vec<MeshPeerInfo>)| (x.0@, x.1@))
}

/// Routes queries to the peers hosting a database, from gossip-learned topology.
pub struct MeshRouter {
    /// My mesh name (only entries with this mesh name are tracked).
    mesh_name: String,
    /// database name to the peers hosting it.
    routes: RouteTable,
}

impl MeshRouter {
    /// The routes: database name to the peers hosting it.
    pub closed spec fn routes(&self) -> Map<Seq<char>, Seq<MeshPeerInfo>> {
        route_table(self.routes)
    }

    /// The mesh this router tracks.
    pub closed spec fn spec_mesh_name(&self) -> Seq<char> {
        self.mesh_name@
    }

    /// The router's invariant: no route repeats a peer.
    pub open spec fn wf(&self) -> bool {
        routes_wf(self.routes())
    }

    /// An empty router for the named mesh.
    pub fn new(mesh_name: &str) -> (r: MeshRouter)
        ensures
            r.wf(),
            r.spec_mesh_name() == mesh_name@,
            r.routes().dom() == Set::<Seq<char>>::empty(),
    {
        MeshRouter { mesh_name: String::from_str(mesh_name), routes: route_table_new() }
    }

    /// Puts one peer into a route, replacing the peer with the same id.
    fn upsert(peers: &mut Vec<MeshPeerInfo>, info: MeshPeerInfo)
        requires
            distinct_peers(old(peers)@),
        ensures
            final(peers)@ == upsert_peer(old(peers)@, info),
            distinct_peers(final(peers)@),
    {
        let mut i: usize = 0;
        let mut found = false;
        while i < peers.len() && !found
            invariant
                i <= peers@.len(),
                peers@ == old(peers)@,
                found ==> i < peers@.len() && peers@[i as int].peer_id@ == info.peer_id@,
                forall|j: int| 0 <= j < i ==> (#[trigger] peers@[j]).peer_id@ != info.peer_id@,
            decreases peers.len() - i + (if found { 0int } else { 1int }),
        {
            if str_eq(peers[i].peer_id.as_str(), info.peer_id.as_str()) {
                found = true;
            } else {
                i = i + 1;
            }
        }
        if found {
            proof {
                let c = choose|k: int| 0 <= k < peers@.len() && (#[trigger] peers@[k]).peer_id@ == info.peer_id@;
                assert(has_peer(peers@, info.peer_id@));
                assert(0 <= c < peers@.len() && peers@[c].peer_id@ == info.peer_id@);
                if c != i {
                    if c < i {
                        assert(peers@[c].peer_id@ != info.peer_id@);
                    } else {
                        assert(peers@[i as int].peer_id@ != peers@[c].peer_id@);
                    }
                }
            }
            peers.set(i, info);
        } else {
            proof {
                assert(!has_peer(peers@, info.peer_id@));
            }
            peers.push(info);
        }
    }

    /// Updates the routing table from gossip entries: only entries of this mesh
    /// with a non-empty database name are tracked; a peer already routed for a
    /// database is replaced, not added twice.
    pub fn update_from_gossip(&mut self, entries: &Vec<GossipPeerEntry>)
        requires
            old(self).wf(),
        ensures
            final(self).wf(),
            final(self).spec_mesh_name() == old(self).spec_mesh_name(),
            final(self).routes() == route_fold(old(self).routes(), old(self).spec_mesh_name(), entries@),
    {
        let mut i: usize = 0;
        while i < entries.len()
            invariant
                i <= entries@.len(),
                self.wf(),
                self.spec_mesh_name() == old(self).spec_mesh_name(),
                self.routes() == route_fold(old(self).routes(), old(self).spec_mesh_name(), entries@.take(i as int)),
            decreases entries.len() - i,
        {
            proof {
                assert(entries@.take(i + 1).drop_last() =~= entries@.take(i as int));
            }
            let e = &entries[i];
            if str_eq(e.mesh_name.as_str(), self.mesh_name.as_str()) && e.database_name.as_str().unicode_len() > 0 {
                let status = match MeshSharingStatus::from_str(e.sharing_status.as_str()) {
                    Some(s) => s,
                    None => MeshSharingStatus::Private,
                };
                let info = MeshPeerInfo {
                    peer_id: e.peer_id.clone(),
                    endpoint: e.endpoint.clone(),
                    sharing_status: status,
                    last_seen: e.last_seen,
                };
                let mut peers = route_table_get(&self.routes, e.database_name.as_str());
                proof {
                    if !self.routes().dom().contains(e.database_name@) {
                        assert(distinct_peers(peers@));
                    }
                }
                MeshRouter::upsert(&mut peers, info);
                route_table_insert(&mut self.routes, e.database_name.clone(), peers);
            }
            i = i + 1;
        }
        proof {
            assert(entries@.take(entries@.len() as int) =~= entries@);
        }
    }

    /// The peers hosting the named database (none where it is unknown).
    pub fn route(&self, database_name: &str) -> (r: Vec<MeshPeerInfo>)
        ensures
            r@ == (if self.routes().dom().contains(database_name@) {
                self.routes()[database_name@]
            } else {
                Seq::empty()
            }),
    {
        route_table_get(&self.routes, database_name)
    }

    /// Appends the members of one route, in route order.
    fn push_route_members(out: &mut Vec<MeshMember>, db: &String, peers: &Vec<MeshPeerInfo>)
        ensures
            final(out)@.len() == old(out)@.len() + peers@.len(),
            forall|k: int| 0 <= k < old(out)@.len() ==> #[trigger] final(out)@[k] == old(out)@[k],
            forall|c: int|
                0 <= c < peers@.len() ==> member_is(#[trigger] final(out)@[old(out)@.len() + c], db@, peers@[c]),
    {
        let ghost start = out@;
        let mut p: usize = 0;
        while p < peers.len()
            invariant
                p <= peers@.len(),
                out@.len() == start.len() + p,
                forall|k: int| 0 <= k < start.len() ==> #[trigger] out@[k] == start[k],
                forall|c: int| 0 <= c < p ==> member_is(#[trigger] out@[start.len() + c], db@, peers@[c]),
            decreases peers.len() - p,
        {
            let m = MeshMember {
                database_name: db.clone(),
                peer_id: peers[p].peer_id.clone(),
                sharing_status: String::from_str(peers[p].sharing_status.to_str()),
                last_seen: peers[p].last_seen,
            };
            let ghost before = out@;
            out.push(m);
            proof {
                assert forall|c: int| 0 <= c < p + 1 implies member_is(#[trigger] out@[start.len() + c], db@, peers@[c]) by {
                    if c < p {
                        assert(out@[start.len() + c] == before[start.len() + c]);
                    }
                }
            }
            p = p + 1;
        }
    }

    /// Lists all known mesh members, one per routed peer of each database:
    /// the databases in an order the table leaves open, each with its peers
    /// in route order.
    pub fn members(&self) -> (r: Vec<MeshMember>)
        ensures
            forall|q: int|
                #![trigger r@[q]]
                0 <= q < r@.len() ==> member_of(self.routes(), r@[q]),
            exists|e: Seq<(Seq<char>, Seq<MeshPeerInfo>)>|
                {
                    &&& lists_routes(e, self.routes())
                    &&& r@.len() == members_len(e)
                    &&& forall|i: int, p: int|
                        0 <= i < e.len() && 0 <= p < e[i].1.len() ==> member_is(
                            r@[#[trigger] member_index(e, i, p)],
                            e[i].0,
                            e[i].1[p],
                        )
                },
    {
        let entries = route_table_entries(&self.routes);
        let ghost ev = entry_views(entries@);
        let mut out: Vec<MeshMember> = Vec::new();
        let mut i: usize = 0;
        proof {
            assert(ev.take(0) =~= Seq::<(Seq<char>, Seq<MeshPeerInfo>)>::empty());
        }
        while i < entries.len()
            invariant
                i <= entries@.len(),
                ev == entry_views(entries@),
                ev.len() == entries@.len(),
                forall|j: int|
                    0 <= j < entries@.len() ==> self.routes().dom().contains((#[trigger] entries@[j]).0@)
                        && self.routes()[entries@[j].0@] == entries@[j].1@,
                out@.len() == members_len(ev.take(i as int)),
                forall|a: int, c: int|
                    0 <= a < i && 0 <= c < ev[a].1.len() ==> member_index(ev, a, c) < out@.len()
                        && member_is(out@[#[trigger] member_index(ev, a, c)], ev[a].0, ev[a].1[c]),
            decreases entries.len() - i,
        {
            let ghost before = out@;
            proof {
                assert(ev[i as int] == (entries@[i as int].0@, entries@[i as int].1@));
            }
            MeshRouter::push_route_members(&mut out, &entries[i].0, &entries[i].1);
            proof {
                assert(ev.take(i + 1).drop_last() =~= ev.take(i as int));
                assert(ev.take(i + 1).last() == ev[i as int]);
                assert forall|a: int, c: int|
                    0 <= a < i + 1 && 0 <= c < ev[a].1.len() implies member_index(ev, a, c) < out@.len()
                        && member_is(out@[#[trigger] member_index(ev, a, c)], ev[a].0, ev[a].1[c]) by {
                    if a < i {
                        assert(out@[member_index(ev, a, c)] == before[member_index(ev, a, c)]);
                    } else {
                        assert(member_index(ev, a, c) == before.len() + c);
                    }
                }
            }
            i = i + 1;
        }
        proof {
            assert(ev.take(ev.len() as int) =~= ev);
            assert(lists_routes(ev, self.routes())) by {
                assert forall|a: int| 0 <= a < ev.len() implies self.routes().dom().contains((#[trigger] ev[a]).0)
                    && self.routes()[ev[a].0] == ev[a].1 by {
                    assert(entries@[a].0@ == ev[a].0);
                }
                assert forall|k: Seq<char>| #[trigger] self.routes().dom().contains(k) implies exists|a: int|
                    0 <= a < ev.len() && ev[a].0 == k by {
                    assert(route_table(self.routes)[k] == self.routes()[k]);
                    let a = choose|a: int| 0 <= a < entries@.len() && entries@[a].0@ == k;
                    assert(ev[a].0 == k);
                }
                assert forall|a: int, b: int| 0 <= a < b < ev.len() implies (#[trigger] ev[a]).0 != (#[trigger] ev[b]).0 by {
                    assert(entries@[a].0@ != entries@[b].0@);
                }
            }
            assert forall|q: int| 0 <= q < out@.len() implies #[trigger] member_of(self.routes(), out@[q]) by {
                lemma_member_position(ev, q);
                let (a, c) = choose|a: int, c: int| 0 <= a < ev.len() && 0 <= c < ev[a].1.len() && member_index(ev, a, c) == q;
                assert(member_is(out@[member_index(ev, a, c)], ev[a].0, ev[a].1[c]));
                assert(self.routes()[ev[a].0][c] == ev[a].1[c]);
            }
        }
        out
    }

    /// Removes the peers last seen at or before `cutoff` (seconds since the
    /// epoch and nanoseconds), and the databases left with no peer.
    pub fn remove_stale(&mut self, cutoff: Timestamp)
        requires
            old(self).wf(),
        ensures
            final(self).wf(),
            final(self).spec_mesh_name() == old(self).spec_mesh_name(),
            forall|k: Seq<char>| #[trigger] final(self).routes().dom().contains(k) ==> old(self).routes().dom().contains(k)
                && final(self).routes()[k].len() > 0
                && final(self).routes()[k] == old(self).routes()[k].filter(seen_after(cutoff)),
            forall|k: Seq<char>| #![trigger old(self).routes()[k]]
                old(self).routes().dom().contains(k)
                && old(self).routes()[k].filter(seen_after(cutoff)).len() > 0
                ==> final(self).routes().dom().contains(k),
    {
        let entries = route_table_entries(&self.routes);
        let ghost old_routes = self.routes();
        let mut fresh = route_table_new();
        let mut i: usize = 0;
        while i < entries.len()
            invariant
                i <= entries@.len(),
                old_routes == old(self).routes(),
                routes_wf(old_routes),
                forall|j: int|
                    0 <= j < entries@.len() ==> old_routes.dom().contains((#[trigger] entries@[j]).0@)
                        && old_routes[entries@[j].0@] == entries@[j].1@,
                forall|k: Seq<char>| #[trigger] route_table(fresh).dom().contains(k) ==> old_routes.dom().contains(k)
                    && route_table(fresh)[k].len() > 0
                    && route_table(fresh)[k] == old_routes[k].filter(seen_after(cutoff)),
                forall|j: int| 0 <= j < i && old_routes[(#[trigger] entries@[j]).0@].filter(seen_after(cutoff)).len() > 0
                    ==> route_table(fresh).dom().contains(entries@[j].0@),
            decreases entries.len() - i,
        {
            let db = &entries[i].0;
            let peers = &entries[i].1;
            let mut kept: Vec<MeshPeerInfo> = Vec::new();
            let mut p: usize = 0;
            while p < peers.len()
                invariant
                    p <= peers@.len(),
                    kept@ == peers@.take(p as int).filter(seen_after(cutoff)),
                decreases peers.len() - p,
            {
                proof {
                    assert(peers@.take(p as int).push(peers@[p as int]) =~= peers@.take(p + 1));
                    peers@.take(p as int).lemma_filter_push(peers@[p as int], seen_after(cutoff));
                }
                if cutoff.before(&peers[p].last_seen) {
                    kept.push(peers[p].duplicate());
                }
                p = p + 1;
            }
            proof {
                assert(peers@.take(peers@.len() as int) =~= peers@);
            }
            if kept.len() > 0 {
                route_table_insert(&mut fresh, db.clone(), kept);
            }
            i = i + 1;
        }
        proof {
            assert forall|k: Seq<char>| #[trigger] route_table(fresh).dom().contains(k) implies distinct_peers(route_table(fresh)[k]) by {
                lemma_filter_keeps_distinct(old_routes[k], cutoff);
            }
            assert forall|k: Seq<char>| #![trigger old_routes[k]]
                old_routes.dom().contains(k) && old_routes[k].filter(seen_after(cutoff)).len() > 0
                implies route_table(fresh).dom().contains(k) by {
                let j = choose|j: int| 0 <= j < entries@.len() && (#[trigger] entries@[j]).0@ == k;
                assert(old_routes[entries@[j].0@].filter(seen_after(cutoff)).len() > 0);
            }
        }
        self.routes = fresh;
    }
}

/// Whether a peer was seen after the cutoff.
pub open spec fn seen_after(cutoff: Timestamp) -> spec_fn(MeshPeerInfo) -> bool {
    |p: MeshPeerInfo| ts_before(cutoff, p.last_seen)
}

/// Dropping stale peers from a route keeps its peers distinct.
pub proof fn lemma_filter_keeps_distinct(peers: Seq<MeshPeerInfo>, cutoff: Timestamp)
    requires
        distinct_peers(peers),
    ensures
        distinct_peers(peers.filter(seen_after(cutoff))),
    decreases peers.len(),
{
    reveal(Seq::filter);
    if peers.len() > 0 {
        let rest = peers.drop_last();
        assert(distinct_peers(rest));
        lemma_filter_keeps_distinct(rest, cutoff);
        let fr = rest.filter(seen_after(cutoff));
        if seen_after(cutoff)(peers.last()) {
            assert(peers.filter(seen_after(cutoff)) == fr.push(peers.last()));
            assert forall|i: int| 0 <= i < fr.len() implies (#[trigger] fr[i]).peer_id@ != peers.last().peer_id@ by {
                assert(fr.contains(fr[i]));
                rest.lemma_filter_contains_rev(seen_after(cutoff), fr[i]);
                let j = choose|j: int| 0 <= j < rest.len() && rest[j] == fr[i];
                assert(peers[j] == rest[j]);
                assert(peers[peers.len() - 1] == peers.last());
            }
        }
    }
}

/// Name for the HMAC-SHA256 tag of `payload` under `key`, as the `hmac` crate's
/// `Hmac<Sha256>` computes it.
pub uninterp spec fn hmac_sha256(key: Seq<u8>, payload: Seq<u8>) -> Seq<u8>;

/// `hmac::Hmac<sha2::Sha256>`: `new_from_slice`, `update`, `finalize`.
/// Trusted: the tag is `hmac_sha256(key, payload)` and has 32 bytes (the SHA-256
/// output size). `new_from_slice` accepts keys of every length for HMAC.
#[verifier::external_body]
fn hmac_sha256_tag(key: &[u8], payload: &[u8]) -> (r: Vec<u8>)
    ensures
        r@ == hmac_sha256(key@, payload@),
        r@.len() == 32,
{
    let mut mac = <hmac::Hmac<sha2::Sha256> as Mac>::new_from_slice(key).expect("HMAC can take key of any size");
    mac.update(payload);
    mac.finalize().into_bytes().to_vec()
}

/// `hmac::Mac::verify_slice` for `Hmac<Sha256>`.
/// Trusted: succeeds exactly when `tag` equals the full tag `hmac_sha256(key, payload)`
/// (the source rejects tags of another length and compares the rest in constant time).
#[verifier::external_body]
fn hmac_sha256_verify(key: &[u8], payload: &[u8], tag: &[u8]) -> (r: bool)
    ensures
        r == (tag@ == hmac_sha256(key@, payload@)),
{
    let mut mac = <hmac::Hmac<sha2::Sha256> as Mac>::new_from_slice(key).expect("HMAC can take key of any size");
    mac.update(payload);
    mac.verify_slice(tag).is_ok()
}

/// The mesh tag of a payload: HMAC-SHA256 keyed by the UTF-8 bytes of the secret.
pub open spec fn spec_mesh_tag(secret: Seq<char>, payload: Seq<u8>) -> Seq<u8> {
    hmac_sha256(encode_utf8(secret), payload)
}

/// Whether `tag` authenticates `payload` under the mesh secret.
pub open spec fn spec_mesh_tag_valid(secret: Seq<char>, payload: Seq<u8>, tag: Seq<u8>) -> bool {
    tag == spec_mesh_tag(secret, payload)
}

/// Compute the HMAC-SHA256 tag over `payload` using the mesh secret.
pub fn compute_mesh_hmac(secret: &str, payload: &[u8]) -> (r: Vec<u8>)
    ensures
        r@ == spec_mesh_tag(secret@, payload@),
        r@.len() == 32,
{
    hmac_sha256_tag(secret.as_bytes(), payload)
}

/// Verify an HMAC-SHA256 tag over `payload` using the mesh secret.
pub fn verify_mesh_hmac(secret: &str, payload: &[u8], tag: &[u8]) -> (r: bool)
    ensures
        r == spec_mesh_tag_valid(secret@, payload@, tag@),
{
    hmac_sha256_verify(secret.as_bytes(), payload, tag)
}

/// A tag computed with a secret over a payload verifies with the same secret and payload.
pub proof fn lemma_mesh_hmac_roundtrip(secret: Seq<char>, payload: Seq<u8>)
    ensures
        spec_mesh_tag_valid(secret, payload, spec_mesh_tag(secret, payload)),
{
}

} // verus!
