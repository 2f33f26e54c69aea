//! The concurrent maps of the transport layer (`dashmap::DashMap`): the table
//! of peers learned from gossip and the mesh routing table. Each table's
//! contents have a name, and each method the logic calls has a wrapper whose
//! contract says what it does to the contents. `DashMap` changes through a
//! shared reference; the wrappers that change a table take it by `&mut` so
//! that the change is visible to the proofs.

use vstd::prelude::*;
use crate::mesh::MeshPeerInfo;
use crate::wire::{DiscoveredPeer, GossipPeerEntry};
use crate::gossip::enumerates;
use dashmap::DashMap;

verus! {

#[verifier::external_type_specification]
#[verifier::external_body]
#[verifier::reject_recursive_types(K)]
#[verifier::reject_recursive_types(V)]
#[verifier::reject_recursive_types(S)]
pub struct ExDashMap<K, V, S>(DashMap<K, V, S>);

/// The gossip peer table, keyed by peer id.
pub type PeerTable = DashMap<String, GossipPeerEntry>;

/// The mesh routing table, keyed by database name.
pub type RouteTable = DashMap<String, Vec<MeshPeerInfo>>;

/// What the gossip peer table holds: peer id to its latest entry.
pub uninterp spec fn peer_table(m: PeerTable) -> Map<Seq<char>, GossipPeerEntry>;

/// `DashMap::new`. Trusted: the new table is empty.
#[verifier::external_body]
pub(crate) fn peer_table_new() -> (r: PeerTable)
    ensures
        peer_table(r).dom() == Set::<Seq<char>>::empty(),
{
    DashMap::new()
}

/// `DashMap::get`, the entry cloned out. Trusted: the entry stored under the
/// key, if any (a derived `Clone` of strings and integers gives an equal value).
#[verifier::external_body]
pub(crate) fn peer_table_get(m: &PeerTable, key: &str) -> (r: Option<GossipPeerEntry>)
    ensures
        r == (if peer_table(*m).dom().contains(key@) {
            Some(peer_table(*m)[key@])
        } else {
            None
        }),
{
    m.get(key).map(|e| e.value().clone())
}

/// `DashMap::insert`. Trusted: afterwards the key maps to the value and the
/// other keys are unchanged.
#[verifier::external_body]
pub(crate) fn peer_table_insert(m: &mut PeerTable, key: String, value: GossipPeerEntry)
    ensures
        peer_table(*final(m)) == peer_table(*old(m)).insert(key@, value),
{
    m.insert(key, value);
}

/// `DashMap::iter`, each value cloned out. Trusted: one value per key, in an
/// order that the source leaves open.
#[verifier::external_body]
pub(crate) fn peer_table_values(m: &PeerTable) -> (r: Vec<GossipPeerEntry>)
    ensures
        enumerates(r@, peer_table(*m)),
{
    m.iter().map(|e| e.value().clone()).collect()
}

/// What the mesh routing table holds: database name to the peers hosting it.
pub uninterp spec fn route_table(m: RouteTable) -> Map<Seq<char>, Seq<MeshPeerInfo>>;

/// `DashMap::new`. Trusted: the new table is empty.
#[verifier::external_body]
pub(crate) fn route_table_new() -> (r: RouteTable)
    ensures
        route_table(r).dom() == Set::<Seq<char>>::empty(),
{
    DashMap::new()
}

/// `DashMap::get`, the peers cloned out. Trusted: the peers stored under the
/// key, or none where the key is absent.
#[verifier::external_body]
pub(crate) fn route_table_get(m: &RouteTable, key: &str) -> (r: Vec<MeshPeerInfo>)
    ensures
        r@ == (if route_table(*m).dom().contains(key@) {
            route_table(*m)[key@]
        } else {
            Seq::empty()
        }),
{
    m.get(key).map(|e| e.value().clone()).unwrap_or_default()
}

/// `DashMap::insert`. Trusted: afterwards the key maps to the peers and the
/// other keys are unchanged.
#[verifier::external_body]
pub(crate) fn route_table_insert(m: &mut RouteTable, key: String, value: Vec<MeshPeerInfo>)
    ensures
        route_table(*final(m)) == route_table(*old(m)).insert(key@, value@),
{
    m.insert(key, value);
}

/// `DashMap::remove`. Trusted: afterwards the key is absent and the other
/// keys are unchanged.
#[verifier::external_body]
pub(crate) fn route_table_remove(m: &mut RouteTable, key: &str)
    ensures
        route_table(*final(m)) == route_table(*old(m)).remove(key@),
{
    m.remove(key);
}

/// `DashMap::iter`, each key and its peers cloned out. Trusted: each key once,
/// in an order that the source leaves open.
#[verifier::external_body]
pub(crate) fn route_table_entries(m: &RouteTable) -> (r: Vec<(String, Vec<MeshPeerInfo>)>)
    ensures
        forall|i: int|
            0 <= i < r@.len() ==> route_table(*m).dom().contains((#[trigger] r@[i]).0@)
                && route_table(*m)[r@[i].0@] == r@[i].1@,
        forall|k: Seq<char>|
            #![trigger route_table(*m)[k]]
            route_table(*m).dom().contains(k) ==> exists|i: int|
                0 <= i < r@.len() && r@[i].0@ == k,
        forall|i: int, j: int| 0 <= i < j < r@.len() ==> r@[i].0@ != r@[j].0@,
{
    m.iter().map(|e| (e.key().clone(), e.value().clone())).collect()
}

/// The table of discovered peers, keyed by peer id.
pub type DiscoveryTable = DashMap<String, DiscoveredPeer>;

/// What the discovery table holds: peer id to the peer found under it.
pub uninterp spec fn discovery_table(m: DiscoveryTable) -> Map<Seq<char>, DiscoveredPeer>;

/// `DashMap::new`. Trusted: the new table is empty.
#[verifier::external_body]
pub(crate) fn discovery_table_new() -> (r: DiscoveryTable)
    ensures
        discovery_table(r).dom() == Set::<Seq<char>>::empty(),
{
    DashMap::new()
}

/// `DashMap::get`, the peer cloned out. Trusted: the peer stored under the
/// key, if any (a derived `Clone` of strings, integers and a fieldless enum
/// gives an equal value).
#[verifier::external_body]
pub(crate) fn discovery_table_get(m: &DiscoveryTable, key: &str) -> (r: Option<DiscoveredPeer>)
    ensures
        r == (if discovery_table(*m).dom().contains(key@) {
            Some(discovery_table(*m)[key@])
        } else {
            None
        }),
{
    m.get(key).map(|e| e.value().clone())
}

/// `DashMap::insert`. Trusted: afterwards the key maps to the value and the
/// other keys are unchanged.
#[verifier::external_body]
pub(crate) fn discovery_table_insert(m: &mut DiscoveryTable, key: String, value: DiscoveredPeer)
    ensures
        discovery_table(*final(m)) == discovery_table(*old(m)).insert(key@, value),
{
    m.insert(key, value);
}

/// `DashMap::len`. Trusted: the number of keys in the table.
#[verifier::external_body]
pub(crate) fn discovery_table_len(m: &DiscoveryTable) -> (r: usize)
    ensures
        r == discovery_table(*m).dom().len(),
{
    m.len()
}

/// `DashMap::iter`, each value cloned out. Trusted: one value per key, each key
/// once, in an order that the source leaves open.
#[verifier::external_body]
pub(crate) fn discovery_table_values(m: &DiscoveryTable) -> (r: Vec<DiscoveredPeer>)
    ensures
        r@.len() == discovery_table(*m).dom().len(),
        forall|i: int|
            #![trigger r@[i]]
            0 <= i < r@.len() ==> exists|k: Seq<char>|
                #![trigger discovery_table(*m)[k]]
                discovery_table(*m).dom().contains(k) && discovery_table(*m)[k] == r@[i],
        forall|k: Seq<char>|
            #![trigger discovery_table(*m)[k]]
            discovery_table(*m).dom().contains(k) ==> exists|i: int|
                0 <= i < r@.len() && r@[i] == discovery_table(*m)[k],
{
    m.iter().map(|e| e.value().clone()).collect()
}

} // verus!
