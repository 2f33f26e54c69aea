//! Peer discovery: seed peers from the configuration, peers learned through
//! gossip, and peers announced over mDNS, kept in one table keyed by peer id.

use vstd::prelude::*;
use crate::document::now_instant;
use crate::tables::{
    discovery_table, discovery_table_get, discovery_table_insert, discovery_table_len,
    discovery_table_new, discovery_table_values, DiscoveryTable,
};
use crate::text::{push_digits, push_text, str_eq, decimal_digits};
use crate::wire::{DiscoveredPeer, DiscoverySource, Timestamp};

verus! {

/// The current time as a timestamp.
fn now_timestamp() -> (r: Timestamp) {
    let t = now_instant();
    Timestamp { secs: t.0, nanos: t.1 }
}


/// The peer id under which a seed endpoint is recorded.
pub open spec fn seed_peer_id(endpoint: Seq<char>) -> Seq<char> {
    "seed:"@ + endpoint
}

/// The endpoint of a peer announced over mDNS at an address and port.
pub open spec fn spec_mdns_endpoint(addr: Seq<char>, port: u16) -> Seq<char> {
    "wss://"@ + addr + ":"@ + decimal_digits(port as nat)
}

/// Whether some seed in `seeds` is recorded under `k`.
pub open spec fn names_a_seed(seeds: Seq<String>, k: Seq<char>) -> bool {
    exists|i: int| 0 <= i < seeds.len() && k == seed_peer_id(#[trigger] seeds[i]@)
}

/// Whether a peer was recorded from `source` under `k` with `endpoint`.
pub open spec fn recorded(p: DiscoveredPeer, k: Seq<char>, endpoint: Seq<char>, source: DiscoverySource) -> bool {
    &&& p.peer_id@ == k
    &&& p.endpoint@ == endpoint
    &&& p.source == source
}

/// Manages peer discovery via mDNS, seed peers and gossip.
pub struct DiscoveryManager {
    discovered: DiscoveryTable,
    my_peer_id: String,
    my_port: u16,
}

impl DiscoveryManager {
    /// The discovered peers, by peer id.
    pub closed spec fn peers(&self) -> Map<Seq<char>, DiscoveredPeer> {
        discovery_table(self.discovered)
    }

    /// This node's peer id.
    pub closed spec fn me(&self) -> Seq<char> {
        self.my_peer_id@
    }

    /// The port this node announces.
    pub closed spec fn port(&self) -> u16 {
        self.my_port
    }

    /// The table is finite and each peer is stored under its own id.
    pub closed spec fn wf(&self) -> bool {
        &&& self.peers().dom().finite()
        &&& forall|k: Seq<char>| #[trigger] self.peers().dom().contains(k) ==> self.peers()[k].peer_id@ == k
    }

    /// A manager with no discovered peers.
    pub fn new(peer_id: &str, port: u16) -> (r: DiscoveryManager)
        ensures
            r.wf(),
            r.peers().dom() == Set::<Seq<char>>::empty(),
            r.me() == peer_id@,
            r.port() == port,
    {
        DiscoveryManager { discovered: discovery_table_new(), my_peer_id: peer_id.to_string(), my_port: port }
    }

    /// Records each seed endpoint as a peer with id `seed:<endpoint>`; the other
    /// peers stay as they were.
    pub fn add_seed_peers(&mut self, seeds: &Vec<String>)
        requires
            old(self).wf(),
        ensures
            final(self).wf(),
            final(self).me() == old(self).me(),
            final(self).port() == old(self).port(),
            forall|k: Seq<char>|
                #[trigger] final(self).peers().dom().contains(k) <==> (old(self).peers().dom().contains(k)
                    || names_a_seed(seeds@, k)),
            forall|k: Seq<char>|
                #[trigger] final(self).peers().dom().contains(k) && !names_a_seed(seeds@, k) ==> final(self).peers()[k] == old(self).peers()[k],
            forall|i: int|
                0 <= i < seeds@.len() ==> recorded(
                    final(self).peers()[seed_peer_id(#[trigger] seeds@[i]@)],
                    seed_peer_id(seeds@[i]@),
                    seeds@[i]@,
                    DiscoverySource::Seed,
                ),
    {
        let mut i: usize = 0;
        while i < seeds.len()
            invariant
                i <= seeds@.len(),
                self.wf(),
                self.me() == old(self).me(),
                self.port() == old(self).port(),
                forall|k: Seq<char>|
                    #[trigger] self.peers().dom().contains(k) <==> (old(self).peers().dom().contains(k)
                        || names_a_seed(seeds@.take(i as int), k)),
                forall|k: Seq<char>|
                    #[trigger] self.peers().dom().contains(k) && !names_a_seed(seeds@.take(i as int), k)
                        ==> self.peers()[k] == old(self).peers()[k],
                forall|j: int|
                    0 <= j < i ==> recorded(
                        self.peers()[seed_peer_id(#[trigger] seeds@[j]@)],
                        seed_peer_id(seeds@[j]@),
                        seeds@[j]@,
                        DiscoverySource::Seed,
                    ),
            decreases seeds.len() - i,
        {
            let endpoint = &seeds[i];
            let mut id = String::new();
            push_text(&mut id, "seed:");
            push_text(&mut id, endpoint.as_str());
            proof {
                reveal_strlit("seed:");
                assert(id@ =~= seed_peer_id(seeds@[i as int]@));
            }
            let peer = DiscoveredPeer {
                peer_id: id.clone(),
                endpoint: endpoint.clone(),
                source: DiscoverySource::Seed,
                discovered_at: now_timestamp(),
            };
            let ghost before = self.peers();
            discovery_table_insert(&mut self.discovered, id, peer);
            proof {
                let key = seed_peer_id(seeds@[i as int]@);
                assert forall|k: Seq<char>| names_a_seed(seeds@.take(i + 1), k) <==> (names_a_seed(
                    seeds@.take(i as int),
                    k,
                ) || k == key) by {
                    if names_a_seed(seeds@.take(i + 1), k) {
                        let w = choose|w: int| 0 <= w < seeds@.take(i + 1).len() && k == seed_peer_id(
                            #[trigger] seeds@.take(i + 1)[w]@,
                        );
                        if w < i {
                            assert(seeds@.take(i as int)[w] == seeds@.take(i + 1)[w]);
                        }
                    }
                    if names_a_seed(seeds@.take(i as int), k) {
                        let w = choose|w: int| 0 <= w < seeds@.take(i as int).len() && k == seed_peer_id(
                            #[trigger] seeds@.take(i as int)[w]@,
                        );
                        assert(seeds@.take(i + 1)[w] == seeds@.take(i as int)[w]);
                    }
                    if k == key {
                        assert(seeds@.take(i + 1)[i as int] == seeds@[i as int]);
                        assert(k == seed_peer_id(seeds@.take(i + 1)[i as int]@));
                    }
                }
                assert(self.peers() == before.insert(key, self.peers()[key]));
                assert forall|k: Seq<char>| #[trigger] self.peers().dom().contains(k) <==> (old(self).peers().dom().contains(k)
                    || names_a_seed(seeds@.take(i + 1), k)) by {
                    if k == key {
                        assert(seeds@.take(i + 1)[i as int] == seeds@[i as int]);
                        assert(k == seed_peer_id(seeds@.take(i + 1)[i as int]@));
                    }
                }
                assert forall|k: Seq<char>|
                    #[trigger] self.peers().dom().contains(k) && !names_a_seed(seeds@.take(i + 1), k)
                        implies self.peers()[k] == old(self).peers()[k] by {
                    if k == key {
                        assert(seeds@.take(i + 1)[i as int] == seeds@[i as int]);
                        assert(k == seed_peer_id(seeds@.take(i + 1)[i as int]@));
                    }
                    assert(!names_a_seed(seeds@.take(i as int), k));
                }
                assert forall|j: int| 0 <= j < i + 1 implies recorded(
                    self.peers()[seed_peer_id(#[trigger] seeds@[j]@)],
                    seed_peer_id(seeds@[j]@),
                    seeds@[j]@,
                    DiscoverySource::Seed,
                ) by {
                    if seed_peer_id(seeds@[j]@) != key {
                        assert(seeds@[j]@ != seeds@[i as int]@);
                    } else {
                        assert(seeds@[j]@ =~= seeds@[i as int]@) by {
                            assert(seeds@[j]@ =~= seed_peer_id(seeds@[j]@).subrange(5, seed_peer_id(seeds@[j]@).len() as int));
                            assert(seeds@[i as int]@ =~= key.subrange(5, key.len() as int));
                        }
                    }
                }
            }
            i = i + 1;
        }
        proof {
            assert(seeds@.take(seeds@.len() as int) =~= seeds@);
        }
    }

    /// Records a peer learned through gossip, replacing any earlier record of
    /// it; this node itself is never recorded.
    pub fn add_gossip_peer(&mut self, peer_id: &str, endpoint: &str)
        requires
            old(self).wf(),
        ensures
            final(self).wf(),
            final(self).me() == old(self).me(),
            final(self).port() == old(self).port(),
            peer_id@ == old(self).me() ==> final(self).peers() == old(self).peers(),
            peer_id@ != old(self).me() ==> {
                &&& final(self).peers().dom() == old(self).peers().dom().insert(peer_id@)
                &&& recorded(final(self).peers()[peer_id@], peer_id@, endpoint@, DiscoverySource::Gossip)
                &&& forall|k: Seq<char>|
                    #[trigger] old(self).peers().dom().contains(k) && k != peer_id@ ==> final(self).peers()[k] == old(self).peers()[k]
            },
    {
        if str_eq(peer_id, self.my_peer_id.as_str()) {
            return;
        }
        let peer = DiscoveredPeer {
            peer_id: peer_id.to_string(),
            endpoint: endpoint.to_string(),
            source: DiscoverySource::Gossip,
            discovered_at: now_timestamp(),
        };
        discovery_table_insert(&mut self.discovered, peer_id.to_string(), peer);
    }

    /// Records a peer announced over mDNS under the `peer_id` property, at the
    /// first announced address; announcements of this node, without a peer id
    /// or without an address are ignored. Returns whether a peer was recorded.
    pub fn add_mdns_peer(&mut self, peer_id: &str, addr: Option<&str>, port: u16) -> (r: bool)
        requires
            old(self).wf(),
        ensures
            final(self).wf(),
            final(self).me() == old(self).me(),
            final(self).port() == old(self).port(),
            r == (peer_id@.len() > 0 && peer_id@ != old(self).me() && addr is Some),
            !r ==> final(self).peers() == old(self).peers(),
            r ==> {
                &&& final(self).peers().dom() == old(self).peers().dom().insert(peer_id@)
                &&& recorded(
                    final(self).peers()[peer_id@],
                    peer_id@,
                    spec_mdns_endpoint(addr->0@, port),
                    DiscoverySource::Mdns,
                )
                &&& forall|k: Seq<char>|
                    #[trigger] old(self).peers().dom().contains(k) && k != peer_id@ ==> final(self).peers()[k] == old(self).peers()[k]
            },
    {
        if peer_id.unicode_len() == 0 || str_eq(peer_id, self.my_peer_id.as_str()) {
            return false;
        }
        match addr {
            None => false,
            Some(a) => {
                let endpoint = mdns_endpoint(a, port);
                let peer = DiscoveredPeer {
                    peer_id: peer_id.to_string(),
                    endpoint,
                    source: DiscoverySource::Mdns,
                    discovered_at: now_timestamp(),
                };
                discovery_table_insert(&mut self.discovered, peer_id.to_string(), peer);
                true
            },
        }
    }

    /// All discovered peers, each once, in an order the table leaves open.
    pub fn discovered_peers(&self) -> (r: Vec<DiscoveredPeer>)
        requires
            self.wf(),
        ensures
            r@.len() == self.peers().dom().len(),
            forall|i: int|
                0 <= i < r@.len() ==> self.peers().dom().contains((#[trigger] r@[i]).peer_id@)
                    && self.peers()[r@[i].peer_id@] == r@[i],
            forall|k: Seq<char>|
                #[trigger] self.peers().dom().contains(k) ==> exists|i: int|
                    0 <= i < r@.len() && r@[i] == self.peers()[k],
    {
        let r = discovery_table_values(&self.discovered);
        proof {
            assert forall|i: int| 0 <= i < r@.len() implies self.peers().dom().contains(
                (#[trigger] r@[i]).peer_id@,
            ) && self.peers()[r@[i].peer_id@] == r@[i] by {
                let k = choose|k: Seq<char>|
                    #![trigger discovery_table(self.discovered)[k]]
                    discovery_table(self.discovered).dom().contains(k) && discovery_table(self.discovered)[k]
                        == r@[i];
                assert(self.peers().dom().contains(k));
            }
            assert forall|k: Seq<char>| #[trigger] self.peers().dom().contains(k) implies exists|i: int|
                0 <= i < r@.len() && r@[i] == self.peers()[k] by {
                assert(discovery_table(self.discovered)[k] == self.peers()[k]);
            }
        }
        r
    }

    /// The peer recorded under `peer_id`, if any.
    pub fn get_peer(&self, peer_id: &str) -> (r: Option<DiscoveredPeer>)
        ensures
            r == (if self.peers().dom().contains(peer_id@) {
                Some(self.peers()[peer_id@])
            } else {
                None
            }),
    {
        discovery_table_get(&self.discovered, peer_id)
    }

    /// The number of discovered peers.
    pub fn peer_count(&self) -> (r: usize)
        ensures
            r == self.peers().dom().len(),
    {
        discovery_table_len(&self.discovered)
    }
}

/// The endpoint `wss://<addr>:<port>` of a peer announced over mDNS.
pub fn mdns_endpoint(addr: &str, port: u16) -> (r: String)
    ensures
        r@ == spec_mdns_endpoint(addr@, port),
{
    let mut s = String::new();
    push_text(&mut s, "wss://");
    push_text(&mut s, addr);
    push_text(&mut s, ":");
    push_digits(&mut s, port as u64);
    proof {
        reveal_strlit("wss://");
        reveal_strlit(":");
        assert(s@ =~= spec_mdns_endpoint(addr@, port));
    }
    s
}

} // verus!
