//! The interface through which the transport layer hands inbound federated
//! queries and mesh notifications to the engines, and the default way of
//! merging a local result with the results of forwarded queries.

use vstd::prelude::*;
use crate::wire::TransportError;

verus! {

/// The first non-empty result of a list, or the empty result.
pub open spec fn first_nonempty(results: Seq<Seq<u8>>) -> Seq<u8>
    decreases results.len(),
{
    if results.len() == 0 {
        Seq::empty()
    } else if results[0].len() > 0 {
        results[0]
    } else {
        first_nonempty(results.drop_first())
    }
}

/// The contents of each result of a list.
pub open spec fn result_views(results: Seq<Vec<u8>>) -> Seq<Seq<u8>> {
    results.map_values(|r: Vec<u8>| r@)
}

/// The default merge: the local result if it is non-empty, otherwise the first
/// non-empty remote result, otherwise nothing.
pub open spec fn spec_default_merge(local: Seq<u8>, remote: Seq<Seq<u8>>) -> Seq<u8> {
    if local.len() > 0 {
        local
    } else {
        first_nonempty(remote)
    }
}

/// Skipping a prefix of empty results does not change the first non-empty one.
proof fn lemma_first_nonempty_skip(results: Seq<Seq<u8>>, i: int)
    requires
        0 <= i <= results.len(),
        forall|j: int| 0 <= j < i ==> (#[trigger] results[j]).len() == 0,
    ensures
        first_nonempty(results) == first_nonempty(results.skip(i)),
    decreases i,
{
    if i > 0 {
        assert(results.drop_first().skip(i - 1) =~= results.skip(i));
        assert forall|j: int| 0 <= j < i - 1 implies (#[trigger] results.drop_first()[j]).len() == 0 by {
            assert(results.drop_first()[j] == results[j + 1]);
        }
        lemma_first_nonempty_skip(results.drop_first(), i - 1);
    } else {
        assert(results.skip(0) =~= results);
    }
}

/// The default merge keeps a non-empty local result; otherwise it takes the
/// remote result at the first position whose result is non-empty, and it is
/// empty only when every result, local and remote, is empty.
pub proof fn lemma_default_merge_first_nonempty(local: Seq<u8>, remote: Seq<Seq<u8>>, k: int)
    requires
        0 <= k <= remote.len(),
        forall|j: int| 0 <= j < k ==> (#[trigger] remote[j]).len() == 0,
    ensures
        local.len() > 0 ==> spec_default_merge(local, remote) == local,
        local.len() == 0 && k < remote.len() && remote[k].len() > 0 ==> spec_default_merge(local, remote)
            == remote[k],
        local.len() == 0 && k == remote.len() ==> spec_default_merge(local, remote).len() == 0,
{
    lemma_first_nonempty_skip(remote, k);
    if k == remote.len() {
        assert(remote.skip(k).len() == 0);
    } else {
        assert(remote.skip(k)[0] == remote[k]);
    }
}

/// Returns the local result if it is non-empty, otherwise the first non-empty
/// remote result, otherwise an empty result.
pub fn default_merge(local_result: Vec<u8>, remote_results: Vec<Vec<u8>>) -> (r: Vec<u8>)
    ensures
        r@ == spec_default_merge(local_result@, result_views(remote_results@)),
{
    if local_result.len() > 0 {
        return local_result;
    }
    let ghost views = result_views(remote_results@);
    let mut remote = remote_results;
    let mut i: usize = 0;
    while i < remote.len()
        invariant
            i <= remote@.len(),
            views == result_views(remote@),
            views == result_views(remote_results@),
            local_result@.len() == 0,
            forall|j: int| 0 <= j < i ==> (#[trigger] views[j]).len() == 0,
        decreases remote.len() - i,
    {
        if remote[i].len() > 0 {
            proof {
                lemma_first_nonempty_skip(views, i as int);
                assert(views[i as int] == remote@[i as int]@);
                assert(views.skip(i as int).len() > 0);
                assert(views.skip(i as int)[0] == views[i as int]);
                assert(first_nonempty(views.skip(i as int)) == views[i as int]);
            }
            return remote.remove(i);
        }
        i = i + 1;
    }
    proof {
        lemma_first_nonempty_skip(views, i as int);
        assert(views.skip(i as int).len() == 0);
    }
    Vec::new()
}

/// Handles inbound federated queries and mesh notifications; implemented by the
/// layer that has access to the engines.
pub trait QueryHandler {
    /// Handles an inbound federated query of a type (`nosql`, `graph` or
    /// `vector`) with MessagePack-encoded query data from an originating peer,
    /// and returns MessagePack-encoded results.
    fn handle_query(&self, query_type: &str, query_data: &[u8], origin_peer_id: &str) -> Result<Vec<u8>, TransportError>;

    /// Merges a local result with the results collected from forwarded queries;
    /// by default, `default_merge`: the local result if it is non-empty, else
    /// the first non-empty remote result, else an empty result. Implementors
    /// may merge otherwise (deduplicate, sort, take the union).
    fn merge_results(&self, query_type: &str, local_result: Vec<u8>, remote_results: Vec<Vec<u8>>) -> (r: Vec<u8>)
        default_ensures
            r@ == spec_default_merge(local_result@, result_views(remote_results@)),
    {
        default_merge(local_result, remote_results)
    }

    /// Handles an inbound trigger notification; by default, nothing happens.
    fn handle_trigger_notification(&self, payload: &[u8], origin_peer_id: &str) {
    }

    /// Handles an inbound preference sync; by default, nothing happens.
    fn handle_preference_sync(&self, payload: &[u8], origin_peer_id: &str) {
    }

    /// Handles an inbound singleton sync; by default, nothing happens.
    fn handle_singleton_sync(&self, payload: &[u8], origin_peer_id: &str) {
    }
}

} // verus!
