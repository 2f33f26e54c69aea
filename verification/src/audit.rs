//! The outbound share audit log's paging: entries are read in key order, the
//! ones that cannot be decoded are passed over, and a page is cut by offset
//! and limit.

use vstd::prelude::*;
use crate::wire::NodeShareAuditEntry;

verus! {

/// The decodable entries, in order.
pub open spec fn decoded(entries: Seq<Option<NodeShareAuditEntry>>) -> Seq<NodeShareAuditEntry>
    decreases entries.len(),
{
    if entries.len() == 0 {
        Seq::empty()
    } else {
        let rest = decoded(entries.drop_last());
        match entries.last() {
            Some(e) => rest.push(e),
            None => rest,
        }
    }
}

/// The page of `items` that starts at `offset` and holds at most `limit` items.
pub open spec fn page_of<T>(items: Seq<T>, offset: int, limit: int) -> Seq<T> {
    let start = if offset < items.len() { offset } else { items.len() as int };
    let end = if start + limit < items.len() { start + limit } else { items.len() as int };
    items.subrange(start, end)
}

/// The entries of a page of the log: `entries` is the log in key order, with
/// none for an entry that could not be decoded.
pub fn recent_page(entries: Vec<Option<NodeShareAuditEntry>>, offset: usize, limit: usize) -> (r: Vec<NodeShareAuditEntry>)
    ensures
        r@ == page_of(decoded(entries@), offset as int, limit as int),
{
    // Entries are moved out from the back of a vector, so the log is reversed
    // once and then taken apart in its own order.
    let mut all: Vec<NodeShareAuditEntry> = Vec::new();
    let mut rest = entries;
    let ghost full = rest@;
    let mut rev: Vec<Option<NodeShareAuditEntry>> = Vec::new();
    while rest.len() > 0
        invariant
            rest@.len() + rev@.len() == full.len(),
            forall|j: int| 0 <= j < rest@.len() ==> rest@[j] == full[j],
            forall|j: int| 0 <= j < rev@.len() ==> rev@[j] == full[full.len() - 1 - j],
        decreases rest@.len(),
    {
        let e = rest.pop().unwrap();
        rev.push(e);
    }
    while rev.len() > 0
        invariant
            rev@.len() <= full.len(),
            forall|j: int| 0 <= j < rev@.len() ==> rev@[j] == full[full.len() - 1 - j],
            all@ == decoded(full.take(full.len() - rev@.len())),
        decreases rev@.len(),
    {
        let ghost k: int = full.len() - rev@.len();
        let e = rev.pop().unwrap();
        proof {
            assert(e == full[k]);
            assert(full.take(k + 1).drop_last() =~= full.take(k));
            assert(full.take(k + 1).last() == full[k]);
        }
        match e {
            Some(x) => all.push(x),
            None => {},
        }
    }
    proof {
        assert(full.take(full.len() as int) =~= full);
    }
    let ghost items = all@;
    let start = if offset < all.len() { offset } else { all.len() };
    let end = if limit < all.len() - start { start + limit } else { all.len() };
    let mut tail: Vec<NodeShareAuditEntry> = all.split_off(start);
    proof {
        assert(tail@ == items.subrange(start as int, items.len() as int));
    }
    tail.truncate(end - start);
    proof {
        assert(tail@ =~= items.subrange(start as int, end as int));
    }
    tail
}

} // verus!
