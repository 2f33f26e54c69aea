//! Queries over documents: an optional filter, sort fields, an offset and a
//! limit. Sorting is stable: documents that compare equal keep their order.

use vstd::prelude::*;
use vstd::string::StringExecFns;
use crate::catalog::{flip, lemma_lex_flip};
use crate::document::Document;
use crate::filter::{Filter, spec_filter_matches};
use crate::value::{Value, ValueOrder, compare_field_values, spec_compare_field_values, spec_compare_values};

verus! {

/// Sort direction.
#[derive(Debug, Clone, Copy, PartialEq, Eq, Structural)]
pub enum SortDirection {
    Asc,
    Desc,
}

/// A field to sort by, and its direction.
#[derive(Debug, Clone)]
pub struct SortField {
    pub field: String,
    pub direction: SortDirection,
}

/// A query.
#[derive(Debug)]
pub struct Query {
    pub filter: Option<Filter>,
    pub sort: Vec<SortField>,
    pub offset: Option<usize>,
    pub limit: Option<usize>,
}

/// The order of two documents under the sort fields from position `i` on:
/// the first field on which they differ decides, reversed for a descending field.
pub open spec fn doc_order_from(sort: Seq<SortField>, i: int, a: Document, b: Document) -> ValueOrder
    decreases sort.len() - i,
{
    if i < 0 || i >= sort.len() {
        ValueOrder::Equal
    } else {
        let o = spec_compare_field_values(a.spec_get_field(sort[i].field@), b.spec_get_field(sort[i].field@));
        let o2 = match sort[i].direction {
            SortDirection::Asc => o,
            SortDirection::Desc => flip(o),
        };
        if o2 != ValueOrder::Equal {
            o2
        } else {
            doc_order_from(sort, i + 1, a, b)
        }
    }
}

/// The order of two documents under the sort fields.
pub open spec fn doc_order(sort: Seq<SortField>, a: Document, b: Document) -> ValueOrder {
    doc_order_from(sort, 0, a, b)
}

/// Swapping two values reverses their order.
pub proof fn lemma_compare_values_flip(a: Value, b: Value)
    ensures
        match (spec_compare_values(a, b), spec_compare_values(b, a)) {
            (Some(x), Some(y)) => y == flip(x),
            (None, None) => true,
            _ => false,
        },
{
    match (a, b) {
        (Value::Str(x), Value::Str(y)) => {
            lemma_lex_flip(x@, y@);
        },
        _ => {},
    }
}

/// Swapping two documents reverses their order.
pub proof fn lemma_doc_order_flip(sort: Seq<SortField>, i: int, a: Document, b: Document)
    ensures
        doc_order_from(sort, i, b, a) == flip(doc_order_from(sort, i, a, b)),
    decreases sort.len() - i,
{
    if 0 <= i < sort.len() {
        let fa = a.spec_get_field(sort[i].field@);
        let fb = b.spec_get_field(sort[i].field@);
        match (fa, fb) {
            (Some(x), Some(y)) => {
                lemma_compare_values_flip(x, y);
            },
            _ => {},
        }
        lemma_doc_order_flip(sort, i + 1, a, b);
    }
}

/// Dropping the first sort field shifts the positions of the others by one.
proof fn lemma_doc_order_from_shift(sort: Seq<SortField>, i: int, a: Document, b: Document)
    requires
        sort.len() > 0,
        0 <= i,
    ensures
        doc_order_from(sort, i + 1, a, b) == doc_order_from(sort.drop_first(), i, a, b),
    decreases sort.len() - i,
{
    if i + 1 < sort.len() {
        assert(sort.drop_first()[i] == sort[i + 1]);
        lemma_doc_order_from_shift(sort, i + 1, a, b);
    }
}

/// Documents are ordered lexicographically by the sort fields: with no sort
/// field all documents compare equal; otherwise the first field decides
/// (ascending, or reversed when descending), and only when the two documents
/// compare equal on it do the remaining fields, in turn, decide.
pub proof fn lemma_doc_order_lexicographic(sort: Seq<SortField>, a: Document, b: Document)
    ensures
        sort.len() == 0 ==> doc_order(sort, a, b) == ValueOrder::Equal,
        sort.len() > 0 ==> {
            let o = spec_compare_field_values(
                a.spec_get_field(sort[0].field@),
                b.spec_get_field(sort[0].field@),
            );
            let first = match sort[0].direction {
                SortDirection::Asc => o,
                SortDirection::Desc => match o {
                    ValueOrder::Less => ValueOrder::Greater,
                    ValueOrder::Equal => ValueOrder::Equal,
                    ValueOrder::Greater => ValueOrder::Less,
                },
            };
            &&& first != ValueOrder::Equal ==> doc_order(sort, a, b) == first
            &&& first == ValueOrder::Equal ==> doc_order(sort, a, b) == doc_order(
                sort.drop_first(),
                a,
                b,
            )
        },
{
    if sort.len() > 0 {
        lemma_doc_order_from_shift(sort, 0, a, b);
    }
}

/// Compares two documents under the sort fields.
pub fn compare_docs(sort: &Vec<SortField>, a: &Document, b: &Document) -> (r: ValueOrder)
    ensures
        r == doc_order(sort@, *a, *b),
{
    let mut i: usize = sort.len();
    let mut acc = ValueOrder::Equal;
    while i > 0
        invariant
            i <= sort@.len(),
            acc == doc_order_from(sort@, i as int, *a, *b),
        decreases i,
    {
        i = i - 1;
        let o = compare_field_values(a.get_field(sort[i].field.as_str()), b.get_field(sort[i].field.as_str()));
        let o2 = match sort[i].direction {
            SortDirection::Asc => o,
            SortDirection::Desc => match o {
                ValueOrder::Less => ValueOrder::Greater,
                ValueOrder::Equal => ValueOrder::Equal,
                ValueOrder::Greater => ValueOrder::Less,
            },
        };
        if o2 != ValueOrder::Equal {
            acc = o2;
        }
    }
    acc
}

/// The position a document is inserted at in a sorted list: before the first
/// document that comes after it, so that equal documents keep their order.
pub open spec fn insert_pos(sort: Seq<SortField>, s: Seq<Document>, x: Document) -> int
    decreases s.len(),
{
    if s.len() == 0 {
        0
    } else if doc_order(sort, s[0], x) == ValueOrder::Greater {
        0
    } else {
        1 + insert_pos(sort, s.drop_first(), x)
    }
}

/// The stable sort of a sequence of documents: each inserted in turn.
pub open spec fn stable_sort(sort: Seq<SortField>, s: Seq<Document>) -> Seq<Document>
    decreases s.len(),
{
    if s.len() == 0 {
        s
    } else {
        let prev = stable_sort(sort, s.drop_last());
        prev.insert(insert_pos(sort, prev, s.last()), s.last())
    }
}

/// Whether the document at `i` does not come after the next one.
pub open spec fn docs_ordered_at(sort: Seq<SortField>, s: Seq<Document>, i: int) -> bool {
    doc_order(sort, s[i], s[i + 1]) != ValueOrder::Greater
}

/// Whether a document list is in order, pair by pair.
pub open spec fn docs_sorted(sort: Seq<SortField>, s: Seq<Document>) -> bool {
    forall|i: int| 0 <= i < s.len() - 1 ==> #[trigger] docs_ordered_at(sort, s, i)
}

proof fn lemma_insert_pos(sort: Seq<SortField>, s: Seq<Document>, x: Document)
    ensures
        0 <= insert_pos(sort, s, x) <= s.len(),
        forall|j: int| 0 <= j < insert_pos(sort, s, x) ==> doc_order(sort, #[trigger] s[j], x) != ValueOrder::Greater,
        insert_pos(sort, s, x) < s.len() ==> doc_order(sort, s[insert_pos(sort, s, x)], x) == ValueOrder::Greater,
    decreases s.len(),
{
    if s.len() > 0 && doc_order(sort, s[0], x) != ValueOrder::Greater {
        lemma_insert_pos(sort, s.drop_first(), x);
        assert forall|j: int| 0 <= j < insert_pos(sort, s, x) implies doc_order(sort, #[trigger] s[j], x) != ValueOrder::Greater by {
            if j > 0 {
                assert(s[j] == s.drop_first()[j - 1]);
            }
        }
    }
}

/// The stable sort lists the same documents, in order.
pub proof fn lemma_stable_sort_sorted(sort: Seq<SortField>, s: Seq<Document>)
    ensures
        docs_sorted(sort, stable_sort(sort, s)),
        stable_sort(sort, s).to_multiset() == s.to_multiset(),
    decreases s.len(),
{
    broadcast use vstd::seq_lib::group_to_multiset_ensures;
    if s.len() > 0 {
        let prev = stable_sort(sort, s.drop_last());
        lemma_stable_sort_sorted(sort, s.drop_last());
        let x = s.last();
        let p = insert_pos(sort, prev, x);
        lemma_insert_pos(sort, prev, x);
        let out = prev.insert(p, x);
        if p < prev.len() {
            lemma_doc_order_flip(sort, 0, prev[p], x);
        }
        assert forall|k: int| 0 <= k < out.len() - 1 implies #[trigger] docs_ordered_at(sort, out, k) by {
            if k < p - 1 {
                assert(docs_ordered_at(sort, prev, k));
                assert(out[k] == prev[k] && out[k + 1] == prev[k + 1]);
            } else if k == p - 1 {
                assert(out[k] == prev[k] && out[k + 1] == x);
            } else if k == p {
                assert(out[k + 1] == prev[k]);
            } else {
                assert(docs_ordered_at(sort, prev, k - 1));
                assert(out[k] == prev[k - 1] && out[k + 1] == prev[k]);
            }
        }
        assert(s =~= s.drop_last().push(x));
    }
}

/// Sorting is stable: documents that are already in order (no document comes
/// after a later one) stay exactly as they are, so documents that compare
/// equal keep their relative order.
pub proof fn lemma_stable_sort_keeps_ordered(sort: Seq<SortField>, s: Seq<Document>)
    requires
        forall|i: int, j: int|
            0 <= i < j < s.len() ==> doc_order(sort, #[trigger] s[i], #[trigger] s[j]) != ValueOrder::Greater,
    ensures
        stable_sort(sort, s) == s,
    decreases s.len(),
{
    if s.len() > 0 {
        let init = s.drop_last();
        assert forall|i: int, j: int|
            0 <= i < j < init.len() implies doc_order(sort, #[trigger] init[i], #[trigger] init[j])
                != ValueOrder::Greater by {
            assert(init[i] == s[i] && init[j] == s[j]);
        }
        lemma_stable_sort_keeps_ordered(sort, init);
        let x = s.last();
        lemma_insert_pos(sort, init, x);
        let p = insert_pos(sort, init, x);
        if p < init.len() {
            assert(init[p] == s[p]);
            assert(doc_order(sort, s[p], s[s.len() - 1]) != ValueOrder::Greater);
        }
        assert(init.insert(init.len() as int, x) =~= s);
    }
}

/// Sorts documents stably under the sort fields.
pub fn sort_docs(sort: &Vec<SortField>, docs: Vec<Document>) -> (r: Vec<Document>)
    ensures
        r@ == stable_sort(sort@, docs@),
{
    let ghost all = docs@;
    let mut rest = docs;
    let mut out: Vec<Document> = Vec::new();
    let mut i: usize = 0;
    proof {
        assert(all.len() == rest.len());
        assert(rest@ =~= all.skip(0));
        assert(all.take(0) =~= Seq::<Document>::empty());
    }
    while rest.len() > 0
        invariant
            i <= all.len(),
            all.len() <= usize::MAX,
            rest@ == all.skip(i as int),
            out@ == stable_sort(sort@, all.take(i as int)),
        decreases rest.len(),
    {
        let x = rest.remove(0);
        proof {
            assert(x == all[i as int]);
            assert(rest@ =~= all.skip(i + 1));
            assert(all.take(i + 1).drop_last() =~= all.take(i as int));
            assert(all.take(i + 1).last() == x);
        }
        let mut p: usize = 0;
        let mut found = false;
        proof {
            assert(out@.skip(0) =~= out@);
        }
        while p < out.len() && !found
            invariant
                p <= out@.len(),
                insert_pos(sort@, out@, x) == p + insert_pos(sort@, out@.skip(p as int), x) || found,
                found ==> p < out@.len() && insert_pos(sort@, out@, x) == p,
                !found ==> insert_pos(sort@, out@, x) == p + insert_pos(sort@, out@.skip(p as int), x),
            decreases out.len() - p + (if found { 0int } else { 1int }),
        {
            proof {
                assert(out@.skip(p as int)[0] == out@[p as int]);
                assert(out@.skip(p as int).drop_first() =~= out@.skip(p + 1));
            }
            if compare_docs(sort, &out[p], &x) == ValueOrder::Greater {
                found = true;
            } else {
                p = p + 1;
            }
        }
        proof {
            if !found {
                assert(out@.skip(p as int).len() == 0);
            }
        }
        out.insert(p, x);
        i = i + 1;
    }
    proof {
        assert(all.take(i as int) =~= all);
    }
    out
}

/// The documents that pass an optional filter, in order.
pub open spec fn filtered(f: Option<Filter>, docs: Seq<Document>) -> Seq<Document> {
    match f {
        Some(flt) => docs.filter(|d: Document| spec_filter_matches(flt, d)),
        None => docs,
    }
}

/// What a query returns: the filtered documents, stably sorted when sort
/// fields are given, past the offset, up to the limit.
pub open spec fn spec_apply(q: Query, docs: Seq<Document>) -> Seq<Document> {
    let f = filtered(q.filter, docs);
    let s = if q.sort@.len() > 0 { stable_sort(q.sort@, f) } else { f };
    let o = match q.offset {
        Some(off) => if off <= s.len() { s.skip(off as int) } else { Seq::empty() },
        None => s,
    };
    match q.limit {
        Some(l) => if l <= o.len() { o.take(l as int) } else { o },
        None => o,
    }
}

impl Query {
    /// An empty query: no filter, no sort, no offset, no limit.
    pub fn new() -> (r: Query)
        ensures
            r.filter is None,
            r.sort@.len() == 0,
            r.offset is None,
            r.limit is None,
    {
        Query { filter: None, sort: Vec::new(), offset: None, limit: None }
    }

    /// The query with this filter.
    pub fn with_filter(self, filter: Filter) -> (r: Query)
        ensures
            r.filter == Some(filter),
            r.sort == self.sort,
            r.offset == self.offset,
            r.limit == self.limit,
    {
        let mut q = self;
        q.filter = Some(filter);
        q
    }

    /// The query with one more sort field.
    pub fn with_sort(self, field: &str, direction: SortDirection) -> (r: Query)
        ensures
            r.filter == self.filter,
            r.sort@.len() == self.sort@.len() + 1,
            r.sort@.drop_last() == self.sort@,
            r.sort@.last().field@ == field@,
            r.sort@.last().direction == direction,
            r.offset == self.offset,
            r.limit == self.limit,
    {
        let mut q = self;
        let ghost before = q.sort@;
        q.sort.push(SortField { field: String::from_str(field), direction });
        proof {
            assert(q.sort@.drop_last() =~= before);
        }
        q
    }

    /// The query with this offset.
    pub fn with_offset(self, offset: usize) -> (r: Query)
        ensures
            r.filter == self.filter,
            r.sort == self.sort,
            r.offset == Some(offset),
            r.limit == self.limit,
    {
        let mut q = self;
        q.offset = Some(offset);
        q
    }

    /// The query with this limit.
    pub fn with_limit(self, limit: usize) -> (r: Query)
        ensures
            r.filter == self.filter,
            r.sort == self.sort,
            r.offset == self.offset,
            r.limit == Some(limit),
    {
        let mut q = self;
        q.limit = Some(limit);
        q
    }

    /// Runs the query over documents.
    pub fn apply(&self, docs: Vec<Document>) -> (r: Vec<Document>)
        ensures
            r@ == spec_apply(*self, docs@),
    {
        let mut result: Vec<Document> = match &self.filter {
            Some(f) => {
                let ghost all = docs@;
                let ghost pred = |d: Document| spec_filter_matches(*f, d);
                let mut rest = docs;
                let mut kept: Vec<Document> = Vec::new();
                let mut i: usize = 0;
                proof {
                    assert(rest@ =~= all.skip(0));
                    assert(all.take(0).filter(pred) =~= Seq::<Document>::empty()) by {
                        reveal(Seq::filter);
                    }
                    assert(all.len() == rest.len());
                }
                while rest.len() > 0
                    invariant
                        i <= all.len(),
                        all.len() <= usize::MAX,
                        rest@ == all.skip(i as int),
                        pred == (|d: Document| spec_filter_matches(*f, d)),
                        kept@ == all.take(i as int).filter(pred),
                    decreases rest.len(),
                {
                    let d = rest.remove(0);
                    proof {
                        assert(d == all[i as int]);
                        assert(rest@ =~= all.skip(i + 1));
                        assert(all.take(i as int).push(d) =~= all.take(i + 1));
                        all.take(i as int).lemma_filter_push(d, pred);
                    }
                    if f.matches(&d) {
                        kept.push(d);
                    }
                    i = i + 1;
                }
                proof {
                    assert(all.take(i as int) =~= all);
                }
                kept
            },
            None => docs,
        };
        if self.sort.len() > 0 {
            result = sort_docs(&self.sort, result);
        }
        if let Some(off) = self.offset {
            if off <= result.len() {
                let ghost before = result@;
                let mut k: usize = 0;
                while k < off
                    invariant
                        k <= off,
                        off <= before.len(),
                        result@ == before.skip(k as int),
                    decreases off - k,
                {
                    result.remove(0);
                    proof {
                        assert(result@ =~= before.skip(k + 1));
                    }
                    k = k + 1;
                }
            } else {
                result = Vec::new();
            }
        }
        if let Some(lim) = self.limit {
            result.truncate(lim);
        }
        result
    }
}

} // verus!
