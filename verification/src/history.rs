//! Reading the access history: the entries are documents whose data map
//! holds `collection`, `record_id`, `event_type` and `accessed_at_utc` (an
//! RFC 3339 text). These functions select entries, find the latest access to
//! a record, and gather what trimming needs to know of a record.

use vstd::prelude::*;
use vstd::string::StringExecFns;
use crate::access_history::{AccessEventType, access_event_type_name};
use crate::document::Document;
use crate::text::str_eq;
use crate::value::Value;

verus! {

/// Whether instant `a` comes before `b`.
pub open spec fn instant_lt(a: (i64, u32), b: (i64, u32)) -> bool {
    a.0 < b.0 || (a.0 == b.0 && a.1 < b.1)
}

/// Name for the instant that an RFC 3339 text denotes, as chrono's
/// `DateTime::parse_from_rfc3339` reads it (none where it does not parse).
pub uninterp spec fn rfc3339_instant(s: Seq<char>) -> Option<(i64, u32)>;

/// chrono `DateTime::parse_from_rfc3339`, taken in UTC as seconds and nanoseconds.
/// Trusted: the result is `rfc3339_instant(s)`, a function of the text alone.
#[verifier::external_body]
pub(crate) fn parse_rfc3339(s: &str) -> (r: Option<(i64, u32)>)
    ensures
        r == rfc3339_instant(s@),
{
    chrono::DateTime::parse_from_rfc3339(s).ok().map(|t| (t.timestamp(), t.timestamp_subsec_nanos()))
}

/// The first text stored under `key` among a map's pairs; pairs under `key`
/// whose value is not a text are passed over.
pub open spec fn spec_text_field(m: Seq<(Value, Value)>, key: Seq<char>) -> Option<Seq<char>>
    decreases m.len(),
{
    if m.len() == 0 {
        None
    } else {
        match (m[0].0, m[0].1) {
            (Value::Str(k), Value::Str(v)) => if k@ == key {
                Some(v@)
            } else {
                spec_text_field(m.drop_first(), key)
            },
            _ => spec_text_field(m.drop_first(), key),
        }
    }
}

/// The first integer stored under `key` among a map's pairs.
pub open spec fn spec_int_field(m: Seq<(Value, Value)>, key: Seq<char>) -> Option<i64>
    decreases m.len(),
{
    if m.len() == 0 {
        None
    } else {
        match (m[0].0, m[0].1) {
            (Value::Str(k), Value::Integer(v)) => if k@ == key {
                Some(v)
            } else {
                spec_int_field(m.drop_first(), key)
            },
            _ => spec_int_field(m.drop_first(), key),
        }
    }
}

/// The text field of a document's data (none where the data is not a map).
pub open spec fn data_text(v: Value, key: Seq<char>) -> Option<Seq<char>> {
    match v {
        Value::Object(m) => spec_text_field(m@, key),
        _ => None,
    }
}

/// The integer field of a document's data (none where the data is not a map).
pub open spec fn data_int(v: Value, key: Seq<char>) -> Option<i64> {
    match v {
        Value::Object(m) => spec_int_field(m@, key),
        _ => None,
    }
}

/// Finds the first text stored under `key` among a map's pairs.
pub fn text_field<'a>(m: &'a Vec<(Value, Value)>, key: &str) -> (r: Option<&'a String>)
    ensures
        match r {
            Some(s) => spec_text_field(m@, key@) == Some(s@),
            None => spec_text_field(m@, key@) is None,
        },
{
    let mut i: usize = 0;
    proof {
        assert(m@.skip(0) =~= m@);
    }
    while i < m.len()
        invariant
            i <= m@.len(),
            spec_text_field(m@, key@) == spec_text_field(m@.skip(i as int), key@),
        decreases m.len() - i,
    {
        proof {
            assert(m@.skip(i as int).drop_first() =~= m@.skip(i + 1));
            assert(m@.skip(i as int)[0] == m@[i as int]);
        }
        match (&m[i].0, &m[i].1) {
            (Value::Str(k), Value::Str(v)) => {
                if str_eq(k.as_str(), key) {
                    return Some(v);
                }
            },
            _ => {},
        }
        i = i + 1;
    }
    None
}

/// Finds the first integer stored under `key` among a map's pairs.
pub fn int_field(m: &Vec<(Value, Value)>, key: &str) -> (r: Option<i64>)
    ensures
        r == spec_int_field(m@, key@),
{
    let mut i: usize = 0;
    proof {
        assert(m@.skip(0) =~= m@);
    }
    while i < m.len()
        invariant
            i <= m@.len(),
            spec_int_field(m@, key@) == spec_int_field(m@.skip(i as int), key@),
        decreases m.len() - i,
    {
        proof {
            assert(m@.skip(i as int).drop_first() =~= m@.skip(i + 1));
            assert(m@.skip(i as int)[0] == m@[i as int]);
        }
        match (&m[i].0, &m[i].1) {
            (Value::Str(k), Value::Integer(v)) => {
                if str_eq(k.as_str(), key) {
                    return Some(*v);
                }
            },
            _ => {},
        }
        i = i + 1;
    }
    None
}

/// The text field of a value, where the value is a map.
pub fn value_text<'a>(v: &'a Value, key: &str) -> (r: Option<&'a String>)
    ensures
        match r {
            Some(s) => data_text(*v, key@) == Some(s@),
            None => data_text(*v, key@) is None,
        },
{
    match v {
        Value::Object(m) => text_field(m, key),
        _ => None,
    }
}

/// The integer field of a value, where the value is a map.
pub fn value_int(v: &Value, key: &str) -> (r: Option<i64>)
    ensures
        r == data_int(*v, key@),
{
    match v {
        Value::Object(m) => int_field(m, key),
        _ => None,
    }
}

/// A text field, or the empty text where there is none.
pub open spec fn text_or_empty(t: Option<Seq<char>>) -> Seq<char> {
    match t {
        Some(s) => s,
        None => Seq::empty(),
    }
}

/// The instant an entry was recorded at, where its text parses.
pub open spec fn entry_instant(d: Document) -> Option<(i64, u32)> {
    rfc3339_instant(text_or_empty(data_text(d.data, "accessed_at_utc"@)))
}

/// Whether an entry was recorded before `cutoff` (an entry whose time does not
/// parse is kept).
pub fn entry_expired(d: &Document, cutoff: (i64, u32)) -> (r: bool)
    ensures
        r == (entry_instant(*d) matches Some(t) && instant_lt(t, cutoff)),
{
    proof {
        reveal_strlit("accessed_at_utc");
        reveal_strlit("");
        assert(""@ =~= Seq::<char>::empty());
    }
    let at = match value_text(&d.data, "accessed_at_utc") {
        Some(s) => parse_rfc3339(s.as_str()),
        None => parse_rfc3339(""),
    };
    match at {
        Some(t) => t.0 < cutoff.0 || (t.0 == cutoff.0 && t.1 < cutoff.1),
        None => false,
    }
}

/// Whether an entry concerns this record of this collection.
pub open spec fn entry_of_record(d: Document, collection: Seq<char>, record_id: i64) -> bool {
    text_or_empty(data_text(d.data, "collection"@)) == collection && (match data_int(d.data, "record_id"@) {
        Some(i) => i as int,
        None => -1,
    }) == record_id
}

/// Whether an entry passes the filters of a history query: same collection,
/// record and event where these are given, and not recorded before `since`
/// (an entry whose time does not parse passes that filter).
pub open spec fn history_matches(
    d: Document,
    collection: Option<Seq<char>>,
    record_id: Option<i64>,
    event: Option<AccessEventType>,
    since: Option<(i64, u32)>,
) -> bool {
    &&& (collection matches Some(c) ==> text_or_empty(data_text(d.data, "collection"@)) == c)
    &&& (record_id matches Some(rid) ==> (match data_int(d.data, "record_id"@) {
        Some(i) => i as int,
        None => -1,
    }) == rid)
    &&& (event matches Some(e) ==> text_or_empty(data_text(d.data, "event_type"@)) == access_event_type_name(e))
    &&& (since matches Some(s) ==> match entry_instant(d) {
        Some(ts) => !instant_lt(ts, s),
        None => true,
    })
}

/// Checks the filters of a history query on one entry.
pub fn entry_matches(
    d: &Document,
    collection: Option<&str>,
    record_id: Option<i64>,
    event: Option<AccessEventType>,
    since: Option<(i64, u32)>,
) -> (r: bool)
    ensures
        r == history_matches(
            *d,
            match collection {
                Some(c) => Some(c@),
                None => None,
            },
            record_id,
            event,
            since,
        ),
{
    let empty = String::new();
    if let Some(c) = collection {
        let t = match value_text(&d.data, "collection") {
            Some(s) => s,
            None => &empty,
        };
        proof {
            reveal_strlit("collection");
        }
        if !str_eq(t.as_str(), c) {
            return false;
        }
    }
    if let Some(rid) = record_id {
        let i = match value_int(&d.data, "record_id") {
            Some(i) => i,
            None => -1,
        };
        if i != rid {
            return false;
        }
    }
    if let Some(e) = event {
        let t = match value_text(&d.data, "event_type") {
            Some(s) => s,
            None => &empty,
        };
        if !str_eq(t.as_str(), e.as_str()) {
            return false;
        }
    }
    if let Some(s) = since {
        let t = match value_text(&d.data, "accessed_at_utc") {
            Some(s) => s,
            None => &empty,
        };
        match parse_rfc3339(t.as_str()) {
            Some(ts) => {
                if ts.0 < s.0 || (ts.0 == s.0 && ts.1 < s.1) {
                    return false;
                }
            },
            None => {},
        }
    }
    true
}

/// The predicate of a history query, for filtering sequences.
pub open spec fn history_pred(
    collection: Option<Seq<char>>,
    record_id: Option<i64>,
    event: Option<AccessEventType>,
    since: Option<(i64, u32)>,
) -> spec_fn(Document) -> bool {
    |d: Document| history_matches(d, collection, record_id, event, since)
}

/// How many matching entries a query returns: all of them without a limit;
/// with one, at most the limit but at least one (the limit is checked after
/// an entry is added).
pub open spec fn history_count(matched: nat, limit: Option<usize>) -> nat {
    match limit {
        None => matched,
        Some(l) => {
            let cap: nat = if l == 0 { 1 } else { l as nat };
            if matched < cap { matched } else { cap }
        },
    }
}

/// Whether `e` is the query entry of document `d`: a map of its id under
/// `"id"` followed by the pairs of its data (none where the data is not a map).
pub open spec fn is_history_entry(e: Value, d: Document) -> bool {
    e matches Value::Object(pairs) && pairs@.len() >= 1 && (pairs@[0].0 matches Value::Str(k) && k@ == "id"@)
        && pairs@[0].1 == Value::Integer(d.id) && match d.data {
        Value::Object(fields) => pairs@.drop_first() == fields@,
        _ => pairs@.len() == 1,
    }
}

/// Queries the access history: the entries that pass the filters, in order,
/// each as a map of its id followed by its data, up to the limit.
pub fn query_history(
    docs: Vec<Document>,
    collection: Option<&str>,
    record_id: Option<i64>,
    event: Option<AccessEventType>,
    since: Option<(i64, u32)>,
    limit: Option<usize>,
) -> (r: Vec<Value>)
    ensures
        ({
            let pred = history_pred(
                match collection {
                    Some(c) => Some(c@),
                    None => None,
                },
                record_id,
                event,
                since,
            );
            let matched = docs@.filter(pred);
            &&& r@.len() == history_count(matched.len(), limit)
            &&& forall|i: int| 0 <= i < r@.len() ==> is_history_entry(#[trigger] r@[i], matched[i])
        }),
{
    let ghost col = match collection {
        Some(c) => Some(c@),
        None => None,
    };
    let ghost pred = history_pred(col, record_id, event, since);
    let ghost all = docs@;
    let mut results: Vec<Value> = Vec::new();
    let mut docs = docs;
    proof {
        assert(all.len() == docs.len());
        assert(all.skip(0) =~= all);
        assert(all.take(0).filter(pred).len() == 0) by {
            reveal(Seq::filter);
        }
    }
    let mut done = false;
    let mut taken: usize = 0;
    while docs.len() > 0 && !done
        invariant
            taken <= all.len(),
            docs@ == all.skip(taken as int),
            all.len() <= usize::MAX,
            pred == history_pred(col, record_id, event, since),
            col == (match collection {
                Some(c) => Some(c@),
                None => None,
            }),
            !done ==> results@.len() == all.take(taken as int).filter(pred).len(),
            !done ==> (limit matches Some(l) ==> results@.len() < (if l == 0 { 1 } else { l as int })),
            done ==> results@.len() == history_count(all.filter(pred).len(), limit),
            results@.len() <= all.take(taken as int).filter(pred).len(),
            all.take(taken as int).filter(pred).len() <= all.filter(pred).len(),
            forall|i: int| 0 <= i < results@.len() ==> is_history_entry(#[trigger] results@[i], all.filter(pred)[i]),
        decreases docs.len() + (if done { 0int } else { 1int }),
    {
        proof {
            assert(docs@.len() == all.len() - taken);
        }
        let d = docs.remove(0);
        proof {
            assert(d == all[taken as int]);
            assert(docs@ =~= all.skip(taken + 1));
            assert(all.take(taken as int).push(all[taken as int]) =~= all.take(taken + 1));
            all.take(taken as int).lemma_filter_push(all[taken as int], pred);
        }
        if entry_matches(&d, collection, record_id, event, since) {
            let mut fields: Vec<(Value, Value)> = Vec::new();
            fields.push((Value::Str(String::from_str("id")), Value::Integer(d.id)));
            proof {
                reveal_strlit("id");
            }
            let ghost data = d.data;
            match d.data {
                Value::Object(m) => {
                    let ghost before = fields@;
                    let mut m = m;
                    fields.append(&mut m);
                    proof {
                        assert(fields@.drop_first() =~= before.drop_first() + data->Object_0@);
                    }
                },
                _ => {},
            }
            let ghost k = results@.len();
            proof {
                assert(pred(d));
                assert(all.take(taken + 1).filter(pred) == all.take(taken as int).filter(pred).push(d));
                lemma_filter_prefix(all, pred, taken + 1);
                assert(all.take(taken + 1).filter(pred)[k as int] == d);
                assert(all.filter(pred)[k as int] == d);
            }
            results.push(Value::Object(fields));
            match limit {
                Some(l) => {
                    if results.len() >= l {
                        done = true;
                    }
                },
                None => {},
            }
        }
        taken = taken + 1;
        proof {
            lemma_filter_prefix(all, pred, taken as int);
        }
    }
    proof {
        if !done {
            assert(all.take(all.len() as int) =~= all);
        }
    }
    results
}

/// The filtered prefix of a sequence is a prefix of the filtered sequence.
pub proof fn lemma_filter_prefix(s: Seq<Document>, pred: spec_fn(Document) -> bool, n: int)
    requires
        0 <= n <= s.len(),
    ensures
        s.take(n).filter(pred).len() <= s.filter(pred).len(),
        forall|i: int| 0 <= i < s.take(n).filter(pred).len() ==> #[trigger] s.take(n).filter(pred)[i] == s.filter(pred)[i],
    decreases s.len() - n,
{
    if n < s.len() {
        lemma_filter_prefix(s, pred, n + 1);
        assert(s.take(n).push(s[n]) =~= s.take(n + 1));
        s.take(n).lemma_filter_push(s[n], pred);
        assert forall|i: int| 0 <= i < s.take(n).filter(pred).len() implies #[trigger] s.take(n).filter(pred)[i] == s.filter(pred)[i] by {
            assert(s.take(n).filter(pred)[i] == s.take(n + 1).filter(pred)[i]);
        }
    } else {
        assert(s.take(n) =~= s);
    }
}

/// A history query with a `since` bound never returns an entry whose time
/// lies strictly before the bound: every entry the filters keep either has a
/// time at or after it or a time that does not parse, and an entry of the
/// history with a time before it is not kept.
pub proof fn lemma_history_since(
    docs: Seq<Document>,
    collection: Option<Seq<char>>,
    record_id: Option<i64>,
    event: Option<AccessEventType>,
    since: (i64, u32),
)
    ensures
        ({
            let m = docs.filter(history_pred(collection, record_id, event, Some(since)));
            &&& forall|i: int|
                0 <= i < m.len() ==> (entry_instant(#[trigger] m[i]) matches Some(ts) ==> !(ts.0 < since.0
                    || (ts.0 == since.0 && ts.1 < since.1)))
            &&& forall|j: int|
                0 <= j < docs.len() && (entry_instant(#[trigger] docs[j]) matches Some(ts) && (ts.0
                    < since.0 || (ts.0 == since.0 && ts.1 < since.1))) ==> !m.contains(docs[j])
        }),
{
    let pred = history_pred(collection, record_id, event, Some(since));
    let m = docs.filter(pred);
    assert forall|i: int| 0 <= i < m.len() implies (entry_instant(#[trigger] m[i]) matches Some(ts)
        ==> !(ts.0 < since.0 || (ts.0 == since.0 && ts.1 < since.1))) by {
        docs.lemma_filter_pred(pred, i);
    }
    assert forall|j: int|
        0 <= j < docs.len() && (entry_instant(#[trigger] docs[j]) matches Some(ts) && (ts.0 < since.0
            || (ts.0 == since.0 && ts.1 < since.1))) implies !m.contains(docs[j]) by {
        if m.contains(docs[j]) {
            let k = choose|k: int| 0 <= k < m.len() && m[k] == docs[j];
            docs.lemma_filter_pred(pred, k);
        }
    }
}

} // verus!
