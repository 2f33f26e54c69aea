//! Trimming: the trim policies, how a record is judged against a policy from
//! what the access history says of it, and how the reports of a trim are
//! tallied. Collections are never trimmed unless they opt in.

use vstd::prelude::*;
use vstd::string::StringExecFns;
use crate::access_history::AccessEventType;
use crate::document::Document;
use crate::error::NoSqlError;
use crate::filter::{has_substring, text_contains};
use crate::history::{entry_instant, entry_of_record, history_matches, instant_lt, parse_rfc3339, value_text, entry_matches};
use crate::text::{decimal_digits, decimal_text, push_char, push_digits};

verus! {

/// Trim policy types. All collections are never-trim by default.
#[derive(Debug)]
pub enum TrimPolicy {
    /// Trim records not accessed (any event) for the given number of seconds.
    NotAccessedSince(i64),
    /// Trim records not read for the given number of seconds.
    NotReadSince(i64),
    /// Only trim AI-originated records.
    AiOriginatedOnly,
    /// Trim records with provenance confidence below the threshold (the bit
    /// pattern of an `f64`).
    ConfidenceBelow(u64),
    /// Trim least recently used records until storage is within target bytes.
    ToTargetBytes(u64),
    /// Keep only the N most recently accessed records per collection.
    KeepMostRecentlyAccessed(usize),
    /// All sub-policies must match.
    Compound(Vec<TrimPolicy>),
    /// At least one sub-policy must match.
    Any(Vec<TrimPolicy>),
}

/// The type name of each policy.
pub open spec fn trim_policy_name(p: TrimPolicy) -> Seq<char> {
    match p {
        TrimPolicy::NotAccessedSince(_) => "not_accessed_since"@,
        TrimPolicy::NotReadSince(_) => "not_read_since"@,
        TrimPolicy::AiOriginatedOnly => "ai_originated_only"@,
        TrimPolicy::ConfidenceBelow(_) => "confidence_below"@,
        TrimPolicy::ToTargetBytes(_) => "to_target_bytes"@,
        TrimPolicy::KeepMostRecentlyAccessed(_) => "keep_most_recently_accessed"@,
        TrimPolicy::Compound(_) => "compound"@,
        TrimPolicy::Any(_) => "any"@,
    }
}

impl TrimPolicy {
    /// The policy's type name.
    pub fn as_str(&self) -> (r: &'static str)
        ensures
            r@ == trim_policy_name(*self),
    {
        match self {
            TrimPolicy::NotAccessedSince(_) => "not_accessed_since",
            TrimPolicy::NotReadSince(_) => "not_read_since",
            TrimPolicy::AiOriginatedOnly => "ai_originated_only",
            TrimPolicy::ConfidenceBelow(_) => "confidence_below",
            TrimPolicy::ToTargetBytes(_) => "to_target_bytes",
            TrimPolicy::KeepMostRecentlyAccessed(_) => "keep_most_recently_accessed",
            TrimPolicy::Compound(_) => "compound",
            TrimPolicy::Any(_) => "any",
        }
    }
}

/// What the access history says of one record.
#[derive(Debug, Clone, Copy)]
pub struct RecordAccess {
    /// The latest access of any kind (none where never accessed).
    pub last_access: Option<(i64, u32)>,
    /// The latest read: none where never read; inside, the instant of the
    /// latest read entry, none where its time does not parse.
    pub latest_read: Option<Option<(i64, u32)>>,
    /// Whether the record was ever written by AI.
    pub ai_written: bool,
}

/// The latest instant among the parseable entries of a record.
pub open spec fn spec_last_access(docs: Seq<Document>, collection: Seq<char>, record_id: i64) -> Option<(i64, u32)>
    decreases docs.len(),
{
    if docs.len() == 0 {
        None
    } else {
        let prev = spec_last_access(docs.drop_last(), collection, record_id);
        let d = docs.last();
        if entry_of_record(d, collection, record_id) {
            match entry_instant(d) {
                Some(t) => match prev {
                    None => Some(t),
                    Some(p) => if instant_lt(p, t) {
                        Some(t)
                    } else {
                        prev
                    },
                },
                None => prev,
            }
        } else {
            prev
        }
    }
}

/// The last access of a record is the latest of its entries: it is the
/// instant of some entry of that record whose time parses, and no entry of
/// that record has a parseable time later than it. A record with at least one
/// parseable entry has a last access.
pub proof fn lemma_last_access_is_latest(docs: Seq<Document>, collection: Seq<char>, record_id: i64)
    ensures
        spec_last_access(docs, collection, record_id) matches Some(t) ==> exists|i: int|
            0 <= i < docs.len() && entry_of_record(#[trigger] docs[i], collection, record_id)
                && entry_instant(docs[i]) == Some(t),
        forall|i: int|
            0 <= i < docs.len() && entry_of_record(#[trigger] docs[i], collection, record_id)
                && entry_instant(docs[i]) is Some ==> {
                let u = entry_instant(docs[i])->0;
                &&& spec_last_access(docs, collection, record_id) is Some
                &&& {
                    let t = spec_last_access(docs, collection, record_id)->0;
                    !(t.0 < u.0 || (t.0 == u.0 && t.1 < u.1))
                }
            },
    decreases docs.len(),
{
    if docs.len() > 0 {
        let init = docs.drop_last();
        lemma_last_access_is_latest(init, collection, record_id);
        let prev = spec_last_access(init, collection, record_id);
        let cur = spec_last_access(docs, collection, record_id);
        assert forall|i: int| 0 <= i < init.len() implies #[trigger] init[i] == docs[i] by {}
        if let Some(t) = cur {
            if prev == cur {
                let i = choose|i: int|
                    0 <= i < init.len() && entry_of_record(#[trigger] init[i], collection, record_id)
                        && entry_instant(init[i]) == Some(t);
                assert(docs[i] == init[i]);
            } else {
                assert(docs[docs.len() - 1] == docs.last());
            }
        }
        assert forall|i: int|
            0 <= i < docs.len() && entry_of_record(#[trigger] docs[i], collection, record_id)
                && entry_instant(docs[i]) is Some implies {
                let u = entry_instant(docs[i])->0;
                &&& cur is Some
                &&& {
                    let t = cur->0;
                    !(t.0 < u.0 || (t.0 == u.0 && t.1 < u.1))
                }
            } by {
            if i < docs.len() - 1 {
                assert(init[i] == docs[i]);
            } else {
                assert(docs[i] == docs.last());
            }
        }
    }
}

/// The latest entry of a record with this event, if any: what its time reads as.
pub open spec fn spec_latest_event(docs: Seq<Document>, collection: Seq<char>, record_id: i64, event: AccessEventType) -> Option<Option<(i64, u32)>>
    decreases docs.len(),
{
    if docs.len() == 0 {
        None
    } else if history_matches(docs.last(), Some(collection), Some(record_id), Some(event), None) {
        Some(entry_instant(docs.last()))
    } else {
        spec_latest_event(docs.drop_last(), collection, record_id, event)
    }
}

/// The most recent access time for a record.
pub fn last_access_time(docs: &Vec<Document>, collection: &str, record_id: i64) -> (r: Option<(i64, u32)>)
    ensures
        r == spec_last_access(docs@, collection@, record_id),
{
    let mut latest: Option<(i64, u32)> = None;
    let mut i: usize = 0;
    while i < docs.len()
        invariant
            i <= docs@.len(),
            latest == spec_last_access(docs@.take(i as int), collection@, record_id),
        decreases docs.len() - i,
    {
        proof {
            assert(docs@.take(i + 1).drop_last() =~= docs@.take(i as int));
            assert(docs@.take(i + 1).last() == docs@[i as int]);
        }
        let d = &docs[i];
        if entry_matches(d, Some(collection), Some(record_id), None, None) {
            let empty = String::new();
            let t = match value_text(&d.data, "accessed_at_utc") {
                Some(s) => s,
                None => &empty,
            };
            match parse_rfc3339(t.as_str()) {
                Some(ts) => {
                    latest = match latest {
                        None => Some(ts),
                        Some(p) => if p.0 < ts.0 || (p.0 == ts.0 && p.1 < ts.1) {
                            Some(ts)
                        } else {
                            Some(p)
                        },
                    };
                },
                None => {},
            }
        }
        i = i + 1;
    }
    proof {
        assert(docs@.take(docs@.len() as int) =~= docs@);
    }
    latest
}

/// The latest entry of a record with this event, read backwards.
pub fn latest_event(docs: &Vec<Document>, collection: &str, record_id: i64, event: AccessEventType) -> (r: Option<Option<(i64, u32)>>)
    ensures
        r == spec_latest_event(docs@, collection@, record_id, event),
{
    let mut i: usize = docs.len();
    proof {
        assert(docs@.take(docs@.len() as int) =~= docs@);
    }
    while i > 0
        invariant
            i <= docs@.len(),
            spec_latest_event(docs@, collection@, record_id, event) == spec_latest_event(docs@.take(i as int), collection@, record_id, event),
        decreases i,
    {
        proof {
            assert(docs@.take(i as int).drop_last() =~= docs@.take(i - 1));
            assert(docs@.take(i as int).last() == docs@[i - 1]);
        }
        let d = &docs[i - 1];
        if entry_matches(d, Some(collection), Some(record_id), Some(event), None) {
            let empty = String::new();
            let t = match value_text(&d.data, "accessed_at_utc") {
                Some(s) => s,
                None => &empty,
            };
            return Some(parse_rfc3339(t.as_str()));
        }
        i = i - 1;
    }
    None
}

/// What the history says of a record.
pub fn record_access(docs: &Vec<Document>, collection: &str, record_id: i64) -> (r: RecordAccess)
    ensures
        r.last_access == spec_last_access(docs@, collection@, record_id),
        r.latest_read == spec_latest_event(docs@, collection@, record_id, AccessEventType::Read),
        r.ai_written == spec_latest_event(docs@, collection@, record_id, AccessEventType::AiWrite) is Some,
{
    RecordAccess {
        last_access: last_access_time(docs, collection, record_id),
        latest_read: latest_event(docs, collection, record_id, AccessEventType::Read),
        ai_written: latest_event(docs, collection, record_id, AccessEventType::AiWrite).is_some(),
    }
}

/// The smallest and largest second that chrono's `DateTime<Utc>` holds.
pub open spec fn min_utc_secs() -> int {
    -8334601315200
}

pub open spec fn max_utc_secs() -> int {
    8210266876799
}

/// Whether `now` less `secs` seconds is a time chrono can represent (it
/// panics otherwise): the duration fits `TimeDelta` and the result fits
/// `DateTime<Utc>`.
pub open spec fn cutoff_fits(now: (i64, u32), secs: i64) -> bool {
    &&& -9223372036854775 <= secs <= 9223372036854775
    &&& min_utc_secs() <= now.0 - secs <= max_utc_secs()
}

/// Whether instant `t` lies before `now` less `secs` seconds.
pub open spec fn before_cutoff(t: (i64, u32), now: (i64, u32), secs: i64) -> bool {
    t.0 < now.0 - secs || (t.0 == now.0 - secs && t.1 < now.1)
}

/// Whether a record matches a policy at time `now`: not accessed or not read
/// since the cutoff (never counts as not since), written by AI, always for the
/// collection-level policies, never for the confidence policy, all or any of
/// the sub-policies.
pub open spec fn spec_eval(p: TrimPolicy, f: RecordAccess, now: (i64, u32)) -> bool
    decreases p,
{
    match p {
        TrimPolicy::NotAccessedSince(s) => match f.last_access {
            Some(t) => before_cutoff(t, now, s),
            None => true,
        },
        TrimPolicy::NotReadSince(s) => match f.latest_read {
            Some(Some(t)) => before_cutoff(t, now, s),
            _ => true,
        },
        TrimPolicy::AiOriginatedOnly => f.ai_written,
        TrimPolicy::ConfidenceBelow(_) => false,
        TrimPolicy::ToTargetBytes(_) => true,
        TrimPolicy::KeepMostRecentlyAccessed(_) => true,
        TrimPolicy::Compound(ps) => spec_eval_all(ps@, f, now),
        TrimPolicy::Any(ps) => spec_eval_any(ps@, f, now),
    }
}

/// Whether all policies match, checked in order.
pub open spec fn spec_eval_all(ps: Seq<TrimPolicy>, f: RecordAccess, now: (i64, u32)) -> bool
    decreases ps,
{
    if ps.len() == 0 {
        true
    } else {
        spec_eval(ps[0], f, now) && spec_eval_all(ps.drop_first(), f, now)
    }
}

/// Whether any policy matches, checked in order.
pub open spec fn spec_eval_any(ps: Seq<TrimPolicy>, f: RecordAccess, now: (i64, u32)) -> bool
    decreases ps,
{
    if ps.len() == 0 {
        false
    } else {
        spec_eval(ps[0], f, now) || spec_eval_any(ps.drop_first(), f, now)
    }
}

/// Judging a record by its access history: under "not accessed since `secs`"
/// a record is stale exactly when it was never accessed or its latest access
/// lies strictly before `now` less `secs` seconds; so a record with any entry
/// at or after that cutoff is never judged stale. "Not read since" goes the
/// same way by the latest read, where a read whose time does not parse, or no
/// read at all, counts as stale.
pub proof fn lemma_staleness_by_latest_access(
    docs: Seq<Document>,
    collection: Seq<char>,
    record_id: i64,
    f: RecordAccess,
    now: (i64, u32),
    secs: i64,
)
    requires
        f.last_access == spec_last_access(docs, collection, record_id),
    ensures
        spec_eval(TrimPolicy::NotAccessedSince(secs), f, now) <==> (forall|i: int|
            0 <= i < docs.len() && entry_of_record(#[trigger] docs[i], collection, record_id)
                && entry_instant(docs[i]) is Some ==> {
                let u = entry_instant(docs[i])->0;
                u.0 < now.0 - secs || (u.0 == now.0 - secs && u.1 < now.1)
            }),
        spec_eval(TrimPolicy::NotReadSince(secs), f, now) <==> (match f.latest_read {
            Some(Some(t)) => t.0 < now.0 - secs || (t.0 == now.0 - secs && t.1 < now.1),
            _ => true,
        }),
{
    lemma_last_access_is_latest(docs, collection, record_id);
    let cur = spec_last_access(docs, collection, record_id);
    if spec_eval(TrimPolicy::NotAccessedSince(secs), f, now) {
        assert forall|i: int|
            0 <= i < docs.len() && entry_of_record(#[trigger] docs[i], collection, record_id)
                && entry_instant(docs[i]) is Some implies {
                let u = entry_instant(docs[i])->0;
                u.0 < now.0 - secs || (u.0 == now.0 - secs && u.1 < now.1)
            } by {
            let t = cur->0;
            let u = entry_instant(docs[i])->0;
            assert(!(t.0 < u.0 || (t.0 == u.0 && t.1 < u.1)));
        }
    }
    if cur is Some {
        let t = cur->0;
        let i = choose|i: int|
            0 <= i < docs.len() && entry_of_record(#[trigger] docs[i], collection, record_id)
                && entry_instant(docs[i]) == Some(t);
        assert(entry_instant(docs[i]) is Some);
    }
}

/// A compound policy matches exactly when every one of its sub-policies
/// matches (so an empty one always does), and an "any" policy exactly when at
/// least one does (so an empty one never does).
pub proof fn lemma_compound_and_any(ps: Seq<TrimPolicy>, f: RecordAccess, now: (i64, u32))
    ensures
        spec_eval_all(ps, f, now) <==> (forall|i: int| 0 <= i < ps.len() ==> spec_eval(#[trigger] ps[i], f, now)),
        spec_eval_any(ps, f, now) <==> (exists|i: int| 0 <= i < ps.len() && spec_eval(#[trigger] ps[i], f, now)),
    decreases ps.len(),
{
    if ps.len() > 0 {
        let rest = ps.drop_first();
        lemma_compound_and_any(rest, f, now);
        assert forall|i: int| 0 <= i < rest.len() implies #[trigger] rest[i] == ps[i + 1] by {}
        if spec_eval_all(ps, f, now) {
            assert forall|i: int| 0 <= i < ps.len() implies spec_eval(#[trigger] ps[i], f, now) by {
                if i > 0 {
                    assert(rest[i - 1] == ps[i]);
                }
            }
        }
        if forall|i: int| 0 <= i < ps.len() ==> spec_eval(#[trigger] ps[i], f, now) {
            assert forall|i: int| 0 <= i < rest.len() implies spec_eval(#[trigger] rest[i], f, now) by {
                assert(spec_eval(ps[i + 1], f, now));
            }
        }
        if spec_eval_any(ps, f, now) {
            if !spec_eval(ps[0], f, now) {
                let j = choose|j: int| 0 <= j < rest.len() && spec_eval(#[trigger] rest[j], f, now);
                assert(spec_eval(ps[j + 1], f, now));
            }
        }
        if exists|i: int| 0 <= i < ps.len() && spec_eval(#[trigger] ps[i], f, now) {
            let j = choose|j: int| 0 <= j < ps.len() && spec_eval(#[trigger] ps[j], f, now);
            if j > 0 {
                assert(spec_eval(rest[j - 1], f, now));
            }
        }
    }
}

/// Whether judging a record by a policy stays within chrono's time range on
/// every duration it evaluates (evaluation stops at the first sub-policy that
/// settles a compound).
pub open spec fn spec_eval_fits(p: TrimPolicy, f: RecordAccess, now: (i64, u32)) -> bool
    decreases p,
{
    match p {
        TrimPolicy::NotAccessedSince(s) => cutoff_fits(now, s),
        TrimPolicy::NotReadSince(s) => cutoff_fits(now, s),
        TrimPolicy::Compound(ps) => spec_fits_all(ps@, f, now),
        TrimPolicy::Any(ps) => spec_fits_any(ps@, f, now),
        _ => true,
    }
}

pub open spec fn spec_fits_all(ps: Seq<TrimPolicy>, f: RecordAccess, now: (i64, u32)) -> bool
    decreases ps,
{
    if ps.len() == 0 {
        true
    } else {
        spec_eval_fits(ps[0], f, now) && (spec_eval(ps[0], f, now) ==> spec_fits_all(ps.drop_first(), f, now))
    }
}

pub open spec fn spec_fits_any(ps: Seq<TrimPolicy>, f: RecordAccess, now: (i64, u32)) -> bool
    decreases ps,
{
    if ps.len() == 0 {
        true
    } else {
        spec_eval_fits(ps[0], f, now) && (!spec_eval(ps[0], f, now) ==> spec_fits_any(ps.drop_first(), f, now))
    }
}

/// Whether `t` is before the cutoff, computed without overflow.
fn is_before_cutoff(t: (i64, u32), now: (i64, u32), secs: i64) -> (r: bool)
    ensures
        r == before_cutoff(t, now, secs),
{
    let c: i128 = now.0 as i128 - secs as i128;
    (t.0 as i128) < c || ((t.0 as i128) == c && t.1 < now.1)
}

/// Judges a record against a policy at time `now`.
pub fn evaluate_trim_policy(p: &TrimPolicy, f: &RecordAccess, now: (i64, u32)) -> (r: bool)
    requires
        spec_eval_fits(*p, *f, now),
    ensures
        r == spec_eval(*p, *f, now),
    decreases *p,
{
    match p {
        TrimPolicy::NotAccessedSince(s) => match f.last_access {
            Some(t) => is_before_cutoff(t, now, *s),
            None => true,
        },
        TrimPolicy::NotReadSince(s) => match f.latest_read {
            Some(Some(t)) => is_before_cutoff(t, now, *s),
            _ => true,
        },
        TrimPolicy::AiOriginatedOnly => f.ai_written,
        TrimPolicy::ConfidenceBelow(_) => false,
        TrimPolicy::ToTargetBytes(_) => true,
        TrimPolicy::KeepMostRecentlyAccessed(_) => true,
        TrimPolicy::Compound(ps) => {
            let mut i: usize = 0;
            let mut all = true;
            proof {
                assert(ps@.skip(0) =~= ps@);
            }
            while i < ps.len() && all
                invariant
                    i <= ps@.len(),
                    all ==> spec_eval_all(ps@, *f, now) == spec_eval_all(ps@.skip(i as int), *f, now),
                    all ==> spec_fits_all(ps@.skip(i as int), *f, now),
                    !all ==> !spec_eval_all(ps@, *f, now),
                    *p == TrimPolicy::Compound(*ps),
                decreases ps.len() - i,
            {
                proof {
                    assert(ps@.skip(i as int)[0] == ps@[i as int]);
                    assert(ps@.skip(i as int).drop_first() =~= ps@.skip(i + 1));
                    assert(decreases_to!(*p => p->Compound_0));
                    assert(decreases_to!(p->Compound_0 => p->Compound_0@));
                    assert(decreases_to!(p->Compound_0@ => p->Compound_0@[i as int]));
                }
                if !evaluate_trim_policy(&ps[i], f, now) {
                    all = false;
                }
                i = i + 1;
            }
            all
        },
        TrimPolicy::Any(ps) => {
            let mut i: usize = 0;
            let mut any = false;
            proof {
                assert(ps@.skip(0) =~= ps@);
            }
            while i < ps.len() && !any
                invariant
                    i <= ps@.len(),
                    !any ==> spec_eval_any(ps@, *f, now) == spec_eval_any(ps@.skip(i as int), *f, now),
                    !any ==> spec_fits_any(ps@.skip(i as int), *f, now),
                    any ==> spec_eval_any(ps@, *f, now),
                    *p == TrimPolicy::Any(*ps),
                decreases ps.len() - i,
            {
                proof {
                    assert(ps@.skip(i as int)[0] == ps@[i as int]);
                    assert(ps@.skip(i as int).drop_first() =~= ps@.skip(i + 1));
                    assert(decreases_to!(*p => p->Any_0));
                    assert(decreases_to!(p->Any_0 => p->Any_0@));
                    assert(decreases_to!(p->Any_0@ => p->Any_0@[i as int]));
                }
                if evaluate_trim_policy(&ps[i], f, now) {
                    any = true;
                }
                i = i + 1;
            }
            any
        },
    }
}

/// Whether a cutoff `secs` seconds before `now` stays within chrono's range.
fn cutoff_in_range(now: (i64, u32), secs: i64) -> (r: bool)
    ensures
        r == cutoff_fits(now, secs),
{
    let c: i128 = now.0 as i128 - secs as i128;
    -9223372036854775 <= secs && secs <= 9223372036854775 && -8334601315200 <= c && c <= 8210266876799
}

/// Whether judging a record by a policy stays within chrono's time range (see
/// `spec_eval_fits`): the condition under which `evaluate_trim_policy` may run.
pub fn policy_fits(p: &TrimPolicy, f: &RecordAccess, now: (i64, u32)) -> (r: bool)
    ensures
        r == spec_eval_fits(*p, *f, now),
    decreases *p,
{
    match p {
        TrimPolicy::NotAccessedSince(s) => cutoff_in_range(now, *s),
        TrimPolicy::NotReadSince(s) => cutoff_in_range(now, *s),
        TrimPolicy::Compound(ps) => {
            let mut i: usize = 0;
            proof {
                assert(ps@.skip(0) =~= ps@);
            }
            while i < ps.len()
                invariant
                    i <= ps@.len(),
                    spec_eval_fits(*p, *f, now) == spec_fits_all(ps@.skip(i as int), *f, now),
                    *p == TrimPolicy::Compound(*ps),
                decreases ps.len() - i,
            {
                proof {
                    assert(ps@.skip(i as int)[0] == ps@[i as int]);
                    assert(ps@.skip(i as int).drop_first() =~= ps@.skip(i + 1));
                    assert(decreases_to!(*p => p->Compound_0));
                    assert(decreases_to!(p->Compound_0 => p->Compound_0@));
                    assert(decreases_to!(p->Compound_0@ => p->Compound_0@[i as int]));
                }
                if !policy_fits(&ps[i], f, now) {
                    return false;
                }
                if !evaluate_trim_policy(&ps[i], f, now) {
                    return true;
                }
                i = i + 1;
            }
            true
        },
        TrimPolicy::Any(ps) => {
            let mut i: usize = 0;
            proof {
                assert(ps@.skip(0) =~= ps@);
            }
            while i < ps.len()
                invariant
                    i <= ps@.len(),
                    spec_eval_fits(*p, *f, now) == spec_fits_any(ps@.skip(i as int), *f, now),
                    *p == TrimPolicy::Any(*ps),
                decreases ps.len() - i,
            {
                proof {
                    assert(ps@.skip(i as int)[0] == ps@[i as int]);
                    assert(ps@.skip(i as int).drop_first() =~= ps@.skip(i + 1));
                    assert(decreases_to!(*p => p->Any_0));
                    assert(decreases_to!(p->Any_0 => p->Any_0@));
                    assert(decreases_to!(p->Any_0@ => p->Any_0@[i as int]));
                }
                if !policy_fits(&ps[i], f, now) {
                    return false;
                }
                if evaluate_trim_policy(&ps[i], f, now) {
                    return true;
                }
                i = i + 1;
            }
            true
        },
        _ => true,
    }
}

/// Whether a collection is never trimmed: neither a runtime override nor an
/// opt-in mark makes it trimmable.
pub fn is_never_trim(has_override: bool, marked_trimmable: bool) -> (r: bool)
    ensures
        r == (!has_override && !marked_trimmable),
{
    !has_override && !marked_trimmable
}

/// Whether a record-level override protects the record from trimming: its
/// stored bytes are exactly `never_trim`.
pub fn override_is_never_trim(bytes: &Vec<u8>) -> (r: bool)
    ensures
        r == (bytes@ == seq![110u8, 101, 118, 101, 114, 95, 116, 114, 105, 109]),
{
    let mark: Vec<u8> = vec![110u8, 101, 118, 101, 114, 95, 116, 114, 105, 109];
    crate::value::bytes_eq(bytes, &mark)
}

/// The key of a record-level trim override: the collection key, a NUL
/// character, and the record id in decimal.
pub fn record_override_key(meta_key: &str, record_id: i64) -> (r: String)
    ensures
        r@ == meta_key@ + seq!['\0'] + decimal_text(record_id as int),
{
    let mut s = String::from_str(meta_key);
    push_char(&mut s, '\0');
    if record_id < 0 {
        push_char(&mut s, '-');
        let m: u64 = (0i128 - record_id as i128) as u64;
        push_digits(&mut s, m);
        proof {
            assert(meta_key@ + seq!['\0'] + decimal_text(record_id as int) =~= meta_key@.push('\0').push('-')
                + decimal_digits(m as nat));
        }
    } else {
        push_digits(&mut s, record_id as u64);
        proof {
            assert(meta_key@ + seq!['\0'] + decimal_text(record_id as int) =~= meta_key@.push('\0')
                + decimal_digits(record_id as nat));
        }
    }
    s
}

/// Whether a collection is internal (its name holds `__`) and left out of
/// trims across collections.
pub fn is_internal_collection(name: &str) -> (r: bool)
    ensures
        r == has_substring(name@, "__"@),
{
    proof {
        reveal_strlit("__");
    }
    text_contains(name, "__")
}

/// Report of a trim.
#[derive(Debug)]
pub struct TrimReport {
    pub collection: String,
    pub candidate_count: usize,
    pub deleted_count: usize,
    pub skipped_count: usize,
    pub never_trim_skipped_count: usize,
    pub trigger_aborted_count: usize,
    pub dry_run: bool,
    /// When the trim ran (seconds and nanoseconds since the epoch).
    pub executed_at: (i64, u32),
    /// The (collection, record id) of each deleted record, in order.
    pub deleted_record_ids: Vec<(String, i64)>,
}

/// Whether the counts of a report are at most `bound`.
pub open spec fn counts_below(r: TrimReport, bound: int) -> bool {
    &&& r.candidate_count < bound
    &&& r.deleted_count < bound
    &&& r.skipped_count < bound
    &&& r.never_trim_skipped_count < bound
    &&& r.trigger_aborted_count < bound
}

/// How a record fares in a trim.
#[derive(Debug, Clone, Copy, PartialEq, Eq, Structural)]
pub enum TrimFate {
    /// Protected by a record-level never-trim override.
    Protected,
    /// The policy does not match it.
    Kept,
    /// The policy matches it: it is (or, in a dry run, would be) deleted.
    Trimmed,
}

/// The fate of a record: protection first, then the policy.
pub fn trim_fate(protected: bool, matches_policy: bool) -> (r: TrimFate)
    ensures
        protected ==> r == TrimFate::Protected,
        !protected && !matches_policy ==> r == TrimFate::Kept,
        !protected && matches_policy ==> r == TrimFate::Trimmed,
{
    if protected {
        TrimFate::Protected
    } else if !matches_policy {
        TrimFate::Kept
    } else {
        TrimFate::Trimmed
    }
}

impl TrimReport {
    /// An empty report.
    pub fn empty(collection: &str, dry_run: bool, now: (i64, u32)) -> (r: TrimReport)
        ensures
            r.collection@ == collection@,
            r.candidate_count == 0,
            r.deleted_count == 0,
            r.skipped_count == 0,
            r.never_trim_skipped_count == 0,
            r.trigger_aborted_count == 0,
            r.dry_run == dry_run,
            r.executed_at == now,
            r.deleted_record_ids@.len() == 0,
    {
        TrimReport {
            collection: String::from_str(collection),
            candidate_count: 0,
            deleted_count: 0,
            skipped_count: 0,
            never_trim_skipped_count: 0,
            trigger_aborted_count: 0,
            dry_run,
            executed_at: now,
            deleted_record_ids: Vec::new(),
        }
    }

    /// Tallies one record of a collection trim. A protected record counts as
    /// skipped by never-trim; a kept one as skipped; a trimmed one as deleted
    /// in a dry run, and otherwise by the answer of its trigger-aware delete
    /// (`deleted`): deleted on success, aborted on a trigger abort, and any
    /// other error ends the trim.
    pub fn tally(&mut self, collection: &str, record_id: i64, fate: TrimFate, deleted: Option<Result<bool, NoSqlError>>) -> (r: Result<(), NoSqlError>)
        requires
            counts_below(*old(self), usize::MAX as int),
            fate == TrimFate::Trimmed && !old(self).dry_run ==> deleted is Some,
        ensures
            final(self).collection == old(self).collection,
            final(self).dry_run == old(self).dry_run,
            final(self).candidate_count == old(self).candidate_count,
            fate == TrimFate::Protected ==> r is Ok && final(self).never_trim_skipped_count == old(self).never_trim_skipped_count + 1
                && final(self).deleted_count == old(self).deleted_count && final(self).skipped_count == old(self).skipped_count
                && final(self).deleted_record_ids@ == old(self).deleted_record_ids@,
            fate == TrimFate::Kept ==> r is Ok && final(self).skipped_count == old(self).skipped_count + 1
                && final(self).deleted_count == old(self).deleted_count
                && final(self).never_trim_skipped_count == old(self).never_trim_skipped_count
                && final(self).deleted_record_ids@ == old(self).deleted_record_ids@,
            fate == TrimFate::Trimmed && (old(self).dry_run || deleted matches Some(Ok(_))) ==> r is Ok
                && final(self).deleted_count == old(self).deleted_count + 1
                && final(self).deleted_record_ids@.len() == old(self).deleted_record_ids@.len() + 1
                && final(self).deleted_record_ids@.drop_last() == old(self).deleted_record_ids@
                && final(self).deleted_record_ids@.last().0@ == collection@
                && final(self).deleted_record_ids@.last().1 == record_id,
            fate == TrimFate::Trimmed && !old(self).dry_run && (deleted matches Some(Err(NoSqlError::TriggerAbort(_)))) ==> r is Ok
                && final(self).trigger_aborted_count == old(self).trigger_aborted_count + 1
                && final(self).deleted_count == old(self).deleted_count
                && final(self).deleted_record_ids@ == old(self).deleted_record_ids@,
            fate == TrimFate::Trimmed && !old(self).dry_run && (deleted matches Some(Err(e)) && !(e is TriggerAbort)) ==> (
                r matches Err(x) && (deleted matches Some(Err(y)) && y == x)),
    {
        match fate {
            TrimFate::Protected => {
                self.never_trim_skipped_count = self.never_trim_skipped_count + 1;
                Ok(())
            },
            TrimFate::Kept => {
                self.skipped_count = self.skipped_count + 1;
                Ok(())
            },
            TrimFate::Trimmed => {
                if self.dry_run {
                    self.deleted_count = self.deleted_count + 1;
                    self.deleted_record_ids.push((String::from_str(collection), record_id));
                    return Ok(());
                }
                match deleted {
                    Some(Ok(_)) => {
                        self.deleted_count = self.deleted_count + 1;
                        self.deleted_record_ids.push((String::from_str(collection), record_id));
                        Ok(())
                    },
                    Some(Err(NoSqlError::TriggerAbort(_))) => {
                        self.trigger_aborted_count = self.trigger_aborted_count + 1;
                        Ok(())
                    },
                    Some(Err(e)) => Err(e),
                    None => Ok(()),
                }
            },
        }
    }
}


impl TrimReport {
    /// Tallies one confirmed record of a user-approved trim. A record now
    /// protected counts as skipped by never-trim; otherwise it is a candidate,
    /// and the answer of its trigger-aware delete counts it as deleted,
    /// aborted, or skipped when it was already gone; any other error ends the trim.
    pub fn tally_approved(&mut self, collection: &str, record_id: i64, protected: bool, deleted: Option<Result<bool, NoSqlError>>) -> (r: Result<(), NoSqlError>)
        requires
            counts_below(*old(self), usize::MAX as int),
            !protected ==> deleted is Some,
        ensures
            final(self).collection == old(self).collection,
            final(self).dry_run == old(self).dry_run,
            protected ==> r is Ok && final(self).never_trim_skipped_count == old(self).never_trim_skipped_count + 1
                && final(self).candidate_count == old(self).candidate_count
                && final(self).deleted_record_ids@ == old(self).deleted_record_ids@,
            !protected ==> final(self).candidate_count == old(self).candidate_count + 1,
            !protected && (deleted matches Some(Ok(_))) ==> r is Ok
                && final(self).deleted_count == old(self).deleted_count + 1
                && final(self).deleted_record_ids@.len() == old(self).deleted_record_ids@.len() + 1
                && final(self).deleted_record_ids@.drop_last() == old(self).deleted_record_ids@
                && final(self).deleted_record_ids@.last().0@ == collection@
                && final(self).deleted_record_ids@.last().1 == record_id,
            !protected && (deleted matches Some(Err(NoSqlError::TriggerAbort(_)))) ==> r is Ok
                && final(self).trigger_aborted_count == old(self).trigger_aborted_count + 1
                && final(self).deleted_record_ids@ == old(self).deleted_record_ids@,
            !protected && (deleted matches Some(Err(NoSqlError::DocumentNotFound(_)))) ==> r is Ok
                && final(self).skipped_count == old(self).skipped_count + 1
                && final(self).deleted_record_ids@ == old(self).deleted_record_ids@,
            !protected && (deleted matches Some(Err(e)) && !(e is TriggerAbort) && !(e is DocumentNotFound)) ==> (
                r matches Err(x) && (deleted matches Some(Err(y)) && y == x)),
    {
        if protected {
            self.never_trim_skipped_count = self.never_trim_skipped_count + 1;
            return Ok(());
        }
        self.candidate_count = self.candidate_count + 1;
        match deleted {
            Some(Ok(_)) => {
                self.deleted_count = self.deleted_count + 1;
                self.deleted_record_ids.push((String::from_str(collection), record_id));
                Ok(())
            },
            Some(Err(NoSqlError::TriggerAbort(_))) => {
                self.trigger_aborted_count = self.trigger_aborted_count + 1;
                Ok(())
            },
            Some(Err(NoSqlError::DocumentNotFound(_))) => {
                self.skipped_count = self.skipped_count + 1;
                Ok(())
            },
            Some(Err(e)) => Err(e),
            None => Ok(()),
        }
    }

    /// Adds the counts and deleted records of a collection's report into a
    /// combined report.
    pub fn absorb(&mut self, other: TrimReport)
        requires
            old(self).candidate_count + other.candidate_count <= usize::MAX,
            old(self).deleted_count + other.deleted_count <= usize::MAX,
            old(self).skipped_count + other.skipped_count <= usize::MAX,
            old(self).never_trim_skipped_count + other.never_trim_skipped_count <= usize::MAX,
            old(self).trigger_aborted_count + other.trigger_aborted_count <= usize::MAX,
        ensures
            final(self).collection == old(self).collection,
            final(self).dry_run == old(self).dry_run,
            final(self).executed_at == old(self).executed_at,
            final(self).candidate_count == old(self).candidate_count + other.candidate_count,
            final(self).deleted_count == old(self).deleted_count + other.deleted_count,
            final(self).skipped_count == old(self).skipped_count + other.skipped_count,
            final(self).never_trim_skipped_count == old(self).never_trim_skipped_count + other.never_trim_skipped_count,
            final(self).trigger_aborted_count == old(self).trigger_aborted_count + other.trigger_aborted_count,
            final(self).deleted_record_ids@ == old(self).deleted_record_ids@ + other.deleted_record_ids@,
    {
        self.candidate_count = self.candidate_count + other.candidate_count;
        self.deleted_count = self.deleted_count + other.deleted_count;
        self.skipped_count = self.skipped_count + other.skipped_count;
        self.never_trim_skipped_count = self.never_trim_skipped_count + other.never_trim_skipped_count;
        self.trigger_aborted_count = self.trigger_aborted_count + other.trigger_aborted_count;
        let mut ids = other.deleted_record_ids;
        self.deleted_record_ids.append(&mut ids);
    }
}

/// Whether an instant lies within chrono's `DateTime<Utc>` range.
pub open spec fn instant_in_range(t: (i64, u32)) -> bool {
    min_utc_secs() <= t.0 <= max_utc_secs() && t.1 < 2000000000
}

/// The whole seconds from `t` to `now`, truncated toward zero (chrono's
/// `TimeDelta::num_seconds` of `now - t`).
pub open spec fn age_secs(now: (i64, u32), t: (i64, u32)) -> int {
    let ns = (now.0 - t.0) * 1000000000 + (now.1 - t.1);
    if ns >= 0 {
        ns / 1000000000
    } else {
        -((-ns) / 1000000000)
    }
}

/// Ages count whole seconds, truncated toward zero: an instant is zero
/// seconds old at itself and exactly `k` seconds old at an instant `k` whole
/// seconds later (`same_nanos`);
/// swapping the two instants negates the age; and an age never decreases as
/// `now` moves later.
pub proof fn lemma_age_whole_seconds(t: (i64, u32), now: (i64, u32), later: (i64, u32), same_nanos: (i64, u32))
    requires
        same_nanos.1 == t.1,
        t.1 < 1000000000,
        now.1 < 1000000000,
        later.1 < 1000000000,
    ensures
        age_secs(t, t) == 0,
        age_secs(same_nanos, t) == same_nanos.0 - t.0,
        age_secs(now, t) == -age_secs(t, now),
        !(later.0 < now.0 || (later.0 == now.0 && later.1 < now.1)) ==> age_secs(now, t) <= age_secs(
            later,
            t,
        ),
{
    let ns = (now.0 - t.0) * 1000000000 + (now.1 - t.1);
    let ns2 = (later.0 - t.0) * 1000000000 + (later.1 - t.1);
    let k = same_nanos.0 - t.0;
    let nk = (same_nanos.0 - t.0) * 1000000000 + (same_nanos.1 - t.1);
    assert(nk == k * 1000000000);
    if nk >= 0 {
        assert((k * 1000000000) / 1000000000 == k) by (nonlinear_arith);
    } else {
        assert((-(k * 1000000000)) / 1000000000 == -k) by (nonlinear_arith);
    }
    assert(((t.0 - now.0) * 1000000000 + (t.1 - now.1)) == -ns) by (nonlinear_arith)
        requires
            ns == (now.0 - t.0) * 1000000000 + (now.1 - t.1),
    ;
    if !(later.0 < now.0 || (later.0 == now.0 && later.1 < now.1)) {
        assert(ns <= ns2) by (nonlinear_arith)
            requires
                ns == (now.0 - t.0) * 1000000000 + (now.1 - t.1),
                ns2 == (later.0 - t.0) * 1000000000 + (later.1 - t.1),
                later.0 > now.0 || (later.0 == now.0 && later.1 >= now.1),
                now.1 < 1000000000,
                later.1 < 1000000000,
        ;
        if ns >= 0 {
            assert(ns / 1000000000 <= ns2 / 1000000000) by (nonlinear_arith)
                requires
                    0 <= ns <= ns2,
            ;
        } else if ns2 >= 0 {
            assert(-((-ns) / 1000000000) <= 0) by (nonlinear_arith)
                requires
                    ns < 0,
            ;
            assert(ns2 / 1000000000 >= 0) by (nonlinear_arith)
                requires
                    ns2 >= 0,
            ;
        } else {
            assert((-ns2) / 1000000000 <= (-ns) / 1000000000) by (nonlinear_arith)
                requires
                    0 < -ns2 <= -ns,
            ;
        }
    }
}

/// The age of an access at time `now`, in whole seconds.
pub fn age_seconds(now: (i64, u32), t: (i64, u32)) -> (r: i64)
    requires
        instant_in_range(now),
        instant_in_range(t),
    ensures
        r == age_secs(now, t),
{
    let ns: i128 = (now.0 as i128 - t.0 as i128) * 1000000000 + (now.1 as i128 - t.1 as i128);
    let s: i128 = if ns >= 0 {
        ns / 1000000000
    } else {
        0 - (0 - ns) / 1000000000
    };
    s as i64
}

/// A candidate record for trimming.
#[derive(Debug)]
pub struct TrimCandidate {
    pub collection: String,
    pub record_id: i64,
    pub last_accessed_at: Option<(i64, u32)>,
    pub age_since_last_access_secs: Option<i64>,
    pub ai_originated: bool,
    /// Provenance confidence, as the bit pattern of its `f64`.
    pub confidence: Option<u64>,
    pub never_trim_protected: bool,
    pub reasons: Vec<String>,
}

/// The candidate a matching record becomes: its last access and age, with
/// the policy's name as the reason.
pub fn trim_candidate(collection: &str, record_id: i64, last_access: Option<(i64, u32)>, now: (i64, u32), policy: &TrimPolicy) -> (r: TrimCandidate)
    requires
        instant_in_range(now),
        last_access matches Some(t) ==> instant_in_range(t),
    ensures
        r.collection@ == collection@,
        r.record_id == record_id,
        r.last_accessed_at == last_access,
        r.age_since_last_access_secs == (match last_access {
            Some(t) => Some(age_secs(now, t) as i64),
            None => None,
        }),
        !r.ai_originated,
        r.confidence is None,
        !r.never_trim_protected,
        r.reasons@.len() == 1,
        r.reasons@[0]@ == trim_policy_name(*policy),
{
    let age = match last_access {
        Some(t) => Some(age_seconds(now, t)),
        None => None,
    };
    let mut reasons: Vec<String> = Vec::new();
    reasons.push(String::from_str(policy.as_str()));
    TrimCandidate {
        collection: String::from_str(collection),
        record_id,
        last_accessed_at: last_access,
        age_since_last_access_secs: age,
        ai_originated: false,
        confidence: None,
        never_trim_protected: false,
        reasons,
    }
}

/// Per-collection part of a trim recommendation.
#[derive(Debug)]
pub struct TrimCollectionRecommendation {
    pub collection: String,
    pub candidate_count: usize,
    pub candidates: Vec<TrimCandidate>,
}

/// A trim recommendation.
#[derive(Debug)]
pub struct TrimRecommendation {
    pub total_candidate_count: usize,
    pub by_collection: Vec<TrimCollectionRecommendation>,
    pub generated_at: (i64, u32),
    pub policy: TrimPolicy,
}

impl TrimRecommendation {
    /// An empty recommendation for a policy at time `now`.
    pub fn new(policy: TrimPolicy, now: (i64, u32)) -> (r: TrimRecommendation)
        ensures
            r.total_candidate_count == 0,
            r.by_collection@.len() == 0,
            r.generated_at == now,
            r.policy == policy,
    {
        TrimRecommendation { total_candidate_count: 0, by_collection: Vec::new(), generated_at: now, policy }
    }

    /// Adds a collection's candidates: a collection with none is left out.
    pub fn add(&mut self, collection: &str, candidates: Vec<TrimCandidate>)
        requires
            old(self).total_candidate_count + candidates@.len() <= usize::MAX,
        ensures
            final(self).generated_at == old(self).generated_at,
            final(self).policy == old(self).policy,
            final(self).total_candidate_count == old(self).total_candidate_count + candidates@.len(),
            candidates@.len() == 0 ==> final(self).by_collection@ == old(self).by_collection@,
            candidates@.len() > 0 ==> final(self).by_collection@.len() == old(self).by_collection@.len() + 1
                && final(self).by_collection@.drop_last() == old(self).by_collection@
                && final(self).by_collection@.last().collection@ == collection@
                && final(self).by_collection@.last().candidate_count == candidates@.len()
                && final(self).by_collection@.last().candidates == candidates,
    {
        let count = candidates.len();
        if count > 0 {
            self.total_candidate_count = self.total_candidate_count + count;
            self.by_collection.push(TrimCollectionRecommendation {
                collection: String::from_str(collection),
                candidate_count: count,
                candidates,
            });
        }
    }
}

} // verus!
