use nodedb::error::NoSqlError;
use nodedb::trim::{
    evaluate_trim_policy, is_internal_collection, is_never_trim, override_is_never_trim, record_override_key,
    trim_candidate, trim_fate, RecordAccess, TrimFate, TrimPolicy, TrimRecommendation, TrimReport,
};

const NOW: (i64, u32) = (1_700_000_000, 500);

fn access(last: Option<i64>, read: Option<Option<i64>>, ai: bool) -> RecordAccess {
    RecordAccess {
        last_access: last.map(|s| (s, 0)),
        latest_read: read.map(|r| r.map(|s| (s, 0))),
        ai_written: ai,
    }
}

#[test]
fn not_accessed_since_uses_the_latest_access() {
    let p = TrimPolicy::NotAccessedSince(3600);
    assert!(evaluate_trim_policy(&p, &access(Some(NOW.0 - 7200), None, false), NOW));
    assert!(!evaluate_trim_policy(&p, &access(Some(NOW.0 - 60), None, false), NOW));
    assert!(evaluate_trim_policy(&p, &access(None, None, false), NOW));
}

#[test]
fn not_read_since_treats_unparseable_or_missing_reads_as_old() {
    let p = TrimPolicy::NotReadSince(10);
    assert!(evaluate_trim_policy(&p, &access(None, None, false), NOW));
    assert!(evaluate_trim_policy(&p, &access(None, Some(None), false), NOW));
    assert!(!evaluate_trim_policy(&p, &access(None, Some(Some(NOW.0)), false), NOW));
}

#[test]
fn simple_and_compound_policies() {
    let ai = access(Some(NOW.0), None, true);
    let human = access(Some(NOW.0), None, false);
    assert!(evaluate_trim_policy(&TrimPolicy::AiOriginatedOnly, &ai, NOW));
    assert!(!evaluate_trim_policy(&TrimPolicy::AiOriginatedOnly, &human, NOW));
    assert!(!evaluate_trim_policy(&TrimPolicy::ConfidenceBelow(0.5f64.to_bits()), &ai, NOW));
    assert!(evaluate_trim_policy(&TrimPolicy::ToTargetBytes(10), &human, NOW));
    assert!(evaluate_trim_policy(&TrimPolicy::KeepMostRecentlyAccessed(1), &human, NOW));
    let both = TrimPolicy::Compound(vec![TrimPolicy::AiOriginatedOnly, TrimPolicy::NotAccessedSince(3600)]);
    assert!(!evaluate_trim_policy(&both, &ai, NOW));
    let either = TrimPolicy::Any(vec![TrimPolicy::ConfidenceBelow(0), TrimPolicy::AiOriginatedOnly]);
    assert!(evaluate_trim_policy(&either, &ai, NOW));
    assert!(!evaluate_trim_policy(&either, &human, NOW));
    assert!(evaluate_trim_policy(&TrimPolicy::Compound(vec![]), &human, NOW));
    assert!(!evaluate_trim_policy(&TrimPolicy::Any(vec![]), &human, NOW));
}

#[test]
fn policy_names() {
    assert_eq!(TrimPolicy::NotAccessedSince(1).as_str(), "not_accessed_since");
    assert_eq!(TrimPolicy::KeepMostRecentlyAccessed(1).as_str(), "keep_most_recently_accessed");
    assert_eq!(TrimPolicy::Any(vec![]).as_str(), "any");
}

#[test]
fn never_trim_and_overrides() {
    assert!(is_never_trim(false, false));
    assert!(!is_never_trim(true, false));
    assert!(!is_never_trim(false, true));
    assert!(override_is_never_trim(&b"never_trim".to_vec()));
    assert!(!override_is_never_trim(&b"never_trim ".to_vec()));
    assert_eq!(record_override_key("public::users", 7), "public::users\u{0}7");
    assert_eq!(record_override_key("c", i64::MIN), format!("c\u{0}{}", i64::MIN));
    assert!(is_internal_collection("__access_history"));
    assert!(!is_internal_collection("users_"));
}

#[test]
fn fates_and_report_tally() {
    assert_eq!(trim_fate(true, true), TrimFate::Protected);
    assert_eq!(trim_fate(false, false), TrimFate::Kept);
    assert_eq!(trim_fate(false, true), TrimFate::Trimmed);

    let mut report = TrimReport::empty("users", false, NOW);
    report.tally("users", 1, TrimFate::Protected, None).unwrap();
    report.tally("users", 2, TrimFate::Kept, None).unwrap();
    report.tally("users", 3, TrimFate::Trimmed, Some(Ok(true))).unwrap();
    report.tally("users", 4, TrimFate::Trimmed, Some(Err(NoSqlError::TriggerAbort("no".to_string())))).unwrap();
    let err = report.tally("users", 5, TrimFate::Trimmed, Some(Err(NoSqlError::Serialization("x".to_string()))));
    assert!(matches!(err, Err(NoSqlError::Serialization(m)) if m == "x"));
    assert_eq!(report.never_trim_skipped_count, 1);
    assert_eq!(report.skipped_count, 1);
    assert_eq!(report.deleted_count, 1);
    assert_eq!(report.trigger_aborted_count, 1);
    assert_eq!(report.deleted_record_ids, vec![("users".to_string(), 3)]);

    let mut dry = TrimReport::empty("users", true, NOW);
    dry.tally("users", 9, TrimFate::Trimmed, None).unwrap();
    assert_eq!(dry.deleted_count, 1);

    let mut approved = TrimReport::empty("all", false, NOW);
    approved.tally_approved("a", 1, false, Some(Err(NoSqlError::DocumentNotFound(1)))).unwrap();
    approved.tally_approved("a", 2, true, None).unwrap();
    approved.tally_approved("a", 3, false, Some(Ok(true))).unwrap();
    assert_eq!(approved.candidate_count, 2);
    assert_eq!(approved.skipped_count, 1);
    assert_eq!(approved.never_trim_skipped_count, 1);
    assert_eq!(approved.deleted_count, 1);

    let mut total = TrimReport::empty("*", false, NOW);
    total.absorb(report);
    total.absorb(approved);
    assert_eq!(total.deleted_count, 2);
    assert_eq!(total.deleted_record_ids.len(), 2);
}

#[test]
fn candidates_and_recommendations() {
    let p = TrimPolicy::NotAccessedSince(10);
    let c = trim_candidate("users", 5, Some((NOW.0 - 100, 600)), NOW, &p);
    assert_eq!(c.age_since_last_access_secs, Some(99));
    assert_eq!(c.reasons, vec!["not_accessed_since".to_string()]);
    let never = trim_candidate("users", 6, None, NOW, &p);
    assert_eq!(never.age_since_last_access_secs, None);

    let mut rec = TrimRecommendation::new(TrimPolicy::AiOriginatedOnly, NOW);
    rec.add("empty", vec![]);
    rec.add("users", vec![c, never]);
    assert_eq!(rec.total_candidate_count, 2);
    assert_eq!(rec.by_collection.len(), 1);
    assert_eq!(rec.by_collection[0].collection, "users");
    assert_eq!(rec.by_collection[0].candidate_count, 2);
}
