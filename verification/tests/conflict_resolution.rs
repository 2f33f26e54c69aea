use nodedb::conflict::{resolve_conflict, ConflictContext, ConflictOutcome, ConflictResolution};

fn ctx(local_ts: i64, remote_ts: i64) -> ConflictContext {
    ConflictContext {
        local_updated_at: local_ts,
        remote_updated_at: remote_ts,
        local_confidence: None,
        remote_confidence: None,
    }
}

fn ctx_with_confidence(
    local_ts: i64,
    remote_ts: i64,
    local_conf: Option<f64>,
    remote_conf: Option<f64>,
) -> ConflictContext {
    ConflictContext {
        local_updated_at: local_ts,
        remote_updated_at: remote_ts,
        local_confidence: local_conf.map(|c| c.to_bits()),
        remote_confidence: remote_conf.map(|c| c.to_bits()),
    }
}

#[test]
fn lww_newer_remote_wins() {
    let outcome = resolve_conflict(ConflictResolution::LastWriteWins, &ctx(100, 200));
    assert_eq!(outcome, ConflictOutcome::AcceptRemote);
}

#[test]
fn lww_newer_local_wins() {
    let outcome = resolve_conflict(ConflictResolution::LastWriteWins, &ctx(200, 100));
    assert_eq!(outcome, ConflictOutcome::KeepLocal);
}

#[test]
fn lww_equal_timestamp_keeps_local() {
    let outcome = resolve_conflict(ConflictResolution::LastWriteWins, &ctx(100, 100));
    assert_eq!(outcome, ConflictOutcome::KeepLocal);
}

#[test]
fn local_wins_always() {
    let outcome = resolve_conflict(ConflictResolution::LocalWins, &ctx(100, 200));
    assert_eq!(outcome, ConflictOutcome::KeepLocal);
}

#[test]
fn remote_wins_always() {
    let outcome = resolve_conflict(ConflictResolution::RemoteWins, &ctx(200, 100));
    assert_eq!(outcome, ConflictOutcome::AcceptRemote);
}

#[test]
fn highest_confidence_remote_higher() {
    let outcome = resolve_conflict(
        ConflictResolution::HighestConfidence,
        &ctx_with_confidence(100, 200, Some(0.5), Some(0.9)),
    );
    assert_eq!(outcome, ConflictOutcome::AcceptRemote);
}

#[test]
fn highest_confidence_local_higher() {
    let outcome = resolve_conflict(
        ConflictResolution::HighestConfidence,
        &ctx_with_confidence(100, 200, Some(0.9), Some(0.5)),
    );
    assert_eq!(outcome, ConflictOutcome::KeepLocal);
}

#[test]
fn highest_confidence_tie_falls_back_to_lww() {
    let outcome = resolve_conflict(
        ConflictResolution::HighestConfidence,
        &ctx_with_confidence(100, 200, Some(0.8), Some(0.8)),
    );
    assert_eq!(outcome, ConflictOutcome::AcceptRemote);
}

#[test]
fn highest_confidence_none_falls_back_to_lww() {
    let outcome = resolve_conflict(ConflictResolution::HighestConfidence, &ctx(100, 200));
    assert_eq!(outcome, ConflictOutcome::AcceptRemote);
}

#[test]
fn manual_always_requires_manual() {
    let outcome = resolve_conflict(ConflictResolution::Manual, &ctx(100, 200));
    assert_eq!(outcome, ConflictOutcome::RequiresManual);
}

#[test]
fn swapping_sides_swaps_an_automatic_outcome() {
    let a = ctx_with_confidence(100, 200, Some(0.3), Some(0.7));
    let b = ctx_with_confidence(200, 100, Some(0.7), Some(0.3));
    for s in [ConflictResolution::LastWriteWins, ConflictResolution::HighestConfidence] {
        assert_ne!(resolve_conflict(s, &a), resolve_conflict(s, &b));
    }
}

#[test]
fn confidences_compare_as_numbers() {
    let hc = ConflictResolution::HighestConfidence;
    // -0.0 and 0.0 tie, so the newer remote value wins.
    assert_eq!(resolve_conflict(hc, &ctx_with_confidence(100, 200, Some(-0.0), Some(0.0))), ConflictOutcome::AcceptRemote);
    assert_eq!(resolve_conflict(hc, &ctx_with_confidence(200, 100, Some(0.0), Some(-0.0))), ConflictOutcome::KeepLocal);
    // Negative scores order as numbers.
    assert_eq!(resolve_conflict(hc, &ctx_with_confidence(200, 100, Some(-0.5), Some(-0.25))), ConflictOutcome::AcceptRemote);
    assert_eq!(resolve_conflict(hc, &ctx_with_confidence(100, 200, Some(0.1), Some(-0.9))), ConflictOutcome::KeepLocal);
    assert_eq!(resolve_conflict(hc, &ctx_with_confidence(100, 200, Some(f64::NEG_INFINITY), Some(-1.0))), ConflictOutcome::AcceptRemote);
    // A NaN compares neither way, so last write wins decides.
    assert_eq!(resolve_conflict(hc, &ctx_with_confidence(100, 200, Some(f64::NAN), Some(0.1))), ConflictOutcome::AcceptRemote);
    assert_eq!(resolve_conflict(hc, &ctx_with_confidence(200, 100, Some(0.1), Some(f64::NAN))), ConflictOutcome::KeepLocal);
}
