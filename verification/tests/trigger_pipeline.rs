use nodedb::error::NoSqlError;
use nodedb::pipeline::{
    clear_step, enter_trigger_depth, exit_trigger_depth, put_event, RunAction, RunOutcome, TriggerResult, TriggerRun,
    WriteKind, MAX_TRIGGER_DEPTH,
};
use nodedb::trigger::TriggerEvent;
use nodedb::value::Value;

fn data(n: i64) -> Option<Value> {
    Some(Value::Integer(n))
}

fn current(run: &TriggerRun) -> Option<i64> {
    match run.data() {
        Some(Value::Integer(n)) => Some(*n),
        _ => None,
    }
}

#[test]
fn no_triggers_passthrough() {
    let mut run = TriggerRun::start(WriteKind::Put, data(1), 0, 0, 0);
    assert!(matches!(run.next(), RunAction::Write));
    run.on_write(true);
    assert!(matches!(run.next(), RunAction::Finish));
    assert!(matches!(run.outcome(), Some(RunOutcome::Written)));
}

#[test]
fn before_triggers_chain_their_changes_then_after_triggers_run() {
    let mut run = TriggerRun::start(WriteKind::Put, data(1), 0, 2, 2);
    let mut log = Vec::new();
    loop {
        match run.next() {
            RunAction::CallInstead => panic!("no instead trigger"),
            RunAction::CallBefore(i) => {
                log.push(format!("before{}", i));
                let n = current(&run).unwrap();
                run.on_result(TriggerResult::Proceed(Some(Value::Integer(n * 10))));
            }
            RunAction::Write => {
                log.push(format!("write{}", current(&run).unwrap()));
                run.on_write(true);
            }
            RunAction::CallAfter(i) => {
                log.push(format!("after{}", i));
                run.on_result(TriggerResult::Proceed(Some(Value::Integer(0))));
            }
            RunAction::Finish => break,
        }
    }
    assert_eq!(log, vec!["before0", "before1", "write100", "after0", "after1"]);
    assert!(matches!(run.outcome(), Some(RunOutcome::Written)));
    assert_eq!(current(&run), Some(100));
}

#[test]
fn before_abort_stops_the_write() {
    let mut run = TriggerRun::start(WriteKind::Put, data(1), 0, 2, 1);
    run.on_result(TriggerResult::Abort("rejected".to_string()));
    assert!(matches!(run.next(), RunAction::Finish));
    assert!(matches!(run.outcome(), Some(RunOutcome::Failed(NoSqlError::TriggerAbort(m))) if m == "rejected"));
}

#[test]
fn instead_trigger_skips_before_and_after() {
    let mut run = TriggerRun::start(WriteKind::Put, data(1), 1, 3, 3);
    assert!(matches!(run.next(), RunAction::CallInstead));
    run.on_result(TriggerResult::Proceed(data(7)));
    assert!(matches!(run.next(), RunAction::Write));
    assert_eq!(current(&run), Some(7));
    run.on_write(true);
    assert!(matches!(run.next(), RunAction::Finish));
    assert!(matches!(run.outcome(), Some(RunOutcome::Written)));
}

#[test]
fn instead_skip_fails_a_put_and_ends_a_delete() {
    let mut put = TriggerRun::start(WriteKind::Put, data(1), 1, 0, 0);
    put.on_result(TriggerResult::Skip);
    assert!(matches!(put.outcome(), Some(RunOutcome::Failed(NoSqlError::TriggerAbort(m))) if m == "instead trigger skipped the write"));
    let mut del = TriggerRun::start(WriteKind::Delete, None, 1, 0, 0);
    del.on_result(TriggerResult::Skip);
    assert!(matches!(del.outcome(), Some(RunOutcome::Deleted(false))));
}

#[test]
fn after_delete_runs_only_when_a_record_was_removed() {
    let mut gone = TriggerRun::start(WriteKind::Delete, None, 0, 0, 1);
    gone.on_write(false);
    assert!(matches!(gone.next(), RunAction::Finish));
    assert!(matches!(gone.outcome(), Some(RunOutcome::Deleted(false))));
    let mut removed = TriggerRun::start(WriteKind::Delete, None, 0, 0, 1);
    removed.on_write(true);
    assert!(matches!(removed.next(), RunAction::CallAfter(0)));
    removed.on_result(TriggerResult::Skip);
    assert!(matches!(removed.outcome(), Some(RunOutcome::Deleted(true))));
}

#[test]
fn delete_before_trigger_cannot_change_data() {
    let mut run = TriggerRun::start(WriteKind::Delete, None, 0, 1, 0);
    run.on_result(TriggerResult::Proceed(data(3)));
    assert!(run.data().is_none());
    let (outcome, rest) = {
        run.on_write(true);
        run.into_parts()
    };
    assert!(matches!(outcome, Some(RunOutcome::Deleted(true))));
    assert!(rest.is_none());
}

#[test]
fn put_event_and_clear_counting() {
    assert_eq!(put_event(0, Ok(true)).unwrap(), TriggerEvent::Insert);
    assert_eq!(put_event(5, Ok(true)).unwrap(), TriggerEvent::Update);
    assert_eq!(put_event(5, Ok(false)).unwrap(), TriggerEvent::Insert);
    assert!(put_event(5, Err(NoSqlError::InvalidQuery("x".to_string()))).is_err());
    assert_eq!(clear_step(2, Ok(true)).unwrap(), 3);
    assert_eq!(clear_step(2, Ok(false)).unwrap(), 2);
    assert_eq!(clear_step(2, Err(NoSqlError::TriggerAbort("no".to_string()))).unwrap(), 2);
    assert!(clear_step(2, Err(NoSqlError::InvalidQuery("x".to_string()))).is_err());
}

#[test]
fn trigger_depth_is_bounded() {
    let mut depth = 0u8;
    for _ in 0..MAX_TRIGGER_DEPTH {
        depth = enter_trigger_depth(depth).unwrap();
    }
    assert_eq!(depth, 8);
    assert!(matches!(enter_trigger_depth(depth), Err(NoSqlError::TriggerAbort(m)) if m == "maximum trigger depth exceeded"));
    assert_eq!(exit_trigger_depth(depth), 7);
    assert_eq!(exit_trigger_depth(0), 0);
}
