//! The trigger pipeline of a write: "instead" triggers replace the write,
//! "before" triggers may change the data or abort it, the write happens, and
//! "after" triggers observe it without the power to undo it. The handlers are
//! the users' code and the write goes to storage, so the caller runs them; this
//! state machine says, after each answer, what happens next.

use vstd::prelude::*;
use vstd::string::StringExecFns;
use crate::error::NoSqlError;
use crate::schema::{QualifiedName, is_reserved_schema, spec_is_reserved_schema};
use crate::trigger::TriggerEvent;
use crate::value::Value;

verus! {

/// What a trigger handler answers.
#[derive(Debug)]
pub enum TriggerResult {
    /// Proceed with the write, optionally with modified data (meaningful for
    /// "before" and "instead" triggers of puts and updates).
    Proceed(Option<Value>),
    /// Abort the write; the reason is surfaced as a `TriggerAbort` error.
    Abort(String),
    /// Skip this trigger.
    Skip,
}

/// The kind of write a pipeline runs.
#[derive(Debug, Clone, Copy, PartialEq, Eq, Structural)]
pub enum WriteKind {
    Put,
    Update,
    Delete,
}

/// Where a pipeline stands.
#[derive(Debug, Clone, Copy, PartialEq, Eq, Structural)]
pub enum Stage {
    /// The last matching "instead" trigger is to be called.
    Instead,
    /// The "before" trigger at this position is to be called.
    Before(usize),
    /// The write is to be performed.
    Write,
    /// The "after" trigger at this position is to be called.
    After(usize),
    /// The pipeline has finished.
    Finished,
}

/// How a pipeline ended.
#[derive(Debug)]
pub enum RunOutcome {
    /// The put or update was written.
    Written,
    /// The delete ran (or was skipped); the flag says if a record was removed.
    Deleted(bool),
    /// The write failed with this error.
    Failed(NoSqlError),
}

/// What the caller does next.
#[derive(Debug)]
pub enum RunAction {
    /// Call the last matching "instead" trigger.
    CallInstead,
    /// Call the "before" trigger at this position.
    CallBefore(usize),
    /// Perform the write with the current data.
    Write,
    /// Call the "after" trigger at this position.
    CallAfter(usize),
    /// Stop.
    Finish,
}

/// The trigger pipeline of one write.
#[derive(Debug)]
pub struct TriggerRun {
    kind: WriteKind,
    /// Whether an "instead" trigger replaced the normal path.
    instead: bool,
    before_count: usize,
    after_count: usize,
    stage: Stage,
    /// The data to write (puts and updates).
    data: Option<Value>,
    outcome: Option<RunOutcome>,
}

/// The abort error of a trigger.
pub open spec fn is_abort(e: NoSqlError, reason: Seq<char>) -> bool {
    e matches NoSqlError::TriggerAbort(m) && m@ == reason
}

/// Whether an outcome is the failure of a trigger abort with this reason.
pub open spec fn failed_with(o: Option<RunOutcome>, reason: Seq<char>) -> bool {
    o matches Some(RunOutcome::Failed(e)) && is_abort(e, reason)
}

/// Whether an outcome is the success of a write of this kind (`removed`
/// says, for a delete, if a record was removed).
pub open spec fn ended_with(o: Option<RunOutcome>, kind: WriteKind, removed: bool) -> bool {
    if kind == WriteKind::Delete {
        o matches Some(RunOutcome::Deleted(d)) && d == removed
    } else {
        o matches Some(RunOutcome::Written)
    }
}

/// The stage that follows the "before" trigger at `pos` of `count`.
pub open spec fn after_before(pos: int, count: int) -> Stage {
    if pos + 1 < count {
        Stage::Before((pos + 1) as usize)
    } else {
        Stage::Write
    }
}

impl TriggerRun {
    pub closed spec fn spec_kind(&self) -> WriteKind {
        self.kind
    }

    pub closed spec fn spec_instead(&self) -> bool {
        self.instead
    }

    pub closed spec fn spec_before_count(&self) -> nat {
        self.before_count as nat
    }

    pub closed spec fn spec_after_count(&self) -> nat {
        self.after_count as nat
    }

    pub closed spec fn spec_stage(&self) -> Stage {
        self.stage
    }

    pub closed spec fn spec_data(&self) -> Option<Value> {
        self.data
    }

    pub closed spec fn spec_outcome(&self) -> Option<RunOutcome> {
        self.outcome
    }

    /// The pipeline's invariant: positions stay in range, an outcome exactly
    /// when finished, data exactly for puts and updates, and no "before" or
    /// "after" stage once an "instead" trigger took over.
    pub open spec fn wf(&self) -> bool {
        &&& (self.spec_stage() matches Stage::Before(p) ==> p < self.spec_before_count() && !self.spec_instead())
        &&& (self.spec_stage() matches Stage::After(p) ==> p < self.spec_after_count() && !self.spec_instead())
        &&& (self.spec_stage() is Instead ==> self.spec_instead())
        &&& (self.spec_stage() is Finished <==> self.spec_outcome() is Some)
        &&& (self.spec_kind() == WriteKind::Delete <==> self.spec_data() is None)
    }

    /// Whether the "after" triggers run once the write is done: not after an
    /// "instead" trigger, and for a delete only when a record was removed.
    pub open spec fn spec_runs_after(&self, changed: bool) -> bool {
        !self.spec_instead() && self.spec_after_count() > 0 && (self.spec_kind() != WriteKind::Delete || changed)
    }

    /// How many steps at most remain: each answer or write lowers it.
    pub open spec fn remaining(&self) -> nat {
        match self.spec_stage() {
            Stage::Instead => 2,
            Stage::Before(p) => ((self.spec_before_count() - p) + 1 + self.spec_after_count()) as nat,
            Stage::Write => if self.spec_instead() {
                1
            } else {
                1 + self.spec_after_count()
            },
            Stage::After(p) => (self.spec_after_count() - p) as nat,
            Stage::Finished => 0,
        }
    }

    /// Starts the pipeline of a write: with `instead_count` matching "instead"
    /// triggers, `before_count` "before" and `after_count` "after" ones. An
    /// "instead" trigger, when there is one, takes over; otherwise the
    /// "before" triggers run first, or the write where there are none.
    pub fn start(kind: WriteKind, data: Option<Value>, instead_count: usize, before_count: usize, after_count: usize) -> (r: TriggerRun)
        requires
            (kind == WriteKind::Delete) == (data is None),
        ensures
            r.wf(),
            r.spec_kind() == kind,
            r.spec_data() == data,
            r.spec_instead() == (instead_count > 0),
            r.spec_before_count() == before_count,
            r.spec_after_count() == after_count,
            r.spec_stage() == (if instead_count > 0 {
                Stage::Instead
            } else if before_count > 0 {
                Stage::Before(0)
            } else {
                Stage::Write
            }),
    {
        let stage = if instead_count > 0 {
            Stage::Instead
        } else if before_count > 0 {
            Stage::Before(0)
        } else {
            Stage::Write
        };
        TriggerRun {
            kind,
            instead: instead_count > 0,
            before_count,
            after_count,
            stage,
            data,
            outcome: None,
        }
    }

    /// What to do next.
    pub fn next(&self) -> (r: RunAction)
        requires
            self.wf(),
        ensures
            match self.spec_stage() {
                Stage::Instead => r is CallInstead,
                Stage::Before(p) => r matches RunAction::CallBefore(q) && q == p,
                Stage::Write => r is Write,
                Stage::After(p) => r matches RunAction::CallAfter(q) && q == p,
                Stage::Finished => r is Finish,
            },
    {
        match self.stage {
            Stage::Instead => RunAction::CallInstead,
            Stage::Before(p) => RunAction::CallBefore(p),
            Stage::Write => RunAction::Write,
            Stage::After(p) => RunAction::CallAfter(p),
            Stage::Finished => RunAction::Finish,
        }
    }

    /// The data the next trigger sees as the proposed record, or the write uses.
    pub fn data(&self) -> (r: &Option<Value>)
        ensures
            *r == self.spec_data(),
    {
        &self.data
    }

    /// The outcome, once finished.
    pub fn outcome(&self) -> (r: &Option<RunOutcome>)
        ensures
            *r == self.spec_outcome(),
    {
        &self.outcome
    }

    /// Ends the pipeline, handing out its outcome and data.
    pub fn into_parts(self) -> (r: (Option<RunOutcome>, Option<Value>))
        ensures
            r.0 == self.spec_outcome(),
            r.1 == self.spec_data(),
    {
        (self.outcome, self.data)
    }

    /// Takes the handler's answer of the trigger that `next` named.
    ///
    /// An "instead" trigger: `Abort` fails the write; `Skip` fails a put or an
    /// update and ends a delete with nothing removed; `Proceed` goes to the
    /// write, with the modified data where a put or update got some. A
    /// "before" trigger: `Abort` fails the write; `Proceed` with data replaces
    /// the data of a put or update; then the next trigger, or the write. An
    /// "after" trigger cannot change anything: the next one, or the end.
    pub fn on_result(&mut self, result: TriggerResult)
        requires
            old(self).wf(),
            old(self).spec_stage() is Instead || old(self).spec_stage() is Before || old(self).spec_stage() is After,
        ensures
            final(self).wf(),
            final(self).remaining() < old(self).remaining(),
            final(self).spec_kind() == old(self).spec_kind(),
            final(self).spec_instead() == old(self).spec_instead(),
            final(self).spec_before_count() == old(self).spec_before_count(),
            final(self).spec_after_count() == old(self).spec_after_count(),
            old(self).spec_stage() is Instead ==> match result {
                TriggerResult::Abort(reason) => final(self).spec_stage() is Finished
                    && failed_with(final(self).spec_outcome(), reason@),
                TriggerResult::Skip => final(self).spec_stage() is Finished && if old(self).spec_kind() == WriteKind::Delete {
                    ended_with(final(self).spec_outcome(), WriteKind::Delete, false)
                } else {
                    failed_with(final(self).spec_outcome(), "instead trigger skipped the write"@)
                },
                TriggerResult::Proceed(m) => final(self).spec_stage() is Write && final(self).spec_data() == (
                    if old(self).spec_kind() != WriteKind::Delete && m is Some { m } else { old(self).spec_data() }),
            },
            old(self).spec_stage() matches Stage::Before(p) ==> match result {
                TriggerResult::Abort(reason) => final(self).spec_stage() is Finished
                    && failed_with(final(self).spec_outcome(), reason@),
                TriggerResult::Skip => final(self).spec_stage() == after_before(p as int, old(self).spec_before_count() as int)
                    && final(self).spec_data() == old(self).spec_data(),
                TriggerResult::Proceed(m) => final(self).spec_stage() == after_before(p as int, old(self).spec_before_count() as int)
                    && final(self).spec_data() == (
                    if old(self).spec_kind() != WriteKind::Delete && m is Some { m } else { old(self).spec_data() }),
            },
            old(self).spec_stage() matches Stage::After(p) ==> {
                &&& final(self).spec_data() == old(self).spec_data()
                &&& if p + 1 < old(self).spec_after_count() {
                    final(self).spec_stage() == Stage::After((p + 1) as usize)
                } else {
                    final(self).spec_stage() is Finished && ended_with(final(self).spec_outcome(), old(self).spec_kind(), true)
                }
            },
    {
        match self.stage {
            Stage::Instead => {
                match result {
                    TriggerResult::Abort(reason) => {
                        self.stage = Stage::Finished;
                        self.outcome = Some(RunOutcome::Failed(NoSqlError::TriggerAbort(reason)));
                    },
                    TriggerResult::Skip => {
                        self.stage = Stage::Finished;
                        if self.kind == WriteKind::Delete {
                            self.outcome = Some(RunOutcome::Deleted(false));
                        } else {
                            let reason = String::from_str("instead trigger skipped the write");
                            proof {
                                reveal_strlit("instead trigger skipped the write");
                            }
                            self.outcome = Some(RunOutcome::Failed(NoSqlError::TriggerAbort(reason)));
                        }
                    },
                    TriggerResult::Proceed(m) => {
                        self.stage = Stage::Write;
                        if self.kind != WriteKind::Delete && m.is_some() {
                            self.data = m;
                        }
                    },
                }
            },
            Stage::Before(p) => {
                let next = if p + 1 < self.before_count {
                    Stage::Before(p + 1)
                } else {
                    Stage::Write
                };
                match result {
                    TriggerResult::Abort(reason) => {
                        self.stage = Stage::Finished;
                        self.outcome = Some(RunOutcome::Failed(NoSqlError::TriggerAbort(reason)));
                    },
                    TriggerResult::Skip => {
                        self.stage = next;
                    },
                    TriggerResult::Proceed(m) => {
                        self.stage = next;
                        if self.kind != WriteKind::Delete && m.is_some() {
                            self.data = m;
                        }
                    },
                }
            },
            Stage::After(p) => {
                if p + 1 < self.after_count {
                    self.stage = Stage::After(p + 1);
                } else {
                    self.stage = Stage::Finished;
                    if self.kind == WriteKind::Delete {
                        self.outcome = Some(RunOutcome::Deleted(true));
                    } else {
                        self.outcome = Some(RunOutcome::Written);
                    }
                }
            },
            _ => {},
        }
    }

    /// Takes the result of the write that `next` asked for: `changed` says if a
    /// record was removed (deletes; puts and updates pass `true`). After an
    /// "instead" trigger the pipeline ends; otherwise the "after" triggers run
    /// (for a delete only when a record was removed), or it ends.
    pub fn on_write(&mut self, changed: bool)
        requires
            old(self).wf(),
            old(self).spec_stage() is Write,
        ensures
            final(self).wf(),
            final(self).remaining() < old(self).remaining(),
            final(self).spec_kind() == old(self).spec_kind(),
            final(self).spec_instead() == old(self).spec_instead(),
            final(self).spec_before_count() == old(self).spec_before_count(),
            final(self).spec_after_count() == old(self).spec_after_count(),
            final(self).spec_data() == old(self).spec_data(),
            old(self).spec_runs_after(changed) ==> final(self).spec_stage() == Stage::After(0),
            !old(self).spec_runs_after(changed) ==> (final(self).spec_stage() is Finished
                && ended_with(final(self).spec_outcome(), old(self).spec_kind(), changed)),
    {
        let runs_after = !self.instead && self.after_count > 0 && (self.kind != WriteKind::Delete || changed);
        if runs_after {
            self.stage = Stage::After(0);
        } else {
            self.stage = Stage::Finished;
            if self.kind == WriteKind::Delete {
                self.outcome = Some(RunOutcome::Deleted(changed));
            } else {
                self.outcome = Some(RunOutcome::Written);
            }
        }
    }
}

/// Once an "instead" trigger takes over, no "before" or "after" trigger runs:
/// every state reachable by answers and writes stays out of those stages.
pub proof fn lemma_instead_excludes_before_after(run: TriggerRun)
    requires
        run.wf(),
        run.spec_instead(),
    ensures
        !(run.spec_stage() is Before),
        !(run.spec_stage() is After),
{
}

/// A failed write never reaches the write step again: a finished pipeline
/// asks for nothing more.
pub proof fn lemma_finished_is_final(run: TriggerRun)
    requires
        run.wf(),
        run.spec_stage() is Finished,
    ensures
        run.remaining() == 0,
        run.spec_outcome() is Some,
{
}

/// Writes to reserved schemas are refused with the collection's display name.
pub fn guard_reserved_write(qn: &QualifiedName) -> (r: Result<(), NoSqlError>)
    ensures
        spec_is_reserved_schema(qn.schema@) ==> (r matches Err(NoSqlError::ReservedSchemaWriteNotPermitted(m))
            && m@ == qn.spec_display_name()),
        !spec_is_reserved_schema(qn.schema@) ==> r is Ok,
{
    if is_reserved_schema(qn.schema.as_str()) {
        Err(NoSqlError::ReservedSchemaWriteNotPermitted(qn.display_name()))
    } else {
        Ok(())
    }
}

/// The event of a put: an update when an id was given and a record with it
/// exists (`existing` is the lookup's answer: found, not found, or an error),
/// an insert otherwise; a lookup error ends the put.
pub fn put_event(id: i64, existing: Result<bool, NoSqlError>) -> (r: Result<TriggerEvent, NoSqlError>)
    ensures
        id == 0 ==> (r matches Ok(ev) && ev == TriggerEvent::Insert),
        id != 0 ==> match existing {
            Ok(true) => (r matches Ok(ev) && ev == TriggerEvent::Update),
            Ok(false) => (r matches Ok(ev) && ev == TriggerEvent::Insert),
            Err(e) => (r matches Err(x) && x == e),
        },
{
    if id == 0 {
        return Ok(TriggerEvent::Insert);
    }
    match existing {
        Ok(true) => Ok(TriggerEvent::Update),
        Ok(false) => Ok(TriggerEvent::Insert),
        Err(e) => Err(e),
    }
}

/// How a trigger-aware clear counts the answer of one record's delete: a
/// removal counts one, nothing removed or an abort counts none, and any other
/// error ends the clear.
pub fn clear_step(count: usize, answer: Result<bool, NoSqlError>) -> (r: Result<usize, NoSqlError>)
    requires
        count < usize::MAX,
    ensures
        match answer {
            Ok(true) => (r matches Ok(n) && n == count + 1),
            Ok(false) => (r matches Ok(n) && n == count),
            Err(NoSqlError::TriggerAbort(_)) => (r matches Ok(n) && n == count),
            Err(e) => (r matches Err(x) && x == e),
        },
{
    match answer {
        Ok(true) => Ok(count + 1),
        Ok(false) => Ok(count),
        Err(NoSqlError::TriggerAbort(_)) => Ok(count),
        Err(e) => Err(e),
    }
}

/// How deeply trigger handlers may nest writes that fire triggers again.
pub const MAX_TRIGGER_DEPTH: u8 = 8;

/// Entering a trigger pipeline at nesting `depth`: the depth one deeper, or a
/// trigger abort once the maximum depth is reached.
pub fn enter_trigger_depth(depth: u8) -> (r: Result<u8, NoSqlError>)
    ensures
        depth >= MAX_TRIGGER_DEPTH ==> (r matches Err(NoSqlError::TriggerAbort(m)) && m@
            == "maximum trigger depth exceeded"@),
        depth < MAX_TRIGGER_DEPTH ==> (r matches Ok(d) && d == depth + 1),
{
    if depth >= MAX_TRIGGER_DEPTH {
        return Err(NoSqlError::TriggerAbort(String::from_str("maximum trigger depth exceeded")));
    }
    Ok(depth + 1)
}

/// Leaving a trigger pipeline: the depth one shallower, never below zero.
pub fn exit_trigger_depth(depth: u8) -> (r: u8)
    ensures
        r == (if depth > 0 { depth - 1 } else { 0 }),
{
    if depth > 0 {
        depth - 1
    } else {
        0
    }
}

} // verus!
