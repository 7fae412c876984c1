//! Vocabulary shared by sagas, workflows and TCC transactions: statuses,
//! patterns, phases and retry policies, each with its wire string.

use crate::text;
use crate::text_map::TextMap;
use crate::time::{utc_now, Timestamp};
use crate::value::{Value, ValueView};
use vstd::prelude::*;

verus! {

/// Lifecycle status of an execution, over all three patterns.
#[derive(Debug, Clone, Copy, PartialEq, Eq, Structural, Hash)]
pub enum ExecutionStatus {
    /// Accepted but not started yet.
    Pending,
    /// Steps are executing.
    Running,
    /// Blocked on a signal or timer.
    Waiting,
    /// Paused by an operator.
    Suspended,
    /// Finished successfully: terminal.
    Completed,
    /// Finished with an unrecovered error: terminal.
    Failed,
    /// Cancelled by the caller: terminal.
    Cancelled,
    /// Exceeded its deadline: terminal.
    TimedOut,
    /// TCC: try phase in progress.
    Trying,
    /// TCC: confirm phase in progress.
    Confirming,
    /// TCC: every participant confirmed, terminal.
    Confirmed,
    /// TCC: cancel phase in progress.
    Canceling,
    /// TCC: every tried participant cancelled, terminal.
    Canceled,
    /// Saga: compensation in progress.
    Compensating,
    /// Saga: compensation finished, terminal.
    Compensated,
}

/// Whether an execution in `status` can no longer change.
pub open spec fn terminal(status: ExecutionStatus) -> bool {
    match status {
        ExecutionStatus::Completed => true,
        ExecutionStatus::Failed => true,
        ExecutionStatus::Cancelled => true,
        ExecutionStatus::TimedOut => true,
        ExecutionStatus::Confirmed => true,
        ExecutionStatus::Canceled => true,
        ExecutionStatus::Compensated => true,
        _ => false,
    }
}

/// An execution can no longer change in exactly seven statuses; in the other
/// eight it is under way.
pub proof fn law_seven_statuses_are_terminal(status: ExecutionStatus)
    ensures
        terminal(status) <==> (status is Completed || status is Failed || status is Cancelled
            || status is TimedOut || status is Confirmed || status is Canceled
            || status is Compensated),
        !terminal(status) <==> (status is Pending || status is Running || status is Waiting
            || status is Suspended || status is Trying || status is Confirming
            || status is Canceling || status is Compensating),
{
}

/// The wire string of a status.
pub open spec fn status_wire(status: ExecutionStatus) -> Seq<char> {
    match status {
        ExecutionStatus::Pending => "PENDING"@,
        ExecutionStatus::Running => "RUNNING"@,
        ExecutionStatus::Waiting => "WAITING"@,
        ExecutionStatus::Suspended => "SUSPENDED"@,
        ExecutionStatus::Completed => "COMPLETED"@,
        ExecutionStatus::Failed => "FAILED"@,
        ExecutionStatus::Cancelled => "CANCELLED"@,
        ExecutionStatus::TimedOut => "TIMED_OUT"@,
        ExecutionStatus::Trying => "TRYING"@,
        ExecutionStatus::Confirming => "CONFIRMING"@,
        ExecutionStatus::Confirmed => "CONFIRMED"@,
        ExecutionStatus::Canceling => "CANCELING"@,
        ExecutionStatus::Canceled => "CANCELED"@,
        ExecutionStatus::Compensating => "COMPENSATING"@,
        ExecutionStatus::Compensated => "COMPENSATED"@,
    }
}

/// No two statuses share a wire string.
pub proof fn law_status_wire_is_unique(a: ExecutionStatus, b: ExecutionStatus)
    requires
        status_wire(a) == status_wire(b),
    ensures
        a == b,
{
    reveal_strlit("PENDING");
    reveal_strlit("RUNNING");
    reveal_strlit("WAITING");
    reveal_strlit("SUSPENDED");
    reveal_strlit("COMPLETED");
    reveal_strlit("FAILED");
    reveal_strlit("CANCELLED");
    reveal_strlit("TIMED_OUT");
    reveal_strlit("TRYING");
    reveal_strlit("CONFIRMING");
    reveal_strlit("CONFIRMED");
    reveal_strlit("CANCELING");
    reveal_strlit("CANCELED");
    reveal_strlit("COMPENSATING");
    reveal_strlit("COMPENSATED");
    let x = status_wire(a);
    let y = status_wire(b);
    assert(x.len() == y.len());
    assert(x[0] == y[0] && x[1] == y[1] && x[2] == y[2] && x[6] == y[6]);
}

impl ExecutionStatus {
    /// All statuses, in declaration order.
    pub const ALL: [ExecutionStatus; 15] = [
        ExecutionStatus::Pending,
        ExecutionStatus::Running,
        ExecutionStatus::Waiting,
        ExecutionStatus::Suspended,
        ExecutionStatus::Completed,
        ExecutionStatus::Failed,
        ExecutionStatus::Cancelled,
        ExecutionStatus::TimedOut,
        ExecutionStatus::Trying,
        ExecutionStatus::Confirming,
        ExecutionStatus::Confirmed,
        ExecutionStatus::Canceling,
        ExecutionStatus::Canceled,
        ExecutionStatus::Compensating,
        ExecutionStatus::Compensated,
    ];

    /// `true` when the execution can no longer change state.
    pub fn is_terminal(self) -> (yes: bool)
        ensures
            yes == terminal(self),
            yes <==> (self is Completed || self is Failed || self is Cancelled
                || self is TimedOut || self is Confirmed || self is Canceled
                || self is Compensated),
    {
        match self {
            ExecutionStatus::Completed => true,
            ExecutionStatus::Failed => true,
            ExecutionStatus::Cancelled => true,
            ExecutionStatus::TimedOut => true,
            ExecutionStatus::Confirmed => true,
            ExecutionStatus::Canceled => true,
            ExecutionStatus::Compensated => true,
            _ => false,
        }
    }

    /// The wire string, for example `"TIMED_OUT"`.
    pub fn as_str(self) -> (wire: &'static str)
        ensures
            wire@ == status_wire(self),
            wire@ == match self {
                ExecutionStatus::Pending => "PENDING"@,
                ExecutionStatus::Running => "RUNNING"@,
                ExecutionStatus::Waiting => "WAITING"@,
                ExecutionStatus::Suspended => "SUSPENDED"@,
                ExecutionStatus::Completed => "COMPLETED"@,
                ExecutionStatus::Failed => "FAILED"@,
                ExecutionStatus::Cancelled => "CANCELLED"@,
                ExecutionStatus::TimedOut => "TIMED_OUT"@,
                ExecutionStatus::Trying => "TRYING"@,
                ExecutionStatus::Confirming => "CONFIRMING"@,
                ExecutionStatus::Confirmed => "CONFIRMED"@,
                ExecutionStatus::Canceling => "CANCELING"@,
                ExecutionStatus::Canceled => "CANCELED"@,
                ExecutionStatus::Compensating => "COMPENSATING"@,
                ExecutionStatus::Compensated => "COMPENSATED"@,
            },
    {
        match self {
            ExecutionStatus::Pending => "PENDING",
            ExecutionStatus::Running => "RUNNING",
            ExecutionStatus::Waiting => "WAITING",
            ExecutionStatus::Suspended => "SUSPENDED",
            ExecutionStatus::Completed => "COMPLETED",
            ExecutionStatus::Failed => "FAILED",
            ExecutionStatus::Cancelled => "CANCELLED",
            ExecutionStatus::TimedOut => "TIMED_OUT",
            ExecutionStatus::Trying => "TRYING",
            ExecutionStatus::Confirming => "CONFIRMING",
            ExecutionStatus::Confirmed => "CONFIRMED",
            ExecutionStatus::Canceling => "CANCELING",
            ExecutionStatus::Canceled => "CANCELED",
            ExecutionStatus::Compensating => "COMPENSATING",
            ExecutionStatus::Compensated => "COMPENSATED",
        }
    }

    /// Parses a wire string: the status that has it, if any does.
    pub fn parse(s: &str) -> (status: Option<ExecutionStatus>)
        ensures
            match status {
                Some(found) => status_wire(found) == s@,
                None => forall|any: ExecutionStatus| #[trigger] status_wire(any) != s@,
            },
    {
        let all = ExecutionStatus::ALL;
        let mut i: usize = 0;
        while i < 15
            invariant
                i <= 15,
                all@ == ExecutionStatus::ALL@,
                forall|j: int| 0 <= j < i ==> status_wire(#[trigger] all@[j]) != s@,
            decreases 15 - i,
        {
            if text::same(all[i].as_str(), s) {
                return Some(all[i]);
            }
            i += 1;
        }
        proof {
            assert forall|any: ExecutionStatus| #[trigger] status_wire(any) != s@ by {
                let j = status_index(any);
                assert(all@[j] == any);
            }
        }
        None
    }

    /// The wire string as an owned text.
    pub fn to_string(&self) -> (wire: String)
        ensures
            wire@ == status_wire(*self),
    {
        self.as_str().to_owned()
    }
}

/// The place of a status in declaration order.
spec fn status_index(status: ExecutionStatus) -> int {
    match status {
        ExecutionStatus::Pending => 0,
        ExecutionStatus::Running => 1,
        ExecutionStatus::Waiting => 2,
        ExecutionStatus::Suspended => 3,
        ExecutionStatus::Completed => 4,
        ExecutionStatus::Failed => 5,
        ExecutionStatus::Cancelled => 6,
        ExecutionStatus::TimedOut => 7,
        ExecutionStatus::Trying => 8,
        ExecutionStatus::Confirming => 9,
        ExecutionStatus::Confirmed => 10,
        ExecutionStatus::Canceling => 11,
        ExecutionStatus::Canceled => 12,
        ExecutionStatus::Compensating => 13,
        ExecutionStatus::Compensated => 14,
    }
}

/// Which pattern produced an execution.
#[derive(Debug, Clone, Copy, PartialEq, Eq, Structural, Hash)]
pub enum ExecutionPattern {
    /// Sequential steps with reverse-order compensation.
    Saga,
    /// A graph of nodes executed in waves.
    Workflow,
    /// Try-Confirm-Cancel in two phases.
    Tcc,
}

/// The wire string of a pattern.
pub open spec fn pattern_wire(pattern: ExecutionPattern) -> Seq<char> {
    match pattern {
        ExecutionPattern::Saga => "SAGA"@,
        ExecutionPattern::Workflow => "WORKFLOW"@,
        ExecutionPattern::Tcc => "TCC"@,
    }
}

impl ExecutionPattern {
    /// The wire string, for example `"SAGA"`.
    pub fn as_str(self) -> (wire: &'static str)
        ensures
            wire@ == pattern_wire(self),
            wire@ == match self {
                ExecutionPattern::Saga => "SAGA"@,
                ExecutionPattern::Workflow => "WORKFLOW"@,
                ExecutionPattern::Tcc => "TCC"@,
            },
    {
        match self {
            ExecutionPattern::Saga => "SAGA",
            ExecutionPattern::Workflow => "WORKFLOW",
            ExecutionPattern::Tcc => "TCC",
        }
    }

    /// Parses a wire string: the pattern that has it, if any does.
    pub fn parse(s: &str) -> (pattern: Option<ExecutionPattern>)
        ensures
            match pattern {
                Some(found) => pattern_wire(found) == s@,
                None => forall|any: ExecutionPattern| #[trigger] pattern_wire(any) != s@,
            },
    {
        if text::same(s, "SAGA") {
            Some(ExecutionPattern::Saga)
        } else if text::same(s, "WORKFLOW") {
            Some(ExecutionPattern::Workflow)
        } else if text::same(s, "TCC") {
            Some(ExecutionPattern::Tcc)
        } else {
            None
        }
    }

    /// The wire string as an owned text.
    pub fn to_string(&self) -> (wire: String)
        ensures
            wire@ == pattern_wire(*self),
    {
        self.as_str().to_owned()
    }
}

/// No two patterns share a wire string.
pub proof fn law_pattern_wire_is_unique(a: ExecutionPattern, b: ExecutionPattern)
    requires
        pattern_wire(a) == pattern_wire(b),
    ensures
        a == b,
{
    reveal_strlit("SAGA");
    reveal_strlit("WORKFLOW");
    reveal_strlit("TCC");
    assert("SAGA"@.len() == 4 && "WORKFLOW"@.len() == 8 && "TCC"@.len() == 3);
}

/// How the caller wants to interact with an execution start.
#[derive(Debug, Clone, Copy, PartialEq, Eq, Structural, Hash)]
pub enum TriggerMode {
    /// Run to completion and return the outcome.
    Sync,
    /// Run in the background and answer at once with a pending status.
    Async,
}

impl Default for TriggerMode {
    fn default() -> (mode: TriggerMode)
        ensures
            mode == TriggerMode::Sync,
    {
        TriggerMode::Sync
    }
}

impl TriggerMode {
    /// The wire string.
    pub fn to_string(&self) -> (wire: String)
        ensures
            wire@ == match *self {
                TriggerMode::Sync => "SYNC"@,
                TriggerMode::Async => "ASYNC"@,
            },
    {
        match self {
            TriggerMode::Sync => "SYNC".to_owned(),
            TriggerMode::Async => "ASYNC".to_owned(),
        }
    }
}

/// Lifecycle status of a single step within an execution.
#[derive(Debug, Clone, Copy, PartialEq, Eq, Structural, Hash)]
pub enum StepStatus {
    /// Not started yet.
    Pending,
    /// Executing.
    Running,
    /// Executed successfully.
    Done,
    /// Execution failed.
    Failed,
    /// Skipped.
    Skipped,
    /// Compensation in progress.
    Compensating,
    /// Compensation completed.
    Compensated,
    /// Compensation itself failed.
    CompensationFailed,
}

impl StepStatus {
    /// The wire string.
    pub fn to_string(&self) -> (wire: String)
        ensures
            wire@ == match *self {
                StepStatus::Pending => "PENDING"@,
                StepStatus::Running => "RUNNING"@,
                StepStatus::Done => "DONE"@,
                StepStatus::Failed => "FAILED"@,
                StepStatus::Skipped => "SKIPPED"@,
                StepStatus::Compensating => "COMPENSATING"@,
                StepStatus::Compensated => "COMPENSATED"@,
                StepStatus::CompensationFailed => "COMPENSATION_FAILED"@,
            },
    {
        match self {
            StepStatus::Pending => "PENDING".to_owned(),
            StepStatus::Running => "RUNNING".to_owned(),
            StepStatus::Done => "DONE".to_owned(),
            StepStatus::Failed => "FAILED".to_owned(),
            StepStatus::Skipped => "SKIPPED".to_owned(),
            StepStatus::Compensating => "COMPENSATING".to_owned(),
            StepStatus::Compensated => "COMPENSATED".to_owned(),
            StepStatus::CompensationFailed => "COMPENSATION_FAILED".to_owned(),
        }
    }
}

/// One of the three TCC phases.
#[derive(Debug, Clone, Copy, PartialEq, Eq, Structural, Hash)]
pub enum TccPhase {
    /// Reserve the resource.
    Try,
    /// Finalise the reservation.
    Confirm,
    /// Roll the reservation back.
    Cancel,
}

impl TccPhase {
    /// The wire string.
    pub fn to_string(&self) -> (wire: String)
        ensures
            wire@ == match *self {
                TccPhase::Try => "TRY"@,
                TccPhase::Confirm => "CONFIRM"@,
                TccPhase::Cancel => "CANCEL"@,
            },
    {
        match self {
            TccPhase::Try => "TRY".to_owned(),
            TccPhase::Confirm => "CONFIRM".to_owned(),
            TccPhase::Cancel => "CANCEL".to_owned(),
        }
    }
}

/// Retry configuration of a step or participant.
#[derive(Debug, Clone, Copy, PartialEq, Eq, Structural)]
pub struct RetryPolicy {
    /// Attempts in all, the first call among them. `1` disables retry.
    pub max_attempts: u32,
    /// Base delay between attempts, in milliseconds.
    pub backoff_ms: u64,
    /// Timeout of each attempt in milliseconds; `0` disables it.
    pub timeout_ms: u64,
    /// Whether a random delay is added to the backoff.
    pub jitter: bool,
}

impl Default for RetryPolicy {
    fn default() -> (policy: RetryPolicy)
        ensures
            policy == (RetryPolicy {
                max_attempts: 1,
                backoff_ms: 0,
                timeout_ms: 0,
                jitter: false,
            }),
    {
        RetryPolicy { max_attempts: 1, backoff_ms: 0, timeout_ms: 0, jitter: false }
    }
}

/// The persisted state of one execution.
#[derive(Debug)]
pub struct ExecutionState {
    /// The id of the run.
    pub correlation_id: String,
    /// The name of the definition.
    pub name: String,
    /// Which pattern the definition is of.
    pub pattern: ExecutionPattern,
    /// The current status.
    pub status: ExecutionStatus,
    /// When the run started.
    pub started_at: Timestamp,
    /// When the state last changed.
    pub updated_at: Timestamp,
    /// When the run reached a terminal status, if it has.
    pub completed_at: Option<Timestamp>,
    /// What the engine keeps of the run.
    pub payload: Value,
}

/// What an execution state holds, as mathematical data.
#[verifier::ext_equal]
pub struct StateView {
    /// The id of the run.
    pub correlation_id: Seq<char>,
    /// The name of the definition.
    pub name: Seq<char>,
    /// Which pattern the definition is of.
    pub pattern: ExecutionPattern,
    /// The current status.
    pub status: ExecutionStatus,
    /// When the run started.
    pub started_at: Timestamp,
    /// When the state last changed.
    pub updated_at: Timestamp,
    /// When the run reached a terminal status, if it has.
    pub completed_at: Option<Timestamp>,
    /// What the engine keeps of the run.
    pub payload: ValueView,
}

impl View for ExecutionState {
    type V = StateView;

    open spec fn view(&self) -> StateView {
        StateView {
            correlation_id: self.correlation_id@,
            name: self.name@,
            pattern: self.pattern,
            status: self.status,
            started_at: self.started_at,
            updated_at: self.updated_at,
            completed_at: self.completed_at,
            payload: self.payload.model(),
        }
    }
}

/// A pending state that was created at `now`.
pub open spec fn fresh_state(
    correlation_id: Seq<char>,
    name: Seq<char>,
    pattern: ExecutionPattern,
    now: Timestamp,
) -> StateView {
    StateView {
        correlation_id,
        name,
        pattern,
        status: ExecutionStatus::Pending,
        started_at: now,
        updated_at: now,
        completed_at: None,
        payload: ValueView::Object(Seq::empty()),
    }
}

/// A state that moved to `status` at `now`: a terminal status completes the
/// run at that moment.
pub open spec fn transitioned(state: StateView, status: ExecutionStatus, now: Timestamp) -> StateView {
    StateView {
        status,
        updated_at: now,
        completed_at: if terminal(status) {
            Some(now)
        } else {
            state.completed_at
        },
        ..state
    }
}

impl ExecutionState {
    /// A pending state that is created now.
    pub fn new(correlation_id: &str, name: &str, pattern: ExecutionPattern) -> (state:
        ExecutionState)
        ensures
            state.payload.well_formed(),
            state.started_at.well_formed(),
            state@ == fresh_state(correlation_id@, name@, pattern, state.started_at),
    {
        ExecutionState::new_at(correlation_id, name, pattern, utc_now())
    }

    /// A pending state that was created at `now`.
    pub fn new_at(
        correlation_id: &str,
        name: &str,
        pattern: ExecutionPattern,
        now: Timestamp,
    ) -> (state: ExecutionState)
        ensures
            state.payload.well_formed(),
            state@ == fresh_state(correlation_id@, name@, pattern, now),
            state.correlation_id@ == correlation_id@,
            state.name@ == name@,
            state.pattern == pattern,
            state.status == ExecutionStatus::Pending,
            state.started_at == now,
            state.updated_at == now,
            state.completed_at is None,
    {
        let state: ExecutionState = ExecutionState {
            correlation_id: correlation_id.to_owned(),
            name: name.to_owned(),
            pattern,
            status: ExecutionStatus::Pending,
            started_at: now,
            updated_at: now,
            completed_at: None,
            payload: Value::Object(TextMap::new()),
        };
        proof {
            let members = state.payload.model()->Object_0;
            assert(members =~= Seq::empty());
        }
        state
    }

    /// The state with another status.
    pub fn with_status(self, status: ExecutionStatus) -> (state: ExecutionState)
        ensures
            state == (ExecutionState { status: status, ..self }),
    {
        ExecutionState { status, ..self }
    }

    /// The state with another payload.
    pub fn with_payload(self, payload: Value) -> (state: ExecutionState)
        ensures
            state == (ExecutionState { payload: payload, ..self }),
    {
        ExecutionState { payload, ..self }
    }

    /// Whether the status is terminal.
    pub fn is_terminal(&self) -> (yes: bool)
        ensures
            yes == terminal(self.status),
            yes <==> (self.status is Completed || self.status is Failed
                || self.status is Cancelled || self.status is TimedOut
                || self.status is Confirmed || self.status is Canceled
                || self.status is Compensated),
    {
        self.status.is_terminal()
    }

    /// Marks the state as changed now.
    pub fn touch(&mut self)
        ensures
            *final(self) == (ExecutionState { updated_at: final(self).updated_at, ..*old(self) }),
            final(self).updated_at.well_formed(),
    {
        self.touch_at(utc_now());
    }

    /// Marks the state as changed at `now`.
    pub fn touch_at(&mut self, now: Timestamp)
        ensures
            *final(self) == (ExecutionState { updated_at: now, ..*old(self) }),
    {
        self.updated_at = now;
    }

    /// Moves to another status now.
    pub fn transition(&mut self, status: ExecutionStatus)
        ensures
            final(self)@ == transitioned(old(self)@, status, final(self).updated_at),
            final(self).payload == old(self).payload,
            final(self).updated_at.well_formed(),
    {
        self.transition_at(status, utc_now());
    }

    /// Moves to another status at `now`.
    pub fn transition_at(&mut self, status: ExecutionStatus, now: Timestamp)
        ensures
            final(self)@ == transitioned(old(self)@, status, now),
            final(self).payload == old(self).payload,
            final(self).correlation_id == old(self).correlation_id,
            final(self).status == status,
            final(self).updated_at == now,
            final(self).started_at == old(self).started_at,
            final(self).completed_at == if (status is Completed || status is Failed
                || status is Cancelled || status is TimedOut || status is Confirmed
                || status is Canceled || status is Compensated) {
                Some(now)
            } else {
                old(self).completed_at
            },
    {
        self.status = status;
        self.updated_at = now;
        if status.is_terminal() {
            self.completed_at = Some(now);
        }
    }

    /// A copy of the state.
    pub fn duplicate(&self) -> (copy: ExecutionState)
        ensures
            copy@ == self@,
            self.payload.well_formed() ==> copy.payload.well_formed(),
    {
        ExecutionState {
            correlation_id: self.correlation_id.clone(),
            name: self.name.clone(),
            pattern: self.pattern,
            status: self.status,
            started_at: self.started_at,
            updated_at: self.updated_at,
            completed_at: self.completed_at,
            payload: self.payload.duplicate(),
        }
    }
}

/// What a change of status does: the state has the status and was changed now;
/// it is completed now where the status is one of the seven that end an
/// execution, and keeps its completion otherwise; and nothing else changes.
pub proof fn law_only_an_end_completes(
    state: StateView,
    status: ExecutionStatus,
    now: Timestamp,
)
    ensures
        ({
            let after = transitioned(state, status, now);
            let ended = (status is Completed || status is Failed || status is Cancelled
                || status is TimedOut || status is Confirmed || status is Canceled
                || status is Compensated);
            &&& after.status == status
            &&& after.updated_at == now
            &&& ended ==> after.completed_at == Some(now)
            &&& !ended ==> after.completed_at == state.completed_at
            &&& after.correlation_id == state.correlation_id
            &&& after.name == state.name
            &&& after.pattern == state.pattern
            &&& after.started_at == state.started_at
            &&& after.payload == state.payload
        }),
{
}

} // verus!
