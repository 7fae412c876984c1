//! Summaries of executions.

use crate::model::{ExecutionPattern, ExecutionState, ExecutionStatus, StepStatus};
use crate::saga::{Outcome, SagaStatus};
use crate::step_context;
use crate::step_context::object_fields;
use crate::text_map::TextMap;
use crate::time;
use crate::time::{duration_ms, Timestamp};
use crate::value;
use crate::value::Value;
use vstd::prelude::*;

verus! {

/// What became of one step.
#[derive(Debug)]
pub struct StepReport {
    /// The step.
    pub step_id: String,
    /// Its status at the end.
    pub status: StepStatus,
    /// How often it was attempted.
    pub attempts: u32,
    /// Its result, if it had one.
    pub result: Value,
    /// The message of its failure, if it failed.
    pub error: Option<String>,
}

/// Whether a report is that of a step done at the first attempt, without
/// result.
pub open spec fn is_done_report(report: StepReport, step_id: Seq<char>) -> bool {
    &&& report.step_id@ == step_id
    &&& report.status == StepStatus::Done
    &&& report.attempts == 1
    &&& report.result == Value::Null
    &&& report.error is None
}

impl StepReport {
    /// The report of a step done at the first attempt, without result.
    pub fn done(step_id: &str) -> (report: StepReport)
        ensures
            is_done_report(report, step_id@),
    {
        StepReport {
            step_id: step_id.to_owned(),
            status: StepStatus::Done,
            attempts: 1,
            result: Value::Null,
            error: None,
        }
    }
}

/// What became of one compensation.
#[derive(Debug)]
pub struct CompensationReport {
    /// The step.
    pub step_id: String,
    /// Its status after compensation.
    pub status: StepStatus,
    /// The result of the compensation, if it had one.
    pub result: Value,
    /// The message of its failure, if it failed.
    pub error: Option<String>,
}

/// Whether a report is that of a step that was compensated, without result.
pub open spec fn is_compensated_report(report: CompensationReport, step_id: Seq<char>) -> bool {
    &&& report.step_id@ == step_id
    &&& report.status == StepStatus::Compensated
    &&& report.result == Value::Null
    &&& report.error is None
}

/// What became of an execution.
#[derive(Debug)]
pub struct ExecutionReport {
    /// The name of the definition.
    pub name: String,
    /// Which pattern the definition is of.
    pub pattern: ExecutionPattern,
    /// The id of the run.
    pub correlation_id: String,
    /// The status at the end.
    pub status: ExecutionStatus,
    /// When the run started.
    pub started_at: Timestamp,
    /// When the run finished, if it has.
    pub completed_at: Option<Timestamp>,
    /// How long it took, in whole milliseconds.
    pub duration_ms: u128,
    /// The message of its failure, if it failed.
    pub error: Option<String>,
    /// The steps, in the order in which they were executed.
    pub steps: Vec<StepReport>,
    /// The compensations, in their order.
    pub compensations: Vec<CompensationReport>,
    /// Variables.
    pub variables: TextMap<Value>,
}

/// The execution status of a saga status.
pub open spec fn execution_status(status: SagaStatus) -> ExecutionStatus {
    match status {
        SagaStatus::Completed => ExecutionStatus::Completed,
        SagaStatus::Compensated => ExecutionStatus::Compensated,
        SagaStatus::Failed => ExecutionStatus::Failed,
    }
}

/// Whether a report is that of a saga outcome.
pub open spec fn reports_outcome(
    report: ExecutionReport,
    correlation_id: Seq<char>,
    outcome: Outcome,
) -> bool {
    &&& report.name@ == outcome.saga@
    &&& report.pattern == ExecutionPattern::Saga
    &&& report.correlation_id@ == correlation_id
    &&& report.status == execution_status(outcome.status)
    &&& report.started_at == outcome.started_at
    &&& report.completed_at == Some(outcome.finished_at)
    &&& report.duration_ms == time::millis_between(outcome.started_at, outcome.finished_at)
    &&& report.error == outcome.error
    &&& report.steps@.len() == outcome.steps_executed@.len()
    &&& forall|i: int|
        0 <= i < report.steps@.len() ==> is_done_report(
            #[trigger] report.steps@[i],
            outcome.steps_executed@[i]@,
        )
    &&& report.compensations@.len() == outcome.steps_rolled@.len()
    &&& forall|i: int|
        0 <= i < report.compensations@.len() ==> is_compensated_report(
            #[trigger] report.compensations@[i],
            outcome.steps_rolled@[i]@,
        )
    &&& report.variables@ == Map::<Seq<char>, Value>::empty()
}

/// Whether a report is that of a persisted state: its header, and the members
/// of its payload as variables.
pub open spec fn reports_state(report: ExecutionReport, state: ExecutionState) -> bool {
    &&& report.name@ == state.name@
    &&& report.pattern == state.pattern
    &&& report.correlation_id@ == state.correlation_id@
    &&& report.status == state.status
    &&& report.started_at == state.started_at
    &&& report.completed_at == state.completed_at
    &&& report.duration_ms == match state.completed_at {
        Some(done) => time::millis_between(state.started_at, done),
        None => 0,
    }
    &&& report.error is None
    &&& report.steps@.len() == 0
    &&& report.compensations@.len() == 0
    &&& step_context::values_of(report.variables) == step_context::members_map(
        Some(state.payload.model()),
    )
}

impl ExecutionReport {
    /// Whether the status is a success.
    pub fn successful(&self) -> (yes: bool)
        ensures
            yes == (self.status == ExecutionStatus::Completed || self.status
                == ExecutionStatus::Confirmed),
    {
        self.status == ExecutionStatus::Completed || self.status == ExecutionStatus::Confirmed
    }

    /// The report of a saga outcome: every executed step done, every rolled
    /// back step compensated.
    pub fn from_saga_outcome(correlation_id: &str, outcome: &Outcome) -> (report: ExecutionReport)
        ensures
            reports_outcome(report, correlation_id@, *outcome),
            report.variables.well_formed(),
    {
        let status: ExecutionStatus = match outcome.status {
            SagaStatus::Completed => ExecutionStatus::Completed,
            SagaStatus::Compensated => ExecutionStatus::Compensated,
            SagaStatus::Failed => ExecutionStatus::Failed,
        };
        let mut steps: Vec<StepReport> = Vec::new();
        let mut i: usize = 0;
        while i < outcome.steps_executed.len()
            invariant
                i <= outcome.steps_executed@.len(),
                steps@.len() == i,
                forall|k: int|
                    0 <= k < i ==> is_done_report(
                        #[trigger] steps@[k],
                        outcome.steps_executed@[k]@,
                    ),
            decreases outcome.steps_executed.len() - i,
        {
            steps.push(StepReport::done(outcome.steps_executed[i].as_str()));
            i += 1;
        }
        let mut compensations: Vec<CompensationReport> = Vec::new();
        let mut k: usize = 0;
        while k < outcome.steps_rolled.len()
            invariant
                k <= outcome.steps_rolled@.len(),
                compensations@.len() == k,
                forall|j: int|
                    0 <= j < k ==> is_compensated_report(
                        #[trigger] compensations@[j],
                        outcome.steps_rolled@[j]@,
                    ),
            decreases outcome.steps_rolled.len() - k,
        {
            compensations.push(
                CompensationReport {
                    step_id: outcome.steps_rolled[k].clone(),
                    status: StepStatus::Compensated,
                    result: Value::Null,
                    error: None,
                },
            );
            k += 1;
        }
        ExecutionReport {
            name: outcome.saga.clone(),
            pattern: ExecutionPattern::Saga,
            correlation_id: correlation_id.to_owned(),
            status,
            started_at: outcome.started_at,
            completed_at: Some(outcome.finished_at),
            duration_ms: duration_ms(outcome.started_at, outcome.finished_at),
            error: match &outcome.error {
                Some(message) => Some(message.clone()),
                None => None,
            },
            steps,
            compensations,
            variables: TextMap::new(),
        }
    }

    /// The report of a persisted state, without steps.
    pub fn from_state(state: &ExecutionState) -> (report: ExecutionReport)
        requires
            state.payload.well_formed(),
        ensures
            reports_state(report, *state),
            step_context::good_values(report.variables),
    {
        ExecutionReport {
            name: state.name.clone(),
            pattern: state.pattern,
            correlation_id: state.correlation_id.clone(),
            status: state.status,
            started_at: state.started_at,
            completed_at: state.completed_at,
            duration_ms: match state.completed_at {
                Some(done) => duration_ms(state.started_at, done),
                None => 0,
            },
            error: None,
            steps: Vec::new(),
            compensations: Vec::new(),
            variables: object_fields(Some(&state.payload)),
        }
    }
}

/// The report of a saga outcome is a success exactly when the saga completed.
pub proof fn law_only_completed_sagas_report_success(
    report: ExecutionReport,
    correlation_id: Seq<char>,
    outcome: Outcome,
)
    requires
        reports_outcome(report, correlation_id, outcome),
    ensures
        outcome.status == SagaStatus::Completed <==> (report.status == ExecutionStatus::Completed
            || report.status == ExecutionStatus::Confirmed),
{
}

/// A report keeps the status of a saga: completed, compensated and failed
/// sagas are told apart.
pub proof fn law_reports_keep_the_status(
    report: ExecutionReport,
    correlation_id: Seq<char>,
    outcome: Outcome,
)
    requires
        reports_outcome(report, correlation_id, outcome),
    ensures
        report.status == ExecutionStatus::Completed <==> outcome.status == SagaStatus::Completed,
        report.status == ExecutionStatus::Compensated <==> outcome.status
            == SagaStatus::Compensated,
        report.status == ExecutionStatus::Failed <==> outcome.status == SagaStatus::Failed,
        report.steps@.len() == outcome.steps_executed@.len(),
        forall|i: int|
            0 <= i < report.steps@.len() ==> (#[trigger] report.steps@[i]).step_id@
                == outcome.steps_executed@[i]@ && report.steps@[i].status == StepStatus::Done
                && report.steps@[i].attempts == 1 && report.steps@[i].error is None
                && report.steps@[i].result == Value::Null,
        report.compensations@.len() == outcome.steps_rolled@.len(),
        forall|i: int|
            0 <= i < report.compensations@.len() ==> (#[trigger] report.compensations@[i]).step_id@
                == outcome.steps_rolled@[i]@ && report.compensations@[i].status
                == StepStatus::Compensated && report.compensations@[i].error is None
                && report.compensations@[i].result == Value::Null,
        report.started_at == outcome.started_at,
        report.completed_at == Some(outcome.finished_at),
        report.error == outcome.error,
        report.name@ == outcome.saga@,
        report.pattern == ExecutionPattern::Saga,
        report.correlation_id@ == correlation_id,
        report.variables@.dom() == Set::<Seq<char>>::empty(),
        ({
            let nanos = time::instant(outcome.finished_at) - time::instant(outcome.started_at);
            &&& nanos <= 0 ==> report.duration_ms == 0
            &&& nanos > 0 ==> report.duration_ms * 1_000_000 <= nanos < (report.duration_ms + 1)
                * 1_000_000
        }),
{
    assert(report.variables@.dom() =~= Set::<Seq<char>>::empty());
}

/// A report measures whole milliseconds from the start to the end: none before
/// the end is known, or where the end is not later.
pub proof fn law_reports_measure_from_start_to_end(report: ExecutionReport, state: ExecutionState)
    requires
        reports_state(report, state),
    ensures
        state.completed_at is None ==> report.duration_ms == 0,
        state.completed_at matches Some(done) ==> {
            let nanos = time::instant(done) - time::instant(state.started_at);
            &&& nanos <= 0 ==> report.duration_ms == 0
            &&& nanos > 0 ==> report.duration_ms * 1_000_000 <= nanos < (report.duration_ms + 1)
                * 1_000_000
        },
        report.status == state.status,
        report.pattern == state.pattern,
        report.name@ == state.name@,
        report.correlation_id@ == state.correlation_id@,
        report.started_at == state.started_at,
        report.completed_at == state.completed_at,
        report.steps@.len() == 0,
        report.compensations@.len() == 0,
        report.error is None,
        forall|k: Seq<char>|
            report.variables@.contains_key(k) <==> #[trigger] value::field_of(
                state.payload.model(),
                k,
            ) is Some,
        forall|k: Seq<char>|
            report.variables@.contains_key(k) ==> #[trigger] value::field_of(
                state.payload.model(),
                k,
            ) == Some(report.variables@[k].model()),
{
    let a = step_context::values_of(report.variables);
    let b = step_context::members_map(Some(state.payload.model()));
    assert forall|k: Seq<char>|
        report.variables@.contains_key(k) <==> #[trigger] value::field_of(
            state.payload.model(),
            k,
        ) is Some by {
        assert(a.contains_key(k) == b.contains_key(k));
    }
    assert forall|k: Seq<char>| report.variables@.contains_key(k) implies #[trigger] value::field_of(
        state.payload.model(),
        k,
    ) == Some(report.variables@[k].model()) by {
        assert(a.contains_key(k) && a[k] == b[k]);
    }
}

} // verus!
