use firefly_orchestration::model::{RetryPolicy, TccPhase};
use firefly_orchestration::saga::{
    CompensationPolicy, Outcome, Saga, SagaAction, SagaError, SagaFailure, SagaStatus, Step,
    CIRCUIT_BREAKER_THRESHOLD,
};
use firefly_orchestration::step_context::StepContext;
use firefly_orchestration::step_invoker::{
    compute_backoff, AttemptResult, Invocation, InvokeStep, StepInvokeError,
};
use firefly_orchestration::tcc::{Tcc, TccAction, TccError, TccParticipant};
use firefly_orchestration::time::Timestamp;
use firefly_orchestration::value::Value;
use firefly_orchestration::workflow::{Admission, Node, WaveStep, Workflow, WorkflowError};

const START: Timestamp = Timestamp { secs: 10, nanos: 0 };
const END: Timestamp = Timestamp { secs: 12, nanos: 0 };

fn texts(list: &[&str]) -> Vec<String> {
    list.iter().map(|s| s.to_string()).collect()
}

fn invoke(step: &str, policy: RetryPolicy, results: Vec<AttemptResult>) -> (Result<u32, StepInvokeError>, Vec<u64>) {
    let mut invocation = Invocation::new(step, policy);
    let mut delays: Vec<u64> = Vec::new();
    for result in results {
        match invocation.record(result, 0) {
            InvokeStep::Succeeded(attempts) => return (Ok(attempts), delays),
            InvokeStep::Retry(delay) => delays.push(delay),
            InvokeStep::GaveUp(error) => return (Err(error), delays),
        }
    }
    panic!("no end");
}

#[test]
fn retry_then_succeed() {
    let policy = RetryPolicy { max_attempts: 5, backoff_ms: 1, ..Default::default() };
    let (out, _) = invoke(
        "s",
        policy,
        vec![
            AttemptResult::Failed("transient".to_string()),
            AttemptResult::Failed("transient".to_string()),
            AttemptResult::Done,
        ],
    );
    assert_eq!(out.expect("succeeds"), 3);
}

#[test]
fn retry_exhausted_raises() {
    let policy = RetryPolicy { max_attempts: 2, backoff_ms: 1, ..Default::default() };
    let (out, _) = invoke(
        "bang",
        policy,
        vec![
            AttemptResult::Failed("boom".to_string()),
            AttemptResult::Failed("boom".to_string()),
        ],
    );
    let err = out.expect_err("should exhaust");
    assert_eq!(err.attempts(), 2);
    assert!(matches!(err, StepInvokeError::Failed { .. }));
    assert!(err.to_string().contains("\"bang\""));
    assert!(err.to_string().contains("2 attempt"));
    assert_eq!(err.into_source().as_deref(), Some("boom"));
}

#[test]
fn slow_step_times_out() {
    let policy = RetryPolicy { max_attempts: 1, timeout_ms: 20, ..Default::default() };
    let (out, _) = invoke("slow", policy, vec![AttemptResult::TimedOut]);
    let err = out.expect_err("should time out");
    assert!(err.is_timeout());
    assert_eq!(
        err.to_string(),
        "step \"slow\" timed out after 20ms on 1 attempt(s)"
    );
    assert!(err.into_source().is_none());
}

#[test]
fn default_policy_runs_once() {
    let (out, delays) = invoke("once", RetryPolicy::default(), vec![AttemptResult::Done]);
    assert_eq!(out.expect("ok"), 1);
    assert!(delays.is_empty());
}

#[test]
fn exponential_backoff_between_attempts() {
    let policy = RetryPolicy { max_attempts: 3, backoff_ms: 10, ..Default::default() };
    let failures = (0..3).map(|_| AttemptResult::Failed("x".to_string())).collect();
    let (out, delays) = invoke("b", policy, failures);
    assert!(out.is_err());
    assert_eq!(delays, [10, 20]);
}

#[test]
fn zero_backoff_is_immediate() {
    let policy = RetryPolicy::default();
    assert_eq!(compute_backoff(&policy, 1, 0), 0);
}

#[test]
fn backoff_stops_doubling_and_saturates() {
    let policy = RetryPolicy { max_attempts: 99, backoff_ms: 3, ..Default::default() };
    assert_eq!(compute_backoff(&policy, 21, 0), 3 << 20);
    assert_eq!(compute_backoff(&policy, 80, 0), 3 << 20);
    let huge = RetryPolicy { backoff_ms: u64::MAX / 2 + 1, jitter: true, ..policy };
    assert_eq!(compute_backoff(&huge, 2, 5), u64::MAX);
    let shaken = RetryPolicy { backoff_ms: 10, jitter: true, ..policy };
    assert_eq!(compute_backoff(&shaken, 2, 7), 27);
    assert_eq!(compute_backoff(&policy, 2, 7), 6);
}

fn failed(step: &Step, message: &str) -> StepInvokeError {
    let attempts: u32 = step.retry_policy().max_attempts.max(1);
    StepInvokeError::Failed {
        step: step.name().to_string(),
        attempts,
        source: message.to_string(),
    }
}

struct SagaTrace {
    ran: Vec<String>,
    batches: Vec<Vec<String>>,
}

fn drive(
    saga: &Saga,
    failing: &[(&str, &str)],
    stuck: &[(&str, &str)],
    cancel_after: Option<usize>,
) -> (Result<Outcome, SagaFailure>, SagaTrace) {
    let mut run = saga.begin();
    let mut trace = SagaTrace { ran: Vec::new(), batches: Vec::new() };
    loop {
        let cancelled = cancel_after.map_or(false, |n| trace.ran.len() >= n);
        match saga.next(&mut run, cancelled) {
            SagaAction::RunStep(i) => {
                let step = &saga.steps()[i];
                trace.ran.push(step.name().to_string());
                match failing.iter().find(|f| f.0 == step.name()) {
                    Some((_, message)) => saga.step_failed(&mut run, failed(step, message)),
                    None => saga.step_succeeded(&mut run),
                }
            }
            SagaAction::Compensate(batch) => {
                let names: Vec<String> = batch
                    .iter()
                    .map(|i| saga.steps()[*i].name().to_string())
                    .collect();
                let outcomes = names
                    .iter()
                    .map(|n| stuck.iter().find(|s| s.0 == n).map(|s| s.1.to_string()))
                    .collect();
                trace.batches.push(names);
                saga.compensated(&mut run, outcomes);
            }
            SagaAction::Finish => break,
        }
    }
    (saga.finish(run, START, END), trace)
}

fn undoable(name: &str) -> Step {
    Step::new(name).with_compensation()
}

#[test]
fn saga_completes() {
    let saga = Saga::new("checkout")
        .step(Step::new("reserve"))
        .step(Step::new("charge"))
        .step(Step::new("ship"));
    let (out, trace) = drive(&saga, &[], &[], None);
    let out = out.expect("saga should complete");
    assert_eq!(out.status, SagaStatus::Completed);
    assert_eq!(out.steps_executed, ["reserve", "charge", "ship"]);
    assert!(out.steps_rolled.is_empty());
    assert!(out.error.is_none());
    assert_eq!(trace.ran, ["reserve", "charge", "ship"]);
    assert_eq!((out.started_at, out.finished_at), (START, END));
}

#[test]
fn saga_compensates_on_failure_in_reverse_order() {
    let saga = Saga::new("checkout")
        .step(undoable("reserve"))
        .step(undoable("charge"))
        .step(undoable("ship"));
    let (out, trace) = drive(&saga, &[("ship", "boom")], &[], None);
    let failure = out.expect_err("expected error");
    assert_eq!(failure.outcome().status, SagaStatus::Compensated);
    assert_eq!(trace.batches, [["charge"], ["reserve"]]);
    assert_eq!(failure.outcome().steps_rolled, ["charge", "reserve"]);
    assert_eq!(failure.outcome().steps_executed, ["reserve", "charge"]);
    assert_eq!(failure.to_string(), "step \"ship\": boom");
    assert_eq!(
        failure.outcome().error.as_deref(),
        Some("step \"ship\": boom")
    );
    assert!(!failure.is_compensation_error());
}

#[test]
fn saga_compensation_stop_on_error_surfaces_compensation_error() {
    let saga = Saga::new("policy")
        .policy(CompensationPolicy::StopOnError)
        .step(undoable("a"))
        .step(undoable("b"))
        .step(Step::new("trigger"));
    let (out, trace) = drive(
        &saga,
        &[("trigger", "trigger")],
        &[("b", "compensate-fail")],
        None,
    );
    let failure = out.expect_err("expected error");
    assert!(failure.is_compensation_error());
    assert!(failure.error().is_compensation_error());
    assert_eq!(trace.batches, [["b"]]);
    assert!(failure.outcome().steps_rolled.is_empty());
    assert_eq!(
        failure.to_string(),
        "saga: compensation failed at step \"trigger\": compensate-fail \
         (original: step \"trigger\": trigger)"
    );
    assert_eq!(
        failure.outcome().error.as_deref(),
        Some("step \"trigger\": trigger")
    );
}

#[test]
fn saga_best_effort_continues_compensating_after_failure() {
    let saga = Saga::new("policy")
        .step(undoable("a"))
        .step(undoable("b"))
        .step(Step::new("trigger"));
    let (out, trace) = drive(
        &saga,
        &[("trigger", "trigger")],
        &[("b", "compensate-fail")],
        None,
    );
    let failure = out.expect_err("expected error");
    assert!(!failure.is_compensation_error());
    assert_eq!(failure.outcome().steps_rolled, ["a"]);
    assert_eq!(trace.batches, [["b"], ["a"]]);
}

#[test]
fn saga_first_step_failure_compensates_nothing() {
    let saga = Saga::new("checkout").step(undoable("only"));
    let (out, trace) = drive(&saga, &[("only", "boom")], &[], None);
    let failure = out.expect_err("expected error");
    assert_eq!(failure.outcome().status, SagaStatus::Compensated);
    assert!(failure.outcome().steps_rolled.is_empty());
    assert!(trace.batches.is_empty());
}

#[test]
fn saga_with_no_steps_completes() {
    let (out, _) = drive(&Saga::new("empty"), &[], &[], None);
    let out = out.expect("empty saga is ok");
    assert_eq!(out.status, SagaStatus::Completed);
    assert!(out.steps_executed.is_empty());
}

#[test]
fn saga_cancellation_marks_outcome_failed() {
    let saga = Saga::new("cancelled")
        .step(undoable("one"))
        .step(Step::new("two"));
    let (out, trace) = drive(&saga, &[], &[], Some(1));
    let failure = out.expect_err("expected cancellation");
    assert_eq!(failure.outcome().status, SagaStatus::Failed);
    assert!(matches!(failure.error(), SagaError::Cancelled));
    assert_eq!(failure.outcome().steps_executed, ["one"]);
    assert_eq!(failure.outcome().error.as_deref(), Some("saga cancelled"));
    // Cancellation does not compensate.
    assert!(trace.batches.is_empty());
}

#[test]
fn saga_failure_decomposes_into_outcome_and_error() {
    let saga = Saga::new("s").step(Step::new("a"));
    let (out, _) = drive(&saga, &[("a", "boom")], &[], None);
    let failure = out.expect_err("expected error");
    let (outcome, error) = failure.into_parts();
    assert_eq!(outcome.status, SagaStatus::Compensated);
    assert!(matches!(error, SagaError::Step { .. }));
}

#[test]
fn saga_status_display_matches_go_strings() {
    assert_eq!(SagaStatus::Completed.to_string(), "completed");
    assert_eq!(SagaStatus::Compensated.to_string(), "compensated");
    assert_eq!(SagaStatus::Failed.to_string(), "failed");
}

#[test]
fn saga_step_retry_exhausted_compensates() {
    let retry = RetryPolicy { max_attempts: 3, backoff_ms: 1, ..Default::default() };
    let saga = Saga::new("exhaust")
        .step(undoable("ok"))
        .step(Step::new("always-fails").with_retry(retry));
    let (out, trace) = drive(&saga, &[("always-fails", "nope")], &[], None);
    let failure = out.expect_err("must fail");
    assert_eq!(failure.outcome().status, SagaStatus::Compensated);
    assert_eq!(trace.batches, [["ok"]]);
    assert!(failure.to_string().contains("3 attempt"));
}

#[test]
fn best_effort_parallel_rolls_back_all_executed_steps() {
    let saga = Saga::new("checkout")
        .policy(CompensationPolicy::BestEffortParallel)
        .step(undoable("a"))
        .step(undoable("b"))
        .step(undoable("c"));
    let (out, trace) = drive(&saga, &[("c", "boom")], &[], None);
    let failure = out.expect_err("c fails");
    assert!(!failure.is_compensation_error());
    assert_eq!(trace.batches, [["b", "a"]]);
}

#[test]
fn grouped_parallel_batches_neighbours() {
    let saga = Saga::new("g")
        .policy(CompensationPolicy::GroupedParallel)
        .step(undoable("a"))
        .step(undoable("b").group("x"))
        .step(undoable("c").group("x"))
        .step(undoable("d"))
        .step(Step::new("e"));
    let (_, trace) = drive(&saga, &[("e", "boom")], &[], None);
    assert_eq!(trace.batches, [texts(&["d"]), texts(&["c", "b"]), texts(&["a"])]);
}

#[test]
fn circuit_breaker_stops_after_threshold_consecutive_failures() {
    let mut saga = Saga::new("cb").policy(CompensationPolicy::CircuitBreaker);
    for i in 0..6u32 {
        saga = saga.step(undoable(&format!("s{i}")));
    }
    let stuck: Vec<(&str, &str)> = vec![
        ("s0", "compensation failed"),
        ("s1", "compensation failed"),
        ("s2", "compensation failed"),
        ("s3", "compensation failed"),
        ("s4", "compensation failed"),
    ];
    let (_, trace) = drive(&saga, &[("s5", "boom")], &stuck, None);
    assert_eq!(trace.batches.len() as u32, CIRCUIT_BREAKER_THRESHOLD);
}

#[test]
fn depends_on_runs_in_topological_order() {
    let saga = Saga::new("dag")
        .step(Step::new("c").depends_on(texts(&["b"])))
        .step(Step::new("a"))
        .step(Step::new("b").depends_on(texts(&["a"])))
        .step(Step::new("d").depends_on(texts(&["a"])));
    let (out, trace) = drive(&saga, &[], &[], None);
    assert_eq!(out.expect("completes").status, SagaStatus::Completed);
    assert_eq!(trace.ran, ["a", "b", "d", "c"]);
}

#[test]
fn no_dependencies_preserves_strict_insertion_order() {
    let saga = Saga::new("seq")
        .step(Step::new("one"))
        .step(Step::new("two"))
        .step(Step::new("three"));
    let (_, trace) = drive(&saga, &[], &[], None);
    assert_eq!(trace.ran, ["one", "two", "three"]);
}

#[test]
fn unknown_dependency_fails_with_definition_error() {
    let saga = Saga::new("bad")
        .step(Step::new("a"))
        .step(Step::new("b").depends_on(texts(&["nope"])));
    let (out, _) = drive(&saga, &[], &[], None);
    let failure = out.expect_err("unknown dependency");
    assert!(matches!(failure.error(), SagaError::Definition(_)));
    assert_eq!(failure.outcome().status, SagaStatus::Failed);
    assert!(failure.outcome().steps_executed.is_empty());
    assert_eq!(
        failure.to_string(),
        "saga definition error: saga \"bad\": step \"b\" depends on unknown step \"nope\""
    );
}

#[test]
fn dependency_cycle_fails_with_definition_error() {
    let saga = Saga::new("cyc")
        .step(Step::new("a").depends_on(texts(&["b"])))
        .step(Step::new("b").depends_on(texts(&["a"])));
    let (out, _) = drive(&saga, &[], &[], None);
    let failure = out.expect_err("cycle");
    assert!(matches!(failure.error(), SagaError::Definition(_)));
    assert_eq!(failure.outcome().status, SagaStatus::Failed);
}

#[test]
fn repeated_and_own_names_are_refused() {
    let twice = Saga::new("s")
        .step(Step::new("a"))
        .step(Step::new("a").depends_on(texts(&["a"])));
    assert_eq!(
        twice.execution_order().expect_err("twice"),
        "saga \"s\": duplicate step name \"a\" (step ids must be unique to use depends_on)"
    );
    let own = Saga::new("s").step(Step::new("a").depends_on(texts(&["a"])));
    assert_eq!(
        own.execution_order().expect_err("own"),
        "saga \"s\": step \"a\" depends on itself"
    );
    let plain = Saga::new("s").step(Step::new("a")).step(Step::new("a"));
    assert_eq!(plain.execution_order().expect("no dependencies"), [0, 1]);
}

#[test]
fn quoted_names_are_escaped() {
    let saga = Saga::new("s").step(Step::new("a\"b\n"));
    let (out, _) = drive(&saga, &[("a\"b\n", "boom")], &[], None);
    assert_eq!(
        out.expect_err("fails").to_string(),
        "step \"a\\\"b\\n\": boom"
    );
}

fn drive_tcc(tcc: &Tcc, failing: &[&str], unconfirmed: &[&str]) -> (Result<(), TccError>, Vec<String>) {
    let mut run = tcc.begin();
    let mut log: Vec<String> = Vec::new();
    let error = |p: &TccParticipant, message: &str| StepInvokeError::Failed {
        step: p.name().to_string(),
        attempts: p.retry_policy().max_attempts.max(1),
        source: message.to_string(),
    };
    loop {
        match tcc.next(&mut run) {
            TccAction::PhaseStarted(_)
            | TccAction::PhaseCompleted(_)
            | TccAction::PhaseFailed(_, _) => {}
            TccAction::Try(i) => {
                let p = &tcc.participants()[i];
                log.push(format!("try-{}", p.name()));
                if failing.contains(&p.name()) {
                    tcc.try_failed(&mut run, error(p, "boom"));
                } else {
                    tcc.try_succeeded(&mut run);
                }
            }
            TccAction::Confirm(i) => {
                let p = &tcc.participants()[i];
                log.push(format!("confirm-{}", p.name()));
                if unconfirmed.contains(&p.name()) {
                    tcc.confirm_failed(&mut run, error(p, "confirm-boom"));
                } else {
                    tcc.confirm_succeeded(&mut run);
                }
            }
            TccAction::Cancel(i) => {
                log.push(format!("cancel-{}", tcc.participants()[i].name()));
                tcc.cancelled(&mut run, i);
            }
            TccAction::Finish => break,
        }
    }
    (tcc.finish(run), log)
}

fn participant(name: &str) -> TccParticipant {
    TccParticipant::new(name).with_cancel()
}

#[test]
fn tcc_confirms_all_after_successful_tries() {
    let tcc = Tcc::new("happy")
        .participant(participant("a"))
        .participant(participant("b"));
    let (out, log) = drive_tcc(&tcc, &[], &[]);
    out.expect("tcc should succeed");
    assert_eq!(log, ["try-a", "try-b", "confirm-a", "confirm-b"]);
}

#[test]
fn tcc_cancels_tried_participants_on_try_failure() {
    let tcc = Tcc::new("fail")
        .participant(participant("a"))
        .participant(participant("b"));
    let (out, log) = drive_tcc(&tcc, &["b"], &[]);
    let err = out.expect_err("expected error");
    assert_eq!(log, ["try-a", "try-b", "cancel-a"]);
    assert_eq!(err.to_string(), "tcc \"fail\": try \"b\": boom");
    assert!(matches!(err, TccError::Try { .. }));
}

#[test]
fn tcc_cancels_in_reverse_order() {
    let tcc = Tcc::new("transfer")
        .participant(participant("a"))
        .participant(participant("b"))
        .participant(participant("c"));
    let (out, log) = drive_tcc(&tcc, &["c"], &[]);
    out.expect_err("expected error");
    assert_eq!(log, ["try-a", "try-b", "try-c", "cancel-b", "cancel-a"]);
}

#[test]
fn tcc_joins_confirm_errors() {
    let tcc = Tcc::new("t")
        .participant(TccParticipant::new("a"))
        .participant(TccParticipant::new("b"));
    let (out, _) = drive_tcc(&tcc, &[], &["a", "b"]);
    let err = out.expect_err("expected error");
    match &err {
        TccError::Confirm(failures) => {
            assert_eq!(failures.len(), 2);
            assert_eq!(failures[0].participant, "a");
            assert_eq!(failures[1].participant, "b");
        }
        other => panic!("unexpected error: {}", other.to_string()),
    }
    assert_eq!(
        err.to_string(),
        "confirm \"a\": confirm-boom\nconfirm \"b\": confirm-boom"
    );
}

#[test]
fn tcc_skips_participants_without_cancel() {
    let tcc = Tcc::new("t")
        .participant(TccParticipant::new("a"))
        .participant(participant("b"));
    let (out, log) = drive_tcc(&tcc, &["b"], &[]);
    out.expect_err("expected error");
    assert_eq!(log, ["try-a", "try-b"]);
}

#[test]
fn tcc_with_no_participants_is_ok() {
    let (out, _) = drive_tcc(&Tcc::new("empty"), &[], &[]);
    out.expect("empty is ok");
}

#[test]
fn tcc_try_retry_exhausted_fails() {
    let retry = RetryPolicy { max_attempts: 2, backoff_ms: 1, ..Default::default() };
    let tcc = Tcc::new("exhaust").participant(TccParticipant::new("p").with_retry(retry));
    let (out, _) = drive_tcc(&tcc, &["p"], &[]);
    let err = out.expect_err("must fail");
    assert!(matches!(err, TccError::Try { .. }));
    assert!(err.to_string().contains("2 attempt"));
}

#[test]
fn tcc_announces_its_phases() {
    let tcc = Tcc::new("t").participant(participant("a"));
    let mut run = tcc.begin();
    assert!(matches!(tcc.next(&mut run), TccAction::PhaseStarted(TccPhase::Try)));
    assert!(matches!(tcc.next(&mut run), TccAction::Try(0)));
    tcc.try_succeeded(&mut run);
    assert!(matches!(tcc.next(&mut run), TccAction::PhaseCompleted(TccPhase::Try)));
    assert!(matches!(tcc.next(&mut run), TccAction::PhaseStarted(TccPhase::Confirm)));
}

struct NodePlan<'a> {
    failing: &'a [(&'a str, &'a str)],
    stuck: &'a [&'a str],
    cancelled: bool,
}

fn drive_workflow(workflow: &Workflow, plan: &NodePlan, facts: &mut StepContext) -> (Result<(), WorkflowError>, Vec<String>) {
    let mut log: Vec<String> = Vec::new();
    let mut run = match workflow.begin() {
        Ok(run) => run,
        Err(error) => return (Err(error), log),
    };
    loop {
        let (detached, blocking) = match workflow.next_wave(&mut run) {
            WaveStep::Wave { detached, blocking } => (detached, blocking),
            WaveStep::Stalled | WaveStep::Complete => break,
        };
        for i in detached {
            log.push(format!("detached {}", workflow.nodes()[i].name()));
        }
        let mut started: Vec<usize> = Vec::new();
        for slot in 0..blocking.len() {
            match workflow.start_node(&mut run, slot, plan.cancelled, facts) {
                Admission::Run => started.push(slot),
                Admission::Skip | Admission::Cancelled => {}
            }
        }
        for slot in started {
            let name = workflow.nodes()[blocking[slot]].name().to_string();
            log.push(name.clone());
            facts.set_result(&name, Value::String("ran".to_string()));
            match plan.failing.iter().find(|f| f.0 == name) {
                Some((_, message)) => workflow.node_failed(&mut run, slot, message.to_string()),
                None => workflow.node_succeeded(&mut run, slot),
            }
        }
        workflow.wave_done(&mut run);
        if !matches!(run.stage, firefly_orchestration::workflow::WorkflowStage::Planning) {
            break;
        }
    }
    while matches!(run.stage, firefly_orchestration::workflow::WorkflowStage::RollingBack) {
        match workflow.next_rollback(&mut run) {
            Some(i) => {
                let name = workflow.nodes()[i].name().to_string();
                log.push(format!("undo_{name}"));
                workflow.rolled_back(&mut run, plan.stuck.contains(&name.as_str()));
            }
            None => break,
        }
    }
    (workflow.finish(run), log)
}

fn run_workflow(workflow: &Workflow, failing: &[(&str, &str)], stuck: &[&str]) -> (Result<(), WorkflowError>, Vec<String>) {
    let plan = NodePlan { failing, stuck, cancelled: false };
    drive_workflow(workflow, &plan, &mut StepContext::new())
}

fn after(name: &str, deps: &[&str]) -> Node {
    Node::new(name).depends_on(texts(deps))
}

#[test]
fn workflow_runs_all_nodes() {
    let workflow = Workflow::new("w")
        .node(Node::new("a"))
        .node(Node::new("b"))
        .node(after("c", &["a", "b"]));
    let (out, log) = run_workflow(&workflow, &[], &[]);
    out.expect("workflow should succeed");
    assert_eq!(log, ["a", "b", "c"]);
}

#[test]
fn workflow_fails_fast_skips_downstream() {
    let workflow = Workflow::new("w").node(Node::new("a")).node(after("b", &["a"]));
    let (out, log) = run_workflow(&workflow, &[("a", "boom")], &[]);
    let err = out.expect_err("expected error");
    assert_eq!(err.to_string(), "node \"a\": boom");
    assert!(!log.contains(&"b".to_string()));
}

#[test]
fn workflow_rejects_duplicate_nodes() {
    let workflow = Workflow::new("w").node(Node::new("a")).node(Node::new("a"));
    let (out, _) = run_workflow(&workflow, &[], &[]);
    let err = out.expect_err("expected error");
    assert!(matches!(err, WorkflowError::DuplicateNode { .. }));
    assert_eq!(err.to_string(), "workflow \"w\": duplicate node \"a\"");
}

#[test]
fn workflow_rejects_unknown_dependency() {
    let workflow = Workflow::new("w").node(after("a", &["ghost"]));
    let (out, _) = run_workflow(&workflow, &[], &[]);
    let err = out.expect_err("expected error");
    assert!(matches!(err, WorkflowError::UnknownDependency { .. }));
    assert_eq!(
        err.to_string(),
        "workflow \"w\": node \"a\" depends on unknown \"ghost\""
    );
}

#[test]
fn workflow_detects_dependency_cycle() {
    let workflow = Workflow::new("w")
        .node(after("a", &["b"]))
        .node(after("b", &["a"]));
    let (out, _) = run_workflow(&workflow, &[], &[]);
    let err = out.expect_err("expected error");
    assert!(matches!(err, WorkflowError::NoProgress { .. }));
    assert_eq!(
        err.to_string(),
        "workflow \"w\": no progress (dependency cycle?)"
    );
}

#[test]
fn workflow_diamond_respects_topological_order() {
    let workflow = Workflow::new("diamond")
        .node(after("d", &["b", "c"]))
        .node(after("b", &["a"]))
        .node(after("c", &["a"]))
        .node(Node::new("a"));
    let (out, log) = run_workflow(&workflow, &[], &[]);
    out.expect("workflow should succeed");
    assert_eq!(log.len(), 4);
    assert_eq!(log[0], "a");
    assert_eq!(log[3], "d");
}

#[test]
fn workflow_with_no_nodes_is_ok() {
    let (out, _) = run_workflow(&Workflow::new("empty"), &[], &[]);
    out.expect("empty is ok");
}

#[test]
fn workflow_cancellation_short_circuits() {
    let workflow = Workflow::new("w").node(Node::new("a"));
    let plan = NodePlan { failing: &[], stuck: &[], cancelled: true };
    let (out, log) = drive_workflow(&workflow, &plan, &mut StepContext::new());
    assert!(matches!(out.expect_err("expected cancellation"), WorkflowError::Cancelled));
    assert!(log.is_empty());
}

#[test]
fn workflow_joins_multiple_wave_failures() {
    let workflow = Workflow::new("w").node(Node::new("a")).node(Node::new("b"));
    let (out, _) = run_workflow(&workflow, &[("a", "boom-a"), ("b", "boom-b")], &[]);
    let err = out.expect_err("expected error");
    match &err {
        WorkflowError::Multiple(errors) => assert_eq!(errors.len(), 2),
        other => panic!("unexpected error: {}", other.to_string()),
    }
    assert_eq!(err.to_string(), "node \"a\": boom-a\nnode \"b\": boom-b");
}

#[test]
fn completed_compensatable_step_rolled_back_on_later_failure() {
    let workflow = Workflow::new("comp-basic")
        .node(Node::new("reserve").with_compensation())
        .node(after("charge", &["reserve"]));
    let (out, log) = run_workflow(&workflow, &[("charge", "payment declined")], &[]);
    assert!(matches!(out.expect_err("must fail"), WorkflowError::Node { .. }));
    assert_eq!(log, ["reserve", "charge", "undo_reserve"]);
}

#[test]
fn multiple_compensations_run_in_reverse_order() {
    let workflow = Workflow::new("comp-order")
        .node(Node::new("a").with_compensation())
        .node(after("b", &["a"]).with_compensation())
        .node(after("c", &["b"]));
    let (out, log) = run_workflow(&workflow, &[("c", "boom")], &[]);
    assert!(matches!(out.expect_err("must fail"), WorkflowError::Node { .. }));
    assert_eq!(log, ["a", "b", "c", "undo_b", "undo_a"]);
}

#[test]
fn non_compensatable_step_is_not_compensated() {
    let workflow = Workflow::new("comp-skip")
        .node(Node::new("plain"))
        .node(after("fail", &["plain"]));
    let (out, log) = run_workflow(&workflow, &[("fail", "boom")], &[]);
    assert!(matches!(out.expect_err("must fail"), WorkflowError::Node { .. }));
    assert_eq!(log, ["plain", "fail"]);
}

#[test]
fn no_compensation_on_success() {
    let workflow = Workflow::new("comp-happy")
        .node(Node::new("reserve").with_compensation())
        .node(after("charge", &["reserve"]).with_compensation());
    let (out, log) = run_workflow(&workflow, &[], &[]);
    out.expect("must complete");
    assert_eq!(log, ["reserve", "charge"]);
}

#[test]
fn workflow_compensation_stop_on_error() {
    let workflow = Workflow::new("policy")
        .policy(CompensationPolicy::StopOnError)
        .node(Node::new("a").with_compensation())
        .node(after("b", &["a"]).with_compensation())
        .node(after("c", &["b"]));
    let (out, log) = run_workflow(&workflow, &[("c", "trigger")], &["b"]);
    out.expect_err("must fail");
    // The rollback ends at the failure of b.
    assert_eq!(log, ["a", "b", "c", "undo_b"]);
}

#[test]
fn conditional_step_skipped_when_predicate_false() {
    let workflow = Workflow::new("condwf")
        .node(Node::new("always"))
        .node(after("maybe", &["always"]).when("results['always'] == 'nope'"));
    let (out, log) = run_workflow(&workflow, &[], &[]);
    out.expect("completes");
    assert_eq!(log, ["always"]);
}

#[test]
fn conditional_step_runs_when_predicate_true() {
    let workflow = Workflow::new("condwf2")
        .node(Node::new("always"))
        .node(after("maybe", &["always"]).when("results['always'] == 'ran'"));
    let (out, log) = run_workflow(&workflow, &[], &[]);
    out.expect("completes");
    assert_eq!(log, ["always", "maybe"]);
}

#[test]
fn malformed_condition_skips_the_node() {
    let workflow = Workflow::new("closed").node(Node::new("a").when("results["));
    let (out, log) = run_workflow(&workflow, &[], &[]);
    out.expect("completes");
    assert!(log.is_empty());
}

#[test]
fn async_step_is_fire_and_forget() {
    let workflow = Workflow::new("asyncwf").node(Node::new("bg").fire_and_forget());
    let (out, log) = run_workflow(&workflow, &[], &[]);
    out.expect("completes");
    assert_eq!(log, ["detached bg"]);
}

#[test]
fn async_step_error_does_not_fail_workflow() {
    let workflow = Workflow::new("asyncwf2")
        .node(Node::new("bg").fire_and_forget())
        .node(Node::new("main"));
    let (out, log) = run_workflow(&workflow, &[("bg", "ignored")], &[]);
    out.expect("completes despite bg error");
    assert_eq!(log, ["detached bg", "main"]);
}
