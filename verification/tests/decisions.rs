use firefly_orchestration::condition::evaluate;
use firefly_orchestration::gateway::event_payload;
use firefly_orchestration::manager::PluginManager;
use firefly_orchestration::model::{
    ExecutionPattern, ExecutionState, ExecutionStatus, RetryPolicy,
};
use firefly_orchestration::persistence::MemoryPersistence;
use firefly_orchestration::recovery::{
    decided_or_default, outcome_or_default, RecoveryAction, RecoveryAnswer, RecoveryService,
};
use firefly_orchestration::saga::{CompensationPolicy, Saga, Step};
use firefly_orchestration::saga_composition::SagaCompositionBuilder;
use firefly_orchestration::step_context::StepContext;
use firefly_orchestration::step_invoker::{
    AttemptResult, Invocation, InvokeStep, StepInvokeError,
};
use firefly_orchestration::time::{Span, Timestamp};
use firefly_orchestration::value::{Number, Value};
use firefly_orchestration::workflow::{
    Admission, Node, WaveStep, Workflow, WorkflowError, WorkflowStage,
};

const NOW: Timestamp = Timestamp { secs: 10_000, nanos: 0 };

fn stuck_state(cid: &str) -> ExecutionState {
    ExecutionState::new_at(cid, "order-saga", ExecutionPattern::Saga, Timestamp { secs: 5, nanos: 0 })
        .with_status(ExecutionStatus::Running)
}

fn answer(decision: Option<RecoveryAction>, outcome: Option<bool>) -> RecoveryAnswer {
    RecoveryAnswer { decision, outcome }
}

#[test]
fn a_cancelled_wave_of_two_fails_as_cancelled() {
    let workflow = Workflow::new("w").node(Node::new("a")).node(Node::new("b"));
    let facts = StepContext::new();
    let mut run = workflow.begin().expect("valid");
    assert!(matches!(workflow.next_wave(&mut run), WaveStep::Wave { .. }));
    assert_eq!(workflow.start_node(&mut run, 0, true, &facts), Admission::Cancelled);
    assert_eq!(workflow.start_node(&mut run, 1, true, &facts), Admission::Cancelled);
    workflow.wave_done(&mut run);
    assert!(workflow.next_rollback(&mut run).is_none());
    let error = workflow.finish(run).expect_err("cancelled");
    assert!(matches!(error, WorkflowError::Cancelled));
    assert_eq!(error.to_string(), "workflow cancelled");
}

#[test]
fn a_node_that_ran_beside_cancelled_ones_is_rolled_back() {
    let workflow = Workflow::new("w")
        .node(Node::new("a").with_compensation())
        .node(Node::new("b"))
        .node(Node::new("c"));
    let facts = StepContext::new();
    let mut run = workflow.begin().expect("valid");
    assert!(matches!(workflow.next_wave(&mut run), WaveStep::Wave { .. }));
    assert_eq!(workflow.start_node(&mut run, 0, false, &facts), Admission::Run);
    assert_eq!(workflow.start_node(&mut run, 1, true, &facts), Admission::Cancelled);
    assert_eq!(workflow.start_node(&mut run, 2, true, &facts), Admission::Cancelled);
    workflow.node_succeeded(&mut run, 0);
    workflow.wave_done(&mut run);
    assert_eq!(workflow.next_rollback(&mut run), Some(0));
    workflow.rolled_back(&mut run, false);
    assert!(workflow.next_rollback(&mut run).is_none());
    assert!(matches!(workflow.finish(run), Err(WorkflowError::Cancelled)));
}

#[test]
fn siblings_of_a_failed_node_stand_beside_its_error() {
    let workflow = Workflow::new("w").node(Node::new("a")).node(Node::new("b"));
    let facts = StepContext::new();
    let mut run = workflow.begin().expect("valid");
    assert!(matches!(workflow.next_wave(&mut run), WaveStep::Wave { .. }));
    assert_eq!(workflow.start_node(&mut run, 0, false, &facts), Admission::Run);
    workflow.node_failed(&mut run, 0, "boom".to_string());
    assert_eq!(workflow.start_node(&mut run, 1, false, &facts), Admission::Cancelled);
    workflow.wave_done(&mut run);
    assert!(workflow.next_rollback(&mut run).is_none());
    assert_eq!(
        workflow.finish(run).expect_err("failed").to_string(),
        "node \"a\": boom\nworkflow cancelled"
    );
}

#[test]
fn an_interrupted_run_starts_no_node() {
    let workflow = Workflow::new("w").node(Node::new("a").fire_and_forget()).node(Node::new("b"));
    let mut run = workflow.begin().expect("valid");
    assert!(workflow.interrupt(&mut run));
    assert_eq!(run.stage, WorkflowStage::RollingBack);
    assert!(workflow.next_rollback(&mut run).is_none());
    assert!(matches!(workflow.finish(run), Err(WorkflowError::Cancelled)));

    let empty = Workflow::new("empty");
    let mut run = empty.begin().expect("valid");
    assert!(!empty.interrupt(&mut run));
    assert!(matches!(empty.next_wave(&mut run), WaveStep::Complete));
    assert!(empty.finish(run).is_ok());
}

#[test]
fn only_the_backoff_policy_retries_compensations() {
    let retry = RetryPolicy { max_attempts: 3, backoff_ms: 2, ..Default::default() };
    let saga = Saga::new("s")
        .policy(CompensationPolicy::RetryWithBackoff)
        .step(Step::new("a").with_compensation().with_retry(retry));
    let policy = saga.compensation_retry(0).expect("retried");
    assert_eq!(policy.max_attempts, 3);
    let mut invocation = Invocation::new("a", policy);
    let failed = || AttemptResult::Failed("down".to_string());
    assert!(matches!(invocation.record(failed(), 0), InvokeStep::Retry(2)));
    assert!(matches!(invocation.record(failed(), 0), InvokeStep::Retry(4)));
    match invocation.record(failed(), 0) {
        InvokeStep::GaveUp(error) => assert_eq!(
            saga.compensation_cause(0, error),
            "step \"a\" failed after 3 attempt(s): down"
        ),
        other => panic!("unexpected {other:?}"),
    }
    for other in [
        CompensationPolicy::BestEffort,
        CompensationPolicy::StopOnError,
        CompensationPolicy::CircuitBreaker,
        CompensationPolicy::BestEffortParallel,
        CompensationPolicy::GroupedParallel,
    ] {
        let saga = Saga::new("s").policy(other).step(Step::new("a").with_retry(retry));
        assert!(saga.compensation_retry(0).is_none());
    }
}

#[test]
fn a_compensation_tried_once_reports_its_bare_cause() {
    let saga = Saga::new("s")
        .policy(CompensationPolicy::RetryWithBackoff)
        .step(Step::new("a").with_compensation());
    let error = StepInvokeError::Failed {
        step: "a".to_string(),
        attempts: 1,
        source: "down".to_string(),
    };
    assert_eq!(saga.compensation_cause(0, error), "down");
}

#[test]
fn absent_deciders_and_handlers_have_defaults() {
    assert_eq!(decided_or_default(None), RecoveryAction::MarkFailed);
    assert_eq!(decided_or_default(Some(RecoveryAction::Skip)), RecoveryAction::Skip);
    assert!(!outcome_or_default(None));
    assert!(!outcome_or_default(Some(false)));
    assert!(outcome_or_default(Some(true)));
}

#[test]
fn a_pass_settles_every_stuck_execution_and_a_second_finds_none() {
    let service = RecoveryService::new().stale_threshold(Span { secs: 60, nanos: 0 });
    let mut store = MemoryPersistence::new();
    for cid in ["a", "b", "c", "d"] {
        store.save(stuck_state(cid));
    }
    let mut fresh = stuck_state("e");
    fresh.updated_at = NOW;
    store.save(fresh);
    let ids: Vec<String> =
        service.find_stale(&store, NOW).into_iter().map(|s| s.correlation_id).collect();
    assert_eq!(ids, ["a", "b", "c", "d"]);
    let answers = vec![
        answer(None, None),
        answer(Some(RecoveryAction::Resume), Some(true)),
        answer(Some(RecoveryAction::Compensate), Some(true)),
        answer(Some(RecoveryAction::Resume), None),
    ];
    assert_eq!(service.recover_stale(&mut store, &answers, NOW), 4);
    let status = |store: &MemoryPersistence, cid: &str| store.load(cid).expect("kept").status;
    assert_eq!(status(&store, "a"), ExecutionStatus::Failed);
    assert_eq!(status(&store, "b"), ExecutionStatus::Completed);
    assert_eq!(status(&store, "c"), ExecutionStatus::Compensated);
    assert_eq!(status(&store, "d"), ExecutionStatus::Failed);
    assert_eq!(status(&store, "e"), ExecutionStatus::Running);
    assert_eq!(store.load("b").expect("kept").completed_at, Some(NOW));

    assert!(service.find_stale(&store, NOW).is_empty());
    assert_eq!(service.recover_stale(&mut store, &Vec::new(), NOW), 0);
    assert_eq!(status(&store, "b"), ExecutionStatus::Completed);
}

#[test]
fn a_skipped_execution_stays_stuck() {
    let service = RecoveryService::new().stale_threshold(Span { secs: 60, nanos: 0 });
    let mut store = MemoryPersistence::new();
    store.save(stuck_state("a"));
    let answers = vec![answer(Some(RecoveryAction::Skip), None)];
    assert_eq!(service.recover_stale(&mut store, &answers, NOW), 0);
    assert_eq!(service.find_stale(&store, NOW).len(), 1);
    assert_eq!(store.load("a").expect("kept").status, ExecutionStatus::Running);
}

#[test]
fn events_without_a_readable_body_carry_null() {
    assert!(event_payload(None).equals(&Value::Null));
    let seven = Value::Number(Number::PosInt(7));
    assert!(event_payload(Some(seven)).equals(&Value::Number(Number::PosInt(7))));
}

#[test]
fn a_new_manager_has_no_extensions() {
    let manager = PluginManager::new();
    assert!(manager.registry().points().is_empty());
    assert!(manager.registry().extension_point_ids().is_empty());
}

#[test]
fn built_entries_stand_under_their_names() {
    let composition = SagaCompositionBuilder::new("c")
        .saga("b")
        .add()
        .saga("a")
        .depends_on(vec!["b".to_string()])
        .add()
        .build()
        .expect("valid");
    for (name, entry) in &composition.entries.entries {
        assert_eq!(*name, entry.saga_name);
    }
    assert_eq!(composition.entries.len(), 2);
}

#[test]
fn every_ascii_blank_separates_words() {
    let facts = StepContext::new();
    assert!(evaluate("\u{b}not\tfalse\nand\rtrue\u{c} ", &facts).unwrap());
    assert_eq!(evaluate("x9_", &facts).unwrap_err().0, "unknown name \"x9_\"");
    assert_eq!(evaluate("@", &facts).unwrap_err().0, "unexpected character '@'");
    assert_eq!(evaluate("\u{e9}\u{664}", &facts).unwrap_err().0, "unknown name \"\u{e9}\u{664}\"");
}
