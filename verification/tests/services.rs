use firefly_orchestration::dlq::{
    DeadLetterCapture, DeadLetterEntry, DeadLetterFilter, DeadLetterService, MemoryDeadLetterStore,
};
use firefly_orchestration::gateway::{collect_results, pending_answer, EventGateway};
use firefly_orchestration::health::{HealthStatus, OrchestrationHealthIndicator};
use firefly_orchestration::model::{ExecutionPattern, ExecutionState, ExecutionStatus, TriggerMode};
use firefly_orchestration::persistence::{
    decode_row, decode_ts, encode_row, encode_ts, ExecutionFilter, MemoryPersistence,
};
use firefly_orchestration::recovery::{RecoveryAction, RecoveryPass, RecoveryService, RecoveryWork};
use firefly_orchestration::registry::OrchestrationRegistry;
use firefly_orchestration::saga::Saga;
use firefly_orchestration::scheduling::{
    start_saga, LastRun, OrchestrationScheduler, SagaStart, ScheduleTrigger, ScheduledTask,
    SchedulerError,
};
use firefly_orchestration::signal::{SignalError, SignalService};
use firefly_orchestration::step_context::StepContext;
use firefly_orchestration::text_map::TextMap;
use firefly_orchestration::time::{Delay, Span, Timestamp};
use firefly_orchestration::value::{Number, Value};
use firefly_orchestration::wait::{
    wait_any, GateEvent, TargetEvent, WaitAll, WaitError, WaitOutcome, WaitTarget,
};
use firefly_orchestration::web::{
    count_reply, dlq_filter, executions_filter, executions_reply, flag_reply, found_reply,
    unreadable_reply, Reply,
};
use firefly_orchestration::workflow::WorkflowError;
use firefly_orchestration::workflow_advanced::{
    ChildRun, ChildWorkflowError, ChildWorkflowService, ContinueAsNew, DurableWorkflowState,
    WorkflowQueryError, WorkflowQueryService,
};

fn value_of(json: &serde_json::Value) -> Value {
    match json {
        serde_json::Value::Null => Value::Null,
        serde_json::Value::Bool(b) => Value::Bool(*b),
        serde_json::Value::Number(n) => Value::Number(match (n.as_u64(), n.as_i64()) {
            (Some(u), _) => Number::PosInt(u),
            (None, Some(i)) => Number::NegInt(i),
            (None, None) => Number::Float(n.as_f64().unwrap().to_bits()),
        }),
        serde_json::Value::String(s) => Value::String(s.clone()),
        serde_json::Value::Array(items) => Value::Array(items.iter().map(value_of).collect()),
        serde_json::Value::Object(fields) => {
            let mut map: TextMap<Value> = TextMap::new();
            for (key, item) in fields {
                map.insert(key.clone(), value_of(item));
            }
            Value::Object(map)
        }
    }
}

fn json(text: &str) -> Value {
    value_of(&serde_json::from_str(text).unwrap())
}

fn hours_ago(n: i64) -> Timestamp {
    let now = ExecutionState::new("x", "x", ExecutionPattern::Saga).started_at;
    now.minus(Span { secs: n * 3600, nanos: 0 })
}

fn state(cid: &str, name: &str, status: ExecutionStatus) -> ExecutionState {
    let mut s = ExecutionState::new(cid, name, ExecutionPattern::Saga);
    s.transition(status);
    s
}

#[test]
fn save_and_load_round_trip() {
    let mut memory = MemoryPersistence::new();
    memory.save(state("cid-1", "t", ExecutionStatus::Running));
    let found = memory.load("cid-1").expect("present");
    assert_eq!(found.correlation_id, "cid-1");
    assert_eq!(found.status, ExecutionStatus::Running);
    assert_eq!(found.pattern, ExecutionPattern::Saga);
    assert_eq!(found.name, "t");
}

#[test]
fn list_filtered_by_status() {
    let mut memory = MemoryPersistence::new();
    memory.save(state("a", "t", ExecutionStatus::Running));
    memory.save(state("b", "t", ExecutionStatus::Completed));
    let completed = memory.list(ExecutionFilter::all().status(ExecutionStatus::Completed));
    assert_eq!(completed.len(), 1);
    assert_eq!(completed[0].status, ExecutionStatus::Completed);
    assert_eq!(memory.list(ExecutionFilter::all()).len(), 2);
}

#[test]
fn list_filtered_by_pattern() {
    let mut memory = MemoryPersistence::new();
    memory.save(state("a", "t", ExecutionStatus::Running));
    let mut wf = ExecutionState::new("wf-1", "w", ExecutionPattern::Workflow);
    wf.transition(ExecutionStatus::Running);
    memory.save(wf);
    let sagas = memory.list(ExecutionFilter::all().pattern(ExecutionPattern::Saga));
    assert_eq!(sagas.len(), 1);
    assert_eq!(sagas[0].pattern, ExecutionPattern::Saga);
}

#[test]
fn list_is_ordered_by_start() {
    let mut memory = MemoryPersistence::new();
    for (cid, secs) in [("a", 30), ("b", 10), ("c", 20)] {
        memory.save(ExecutionState::new_at(
            cid,
            "t",
            ExecutionPattern::Saga,
            Timestamp { secs, nanos: 0 },
        ));
    }
    let ids: Vec<String> = memory
        .list(ExecutionFilter::all())
        .into_iter()
        .map(|s| s.correlation_id)
        .collect();
    assert_eq!(ids, ["b", "c", "a"]);
}

#[test]
fn list_stale_finds_old_non_terminal() {
    let mut memory = MemoryPersistence::new();
    let mut s = state("old", "t", ExecutionStatus::Running);
    s.updated_at = hours_ago(2);
    memory.save(s);
    memory.save(state("recent", "t", ExecutionStatus::Running));
    let mut done = state("done", "t", ExecutionStatus::Completed);
    done.updated_at = hours_ago(2);
    memory.save(done);
    let stale = memory.list_stale(hours_ago(1));
    assert_eq!(stale.len(), 1);
    assert_eq!(stale[0].correlation_id, "old");
}

#[test]
fn cleanup_removes_old_terminal_records() {
    let mut memory = MemoryPersistence::new();
    let mut s = state("old", "t", ExecutionStatus::Completed);
    s.updated_at = hours_ago(240);
    s.completed_at = Some(hours_ago(240));
    memory.save(s);
    assert_eq!(memory.cleanup(Span { secs: 7 * 86400, nanos: 0 }), 1);
    assert!(memory.load("old").is_none());
}

#[test]
fn cleanup_keeps_recent_and_in_flight() {
    let mut memory = MemoryPersistence::new();
    memory.save(state("done", "t", ExecutionStatus::Completed));
    let mut running = state("running", "t", ExecutionStatus::Running);
    running.updated_at = hours_ago(720);
    memory.save(running);
    assert_eq!(memory.cleanup(Span { secs: 7 * 86400, nanos: 0 }), 0);
}

#[test]
fn delete_reports_presence() {
    let mut memory = MemoryPersistence::new();
    memory.save(state("a", "t", ExecutionStatus::Running));
    assert!(memory.delete("a"));
    assert!(!memory.delete("missing"));
}

#[test]
fn save_overwrites_existing_state() {
    let mut memory = MemoryPersistence::new();
    memory.save(state("a", "t", ExecutionStatus::Running));
    memory.save(state("a", "t", ExecutionStatus::Completed));
    let found = memory.load("a").expect("present");
    assert_eq!(found.status, ExecutionStatus::Completed);
    assert_eq!(memory.list(ExecutionFilter::all()).len(), 1);
}

#[test]
fn claim_stale_is_a_single_winner_cas() {
    let mut memory = MemoryPersistence::new();
    let mut s = state("a", "t", ExecutionStatus::Running);
    s.updated_at = hours_ago(2);
    memory.save(s);
    let cutoff = hours_ago(1);
    let claimed = memory
        .claim_stale("a", cutoff, ExecutionStatus::Compensating)
        .expect("first claim wins");
    assert_eq!(claimed.status, ExecutionStatus::Compensating);
    assert!(memory
        .claim_stale("a", cutoff, ExecutionStatus::Compensating)
        .is_none());
}

#[test]
fn claim_stale_terminal_marks_completed_at() {
    let mut memory = MemoryPersistence::new();
    let mut s = state("a", "t", ExecutionStatus::Running);
    s.updated_at = hours_ago(2);
    memory.save(s);
    let claimed = memory
        .claim_stale("a", hours_ago(1), ExecutionStatus::Failed)
        .expect("claim wins");
    assert_eq!(claimed.status, ExecutionStatus::Failed);
    assert!(claimed.completed_at.is_some());
    assert!(memory.load("a").expect("present").completed_at.is_some());
}

#[test]
fn claim_stale_rejects_fresh_and_terminal() {
    let mut memory = MemoryPersistence::new();
    memory.save(state("fresh", "t", ExecutionStatus::Running));
    let mut done = state("done", "t", ExecutionStatus::Completed);
    done.updated_at = hours_ago(2);
    memory.save(done);
    let cutoff = hours_ago(1);
    for id in ["fresh", "done", "missing"] {
        assert!(memory.claim_stale(id, cutoff, ExecutionStatus::Failed).is_none());
    }
}

#[test]
fn stamps_are_written_with_nine_digits() {
    let t = Timestamp { secs: 1_700_000_000, nanos: 42 };
    let stamp = encode_ts(t);
    assert_eq!(stamp, "2023-11-14T22:13:20.000000042+00:00");
    assert_eq!(decode_ts(&stamp).expect("reads back"), t);
    let error = decode_ts("yesterday").expect_err("no stamp");
    assert!(error.to_string().contains("yesterday"));
}

#[test]
fn stamps_order_as_texts() {
    let early = encode_ts(Timestamp { secs: 5, nanos: 999_999_999 });
    let late = encode_ts(Timestamp { secs: 6, nanos: 0 });
    assert!(early < late);
}

#[test]
fn stored_rows_read_back() {
    let mut s = ExecutionState::new_at(
        "cid",
        "order",
        ExecutionPattern::Tcc,
        Timestamp { secs: 1_000, nanos: 1 },
    );
    s.transition_at(ExecutionStatus::Confirmed, Timestamp { secs: 2_000, nanos: 2 });
    let row = encode_row(&s);
    assert_eq!(row.pattern, "TCC");
    assert_eq!(row.status, "CONFIRMED");
    assert_eq!(row.terminal, 1);
    let back = decode_row(row, Ok(json(r#"{"k": 1}"#))).expect("reads back");
    assert_eq!(back.correlation_id, "cid");
    assert_eq!(back.status, ExecutionStatus::Confirmed);
    assert_eq!(back.pattern, ExecutionPattern::Tcc);
    assert_eq!(back.started_at, s.started_at);
    assert_eq!(back.completed_at, s.completed_at);
    assert!(back.payload.equals(&json(r#"{"k": 1}"#)));
}

#[test]
fn bad_rows_are_refused() {
    let s = state("cid", "order", ExecutionStatus::Running);
    let mut row = encode_row(&s);
    row.status = "BOGUS".to_string();
    assert!(decode_row(row, Ok(Value::Null)).expect_err("status").to_string().contains("BOGUS"));
    let mut row = encode_row(&s);
    row.pattern = "NOPE".to_string();
    assert!(decode_row(row, Ok(Value::Null)).expect_err("pattern").to_string().contains("NOPE"));
    let row = encode_row(&s);
    assert!(decode_row(row, Err("bad json".to_string())).is_err());
    let mut row = encode_row(&s);
    row.updated_at = "soon".to_string();
    assert!(decode_row(row, Ok(Value::Null)).is_err());
}

#[test]
fn filters_become_conditions() {
    let (text, params) = ExecutionFilter::all()
        .status(ExecutionStatus::Running)
        .pattern(ExecutionPattern::Saga)
        .conditions();
    assert_eq!(text, " AND status = ?1 AND pattern = ?2");
    assert_eq!(params, ["RUNNING", "SAGA"]);
    assert_eq!(ExecutionFilter::all().conditions().0, "");
}

fn stale_state(cid: &str) -> ExecutionState {
    let mut s = ExecutionState::new(cid, "order-saga", ExecutionPattern::Saga);
    s.status = ExecutionStatus::Running;
    s.updated_at = hours_ago(1);
    s
}

fn recovery() -> RecoveryService {
    RecoveryService::new()
        .stale_threshold(Span { secs: 60, nanos: 0 })
        .retention_period(Span { secs: 86400, nanos: 0 })
}

fn recover(
    memory: &mut MemoryPersistence,
    service: &RecoveryService,
    decide: &dyn Fn(&str) -> RecoveryAction,
    fails: bool,
    calls: &mut Vec<String>,
) -> usize {
    let cutoff = service.stale_cutoff();
    let mut pass = RecoveryPass::begin(memory.list_stale(cutoff), cutoff);
    loop {
        match pass.work() {
            RecoveryWork::Decide(i) => {
                let action = decide(&pass.candidates[i].correlation_id);
                pass.decided(action);
            }
            RecoveryWork::Claim { correlation_id, cutoff, status } => {
                let claimed = memory.claim_stale(&correlation_id, cutoff, status);
                pass.claim_answered(claimed);
            }
            RecoveryWork::Resume | RecoveryWork::Compensate => {
                calls.push(pass.claimed.as_ref().unwrap().correlation_id.clone());
                pass.handled(!fails);
            }
            RecoveryWork::Save => {
                memory.save(pass.claimed.as_ref().unwrap().duplicate());
                pass.saved();
            }
            RecoveryWork::Finished(count) => return count,
        }
    }
}

fn mark_failed(_: &str) -> RecoveryAction {
    RecoveryAction::MarkFailed
}

#[test]
fn marks_stale_execution_as_failed() {
    let mut memory = MemoryPersistence::new();
    memory.save(stale_state("stale-1"));
    let count = recover(&mut memory, &recovery(), &mark_failed, false, &mut Vec::new());
    assert_eq!(count, 1);
    let s = memory.load("stale-1").expect("present");
    assert_eq!(s.status, ExecutionStatus::Failed);
    assert!(s.completed_at.is_some());
}

#[test]
fn marks_multiple_and_returns_count() {
    let mut memory = MemoryPersistence::new();
    for cid in ["stale-1", "stale-2", "stale-3"] {
        memory.save(stale_state(cid));
    }
    assert_eq!(recover(&mut memory, &recovery(), &mark_failed, false, &mut Vec::new()), 3);
    for cid in ["stale-1", "stale-2", "stale-3"] {
        assert_eq!(memory.load(cid).expect("present").status, ExecutionStatus::Failed);
    }
}

#[test]
fn does_not_mark_recent_in_flight() {
    let mut memory = MemoryPersistence::new();
    memory.save(state("recent-1", "order-saga", ExecutionStatus::Running));
    let service = recovery().stale_threshold(Span { secs: 600, nanos: 0 });
    assert_eq!(recover(&mut memory, &service, &mark_failed, false, &mut Vec::new()), 0);
    assert_eq!(
        memory.load("recent-1").expect("present").status,
        ExecutionStatus::Running
    );
}

#[test]
fn does_not_mark_completed_and_counts_only_in_flight() {
    let mut memory = MemoryPersistence::new();
    memory.save(stale_state("stale-1"));
    let mut done = stale_state("done-1");
    done.transition(ExecutionStatus::Completed);
    done.updated_at = hours_ago(2);
    memory.save(done);
    assert_eq!(recover(&mut memory, &recovery(), &mark_failed, false, &mut Vec::new()), 1);
    assert_eq!(
        memory.load("done-1").expect("present").status,
        ExecutionStatus::Completed
    );
}

#[test]
fn returns_zero_when_nothing_is_stale() {
    let mut memory = MemoryPersistence::new();
    assert_eq!(recover(&mut memory, &recovery(), &mark_failed, false, &mut Vec::new()), 0);
}

#[test]
fn decider_routes_to_resume_and_compensate_handlers() {
    let mut memory = MemoryPersistence::new();
    for cid in ["resume-me", "rollback-me", "skip-me"] {
        memory.save(stale_state(cid));
    }
    let decide = |cid: &str| match cid {
        "resume-me" => RecoveryAction::Resume,
        "rollback-me" => RecoveryAction::Compensate,
        _ => RecoveryAction::Skip,
    };
    let mut calls: Vec<String> = Vec::new();
    assert_eq!(recover(&mut memory, &recovery(), &decide, false, &mut calls), 2);
    assert_eq!(calls, ["resume-me", "rollback-me"]);
    assert_eq!(memory.load("resume-me").unwrap().status, ExecutionStatus::Completed);
    assert_eq!(memory.load("rollback-me").unwrap().status, ExecutionStatus::Compensated);
    assert_eq!(memory.load("skip-me").unwrap().status, ExecutionStatus::Running);
}

#[test]
fn overlapping_scans_run_resume_handler_once() {
    let mut memory = MemoryPersistence::new();
    memory.save(stale_state("contested"));
    let cutoff = recovery().stale_cutoff();
    let mut a = RecoveryPass::begin(memory.list_stale(cutoff), cutoff);
    let mut b = RecoveryPass::begin(memory.list_stale(cutoff), cutoff);
    let mut calls: usize = 0;
    for pass in [&mut a, &mut b] {
        pass.decided(RecoveryAction::Resume);
        match pass.work() {
            RecoveryWork::Claim { correlation_id, cutoff, status } => {
                let claimed = memory.claim_stale(&correlation_id, cutoff, status);
                pass.claim_answered(claimed);
            }
            other => panic!("unexpected {other:?}"),
        }
        if matches!(pass.work(), RecoveryWork::Resume) {
            calls += 1;
        }
    }
    assert_eq!(calls, 1);
    assert!(matches!(b.work(), RecoveryWork::Finished(0)));
}

#[test]
fn second_scan_does_not_rerun_recovered_execution() {
    let mut memory = MemoryPersistence::new();
    memory.save(stale_state("once"));
    let mut calls: Vec<String> = Vec::new();
    let compensate = |_: &str| RecoveryAction::Compensate;
    assert_eq!(recover(&mut memory, &recovery(), &compensate, false, &mut calls), 1);
    assert_eq!(recover(&mut memory, &recovery(), &compensate, false, &mut calls), 0);
    assert_eq!(calls, ["once"]);
    assert_eq!(memory.load("once").unwrap().status, ExecutionStatus::Compensated);
}

#[test]
fn failing_resume_marks_failed() {
    let mut memory = MemoryPersistence::new();
    memory.save(stale_state("r"));
    let resume = |_: &str| RecoveryAction::Resume;
    assert_eq!(recover(&mut memory, &recovery(), &resume, true, &mut Vec::new()), 1);
    assert_eq!(memory.load("r").unwrap().status, ExecutionStatus::Failed);
}

fn letters() -> DeadLetterService {
    DeadLetterService::new(MemoryDeadLetterStore::new())
}

#[test]
fn capture_and_list() {
    let mut dlq = letters();
    dlq.capture(
        DeadLetterCapture::new("orderSaga", "cid-1", "payment_declined")
            .error_type("RuntimeError")
            .step_id("charge")
            .input(json(r#"{"order": 1}"#)),
    );
    let entries = dlq.list(&DeadLetterFilter::all());
    assert_eq!(entries.len(), 1);
    let e = &entries[0];
    assert_eq!(e.execution_name, "orderSaga");
    assert_eq!(e.error_type, "RuntimeError");
    assert_eq!(e.step_id.as_deref(), Some("charge"));
    assert!(e.input.equals(&json(r#"{"order": 1}"#)));
    assert_eq!(e.retry_count, 0);
    assert_eq!(e.id.len(), 36);
}

#[test]
fn filter_by_execution_name() {
    let mut dlq = letters();
    dlq.capture(DeadLetterCapture::new("a", "1", "x"));
    dlq.capture(DeadLetterCapture::new("b", "2", "y"));
    let only_a = dlq.list(&DeadLetterFilter::all().execution_name("a"));
    assert_eq!(only_a.len(), 1);
    assert_eq!(only_a[0].execution_name, "a");
    let only_2 = dlq.list(&DeadLetterFilter::all().correlation_id("2"));
    assert_eq!(only_2.len(), 1);
    assert_eq!(only_2[0].correlation_id, "2");
}

#[test]
fn mark_retried_increments_count() {
    let mut dlq = letters();
    let entry = dlq.capture(DeadLetterCapture::new("x", "1", "e"));
    assert!(dlq.mark_retried(&entry.id));
    assert_eq!(dlq.get(&entry.id).expect("present").retry_count, 1);
    assert!(!dlq.mark_retried("missing"));
}

#[test]
fn delete_returns_false_when_missing() {
    assert!(!letters().delete("nope"));
}

#[test]
fn count_reflects_captures() {
    let mut dlq = letters();
    assert_eq!(dlq.count(), 0);
    dlq.capture(DeadLetterCapture::new("x", "c", "e"));
    assert_eq!(dlq.count(), 1);
}

#[test]
fn clear_reports_removed() {
    let mut dlq = letters();
    dlq.capture(DeadLetterCapture::new("x", "1", "e"));
    dlq.capture(DeadLetterCapture::new("y", "2", "e"));
    assert_eq!(dlq.letters.clear(), 2);
    assert_eq!(dlq.count(), 0);
}

#[test]
fn list_is_newest_first() {
    let mut store = MemoryDeadLetterStore::new();
    let entry = |id: &str, timestamp: Timestamp| DeadLetterEntry {
        id: id.into(),
        execution_name: "x".into(),
        correlation_id: "c".into(),
        step_id: None,
        error_type: "Error".into(),
        error_message: "e".into(),
        timestamp,
        retry_count: 0,
        input: Value::Null,
    };
    store.add(entry("old", Timestamp { secs: 100, nanos: 0 }));
    store.add(entry("new", Timestamp { secs: 400, nanos: 0 }));
    let entries = store.list(&DeadLetterFilter::all());
    assert_eq!(entries[0].id, "new");
    assert_eq!(entries[1].id, "old");
}

fn deliver(signals: &mut SignalService, cid: &str, signal: &str, payload: Value) -> (bool, Vec<u64>) {
    let tickets = signals.take_waiters(cid, signal);
    let consumed = !tickets.is_empty();
    let taken = signals.settle(cid, signal, payload, consumed);
    (taken, tickets)
}

#[test]
fn deliver_to_unknown_returns_false() {
    let mut signals = SignalService::new();
    assert!(!deliver(&mut signals, "nope", "approved", Value::Null).0);
}

#[test]
fn signal_buffered_when_delivered_before_waiter() {
    let mut signals = SignalService::new();
    let payload = r#"{"by": "boss"}"#;
    assert!(!deliver(&mut signals, "run-1", "approved", json(payload)).0);
    assert_eq!(signals.list_active(), ["run-1"]);
    let kept = signals.subscribe("run-1", "approved", 1).expect("kept payload");
    assert!(kept.equals(&json(payload)));
    assert!(signals.list_active().is_empty());
}

#[test]
fn wait_for_resolves_with_payload() {
    let mut signals = SignalService::new();
    assert!(signals.subscribe("run-9", "go", 7).is_none());
    let (taken, tickets) = deliver(&mut signals, "run-9", "go", json(r#"{"ok": true}"#));
    assert!(taken);
    assert_eq!(tickets, [7]);
    assert!(signals.list_active().is_empty());
}

#[test]
fn deliver_is_keyed_by_signal_name() {
    let mut signals = SignalService::new();
    assert!(signals.subscribe("run-1", "approved", 1).is_none());
    assert!(!deliver(&mut signals, "run-1", "rejected", Value::Null).0);
    assert!(deliver(&mut signals, "run-1", "approved", Value::Null).0);
}

#[test]
fn unregister_cancels_waiters() {
    let mut signals = SignalService::new();
    assert!(signals.subscribe("run-2", "go", 3).is_none());
    assert_eq!(signals.unregister("run-2"), [3]);
    let err = SignalError::Cancelled {
        correlation_id: "run-2".to_string(),
        signal: "go".to_string(),
    };
    assert_eq!(err.to_string(), "signal \"go\" wait cancelled for \"run-2\"");
    assert!(signals.list_active().is_empty());
}

#[test]
fn wait_all_gathers_signals_and_timers() {
    let targets = vec![
        WaitTarget::signal("run-1", "a"),
        WaitTarget::signal("run-1", "b"),
        WaitTarget::timer(Delay::from_millis(10)),
    ];
    let mut all = WaitAll::begin(&targets);
    assert!(!all.is_complete());
    assert!(all.take(&targets, GateEvent::Target(2, TargetEvent::Elapsed)).is_none());
    assert!(all
        .take(&targets, GateEvent::Target(0, TargetEvent::Signalled(json("1"))))
        .is_none());
    assert!(!all.is_complete());
    assert!(all
        .take(&targets, GateEvent::Target(1, TargetEvent::Signalled(json("2"))))
        .is_none());
    assert!(all.is_complete());
}

#[test]
fn wait_any_timer_wins_when_signal_never_arrives() {
    let targets = vec![
        WaitTarget::signal("run-2", "never"),
        WaitTarget::timer(Delay::from_millis(10)),
    ];
    let outcome = wait_any(&targets, Some(GateEvent::Target(1, TargetEvent::Elapsed))).expect("race");
    assert!(matches!(outcome, WaitOutcome::Timer { index: 0 }));
}

#[test]
fn wait_any_signal_wins_with_payload() {
    let targets = vec![
        WaitTarget::signal("run-3", "go"),
        WaitTarget::timer(Delay::from_millis(500)),
    ];
    let event = GateEvent::Target(0, TargetEvent::Signalled(json(r#"{"ok": true}"#)));
    match wait_any(&targets, Some(event)).expect("race") {
        WaitOutcome::Signal { signal, payload } => {
            assert_eq!(signal, "go");
            assert!(payload.equals(&json(r#"{"ok": true}"#)));
        }
        other => panic!("expected signal win, got {other:?}"),
    }
}

#[test]
fn wait_all_times_out() {
    let targets = vec![WaitTarget::signal("run-4", "never")];
    let mut all = WaitAll::begin(&targets);
    let err = all
        .take(&targets, GateEvent::Expired(Delay::from_millis(20)))
        .expect("must time out");
    assert!(matches!(err, WaitError::TimedOut(_)));
    assert_eq!(err.to_string(), "wait gate timed out after 20ms");
}

#[test]
fn wait_any_times_out() {
    let targets = vec![WaitTarget::signal("run-5", "never")];
    let err = wait_any(&targets, Some(GateEvent::Expired(Delay::from_millis(20))))
        .expect_err("must time out");
    assert!(matches!(err, WaitError::TimedOut(_)));
}

#[test]
fn wait_all_empty_is_noop() {
    assert!(WaitAll::begin(&Vec::new()).is_complete());
}

#[test]
fn wait_any_empty_errors() {
    let err = wait_any(&Vec::new(), None).expect_err("empty errors");
    assert!(matches!(err, WaitError::Empty));
    assert_eq!(err.to_string(), "wait gate has no targets");
}

#[test]
fn discarded_waiter_cancels_the_wait() {
    let targets = vec![WaitTarget::signal("run-6", "go")];
    let err = wait_any(&targets, Some(GateEvent::Target(0, TargetEvent::Discarded)))
        .expect_err("cancelled");
    assert!(matches!(err, WaitError::Cancelled { .. }));
}

#[test]
fn invalid_trigger_is_rejected() {
    let mut scheduler = OrchestrationScheduler::new();
    let err = scheduler
        .register(ScheduledTask::fixed_rate("x", Delay { secs: 0, nanos: 0 }))
        .expect_err("zero period rejected");
    assert!(matches!(err, SchedulerError::InvalidTrigger { .. }));
    assert_eq!(
        err.to_string(),
        "firefly/orchestration: scheduled task \"x\": invalid trigger"
    );
    assert!(scheduler
        .register(ScheduledTask::new("c", ScheduleTrigger::Cron(String::new())))
        .is_err());
    assert!(scheduler.list().is_empty());
}

#[test]
fn unregister_removes_task() {
    let mut scheduler = OrchestrationScheduler::new();
    scheduler
        .register(ScheduledTask::fixed_rate("t", Delay::from_millis(50)))
        .unwrap();
    scheduler.start();
    assert!(scheduler.unregister("t"));
    assert!(!scheduler.unregister("t"));
    assert!(scheduler.list().is_empty());
    scheduler.stop();
}

#[test]
fn disabled_task_does_not_fire() {
    let mut scheduler = OrchestrationScheduler::new();
    scheduler
        .register(ScheduledTask::fixed_rate("off", Delay::from_millis(5)).disabled())
        .unwrap();
    assert!(scheduler.start().is_empty());
    assert!(!scheduler.list()[0].enabled);
}

#[test]
fn task_registered_after_start_fires() {
    let mut scheduler = OrchestrationScheduler::new();
    assert!(scheduler.start().is_empty());
    assert!(scheduler
        .register(ScheduledTask::fixed_rate("late", Delay::from_millis(10)))
        .unwrap());
    scheduler.ran("late", true);
    scheduler.ran("late", false);
    scheduler.ran("ghost", true);
    let info = &scheduler.list()[0];
    assert_eq!((info.runs, info.failures), (1, 1));
    assert_eq!(scheduler.stop(), ["late"]);
    assert!(scheduler.stop().is_empty());
}

#[test]
fn start_is_idempotent() {
    let mut scheduler = OrchestrationScheduler::new();
    scheduler
        .register(ScheduledTask::fixed_delay("b", Delay::from_millis(5)))
        .unwrap();
    scheduler
        .register(ScheduledTask::fixed_rate("a", Delay::from_millis(5)))
        .unwrap();
    assert_eq!(scheduler.start(), ["a", "b"]);
    assert!(scheduler.start().is_empty());
    assert!(scheduler.is_running());
}

#[test]
fn rates_count_from_starts_and_delays_from_ends() {
    let last = Some(LastRun { started: 100, completed: 160 });
    let rate = ScheduledTask::fixed_rate("r", Delay { secs: 0, nanos: 100 });
    assert_eq!(rate.next_fire(last, 160), Some(40));
    assert_eq!(rate.next_fire(last, 500), Some(0));
    let delay = ScheduledTask::fixed_delay("d", Delay { secs: 0, nanos: 100 });
    assert_eq!(delay.next_fire(last, 160), Some(100));
    let late = rate.initial_delay(Delay { secs: 0, nanos: 30 });
    assert_eq!(late.next_fire(None, 10), Some(20));
    let cron = ScheduledTask::new("c", ScheduleTrigger::Cron("* * * * *".to_string()));
    assert_eq!(cron.next_fire(None, 0), None);
}

#[test]
fn scheduled_saga_runs_the_registered_saga() {
    let mut registry = OrchestrationRegistry::new();
    registry.register_saga(Saga::new("nightly"));
    let task = ScheduledTask::for_saga("nightly", ScheduleTrigger::FixedRate(Delay::from_millis(15)));
    assert_eq!(task.id, "saga:nightly");
    assert_eq!(
        start_saga(&registry, "nightly", TriggerMode::Sync),
        Ok(SagaStart::Inline)
    );
    assert_eq!(
        start_saga(&registry, "nightly", TriggerMode::Async),
        Ok(SagaStart::Detached)
    );
    assert_eq!(
        start_saga(&registry, "ghost", TriggerMode::Sync),
        Err("unknown saga \"ghost\"".to_string())
    );
}

#[test]
fn dispatch_invokes_handlers() {
    let mut gateway = EventGateway::new();
    gateway.register("OrderPlaced", "orderSaga", 5);
    let triggers = gateway.triggers("OrderPlaced");
    assert_eq!(triggers.len(), 1);
    assert_eq!(triggers[0].handler, 5);
    assert_eq!(triggers[0].target, "orderSaga");
    let results = collect_results(vec![Ok(json(r#""ok""#))]);
    assert_eq!(results.len(), 1);
    assert!(results[0].equals(&json(r#""ok""#)));
}

#[test]
fn unregister_removes_target() {
    let mut gateway = EventGateway::new();
    gateway.register("e", "t", 1);
    gateway.unregister("t");
    assert!(gateway.triggers("e").is_empty());
    assert!(gateway.list_subscriptions().is_empty());
}

#[test]
fn handler_failure_does_not_break_dispatch() {
    let results = collect_results(vec![Err("boom".to_string()), Ok(json("1")), Ok(json("2"))]);
    assert_eq!(results.len(), 2);
    assert!(results[0].equals(&json("1")));
    assert!(results[1].equals(&json("2")));
}

#[test]
fn list_subscriptions_groups_targets_by_event() {
    let mut gateway = EventGateway::new();
    gateway.register("OrderPlaced", "orderSaga", 1);
    gateway.register("OrderPlaced", "auditWorkflow", 2);
    gateway.register("Shipped", "orderSaga", 3);
    let subs = gateway.list_subscriptions();
    assert_eq!(*subs.get("OrderPlaced").unwrap(), ["orderSaga", "auditWorkflow"]);
    gateway.unregister("orderSaga");
    let subs = gateway.list_subscriptions();
    assert_eq!(subs.keys(), ["OrderPlaced"]);
    assert_eq!(*subs.get("OrderPlaced").unwrap(), ["auditWorkflow"]);
}

#[test]
fn saga_trigger_async_mode_answers_pending() {
    let answer = pending_answer("bg");
    assert!(answer.equals(&json(r#"{"saga": "bg", "status": "PENDING"}"#)));
}

#[test]
fn up_when_persistence_healthy() {
    let indicator = OrchestrationHealthIndicator::new();
    let result = indicator.check(true);
    assert_eq!(result.status, HealthStatus::Up);
    assert_eq!(result.persistence, "ok");
    assert_eq!(indicator.name(), "orchestration");
}

#[test]
fn down_when_persistence_unhealthy() {
    let indicator = OrchestrationHealthIndicator::with_name("custom");
    let result = indicator.check(false);
    assert_eq!(result.status, HealthStatus::Down);
    assert_eq!(result.persistence, "unreachable");
    assert_eq!(result.message.as_deref(), Some("persistence provider unreachable"));
    assert_eq!(indicator.name(), "custom");
}

#[test]
fn list_executions_defaults_to_in_flight() {
    let mut memory = MemoryPersistence::new();
    memory.save(state("run-active", "demo", ExecutionStatus::Running));
    memory.save(state("run-done", "demo", ExecutionStatus::Completed));
    let filter = executions_filter(None).expect("no filter");
    let reply = executions_reply(false, Ok(memory.list(filter)));
    assert_eq!(reply.status_code(), 200);
    match reply {
        Reply::Json(states) => {
            assert_eq!(states.len(), 1);
            assert_eq!(states[0].correlation_id, "run-active");
        }
        other => panic!("unexpected {other:?}"),
    }
}

#[test]
fn list_executions_status_filter() {
    let mut memory = MemoryPersistence::new();
    memory.save(state("run-active", "demo", ExecutionStatus::Running));
    memory.save(state("run-done", "demo", ExecutionStatus::Completed));
    let filter = executions_filter(Some("COMPLETED")).expect("known status");
    match executions_reply(true, Ok(memory.list(filter))) {
        Reply::Json(states) => {
            assert_eq!(states.len(), 1);
            assert_eq!(states[0].correlation_id, "run-done");
        }
        other => panic!("unexpected {other:?}"),
    }
}

#[test]
fn bad_status_query_is_400() {
    let message = executions_filter(Some("BOGUS")).expect_err("unknown status");
    assert_eq!(message, "unknown status \"BOGUS\"\n");
    let reply: Reply<Value> = Reply::BadRequest(message);
    assert_eq!(reply.status_code(), 400);
}

#[test]
fn get_unknown_execution_returns_204() {
    let memory = MemoryPersistence::new();
    let reply = found_reply(Ok(memory.load("nope")));
    assert_eq!(reply.status_code(), 204);
}

#[test]
fn dlq_count_and_list() {
    let mut dlq = letters();
    dlq.capture(DeadLetterCapture::new("x", "c1", "boom"));
    dlq.capture(DeadLetterCapture::new("y", "c2", "boom2"));
    match count_reply(Ok(dlq.count() as u64)) {
        Reply::Json(body) => assert!(body.equals(&json(r#"{"count": 2}"#))),
        other => panic!("unexpected {other:?}"),
    }
    assert_eq!(dlq.list(&dlq_filter(None, None)).len(), 2);
    assert_eq!(dlq.list(&dlq_filter(Some("x"), None)).len(), 1);
    assert_eq!(dlq.list(&dlq_filter(Some("x"), Some("c2"))).len(), 0);
}

#[test]
fn delete_unknown_dlq_returns_flag() {
    let reply = flag_reply("deleted", Ok(letters().delete("missing")));
    assert_eq!(reply.status_code(), 200);
    match reply {
        Reply::Json(body) => assert!(body.equals(&json(r#"{"deleted": false}"#))),
        other => panic!("unexpected {other:?}"),
    }
}

#[test]
fn failing_stores_answer_500() {
    let reply: Reply<Value> = found_reply(Err("disk".to_string()));
    assert_eq!(reply.status_code(), 500);
    assert!(matches!(reply, Reply::InternalError(body) if body == "disk\n"));
    assert_eq!(unreadable_reply("no json").status_code(), 400);
}

fn services() -> ChildWorkflowService {
    let mut service = ChildWorkflowService::new();
    service.register("greet", 4);
    service
}

#[test]
fn child_workflow_runs_synchronously() {
    let service = services();
    assert_eq!(service.registered(), ["greet"]);
    assert_eq!(service.factory("greet").expect("registered"), 4);
    let mut context = StepContext::new();
    context.set_result("hello", json(r#""hi""#));
    let child = service
        .finished("greet", ChildRun::Completed, context)
        .expect("child ok");
    assert!(child.result("hello").unwrap().equals(&json(r#""hi""#)));
}

#[test]
fn child_workflow_unknown_errors() {
    let err = services().factory("ghost").expect_err("unknown");
    assert!(matches!(err, ChildWorkflowError::Unknown(_)));
    assert_eq!(err.to_string(), "child workflow \"ghost\" is not registered");
}

#[test]
fn child_workflow_failure_propagates() {
    let failure = WorkflowError::Node {
        node: "x".to_string(),
        source: "kaput".to_string(),
    };
    let err = services()
        .finished("greet", ChildRun::Failed(failure), StepContext::new())
        .expect_err("fails");
    assert_eq!(err.to_string(), "child workflow \"greet\" failed: node \"x\": kaput");
}

#[test]
fn child_workflow_times_out() {
    let err = services()
        .finished(
            "greet",
            ChildRun::TimedOut(Delay::from_millis(20)),
            StepContext::new(),
        )
        .expect_err("times out");
    assert_eq!(err.to_string(), "child workflow \"greet\" timed out after 20ms");
}

#[test]
fn child_workflow_fire_and_forget() {
    let service = services();
    let mut context = StepContext::new();
    let handle = service.start_async("greet", &mut context).expect("started");
    assert_eq!(handle.correlation_id.len(), 36);
    assert_eq!(context.correlation_id(), handle.correlation_id);
    let again = service.start_async("greet", &mut context).expect("started");
    assert_eq!(again.correlation_id, handle.correlation_id);
}

#[test]
fn continue_as_new_restarts_with_new_input() {
    let restarter = ContinueAsNew::new(std::sync::Arc::new(services()));
    let (factory, child) = restarter
        .restart("greet", json(r#"{"amount": 7}"#))
        .expect("restart ok");
    assert_eq!(factory, 4);
    assert!(child.input_field("amount").unwrap().equals(&json("7")));
    assert_eq!(child.correlation_id().len(), 36);
    assert!(restarter.restart("ghost", Value::Null).is_err());
}

#[test]
fn query_service_answers_registered_query() {
    let mut service: WorkflowQueryService<&str> = WorkflowQueryService::new();
    service.register("run-1", "facts");
    service.register_query("run-1", "progress", 1);
    service.register_query("run-1", "last_step", 2);
    service.register_query("run-9", "ignored", 3);
    assert_eq!(service.query("run-1", "progress").unwrap(), (1, &"facts"));
    assert_eq!(service.query("run-1", "last_step").unwrap(), (2, &"facts"));
    assert_eq!(service.active(), ["run-1"]);
}

#[test]
fn query_service_error_cases() {
    let mut service: WorkflowQueryService<u8> = WorkflowQueryService::new();
    let err = service.query("nope", "x").expect_err("unknown exec");
    assert!(matches!(err, WorkflowQueryError::Unknown(_)));
    assert_eq!(err.to_string(), "workflow execution \"nope\" is not active");
    service.register("run-2", 0);
    let err = service.query("run-2", "ghost").expect_err("unknown query");
    assert!(matches!(err, WorkflowQueryError::UnknownQuery { .. }));
    assert_eq!(
        err.to_string(),
        "execution \"run-2\" has no query named \"ghost\""
    );
    service.unregister("run-2");
    assert!(service.active().is_empty());
}

#[test]
fn durable_suspend_resume_survives_restart() {
    let mut memory = MemoryPersistence::new();
    let mut ctx = StepContext::with_input(json(r#"{"order": "O-7"}"#));
    ctx.set_correlation_id("run-durable");
    ctx.set_result("reserve", json(r#"{"reservation": "R-3"}"#));
    memory.save(DurableWorkflowState::new().suspend("approval", &ctx));

    let stored = memory.load("run-durable").expect("present");
    assert_eq!(stored.status, ExecutionStatus::Suspended);
    assert_eq!(stored.pattern, ExecutionPattern::Workflow);

    let resumed = DurableWorkflowState::new()
        .resume(Some(&stored))
        .expect("found");
    assert!(resumed.input().equals(&json(r#"{"order": "O-7"}"#)));
    assert!(resumed
        .result_field("reserve", "reservation")
        .unwrap()
        .equals(&json(r#""R-3""#)));
}

#[test]
fn durable_resume_unknown_is_none() {
    assert!(DurableWorkflowState::new().resume(None).is_none());
}
