use firefly_orchestration::gateway::collect_results;
use firefly_orchestration::model::{
    ExecutionPattern, ExecutionState, ExecutionStatus, RetryPolicy, StepStatus, TriggerMode,
};
use firefly_orchestration::persistence::{ExecutionFilter, MemoryPersistence};
use firefly_orchestration::plugins::{finish_start, finish_stop, RegisteredPlugin, Registry};
use firefly_orchestration::recovery::RecoveryService;
use firefly_orchestration::registry::OrchestrationRegistry;
use firefly_orchestration::report::ExecutionReport;
use firefly_orchestration::saga::{Outcome, Saga, SagaAction, SagaStatus, Step};
use firefly_orchestration::saga_composition::{
    CompositionStage, SagaCompositionBuilder, SagaCompositor,
};
use firefly_orchestration::scheduling::{start_saga, OrchestrationScheduler, ScheduledTask};
use firefly_orchestration::signal::SignalService;
use firefly_orchestration::step_context::StepContext;
use firefly_orchestration::step_invoker::{AttemptResult, Invocation, InvokeStep};
use firefly_orchestration::tcc::{Tcc, TccAction, TccParticipant};
use firefly_orchestration::text_map::TextMap;
use firefly_orchestration::time::{Delay, Span, Timestamp};
use firefly_orchestration::timer::TimerService;
use firefly_orchestration::value::{Number, Value};
use firefly_orchestration::web::{executions_filter, executions_reply, flag_reply, Reply};
use firefly_orchestration::workflow::{Admission, Node, WaveStep, Workflow};

const START: Timestamp = Timestamp { secs: 10, nanos: 0 };
const END: Timestamp = Timestamp { secs: 12, nanos: 0 };

fn text(s: &str) -> Value {
    Value::String(s.to_string())
}

fn object(fields: Vec<(&str, Value)>) -> Value {
    let mut map: TextMap<Value> = TextMap::new();
    for (key, value) in fields {
        map.insert(key.to_string(), value);
    }
    Value::Object(map)
}

/// Runs a saga whose steps all succeed.
fn run_through(saga: &Saga, mut step: impl FnMut(&str)) -> Outcome {
    let mut run = saga.begin();
    loop {
        match saga.next(&mut run, false) {
            SagaAction::RunStep(i) => {
                step(saga.steps()[i].name());
                saga.step_succeeded(&mut run);
            }
            SagaAction::Compensate(_) => panic!("nothing failed"),
            SagaAction::Finish => break,
        }
    }
    saga.finish(run, START, END).expect("completes")
}

/// Counts the attempts of a callback that fails so often before it succeeds.
fn attempts_of(step: &str, policy: RetryPolicy, failures: u32) -> u32 {
    let mut invocation = Invocation::new(step, policy);
    let mut made: u32 = 0;
    loop {
        made += 1;
        let result = if made <= failures {
            AttemptResult::Failed("transient".to_string())
        } else {
            AttemptResult::Done
        };
        match invocation.record(result, 0) {
            InvokeStep::Succeeded(attempts) => {
                assert_eq!(attempts, made);
                return made;
            }
            InvokeStep::Retry(delay) => assert!(delay >= 1),
            InvokeStep::GaveUp(error) => panic!("{}", error.to_string()),
        }
    }
}

#[test]
fn cleanup_removes_only_old_terminal_executions() {
    let now = ExecutionState::new("x", "order-saga", ExecutionPattern::Saga).started_at;
    let old = now.minus(Span { secs: 48 * 3600, nanos: 0 });
    let mut persistence = MemoryPersistence::new();
    for cid in ["old-done-1", "old-done-2"] {
        let mut done = ExecutionState::new(cid, "order-saga", ExecutionPattern::Saga);
        done.transition(ExecutionStatus::Completed);
        done.updated_at = old;
        done.completed_at = Some(old);
        persistence.save(done);
    }
    let mut recent = ExecutionState::new("recent-done", "order-saga", ExecutionPattern::Saga);
    recent.transition(ExecutionStatus::Completed);
    persistence.save(recent);
    let mut in_flight = ExecutionState::new("in-flight-1", "order-saga", ExecutionPattern::Saga);
    in_flight.status = ExecutionStatus::Running;
    in_flight.updated_at = old;
    persistence.save(in_flight);

    let recovery = RecoveryService::new().retention_period(Span { secs: 24 * 3600, nanos: 0 });
    assert_eq!(persistence.cleanup(recovery.retention_period), 2);
    assert!(persistence.load("old-done-1").is_none());
    assert!(persistence.load("recent-done").is_some());
    assert!(persistence.load("in-flight-1").is_some());
    assert_eq!(persistence.cleanup(recovery.retention_period), 0);
    assert_eq!(persistence.list(ExecutionFilter::all()).len(), 2);
}

#[test]
fn unknown_saga_yields_no_result() {
    let registry = OrchestrationRegistry::new();
    let refused = start_saga(&registry, "ghost", TriggerMode::Sync).unwrap_err();
    assert_eq!(refused, "unknown saga \"ghost\"");
    assert!(collect_results(vec![Err(refused)]).is_empty());
}

#[test]
fn saga_step_retries_until_success() {
    let retry = RetryPolicy { max_attempts: 5, backoff_ms: 1, ..Default::default() };
    let saga = Saga::new("retrying").step(Step::new("flaky").with_retry(retry));
    let mut made: u32 = 0;
    let out = run_through(&saga, |name| {
        made = attempts_of(name, *saga.steps()[0].retry_policy(), 2);
    });
    assert_eq!(out.status, SagaStatus::Completed);
    assert_eq!(made, 3);
}

#[test]
fn saga_threads_data_between_steps() {
    let amount = Value::Number(Number::PosInt(250));
    let mut ctx = StepContext::with_input(object(vec![("amount", amount)]));
    let saga = Saga::new("payment").step(Step::new("authorize")).step(Step::new("capture"));
    let out = run_through(&saga, |name| match name {
        "authorize" => {
            let amount = ctx.input_field("amount").unwrap();
            ctx.set_result("authorize", object(vec![("auth_id", text("A-1")), ("amount", amount)]));
        }
        _ => {
            let auth = ctx.result_field("authorize", "auth_id").unwrap();
            ctx.set_result("capture", object(vec![("captured", auth)]));
        }
    });
    assert_eq!(out.status, SagaStatus::Completed);
    assert!(ctx.result_field("capture", "captured").unwrap().equals(&text("A-1")));
}

#[test]
fn registered_saga_is_runnable() {
    let mut registry = OrchestrationRegistry::new();
    registry.register_saga(Saga::new("orderSaga").step(Step::new("reserve")).step(Step::new("charge")));
    let saga = registry.saga("orderSaga").expect("present");
    let outcome = run_through(&saga, |_| {});
    assert_eq!(outcome.steps_executed, ["reserve", "charge"]);
}

#[test]
fn report_has_the_wire_shape() {
    let saga = Saga::new("s").step(Step::new("a"));
    let outcome = run_through(&saga, |_| {});
    let report = ExecutionReport::from_saga_outcome("c", &outcome);
    assert_eq!(report.name, "s");
    assert_eq!(report.pattern.to_string(), "SAGA");
    assert_eq!(report.status.to_string(), "COMPLETED");
    assert_eq!(report.steps[0].step_id, "a");
    assert_eq!(report.steps[0].status, StepStatus::Done);
    assert_eq!(report.steps[0].status.to_string(), "DONE");
    assert_eq!(report.duration_ms, 2000);
}

#[test]
fn tcc_try_retries_until_success() {
    let retry = RetryPolicy { max_attempts: 3, backoff_ms: 1, ..Default::default() };
    let tcc = Tcc::new("retrying").participant(TccParticipant::new("p").with_retry(retry));
    let mut tries: u32 = 0;
    let mut run = tcc.begin();
    loop {
        match tcc.next(&mut run) {
            TccAction::Try(i) => {
                tries = attempts_of("p", *tcc.participants()[i].retry_policy(), 1);
                tcc.try_succeeded(&mut run);
            }
            TccAction::Confirm(_) => tcc.confirm_succeeded(&mut run),
            TccAction::Finish => break,
            _ => {}
        }
    }
    tcc.finish(run).expect("confirms after retry");
    assert_eq!(tries, 2);
}

#[test]
fn zero_delay_returns_immediately() {
    assert!(TimerService::new().sleep_ms(0).is_none());
    assert!(TimerService::new().sleep(Delay::from_millis(0)).is_none());
}

#[test]
fn sleep_ms_sleeps_at_least_the_delay() {
    let sleep = TimerService::new().sleep_ms(10).expect("sleeps");
    assert_eq!(sleep.as_nanos(), 10_000_000);
}

#[test]
fn fixed_rate_task_fires() {
    let mut scheduler = OrchestrationScheduler::new();
    let task = ScheduledTask::fixed_rate("saga:tick", Delay::from_millis(15));
    assert_eq!(task.next_fire(None, 0), Some(0));
    assert!(!scheduler.register(task).expect("register"));
    assert_eq!(scheduler.start(), ["saga:tick"]);
    scheduler.ran("saga:tick", true);
    scheduler.stop();
    let listed = scheduler.list();
    assert!(listed.iter().any(|t| t.id == "saga:tick" && t.runs == 1));
}

#[test]
fn list_executions_empty_returns_200() {
    let filter = executions_filter(None).expect("no status to refuse");
    let listed = MemoryPersistence::new().list(filter);
    let reply = executions_reply(false, Ok(listed));
    assert_eq!(reply.status_code(), 200);
    assert!(matches!(reply, Reply::Json(states) if states.is_empty()));
}

#[test]
fn signal_unknown_correlation_not_delivered() {
    let mut signals = SignalService::new();
    assert!(signals.take_waiters("unknown", "approve").is_empty());
    let payload = object(vec![("ok", Value::Bool(true))]);
    let delivered = signals.settle("unknown", "approve", payload, false);
    let reply = flag_reply("delivered", Ok(delivered));
    assert_eq!(reply.status_code(), 200);
    match reply {
        Reply::Json(body) => assert!(body.equals(&object(vec![("delivered", Value::Bool(false))]))),
        _ => panic!("no body"),
    }
}

#[test]
fn signal_delivers_to_waiting_workflow() {
    let mut signals = SignalService::new();
    assert!(signals.subscribe("run-9", "approve", 4).is_none());
    assert_eq!(signals.take_waiters("run-9", "approve"), [4]);
    let delivered = signals.settle("run-9", "approve", Value::Null, true);
    match flag_reply("delivered", Ok(delivered)) {
        Reply::Json(body) => assert!(body.equals(&object(vec![("delivered", Value::Bool(true))]))),
        _ => panic!("no body"),
    }
}

#[test]
fn wait_for_signal_node_consumes_pre_delivered_signal() {
    let mut signals = SignalService::new();
    assert!(!signals.settle("run-7", "approved", text("manager-A"), false));
    let payload = signals.subscribe("run-7", "approved", 1).expect("kept");
    assert!(payload.equals(&text("manager-A")));
    assert!(signals.list_active().is_empty());
}

#[test]
fn definitions_listing() {
    let mut registry = OrchestrationRegistry::new();
    registry.register_saga(Saga::new("orderSaga"));
    let listed = registry.definitions();
    assert_eq!(listed[0].name, "orderSaga");
    assert_eq!(listed[0].pattern.to_string(), "SAGA");
}

#[test]
fn workflow_threads_step_results_between_nodes() {
    let mut ctx = StepContext::with_input(object(vec![("order", text("O-1"))]));
    let workflow = Workflow::new("pipeline")
        .node(Node::new("reserve"))
        .node(Node::new("charge").depends_on(vec!["reserve".to_string()]));
    let mut run = workflow.begin().expect("valid");
    while let WaveStep::Wave { blocking, .. } = workflow.next_wave(&mut run) {
        for (slot, i) in blocking.iter().enumerate() {
            assert_eq!(workflow.start_node(&mut run, slot, false, &ctx), Admission::Run);
            if workflow.nodes()[*i].name() == "reserve" {
                let order = ctx.input_field("order").unwrap();
                ctx.set_result("reserve", object(vec![("order", order), ("reservation", text("R-9"))]));
            } else {
                let reservation = ctx.result_field("reserve", "reservation").unwrap();
                ctx.set_result("charge", object(vec![("charged_for", reservation)]));
            }
            workflow.node_succeeded(&mut run, slot);
        }
        workflow.wave_done(&mut run);
    }
    workflow.finish(run).expect("completes");
    assert!(ctx.result_field("charge", "charged_for").unwrap().equals(&text("R-9")));
}

#[test]
fn compensation_reads_prior_step_result() {
    let mut ctx = StepContext::new();
    let workflow = Workflow::new("comp-args")
        .node(Node::new("reserve").with_compensation())
        .node(Node::new("charge").depends_on(vec!["reserve".to_string()]));
    let mut run = workflow.begin().expect("valid");
    assert!(matches!(workflow.next_wave(&mut run), WaveStep::Wave { .. }));
    assert_eq!(workflow.start_node(&mut run, 0, false, &ctx), Admission::Run);
    ctx.set_result("reserve", object(vec![("reservation_id", text("R-1"))]));
    workflow.node_succeeded(&mut run, 0);
    workflow.wave_done(&mut run);
    assert!(matches!(workflow.next_wave(&mut run), WaveStep::Wave { .. }));
    assert_eq!(workflow.start_node(&mut run, 0, false, &ctx), Admission::Run);
    workflow.node_failed(&mut run, 0, "declined".to_string());
    workflow.wave_done(&mut run);
    let undone = workflow.next_rollback(&mut run).expect("one to roll back");
    let seen = ctx.result(workflow.nodes()[undone].name()).expect("kept");
    assert!(seen.equals(&object(vec![("reservation_id", text("R-1"))])));
    workflow.rolled_back(&mut run, false);
    assert!(workflow.next_rollback(&mut run).is_none());
    assert_eq!(
        workflow.finish(run).expect_err("must fail").to_string(),
        "node \"charge\": declined"
    );
}

#[test]
fn workflow_wave_nodes_run_concurrently() {
    let workflow = Workflow::new("concurrent").node(Node::new("a")).node(Node::new("b"));
    let ctx = StepContext::new();
    let mut run = workflow.begin().expect("valid");
    match workflow.next_wave(&mut run) {
        WaveStep::Wave { blocking, .. } => assert_eq!(blocking, [0, 1]),
        _ => panic!("no wave"),
    }
    assert_eq!(workflow.start_node(&mut run, 0, false, &ctx), Admission::Run);
    assert_eq!(workflow.start_node(&mut run, 1, false, &ctx), Admission::Run);
    workflow.node_succeeded(&mut run, 1);
    workflow.node_succeeded(&mut run, 0);
    workflow.wave_done(&mut run);
    assert!(matches!(workflow.next_wave(&mut run), WaveStep::Complete));
    workflow.finish(run).expect("workflow should succeed");
}

#[test]
fn same_layer_sagas_run_concurrently() {
    let composition = SagaCompositionBuilder::new("parallel")
        .saga("a")
        .add()
        .saga("b")
        .add()
        .build()
        .expect("valid");
    let compositor = SagaCompositor::new().register("a").register("b");
    let mut run = compositor.begin(&composition, object(vec![]));
    let tasks = compositor.next_layer(&composition, &mut run).expect("one layer");
    assert_eq!(tasks.len(), 2);
    for task in tasks {
        assert!(task.registered);
        let saga = Saga::new(&task.saga).step(Step::new("wait"));
        let outcome = run_through(&saga, |_| {});
        compositor.saga_finished(&composition, &mut run, outcome, TextMap::new());
    }
    assert!(compositor.next_layer(&composition, &mut run).is_none());
    assert_eq!(run.stage, CompositionStage::Ended);
    assert!(run.context.is_success());
}

#[test]
fn start_order_and_reverse_stop_order() {
    let mut events: Vec<String> = Vec::new();
    let mut registry = Registry::new();
    for (hooks, name) in ["a", "b", "c"].iter().enumerate() {
        registry.register(RegisteredPlugin {
            name: name.to_string(),
            depends_on: Vec::new(),
            hooks: hooks as u64,
        });
    }
    let mut sweep = registry.start_all().expect("start_all");
    while let Some(plugin) = registry.next_start(&sweep) {
        events.push(format!("start:{}", plugin.name));
        registry.start_tried(&mut sweep, Ok(()));
    }
    finish_start(sweep, Vec::new()).expect("start_all");
    let mut stops = Vec::new();
    while let Some(plugin) = registry.next_stop() {
        events.push(format!("stop:{}", plugin.name));
        registry.stop_tried(&plugin, Ok(()), &mut stops);
    }
    finish_stop(stops).expect("stop_all");
    assert_eq!(
        events,
        vec!["start:a", "start:b", "start:c", "stop:c", "stop:b", "stop:a"],
    );
}
