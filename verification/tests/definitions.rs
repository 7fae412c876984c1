use firefly_orchestration::model::{
    ExecutionPattern, ExecutionState, ExecutionStatus, StepStatus,
};
use firefly_orchestration::registry::OrchestrationRegistry;
use firefly_orchestration::report::{ExecutionReport, StepReport};
use firefly_orchestration::saga::{Outcome, Saga, SagaStatus, Step};
use firefly_orchestration::tcc::{Tcc, TccParticipant};
use firefly_orchestration::text_map::TextMap;
use firefly_orchestration::time::Timestamp;
use firefly_orchestration::validator::{
    first_cycle, IssueLevel, OrchestrationValidator, ValidationIssue, ValidationReport,
};
use firefly_orchestration::value::{Number, Value};
use firefly_orchestration::workflow::{Node, Workflow};

fn graph(pairs: &[(&str, &[&str])]) -> TextMap<Vec<String>> {
    let mut map: TextMap<Vec<String>> = TextMap::new();
    for (name, deps) in pairs {
        map.insert(name.to_string(), deps.iter().map(|d| d.to_string()).collect());
    }
    map
}

fn texts(list: &[&str]) -> Vec<String> {
    list.iter().map(|s| s.to_string()).collect()
}

#[test]
fn dag_valid_returns_no_errors() {
    let v = OrchestrationValidator::new();
    let report = v.validate_dag("test", &graph(&[("a", &[]), ("b", &["a"])]));
    assert!(!report.has_errors());
    assert!(report.raise_if_errors().is_ok());
}

#[test]
fn dag_with_cycle_reports_error() {
    let v = OrchestrationValidator::new();
    let report = v.validate_dag("test", &graph(&[("a", &["b"]), ("b", &["a"])]));
    assert!(report.has_errors());
    let err = report.raise_if_errors().expect_err("must fail");
    assert!(err.to_string().contains("cycle"));
}

#[test]
fn dag_with_missing_dependency_reports_error() {
    let v = OrchestrationValidator::new();
    let report = v.validate_dag("test", &graph(&[("a", &["nope"])]));
    assert!(report.has_errors());
    assert!(report.issues[0].message.contains("nope"));
}

#[test]
fn empty_graph_reports_error() {
    let v = OrchestrationValidator::new();
    let report = v.validate_dag("test", &TextMap::new());
    assert!(report.has_errors());
    assert_eq!(report.issues[0].message, "no steps defined");
}

#[test]
fn validates_a_workflow_graph() {
    let workflow = Workflow::new("approval")
        .node(Node::new("submit"))
        .node(Node::new("approve").depends_on(texts(&["submit"])));
    let v = OrchestrationValidator::new();
    let report = v.validate_dag(workflow.name(), &workflow.graph());
    assert!(!report.has_errors(), "{report:?}");
}

#[test]
fn fail_on_warning_escalates_warnings() {
    let v = OrchestrationValidator::new().fail_on_warning(true);
    let report = ValidationReport {
        issues: vec![ValidationIssue {
            target: "t".into(),
            level: IssueLevel::Warning,
            message: "slow step".into(),
        }],
    };
    assert!(!report.has_errors());
    assert!(v.fail_if_needed(&report).is_err());
    // Without the toggle a warning-only report passes.
    assert!(OrchestrationValidator::new()
        .fail_if_needed(&report)
        .is_ok());
}

#[test]
fn issue_level_wire_strings() {
    assert_eq!(IssueLevel::Warning.to_string(), "WARNING");
    assert_eq!(IssueLevel::Error.to_string(), "ERROR");
}

#[test]
fn detects_three_node_cycle() {
    let v = OrchestrationValidator::new();
    let report = v.validate_dag("t", &graph(&[("a", &["c"]), ("b", &["a"]), ("c", &["b"])]));
    assert!(report.has_errors());
}

#[test]
fn repeated_dependency_is_no_cycle() {
    let v = OrchestrationValidator::new();
    let report = v.validate_dag("t", &graph(&[("a", &[]), ("b", &["a", "a"])]));
    assert!(!report.has_errors(), "{report:?}");
}

#[test]
fn a_clean_report_has_no_cycle() {
    assert!(first_cycle(&graph(&[("a", &[]), ("b", &["a"])])).is_none());
    let cycle = first_cycle(&graph(&[("a", &["b"]), ("b", &["a"])])).expect("cycle");
    assert!(cycle.contains(&"a".to_string()) && cycle.contains(&"b".to_string()));
}

#[test]
fn joined_messages_name_their_targets() {
    let v = OrchestrationValidator::new();
    let report = v.validate_dag("t", &graph(&[("a", &["x"]), ("b", &["y"])]));
    let message = report.raise_if_errors().expect_err("must fail").to_string();
    assert!(message.contains("x") && message.contains("y"), "{message}");
    assert!(!report.is_empty());
    assert!(ValidationReport::new().is_empty());
}

fn populated() -> OrchestrationRegistry {
    let mut registry = OrchestrationRegistry::new();
    registry.register_saga(
        Saga::new("orderSaga")
            .step(Step::new("reserve"))
            .step(Step::new("charge")),
    );
    registry.register_workflow(
        Workflow::new("approval")
            .node(Node::new("submit"))
            .node(Node::new("approve").depends_on(texts(&["submit"]))),
    );
    registry.register_tcc(Tcc::new("transfer").participant(TccParticipant::new("debit")));
    registry
}

#[test]
fn names_are_listed_sorted() {
    let mut registry = populated();
    registry.register_saga(Saga::new("aSaga"));
    assert_eq!(registry.saga_names(), ["aSaga", "orderSaga"]);
    assert_eq!(registry.workflow_names(), ["approval"]);
    assert_eq!(registry.tcc_names(), ["transfer"]);
}

#[test]
fn lookup_returns_registered_definition() {
    let registry = populated();
    assert_eq!(
        registry.saga("orderSaga").expect("present").step_names(),
        ["reserve", "charge"]
    );
    assert!(registry.saga("missing").is_none());
    assert!(registry.workflow("approval").is_some());
    assert!(registry.tcc("transfer").is_some());
}

#[test]
fn reregistering_replaces_definition() {
    let mut registry = populated();
    registry.register_saga(Saga::new("orderSaga").step(Step::new("only")));
    assert_eq!(
        registry.saga("orderSaga").expect("present").step_names(),
        ["only"]
    );
    assert_eq!(registry.saga_names().len(), 1);
}

#[test]
fn definitions_lists_every_pattern() {
    let registry = populated();
    let defs = registry.definitions();
    assert_eq!(defs.len(), 3);
    assert_eq!(defs[0].pattern, ExecutionPattern::Saga);
    assert_eq!(defs[0].steps, ["reserve", "charge"]);
    assert_eq!(defs[1].pattern, ExecutionPattern::Workflow);
    assert_eq!(defs[2].pattern, ExecutionPattern::Tcc);
    assert_eq!(defs[0].pattern.to_string(), "SAGA");
    assert_eq!(defs[0].name, "orderSaga");
}

fn outcome(status: SagaStatus, executed: &[&str], rolled: &[&str], error: Option<&str>) -> Outcome {
    Outcome {
        saga: "checkout".to_string(),
        status,
        steps_executed: texts(executed),
        steps_rolled: texts(rolled),
        error: error.map(|e| e.to_string()),
        started_at: Timestamp { secs: 100, nanos: 0 },
        finished_at: Timestamp { secs: 101, nanos: 250_000_000 },
    }
}

#[test]
fn from_completed_saga_outcome() {
    let outcome = outcome(SagaStatus::Completed, &["reserve", "charge"], &[], None);
    let report = ExecutionReport::from_saga_outcome("cid-1", &outcome);
    assert_eq!(report.name, "checkout");
    assert_eq!(report.pattern, ExecutionPattern::Saga);
    assert_eq!(report.correlation_id, "cid-1");
    assert_eq!(report.status, ExecutionStatus::Completed);
    assert!(report.successful());
    assert_eq!(
        report
            .steps
            .iter()
            .map(|s| s.step_id.as_str())
            .collect::<Vec<_>>(),
        ["reserve", "charge"]
    );
    assert!(report.compensations.is_empty());
    assert!(report.error.is_none());
    assert_eq!(report.duration_ms, 1250);
}

#[test]
fn from_compensated_saga_outcome() {
    let outcome = outcome(
        SagaStatus::Compensated,
        &["reserve"],
        &["reserve"],
        Some("step \"charge\": declined"),
    );
    let report = ExecutionReport::from_saga_outcome("cid-2", &outcome);
    assert_eq!(report.status, ExecutionStatus::Compensated);
    assert!(!report.successful());
    assert_eq!(report.steps.len(), 1);
    assert_eq!(
        format!("{:?}", report.steps[0]),
        format!("{:?}", StepReport::done("reserve"))
    );
    assert_eq!(report.compensations.len(), 1);
    assert_eq!(report.compensations[0].step_id, "reserve");
    assert_eq!(report.compensations[0].status, StepStatus::Compensated);
}

#[test]
fn failed_saga_outcome_is_not_successful() {
    let outcome = outcome(SagaStatus::Failed, &["reserve"], &[], Some("saga cancelled"));
    let report = ExecutionReport::from_saga_outcome("c", &outcome);
    assert_eq!(report.status, ExecutionStatus::Failed);
    assert!(!report.successful());
    assert_eq!(report.error.as_deref(), Some("saga cancelled"));
}

#[test]
fn from_state_carries_header_fields() {
    let mut state = ExecutionState::new("cid-3", "order", ExecutionPattern::Workflow);
    let mut payload: TextMap<Value> = TextMap::new();
    payload.insert("amount".to_string(), Value::Number(Number::PosInt(100)));
    state.payload = Value::Object(payload);
    state.transition(ExecutionStatus::Completed);
    let report = ExecutionReport::from_state(&state);
    assert_eq!(report.name, "order");
    assert_eq!(report.pattern, ExecutionPattern::Workflow);
    assert_eq!(report.status, ExecutionStatus::Completed);
    assert!(report.completed_at.is_some());
    assert!(report
        .variables
        .get("amount")
        .unwrap()
        .equals(&Value::Number(Number::PosInt(100))));
}

#[test]
fn keyed_maps_stay_sorted() {
    let mut map: TextMap<u64> = TextMap::new();
    map.insert("b".to_string(), 2);
    map.insert("a".to_string(), 1);
    map.insert("b".to_string(), 3);
    assert_eq!(map.keys(), ["a", "b"]);
    assert_eq!(map.get("b"), Some(&3));
    assert_eq!(map.remove("a"), Some(1));
    assert_eq!(map.remove("a"), None);
    assert_eq!(map.len(), 1);
}
