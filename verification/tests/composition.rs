use firefly_orchestration::saga::{Outcome, SagaStatus};
use firefly_orchestration::saga_composition::{
    compute_layers, CompositionError, CompositionStage, CompositionValidator, SagaComposition,
    SagaCompositionBuilder, SagaCompositor,
};
use firefly_orchestration::step_context::StepContext;
use firefly_orchestration::text_map::TextMap;
use firefly_orchestration::time::Timestamp;
use firefly_orchestration::value::{Number, Value};

fn value_of(json: &serde_json::Value) -> Value {
    match json {
        serde_json::Value::Null => Value::Null,
        serde_json::Value::Bool(b) => Value::Bool(*b),
        serde_json::Value::Number(n) => Value::Number(match (n.as_u64(), n.as_i64()) {
            (Some(u), _) => Number::PosInt(u),
            (None, Some(i)) => Number::NegInt(i),
            (None, None) => Number::Float(n.as_f64().unwrap().to_bits()),
        }),
        serde_json::Value::String(s) => Value::String(s.clone()),
        serde_json::Value::Array(items) => Value::Array(items.iter().map(value_of).collect()),
        serde_json::Value::Object(fields) => {
            let mut map: TextMap<Value> = TextMap::new();
            for (key, item) in fields {
                map.insert(key.clone(), value_of(item));
            }
            Value::Object(map)
        }
    }
}

fn json(text: &str) -> Value {
    value_of(&serde_json::from_str(text).unwrap())
}

fn texts(list: &[&str]) -> Vec<String> {
    list.iter().map(|s| s.to_string()).collect()
}

fn outcome(saga: &str, status: SagaStatus, error: Option<&str>) -> Outcome {
    Outcome {
        saga: saga.to_string(),
        status,
        steps_executed: Vec::new(),
        steps_rolled: Vec::new(),
        error: error.map(|e| e.to_string()),
        started_at: Timestamp { secs: 1, nanos: 0 },
        finished_at: Timestamp { secs: 2, nanos: 0 },
    }
}

#[test]
fn validator_rejects_empty() {
    let composition = SagaComposition {
        name: "c".into(),
        entries: TextMap::new(),
    };
    assert!(matches!(
        CompositionValidator::validate(&composition),
        Err(CompositionError::Empty { .. })
    ));
}

#[test]
fn validator_rejects_unknown_dependency() {
    let err = SagaCompositionBuilder::new("c")
        .saga("a")
        .depends_on(texts(&["ghost"]))
        .add()
        .build()
        .expect_err("ghost dep");
    assert!(matches!(err, CompositionError::UnknownDependency { .. }));
    assert!(err.to_string().contains("ghost"));
}

#[test]
fn validator_rejects_unknown_data_flow_source() {
    let err = SagaCompositionBuilder::new("c")
        .saga("a")
        .data_flow("ghost", None, None)
        .add()
        .build()
        .expect_err("ghost source");
    assert!(matches!(
        err,
        CompositionError::UnknownDataFlowSource { .. }
    ));
}

#[test]
fn validator_rejects_cycle() {
    let err = SagaCompositionBuilder::new("c")
        .saga("a")
        .depends_on(texts(&["b"]))
        .add()
        .saga("b")
        .depends_on(texts(&["a"]))
        .add()
        .build()
        .expect_err("cycle");
    assert!(matches!(err, CompositionError::Cycle { .. }));
}

#[test]
fn layers_follow_dependencies() {
    let composition = SagaCompositionBuilder::new("c")
        .saga("z")
        .add()
        .saga("a")
        .depends_on(texts(&["z"]))
        .add()
        .saga("b")
        .depends_on(texts(&["z"]))
        .add()
        .build()
        .expect("valid");
    let layers = compute_layers(&composition.deps()).expect("no cycle");
    assert_eq!(layers, vec![texts(&["z"]), texts(&["a", "b"])]);
}

#[test]
fn runs_sagas_in_dependency_order_with_data_flow() {
    let composition = SagaCompositionBuilder::new("checkout")
        .saga("reserve")
        .add()
        .saga("charge")
        .depends_on(texts(&["reserve"]))
        .data_flow("reserve", Some("hold"), None)
        .add()
        .build()
        .expect("valid");
    let compositor = SagaCompositor::new().register("reserve").register("charge");
    let mut run = compositor.begin(&composition, json("{}"));

    let first = compositor.next_layer(&composition, &mut run).expect("layer");
    assert_eq!(first.len(), 1);
    assert_eq!(first[0].saga, "reserve");
    assert!(first[0].registered);
    let mut results: TextMap<Value> = TextMap::new();
    results.insert("hold".to_string(), json(r#"{"reservation_id": "R-1"}"#));
    compositor.saga_finished(
        &composition,
        &mut run,
        outcome("reserve", SagaStatus::Completed, None),
        results,
    );

    let second = compositor.next_layer(&composition, &mut run).expect("layer");
    assert_eq!(second.len(), 1);
    assert_eq!(second[0].saga, "charge");
    let seen: Option<Value> = second[0].facts.input_field("reservation_id");
    assert!(seen.expect("flows").equals(&json(r#""R-1""#)));
    compositor.saga_finished(
        &composition,
        &mut run,
        outcome("charge", SagaStatus::Completed, None),
        TextMap::new(),
    );

    assert!(compositor.next_layer(&composition, &mut run).is_none());
    assert!(matches!(run.stage, CompositionStage::Ended));
    assert!(run.context.is_success());
    assert_eq!(*run.context.completed(), ["reserve", "charge"]);
    assert_eq!(run.context.correlation_id.len(), 36);
}

#[test]
fn compensates_completed_sagas_in_reverse_on_failure() {
    let composition = SagaCompositionBuilder::new("chain")
        .saga("a")
        .add()
        .saga("b")
        .depends_on(texts(&["a"]))
        .add()
        .saga("c")
        .depends_on(texts(&["b"]))
        .add()
        .build()
        .expect("valid");
    let compositor = SagaCompositor::new()
        .register_with_undo("a")
        .register_with_undo("b")
        .register("c");
    let mut run = compositor.begin_as(&composition, json("{}"), "cid".to_string());
    let mut undone: Vec<String> = Vec::new();
    while let CompositionStage::Running = run.stage {
        let tasks = match compositor.next_layer(&composition, &mut run) {
            Some(tasks) => tasks,
            None => break,
        };
        for task in tasks {
            let done = if task.saga == "c" {
                outcome("c", SagaStatus::Compensated, Some("boom"))
            } else {
                outcome(&task.saga, SagaStatus::Completed, None)
            };
            compositor.saga_finished(&composition, &mut run, done, TextMap::new());
        }
    }
    while let CompositionStage::Compensating = run.stage {
        match compositor.next_undo(&composition, &mut run) {
            Some(task) => {
                undone.push(task.saga);
                compositor.undone(&composition, &mut run);
            }
            None => break,
        }
    }
    assert!(!run.context.is_success());
    assert!(run.context.error.as_deref().unwrap().contains("c"));
    // a and b completed; c failed: roll back b and then a.
    assert_eq!(undone, ["b", "a"]);
    assert_eq!(*run.context.compensated(), ["b", "a"]);
}

#[test]
fn unregistered_saga_fails_the_composition() {
    let composition = SagaCompositionBuilder::new("c")
        .saga("ghost")
        .add()
        .build()
        .expect("valid");
    let compositor = SagaCompositor::new();
    let mut run = compositor.begin_as(&composition, json("null"), "cid".to_string());
    let tasks = compositor.next_layer(&composition, &mut run).expect("layer");
    assert!(!tasks[0].registered);
    let missing = SagaCompositor::unregistered_outcome(
        "ghost",
        Timestamp { secs: 1, nanos: 0 },
        Timestamp { secs: 1, nanos: 0 },
    );
    assert_eq!(missing.status, SagaStatus::Failed);
    compositor.saga_finished(&composition, &mut run, missing, TextMap::new());
    assert!(!run.context.is_success());
    assert!(run.context.completed().is_empty());
}

#[test]
fn siblings_of_a_failed_saga_are_rolled_back_too() {
    let composition = SagaCompositionBuilder::new("pair")
        .saga("a")
        .add()
        .saga("b")
        .add()
        .build()
        .expect("valid");
    let compositor = SagaCompositor::new()
        .register_with_undo("a")
        .register_with_undo("b");
    let mut run = compositor.begin_as(&composition, json("{}"), "cid".to_string());
    let tasks = compositor.next_layer(&composition, &mut run).expect("layer");
    assert_eq!(tasks.len(), 2);
    compositor.saga_finished(
        &composition,
        &mut run,
        outcome("a", SagaStatus::Compensated, Some("boom")),
        TextMap::new(),
    );
    compositor.saga_finished(
        &composition,
        &mut run,
        outcome("b", SagaStatus::Completed, None),
        TextMap::new(),
    );
    assert!(matches!(run.stage, CompositionStage::Compensating));
    assert_eq!(*run.context.completed(), ["b"]);
    let task = compositor.next_undo(&composition, &mut run).expect("undo b");
    assert_eq!(task.saga, "b");
    let facts: &StepContext = &task.facts;
    assert!(facts.results().is_empty());
    compositor.undone(&composition, &mut run);
    assert!(compositor.next_undo(&composition, &mut run).is_none());
    assert_eq!(*run.context.compensated(), ["b"]);
    assert!(run.context.error.as_deref().unwrap().contains("a"));
}
