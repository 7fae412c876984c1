use std::any::TypeId;

use firefly_orchestration::extension::{extension_point, ExtensionError, ExtensionPoint, ExtensionRegistry};
use firefly_orchestration::manager::PluginManager;
use firefly_orchestration::plugins::{
    finish_start, finish_stop, Plugin, PluginError, PluginState, RegisteredPlugin, Registry,
    VERSION,
};
use firefly_orchestration::resolve::{topological_order, ResolutionError};

fn texts(list: &[&str]) -> Vec<String> {
    list.iter().map(|s| s.to_string()).collect()
}

fn node(name: &str, deps: &[&str]) -> (String, Vec<String>) {
    (name.to_string(), texts(deps))
}

fn names(nodes: &[(String, Vec<String>)], order: &[usize]) -> Vec<String> {
    order.iter().map(|&i| nodes[i].0.clone()).collect()
}

#[test]
fn plugin_version_stamp() {
    assert_eq!(VERSION, "26.6.10");
}

#[test]
fn no_dependencies_preserves_registration_order() {
    let nodes = vec![node("c", &[]), node("a", &[]), node("b", &[])];
    let order = topological_order(&nodes).expect("order");
    assert_eq!(names(&nodes, &order), vec!["c", "a", "b"]);
}

#[test]
fn dependency_starts_before_dependent() {
    let nodes = vec![node("b", &["a"]), node("a", &[])];
    let order = topological_order(&nodes).expect("order");
    assert_eq!(names(&nodes, &order), vec!["a", "b"]);
}

#[test]
fn chain_a_b_c() {
    let nodes = vec![node("c", &["b"]), node("a", &[]), node("b", &["a"])];
    let order = topological_order(&nodes).expect("order");
    assert_eq!(names(&nodes, &order), vec!["a", "b", "c"]);
}

#[test]
fn missing_dependency_is_rejected() {
    let nodes = vec![node("b", &["a"])];
    let err = topological_order(&nodes).expect_err("missing dep");
    match err {
        ResolutionError::MissingDependency { plugin, missing } => {
            assert_eq!(plugin, "b");
            assert_eq!(missing, "a");
        }
        other => panic!("unexpected: {}", other.to_string()),
    }
}

#[test]
fn cycle_is_rejected() {
    let nodes = vec![node("a", &["b"]), node("b", &["a"])];
    let err = topological_order(&nodes).expect_err("cycle");
    assert!(matches!(err, ResolutionError::Cycle));
}

#[test]
fn independent_ties_break_by_registration_order() {
    let nodes = vec![
        node("a", &[]),
        node("b", &[]),
        node("c", &[]),
        node("d", &["a"]),
    ];
    let order = topological_order(&nodes).expect("order");
    assert_eq!(names(&nodes, &order), vec!["a", "b", "c", "d"]);
}

#[test]
fn lowest_registration_goes_first_once_ready() {
    // b waits for d; once d has started, b goes before e.
    let nodes = vec![
        node("a", &[]),
        node("b", &["d"]),
        node("d", &[]),
        node("e", &[]),
    ];
    let order = topological_order(&nodes).expect("order");
    assert_eq!(names(&nodes, &order), vec!["a", "d", "b", "e"]);
}

struct Stub {
    name: &'static str,
}

impl Plugin for Stub {
    fn name(&self) -> &str {
        self.name
    }
}

#[test]
fn default_depends_on_is_empty() {
    let stub = Stub { name: "a" };
    assert_eq!(stub.name(), "a");
    assert!(stub.depends_on().is_empty());
}

#[test]
fn plugin_state_string_forms() {
    assert_eq!(PluginState::Loaded.as_str(), "LOADED");
    assert_eq!(PluginState::Started.as_str(), "STARTED");
    assert_eq!(PluginState::Stopped.as_str(), "STOPPED");
    assert_eq!(PluginState::Failed.as_str(), "FAILED");
    assert_eq!(PluginState::Started.to_string(), "STARTED");
}

#[test]
fn registry_default_is_empty() {
    let registry = Registry::new();
    assert!(registry.names().is_empty());
}

#[test]
fn send_sync_bounds() {
    fn assert_send_sync<T: Send + Sync>() {}
    assert_send_sync::<Registry>();
    assert_send_sync::<PluginError>();
    assert_send_sync::<PluginState>();
    assert_send_sync::<ResolutionError>();
}

#[test]
fn send_sync() {
    fn assert_send_sync<T: Send + Sync>() {}
    assert_send_sync::<ExtensionRegistry>();
    assert_send_sync::<ExtensionPoint>();
}

fn plugin(name: &str, deps: &[&str], hooks: u64) -> RegisteredPlugin {
    RegisteredPlugin {
        name: name.to_string(),
        depends_on: texts(deps),
        hooks,
    }
}

fn registry_of(plugins: &[(&str, &[&str])]) -> Registry {
    let mut registry = Registry::new();
    for (i, (name, deps)) in plugins.iter().enumerate() {
        registry.register(plugin(name, deps, i as u64));
    }
    registry
}

fn outcome_of(name: &str, failing: &[(&str, &str)]) -> Result<(), String> {
    match failing.iter().find(|f| f.0 == name) {
        Some((_, message)) => Err(message.to_string()),
        None => Ok(()),
    }
}

fn stop(registry: &mut Registry, failing: &[(&str, &str)], log: &mut Vec<String>) -> Vec<PluginError> {
    let mut stops: Vec<PluginError> = Vec::new();
    while let Some(handle) = registry.next_stop() {
        log.push(format!("stop:{}", handle.name));
        let outcome = outcome_of(&handle.name, failing);
        registry.stop_tried(&handle, outcome, &mut stops);
    }
    stops
}

fn start_all(
    registry: &mut Registry,
    failing: &[(&str, &str)],
    stuck: &[(&str, &str)],
    log: &mut Vec<String>,
) -> Result<(), PluginError> {
    let mut sweep = registry.start_all()?;
    while let Some(handle) = registry.next_start(&sweep) {
        log.push(format!("start:{}", handle.name));
        let outcome = outcome_of(&handle.name, failing);
        registry.start_tried(&mut sweep, outcome);
    }
    let stops = if sweep.failure.is_some() {
        stop(registry, stuck, log)
    } else {
        Vec::new()
    };
    finish_start(sweep, stops)
}

fn stop_all(registry: &mut Registry, stuck: &[(&str, &str)], log: &mut Vec<String>) -> Result<(), PluginError> {
    let stops = stop(registry, stuck, log);
    finish_stop(stops)
}

#[test]
fn registry_start_stop() {
    let mut registry = registry_of(&[("a", &[]), ("b", &[])]);
    let mut log: Vec<String> = Vec::new();
    start_all(&mut registry, &[], &[], &mut log).expect("start_all");
    stop_all(&mut registry, &[], &mut log).expect("stop_all");
    assert_eq!(log, ["start:a", "start:b", "stop:b", "stop:a"]);
}

#[test]
fn registry_rollback_on_start_failure() {
    let mut registry = registry_of(&[("a", &[]), ("b", &[])]);
    let mut log: Vec<String> = Vec::new();
    let out = start_all(&mut registry, &[("b", "boom")], &[], &mut log);
    assert!(out.is_err());
    assert_eq!(log, ["start:a", "start:b", "stop:a"]);
}

#[test]
fn registry_replace_by_name() {
    let registry = registry_of(&[("a", &[]), ("a", &[])]);
    assert_eq!(registry.names().len(), 1);
}

#[test]
fn start_failure_error_message_names_the_plugin() {
    let mut registry = registry_of(&[("b", &[])]);
    let err = start_all(&mut registry, &[("b", "boom")], &[], &mut Vec::new())
        .expect_err("expected failure");
    assert_eq!(err.to_string(), "plugin \"b\" start: boom");
    assert!(matches!(err, PluginError::Start { .. }));
}

#[test]
fn stop_all_joins_errors_in_reverse_order() {
    let mut registry = registry_of(&[("a", &[]), ("b", &[])]);
    start_all(&mut registry, &[], &[], &mut Vec::new()).expect("start_all");
    let err = stop_all(
        &mut registry,
        &[("a", "ouch-a"), ("b", "ouch-b")],
        &mut Vec::new(),
    )
    .expect_err("expected failure");
    assert_eq!(
        err.to_string(),
        "plugin \"b\" stop: ouch-b\nplugin \"a\" stop: ouch-a"
    );
    assert!(matches!(&err, PluginError::Aggregate(errs) if errs.len() == 2));
}

#[test]
fn single_stop_failure_is_not_aggregated() {
    let mut registry = registry_of(&[("a", &[]), ("b", &[])]);
    start_all(&mut registry, &[], &[], &mut Vec::new()).expect("start_all");
    let err = stop_all(&mut registry, &[("b", "ouch")], &mut Vec::new()).expect_err("failure");
    assert!(matches!(err, PluginError::Stop { .. }));
    assert_eq!(err.to_string(), "plugin \"b\" stop: ouch");
}

#[test]
fn rollback_failure_joins_start_and_stop_errors() {
    let mut registry = registry_of(&[("a", &[]), ("b", &[])]);
    let err = start_all(
        &mut registry,
        &[("b", "boom")],
        &[("a", "ouch")],
        &mut Vec::new(),
    )
    .expect_err("failure");
    assert_eq!(
        err.to_string(),
        "plugin \"b\" start: boom\nplugin \"a\" stop: ouch"
    );
    assert!(matches!(&err, PluginError::Aggregate(errs) if errs.len() == 2));
}

#[test]
fn stop_all_without_start_is_noop() {
    let mut registry = registry_of(&[("a", &[])]);
    let mut log: Vec<String> = Vec::new();
    stop_all(&mut registry, &[], &mut log).expect("stop_all");
    assert!(log.is_empty());
}

#[test]
fn stop_all_clears_started_list() {
    let mut registry = registry_of(&[("a", &[])]);
    let mut log: Vec<String> = Vec::new();
    start_all(&mut registry, &[], &[], &mut log).expect("start_all");
    stop_all(&mut registry, &[], &mut log).expect("first stop_all");
    stop_all(&mut registry, &[], &mut log).expect("second stop_all");
    assert_eq!(log, ["start:a", "stop:a"]);
}

#[test]
fn start_all_can_run_again_after_stop_all() {
    let mut registry = registry_of(&[("a", &[])]);
    let mut log: Vec<String> = Vec::new();
    start_all(&mut registry, &[], &[], &mut log).expect("first start_all");
    stop_all(&mut registry, &[], &mut log).expect("stop_all");
    start_all(&mut registry, &[], &[], &mut log).expect("second start_all");
    assert_eq!(log, ["start:a", "stop:a", "start:a"]);
}

#[test]
fn replace_by_name_keeps_position_and_uses_latest() {
    let mut registry = registry_of(&[("a", &[]), ("b", &[])]);
    registry.register(plugin("a", &[], 7));
    assert_eq!(registry.names(), vec!["a", "b"]);
    let sweep = registry.start_all().expect("order");
    assert_eq!(sweep.queue[0].hooks, 7);
    assert_eq!(sweep.queue[1].hooks, 1);
}

#[test]
fn names_returns_registration_order() {
    let registry = registry_of(&[("c", &[]), ("a", &[]), ("b", &[])]);
    assert_eq!(registry.names(), vec!["c", "a", "b"]);
}

#[test]
fn start_all_orders_by_dependencies() {
    let mut registry = registry_of(&[("c", &["b"]), ("a", &[]), ("b", &["a"])]);
    let mut log: Vec<String> = Vec::new();
    start_all(&mut registry, &[], &[], &mut log).expect("start_all");
    stop_all(&mut registry, &[], &mut log).expect("stop_all");
    assert_eq!(
        log,
        ["start:a", "start:b", "start:c", "stop:c", "stop:b", "stop:a"]
    );
}

#[test]
fn start_all_rejects_missing_dependency() {
    let mut registry = registry_of(&[("b", &["a"])]);
    let mut log: Vec<String> = Vec::new();
    let err = start_all(&mut registry, &[], &[], &mut log).expect_err("missing dep");
    assert!(matches!(
        err,
        PluginError::Resolution(ResolutionError::MissingDependency { .. })
    ));
    assert!(log.is_empty());
    assert_eq!(
        err.to_string(),
        "plugin \"b\" depends on missing plugin \"a\""
    );
}

#[test]
fn start_all_rejects_cycle() {
    let mut registry = registry_of(&[("a", &["b"]), ("b", &["a"])]);
    let mut log: Vec<String> = Vec::new();
    let err = start_all(&mut registry, &[], &[], &mut log).expect_err("cycle");
    assert!(matches!(err, PluginError::Resolution(ResolutionError::Cycle)));
    assert_eq!(err.to_string(), "plugin dependency cycle detected");
    assert!(log.is_empty());
}

#[test]
fn state_transitions_through_lifecycle() {
    let mut registry = registry_of(&[("a", &[])]);
    assert_eq!(registry.state("a"), Some(PluginState::Loaded));
    assert_eq!(registry.state("missing"), None);
    start_all(&mut registry, &[], &[], &mut Vec::new()).expect("start_all");
    assert_eq!(registry.state("a"), Some(PluginState::Started));
    stop_all(&mut registry, &[], &mut Vec::new()).expect("stop_all");
    assert_eq!(registry.state("a"), Some(PluginState::Stopped));
}

#[test]
fn failed_start_marks_failed_state() {
    let mut registry = registry_of(&[("b", &[])]);
    let _ = start_all(&mut registry, &[("b", "boom")], &[], &mut Vec::new());
    assert_eq!(registry.state("b"), Some(PluginState::Failed));
}

#[test]
fn failed_stop_marks_failed_state() {
    let mut registry = registry_of(&[("a", &[])]);
    start_all(&mut registry, &[], &[], &mut Vec::new()).expect("start_all");
    let _ = stop_all(&mut registry, &[("a", "ouch")], &mut Vec::new());
    assert_eq!(registry.state("a"), Some(PluginState::Failed));
}

type Manager = PluginManager<ExtensionRegistry>;

fn manager_of(plugins: &[(&str, &[&str])]) -> Manager {
    let mut manager = PluginManager::new();
    for (i, (id, deps)) in plugins.iter().enumerate() {
        manager.add(id, texts(deps), i as u64);
    }
    manager
}

fn run_start(manager: &mut Manager, plan: Vec<String>, failing: &[(&str, &str)], log: &mut Vec<String>) -> Result<(), PluginError> {
    for id in plan {
        if manager.start_hook(&id).is_some() {
            log.push(id.clone());
            manager.start_ran(&id, outcome_of(&id, failing))?;
        }
    }
    Ok(())
}

fn run_stop(manager: &mut Manager, plan: Vec<String>, failing: &[(&str, &str)], log: &mut Vec<String>) -> Result<(), PluginError> {
    for id in plan {
        if manager.stop_hook(&id).is_some() {
            log.push(id.clone());
            manager.stop_ran(&id, outcome_of(&id, failing))?;
        }
    }
    Ok(())
}

fn start_managed(manager: &mut Manager, log: &mut Vec<String>) -> Result<(), PluginError> {
    let plan = manager.start_all()?;
    run_start(manager, plan, &[], log)?;
    manager.mark_started(true);
    Ok(())
}

fn stop_managed(manager: &mut Manager, log: &mut Vec<String>) -> Result<(), PluginError> {
    let plan = manager.stop_all()?;
    run_stop(manager, plan, &[], log)?;
    manager.mark_started(false);
    Ok(())
}

fn state_of(manager: &Manager, id: &str) -> PluginState {
    manager.get_plugin(id).expect("present").state
}

#[test]
fn lifecycle_in_dependency_order() {
    let mut manager = manager_of(&[("a", &[]), ("b", &["a"])]);
    let mut starts: Vec<String> = Vec::new();
    let mut stops: Vec<String> = Vec::new();
    start_managed(&mut manager, &mut starts).unwrap();
    stop_managed(&mut manager, &mut stops).unwrap();
    assert_eq!(starts, vec!["a", "b"]);
    assert_eq!(stops, vec!["b", "a"]);
}

#[test]
fn start_plugin_cascades_dependencies() {
    let mut manager = manager_of(&[("a", &[]), ("b", &["a"]), ("c", &["b"]), ("x", &[])]);
    let mut log: Vec<String> = Vec::new();
    let plan = manager.start_plugin("c").unwrap();
    run_start(&mut manager, plan, &[], &mut log).unwrap();
    assert_eq!(log, vec!["a", "b", "c"]);
    for id in ["a", "b", "c"] {
        assert_eq!(state_of(&manager, id), PluginState::Started);
    }
    assert_eq!(state_of(&manager, "x"), PluginState::Loaded);
}

#[test]
fn start_plugin_skips_already_started() {
    let mut manager = manager_of(&[("a", &[]), ("b", &["a"]), ("c", &["b"])]);
    let mut log: Vec<String> = Vec::new();
    let plan = manager.start_plugin("a").unwrap();
    run_start(&mut manager, plan, &[], &mut log).unwrap();
    log.clear();
    let plan = manager.start_plugin("c").unwrap();
    run_start(&mut manager, plan, &[], &mut log).unwrap();
    assert_eq!(log, vec!["b", "c"]);
}

#[test]
fn stop_plugin_cascades_dependents() {
    let mut manager = manager_of(&[("a", &[]), ("b", &["a"]), ("c", &["b"])]);
    let mut log: Vec<String> = Vec::new();
    let plan = manager.start_plugin("c").unwrap();
    run_start(&mut manager, plan, &[], &mut log).unwrap();
    log.clear();
    let plan = manager.stop_plugin("a").unwrap();
    run_stop(&mut manager, plan, &[], &mut log).unwrap();
    assert_eq!(log, vec!["c", "b", "a"]);
    for id in ["a", "b", "c"] {
        assert_eq!(state_of(&manager, id), PluginState::Stopped);
    }
}

#[test]
fn failed_start_sets_failed_state() {
    let mut manager = manager_of(&[("bad", &[])]);
    let plan = manager.start_plugin("bad").unwrap();
    let err = run_start(&mut manager, plan, &[("bad", "kaboom")], &mut Vec::new())
        .expect_err("should fail");
    assert!(matches!(err, PluginError::Start { .. }));
    let desc = manager.get_plugin("bad").unwrap();
    assert_eq!(desc.state, PluginState::Failed);
    assert_eq!(desc.failed_reason.as_deref(), Some("kaboom"));
}

#[test]
fn get_plugin_returns_none_for_unknown() {
    assert!(manager_of(&[]).get_plugin("nope").is_none());
}

#[test]
fn start_plugin_unknown_errors() {
    assert!(matches!(
        manager_of(&[]).start_plugin("ghost"),
        Err(PluginError::Resolution(_))
    ));
}

#[test]
fn stop_plugin_unknown_errors() {
    assert!(matches!(
        manager_of(&[]).stop_plugin("ghost"),
        Err(PluginError::Resolution(_))
    ));
}

#[test]
fn start_all_and_stop_all_set_state() {
    let mut manager = manager_of(&[("s1", &[]), ("s2", &["s1"])]);
    start_managed(&mut manager, &mut Vec::new()).unwrap();
    for id in ["s1", "s2"] {
        assert_eq!(state_of(&manager, id), PluginState::Started);
    }
    stop_managed(&mut manager, &mut Vec::new()).unwrap();
    for id in ["s1", "s2"] {
        assert_eq!(state_of(&manager, id), PluginState::Stopped);
    }
}

#[test]
fn start_all_does_not_double_run_already_started() {
    let mut manager = manager_of(&[("p1", &[]), ("p2", &["p1"])]);
    let mut log: Vec<String> = Vec::new();
    let plan = manager.start_plugin("p1").unwrap();
    run_start(&mut manager, plan, &[], &mut log).unwrap();
    assert_eq!(log, vec!["p1"]);
    start_managed(&mut manager, &mut log).unwrap();
    assert_eq!(log, vec!["p1", "p2"]);
    start_managed(&mut manager, &mut log).unwrap();
    assert_eq!(log, vec!["p1", "p2"]);
}

#[test]
fn remove_unknown_returns_false() {
    assert!(!manager_of(&[]).remove("nope"));
}

#[test]
fn remove_stops_started_plugin_and_forgets_it() {
    let mut manager = manager_of(&[("x", &[])]);
    assert!(manager.removal_hook("x").is_none());
    start_managed(&mut manager, &mut Vec::new()).unwrap();
    assert_eq!(manager.removal_hook("x"), Some(0));
    assert!(manager.remove("x"));
    assert!(manager.get_plugin("x").is_none());
    assert!(manager.list_plugins().is_empty());
}

#[test]
fn unload_all_clears_manager() {
    let mut manager = manager_of(&[("p1", &[]), ("p2", &["p1"])]);
    start_managed(&mut manager, &mut Vec::new()).unwrap();
    let plan = manager.unload_all().unwrap();
    assert_eq!(plan, vec!["p2", "p1"]);
    for id in plan {
        assert!(manager.remove(&id));
    }
    manager.mark_started(false);
    assert!(manager.list_plugins().is_empty());
}

#[test]
fn cycle_is_rejected_by_start_all() {
    assert!(matches!(
        manager_of(&[("a", &["b"]), ("b", &["a"])]).start_all(),
        Err(PluginError::Resolution(ResolutionError::Cycle))
    ));
}

#[test]
fn descriptor_captures_depends_on_and_loaded_at() {
    let manager = manager_of(&[("b", &["a"])]);
    let desc = manager.get_plugin("b").unwrap();
    assert_eq!(desc.id, "b");
    assert_eq!(desc.depends_on, vec!["a".to_owned()]);
    assert_eq!(desc.state, PluginState::Loaded);
    assert_eq!(desc.loaded_at, desc.last_state_change);
    assert!(desc.loaded_at.secs > 0);
}

#[test]
fn shared_registry_is_accessible() {
    let shared = std::sync::Arc::new(5u8);
    let manager = PluginManager::with_registry(shared.clone());
    assert!(std::sync::Arc::ptr_eq(manager.registry(), &shared));
}

struct English;
struct NotAGreeter;

#[test]
fn register_point_then_validate() {
    let mut reg = ExtensionRegistry::new();
    reg.register_extension_point("greeters", extension_point::<English>());
    assert!(reg.has_extension_point("greeters"));
    assert_eq!(reg.extension_point_ids(), ["greeters"]);
    reg.register("greeters", TypeId::of::<English>(), 1)
        .expect("conforms");
    assert_eq!(reg.get("greeters").len(), 1);
    let err = reg
        .register("greeters", TypeId::of::<NotAGreeter>(), 2)
        .expect_err("mismatch");
    assert!(matches!(&err, ExtensionError::DoesNotImplement(id) if id == "greeters"));
    assert_eq!(
        err.to_string(),
        "extension does not implement extension point \"greeters\""
    );
}

#[test]
fn extension_points_carry_their_type() {
    assert_eq!(extension_point::<English>().type_id(), TypeId::of::<English>());
    assert_ne!(
        extension_point::<English>().type_id(),
        extension_point::<dyn Send>().type_id()
    );
}

#[test]
fn unknown_point_is_lenient() {
    let mut reg = ExtensionRegistry::new();
    reg.register("freeform", TypeId::of::<English>(), 1)
        .expect("lenient");
    assert_eq!(reg.get("freeform").len(), 1);
    assert!(!reg.has_extension_point("freeform"));
}

#[test]
fn priority_orders_descending_ties_insertion() {
    let mut reg = ExtensionRegistry::new();
    let int = TypeId::of::<i32>();
    reg.register_with_priority("p", int, 1, 5).unwrap();
    reg.register_with_priority("p", int, 2, 10).unwrap();
    reg.register_with_priority("p", int, 3, 5).unwrap();
    assert_eq!(reg.get_as("p", int), vec![2, 1, 3]);
    assert!(reg.get_as("p", TypeId::of::<u8>()).is_empty());
}

#[test]
fn get_extension_returns_highest_priority() {
    let mut reg = ExtensionRegistry::new();
    reg.register_extension_point("greeters", extension_point::<English>());
    reg.register("greeters", TypeId::of::<English>(), 4).unwrap();
    assert_eq!(reg.get_extension("greeters").expect("extension"), 4);
}

#[test]
fn get_extension_unknown_point_errors() {
    let reg = ExtensionRegistry::new();
    let err = reg.get_extension("nope").expect_err("unknown");
    assert!(matches!(&err, ExtensionError::PointNotRegistered(id) if id == "nope"));
    assert_eq!(err.to_string(), "extension point \"nope\" is not registered");
}

#[test]
fn get_extension_empty_point_errors() {
    let mut reg = ExtensionRegistry::new();
    reg.register_extension_point("empty", extension_point::<English>());
    let err = reg.get_extension("empty").expect_err("empty");
    assert!(matches!(&err, ExtensionError::NoExtensions(id) if id == "empty"));
    assert_eq!(
        err.to_string(),
        "extension point \"empty\" has no registered extensions"
    );
}

#[test]
fn unregister_removes_instance() {
    let mut reg = ExtensionRegistry::new();
    reg.register("things", TypeId::of::<English>(), 9).unwrap();
    assert_eq!(reg.get("things").len(), 1);
    assert_eq!(reg.points(), ["things"]);
    assert!(reg.unregister("things", 9));
    assert!(reg.get("things").is_empty());
    assert!(!reg.unregister("things", 9));
    assert!(reg.points().is_empty());
}
