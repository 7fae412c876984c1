use firefly_orchestration::model::TccPhase;
use firefly_orchestration::observability::{
    CompositeOrchestrationEvents, Hist, OrchestrationMetrics, OrchestrationTracer,
};
use firefly_orchestration::value::{Number, Value};

fn bits(value: f64) -> u64 {
    value.to_bits()
}

fn at<'a>(value: &'a Value, path: &[&str]) -> &'a Value {
    let mut here = value;
    for key in path {
        here = here.get(key).unwrap_or_else(|| panic!("no {key}"));
    }
    here
}

fn is_count(value: &Value, n: u64) -> bool {
    value.equals(&Value::Number(Number::PosInt(n)))
}

#[test]
fn composite_fans_out_to_all_delegates() {
    let mut composite = CompositeOrchestrationEvents::new().with("a").with("b");
    assert_eq!(composite.len(), 2);
    assert_eq!(composite.delegates, ["a", "b"]);
    composite.add("c");
    assert_eq!(composite.len(), 3);
    assert!(!composite.is_empty());
}

#[test]
fn metrics_records_executions_and_steps() {
    let mut metrics = OrchestrationMetrics::new();
    metrics.on_start("checkout");
    metrics.on_step_started("checkout", "reserve");
    metrics.on_step_success("checkout", "reserve", bits(12.0));
    metrics.on_completed("checkout", true, bits(30.0));
    let snap = metrics.snapshot();
    assert!(is_count(at(&snap, &["executions", "checkout", "started"]), 1));
    assert!(is_count(at(&snap, &["executions", "checkout", "completed"]), 1));
    assert!(is_count(at(&snap, &["steps", "checkout.reserve", "succeeded"]), 1));
    assert!(at(&snap, &["steps", "checkout.reserve", "p50_ms"])
        .equals(&Value::Number(Number::Float(bits(12.0)))));
}

#[test]
fn metrics_records_failures_and_compensations() {
    let mut metrics = OrchestrationMetrics::new();
    metrics.on_step_failed("s", "charge", bits(5.0));
    metrics.on_step_compensated("s", "reserve", false);
    metrics.on_step_compensated("s", "auth", true);
    metrics.on_completed("s", false, bits(9.0));
    metrics.on_dead_lettered();
    let snap = metrics.snapshot();
    assert!(is_count(at(&snap, &["executions", "s", "failed"]), 1));
    assert!(is_count(at(&snap, &["steps", "s.charge", "failed"]), 1));
    assert!(is_count(at(&snap, &["compensations", "s.reserve"]), 1));
    assert!(is_count(at(&snap, &["compensation_failures", "s.auth"]), 1));
    assert!(is_count(at(&snap, &["dead_letters"]), 1));
    assert_eq!(metrics.dead_letters(), 1);
}

#[test]
fn metrics_counts_tcc_phases() {
    let mut metrics = OrchestrationMetrics::new();
    metrics.on_phase_started(TccPhase::Try);
    metrics.on_phase_started(TccPhase::Confirm);
    metrics.on_phase_started(TccPhase::Try);
    let snap = metrics.snapshot();
    assert!(is_count(at(&snap, &["tcc_phases", "TRY"]), 2));
    assert!(is_count(at(&snap, &["tcc_phases", "CONFIRM"]), 1));
}

#[test]
fn histogram_percentiles() {
    let mut h = Hist::new();
    for v in 1..=100 {
        h.add(bits(v as f64));
    }
    assert_eq!(h.count, 100);
    // p50 is the sample at place 50, p95 that at place 95.
    assert_eq!(h.percentile(50), bits(51.0));
    assert_eq!(h.percentile(95), bits(96.0));
}

#[test]
fn histogram_keeps_recent_samples() {
    let mut h = Hist::new();
    for v in 0..1500 {
        h.add(bits(v as f64));
    }
    assert_eq!(h.count, 1500);
    assert_eq!(h.samples.len(), 1000);
    assert_eq!(h.percentile(0), bits(500.0));
    assert_eq!(h.percentile(100), bits(1499.0));
    assert_eq!(Hist::new().percentile(50), bits(0.0));
}

#[test]
fn histogram_orders_negative_samples() {
    let mut h = Hist::new();
    for v in [3.5, -2.0, 0.0, -7.25] {
        h.add(bits(v));
    }
    assert_eq!(h.percentile(0), bits(-7.25));
    assert_eq!(h.percentile(25), bits(-2.0));
    assert_eq!(h.percentile(75), bits(3.5));
}

#[test]
fn tracer_disabled_is_noop() {
    let tracer = OrchestrationTracer::disabled();
    assert!(!tracer.is_enabled());
    let guard = tracer.span("step");
    assert!(guard.tags.is_none());
}

#[test]
fn tracer_enabled_emits_span() {
    let tracer = OrchestrationTracer::new("svc");
    assert!(tracer.is_enabled());
    assert_eq!(tracer.service_name(), "svc");
    let guard = tracer.span("step");
    assert_eq!(guard.tags, Some(("svc".to_string(), "step".to_string())));
}
