use firefly_orchestration::cancel::CancellationToken;
use firefly_orchestration::model::{
    ExecutionPattern, ExecutionState, ExecutionStatus, RetryPolicy, StepStatus, TccPhase,
    TriggerMode,
};
use firefly_orchestration::saga::Saga;
use firefly_orchestration::tcc::Tcc;
use firefly_orchestration::time::{duration_ms, Delay, Span, Timestamp};
use firefly_orchestration::timer::TimerService;
use firefly_orchestration::value::Value;
use firefly_orchestration::workflow::Workflow;
use firefly_orchestration::VERSION;

#[test]
fn version_stamp() {
    assert_eq!(VERSION, "26.6.5");
}

#[test]
fn engines_are_send_and_sync() {
    fn assert_send_sync<T: Send + Sync>() {}
    assert_send_sync::<Saga>();
    assert_send_sync::<Workflow>();
    assert_send_sync::<Tcc>();
}

#[test]
fn token_starts_uncancelled_and_clones_share_state() {
    let token = CancellationToken::new();
    assert!(!token.is_cancelled());
    let clone = token.clone();
    token.cancel();
    assert!(token.is_cancelled());
    assert!(clone.is_cancelled());
    // Idempotent.
    token.cancel();
    assert!(token.is_cancelled());
}

#[test]
fn terminal_states_match_pyfly() {
    let terminal = [
        ExecutionStatus::Completed,
        ExecutionStatus::Failed,
        ExecutionStatus::Cancelled,
        ExecutionStatus::TimedOut,
        ExecutionStatus::Confirmed,
        ExecutionStatus::Canceled,
        ExecutionStatus::Compensated,
    ];
    for status in ExecutionStatus::ALL {
        assert_eq!(
            status.is_terminal(),
            terminal.contains(&status),
            "{}",
            status.to_string()
        );
    }
}

#[test]
fn running_and_pending_are_not_terminal() {
    assert!(!ExecutionStatus::Running.is_terminal());
    assert!(!ExecutionStatus::Pending.is_terminal());
}

#[test]
fn enum_wire_strings_match_pyfly() {
    assert_eq!(ExecutionPattern::Saga.to_string(), "SAGA");
    assert_eq!(ExecutionPattern::Workflow.to_string(), "WORKFLOW");
    assert_eq!(ExecutionPattern::Tcc.to_string(), "TCC");
    assert_eq!(TriggerMode::Sync.to_string(), "SYNC");
    assert_eq!(TriggerMode::Async.to_string(), "ASYNC");
    assert_eq!(
        StepStatus::CompensationFailed.to_string(),
        "COMPENSATION_FAILED"
    );
    assert_eq!(TccPhase::Try.to_string(), "TRY");
    assert_eq!(TccPhase::Confirm.to_string(), "CONFIRM");
    assert_eq!(TccPhase::Cancel.to_string(), "CANCEL");
    assert_eq!(ExecutionStatus::TimedOut.to_string(), "TIMED_OUT");
}

#[test]
fn status_parse_round_trips() {
    for status in ExecutionStatus::ALL {
        assert_eq!(ExecutionStatus::parse(status.as_str()), Some(status));
    }
    assert_eq!(ExecutionStatus::parse("NOPE"), None);
}

#[test]
fn pattern_parse_round_trips() {
    for pattern in [
        ExecutionPattern::Saga,
        ExecutionPattern::Workflow,
        ExecutionPattern::Tcc,
    ] {
        assert_eq!(ExecutionPattern::parse(pattern.as_str()), Some(pattern));
    }
    assert_eq!(ExecutionPattern::parse("saga"), None);
}

#[test]
fn retry_policy_defaults_and_custom() {
    let p = RetryPolicy::default();
    assert_eq!(p.max_attempts, 1);
    assert_eq!(p.backoff_ms, 0);
    let p = RetryPolicy {
        max_attempts: 3,
        backoff_ms: 100,
        timeout_ms: 5000,
        jitter: true,
    };
    assert_eq!(p.max_attempts, 3);
    assert_eq!(p.timeout_ms, 5000);
    assert!(p.jitter);
}

#[test]
fn transition_to_terminal_stamps_completed_at() {
    let mut state = ExecutionState::new("cid", "t", ExecutionPattern::Workflow);
    assert!(state.completed_at.is_none());
    state.transition(ExecutionStatus::Completed);
    assert!(state.completed_at.is_some());
    assert!(state.is_terminal());
}

#[test]
fn fresh_state_is_pending_with_an_empty_payload() {
    let now = Timestamp { secs: 1_700_000_000, nanos: 5 };
    let state = ExecutionState::new_at("cid", "t", ExecutionPattern::Tcc, now);
    assert_eq!(state.status, ExecutionStatus::Pending);
    assert_eq!(state.started_at, now);
    assert_eq!(state.updated_at, now);
    assert!(state.completed_at.is_none());
    assert!(matches!(&state.payload, Value::Object(fields) if fields.is_empty()));
}

#[test]
fn transition_keeps_completion_until_terminal() {
    let now = Timestamp { secs: 10, nanos: 0 };
    let later = Timestamp { secs: 20, nanos: 0 };
    let mut state = ExecutionState::new_at("cid", "t", ExecutionPattern::Saga, now);
    state.transition_at(ExecutionStatus::Running, later);
    assert_eq!(state.updated_at, later);
    assert_eq!(state.started_at, now);
    assert!(state.completed_at.is_none());
    let end = Timestamp { secs: 30, nanos: 1 };
    state.transition_at(ExecutionStatus::Failed, end);
    assert_eq!(state.completed_at, Some(end));
}

#[test]
fn clock_moves_on_from_the_epoch() {
    let state = ExecutionState::new("c", "n", ExecutionPattern::Saga);
    assert!(state.started_at.secs > 1_600_000_000);
    assert!(state.started_at.nanos < 1_000_000_000);
}

#[test]
fn timestamps_subtract_spans() {
    let t = Timestamp { secs: 100, nanos: 200_000_000 };
    let earlier = t.minus(Span { secs: 1, nanos: 500_000_000 });
    assert_eq!(earlier, Timestamp { secs: 98, nanos: 700_000_000 });
    assert!(earlier.is_before(t));
    assert!(!t.is_before(t));
    assert_eq!(duration_ms(earlier, t), 1500);
    assert_eq!(duration_ms(t, earlier), 0);
}

#[test]
fn delays_count_nanoseconds() {
    assert_eq!(Delay::from_millis(1500), Delay { secs: 1, nanos: 500_000_000 });
    assert_eq!(Delay::from_millis(1500).as_nanos(), 1_500_000_000);
    assert!(Delay::from_millis(0).is_zero());
    assert!(!Delay { secs: 0, nanos: 1 }.is_zero());
}

#[test]
fn zero_delay_does_not_sleep() {
    let timers = TimerService::new();
    assert!(timers.sleep_ms(0).is_none());
    assert_eq!(timers.sleep_ms(20), Some(Delay::from_millis(20)));
    assert!(timers.sleep(Delay { secs: 0, nanos: 0 }).is_none());
}
