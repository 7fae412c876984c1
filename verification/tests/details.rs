use firefly_orchestration::dlq::{DeadLetterCapture, DeadLetterService, MemoryDeadLetterStore};
use firefly_orchestration::model::{ExecutionPattern, ExecutionState, ExecutionStatus};
use firefly_orchestration::persistence::{
    claim, claim_columns, decode_row, encode_row, StoredRow,
};
use firefly_orchestration::saga::{Saga, SagaAction, Step};
use firefly_orchestration::step_context::StepContext;
use firefly_orchestration::step_invoker::StepInvokeError;
use firefly_orchestration::tcc::{Tcc, TccAction, TccParticipant};
use firefly_orchestration::time::Timestamp;
use firefly_orchestration::value::{Number, Value};
use firefly_orchestration::web::{answer_reply, Reply};
use firefly_orchestration::workflow::Node;

const EARLY: Timestamp = Timestamp { secs: 1_000, nanos: 0 };
const CUTOFF: Timestamp = Timestamp { secs: 2_000, nanos: 0 };
const NOW: Timestamp = Timestamp { secs: 3_000, nanos: 500_000_000 };

fn early_state() -> ExecutionState {
    ExecutionState::new_at("c-1", "checkout", ExecutionPattern::Saga, EARLY)
        .with_payload(Value::Bool(true))
}

#[test]
fn touching_a_state_changes_only_its_last_change() {
    let mut state = early_state();
    state.touch();
    assert!(EARLY.is_before(state.updated_at));
    assert_eq!(state.started_at, EARLY);
    assert_eq!(state.status, ExecutionStatus::Pending);
    assert_eq!(state.completed_at, None);
}

#[test]
fn a_loaded_state_is_claimed_once() {
    let first = claim(Some(early_state()), CUTOFF, ExecutionStatus::Running, NOW);
    let state = first.expect("stale");
    assert_eq!(state.status, ExecutionStatus::Running);
    assert_eq!(state.updated_at, NOW);
    assert_eq!(state.completed_at, None);
    assert!(claim(Some(state), CUTOFF, ExecutionStatus::Running, NOW).is_none());
    assert!(claim(None, CUTOFF, ExecutionStatus::Running, NOW).is_none());
}

#[test]
fn a_terminal_state_is_not_claimed() {
    let mut state = early_state();
    state.transition_at(ExecutionStatus::Completed, EARLY);
    assert!(claim(Some(state), CUTOFF, ExecutionStatus::Failed, NOW).is_none());
}

#[test]
fn a_claim_written_into_a_row_is_the_row_of_the_claim() {
    for status in [ExecutionStatus::Failed, ExecutionStatus::Compensating] {
        let row = encode_row(&early_state());
        let columns = claim_columns(status, NOW);
        let written = StoredRow {
            status: columns.status,
            terminal: columns.terminal,
            updated_at: columns.updated_at,
            completed_at: columns.completed_at.or(row.completed_at),
            correlation_id: row.correlation_id,
            name: row.name,
            pattern: row.pattern,
            started_at: row.started_at,
        };
        assert_eq!(written.updated_at, "1970-01-01T00:50:00.500000000+00:00");
        assert_eq!(written.terminal, if status.is_terminal() { 1 } else { 0 });
        let read = decode_row(written, Ok(Value::Bool(true))).expect("readable");
        let expected =
            claim(Some(early_state()), CUTOFF, status, NOW).expect("stale");
        assert_eq!(read.status, expected.status);
        assert_eq!(read.updated_at, expected.updated_at);
        assert_eq!(read.completed_at, expected.completed_at);
        assert_eq!(read.started_at, EARLY);
    }
}

#[test]
fn retries_of_an_entry_are_counted() {
    let mut service = DeadLetterService::new(MemoryDeadLetterStore::new());
    let entry = service.capture(DeadLetterCapture::new("checkout", "c-1", "boom"));
    assert_eq!(entry.retry_count, 0);
    let id = entry.id.clone();
    let again = entry.retried();
    assert_eq!(again.retry_count, 1);
    assert_eq!(again.id, id);
    assert!(service.mark_retried(&id));
    assert!(service.mark_retried(&id));
    assert_eq!(service.get(&id).expect("kept").retry_count, 2);
    assert!(!service.mark_retried("missing"));
}

#[test]
fn a_failed_step_announces_the_rollback() {
    let saga = Saga::new("checkout")
        .step(Step::new("reserve").with_compensation())
        .step(Step::new("charge"));
    let mut run = saga.begin();
    assert!(saga.failure_message(&run).is_none());
    assert!(!saga.announces_rollback(&run));
    assert!(matches!(saga.next(&mut run, false), SagaAction::RunStep(0)));
    saga.step_succeeded(&mut run);
    assert!(matches!(saga.next(&mut run, false), SagaAction::RunStep(1)));
    saga.step_failed(
        &mut run,
        StepInvokeError::Failed {
            step: "charge".to_string(),
            attempts: 1,
            source: "card declined".to_string(),
        },
    );
    assert_eq!(
        saga.failure_message(&run).as_deref(),
        Some("step \"charge\": card declined")
    );
    assert!(saga.announces_rollback(&run));
}

#[test]
fn a_first_step_that_fails_announces_no_rollback() {
    let saga = Saga::new("checkout").step(Step::new("reserve").with_compensation());
    let mut run = saga.begin();
    assert!(matches!(saga.next(&mut run, false), SagaAction::RunStep(0)));
    saga.step_failed(
        &mut run,
        StepInvokeError::Failed {
            step: "reserve".to_string(),
            attempts: 1,
            source: "out of stock".to_string(),
        },
    );
    assert!(!saga.announces_rollback(&run));
    assert!(matches!(saga.next(&mut run, false), SagaAction::Finish));
}

#[test]
fn a_failed_try_cancels_what_was_tried_last_first() {
    let tcc = Tcc::new("pay")
        .participant(TccParticipant::new("a").with_cancel())
        .participant(TccParticipant::new("b"))
        .participant(TccParticipant::new("c").with_cancel())
        .participant(TccParticipant::new("d").with_cancel());
    let mut run = tcc.begin();
    loop {
        match tcc.next(&mut run) {
            TccAction::Try(3) => {
                tcc.try_failed(
                    &mut run,
                    StepInvokeError::Failed {
                        step: "d".to_string(),
                        attempts: 1,
                        source: "no".to_string(),
                    },
                );
            }
            TccAction::Try(_) => tcc.try_succeeded(&mut run),
            TccAction::Cancel(i) => tcc.cancelled(&mut run, i),
            TccAction::Finish => break,
            _ => {}
        }
    }
    assert_eq!(run.undone, vec![2, 0]);
    assert!(tcc.finish(run).is_err());
}

#[test]
fn the_input_of_a_context_can_be_replaced() {
    let mut context = StepContext::with_input(Value::Bool(false));
    context.set_input(Value::Number(Number::PosInt(7)));
    assert!(context.input().equals(&Value::Number(Number::PosInt(7))));
}

#[test]
fn answers_become_replies() {
    let good: Reply<u8> = answer_reply(Ok(3));
    assert_eq!(good.status_code(), 200);
    assert!(matches!(good, Reply::Json(3)));
    let bad: Reply<u8> = answer_reply(Err("store down".to_string()));
    assert_eq!(bad.status_code(), 500);
    assert!(matches!(bad, Reply::InternalError(message) if message == "store down\n"));
}

#[test]
fn nodes_tell_what_they_are() {
    let plain = Node::new("a");
    assert!(!plain.is_compensatable());
    assert!(!plain.is_fire_and_forget());
    assert!(Node::new("b").with_compensation().is_compensatable());
    assert!(Node::new("c").fire_and_forget().is_fire_and_forget());
}
