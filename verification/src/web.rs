//! What the administration surface answers.
//!
//! The caller owns the routes and the stores. It hands over what a request
//! asked and what a store said, and writes the [`Reply`] out.

use crate::dlq;
use crate::dlq::DeadLetterFilter;
use crate::model;
use crate::model::{ExecutionState, ExecutionStatus, StateView};
use crate::persistence;
use crate::persistence::ExecutionFilter;
use crate::step_context;
use crate::step_context::put;
use crate::text;
use crate::text::quoted;
use crate::text_map::TextMap;
use crate::value::{Number, Value, ValueView};
use vstd::prelude::*;
use vstd::string::*;

verus! {

/// What a request is answered.
#[derive(Debug)]
pub enum Reply<T> {
    /// The body, as JSON.
    Json(T),
    /// Nothing: there is no such thing.
    NoContent,
    /// A text: the request makes no sense.
    BadRequest(String),
    /// A text: a store failed.
    InternalError(String),
}

/// The status code of a reply.
pub open spec fn code_of<T>(reply: Reply<T>) -> u16 {
    match reply {
        Reply::Json(_) => 200,
        Reply::NoContent => 204,
        Reply::BadRequest(_) => 400,
        Reply::InternalError(_) => 500,
    }
}

impl<T> Reply<T> {
    /// The status code of the reply.
    pub fn status_code(&self) -> (code: u16)
        ensures
            code == code_of(*self),
            code == 200 <==> *self is Json,
            code == 204 <==> *self is NoContent,
            code == 400 <==> *self is BadRequest,
            code == 500 <==> *self is InternalError,
    {
        match self {
            Reply::Json(_) => 200,
            Reply::NoContent => 204,
            Reply::BadRequest(_) => 400,
            Reply::InternalError(_) => 500,
        }
    }
}

fn line(message: &str) -> (text: String)
    ensures
        text@ == message@ + "\n"@,
{
    let mut out: String = message.to_owned();
    out.append("\n");
    out
}

/// The text about a status that does not exist.
pub open spec fn unknown_status_text(raw: Seq<char>) -> Seq<char> {
    "unknown status "@ + text::debug_text(raw) + "\n"@
}

/// The filter of a request for executions: by the status that it names, or
/// every execution. Fails with a text where no status has that name.
pub fn executions_filter(status: Option<&str>) -> (filter: Result<ExecutionFilter, String>)
    ensures
        match (status, filter) {
            (Some(raw), Ok(found)) => found.pattern is None && (found.status matches Some(s)
                && model::status_wire(s) == raw@),
            (Some(raw), Err(message)) => message@ == unknown_status_text(raw@) && forall|
                any: ExecutionStatus,
            |
                #[trigger] model::status_wire(any) != raw@,
            (None, Ok(found)) => found.pattern is None && found.status is None,
            (None, Err(_)) => false,
        },
{
    match status {
        Some(raw) => match ExecutionStatus::parse(raw) {
            Some(found) => Ok(ExecutionFilter::all().status(found)),
            None => {
                let mut out: String = "unknown status ".to_owned();
                out.append(quoted(raw).as_str());
                out.append("\n");
                Err(out)
            },
        },
        None => Ok(ExecutionFilter::all()),
    }
}

/// The states of a list that are not terminal, in their order.
pub open spec fn in_flight(states: Seq<StateView>) -> Seq<StateView>
    decreases states.len(),
{
    if states.len() == 0 {
        Seq::empty()
    } else {
        let front = in_flight(states.drop_last());
        if model::terminal(states.last().status) {
            front
        } else {
            front.push(states.last())
        }
    }
}

fn drop_terminal(states: Vec<ExecutionState>) -> (running: Vec<ExecutionState>)
    ensures
        persistence::state_views(running@) == in_flight(persistence::state_views(states@)),
{
    let ghost all = persistence::state_views(states@);
    let mut running: Vec<ExecutionState> = states;
    let ghost mut seen: int = 0;
    let mut i: usize = 0;
    assert(persistence::state_views(running@) =~= in_flight(all.take(0)) + all.skip(0));
    while i < running.len()
        invariant
            0 <= seen <= all.len(),
            i <= running@.len(),
            in_flight(all.take(seen)).len() == i,
            running@.len() - i == all.len() - seen,
            persistence::state_views(running@) == in_flight(all.take(seen)) + all.skip(seen),
        decreases running.len() - i,
    {
        let ghost known = persistence::state_views(running@);
        proof {
            assert(known[i as int] == all.skip(seen)[0]);
            assert(running@[i as int]@ == all[seen]);
            assert(all.take(seen + 1).drop_last() =~= all.take(seen));
            assert(all.take(seen + 1).last() == all[seen]);
        }
        if running[i].is_terminal() {
            running.remove(i);
            assert(persistence::state_views(running@) =~= known.remove(i as int));
            assert(known.remove(i as int) =~= in_flight(all.take(seen)) + all.skip(seen + 1));
        } else {
            assert(known =~= in_flight(all.take(seen)).push(all[seen]) + all.skip(seen + 1));
            i += 1;
        }
        proof {
            seen = seen + 1;
        }
    }
    assert(all.take(all.len() as int) =~= all);
    assert(persistence::state_views(running@) =~= in_flight(all));
    running
}

/// Answers a request for executions with what the store listed. A request that
/// names no status sees the executions in flight.
pub fn executions_reply(
    by_status: bool,
    listed: Result<Vec<ExecutionState>, String>,
) -> (reply: Reply<Vec<ExecutionState>>)
    ensures
        match (listed, reply) {
            (Ok(states), Reply::Json(shown)) => persistence::state_views(shown@) == (if by_status {
                persistence::state_views(states@)
            } else {
                in_flight(persistence::state_views(states@))
            }),
            (Err(message), Reply::InternalError(body)) => body@ == message@ + "\n"@,
            _ => false,
        },
{
    match listed {
        Ok(states) => {
            if by_status {
                Reply::Json(states)
            } else {
                Reply::Json(drop_terminal(states))
            }
        },
        Err(message) => Reply::InternalError(line(message.as_str())),
    }
}

/// Answers a request for one thing with what the store found.
pub fn found_reply<T>(found: Result<Option<T>, String>) -> (reply: Reply<T>)
    ensures
        match (found, reply) {
            (Ok(Some(value)), Reply::Json(shown)) => shown == value,
            (Ok(None), Reply::NoContent) => true,
            (Err(message), Reply::InternalError(body)) => body@ == message@ + "\n"@,
            _ => false,
        },
{
    match found {
        Ok(Some(value)) => Reply::Json(value),
        Ok(None) => Reply::NoContent,
        Err(message) => Reply::InternalError(line(message.as_str())),
    }
}

/// Answers a request with what the store said.
pub fn answer_reply<T>(answer: Result<T, String>) -> (reply: Reply<T>)
    ensures
        match (answer, reply) {
            (Ok(value), Reply::Json(shown)) => shown == value,
            (Err(message), Reply::InternalError(body)) => body@ == message@ + "\n"@,
            _ => false,
        },
{
    match answer {
        Ok(value) => Reply::Json(value),
        Err(message) => Reply::InternalError(line(message.as_str())),
    }
}

/// The filter of a request for dead letters.
pub fn dlq_filter(execution_name: Option<&str>, correlation_id: Option<&str>) -> (filter:
    DeadLetterFilter)
    ensures
        dlq::optional_text(filter.execution_name) == match execution_name {
            Some(name) => Some(name@),
            None => None,
        },
        dlq::optional_text(filter.correlation_id) == match correlation_id {
            Some(id) => Some(id@),
            None => None,
        },
{
    let mut filter: DeadLetterFilter = DeadLetterFilter::all();
    if let Some(name) = execution_name {
        filter = filter.execution_name(name);
    }
    if let Some(id) = correlation_id {
        filter = filter.correlation_id(id);
    }
    filter
}

fn one_field(name: &str, value: Value) -> (object: Value)
    requires
        value.well_formed(),
    ensures
        object.well_formed(),
        step_context::is_object_of(
            object.model(),
            Map::<Seq<char>, ValueView>::empty().insert(name@, value.model()),
        ),
{
    let mut fields: TextMap<Value> = TextMap::new();
    assert(step_context::values_of(fields) =~= Map::empty());
    put(&mut fields, name.to_owned(), value);
    proof {
        step_context::lemma_is_object_of(fields);
        step_context::lemma_good_entries(fields);
    }
    Value::Object(fields)
}

/// Answers how many dead letters there are.
pub fn count_reply(count: Result<u64, String>) -> (reply: Reply<Value>)
    ensures
        match (count, reply) {
            (Ok(n), Reply::Json(shown)) => step_context::is_object_of(
                shown.model(),
                Map::<Seq<char>, ValueView>::empty().insert(
                    "count"@,
                    ValueView::Number(Number::PosInt(n)),
                ),
            ),
            (Err(message), Reply::InternalError(body)) => body@ == message@ + "\n"@,
            _ => false,
        },
{
    match count {
        Ok(n) => Reply::Json(one_field("count", Value::Number(Number::PosInt(n)))),
        Err(message) => Reply::InternalError(line(message.as_str())),
    }
}

/// Answers whether something was done: retried, deleted or delivered.
pub fn flag_reply(name: &str, flag: Result<bool, String>) -> (reply: Reply<Value>)
    ensures
        match (flag, reply) {
            (Ok(done), Reply::Json(shown)) => step_context::is_object_of(
                shown.model(),
                Map::<Seq<char>, ValueView>::empty().insert(name@, ValueView::Bool(done)),
            ),
            (Err(message), Reply::InternalError(body)) => body@ == message@ + "\n"@,
            _ => false,
        },
{
    match flag {
        Ok(done) => Reply::Json(one_field(name, Value::Bool(done))),
        Err(message) => Reply::InternalError(line(message.as_str())),
    }
}

/// Answers a request whose body could not be read.
pub fn unreadable_reply(message: &str) -> (reply: Reply<Value>)
    ensures
        reply matches Reply::BadRequest(body) && body@ == message@ + "\n"@,
{
    Reply::BadRequest(line(message))
}

/// A request that names no status sees every execution in flight and no other.
pub proof fn law_default_listing_is_in_flight(states: Seq<StateView>, state: StateView)
    ensures
        in_flight(states).contains(state) <==> states.contains(state) && !model::terminal(
            state.status,
        ),
        in_flight(states).contains(state) <==> states.contains(state)
            && !(state.status is Completed || state.status is Failed
                || state.status is Cancelled || state.status is TimedOut
                || state.status is Confirmed || state.status is Canceled
                || state.status is Compensated),
    decreases states.len(),
{
    if states.len() > 0 {
        let front = states.drop_last();
        law_default_listing_is_in_flight(front, state);
        let kept = in_flight(front);
        let grown = kept.push(states.last());
        assert(grown[kept.len() as int] == states.last());
        if kept.contains(state) {
            let m = choose|m: int| 0 <= m < kept.len() && kept[m] == state;
            assert(grown[m] == state);
        }
        if grown.contains(state) {
            let m = choose|m: int| 0 <= m < grown.len() && grown[m] == state;
            if m < kept.len() {
                assert(kept[m] == state);
            }
        }
        if front.contains(state) {
            let m = choose|m: int| 0 <= m < front.len() && front[m] == state;
            assert(states[m] == state);
        }
        assert(states[states.len() - 1] == states.last());
        if states.contains(state) {
            let m = choose|m: int| 0 <= m < states.len() && states[m] == state;
            if m < front.len() {
                assert(front[m] == state);
            }
        }
    }
}

} // verus!
