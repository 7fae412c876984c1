//! Child workflows, restarts, queries on running executions, and runs that
//! outlive their process.
//!
//! A workflow factory and a query handler are tickets: the caller owns the code
//! behind them.

use crate::model;
use crate::model::{ExecutionPattern, ExecutionState, ExecutionStatus, StateView};
use crate::step_context;
use crate::step_context::{ContextView, StepContext};
use crate::text;
use crate::text::quoted;
use crate::text_map;
use crate::text_map::TextMap;
use crate::time;
use crate::time::{debug_delay, random_id, utc_now, Delay, Timestamp};
use crate::value::Value;
use crate::workflow;
use crate::workflow::WorkflowError;
use std::sync::Arc;
use vstd::prelude::*;
use vstd::string::*;

verus! {

/// How a child workflow fails.
#[derive(Debug)]
pub enum ChildWorkflowError {
    /// No workflow is registered under the id.
    Unknown(String),
    /// The child took too long.
    TimedOut {
        /// The id of the child.
        workflow: String,
        /// How long it was given.
        timeout: Delay,
    },
    /// The child failed.
    Failed {
        /// The id of the child.
        workflow: String,
        /// Its failure.
        source: WorkflowError,
    },
}

/// The message of a child workflow error.
pub open spec fn child_error_text(error: ChildWorkflowError) -> Seq<char> {
    match error {
        ChildWorkflowError::Unknown(id) => "child workflow "@ + text::debug_text(id@)
            + " is not registered"@,
        ChildWorkflowError::TimedOut { workflow, timeout } => "child workflow "@
            + text::debug_text(workflow@) + " timed out after "@ + time::delay_debug(
            timeout.secs,
            timeout.nanos,
        ),
        ChildWorkflowError::Failed { workflow, source } => "child workflow "@ + text::debug_text(
            workflow@,
        ) + " failed: "@ + workflow::workflow_error_text(source),
    }
}

fn about_child(id: &str, rest: &str) -> (message: String)
    ensures
        message@ == "child workflow "@ + text::debug_text(id@) + rest@,
{
    let mut out: String = "child workflow ".to_owned();
    out.append(quoted(id).as_str());
    out.append(rest);
    out
}

impl ChildWorkflowError {
    /// The message of the error.
    pub fn to_string(&self) -> (message: String)
        requires
            self matches ChildWorkflowError::TimedOut { timeout, .. } ==> timeout.nanos
                < 1_000_000_000,
        ensures
            message@ == child_error_text(*self),
    {
        match self {
            ChildWorkflowError::Unknown(id) => about_child(id.as_str(), " is not registered"),
            ChildWorkflowError::TimedOut { workflow, timeout } => {
                let mut out: String = about_child(workflow.as_str(), " timed out after ");
                out.append(debug_delay(*timeout).as_str());
                out
            },
            ChildWorkflowError::Failed { workflow, source } => {
                let mut out: String = about_child(workflow.as_str(), " failed: ");
                out.append(source.to_string().as_str());
                out
            },
        }
    }
}

/// How the run of a child ended.
#[derive(Debug)]
pub enum ChildRun {
    /// It completed.
    Completed,
    /// It failed.
    Failed(WorkflowError),
    /// It was given up after this time.
    TimedOut(Delay),
}

/// A child that runs on its own.
#[derive(Debug)]
pub struct ChildHandle {
    /// The factory that makes the workflow.
    pub factory: u64,
    /// The id of the run.
    pub correlation_id: String,
}

/// Workflow factories, by id.
#[derive(Debug)]
pub struct ChildWorkflowService {
    /// The factories.
    pub factories: TextMap<u64>,
}

impl ChildWorkflowService {
    /// Whether the factories are in order.
    pub open spec fn well_formed(self) -> bool {
        self.factories.well_formed()
    }

    /// A service without factories.
    pub fn new() -> (service: ChildWorkflowService)
        ensures
            service.well_formed(),
            service.factories@ == Map::<Seq<char>, u64>::empty(),
    {
        ChildWorkflowService { factories: TextMap::new() }
    }

    /// Registers a factory, in place of any with its id.
    pub fn register(&mut self, id: &str, factory: u64)
        requires
            old(self).well_formed(),
        ensures
            final(self).well_formed(),
            final(self).factories@ == old(self).factories@.insert(id@, factory),
    {
        self.factories.insert(id.to_owned(), factory);
    }

    /// The registered ids, in increasing order.
    pub fn registered(&self) -> (ids: Vec<String>)
        ensures
            text::texts(ids@) == text_map::keys_of(self.factories.entries@),
    {
        self.factories.keys()
    }

    /// The factory of an id.
    pub fn factory(&self, id: &str) -> (found: Result<u64, ChildWorkflowError>)
        ensures
            match found {
                Ok(factory) => self.factories@.contains_key(id@) && factory == self.factories@[id@],
                Err(ChildWorkflowError::Unknown(unknown)) => !self.factories@.contains_key(id@)
                    && unknown@ == id@,
                Err(_) => false,
            },
    {
        match self.factories.get(id) {
            Some(factory) => Ok(*factory),
            None => Err(ChildWorkflowError::Unknown(id.to_owned())),
        }
    }

    /// What a parent is told of a child that has run with a context: the
    /// context, with the results of the child, or the failure.
    pub fn finished(&self, id: &str, run: ChildRun, context: StepContext) -> (result: Result<
        StepContext,
        ChildWorkflowError,
    >)
        ensures
            match (run, result) {
                (ChildRun::Completed, Ok(given)) => given == context,
                (
                    ChildRun::Failed(error),
                    Err(ChildWorkflowError::Failed { workflow, source }),
                ) => workflow@ == id@ && source == error,
                (
                    ChildRun::TimedOut(limit),
                    Err(ChildWorkflowError::TimedOut { workflow, timeout }),
                ) => workflow@ == id@ && timeout == limit,
                _ => false,
            },
    {
        match run {
            ChildRun::Completed => Ok(context),
            ChildRun::Failed(source) => Err(
                ChildWorkflowError::Failed { workflow: id.to_owned(), source },
            ),
            ChildRun::TimedOut(timeout) => Err(
                ChildWorkflowError::TimedOut { workflow: id.to_owned(), timeout },
            ),
        }
    }

    /// Starts a child that runs on its own. A context without a correlation
    /// id gets a random one.
    pub fn start_async(&self, id: &str, context: &mut StepContext) -> (started: Result<
        ChildHandle,
        ChildWorkflowError,
    >)
        requires
            old(context).well_formed(),
        ensures
            final(context).well_formed(),
            exists|fresh: Seq<char>|
                fresh.len() == 36 && #[trigger] is_child_start(
                    *self,
                    id@,
                    fresh,
                    old(context)@,
                    final(context)@,
                    started,
                ),
    {
        let fresh: String = random_id();
        let ghost before = context@;
        let started: Result<ChildHandle, ChildWorkflowError> = self.start_async_as(
            id,
            context,
            fresh.as_str(),
        );
        assert(is_child_start(*self, id@, fresh@, before, context@, started));
        started
    }

    /// Starts a child that runs on its own. A context without a correlation
    /// id gets the one given.
    pub fn start_async_as(&self, id: &str, context: &mut StepContext, fresh: &str) -> (started:
        Result<ChildHandle, ChildWorkflowError>)
        requires
            old(context).well_formed(),
        ensures
            final(context).well_formed(),
            is_child_start(*self, id@, fresh@, old(context)@, final(context)@, started),
    {
        let factory: u64 = self.factory(id)?;
        if context.correlation_id.as_str().unicode_len() == 0 {
            assert(context@.correlation_id =~= Seq::empty());
            context.set_correlation_id(fresh);
        }
        Ok(ChildHandle { factory, correlation_id: context.correlation_id() })
    }
}

/// Whether a child was started on its own, with `fresh` as its id where the
/// context had none.
pub open spec fn is_child_start(
    service: ChildWorkflowService,
    id: Seq<char>,
    fresh: Seq<char>,
    before: ContextView,
    later: ContextView,
    started: Result<ChildHandle, ChildWorkflowError>,
) -> bool {
    match started {
        Ok(handle) => {
            &&& service.factories@.contains_key(id)
            &&& handle.factory == service.factories@[id]
            &&& later == (ContextView {
                correlation_id: if before.correlation_id == Seq::<char>::empty() {
                    fresh
                } else {
                    before.correlation_id
                },
                ..before
            })
            &&& handle.correlation_id@ == later.correlation_id
        },
        Err(ChildWorkflowError::Unknown(unknown)) => {
            &&& !service.factories@.contains_key(id)
            &&& unknown@ == id
            &&& later == before
        },
        Err(_) => false,
    }
}

/// Restarts registered workflows with a new input.
#[derive(Debug)]
pub struct ContinueAsNew {
    /// The service that knows the workflows.
    pub service: Arc<ChildWorkflowService>,
}

/// Whether a workflow was restarted with an input under the id `fresh`.
pub open spec fn is_restart(
    service: ChildWorkflowService,
    id: Seq<char>,
    input: Value,
    fresh: Seq<char>,
    restarted: Result<(u64, StepContext), ChildWorkflowError>,
) -> bool {
    match restarted {
        Ok((factory, context)) => {
            &&& service.factories@.contains_key(id)
            &&& factory == service.factories@[id]
            &&& context.well_formed()
            &&& context@ == (ContextView {
                results: Map::empty(),
                variables: Map::empty(),
                headers: Map::empty(),
                input: input.model(),
                correlation_id: fresh,
            })
        },
        Err(ChildWorkflowError::Unknown(unknown)) => !service.factories@.contains_key(id) && unknown@
            == id,
        Err(_) => false,
    }
}

impl ContinueAsNew {
    /// Restarts the workflows of a service.
    pub fn new(service: Arc<ChildWorkflowService>) -> (restarter: ContinueAsNew)
        ensures
            restarter.service == service,
    {
        ContinueAsNew { service }
    }

    /// The factory of a workflow and a fresh context for it: the input, and a
    /// random correlation id.
    pub fn restart(&self, id: &str, input: Value) -> (restarted: Result<
        (u64, StepContext),
        ChildWorkflowError,
    >)
        requires
            input.well_formed(),
        ensures
            exists|fresh: Seq<char>|
                fresh.len() == 36 && #[trigger] is_restart(
                    *self.service,
                    id@,
                    input,
                    fresh,
                    restarted,
                ),
    {
        let fresh: String = random_id();
        let restarted: Result<(u64, StepContext), ChildWorkflowError> = self.restart_as(
            id,
            input,
            fresh.as_str(),
        );
        assert(is_restart(*self.service, id@, input, fresh@, restarted));
        restarted
    }

    /// The factory of a workflow and a fresh context for it: the input, and
    /// the correlation id given.
    pub fn restart_as(&self, id: &str, input: Value, fresh: &str) -> (restarted: Result<
        (u64, StepContext),
        ChildWorkflowError,
    >)
        requires
            input.well_formed(),
        ensures
            is_restart(*self.service, id@, input, fresh@, restarted),
    {
        let mut context: StepContext = StepContext::with_input(input);
        context.set_correlation_id(fresh);
        let factory: u64 = self.service.factory(id)?;
        Ok((factory, context))
    }
}

/// How a query fails.
#[derive(Debug)]
pub enum WorkflowQueryError {
    /// No execution runs under the id.
    Unknown(String),
    /// The execution has no such query.
    UnknownQuery {
        /// The id of the execution.
        correlation_id: String,
        /// The name of the query.
        query: String,
    },
}

/// The message of a query error.
pub open spec fn query_error_text(error: WorkflowQueryError) -> Seq<char> {
    match error {
        WorkflowQueryError::Unknown(id) => "workflow execution "@ + text::debug_text(id@)
            + " is not active"@,
        WorkflowQueryError::UnknownQuery { correlation_id, query } => "execution "@
            + text::debug_text(correlation_id@) + " has no query named "@ + text::debug_text(
            query@,
        ),
    }
}

impl WorkflowQueryError {
    /// The message of the error.
    pub fn to_string(&self) -> (message: String)
        ensures
            message@ == query_error_text(*self),
    {
        match self {
            WorkflowQueryError::Unknown(id) => {
                let mut out: String = "workflow execution ".to_owned();
                out.append(quoted(id.as_str()).as_str());
                out.append(" is not active");
                out
            },
            WorkflowQueryError::UnknownQuery { correlation_id, query } => {
                let mut out: String = "execution ".to_owned();
                out.append(quoted(correlation_id.as_str()).as_str());
                out.append(" has no query named ");
                out.append(quoted(query.as_str()).as_str());
                out
            },
        }
    }
}

/// A running execution with its queries.
#[derive(Debug)]
pub struct QueryEntry<C> {
    /// What the queries read.
    pub context: C,
    /// The handlers, by the name of the query.
    pub queries: TextMap<u64>,
}

/// What a running execution offers, as mathematical data.
pub struct QueryEntryView<C> {
    /// What the queries read.
    pub context: C,
    /// The handlers, by the name of the query.
    pub queries: Map<Seq<char>, u64>,
}

/// Queries on running executions. `C` is the context that they read.
#[derive(Debug)]
pub struct WorkflowQueryService<C> {
    /// The executions, by correlation id.
    pub executions: TextMap<QueryEntry<C>>,
}

impl<C> View for WorkflowQueryService<C> {
    type V = Map<Seq<char>, QueryEntryView<C>>;

    open spec fn view(&self) -> Map<Seq<char>, QueryEntryView<C>> {
        self.executions@.map_values(
            |entry: QueryEntry<C>|
                QueryEntryView { context: entry.context, queries: entry.queries@ },
        )
    }
}

impl<C> WorkflowQueryService<C> {
    /// Whether the executions and their queries are in order.
    pub open spec fn well_formed(self) -> bool {
        &&& self.executions.well_formed()
        &&& forall|k: Seq<char>|
            self.executions@.contains_key(k) ==> (
            #[trigger] self.executions@[k]).queries.well_formed()
    }

    /// A service without executions.
    pub fn new() -> (service: WorkflowQueryService<C>)
        ensures
            service.well_formed(),
            service@ == Map::<Seq<char>, QueryEntryView<C>>::empty(),
    {
        let service: WorkflowQueryService<C> = WorkflowQueryService { executions: TextMap::new() };
        assert(service@ =~= Map::<Seq<char>, QueryEntryView<C>>::empty());
        service
    }

    /// Registers an execution without queries, in place of any with its id.
    pub fn register(&mut self, correlation_id: &str, context: C)
        requires
            old(self).well_formed(),
        ensures
            final(self).well_formed(),
            final(self)@ == old(self)@.insert(
                correlation_id@,
                QueryEntryView { context, queries: Map::empty() },
            ),
    {
        let ghost before = *self;
        self.executions.insert(
            correlation_id.to_owned(),
            QueryEntry { context, queries: TextMap::new() },
        );
        assert(self@ =~= before@.insert(
            correlation_id@,
            QueryEntryView { context, queries: Map::empty() },
        ));
    }

    /// Registers a handler for a query of an execution. Does nothing where the
    /// execution is not registered.
    pub fn register_query(&mut self, correlation_id: &str, query: &str, handler: u64)
        requires
            old(self).well_formed(),
        ensures
            final(self).well_formed(),
            final(self)@ == (if old(self)@.contains_key(correlation_id@) {
                old(self)@.insert(
                    correlation_id@,
                    QueryEntryView {
                        queries: old(self)@[correlation_id@].queries.insert(query@, handler),
                        ..old(self)@[correlation_id@]
                    },
                )
            } else {
                old(self)@
            }),
    {
        let ghost before = *self;
        if let Some(entry) = self.executions.remove(correlation_id) {
            let mut queries: TextMap<u64> = entry.queries;
            queries.insert(query.to_owned(), handler);
            self.executions.insert(
                correlation_id.to_owned(),
                QueryEntry { context: entry.context, queries },
            );
            assert(self@ =~= before@.insert(
                correlation_id@,
                QueryEntryView {
                    queries: before@[correlation_id@].queries.insert(query@, handler),
                    ..before@[correlation_id@]
                },
            ));
        }
    }

    /// Removes an execution.
    pub fn unregister(&mut self, correlation_id: &str)
        requires
            old(self).well_formed(),
        ensures
            final(self).well_formed(),
            final(self)@ == old(self)@.remove(correlation_id@),
    {
        let ghost before = *self;
        self.executions.remove(correlation_id);
        assert(self@ =~= before@.remove(correlation_id@));
    }

    /// The ids of the executions, in increasing order.
    pub fn active(&self) -> (ids: Vec<String>)
        ensures
            text::texts(ids@) == text_map::keys_of(self.executions.entries@),
    {
        self.executions.keys()
    }

    /// The handler of a query and the context that it reads.
    pub fn query(&self, correlation_id: &str, query_name: &str) -> (found: Result<
        (u64, &C),
        WorkflowQueryError,
    >)
        ensures
            match found {
                Ok((handler, context)) => {
                    &&& self@.contains_key(correlation_id@)
                    &&& self@[correlation_id@].queries.contains_key(query_name@)
                    &&& handler == self@[correlation_id@].queries[query_name@]
                    &&& *context == self@[correlation_id@].context
                },
                Err(WorkflowQueryError::Unknown(id)) => {
                    &&& !self@.contains_key(correlation_id@)
                    &&& id@ == correlation_id@
                },
                Err(WorkflowQueryError::UnknownQuery { correlation_id: id, query }) => {
                    &&& self@.contains_key(correlation_id@)
                    &&& !self@[correlation_id@].queries.contains_key(query_name@)
                    &&& id@ == correlation_id@
                    &&& query@ == query_name@
                },
            },
    {
        match self.executions.get(correlation_id) {
            Some(entry) => match entry.queries.get(query_name) {
                Some(handler) => Ok((*handler, &entry.context)),
                None => Err(
                    WorkflowQueryError::UnknownQuery {
                        correlation_id: correlation_id.to_owned(),
                        query: query_name.to_owned(),
                    },
                ),
            },
            None => Err(WorkflowQueryError::Unknown(correlation_id.to_owned())),
        }
    }
}

/// Whether a state is that of a run that was suspended at `now`.
pub open spec fn is_suspended(
    state: StateView,
    name: Seq<char>,
    context: ContextView,
    now: Timestamp,
) -> bool {
    &&& state == (StateView {
        status: ExecutionStatus::Suspended,
        payload: state.payload,
        ..model::fresh_state(context.correlation_id, name, ExecutionPattern::Workflow, now)
    })
    &&& step_context::is_snapshot(context, state.payload)
}

/// Turns a running workflow into a state that can be stored, and back.
#[derive(Debug, Clone, Copy)]
pub struct DurableWorkflowState {}

impl DurableWorkflowState {
    /// Suspends and resumes workflow runs.
    pub fn new() -> (durable: DurableWorkflowState)
        ensures
            durable == (DurableWorkflowState {  }),
    {
        DurableWorkflowState {  }
    }

    /// The state of a run that is suspended now, to be stored under its
    /// correlation id.
    pub fn suspend(&self, name: &str, context: &StepContext) -> (state: ExecutionState)
        requires
            context.well_formed(),
        ensures
            state.payload.well_formed(),
            state.started_at.well_formed(),
            is_suspended(state@, name@, context@, state.started_at),
    {
        self.suspend_at(name, context, utc_now())
    }

    /// The state of a run that is suspended at `now`.
    pub fn suspend_at(&self, name: &str, context: &StepContext, now: Timestamp) -> (state:
        ExecutionState)
        requires
            context.well_formed(),
        ensures
            state.payload.well_formed(),
            is_suspended(state@, name@, context@, now),
    {
        let id: String = context.correlation_id();
        ExecutionState::new_at(id.as_str(), name, ExecutionPattern::Workflow, now).with_status(
            ExecutionStatus::Suspended,
        ).with_payload(context.to_snapshot())
    }

    /// The context of a run whose state was loaded; none where none was.
    pub fn resume(&self, loaded: Option<&ExecutionState>) -> (context: Option<StepContext>)
        requires
            loaded matches Some(state) ==> state.payload.well_formed(),
        ensures
            match (loaded, context) {
                (Some(state), Some(found)) => found.well_formed() && found@
                    == step_context::restored(state.payload.model()),
                (None, None) => true,
                _ => false,
            },
    {
        match loaded {
            Some(state) => Some(StepContext::from_snapshot(&state.payload)),
            None => None,
        }
    }
}

/// A run that is suspended and resumed, in whatever process, has the context
/// that it had.
pub proof fn law_suspended_run_resumes(
    state: StateView,
    name: Seq<char>,
    context: ContextView,
    now: Timestamp,
)
    requires
        is_suspended(state, name, context, now),
    ensures
        step_context::restored(state.payload) == context,
        state.correlation_id == context.correlation_id,
        !model::terminal(state.status),
{
    step_context::law_snapshot_round_trip(context, state.payload);
}

/// A child that runs on its own keeps the id that its context has, and takes
/// the fresh one only where the context has none; the context keeps all else,
/// and the handle knows the child by that id. Nothing starts where no factory
/// is registered.
pub proof fn law_children_keep_their_id(
    service: ChildWorkflowService,
    id: Seq<char>,
    fresh: Seq<char>,
    before: ContextView,
    later: ContextView,
    started: Result<ChildHandle, ChildWorkflowError>,
)
    requires
        is_child_start(service, id, fresh, before, later, started),
    ensures
        started is Ok <==> service.factories@.contains_key(id),
        started matches Err(error) ==> error is Unknown && error->Unknown_0@ == id,
        before.correlation_id.len() > 0 ==> later == before,
        started is Err ==> later == before,
        started is Ok ==> started->Ok_0.correlation_id@ == later.correlation_id
            && started->Ok_0.factory == service.factories@[id],
        started is Ok && before.correlation_id.len() == 0 ==> later.correlation_id == fresh,
        later.results == before.results,
        later.variables == before.variables,
        later.headers == before.headers,
        later.input == before.input,
{
    if before.correlation_id.len() == 0 {
        assert(before.correlation_id =~= Seq::<char>::empty());
    }
}

/// A workflow that is continued as new starts over: with the input and the id
/// that it was given, and nothing of what the run before it left.
pub proof fn law_continued_runs_start_over(
    service: ChildWorkflowService,
    id: Seq<char>,
    input: Value,
    fresh: Seq<char>,
    restarted: Result<(u64, StepContext), ChildWorkflowError>,
)
    requires
        is_restart(service, id, input, fresh, restarted),
    ensures
        restarted is Ok <==> service.factories@.contains_key(id),
        restarted matches Err(error) ==> error is Unknown && error->Unknown_0@ == id,
        restarted matches Ok((factory, context)) ==> {
            &&& factory == service.factories@[id]
            &&& context.well_formed()
            &&& context@.results.dom() == Set::<Seq<char>>::empty()
            &&& context@.variables.dom() == Set::<Seq<char>>::empty()
            &&& context@.headers.dom() == Set::<Seq<char>>::empty()
            &&& context@.input == input.model()
            &&& context@.correlation_id == fresh
        },
{
    if let Ok((factory, context)) = restarted {
        assert(context@.results.dom() =~= Set::<Seq<char>>::empty());
        assert(context@.variables.dom() =~= Set::<Seq<char>>::empty());
        assert(context@.headers.dom() =~= Set::<Seq<char>>::empty());
    }
}

/// A suspended run is stored as a workflow under its own id, suspended since
/// now and not completed.
pub proof fn law_suspended_runs_are_stored_as_such(
    state: StateView,
    name: Seq<char>,
    context: ContextView,
    now: Timestamp,
)
    requires
        is_suspended(state, name, context, now),
    ensures
        state.status == ExecutionStatus::Suspended,
        state.pattern == ExecutionPattern::Workflow,
        state.name == name,
        state.correlation_id == context.correlation_id,
        state.started_at == now,
        state.updated_at == now,
        state.completed_at is None,
{
}

} // verus!
