//! Sagas: steps in order, and reverse-order compensation when one fails.
//!
//! A [`Saga`] is a definition. [`Saga::begin`] starts a run of it; then
//! [`Saga::next`] names the action that is due, and [`Saga::step_succeeded`],
//! [`Saga::step_failed`] and [`Saga::compensated`] take back what happened,
//! until [`Saga::finish`] gives the outcome.

use crate::graph;
use crate::graph::{flatten, layers, remaining};
use crate::model::RetryPolicy;
use crate::names;
use crate::names::{first_fault, first_repeat, resolve};
use crate::step_invoker;
use crate::step_invoker::{unwrap_invoke_cause, StepInvokeError};
use crate::text;
use crate::text::{clone_texts, quoted, same};
use crate::time::Timestamp;
use vstd::prelude::*;
use vstd::string::*;

verus! {

/// How a saga rolls its executed steps back when one fails.
#[derive(Debug, Clone, Copy, PartialEq, Eq, Structural)]
pub enum CompensationPolicy {
    /// One after another in reverse, going on past failures.
    BestEffort,
    /// One after another in reverse, up to the first failure.
    StopOnError,
    /// As `BestEffort`, each compensation under its step's retry policy.
    RetryWithBackoff,
    /// One after another in reverse, until
    /// [`CIRCUIT_BREAKER_THRESHOLD`] compensations in a row have failed.
    CircuitBreaker,
    /// All at once, going on past failures.
    BestEffortParallel,
    /// The neighbouring members of a group at once, groups in reverse order.
    GroupedParallel,
}

impl Default for CompensationPolicy {
    fn default() -> (policy: CompensationPolicy)
        ensures
            policy == CompensationPolicy::BestEffort,
    {
        CompensationPolicy::BestEffort
    }
}

/// Failures in a row that open the circuit of
/// [`CompensationPolicy::CircuitBreaker`].
pub const CIRCUIT_BREAKER_THRESHOLD: u32 = 3;

/// One unit of a saga.
#[derive(Debug)]
pub struct Step {
    /// The name under which outcomes and messages report the step.
    pub name: String,
    /// Whether the step has a compensation.
    pub compensable: bool,
    /// The retry policy of the step's action.
    pub retry: RetryPolicy,
    /// The group in which the step is compensated.
    pub group: Option<String>,
    /// The names of the steps that must have run before.
    pub depends_on: Vec<String>,
}

impl Step {
    /// A step without compensation, retries, group or dependencies.
    pub fn new(name: &str) -> (step: Step)
        ensures
            step.name@ == name@,
            !step.compensable,
            step.retry == (RetryPolicy {
                max_attempts: 1,
                backoff_ms: 0,
                timeout_ms: 0,
                jitter: false,
            }),
            step.group is None,
            step.depends_on@.len() == 0,
    {
        Step {
            name: name.to_owned(),
            compensable: false,
            retry: RetryPolicy::default(),
            group: None,
            depends_on: Vec::new(),
        }
    }

    /// The step with a compensation.
    pub fn with_compensation(self) -> (step: Step)
        ensures
            step == (Step { compensable: true, ..self }),
    {
        Step { compensable: true, ..self }
    }

    /// The step under a retry policy.
    pub fn with_retry(self, retry: RetryPolicy) -> (step: Step)
        ensures
            step == (Step { retry: retry, ..self }),
    {
        Step { retry, ..self }
    }

    /// The step in a compensation group.
    pub fn group(self, group: &str) -> (step: Step)
        ensures
            step.group matches Some(g) && g@ == group@,
            step == (Step { group: step.group, ..self }),
    {
        Step { group: Some(group.to_owned()), ..self }
    }

    /// The step after the named steps; earlier dependencies are replaced.
    pub fn depends_on(self, deps: Vec<String>) -> (step: Step)
        ensures
            step == (Step { depends_on: deps, ..self }),
    {
        Step { depends_on: deps, ..self }
    }

    /// The step name.
    pub fn name(&self) -> (name: &str)
        ensures
            name@ == self.name@,
    {
        self.name.as_str()
    }

    /// The names of the steps that must have run before.
    pub fn dependencies(&self) -> (deps: &Vec<String>)
        ensures
            *deps == self.depends_on,
    {
        &self.depends_on
    }

    /// The retry policy of the step.
    pub fn retry_policy(&self) -> (policy: &RetryPolicy)
        ensures
            *policy == self.retry,
    {
        &self.retry
    }
}

/// Terminal status of a saga run.
#[derive(Debug, Clone, Copy, PartialEq, Eq, Structural)]
pub enum SagaStatus {
    /// Every step executed successfully.
    Completed,
    /// A step failed and executed steps were rolled back.
    Compensated,
    /// The run was cancelled, or its definition is invalid.
    Failed,
}

impl SagaStatus {
    /// The wire string.
    pub fn to_string(&self) -> (wire: String)
        ensures
            wire@ == match *self {
                SagaStatus::Completed => "completed"@,
                SagaStatus::Compensated => "compensated"@,
                SagaStatus::Failed => "failed"@,
            },
    {
        match self {
            SagaStatus::Completed => "completed".to_owned(),
            SagaStatus::Compensated => "compensated".to_owned(),
            SagaStatus::Failed => "failed".to_owned(),
        }
    }
}

/// The terminal state of a saga run.
#[derive(Debug)]
pub struct Outcome {
    /// The saga name.
    pub saga: String,
    /// Terminal status.
    pub status: SagaStatus,
    /// Names of the steps that executed successfully, in order.
    pub steps_executed: Vec<String>,
    /// Names of the steps that were compensated successfully, in the order of
    /// compensation.
    pub steps_rolled: Vec<String>,
    /// The message of the error that ended the run.
    pub error: Option<String>,
    /// When the run started.
    pub started_at: Timestamp,
    /// When the run finished.
    pub finished_at: Timestamp,
}

/// How a saga run fails.
#[derive(Debug)]
pub enum SagaError {
    /// A step failed; rollback was attempted.
    Step {
        /// The failing step.
        step: String,
        /// The message of its failure.
        source: String,
    },
    /// A compensation failed under [`CompensationPolicy::StopOnError`].
    Compensation {
        /// The step whose failure started the rollback.
        step: String,
        /// That failure.
        original: Box<SagaError>,
        /// The message of the failed compensation.
        compensate: String,
    },
    /// The run was cancelled before its next step.
    Cancelled,
    /// The definition is invalid; no step ran.
    Definition(String),
}

/// The message of a saga error.
pub open spec fn saga_error_text(error: SagaError) -> Seq<char>
    decreases error,
{
    match error {
        SagaError::Step { step, source } => step_error_text(step@, source@),
        SagaError::Compensation { step, original, compensate } =>
            "saga: compensation failed at step "@ + text::debug_text(step@) + ": "@ + compensate@
            + " (original: "@ + saga_error_text(*original) + ")"@,
        SagaError::Cancelled => "saga cancelled"@,
        SagaError::Definition(message) => "saga definition error: "@ + message@,
    }
}

/// The message of a failed step.
pub open spec fn step_error_text(step: Seq<char>, source: Seq<char>) -> Seq<char> {
    "step "@ + text::debug_text(step) + ": "@ + source
}

/// Renders the message of a failed step.
fn step_error(step: &str, source: &str) -> (message: String)
    ensures
        message@ == step_error_text(step@, source@),
{
    let mut out: String = "step ".to_owned();
    out.append(quoted(step).as_str());
    out.append(": ");
    out.append(source);
    out
}

impl SagaError {
    /// Whether a compensation failed.
    pub fn is_compensation_error(&self) -> (yes: bool)
        ensures
            yes == (*self is Compensation),
    {
        match self {
            SagaError::Compensation { .. } => true,
            _ => false,
        }
    }

    /// The message of the error.
    pub fn to_string(&self) -> (message: String)
        ensures
            message@ == saga_error_text(*self),
            *self matches SagaError::Step { step, source } ==> message@ == "step "@
                + text::debug_text(step@) + ": "@ + source@,
            *self matches SagaError::Compensation { step, original, compensate } ==> message@
                == "saga: compensation failed at step "@ + text::debug_text(step@) + ": "@
                + compensate@ + " (original: "@ + saga_error_text(*original) + ")"@,
            *self is Cancelled ==> message@ == "saga cancelled"@,
            *self matches SagaError::Definition(reason) ==> message@ == "saga definition error: "@
                + reason@,
        decreases self,
    {
        match self {
            SagaError::Step { step, source } => step_error(step.as_str(), source.as_str()),
            SagaError::Compensation { step, original, compensate } => {
                let mut out: String = "saga: compensation failed at step ".to_owned();
                out.append(quoted(step.as_str()).as_str());
                out.append(": ");
                out.append(compensate.as_str());
                out.append(" (original: ");
                out.append(original.to_string().as_str());
                out.append(")");
                out
            },
            SagaError::Cancelled => "saga cancelled".to_owned(),
            SagaError::Definition(message) => {
                let mut out: String = "saga definition error: ".to_owned();
                out.append(message.as_str());
                out
            },
        }
    }
}

/// A failed saga run: the error that ended it and the outcome.
#[derive(Debug)]
pub struct SagaFailure {
    /// The terminal outcome of the run.
    pub outcome: Box<Outcome>,
    /// The error that ended the run.
    pub error: SagaError,
}

impl SagaFailure {
    /// The terminal outcome of the run.
    pub fn outcome(&self) -> (outcome: &Outcome)
        ensures
            *outcome == *self.outcome,
    {
        &self.outcome
    }

    /// The error that ended the run.
    pub fn error(&self) -> (error: &SagaError)
        ensures
            *error == self.error,
    {
        &self.error
    }

    /// Whether the run failed because a compensation failed.
    pub fn is_compensation_error(&self) -> (yes: bool)
        ensures
            yes == (self.error is Compensation),
    {
        self.error.is_compensation_error()
    }

    /// The outcome and the error.
    pub fn into_parts(self) -> (parts: (Outcome, SagaError))
        ensures
            parts == (*self.outcome, self.error),
    {
        (*self.outcome, self.error)
    }

    /// The message of the error.
    pub fn to_string(&self) -> (message: String)
        ensures
            message@ == saga_error_text(self.error),
    {
        self.error.to_string()
    }
}

/// A saga definition.
#[derive(Debug)]
pub struct Saga {
    /// The saga name.
    pub name: String,
    /// The steps, in the order in which they were added.
    pub steps: Vec<Step>,
    /// How executed steps are rolled back.
    pub policy: CompensationPolicy,
}

/// The names of some steps.
pub open spec fn step_names_of(steps: Seq<Step>) -> Seq<Seq<char>> {
    Seq::new(steps.len(), |i: int| steps[i].name@)
}

/// The names that each step depends on.
pub open spec fn step_deps_of(steps: Seq<Step>) -> Seq<Seq<Seq<char>>> {
    Seq::new(steps.len(), |i: int| text::texts(steps[i].depends_on@))
}

/// Whether any step declares a dependency.
pub open spec fn declares_deps(steps: Seq<Step>) -> bool {
    exists|i: int| 0 <= i < steps.len() && (#[trigger] steps[i]).depends_on@.len() > 0
}

/// The dependency graph of some steps.
pub open spec fn step_graph(steps: Seq<Step>) -> Seq<Seq<usize>> {
    names::resolved(step_names_of(steps), step_deps_of(steps))
}

/// Whether `order` is the execution order of some steps: the order in which
/// they were added where none declares a dependency, and otherwise layer by
/// layer of a dependency graph that is sound.
pub open spec fn is_execution_order(steps: Seq<Step>, order: Seq<usize>) -> bool {
    if !declares_deps(steps) {
        order == graph::numbers(steps.len())
    } else {
        &&& names::distinct(step_names_of(steps))
        &&& names::faultless(step_names_of(steps), step_deps_of(steps), true)
        &&& !graph::cyclic(step_graph(steps))
        &&& exists|layers: Seq<Seq<usize>>| #[trigger]
            graph::layered(step_graph(steps), layers) && order == graph::flat(layers)
    }
}

/// The message for a step name that stands twice.
pub open spec fn duplicate_step_text(saga: Seq<char>, step: Seq<char>) -> Seq<char> {
    "saga "@ + text::debug_text(saga) + ": duplicate step name "@ + text::debug_text(step)
        + " (step ids must be unique to use depends_on)"@
}

/// The message for a dependency on a step that is not there.
pub open spec fn unknown_step_text(saga: Seq<char>, step: Seq<char>, dep: Seq<char>) -> Seq<char> {
    "saga "@ + text::debug_text(saga) + ": step "@ + text::debug_text(step)
        + " depends on unknown step "@ + text::debug_text(dep)
}

/// The message for a step that depends on itself.
pub open spec fn self_dependency_text(saga: Seq<char>, step: Seq<char>) -> Seq<char> {
    "saga "@ + text::debug_text(saga) + ": step "@ + text::debug_text(step)
        + " depends on itself"@
}

/// The message for dependencies that form a cycle.
pub open spec fn step_cycle_text(saga: Seq<char>) -> Seq<char> {
    "saga "@ + text::debug_text(saga)
        + ": dependency cycle among steps (every step must be reachable from a root)"@
}

/// Whether the steps have no execution order, for the reason that `message`
/// states: the first repeated name, else the first dependency that is unknown
/// or on the step itself, else a cycle.
pub open spec fn order_refused(saga: Seq<char>, steps: Seq<Step>, message: Seq<char>) -> bool {
    let ns = step_names_of(steps);
    let ds = step_deps_of(steps);
    &&& declares_deps(steps)
    &&& if !names::distinct(ns) {
        exists|i: int|
            0 <= i < ns.len() && #[trigger] names::repeats(ns, i) && (forall|j: int|
                0 <= j < i ==> !#[trigger] names::repeats(ns, j)) && message
                == duplicate_step_text(saga, ns[i])
    } else if !names::faultless(ns, ds, true) {
        exists|i: int, k: int|
            #[trigger] names::first_fault_at(ns, ds, true, i, k) && message == if names::place(
                ns,
                ds[i][k],
            ) < 0 {
                unknown_step_text(saga, ns[i], ds[i][k])
            } else {
                self_dependency_text(saga, ns[i])
            }
    } else {
        graph::cyclic(step_graph(steps)) && message == step_cycle_text(saga)
    }
}

/// An execution order lists every step once, and every step after all the
/// steps it depends on.
pub proof fn law_execution_order_is_sound(steps: Seq<Step>, order: Seq<usize>)
    requires
        steps.len() <= usize::MAX,
        is_execution_order(steps, order),
    ensures
        graph::complete(step_graph(steps), order),
        graph::respects(step_graph(steps), order),
        order.len() == steps.len(),
{
    let g = step_graph(steps);
    if !declares_deps(steps) {
        assert forall|i: int| 0 <= i < steps.len() implies steps[i].depends_on@.len() == 0 by {}
        assert forall|k: int, j: int|
            0 <= k < order.len() && #[trigger] graph::needs(g, order[k] as int, j) implies
            graph::members(order.take(k)).contains(j) by {
            assert(g[order[k] as int].len() == 0);
        }
        assert forall|i: int| 0 <= i < g.len() implies #[trigger] graph::members(order).contains(
            i,
        ) by {
            assert(order[i] == i);
        }
    } else {
        let ls = choose|layers: Seq<Seq<usize>>| #[trigger]
            graph::layered(g, layers) && order == graph::flat(layers);
        lemma_faultless_weaker(step_names_of(steps), step_deps_of(steps));
        names::lemma_resolved_closed(step_names_of(steps), step_deps_of(steps));
        graph::lemma_layered_order(g, ls);
    }
    lemma_complete_len(g, order);
}

proof fn lemma_faultless_weaker(ns: Seq<Seq<char>>, ds: Seq<Seq<Seq<char>>>)
    requires
        names::faultless(ns, ds, true),
    ensures
        names::faultless(ns, ds, false),
{
    assert forall|i: int, k: int| 0 <= i < ds.len() && 0 <= k < ds[i].len() implies !#[trigger]
    names::faulty(ns, ds, false, i, k) by {
        assert(!names::faulty(ns, ds, true, i, k));
    }
}

proof fn lemma_complete_len(g: Seq<Seq<usize>>, order: Seq<usize>)
    requires
        graph::complete(g, order),
    ensures
        order.len() == g.len(),
{
    let n = g.len() as int;
    let ints = order.map_values(|x: usize| x as int);
    let range = vstd::set_lib::set_int_range(0, n);
    vstd::set_lib::lemma_int_range(0, n);
    assert(ints.no_duplicates());
    assert(ints.to_set() =~= range) by {
        assert forall|i: int| ints.to_set().contains(i) == range.contains(i) by {
            if range.contains(i) {
                assert(graph::members(order).contains(i));
                let k = choose|k: int| 0 <= k < order.len() && #[trigger] order[k] == i;
                assert(ints[k] == i);
            }
            if ints.to_set().contains(i) {
                let k = choose|k: int| 0 <= k < ints.len() && ints[k] == i;
                assert(order[k] < n);
            }
        }
    }
    ints.unique_seq_to_set();
}

/// Where a saga run stands.
#[derive(Debug)]
pub enum SagaStage {
    /// Steps are running in order.
    Forward,
    /// A step failed and executed steps are rolled back.
    Rollback {
        /// The step that failed.
        failed: usize,
        /// The message of its failure.
        cause: String,
        /// The steps to compensate, in order.
        plan: Vec<usize>,
        /// The results so far: `None` for success, else the message of the
        /// failure.
        results: Vec<Option<String>>,
    },
    /// The run was cancelled.
    Cancelled,
    /// The definition is invalid, as the message says.
    Invalid(String),
}

/// A saga run in progress.
#[derive(Debug)]
pub struct SagaRun {
    /// The execution order.
    pub order: Vec<usize>,
    /// How many steps of the order have succeeded.
    pub done: usize,
    /// Where the run stands.
    pub stage: SagaStage,
}

/// The action that a saga run waits for.
#[derive(Debug)]
pub enum SagaAction {
    /// Run this step under its retry policy.
    RunStep(usize),
    /// Compensate these steps, all at once.
    Compensate(Vec<usize>),
    /// Nothing is left to do.
    Finish,
}

/// The steps to compensate after `executed` ran: in reverse order, those that
/// have a compensation.
pub open spec fn rollback_plan(steps: Seq<Step>, executed: Seq<usize>) -> Seq<usize> {
    executed.reverse().filter(|i: usize| steps[i as int].compensable)
}

/// The number of failures at the end of some results.
pub open spec fn trailing_failures(results: Seq<Option<String>>) -> nat
    decreases results.len(),
{
    if results.len() == 0 || results.last() is None {
        0
    } else {
        trailing_failures(results.drop_last()) + 1
    }
}

/// The retry policy under which the compensation of a step runs: its own under
/// [`CompensationPolicy::RetryWithBackoff`], and none under any other.
pub open spec fn compensation_retry_of(saga: Saga, i: int) -> Option<RetryPolicy> {
    if saga.policy == CompensationPolicy::RetryWithBackoff {
        Some(saga.steps@[i].retry)
    } else {
        None
    }
}

/// Whether a rollback with these results stops short.
pub open spec fn halted(policy: CompensationPolicy, results: Seq<Option<String>>) -> bool {
    match policy {
        CompensationPolicy::StopOnError => trailing_failures(results) >= 1,
        CompensationPolicy::CircuitBreaker => trailing_failures(results)
            >= CIRCUIT_BREAKER_THRESHOLD,
        _ => false,
    }
}

/// Whether two steps belong to one group.
pub open spec fn same_group(a: Option<String>, b: Option<String>) -> bool {
    match (a, b) {
        (Some(x), Some(y)) => x@ == y@,
        _ => false,
    }
}

/// The end of the stretch of `plan` from `end` on that shares the group of
/// the step at `start`.
pub open spec fn group_end(steps: Seq<Step>, plan: Seq<usize>, start: int, end: int) -> int
    decreases plan.len() - end,
{
    if 0 <= end < plan.len() && same_group(
        steps[plan[start] as int].group,
        steps[plan[end] as int].group,
    ) {
        group_end(steps, plan, start, end + 1)
    } else {
        end
    }
}

/// The steps that are compensated together once `pos` of the plan are done.
pub open spec fn batch(
    policy: CompensationPolicy,
    steps: Seq<Step>,
    plan: Seq<usize>,
    pos: int,
) -> Seq<usize> {
    match policy {
        CompensationPolicy::BestEffortParallel => plan.subrange(pos, plan.len() as int),
        CompensationPolicy::GroupedParallel => plan.subrange(
            pos,
            group_end(steps, plan, pos, pos + 1),
        ),
        _ => plan.subrange(pos, pos + 1),
    }
}

proof fn lemma_group_end(steps: Seq<Step>, plan: Seq<usize>, start: int, end: int)
    requires
        0 <= start < end <= plan.len(),
    ensures
        end <= group_end(steps, plan, start, end) <= plan.len(),
    decreases plan.len() - end,
{
    if end < plan.len() && same_group(
        steps[plan[start] as int].group,
        steps[plan[end] as int].group,
    ) {
        lemma_group_end(steps, plan, start, end + 1);
    }
}

/// The steps of a plan that were compensated successfully.
pub open spec fn rolled(plan: Seq<usize>, results: Seq<Option<String>>) -> Seq<usize>
    decreases results.len(),
{
    if results.len() == 0 {
        Seq::empty()
    } else {
        let front = rolled(plan, results.drop_last());
        if results.last() is None {
            front.push(plan[results.len() - 1])
        } else {
            front
        }
    }
}

/// The first failure among some results.
pub open spec fn first_failure(results: Seq<Option<String>>) -> Option<String>
    decreases results.len(),
{
    if results.len() == 0 {
        None
    } else {
        match first_failure(results.drop_last()) {
            Some(message) => Some(message),
            None => results.last(),
        }
    }
}

/// The names of numbered steps.
pub open spec fn names_at(steps: Seq<Step>, list: Seq<usize>) -> Seq<Seq<char>> {
    Seq::new(list.len(), |k: int| steps[list[k] as int].name@)
}

/// Whether a list of numbers stays within the steps.
pub open spec fn within(steps: Seq<Step>, list: Seq<usize>) -> bool {
    forall|k: int| 0 <= k < list.len() ==> (#[trigger] list[k]) < steps.len()
}

impl SagaRun {
    /// Whether the run is one that `saga` can be in: its order is the
    /// execution order of the saga, and a rollback follows the plan of the
    /// steps that ran and never went on after it halted.
    pub open spec fn well_formed(self, saga: Saga) -> bool {
        &&& within(saga.steps@, self.order@)
        &&& self.done <= self.order@.len()
        &&& match self.stage {
            SagaStage::Forward => is_execution_order(saga.steps@, self.order@),
            SagaStage::Cancelled => is_execution_order(saga.steps@, self.order@) && self.done
                < self.order@.len(),
            SagaStage::Rollback { failed, cause, plan, results } => {
                &&& is_execution_order(saga.steps@, self.order@)
                &&& self.done < self.order@.len()
                &&& failed == self.order@[self.done as int]
                &&& plan@ == rollback_plan(saga.steps@, self.order@.take(self.done as int))
                &&& results@.len() <= plan@.len()
                &&& forall|m: int|
                    0 <= m < results@.len() ==> !halted(
                        saga.policy,
                        #[trigger] results@.take(m),
                    )
            },
            SagaStage::Invalid(message) => {
                &&& self.done == 0
                &&& self.order@.len() == 0
                &&& order_refused(saga.name@, saga.steps@, message@)
            },
        }
    }

    /// Whether nothing is left to do.
    pub open spec fn ended(self, saga: Saga) -> bool {
        match self.stage {
            SagaStage::Forward => self.done == self.order@.len(),
            SagaStage::Rollback { plan, results, .. } => halted(saga.policy, results@)
                || results@.len() == plan@.len(),
            SagaStage::Cancelled => true,
            SagaStage::Invalid(_) => true,
        }
    }
}

proof fn lemma_plan_within(steps: Seq<Step>, executed: Seq<usize>)
    requires
        within(steps, executed),
    ensures
        within(steps, rollback_plan(steps, executed)),
        rollback_plan(steps, executed).len() <= executed.len(),
{
    let back = executed.reverse();
    let pred = |i: usize| steps[i as int].compensable;
    let plan = back.filter(pred);
    back.lemma_filter_len(pred);
    assert forall|k: int| 0 <= k < plan.len() implies (#[trigger] plan[k]) < steps.len() by {
        assert(plan.contains(plan[k]));
        back.lemma_filter_contains_rev(pred, plan[k]);
        let m = choose|m: int| 0 <= m < back.len() && back[m] == plan[k];
        assert(executed[executed.len() - 1 - m] < steps.len());
    }
}

impl Saga {
    /// An empty saga that rolls back with best effort.
    pub fn new(name: &str) -> (saga: Saga)
        ensures
            saga.name@ == name@,
            saga.steps@.len() == 0,
            saga.policy == CompensationPolicy::BestEffort,
    {
        Saga { name: name.to_owned(), steps: Vec::new(), policy: CompensationPolicy::BestEffort }
    }

    /// The saga under a compensation policy.
    pub fn policy(self, policy: CompensationPolicy) -> (saga: Saga)
        ensures
            saga == (Saga { policy: policy, ..self }),
    {
        Saga { policy, ..self }
    }

    /// The saga with one step more.
    pub fn step(self, step: Step) -> (saga: Saga)
        ensures
            saga.name == self.name,
            saga.policy == self.policy,
            saga.steps@ == self.steps@.push(step),
    {
        let mut steps: Vec<Step> = self.steps;
        steps.push(step);
        Saga { name: self.name, steps, policy: self.policy }
    }

    /// The saga name.
    pub fn name(&self) -> (name: &str)
        ensures
            name@ == self.name@,
    {
        self.name.as_str()
    }

    /// The steps, in the order in which they were added.
    pub fn steps(&self) -> (steps: &Vec<Step>)
        ensures
            *steps == self.steps,
    {
        &self.steps
    }

    /// The step names, in the order in which they were added.
    pub fn step_names(&self) -> (list: Vec<String>)
        ensures
            text::texts(list@) == step_names_of(self.steps@),
    {
        let mut out: Vec<String> = Vec::new();
        let mut i: usize = 0;
        while i < self.steps.len()
            invariant
                i <= self.steps@.len(),
                out@.len() == i,
                forall|a: int| 0 <= a < i ==> (#[trigger] out@[a])@ == self.steps@[a].name@,
            decreases self.steps.len() - i,
        {
            out.push(self.steps[i].name.clone());
            i += 1;
        }
        assert(text::texts(out@) =~= step_names_of(self.steps@));
        out
    }

    fn step_deps(&self) -> (list: Vec<Vec<String>>)
        ensures
            names::text_lists(list@) == step_deps_of(self.steps@),
            list@.len() == self.steps@.len(),
    {
        let mut out: Vec<Vec<String>> = Vec::new();
        let mut i: usize = 0;
        while i < self.steps.len()
            invariant
                i <= self.steps@.len(),
                out@.len() == i,
                forall|a: int| 0 <= a < i ==> (#[trigger] out@[a])@ == self.steps@[a].depends_on@,
            decreases self.steps.len() - i,
        {
            out.push(clone_texts(&self.steps[i].depends_on));
            i += 1;
        }
        assert(names::text_lists(out@) =~= step_deps_of(self.steps@));
        out
    }

    /// The order in which the steps execute: as they were added where no step
    /// declares a dependency, and otherwise in topological layers with ties in
    /// the order in which they were added. An error says which name stands
    /// twice, which dependency is unknown or on the step itself, or that there
    /// is a cycle.
    pub fn execution_order(&self) -> (order: Result<Vec<usize>, String>)
        ensures
            match order {
                Ok(list) => is_execution_order(self.steps@, list@),
                Err(message) => order_refused(self.name@, self.steps@, message@),
            },
    {
        let n: usize = self.steps.len();
        let mut any: bool = false;
        let mut plain: Vec<usize> = Vec::new();
        let mut i: usize = 0;
        while i < n
            invariant
                i <= n,
                n == self.steps@.len(),
                plain@ == graph::numbers(i as nat),
                any == exists|j: int|
                    0 <= j < i && (#[trigger] self.steps@[j]).depends_on@.len() > 0,
            decreases n - i,
        {
            if self.steps[i].depends_on.len() > 0 {
                any = true;
            }
            plain.push(i);
            assert(plain@ =~= graph::numbers((i + 1) as nat));
            i += 1;
        }
        if !any {
            return Ok(plain);
        }
        let ns: Vec<String> = self.step_names();
        let ds: Vec<Vec<String>> = self.step_deps();
        let ghost names_view = step_names_of(self.steps@);
        let ghost deps_view = step_deps_of(self.steps@);
        if let Some(at) = first_repeat(&ns) {
            let mut message: String = "saga ".to_owned();
            message.append(quoted(self.name.as_str()).as_str());
            message.append(": duplicate step name ");
            message.append(quoted(ns[at].as_str()).as_str());
            message.append(" (step ids must be unique to use depends_on)");
            proof {
                assert(names::repeats(names_view, at as int));
                assert(names_view[at as int] == ns@[at as int]@);
            }
            return Err(message);
        }
        if let Some((at, k)) = first_fault(&ns, &ds, true) {
            proof {
                assert(names::first_fault_at(names_view, deps_view, true, at as int, k as int));
                assert(deps_view[at as int][k as int] == ds@[at as int]@[k as int]@);
                assert(names_view[at as int] == ns@[at as int]@);
            }
            let mut message: String = "saga ".to_owned();
            message.append(quoted(self.name.as_str()).as_str());
            message.append(": step ");
            message.append(quoted(ns[at].as_str()).as_str());
            match names::find(&ns, ds[at][k].as_str()) {
                Some(_) => {
                    message.append(" depends on itself");
                },
                None => {
                    message.append(" depends on unknown step ");
                    message.append(quoted(ds[at][k].as_str()).as_str());
                },
            }
            return Err(message);
        }
        proof {
            lemma_faultless_weaker(names_view, deps_view);
        }
        let g: Vec<Vec<usize>> = resolve(&ns, &ds);
        let ls: Vec<Vec<usize>> = layers(&g);
        let order: Vec<usize> = flatten(&ls);
        proof {
            assert(graph::lists(g@) == step_graph(self.steps@));
            assert(step_graph(self.steps@).len() == self.steps@.len());
            graph::lemma_layers_grow(graph::lists(g@), graph::lists(ls@));
            graph::lemma_layered_order(graph::lists(g@), graph::lists(ls@));
            assert forall|k: int| 0 <= k < order@.len() implies (#[trigger] order@[k])
                < graph::lists(g@).len() by {
                assert(graph::ready(
                    graph::lists(g@),
                    graph::members(order@.take(k)),
                    order@[k] as int,
                ));
            }
            graph::lemma_left_out(graph::lists(g@), order@);
        }
        let rest: Vec<usize> = remaining(&g, &order);
        if rest.len() != 0 {
            let mut message: String = "saga ".to_owned();
            message.append(quoted(self.name.as_str()).as_str());
            message.append(
                ": dependency cycle among steps (every step must be reachable from a root)",
            );
            return Err(message);
        }
        Ok(order)
    }

    /// Starts a run. Where the definition is invalid the run has ended before
    /// any step.
    pub fn begin(&self) -> (run: SagaRun)
        ensures
            run.well_formed(*self),
            run.done == 0,
            run.stage is Forward || run.stage is Invalid,
            run.stage is Invalid <==> exists|message: Seq<char>| #[trigger]
                order_refused(self.name@, self.steps@, message),
    {
        match self.execution_order() {
            Ok(order) => {
                proof {
                    assert(self.steps@.len() == self.steps.len());
                    law_execution_order_is_sound(self.steps@, order@);
                    assert forall|message: Seq<char>| !#[trigger]
                    order_refused(self.name@, self.steps@, message) by {}
                }
                SagaRun { order, done: 0, stage: SagaStage::Forward }
            },
            Err(message) => SagaRun {
                order: Vec::new(),
                done: 0,
                stage: SagaStage::Invalid(message),
            },
        }
    }
}

/// The names among some compensation results.
pub open spec fn oks(results: Seq<Result<String, String>>) -> Seq<String>
    decreases results.len(),
{
    if results.len() == 0 {
        Seq::empty()
    } else {
        match results.last() {
            Ok(name) => oks(results.drop_last()).push(name),
            Err(_) => oks(results.drop_last()),
        }
    }
}

/// The first error among some compensation results.
pub open spec fn first_err(results: Seq<Result<String, String>>) -> Option<String>
    decreases results.len(),
{
    if results.len() == 0 {
        None
    } else {
        match first_err(results.drop_last()) {
            Some(message) => Some(message),
            None => match results.last() {
                Ok(_) => None,
                Err(message) => Some(message),
            },
        }
    }
}

/// Splits compensation results into the names that were rolled back and the
/// first error.
pub fn collect_compensations(results: Vec<Result<String, String>>) -> (split: (
    Vec<String>,
    Option<String>,
))
    ensures
        split.0@ == oks(results@),
        split.1 == first_err(results@),
{
    let mut names: Vec<String> = Vec::new();
    let mut error: Option<String> = None;
    let mut i: usize = 0;
    while i < results.len()
        invariant
            i <= results@.len(),
            names@ == oks(results@.take(i as int)),
            error == first_err(results@.take(i as int)),
        decreases results.len() - i,
    {
        proof {
            let next = results@.take(i + 1);
            assert(next.drop_last() =~= results@.take(i as int));
            assert(next.last() == results@[i as int]);
        }
        match &results[i] {
            Ok(name) => {
                names.push(name.clone());
            },
            Err(message) => {
                if error.is_none() {
                    error = Some(message.clone());
                }
            },
        }
        i += 1;
    }
    assert(results@.take(results@.len() as int) =~= results@);
    (names, error)
}

/// Whether named results are those of a plan.
spec fn named_results(
    steps: Seq<Step>,
    plan: Seq<usize>,
    results: Seq<Option<String>>,
    named: Seq<Result<String, String>>,
) -> bool {
    &&& named.len() == results.len()
    &&& forall|k: int|
        0 <= k < results.len() ==> match results[k] {
            None => (#[trigger] named[k]) matches Ok(name) && name@ == steps[plan[k] as int].name@,
            Some(message) => named[k] == Err::<String, String>(message),
        }
}

proof fn lemma_named_results(
    steps: Seq<Step>,
    plan: Seq<usize>,
    results: Seq<Option<String>>,
    named: Seq<Result<String, String>>,
)
    requires
        named_results(steps, plan, results, named),
    ensures
        text::texts(oks(named)) == names_at(steps, rolled(plan, results)),
        first_err(named) == first_failure(results),
    decreases results.len(),
{
    if results.len() == 0 {
        assert(text::texts(oks(named)) =~= names_at(steps, rolled(plan, results)));
    } else {
        let n = results.len() - 1;
        assert forall|k: int| 0 <= k < n implies named.drop_last()[k] == named[k] by {}
        lemma_named_results(steps, plan, results.drop_last(), named.drop_last());
        let front = text::texts(oks(named.drop_last()));
        let rolled_front = rolled(plan, results.drop_last());
        assert(named[n] == named.last());
        match results.last() {
            None => {
                let name = named.last()->Ok_0;
                assert(text::texts(oks(named)) =~= front.push(name@));
                assert(names_at(steps, rolled(plan, results)) =~= names_at(
                    steps,
                    rolled_front,
                ).push(steps[plan[n] as int].name@));
            },
            Some(message) => {},
        }
    }
}

/// Whether `outcome` records how a run ended.
pub open spec fn is_outcome(
    saga: Saga,
    run: SagaRun,
    started: Timestamp,
    finished: Timestamp,
    outcome: Outcome,
) -> bool {
    let executed = names_at(saga.steps@, run.order@.take(run.done as int));
    &&& outcome.saga@ == saga.name@
    &&& outcome.started_at == started
    &&& outcome.finished_at == finished
    &&& text::texts(outcome.steps_executed@) == executed
    &&& match run.stage {
        SagaStage::Forward => {
            &&& outcome.status == SagaStatus::Completed
            &&& outcome.steps_rolled@.len() == 0
            &&& outcome.error is None
        },
        SagaStage::Cancelled => {
            &&& outcome.status == SagaStatus::Failed
            &&& outcome.steps_rolled@.len() == 0
            &&& outcome.error matches Some(e) && e@ == "saga cancelled"@
        },
        SagaStage::Invalid(message) => {
            &&& outcome.status == SagaStatus::Failed
            &&& outcome.steps_rolled@.len() == 0
            &&& outcome.error matches Some(e) && e@ == "saga definition error: "@ + message@
        },
        SagaStage::Rollback { failed, cause, plan, results } => {
            &&& outcome.status == SagaStatus::Compensated
            &&& text::texts(outcome.steps_rolled@) == names_at(
                saga.steps@,
                rolled(plan@, results@),
            )
            &&& outcome.error matches Some(e) && e@ == step_error_text(
                saga.steps@[failed as int].name@,
                cause@,
            )
        },
    }
}

/// Whether `error` is the error with which a run ended.
pub open spec fn is_run_error(saga: Saga, run: SagaRun, error: SagaError) -> bool {
    match run.stage {
        SagaStage::Forward => false,
        SagaStage::Cancelled => error == SagaError::Cancelled,
        SagaStage::Invalid(message) => error == SagaError::Definition(message),
        SagaStage::Rollback { failed, cause, results, .. } => {
            let name = saga.steps@[failed as int].name@;
            if saga.policy == CompensationPolicy::StopOnError && first_failure(results@) is Some {
                error matches SagaError::Compensation { step, original, compensate } && {
                    &&& step@ == name
                    &&& Some(compensate) == first_failure(results@)
                    &&& *original matches SagaError::Step { step: s, source } && s@ == name
                        && source@ == cause@
                }
            } else {
                error matches SagaError::Step { step, source } && step@ == name && source@ == cause@
            }
        },
    }
}

impl Saga {
    fn names_of(&self, list: &Vec<usize>, count: usize) -> (out: Vec<String>)
        requires
            within(self.steps@, list@),
            count <= list@.len(),
        ensures
            text::texts(out@) == names_at(self.steps@, list@.take(count as int)),
    {
        let mut out: Vec<String> = Vec::new();
        let mut i: usize = 0;
        while i < count
            invariant
                i <= count <= list@.len(),
                within(self.steps@, list@),
                out@.len() == i,
                forall|a: int|
                    0 <= a < i ==> (#[trigger] out@[a])@ == self.steps@[list@[a] as int].name@,
            decreases count - i,
        {
            out.push(self.steps[list[i]].name.clone());
            i += 1;
        }
        assert(text::texts(out@) =~= names_at(self.steps@, list@.take(count as int)));
        out
    }

    fn has_halted(&self, results: &Vec<Option<String>>) -> (yes: bool)
        ensures
            yes == halted(self.policy, results@),
            yes ==> self.policy == CompensationPolicy::StopOnError || self.policy
                == CompensationPolicy::CircuitBreaker,
            yes ==> results@.len() > 0 && results@.last() is Some,
    {
        let mut failures: usize = 0;
        let mut i: usize = results.len();
        assert(results@.take(i as int) =~= results@);
        while i > 0 && results[i - 1].is_some()
            invariant
                i + failures == results.len(),
                trailing_failures(results@) == trailing_failures(results@.take(i as int))
                    + failures,
            decreases i,
        {
            proof {
                assert(results@.take(i as int).drop_last() =~= results@.take(i - 1));
                assert(results@.take(i as int).last() == results@[i - 1]);
            }
            failures += 1;
            i -= 1;
        }
        proof {
            if i > 0 {
                assert(results@.take(i as int).last() == results@[i - 1]);
            }
        }
        match self.policy {
            CompensationPolicy::StopOnError => failures >= 1,
            CompensationPolicy::CircuitBreaker => failures >= CIRCUIT_BREAKER_THRESHOLD as usize,
            _ => false,
        }
    }

    fn in_one_group(&self, a: usize, b: usize) -> (yes: bool)
        requires
            a < self.steps@.len(),
            b < self.steps@.len(),
        ensures
            yes == same_group(self.steps@[a as int].group, self.steps@[b as int].group),
    {
        match (&self.steps[a].group, &self.steps[b].group) {
            (Some(x), Some(y)) => same(x.as_str(), y.as_str()),
            _ => false,
        }
    }

    fn next_batch(&self, plan: &Vec<usize>, pos: usize) -> (list: Vec<usize>)
        requires
            within(self.steps@, plan@),
            pos < plan@.len(),
        ensures
            list@ == batch(self.policy, self.steps@, plan@, pos as int),
            list@.len() > 0,
            pos + list@.len() <= plan@.len(),
            forall|k: int| 0 <= k < list@.len() ==> #[trigger] list@[k] == plan@[pos + k],
            self.policy == CompensationPolicy::GroupedParallel && list@.len() > 1 ==> forall|k: int|
                0 <= k < list@.len() ==> self.steps@[(#[trigger] list@[k]) as int].group is Some
                    && self.steps@[list@[k] as int].group->0@
                    == self.steps@[plan@[pos as int] as int].group->0@,
            list@.len() > 1 ==> self.policy == CompensationPolicy::GroupedParallel || self.policy
                == CompensationPolicy::BestEffortParallel,
    {
        proof {
            law_only_labelled_steps_share_a_batch(self.steps@, plan@, pos as int);
        }
        assert(plan@.len() == plan.len());
        let mut end: usize = pos + 1;
        match self.policy {
            CompensationPolicy::BestEffortParallel => {
                end = plan.len();
            },
            CompensationPolicy::GroupedParallel => {
                while end < plan.len() && self.in_one_group(plan[pos], plan[end])
                    invariant
                        within(self.steps@, plan@),
                        pos < end <= plan@.len(),
                        group_end(self.steps@, plan@, pos as int, end as int) == group_end(
                            self.steps@,
                            plan@,
                            pos as int,
                            pos + 1,
                        ),
                    decreases plan.len() - end,
                {
                    end += 1;
                }
                assert(end == group_end(self.steps@, plan@, pos as int, pos + 1));
            },
            _ => {},
        }
        let mut list: Vec<usize> = Vec::new();
        let mut i: usize = pos;
        while i < end
            invariant
                pos <= i <= end <= plan@.len(),
                list@ == plan@.subrange(pos as int, i as int),
            decreases end - i,
        {
            list.push(plan[i]);
            assert(plan@.subrange(pos as int, i + 1) =~= plan@.subrange(pos as int, i as int).push(
                plan@[i as int],
            ));
            i += 1;
        }
        list
    }

    /// Names the action that is due. `cancelled` says whether cancellation has
    /// been requested; it ends a run that still has a step to execute, without
    /// compensation, and has no effect on a rollback.
    pub fn next(&self, run: &mut SagaRun, cancelled: bool) -> (action: SagaAction)
        requires
            old(run).well_formed(*self),
        ensures
            final(run).well_formed(*self),
            match old(run).stage {
                SagaStage::Forward => if old(run).done == old(run).order@.len() {
                    *final(run) == *old(run) && action == SagaAction::Finish
                } else if cancelled {
                    &&& *final(run) == (SagaRun { stage: SagaStage::Cancelled, ..*old(run) })
                    &&& action == SagaAction::Finish
                } else {
                    &&& *final(run) == *old(run)
                    &&& action == SagaAction::RunStep(old(run).order@[old(run).done as int])
                },
                SagaStage::Rollback { plan, results, .. } => {
                    &&& *final(run) == *old(run)
                    &&& if old(run).ended(*self) {
                        action == SagaAction::Finish
                    } else {
                        action matches SagaAction::Compensate(list) && list@ == batch(
                            self.policy,
                            self.steps@,
                            plan@,
                            results@.len() as int,
                        )
                    }
                },
                _ => *final(run) == *old(run) && action == SagaAction::Finish,
            },
            action == SagaAction::Finish <==> final(run).ended(*self),
            old(run).stage matches SagaStage::Rollback { plan, results, .. } ==> {
                let n = results@.len() as int;
                &&& action is Finish <==> {
                    ||| n == plan@.len()
                    ||| self.policy == CompensationPolicy::StopOnError && n >= 1 && results@[n
                        - 1] is Some
                    ||| self.policy == CompensationPolicy::CircuitBreaker && n >= 3 && results@[n
                        - 1] is Some && results@[n - 2] is Some && results@[n - 3] is Some
                }
                &&& action matches SagaAction::Compensate(list) ==> {
                    &&& list@.len() >= 1
                    &&& forall|k: int| 0 <= k < list@.len() ==> #[trigger] list@[k] == plan@[n + k]
                    &&& list@.len() > 1 ==> self.policy == CompensationPolicy::GroupedParallel
                        || self.policy == CompensationPolicy::BestEffortParallel
                    &&& self.policy == CompensationPolicy::BestEffortParallel ==> n + list@.len()
                        == plan@.len()
                    &&& self.policy == CompensationPolicy::GroupedParallel && list@.len() > 1
                        ==> forall|k: int|
                        0 <= k < list@.len() ==> self.steps@[(
                        #[trigger] list@[k]) as int].group is Some
                            && self.steps@[list@[k] as int].group->0@
                            == self.steps@[list@[0] as int].group->0@
                }
            },
    {
        proof {
            if let SagaStage::Rollback { plan, results, .. } = &run.stage {
                lemma_plan_within(self.steps@, run.order@.take(run.done as int));
                law_rollback_stops_short_on_failures(self.policy, results@);
            }
        }
        match &run.stage {
            SagaStage::Forward => {
                if run.done == run.order.len() {
                    return SagaAction::Finish;
                }
            },
            SagaStage::Rollback { plan, results, .. } => {
                if results.len() == plan.len() || self.has_halted(results) {
                    return SagaAction::Finish;
                }
                return SagaAction::Compensate(self.next_batch(plan, results.len()));
            },
            _ => {
                return SagaAction::Finish;
            },
        }
        if cancelled {
            run.stage = SagaStage::Cancelled;
            SagaAction::Finish
        } else {
            SagaAction::RunStep(run.order[run.done])
        }
    }

    /// Records that the step that was due has succeeded.
    pub fn step_succeeded(&self, run: &mut SagaRun)
        requires
            old(run).well_formed(*self),
            old(run).stage is Forward,
            old(run).done < old(run).order@.len(),
        ensures
            final(run).well_formed(*self),
            *final(run) == (SagaRun { done: (old(run).done + 1) as usize, ..*old(run) }),
    {
        assert(run.order@.len() == run.order.len());
        run.done = run.done + 1;
    }

    /// Records that the step that was due has failed, and plans the rollback:
    /// the steps that ran and have a compensation, last first.
    pub fn step_failed(&self, run: &mut SagaRun, error: StepInvokeError)
        requires
            old(run).well_formed(*self),
            old(run).stage is Forward,
            old(run).done < old(run).order@.len(),
        ensures
            final(run).well_formed(*self),
            final(run).order == old(run).order,
            final(run).done == old(run).done,
            final(run).stage matches SagaStage::Rollback { failed, cause, plan, results } && {
                &&& failed == old(run).order@[old(run).done as int]
                &&& cause@ == step_invoker::reported_cause(
                    self.steps@[failed as int].retry,
                    error,
                    "step failed"@,
                )
                &&& results@.len() == 0
            },
    {
        let failed: usize = run.order[run.done];
        let cause: String = unwrap_invoke_cause(&self.steps[failed].retry, error, "step failed");
        let ghost executed = run.order@.take(run.done as int);
        let ghost back = executed.reverse();
        let ghost pred = |i: usize| self.steps@[i as int].compensable;
        let mut plan: Vec<usize> = Vec::new();
        let mut i: usize = 0;
        proof {
            reveal(Seq::filter);
            assert(back.take(0).filter(pred) =~= Seq::empty());
        }
        while i < run.done
            invariant
                i <= run.done < run.order@.len(),
                within(self.steps@, run.order@),
                executed == run.order@.take(run.done as int),
                back == executed.reverse(),
                pred == (|i: usize| self.steps@[i as int].compensable),
                plan@ == back.take(i as int).filter(pred),
            decreases run.done - i,
        {
            let at: usize = run.order[run.done - 1 - i];
            proof {
                reveal(Seq::filter);
                assert(back.take(i + 1).drop_last() =~= back.take(i as int));
                assert(back.take(i + 1).last() == at);
            }
            if self.steps[at].compensable {
                plan.push(at);
            }
            i += 1;
        }
        proof {
            assert(back.take(run.done as int) =~= back);
        }
        run.stage = SagaStage::Rollback { failed, cause, plan, results: Vec::new() };
    }

    /// The message of the failure that started the rollback.
    pub fn failure_message(&self, run: &SagaRun) -> (message: Option<String>)
        requires
            run.well_formed(*self),
        ensures
            match run.stage {
                SagaStage::Rollback { failed, cause, .. } => message matches Some(m) && m@
                    == step_error_text(self.steps@[failed as int].name@, cause@),
                _ => message is None,
            },
    {
        match &run.stage {
            SagaStage::Rollback { failed, cause, .. } => Some(
                step_error(self.steps[*failed].name.as_str(), cause.as_str()),
            ),
            _ => None,
        }
    }

    /// Whether a rollback is announced: only where a step had executed.
    pub fn announces_rollback(&self, run: &SagaRun) -> (yes: bool)
        ensures
            yes == (run.stage is Rollback && run.done > 0),
    {
        match &run.stage {
            SagaStage::Rollback { .. } => run.done > 0,
            _ => false,
        }
    }

    /// The retry policy under which the compensation of a step runs; none where
    /// it is tried once, without a timeout.
    pub fn compensation_retry(&self, i: usize) -> (retry: Option<RetryPolicy>)
        requires
            i < self.steps@.len(),
        ensures
            retry == compensation_retry_of(*self, i as int),
            retry is Some <==> self.policy == CompensationPolicy::RetryWithBackoff,
            retry matches Some(policy) ==> policy == self.steps@[i as int].retry,
    {
        if self.policy == CompensationPolicy::RetryWithBackoff {
            Some(self.steps[i].retry)
        } else {
            None
        }
    }

    /// The message of a compensation that failed under its retry policy.
    pub fn compensation_cause(&self, i: usize, error: StepInvokeError) -> (cause: String)
        requires
            i < self.steps@.len(),
        ensures
            cause@ == step_invoker::reported_cause(
                self.steps@[i as int].retry,
                error,
                "step failed"@,
            ),
    {
        unwrap_invoke_cause(&self.steps[i].retry, error, "step failed")
    }

    /// Records the results of the compensations that were due, one for each
    /// step of the batch and in its order.
    pub fn compensated(&self, run: &mut SagaRun, outcomes: Vec<Option<String>>)
        requires
            old(run).well_formed(*self),
            !old(run).ended(*self),
            old(run).stage matches SagaStage::Rollback { plan, results, .. } && outcomes@.len()
                == batch(self.policy, self.steps@, plan@, results@.len() as int).len(),
        ensures
            final(run).well_formed(*self),
            final(run).order == old(run).order,
            final(run).done == old(run).done,
            match (old(run).stage, final(run).stage) {
                (
                    SagaStage::Rollback { failed: f0, cause: c0, plan: p0, results: r0 },
                    SagaStage::Rollback { failed, cause, plan, results },
                ) => f0 == failed && c0 == cause && p0 == plan && results@ == r0@ + outcomes@,
                _ => false,
            },
    {
        let ghost before = run.stage->results@;
        let ghost plan_view = run.stage->plan@;
        let ghost policy = self.policy;
        proof {
            lemma_plan_within(self.steps@, run.order@.take(run.done as int));
            lemma_group_end(self.steps@, plan_view, before.len() as int, before.len() as int + 1);
        }
        let mut more: Vec<Option<String>> = outcomes;
        if let SagaStage::Rollback { results, .. } = &mut run.stage {
            results.append(&mut more);
        }
        proof {
            let later = run.stage->results@;
            assert(later =~= before + outcomes@);
            assert forall|m: int| 0 <= m < later.len() implies !halted(
                policy,
                #[trigger] later.take(m),
            ) by {
                if m < before.len() {
                    assert(later.take(m) =~= before.take(m));
                } else if m == before.len() {
                    assert(later.take(m) =~= before);
                }
            }
        }
    }

    /// The outcome of a run that has ended.
    pub fn finish(&self, run: SagaRun, started_at: Timestamp, finished_at: Timestamp) -> (result:
        Result<Outcome, SagaFailure>)
        requires
            run.well_formed(*self),
            run.ended(*self),
        ensures
            match result {
                Ok(outcome) => run.stage is Forward && is_outcome(
                    *self,
                    run,
                    started_at,
                    finished_at,
                    outcome,
                ),
                Err(failure) => is_run_error(*self, run, failure.error) && is_outcome(
                    *self,
                    run,
                    started_at,
                    finished_at,
                    *failure.outcome,
                ),
            },
            result is Ok <==> run.stage is Forward,
            result matches Ok(outcome) ==> outcome.status == SagaStatus::Completed
                && outcome.steps_executed@.len() == run.done && outcome.steps_rolled@.len() == 0
                && outcome.error is None,
            result matches Err(failure) ==> {
                &&& failure.outcome.status == SagaStatus::Compensated <==> run.stage is Rollback
                &&& failure.outcome.status == SagaStatus::Failed <==> !(run.stage is Rollback)
                &&& failure.outcome.steps_executed@.len() == run.done
                &&& failure.outcome.error is Some
                &&& failure.outcome.started_at == started_at
                &&& failure.outcome.finished_at == finished_at
                &&& failure.error is Cancelled <==> run.stage is Cancelled
                &&& failure.error is Definition <==> run.stage is Invalid
                &&& run.stage matches SagaStage::Rollback { failed, cause, results, .. } ==> {
                    &&& failure.error is Compensation <==> self.policy
                        == CompensationPolicy::StopOnError && exists|k: int|
                        0 <= k < results@.len() && #[trigger] results@[k] is Some
                    &&& !(failure.error is Compensation) ==> failure.error is Step
                        && failure.error->Step_step@ == self.steps@[failed as int].name@
                        && failure.error->source@ == cause@
                }
            },
    {
        proof {
            if let SagaStage::Rollback { results, .. } = &run.stage {
                law_first_failure_is_the_earliest(results@);
            }
            assert(names_at(self.steps@, run.order@.take(run.done as int)).len() == run.done);
        }
        let steps_executed: Vec<String> = self.names_of(&run.order, run.done);
        let saga: String = self.name.clone();
        match run.stage {
            SagaStage::Forward => Ok(
                Outcome {
                    saga,
                    status: SagaStatus::Completed,
                    steps_executed,
                    steps_rolled: Vec::new(),
                    error: None,
                    started_at,
                    finished_at,
                },
            ),
            SagaStage::Cancelled => {
                let error = SagaError::Cancelled;
                let outcome = Outcome {
                    saga,
                    status: SagaStatus::Failed,
                    steps_executed,
                    steps_rolled: Vec::new(),
                    error: Some(error.to_string()),
                    started_at,
                    finished_at,
                };
                Err(SagaFailure { outcome: Box::new(outcome), error })
            },
            SagaStage::Invalid(message) => {
                let error = SagaError::Definition(message);
                let outcome = Outcome {
                    saga,
                    status: SagaStatus::Failed,
                    steps_executed,
                    steps_rolled: Vec::new(),
                    error: Some(error.to_string()),
                    started_at,
                    finished_at,
                };
                Err(SagaFailure { outcome: Box::new(outcome), error })
            },
            SagaStage::Rollback { failed, cause, plan, results } => {
                proof {
                    lemma_plan_within(self.steps@, run.order@.take(run.done as int));
                }
                let mut named: Vec<Result<String, String>> = Vec::new();
                let mut i: usize = 0;
                while i < results.len()
                    invariant
                        i <= results@.len() <= plan@.len(),
                        within(self.steps@, plan@),
                        named_results(self.steps@, plan@, results@.take(i as int), named@),
                    decreases results.len() - i,
                {
                    let ghost before = named@;
                    match &results[i] {
                        None => named.push(Ok(self.steps[plan[i]].name.clone())),
                        Some(message) => named.push(Err(message.clone())),
                    }
                    proof {
                        assert forall|k: int| 0 <= k < i + 1 implies match results@.take(
                            i + 1,
                        )[k] {
                            None => (#[trigger] named@[k]) matches Ok(name) && name@
                                == self.steps@[plan@[k] as int].name@,
                            Some(message) => named@[k] == Err::<String, String>(message),
                        } by {
                            if k < i {
                                assert(before[k] == named@[k]);
                                assert(results@.take(i as int)[k] == results@.take(i + 1)[k]);
                            }
                        }
                    }
                    i += 1;
                }
                proof {
                    assert(results@.take(results@.len() as int) =~= results@);
                    lemma_named_results(self.steps@, plan@, results@, named@);
                }
                let (steps_rolled, compensation_error) = collect_compensations(named);
                let step: String = self.steps[failed].name.clone();
                let message: String = step_error(step.as_str(), cause.as_str());
                let original = SagaError::Step { step: step.clone(), source: cause };
                let outcome = Outcome {
                    saga,
                    status: SagaStatus::Compensated,
                    steps_executed,
                    steps_rolled,
                    error: Some(message),
                    started_at,
                    finished_at,
                };
                let error = match compensation_error {
                    Some(compensate) => if self.policy == CompensationPolicy::StopOnError {
                        SagaError::Compensation { step, original: Box::new(original), compensate }
                    } else {
                        original
                    },
                    None => original,
                };
                Err(SagaFailure { outcome: Box::new(outcome), error })
            },
        }
    }
}

proof fn lemma_rolled(plan: Seq<usize>, results: Seq<Option<String>>, i: usize)
    requires
        results.len() <= plan.len(),
    ensures
        rolled(plan, results).contains(i) <==> exists|k: int|
            0 <= k < results.len() && plan[k] == i && #[trigger] results[k] is None,
    decreases results.len(),
{
    if results.len() > 0 {
        let n = results.len() - 1;
        let front = results.drop_last();
        lemma_rolled(plan, front, i);
        let whole = rolled(plan, results);
        let part = rolled(plan, front);
        if part.contains(i) {
            let k = choose|k: int|
                0 <= k < front.len() && plan[k] == i && #[trigger] front[k] is None;
            assert(results[k] is None);
            let a = choose|a: int| 0 <= a < part.len() && part[a] == i;
            assert(whole[a] == i);
        }
        if results.last() is None && plan[n] == i {
            assert(whole[whole.len() - 1] == i);
            assert(results[n] is None);
        }
        if whole.contains(i) && !part.contains(i) {
            let a = choose|a: int| 0 <= a < whole.len() && whole[a] == i;
            if a < part.len() {
                assert(part[a] == i);
            }
            assert(results[n] is None);
        }
        if exists|k: int| 0 <= k < results.len() && plan[k] == i && #[trigger] results[k] is None {
            let k = choose|k: int|
                0 <= k < results.len() && plan[k] == i && #[trigger] results[k] is None;
            if k < n {
                assert(front[k] is None);
            }
        }
    }
}

/// A rollback touches only steps that executed and have a compensation, and it
/// reports a step as rolled back exactly when its compensation succeeded.
pub proof fn law_rollback_is_exact(saga: Saga, run: SagaRun, i: usize)
    requires
        run.well_formed(saga),
        run.stage is Rollback,
    ensures
        ({
            let plan = run.stage->plan@;
            let results = run.stage->results@;
            &&& plan.contains(i) <==> (saga.steps@[i as int].compensable && run.order@.take(
                run.done as int,
            ).contains(i))
            &&& rolled(plan, results).contains(i) <==> exists|k: int|
                0 <= k < results.len() && plan[k] == i && #[trigger] results[k] is None
        }),
{
    let plan = run.stage->plan@;
    let results = run.stage->results@;
    let executed = run.order@.take(run.done as int);
    let back = executed.reverse();
    let pred = |i: usize| saga.steps@[i as int].compensable;
    lemma_rolled(plan, results, i);
    if plan.contains(i) {
        back.lemma_filter_contains_rev(pred, i);
        let m = choose|m: int| 0 <= m < back.len() && back[m] == i;
        assert(executed[executed.len() - 1 - m] == i);
        let k = choose|k: int| 0 <= k < plan.len() && plan[k] == i;
        back.lemma_filter_pred(pred, k);
    }
    if executed.contains(i) && saga.steps@[i as int].compensable {
        let m = choose|m: int| 0 <= m < executed.len() && executed[m] == i;
        assert(back[executed.len() - 1 - m] == i);
        back.lemma_filter_contains(pred, executed.len() - 1 - m);
    }
}

/// Where every compensation succeeds, the steps that executed and have a
/// compensation are all rolled back, last first.
pub proof fn law_successful_rollback_is_complete(saga: Saga, run: SagaRun)
    requires
        run.well_formed(saga),
        run.stage is Rollback,
        run.ended(saga),
        forall|k: int|
            0 <= k < run.stage->results@.len() ==> #[trigger] run.stage->results@[k] is None,
    ensures
        rolled(run.stage->plan@, run.stage->results@) == rollback_plan(
            saga.steps@,
            run.order@.take(run.done as int),
        ),
        first_failure(run.stage->results@) is None,
{
    let plan = run.stage->plan@;
    let results = run.stage->results@;
    lemma_all_succeeded(plan, results);
    assert(plan.take(plan.len() as int) =~= plan);
}

proof fn lemma_all_succeeded(plan: Seq<usize>, results: Seq<Option<String>>)
    requires
        results.len() <= plan.len(),
        forall|k: int| 0 <= k < results.len() ==> #[trigger] results[k] is None,
    ensures
        rolled(plan, results) == plan.take(results.len() as int),
        first_failure(results) is None,
        trailing_failures(results) == 0,
    decreases results.len(),
{
    if results.len() == 0 {
        assert(plan.take(0) =~= Seq::empty());
    } else {
        let n = results.len() - 1;
        assert(results[n] is None);
        lemma_all_succeeded(plan, results.drop_last());
        assert(plan.take(n + 1) =~= plan.take(n).push(plan[n]));
    }
}

/// Under `StopOnError` nothing is compensated after a failure: only the last
/// result can be one.
pub proof fn law_stop_on_error_stops(saga: Saga, run: SagaRun, k: int)
    requires
        run.well_formed(saga),
        run.stage is Rollback,
        saga.policy == CompensationPolicy::StopOnError,
        0 <= k < run.stage->results@.len() - 1,
    ensures
        run.stage->results@[k] is None,
{
    let results = run.stage->results@;
    let before = results.take(k + 1);
    assert(!halted(saga.policy, before));
    assert(before.last() == results[k]);
}

/// Under `CircuitBreaker` never more failures in a row than the threshold are
/// met, and a rollback that ends short ends on that many.
pub proof fn law_circuit_breaker_opens(saga: Saga, run: SagaRun, m: int)
    requires
        run.well_formed(saga),
        run.stage is Rollback,
        saga.policy == CompensationPolicy::CircuitBreaker,
        0 <= m <= run.stage->results@.len(),
    ensures
        trailing_failures(run.stage->results@.take(m)) <= CIRCUIT_BREAKER_THRESHOLD,
        run.ended(saga) && run.stage->results@.len() < run.stage->plan@.len()
            ==> trailing_failures(run.stage->results@) == CIRCUIT_BREAKER_THRESHOLD,
{
    let results = run.stage->results@;
    lemma_trailing_bounded(saga.policy, results, m);
    lemma_trailing_bounded(saga.policy, results, results.len() as int);
    assert(results.take(results.len() as int) =~= results);
}

proof fn lemma_trailing_bounded(
    policy: CompensationPolicy,
    results: Seq<Option<String>>,
    m: int,
)
    requires
        policy == CompensationPolicy::CircuitBreaker,
        0 <= m <= results.len(),
        forall|k: int| 0 <= k < results.len() ==> !halted(policy, #[trigger] results.take(k)),
    ensures
        trailing_failures(results.take(m)) <= CIRCUIT_BREAKER_THRESHOLD,
{
    if m > 0 {
        assert(!halted(policy, results.take(m - 1)));
        assert(results.take(m).drop_last() =~= results.take(m - 1));
    }
}

/// The policies that go on past failures attempt every compensation.
pub proof fn law_best_effort_attempts_all(saga: Saga, run: SagaRun)
    requires
        run.well_formed(saga),
        run.stage is Rollback,
        run.ended(saga),
        saga.policy != CompensationPolicy::StopOnError,
        saga.policy != CompensationPolicy::CircuitBreaker,
    ensures
        run.stage->results@.len() == run.stage->plan@.len(),
{
}

/// `RetryWithBackoff` is `BestEffort` with retries: the compensations come in
/// the same batches and end at the same point, and a failed attempt at one is
/// followed by another, after the backoff, as long as the retry policy of its
/// step has attempts left.
pub proof fn law_backoff_policy_retries_compensations(
    saga: Saga,
    i: int,
    plan: Seq<usize>,
    results: Seq<Option<String>>,
    attempt: u32,
    result: step_invoker::AttemptResult,
    jitter_ms: u64,
    next: step_invoker::InvokeStep,
)
    requires
        saga.policy == CompensationPolicy::RetryWithBackoff,
        0 <= i < saga.steps@.len(),
        step_invoker::follows(
            saga.steps@[i].name@,
            compensation_retry_of(saga, i)->0,
            attempt,
            result,
            jitter_ms,
            next,
        ),
    ensures
        compensation_retry_of(saga, i) == Some(saga.steps@[i].retry),
        batch(saga.policy, saga.steps@, plan, results.len() as int) == batch(
            CompensationPolicy::BestEffort,
            saga.steps@,
            plan,
            results.len() as int,
        ),
        halted(saga.policy, results) == halted(CompensationPolicy::BestEffort, results),
        !(result is Done) && attempt < step_invoker::attempt_limit(saga.steps@[i].retry) ==> next
            == step_invoker::InvokeStep::Retry(
            step_invoker::backoff(saga.steps@[i].retry, attempt, jitter_ms),
        ),
{
}

/// A run that completes has executed every step of the saga, each after all
/// the steps it depends on.
pub proof fn law_completed_run_is_whole(saga: Saga, run: SagaRun)
    requires
        saga.steps@.len() <= usize::MAX,
        run.well_formed(saga),
        run.stage is Forward,
        run.ended(saga),
    ensures
        run.done == saga.steps@.len(),
        graph::complete(step_graph(saga.steps@), run.order@),
        graph::respects(step_graph(saga.steps@), run.order@),
{
    law_execution_order_is_sound(saga.steps@, run.order@);
}

/// A batch of a grouped rollback is the whole stretch of neighbours that share
/// the group of its first step.
pub proof fn law_group_batch_is_maximal(steps: Seq<Step>, plan: Seq<usize>, pos: int)
    requires
        0 <= pos < plan.len(),
    ensures
        ({
            let together = batch(CompensationPolicy::GroupedParallel, steps, plan, pos);
            let end = pos + together.len();
            &&& together.len() >= 1
            &&& end <= plan.len()
            &&& forall|k: int|
                1 <= k < together.len() ==> same_group(
                    steps[plan[pos] as int].group,
                    steps[#[trigger] together[k] as int].group,
                )
            &&& end < plan.len() ==> !same_group(
                steps[plan[pos] as int].group,
                steps[plan[end] as int].group,
            )
        }),
{
    lemma_group_end(steps, plan, pos, pos + 1);
    lemma_group_end_is_maximal(steps, plan, pos, pos + 1);
}

proof fn lemma_group_end_is_maximal(steps: Seq<Step>, plan: Seq<usize>, start: int, end: int)
    requires
        0 <= start < end <= plan.len(),
    ensures
        ({
            let last = group_end(steps, plan, start, end);
            &&& forall|k: int|
                end <= k < last ==> same_group(
                    steps[plan[start] as int].group,
                    steps[#[trigger] plan[k] as int].group,
                )
            &&& last < plan.len() ==> !same_group(
                steps[plan[start] as int].group,
                steps[plan[last] as int].group,
            )
        }),
    decreases plan.len() - end,
{
    if end < plan.len() && same_group(
        steps[plan[start] as int].group,
        steps[plan[end] as int].group,
    ) {
        lemma_group_end_is_maximal(steps, plan, start, end + 1);
    }
}

/// Under `GroupedParallel` two steps are compensated at once only where each
/// of them has a group and the two labels are the same text. A step without a
/// group is a batch of its own, and a batch takes in every neighbour that
/// bears its label.
pub proof fn law_only_labelled_steps_share_a_batch(
    steps: Seq<Step>,
    plan: Seq<usize>,
    pos: int,
)
    requires
        0 <= pos < plan.len(),
    ensures
        ({
            let together = batch(CompensationPolicy::GroupedParallel, steps, plan, pos);
            let end = pos + together.len();
            let first = steps[plan[pos] as int].group;
            &&& 1 <= together.len() <= plan.len() - pos
            &&& forall|k: int|
                0 <= k < together.len() ==> #[trigger] together[k] == plan[pos + k]
            &&& forall|k: int|
                together.len() > 1 && 0 <= k < together.len() ==> first is Some && steps[(
                #[trigger] together[k]) as int].group is Some
                    && steps[together[k] as int].group->0@ == first->0@
            &&& first is None ==> together.len() == 1
            &&& end < plan.len() && first is Some && steps[plan[end] as int].group is Some
                ==> steps[plan[end] as int].group->0@ != first->0@
        }),
{
    law_group_batch_is_maximal(steps, plan, pos);
    lemma_group_end(steps, plan, pos, pos + 1);
    let together = batch(CompensationPolicy::GroupedParallel, steps, plan, pos);
    let first = steps[plan[pos] as int].group;
    assert(together[0] == plan[pos]);
    assert forall|k: int| together.len() > 1 && 0 <= k < together.len() implies first is Some
        && steps[(#[trigger] together[k]) as int].group is Some
        && steps[together[k] as int].group->0@ == first->0@ by {
        let other = together[1];
        assert(same_group(steps[plan[pos] as int].group, steps[other as int].group));
        if k >= 1 {
            assert(same_group(steps[plan[pos] as int].group, steps[together[k] as int].group));
        }
    }
    if together.len() > 1 {
        let other = together[1];
        assert(same_group(steps[plan[pos] as int].group, steps[other as int].group));
    }
}

/// `BestEffort`, `StopOnError`, `RetryWithBackoff` and `CircuitBreaker`
/// compensate one step at a time; `BestEffortParallel` compensates all that
/// are left at once.
pub proof fn law_only_parallel_policies_compensate_at_once(
    policy: CompensationPolicy,
    steps: Seq<Step>,
    plan: Seq<usize>,
    pos: int,
)
    requires
        0 <= pos < plan.len(),
    ensures
        batch(policy, steps, plan, pos).len() > 1 ==> policy
            == CompensationPolicy::BestEffortParallel || policy
            == CompensationPolicy::GroupedParallel,
        batch(policy, steps, plan, pos).len() >= 1,
        batch(policy, steps, plan, pos)[0] == plan[pos],
        policy == CompensationPolicy::BestEffortParallel ==> pos + batch(
            policy,
            steps,
            plan,
            pos,
        ).len() == plan.len(),
{
    lemma_group_end(steps, plan, pos, pos + 1);
}

/// One more executed step is compensated before all the earlier ones, where it
/// has a compensation, and changes nothing otherwise.
pub proof fn law_last_executed_is_compensated_first(
    steps: Seq<Step>,
    executed: Seq<usize>,
    i: usize,
)
    ensures
        rollback_plan(steps, Seq::empty()).len() == 0,
        steps[i as int].compensable ==> rollback_plan(steps, executed.push(i)) == seq![i]
            + rollback_plan(steps, executed),
        !steps[i as int].compensable ==> rollback_plan(steps, executed.push(i)) == rollback_plan(
            steps,
            executed,
        ),
{
    let pred = |i: usize| steps[i as int].compensable;
    let later = executed.push(i).reverse();
    assert(later =~= seq![i] + executed.reverse());
    reveal(Seq::filter);
    assert(Seq::<usize>::empty().reverse() =~= Seq::empty());
    Seq::filter_distributes_over_add(seq![i], executed.reverse(), pred);
    let one = Seq::<usize>::empty().push(i);
    assert(seq![i] =~= one);
    assert(one.drop_last() =~= Seq::<usize>::empty());
    assert(Seq::<usize>::empty().filter(pred) =~= Seq::empty());
    assert(one.filter(pred) == if pred(i) {
        Seq::<usize>::empty().push(i)
    } else {
        Seq::empty()
    });
    assert(Seq::<usize>::empty() + executed.reverse().filter(pred) =~= executed.reverse().filter(
        pred,
    ));
}

/// A rollback stops short under `StopOnError` exactly when the last
/// compensation failed, under `CircuitBreaker` exactly when the last three
/// did, and under no other policy.
pub proof fn law_rollback_stops_short_on_failures(
    policy: CompensationPolicy,
    results: Seq<Option<String>>,
)
    ensures
        halted(policy, results) <==> {
            let n = results.len() as int;
            ||| policy == CompensationPolicy::StopOnError && n >= 1 && results[n - 1] is Some
            ||| policy == CompensationPolicy::CircuitBreaker && n >= 3 && results[n - 1] is Some
                && results[n - 2] is Some && results[n - 3] is Some
        },
{
    reveal_with_fuel(trailing_failures, 4);
}

/// The failure that a rollback reports is the first of its results that is
/// one, and there is none exactly when every compensation succeeded.
pub proof fn law_first_failure_is_the_earliest(results: Seq<Option<String>>)
    ensures
        first_failure(results) is None <==> forall|k: int|
            0 <= k < results.len() ==> #[trigger] results[k] is None,
        first_failure(results) is Some ==> exists|k: int|
            0 <= k < results.len() && #[trigger] results[k] == first_failure(results) && forall|
                j: int,
            |
                0 <= j < k ==> #[trigger] results[j] is None,
    decreases results.len(),
{
    if results.len() > 0 {
        let front = results.drop_last();
        let n = results.len() - 1;
        law_first_failure_is_the_earliest(front);
        if first_failure(front) is Some {
            let k = choose|k: int|
                0 <= k < front.len() && #[trigger] front[k] == first_failure(front) && forall|
                    j: int,
                |
                    0 <= j < k ==> #[trigger] front[j] is None;
            assert(results[k] == first_failure(results));
            assert forall|j: int| 0 <= j < k implies #[trigger] results[j] is None by {
                assert(front[j] is None);
            }
        } else {
            assert forall|j: int| 0 <= j < n implies #[trigger] results[j] is None by {
                assert(front[j] is None);
            }
            assert(results[n] == first_failure(results));
        }
    }
}

/// Each compensated step is reported once, in the order of the compensations:
/// one that succeeds enters at the end of the report, and one that fails
/// leaves it as it was.
pub proof fn law_report_follows_the_compensations(
    plan: Seq<usize>,
    results: Seq<Option<String>>,
    outcome: Option<String>,
)
    requires
        results.len() < plan.len(),
    ensures
        rolled(plan, results).len() <= results.len(),
        rolled(plan, results.push(outcome)) == if outcome is None {
            rolled(plan, results).push(plan[results.len() as int])
        } else {
            rolled(plan, results)
        },
    decreases results.len(),
{
    assert(results.push(outcome).drop_last() =~= results);
    if results.len() > 0 {
        law_report_follows_the_compensations(plan, results.drop_last(), results.last());
    }
}

/// A run reports a failed compensation as its error exactly when the policy is
/// `StopOnError` and a compensation failed; any other rollback reports the
/// step that failed, and its cause.
pub proof fn law_only_stop_on_error_reports_a_compensation(
    saga: Saga,
    run: SagaRun,
    error: SagaError,
)
    requires
        is_run_error(saga, run, error),
        run.stage is Rollback,
    ensures
        error is Compensation <==> saga.policy == CompensationPolicy::StopOnError && exists|k: int|
            0 <= k < run.stage->results@.len() && #[trigger] run.stage->results@[k] is Some,
        !(error is Compensation) ==> error is Step && error->Step_step@
            == saga.steps@[run.stage->failed as int].name@ && error->source@
            == run.stage->cause@,
        error is Compensation ==> error->Compensation_step@
            == saga.steps@[run.stage->failed as int].name@,
{
    law_first_failure_is_the_earliest(run.stage->results@);
}

/// A step runs after every step that its dependencies name; where no step
/// names any, the steps run in the order in which they were added. Steps that
/// name dependencies have an order only where every name stands once and every
/// dependency is the name of another step.
pub proof fn law_steps_run_after_their_dependencies(
    steps: Seq<Step>,
    order: Seq<usize>,
    x: int,
    y: int,
    k: int,
)
    requires
        steps.len() <= usize::MAX,
        is_execution_order(steps, order),
        0 <= x < order.len(),
        0 <= y < order.len(),
    ensures
        order.len() == steps.len(),
        order[x] < steps.len(),
        x != y ==> order[x] != order[y],
        0 <= k < steps[order[y] as int].depends_on@.len() && steps[order[y] as int].depends_on@[k]@
            == steps[order[x] as int].name@ ==> x < y,
        0 <= k < steps[order[y] as int].depends_on@.len() ==> exists|j: int|
            0 <= j < steps.len() && (#[trigger] steps[j]).name@
                == steps[order[y] as int].depends_on@[k]@,
        (forall|i: int| 0 <= i < steps.len() ==> (#[trigger] steps[i]).depends_on@.len() == 0)
            ==> order[x] == x,
        (exists|i: int| 0 <= i < steps.len() && (#[trigger] steps[i]).depends_on@.len() > 0)
            && x != y ==> steps[order[x] as int].name@ != steps[order[y] as int].name@,
{
    law_execution_order_is_sound(steps, order);
    let ns = step_names_of(steps);
    let ds = step_deps_of(steps);
    let a = order[y] as int;
    let b = order[x] as int;
    assert(graph::complete(step_graph(steps), order));
    if declares_deps(steps) {
        names::lemma_distinct(ns);
        lemma_faultless_weaker(ns, ds);
        assert(ns[a] == steps[a].name@ && ns[b] == steps[b].name@);
        if 0 <= k < steps[a].depends_on@.len() {
            assert(ds[a][k] == steps[a].depends_on@[k]@);
            assert(!names::faulty(ns, ds, true, a, k));
            names::law_faults_are_unknown_names(ns, ds, a, k);
            assert(ns.contains(ds[a][k]));
            let j = choose|j: int| 0 <= j < ns.len() && ns[j] == ds[a][k];
            assert(steps[j].name@ == steps[a].depends_on@[k]@);
            if steps[a].depends_on@[k]@ == steps[b].name@ {
                assert(ds[a].contains(ns[b]));
                names::law_needs_are_the_named_dependencies(ns, ds, a, b);
                graph::law_needed_nodes_stand_before(step_graph(steps), order, x, y);
            }
        }
    } else {
        assert(steps[a].depends_on@.len() == 0);
    }
}

/// Steps are refused for the first reason there is. Where two share a name, the
/// message is about a name that stands twice; else, where a dependency names no
/// step or the step itself, it is about such a dependency; and else the
/// dependencies form a cycle, and it says so.
pub proof fn law_refusals_state_the_first_reason(
    saga: Seq<char>,
    steps: Seq<Step>,
    message: Seq<char>,
)
    requires
        order_refused(saga, steps, message),
    ensures
        exists|i: int| 0 <= i < steps.len() && (#[trigger] steps[i]).depends_on@.len() > 0,
        ({
            let twice = exists|i: int, j: int|
                0 <= i < j < steps.len() && (#[trigger] steps[i]).name@ == (
                #[trigger] steps[j]).name@;
            &&& twice ==> exists|i: int, j: int|
                0 <= i < j < steps.len() && (#[trigger] steps[i]).name@ == (
                #[trigger] steps[j]).name@ && message == "saga "@ + text::debug_text(saga)
                    + ": duplicate step name "@ + text::debug_text(steps[j].name@)
                    + " (step ids must be unique to use depends_on)"@
            &&& !twice ==> {
                ||| exists|i: int, k: int|
                    0 <= i < steps.len() && 0 <= k < steps[i].depends_on@.len()
                        && !step_names_of(steps).contains((#[trigger] steps[i].depends_on@[k])@)
                        && message == "saga "@ + text::debug_text(saga) + ": step "@
                        + text::debug_text(steps[i].name@) + " depends on unknown step "@
                        + text::debug_text(steps[i].depends_on@[k]@)
                ||| exists|i: int, k: int|
                    0 <= i < steps.len() && 0 <= k < steps[i].depends_on@.len() && (
                    #[trigger] steps[i].depends_on@[k])@ == steps[i].name@ && message == "saga "@
                        + text::debug_text(saga) + ": step "@ + text::debug_text(steps[i].name@)
                        + " depends on itself"@
                ||| graph::cyclic(step_graph(steps)) && message == "saga "@ + text::debug_text(
                    saga,
                ) + ": dependency cycle among steps (every step must be reachable from a root)"@
            }
        }),
{
    let ns = step_names_of(steps);
    let ds = step_deps_of(steps);
    names::lemma_distinct(ns);
    if !names::distinct(ns) {
        let j = choose|j: int|
            0 <= j < ns.len() && #[trigger] names::repeats(ns, j) && (forall|x: int|
                0 <= x < j ==> !#[trigger] names::repeats(ns, x)) && message
                == duplicate_step_text(saga, ns[j]);
        names::lemma_place(ns, ns[j]);
        let i = names::place(ns, ns[j]);
        assert(steps[i].name@ == ns[i] && steps[j].name@ == ns[j]);
    } else {
        assert forall|i: int, j: int| 0 <= i < j < steps.len() implies (#[trigger] steps[i]).name@
            != (#[trigger] steps[j]).name@ by {
            assert(ns[i] != ns[j]);
        }
        if !names::faultless(ns, ds, true) {
            let (i, k) = choose|i: int, k: int|
                #[trigger] names::first_fault_at(ns, ds, true, i, k) && message
                    == if names::place(ns, ds[i][k]) < 0 {
                    unknown_step_text(saga, ns[i], ds[i][k])
                } else {
                    self_dependency_text(saga, ns[i])
                };
            names::lemma_place(ns, ds[i][k]);
            assert(ds[i][k] == steps[i].depends_on@[k]@);
            assert(ns[i] == steps[i].name@);
            if names::place(ns, ds[i][k]) < 0 {
                assert(!ns.contains(steps[i].depends_on@[k]@));
            } else {
                assert(steps[i].depends_on@[k]@ == steps[i].name@);
            }
        }
    }
}

/// Compensation results are split as they come: a name goes behind the names
/// before it, and the first error is the one that is kept.
pub proof fn law_results_are_split_in_order(
    results: Seq<Result<String, String>>,
    result: Result<String, String>,
)
    ensures
        oks(Seq::empty()).len() == 0,
        first_err(Seq::empty()) is None,
        result matches Ok(name) ==> oks(results.push(result)) == oks(results).push(name)
            && first_err(results.push(result)) == first_err(results),
        result matches Err(message) ==> oks(results.push(result)) == oks(results) && first_err(
            results.push(result),
        ) == (if first_err(results) is Some {
            first_err(results)
        } else {
            Some(message)
        }),
{
    assert(results.push(result).drop_last() =~= results);
}

/// What the outcome of a rolled back run names: the steps that executed, in
/// their order, and as rolled back exactly those whose compensation succeeded.
pub proof fn law_outcomes_name_what_ran(
    saga: Saga,
    run: SagaRun,
    started: Timestamp,
    finished: Timestamp,
    outcome: Outcome,
    name: Seq<char>,
)
    requires
        run.well_formed(saga),
        is_outcome(saga, run, started, finished, outcome),
    ensures
        outcome.saga@ == saga.name@,
        outcome.steps_executed@.len() == run.done,
        forall|k: int|
            0 <= k < run.done ==> (#[trigger] outcome.steps_executed@[k])@
                == saga.steps@[run.order@[k] as int].name@,
        run.stage is Rollback ==> (text::texts(outcome.steps_rolled@).contains(name)
            <==> exists|k: int|
            0 <= k < run.stage->results@.len() && #[trigger] run.stage->results@[k] is None
                && saga.steps@[run.stage->plan@[k] as int].name@ == name),
        !(run.stage is Rollback) ==> outcome.steps_rolled@.len() == 0,
        outcome.status == SagaStatus::Completed <==> run.stage is Forward,
        outcome.status == SagaStatus::Compensated <==> run.stage is Rollback,
{
    let executed = names_at(saga.steps@, run.order@.take(run.done as int));
    assert(text::texts(outcome.steps_executed@).len() == run.done);
    assert forall|k: int| 0 <= k < run.done implies (#[trigger] outcome.steps_executed@[k])@
        == saga.steps@[run.order@[k] as int].name@ by {
        assert(text::texts(outcome.steps_executed@)[k] == executed[k]);
    }
    if run.stage is Rollback {
        let plan = run.stage->plan@;
        let results = run.stage->results@;
        let list = rolled(plan, results);
        let texts = text::texts(outcome.steps_rolled@);
        assert(texts == names_at(saga.steps@, list));
        if texts.contains(name) {
            let m = choose|m: int| 0 <= m < texts.len() && texts[m] == name;
            lemma_rolled(plan, results, list[m]);
            assert(list.contains(list[m]));
            let k = choose|k: int|
                0 <= k < results.len() && plan[k] == list[m] && #[trigger] results[k] is None;
            assert(saga.steps@[plan[k] as int].name@ == name);
        }
        if exists|k: int|
            0 <= k < results.len() && #[trigger] results[k] is None
                && saga.steps@[plan[k] as int].name@ == name {
            let k = choose|k: int|
                0 <= k < results.len() && #[trigger] results[k] is None
                    && saga.steps@[plan[k] as int].name@ == name;
            lemma_rolled(plan, results, plan[k]);
            let m = choose|m: int| 0 <= m < list.len() && list[m] == plan[k];
            assert(texts[m] == name);
        }
    }
}

} // verus!
