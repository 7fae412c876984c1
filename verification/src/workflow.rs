//! Workflows: a graph of named nodes, run in waves.
//!
//! A wave holds every node whose dependencies are done. Its nodes run side by
//! side; when one fails, the run stops after the wave and the completed nodes
//! that can be compensated are rolled back, newest first.
//!
//! [`Workflow::begin`] starts a run. [`Workflow::next_wave`] names the nodes
//! of the next wave, or [`Workflow::interrupt`] stops a cancelled run before it.
//! [`Workflow::start_node`] decides for each node of a wave whether it runs, [`Workflow::node_succeeded`] and [`Workflow::node_failed`] take back
//! what happened, and [`Workflow::wave_done`] closes the wave.
//! [`Workflow::next_rollback`] and [`Workflow::rolled_back`] roll a failed run
//! back, and [`Workflow::finish`] gives the result.

use crate::condition;
use crate::condition::evaluate;
use crate::graph;
use crate::graph::{mark, ready_nodes};
use crate::names;
use crate::names::{first_fault, first_repeat, resolve};
use crate::saga::CompensationPolicy;
use crate::step_context::{ContextView, StepContext};
use crate::text;
use crate::text::{clone_texts, join, quoted};
use crate::text_map::TextMap;
use vstd::prelude::*;
use vstd::string::*;

verus! {

/// A vertex of a workflow.
#[derive(Debug)]
pub struct Node {
    /// The name under which messages report the node.
    pub name: String,
    /// The names of the nodes that must be done before.
    pub depends_on: Vec<String>,
    /// Whether the node has a compensation.
    pub compensatable: bool,
    /// The condition without which the node is skipped.
    pub condition: Option<String>,
    /// Whether the workflow goes on without waiting for the node.
    pub fire_and_forget: bool,
}

/// Whether a node's condition holds over the facts of a run: a node without
/// condition runs, and one whose condition is malformed does not.
pub open spec fn condition_met(condition: Option<String>, facts: ContextView) -> bool {
    match condition {
        None => true,
        Some(expression) => condition::condition_result(expression@, facts) == Ok::<
            bool,
            Seq<char>,
        >(true),
    }
}

impl Node {
    /// A node without dependencies, compensation or condition, for which the
    /// workflow waits.
    pub fn new(name: &str) -> (node: Node)
        ensures
            node.name@ == name@,
            node.depends_on@.len() == 0,
            !node.compensatable,
            node.condition is None,
            !node.fire_and_forget,
    {
        Node {
            name: name.to_owned(),
            depends_on: Vec::new(),
            compensatable: false,
            condition: None,
            fire_and_forget: false,
        }
    }

    /// The node with more dependencies.
    pub fn depends_on(self, dependencies: Vec<String>) -> (node: Node)
        ensures
            node.depends_on@ == self.depends_on@ + dependencies@,
            node == (Node { depends_on: node.depends_on, ..self }),
    {
        let mut extra: Vec<String> = dependencies;
        let mut all: Vec<String> = self.depends_on;
        all.append(&mut extra);
        Node { depends_on: all, ..self }
    }

    /// The node with a compensation.
    pub fn with_compensation(self) -> (node: Node)
        ensures
            node == (Node { compensatable: true, ..self }),
    {
        Node { compensatable: true, ..self }
    }

    /// The node under a condition.
    pub fn when(self, condition: &str) -> (node: Node)
        ensures
            node.condition matches Some(expression) && expression@ == condition@,
            node == (Node { condition: node.condition, ..self }),
    {
        Node { condition: Some(condition.to_owned()), ..self }
    }

    /// The node, run without the workflow waiting for it.
    pub fn fire_and_forget(self) -> (node: Node)
        ensures
            node == (Node { fire_and_forget: true, ..self }),
    {
        Node { fire_and_forget: true, ..self }
    }

    /// The node name.
    pub fn name(&self) -> (name: &str)
        ensures
            name@ == self.name@,
    {
        self.name.as_str()
    }

    /// The names of the nodes that must be done before.
    pub fn dependencies(&self) -> (dependencies: &Vec<String>)
        ensures
            *dependencies == self.depends_on,
    {
        &self.depends_on
    }

    /// Whether the node has a compensation.
    pub fn is_compensatable(&self) -> (yes: bool)
        ensures
            yes == self.compensatable,
    {
        self.compensatable
    }

    /// Whether the workflow goes on without waiting for the node.
    pub fn is_fire_and_forget(&self) -> (yes: bool)
        ensures
            yes == self.fire_and_forget,
    {
        self.fire_and_forget
    }

    /// Whether the node's condition holds.
    pub fn condition_holds(&self, facts: &StepContext) -> (yes: bool)
        requires
            facts.well_formed(),
        ensures
            yes == condition_met(self.condition, facts@),
    {
        match &self.condition {
            None => true,
            Some(expression) => match evaluate(expression.as_str(), facts) {
                Ok(yes) => yes,
                Err(_) => false,
            },
        }
    }
}

/// How a workflow run fails.
#[derive(Debug)]
pub enum WorkflowError {
    /// Two nodes share a name.
    DuplicateNode {
        /// The workflow name.
        workflow: String,
        /// The repeated name.
        node: String,
    },
    /// A node depends on a name that no node has.
    UnknownDependency {
        /// The workflow name.
        workflow: String,
        /// The node that declares the dependency.
        node: String,
        /// The unknown name.
        dependency: String,
    },
    /// Nodes are outstanding and none of them is ready.
    NoProgress {
        /// The workflow name.
        workflow: String,
    },
    /// A node failed.
    Node {
        /// The node name.
        node: String,
        /// The message of the failure.
        source: String,
    },
    /// The run was cancelled. Beside failures of the same wave, it stands for
    /// a node that did not start because of them.
    Cancelled,
    /// Several nodes of a wave failed, or kept others from starting.
    Multiple(Vec<WorkflowError>),
}

/// The message of a workflow error.
pub open spec fn workflow_error_text(error: WorkflowError) -> Seq<char>
    decreases error,
{
    match error {
        WorkflowError::DuplicateNode { workflow, node } => "workflow "@ + text::debug_text(
            workflow@,
        ) + ": duplicate node "@ + text::debug_text(node@),
        WorkflowError::UnknownDependency { workflow, node, dependency } => "workflow "@
            + text::debug_text(workflow@) + ": node "@ + text::debug_text(node@)
            + " depends on unknown "@ + text::debug_text(dependency@),
        WorkflowError::NoProgress { workflow } => "workflow "@ + text::debug_text(workflow@)
            + ": no progress (dependency cycle?)"@,
        WorkflowError::Node { node, source } => "node "@ + text::debug_text(node@) + ": "@
            + source@,
        WorkflowError::Cancelled => "workflow cancelled"@,
        WorkflowError::Multiple(errors) => text::joined(workflow_error_lines(errors@), "\n"@),
    }
}

/// The messages of workflow errors.
pub open spec fn workflow_error_lines(errors: Seq<WorkflowError>) -> Seq<Seq<char>>
    decreases errors,
{
    Seq::new(
        errors.len(),
        |i: int|
            if 0 <= i < errors.len() {
                workflow_error_text(errors[i])
            } else {
                Seq::empty()
            },
    )
}

/// Whether an error stands for a list of errors: the only one of them, or all
/// of them together.
pub open spec fn is_joined(errors: Seq<WorkflowError>, error: WorkflowError) -> bool {
    if errors.len() == 1 {
        error == errors[0]
    } else {
        error matches WorkflowError::Multiple(all) && all@ == errors
    }
}

/// Whether every error of a list is a cancellation.
pub open spec fn all_cancelled(errors: Seq<WorkflowError>) -> bool {
    forall|k: int| 0 <= k < errors.len() ==> (#[trigger] errors[k]) is Cancelled
}

/// Whether an error is that of a wave with these errors: a cancelled run, where
/// nothing else happened, or the errors joined.
pub open spec fn is_wave_failure(errors: Seq<WorkflowError>, error: WorkflowError) -> bool {
    if errors.len() > 0 && all_cancelled(errors) {
        error == WorkflowError::Cancelled
    } else {
        is_joined(errors, error)
    }
}

fn only_cancelled(errors: &Vec<WorkflowError>) -> (yes: bool)
    ensures
        yes == all_cancelled(errors@),
{
    let mut i: usize = 0;
    while i < errors.len()
        invariant
            i <= errors@.len(),
            forall|k: int| 0 <= k < i ==> (#[trigger] errors@[k]) is Cancelled,
        decreases errors.len() - i,
    {
        match &errors[i] {
            WorkflowError::Cancelled => {},
            _ => {
                assert(!(errors@[i as int] is Cancelled));
                return false;
            },
        }
        i += 1;
    }
    true
}

fn in_workflow(workflow: &str, rest: &str) -> (message: String)
    ensures
        message@ == "workflow "@ + text::debug_text(workflow@) + rest@,
{
    let mut out: String = "workflow ".to_owned();
    out.append(quoted(workflow).as_str());
    out.append(rest);
    out
}

impl WorkflowError {
    /// Joins the errors of a wave.
    pub fn join(errors: Vec<WorkflowError>) -> (error: WorkflowError)
        ensures
            is_joined(errors@, error),
    {
        let mut all: Vec<WorkflowError> = errors;
        if all.len() == 1 {
            if let Some(only) = all.pop() {
                return only;
            }
        }
        WorkflowError::Multiple(all)
    }

    /// The message of the error; those of several errors stand one per line.
    pub fn to_string(&self) -> (message: String)
        ensures
            message@ == workflow_error_text(*self),
        decreases self,
    {
        match self {
            WorkflowError::DuplicateNode { workflow, node } => {
                let mut out: String = in_workflow(workflow.as_str(), ": duplicate node ");
                out.append(quoted(node.as_str()).as_str());
                out
            },
            WorkflowError::UnknownDependency { workflow, node, dependency } => {
                let mut out: String = in_workflow(workflow.as_str(), ": node ");
                out.append(quoted(node.as_str()).as_str());
                out.append(" depends on unknown ");
                out.append(quoted(dependency.as_str()).as_str());
                out
            },
            WorkflowError::NoProgress { workflow } => in_workflow(
                workflow.as_str(),
                ": no progress (dependency cycle?)",
            ),
            WorkflowError::Node { node, source } => {
                let mut out: String = "node ".to_owned();
                out.append(quoted(node.as_str()).as_str());
                out.append(": ");
                out.append(source.as_str());
                out
            },
            WorkflowError::Cancelled => "workflow cancelled".to_owned(),
            WorkflowError::Multiple(errors) => {
                let lines: Vec<String> = error_lines(errors);
                join(&lines, "\n")
            },
        }
    }
}

fn error_lines(errors: &Vec<WorkflowError>) -> (lines: Vec<String>)
    ensures
        text::texts(lines@) == workflow_error_lines(errors@),
    decreases errors,
{
    let mut lines: Vec<String> = Vec::new();
    let mut i: usize = 0;
    while i < errors.len()
        invariant
            i <= errors@.len(),
            lines@.len() == i,
            forall|k: int|
                0 <= k < i ==> (#[trigger] lines@[k])@ == workflow_error_text(errors@[k]),
        decreases errors.len() - i,
    {
        lines.push(errors[i].to_string());
        i += 1;
    }
    assert(text::texts(lines@) =~= workflow_error_lines(errors@));
    lines
}

/// A workflow definition.
#[derive(Debug)]
pub struct Workflow {
    /// The workflow name.
    pub name: String,
    /// The nodes, in the order in which they were added.
    pub nodes: Vec<Node>,
    /// How completed nodes are rolled back.
    pub policy: CompensationPolicy,
}

/// The names of some nodes.
pub open spec fn node_names_of(nodes: Seq<Node>) -> Seq<Seq<char>> {
    Seq::new(nodes.len(), |i: int| nodes[i].name@)
}

/// The names that each node depends on.
pub open spec fn node_deps_of(nodes: Seq<Node>) -> Seq<Seq<Seq<char>>> {
    Seq::new(nodes.len(), |i: int| text::texts(nodes[i].depends_on@))
}

/// The dependency graph of some nodes.
pub open spec fn node_graph(nodes: Seq<Node>) -> Seq<Seq<usize>> {
    names::resolved(node_names_of(nodes), node_deps_of(nodes))
}

/// The dependencies of some nodes by node name; of nodes that share a name the
/// last counts.
pub open spec fn named_graph(nodes: Seq<Node>) -> Map<Seq<char>, Seq<Seq<char>>>
    decreases nodes.len(),
{
    if nodes.len() == 0 {
        Map::empty()
    } else {
        named_graph(nodes.drop_last()).insert(
            nodes.last().name@,
            text::texts(nodes.last().depends_on@),
        )
    }
}

/// The lists of texts that a map holds.
pub open spec fn text_list_map(map: TextMap<Vec<String>>) -> Map<Seq<char>, Seq<Seq<char>>> {
    map@.map_values(|list: Vec<String>| text::texts(list@))
}

/// Whether the names of some nodes differ and every dependency names a node.
pub open spec fn runnable(nodes: Seq<Node>) -> bool {
    &&& names::distinct(node_names_of(nodes))
    &&& names::faultless(node_names_of(nodes), node_deps_of(nodes), false)
}

/// Whether an error names the first reason for which a workflow cannot run:
/// the first name that stands twice, or else the first unknown dependency.
pub open spec fn is_definition_error(workflow: Workflow, error: WorkflowError) -> bool {
    let ns = node_names_of(workflow.nodes@);
    let ds = node_deps_of(workflow.nodes@);
    match error {
        WorkflowError::DuplicateNode { workflow: w, node } => {
            &&& w == workflow.name
            &&& exists|i: int|
                {
                    &&& 0 <= i < ns.len()
                    &&& #[trigger] names::repeats(ns, i)
                    &&& node@ == ns[i]
                    &&& forall|j: int| 0 <= j < i ==> !#[trigger] names::repeats(ns, j)
                }
        },
        WorkflowError::UnknownDependency { workflow: w, node, dependency } => {
            &&& w == workflow.name
            &&& names::distinct(ns)
            &&& exists|i: int, k: int|
                {
                    &&& #[trigger] names::first_fault_at(ns, ds, false, i, k)
                    &&& node@ == ns[i]
                    &&& dependency@ == ds[i][k]
                }
        },
        _ => false,
    }
}

/// How far a node of a wave has come.
#[derive(Debug)]
pub enum NodeState {
    /// It has not started.
    Waiting,
    /// It runs.
    Running,
    /// It ran successfully.
    Succeeded,
    /// Its condition did not hold.
    Skipped,
    /// It failed, with this message.
    Failed(String),
    /// It did not start, because the run was cancelled or a sibling failed.
    Cancelled,
}

/// Where a workflow run stands.
#[derive(Debug, Clone, Copy, PartialEq, Eq, Structural)]
pub enum WorkflowStage {
    /// The next wave is to be found.
    Planning,
    /// A wave runs.
    Running,
    /// Completed nodes are rolled back.
    RollingBack,
    /// Nothing is left to do.
    Ended,
}

/// A workflow run in progress.
#[derive(Debug)]
pub struct WorkflowRun {
    /// The numbers of the nodes that each node needs.
    pub graph: Vec<Vec<usize>>,
    /// The waves that are done.
    pub waves: Vec<Vec<usize>>,
    /// Which nodes those waves hold.
    pub done: Vec<bool>,
    /// The nodes of the running wave.
    pub wave: Vec<usize>,
    /// Those of them for which the workflow waits.
    pub blocking: Vec<usize>,
    /// How far each of these has come.
    pub states: Vec<NodeState>,
    /// Whether a node has failed.
    pub stopped: bool,
    /// Which nodes have run successfully, of those the workflow waits for.
    pub ran: Vec<bool>,
    /// Those of them that can be compensated, in order of completion.
    pub completed: Vec<usize>,
    /// How many of the completed nodes may still be rolled back.
    pub left: usize,
    /// The error of the run, if it failed.
    pub error: Option<WorkflowError>,
    /// Where the run stands.
    pub stage: WorkflowStage,
}

/// What [`Workflow::next_wave`] finds.
#[derive(Debug)]
pub enum WaveStep {
    /// A wave starts.
    Wave {
        /// The nodes to start without waiting for them, where their condition
        /// holds.
        detached: Vec<usize>,
        /// The nodes to run side by side and to wait for.
        blocking: Vec<usize>,
    },
    /// Nodes are outstanding and none of them is ready: the run rolls back.
    Stalled,
    /// Every node is done.
    Complete,
}

/// What [`Workflow::start_node`] decides of a node.
#[derive(Debug, Clone, Copy, PartialEq, Eq, Structural)]
pub enum Admission {
    /// The node runs.
    Run,
    /// The node is skipped and counts as done.
    Skip,
    /// The node does not start.
    Cancelled,
}

/// The nodes of a wave for which the workflow waits, or else those for which
/// it does not.
pub open spec fn part_of_wave(nodes: Seq<Node>, wave: Seq<usize>, detached: bool) -> Seq<usize> {
    wave.filter(|i: usize| nodes[i as int].fire_and_forget == detached)
}

/// Whether every flag is set.
pub open spec fn all_set(flags: Seq<bool>) -> bool {
    forall|i: int| 0 <= i < flags.len() ==> #[trigger] flags[i]
}

/// Whether no node of a wave waits or runs.
pub open spec fn all_settled(states: Seq<NodeState>) -> bool {
    forall|k: int|
        0 <= k < states.len() ==> !(#[trigger] states[k] is Waiting) && !(states[k] is Running)
}

/// The errors of a wave, in the order of its nodes.
pub open spec fn wave_errors(
    nodes: Seq<Node>,
    blocking: Seq<usize>,
    states: Seq<NodeState>,
) -> Seq<WorkflowError>
    decreases states.len(),
{
    if states.len() == 0 {
        Seq::empty()
    } else {
        let earlier = wave_errors(nodes, blocking, states.drop_last());
        match states.last() {
            NodeState::Failed(source) => earlier.push(
                WorkflowError::Node {
                    node: nodes[blocking[states.len() - 1] as int].name,
                    source,
                },
            ),
            NodeState::Cancelled => earlier.push(WorkflowError::Cancelled),
            _ => earlier,
        }
    }
}

/// The nodes that a run has yet to roll back, newest first.
pub open spec fn node_rollback_plan(run: WorkflowRun) -> Seq<usize> {
    run.completed@.take(run.left as int).reverse()
}

impl WorkflowRun {
    /// Whether the records of the run fit together, apart from its stage.
    pub open spec fn consistent(self, workflow: Workflow) -> bool {
        let nodes = workflow.nodes@;
        let n = nodes.len();
        let graph = node_graph(nodes);
        &&& n <= usize::MAX
        &&& runnable(nodes)
        &&& graph::lists(self.graph@) == graph
        &&& self.done@.len() == n
        &&& self.ran@.len() == n
        &&& graph::in_layers(graph, Set::empty(), graph::lists(self.waves@))
        &&& graph::marked(self.done@) == graph::after(Set::empty(), graph::lists(self.waves@))
        &&& self.states@.len() == self.blocking@.len()
        &&& self.blocking@ == part_of_wave(nodes, self.wave@, false)
        &&& forall|k: int| 0 <= k < self.wave@.len() ==> (#[trigger] self.wave@[k]) < n
        &&& forall|k: int|
            0 <= k < self.states@.len() ==> ((#[trigger] self.states@[k]) is Succeeded
                <==> self.ran@[self.blocking@[k] as int])
        &&& forall|i: int| 0 <= i < n && #[trigger] self.ran@[i] ==> !nodes[i].fire_and_forget
        &&& forall|i: int|
            0 <= i < n && #[trigger] self.ran@[i] ==> self.done@[i] || graph::members(
                self.wave@,
            ).contains(i)
        &&& self.completed@.no_duplicates()
        &&& forall|i: int|
            #![trigger graph::members(self.completed@).contains(i)]
            graph::members(self.completed@).contains(i) <==> 0 <= i < n && self.ran@[i]
                && nodes[i].compensatable
        &&& self.left <= self.completed@.len()
    }

    /// Whether the run is one that `workflow` can be in.
    pub open spec fn well_formed(self, workflow: Workflow) -> bool {
        &&& self.consistent(workflow)
        &&& match self.stage {
            WorkflowStage::Planning => self.wave@.len() == 0 && self.error is None
                && !self.stopped,
            WorkflowStage::Running => {
                &&& self.error is None
                &&& self.stopped ==> exists|k: int|
                    0 <= k < self.states@.len() && (#[trigger] self.states@[k]) is Failed
                &&& self.wave@.len() > 0
                &&& self.wave@ == graph::ready_list(
                    node_graph(workflow.nodes@),
                    graph::marked(self.done@),
                )
            },
            WorkflowStage::RollingBack => self.error is Some,
            WorkflowStage::Ended => if self.error is None {
                all_set(self.done@)
            } else {
                self.left == 0
            },
        }
    }
}

fn all_flags(flags: &Vec<bool>) -> (yes: bool)
    ensures
        yes == all_set(flags@),
{
    let mut i: usize = 0;
    while i < flags.len()
        invariant
            i <= flags@.len(),
            forall|k: int| 0 <= k < i ==> #[trigger] flags@[k],
        decreases flags.len() - i,
    {
        if !flags[i] {
            return false;
        }
        i += 1;
    }
    true
}

fn unset(n: usize) -> (flags: Vec<bool>)
    ensures
        flags@.len() == n,
        forall|k: int| 0 <= k < n ==> !#[trigger] flags@[k],
{
    let mut flags: Vec<bool> = Vec::new();
    let mut i: usize = 0;
    while i < n
        invariant
            i <= n,
            flags@.len() == i,
            forall|k: int| 0 <= k < i ==> !#[trigger] flags@[k],
        decreases n - i,
    {
        flags.push(false);
        i += 1;
    }
    flags
}

fn copy_numbers(list: &Vec<usize>) -> (copy: Vec<usize>)
    ensures
        copy@ == list@,
{
    let mut out: Vec<usize> = Vec::new();
    let mut i: usize = 0;
    while i < list.len()
        invariant
            i <= list@.len(),
            out@ == list@.take(i as int),
        decreases list.len() - i,
    {
        out.push(list[i]);
        assert(list@.take(i + 1) =~= list@.take(i as int).push(list@[i as int]));
        i += 1;
    }
    assert(list@.take(list@.len() as int) =~= list@);
    out
}

proof fn lemma_part_of_wave(nodes: Seq<Node>, wave: Seq<usize>, detached: bool)
    ensures
        forall|k: int|
            0 <= k < part_of_wave(nodes, wave, detached).len() ==> graph::members(wave).contains(
                #[trigger] part_of_wave(nodes, wave, detached)[k] as int,
            ) && nodes[part_of_wave(nodes, wave, detached)[k] as int].fire_and_forget == detached,
        wave.no_duplicates() ==> part_of_wave(nodes, wave, detached).no_duplicates(),
    decreases wave.len(),
{
    reveal(Seq::filter);
    let list = part_of_wave(nodes, wave, detached);
    if wave.len() > 0 {
        let front = wave.drop_last();
        lemma_part_of_wave(nodes, front, detached);
        let prev = part_of_wave(nodes, front, detached);
        assert forall|k: int| 0 <= k < list.len() implies graph::members(wave).contains(
            #[trigger] list[k] as int,
        ) && nodes[list[k] as int].fire_and_forget == detached by {
            if k < prev.len() {
                assert(list[k] == prev[k]);
                assert(graph::members(front).contains(prev[k] as int));
                let m = choose|m: int| 0 <= m < front.len() && front[m] == prev[k] as int;
                assert(wave[m] == list[k] as int);
            } else {
                assert(wave[wave.len() - 1] == list[k] as int);
            }
        }
        if wave.no_duplicates() {
            assert(front.no_duplicates());
            assert forall|a: int, b: int| 0 <= a < b < list.len() implies list[a] != list[b] by {
                assert(list[a] == prev[a]);
                if b < prev.len() {
                    assert(list[b] == prev[b]);
                } else {
                    assert(graph::members(front).contains(prev[a] as int));
                    let m = choose|m: int| 0 <= m < front.len() && front[m] == prev[a] as int;
                    assert(wave[m] == prev[a]);
                }
            }
        }
    }
}

proof fn lemma_ready_list_distinct(graph: Seq<Seq<usize>>, done: Set<int>)
    requires
        graph.len() <= usize::MAX,
    ensures
        graph::ready_list(graph, done).no_duplicates(),
{
    graph::lemma_ready_list(graph, done);
    let list = graph::ready_list(graph, done);
    assert forall|a: int, b: int| 0 <= a < b < list.len() implies list[a] != list[b] by {
        assert(list[a] < list[b]);
    }
}

impl Workflow {
    /// A workflow without nodes, rolled back by best effort.
    pub fn new(name: &str) -> (workflow: Workflow)
        ensures
            workflow.name@ == name@,
            workflow.nodes@.len() == 0,
            workflow.policy == CompensationPolicy::BestEffort,
    {
        Workflow {
            name: name.to_owned(),
            nodes: Vec::new(),
            policy: CompensationPolicy::BestEffort,
        }
    }

    /// The workflow with one node more.
    pub fn node(self, node: Node) -> (workflow: Workflow)
        ensures
            workflow.nodes@ == self.nodes@.push(node),
            workflow == (Workflow { nodes: workflow.nodes, ..self }),
    {
        let mut nodes: Vec<Node> = self.nodes;
        nodes.push(node);
        Workflow { nodes, ..self }
    }

    /// The workflow under a compensation policy.
    pub fn policy(self, policy: CompensationPolicy) -> (workflow: Workflow)
        ensures
            workflow == (Workflow { policy: policy, ..self }),
    {
        Workflow { policy, ..self }
    }

    /// The workflow name.
    pub fn name(&self) -> (name: &str)
        ensures
            name@ == self.name@,
    {
        self.name.as_str()
    }

    /// The nodes, in the order in which they were added.
    pub fn nodes(&self) -> (nodes: &Vec<Node>)
        ensures
            *nodes == self.nodes,
    {
        &self.nodes
    }

    /// The node names, in the order in which the nodes were added.
    pub fn node_names(&self) -> (list: Vec<String>)
        ensures
            text::texts(list@) == node_names_of(self.nodes@),
    {
        let mut out: Vec<String> = Vec::new();
        let mut i: usize = 0;
        while i < self.nodes.len()
            invariant
                i <= self.nodes@.len(),
                out@.len() == i,
                forall|a: int| 0 <= a < i ==> (#[trigger] out@[a])@ == self.nodes@[a].name@,
            decreases self.nodes.len() - i,
        {
            out.push(self.nodes[i].name.clone());
            i += 1;
        }
        assert(text::texts(out@) =~= node_names_of(self.nodes@));
        out
    }

    fn node_deps(&self) -> (list: Vec<Vec<String>>)
        ensures
            names::text_lists(list@) == node_deps_of(self.nodes@),
            list@.len() == self.nodes@.len(),
    {
        let mut out: Vec<Vec<String>> = Vec::new();
        let mut i: usize = 0;
        while i < self.nodes.len()
            invariant
                i <= self.nodes@.len(),
                out@.len() == i,
                forall|a: int| 0 <= a < i ==> (#[trigger] out@[a])@ == self.nodes@[a].depends_on@,
            decreases self.nodes.len() - i,
        {
            out.push(clone_texts(&self.nodes[i].depends_on));
            i += 1;
        }
        assert(names::text_lists(out@) =~= node_deps_of(self.nodes@));
        out
    }

    /// The dependencies of the nodes by node name.
    pub fn graph(&self) -> (map: TextMap<Vec<String>>)
        ensures
            map.well_formed(),
            text_list_map(map) == named_graph(self.nodes@),
    {
        let mut map: TextMap<Vec<String>> = TextMap::new();
        assert(text_list_map(map) =~= named_graph(self.nodes@.take(0)));
        let mut i: usize = 0;
        while i < self.nodes.len()
            invariant
                i <= self.nodes@.len(),
                map.well_formed(),
                text_list_map(map) == named_graph(self.nodes@.take(i as int)),
            decreases self.nodes.len() - i,
        {
            let ghost before = text_list_map(map);
            map.insert(self.nodes[i].name.clone(), clone_texts(&self.nodes[i].depends_on));
            proof {
                let next = self.nodes@.take(i + 1);
                assert(next.drop_last() =~= self.nodes@.take(i as int));
                assert(text_list_map(map) =~= before.insert(
                    self.nodes@[i as int].name@,
                    text::texts(self.nodes@[i as int].depends_on@),
                ));
            }
            i += 1;
        }
        assert(self.nodes@.take(self.nodes@.len() as int) =~= self.nodes@);
        map
    }

    /// Starts a run, unless two nodes share a name or a dependency is unknown.
    pub fn begin(&self) -> (started: Result<WorkflowRun, WorkflowError>)
        ensures
            match started {
                Ok(run) => {
                    &&& run.well_formed(*self)
                    &&& run.stage == WorkflowStage::Planning
                    &&& run.waves@.len() == 0
                    &&& run.completed@.len() == 0
                },
                Err(error) => is_definition_error(*self, error),
            },
            started is Ok <==> runnable(self.nodes@),
    {
        let ns: Vec<String> = self.node_names();
        let ds: Vec<Vec<String>> = self.node_deps();
        let ghost names_view = node_names_of(self.nodes@);
        let ghost deps_view = node_deps_of(self.nodes@);
        assert(ns@.len() == text::texts(ns@).len());
        if let Some(at) = first_repeat(&ns) {
            proof {
                assert(names::repeats(names_view, at as int));
                assert(names_view[at as int] == ns@[at as int]@);
            }
            return Err(
                WorkflowError::DuplicateNode { workflow: self.name.clone(), node: ns[at].clone() },
            );
        }
        if let Some((at, k)) = first_fault(&ns, &ds, false) {
            proof {
                assert(names::first_fault_at(names_view, deps_view, false, at as int, k as int));
                assert(names::faulty(names_view, deps_view, false, at as int, k as int));
                assert(deps_view[at as int][k as int] == ds@[at as int]@[k as int]@);
                assert(names_view[at as int] == ns@[at as int]@);
            }
            return Err(
                WorkflowError::UnknownDependency {
                    workflow: self.name.clone(),
                    node: ns[at].clone(),
                    dependency: ds[at][k].clone(),
                },
            );
        }
        let graph: Vec<Vec<usize>> = resolve(&ns, &ds);
        let run: WorkflowRun = WorkflowRun {
            graph,
            waves: Vec::new(),
            done: unset(self.nodes.len()),
            wave: Vec::new(),
            blocking: Vec::new(),
            states: Vec::new(),
            stopped: false,
            ran: unset(self.nodes.len()),
            completed: Vec::new(),
            left: 0,
            error: None,
            stage: WorkflowStage::Planning,
        };
        proof {
            reveal(Seq::filter);
            assert(graph::marked(run.done@) =~= Set::<int>::empty());
            assert(graph::lists(run.waves@) =~= Seq::empty());
            assert(run.blocking@ =~= part_of_wave(self.nodes@, run.wave@, false));
        }
        Ok(run)
    }

    fn part(&self, wave: &Vec<usize>, detached: bool) -> (list: Vec<usize>)
        requires
            forall|k: int| 0 <= k < wave@.len() ==> (#[trigger] wave@[k]) < self.nodes@.len(),
        ensures
            list@ == part_of_wave(self.nodes@, wave@, detached),
    {
        let mut out: Vec<usize> = Vec::new();
        let mut i: usize = 0;
        assert(part_of_wave(self.nodes@, wave@.take(0), detached) =~= Seq::empty()) by {
            reveal(Seq::filter);
        }
        while i < wave.len()
            invariant
                i <= wave@.len(),
                forall|k: int| 0 <= k < wave@.len() ==> (#[trigger] wave@[k]) < self.nodes@.len(),
                out@ == part_of_wave(self.nodes@, wave@.take(i as int), detached),
            decreases wave.len() - i,
        {
            proof {
                reveal(Seq::filter);
                let next = wave@.take(i + 1);
                assert(next.drop_last() =~= wave@.take(i as int));
                assert(next.last() == wave@[i as int]);
            }
            if self.nodes[wave[i]].fire_and_forget == detached {
                out.push(wave[i]);
            }
            i += 1;
        }
        assert(wave@.take(wave@.len() as int) =~= wave@);
        out
    }

    /// Finds the next wave: every outstanding node whose dependencies are
    /// done. Where there is none, the run is complete, or it has stalled and
    /// rolls back.
    pub fn next_wave(&self, run: &mut WorkflowRun) -> (step: WaveStep)
        requires
            old(run).well_formed(*self),
            old(run).stage == WorkflowStage::Planning,
        ensures
            final(run).well_formed(*self),
            ({
                let ready = graph::ready_list(
                    node_graph(self.nodes@),
                    graph::marked(old(run).done@),
                );
                match step {
                    WaveStep::Wave { detached, blocking } => {
                        &&& ready.len() > 0
                        &&& detached@ == part_of_wave(self.nodes@, ready, true)
                        &&& blocking@ == part_of_wave(self.nodes@, ready, false)
                        &&& *final(run) == (WorkflowRun {
                            wave: final(run).wave,
                            blocking: final(run).blocking,
                            states: final(run).states,
                            stage: WorkflowStage::Running,
                            ..*old(run)
                        })
                        &&& final(run).wave@ == ready
                        &&& final(run).blocking@ == blocking@
                        &&& forall|k: int|
                            0 <= k < blocking@.len() ==> #[trigger] final(run).states@[k]
                                == NodeState::Waiting
                    },
                    WaveStep::Stalled => {
                        &&& ready.len() == 0
                        &&& !all_set(old(run).done@)
                        &&& *final(run) == (WorkflowRun {
                            left: final(run).left,
                            error: Some(WorkflowError::NoProgress { workflow: self.name }),
                            stage: WorkflowStage::RollingBack,
                            ..*old(run)
                        })
                        &&& final(run).left == old(run).completed@.len()
                    },
                    WaveStep::Complete => {
                        &&& ready.len() == 0
                        &&& all_set(old(run).done@)
                        &&& *final(run) == (WorkflowRun {
                            stage: WorkflowStage::Ended,
                            ..*old(run)
                        })
                    },
                }
            }),
    {
        proof {
            names::lemma_resolved_closed(node_names_of(self.nodes@), node_deps_of(self.nodes@));
            graph::lemma_ready_list(node_graph(self.nodes@), graph::marked(run.done@));
        }
        let ready: Vec<usize> = ready_nodes(&run.graph, &run.done);
        if ready.len() > 0 {
            let detached: Vec<usize> = self.part(&ready, true);
            let blocking: Vec<usize> = self.part(&ready, false);
            let mut states: Vec<NodeState> = Vec::new();
            let mut i: usize = 0;
            while i < blocking.len()
                invariant
                    i <= blocking@.len(),
                    states@.len() == i,
                    forall|k: int| 0 <= k < i ==> #[trigger] states@[k] == NodeState::Waiting,
                decreases blocking.len() - i,
            {
                states.push(NodeState::Waiting);
                i += 1;
            }
            proof {
                lemma_part_of_wave(self.nodes@, ready@, false);
                assert forall|k: int| 0 <= k < states@.len() implies ((
                #[trigger] states@[k]) is Succeeded <==> run.ran@[blocking@[k] as int]) by {
                    let i = blocking@[k] as int;
                    assert(graph::members(ready@).contains(i));
                    let m = choose|m: int| 0 <= m < ready@.len() && ready@[m] == i;
                    assert(graph::ready(
                        node_graph(self.nodes@),
                        graph::marked(run.done@),
                        ready@[m] as int,
                    ));
                    assert(!graph::marked(run.done@).contains(i));
                    if run.ran@[i] {
                        assert(!graph::members(run.wave@).contains(i));
                    }
                }
                assert forall|i: int| 0 <= i < self.nodes@.len() && #[trigger] run.ran@[i] implies
                run.done@[i] by {
                    assert(!graph::members(run.wave@).contains(i));
                }
                assert forall|k: int| 0 <= k < ready@.len() implies (#[trigger] ready@[k])
                    < self.nodes@.len() by {
                    assert(graph::ready(
                        node_graph(self.nodes@),
                        graph::marked(run.done@),
                        ready@[k] as int,
                    ));
                }
            }
            run.blocking = copy_numbers(&blocking);
            run.wave = ready;
            run.states = states;
            run.stage = WorkflowStage::Running;
            WaveStep::Wave { detached, blocking }
        } else if all_flags(&run.done) {
            run.stage = WorkflowStage::Ended;
            WaveStep::Complete
        } else {
            run.left = run.completed.len();
            run.error = Some(WorkflowError::NoProgress { workflow: self.name.clone() });
            run.stage = WorkflowStage::RollingBack;
            WaveStep::Stalled
        }
    }

    /// Stops a run that was cancelled before its next wave. Where a wave would
    /// start, the run fails as cancelled and rolls back, and no node of the
    /// wave starts; otherwise nothing changes.
    pub fn interrupt(&self, run: &mut WorkflowRun) -> (stopped: bool)
        requires
            old(run).well_formed(*self),
            old(run).stage == WorkflowStage::Planning,
        ensures
            final(run).well_formed(*self),
            stopped == (graph::ready_list(
                node_graph(self.nodes@),
                graph::marked(old(run).done@),
            ).len() > 0),
            !stopped ==> *final(run) == *old(run),
            stopped ==> {
                &&& *final(run) == (WorkflowRun {
                    left: final(run).left,
                    error: Some(WorkflowError::Cancelled),
                    stage: WorkflowStage::RollingBack,
                    ..*old(run)
                })
                &&& final(run).left == old(run).completed@.len()
            },
    {
        proof {
            names::lemma_resolved_closed(node_names_of(self.nodes@), node_deps_of(self.nodes@));
        }
        let ready: Vec<usize> = ready_nodes(&run.graph, &run.done);
        if ready.len() == 0 {
            return false;
        }
        run.left = run.completed.len();
        run.error = Some(WorkflowError::Cancelled);
        run.stage = WorkflowStage::RollingBack;
        true
    }

    /// Decides of one node that the workflow would wait for, at the moment at
    /// which it is to start, whether it does.
    pub fn start_node(
        &self,
        run: &mut WorkflowRun,
        slot: usize,
        cancelled: bool,
        facts: &StepContext,
    ) -> (admission: Admission)
        requires
            old(run).well_formed(*self),
            old(run).stage == WorkflowStage::Running,
            slot < old(run).blocking@.len(),
            old(run).states@[slot as int] is Waiting,
            facts.well_formed(),
        ensures
            final(run).well_formed(*self),
            *final(run) == (WorkflowRun { states: final(run).states, ..*old(run) }),
            admission == (if cancelled || old(run).stopped {
                Admission::Cancelled
            } else if condition_met(
                self.nodes@[old(run).blocking@[slot as int] as int].condition,
                facts@,
            ) {
                Admission::Run
            } else {
                Admission::Skip
            }),
            final(run).states@ == old(run).states@.update(
                slot as int,
                match admission {
                    Admission::Run => NodeState::Running,
                    Admission::Skip => NodeState::Skipped,
                    Admission::Cancelled => NodeState::Cancelled,
                },
            ),
    {
        proof {
            lemma_part_of_wave(self.nodes@, run.wave@, false);
            self.lemma_slot(*run, slot as int);
        }
        if cancelled || run.stopped {
            let ghost before = *run;
            run.states.set(slot, NodeState::Cancelled);
            proof {
                lemma_still_stopped(before, *run, slot as int);
            }
            return Admission::Cancelled;
        }
        if self.nodes[run.blocking[slot]].condition_holds(facts) {
            run.states.set(slot, NodeState::Running);
            Admission::Run
        } else {
            run.states.set(slot, NodeState::Skipped);
            Admission::Skip
        }
    }

    proof fn lemma_slot(&self, run: WorkflowRun, slot: int)
        requires
            run.consistent(*self),
            0 <= slot < run.blocking@.len(),
        ensures
            run.blocking@[slot] < self.nodes@.len(),
            graph::members(run.wave@).contains(run.blocking@[slot] as int),
            !self.nodes@[run.blocking@[slot] as int].fire_and_forget,
    {
        lemma_part_of_wave(self.nodes@, run.wave@, false);
        let i = run.blocking@[slot] as int;
        assert(graph::members(run.wave@).contains(i));
        let m = choose|m: int| 0 <= m < run.wave@.len() && run.wave@[m] == i;
        assert(run.wave@[m] < self.nodes@.len());
    }

    /// Records that a running node has succeeded.
    pub fn node_succeeded(&self, run: &mut WorkflowRun, slot: usize)
        requires
            old(run).well_formed(*self),
            old(run).stage == WorkflowStage::Running,
            slot < old(run).blocking@.len(),
            old(run).states@[slot as int] is Running,
        ensures
            final(run).well_formed(*self),
            *final(run) == (WorkflowRun {
                states: final(run).states,
                ran: final(run).ran,
                completed: final(run).completed,
                ..*old(run)
            }),
            final(run).states@ == old(run).states@.update(slot as int, NodeState::Succeeded),
            ({
                let node = old(run).blocking@[slot as int];
                &&& final(run).ran@ == old(run).ran@.update(node as int, true)
                &&& final(run).completed@ == (if self.nodes@[node as int].compensatable {
                    old(run).completed@.push(node)
                } else {
                    old(run).completed@
                })
            }),
    {
        proof {
            self.lemma_slot(*run, slot as int);
            lemma_part_of_wave(self.nodes@, run.wave@, false);
            lemma_ready_list_distinct(node_graph(self.nodes@), graph::marked(run.done@));
        }
        let ghost before = *run;
        let node: usize = run.blocking[slot];
        run.states.set(slot, NodeState::Succeeded);
        run.ran.set(node, true);
        if self.nodes[node].compensatable {
            run.completed.push(node);
        }
        proof {
            lemma_still_stopped(before, *run, slot as int);
            assert(!before.ran@[node as int]);
            assert(!graph::members(before.completed@).contains(node as int));
            assert forall|k: int| 0 <= k < run.states@.len() implies ((
            #[trigger] run.states@[k]) is Succeeded <==> run.ran@[run.blocking@[k] as int]) by {
                self.lemma_slot(before, k);
                if k != slot {
                    assert(run.blocking@[k] != run.blocking@[slot as int]);
                    assert(run.states@[k] == before.states@[k]);
                }
            }
            assert forall|i: int|
                #![trigger graph::members(run.completed@).contains(i)]
                graph::members(run.completed@).contains(i) <==> 0 <= i < self.nodes@.len()
                    && run.ran@[i] && self.nodes@[i].compensatable by {
                lemma_members_push(before.completed@, node);
                assert(graph::members(before.completed@).contains(i) <==> 0 <= i
                    < self.nodes@.len() && before.ran@[i] && self.nodes@[i].compensatable);
            }
            assert(run.completed@.no_duplicates()) by {
                assert forall|a: int, b: int| 0 <= a < b < run.completed@.len() implies
                run.completed@[a] != run.completed@[b] by {
                    if b == before.completed@.len() {
                        assert(before.completed@[a] == run.completed@[a]);
                        if before.completed@[a] == node {
                            assert(graph::members(before.completed@).contains(node as int));
                        }
                    }
                }
            }
        }
    }

    /// Records that a running node has failed: no further node starts.
    pub fn node_failed(&self, run: &mut WorkflowRun, slot: usize, source: String)
        requires
            old(run).well_formed(*self),
            old(run).stage == WorkflowStage::Running,
            slot < old(run).blocking@.len(),
            old(run).states@[slot as int] is Running,
        ensures
            final(run).well_formed(*self),
            *final(run) == (WorkflowRun {
                states: final(run).states,
                stopped: true,
                ..*old(run)
            }),
            final(run).states@ == old(run).states@.update(slot as int, NodeState::Failed(source)),
    {
        proof {
            self.lemma_slot(*run, slot as int);
        }
        run.states.set(slot, NodeState::Failed(source));
        run.stopped = true;
        assert(run.states@[slot as int] is Failed);
    }

    fn errors_of(&self, run: &WorkflowRun) -> (errors: Vec<WorkflowError>)
        requires
            run.consistent(*self),
        ensures
            errors@ == wave_errors(self.nodes@, run.blocking@, run.states@),
    {
        let mut errors: Vec<WorkflowError> = Vec::new();
        let mut i: usize = 0;
        while i < run.states.len()
            invariant
                i <= run.states@.len(),
                run.consistent(*self),
                errors@ == wave_errors(self.nodes@, run.blocking@, run.states@.take(i as int)),
            decreases run.states.len() - i,
        {
            proof {
                self.lemma_slot(*run, i as int);
                let next = run.states@.take(i + 1);
                assert(next.drop_last() =~= run.states@.take(i as int));
                assert(next.last() == run.states@[i as int]);
            }
            match &run.states[i] {
                NodeState::Failed(source) => errors.push(
                    WorkflowError::Node {
                        node: self.nodes[run.blocking[i]].name.clone(),
                        source: source.clone(),
                    },
                ),
                NodeState::Cancelled => errors.push(WorkflowError::Cancelled),
                _ => {},
            }
            i += 1;
        }
        assert(run.states@.take(run.states@.len() as int) =~= run.states@);
        errors
    }

    /// Closes a wave of which no node waits or runs. If none failed or was
    /// kept from starting, its nodes are done; otherwise the run fails and
    /// rolls back: as cancelled where no node failed, and with the errors of
    /// the wave where one did.
    pub fn wave_done(&self, run: &mut WorkflowRun)
        requires
            old(run).well_formed(*self),
            old(run).stage == WorkflowStage::Running,
            all_settled(old(run).states@),
        ensures
            final(run).well_formed(*self),
            ({
                let errors = wave_errors(self.nodes@, old(run).blocking@, old(run).states@);
                if errors.len() == 0 {
                    &&& final(run).stage == WorkflowStage::Planning
                    &&& graph::marked(final(run).done@) == graph::marked(old(run).done@).union(
                        graph::members(old(run).wave@),
                    )
                    &&& graph::unmarked(final(run).done@) < graph::unmarked(old(run).done@)
                    &&& graph::lists(final(run).waves@) == graph::lists(old(run).waves@).push(
                        old(run).wave@,
                    )
                    &&& final(run).ran == old(run).ran
                    &&& final(run).completed == old(run).completed
                    &&& final(run).graph == old(run).graph
                } else {
                    &&& *final(run) == (WorkflowRun {
                        left: final(run).left,
                        error: final(run).error,
                        stage: WorkflowStage::RollingBack,
                        ..*old(run)
                    })
                    &&& final(run).left == old(run).completed@.len()
                    &&& final(run).error matches Some(error) && is_wave_failure(errors, error)
                }
            }),
    {
        let errors: Vec<WorkflowError> = self.errors_of(run);
        let ghost before = *run;
        proof {
            lemma_wave_errors(self.nodes@, run.blocking@, run.states@);
        }
        if errors.len() == 0 {
            let empty_wave: Vec<usize> = Vec::new();
            let wave: Vec<usize> = copy_numbers(&run.wave);
            proof {
                graph::lemma_ready_list(node_graph(self.nodes@), graph::marked(run.done@));
            }
            mark(&mut run.done, &wave);
            run.waves.push(wave);
            run.wave = empty_wave;
            run.blocking = Vec::new();
            run.states = Vec::new();
            run.stage = WorkflowStage::Planning;
            proof {
                reveal(Seq::filter);
                graph::lemma_marking_progress(
                    node_graph(self.nodes@),
                    before.done@,
                    run.done@,
                    wave@,
                );
                assert(graph::lists(run.waves@) =~= graph::lists(before.waves@).push(wave@));
                assert(graph::lists(run.waves@).drop_last() =~= graph::lists(before.waves@));
                assert(run.blocking@ =~= part_of_wave(self.nodes@, run.wave@, false));
                assert forall|i: int| 0 <= i < self.nodes@.len() && #[trigger] run.ran@[i] implies
                run.done@[i] by {
                    assert(before.ran@[i]);
                    if before.done@[i] {
                        assert(graph::marked(before.done@).contains(i));
                    }
                    assert(graph::marked(run.done@).contains(i));
                }
            }
        } else {
            run.left = run.completed.len();
            run.error = if only_cancelled(&errors) {
                Some(WorkflowError::Cancelled)
            } else {
                Some(WorkflowError::join(errors))
            };
            run.stage = WorkflowStage::RollingBack;
        }
    }

    /// Names the completed node that is to be rolled back next, or ends the
    /// run where none is left.
    pub fn next_rollback(&self, run: &mut WorkflowRun) -> (node: Option<usize>)
        requires
            old(run).well_formed(*self),
            old(run).stage == WorkflowStage::RollingBack,
        ensures
            final(run).well_formed(*self),
            match node {
                Some(i) => {
                    &&& *final(run) == *old(run)
                    &&& node_rollback_plan(*old(run)).len() > 0
                    &&& i == node_rollback_plan(*old(run))[0]
                    &&& old(run).left > 0
                    &&& i == old(run).completed@[old(run).left - 1]
                    &&& i < self.nodes@.len()
                    &&& self.nodes@[i as int].compensatable
                },
                None => {
                    &&& node_rollback_plan(*old(run)).len() == 0
                    &&& old(run).left == 0
                    &&& *final(run) == (WorkflowRun { stage: WorkflowStage::Ended, ..*old(run) })
                },
            },
    {
        if run.left > 0 {
            let node: usize = run.completed[run.left - 1];
            assert(graph::members(run.completed@).contains(node as int));
            Some(node)
        } else {
            run.stage = WorkflowStage::Ended;
            None
        }
    }

    /// Records that a node was rolled back. A failure ends the rollback only
    /// under [`CompensationPolicy::StopOnError`]; the error of the run stays.
    pub fn rolled_back(&self, run: &mut WorkflowRun, failed: bool)
        requires
            old(run).well_formed(*self),
            old(run).stage == WorkflowStage::RollingBack,
            old(run).left > 0,
        ensures
            final(run).well_formed(*self),
            *final(run) == (WorkflowRun { left: final(run).left, ..*old(run) }),
            node_rollback_plan(*final(run)) == (if failed && self.policy
                == CompensationPolicy::StopOnError {
                Seq::empty()
            } else {
                node_rollback_plan(*old(run)).drop_first()
            }),
            final(run).left == if failed && self.policy == CompensationPolicy::StopOnError {
                0
            } else {
                old(run).left - 1
            },
    {
        let ghost plan = node_rollback_plan(*run);
        if failed && self.policy == CompensationPolicy::StopOnError {
            run.left = 0;
        } else {
            run.left = run.left - 1;
        }
        assert(node_rollback_plan(*run) =~= if failed && self.policy
            == CompensationPolicy::StopOnError {
            Seq::empty()
        } else {
            plan.drop_first()
        });
    }

    /// The result of a run that has ended.
    pub fn finish(&self, run: WorkflowRun) -> (result: Result<(), WorkflowError>)
        requires
            run.well_formed(*self),
            run.stage == WorkflowStage::Ended,
        ensures
            match result {
                Ok(_) => run.error is None,
                Err(error) => run.error == Some(error),
            },
    {
        match run.error {
            Some(error) => Err(error),
            None => Ok(()),
        }
    }
}

proof fn lemma_still_stopped(before: WorkflowRun, later: WorkflowRun, slot: int)
    requires
        0 <= slot < before.states@.len(),
        !(before.states@[slot] is Failed),
        later.states@ == before.states@.update(slot, later.states@[slot]),
        before.stopped ==> exists|k: int|
            0 <= k < before.states@.len() && (#[trigger] before.states@[k]) is Failed,
    ensures
        before.stopped ==> exists|k: int|
            0 <= k < later.states@.len() && (#[trigger] later.states@[k]) is Failed,
{
    if before.stopped {
        let k = choose|k: int|
            0 <= k < before.states@.len() && (#[trigger] before.states@[k]) is Failed;
        assert(later.states@[k] is Failed);
    }
}

/// A wave has errors exactly when a node failed or was kept from starting.
pub proof fn lemma_wave_errors(
    nodes: Seq<Node>,
    blocking: Seq<usize>,
    states: Seq<NodeState>,
)
    ensures
        wave_errors(nodes, blocking, states).len() == 0 <==> forall|k: int|
            0 <= k < states.len() ==> !((#[trigger] states[k]) is Failed) && !(
            states[k] is Cancelled),
    decreases states.len(),
{
    if states.len() > 0 {
        let front = states.drop_last();
        lemma_wave_errors(nodes, blocking, front);
        if wave_errors(nodes, blocking, states).len() == 0 {
            assert forall|k: int| 0 <= k < states.len() implies !((
            #[trigger] states[k]) is Failed) && !(states[k] is Cancelled) by {
                if k < front.len() {
                    assert(front[k] == states[k]);
                }
            }
        } else if wave_errors(nodes, blocking, front).len() > 0 {
            let k = choose|k: int|
                0 <= k < front.len() && (#[trigger] front[k] is Failed || front[k] is Cancelled);
            assert(states[k] == front[k]);
        } else {
            assert(states[states.len() - 1] == states.last());
        }
    }
}

proof fn lemma_members_push(list: Seq<usize>, added: usize)
    ensures
        graph::members(list.push(added)) == graph::members(list).insert(added as int),
{
    let more = list.push(added);
    assert forall|i: int| graph::members(more).contains(i) == (graph::members(list).contains(i) || i
        == added) by {
        if graph::members(more).contains(i) {
            let k = choose|k: int| 0 <= k < more.len() && more[k] == i;
            if k < list.len() {
                assert(list[k] == i);
            }
        }
        if graph::members(list).contains(i) {
            let k = choose|k: int| 0 <= k < list.len() && list[k] == i;
            assert(more[k] == i);
        }
        if i == added {
            assert(more[list.len() as int] == i);
        }
    }
    assert(graph::members(more) =~= graph::members(list).insert(added as int));
}

/// A node of the running wave has not been in a wave before, and everything
/// it depends on is done.
pub proof fn law_wave_nodes_are_due(workflow: Workflow, run: WorkflowRun, i: int)
    requires
        run.well_formed(workflow),
        run.stage == WorkflowStage::Running,
        graph::members(run.wave@).contains(i),
    ensures
        0 <= i < workflow.nodes@.len(),
        !run.done@[i],
        forall|k: int|
            0 <= k < workflow.nodes@[i].depends_on@.len() ==> run.done@[#[trigger] names::place(
                node_names_of(workflow.nodes@),
                workflow.nodes@[i].depends_on@[k]@,
            )],
{
    let g = node_graph(workflow.nodes@);
    let done = graph::marked(run.done@);
    graph::lemma_ready_list(g, done);
    let m = choose|m: int| 0 <= m < run.wave@.len() && run.wave@[m] == i;
    assert(graph::ready(g, done, run.wave@[m] as int));
    assert(!done.contains(i));
    let ns = node_names_of(workflow.nodes@);
    let ds = node_deps_of(workflow.nodes@);
    assert forall|k: int|
        0 <= k < workflow.nodes@[i].depends_on@.len() implies run.done@[#[trigger] names::place(
        ns,
        workflow.nodes@[i].depends_on@[k]@,
    )] by {
        assert(ds[i][k] == workflow.nodes@[i].depends_on@[k]@);
        assert(!names::faulty(ns, ds, false, i, k));
        names::lemma_place(ns, ds[i][k]);
        assert(done.contains(g[i][k] as int));
    }
}

/// A run that ends without error has run its waves over every node, each once
/// and after all that it depends on; no cycle lets a run end so.
pub proof fn law_completed_run_is_whole(workflow: Workflow, run: WorkflowRun)
    requires
        run.well_formed(workflow),
        run.stage == WorkflowStage::Ended,
        run.error is None,
    ensures
        graph::complete(node_graph(workflow.nodes@), graph::flat(graph::lists(run.waves@))),
        graph::respects(node_graph(workflow.nodes@), graph::flat(graph::lists(run.waves@))),
        !graph::cyclic(node_graph(workflow.nodes@)),
{
    let g = node_graph(workflow.nodes@);
    let ls = graph::lists(run.waves@);
    let done = graph::marked(run.done@);
    assert forall|i: int| 0 <= i < g.len() implies #[trigger] done.contains(i) by {
        assert(run.done@[i]);
    }
    graph::lemma_ready_list(g, done);
    let list = graph::ready_list(g, done);
    if list.len() > 0 {
        assert(graph::ready(g, done, list[0] as int));
    }
    names::lemma_resolved_closed(node_names_of(workflow.nodes@), node_deps_of(workflow.nodes@));
    graph::lemma_layered_order(g, ls);
    graph::lemma_layers_grow(g, ls);
    assert forall|k: int| 0 <= k < graph::flat(ls).len() implies (#[trigger] graph::flat(ls)[k])
        < g.len() by {
        assert(graph::ready(g, graph::members(graph::flat(ls).take(k)), graph::flat(ls)[k] as int));
    }
    assert(graph::complete(g, graph::flat(ls)));
}

/// A run stalls only if the dependencies form a cycle.
pub proof fn law_only_cycles_stall(workflow: Workflow, run: WorkflowRun)
    requires
        run.well_formed(workflow),
        run.stage == WorkflowStage::Planning,
        graph::ready_list(node_graph(workflow.nodes@), graph::marked(run.done@)).len() == 0,
        !all_set(run.done@),
    ensures
        graph::cyclic(node_graph(workflow.nodes@)),
{
    let g = node_graph(workflow.nodes@);
    let ls = graph::lists(run.waves@);
    names::lemma_resolved_closed(node_names_of(workflow.nodes@), node_deps_of(workflow.nodes@));
    graph::lemma_layered_order(g, ls);
    graph::lemma_layers_grow(g, ls);
    let i = choose|i: int| 0 <= i < run.done@.len() && !#[trigger] run.done@[i];
    assert(!graph::marked(run.done@).contains(i));
    assert(!graph::members(graph::flat(ls)).contains(i));
}

/// What a failed run rolls back: the nodes that ran successfully and can be
/// compensated, each once, and none that the workflow did not wait for.
pub proof fn law_rollback_covers_what_ran(workflow: Workflow, run: WorkflowRun, i: int)
    requires
        run.well_formed(workflow),
        run.left == run.completed@.len(),
    ensures
        graph::members(node_rollback_plan(run)).contains(i) <==> 0 <= i < workflow.nodes@.len()
            && run.ran@[i] && workflow.nodes@[i].compensatable,
        graph::members(node_rollback_plan(run)).contains(i)
            ==> !workflow.nodes@[i].fire_and_forget,
        node_rollback_plan(run).no_duplicates(),
{
    let plan = node_rollback_plan(run);
    let all = run.completed@;
    assert(all.take(run.left as int) =~= all);
    assert(graph::members(plan).contains(i) == graph::members(all).contains(i)) by {
        if graph::members(plan).contains(i) {
            let k = choose|k: int| 0 <= k < plan.len() && plan[k] == i;
            assert(all[all.len() - 1 - k] == i);
        }
        if graph::members(all).contains(i) {
            let k = choose|k: int| 0 <= k < all.len() && all[k] == i;
            assert(plan[all.len() - 1 - k] == i);
        }
    }
    assert forall|a: int, b: int| 0 <= a < b < plan.len() implies plan[a] != plan[b] by {
        assert(plan[a] == all[all.len() - 1 - a]);
        assert(plan[b] == all[all.len() - 1 - b]);
    }
}

/// Rollback runs in reverse order of completion.
pub proof fn law_rollback_is_reverse_completion(run: WorkflowRun, a: int, b: int)
    requires
        run.left == run.completed@.len(),
        0 <= a < b < run.completed@.len(),
    ensures
        node_rollback_plan(run)[run.completed@.len() - 1 - b] == run.completed@[b],
        node_rollback_plan(run)[run.completed@.len() - 1 - a] == run.completed@[a],
{
    assert(run.completed@.take(run.left as int) =~= run.completed@);
}

/// A node that the workflow does not wait for fails no run: every failure in a
/// wave is that of a node it waits for.
pub proof fn law_detached_nodes_fail_no_run(
    workflow: Workflow,
    run: WorkflowRun,
    failure: WorkflowError,
)
    requires
        run.well_formed(workflow),
        wave_errors(workflow.nodes@, run.blocking@, run.states@).contains(failure),
        failure is Node,
    ensures
        exists|i: int|
            0 <= i < workflow.nodes@.len() && !(
            #[trigger] workflow.nodes@[i]).fire_and_forget && workflow.nodes@[i].name
                == failure->Node_node,
{
    let errors = wave_errors(workflow.nodes@, run.blocking@, run.states@);
    let at = choose|at: int| 0 <= at < errors.len() && errors[at] == failure;
    let slot = lemma_error_slot(workflow.nodes@, run.blocking@, run.states@, at);
    workflow.lemma_slot(run, slot);
    assert(!workflow.nodes@[run.blocking@[slot] as int].fire_and_forget);
}

proof fn lemma_error_slot(
    nodes: Seq<Node>,
    blocking: Seq<usize>,
    states: Seq<NodeState>,
    at: int,
) -> (slot: int)
    requires
        0 <= at < wave_errors(nodes, blocking, states).len(),
        wave_errors(nodes, blocking, states)[at] is Node,
    ensures
        0 <= slot < states.len(),
        wave_errors(nodes, blocking, states)[at]->Node_node == nodes[blocking[slot] as int].name,
    decreases states.len(),
{
    let earlier = wave_errors(nodes, blocking, states.drop_last());
    if at < earlier.len() {
        lemma_error_slot(nodes, blocking, states.drop_last(), at)
    } else {
        states.len() - 1
    }
}

proof fn lemma_cancelled_errors(
    nodes: Seq<Node>,
    blocking: Seq<usize>,
    states: Seq<NodeState>,
)
    requires
        forall|k: int| 0 <= k < states.len() ==> !((#[trigger] states[k]) is Failed),
    ensures
        all_cancelled(wave_errors(nodes, blocking, states)),
    decreases states.len(),
{
    if states.len() > 0 {
        let front = states.drop_last();
        assert forall|k: int| 0 <= k < front.len() implies !((#[trigger] front[k]) is Failed) by {
            assert(front[k] == states[k]);
        }
        lemma_cancelled_errors(nodes, blocking, front);
        assert(!(states[states.len() - 1] is Failed));
    }
}

/// A cancelled run fails as cancelled: where nodes of a wave were kept from
/// starting and none failed, the error of the wave is one cancellation, however
/// many nodes it kept.
pub proof fn law_cancelled_run_fails_as_cancelled(
    workflow: Workflow,
    run: WorkflowRun,
    slot: int,
    error: WorkflowError,
)
    requires
        run.well_formed(workflow),
        0 <= slot < run.states@.len(),
        run.states@[slot] is Cancelled,
        forall|k: int| 0 <= k < run.states@.len() ==> !((#[trigger] run.states@[k]) is Failed),
        is_wave_failure(wave_errors(workflow.nodes@, run.blocking@, run.states@), error),
    ensures
        error == WorkflowError::Cancelled,
{
    lemma_wave_errors(workflow.nodes@, run.blocking@, run.states@);
    lemma_cancelled_errors(workflow.nodes@, run.blocking@, run.states@);
}

/// A run can start exactly when no two nodes share a name and every dependency
/// is the name of a node.
pub proof fn law_runnable_means_known_and_distinct(nodes: Seq<Node>)
    ensures
        runnable(nodes) <==> {
            &&& forall|i: int, j: int|
                0 <= i < j < nodes.len() ==> (#[trigger] nodes[i]).name@ != (
                #[trigger] nodes[j]).name@
            &&& forall|i: int, k: int|
                0 <= i < nodes.len() && 0 <= k < nodes[i].depends_on@.len() ==> exists|j: int|
                    0 <= j < nodes.len() && (#[trigger] nodes[j]).name@
                        == (#[trigger] nodes[i].depends_on@[k])@
        },
{
    let ns = node_names_of(nodes);
    let ds = node_deps_of(nodes);
    names::lemma_distinct(ns);
    if runnable(nodes) {
        assert forall|i: int, j: int| 0 <= i < j < nodes.len() implies (#[trigger] nodes[i]).name@
            != (#[trigger] nodes[j]).name@ by {
            assert(ns[i] != ns[j]);
        }
        assert forall|i: int, k: int|
            0 <= i < nodes.len() && 0 <= k < nodes[i].depends_on@.len() implies exists|j: int|
            0 <= j < nodes.len() && (#[trigger] nodes[j]).name@ == (
            #[trigger] nodes[i].depends_on@[k])@ by {
            assert(ds[i][k] == nodes[i].depends_on@[k]@);
            assert(!names::faulty(ns, ds, false, i, k));
            names::law_faults_are_unknown_names(ns, ds, i, k);
            let j = choose|j: int| 0 <= j < ns.len() && ns[j] == ds[i][k];
            assert(nodes[j].name@ == nodes[i].depends_on@[k]@);
        }
    }
    if (forall|i: int, j: int|
        0 <= i < j < nodes.len() ==> (#[trigger] nodes[i]).name@ != (#[trigger] nodes[j]).name@)
        && (forall|i: int, k: int|
        0 <= i < nodes.len() && 0 <= k < nodes[i].depends_on@.len() ==> exists|j: int|
            0 <= j < nodes.len() && (#[trigger] nodes[j]).name@ == (
            #[trigger] nodes[i].depends_on@[k])@) {
        assert forall|i: int, j: int| 0 <= i < ns.len() && 0 <= j < ns.len() && i != j implies ns[i]
            != ns[j] by {
            assert(ns[i] == nodes[i].name@ && ns[j] == nodes[j].name@);
            if i > j {
                assert(nodes[j].name@ != nodes[i].name@);
            }
        }
        assert forall|i: int, k: int|
            0 <= i < ds.len() && 0 <= k < ds[i].len() implies !#[trigger] names::faulty(
            ns,
            ds,
            false,
            i,
            k,
        ) by {
            assert(ds[i][k] == nodes[i].depends_on@[k]@);
            let j = choose|j: int|
                0 <= j < nodes.len() && (#[trigger] nodes[j]).name@ == nodes[i].depends_on@[k]@;
            assert(ns[j] == ds[i][k]);
            names::law_faults_are_unknown_names(ns, ds, i, k);
        }
    }
}

/// The running wave holds a node exactly when it has not been in a wave before
/// and every node that its dependencies name is done.
pub proof fn law_wave_is_all_that_is_due(workflow: Workflow, run: WorkflowRun, i: int)
    requires
        run.well_formed(workflow),
        run.stage == WorkflowStage::Running,
        0 <= i < workflow.nodes@.len(),
    ensures
        (exists|m: int| 0 <= m < run.wave@.len() && #[trigger] run.wave@[m] == i) <==> {
            &&& !run.done@[i]
            &&& forall|k: int, j: int|
                0 <= k < workflow.nodes@[i].depends_on@.len() && 0 <= j < workflow.nodes@.len()
                    && (#[trigger] workflow.nodes@[i].depends_on@[k])@ == (
                #[trigger] workflow.nodes@[j]).name@ ==> run.done@[j]
        },
{
    let nodes = workflow.nodes@;
    let g = node_graph(nodes);
    let done = graph::marked(run.done@);
    let ns = node_names_of(nodes);
    let ds = node_deps_of(nodes);
    graph::lemma_ready_list(g, done);
    names::lemma_distinct(ns);
    if exists|m: int| 0 <= m < run.wave@.len() && #[trigger] run.wave@[m] == i {
        assert(graph::members(run.wave@).contains(i));
        law_wave_nodes_are_due(workflow, run, i);
        assert forall|k: int, j: int|
            0 <= k < nodes[i].depends_on@.len() && 0 <= j < nodes.len() && (
            #[trigger] nodes[i].depends_on@[k])@ == (#[trigger] nodes[j]).name@ implies
        run.done@[j] by {
            assert(ns[j] == nodes[j].name@);
            names::lemma_place(ns, ns[j]);
            assert(names::place(ns, nodes[i].depends_on@[k]@) == j);
        }
    }
    if !run.done@[i] && (forall|k: int, j: int|
        0 <= k < nodes[i].depends_on@.len() && 0 <= j < nodes.len() && (
        #[trigger] nodes[i].depends_on@[k])@ == (#[trigger] nodes[j]).name@ ==> run.done@[j]) {
        assert forall|k: int| 0 <= k < g[i].len() implies done.contains(
            #[trigger] g[i][k] as int,
        ) by {
            assert(ds[i][k] == nodes[i].depends_on@[k]@);
            assert(!names::faulty(ns, ds, false, i, k));
            names::lemma_place(ns, ds[i][k]);
            let j = names::place(ns, ds[i][k]);
            assert(nodes[j].name@ == nodes[i].depends_on@[k]@);
            assert(g[i][k] == j);
        }
        assert(graph::ready(g, done, i));
        assert(graph::members(run.wave@).contains(i));
    }
}

/// Every node of a wave is either waited for or not, as it asks: each is in
/// exactly one of the two parts.
pub proof fn law_wave_parts_by_what_nodes_ask(
    nodes: Seq<Node>,
    wave: Seq<usize>,
    detached: bool,
    i: usize,
)
    ensures
        part_of_wave(nodes, wave, detached).contains(i) <==> wave.contains(i)
            && nodes[i as int].fire_and_forget == detached,
        part_of_wave(nodes, wave, true).len() + part_of_wave(nodes, wave, false).len()
            == wave.len(),
    decreases wave.len(),
{
    let pred = |i: usize| nodes[i as int].fire_and_forget == detached;
    lemma_part_of_wave(nodes, wave, detached);
    let part = part_of_wave(nodes, wave, detached);
    if part.contains(i) {
        let k = choose|k: int| 0 <= k < part.len() && part[k] == i;
        assert(graph::members(wave).contains(part[k] as int));
        let m = choose|m: int| 0 <= m < wave.len() && wave[m] == part[k] as int;
        assert(wave[m] == i);
    }
    if wave.contains(i) && nodes[i as int].fire_and_forget == detached {
        let m = choose|m: int| 0 <= m < wave.len() && wave[m] == i;
        wave.lemma_filter_contains(pred, m);
    }
    reveal(Seq::filter);
    if wave.len() > 0 {
        law_wave_parts_by_what_nodes_ask(nodes, wave.drop_last(), detached, i);
    }
}

/// A node without a condition runs; one with a condition runs exactly when the
/// condition can be read and holds.
pub proof fn law_only_a_condition_that_holds_admits(
    condition: Option<String>,
    facts: ContextView,
)
    ensures
        condition is None ==> condition_met(condition, facts),
        condition is Some ==> {
            let result = condition::condition_result(condition->0@, facts);
            &&& result is Err ==> !condition_met(condition, facts)
            &&& result is Ok ==> condition_met(condition, facts) == result->Ok_0
        },
{
}

/// The errors of a wave, node by node: one more node that failed adds its name
/// and the message of its failure, one that was kept from starting adds a
/// cancellation, and one that succeeded or was skipped adds nothing.
pub proof fn law_only_failures_and_cancellations_are_errors(
    nodes: Seq<Node>,
    blocking: Seq<usize>,
    states: Seq<NodeState>,
    state: NodeState,
)
    ensures
        ({
            let before = wave_errors(nodes, blocking, states);
            let after = wave_errors(nodes, blocking, states.push(state));
            let node = nodes[blocking[states.len() as int] as int];
            &&& wave_errors(nodes, blocking, Seq::empty()).len() == 0
            &&& state is Succeeded || state is Skipped ==> after == before
            &&& state is Cancelled ==> after == before.push(WorkflowError::Cancelled)
            &&& state is Failed ==> after.len() == before.len() + 1 && after.drop_last() == before
                && after.last() is Node && after.last()->Node_node == node.name
                && after.last()->source == state->Failed_0
        }),
{
    assert(states.push(state).drop_last() =~= states);
    let after = wave_errors(nodes, blocking, states.push(state));
    if state is Failed {
        assert(after.drop_last() =~= wave_errors(nodes, blocking, states));
    }
}

/// The error of a wave stands for all that went wrong in it: a single error is
/// reported as it is, several of which one is a failed node are all reported
/// in their order, and cancellations alone are reported as one.
pub proof fn law_wave_failure_reports_all_errors(
    errors: Seq<WorkflowError>,
    error: WorkflowError,
)
    requires
        errors.len() > 0,
        is_wave_failure(errors, error),
    ensures
        errors.len() == 1 ==> error == errors[0],
        (exists|k: int| 0 <= k < errors.len() && !((#[trigger] errors[k]) is Cancelled))
            && errors.len() > 1 ==> error is Multiple && error->Multiple_0@ == errors,
        (forall|k: int| 0 <= k < errors.len() ==> (#[trigger] errors[k]) is Cancelled)
            ==> error is Cancelled,
{
    assert(errors[0] is Cancelled ==> errors[0] == WorkflowError::Cancelled);
}

/// Why a workflow cannot run: a name that two nodes share, or else a dependency
/// that is the name of no node.
pub proof fn law_definition_errors_name_their_reason(workflow: Workflow, error: WorkflowError)
    requires
        is_definition_error(workflow, error),
    ensures
        error is DuplicateNode || error is UnknownDependency,
        error matches WorkflowError::DuplicateNode { workflow: w, node } ==> w == workflow.name
            && exists|i: int, j: int|
            0 <= i < j < workflow.nodes@.len() && (#[trigger] workflow.nodes@[i]).name@ == node@
                && (#[trigger] workflow.nodes@[j]).name@ == node@,
        error matches WorkflowError::UnknownDependency { workflow: w, node, dependency } ==> {
            &&& w == workflow.name
            &&& forall|j: int|
                0 <= j < workflow.nodes@.len() ==> (#[trigger] workflow.nodes@[j]).name@
                    != dependency@
            &&& exists|i: int, k: int|
                0 <= i < workflow.nodes@.len() && workflow.nodes@[i].name@ == node@ && 0 <= k
                    < workflow.nodes@[i].depends_on@.len() && (
                #[trigger] workflow.nodes@[i].depends_on@[k])@ == dependency@
            &&& forall|i: int, j: int|
                0 <= i < j < workflow.nodes@.len() ==> (#[trigger] workflow.nodes@[i]).name@ != (
                #[trigger] workflow.nodes@[j]).name@
        },
{
    let nodes = workflow.nodes@;
    let ns = node_names_of(nodes);
    let ds = node_deps_of(nodes);
    names::lemma_distinct(ns);
    match error {
        WorkflowError::DuplicateNode { node, .. } => {
            let j = choose|j: int|
                {
                    &&& 0 <= j < ns.len()
                    &&& #[trigger] names::repeats(ns, j)
                    &&& node@ == ns[j]
                    &&& forall|x: int| 0 <= x < j ==> !#[trigger] names::repeats(ns, x)
                };
            names::lemma_place(ns, ns[j]);
            let i = names::place(ns, ns[j]);
            assert(nodes[i].name@ == ns[i] && nodes[j].name@ == ns[j]);
        },
        WorkflowError::UnknownDependency { node, dependency, .. } => {
            let (i, k) = choose|i: int, k: int|
                {
                    &&& #[trigger] names::first_fault_at(ns, ds, false, i, k)
                    &&& node@ == ns[i]
                    &&& dependency@ == ds[i][k]
                };
            names::lemma_place(ns, ds[i][k]);
            assert(nodes[i].depends_on@[k]@ == dependency@);
            assert forall|j: int| 0 <= j < nodes.len() implies (#[trigger] nodes[j]).name@
                != dependency@ by {
                assert(ns[j] == nodes[j].name@);
            }
            assert forall|a: int, b: int| 0 <= a < b < nodes.len() implies (
            #[trigger] nodes[a]).name@ != (#[trigger] nodes[b]).name@ by {
                assert(ns[a] != ns[b]);
            }
        },
        _ => {},
    }
}

/// The graph of a workflow shows each node under its name with what it depends
/// on; of nodes that share a name the last counts.
pub proof fn law_graphs_show_the_last_of_a_name(nodes: Seq<Node>, node: Node, name: Seq<char>)
    ensures
        named_graph(Seq::empty()).dom() == Set::<Seq<char>>::empty(),
        named_graph(nodes.push(node)).contains_key(node.name@),
        named_graph(nodes.push(node))[node.name@] == text::texts(node.depends_on@),
        name != node.name@ ==> (named_graph(nodes.push(node)).contains_key(name) <==> named_graph(
            nodes,
        ).contains_key(name)) && named_graph(nodes.push(node))[name] == named_graph(nodes)[name],
{
    assert(nodes.push(node).drop_last() =~= nodes);
    assert(named_graph(Seq::empty()).dom() =~= Set::<Seq<char>>::empty());
}

} // verus!
