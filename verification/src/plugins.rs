//! Plugins: what they are, how they fail, and a registry that starts them all
//! and stops them all.
//!
//! The hooks of a plugin are a ticket. The caller runs the hooks that
//! [`Registry::next_start`] and [`Registry::next_stop`] name, and reports how
//! they went.

use crate::names;
use crate::resolve;
use crate::resolve::{topological_order, ResolutionError};
use crate::text;
use crate::text::{clone_texts, quoted, same};
use crate::text_map::TextMap;
use vstd::prelude::*;
use vstd::string::*;

verus! {

/// The version of the plugin lifecycle.
pub const VERSION: &'static str = "26.6.10";

/// What a plugin says of itself.
pub trait Plugin {
    /// The name of the plugin, by which it is registered.
    fn name(&self) -> (name: &str);

    /// The names of the plugins that have to start before it: none, unless the
    /// plugin says otherwise.
    fn depends_on(&self) -> (list: Vec<String>)
        default_ensures
            list@.len() == 0,
    {
        Vec::new()
    }
}

/// Where a plugin is in its life.
#[derive(Debug, Clone, Copy, PartialEq, Eq, Structural, Hash)]
pub enum PluginState {
    /// It is registered.
    Loaded,
    /// It has started.
    Started,
    /// It has stopped.
    Stopped,
    /// A hook of it has failed.
    Failed,
}

/// The name of a plugin state.
pub open spec fn plugin_state_wire(state: PluginState) -> Seq<char> {
    match state {
        PluginState::Loaded => "LOADED"@,
        PluginState::Started => "STARTED"@,
        PluginState::Stopped => "STOPPED"@,
        PluginState::Failed => "FAILED"@,
    }
}

impl PluginState {
    /// The name of the state.
    pub fn as_str(&self) -> (wire: &'static str)
        ensures
            wire@ == plugin_state_wire(*self),
            wire@ == match *self {
                PluginState::Loaded => "LOADED"@,
                PluginState::Started => "STARTED"@,
                PluginState::Stopped => "STOPPED"@,
                PluginState::Failed => "FAILED"@,
            },
    {
        match self {
            PluginState::Loaded => "LOADED",
            PluginState::Started => "STARTED",
            PluginState::Stopped => "STOPPED",
            PluginState::Failed => "FAILED",
        }
    }

    /// The name of the state.
    pub fn to_string(&self) -> (wire: String)
        ensures
            wire@ == plugin_state_wire(*self),
    {
        self.as_str().to_owned()
    }
}

/// How a sweep over plugins fails.
#[derive(Debug)]
pub enum PluginError {
    /// A plugin did not start.
    Start {
        /// The plugin.
        name: String,
        /// The message of its failure.
        source: String,
    },
    /// A plugin did not stop.
    Stop {
        /// The plugin.
        name: String,
        /// The message of its failure.
        source: String,
    },
    /// The plugins cannot be ordered.
    Resolution(ResolutionError),
    /// Several failures, in the order in which they came.
    Aggregate(Vec<PluginError>),
}

/// The message of a plugin error.
pub open spec fn plugin_error_text(error: PluginError) -> Seq<char>
    decreases error,
{
    match error {
        PluginError::Start { name, source } => "plugin "@ + text::debug_text(name@) + " start: "@
            + source@,
        PluginError::Stop { name, source } => "plugin "@ + text::debug_text(name@) + " stop: "@
            + source@,
        PluginError::Resolution(error) => resolve::resolution_error_text(error),
        PluginError::Aggregate(errors) => text::joined(plugin_error_lines(errors@), "\n"@),
    }
}

/// The messages of plugin errors.
pub open spec fn plugin_error_lines(errors: Seq<PluginError>) -> Seq<Seq<char>>
    decreases errors,
{
    Seq::new(
        errors.len(),
        |i: int|
            if 0 <= i < errors.len() {
                plugin_error_text(errors[i])
            } else {
                Seq::empty()
            },
    )
}

fn hook_message(name: &str, hook: &str, source: &str) -> (message: String)
    ensures
        message@ == "plugin "@ + text::debug_text(name@) + hook@ + source@,
{
    let mut out: String = "plugin ".to_owned();
    out.append(quoted(name).as_str());
    out.append(hook);
    out.append(source);
    out
}

fn error_lines(errors: &Vec<PluginError>) -> (lines: Vec<String>)
    ensures
        text::texts(lines@) == plugin_error_lines(errors@),
    decreases errors,
{
    let mut out: Vec<String> = Vec::new();
    let mut i: usize = 0;
    while i < errors.len()
        invariant
            i <= errors@.len(),
            out@.len() == i,
            forall|k: int| 0 <= k < i ==> (#[trigger] out@[k])@ == plugin_error_text(errors@[k]),
        decreases errors.len() - i,
    {
        out.push(errors[i].to_string());
        i += 1;
    }
    assert(text::texts(out@) =~= plugin_error_lines(errors@));
    out
}

impl PluginError {
    /// The message of the error; those of several errors stand one per line.
    pub fn to_string(&self) -> (message: String)
        ensures
            message@ == plugin_error_text(*self),
        decreases self,
    {
        match self {
            PluginError::Start { name, source } => hook_message(
                name.as_str(),
                " start: ",
                source.as_str(),
            ),
            PluginError::Stop { name, source } => hook_message(
                name.as_str(),
                " stop: ",
                source.as_str(),
            ),
            PluginError::Resolution(error) => error.to_string(),
            PluginError::Aggregate(errors) => text::join(&error_lines(errors), "\n"),
        }
    }
}

/// A plugin whose hooks are to be run.
#[derive(Debug)]
pub struct PluginHandle {
    /// The name of the plugin.
    pub name: String,
    /// The ticket of its hooks.
    pub hooks: u64,
}

/// A plugin handle as mathematical data.
pub struct HandleView {
    /// The name of the plugin.
    pub name: Seq<char>,
    /// The ticket of its hooks.
    pub hooks: u64,
}

impl View for PluginHandle {
    type V = HandleView;

    open spec fn view(&self) -> HandleView {
        HandleView { name: self.name@, hooks: self.hooks }
    }
}

impl PluginHandle {
    /// An equal handle.
    pub fn duplicate(&self) -> (copy: PluginHandle)
        ensures
            copy@ == self@,
    {
        PluginHandle { name: self.name.clone(), hooks: self.hooks }
    }
}

/// Some handles as mathematical data.
pub open spec fn handle_views(list: Seq<PluginHandle>) -> Seq<HandleView> {
    Seq::new(list.len(), |i: int| list[i]@)
}

/// A registered plugin.
#[derive(Debug)]
pub struct RegisteredPlugin {
    /// The name of the plugin.
    pub name: String,
    /// What it depends on.
    pub depends_on: Vec<String>,
    /// The ticket of its hooks.
    pub hooks: u64,
}

/// The names of registered plugins.
pub open spec fn plugin_names(plugins: Seq<RegisteredPlugin>) -> Seq<Seq<char>> {
    Seq::new(plugins.len(), |i: int| plugins[i].name@)
}

/// What registered plugins depend on.
pub open spec fn plugin_deps(plugins: Seq<RegisteredPlugin>) -> Seq<Seq<Seq<char>>> {
    Seq::new(plugins.len(), |i: int| text::texts(plugins[i].depends_on@))
}

/// The handles of plugins in an order.
pub open spec fn handles_in(plugins: Seq<RegisteredPlugin>, order: Seq<usize>) -> Seq<HandleView> {
    Seq::new(
        order.len(),
        |k: int|
            HandleView {
                name: plugins[order[k] as int].name@,
                hooks: plugins[order[k] as int].hooks,
            },
    )
}

/// A sweep that starts plugins.
#[derive(Debug)]
pub struct StartSweep {
    /// The plugins, in the order in which they start.
    pub queue: Vec<PluginHandle>,
    /// How many of them have been tried.
    pub next: usize,
    /// The failure that ended the sweep.
    pub failure: Option<PluginError>,
}

/// The failure of a sweep whose stops have failed in these ways.
pub open spec fn is_stop_outcome(stops: Seq<PluginError>, outcome: Result<(), PluginError>) -> bool {
    match outcome {
        Ok(()) => stops.len() == 0,
        Err(error) => if stops.len() == 1 {
            error == stops[0]
        } else {
            stops.len() > 1 && (error matches PluginError::Aggregate(all) && all@ == stops)
        },
    }
}

/// The failure of a sweep that could not start a plugin, or could, and whose
/// rollback has failed in these ways.
pub open spec fn is_start_outcome(
    failure: Option<PluginError>,
    stops: Seq<PluginError>,
    outcome: Result<(), PluginError>,
) -> bool {
    match (failure, outcome) {
        (None, Ok(())) => true,
        (Some(start), Err(error)) => if stops.len() == 0 {
            error == start
        } else {
            error matches PluginError::Aggregate(all) && all@ == seq![start] + stops
        },
        _ => false,
    }
}

/// Gives the outcome of a sweep that stopped plugins.
pub fn finish_stop(stops: Vec<PluginError>) -> (outcome: Result<(), PluginError>)
    ensures
        is_stop_outcome(stops@, outcome),
        outcome is Ok <==> stops@.len() == 0,
        stops@.len() == 1 ==> outcome == Err::<(), PluginError>(stops@[0]),
        stops@.len() > 1 ==> outcome is Err && outcome->Err_0 is Aggregate
            && outcome->Err_0->Aggregate_0@ == stops@,
{
    let mut all: Vec<PluginError> = stops;
    if all.len() > 1 {
        return Err(PluginError::Aggregate(all));
    }
    match all.pop() {
        Some(only) => Err(only),
        None => Ok(()),
    }
}

/// Gives the outcome of a sweep that started plugins, and rolled back where
/// one failed.
pub fn finish_start(sweep: StartSweep, stops: Vec<PluginError>) -> (outcome: Result<
    (),
    PluginError,
>)
    ensures
        is_start_outcome(sweep.failure, stops@, outcome),
        outcome is Ok <==> sweep.failure is None,
        sweep.failure is Some && stops@.len() == 0 ==> outcome == Err::<(), PluginError>(
            sweep.failure->0,
        ),
        sweep.failure is Some && stops@.len() > 0 ==> outcome is Err && outcome->Err_0 is Aggregate
            && outcome->Err_0->Aggregate_0@ == seq![sweep.failure->0] + stops@,
{
    match sweep.failure {
        None => Ok(()),
        Some(start) => {
            if stops.len() == 0 {
                return Err(start);
            }
            let mut all: Vec<PluginError> = stops;
            all.insert(0, start);
            assert(all@ =~= seq![start] + stops@);
            Err(PluginError::Aggregate(all))
        },
    }
}

/// Plugins in the order in which they were registered.
#[derive(Debug)]
pub struct Registry {
    /// The plugins.
    pub plugins: Vec<RegisteredPlugin>,
    /// Those that have started and not been stopped, in the order in which
    /// they started.
    pub started: Vec<PluginHandle>,
    /// The state of each plugin.
    pub states: TextMap<PluginState>,
}

/// The order in which started plugins stop: the last one first.
pub open spec fn stop_queue(started: Seq<HandleView>) -> Seq<HandleView> {
    started.reverse()
}

impl Registry {
    /// Whether no two plugins share a name and each has a state.
    pub open spec fn well_formed(self) -> bool {
        &&& self.states.well_formed()
        &&& names::distinct(plugin_names(self.plugins@))
        &&& forall|i: int|
            0 <= i < self.plugins@.len() ==> self.states@.contains_key(
                (#[trigger] self.plugins@[i]).name@,
            )
    }

    /// A registry without plugins.
    pub fn new() -> (registry: Registry)
        ensures
            registry.well_formed(),
            registry.plugins@.len() == 0,
            registry.started@.len() == 0,
            registry.states@ == Map::<Seq<char>, PluginState>::empty(),
    {
        Registry { plugins: Vec::new(), started: Vec::new(), states: TextMap::new() }
    }

    /// Registers a plugin: in the place of the one with its name, or behind
    /// the others.
    pub fn register(&mut self, plugin: RegisteredPlugin)
        requires
            old(self).well_formed(),
        ensures
            final(self).well_formed(),
            final(self).started == old(self).started,
            final(self).states@ == old(self).states@.insert(plugin.name@, PluginState::Loaded),
            ({
                let p = names::place(plugin_names(old(self).plugins@), plugin.name@);
                final(self).plugins@ == if p >= 0 {
                    old(self).plugins@.update(p, plugin)
                } else {
                    old(self).plugins@.push(plugin)
                }
            }),
    {
        let ghost before = *self;
        let ghost ns = plugin_names(self.plugins@);
        let name: String = plugin.name.clone();
        let at: Option<usize> = self.position(name.as_str());
        proof {
            names::lemma_place(ns, plugin.name@);
        }
        match at {
            Some(i) => {
                self.plugins.set(i, plugin);
                assert(plugin_names(self.plugins@) =~= ns);
            },
            None => {
                self.plugins.push(plugin);
                assert(plugin_names(self.plugins@) =~= ns.push(plugin.name@));
            },
        }
        self.states.insert(name, PluginState::Loaded);
        proof {
            let later = plugin_names(self.plugins@);
            names::lemma_distinct(ns);
            names::lemma_distinct(later);
            assert(later.no_duplicates()) by {
                assert forall|i: int, j: int| 0 <= i < j < later.len() implies later[i]
                    != later[j] by {
                    if j < ns.len() {
                        assert(ns[i] != ns[j]);
                    }
                }
            }
            assert forall|i: int| 0 <= i < self.plugins@.len() implies self.states@.contains_key(
                (#[trigger] self.plugins@[i]).name@,
            ) by {
                if i < ns.len() && self.plugins@[i].name@ != plugin.name@ {
                    assert(before.plugins@[i] == self.plugins@[i]);
                }
            }
        }
    }

    fn position(&self, name: &str) -> (at: Option<usize>)
        ensures
            match at {
                Some(i) => i == names::place(plugin_names(self.plugins@), name@) && i
                    < self.plugins@.len(),
                None => names::place(plugin_names(self.plugins@), name@) < 0,
            },
    {
        let ghost ns = plugin_names(self.plugins@);
        let mut i: usize = 0;
        while i < self.plugins.len()
            invariant
                i <= self.plugins@.len(),
                ns == plugin_names(self.plugins@),
                forall|j: int| 0 <= j < i ==> ns[j] != name@,
            decreases self.plugins.len() - i,
        {
            if same(self.plugins[i].name.as_str(), name) {
                proof {
                    names::lemma_place_is(ns, name@, i as int);
                }
                return Some(i);
            }
            i += 1;
        }
        proof {
            names::lemma_place(ns, name@);
        }
        None
    }

    /// The names of the plugins, in the order in which they were registered.
    pub fn names(&self) -> (list: Vec<String>)
        ensures
            text::texts(list@) == plugin_names(self.plugins@),
    {
        let mut out: Vec<String> = Vec::new();
        let mut i: usize = 0;
        while i < self.plugins.len()
            invariant
                i <= self.plugins@.len(),
                out@.len() == i,
                forall|k: int| 0 <= k < i ==> (#[trigger] out@[k])@ == self.plugins@[k].name@,
            decreases self.plugins.len() - i,
        {
            out.push(self.plugins[i].name.clone());
            i += 1;
        }
        assert(text::texts(out@) =~= plugin_names(self.plugins@));
        out
    }

    /// The state of a plugin, if it is registered.
    pub fn state(&self, name: &str) -> (state: Option<PluginState>)
        ensures
            match state {
                Some(found) => self.states@.contains_key(name@) && found == self.states@[name@],
                None => !self.states@.contains_key(name@),
            },
    {
        match self.states.get(name) {
            Some(found) => Some(*found),
            None => None,
        }
    }

    fn nodes(&self) -> (list: Vec<(String, Vec<String>)>)
        ensures
            list@.len() == self.plugins@.len(),
            resolve::node_names(list@) == plugin_names(self.plugins@),
            resolve::node_deps(list@) == plugin_deps(self.plugins@),
    {
        let mut out: Vec<(String, Vec<String>)> = Vec::new();
        let mut i: usize = 0;
        while i < self.plugins.len()
            invariant
                i <= self.plugins@.len(),
                out@.len() == i,
                forall|k: int|
                    0 <= k < i ==> {
                        &&& (#[trigger] out@[k]).0@ == self.plugins@[k].name@
                        &&& text::texts(out@[k].1@) == text::texts(self.plugins@[k].depends_on@)
                    },
            decreases self.plugins.len() - i,
        {
            out.push((self.plugins[i].name.clone(), clone_texts(&self.plugins[i].depends_on)));
            i += 1;
        }
        assert(resolve::node_names(out@) =~= plugin_names(self.plugins@));
        assert(resolve::node_deps(out@) =~= plugin_deps(self.plugins@));
        out
    }

    /// Begins a sweep that starts the plugins in dependency order. Nothing
    /// starts where they cannot be ordered.
    pub fn start_all(&mut self) -> (begun: Result<StartSweep, PluginError>)
        ensures
            final(self).plugins == old(self).plugins,
            final(self).states == old(self).states,
            final(self).started@.len() == 0,
            match begun {
                Ok(sweep) => {
                    &&& sweep.next == 0
                    &&& sweep.failure is None
                    &&& handle_views(final(self).started@) == sweep_started(sweep)
                    &&& exists|order: Seq<usize>|
                        {
                            &&& #[trigger] resolve::is_start_order(
                                plugin_names(old(self).plugins@),
                                plugin_deps(old(self).plugins@),
                                order,
                            )
                            &&& handle_views(sweep.queue@) == handles_in(old(self).plugins@, order)
                        }
                },
                Err(PluginError::Resolution(error)) => resolve::is_refused(
                    plugin_names(old(self).plugins@),
                    plugin_deps(old(self).plugins@),
                    error,
                ),
                Err(_) => false,
            },
    {
        self.started = Vec::new();
        let nodes: Vec<(String, Vec<String>)> = self.nodes();
        let order: Vec<usize> = match topological_order(&nodes) {
            Ok(order) => order,
            Err(error) => {
                return Err(PluginError::Resolution(error));
            },
        };
        let ghost before = self.plugins@;
        let mut queue: Vec<PluginHandle> = Vec::new();
        let mut k: usize = 0;
        while k < order.len()
            invariant
                k <= order@.len(),
                self.plugins@ == before,
                self.plugins == old(self).plugins,
                self.states == old(self).states,
                self.started@.len() == 0,
                forall|j: int| 0 <= j < order@.len() ==> (#[trigger] order@[j]) < before.len(),
                queue@.len() == k,
                forall|j: int| 0 <= j < k ==> (#[trigger] queue@[j])@ == handles_in(before, order@)[j],
            decreases order.len() - k,
        {
            queue.push(
                PluginHandle {
                    name: self.plugins[order[k]].name.clone(),
                    hooks: self.plugins[order[k]].hooks,
                },
            );
            k += 1;
        }
        assert(handle_views(queue@) =~= handles_in(before, order@));
        assert(handle_views(self.started@) =~= handle_views(queue@).take(0));
        Ok(StartSweep { queue, next: 0, failure: None })
    }

    /// The plugin whose start hook is to be run next; none where the sweep has
    /// failed or started everything.
    pub fn next_start(&self, sweep: &StartSweep) -> (plugin: Option<PluginHandle>)
        ensures
            match plugin {
                Some(handle) => {
                    &&& sweep.failure is None
                    &&& sweep.next < sweep.queue@.len()
                    &&& handle@ == sweep.queue@[sweep.next as int]@
                },
                None => sweep.failure is Some || sweep.next >= sweep.queue@.len(),
            },
    {
        if sweep.failure.is_some() || sweep.next >= sweep.queue.len() {
            None
        } else {
            Some(sweep.queue[sweep.next].duplicate())
        }
    }

    /// Reports how the start hook of the next plugin went. A failure ends the
    /// sweep.
    pub fn start_tried(&mut self, sweep: &mut StartSweep, outcome: Result<(), String>)
        requires
            old(self).well_formed(),
            old(sweep).failure is None,
            old(sweep).next < old(sweep).queue@.len(),
        ensures
            final(self).well_formed(),
            final(self).plugins == old(self).plugins,
            final(sweep).queue == old(sweep).queue,
            final(sweep).next == old(sweep).next + 1,
            handle_views(old(self).started@) == sweep_started(*old(sweep)) ==> handle_views(
                final(self).started@,
            ) == sweep_started(*final(sweep)),
            ({
                let plugin = old(sweep).queue@[old(sweep).next as int]@;
                match outcome {
                    Ok(()) => {
                        &&& final(sweep).failure is None
                        &&& handle_views(final(self).started@) == handle_views(
                            old(self).started@,
                        ).push(plugin)
                        &&& final(self).states@ == old(self).states@.insert(
                            plugin.name,
                            PluginState::Started,
                        )
                    },
                    Err(message) => {
                        &&& final(sweep).failure matches Some(
                            PluginError::Start { name, source },
                        ) && name@ == plugin.name && source == message
                        &&& final(self).started == old(self).started
                        &&& final(self).states@ == old(self).states@.insert(
                            plugin.name,
                            PluginState::Failed,
                        )
                    },
                }
            }),
    {
        let ghost first_sweep = *sweep;
        let ghost first_started = handle_views(self.started@);
        let plugin: PluginHandle = sweep.queue[sweep.next].duplicate();
        assert(sweep.queue@.len() == sweep.queue.len());
        sweep.next = sweep.next + 1;
        match outcome {
            Ok(()) => {
                self.states.insert(plugin.name.clone(), PluginState::Started);
                let ghost before = handle_views(self.started@);
                self.started.push(plugin);
                assert(handle_views(self.started@) =~= before.push(plugin@));
            },
            Err(source) => {
                self.states.insert(plugin.name.clone(), PluginState::Failed);
                sweep.failure = Some(PluginError::Start { name: plugin.name, source });
            },
        }
        proof {
            if first_started == sweep_started(first_sweep) {
                law_rollback_stops_what_started(
                    first_sweep,
                    first_started,
                    *sweep,
                    handle_views(self.started@),
                );
            }
        }
    }

    /// The plugin whose stop hook is to be run next, if any has started.
    pub fn next_stop(&mut self) -> (plugin: Option<PluginHandle>)
        ensures
            final(self).plugins == old(self).plugins,
            final(self).states == old(self).states,
            match plugin {
                Some(handle) => {
                    let queue = stop_queue(handle_views(old(self).started@));
                    &&& queue.len() > 0
                    &&& handle@ == queue[0]
                    &&& stop_queue(handle_views(final(self).started@)) == queue.drop_first()
                },
                None => old(self).started@.len() == 0 && final(self).started@.len() == 0,
            },
    {
        let ghost before = handle_views(self.started@);
        let plugin: Option<PluginHandle> = self.started.pop();
        proof {
            if plugin is Some {
                let later = handle_views(self.started@);
                assert(later =~= before.drop_last());
                assert(stop_queue(later) =~= stop_queue(before).drop_first());
            }
        }
        plugin
    }

    /// Reports how the stop hook of a plugin went. A failure is added to the
    /// others and ends nothing.
    pub fn stop_tried(
        &mut self,
        plugin: &PluginHandle,
        outcome: Result<(), String>,
        stops: &mut Vec<PluginError>,
    )
        requires
            old(self).well_formed(),
        ensures
            final(self).well_formed(),
            final(self).plugins == old(self).plugins,
            final(self).started == old(self).started,
            match outcome {
                Ok(()) => {
                    &&& final(stops)@ == old(stops)@
                    &&& final(self).states@ == old(self).states@.insert(
                        plugin.name@,
                        PluginState::Stopped,
                    )
                },
                Err(message) => {
                    &&& final(stops)@.len() == old(stops)@.len() + 1
                    &&& final(stops)@.drop_last() == old(stops)@
                    &&& final(stops)@.last() matches PluginError::Stop { name, source } && name@
                        == plugin.name@ && source == message
                    &&& final(self).states@ == old(self).states@.insert(
                        plugin.name@,
                        PluginState::Failed,
                    )
                },
            },
    {
        match outcome {
            Ok(()) => {
                self.states.insert(plugin.name.clone(), PluginState::Stopped);
            },
            Err(source) => {
                self.states.insert(plugin.name.clone(), PluginState::Failed);
                let ghost before = stops@;
                stops.push(PluginError::Stop { name: plugin.name.clone(), source });
                assert(stops@.drop_last() =~= before);
            },
        }
    }
}

/// The plugins that a sweep has started, as the registry keeps them while the
/// sweep goes on: those of its queue that came before, without the one that
/// failed.
pub open spec fn sweep_started(sweep: StartSweep) -> Seq<HandleView> {
    handle_views(sweep.queue@).take(
        if sweep.failure is Some {
            sweep.next - 1
        } else {
            sweep.next as int
        },
    )
}

/// Trying one more plugin keeps what the registry knows in step with the sweep:
/// exactly the plugins that started are those that a rollback stops.
pub proof fn law_rollback_stops_what_started(
    before: StartSweep,
    started: Seq<HandleView>,
    later: StartSweep,
    later_started: Seq<HandleView>,
)
    requires
        before.failure is None,
        before.next < before.queue@.len(),
        started == sweep_started(before),
        later.queue == before.queue,
        later.next == before.next + 1,
        later.failure is None ==> later_started == started.push(
            before.queue@[before.next as int]@,
        ),
        later.failure is Some ==> later_started == started,
    ensures
        later_started == sweep_started(later),
{
    assert(later_started =~= sweep_started(later));
}

/// Plugins stop in the reverse of the order in which they started, so each
/// stops before those that it depends on.
pub proof fn law_stops_reverse_starts(started: Seq<HandleView>, a: int, b: int)
    requires
        0 <= a < b < started.len(),
    ensures
        stop_queue(started)[started.len() - 1 - b] == started[b],
        stop_queue(started)[started.len() - 1 - a] == started[a],
        started.len() - 1 - b < started.len() - 1 - a,
{
}

/// The outcome of a sweep reports every failure: none where nothing failed,
/// the only one as it is, and several together, the failed start first.
pub proof fn law_sweeps_report_every_failure(
    failure: Option<PluginError>,
    stops: Seq<PluginError>,
    started: Result<(), PluginError>,
    stopped: Result<(), PluginError>,
)
    requires
        is_start_outcome(failure, stops, started),
        is_stop_outcome(stops, stopped),
    ensures
        started is Ok <==> failure is None,
        failure is Some && stops.len() == 0 ==> started == Err::<(), PluginError>(failure->0),
        failure is Some && stops.len() > 0 ==> started is Err && started->Err_0 is Aggregate && {
            let all = started->Err_0->Aggregate_0@;
            all.len() == stops.len() + 1 && all[0] == failure->0 && all.drop_first() == stops
        },
        stopped is Ok <==> stops.len() == 0,
        stops.len() == 1 ==> stopped == Err::<(), PluginError>(stops[0]),
        stops.len() > 1 ==> stopped is Err && stopped->Err_0 is Aggregate
            && stopped->Err_0->Aggregate_0@ == stops,
{
    if failure is Some && stops.len() > 0 {
        assert((seq![failure->0] + stops).drop_first() =~= stops);
    }
}

/// Plugins start in the order that was found: each handle is that of the
/// plugin with its number.
pub proof fn law_handles_follow_the_order(
    plugins: Seq<RegisteredPlugin>,
    order: Seq<usize>,
    k: int,
)
    requires
        0 <= k < order.len(),
    ensures
        handles_in(plugins, order).len() == order.len(),
        handles_in(plugins, order)[k].name == plugins[order[k] as int].name@,
        handles_in(plugins, order)[k].hooks == plugins[order[k] as int].hooks,
{
}

/// A registered plugin starts after every plugin that its dependencies name.
pub proof fn law_plugins_start_after_their_dependencies(
    plugins: Seq<RegisteredPlugin>,
    order: Seq<usize>,
    x: int,
    y: int,
    k: int,
)
    requires
        plugins.len() <= usize::MAX,
        names::distinct(plugin_names(plugins)),
        resolve::is_start_order(plugin_names(plugins), plugin_deps(plugins), order),
        0 <= x < order.len(),
        0 <= y < order.len(),
        0 <= k < plugins[order[y] as int].depends_on@.len(),
    ensures
        plugins[order[y] as int].depends_on@[k]@ == plugins[order[x] as int].name@ ==> x < y,
        exists|j: int|
            0 <= j < plugins.len() && (#[trigger] plugins[j]).name@
                == plugins[order[y] as int].depends_on@[k]@,
{
    let ns = plugin_names(plugins);
    let ds = plugin_deps(plugins);
    names::lemma_distinct(ns);
    let a = order[y] as int;
    let b = order[x] as int;
    resolve::law_named_dependencies_start_before(ns, ds, order, x, y);
    assert(a < plugins.len() && b < plugins.len());
    assert(ds[a][k] == plugins[a].depends_on@[k]@);
    assert(ns[b] == plugins[b].name@);
    assert(ns.contains(ds[a][k]));
    let j = choose|j: int| 0 <= j < ns.len() && ns[j] == ds[a][k];
    assert(plugins[j].name@ == plugins[a].depends_on@[k]@);
    if plugins[a].depends_on@[k]@ == plugins[b].name@ {
        assert(ds[a].contains(ns[b]));
    }
}

} // verus!
