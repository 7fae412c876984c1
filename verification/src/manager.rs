//! The plugin manager: plugins that start and stop one by one, each with those
//! it depends on or that depend on it.
//!
//! The manager says which plugins to start or stop, and in what order. For each
//! of them the caller asks for the hook, runs it, and reports how it went.

use crate::extension::ExtensionRegistry;
use crate::graph;
use crate::graph::{dependencies_of, dependents_of, pick, reversed};
use crate::names;
use crate::plugins::{PluginError, PluginState};
use crate::resolve;
use crate::resolve::{topological_order, ResolutionError};
use crate::text;
use crate::text::{clone_texts, same};
use crate::time::{utc_now, Timestamp};
use vstd::prelude::*;

verus! {

/// What is known of a plugin.
#[derive(Debug)]
pub struct PluginDescriptor {
    /// The id of the plugin.
    pub id: String,
    /// What it depends on.
    pub depends_on: Vec<String>,
    /// Where it is in its life.
    pub state: PluginState,
    /// When it was added.
    pub loaded_at: Timestamp,
    /// When its state last changed.
    pub last_state_change: Timestamp,
    /// Why its last hook failed, if it has.
    pub failed_reason: Option<String>,
}

/// What is known of a plugin, as mathematical data.
pub struct DescriptorView {
    /// The id of the plugin.
    pub id: Seq<char>,
    /// What it depends on.
    pub depends_on: Seq<Seq<char>>,
    /// Where it is in its life.
    pub state: PluginState,
    /// When it was added.
    pub loaded_at: Timestamp,
    /// When its state last changed.
    pub last_state_change: Timestamp,
    /// Why its last hook failed, if it has.
    pub failed_reason: Option<Seq<char>>,
}

impl View for PluginDescriptor {
    type V = DescriptorView;

    open spec fn view(&self) -> DescriptorView {
        DescriptorView {
            id: self.id@,
            depends_on: text::texts(self.depends_on@),
            state: self.state,
            loaded_at: self.loaded_at,
            last_state_change: self.last_state_change,
            failed_reason: match self.failed_reason {
                Some(reason) => Some(reason@),
                None => None,
            },
        }
    }
}

impl PluginDescriptor {
    /// An equal descriptor.
    pub fn duplicate(&self) -> (copy: PluginDescriptor)
        ensures
            copy@ == self@,
    {
        PluginDescriptor {
            id: self.id.clone(),
            depends_on: clone_texts(&self.depends_on),
            state: self.state,
            loaded_at: self.loaded_at,
            last_state_change: self.last_state_change,
            failed_reason: match &self.failed_reason {
                Some(reason) => Some(reason.clone()),
                None => None,
            },
        }
    }
}

/// A plugin of the manager.
#[derive(Debug)]
pub struct ManagedPlugin {
    /// What is known of it.
    pub descriptor: PluginDescriptor,
    /// The ticket of its hooks.
    pub hooks: u64,
}

/// A plugin of the manager, as mathematical data.
pub struct ManagedView {
    /// What is known of it.
    pub descriptor: DescriptorView,
    /// The ticket of its hooks.
    pub hooks: u64,
}

impl View for ManagedPlugin {
    type V = ManagedView;

    open spec fn view(&self) -> ManagedView {
        ManagedView { descriptor: self.descriptor@, hooks: self.hooks }
    }
}

/// Plugins as mathematical data.
pub open spec fn managed_views(entries: Seq<ManagedPlugin>) -> Seq<ManagedView> {
    Seq::new(entries.len(), |i: int| entries[i]@)
}

/// The ids of plugins.
pub open spec fn managed_ids(entries: Seq<ManagedView>) -> Seq<Seq<char>> {
    Seq::new(entries.len(), |i: int| entries[i].descriptor.id)
}

/// What plugins depend on.
pub open spec fn managed_deps(entries: Seq<ManagedView>) -> Seq<Seq<Seq<char>>> {
    Seq::new(entries.len(), |i: int| entries[i].descriptor.depends_on)
}

/// The numbered graph of what plugins depend on.
pub open spec fn managed_graph(entries: Seq<ManagedView>) -> Seq<Seq<usize>> {
    names::resolved(managed_ids(entries), managed_deps(entries))
}

/// The ids of plugins by number.
pub open spec fn ids_in(entries: Seq<ManagedView>, order: Seq<usize>) -> Seq<Seq<char>> {
    Seq::new(order.len(), |k: int| entries[order[k] as int].descriptor.id)
}

/// Whether an order is the start order of plugins.
pub open spec fn is_managed_order(entries: Seq<ManagedView>, order: Seq<usize>) -> bool {
    resolve::is_start_order(managed_ids(entries), managed_deps(entries), order)
}

/// The flags of the plugins that one depends on, itself among them.
pub open spec fn wanted(entries: Seq<ManagedView>, target: int) -> Seq<bool> {
    Seq::new(entries.len(), |i: int| graph::depends(managed_graph(entries), target, i))
}

/// The flags of the plugins that depend on one, itself among them.
pub open spec fn affected(entries: Seq<ManagedView>, target: int) -> Seq<bool> {
    Seq::new(entries.len(), |i: int| graph::depends(managed_graph(entries), i, target))
}

/// Whether a plan starts a plugin: it and those it depends on, in start order.
pub open spec fn is_start_plan(
    entries: Seq<ManagedView>,
    id: Seq<char>,
    plan: Seq<Seq<char>>,
) -> bool {
    let target = names::place(managed_ids(entries), id);
    target >= 0 && exists|order: Seq<usize>|
        {
            &&& #[trigger] is_managed_order(entries, order)
            &&& plan == ids_in(entries, graph::picked(order, wanted(entries, target)))
        }
}

/// Whether a plan stops a plugin: it and those that depend on it, in the
/// reverse of the start order.
pub open spec fn is_stop_plan(
    entries: Seq<ManagedView>,
    id: Seq<char>,
    plan: Seq<Seq<char>>,
) -> bool {
    let target = names::place(managed_ids(entries), id);
    target >= 0 && exists|order: Seq<usize>|
        {
            &&& #[trigger] is_managed_order(entries, order)
            &&& plan == ids_in(entries, graph::picked(order.reverse(), affected(entries, target)))
        }
}

/// Whether plugins cannot be ordered for a reason.
pub open spec fn is_unordered(entries: Seq<ManagedView>, error: PluginError) -> bool {
    error matches PluginError::Resolution(reason) && resolve::is_refused(
        managed_ids(entries),
        managed_deps(entries),
        reason,
    )
}

/// Whether an error says that a plugin is unknown.
pub open spec fn is_unknown(id: Seq<char>, error: PluginError) -> bool {
    error matches PluginError::Resolution(ResolutionError::MissingDependency { plugin, missing })
        && plugin@ == id && missing@ == id
}

/// A plugin that is added at `now`.
pub open spec fn loaded(
    id: Seq<char>,
    depends_on: Seq<Seq<char>>,
    hooks: u64,
    now: Timestamp,
) -> ManagedView {
    ManagedView {
        descriptor: DescriptorView {
            id,
            depends_on,
            state: PluginState::Loaded,
            loaded_at: now,
            last_state_change: now,
            failed_reason: None,
        },
        hooks,
    }
}

/// A plugin whose state changed at `now`.
pub open spec fn moved(
    plugin: ManagedView,
    state: PluginState,
    reason: Option<Seq<char>>,
    now: Timestamp,
) -> ManagedView {
    ManagedView {
        descriptor: DescriptorView {
            state,
            last_state_change: now,
            failed_reason: reason,
            ..plugin.descriptor
        },
        ..plugin
    }
}

/// Plugins after the hook of one went one way or the other at `now`.
pub open spec fn after_hook(
    entries: Seq<ManagedView>,
    id: Seq<char>,
    outcome: Result<(), String>,
    reached: PluginState,
    now: Timestamp,
) -> Seq<ManagedView> {
    let at = names::place(managed_ids(entries), id);
    if at < 0 {
        entries
    } else {
        entries.update(
            at,
            match outcome {
                Ok(()) => moved(entries[at], reached, None, now),
                Err(message) => moved(entries[at], PluginState::Failed, Some(message@), now),
            },
        )
    }
}

/// The start hook to run for a plugin: none where it is not there or has
/// started.
pub open spec fn start_due(entries: Seq<ManagedView>, id: Seq<char>) -> Option<u64> {
    let at = names::place(managed_ids(entries), id);
    if at < 0 || entries[at].descriptor.state == PluginState::Started {
        None
    } else {
        Some(entries[at].hooks)
    }
}

/// The stop hook to run for a plugin: none where it is not there, has stopped
/// or has never started.
pub open spec fn stop_due(entries: Seq<ManagedView>, id: Seq<char>) -> Option<u64> {
    let at = names::place(managed_ids(entries), id);
    if at < 0 || entries[at].descriptor.state == PluginState::Stopped || entries[at].descriptor.state
        == PluginState::Loaded {
        None
    } else {
        Some(entries[at].hooks)
    }
}

/// The stop hook to run before a plugin is removed: none where it does not run.
pub open spec fn removal_due(entries: Seq<ManagedView>, id: Seq<char>) -> Option<u64> {
    let at = names::place(managed_ids(entries), id);
    if at >= 0 && entries[at].descriptor.state == PluginState::Started {
        Some(entries[at].hooks)
    } else {
        None
    }
}

/// Plugins that start and stop one by one. `R` is the extension registry that
/// they share, or a handle to it.
#[derive(Debug)]
pub struct PluginManager<R> {
    /// The plugins, in the order in which they were added.
    pub entries: Vec<ManagedPlugin>,
    /// Whether all plugins were started together.
    pub started: bool,
    /// The shared extension registry.
    pub registry: R,
}

impl PluginManager<ExtensionRegistry> {
    /// A manager without plugins, with an extension registry of its own.
    pub fn new() -> (manager: PluginManager<ExtensionRegistry>)
        ensures
            manager.well_formed(),
            manager.entries@.len() == 0,
            !manager.started,
            manager.registry.well_formed(),
            manager.registry.extensions@ == Map::<
                Seq<char>,
                Vec<crate::extension::Contribution>,
            >::empty(),
            manager.registry.points@ == Map::<Seq<char>, std::any::TypeId>::empty(),
    {
        PluginManager::with_registry(ExtensionRegistry::new())
    }
}

fn unknown_plugin(id: &str) -> (error: PluginError)
    ensures
        is_unknown(id@, error),
{
    PluginError::Resolution(
        ResolutionError::MissingDependency { plugin: id.to_owned(), missing: id.to_owned() },
    )
}

impl<R> PluginManager<R> {
    /// Whether no two plugins share an id.
    pub open spec fn well_formed(self) -> bool {
        names::distinct(managed_ids(managed_views(self.entries@)))
    }

    /// A manager without plugins that shares an extension registry.
    pub fn with_registry(registry: R) -> (manager: PluginManager<R>)
        ensures
            manager.well_formed(),
            manager.entries@.len() == 0,
            !manager.started,
            manager.registry == registry,
    {
        PluginManager { entries: Vec::new(), started: false, registry }
    }

    /// The shared extension registry.
    pub fn registry(&self) -> (registry: &R)
        ensures
            *registry == self.registry,
    {
        &self.registry
    }

    fn position(&self, id: &str) -> (at: Option<usize>)
        ensures
            match at {
                Some(i) => i == names::place(managed_ids(managed_views(self.entries@)), id@) && i
                    < self.entries@.len(),
                None => names::place(managed_ids(managed_views(self.entries@)), id@) < 0,
            },
    {
        let ghost ids = managed_ids(managed_views(self.entries@));
        let mut i: usize = 0;
        while i < self.entries.len()
            invariant
                i <= self.entries@.len(),
                ids == managed_ids(managed_views(self.entries@)),
                forall|j: int| 0 <= j < i ==> ids[j] != id@,
            decreases self.entries.len() - i,
        {
            if same(self.entries[i].descriptor.id.as_str(), id) {
                proof {
                    names::lemma_place_is(ids, id@, i as int);
                }
                return Some(i);
            }
            i += 1;
        }
        proof {
            names::lemma_place(ids, id@);
        }
        None
    }

    /// Adds a plugin now: in the place of the one with its id, or behind the
    /// others.
    pub fn add(&mut self, id: &str, depends_on: Vec<String>, hooks: u64)
        requires
            old(self).well_formed(),
        ensures
            final(self).well_formed(),
            final(self).started == old(self).started,
            final(self).registry == old(self).registry,
            exists|now: Timestamp|
                now.well_formed() && #[trigger] is_added(
                    managed_views(old(self).entries@),
                    loaded(id@, text::texts(depends_on@), hooks, now),
                    managed_views(final(self).entries@),
                ),
    {
        let now: Timestamp = utc_now();
        let ghost before = managed_views(self.entries@);
        let ghost plugin = loaded(id@, text::texts(depends_on@), hooks, now);
        self.add_at(id, depends_on, hooks, now);
        assert(is_added(before, plugin, managed_views(self.entries@)));
    }

    /// Adds a plugin at `now`.
    pub fn add_at(&mut self, id: &str, depends_on: Vec<String>, hooks: u64, now: Timestamp)
        requires
            old(self).well_formed(),
        ensures
            final(self).well_formed(),
            final(self).started == old(self).started,
            final(self).registry == old(self).registry,
            is_added(
                managed_views(old(self).entries@),
                loaded(id@, text::texts(depends_on@), hooks, now),
                managed_views(final(self).entries@),
            ),
    {
        let ghost before = managed_views(self.entries@);
        let ghost ids = managed_ids(before);
        let plugin: ManagedPlugin = ManagedPlugin {
            descriptor: PluginDescriptor {
                id: id.to_owned(),
                depends_on,
                state: PluginState::Loaded,
                loaded_at: now,
                last_state_change: now,
                failed_reason: None,
            },
            hooks,
        };
        let at: Option<usize> = self.position(id);
        proof {
            names::lemma_place(ids, id@);
        }
        match at {
            Some(i) => {
                self.entries.set(i, plugin);
                assert(managed_views(self.entries@) =~= before.update(i as int, plugin@));
                assert(managed_ids(managed_views(self.entries@)) =~= ids);
            },
            None => {
                self.entries.push(plugin);
                assert(managed_views(self.entries@) =~= before.push(plugin@));
                proof {
                    let later = managed_ids(managed_views(self.entries@));
                    assert(later =~= ids.push(id@));
                    names::lemma_distinct(ids);
                    names::lemma_distinct(later);
                }
            },
        }
    }

    /// What is known of a plugin, if it is there.
    pub fn get_plugin(&self, id: &str) -> (found: Option<PluginDescriptor>)
        ensures
            ({
                let entries = managed_views(self.entries@);
                let at = names::place(managed_ids(entries), id@);
                match found {
                    Some(descriptor) => at >= 0 && descriptor@ == entries[at].descriptor,
                    None => at < 0,
                }
            }),
    {
        match self.position(id) {
            Some(i) => Some(self.entries[i].descriptor.duplicate()),
            None => None,
        }
    }

    /// What is known of every plugin, in the order in which they were added.
    pub fn list_plugins(&self) -> (list: Vec<PluginDescriptor>)
        ensures
            list@.len() == self.entries@.len(),
            forall|i: int|
                0 <= i < list@.len() ==> (#[trigger] list@[i])@ == self.entries@[i].descriptor@,
    {
        let mut out: Vec<PluginDescriptor> = Vec::new();
        let mut i: usize = 0;
        while i < self.entries.len()
            invariant
                i <= self.entries@.len(),
                out@.len() == i,
                forall|k: int|
                    0 <= k < i ==> (#[trigger] out@[k])@ == self.entries@[k].descriptor@,
            decreases self.entries.len() - i,
        {
            out.push(self.entries[i].descriptor.duplicate());
            i += 1;
        }
        out
    }

    /// The ids of the plugins, in the order in which they were added.
    pub fn ids(&self) -> (list: Vec<String>)
        ensures
            text::texts(list@) == managed_ids(managed_views(self.entries@)),
    {
        let mut out: Vec<String> = Vec::new();
        let mut i: usize = 0;
        while i < self.entries.len()
            invariant
                i <= self.entries@.len(),
                out@.len() == i,
                forall|k: int|
                    0 <= k < i ==> (#[trigger] out@[k])@ == self.entries@[k].descriptor.id@,
            decreases self.entries.len() - i,
        {
            out.push(self.entries[i].descriptor.id.clone());
            i += 1;
        }
        assert(text::texts(out@) =~= managed_ids(managed_views(self.entries@)));
        out
    }

    fn dep_rows(&self) -> (rows: Vec<Vec<String>>)
        ensures
            names::text_lists(rows@) == managed_deps(managed_views(self.entries@)),
    {
        let mut out: Vec<Vec<String>> = Vec::new();
        let mut i: usize = 0;
        while i < self.entries.len()
            invariant
                i <= self.entries@.len(),
                out@.len() == i,
                forall|k: int|
                    0 <= k < i ==> text::texts((#[trigger] out@[k])@) == text::texts(
                        self.entries@[k].descriptor.depends_on@,
                    ),
            decreases self.entries.len() - i,
        {
            out.push(clone_texts(&self.entries[i].descriptor.depends_on));
            i += 1;
        }
        assert(names::text_lists(out@) =~= managed_deps(managed_views(self.entries@)));
        out
    }

    fn nodes(&self) -> (list: Vec<(String, Vec<String>)>)
        ensures
            list@.len() == self.entries@.len(),
            resolve::node_names(list@) == managed_ids(managed_views(self.entries@)),
            resolve::node_deps(list@) == managed_deps(managed_views(self.entries@)),
    {
        let mut out: Vec<(String, Vec<String>)> = Vec::new();
        let mut i: usize = 0;
        while i < self.entries.len()
            invariant
                i <= self.entries@.len(),
                out@.len() == i,
                forall|k: int|
                    0 <= k < i ==> {
                        &&& (#[trigger] out@[k]).0@ == self.entries@[k].descriptor.id@
                        &&& text::texts(out@[k].1@) == text::texts(
                            self.entries@[k].descriptor.depends_on@,
                        )
                    },
            decreases self.entries.len() - i,
        {
            out.push(
                (
                    self.entries[i].descriptor.id.clone(),
                    clone_texts(&self.entries[i].descriptor.depends_on),
                ),
            );
            i += 1;
        }
        assert(resolve::node_names(out@) =~= managed_ids(managed_views(self.entries@)));
        assert(resolve::node_deps(out@) =~= managed_deps(managed_views(self.entries@)));
        out
    }

    fn full_order(&self) -> (order: Result<Vec<usize>, PluginError>)
        ensures
            match order {
                Ok(list) => is_managed_order(managed_views(self.entries@), list@) && forall|k: int|
                    0 <= k < list@.len() ==> (#[trigger] list@[k]) < self.entries@.len(),
                Err(error) => is_unordered(managed_views(self.entries@), error),
            },
    {
        match topological_order(&self.nodes()) {
            Ok(order) => Ok(order),
            Err(error) => Err(PluginError::Resolution(error)),
        }
    }

    fn numbered(&self) -> (graph: Vec<Vec<usize>>)
        requires
            names::faultless(
                managed_ids(managed_views(self.entries@)),
                managed_deps(managed_views(self.entries@)),
                false,
            ),
        ensures
            graph@.len() == self.entries@.len(),
            graph::lists(graph@) == managed_graph(managed_views(self.entries@)),
            graph::closed_graph(graph::lists(graph@)),
    {
        let ids: Vec<String> = self.ids();
        let rows: Vec<Vec<String>> = self.dep_rows();
        proof {
            assert(text::texts(ids@).len() == ids@.len());
            assert(names::text_lists(rows@).len() == rows@.len());
        }
        let graph: Vec<Vec<usize>> = names::resolve(&ids, &rows);
        assert(graph::lists(graph@).len() == graph@.len());
        graph
    }

    fn ids_of(&self, order: &Vec<usize>) -> (list: Vec<String>)
        requires
            forall|k: int| 0 <= k < order@.len() ==> (#[trigger] order@[k]) < self.entries@.len(),
        ensures
            text::texts(list@) == ids_in(managed_views(self.entries@), order@),
    {
        let mut out: Vec<String> = Vec::new();
        let mut i: usize = 0;
        while i < order.len()
            invariant
                i <= order@.len(),
                out@.len() == i,
                forall|k: int|
                    0 <= k < order@.len() ==> (#[trigger] order@[k]) < self.entries@.len(),
                forall|k: int|
                    0 <= k < i ==> (#[trigger] out@[k])@ == self.entries@[order@[k] as int].descriptor.id@,
            decreases order.len() - i,
        {
            out.push(self.entries[order[i]].descriptor.id.clone());
            i += 1;
        }
        assert(text::texts(out@) =~= ids_in(managed_views(self.entries@), order@));
        out
    }

    /// The plugins to start, in order, for a plugin to start.
    pub fn start_plugin(&self, id: &str) -> (plan: Result<Vec<String>, PluginError>)
        ensures
            ({
                let entries = managed_views(self.entries@);
                match plan {
                    Ok(list) => is_start_plan(entries, id@, text::texts(list@)),
                    Err(error) => if names::place(managed_ids(entries), id@) < 0 {
                        is_unknown(id@, error)
                    } else {
                        is_unordered(entries, error)
                    },
                }
            }),
    {
        let target: usize = match self.position(id) {
            Some(i) => i,
            None => {
                return Err(unknown_plugin(id));
            },
        };
        let order: Vec<usize> = self.full_order()?;
        let flags: Vec<bool> = dependencies_of(&self.numbered(), target);
        let ghost entries = managed_views(self.entries@);
        let list: Vec<usize> = pick(&order, &flags);
        proof {
            assert(flags@ =~= wanted(entries, target as int));
            lemma_picked_bound(order@, flags@, entries.len() as int);
            assert(is_managed_order(entries, order@));
        }
        Ok(self.ids_of(&list))
    }

    /// The plugins to stop, in order, for a plugin to stop.
    pub fn stop_plugin(&self, id: &str) -> (plan: Result<Vec<String>, PluginError>)
        ensures
            ({
                let entries = managed_views(self.entries@);
                match plan {
                    Ok(list) => is_stop_plan(entries, id@, text::texts(list@)),
                    Err(error) => if names::place(managed_ids(entries), id@) < 0 {
                        is_unknown(id@, error)
                    } else {
                        is_unordered(entries, error)
                    },
                }
            }),
    {
        let target: usize = match self.position(id) {
            Some(i) => i,
            None => {
                return Err(unknown_plugin(id));
            },
        };
        let order: Vec<usize> = self.full_order()?;
        let flags: Vec<bool> = dependents_of(&self.numbered(), target);
        let ghost entries = managed_views(self.entries@);
        let back: Vec<usize> = reversed(&order);
        let list: Vec<usize> = pick(&back, &flags);
        proof {
            assert(flags@ =~= affected(entries, target as int));
            lemma_picked_bound(back@, flags@, entries.len() as int);
            assert(is_managed_order(entries, order@));
        }
        Ok(self.ids_of(&list))
    }

    /// The plugins to start, in order, for all to start; none where they were
    /// started together already.
    pub fn start_all(&self) -> (plan: Result<Vec<String>, PluginError>)
        ensures
            ({
                let entries = managed_views(self.entries@);
                match plan {
                    Ok(list) => if self.started {
                        list@.len() == 0
                    } else {
                        exists|order: Seq<usize>| #[trigger]
                            is_managed_order(entries, order) && text::texts(list@) == ids_in(
                                entries,
                                order,
                            )
                    },
                    Err(error) => !self.started && is_unordered(entries, error),
                }
            }),
    {
        if self.started {
            return Ok(Vec::new());
        }
        let order: Vec<usize> = self.full_order()?;
        Ok(self.ids_of(&order))
    }

    /// The plugins to stop, in order, for all to stop; none where they were
    /// not started together.
    pub fn stop_all(&self) -> (plan: Result<Vec<String>, PluginError>)
        ensures
            ({
                let entries = managed_views(self.entries@);
                match plan {
                    Ok(list) => if !self.started {
                        list@.len() == 0
                    } else {
                        exists|order: Seq<usize>| #[trigger]
                            is_managed_order(entries, order) && text::texts(list@) == ids_in(
                                entries,
                                order.reverse(),
                            )
                    },
                    Err(error) => self.started && is_unordered(entries, error),
                }
            }),
    {
        if !self.started {
            return Ok(Vec::new());
        }
        self.unload_all()
    }

    /// The plugins to remove, in order, for all to be removed.
    pub fn unload_all(&self) -> (plan: Result<Vec<String>, PluginError>)
        ensures
            ({
                let entries = managed_views(self.entries@);
                match plan {
                    Ok(list) => exists|order: Seq<usize>| #[trigger]
                        is_managed_order(entries, order) && text::texts(list@) == ids_in(
                            entries,
                            order.reverse(),
                        ),
                    Err(error) => is_unordered(entries, error),
                }
            }),
    {
        let order: Vec<usize> = self.full_order()?;
        let back: Vec<usize> = reversed(&order);
        Ok(self.ids_of(&back))
    }

    /// Notes whether all plugins have been started together.
    pub fn mark_started(&mut self, started: bool)
        ensures
            *final(self) == (PluginManager { started: started, ..*old(self) }),
    {
        self.started = started;
    }

    /// The start hook to run for a plugin; none where it is not there or has
    /// started.
    pub fn start_hook(&self, id: &str) -> (hooks: Option<u64>)
        ensures
            hooks == start_due(managed_views(self.entries@), id@),
    {
        match self.position(id) {
            Some(i) => match self.entries[i].descriptor.state {
                PluginState::Started => None,
                _ => Some(self.entries[i].hooks),
            },
            None => None,
        }
    }

    /// The stop hook to run for a plugin; none where it is not there, has
    /// stopped or has never started.
    pub fn stop_hook(&self, id: &str) -> (hooks: Option<u64>)
        ensures
            hooks == stop_due(managed_views(self.entries@), id@),
    {
        match self.position(id) {
            Some(i) => match self.entries[i].descriptor.state {
                PluginState::Stopped => None,
                PluginState::Loaded => None,
                _ => Some(self.entries[i].hooks),
            },
            None => None,
        }
    }

    /// The stop hook to run before a plugin is removed; none where it does not
    /// run.
    pub fn removal_hook(&self, id: &str) -> (hooks: Option<u64>)
        ensures
            hooks == removal_due(managed_views(self.entries@), id@),
    {
        match self.position(id) {
            Some(i) => match self.entries[i].descriptor.state {
                PluginState::Started => Some(self.entries[i].hooks),
                _ => None,
            },
            None => None,
        }
    }

    fn hook_ran(&mut self, id: &str, failure: Option<String>, reached: PluginState, now: Timestamp)
        requires
            old(self).well_formed(),
        ensures
            final(self).well_formed(),
            final(self).started == old(self).started,
            final(self).registry == old(self).registry,
            managed_views(final(self).entries@) == after_hook(
                managed_views(old(self).entries@),
                id@,
                match failure {
                    None => Ok(()),
                    Some(message) => Err(message),
                },
                reached,
                now,
            ),
    {
        let ghost before = managed_views(self.entries@);
        if let Some(i) = self.position(id) {
            let plugin: ManagedPlugin = self.entries.remove(i);
            let state: PluginState = match &failure {
                None => reached,
                Some(_) => PluginState::Failed,
            };
            let changed: ManagedPlugin = ManagedPlugin {
                descriptor: PluginDescriptor {
                    state,
                    last_state_change: now,
                    failed_reason: failure,
                    ..plugin.descriptor
                },
                hooks: plugin.hooks,
            };
            self.entries.insert(i, changed);
            assert(managed_views(self.entries@) =~= before.update(i as int, changed@));
            assert(managed_ids(managed_views(self.entries@)) =~= managed_ids(before));
        }
    }

    /// Reports now how the start hook of a plugin went.
    pub fn start_ran(&mut self, id: &str, outcome: Result<(), String>) -> (result: Result<
        (),
        PluginError,
    >)
        requires
            old(self).well_formed(),
        ensures
            final(self).well_formed(),
            final(self).started == old(self).started,
            final(self).registry == old(self).registry,
            exists|now: Timestamp|
                now.well_formed() && managed_views(final(self).entries@) == #[trigger] after_hook(
                    managed_views(old(self).entries@),
                    id@,
                    outcome,
                    PluginState::Started,
                    now,
                ),
            match (outcome, result) {
                (Ok(()), Ok(())) => true,
                (Err(message), Err(PluginError::Start { name, source })) => name@ == id@ && source@
                    == message@,
                _ => false,
            },
    {
        self.start_ran_at(id, outcome, utc_now())
    }

    /// Reports how the start hook of a plugin went at `now`.
    pub fn start_ran_at(&mut self, id: &str, outcome: Result<(), String>, now: Timestamp) -> (result:
        Result<(), PluginError>)
        requires
            old(self).well_formed(),
        ensures
            final(self).well_formed(),
            final(self).started == old(self).started,
            final(self).registry == old(self).registry,
            managed_views(final(self).entries@) == after_hook(
                managed_views(old(self).entries@),
                id@,
                outcome,
                PluginState::Started,
                now,
            ),
            match (outcome, result) {
                (Ok(()), Ok(())) => true,
                (Err(message), Err(PluginError::Start { name, source })) => name@ == id@ && source@
                    == message@,
                _ => false,
            },
    {
        match outcome {
            Ok(()) => {
                self.hook_ran(id, None, PluginState::Started, now);
                Ok(())
            },
            Err(message) => {
                self.hook_ran(id, Some(message.clone()), PluginState::Started, now);
                Err(PluginError::Start { name: id.to_owned(), source: message })
            },
        }
    }

    /// Reports now how the stop hook of a plugin went.
    pub fn stop_ran(&mut self, id: &str, outcome: Result<(), String>) -> (result: Result<
        (),
        PluginError,
    >)
        requires
            old(self).well_formed(),
        ensures
            final(self).well_formed(),
            final(self).started == old(self).started,
            final(self).registry == old(self).registry,
            exists|now: Timestamp|
                now.well_formed() && managed_views(final(self).entries@) == #[trigger] after_hook(
                    managed_views(old(self).entries@),
                    id@,
                    outcome,
                    PluginState::Stopped,
                    now,
                ),
            match (outcome, result) {
                (Ok(()), Ok(())) => true,
                (Err(message), Err(PluginError::Stop { name, source })) => name@ == id@ && source@
                    == message@,
                _ => false,
            },
    {
        self.stop_ran_at(id, outcome, utc_now())
    }

    /// Reports how the stop hook of a plugin went at `now`.
    pub fn stop_ran_at(&mut self, id: &str, outcome: Result<(), String>, now: Timestamp) -> (result:
        Result<(), PluginError>)
        requires
            old(self).well_formed(),
        ensures
            final(self).well_formed(),
            final(self).started == old(self).started,
            final(self).registry == old(self).registry,
            managed_views(final(self).entries@) == after_hook(
                managed_views(old(self).entries@),
                id@,
                outcome,
                PluginState::Stopped,
                now,
            ),
            match (outcome, result) {
                (Ok(()), Ok(())) => true,
                (Err(message), Err(PluginError::Stop { name, source })) => name@ == id@ && source@
                    == message@,
                _ => false,
            },
    {
        match outcome {
            Ok(()) => {
                self.hook_ran(id, None, PluginState::Stopped, now);
                Ok(())
            },
            Err(message) => {
                self.hook_ran(id, Some(message.clone()), PluginState::Stopped, now);
                Err(PluginError::Stop { name: id.to_owned(), source: message })
            },
        }
    }

    /// Forgets a plugin.
    pub fn remove(&mut self, id: &str) -> (found: bool)
        requires
            old(self).well_formed(),
        ensures
            final(self).well_formed(),
            final(self).started == old(self).started,
            final(self).registry == old(self).registry,
            ({
                let entries = managed_views(old(self).entries@);
                let at = names::place(managed_ids(entries), id@);
                &&& found == (at >= 0)
                &&& managed_views(final(self).entries@) == if at >= 0 {
                    entries.remove(at)
                } else {
                    entries
                }
            }),
    {
        let ghost before = managed_views(self.entries@);
        match self.position(id) {
            Some(i) => {
                self.entries.remove(i);
                proof {
                    let later = managed_views(self.entries@);
                    assert(later =~= before.remove(i as int));
                    names::lemma_distinct(managed_ids(before));
                    names::lemma_distinct(managed_ids(later));
                    assert(managed_ids(later) =~= managed_ids(before).remove(i as int));
                    assert(managed_ids(later).no_duplicates()) by {
                        let ids = managed_ids(before);
                        let rest = managed_ids(later);
                        assert forall|a: int, b: int| 0 <= a < b < rest.len() implies rest[a]
                            != rest[b] by {
                            let x = if a < i {
                                a
                            } else {
                                a + 1
                            };
                            let y = if b < i {
                                b
                            } else {
                                b + 1
                            };
                            assert(ids[x] != ids[y]);
                        }
                    }
                }
                true
            },
            None => false,
        }
    }
}

/// Whether a plugin was added: in the place of the one with its id, or behind
/// the others.
pub open spec fn is_added(
    before: Seq<ManagedView>,
    plugin: ManagedView,
    later: Seq<ManagedView>,
) -> bool {
    let at = names::place(managed_ids(before), plugin.descriptor.id);
    later == if at >= 0 {
        before.update(at, plugin)
    } else {
        before.push(plugin)
    }
}

proof fn lemma_picked_bound(order: Seq<usize>, keep: Seq<bool>, n: int)
    requires
        forall|k: int| 0 <= k < order.len() ==> (#[trigger] order[k]) < n,
    ensures
        forall|k: int|
            0 <= k < graph::picked(order, keep).len() ==> (#[trigger] graph::picked(order, keep)[k])
                < n,
{
    assert forall|k: int| 0 <= k < graph::picked(order, keep).len() implies (
    #[trigger] graph::picked(order, keep)[k]) < n by {
        let p = graph::lemma_picked(order, keep, k);
    }
}

/// In the plan that starts a plugin, whatever a plugin needs stands before it,
/// and the plugin itself is in the plan.
pub proof fn law_start_plan_is_whole(
    entries: Seq<ManagedView>,
    target: int,
    order: Seq<usize>,
    k: int,
    need: int,
)
    requires
        entries.len() <= usize::MAX,
        0 <= target < entries.len(),
        is_managed_order(entries, order),
    ensures
        ({
            let plan = graph::picked(order, wanted(entries, target));
            &&& graph::members(plan).contains(target)
            &&& 0 <= k < plan.len() && graph::needs(managed_graph(entries), plan[k] as int, need)
                ==> graph::members(plan.take(k)).contains(need)
        }),
{
    let g = managed_graph(entries);
    let keep = wanted(entries, target);
    let plan = graph::picked(order, keep);
    assert(graph::reaches(g, target, target, 0));
    assert(graph::members(order).contains(target));
    graph::lemma_picked_members(order, keep, target);
    if 0 <= k < plan.len() && graph::needs(g, plan[k] as int, need) {
        let p = graph::lemma_picked(order, keep, k);
        resolve::law_dependencies_start_first(managed_ids(entries), managed_deps(entries), order);
        assert(graph::needs(g, order[p] as int, need));
        assert(graph::members(order.take(p)).contains(need));
        names::lemma_resolved_closed(managed_ids(entries), managed_deps(entries));
        let at = choose|at: int|
            0 <= at < g[order[p] as int].len() && #[trigger] g[order[p] as int][at] == need;
        assert(g[order[p] as int][at] < g.len());
        graph::lemma_depends_further(g, target, order[p] as int, need);
        graph::lemma_picked_members(order.take(p), keep, need);
    }
}

/// In the plan that stops a plugin, whatever needs a plugin stands before it,
/// and the plugin itself is in the plan.
pub proof fn law_stop_plan_is_whole(
    entries: Seq<ManagedView>,
    target: int,
    order: Seq<usize>,
    k: int,
    user: int,
)
    requires
        entries.len() <= usize::MAX,
        0 <= target < entries.len(),
        is_managed_order(entries, order),
    ensures
        ({
            let plan = graph::picked(order.reverse(), affected(entries, target));
            &&& graph::members(plan).contains(target)
            &&& 0 <= k < plan.len() && 0 <= user < entries.len() && graph::needs(
                managed_graph(entries),
                user,
                plan[k] as int,
            ) ==> graph::members(plan.take(k)).contains(user)
        }),
{
    let g = managed_graph(entries);
    let keep = affected(entries, target);
    let back = order.reverse();
    let plan = graph::picked(back, keep);
    assert(graph::reaches(g, target, target, 0));
    assert(graph::members(order).contains(target));
    let spot = choose|spot: int| 0 <= spot < order.len() && #[trigger] order[spot] == target;
    assert(back[order.len() - 1 - spot] == target);
    graph::lemma_picked_members(back, keep, target);
    if 0 <= k < plan.len() && 0 <= user < entries.len() && graph::needs(g, user, plan[k] as int) {
        let p = graph::lemma_picked(back, keep, k);
        resolve::law_dependencies_start_first(managed_ids(entries), managed_deps(entries), order);
        assert(graph::members(order).contains(user));
        let q = choose|q: int| 0 <= q < order.len() && #[trigger] order[q] == user;
        assert(graph::needs(g, order[q] as int, plan[k] as int));
        assert(graph::members(order.take(q)).contains(plan[k] as int));
        let s = choose|s: int| 0 <= s < q && #[trigger] order.take(q)[s] == plan[k] as int;
        assert(order[s] == plan[k]);
        let r = order.len() - 1 - p;
        assert(order[r] == plan[k]);
        assert(r == s);
        assert(back.take(p)[order.len() - 1 - q] == user);
        assert(graph::members(back.take(p)).contains(user));
        graph::lemma_depends_through(g, user, plan[k] as int, target);
        graph::lemma_picked_members(back.take(p), keep, user);
    }
}

/// A plugin that has started is not started again, and one that has stopped is
/// not stopped again. A hook that failed says why.
pub proof fn law_hooks_do_not_run_twice(
    entries: Seq<ManagedView>,
    id: Seq<char>,
    outcome: Result<(), String>,
    reached: PluginState,
    now: Timestamp,
)
    requires
        names::place(managed_ids(entries), id) >= 0,
    ensures
        ({
            let later = after_hook(entries, id, outcome, reached, now);
            let at = names::place(managed_ids(later), id);
            &&& outcome is Ok && reached == PluginState::Started ==> start_due(later, id) is None
            &&& outcome is Ok && reached == PluginState::Stopped ==> stop_due(later, id) is None
            &&& outcome matches Err(message) ==> later[at].descriptor.state == PluginState::Failed
                && later[at].descriptor.failed_reason == Some(message@)
        }),
{
    names::lemma_place(managed_ids(entries), id);
    let later = after_hook(entries, id, outcome, reached, now);
    assert(managed_ids(later) =~= managed_ids(entries));
}

/// Which hooks run. A plugin that has not started is started; one that has
/// started, or whose hook failed, is stopped; and one that runs is stopped
/// before it is removed. No hook runs for a plugin that is not there.
pub proof fn law_hooks_follow_the_state(entries: Seq<ManagedView>, i: int, id: Seq<char>)
    requires
        names::distinct(managed_ids(entries)),
        0 <= i < entries.len(),
    ensures
        entries[i].descriptor.id == id ==> {
            let state = entries[i].descriptor.state;
            let hooks = entries[i].hooks;
            &&& start_due(entries, id) is Some <==> state == PluginState::Loaded || state
                == PluginState::Stopped || state == PluginState::Failed
            &&& stop_due(entries, id) is Some <==> state == PluginState::Started || state
                == PluginState::Failed
            &&& removal_due(entries, id) is Some <==> state == PluginState::Started
            &&& start_due(entries, id) is Some ==> start_due(entries, id) == Some(hooks)
            &&& stop_due(entries, id) is Some ==> stop_due(entries, id) == Some(hooks)
            &&& removal_due(entries, id) is Some ==> removal_due(entries, id) == Some(hooks)
        },
        (forall|k: int| 0 <= k < entries.len() ==> (#[trigger] entries[k]).descriptor.id != id)
            ==> start_due(entries, id) is None && stop_due(entries, id) is None && removal_due(
            entries,
            id,
        ) is None,
{
    let ids = managed_ids(entries);
    names::lemma_place(ids, id);
    names::lemma_distinct(ids);
    let at = names::place(ids, id);
    if entries[i].descriptor.id == id {
        assert(ids[i] == id);
    }
    if at >= 0 {
        assert(entries[at].descriptor.id == ids[at]);
    }
}

/// A hook that ran changes the state of its own plugin and of no other: to the
/// state that it was to reach where it succeeded, and otherwise to failed, with
/// the reason. What the plugin depends on and when it was added stay.
pub proof fn law_a_hook_changes_its_own_plugin(
    entries: Seq<ManagedView>,
    id: Seq<char>,
    outcome: Result<(), String>,
    reached: PluginState,
    now: Timestamp,
    i: int,
)
    requires
        names::distinct(managed_ids(entries)),
        0 <= i < entries.len(),
    ensures
        ({
            let later = after_hook(entries, id, outcome, reached, now);
            let was = entries[i].descriptor;
            let is = later[i].descriptor;
            &&& later.len() == entries.len()
            &&& was.id != id ==> later[i] == entries[i]
            &&& was.id == id ==> {
                &&& outcome is Ok ==> is.state == reached && is.failed_reason is None
                &&& outcome matches Err(message) ==> is.state == PluginState::Failed
                    && is.failed_reason == Some(message@)
                &&& is.last_state_change == now
                &&& is.id == id
                &&& is.depends_on == was.depends_on
                &&& is.loaded_at == was.loaded_at
                &&& later[i].hooks == entries[i].hooks
            }
        }),
{
    let ids = managed_ids(entries);
    names::lemma_place(ids, id);
    names::lemma_distinct(ids);
    let at = names::place(ids, id);
    assert(ids[i] == entries[i].descriptor.id);
    if at >= 0 {
        assert(ids[at] == entries[at].descriptor.id);
    }
}

/// The plan that starts a plugin holds it and all that it depends on, directly
/// or through others, and nothing else; and a plugin stands in it behind every
/// plugin that it depends on.
pub proof fn law_start_plan_is_exact(
    entries: Seq<ManagedView>,
    id: Seq<char>,
    plan: Seq<Seq<char>>,
    i: int,
    y: int,
)
    requires
        entries.len() <= usize::MAX,
        names::distinct(managed_ids(entries)),
        is_start_plan(entries, id, plan),
        0 <= i < entries.len(),
        0 <= y < plan.len(),
    ensures
        plan.contains(entries[i].descriptor.id) <==> graph::depends(
            managed_graph(entries),
            names::place(managed_ids(entries), id),
            i,
        ),
        entries[i].descriptor.id == plan[y] ==> forall|d: int|
            0 <= d < entries[i].descriptor.depends_on.len() ==> plan.take(y).contains(
                #[trigger] entries[i].descriptor.depends_on[d],
            ),
{
    let ids = managed_ids(entries);
    let deps = managed_deps(entries);
    let target = names::place(ids, id);
    let g = managed_graph(entries);
    let order = choose|order: Seq<usize>|
        {
            &&& #[trigger] is_managed_order(entries, order)
            &&& plan == ids_in(entries, graph::picked(order, wanted(entries, target)))
        };
    let keep = wanted(entries, target);
    let nums = graph::picked(order, keep);
    names::lemma_place(ids, id);
    names::lemma_distinct(ids);
    graph::lemma_picked_members(order, keep, i);
    assert(graph::members(order).contains(i));
    assert(ids[i] == entries[i].descriptor.id);
    assert forall|k: int| 0 <= k < nums.len() implies (#[trigger] nums[k]) < entries.len()
        && plan[k] == ids[nums[k] as int] by {
        let p = graph::lemma_picked(order, keep, k);
    }
    if graph::members(nums).contains(i) {
        let k = choose|k: int| 0 <= k < nums.len() && nums[k] == i;
        assert(plan[k] == ids[i]);
    }
    if plan.contains(entries[i].descriptor.id) {
        let k = choose|k: int| 0 <= k < plan.len() && plan[k] == entries[i].descriptor.id;
        assert(ids[nums[k] as int] == ids[i]);
        assert(nums[k] == i);
    }
    if entries[i].descriptor.id == plan[y] {
        assert(ids[nums[y] as int] == ids[i]);
        assert(nums[y] == i);
        assert forall|d: int| 0 <= d < entries[i].descriptor.depends_on.len() implies plan.take(
            y,
        ).contains(#[trigger] entries[i].descriptor.depends_on[d]) by {
            assert(deps[i][d] == entries[i].descriptor.depends_on[d]);
            assert(!names::faulty(ids, deps, false, i, d));
            names::lemma_place(ids, deps[i][d]);
            let j = names::place(ids, deps[i][d]);
            assert(g[i][d] == j);
            assert(graph::needs(g, i, j));
            law_start_plan_is_whole(entries, target, order, y, j);
            let x = choose|x: int| 0 <= x < nums.take(y).len() && nums.take(y)[x] == j;
            assert(plan.take(y)[x] == ids[j]);
        }
    }
}

/// The plan that stops a plugin holds it and all that depend on it, directly or
/// through others, and nothing else; and a plugin stands in it behind every
/// plugin that depends on it.
pub proof fn law_stop_plan_is_exact(
    entries: Seq<ManagedView>,
    id: Seq<char>,
    plan: Seq<Seq<char>>,
    i: int,
    y: int,
)
    requires
        entries.len() <= usize::MAX,
        names::distinct(managed_ids(entries)),
        is_stop_plan(entries, id, plan),
        0 <= i < entries.len(),
        0 <= y < plan.len(),
    ensures
        plan.contains(entries[i].descriptor.id) <==> graph::depends(
            managed_graph(entries),
            i,
            names::place(managed_ids(entries), id),
        ),
        entries[i].descriptor.depends_on.contains(plan[y]) ==> plan.take(y).contains(
            entries[i].descriptor.id,
        ),
{
    let ids = managed_ids(entries);
    let deps = managed_deps(entries);
    let target = names::place(ids, id);
    let g = managed_graph(entries);
    let order = choose|order: Seq<usize>|
        {
            &&& #[trigger] is_managed_order(entries, order)
            &&& plan == ids_in(
                entries,
                graph::picked(order.reverse(), affected(entries, target)),
            )
        };
    let keep = affected(entries, target);
    let back = order.reverse();
    let nums = graph::picked(back, keep);
    names::lemma_place(ids, id);
    names::lemma_distinct(ids);
    graph::lemma_picked_members(back, keep, i);
    assert(graph::members(order).contains(i));
    let spot = choose|spot: int| 0 <= spot < order.len() && #[trigger] order[spot] == i;
    assert(back[order.len() - 1 - spot] == i);
    assert(graph::members(back).contains(i));
    assert(ids[i] == entries[i].descriptor.id);
    assert forall|k: int| 0 <= k < nums.len() implies (#[trigger] nums[k]) < entries.len()
        && plan[k] == ids[nums[k] as int] by {
        let p = graph::lemma_picked(back, keep, k);
        assert(back[p] == order[order.len() - 1 - p]);
    }
    if graph::members(nums).contains(i) {
        let k = choose|k: int| 0 <= k < nums.len() && nums[k] == i;
        assert(plan[k] == ids[i]);
    }
    if plan.contains(entries[i].descriptor.id) {
        let k = choose|k: int| 0 <= k < plan.len() && plan[k] == entries[i].descriptor.id;
        assert(ids[nums[k] as int] == ids[i]);
        assert(nums[k] == i);
    }
    if entries[i].descriptor.depends_on.contains(plan[y]) {
        let d = choose|d: int|
            0 <= d < entries[i].descriptor.depends_on.len()
                && entries[i].descriptor.depends_on[d] == plan[y];
        let j = nums[y] as int;
        assert(plan[y] == ids[j]);
        names::lemma_place(ids, ids[j]);
        assert(deps[i][d] == ids[j]);
        assert(g[i][d] == j);
        assert(graph::needs(g, i, j));
        law_stop_plan_is_whole(entries, target, order, y, i);
        let x = choose|x: int| 0 <= x < nums.take(y).len() && nums.take(y)[x] == i;
        assert(plan.take(y)[x] == ids[i]);
    }
}

/// A plugin that is added takes the place of the one with its id, or stands
/// behind the others; it is loaded and has not failed, and the others stay.
pub proof fn law_added_plugins_are_loaded(
    before: Seq<ManagedView>,
    later: Seq<ManagedView>,
    id: Seq<char>,
    depends_on: Seq<Seq<char>>,
    hooks: u64,
    now: Timestamp,
    i: int,
)
    requires
        names::distinct(managed_ids(before)),
        is_added(before, loaded(id, depends_on, hooks, now), later),
        0 <= i < later.len(),
    ensures
        managed_ids(before).contains(id) ==> later.len() == before.len(),
        !managed_ids(before).contains(id) ==> later.len() == before.len() + 1
            && later.last().descriptor.id == id,
        later[i].descriptor.id == id ==> {
            let descriptor = later[i].descriptor;
            &&& descriptor.state == PluginState::Loaded
            &&& descriptor.depends_on == depends_on
            &&& descriptor.loaded_at == now
            &&& descriptor.last_state_change == now
            &&& descriptor.failed_reason is None
            &&& later[i].hooks == hooks
        },
        later[i].descriptor.id != id ==> i < before.len() && later[i] == before[i],
{
    let ids = managed_ids(before);
    names::lemma_place(ids, id);
    names::lemma_distinct(ids);
    let at = names::place(ids, id);
    if i < before.len() {
        assert(ids[i] == before[i].descriptor.id);
    }
    if at >= 0 {
        assert(ids[at] == id);
    }
}

/// A plan over all plugins names each once: to start them, each behind all that
/// it depends on, and to stop or remove them, each behind all that depend on
/// it.
pub proof fn law_full_plans_are_whole(
    entries: Seq<ManagedView>,
    order: Seq<usize>,
    x: int,
    y: int,
    i: int,
)
    requires
        entries.len() <= usize::MAX,
        names::distinct(managed_ids(entries)),
        is_managed_order(entries, order),
        0 <= x < order.len(),
        0 <= y < order.len(),
        0 <= i < entries.len(),
    ensures
        ids_in(entries, order).contains(entries[i].descriptor.id),
        ids_in(entries, order.reverse()).contains(entries[i].descriptor.id),
        x != y ==> ids_in(entries, order)[x] != ids_in(entries, order)[y],
        ids_in(entries, order)[y] == entries[i].descriptor.id
            && entries[i].descriptor.depends_on.contains(ids_in(entries, order)[x]) ==> x < y,
        ids_in(entries, order.reverse())[x] == entries[i].descriptor.id
            && entries[i].descriptor.depends_on.contains(ids_in(entries, order.reverse())[y])
            ==> x < y,
{
    let ids = managed_ids(entries);
    let deps = managed_deps(entries);
    let back = order.reverse();
    let n = order.len() as int;
    names::lemma_distinct(ids);
    resolve::law_dependencies_start_first(ids, deps, order);
    assert forall|k: int| 0 <= k < n implies (#[trigger] order[k]) < entries.len() by {}
    assert(graph::members(order).contains(i));
    let spot = choose|spot: int| 0 <= spot < order.len() && #[trigger] order[spot] == i;
    assert(ids_in(entries, order)[spot] == entries[i].descriptor.id);
    assert(ids_in(entries, back)[n - 1 - spot] == entries[i].descriptor.id);
    assert(ids[order[x] as int] == ids_in(entries, order)[x]);
    assert(ids[order[y] as int] == ids_in(entries, order)[y]);
    assert(ids[i] == entries[i].descriptor.id && deps[i] == entries[i].descriptor.depends_on);
    resolve::law_named_dependencies_start_before(ids, deps, order, x, y);
    let a = n - 1 - x;
    let b = n - 1 - y;
    assert(back[x] == order[a] && back[y] == order[b]);
    assert(ids[order[a] as int] == ids_in(entries, back)[x]);
    assert(ids[order[b] as int] == ids_in(entries, back)[y]);
    resolve::law_named_dependencies_start_before(ids, deps, order, b, a);
}

/// A plugin that is not there is reported as missing, under its own id.
pub proof fn law_unknown_plugins_are_named(id: Seq<char>, error: PluginError)
    requires
        is_unknown(id, error),
    ensures
        error is Resolution,
        error->Resolution_0 is MissingDependency,
        error->Resolution_0->missing@ == id,
        error->Resolution_0->plugin@ == id,
{
}

} // verus!
