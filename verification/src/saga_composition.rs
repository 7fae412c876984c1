//! Compositions: several sagas run as a graph, the output of one flowing into
//! the input of others.
//!
//! [`SagaCompositionBuilder`] builds a validated [`SagaComposition`].
//! [`SagaCompositor::begin`] starts a run of it, [`SagaCompositor::next_layer`]
//! names the sagas that run side by side, [`SagaCompositor::saga_finished`]
//! takes back the outcome of each, and when one has failed
//! [`SagaCompositor::next_undo`] and [`SagaCompositor::undone`] roll the
//! completed sagas back, last first.

use crate::graph;
use crate::graph::{flatten, layers, remaining};
use crate::names;
use crate::names::{first_fault, resolve};
use crate::saga::{Outcome, SagaStatus};
use crate::step_context;
use crate::step_context::{object_fields, put, ContextView, StepContext};
use crate::text;
use crate::text::{clone_texts, quoted};
use crate::text_map;
use crate::text_map::TextMap;
use crate::time::{random_id, Timestamp};
use crate::value;
use crate::value::{Value, ValueView};
use vstd::prelude::*;
use vstd::string::*;

verus! {

/// How the output of one saga becomes input of another.
#[derive(Debug)]
pub struct SagaDataFlow {
    /// The saga whose results provide the data.
    pub source_saga: String,
    /// The step whose result is used; without it, all results of the saga.
    pub source_step: Option<String>,
    /// The key under which the data enters the input; without it, the members
    /// of an object enter one by one.
    pub target_key: Option<String>,
}

/// A saga of a composition.
#[derive(Debug)]
pub struct CompositionEntry {
    /// The registered name of the saga.
    pub saga_name: String,
    /// The names of the entries that must complete before.
    pub depends_on: Vec<String>,
    /// How output of other sagas enters the input.
    pub data_flows: Vec<SagaDataFlow>,
}

/// A composition of sagas.
#[derive(Debug)]
pub struct SagaComposition {
    /// The composition name.
    pub name: String,
    /// The entries, by saga name.
    pub entries: TextMap<CompositionEntry>,
}

/// The names of the entries, in increasing order.
pub open spec fn entry_names(composition: SagaComposition) -> Seq<Seq<char>> {
    text_map::keys_of(composition.entries.entries@)
}

/// The names that each entry depends on.
pub open spec fn entry_deps(composition: SagaComposition) -> Seq<Seq<Seq<char>>> {
    Seq::new(
        composition.entries.entries@.len(),
        |i: int| text::texts(composition.entries.entries@[i].1.depends_on@),
    )
}

/// The dependency graph of a composition.
pub open spec fn entry_graph(composition: SagaComposition) -> Seq<Seq<usize>> {
    names::resolved(entry_names(composition), entry_deps(composition))
}

/// The lists of a map of lists, in order of their keys.
pub open spec fn lists_in_order(deps: TextMap<Vec<String>>) -> Seq<Seq<Seq<char>>> {
    Seq::new(deps.entries@.len(), |i: int| text::texts(deps.entries@[i].1@))
}

/// Whether each entry stands under the name of its saga.
pub open spec fn named_entries(entries: TextMap<CompositionEntry>) -> bool {
    forall|name: Seq<char>|
        entries@.contains_key(name) ==> (#[trigger] entries@[name]).saga_name@ == name
}

impl SagaComposition {
    /// The dependencies of the entries, by saga name.
    pub fn deps(&self) -> (deps: TextMap<Vec<String>>)
        requires
            self.entries.well_formed(),
        ensures
            deps.well_formed(),
            text_map::keys_of(deps.entries@) == entry_names(*self),
            lists_in_order(deps) == entry_deps(*self),
    {
        let mut list: Vec<(String, Vec<String>)> = Vec::new();
        let mut i: usize = 0;
        while i < self.entries.entries.len()
            invariant
                i <= self.entries.entries@.len(),
                list@.len() == i,
                forall|k: int|
                    0 <= k < i ==> (#[trigger] list@[k]).0@ == self.entries.entries@[k].0@
                        && list@[k].1@ == self.entries.entries@[k].1.depends_on@,
            decreases self.entries.entries.len() - i,
        {
            let entry: &(String, CompositionEntry) = &self.entries.entries[i];
            list.push((entry.0.clone(), clone_texts(&entry.1.depends_on)));
            i += 1;
        }
        let deps: TextMap<Vec<String>> = TextMap { entries: list };
        assert(text_map::keys_of(deps.entries@) =~= entry_names(*self));
        assert(lists_in_order(deps) =~= entry_deps(*self));
        deps
    }
}

/// How a composition is refused.
#[derive(Debug)]
pub enum CompositionError {
    /// The composition has no entries.
    Empty {
        /// The composition name.
        composition: String,
    },
    /// An entry depends on a name that no entry has.
    UnknownDependency {
        /// The composition name.
        composition: String,
        /// The entry that declares the dependency.
        entry: String,
        /// The unknown name.
        dependency: String,
    },
    /// A data flow comes from a name that no entry has.
    UnknownDataFlowSource {
        /// The composition name.
        composition: String,
        /// The entry that declares the data flow.
        entry: String,
        /// The unknown name.
        source_saga: String,
    },
    /// The dependencies form a cycle.
    Cycle {
        /// The composition name.
        composition: String,
    },
}

/// The message of a composition error.
pub open spec fn composition_error_text(error: CompositionError) -> Seq<char> {
    match error {
        CompositionError::Empty { composition } => "composition "@ + text::debug_text(composition@)
            + ": must contain at least one saga entry"@,
        CompositionError::UnknownDependency { composition, entry, dependency } => "composition "@
            + text::debug_text(composition@) + ": entry "@ + text::debug_text(entry@)
            + " depends on unknown "@ + text::debug_text(dependency@),
        CompositionError::UnknownDataFlowSource { composition, entry, source_saga } =>
            "composition "@ + text::debug_text(composition@) + ": entry "@ + text::debug_text(
            entry@,
        ) + " data flow references unknown source "@ + text::debug_text(source_saga@),
        CompositionError::Cycle { composition } => cycle_text(composition@),
    }
}

/// The message of a dependency cycle.
pub open spec fn cycle_text(composition: Seq<char>) -> Seq<char> {
    "composition "@ + text::debug_text(composition) + ": dependency cycle detected"@
}

fn in_composition(composition: &str, rest: &str) -> (message: String)
    ensures
        message@ == "composition "@ + text::debug_text(composition@) + rest@,
{
    let mut out: String = "composition ".to_owned();
    out.append(quoted(composition).as_str());
    out.append(rest);
    out
}

impl CompositionError {
    /// The message of the error.
    pub fn to_string(&self) -> (message: String)
        ensures
            message@ == composition_error_text(*self),
            message@ == match *self {
                CompositionError::Empty { composition } => "composition "@ + text::debug_text(
                    composition@,
                ) + ": must contain at least one saga entry"@,
                CompositionError::UnknownDependency { composition, entry, dependency } =>
                    "composition "@ + text::debug_text(composition@) + ": entry "@
                    + text::debug_text(entry@) + " depends on unknown "@ + text::debug_text(
                    dependency@,
                ),
                CompositionError::UnknownDataFlowSource { composition, entry, source_saga } =>
                    "composition "@ + text::debug_text(composition@) + ": entry "@
                    + text::debug_text(entry@) + " data flow references unknown source "@
                    + text::debug_text(source_saga@),
                CompositionError::Cycle { composition } => "composition "@ + text::debug_text(
                    composition@,
                ) + ": dependency cycle detected"@,
            },
    {
        match self {
            CompositionError::Empty { composition } => in_composition(
                composition.as_str(),
                ": must contain at least one saga entry",
            ),
            CompositionError::UnknownDependency { composition, entry, dependency } => {
                let mut out: String = in_composition(composition.as_str(), ": entry ");
                out.append(quoted(entry.as_str()).as_str());
                out.append(" depends on unknown ");
                out.append(quoted(dependency.as_str()).as_str());
                out
            },
            CompositionError::UnknownDataFlowSource { composition, entry, source_saga } => {
                let mut out: String = in_composition(composition.as_str(), ": entry ");
                out.append(quoted(entry.as_str()).as_str());
                out.append(" data flow references unknown source ");
                out.append(quoted(source_saga.as_str()).as_str());
                out
            },
            CompositionError::Cycle { composition } => in_composition(
                composition.as_str(),
                ": dependency cycle detected",
            ),
        }
    }
}

/// Whether dependency `k` of an entry is known.
pub open spec fn dep_known(known: Seq<Seq<char>>, entry: CompositionEntry, k: int) -> bool {
    names::place(known, entry.depends_on@[k]@) >= 0
}

/// Whether the source of data flow `k` of an entry is known.
pub open spec fn flow_known(known: Seq<Seq<char>>, entry: CompositionEntry, k: int) -> bool {
    names::place(known, entry.data_flows@[k].source_saga@) >= 0
}

/// Whether every dependency of an entry is known.
pub open spec fn deps_known(known: Seq<Seq<char>>, entry: CompositionEntry) -> bool {
    forall|k: int| 0 <= k < entry.depends_on@.len() ==> #[trigger] dep_known(known, entry, k)
}

/// Whether every name that an entry refers to is known.
pub open spec fn entry_sound(known: Seq<Seq<char>>, entry: CompositionEntry) -> bool {
    &&& deps_known(known, entry)
    &&& forall|k: int|
        0 <= k < entry.data_flows@.len() ==> #[trigger] flow_known(known, entry, k)
}

/// Whether the first `n` entries refer to known names only.
pub open spec fn entries_sound(composition: SagaComposition, n: int) -> bool {
    forall|i: int|
        0 <= i < n ==> entry_sound(
            entry_names(composition),
            (#[trigger] composition.entries.entries@[i]).1,
        )
}

/// Whether a composition has entries, refers to known names only, and has no
/// cycle.
pub open spec fn composition_valid(composition: SagaComposition) -> bool {
    &&& composition.entries.entries@.len() > 0
    &&& entries_sound(composition, composition.entries.entries@.len() as int)
    &&& !graph::cyclic(entry_graph(composition))
}

/// Whether an error names the first reason to refuse a composition: that it is
/// empty; entry by entry the first unknown dependency, then the first unknown
/// source; and last a cycle.
pub open spec fn is_composition_error(
    composition: SagaComposition,
    error: CompositionError,
) -> bool {
    let entries = composition.entries.entries@;
    let known = entry_names(composition);
    match error {
        CompositionError::Empty { composition: c } => c == composition.name && entries.len() == 0,
        CompositionError::UnknownDependency { composition: c, entry, dependency } => {
            &&& c == composition.name
            &&& exists|i: int, k: int|
                {
                    &&& 0 <= i < entries.len()
                    &&& entries_sound(composition, i)
                    &&& 0 <= k < entries[i].1.depends_on@.len()
                    &&& !#[trigger] dep_known(known, entries[i].1, k)
                    &&& forall|j: int| 0 <= j < k ==> #[trigger] dep_known(known, entries[i].1, j)
                    &&& entry == entries[i].0
                    &&& dependency == entries[i].1.depends_on@[k]
                }
        },
        CompositionError::UnknownDataFlowSource { composition: c, entry, source_saga } => {
            &&& c == composition.name
            &&& exists|i: int, k: int|
                {
                    &&& 0 <= i < entries.len()
                    &&& entries_sound(composition, i)
                    &&& deps_known(known, entries[i].1)
                    &&& 0 <= k < entries[i].1.data_flows@.len()
                    &&& !#[trigger] flow_known(known, entries[i].1, k)
                    &&& forall|j: int| 0 <= j < k ==> #[trigger] flow_known(known, entries[i].1, j)
                    &&& entry == entries[i].0
                    &&& source_saga == entries[i].1.data_flows@[k].source_saga
                }
        },
        CompositionError::Cycle { composition: c } => {
            &&& c == composition.name
            &&& entries.len() > 0
            &&& entries_sound(composition, entries.len() as int)
            &&& graph::cyclic(entry_graph(composition))
        },
    }
}

/// Whether a dependency map names only its own keys and has no cycle.
pub open spec fn deps_orderable(deps: TextMap<Vec<String>>) -> bool {
    &&& names::faultless(text_map::keys_of(deps.entries@), lists_in_order(deps), false)
    &&& !graph::cyclic(names::resolved(text_map::keys_of(deps.entries@), lists_in_order(deps)))
}

fn numbered_layers(deps: &TextMap<Vec<String>>) -> (found: Option<Vec<Vec<usize>>>)
    requires
        deps.well_formed(),
    ensures
        found is Some <==> deps_orderable(*deps),
        found matches Some(out) ==> graph::layered(
            names::resolved(text_map::keys_of(deps.entries@), lists_in_order(*deps)),
            graph::lists(out@),
        ),
{
    let keys: Vec<String> = deps.keys();
    let mut rows: Vec<Vec<String>> = Vec::new();
    let mut i: usize = 0;
    while i < deps.entries.len()
        invariant
            i <= deps.entries@.len(),
            rows@.len() == i,
            forall|k: int| 0 <= k < i ==> (#[trigger] rows@[k])@ == deps.entries@[k].1@,
        decreases deps.entries.len() - i,
    {
        rows.push(clone_texts(&deps.entries[i].1));
        i += 1;
    }
    assert(names::text_lists(rows@) =~= lists_in_order(*deps));
    assert(keys@.len() == text::texts(keys@).len());
    if let Some((a, b)) = first_fault(&keys, &rows, false) {
        assert(names::faulty(text::texts(keys@), names::text_lists(rows@), false, a as int, b as int));
        return None;
    }
    let g: Vec<Vec<usize>> = resolve(&keys, &rows);
    let out: Vec<Vec<usize>> = layers(&g);
    let order: Vec<usize> = flatten(&out);
    proof {
        assert(graph::lists(g@).len() == g.len());
        graph::lemma_layers_grow(graph::lists(g@), graph::lists(out@));
        graph::lemma_layered_order(graph::lists(g@), graph::lists(out@));
        assert forall|k: int| 0 <= k < order@.len() implies (#[trigger] order@[k])
            < graph::lists(g@).len() by {
            assert(graph::ready(
                graph::lists(g@),
                graph::members(order@.take(k)),
                order@[k] as int,
            ));
        }
        graph::lemma_left_out(graph::lists(g@), order@);
    }
    let rest: Vec<usize> = remaining(&g, &order);
    if rest.len() == 0 {
        Some(out)
    } else {
        None
    }
}

/// The names of some nodes.
pub open spec fn names_of(known: Seq<Seq<char>>, list: Seq<usize>) -> Seq<Seq<char>> {
    Seq::new(list.len(), |i: int| known[list[i] as int])
}

/// Lays out a dependency map in layers: each holds, in increasing order, every
/// name whose dependencies are in earlier layers. A cycle, or a dependency
/// that is no key, has no layers.
pub fn compute_layers(deps: &TextMap<Vec<String>>) -> (found: Result<Vec<Vec<String>>, ()>)
    requires
        deps.well_formed(),
    ensures
        found is Ok <==> deps_orderable(*deps),
        found matches Ok(out) ==> exists|numbers: Seq<Seq<usize>>|
            {
                &&& #[trigger] graph::layered(
                    names::resolved(text_map::keys_of(deps.entries@), lists_in_order(*deps)),
                    numbers,
                )
                &&& names::text_lists(out@) == Seq::new(
                    numbers.len(),
                    |i: int| names_of(text_map::keys_of(deps.entries@), numbers[i]),
                )
            },
{
    let ghost known = text_map::keys_of(deps.entries@);
    let ghost g = names::resolved(known, lists_in_order(*deps));
    let numbers: Vec<Vec<usize>> = match numbered_layers(deps) {
        Some(numbers) => numbers,
        None => {
            return Err(());
        },
    };
    proof {
        assert(deps.entries@.len() == deps.entries.len());
        let ls = graph::lists(numbers@);
        lemma_layers_in_range(g, ls);
        assert forall|a: int, b: int|
            0 <= a < numbers@.len() && 0 <= b < numbers@[a]@.len() implies (
        #[trigger] numbers@[a]@[b]) < deps.entries@.len() by {
            assert(ls[a][b] < g.len());
        }
    }
    let mut out: Vec<Vec<String>> = Vec::new();
    let mut i: usize = 0;
    while i < numbers.len()
        invariant
            i <= numbers@.len(),
            known == text_map::keys_of(deps.entries@),
            forall|a: int, b: int|
                0 <= a < numbers@.len() && 0 <= b < numbers@[a]@.len() ==> (
                #[trigger] numbers@[a]@[b]) < deps.entries@.len(),
            out@.len() == i,
            forall|k: int|
                0 <= k < i ==> text::texts((#[trigger] out@[k])@) == names_of(known, numbers@[k]@),
        decreases numbers.len() - i,
    {
        let mut row: Vec<String> = Vec::new();
        let mut j: usize = 0;
        while j < numbers[i].len()
            invariant
                i < numbers@.len(),
                j <= numbers@[i as int]@.len(),
                known == text_map::keys_of(deps.entries@),
                forall|a: int, b: int|
                    0 <= a < numbers@.len() && 0 <= b < numbers@[a]@.len() ==> (
                    #[trigger] numbers@[a]@[b]) < deps.entries@.len(),
                row@.len() == j,
                forall|k: int|
                    0 <= k < j ==> (#[trigger] row@[k])@ == known[numbers@[i as int]@[k] as int],
            decreases numbers@[i as int]@.len() - j,
        {
            assert(numbers@[i as int]@[j as int] < deps.entries@.len());
            row.push(deps.entries[numbers[i][j]].0.clone());
            j += 1;
        }
        assert(text::texts(row@) =~= names_of(known, numbers@[i as int]@));
        out.push(row);
        i += 1;
    }
    proof {
        let ls = graph::lists(numbers@);
        assert(names::text_lists(out@) =~= Seq::new(
            ls.len(),
            |i: int| names_of(known, ls[i]),
        ));
        assert(graph::layered(g, ls));
    }
    Ok(out)
}

proof fn lemma_in_layers_at(g: Seq<Seq<usize>>, ls: Seq<Seq<usize>>, a: int)
    requires
        g.len() <= usize::MAX,
        graph::in_layers(g, Set::empty(), ls),
        0 <= a < ls.len(),
    ensures
        ls[a] == graph::ready_list(g, graph::after(Set::empty(), ls.take(a))),
        ls[a].len() > 0,
    decreases ls.len(),
{
    if a == ls.len() - 1 {
        assert(ls.take(a) =~= ls.drop_last());
    } else {
        lemma_in_layers_at(g, ls.drop_last(), a);
        assert(ls.drop_last().take(a) =~= ls.take(a));
    }
}

proof fn lemma_layers_in_range(g: Seq<Seq<usize>>, ls: Seq<Seq<usize>>)
    requires
        g.len() <= usize::MAX,
        graph::in_layers(g, Set::empty(), ls),
    ensures
        forall|a: int, b: int|
            0 <= a < ls.len() && 0 <= b < ls[a].len() ==> (#[trigger] ls[a][b]) < g.len(),
{
    assert forall|a: int, b: int| 0 <= a < ls.len() && 0 <= b < ls[a].len() implies (
    #[trigger] ls[a][b]) < g.len() by {
        lemma_in_layers_at(g, ls, a);
        graph::lemma_ready_list(g, graph::after(Set::empty(), ls.take(a)));
        assert(graph::ready(g, graph::after(Set::empty(), ls.take(a)), ls[a][b] as int));
    }
}

/// Checks compositions.
pub struct CompositionValidator;

impl CompositionValidator {
    /// Checks that a composition has entries, that every dependency and every
    /// source of a data flow is an entry, and that there is no cycle.
    pub fn validate(composition: &SagaComposition) -> (result: Result<(), CompositionError>)
        requires
            composition.entries.well_formed(),
        ensures
            result is Ok <==> composition_valid(*composition),
            result matches Err(error) ==> is_composition_error(*composition, error),
    {
        if composition.entries.is_empty() {
            return Err(CompositionError::Empty { composition: composition.name.clone() });
        }
        let ghost known = entry_names(*composition);
        let mut i: usize = 0;
        while i < composition.entries.entries.len()
            invariant
                i <= composition.entries.entries@.len(),
                known == entry_names(*composition),
                entries_sound(*composition, i as int),
            decreases composition.entries.entries.len() - i,
        {
            let entry: &(String, CompositionEntry) = &composition.entries.entries[i];
            let mut k: usize = 0;
            while k < entry.1.depends_on.len()
                invariant
                    i < composition.entries.entries@.len(),
                    *entry == composition.entries.entries@[i as int],
                    k <= entry.1.depends_on@.len(),
                    known == entry_names(*composition),
                    entries_sound(*composition, i as int),
                    forall|j: int| 0 <= j < k ==> #[trigger] dep_known(known, entry.1, j),
                decreases entry.1.depends_on.len() - k,
            {
                if !composition.entries.contains_key(entry.1.depends_on[k].as_str()) {
                    assert(!dep_known(known, composition.entries.entries@[i as int].1, k as int));
                    return Err(
                        CompositionError::UnknownDependency {
                            composition: composition.name.clone(),
                            entry: entry.0.clone(),
                            dependency: entry.1.depends_on[k].clone(),
                        },
                    );
                }
                k += 1;
            }
            let mut f: usize = 0;
            while f < entry.1.data_flows.len()
                invariant
                    i < composition.entries.entries@.len(),
                    *entry == composition.entries.entries@[i as int],
                    f <= entry.1.data_flows@.len(),
                    known == entry_names(*composition),
                    entries_sound(*composition, i as int),
                    deps_known(known, entry.1),
                    forall|j: int| 0 <= j < f ==> #[trigger] flow_known(known, entry.1, j),
                decreases entry.1.data_flows.len() - f,
            {
                if !composition.entries.contains_key(entry.1.data_flows[f].source_saga.as_str()) {
                    assert(!flow_known(known, composition.entries.entries@[i as int].1, f as int));
                    return Err(
                        CompositionError::UnknownDataFlowSource {
                            composition: composition.name.clone(),
                            entry: entry.0.clone(),
                            source_saga: entry.1.data_flows[f].source_saga.clone(),
                        },
                    );
                }
                f += 1;
            }
            i += 1;
        }
        let deps: TextMap<Vec<String>> = composition.deps();
        proof {
            lemma_sound_is_faultless(*composition);
        }
        match numbered_layers(&deps) {
            Some(_) => Ok(()),
            None => Err(CompositionError::Cycle { composition: composition.name.clone() }),
        }
    }
}

proof fn lemma_sound_is_faultless(composition: SagaComposition)
    requires
        entries_sound(composition, composition.entries.entries@.len() as int),
    ensures
        names::faultless(entry_names(composition), entry_deps(composition), false),
{
    let known = entry_names(composition);
    let ds = entry_deps(composition);
    assert forall|i: int, k: int| 0 <= i < ds.len() && 0 <= k < ds[i].len() implies !(
    #[trigger] names::faulty(known, ds, false, i, k)) by {
        let entry = composition.entries.entries@[i].1;
        assert(entry_sound(known, entry));
        assert(dep_known(known, entry, k));
    }
}

/// Builds a composition entry by entry.
#[derive(Debug)]
pub struct SagaCompositionBuilder {
    /// The composition name.
    pub name: String,
    /// The entries so far, by saga name.
    pub entries: TextMap<CompositionEntry>,
}

/// Builds one entry of a composition.
#[derive(Debug)]
pub struct EntryBuilder {
    /// The builder that the entry is added to.
    pub parent: SagaCompositionBuilder,
    /// The entry so far.
    pub entry: CompositionEntry,
}

impl SagaCompositionBuilder {
    /// A builder without entries.
    pub fn new(name: &str) -> (builder: SagaCompositionBuilder)
        ensures
            builder.name@ == name@,
            builder.entries.well_formed(),
            builder.entries@ == Map::<Seq<char>, CompositionEntry>::empty(),
            named_entries(builder.entries),
    {
        SagaCompositionBuilder { name: name.to_owned(), entries: TextMap::new() }
    }

    /// Starts the entry of a saga.
    pub fn saga(self, saga_name: &str) -> (builder: EntryBuilder)
        ensures
            builder.parent == self,
            builder.entry.saga_name@ == saga_name@,
            builder.entry.depends_on@.len() == 0,
            builder.entry.data_flows@.len() == 0,
    {
        EntryBuilder {
            parent: self,
            entry: CompositionEntry {
                saga_name: saga_name.to_owned(),
                depends_on: Vec::new(),
                data_flows: Vec::new(),
            },
        }
    }

    /// Builds the composition, if it is valid.
    pub fn build(self) -> (result: Result<SagaComposition, CompositionError>)
        requires
            self.entries.well_formed(),
        ensures
            ({
                let composition = SagaComposition { name: self.name, entries: self.entries };
                match result {
                    Ok(built) => built == composition && composition_valid(composition),
                    Err(error) => is_composition_error(composition, error) && !composition_valid(
                        composition,
                    ),
                }
            }),
            named_entries(self.entries) ==> (result matches Ok(built) ==> named_entries(
                built.entries,
            )),
    {
        let composition: SagaComposition = SagaComposition {
            name: self.name,
            entries: self.entries,
        };
        match CompositionValidator::validate(&composition) {
            Ok(_) => Ok(composition),
            Err(error) => Err(error),
        }
    }
}

impl EntryBuilder {
    /// The entry with these dependencies, in place of any it had.
    pub fn depends_on(self, names: Vec<String>) -> (builder: EntryBuilder)
        ensures
            builder == (EntryBuilder {
                entry: CompositionEntry { depends_on: names, ..self.entry },
                ..self
            }),
    {
        let entry: CompositionEntry = self.entry;
        EntryBuilder {
            parent: self.parent,
            entry: CompositionEntry { depends_on: names, ..entry },
        }
    }

    /// The entry with one data flow more.
    pub fn data_flow(
        self,
        source_saga: &str,
        source_step: Option<&str>,
        target_key: Option<&str>,
    ) -> (builder: EntryBuilder)
        ensures
            builder.parent == self.parent,
            builder.entry.saga_name == self.entry.saga_name,
            builder.entry.depends_on == self.entry.depends_on,
            builder.entry.data_flows@.len() == self.entry.data_flows@.len() + 1,
            builder.entry.data_flows@.drop_last() == self.entry.data_flows@,
            ({
                let flow = builder.entry.data_flows@.last();
                &&& flow.source_saga@ == source_saga@
                &&& flow.source_step is Some == source_step is Some
                &&& source_step is Some ==> flow.source_step->0@ == source_step->0@
                &&& flow.target_key is Some == target_key is Some
                &&& target_key is Some ==> flow.target_key->0@ == target_key->0@
            }),
    {
        let entry: CompositionEntry = self.entry;
        let mut data_flows: Vec<SagaDataFlow> = entry.data_flows;
        data_flows.push(
            SagaDataFlow {
                source_saga: source_saga.to_owned(),
                source_step: match source_step {
                    Some(step) => Some(step.to_owned()),
                    None => None,
                },
                target_key: match target_key {
                    Some(key) => Some(key.to_owned()),
                    None => None,
                },
            },
        );
        assert(data_flows@.drop_last() =~= entry.data_flows@);
        EntryBuilder {
            parent: self.parent,
            entry: CompositionEntry {
                saga_name: entry.saga_name,
                depends_on: entry.depends_on,
                data_flows,
            },
        }
    }

    /// Adds the entry to the composition, in place of any of that name.
    pub fn add(self) -> (builder: SagaCompositionBuilder)
        requires
            self.parent.entries.well_formed(),
        ensures
            builder.name == self.parent.name,
            builder.entries.well_formed(),
            builder.entries@ == self.parent.entries@.insert(self.entry.saga_name@, self.entry),
            named_entries(self.parent.entries) ==> named_entries(builder.entries),
    {
        let mut parent: SagaCompositionBuilder = self.parent;
        let name: String = self.entry.saga_name.clone();
        parent.entries.insert(name, self.entry);
        parent
    }
}

/// What a composition run has seen.
#[derive(Debug)]
pub struct CompositionContext {
    /// The id of the run.
    pub correlation_id: String,
    /// The composition name.
    pub composition_name: String,
    /// The outcome of each saga that has run, by saga name.
    pub saga_results: TextMap<Outcome>,
    /// The step results of each saga that has run, by saga name.
    pub saga_step_results: TextMap<TextMap<Value>>,
    /// The input of each saga that was started, by saga name.
    pub saga_inputs: TextMap<Value>,
    /// The names of the sagas that completed successfully, in order of
    /// completion.
    pub completed_sagas: Vec<String>,
    /// The names of the sagas that were compensated, in order of compensation.
    pub compensated_sagas: Vec<String>,
    /// The message of the error that failed the composition, if it failed.
    pub error: Option<String>,
}

impl CompositionContext {
    /// Whether the composition has not failed.
    pub fn is_success(&self) -> (yes: bool)
        ensures
            yes == self.error is None,
    {
        self.error.is_none()
    }

    /// The names of the sagas that completed successfully, in order of
    /// completion.
    pub fn completed(&self) -> (list: &Vec<String>)
        ensures
            *list == self.completed_sagas,
    {
        &self.completed_sagas
    }

    /// The names of the sagas that were compensated, in order of compensation.
    pub fn compensated(&self) -> (list: &Vec<String>)
        ensures
            *list == self.compensated_sagas,
    {
        &self.compensated_sagas
    }
}

/// Whether a map of maps of values is in order throughout.
pub open spec fn good_steps(map: TextMap<TextMap<Value>>) -> bool {
    &&& map.well_formed()
    &&& forall|k: Seq<char>|
        map@.contains_key(k) ==> step_context::good_values(#[trigger] map@[k])
}

/// The value that a data flow carries, if its source has one.
pub open spec fn flow_value(
    flow: SagaDataFlow,
    results: Map<Seq<char>, TextMap<Value>>,
) -> Option<ValueView> {
    if !results.contains_key(flow.source_saga@) {
        None
    } else {
        match flow.source_step {
            Some(step) => step_context::entry(
                step_context::values_of(results[flow.source_saga@]),
                step@,
            ),
            None => Some(Value::Object(results[flow.source_saga@]).model()),
        }
    }
}

/// The members of an input after one data flow: its value enters under the
/// target key; without one the members of an object enter one by one, and
/// anything else under the name of the source.
pub open spec fn with_flow(
    members: Map<Seq<char>, ValueView>,
    flow: SagaDataFlow,
    results: Map<Seq<char>, TextMap<Value>>,
) -> Map<Seq<char>, ValueView> {
    match flow_value(flow, results) {
        None => members,
        Some(v) => match flow.target_key {
            Some(key) => members.insert(key@, v),
            None => if v is Object {
                members.union_prefer_right(step_context::members_map(Some(v)))
            } else {
                members.insert(flow.source_saga@, v)
            },
        },
    }
}

/// The members of an input after some data flows, one after another.
pub open spec fn with_flows(
    members: Map<Seq<char>, ValueView>,
    flows: Seq<SagaDataFlow>,
    results: Map<Seq<char>, TextMap<Value>>,
) -> Map<Seq<char>, ValueView>
    decreases flows.len(),
{
    if flows.len() == 0 {
        members
    } else {
        with_flow(with_flows(members, flows.drop_last(), results), flows.last(), results)
    }
}

/// Whether a value is the input that an entry runs with: the initial input
/// where no data flows in, and otherwise the object that starts with the
/// members of the initial input and takes up one data flow after another.
pub open spec fn is_resolved_input(
    entry: CompositionEntry,
    results: Map<Seq<char>, TextMap<Value>>,
    initial: ValueView,
    input: ValueView,
) -> bool {
    if entry.data_flows@.len() == 0 {
        input == initial
    } else {
        step_context::is_object_of(
            input,
            with_flows(step_context::members_map(Some(initial)), entry.data_flows@, results),
        )
    }
}

fn merge(target: &mut TextMap<Value>, source: &TextMap<Value>)
    requires
        step_context::good_values(*old(target)),
        step_context::good_values(*source),
    ensures
        step_context::good_values(*final(target)),
        step_context::values_of(*final(target)) == step_context::values_of(
            *old(target),
        ).union_prefer_right(step_context::values_of(*source)),
{
    let ghost before = step_context::values_of(*target);
    let ghost added = step_context::values_of(*source);
    let ghost keys = text_map::keys_of(source.entries@);
    let mut i: usize = 0;
    proof {
        assert forall|k: Seq<char>| #[trigger] step_context::entry(before, k) == (if 0
            <= names::place(keys, k) < 0 {
            step_context::entry(added, k)
        } else {
            step_context::entry(before, k)
        }) by {}
    }
    while i < source.entries.len()
        invariant
            i <= source.entries@.len(),
            step_context::good_values(*target),
            step_context::good_values(*source),
            added == step_context::values_of(*source),
            keys == text_map::keys_of(source.entries@),
            forall|k: Seq<char>| #[trigger]
                step_context::entry(step_context::values_of(*target), k) == (if 0 <= names::place(
                    keys,
                    k,
                ) < i {
                    step_context::entry(added, k)
                } else {
                    step_context::entry(before, k)
                }),
        decreases source.entries.len() - i,
    {
        let ghost last = *target;
        let key: String = source.entries[i].0.clone();
        let value: Value = source.entries[i].1.duplicate();
        proof {
            source.lemma_entry(i as int);
        }
        let ghost model = value.model();
        let ghost name = key@;
        assert(source@[name].well_formed());
        target.insert(key, value);
        proof {
            step_context::lemma_values_of_insert(last, *target, name, value);
            assert forall|k: Seq<char>| #[trigger]
                step_context::entry(step_context::values_of(*target), k) == (if 0 <= names::place(
                    keys,
                    k,
                ) < i + 1 {
                    step_context::entry(added, k)
                } else {
                    step_context::entry(before, k)
                }) by {
                names::lemma_place(keys, k);
                assert(step_context::entry(step_context::values_of(last), k) == (if 0
                    <= names::place(keys, k) < i {
                    step_context::entry(added, k)
                } else {
                    step_context::entry(before, k)
                }));
            }
        }
        i += 1;
    }
    proof {
        let now = step_context::values_of(*target);
        let want = before.union_prefer_right(added);
        assert forall|k: Seq<char>|
            #![trigger now.dom().contains(k)]
            #![trigger want.dom().contains(k)]
            now.dom().contains(k) == want.dom().contains(k) && (now.dom().contains(k) ==> now[k]
                == want[k]) by {
            names::lemma_place(keys, k);
            assert(step_context::entry(now, k) == (if 0 <= names::place(keys, k) < i {
                step_context::entry(added, k)
            } else {
                step_context::entry(before, k)
            }));
        }
        assert(now =~= want);
    }
}

fn object_of(fields: &TextMap<Value>) -> (object: Value)
    requires
        step_context::good_values(*fields),
    ensures
        object.well_formed(),
        object.model() == Value::Object(*fields).model(),
{
    proof {
        step_context::lemma_good_entries(*fields);
    }
    let copy: TextMap<Value> = fields.duplicate();
    let object: Value = Value::Object(copy);
    proof {
        assert forall|i: int| 0 <= i < fields.entries@.len() implies (
        #[trigger] copy.entries@[i]).0@ == fields.entries@[i].0@ by {
            assert(text_map::keys_of(copy.entries@)[i] == text_map::keys_of(fields.entries@)[i]);
        }
        let a = object.model()->Object_0;
        let b = Value::Object(*fields).model()->Object_0;
        assert(a =~= b);
    }
    object
}

/// Resolves the inputs of sagas.
pub struct DataFlowManager;

impl DataFlowManager {
    /// The input that an entry runs with.
    pub fn resolve_input(
        entry: &CompositionEntry,
        context: &CompositionContext,
        initial_input: &Value,
    ) -> (input: Value)
        requires
            good_steps(context.saga_step_results),
            initial_input.well_formed(),
        ensures
            input.well_formed(),
            is_resolved_input(
                *entry,
                context.saga_step_results@,
                initial_input.model(),
                input.model(),
            ),
            entry.data_flows@.len() == 0 ==> input.model() == initial_input.model(),
            entry.data_flows@.len() > 0 ==> {
                let flow = entry.data_flows@.last();
                let results = context.saga_step_results@;
                &&& input.model() is Object
                &&& flow.target_key is Some && flow.source_step is Some && results.contains_key(
                    flow.source_saga@,
                ) && results[flow.source_saga@]@.contains_key(flow.source_step->0@)
                    ==> value::field_of(input.model(), flow.target_key->0@) == Some(
                    results[flow.source_saga@]@[flow.source_step->0@].model(),
                )
                &&& flow.target_key is Some && flow.source_step is None && results.contains_key(
                    flow.source_saga@,
                ) ==> value::field_of(input.model(), flow.target_key->0@) == Some(
                    Value::Object(results[flow.source_saga@]).model(),
                )
            },
    {
        if entry.data_flows.len() == 0 {
            return initial_input.duplicate();
        }
        let ghost results = context.saga_step_results@;
        let ghost base = step_context::members_map(Some(initial_input.model()));
        let mut resolved: TextMap<Value> = object_fields(Some(initial_input));
        let mut i: usize = 0;
        while i < entry.data_flows.len()
            invariant
                i <= entry.data_flows@.len(),
                good_steps(context.saga_step_results),
                results == context.saga_step_results@,
                step_context::good_values(resolved),
                step_context::values_of(resolved) == with_flows(
                    base,
                    entry.data_flows@.take(i as int),
                    results,
                ),
            decreases entry.data_flows.len() - i,
        {
            let flow: &SagaDataFlow = &entry.data_flows[i];
            proof {
                let next = entry.data_flows@.take(i + 1);
                assert(next.drop_last() =~= entry.data_flows@.take(i as int));
                assert(next.last() == *flow);
            }
            if let Some(found) = context.saga_step_results.get(flow.source_saga.as_str()) {
                assert(step_context::good_values(results[flow.source_saga@]));
                match &flow.source_step {
                    Some(step) => {
                        if let Some(value) = found.get(step.as_str()) {
                            assert(found@[step@].well_formed());
                            match &flow.target_key {
                                Some(key) => put(&mut resolved, key.clone(), value.duplicate()),
                                None => match value {
                                    Value::Object(fields) => {
                                        proof {
                                            step_context::lemma_members_are_values(*fields);
                                            step_context::lemma_good_entries(*fields);
                                        }
                                        merge(&mut resolved, fields);
                                    },
                                    _ => put(
                                        &mut resolved,
                                        flow.source_saga.clone(),
                                        value.duplicate(),
                                    ),
                                },
                            }
                        }
                    },
                    None => match &flow.target_key {
                        Some(key) => put(&mut resolved, key.clone(), object_of(found)),
                        None => {
                            proof {
                                step_context::lemma_members_are_values(*found);
                            }
                            merge(&mut resolved, found);
                        },
                    },
                }
            }
            i += 1;
        }
        proof {
            assert(entry.data_flows@.take(entry.data_flows@.len() as int) =~= entry.data_flows@);
            step_context::lemma_good_entries(resolved);
            step_context::lemma_is_object_of(resolved);
        }
        Value::Object(resolved)
    }
}

/// The sagas that a composition can run, and which of them have an undo.
#[derive(Debug)]
pub struct SagaCompositor {
    /// By saga name, whether the saga has an undo.
    pub sagas: TextMap<bool>,
}

/// Where a composition run stands.
#[derive(Debug, Clone, Copy, PartialEq, Eq, Structural)]
pub enum CompositionStage {
    /// Sagas run, layer by layer.
    Running,
    /// Completed sagas are rolled back.
    Compensating,
    /// Nothing is left to do.
    Ended,
}

/// A composition run in progress.
#[derive(Debug)]
pub struct CompositionRun {
    /// What the run has seen.
    pub context: CompositionContext,
    /// The initial input.
    pub input: Value,
    /// The layers, as numbers of entries.
    pub layers: Vec<Vec<usize>>,
    /// The layer that runs.
    pub layer: usize,
    /// How many sagas of that layer have finished.
    pub slot: usize,
    /// How many completed sagas are still to be rolled back.
    pub left: usize,
    /// Where the run stands.
    pub stage: CompositionStage,
}

/// A saga to run.
#[derive(Debug)]
pub struct SagaTask {
    /// The saga name.
    pub saga: String,
    /// Whether the saga is registered.
    pub registered: bool,
    /// The context that the saga runs with.
    pub facts: StepContext,
}

/// A completed saga to roll back.
#[derive(Debug)]
pub struct UndoTask {
    /// The saga name.
    pub saga: String,
    /// A context with the step results of the saga.
    pub facts: StepContext,
}

/// The sagas that have run in the layers before the current one and, in order,
/// in the current one.
pub open spec fn sagas_run(run: CompositionRun) -> Seq<usize> {
    let ls = graph::lists(run.layers@);
    if run.layer < ls.len() {
        graph::flat(ls.take(run.layer as int)) + ls[run.layer as int].take(run.slot as int)
    } else {
        graph::flat(ls)
    }
}

/// Whether exactly the sagas whose recorded outcome is a success are listed.
pub open spec fn completed_are_recorded(context: CompositionContext) -> bool {
    forall|name: Seq<char>| #[trigger]
        text::texts(context.completed_sagas@).contains(name) <==> context.saga_results@.contains_key(
            name,
        ) && context.saga_results@[name].status == SagaStatus::Completed
}

impl CompositionRun {
    /// Whether the run is one that `composition` can be in.
    pub open spec fn well_formed(self, composition: SagaComposition) -> bool {
        let ls = graph::lists(self.layers@);
        let completed = text::texts(self.context.completed_sagas@);
        let compensated = text::texts(self.context.compensated_sagas@);
        &&& composition.entries.well_formed()
        &&& composition.entries.entries@.len() <= usize::MAX
        &&& self.context.composition_name == composition.name
        &&& self.input.well_formed()
        &&& self.context.saga_results.well_formed()
        &&& good_steps(self.context.saga_step_results)
        &&& step_context::good_values(self.context.saga_inputs)
        &&& completed_are_recorded(self.context)
        &&& self.context.saga_results@.dom() == self.context.saga_step_results@.dom()
        &&& self.left <= completed.len()
        &&& match self.stage {
            CompositionStage::Running => {
                &&& graph::layered(entry_graph(composition), ls)
                &&& graph::complete(entry_graph(composition), graph::flat(ls))
                &&& self.layer <= ls.len()
                &&& self.layer < ls.len() ==> self.slot < ls[self.layer as int].len()
                &&& self.layer == ls.len() ==> self.slot == 0
                &&& self.slot == 0 ==> self.context.error is None
                &&& forall|name: Seq<char>| #[trigger]
                    self.context.saga_results@.contains_key(name) <==> names_of(
                        entry_names(composition),
                        sagas_run(self),
                    ).contains(name)
                &&& self.context.error is None ==> completed == names_of(
                    entry_names(composition),
                    sagas_run(self),
                )
                &&& compensated.len() == 0
            },
            CompositionStage::Compensating => {
                &&& self.context.error is Some
                &&& compensated == completed.skip(self.left as int).reverse()
            },
            CompositionStage::Ended => if self.context.error is None {
                &&& graph::layered(entry_graph(composition), ls)
                &&& graph::complete(entry_graph(composition), graph::flat(ls))
                &&& completed == names_of(entry_names(composition), graph::flat(ls))
                &&& compensated.len() == 0
            } else {
                compensated == completed.reverse()
            },
        }
    }
}

/// The name of the saga of the running layer that finishes next.
pub open spec fn finishing_saga(composition: SagaComposition, run: CompositionRun) -> Seq<char> {
    entry_names(composition)[run.layers@[run.layer as int]@[run.slot as int] as int]
}

/// The message of a failed composition.
pub open spec fn composition_failure_text(
    saga: Seq<char>,
    composition: Seq<char>,
    error: Option<String>,
) -> Seq<char> {
    "saga "@ + text::debug_text(saga) + " failed in composition "@ + text::debug_text(composition)
        + ": "@ + match error {
        Some(message) => message@,
        None => "unknown"@,
    }
}

/// The message of an error, if there is one.
pub open spec fn message_of(error: Option<String>) -> Option<Seq<char>> {
    match error {
        Some(message) => Some(message@),
        None => None,
    }
}

proof fn lemma_layer_bounds(composition: SagaComposition, run: CompositionRun)
    requires
        run.well_formed(composition),
        run.stage == CompositionStage::Running,
    ensures
        forall|a: int, b: int|
            0 <= a < run.layers@.len() && 0 <= b < run.layers@[a]@.len() ==> (
            #[trigger] run.layers@[a]@[b]) < composition.entries.entries@.len(),
{
    let ls = graph::lists(run.layers@);
    lemma_layers_in_range(entry_graph(composition), ls);
    assert forall|a: int, b: int|
        0 <= a < run.layers@.len() && 0 <= b < run.layers@[a]@.len() implies (
    #[trigger] run.layers@[a]@[b]) < composition.entries.entries@.len() by {
        assert(ls[a][b] < entry_graph(composition).len());
    }
}

impl SagaCompositor {
    /// A compositor without sagas.
    pub fn new() -> (compositor: SagaCompositor)
        ensures
            compositor.sagas.well_formed(),
            compositor.sagas@ == Map::<Seq<char>, bool>::empty(),
    {
        SagaCompositor { sagas: TextMap::new() }
    }

    /// The compositor with a saga that has no undo.
    pub fn register(self, name: &str) -> (compositor: SagaCompositor)
        requires
            self.sagas.well_formed(),
        ensures
            compositor.sagas.well_formed(),
            compositor.sagas@ == self.sagas@.insert(name@, false),
    {
        let mut sagas: TextMap<bool> = self.sagas;
        sagas.insert(name.to_owned(), false);
        SagaCompositor { sagas }
    }

    /// The compositor with a saga that has an undo.
    pub fn register_with_undo(self, name: &str) -> (compositor: SagaCompositor)
        requires
            self.sagas.well_formed(),
        ensures
            compositor.sagas.well_formed(),
            compositor.sagas@ == self.sagas@.insert(name@, true),
    {
        let mut sagas: TextMap<bool> = self.sagas;
        sagas.insert(name.to_owned(), true);
        SagaCompositor { sagas }
    }

    /// Starts a run under a fresh random id.
    pub fn begin(&self, composition: &SagaComposition, initial_input: Value) -> (run:
        CompositionRun)
        requires
            composition.entries.well_formed(),
            initial_input.well_formed(),
        ensures
            begun(*composition, initial_input, run),
            run.context.correlation_id@.len() == 36,
    {
        self.begin_as(composition, initial_input, random_id())
    }

    /// Starts a run under an id. Where the dependencies have no order, the run
    /// has ended before anything ran.
    pub fn begin_as(
        &self,
        composition: &SagaComposition,
        initial_input: Value,
        correlation_id: String,
    ) -> (run: CompositionRun)
        requires
            composition.entries.well_formed(),
            initial_input.well_formed(),
        ensures
            begun(*composition, initial_input, run),
            run.context.correlation_id == correlation_id,
    {
        let deps: TextMap<Vec<String>> = composition.deps();
        let mut run: CompositionRun = CompositionRun {
            context: CompositionContext {
                correlation_id,
                composition_name: composition.name.clone(),
                saga_results: TextMap::new(),
                saga_step_results: TextMap::new(),
                saga_inputs: TextMap::new(),
                completed_sagas: Vec::new(),
                compensated_sagas: Vec::new(),
                error: None,
            },
            input: initial_input,
            layers: Vec::new(),
            layer: 0,
            slot: 0,
            left: 0,
            stage: CompositionStage::Running,
        };
        proof {
            assert(composition.entries.entries@.len() == composition.entries.entries.len());
            assert(text::texts(run.context.completed_sagas@) =~= Seq::empty());
            assert(text::texts(run.context.compensated_sagas@) =~= Seq::empty());
            assert(text::texts(run.context.completed_sagas@).reverse() =~= Seq::empty());
        }
        match numbered_layers(&deps) {
            Some(numbers) => {
                proof {
                    let g = entry_graph(*composition);
                    let ls = graph::lists(numbers@);
                    names::lemma_resolved_closed(
                        entry_names(*composition),
                        entry_deps(*composition),
                    );
                    graph::lemma_layered_order(g, ls);
                    if ls.len() > 0 {
                        lemma_in_layers_at(g, ls, 0);
                    }
                }
                run.layers = numbers;
                proof {
                    let ls = graph::lists(run.layers@);
                    if ls.len() > 0 {
                        assert(graph::flat(ls.take(0)) =~= Seq::empty());
                        assert(sagas_run(run) =~= Seq::empty());
                    } else {
                        assert(sagas_run(run) =~= Seq::empty());
                    }
                    assert(names_of(entry_names(*composition), sagas_run(run)) =~= Seq::empty());
                }
            },
            None => {
                run.context.error = Some(
                    in_composition(composition.name.as_str(), ": dependency cycle detected"),
                );
                run.stage = CompositionStage::Ended;
            },
        }
        run
    }

    /// Names the sagas of the next layer, each with the context it runs with,
    /// and records their inputs. After the last layer the run ends.
    pub fn next_layer(&self, composition: &SagaComposition, run: &mut CompositionRun) -> (tasks:
        Option<Vec<SagaTask>>)
        requires
            old(run).well_formed(*composition),
            old(run).stage == CompositionStage::Running,
            old(run).slot == 0,
        ensures
            final(run).well_formed(*composition),
            match tasks {
                Some(list) => {
                    &&& old(run).layer < old(run).layers@.len()
                    &&& list@.len() == old(run).layers@[old(run).layer as int]@.len()
                    &&& forall|k: int|
                        0 <= k < list@.len() ==> is_task(*self, *composition, *old(run), k, #[trigger]
                            list@[k])
                    &&& *final(run) == (CompositionRun {
                        context: final(run).context,
                        ..*old(run)
                    })
                    &&& final(run).context == (CompositionContext {
                        saga_inputs: final(run).context.saga_inputs,
                        ..old(run).context
                    })
                    &&& step_context::values_of(final(run).context.saga_inputs)
                        == inputs_after(step_context::values_of(old(run).context.saga_inputs), list@)
                },
                None => {
                    &&& old(run).layer == old(run).layers@.len()
                    &&& *final(run) == (CompositionRun {
                        stage: CompositionStage::Ended,
                        ..*old(run)
                    })
                },
            },
    {
        let ghost before = *run;
        proof {
            lemma_layer_bounds(*composition, *run);
        }
        if run.layer == run.layers.len() {
            run.stage = CompositionStage::Ended;
            return None;
        }
        let at: usize = run.layer;
        let mut list: Vec<SagaTask> = Vec::new();
        let mut k: usize = 0;
        proof {
            assert(inputs_after(
                step_context::values_of(before.context.saga_inputs),
                list@,
            ) =~= step_context::values_of(before.context.saga_inputs));
        }
        while k < run.layers[at].len()
            invariant
                run.layers == before.layers,
                at == before.layer,
                before.layer < before.layers@.len(),
                before.well_formed(*composition),
                before.stage == CompositionStage::Running,
                *run == (CompositionRun { context: run.context, ..before }),
                run.context == (CompositionContext {
                    saga_inputs: run.context.saga_inputs,
                    ..before.context
                }),
                step_context::good_values(run.context.saga_inputs),
                k <= run.layers@[at as int]@.len(),
                list@.len() == k,
                forall|a: int, b: int|
                    0 <= a < run.layers@.len() && 0 <= b < run.layers@[a]@.len() ==> (
                    #[trigger] run.layers@[a]@[b]) < composition.entries.entries@.len(),
                forall|j: int|
                    0 <= j < k ==> is_task(*self, *composition, before, j, #[trigger] list@[j]),
                step_context::values_of(run.context.saga_inputs) == inputs_after(
                    step_context::values_of(before.context.saga_inputs),
                    list@,
                ),
            decreases run.layers@[at as int]@.len() - k,
        {
            assert(run.layers@[at as int]@[k as int] < composition.entries.entries@.len());
            let entry: &(String, CompositionEntry) = &composition.entries.entries[run.layers[at][k]];
            let input: Value = DataFlowManager::resolve_input(&entry.1, &run.context, &run.input);
            let name: String = entry.0.clone();
            let copy: Value = input.duplicate();
            put(&mut run.context.saga_inputs, name, copy);
            let mut facts: StepContext = StepContext::with_input(input);
            facts.set_correlation_id(run.context.correlation_id.as_str());
            let task: SagaTask = SagaTask {
                saga: entry.0.clone(),
                registered: self.sagas.contains_key(entry.0.as_str()),
                facts,
            };
            let ghost prev = list@;
            list.push(task);
            proof {
                assert(list@.drop_last() =~= prev);
                assert forall|j: int| 0 <= j < k + 1 implies is_task(
                    *self,
                    *composition,
                    before,
                    j,
                    #[trigger] list@[j],
                ) by {
                    if j < k {
                        assert(list@[j] == prev[j]);
                    }
                }
            }
            k += 1;
        }
        assert(sagas_run(*run) == sagas_run(before));
        Some(list)
    }

    /// The outcome of a saga that is not registered.
    pub fn unregistered_outcome(
        name: &str,
        started_at: Timestamp,
        finished_at: Timestamp,
    ) -> (outcome: Outcome)
        ensures
            outcome.saga@ == name@,
            outcome.status == SagaStatus::Failed,
            outcome.steps_executed@.len() == 0,
            outcome.steps_rolled@.len() == 0,
            message_of(outcome.error) == Some(
                "saga "@ + text::debug_text(name@) + " not registered"@,
            ),
            outcome.started_at == started_at,
            outcome.finished_at == finished_at,
    {
        let mut message: String = "saga ".to_owned();
        message.append(quoted(name).as_str());
        message.append(" not registered");
        Outcome {
            saga: name.to_owned(),
            status: SagaStatus::Failed,
            steps_executed: Vec::new(),
            steps_rolled: Vec::new(),
            error: Some(message),
            started_at,
            finished_at,
        }
    }

    /// Records the outcome and the step results of the next saga of the
    /// running layer. The first failure becomes the error of the composition;
    /// after the last saga of a layer with a failure the run compensates, and
    /// otherwise the next layer is due.
    pub fn saga_finished(
        &self,
        composition: &SagaComposition,
        run: &mut CompositionRun,
        outcome: Outcome,
        step_results: TextMap<Value>,
    )
        requires
            old(run).well_formed(*composition),
            old(run).stage == CompositionStage::Running,
            old(run).layer < old(run).layers@.len(),
            step_context::good_values(step_results),
        ensures
            final(run).well_formed(*composition),
            ({
                let name = finishing_saga(*composition, *old(run));
                let was = old(run).context;
                let now = final(run).context;
                &&& now.saga_results@ == was.saga_results@.insert(name, outcome)
                &&& now.saga_step_results@ == was.saga_step_results@.insert(name, step_results)
                &&& text::texts(now.completed_sagas@) == (if outcome.status
                    == SagaStatus::Completed {
                    text::texts(was.completed_sagas@).push(name)
                } else {
                    text::texts(was.completed_sagas@)
                })
                &&& message_of(now.error) == (if was.error is None && outcome.status
                    != SagaStatus::Completed {
                    Some(composition_failure_text(name, composition.name@, outcome.error))
                } else {
                    message_of(was.error)
                })
                &&& now == (CompositionContext {
                    saga_results: now.saga_results,
                    saga_step_results: now.saga_step_results,
                    completed_sagas: now.completed_sagas,
                    error: now.error,
                    ..was
                })
                &&& final(run).input == old(run).input
                &&& final(run).layers == old(run).layers
                &&& name == composition.entries.entries@[
                    old(run).layers@[old(run).layer as int]@[old(run).slot as int] as int
                ].0@
                &&& if old(run).slot + 1 < old(run).layers@[old(run).layer as int]@.len() {
                    &&& final(run).stage == CompositionStage::Running
                    &&& final(run).layer == old(run).layer
                    &&& final(run).slot == old(run).slot + 1
                } else if now.error is None {
                    &&& final(run).stage == CompositionStage::Running
                    &&& final(run).layer == old(run).layer + 1
                    &&& final(run).slot == 0
                } else {
                    &&& final(run).stage == CompositionStage::Compensating
                    &&& final(run).left == now.completed_sagas@.len()
                }
            }),
    {
        let ghost before = *run;
        let ghost known = entry_names(*composition);
        proof {
            lemma_layer_bounds(*composition, *run);
            assert(run.layers@[run.layer as int]@[run.slot as int]
                < composition.entries.entries@.len());
            assert(graph::lists(run.layers@)[run.layer as int] == run.layers@[run.layer as int]@);
            assert(run.layers@.len() == run.layers.len());
            assert(run.layers@[run.layer as int]@.len() == run.layers@[run.layer as int].len());
            lemma_finishing_is_new(*composition, *run);
        }
        let number: usize = run.layers[run.layer][run.slot];
        let name: String = composition.entries.entries[number].0.clone();
        let succeeded: bool = outcome.status == SagaStatus::Completed;
        let ghost done = text::texts(run.context.completed_sagas@);
        if !succeeded && run.context.error.is_none() {
            let mut message: String = "saga ".to_owned();
            message.append(quoted(name.as_str()).as_str());
            message.append(" failed in composition ");
            message.append(quoted(composition.name.as_str()).as_str());
            message.append(": ");
            match &outcome.error {
                Some(text) => message.append(text.as_str()),
                None => message.append("unknown"),
            }
            run.context.error = Some(message);
        }
        if succeeded {
            run.context.completed_sagas.push(name.clone());
        }
        run.context.saga_step_results.insert(name.clone(), step_results);
        run.context.saga_results.insert(name, outcome);
        proof {
            let now = text::texts(run.context.completed_sagas@);
            assert(now =~= if succeeded {
                done.push(name@)
            } else {
                done
            });
            assert forall|other: Seq<char>| #[trigger] now.contains(other)
                <==> run.context.saga_results@.contains_key(other)
                && run.context.saga_results@[other].status == SagaStatus::Completed by {
                assert(done.contains(other) <==> before.context.saga_results@.contains_key(other)
                    && before.context.saga_results@[other].status == SagaStatus::Completed);
                if succeeded {
                    lemma_contains_push(done, name@, other);
                }
            }
            assert forall|k: Seq<char>|
                run.context.saga_step_results@.contains_key(k) implies step_context::good_values(
                #[trigger] run.context.saga_step_results@[k],
            ) by {
                if k != name@ {
                    assert(step_context::good_values(before.context.saga_step_results@[k]));
                }
            }
        }
        if run.slot + 1 < run.layers[run.layer].len() {
            run.slot = run.slot + 1;
            proof {
                lemma_sagas_run_grows(*composition, before, *run);
                lemma_recorded_grows(*composition, before, *run);
            }
        } else if run.context.error.is_none() {
            run.slot = 0;
            run.layer = run.layer + 1;
            proof {
                let g = entry_graph(*composition);
                let ls = graph::lists(run.layers@);
                if run.layer < ls.len() {
                    lemma_in_layers_at(g, ls, run.layer as int);
                }
                lemma_sagas_run_grows(*composition, before, *run);
                lemma_recorded_grows(*composition, before, *run);
            }
        } else {
            run.left = run.context.completed_sagas.len();
            run.stage = CompositionStage::Compensating;
            proof {
                let now = text::texts(run.context.completed_sagas@);
                assert(now.skip(run.left as int).reverse() =~= Seq::empty());
                assert(text::texts(run.context.compensated_sagas@) =~= Seq::empty());
            }
        }
    }

    /// Names the completed saga that is to be undone next; those without an
    /// undo count as compensated on the way. Where none is left, the run ends.
    pub fn next_undo(&self, composition: &SagaComposition, run: &mut CompositionRun) -> (task:
        Option<UndoTask>)
        requires
            old(run).well_formed(*composition),
            old(run).stage == CompositionStage::Compensating,
        ensures
            final(run).well_formed(*composition),
            ({
                let completed = text::texts(old(run).context.completed_sagas@);
                &&& *final(run) == (CompositionRun {
                    context: final(run).context,
                    left: final(run).left,
                    stage: final(run).stage,
                    ..*old(run)
                })
                &&& final(run).context == (CompositionContext {
                    compensated_sagas: final(run).context.compensated_sagas,
                    ..old(run).context
                })
                &&& final(run).left <= old(run).left
                &&& forall|k: int|
                    final(run).left <= k < old(run).left ==> !has_undo(
                        *self,
                        #[trigger] completed[k],
                    )
                &&& forall|k: int|
                    final(run).left <= k < old(run).left && self.sagas@.contains_key(
                        #[trigger] completed[k],
                    ) ==> !self.sagas@[completed[k]]
                &&& match task {
                    Some(undo) => {
                        &&& final(run).stage == CompositionStage::Compensating
                        &&& final(run).left > 0
                        &&& undo.saga@ == completed[final(run).left - 1]
                        &&& has_undo(*self, undo.saga@)
                        &&& self.sagas@.contains_key(undo.saga@) && self.sagas@[undo.saga@]
                        &&& undo.facts.well_formed()
                        &&& undo.facts@ == (ContextView {
                            results: step_context::values_of(
                                old(run).context.saga_step_results@[undo.saga@],
                            ),
                            variables: Map::empty(),
                            headers: Map::empty(),
                            input: ValueView::Null,
                            correlation_id: Seq::empty(),
                        })
                    },
                    None => final(run).stage == CompositionStage::Ended && final(run).left == 0,
                }
            }),
    {
        let ghost before = *run;
        let ghost completed = text::texts(run.context.completed_sagas@);
        while run.left > 0
            invariant
                before == *old(run),
                before.well_formed(*composition),
                before.stage == CompositionStage::Compensating,
                completed == text::texts(before.context.completed_sagas@),
                run.well_formed(*composition),
                *run == (CompositionRun { context: run.context, left: run.left, ..before }),
                run.context == (CompositionContext {
                    compensated_sagas: run.context.compensated_sagas,
                    ..before.context
                }),
                run.left <= before.left,
                forall|k: int|
                    run.left <= k < before.left ==> !has_undo(*self, #[trigger] completed[k]),
            decreases run.left,
        {
            let name: String = run.context.completed_sagas[run.left - 1].clone();
            assert(completed[run.left - 1] == name@);
            assert(completed.contains(name@));
            let undo: bool = match self.sagas.get(name.as_str()) {
                Some(flag) => *flag,
                None => false,
            };
            if undo {
                let mut facts: StepContext = StepContext::new();
                if let Some(results) = run.context.saga_step_results.get(name.as_str()) {
                    assert(step_context::good_values(run.context.saga_step_results@[name@]));
                    proof {
                        step_context::lemma_good_entries(*results);
                    }
                    let copy: TextMap<Value> = results.duplicate();
                    proof {
                        step_context::lemma_values_of_duplicate(copy, *results);
                        step_context::lemma_good_entries(copy);
                    }
                    facts.results = copy;
                }
                proof {
                    assert(run.context.saga_results@.dom().contains(name@));
                    assert(facts@ =~= (ContextView {
                        results: step_context::values_of(
                            before.context.saga_step_results@[name@],
                        ),
                        variables: Map::empty(),
                        headers: Map::empty(),
                        input: ValueView::Null,
                        correlation_id: Seq::empty(),
                    }));
                }
                return Some(UndoTask { saga: name, facts });
            }
            self.undone(composition, run);
        }
        run.stage = CompositionStage::Ended;
        proof {
            assert(completed.skip(0) =~= completed);
        }
        None
    }

    /// Records that the completed saga that was due is compensated, whether or
    /// not its undo succeeded.
    pub fn undone(&self, composition: &SagaComposition, run: &mut CompositionRun)
        requires
            old(run).well_formed(*composition),
            old(run).stage == CompositionStage::Compensating,
            old(run).left > 0,
        ensures
            final(run).well_formed(*composition),
            *final(run) == (CompositionRun {
                context: final(run).context,
                left: (old(run).left - 1) as usize,
                ..*old(run)
            }),
            final(run).context == (CompositionContext {
                compensated_sagas: final(run).context.compensated_sagas,
                ..old(run).context
            }),
            text::texts(final(run).context.compensated_sagas@) == text::texts(
                old(run).context.compensated_sagas@,
            ).push(text::texts(old(run).context.completed_sagas@)[old(run).left - 1]),
    {
        let ghost completed = text::texts(run.context.completed_sagas@);
        let ghost compensated = text::texts(run.context.compensated_sagas@);
        let name: String = run.context.completed_sagas[run.left - 1].clone();
        run.context.compensated_sagas.push(name);
        run.left = run.left - 1;
        proof {
            assert(text::texts(run.context.compensated_sagas@) =~= compensated.push(name@));
            assert(completed.skip(run.left as int).reverse() =~= compensated.push(name@));
        }
    }
}

/// Whether a run has just begun: nothing has run, and the run waits for its
/// first layer or, where the dependencies have no order, has ended with that
/// error.
pub open spec fn begun(composition: SagaComposition, input: Value, run: CompositionRun) -> bool {
    &&& run.well_formed(composition)
    &&& run.input == input
    &&& run.layer == 0
    &&& run.slot == 0
    &&& run.context.saga_results@ == Map::<Seq<char>, Outcome>::empty()
    &&& run.context.saga_step_results@ == Map::<Seq<char>, TextMap<Value>>::empty()
    &&& run.context.saga_inputs@ == Map::<Seq<char>, Value>::empty()
    &&& run.context.completed_sagas@.len() == 0
    &&& run.context.compensated_sagas@.len() == 0
    &&& if names::faultless(entry_names(composition), entry_deps(composition), false)
        && !graph::cyclic(entry_graph(composition)) {
        run.stage == CompositionStage::Running && run.context.error is None
    } else {
        run.stage == CompositionStage::Ended && message_of(run.context.error) == Some(
            cycle_text(composition.name@),
        )
    }
}

/// Whether a task is that of saga `k` of the layer that a run is about to
/// start: the saga's name, whether it is registered, and a fresh context with
/// the saga's input and the id of the run.
pub open spec fn is_task(
    compositor: SagaCompositor,
    composition: SagaComposition,
    run: CompositionRun,
    k: int,
    task: SagaTask,
) -> bool {
    let number = run.layers@[run.layer as int]@[k] as int;
    &&& task.saga@ == entry_names(composition)[number]
    &&& task.registered == compositor.sagas@.contains_key(task.saga@)
    &&& task.facts.well_formed()
    &&& task.facts@ == (ContextView {
        results: Map::empty(),
        variables: Map::empty(),
        headers: Map::empty(),
        input: task.facts@.input,
        correlation_id: run.context.correlation_id@,
    })
    &&& is_resolved_input(
        composition.entries.entries@[number].1,
        run.context.saga_step_results@,
        run.input.model(),
        task.facts@.input,
    )
}

/// The recorded inputs after some tasks have been handed out.
pub open spec fn inputs_after(
    inputs: Map<Seq<char>, ValueView>,
    tasks: Seq<SagaTask>,
) -> Map<Seq<char>, ValueView>
    decreases tasks.len(),
{
    if tasks.len() == 0 {
        inputs
    } else {
        inputs_after(inputs, tasks.drop_last()).insert(
            tasks.last().saga@,
            tasks.last().facts@.input,
        )
    }
}

/// Whether a saga is registered with an undo.
pub open spec fn has_undo(compositor: SagaCompositor, name: Seq<char>) -> bool {
    compositor.sagas@.contains_key(name) && compositor.sagas@[name]
}

proof fn lemma_contains_push(list: Seq<Seq<char>>, added: Seq<char>, other: Seq<char>)
    ensures
        list.push(added).contains(other) == (list.contains(other) || other == added),
{
    let more = list.push(added);
    if list.contains(other) {
        let k = choose|k: int| 0 <= k < list.len() && list[k] == other;
        assert(more[k] == other);
    }
    if other == added {
        assert(more[list.len() as int] == other);
    }
    if more.contains(other) {
        let k = choose|k: int| 0 <= k < more.len() && more[k] == other;
        if k < list.len() {
            assert(list[k] == other);
        }
    }
}

proof fn lemma_recorded_grows(
    composition: SagaComposition,
    before: CompositionRun,
    later: CompositionRun,
)
    requires
        before.well_formed(composition),
        before.stage == CompositionStage::Running,
        names_of(entry_names(composition), sagas_run(later)) == names_of(
            entry_names(composition),
            sagas_run(before),
        ).push(finishing_saga(composition, before)),
        later.context.saga_results@.dom() == before.context.saga_results@.dom().insert(
            finishing_saga(composition, before),
        ),
    ensures
        forall|name: Seq<char>| #[trigger]
            later.context.saga_results@.contains_key(name) <==> names_of(
                entry_names(composition),
                sagas_run(later),
            ).contains(name),
{
    let list = names_of(entry_names(composition), sagas_run(before));
    let added = finishing_saga(composition, before);
    assert forall|name: Seq<char>| #[trigger]
        later.context.saga_results@.contains_key(name) <==> names_of(
            entry_names(composition),
            sagas_run(later),
        ).contains(name) by {
        lemma_contains_push(list, added, name);
        assert(before.context.saga_results@.contains_key(name) <==> list.contains(name));
        assert(later.context.saga_results@.contains_key(name)
            == later.context.saga_results@.dom().contains(name));
    }
}

proof fn lemma_flat_prefix(ls: Seq<Seq<usize>>, a: int)
    requires
        0 <= a <= ls.len(),
    ensures
        graph::flat(ls.take(a)).len() <= graph::flat(ls).len(),
        graph::flat(ls).take(graph::flat(ls.take(a)).len() as int) == graph::flat(ls.take(a)),
    decreases ls.len() - a,
{
    if a == ls.len() {
        assert(ls.take(a) =~= ls);
        assert(graph::flat(ls).take(graph::flat(ls).len() as int) =~= graph::flat(ls));
    } else {
        lemma_flat_prefix(ls, a + 1);
        let next = ls.take(a + 1);
        assert(next.drop_last() =~= ls.take(a));
        let x = graph::flat(ls.take(a));
        let y = graph::flat(next);
        assert(y.take(x.len() as int) =~= x);
        assert(graph::flat(ls).take(x.len() as int) =~= graph::flat(ls).take(
            y.len() as int,
        ).take(x.len() as int));
    }
}

proof fn lemma_finishing_is_new(composition: SagaComposition, run: CompositionRun)
    requires
        run.well_formed(composition),
        run.stage == CompositionStage::Running,
        run.layer < run.layers@.len(),
    ensures
        !run.context.saga_results@.contains_key(finishing_saga(composition, run)),
{
    let known = entry_names(composition);
    let ls = graph::lists(run.layers@);
    let whole = graph::flat(ls);
    let front = graph::flat(ls.take(run.layer as int));
    let row = ls[run.layer as int];
    let next = ls.take(run.layer + 1);
    assert(next.drop_last() =~= ls.take(run.layer as int));
    lemma_flat_prefix(ls, run.layer + 1);
    let part = graph::flat(next);
    assert(part =~= front + row);
    let at = front.len() + run.slot;
    assert(part[at as int] == row[run.slot as int]);
    assert(whole.take(part.len() as int)[at as int] == whole[at as int]);
    let name = finishing_saga(composition, run);
    let list = names_of(known, sagas_run(run));
    lemma_layer_bounds(composition, run);
    if list.contains(name) {
        let k = choose|k: int| 0 <= k < list.len() && list[k] == name;
        assert(sagas_run(run)[k] == part[k]);
        assert(whole.take(part.len() as int)[k] == whole[k]);
        assert(whole[k] < entry_graph(composition).len());
        text_map::lemma_ascending_distinct(known, whole[k] as int, whole[at as int] as int);
    }
}

proof fn lemma_sagas_run_grows(
    composition: SagaComposition,
    before: CompositionRun,
    later: CompositionRun,
)
    requires
        before.well_formed(composition),
        before.stage == CompositionStage::Running,
        before.layer < before.layers@.len(),
        later.layers == before.layers,
        (later.layer == before.layer && later.slot == before.slot + 1 && later.slot
            < before.layers@[before.layer as int]@.len()) || (later.layer == before.layer + 1
            && later.slot == 0 && before.slot + 1 == before.layers@[before.layer as int]@.len()),
    ensures
        sagas_run(later) == sagas_run(before).push(
            before.layers@[before.layer as int]@[before.slot as int],
        ),
        names_of(entry_names(composition), sagas_run(later)) == names_of(
            entry_names(composition),
            sagas_run(before),
        ).push(finishing_saga(composition, before)),
{
    let ls = graph::lists(before.layers@);
    let row = ls[before.layer as int];
    let at = before.slot as int;
    assert(row == before.layers@[before.layer as int]@);
    assert(row.take(at + 1) =~= row.take(at).push(row[at]));
    let front = graph::flat(ls.take(before.layer as int));
    if later.layer == before.layer {
        assert(sagas_run(later) =~= (front + row.take(at)).push(row[at]));
    } else {
        let next = ls.take(before.layer + 1);
        assert(next.drop_last() =~= ls.take(before.layer as int));
        assert(next.last() == row);
        assert(row.take(row.len() as int) =~= row);
        assert(graph::flat(next) =~= (front + row.take(at)).push(row[at]));
        if later.layer < ls.len() {
            assert(ls[later.layer as int].take(0) =~= Seq::empty());
            assert(sagas_run(later) =~= graph::flat(next));
        } else {
            assert(next =~= ls);
        }
    }
    assert(names_of(entry_names(composition), sagas_run(later)) =~= names_of(
        entry_names(composition),
        sagas_run(before),
    ).push(finishing_saga(composition, before)));
}

/// A saga is started only once every entry it depends on has completed
/// successfully.
pub proof fn law_sagas_wait_for_dependencies(
    composition: SagaComposition,
    run: CompositionRun,
    k: int,
    d: int,
)
    requires
        run.well_formed(composition),
        run.stage == CompositionStage::Running,
        run.slot == 0,
        run.layer < run.layers@.len(),
        0 <= k < run.layers@[run.layer as int]@.len(),
        0 <= d < composition.entries.entries@[run.layers@[run.layer as int]@[k] as int].1.depends_on@.len(),
        names::faultless(entry_names(composition), entry_deps(composition), false),
    ensures
        text::texts(run.context.completed_sagas@).contains(
            composition.entries.entries@[run.layers@[run.layer as int]@[k] as int].1.depends_on@[d]@,
        ),
{
    let known = entry_names(composition);
    let ds = entry_deps(composition);
    let g = entry_graph(composition);
    let ls = graph::lists(run.layers@);
    let front = ls.take(run.layer as int);
    let done = graph::after(Set::empty(), front);
    lemma_layer_bounds(composition, run);
    lemma_in_layers_at(g, ls, run.layer as int);
    graph::lemma_in_layers_prefix(g, ls, run.layer as int);
    graph::lemma_layers_grow(g, front);
    graph::lemma_ready_list(g, done);
    let i = run.layers@[run.layer as int]@[k] as int;
    assert(ls[run.layer as int][k] == i);
    assert(graph::ready(g, done, ls[run.layer as int][k] as int));
    assert(ds[i][d] == composition.entries.entries@[i].1.depends_on@[d]@);
    assert(!names::faulty(known, ds, false, i, d));
    names::lemma_place(known, ds[i][d]);
    assert(done.contains(g[i][d] as int));
    let order = graph::flat(front);
    let m = choose|m: int| 0 <= m < order.len() && order[m] == g[i][d] as int;
    assert(ls[run.layer as int].take(0) =~= Seq::empty());
    assert(sagas_run(run) =~= order);
    assert(text::texts(run.context.completed_sagas@)[m] == known[order[m] as int]);
}

/// When a composition has failed, every saga that completed successfully has
/// been compensated, last first.
pub proof fn law_failed_composition_is_rolled_back(
    composition: SagaComposition,
    run: CompositionRun,
    name: Seq<char>,
)
    requires
        run.well_formed(composition),
        run.stage == CompositionStage::Ended,
        run.context.error is Some,
    ensures
        text::texts(run.context.compensated_sagas@) == text::texts(
            run.context.completed_sagas@,
        ).reverse(),
        run.context.saga_results@.contains_key(name) && run.context.saga_results@[name].status
            == SagaStatus::Completed <==> text::texts(run.context.compensated_sagas@).contains(
            name,
        ),
{
    let a = text::texts(run.context.completed_sagas@);
    let b = a.reverse();
    assert(a.contains(name) <==> run.context.saga_results@.contains_key(name)
        && run.context.saga_results@[name].status == SagaStatus::Completed);
    if a.contains(name) {
        let k = choose|k: int| 0 <= k < a.len() && a[k] == name;
        assert(b[a.len() - 1 - k] == name);
    }
    if b.contains(name) {
        let k = choose|k: int| 0 <= k < b.len() && b[k] == name;
        assert(a[a.len() - 1 - k] == name);
    }
}

/// A composition that succeeds has run every entry, each once and after all
/// that it depends on.
pub proof fn law_successful_composition_is_whole(
    composition: SagaComposition,
    run: CompositionRun,
    i: int,
)
    requires
        run.well_formed(composition),
        run.stage == CompositionStage::Ended,
        run.context.error is None,
        0 <= i < composition.entries.entries@.len(),
    ensures
        text::texts(run.context.completed_sagas@).contains(composition.entries.entries@[i].0@),
        run.context.completed_sagas@.len() == composition.entries.entries@.len(),
        graph::respects(entry_graph(composition), graph::flat(graph::lists(run.layers@))),
{
    let known = entry_names(composition);
    let g = entry_graph(composition);
    let order = graph::flat(graph::lists(run.layers@));
    graph::lemma_layers_grow(g, graph::lists(run.layers@));
    graph::lemma_grown_respects(g, order);
    assert(graph::members(order).contains(i));
    let k = choose|k: int| 0 <= k < order.len() && order[k] == i;
    assert(text::texts(run.context.completed_sagas@)[k] == known[i]);
    lemma_complete_len(g, order);
    assert(text::texts(run.context.completed_sagas@).len() == run.context.completed_sagas@.len());
}

proof fn lemma_complete_len(g: Seq<Seq<usize>>, order: Seq<usize>)
    requires
        graph::complete(g, order),
    ensures
        order.len() == g.len(),
{
    let numbers = order.map_values(|x: usize| x as int);
    assert(numbers.no_duplicates()) by {
        assert forall|a: int, b: int|
            0 <= a < numbers.len() && 0 <= b < numbers.len() && a != b implies numbers[a]
            != numbers[b] by {
            assert(order[a] != order[b]);
        }
    }
    numbers.unique_seq_to_set();
    assert(numbers.to_set() =~= vstd::set_lib::set_int_range(0, g.len() as int)) by {
        assert forall|i: int| numbers.to_set().contains(i) <==> 0 <= i < g.len() by {
            if numbers.to_set().contains(i) {
                let k = choose|k: int| 0 <= k < numbers.len() && numbers[k] == i;
                assert(order[k] < g.len());
            }
            if 0 <= i < g.len() {
                assert(graph::members(order).contains(i));
                let k = choose|k: int| 0 <= k < order.len() && order[k] == i;
                assert(numbers[k] == i);
            }
        }
    }
    vstd::set_lib::lemma_int_range(0, g.len() as int);
}

/// A valid composition always starts: it never ends with the error that its
/// dependencies have no order.
pub proof fn law_valid_composition_starts(
    composition: SagaComposition,
    input: Value,
    run: CompositionRun,
)
    requires
        composition_valid(composition),
        begun(composition, input, run),
    ensures
        run.stage == CompositionStage::Running,
        run.context.error is None,
{
    lemma_sound_is_faultless(composition);
}

/// What the last data flow of an entry does to the input of its saga. With a
/// target key, the value of the source stands under that key and every other
/// member is what it was; without one, the members of an object enter one by
/// one and anything else stands under the name of the source saga. A flow
/// whose source has no value changes nothing.
///
/// `input` is the input of `entry`, and `before` that of an entry without the
/// last flow.
pub proof fn law_target_key_receives_the_value(
    entry: CompositionEntry,
    earlier: CompositionEntry,
    results: Map<Seq<char>, TextMap<Value>>,
    initial: ValueView,
    before: ValueView,
    input: ValueView,
)
    requires
        entry.data_flows@.len() > 0,
        earlier.data_flows@ == entry.data_flows@.drop_last(),
        is_resolved_input(earlier, results, initial, before),
        is_resolved_input(entry, results, initial, input),
    ensures
        input is Object,
        ({
            let flow = entry.data_flows@.last();
            let source = flow.source_saga@;
            let found = results.contains_key(source) && (flow.source_step matches Some(step)
                ==> results[source]@.contains_key(step@));
            let steps = results[source]@;
            &&& !found ==> forall|k: Seq<char>| #[trigger]
                value::field_of(input, k) == value::field_of(before, k)
            &&& found && flow.target_key is Some ==> {
                let key = flow.target_key->0@;
                &&& flow.source_step matches Some(step) ==> value::field_of(input, key) == Some(
                    steps[step@].model(),
                )
                &&& flow.source_step is None ==> {
                    &&& value::field_of(input, key) matches Some(v) && v is Object
                    &&& forall|k: Seq<char>| #[trigger]
                        value::field_of(value::field_of(input, key)->0, k) == if steps.contains_key(
                            k,
                        ) {
                            Some(steps[k].model())
                        } else {
                            None
                        }
                }
                &&& forall|k: Seq<char>|
                    k != key ==> #[trigger] value::field_of(input, k) == value::field_of(before, k)
            }
            &&& found && flow.target_key is None && flow.source_step is None ==> forall|
                k: Seq<char>,
            | #[trigger]
                value::field_of(input, k) == if steps.contains_key(k) {
                    Some(steps[k].model())
                } else {
                    value::field_of(before, k)
                }
            &&& found && flow.target_key is None && flow.source_step is Some ==> {
                let v = steps[flow.source_step->0@].model();
                forall|k: Seq<char>| #[trigger]
                    value::field_of(input, k) == if v is Object && value::field_of(v, k) is Some {
                        value::field_of(v, k)
                    } else if !(v is Object) && k == source {
                        Some(v)
                    } else {
                        value::field_of(before, k)
                    }
            }
        }),
{
    let flow = entry.data_flows@.last();
    let source = flow.source_saga@;
    let base = step_context::members_map(Some(initial));
    let prior = with_flows(base, entry.data_flows@.drop_last(), results);
    let after = with_flows(base, entry.data_flows@, results);
    assert(after == with_flow(prior, flow, results));
    if results.contains_key(source) {
        step_context::lemma_is_object_of(results[source]);
        assert forall|k: Seq<char>| #[trigger]
            value::field_of(Value::Object(results[source]).model(), k) == step_context::entry(
                step_context::values_of(results[source]),
                k,
            ) by {}
    }
    assert forall|k: Seq<char>| #[trigger]
        value::field_of(input, k) == step_context::entry(after, k) && value::field_of(before, k)
            == step_context::entry(prior, k) by {}
}

/// An entry is sound exactly when everything it depends on, and every source
/// of its data flows, is the name of an entry.
pub proof fn law_sound_entries_refer_to_entries(known: Seq<Seq<char>>, entry: CompositionEntry)
    ensures
        entry_sound(known, entry) <==> {
            &&& forall|k: int|
                0 <= k < entry.depends_on@.len() ==> known.contains(
                    (#[trigger] entry.depends_on@[k])@,
                )
            &&& forall|k: int|
                0 <= k < entry.data_flows@.len() ==> known.contains(
                    (#[trigger] entry.data_flows@[k]).source_saga@,
                )
        },
{
    assert forall|name: Seq<char>| #[trigger] names::place(known, name) >= 0 <==> known.contains(
        name,
    ) by {
        names::lemma_place(known, name);
        if names::place(known, name) >= 0 {
            assert(known[names::place(known, name)] == name);
        }
    }
    if entry_sound(known, entry) {
        assert forall|k: int| 0 <= k < entry.depends_on@.len() implies known.contains(
            (#[trigger] entry.depends_on@[k])@,
        ) by {
            assert(dep_known(known, entry, k));
        }
        assert forall|k: int| 0 <= k < entry.data_flows@.len() implies known.contains(
            (#[trigger] entry.data_flows@[k]).source_saga@,
        ) by {
            assert(flow_known(known, entry, k));
        }
    }
}

/// Why a composition is refused. It has no entries; or an entry depends on
/// something that is no entry; or a data flow comes from something that is no
/// entry; or, where all names are known, the dependencies form a cycle.
pub proof fn law_refusals_name_their_reason(composition: SagaComposition, error: CompositionError)
    requires
        is_composition_error(composition, error),
    ensures
        ({
            let entries = composition.entries.entries@;
            let known = text_map::keys_of(entries);
            &&& error is Empty <==> entries.len() == 0
            &&& error matches CompositionError::UnknownDependency {
                composition: c,
                entry,
                dependency,
            } ==> {
                &&& c == composition.name
                &&& !known.contains(dependency@)
                &&& exists|i: int|
                    0 <= i < entries.len() && (#[trigger] entries[i]).0 == entry
                        && entries[i].1.depends_on@.contains(dependency)
            }
            &&& error matches CompositionError::UnknownDataFlowSource {
                composition: c,
                entry,
                source_saga,
            } ==> {
                &&& c == composition.name
                &&& !known.contains(source_saga@)
                &&& exists|i: int, k: int|
                    0 <= i < entries.len() && entries[i].0 == entry && 0 <= k
                        < entries[i].1.data_flows@.len() && (
                    #[trigger] entries[i].1.data_flows@[k]).source_saga == source_saga
            }
            &&& error is Cycle ==> graph::cyclic(entry_graph(composition)) && forall|i: int, k: int|
                0 <= i < entries.len() && 0 <= k < entries[i].1.depends_on@.len()
                    ==> known.contains((#[trigger] entries[i].1.depends_on@[k])@)
        }),
{
    let entries = composition.entries.entries@;
    let known = entry_names(composition);
    assert forall|name: Seq<char>| #[trigger] names::place(known, name) >= 0 <==> known.contains(
        name,
    ) by {
        names::lemma_place(known, name);
        if names::place(known, name) >= 0 {
            assert(known[names::place(known, name)] == name);
        }
    }
    match error {
        CompositionError::UnknownDependency { entry, dependency, .. } => {
            let (i, k) = choose|i: int, k: int|
                {
                    &&& 0 <= i < entries.len()
                    &&& entries_sound(composition, i)
                    &&& 0 <= k < entries[i].1.depends_on@.len()
                    &&& !#[trigger] dep_known(known, entries[i].1, k)
                    &&& forall|j: int| 0 <= j < k ==> #[trigger] dep_known(known, entries[i].1, j)
                    &&& entry == entries[i].0
                    &&& dependency == entries[i].1.depends_on@[k]
                };
            assert(entries[i].1.depends_on@.contains(dependency));
        },
        CompositionError::UnknownDataFlowSource { entry, source_saga, .. } => {
            let (i, k) = choose|i: int, k: int|
                {
                    &&& 0 <= i < entries.len()
                    &&& entries_sound(composition, i)
                    &&& deps_known(known, entries[i].1)
                    &&& 0 <= k < entries[i].1.data_flows@.len()
                    &&& !#[trigger] flow_known(known, entries[i].1, k)
                    &&& forall|j: int| 0 <= j < k ==> #[trigger] flow_known(known, entries[i].1, j)
                    &&& entry == entries[i].0
                    &&& source_saga == entries[i].1.data_flows@[k].source_saga
                };
            assert(entries[i].1.data_flows@[k].source_saga == source_saga);
        },
        CompositionError::Cycle { .. } => {
            assert forall|i: int, k: int|
                0 <= i < entries.len() && 0 <= k < entries[i].1.depends_on@.len() implies
            known.contains((#[trigger] entries[i].1.depends_on@[k])@) by {
                assert(entry_sound(known, entries[i].1));
                assert(dep_known(known, entries[i].1, k));
            }
        },
        _ => {},
    }
}

/// The recorded inputs are those that were handed out: a saga's is that of the
/// last task for it, and the others are as they were.
pub proof fn law_inputs_are_recorded_by_saga(
    inputs: Map<Seq<char>, ValueView>,
    tasks: Seq<SagaTask>,
    task: SagaTask,
    name: Seq<char>,
)
    ensures
        inputs_after(inputs, Seq::empty()) == inputs,
        inputs_after(inputs, tasks.push(task)).contains_key(task.saga@),
        inputs_after(inputs, tasks.push(task))[task.saga@] == task.facts@.input,
        name != task.saga@ ==> (inputs_after(inputs, tasks.push(task)).contains_key(name)
            <==> inputs_after(inputs, tasks).contains_key(name)) && inputs_after(
            inputs,
            tasks.push(task),
        )[name] == inputs_after(inputs, tasks)[name],
{
    assert(tasks.push(task).drop_last() =~= tasks);
}

/// A dependency map can be laid out in layers exactly when everything that is
/// depended on is a key and there is no cycle.
pub proof fn law_layers_need_known_names_and_no_cycle(deps: TextMap<Vec<String>>)
    requires
        deps.well_formed(),
    ensures
        deps_orderable(deps) <==> {
            let known = text_map::keys_of(deps.entries@);
            &&& forall|i: int, k: int|
                0 <= i < deps.entries@.len() && 0 <= k < deps.entries@[i].1@.len()
                    ==> known.contains((#[trigger] deps.entries@[i].1@[k])@)
            &&& !graph::cyclic(names::resolved(known, lists_in_order(deps)))
        },
{
    let known = text_map::keys_of(deps.entries@);
    let rows = lists_in_order(deps);
    assert forall|name: Seq<char>| #[trigger] names::place(known, name) >= 0 <==> known.contains(
        name,
    ) by {
        names::lemma_place(known, name);
        if names::place(known, name) >= 0 {
            assert(known[names::place(known, name)] == name);
        }
    }
    if names::faultless(known, rows, false) {
        assert forall|i: int, k: int|
            0 <= i < deps.entries@.len() && 0 <= k < deps.entries@[i].1@.len() implies
        known.contains((#[trigger] deps.entries@[i].1@[k])@) by {
            assert(rows[i][k] == deps.entries@[i].1@[k]@);
            assert(!names::faulty(known, rows, false, i, k));
        }
    }
    if forall|i: int, k: int|
        0 <= i < deps.entries@.len() && 0 <= k < deps.entries@[i].1@.len() ==> known.contains(
            (#[trigger] deps.entries@[i].1@[k])@,
        ) {
        assert forall|i: int, k: int|
            0 <= i < rows.len() && 0 <= k < rows[i].len() implies !#[trigger] names::faulty(
            known,
            rows,
            false,
            i,
            k,
        ) by {
            assert(rows[i][k] == deps.entries@[i].1@[k]@);
        }
    }
}

/// A run whose dependencies have no order ends before anything ran, with that
/// error; any other starts with nothing done.
pub proof fn law_runs_without_order_end_at_once(
    composition: SagaComposition,
    input: Value,
    run: CompositionRun,
)
    requires
        begun(composition, input, run),
    ensures
        run.stage == CompositionStage::Running <==> run.context.error is None,
        run.stage == CompositionStage::Ended <==> run.context.error is Some,
        graph::cyclic(entry_graph(composition)) ==> run.context.error is Some,
        run.context.completed_sagas@.len() == 0,
        run.context.compensated_sagas@.len() == 0,
        run.context.error is Some ==> run.context.error->0@ == "composition "@ + text::debug_text(
            composition.name@,
        ) + ": dependency cycle detected"@,
{
}

/// A saga runs under its own name and the id of the run, with the input that
/// was resolved for it and nothing else, and is registered or not.
pub proof fn law_tasks_carry_their_own_saga(
    compositor: SagaCompositor,
    composition: SagaComposition,
    run: CompositionRun,
    k: int,
    task: SagaTask,
)
    requires
        is_task(compositor, composition, run, k, task),
        0 <= run.layers@[run.layer as int]@[k] < composition.entries.entries@.len(),
    ensures
        task.saga@ == composition.entries.entries@[run.layers@[run.layer as int]@[k] as int].0@,
        task.registered <==> compositor.sagas@.contains_key(task.saga@),
        task.facts@.correlation_id == run.context.correlation_id@,
        task.facts@.results.dom() == Set::<Seq<char>>::empty(),
        task.facts@.variables.dom() == Set::<Seq<char>>::empty(),
        task.facts@.headers.dom() == Set::<Seq<char>>::empty(),
        composition.entries.entries@[run.layers@[run.layer as int]@[k] as int].1.data_flows@.len()
            == 0 ==> task.facts@.input == run.input.model(),
{
    assert(task.facts@.results.dom() =~= Set::<Seq<char>>::empty());
    assert(task.facts@.variables.dom() =~= Set::<Seq<char>>::empty());
    assert(task.facts@.headers.dom() =~= Set::<Seq<char>>::empty());
}

/// What a failed composition reports: the saga that failed first, the
/// composition, and the error of the saga, or that it is unknown.
pub proof fn law_failures_name_saga_and_composition(
    saga: Seq<char>,
    composition: Seq<char>,
    error: Option<String>,
)
    ensures
        error matches Some(message) ==> composition_failure_text(saga, composition, error)
            == "saga "@ + text::debug_text(saga) + " failed in composition "@ + text::debug_text(
            composition,
        ) + ": "@ + message@,
        error is None ==> composition_failure_text(saga, composition, error) == "saga "@
            + text::debug_text(saga) + " failed in composition "@ + text::debug_text(composition)
            + ": "@ + "unknown"@,
{
}

} // verus!
