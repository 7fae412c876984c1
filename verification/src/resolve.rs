//! The order in which plugins start: each after those it depends on, and
//! otherwise in the order in which they were registered.

use crate::graph;
use crate::graph::lowest_first_order;
use crate::names;
use crate::names::{first_fault, resolve};
use crate::text;
use crate::text::{clone_texts, quoted};
use vstd::prelude::*;
use vstd::string::*;

verus! {

/// Why plugins cannot be ordered.
#[derive(Debug)]
pub enum ResolutionError {
    /// A plugin depends on one that is not registered.
    MissingDependency {
        /// The plugin.
        plugin: String,
        /// What it depends on.
        missing: String,
    },
    /// The dependencies form a cycle.
    Cycle,
}

/// The message of a resolution error.
pub open spec fn resolution_error_text(error: ResolutionError) -> Seq<char> {
    match error {
        ResolutionError::MissingDependency { plugin, missing } => "plugin "@ + text::debug_text(
            plugin@,
        ) + " depends on missing plugin "@ + text::debug_text(missing@),
        ResolutionError::Cycle => "plugin dependency cycle detected"@,
    }
}

impl ResolutionError {
    /// The message of the error.
    pub fn to_string(&self) -> (message: String)
        ensures
            message@ == resolution_error_text(*self),
    {
        match self {
            ResolutionError::MissingDependency { plugin, missing } => {
                let mut out: String = "plugin ".to_owned();
                out.append(quoted(plugin.as_str()).as_str());
                out.append(" depends on missing plugin ");
                out.append(quoted(missing.as_str()).as_str());
                out
            },
            ResolutionError::Cycle => "plugin dependency cycle detected".to_owned(),
        }
    }
}

/// The names of some plugins.
pub open spec fn node_names(nodes: Seq<(String, Vec<String>)>) -> Seq<Seq<char>> {
    Seq::new(nodes.len(), |i: int| nodes[i].0@)
}

/// What each of some plugins depends on.
pub open spec fn node_deps(nodes: Seq<(String, Vec<String>)>) -> Seq<Seq<Seq<char>>> {
    Seq::new(nodes.len(), |i: int| text::texts(nodes[i].1@))
}

/// Whether an order of plugins starts, at every turn, the first registered one
/// whose dependencies have been started, until all have.
pub open spec fn is_start_order(
    names: Seq<Seq<char>>,
    deps: Seq<Seq<Seq<char>>>,
    order: Seq<usize>,
) -> bool {
    let graph = names::resolved(names, deps);
    &&& names::faultless(names, deps, false)
    &&& graph::lowest_first(graph, order)
    &&& graph::complete(graph, order)
}

/// Whether plugins cannot be ordered for a reason: the first dependency that
/// names no plugin, or else a cycle.
pub open spec fn is_refused(
    names: Seq<Seq<char>>,
    deps: Seq<Seq<Seq<char>>>,
    error: ResolutionError,
) -> bool {
    match error {
        ResolutionError::MissingDependency { plugin, missing } => exists|i: int, k: int|
            {
                &&& #[trigger] names::first_fault_at(names, deps, false, i, k)
                &&& plugin@ == names[i]
                &&& missing@ == deps[i][k]
            },
        ResolutionError::Cycle => names::faultless(names, deps, false) && graph::cyclic(
            names::resolved(names, deps),
        ),
    }
}

fn split_names(nodes: &Vec<(String, Vec<String>)>) -> (list: Vec<String>)
    ensures
        text::texts(list@) == node_names(nodes@),
{
    let mut out: Vec<String> = Vec::new();
    let mut i: usize = 0;
    while i < nodes.len()
        invariant
            i <= nodes@.len(),
            out@.len() == i,
            forall|k: int| 0 <= k < i ==> (#[trigger] out@[k])@ == nodes@[k].0@,
        decreases nodes.len() - i,
    {
        out.push(nodes[i].0.clone());
        i += 1;
    }
    assert(text::texts(out@) =~= node_names(nodes@));
    out
}

fn split_deps(nodes: &Vec<(String, Vec<String>)>) -> (rows: Vec<Vec<String>>)
    ensures
        names::text_lists(rows@) == node_deps(nodes@),
{
    let mut out: Vec<Vec<String>> = Vec::new();
    let mut i: usize = 0;
    while i < nodes.len()
        invariant
            i <= nodes@.len(),
            out@.len() == i,
            forall|k: int|
                0 <= k < i ==> text::texts((#[trigger] out@[k])@) == text::texts(nodes@[k].1@),
        decreases nodes.len() - i,
    {
        out.push(clone_texts(&nodes[i].1));
        i += 1;
    }
    assert(names::text_lists(out@) =~= node_deps(nodes@));
    out
}

/// The order in which to start plugins, given with what they depend on in the
/// order in which they were registered.
pub fn topological_order(nodes: &Vec<(String, Vec<String>)>) -> (order: Result<
    Vec<usize>,
    ResolutionError,
>)
    ensures
        match order {
            Ok(list) => is_start_order(node_names(nodes@), node_deps(nodes@), list@),
            Err(error) => is_refused(node_names(nodes@), node_deps(nodes@), error),
        },
{
    let ns: Vec<String> = split_names(nodes);
    let ds: Vec<Vec<String>> = split_deps(nodes);
    let ghost names_view = node_names(nodes@);
    let ghost deps_view = node_deps(nodes@);
    proof {
        assert(text::texts(ns@).len() == ns@.len());
        assert(names::text_lists(ds@).len() == ds@.len());
    }
    if let Some((i, k)) = first_fault(&ns, &ds, false) {
        proof {
            assert(names::first_fault_at(names_view, deps_view, false, i as int, k as int));
            assert(names_view[i as int] == nodes@[i as int].0@);
            assert(deps_view[i as int][k as int] == nodes@[i as int].1@[k as int]@);
        }
        return Err(
            ResolutionError::MissingDependency {
                plugin: nodes[i].0.clone(),
                missing: nodes[i].1[k].clone(),
            },
        );
    }
    let g: Vec<Vec<usize>> = resolve(&ns, &ds);
    let order: Vec<usize> = lowest_first_order(&g);
    proof {
        assert(graph::lists(g@).len() == g@.len());
        assert(g@.len() == g.len());
        graph::lemma_lowest_first_order(graph::lists(g@), order@);
        graph::lemma_lowest_first_length(graph::lists(g@), order@);
    }
    if order.len() != g.len() {
        return Err(ResolutionError::Cycle);
    }
    Ok(order)
}

/// Every plugin starts after all that it depends on, and none starts twice.
pub proof fn law_dependencies_start_first(
    names: Seq<Seq<char>>,
    deps: Seq<Seq<Seq<char>>>,
    order: Seq<usize>,
)
    requires
        names.len() == deps.len(),
        names.len() <= usize::MAX,
        is_start_order(names, deps, order),
    ensures
        order.no_duplicates(),
        graph::respects(names::resolved(names, deps), order),
{
    names::lemma_resolved_closed(names, deps);
    graph::lemma_lowest_first_order(names::resolved(names, deps), order);
}

/// Plugins that depend on nothing start in the order in which they were
/// registered.
pub proof fn law_no_dependencies_keep_registration_order(
    names: Seq<Seq<char>>,
    deps: Seq<Seq<Seq<char>>>,
    order: Seq<usize>,
)
    requires
        names.len() == deps.len(),
        names.len() <= usize::MAX,
        forall|i: int| 0 <= i < deps.len() ==> (#[trigger] deps[i]).len() == 0,
        is_start_order(names, deps, order),
    ensures
        order == graph::numbers(names.len()),
{
    let g = names::resolved(names, deps);
    graph::lemma_lowest_first_unneeding(g, order);
}

/// Plugins have one start order.
pub proof fn law_start_order_is_unique(
    names: Seq<Seq<char>>,
    deps: Seq<Seq<Seq<char>>>,
    a: Seq<usize>,
    b: Seq<usize>,
)
    requires
        names.len() == deps.len(),
        names.len() <= usize::MAX,
        is_start_order(names, deps, a),
        is_start_order(names, deps, b),
    ensures
        a == b,
{
    graph::lemma_lowest_first_unique(names::resolved(names, deps), a, b);
}

/// Plugins either have a start order or are refused, never both.
pub proof fn law_refused_plugins_have_no_order(
    names: Seq<Seq<char>>,
    deps: Seq<Seq<Seq<char>>>,
    error: ResolutionError,
    order: Seq<usize>,
)
    requires
        names.len() == deps.len(),
        names.len() <= usize::MAX,
        is_refused(names, deps, error),
    ensures
        !is_start_order(names, deps, order),
{
    if is_start_order(names, deps, order) {
        names::lemma_resolved_closed(names, deps);
        graph::lemma_lowest_first_order(names::resolved(names, deps), order);
        if let ResolutionError::MissingDependency { plugin, missing } = error {
            let (i, k) = choose|i: int, k: int|
                {
                    &&& #[trigger] names::first_fault_at(names, deps, false, i, k)
                    &&& plugin@ == names[i]
                    &&& missing@ == deps[i][k]
                };
            assert(names::faulty(names, deps, false, i, k));
        }
    }
}

/// A plugin starts after every plugin that its dependencies name, and every
/// dependency names one.
pub proof fn law_named_dependencies_start_before(
    names: Seq<Seq<char>>,
    deps: Seq<Seq<Seq<char>>>,
    order: Seq<usize>,
    x: int,
    y: int,
)
    requires
        names.len() == deps.len(),
        names.len() <= usize::MAX,
        names.no_duplicates(),
        is_start_order(names, deps, order),
        0 <= x < order.len(),
        0 <= y < order.len(),
    ensures
        deps[order[y] as int].contains(names[order[x] as int]) ==> x < y,
        forall|k: int|
            0 <= k < deps[order[y] as int].len() ==> names.contains(
                #[trigger] deps[order[y] as int][k],
            ),
{
    law_dependencies_start_first(names, deps, order);
    let a = order[y] as int;
    let b = order[x] as int;
    assert(a < names.len() && b < names.len());
    names::law_needs_are_the_named_dependencies(names, deps, a, b);
    if deps[a].contains(names[b]) {
        graph::law_needed_nodes_stand_before(names::resolved(names, deps), order, x, y);
    }
    assert forall|k: int| 0 <= k < deps[a].len() implies names.contains(#[trigger] deps[a][k]) by {
        assert(!names::faulty(names, deps, false, a, k));
        names::law_faults_are_unknown_names(names, deps, a, k);
    }
}

/// At every turn the earliest registered plugin that can start does: one that
/// was registered before it, and has not started, still waits for something.
pub proof fn law_the_earliest_that_can_start_does(
    names: Seq<Seq<char>>,
    deps: Seq<Seq<Seq<char>>>,
    order: Seq<usize>,
    k: int,
    i: int,
)
    requires
        names.len() == deps.len(),
        names.len() <= usize::MAX,
        is_start_order(names, deps, order),
        0 <= k < order.len(),
        0 <= i < order[k],
        !order.take(k).contains(i as usize),
    ensures
        exists|d: int|
            0 <= d < deps[i].len() && !order.take(k).contains(
                names::place(names, #[trigger] deps[i][d]) as usize,
            ),
{
    let g = names::resolved(names, deps);
    let done = graph::members(order.take(k));
    let list = graph::ready_list(g, done);
    graph::lemma_ready_list(g, done);
    assert(graph::lowest_at(g, order, k));
    assert(order[k] < g.len());
    if graph::ready(g, done, i) {
        assert(graph::members(list).contains(i));
        let m = choose|m: int| 0 <= m < list.len() && #[trigger] list[m] == i;
        if m > 0 {
            assert(list[0] < list[m]);
        }
    }
    if done.contains(i) {
        let m = choose|m: int| 0 <= m < order.take(k).len() && #[trigger] order.take(k)[m] == i;
        assert(order.take(k)[m] == i as usize);
    }
    assert(!graph::satisfied(g, done, i));
    let d = choose|d: int| 0 <= d < g[i].len() && !done.contains(#[trigger] g[i][d] as int);
    assert(!names::faulty(names, deps, false, i, d));
    let p = names::place(names, deps[i][d]) as usize;
    assert(g[i][d] == p);
    if order.take(k).contains(p) {
        let m = choose|m: int| 0 <= m < order.take(k).len() && order.take(k)[m] == p;
        assert(order.take(k)[m] == g[i][d] as int);
    }
}

/// Why plugins have no order: one depends on a name that no plugin has, or all
/// names are known and they depend on each other in a cycle.
pub proof fn law_refused_plugins_name_their_reason(
    names: Seq<Seq<char>>,
    deps: Seq<Seq<Seq<char>>>,
    error: ResolutionError,
)
    requires
        names.len() == deps.len(),
        is_refused(names, deps, error),
    ensures
        error matches ResolutionError::MissingDependency { plugin, missing } ==> !names.contains(
            missing@,
        ) && exists|i: int|
            0 <= i < names.len() && #[trigger] names[i] == plugin@ && deps[i].contains(missing@),
        error is Cycle ==> graph::cyclic(names::resolved(names, deps)) && forall|i: int, k: int|
            0 <= i < deps.len() && 0 <= k < deps[i].len() ==> names.contains(
                #[trigger] deps[i][k],
            ),
{
    match error {
        ResolutionError::MissingDependency { plugin, missing } => {
            let (i, k) = choose|i: int, k: int|
                {
                    &&& #[trigger] names::first_fault_at(names, deps, false, i, k)
                    &&& plugin@ == names[i]
                    &&& missing@ == deps[i][k]
                };
            names::lemma_place(names, deps[i][k]);
            assert(deps[i].contains(missing@));
        },
        ResolutionError::Cycle => {
            assert forall|i: int, k: int|
                0 <= i < deps.len() && 0 <= k < deps[i].len() implies names.contains(
                #[trigger] deps[i][k],
            ) by {
                assert(!names::faulty(names, deps, false, i, k));
                names::lemma_place(names, deps[i][k]);
                assert(names[names::place(names, deps[i][k])] == deps[i][k]);
            }
        },
    }
}

/// Plugins are taken as they are given: the names and what each depends on, in
/// their order.
pub proof fn law_nodes_are_taken_as_given(nodes: Seq<(String, Vec<String>)>, i: int, k: int)
    requires
        0 <= i < nodes.len(),
    ensures
        node_names(nodes).len() == nodes.len(),
        node_deps(nodes).len() == nodes.len(),
        node_names(nodes)[i] == nodes[i].0@,
        node_deps(nodes)[i].len() == nodes[i].1@.len(),
        0 <= k < nodes[i].1@.len() ==> node_deps(nodes)[i][k] == nodes[i].1@[k]@,
{
}

} // verus!
