//! Named nodes: where a name stands in a list, which names repeat, and the
//! numbered graph that named dependencies describe.

use crate::graph;
use crate::text;
use crate::text::position;
use vstd::prelude::*;

verus! {

/// The first place of `name` in `names`, or -1.
pub open spec fn place(names: Seq<Seq<char>>, name: Seq<char>) -> int
    decreases names.len(),
{
    if names.len() == 0 {
        -1
    } else {
        let earlier = place(names.drop_last(), name);
        if earlier >= 0 {
            earlier
        } else if names.last() == name {
            names.len() - 1
        } else {
            -1
        }
    }
}

/// What a place says of the list.
pub proof fn lemma_place(names: Seq<Seq<char>>, name: Seq<char>)
    ensures
        -1 <= place(names, name) < names.len(),
        place(names, name) >= 0 ==> {
            &&& names[place(names, name)] == name
            &&& forall|j: int| 0 <= j < place(names, name) ==> names[j] != name
        },
        place(names, name) < 0 ==> forall|j: int| 0 <= j < names.len() ==> names[j] != name,
    decreases names.len(),
{
    if names.len() > 0 {
        lemma_place(names.drop_last(), name);
        let p = place(names.drop_last(), name);
        assert forall|j: int| 0 <= j < names.len() - 1 implies names[j] == names.drop_last()[j] by {}
        if p < 0 && names.last() != name {
            assert forall|j: int| 0 <= j < names.len() implies names[j] != name by {
                if j < names.len() - 1 {
                    assert(names.drop_last()[j] != name);
                }
            }
        }
        if p < 0 && names.last() == name {
            assert forall|j: int| 0 <= j < names.len() - 1 implies names[j] != name by {
                assert(names.drop_last()[j] != name);
            }
        }
        if p >= 0 {
            assert forall|j: int| 0 <= j < p implies names[j] != name by {
                assert(names.drop_last()[j] != name);
            }
        }
    }
}

/// A place is fixed by what it says.
pub proof fn lemma_place_is(names: Seq<Seq<char>>, name: Seq<char>, p: int)
    requires
        0 <= p < names.len(),
        names[p] == name,
        forall|j: int| 0 <= j < p ==> names[j] != name,
    ensures
        place(names, name) == p,
{
    lemma_place(names, name);
    let q = place(names, name);
    if q < 0 {
        assert(names[p] != name);
    } else if q < p {
        assert(names[q] != name);
    } else if p < q {
        assert(names[p] != name);
    }
}

/// Finds the first place of a name.
pub fn find(names: &Vec<String>, name: &str) -> (at: Option<usize>)
    ensures
        match at {
            Some(i) => i == place(text::texts(names@), name@) && i < names@.len(),
            None => place(text::texts(names@), name@) < 0,
        },
{
    let at = position(names, name);
    proof {
        let view = text::texts(names@);
        match at {
            Some(i) => {
                assert forall|j: int| 0 <= j < i implies view[j] != name@ by {
                    assert(names@[j]@ != name@);
                }
                lemma_place_is(view, name@, i as int);
            },
            None => {
                lemma_place(view, name@);
                let p = place(view, name@);
                if p >= 0 {
                    assert(names@[p]@ == name@);
                }
            },
        }
    }
    at
}

/// Whether the name at `i` stands earlier in the list too.
pub open spec fn repeats(names: Seq<Seq<char>>, i: int) -> bool {
    0 <= place(names, names[i]) < i
}

/// Whether no name stands twice.
pub open spec fn distinct(names: Seq<Seq<char>>) -> bool {
    forall|i: int| 0 <= i < names.len() ==> !#[trigger] repeats(names, i)
}

/// Distinctness in terms of pairs.
pub proof fn lemma_distinct(names: Seq<Seq<char>>)
    ensures
        distinct(names) <==> names.no_duplicates(),
{
    if distinct(names) {
        assert forall|a: int, b: int| 0 <= a < b < names.len() implies names[a] != names[b] by {
            assert(!repeats(names, b));
            lemma_place(names, names[b]);
        }
    }
    if names.no_duplicates() {
        assert forall|i: int| 0 <= i < names.len() implies !#[trigger] repeats(names, i) by {
            lemma_place(names, names[i]);
        }
    }
}

/// Finds the first name that stands earlier in the list too.
pub fn first_repeat(names: &Vec<String>) -> (at: Option<usize>)
    ensures
        match at {
            Some(i) => {
                &&& i < names@.len()
                &&& repeats(text::texts(names@), i as int)
                &&& forall|j: int| 0 <= j < i ==> !#[trigger] repeats(text::texts(names@), j)
            },
            None => distinct(text::texts(names@)),
        },
{
    let mut i: usize = 0;
    while i < names.len()
        invariant
            i <= names@.len(),
            forall|j: int| 0 <= j < i ==> !#[trigger] repeats(text::texts(names@), j),
        decreases names.len() - i,
    {
        let at = find(names, names[i].as_str());
        proof {
            lemma_place(text::texts(names@), names@[i as int]@);
            assert(text::texts(names@)[i as int] == names@[i as int]@);
        }
        if let Some(p) = at {
            if p < i {
                return Some(i);
            }
        }
        i += 1;
    }
    None
}

/// The texts of each list of a list of lists.
pub open spec fn text_lists(rows: Seq<Vec<String>>) -> Seq<Seq<Seq<char>>> {
    Seq::new(rows.len(), |i: int| text::texts(rows[i]@))
}

/// Whether dependency `k` of node `i` names no node, or, where that counts as
/// a fault, the node itself.
pub open spec fn faulty(
    names: Seq<Seq<char>>,
    deps: Seq<Seq<Seq<char>>>,
    loops_are_faults: bool,
    i: int,
    k: int,
) -> bool {
    let p = place(names, deps[i][k]);
    p < 0 || (loops_are_faults && p == i)
}

/// Whether no dependency is faulty.
pub open spec fn faultless(
    names: Seq<Seq<char>>,
    deps: Seq<Seq<Seq<char>>>,
    loops_are_faults: bool,
) -> bool {
    forall|i: int, k: int|
        0 <= i < deps.len() && 0 <= k < deps[i].len() ==> !#[trigger] faulty(
            names,
            deps,
            loops_are_faults,
            i,
            k,
        )
}

/// Whether the first fault, node by node and dependency by dependency, is
/// dependency `k` of node `i`.
pub open spec fn first_fault_at(
    names: Seq<Seq<char>>,
    deps: Seq<Seq<Seq<char>>>,
    loops_are_faults: bool,
    i: int,
    k: int,
) -> bool {
    &&& 0 <= i < deps.len()
    &&& 0 <= k < deps[i].len()
    &&& faulty(names, deps, loops_are_faults, i, k)
    &&& forall|a: int, b: int|
        0 <= a < deps.len() && 0 <= b < deps[a].len() && (a < i || (a == i && b < k))
            ==> !#[trigger] faulty(names, deps, loops_are_faults, a, b)
}

/// Finds the first faulty dependency.
pub fn first_fault(names: &Vec<String>, deps: &Vec<Vec<String>>, loops_are_faults: bool) -> (at:
    Option<(usize, usize)>)
    ensures
        match at {
            Some(p) => first_fault_at(
                text::texts(names@),
                text_lists(deps@),
                loops_are_faults,
                p.0 as int,
                p.1 as int,
            ),
            None => faultless(text::texts(names@), text_lists(deps@), loops_are_faults),
        },
{
    let ghost ns = text::texts(names@);
    let ghost ds = text_lists(deps@);
    let mut i: usize = 0;
    while i < deps.len()
        invariant
            i <= deps@.len(),
            ns == text::texts(names@),
            ds == text_lists(deps@),
            forall|a: int, b: int|
                0 <= a < i && 0 <= b < ds[a].len() ==> !#[trigger] faulty(
                    ns,
                    ds,
                    loops_are_faults,
                    a,
                    b,
                ),
        decreases deps.len() - i,
    {
        let mut k: usize = 0;
        while k < deps[i].len()
            invariant
                i < deps@.len(),
                k <= deps@[i as int]@.len(),
                ns == text::texts(names@),
                ds == text_lists(deps@),
                forall|a: int, b: int|
                    0 <= a < ds.len() && 0 <= b < ds[a].len() && (a < i || (a == i && b < k))
                        ==> !#[trigger] faulty(ns, ds, loops_are_faults, a, b),
            decreases deps@[i as int]@.len() - k,
        {
            let at = find(names, deps[i][k].as_str());
            assert(ds[i as int][k as int] == deps@[i as int]@[k as int]@);
            let bad: bool = match at {
                Some(p) => loops_are_faults && p == i,
                None => true,
            };
            assert(bad == faulty(ns, ds, loops_are_faults, i as int, k as int));
            if bad {
                return Some((i, k));
            }
            k += 1;
        }
        i += 1;
    }
    None
}

/// The numbered graph that named dependencies describe.
pub open spec fn resolved(names: Seq<Seq<char>>, deps: Seq<Seq<Seq<char>>>) -> Seq<Seq<usize>> {
    Seq::new(
        deps.len(),
        |i: int| Seq::new(deps[i].len(), |k: int| place(names, deps[i][k]) as usize),
    )
}

/// Numbers the dependencies of named nodes.
pub fn resolve(names: &Vec<String>, deps: &Vec<Vec<String>>) -> (graph: Vec<Vec<usize>>)
    requires
        names@.len() == deps@.len(),
        faultless(text::texts(names@), text_lists(deps@), false),
    ensures
        graph::lists(graph@) == resolved(text::texts(names@), text_lists(deps@)),
        graph::closed_graph(graph::lists(graph@)),
{
    let ghost ns = text::texts(names@);
    let ghost ds = text_lists(deps@);
    let mut out: Vec<Vec<usize>> = Vec::new();
    let mut i: usize = 0;
    while i < deps.len()
        invariant
            i <= deps@.len(),
            names@.len() == deps@.len(),
            ns == text::texts(names@),
            ds == text_lists(deps@),
            faultless(ns, ds, false),
            out@.len() == i,
            forall|a: int| 0 <= a < i ==> (#[trigger] out@[a])@ == resolved(ns, ds)[a],
        decreases deps.len() - i,
    {
        let mut row: Vec<usize> = Vec::new();
        let mut k: usize = 0;
        while k < deps[i].len()
            invariant
                i < deps@.len(),
                k <= deps@[i as int]@.len(),
                ns == text::texts(names@),
                ds == text_lists(deps@),
                faultless(ns, ds, false),
                row@.len() == k,
                forall|b: int|
                    0 <= b < k ==> #[trigger] row@[b] == place(ns, ds[i as int][b]) as usize,
            decreases deps@[i as int]@.len() - k,
        {
            assert(!faulty(ns, ds, false, i as int, k as int));
            assert(ds[i as int][k as int] == deps@[i as int]@[k as int]@);
            let at = find(names, deps[i][k].as_str());
            match at {
                Some(p) => row.push(p),
                None => row.push(0),
            }
            k += 1;
        }
        assert(row@ =~= resolved(ns, ds)[i as int]);
        out.push(row);
        i += 1;
    }
    proof {
        assert(graph::lists(out@) =~= resolved(ns, ds));
        lemma_resolved_closed(ns, ds);
    }
    out
}

/// Numbered dependencies name nodes of the graph.
pub proof fn lemma_resolved_closed(names: Seq<Seq<char>>, deps: Seq<Seq<Seq<char>>>)
    requires
        names.len() == deps.len(),
        names.len() <= usize::MAX,
        faultless(names, deps, false),
    ensures
        graph::closed_graph(resolved(names, deps)),
{
    let graph = resolved(names, deps);
    assert forall|i: int, k: int| 0 <= i < graph.len() && 0 <= k < graph[i].len() implies (
    #[trigger] graph[i][k]) < graph.len() by {
        assert(!faulty(names, deps, false, i, k));
        lemma_place(names, deps[i][k]);
    }
}

/// A dependency is faulty exactly when it names no node or, where that counts
/// as a fault, the node itself; names stand once.
pub proof fn law_faults_are_unknown_names(
    names: Seq<Seq<char>>,
    deps: Seq<Seq<Seq<char>>>,
    i: int,
    k: int,
)
    requires
        names.no_duplicates(),
        0 <= i < names.len(),
    ensures
        faulty(names, deps, false, i, k) <==> !names.contains(deps[i][k]),
        faulty(names, deps, true, i, k) <==> !names.contains(deps[i][k]) || deps[i][k] == names[i],
{
    lemma_place(names, deps[i][k]);
    let p = place(names, deps[i][k]);
    if names.contains(deps[i][k]) {
        let j = choose|j: int| 0 <= j < names.len() && names[j] == deps[i][k];
        assert(p == j);
    }
}

/// Of names that stand once, a node needs another exactly when one of its
/// dependencies is the name of the other.
pub proof fn law_needs_are_the_named_dependencies(
    names: Seq<Seq<char>>,
    deps: Seq<Seq<Seq<char>>>,
    a: int,
    b: int,
)
    requires
        names.no_duplicates(),
        names.len() == deps.len(),
        names.len() <= usize::MAX,
        faultless(names, deps, false),
        0 <= a < names.len(),
        0 <= b < names.len(),
    ensures
        graph::needs(resolved(names, deps), a, b) <==> deps[a].contains(names[b]),
{
    let graph = resolved(names, deps);
    assert(graph[a].len() == deps[a].len());
    if graph::needs(graph, a, b) {
        let k = choose|k: int| 0 <= k < graph[a].len() && #[trigger] graph[a][k] == b;
        assert(!faulty(names, deps, false, a, k));
        lemma_place(names, deps[a][k]);
        assert(deps[a][k] == names[b]);
    }
    if deps[a].contains(names[b]) {
        let k = choose|k: int| 0 <= k < deps[a].len() && deps[a][k] == names[b];
        lemma_place(names, names[b]);
        assert(place(names, names[b]) == b);
        assert(graph[a][k] == b);
    }
}

/// The first fault is a dependency that no name matches, or one on the node
/// itself where that counts, and every dependency before it is in order.
pub proof fn law_the_first_fault_comes_first(
    names: Seq<Seq<char>>,
    deps: Seq<Seq<Seq<char>>>,
    loops_are_faults: bool,
    i: int,
    k: int,
)
    requires
        names.no_duplicates(),
        names.len() == deps.len(),
        first_fault_at(names, deps, loops_are_faults, i, k),
    ensures
        !names.contains(deps[i][k]) || (loops_are_faults && deps[i][k] == names[i]),
        forall|a: int, b: int|
            0 <= a <= i && 0 <= b < deps[a].len() && (a < i || b < k) ==> names.contains(
                #[trigger] deps[a][b],
            ) && (loops_are_faults ==> deps[a][b] != names[a]),
{
    law_faults_are_unknown_names(names, deps, i, k);
    assert forall|a: int, b: int|
        0 <= a <= i && 0 <= b < deps[a].len() && (a < i || b < k) implies names.contains(
        #[trigger] deps[a][b],
    ) && (loops_are_faults ==> deps[a][b] != names[a]) by {
        assert(!faulty(names, deps, loops_are_faults, a, b));
        law_faults_are_unknown_names(names, deps, a, b);
    }
}

} // verus!
