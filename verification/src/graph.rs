//! Dependency graphs over numbered nodes, and the orders that respect them.
//!
//! A graph is a list of nodes; each node lists the numbers of the nodes it
//! needs. All engines order their work through this module.

use vstd::prelude::*;

verus! {

/// Whether node `i` of `graph` needs node `j`.
pub open spec fn needs(graph: Seq<Seq<usize>>, i: int, j: int) -> bool {
    exists|k: int| 0 <= k < graph[i].len() && #[trigger] graph[i][k] == j
}

/// Whether every need names a node of the graph.
pub open spec fn closed_graph(graph: Seq<Seq<usize>>) -> bool {
    forall|i: int, k: int|
        0 <= i < graph.len() && 0 <= k < graph[i].len() ==> (#[trigger] graph[i][k])
            < graph.len()
}

/// Whether every node that `i` needs is among `done`.
pub open spec fn satisfied(graph: Seq<Seq<usize>>, done: Set<int>, i: int) -> bool {
    forall|k: int| 0 <= k < graph[i].len() ==> done.contains(#[trigger] graph[i][k] as int)
}

/// Whether node `i` is outstanding and every node it needs is done.
pub open spec fn ready(graph: Seq<Seq<usize>>, done: Set<int>, i: int) -> bool {
    &&& 0 <= i < graph.len()
    &&& !done.contains(i)
    &&& satisfied(graph, done, i)
}

/// A set of nodes of which each needs another of the set: none of them can
/// ever come first.
pub open spec fn stuck(graph: Seq<Seq<usize>>, nodes: Set<int>) -> bool {
    &&& exists|i: int| nodes.contains(i)
    &&& forall|i: int| #[trigger] nodes.contains(i) ==> 0 <= i < graph.len()
    &&& forall|i: int| #[trigger]
        nodes.contains(i) ==> exists|j: int| nodes.contains(j) && #[trigger] needs(graph, i, j)
}

/// Whether the needs of the graph form a cycle.
pub open spec fn cyclic(graph: Seq<Seq<usize>>) -> bool {
    exists|nodes: Set<int>| stuck(graph, nodes)
}

/// The set bits of a list of flags.
pub open spec fn marked(flags: Seq<bool>) -> Set<int> {
    Set::new(|i: int| 0 <= i < flags.len() && flags[i])
}

/// The nodes of a list.
pub open spec fn members(list: Seq<usize>) -> Set<int> {
    Set::new(|i: int| exists|k: int| 0 <= k < list.len() && #[trigger] list[k] == i)
}

/// Node numbers in increasing order.
pub open spec fn numbers(n: nat) -> Seq<usize> {
    Seq::new(n, |i: int| i as usize)
}

/// The nodes that are ready once `done` are done, in increasing order.
pub open spec fn ready_list(graph: Seq<Seq<usize>>, done: Set<int>) -> Seq<usize> {
    numbers(graph.len()).filter(|i: usize| ready(graph, done, i as int))
}

/// The nodes that are done after some layers.
pub open spec fn after(done: Set<int>, layers: Seq<Seq<usize>>) -> Set<int>
    decreases layers.len(),
{
    if layers.len() == 0 {
        done
    } else {
        after(done, layers.drop_last()).union(members(layers.last()))
    }
}

/// Whether each layer holds every node that is ready by then, in increasing
/// order.
pub open spec fn in_layers(
    graph: Seq<Seq<usize>>,
    done: Set<int>,
    layers: Seq<Seq<usize>>,
) -> bool
    decreases layers.len(),
{
    layers.len() > 0 ==> {
        &&& in_layers(graph, done, layers.drop_last())
        &&& layers.last().len() > 0
        &&& layers.last() == ready_list(graph, after(done, layers.drop_last()))
    }
}

/// Whether the layers run the graph for as long as anything is ready.
pub open spec fn layered(graph: Seq<Seq<usize>>, layers: Seq<Seq<usize>>) -> bool {
    &&& in_layers(graph, Set::empty(), layers)
    &&& ready_list(graph, after(Set::empty(), layers)).len() == 0
}

/// The layers one after another.
pub open spec fn flat(layers: Seq<Seq<usize>>) -> Seq<usize>
    decreases layers.len(),
{
    if layers.len() == 0 {
        Seq::empty()
    } else {
        flat(layers.drop_last()) + layers.last()
    }
}

/// Whether each node of `order` was ready when its turn came.
pub open spec fn grown(graph: Seq<Seq<usize>>, order: Seq<usize>) -> bool {
    forall|k: int|
        0 <= k < order.len() ==> ready(graph, members(order.take(k)), #[trigger] order[k] as int)
}

/// Whether `order` takes the lowest-numbered ready node at turn `k`.
pub open spec fn lowest_at(graph: Seq<Seq<usize>>, order: Seq<usize>, k: int) -> bool {
    let list = ready_list(graph, members(order.take(k)));
    list.len() > 0 && order[k] == list[0]
}

/// Whether `order` takes, at every turn, the lowest-numbered ready node, for
/// as long as anything is ready.
pub open spec fn lowest_first(graph: Seq<Seq<usize>>, order: Seq<usize>) -> bool {
    &&& forall|k: int| 0 <= k < order.len() ==> #[trigger] lowest_at(graph, order, k)
    &&& ready_list(graph, members(order)).len() == 0
}

/// Whether `order` lists every node once.
pub open spec fn complete(graph: Seq<Seq<usize>>, order: Seq<usize>) -> bool {
    &&& order.no_duplicates()
    &&& forall|k: int| 0 <= k < order.len() ==> (#[trigger] order[k]) < graph.len()
    &&& forall|i: int| 0 <= i < graph.len() ==> #[trigger] members(order).contains(i)
}

/// Whether in `order` every node comes after all that it needs.
pub open spec fn respects(graph: Seq<Seq<usize>>, order: Seq<usize>) -> bool {
    forall|k: int, j: int|
        0 <= k < order.len() && #[trigger] needs(graph, order[k] as int, j) ==> members(
            order.take(k),
        ).contains(j)
}

/// The contents of each list of a list of lists.
pub open spec fn lists(layers: Seq<Vec<usize>>) -> Seq<Seq<usize>> {
    Seq::new(layers.len(), |i: int| layers[i]@)
}

/// What the ready list holds, and that it is increasing.
pub proof fn lemma_ready_list(graph: Seq<Seq<usize>>, done: Set<int>)
    requires
        graph.len() <= usize::MAX,
    ensures
        forall|k: int|
            0 <= k < ready_list(graph, done).len() ==> ready(
                graph,
                done,
                #[trigger] ready_list(graph, done)[k] as int,
            ),
        forall|i: int| #[trigger] ready(graph, done, i) ==> members(ready_list(graph, done)).contains(i),
        forall|a: int, b: int|
            0 <= a < b < ready_list(graph, done).len() ==> (#[trigger] ready_list(graph, done)[a])
                < (#[trigger] ready_list(graph, done)[b]),
{
    let all = numbers(graph.len());
    let pred = |i: usize| ready(graph, done, i as int);
    let list = all.filter(pred);
    assert(list == ready_list(graph, done));
    lemma_filter_numbers(graph.len(), pred);
    assert forall|i: int| #[trigger] ready(graph, done, i) implies members(list).contains(i) by {
        assert(all[i] == i as usize);
        assert(pred(all[i]));
        all.lemma_filter_contains(pred, i);
        let k = choose|k: int| 0 <= k < list.len() && list[k] == all[i];
        assert(list[k] == i);
    }
}

proof fn lemma_filter_numbers(n: nat, pred: spec_fn(usize) -> bool)
    requires
        n <= usize::MAX,
    ensures
        forall|k: int|
            0 <= k < numbers(n).filter(pred).len() ==> pred(
                #[trigger] numbers(n).filter(pred)[k],
            ) && numbers(n).filter(pred)[k] < n,
        forall|a: int, b: int|
            0 <= a < b < numbers(n).filter(pred).len() ==> (#[trigger] numbers(n).filter(pred)[a])
                < (#[trigger] numbers(n).filter(pred)[b]),
    decreases n,
{
    reveal(Seq::filter);
    if n > 0 {
        let m: nat = (n - 1) as nat;
        lemma_filter_numbers(m, pred);
        assert(numbers(n).drop_last() =~= numbers(m));
        let prev = numbers(m).filter(pred);
        let list = numbers(n).filter(pred);
        assert(numbers(n).last() == m as usize);
        assert(list == if pred(m as usize) {
            prev.push(m as usize)
        } else {
            prev
        });
        assert forall|a: int, b: int| 0 <= a < b < list.len() implies (#[trigger] list[a]) < (
        #[trigger] list[b]) by {
            assert(list[a] == prev[a]);
            if b < prev.len() {
                assert(list[b] == prev[b]);
            }
        }
    }
}

/// The nodes that are ready once the marked ones are done.
pub fn ready_nodes(graph: &Vec<Vec<usize>>, done: &Vec<bool>) -> (nodes: Vec<usize>)
    requires
        closed_graph(lists(graph@)),
        done@.len() == lists(graph@).len(),
    ensures
        nodes@ == ready_list(lists(graph@), marked(done@)),
{
    let ghost pred = |i: usize| ready(lists(graph@), marked(done@), i as int);
    let mut out: Vec<usize> = Vec::new();
    let mut i: usize = 0;
    while i < graph.len()
        invariant
            i <= lists(graph@).len(),
            done@.len() == lists(graph@).len(),
            closed_graph(lists(graph@)),
            pred == (|i: usize| ready(lists(graph@), marked(done@), i as int)),
            out@ == numbers(i as nat).filter(pred),
        decreases graph.len() - i,
    {
        let mut free: bool = !done[i];
        let mut k: usize = 0;
        while k < graph[i].len()
            invariant
                i < lists(graph@).len(),
                k <= lists(graph@)[i as int].len(),
                done@.len() == lists(graph@).len(),
                closed_graph(lists(graph@)),
                free == (!done@[i as int] && forall|m: int|
                    0 <= m < k ==> marked(done@).contains(
                        #[trigger] lists(graph@)[i as int][m] as int,
                    )),
            decreases lists(graph@)[i as int].len() - k,
        {
            let j: usize = graph[i][k];
            if !done[j] {
                free = false;
                assert(!marked(done@).contains(lists(graph@)[i as int][k as int] as int));
            }
            k += 1;
        }
        proof {
            reveal(Seq::filter);
            let next = numbers((i + 1) as nat);
            assert(next.drop_last() =~= numbers(i as nat));
            assert(next.last() == i);
            assert(free == ready(lists(graph@), marked(done@), i as int));
        }
        if free {
            out.push(i);
        }
        i += 1;
    }
    out
}

/// Marks the listed nodes.
pub fn mark(done: &mut Vec<bool>, nodes: &Vec<usize>)
    requires
        forall|k: int| 0 <= k < nodes@.len() ==> (#[trigger] nodes@[k]) < old(done)@.len(),
    ensures
        final(done)@.len() == old(done)@.len(),
        marked(final(done)@) == marked(old(done)@).union(members(nodes@)),
{
    let ghost before = marked(done@);
    let ghost len = done@.len();
    let mut k: usize = 0;
    proof {
        assert(members(nodes@.take(0)) =~= Set::empty());
        assert(before.union(Set::empty()) =~= before);
    }
    while k < nodes.len()
        invariant
            k <= nodes@.len(),
            done@.len() == len,
            forall|m: int| 0 <= m < nodes@.len() ==> (#[trigger] nodes@[m]) < len,
            marked(done@) == before.union(members(nodes@.take(k as int))),
        decreases nodes.len() - k,
    {
        let ghost prev = done@;
        done.set(nodes[k], true);
        proof {
            let a = nodes@.take(k as int);
            let b = nodes@.take(k + 1);
            let added = nodes@[k as int] as int;
            assert forall|i: int| members(b).contains(i) == (members(a).contains(i) || i == added) by {
                if members(a).contains(i) {
                    let m = choose|m: int| 0 <= m < a.len() && a[m] == i;
                    assert(b[m] == i);
                }
                if i == added {
                    assert(b[k as int] == i);
                }
                if members(b).contains(i) && i != added {
                    let m = choose|m: int| 0 <= m < b.len() && b[m] == i;
                    assert(a[m] == i);
                }
            }
            assert(marked(done@) =~= marked(prev).insert(added));
            assert(marked(done@) =~= before.union(members(b)));
        }
        k += 1;
    }
    proof {
        assert(nodes@.take(nodes@.len() as int) =~= nodes@);
    }
}

/// Nothing is listed twice in an order that only takes ready nodes.
pub proof fn lemma_grown_unique(graph: Seq<Seq<usize>>, order: Seq<usize>)
    requires
        grown(graph, order),
    ensures
        order.no_duplicates(),
{
    assert forall|a: int, b: int| 0 <= a < b < order.len() implies order[a] != order[b] by {
        assert(ready(graph, members(order.take(b)), order[b] as int));
        if order[a] == order[b] {
            assert(order.take(b)[a] == order[b] as int);
        }
    }
}

/// An order that only takes ready nodes puts every node after its needs.
pub proof fn lemma_grown_respects(graph: Seq<Seq<usize>>, order: Seq<usize>)
    requires
        grown(graph, order),
    ensures
        respects(graph, order),
{
    assert forall|k: int, j: int|
        0 <= k < order.len() && #[trigger] needs(graph, order[k] as int, j) implies members(
        order.take(k),
    ).contains(j) by {
        assert(ready(graph, members(order.take(k)), order[k] as int));
        let m = choose|m: int|
            0 <= m < graph[order[k] as int].len() && #[trigger] graph[order[k] as int][m] == j;
        assert(members(order.take(k)).contains(graph[order[k] as int][m] as int));
    }
}

/// No node of a stuck set ever becomes ready.
pub proof fn lemma_grown_avoids_stuck(
    graph: Seq<Seq<usize>>,
    order: Seq<usize>,
    nodes: Set<int>,
    k: int,
)
    requires
        grown(graph, order),
        stuck(graph, nodes),
        0 <= k <= order.len(),
    ensures
        forall|m: int| 0 <= m < k ==> !nodes.contains(#[trigger] order[m] as int),
    decreases k,
{
    if k > 0 {
        lemma_grown_avoids_stuck(graph, order, nodes, k - 1);
        let i = order[k - 1] as int;
        if nodes.contains(i) {
            let j = choose|j: int| nodes.contains(j) && #[trigger] needs(graph, i, j);
            lemma_grown_respects(graph, order);
            let before = order.take(k - 1);
            assert(members(before).contains(j));
            let m = choose|m: int| 0 <= m < before.len() && before[m] == j;
            assert(order[m] == j);
        }
    }
}

/// An order of ready nodes that goes on for as long as it can is complete
/// exactly when the graph has no cycle.
pub proof fn lemma_grown_complete(graph: Seq<Seq<usize>>, order: Seq<usize>)
    requires
        graph.len() <= usize::MAX,
        closed_graph(graph),
        grown(graph, order),
        ready_list(graph, members(order)).len() == 0,
    ensures
        complete(graph, order) <==> !cyclic(graph),
{
    lemma_grown_unique(graph, order);
    lemma_ready_list(graph, members(order));
    assert forall|k: int| 0 <= k < order.len() implies (#[trigger] order[k]) < graph.len() by {
        assert(ready(graph, members(order.take(k)), order[k] as int));
    }
    if cyclic(graph) {
        let nodes = choose|nodes: Set<int>| stuck(graph, nodes);
        let i = choose|i: int| nodes.contains(i);
        lemma_grown_avoids_stuck(graph, order, nodes, order.len() as int);
        if members(order).contains(i) {
            let k = choose|k: int| 0 <= k < order.len() && order[k] == i;
            assert(!nodes.contains(order[k] as int));
        }
        assert(!complete(graph, order));
    }
    if !complete(graph, order) {
        let rest = Set::new(|i: int| 0 <= i < graph.len() && !members(order).contains(i));
        let first = choose|i: int| 0 <= i < graph.len() && !members(order).contains(i);
        assert(rest.contains(first));
        assert forall|i: int| #[trigger] rest.contains(i) implies exists|j: int|
            rest.contains(j) && #[trigger] needs(graph, i, j) by {
            assert(!ready(graph, members(order), i)) by {
                if ready(graph, members(order), i) {
                    let list = ready_list(graph, members(order));
                    assert(members(list).contains(i));
                    let k = choose|k: int| 0 <= k < list.len() && list[k] == i;
                }
            }
            let m = choose|m: int|
                0 <= m < graph[i].len() && !members(order).contains(
                    #[trigger] graph[i][m] as int,
                );
            let j = graph[i][m] as int;
            assert(needs(graph, i, j));
            assert(rest.contains(j));
        }
        assert(stuck(graph, rest));
    }
}

proof fn lemma_members_concat(a: Seq<usize>, b: Seq<usize>)
    ensures
        members(a + b) == members(a).union(members(b)),
{
    let ab = a + b;
    assert forall|i: int| members(ab).contains(i) == (members(a).contains(i) || members(
        b,
    ).contains(i)) by {
        if members(ab).contains(i) {
            let k = choose|k: int| 0 <= k < ab.len() && ab[k] == i;
            if k < a.len() {
                assert(a[k] == i);
            } else {
                assert(b[k - a.len()] == i);
            }
        }
        if members(a).contains(i) {
            let k = choose|k: int| 0 <= k < a.len() && a[k] == i;
            assert(ab[k] == i);
        }
        if members(b).contains(i) {
            let k = choose|k: int| 0 <= k < b.len() && b[k] == i;
            assert(ab[a.len() + k] == i);
        }
    }
    assert(members(ab) =~= members(a).union(members(b)));
}

/// Layers laid end to end take only ready nodes.
pub proof fn lemma_layers_grow(graph: Seq<Seq<usize>>, layers: Seq<Seq<usize>>)
    requires
        graph.len() <= usize::MAX,
        in_layers(graph, Set::empty(), layers),
    ensures
        grown(graph, flat(layers)),
        members(flat(layers)) == after(Set::empty(), layers),
    decreases layers.len(),
{
    if layers.len() == 0 {
        assert(members(flat(layers)) =~= Set::empty());
    } else {
        let front = layers.drop_last();
        lemma_layers_grow(graph, front);
        let done = after(Set::empty(), front);
        let last = layers.last();
        lemma_ready_list(graph, done);
        lemma_members_concat(flat(front), last);
        let order = flat(layers);
        assert forall|k: int| 0 <= k < order.len() implies ready(
            graph,
            members(order.take(k)),
            #[trigger] order[k] as int,
        ) by {
            let n = flat(front).len();
            if k < n {
                assert(order.take(k) =~= flat(front).take(k));
                assert(order[k] == flat(front)[k]);
            } else {
                let q = k - n;
                let i = last[q] as int;
                assert(order.take(k) =~= flat(front) + last.take(q));
                lemma_members_concat(flat(front), last.take(q));
                assert(ready(graph, done, i));
                if members(last.take(q)).contains(i) {
                    let m = choose|m: int| 0 <= m < q && last.take(q)[m] == i;
                    assert(last[m] < last[q]);
                }
            }
        }
    }
}

/// What layering a graph gives: every node after its needs, nothing twice, and
/// every node exactly when there is no cycle.
pub proof fn lemma_layered_order(graph: Seq<Seq<usize>>, layers: Seq<Seq<usize>>)
    requires
        graph.len() <= usize::MAX,
        closed_graph(graph),
        layered(graph, layers),
    ensures
        flat(layers).no_duplicates(),
        respects(graph, flat(layers)),
        complete(graph, flat(layers)) <==> !cyclic(graph),
{
    lemma_layers_grow(graph, layers);
    lemma_grown_unique(graph, flat(layers));
    lemma_grown_respects(graph, flat(layers));
    lemma_grown_complete(graph, flat(layers));
}

/// What taking the lowest ready node at every turn gives: every node after its
/// needs, nothing twice, and every node exactly when there is no cycle.
pub proof fn lemma_lowest_first_order(graph: Seq<Seq<usize>>, order: Seq<usize>)
    requires
        graph.len() <= usize::MAX,
        closed_graph(graph),
        lowest_first(graph, order),
    ensures
        order.no_duplicates(),
        respects(graph, order),
        complete(graph, order) <==> !cyclic(graph),
{
    assert(grown(graph, order)) by {
        assert forall|k: int| 0 <= k < order.len() implies ready(
            graph,
            members(order.take(k)),
            #[trigger] order[k] as int,
        ) by {
            assert(lowest_at(graph, order, k));
            lemma_ready_list(graph, members(order.take(k)));
        }
    }
    lemma_grown_unique(graph, order);
    lemma_grown_respects(graph, order);
    lemma_grown_complete(graph, order);
}

/// Layers that have been laid can be laid to the end.
pub proof fn lemma_layering_from(graph: Seq<Seq<usize>>, layers: Seq<Seq<usize>>)
    requires
        graph.len() <= usize::MAX,
        in_layers(graph, Set::empty(), layers),
    ensures
        exists|all: Seq<Seq<usize>>| layered(graph, all),
    decreases graph.len() - flat(layers).len(),
{
    let done = after(Set::empty(), layers);
    let next = ready_list(graph, done);
    lemma_layers_grow(graph, layers);
    lemma_grown_length(graph, flat(layers));
    if next.len() == 0 {
        assert(layered(graph, layers));
    } else {
        let more = layers.push(next);
        assert(more.drop_last() =~= layers);
        lemma_layers_grow(graph, more);
        lemma_grown_length(graph, flat(more));
        lemma_layering_from(graph, more);
    }
}

proof fn lemma_grown_length(graph: Seq<Seq<usize>>, order: Seq<usize>)
    requires
        grown(graph, order),
    ensures
        order.len() <= graph.len(),
{
    lemma_grown_unique(graph, order);
    let list = order.map_values(|x: usize| x as int);
    assert forall|a: int, b: int|
        0 <= a < list.len() && 0 <= b < list.len() && a != b implies list[a] != list[b] by {
        assert(order[a] != order[b]);
    }
    assert(list.no_duplicates());
    list.unique_seq_to_set();
    let all = vstd::set_lib::set_int_range(0, graph.len() as int);
    vstd::set_lib::lemma_int_range(0, graph.len() as int);
    assert(list.to_set().subset_of(all)) by {
        assert forall|i: int| list.to_set().contains(i) implies all.contains(i) by {
            let k = choose|k: int| 0 <= k < list.len() && list[k] == i;
            assert(ready(graph, members(order.take(k)), order[k] as int));
        }
    }
    vstd::set_lib::lemma_len_subset(list.to_set(), all);
}

/// A graph has one layering.
pub proof fn lemma_layered_unique(
    graph: Seq<Seq<usize>>,
    a: Seq<Seq<usize>>,
    b: Seq<Seq<usize>>,
)
    requires
        layered(graph, a),
        layered(graph, b),
    ensures
        a == b,
{
    let n = if a.len() <= b.len() {
        a.len() as int
    } else {
        b.len() as int
    };
    lemma_layers_agree(graph, a, b, n);
    lemma_in_layers_prefix(graph, a, n);
    lemma_in_layers_prefix(graph, b, n);
    assert(a.take(a.len() as int) =~= a);
    assert(b.take(b.len() as int) =~= b);
    if n < a.len() {
        lemma_in_layers_prefix(graph, a, n + 1);
        assert(a.take(n + 1).drop_last() =~= a.take(n));
    }
    if n < b.len() {
        lemma_in_layers_prefix(graph, b, n + 1);
        assert(b.take(n + 1).drop_last() =~= b.take(n));
    }
}

/// The first layers of a layering are one themselves.
pub proof fn lemma_in_layers_prefix(graph: Seq<Seq<usize>>, layers: Seq<Seq<usize>>, n: int)
    requires
        in_layers(graph, Set::empty(), layers),
        0 <= n <= layers.len(),
    ensures
        in_layers(graph, Set::empty(), layers.take(n)),
    decreases layers.len(),
{
    if n == layers.len() {
        assert(layers.take(n) =~= layers);
    } else {
        lemma_in_layers_prefix(graph, layers.drop_last(), n);
        assert(layers.drop_last().take(n) =~= layers.take(n));
    }
}

proof fn lemma_layers_agree(
    graph: Seq<Seq<usize>>,
    a: Seq<Seq<usize>>,
    b: Seq<Seq<usize>>,
    n: int,
)
    requires
        in_layers(graph, Set::empty(), a),
        in_layers(graph, Set::empty(), b),
        0 <= n <= a.len(),
        n <= b.len(),
    ensures
        a.take(n) == b.take(n),
    decreases n,
{
    if n > 0 {
        lemma_layers_agree(graph, a, b, n - 1);
        lemma_in_layers_prefix(graph, a, n);
        lemma_in_layers_prefix(graph, b, n);
        assert(a.take(n).drop_last() =~= a.take(n - 1));
        assert(b.take(n).drop_last() =~= b.take(n - 1));
        assert(a.take(n) =~= a.take(n - 1).push(a.take(n).last()));
        assert(b.take(n) =~= b.take(n - 1).push(b.take(n).last()));
    } else {
        assert(a.take(n) =~= b.take(n));
    }
}

/// The number of flags that are not set.
pub open spec fn unmarked(flags: Seq<bool>) -> nat
    decreases flags.len(),
{
    if flags.len() == 0 {
        0
    } else {
        unmarked(flags.drop_last()) + if flags.last() {
            0nat
        } else {
            1nat
        }
    }
}

/// Setting flags leaves fewer unset.
pub proof fn lemma_unmarked_decreases(before: Seq<bool>, later: Seq<bool>, i: int)
    requires
        before.len() == later.len(),
        forall|k: int| 0 <= k < before.len() && before[k] ==> later[k],
        0 <= i < before.len() ==> !before[i] && later[i],
    ensures
        unmarked(later) <= unmarked(before),
        0 <= i < before.len() ==> unmarked(later) < unmarked(before),
    decreases before.len(),
{
    if before.len() > 0 {
        lemma_unmarked_decreases(before.drop_last(), later.drop_last(), i);
    }
}

/// Marking ready nodes leaves fewer outstanding.
pub proof fn lemma_marking_progress(graph: Seq<Seq<usize>>, before: Seq<bool>, later: Seq<bool>, nodes: Seq<usize>)
    requires
        graph.len() <= usize::MAX,
        before.len() == graph.len(),
        later.len() == graph.len(),
        nodes.len() > 0,
        ready(graph, marked(before), nodes[0] as int),
        marked(later) == marked(before).union(members(nodes)),
    ensures
        unmarked(later) < unmarked(before),
{
    let i = nodes[0] as int;
    assert(members(nodes).contains(i));
    assert(marked(later).contains(i));
    assert forall|k: int| 0 <= k < before.len() && before[k] implies later[k] by {
        assert(marked(before).contains(k));
        assert(marked(later).contains(k));
    }
    lemma_unmarked_decreases(before, later, i);
}

fn unset_flags(n: usize) -> (flags: Vec<bool>)
    ensures
        flags@.len() == n,
        marked(flags@) == Set::<int>::empty(),
        forall|k: int| 0 <= k < n ==> !#[trigger] flags@[k],
{
    let mut flags: Vec<bool> = Vec::new();
    let mut i: usize = 0;
    while i < n
        invariant
            i <= n,
            flags@.len() == i,
            forall|k: int| 0 <= k < i ==> !flags@[k],
        decreases n - i,
    {
        flags.push(false);
        i += 1;
    }
    assert(marked(flags@) =~= Set::<int>::empty());
    flags
}

/// Lays a graph out in layers.
pub fn layers(graph: &Vec<Vec<usize>>) -> (out: Vec<Vec<usize>>)
    requires
        closed_graph(lists(graph@)),
    ensures
        layered(lists(graph@), lists(out@)),
{
    assert(lists(graph@).len() == graph.len());
    let mut done: Vec<bool> = unset_flags(graph.len());
    let mut out: Vec<Vec<usize>> = Vec::new();
    assert(lists(out@) =~= Seq::empty());
    loop
        invariant
            closed_graph(lists(graph@)),
            lists(graph@).len() <= usize::MAX,
            done@.len() == lists(graph@).len(),
            in_layers(lists(graph@), Set::empty(), lists(out@)),
            marked(done@) == after(Set::empty(), lists(out@)),
        ensures
            layered(lists(graph@), lists(out@)),
        decreases unmarked(done@),
    {
        let next: Vec<usize> = ready_nodes(graph, &done);
        if next.len() == 0 {
            break;
        }
        let ghost before = done@;
        proof {
            lemma_ready_list(lists(graph@), marked(before));
        }
        mark(&mut done, &next);
        proof {
            lemma_marking_progress(lists(graph@), before, done@, next@);
        }
        let ghost old_out = lists(out@);
        out.push(next);
        proof {
            assert(lists(out@) =~= old_out.push(next@));
            assert(lists(out@).drop_last() =~= old_out);
        }
    }
    out
}

/// Lays layers end to end.
pub fn flatten(layers: &Vec<Vec<usize>>) -> (order: Vec<usize>)
    ensures
        order@ == flat(lists(layers@)),
{
    let mut order: Vec<usize> = Vec::new();
    let mut i: usize = 0;
    while i < layers.len()
        invariant
            i <= layers@.len(),
            order@ == flat(lists(layers@).take(i as int)),
        decreases layers.len() - i,
    {
        let ghost base = order@;
        let mut k: usize = 0;
        while k < layers[i].len()
            invariant
                i < layers@.len(),
                k <= layers@[i as int]@.len(),
                order@ == base + layers@[i as int]@.take(k as int),
            decreases layers@[i as int]@.len() - k,
        {
            order.push(layers[i][k]);
            proof {
                assert(layers@[i as int]@.take(k + 1) =~= layers@[i as int]@.take(k as int).push(
                    layers@[i as int]@[k as int],
                ));
            }
            k += 1;
        }
        proof {
            let next = lists(layers@).take(i + 1);
            assert(layers@[i as int]@.take(k as int) =~= layers@[i as int]@);
            assert(next.drop_last() =~= lists(layers@).take(i as int));
            assert(next.last() == layers@[i as int]@);
        }
        i += 1;
    }
    assert(lists(layers@).take(layers@.len() as int) =~= lists(layers@));
    order
}

/// The nodes that a partial order leaves out, in increasing order.
pub open spec fn left_out(graph: Seq<Seq<usize>>, order: Seq<usize>) -> Seq<usize> {
    numbers(graph.len()).filter(|i: usize| !members(order).contains(i as int))
}

/// Finds the nodes that a partial order leaves out.
pub fn remaining(graph: &Vec<Vec<usize>>, order: &Vec<usize>) -> (rest: Vec<usize>)
    requires
        forall|k: int| 0 <= k < order@.len() ==> (#[trigger] order@[k]) < lists(graph@).len(),
    ensures
        rest@ == left_out(lists(graph@), order@),
{
    let mut done: Vec<bool> = unset_flags(graph.len());
    mark(&mut done, order);
    assert(marked(done@) =~= members(order@));
    let ghost pred = |i: usize| !members(order@).contains(i as int);
    let mut out: Vec<usize> = Vec::new();
    let mut i: usize = 0;
    while i < graph.len()
        invariant
            i <= lists(graph@).len(),
            done@.len() == lists(graph@).len(),
            marked(done@) == members(order@),
            pred == (|i: usize| !members(order@).contains(i as int)),
            out@ == numbers(i as nat).filter(pred),
        decreases graph.len() - i,
    {
        proof {
            reveal(Seq::filter);
            let next = numbers((i + 1) as nat);
            assert(next.drop_last() =~= numbers(i as nat));
            assert(next.last() == i);
            assert(done@[i as int] == marked(done@).contains(i as int));
        }
        if !done[i] {
            out.push(i);
        }
        i += 1;
    }
    out
}

/// Nothing is left out exactly when every node is listed.
pub proof fn lemma_left_out(graph: Seq<Seq<usize>>, order: Seq<usize>)
    requires
        graph.len() <= usize::MAX,
        order.no_duplicates(),
        forall|k: int| 0 <= k < order.len() ==> (#[trigger] order[k]) < graph.len(),
    ensures
        left_out(graph, order).len() == 0 <==> complete(graph, order),
        forall|i: int|
            members(left_out(graph, order)).contains(i) <==> 0 <= i < graph.len() && !members(
                order,
            ).contains(i),
{
    let all = numbers(graph.len());
    let pred = |i: usize| !members(order).contains(i as int);
    let list = all.filter(pred);
    assert(list == left_out(graph, order));
    lemma_filter_numbers(graph.len(), pred);
    assert forall|i: int| members(list).contains(i) <==> 0 <= i < graph.len() && !members(
        order,
    ).contains(i) by {
        if members(list).contains(i) {
            let k = choose|k: int| 0 <= k < list.len() && list[k] == i;
            assert(pred(list[k]));
        }
        if 0 <= i < graph.len() && !members(order).contains(i) {
            assert(all[i] == i as usize);
            all.lemma_filter_contains(pred, i);
            let k = choose|k: int| 0 <= k < list.len() && list[k] == all[i];
            assert(list[k] == i);
        }
    }
    if list.len() == 0 {
        assert forall|i: int| 0 <= i < graph.len() implies #[trigger] members(order).contains(i) by {
            if !members(order).contains(i) {
                assert(members(list).contains(i));
            }
        }
    } else {
        let i = list[0] as int;
        assert(members(list).contains(i));
    }
}

/// Takes, at every turn, the lowest-numbered ready node.
pub fn lowest_first_order(graph: &Vec<Vec<usize>>) -> (order: Vec<usize>)
    requires
        closed_graph(lists(graph@)),
    ensures
        lowest_first(lists(graph@), order@),
{
    assert(lists(graph@).len() == graph.len());
    let mut done: Vec<bool> = unset_flags(graph.len());
    let mut order: Vec<usize> = Vec::new();
    assert(marked(done@) =~= members(order@));
    loop
        invariant
            closed_graph(lists(graph@)),
            lists(graph@).len() <= usize::MAX,
            done@.len() == lists(graph@).len(),
            marked(done@) == members(order@),
            forall|k: int| 0 <= k < order@.len() ==> #[trigger] lowest_at(lists(graph@), order@, k),
        ensures
            lowest_first(lists(graph@), order@),
        decreases unmarked(done@),
    {
        let next: Vec<usize> = ready_nodes(graph, &done);
        if next.len() == 0 {
            break;
        }
        let ghost before = done@;
        let ghost old_order = order@;
        proof {
            lemma_ready_list(lists(graph@), marked(before));
        }
        let mut one: Vec<usize> = Vec::new();
        one.push(next[0]);
        mark(&mut done, &one);
        order.push(next[0]);
        proof {
            lemma_marking_progress(lists(graph@), before, done@, one@);
            lemma_members_concat(old_order, one@);
            assert(order@ =~= old_order + one@);
            assert forall|k: int| 0 <= k < order@.len() implies #[trigger] lowest_at(
                lists(graph@),
                order@,
                k,
            ) by {
                if k < old_order.len() {
                    assert(lowest_at(lists(graph@), old_order, k));
                    assert(order@.take(k) =~= old_order.take(k));
                    assert(order@[k] == old_order[k]);
                } else {
                    assert(order@.take(k) =~= old_order);
                }
            }
        }
    }
    order
}

/// Whether node `i` needs node `j` through a chain of that many needs.
pub open spec fn reaches(graph: Seq<Seq<usize>>, i: int, j: int, steps: nat) -> bool
    decreases steps,
{
    if steps == 0 {
        i == j
    } else {
        exists|m: int| #[trigger] needs(graph, i, m) && reaches(graph, m, j, (steps - 1) as nat)
    }
}

/// Whether node `i` is node `j` or needs it, directly or through others.
pub open spec fn depends(graph: Seq<Seq<usize>>, i: int, j: int) -> bool {
    exists|steps: nat| reaches(graph, i, j, steps)
}

proof fn lemma_reaches_further(graph: Seq<Seq<usize>>, i: int, m: int, j: int, steps: nat)
    requires
        reaches(graph, i, m, steps),
        needs(graph, m, j),
    ensures
        reaches(graph, i, j, steps + 1),
    decreases steps,
{
    if steps == 0 {
        assert(reaches(graph, j, j, 0));
        assert(needs(graph, i, j));
    } else {
        let next = choose|next: int| #[trigger]
            needs(graph, i, next) && reaches(graph, next, m, (steps - 1) as nat);
        lemma_reaches_further(graph, next, m, j, (steps - 1) as nat);
        assert(needs(graph, i, next) && reaches(graph, next, j, steps));
    }
}

/// What a node needs that another depends on, the other depends on too.
pub proof fn lemma_depends_further(graph: Seq<Seq<usize>>, i: int, m: int, j: int)
    requires
        depends(graph, i, m),
        needs(graph, m, j),
    ensures
        depends(graph, i, j),
{
    let steps = choose|steps: nat| reaches(graph, i, m, steps);
    lemma_reaches_further(graph, i, m, j, steps);
}

/// A node that needs one that depends on another depends on it too.
pub proof fn lemma_depends_through(graph: Seq<Seq<usize>>, i: int, m: int, j: int)
    requires
        needs(graph, i, m),
        depends(graph, m, j),
    ensures
        depends(graph, i, j),
{
    let steps = choose|steps: nat| reaches(graph, m, j, steps);
    assert(reaches(graph, i, j, steps + 1));
}

proof fn lemma_closed_below(graph: Seq<Seq<usize>>, flags: Seq<bool>, i: int, j: int, steps: nat)
    requires
        forall|a: int, b: int|
            0 <= a < graph.len() && flags[a] && #[trigger] needs(graph, a, b) ==> 0 <= b
                < graph.len() && flags[b],
        0 <= i < graph.len(),
        flags[i],
        reaches(graph, i, j, steps),
    ensures
        0 <= j < graph.len(),
        flags[j],
    decreases steps,
{
    if steps > 0 {
        let next = choose|next: int| #[trigger]
            needs(graph, i, next) && reaches(graph, next, j, (steps - 1) as nat);
        lemma_closed_below(graph, flags, next, j, (steps - 1) as nat);
    }
}

proof fn lemma_closed_above(graph: Seq<Seq<usize>>, flags: Seq<bool>, i: int, j: int, steps: nat)
    requires
        closed_graph(graph),
        forall|a: int, b: int|
            0 <= a < graph.len() && 0 <= b < graph.len() && flags[b] && #[trigger] needs(
                graph,
                a,
                b,
            ) ==> flags[a],
        0 <= i < graph.len(),
        0 <= j < graph.len(),
        flags[j],
        reaches(graph, i, j, steps),
    ensures
        flags[i],
    decreases steps,
{
    if steps > 0 {
        let next = choose|next: int| #[trigger]
            needs(graph, i, next) && reaches(graph, next, j, (steps - 1) as nat);
        lemma_closed_above(graph, flags, next, j, (steps - 1) as nat);
    }
}

/// Finds the nodes that a node depends on, itself among them.
pub fn dependencies_of(graph: &Vec<Vec<usize>>, node: usize) -> (flags: Vec<bool>)
    requires
        closed_graph(lists(graph@)),
        node < graph@.len(),
    ensures
        flags@.len() == graph@.len(),
        forall|j: int|
            0 <= j < flags@.len() ==> ((#[trigger] flags@[j]) <==> depends(
                lists(graph@),
                node as int,
                j,
            )),
{
    let ghost g = lists(graph@);
    let n: usize = graph.len();
    let mut flags: Vec<bool> = unset_flags(n);
    flags.set(node, true);
    let mut changed: bool = true;
    assert(reaches(g, node as int, node as int, 0));
    while changed
        invariant
            g == lists(graph@),
            n == graph@.len(),
            closed_graph(g),
            node < n,
            flags@.len() == n,
            flags@[node as int],
            forall|j: int|
                0 <= j < n && #[trigger] flags@[j] ==> depends(g, node as int, j),
            !changed ==> forall|a: int, b: int|
                0 <= a < g.len() && flags@[a] && #[trigger] needs(g, a, b) ==> 0 <= b < g.len()
                    && flags@[b],
        decreases unmarked(flags@), changed as int,
    {
        changed = false;
        let ghost before = flags@;
        let mut i: usize = 0;
        while i < n
            invariant
                g == lists(graph@),
                n == graph@.len(),
                closed_graph(g),
                node < n,
                i <= n,
                flags@.len() == n,
                flags@[node as int],
                before.len() == n,
                forall|j: int|
                    0 <= j < n && #[trigger] flags@[j] ==> depends(g, node as int, j),
                !changed ==> flags@ == before,
                changed ==> unmarked(flags@) < unmarked(before),
                !changed ==> forall|a: int, b: int|
                    0 <= a < i && flags@[a] && #[trigger] needs(g, a, b) ==> 0 <= b < g.len()
                        && flags@[b],
            decreases n - i,
        {
            let mut k: usize = 0;
            while k < graph[i].len()
                invariant
                    g == lists(graph@),
                    n == graph@.len(),
                    closed_graph(g),
                    node < n,
                    i < n,
                    k <= graph@[i as int]@.len(),
                    flags@.len() == n,
                    flags@[node as int],
                    before.len() == n,
                    forall|j: int|
                        0 <= j < n && #[trigger] flags@[j] ==> depends(g, node as int, j),
                    !changed ==> flags@ == before,
                    changed ==> unmarked(flags@) < unmarked(before),
                    !changed ==> forall|a: int, b: int|
                        0 <= a < i && flags@[a] && #[trigger] needs(g, a, b) ==> 0 <= b < g.len()
                            && flags@[b],
                    !changed && flags@[i as int] ==> forall|b: int|
                        0 <= b < k ==> flags@[#[trigger] g[i as int][b] as int],
                decreases graph@[i as int]@.len() - k,
            {
                let need: usize = graph[i][k];
                assert(need == g[i as int][k as int]);
                assert(need < g.len());
                if flags[i] && !flags[need] {
                    let ghost known = flags@;
                    proof {
                        assert(needs(g, i as int, need as int));
                        lemma_depends_further(g, node as int, i as int, need as int);
                    }
                    flags.set(need, true);
                    proof {
                        lemma_unmarked_decreases(known, flags@, need as int);
                    }
                    changed = true;
                }
                k += 1;
            }
            i += 1;
        }
    }
    proof {
        assert forall|j: int| 0 <= j < flags@.len() implies ((#[trigger] flags@[j]) <==> depends(
            g,
            node as int,
            j,
        )) by {
            if depends(g, node as int, j) {
                let steps = choose|steps: nat| reaches(g, node as int, j, steps);
                lemma_closed_below(g, flags@, node as int, j, steps);
            }
        }
    }
    flags
}

/// Finds the nodes that depend on a node, itself among them.
pub fn dependents_of(graph: &Vec<Vec<usize>>, node: usize) -> (flags: Vec<bool>)
    requires
        closed_graph(lists(graph@)),
        node < graph@.len(),
    ensures
        flags@.len() == graph@.len(),
        forall|j: int|
            0 <= j < flags@.len() ==> ((#[trigger] flags@[j]) <==> depends(
                lists(graph@),
                j,
                node as int,
            )),
{
    let ghost g = lists(graph@);
    let n: usize = graph.len();
    let mut flags: Vec<bool> = unset_flags(n);
    flags.set(node, true);
    let mut changed: bool = true;
    assert(reaches(g, node as int, node as int, 0));
    while changed
        invariant
            g == lists(graph@),
            n == graph@.len(),
            closed_graph(g),
            node < n,
            flags@.len() == n,
            flags@[node as int],
            forall|j: int|
                0 <= j < n && #[trigger] flags@[j] ==> depends(g, j, node as int),
            !changed ==> forall|a: int, b: int|
                0 <= a < g.len() && 0 <= b < g.len() && flags@[b] && #[trigger] needs(g, a, b)
                    ==> flags@[a],
        decreases unmarked(flags@), changed as int,
    {
        changed = false;
        let ghost before = flags@;
        let mut i: usize = 0;
        while i < n
            invariant
                g == lists(graph@),
                n == graph@.len(),
                closed_graph(g),
                node < n,
                i <= n,
                flags@.len() == n,
                flags@[node as int],
                before.len() == n,
                forall|j: int|
                    0 <= j < n && #[trigger] flags@[j] ==> depends(g, j, node as int),
                !changed ==> flags@ == before,
                changed ==> unmarked(flags@) < unmarked(before),
                !changed ==> forall|a: int, b: int|
                    0 <= a < i && 0 <= b < g.len() && flags@[b] && #[trigger] needs(g, a, b)
                        ==> flags@[a],
            decreases n - i,
        {
            let mut k: usize = 0;
            while k < graph[i].len()
                invariant
                    g == lists(graph@),
                    n == graph@.len(),
                    closed_graph(g),
                    node < n,
                    i < n,
                    k <= graph@[i as int]@.len(),
                    flags@.len() == n,
                    flags@[node as int],
                    before.len() == n,
                    forall|j: int|
                        0 <= j < n && #[trigger] flags@[j] ==> depends(g, j, node as int),
                    !changed ==> flags@ == before,
                    changed ==> unmarked(flags@) < unmarked(before),
                    !changed ==> forall|a: int, b: int|
                        0 <= a < i && 0 <= b < g.len() && flags@[b] && #[trigger] needs(g, a, b)
                            ==> flags@[a],
                    !changed && !flags@[i as int] ==> forall|b: int|
                        0 <= b < k ==> !flags@[#[trigger] g[i as int][b] as int],
                decreases graph@[i as int]@.len() - k,
            {
                let need: usize = graph[i][k];
                assert(need == g[i as int][k as int]);
                assert(need < g.len());
                if !flags[i] && flags[need] {
                    let ghost known = flags@;
                    proof {
                        assert(needs(g, i as int, need as int));
                        lemma_depends_through(g, i as int, need as int, node as int);
                    }
                    flags.set(i, true);
                    proof {
                        lemma_unmarked_decreases(known, flags@, i as int);
                    }
                    changed = true;
                }
                k += 1;
            }
            i += 1;
        }
    }
    proof {
        assert forall|j: int| 0 <= j < flags@.len() implies ((#[trigger] flags@[j]) <==> depends(
            g,
            j,
            node as int,
        )) by {
            if depends(g, j, node as int) {
                let steps = choose|steps: nat| reaches(g, j, node as int, steps);
                lemma_closed_above(g, flags@, j, node as int, steps);
            }
        }
    }
    flags
}

/// The nodes of a list whose flag is set, in their order.
pub open spec fn picked(order: Seq<usize>, keep: Seq<bool>) -> Seq<usize>
    decreases order.len(),
{
    if order.len() == 0 {
        Seq::empty()
    } else {
        let front = picked(order.drop_last(), keep);
        if keep[order.last() as int] {
            front.push(order.last())
        } else {
            front
        }
    }
}

/// Where a picked node stood, and what was picked before it.
pub proof fn lemma_picked(order: Seq<usize>, keep: Seq<bool>, k: int) -> (p: int)
    requires
        0 <= k < picked(order, keep).len(),
    ensures
        0 <= p < order.len(),
        order[p] == picked(order, keep)[k],
        keep[order[p] as int],
        picked(order, keep).take(k) == picked(order.take(p), keep),
    decreases order.len(),
{
    let front = picked(order.drop_last(), keep);
    if k < front.len() {
        let p = lemma_picked(order.drop_last(), keep, k);
        assert(order.drop_last().take(p) =~= order.take(p));
        assert(picked(order, keep).take(k) =~= front.take(k));
        p
    } else {
        let p = order.len() - 1;
        assert(order.take(p) =~= order.drop_last());
        assert(picked(order, keep).take(k) =~= front);
        p
    }
}

/// What is picked is what was listed and has its flag set.
pub proof fn lemma_picked_members(order: Seq<usize>, keep: Seq<bool>, i: int)
    ensures
        members(picked(order, keep)).contains(i) <==> members(order).contains(i) && keep[i],
    decreases order.len(),
{
    if order.len() > 0 {
        let front = order.drop_last();
        lemma_picked_members(front, keep, i);
        assert(order =~= front + seq![order.last()]);
        lemma_members_concat(front, seq![order.last()]);
        lemma_members_concat(picked(front, keep), seq![order.last()]);
        assert(picked(front, keep).push(order.last()) =~= picked(front, keep) + seq![order.last()]);
        assert(members(seq![order.last()]).contains(i) <==> order.last() == i) by {
            assert(seq![order.last()][0] == order.last());
        }
    }
}

/// Picks the nodes of a list whose flag is set.
pub fn pick(order: &Vec<usize>, keep: &Vec<bool>) -> (list: Vec<usize>)
    requires
        forall|k: int| 0 <= k < order@.len() ==> (#[trigger] order@[k]) < keep@.len(),
    ensures
        list@ == picked(order@, keep@),
{
    let mut out: Vec<usize> = Vec::new();
    let mut i: usize = 0;
    while i < order.len()
        invariant
            i <= order@.len(),
            forall|k: int| 0 <= k < order@.len() ==> (#[trigger] order@[k]) < keep@.len(),
            out@ == picked(order@.take(i as int), keep@),
        decreases order.len() - i,
    {
        assert(order@.take(i + 1).drop_last() =~= order@.take(i as int));
        if keep[order[i]] {
            out.push(order[i]);
        }
        i += 1;
    }
    assert(order@.take(order@.len() as int) =~= order@);
    out
}

/// Turns a list round.
pub fn reversed(order: &Vec<usize>) -> (list: Vec<usize>)
    ensures
        list@ == order@.reverse(),
{
    let mut out: Vec<usize> = Vec::new();
    let mut i: usize = order.len();
    while i > 0
        invariant
            i <= order@.len(),
            out@.len() == order@.len() - i,
            forall|k: int| 0 <= k < out@.len() ==> #[trigger] out@[k] == order@[order@.len() - 1 - k],
        decreases i,
    {
        i -= 1;
        out.push(order[i]);
    }
    assert(out@ =~= order@.reverse());
    out
}

/// An order that takes the lowest ready node at every turn is complete exactly
/// when it is as long as the graph.
pub proof fn lemma_lowest_first_length(graph: Seq<Seq<usize>>, order: Seq<usize>)
    requires
        graph.len() <= usize::MAX,
        closed_graph(graph),
        lowest_first(graph, order),
    ensures
        order.len() <= graph.len(),
        complete(graph, order) <==> order.len() == graph.len(),
{
    lemma_lowest_first_order(graph, order);
    assert(grown(graph, order)) by {
        assert forall|k: int| 0 <= k < order.len() implies ready(
            graph,
            members(order.take(k)),
            #[trigger] order[k] as int,
        ) by {
            assert(lowest_at(graph, order, k));
            lemma_ready_list(graph, members(order.take(k)));
        }
    }
    lemma_grown_length(graph, order);
    let all = vstd::set_lib::set_int_range(0, graph.len() as int);
    vstd::set_lib::lemma_int_range(0, graph.len() as int);
    let listed = order.map_values(|i: usize| i as int);
    assert(listed.no_duplicates()) by {
        assert forall|a: int, b: int| 0 <= a < b < listed.len() implies listed[a] != listed[b] by {
            assert(order[a] != order[b]);
        }
    }
    listed.unique_seq_to_set();
    assert forall|k: int| 0 <= k < order.len() implies (#[trigger] order[k]) < graph.len() by {
        assert(ready(graph, members(order.take(k)), order[k] as int));
    }
    assert(listed.to_set() =~= members(order)) by {
        assert forall|i: int| listed.to_set().contains(i) <==> members(order).contains(i) by {
            if listed.to_set().contains(i) {
                let k = choose|k: int| 0 <= k < listed.len() && listed[k] == i;
                assert(order[k] == i);
            }
            if members(order).contains(i) {
                let k = choose|k: int| 0 <= k < order.len() && #[trigger] order[k] == i;
                assert(listed[k] == i);
            }
        }
    }
    if complete(graph, order) {
        assert(members(order) =~= all);
    }
    if order.len() == graph.len() {
        assert(members(order).subset_of(all));
        vstd::set_lib::lemma_subset_equality(members(order), all);
    }
}

/// Two orders that take the lowest ready node at every turn are the same.
pub proof fn lemma_lowest_first_unique(graph: Seq<Seq<usize>>, a: Seq<usize>, b: Seq<usize>)
    requires
        lowest_first(graph, a),
        lowest_first(graph, b),
    ensures
        a == b,
{
    let n = if a.len() <= b.len() {
        a.len() as int
    } else {
        b.len() as int
    };
    lemma_lowest_first_agree(graph, a, b, n);
    if a.len() < b.len() {
        assert(b.take(n) =~= a);
        assert(lowest_at(graph, b, n));
    } else if b.len() < a.len() {
        assert(a.take(n) =~= b);
        assert(lowest_at(graph, a, n));
    } else {
        assert(a.take(n) =~= a);
        assert(b.take(n) =~= b);
    }
}

proof fn lemma_lowest_first_agree(
    graph: Seq<Seq<usize>>,
    a: Seq<usize>,
    b: Seq<usize>,
    n: int,
)
    requires
        lowest_first(graph, a),
        lowest_first(graph, b),
        0 <= n <= a.len(),
        n <= b.len(),
    ensures
        a.take(n) == b.take(n),
    decreases n,
{
    if n > 0 {
        lemma_lowest_first_agree(graph, a, b, n - 1);
        assert(lowest_at(graph, a, n - 1));
        assert(lowest_at(graph, b, n - 1));
        assert(a.take(n) =~= a.take(n - 1).push(a[n - 1]));
        assert(b.take(n) =~= b.take(n - 1).push(b[n - 1]));
    } else {
        assert(a.take(0) =~= b.take(0));
    }
}

/// Nodes that need nothing are taken in increasing order.
pub proof fn lemma_lowest_first_unneeding(graph: Seq<Seq<usize>>, order: Seq<usize>)
    requires
        graph.len() <= usize::MAX,
        forall|i: int| 0 <= i < graph.len() ==> (#[trigger] graph[i]).len() == 0,
        lowest_first(graph, order),
    ensures
        order == numbers(graph.len()),
{
    let plain = numbers(graph.len());
    assert forall|k: int| 0 <= k < plain.len() implies #[trigger] lowest_at(graph, plain, k) by {
        let done = members(plain.take(k));
        let list = ready_list(graph, done);
        lemma_ready_list(graph, done);
        assert forall|i: int| done.contains(i) <==> 0 <= i < k by {
            if 0 <= i < k {
                assert(plain.take(k)[i] == i);
            }
        }
        assert(graph[k].len() == 0);
        assert(satisfied(graph, done, k));
        assert(ready(graph, done, k));
        assert(members(list).contains(k));
        let at = choose|at: int| 0 <= at < list.len() && #[trigger] list[at] == k;
        assert(ready(graph, done, list[0] as int));
    }
    assert(ready_list(graph, members(plain)).len() == 0) by {
        let list = ready_list(graph, members(plain));
        lemma_ready_list(graph, members(plain));
        if list.len() > 0 {
            let i = list[0] as int;
            assert(ready(graph, members(plain), i));
            assert(plain[i] == i);
        }
    }
    lemma_lowest_first_unique(graph, order, plain);
}

/// A node that needs itself, or two that need each other, form a cycle; and
/// where an order lists every node after all that it needs, there is none.
pub proof fn law_cycles_have_no_order(
    graph: Seq<Seq<usize>>,
    order: Seq<usize>,
    i: int,
    j: int,
)
    ensures
        0 <= i < graph.len() && needs(graph, i, i) ==> cyclic(graph),
        0 <= i < graph.len() && 0 <= j < graph.len() && needs(graph, i, j) && needs(graph, j, i)
            ==> cyclic(graph),
        complete(graph, order) && respects(graph, order) ==> !cyclic(graph),
{
    if 0 <= i < graph.len() && 0 <= j < graph.len() && needs(graph, i, j) && needs(graph, j, i) {
        let nodes = set![i, j];
        assert(nodes.contains(i) && nodes.contains(j));
        assert(stuck(graph, nodes));
    }
    if 0 <= i < graph.len() && needs(graph, i, i) {
        let nodes = set![i];
        assert(nodes.contains(i));
        assert(stuck(graph, nodes));
    }
    if complete(graph, order) && respects(graph, order) && cyclic(graph) {
        let nodes = choose|nodes: Set<int>| stuck(graph, nodes);
        let x = choose|x: int| nodes.contains(x);
        assert(members(order).contains(x));
        let k = choose|k: int| 0 <= k < order.len() && #[trigger] order[k] == x;
        lemma_no_first(graph, order, nodes, k);
    }
}

proof fn lemma_no_first(graph: Seq<Seq<usize>>, order: Seq<usize>, nodes: Set<int>, k: int)
    requires
        respects(graph, order),
        stuck(graph, nodes),
        0 <= k < order.len(),
    ensures
        !nodes.contains(order[k] as int),
    decreases k,
{
    if nodes.contains(order[k] as int) {
        let i = order[k] as int;
        let j = choose|j: int| nodes.contains(j) && #[trigger] needs(graph, i, j);
        assert(members(order.take(k)).contains(j));
        let m = choose|m: int| 0 <= m < order.take(k).len() && #[trigger] order.take(k)[m] == j;
        assert(order[m] == j);
        lemma_no_first(graph, order, nodes, m);
    }
}

/// In an order that respects the needs, a node stands after every node that
/// it needs.
pub proof fn law_needed_nodes_stand_before(
    graph: Seq<Seq<usize>>,
    order: Seq<usize>,
    x: int,
    y: int,
)
    requires
        complete(graph, order),
        respects(graph, order),
        0 <= x < order.len(),
        0 <= y < order.len(),
        needs(graph, order[y] as int, order[x] as int),
    ensures
        x < y,
{
    assert(members(order.take(y)).contains(order[x] as int));
    let m = choose|m: int|
        0 <= m < order.take(y).len() && #[trigger] order.take(y)[m] == order[x] as int;
    assert(order[m] == order[x]);
}

/// What a node depends on: itself, and whatever a node that it needs depends
/// on; and nothing that a set with the node in it, and with all that its
/// members need, does not hold.
pub proof fn law_depends_follows_needs(
    graph: Seq<Seq<usize>>,
    i: int,
    j: int,
    nodes: Set<int>,
)
    ensures
        depends(graph, i, i),
        depends(graph, i, j) <==> i == j || exists|m: int| #[trigger]
            needs(graph, i, m) && depends(graph, m, j),
        nodes.contains(i) && (forall|a: int, b: int|
            nodes.contains(a) && #[trigger] needs(graph, a, b) ==> nodes.contains(b)) && depends(
            graph,
            i,
            j,
        ) ==> nodes.contains(j),
{
    assert(reaches(graph, i, i, 0));
    if depends(graph, i, j) {
        let steps = choose|steps: nat| reaches(graph, i, j, steps);
        if steps > 0 {
            let m = choose|m: int| #[trigger]
                needs(graph, i, m) && reaches(graph, m, j, (steps - 1) as nat);
            assert(depends(graph, m, j));
        }
        if nodes.contains(i) && (forall|a: int, b: int|
            nodes.contains(a) && #[trigger] needs(graph, a, b) ==> nodes.contains(b)) {
            lemma_reaches_within(graph, i, j, steps, nodes);
        }
    }
    if exists|m: int| #[trigger] needs(graph, i, m) && depends(graph, m, j) {
        let m = choose|m: int| #[trigger] needs(graph, i, m) && depends(graph, m, j);
        lemma_depends_through(graph, i, m, j);
    }
}

proof fn lemma_reaches_within(
    graph: Seq<Seq<usize>>,
    i: int,
    j: int,
    steps: nat,
    nodes: Set<int>,
)
    requires
        nodes.contains(i),
        forall|a: int, b: int|
            nodes.contains(a) && #[trigger] needs(graph, a, b) ==> nodes.contains(b),
        reaches(graph, i, j, steps),
    ensures
        nodes.contains(j),
    decreases steps,
{
    if steps > 0 {
        let m = choose|m: int| #[trigger]
            needs(graph, i, m) && reaches(graph, m, j, (steps - 1) as nat);
        lemma_reaches_within(graph, m, j, (steps - 1) as nat, nodes);
    }
}

/// A node stands in a layer exactly when it stands in none before it and every
/// node that it needs stands in a layer before it; and no layer is empty.
pub proof fn law_layers_hold_all_that_is_ready(
    graph: Seq<Seq<usize>>,
    layers: Seq<Seq<usize>>,
    a: int,
    i: int,
)
    requires
        graph.len() <= usize::MAX,
        layered(graph, layers),
        0 <= a < layers.len(),
        0 <= i < graph.len(),
    ensures
        layers[a].len() > 0,
        members(layers[a]).contains(i) <==> {
            &&& !members(flat(layers.take(a))).contains(i)
            &&& forall|j: int| #[trigger]
                needs(graph, i, j) ==> members(flat(layers.take(a))).contains(j)
        },
{
    lemma_layer_at(graph, layers, a);
    lemma_in_layers_prefix(graph, layers, a);
    lemma_layers_grow(graph, layers.take(a));
    let done = after(Set::empty(), layers.take(a));
    lemma_ready_list(graph, done);
    let list = layers[a];
    if members(list).contains(i) {
        let k = choose|k: int| 0 <= k < list.len() && #[trigger] list[k] == i;
        assert(ready(graph, done, list[k] as int));
        assert forall|j: int| #[trigger] needs(graph, i, j) implies done.contains(j) by {
            let m = choose|m: int| 0 <= m < graph[i].len() && #[trigger] graph[i][m] == j;
            assert(done.contains(graph[i][m] as int));
        }
    }
    if !done.contains(i) && (forall|j: int| #[trigger] needs(graph, i, j) ==> done.contains(j)) {
        assert forall|m: int| 0 <= m < graph[i].len() implies done.contains(
            #[trigger] graph[i][m] as int,
        ) by {
            assert(needs(graph, i, graph[i][m] as int));
        }
        assert(ready(graph, done, i));
    }
}

proof fn lemma_layer_at(graph: Seq<Seq<usize>>, layers: Seq<Seq<usize>>, a: int)
    requires
        in_layers(graph, Set::empty(), layers),
        0 <= a < layers.len(),
    ensures
        layers[a] == ready_list(graph, after(Set::empty(), layers.take(a))),
        layers[a].len() > 0,
    decreases layers.len(),
{
    if a == layers.len() - 1 {
        assert(layers.take(a) =~= layers.drop_last());
    } else {
        lemma_layer_at(graph, layers.drop_last(), a);
        assert(layers.drop_last().take(a) =~= layers.take(a));
    }
}

} // verus!
