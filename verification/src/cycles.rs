//! What the thread-level dependency graph holds and what the deadlock count
//! means: the graph has an edge from one thread to another exactly if a
//! lock dependency of the second conflicts with one of the first, and the
//! search reports a deadlock exactly if the graph has a cycle.
//!
//! How many deadlocks it reports depends on the order of the nodes; whether
//! it reports any does not.

use crate::analyzer::{Dependency, Edge};
use crate::deadlock::{
    children_among, children_of, conflicts, deadlocks, edge_added, explore, explore_children,
    fan, fresh_for, graph_of, lemma_child_is_thread, lemma_place, lemma_visit_counts,
    lemma_visited_more, marked, place, search_of, survey, thread_edges, thread_edges_among,
    unvisited, Search,
};
use vstd::prelude::*;

verus! {

/// Whether the graph has an edge from `from` to `to`.
pub open spec fn has_edge(graph: Seq<(i64, Seq<i64>)>, from: i64, to: i64) -> bool {
    children_of(graph, from).contains(to)
}

/// The place of a thread's node is the one place that has its properties.
proof fn lemma_place_is(graph: Seq<(i64, Seq<i64>)>, thread_id: i64, at: int)
    requires
        0 <= at <= graph.len(),
        at < graph.len() ==> graph[at].0 == thread_id,
        forall|i: int| 0 <= i < at ==> (#[trigger] graph[i]).0 != thread_id,
    ensures
        place(graph, thread_id) == at,
{
    lemma_place(graph, thread_id, 0);
}

/// The edges of a graph with one more edge are its edges and that edge.
pub proof fn lemma_edge_added(graph: Seq<(i64, Seq<i64>)>, from: i64, to: i64, a: i64, b: i64)
    ensures
        has_edge(edge_added(graph, from, to), a, b) <==> has_edge(graph, a, b) || (a == from && b
            == to),
{
    lemma_place(graph, from, 0);
    lemma_place(graph, a, 0);
    let at = place(graph, from);
    let after = edge_added(graph, from, to);
    if at < graph.len() {
        if !graph[at].1.contains(to) {
            let then = place(graph, a);
            assert forall|i: int| 0 <= i < then implies (#[trigger] after[i]).0 != a by {
                assert(after[i].0 == graph[i].0);
            }
            lemma_place_is(after, a, then);
            let children = graph[at].1;
            if a == from {
                assert(children_of(after, a) == children.push(to));
                assert(children.push(to)[children.len() as int] == to);
                if children.push(to).contains(b) && b != to {
                    let i = choose|i: int|
                        0 <= i < children.push(to).len() && children.push(to)[i] == b;
                    assert(children[i] == b);
                }
                if children.contains(b) {
                    let i = choose|i: int| 0 <= i < children.len() && children[i] == b;
                    assert(children.push(to)[i] == b);
                }
            } else if then < graph.len() {
                assert(after[then] == graph[then]);
            }
        }
    } else {
        if a == from {
            lemma_place_is(after, a, graph.len() as int);
            assert(children_of(after, a) == seq![to]);
            assert(seq![to][0] == to);
            assert(children_of(graph, a) == Seq::<i64>::empty());
        } else {
            let then = place(graph, a);
            if then < graph.len() {
                assert forall|i: int| 0 <= i < then implies (#[trigger] after[i]).0 != a by {
                    assert(after[i] == graph[i]);
                }
                assert(after[then] == graph[then]);
                lemma_place_is(after, a, then);
            } else {
                assert forall|i: int| 0 <= i < after.len() implies (#[trigger] after[i]).0 != a by {
                    if i < graph.len() {
                        assert(after[i] == graph[i]);
                    }
                }
                lemma_place_is(after, a, after.len() as int);
            }
        }
    }
}

/// A graph that is built from edges has those edges and no others.
pub proof fn lemma_graph_of_edges(edges: Seq<Edge>, count: nat, a: i64, b: i64)
    requires
        count <= edges.len(),
    ensures
        has_edge(graph_of(edges, count), a, b) <==> exists|k: int|
            0 <= k < count && #[trigger] edges[k] == (Edge { from: a, to: b }),
    decreases count,
{
    if count > 0 {
        lemma_graph_of_edges(edges, (count - 1) as nat, a, b);
        lemma_edge_added(
            graph_of(edges, (count - 1) as nat),
            edges[count - 1].from,
            edges[count - 1].to,
            a,
            b,
        );
        if exists|k: int| 0 <= k < count && #[trigger] edges[k] == (Edge { from: a, to: b }) {
            let k = choose|k: int| 0 <= k < count && #[trigger] edges[k] == (Edge { from: a, to: b });
            if k < count - 1 {
                assert(has_edge(graph_of(edges, (count - 1) as nat), a, b));
            }
        }
        if has_edge(graph_of(edges, (count - 1) as nat), a, b) {
            let k = choose|k: int|
                0 <= k < count - 1 && #[trigger] edges[k] == (Edge { from: a, to: b });
            assert(0 <= k < count && edges[k] == (Edge { from: a, to: b }));
        }
        if a == edges[count - 1].from && b == edges[count - 1].to {
            assert(edges[count - 1] == (Edge { from: a, to: b }));
        }
    } else {
        lemma_place(graph_of(edges, 0), a, 0);
    }
}

/// The children of a record are the threads of the records that conflict with it, each once.
pub proof fn lemma_children_are_conflicts(list: Seq<Dependency>, entry: Dependency, count: nat)
    requires
        count <= list.len(),
    ensures
        children_among(list, entry, count).no_duplicates(),
        forall|thread_id: i64|
            children_among(list, entry, count).contains(thread_id) <==> exists|j: int|
                0 <= j < count && conflicts(entry, #[trigger] list[j]) && list[j].thread_id
                    == thread_id,
    decreases count,
{
    if count > 0 {
        lemma_children_are_conflicts(list, entry, (count - 1) as nat);
        let before = children_among(list, entry, (count - 1) as nat);
        let after = children_among(list, entry, count);
        let other = list[count - 1];
        assert forall|thread_id: i64| after.contains(thread_id) <==> exists|j: int|
            0 <= j < count && conflicts(entry, #[trigger] list[j]) && list[j].thread_id
                == thread_id by {
            if after.contains(thread_id) {
                let i = choose|i: int| 0 <= i < after.len() && after[i] == thread_id;
                if i < before.len() {
                    assert(before[i] == thread_id);
                    assert(before.contains(thread_id));
                    let j = choose|j: int|
                        0 <= j < count - 1 && conflicts(entry, #[trigger] list[j])
                            && list[j].thread_id == thread_id;
                    assert(0 <= j < count && conflicts(entry, list[j]));
                } else {
                    assert(conflicts(entry, list[count - 1]));
                }
            }
            if exists|j: int|
                0 <= j < count && conflicts(entry, #[trigger] list[j]) && list[j].thread_id
                    == thread_id {
                let j = choose|j: int|
                    0 <= j < count && conflicts(entry, #[trigger] list[j]) && list[j].thread_id
                        == thread_id;
                if j < count - 1 {
                    assert(before.contains(thread_id));
                    let i = choose|i: int| 0 <= i < before.len() && before[i] == thread_id;
                    assert(after[i] == thread_id);
                } else if before.contains(thread_id) {
                    let i = choose|i: int| 0 <= i < before.len() && before[i] == thread_id;
                    assert(after[i] == thread_id);
                } else {
                    assert(after[before.len() as int] == thread_id);
                }
            }
        }
    }
}

/// The thread-level dependency graph has an edge from thread `a` to thread
/// `b` exactly if a record of `b` conflicts with a record of `a`.
pub proof fn lemma_thread_edges_are_conflicts(list: Seq<Dependency>, count: nat, a: i64, b: i64)
    requires
        count <= list.len(),
    ensures
        thread_edges_among(list, count).contains(Edge { from: a, to: b }) <==> exists|
            i: int,
            j: int,
        |
            0 <= i < count && 0 <= j < list.len() && (#[trigger] list[i]).thread_id == a
                && conflicts(list[i], #[trigger] list[j]) && list[j].thread_id == b,
    decreases count,
{
    let wanted = Edge { from: a, to: b };
    if count > 0 {
        lemma_thread_edges_are_conflicts(list, (count - 1) as nat, a, b);
        let before = thread_edges_among(list, (count - 1) as nat);
        let entry = list[count - 1];
        let children = children_among(list, entry, list.len());
        let added = fan(entry.thread_id, children);
        let after = thread_edges_among(list, count);
        lemma_children_are_conflicts(list, entry, list.len());
        if after.contains(wanted) {
            let k = choose|k: int| 0 <= k < after.len() && after[k] == wanted;
            if k < before.len() {
                assert(before[k] == wanted);
                assert(before.contains(wanted));
                let (i, j) = choose|i: int, j: int|
                    0 <= i < count - 1 && 0 <= j < list.len() && (#[trigger] list[i]).thread_id
                        == a && conflicts(list[i], #[trigger] list[j]) && list[j].thread_id == b;
                assert(0 <= i < count && conflicts(list[i], list[j]));
            } else {
                assert(added[k - before.len()] == wanted);
                assert(children[k - before.len()] == b);
                assert(children.contains(b));
                let j = choose|j: int|
                    0 <= j < list.len() && conflicts(entry, #[trigger] list[j])
                        && list[j].thread_id == b;
                assert(list[count - 1].thread_id == a && conflicts(list[count - 1], list[j]));
            }
        }
        if exists|i: int, j: int|
            0 <= i < count && 0 <= j < list.len() && (#[trigger] list[i]).thread_id == a
                && conflicts(list[i], #[trigger] list[j]) && list[j].thread_id == b {
            let (i, j) = choose|i: int, j: int|
                0 <= i < count && 0 <= j < list.len() && (#[trigger] list[i]).thread_id == a
                    && conflicts(list[i], #[trigger] list[j]) && list[j].thread_id == b;
            if i < count - 1 {
                assert(before.contains(wanted));
                let k = choose|k: int| 0 <= k < before.len() && before[k] == wanted;
                assert(after[k] == wanted);
            } else {
                assert(children.contains(b));
                let k = choose|k: int| 0 <= k < children.len() && children[k] == b;
                assert(added[k] == wanted);
                assert(after[before.len() + k] == wanted);
            }
        }
    }
}

/// The graph that is built from the lock dependencies of a run has an edge
/// from thread `a` to thread `b` exactly if a record of `b` conflicts with
/// a record of `a`.
pub proof fn lemma_graph_edges_are_conflicts(list: Seq<Dependency>, a: i64, b: i64)
    ensures
        has_edge(graph_of(thread_edges(list), thread_edges(list).len()), a, b) <==> exists|
            i: int,
            j: int,
        |
            0 <= i < list.len() && 0 <= j < list.len() && (#[trigger] list[i]).thread_id == a
                && conflicts(list[i], #[trigger] list[j]) && list[j].thread_id == b,
{
    let edges = thread_edges(list);
    lemma_graph_of_edges(edges, edges.len(), a, b);
    lemma_thread_edges_are_conflicts(list, list.len(), a, b);
    let wanted = Edge { from: a, to: b };
    if edges.contains(wanted) {
        let k = choose|k: int| 0 <= k < edges.len() && edges[k] == wanted;
        assert(0 <= k < edges.len() && edges[k] == wanted);
    }
    if exists|k: int| 0 <= k < edges.len() && #[trigger] edges[k] == wanted {
        let k = choose|k: int| 0 <= k < edges.len() && #[trigger] edges[k] == wanted;
        assert(edges.contains(wanted));
    }
}

/// Whether each thread of `trail` but the last has an edge to the next.
pub open spec fn is_trail(graph: Seq<(i64, Seq<i64>)>, trail: Seq<i64>) -> bool {
    forall|i: int| 0 <= i < trail.len() - 1 ==> has_edge(graph, #[trigger] trail[i], trail[i + 1])
}

/// Whether `walk` follows at least one edge of the graph, from its first thread to its last.
pub open spec fn is_walk(graph: Seq<(i64, Seq<i64>)>, walk: Seq<i64>) -> bool {
    walk.len() >= 2 && is_trail(graph, walk)
}

/// Whether edges of the graph, at least one, lead from `from` to `to`.
pub open spec fn reaches(graph: Seq<(i64, Seq<i64>)>, from: i64, to: i64) -> bool {
    exists|walk: Seq<i64>| #[trigger]
        is_walk(graph, walk) && walk[0] == from && walk[walk.len() - 1] == to
}

/// Whether the thread lies on a cycle of the graph.
pub open spec fn on_cycle(graph: Seq<(i64, Seq<i64>)>, thread_id: i64) -> bool {
    reaches(graph, thread_id, thread_id)
}

/// Whether the graph has a cycle.
pub open spec fn cyclic(graph: Seq<(i64, Seq<i64>)>) -> bool {
    exists|thread_id: i64| #[trigger] on_cycle(graph, thread_id)
}

/// Whether the thread lies on a cycle of the graph or edges lead from it to one.
pub open spec fn leads_to_cycle(graph: Seq<(i64, Seq<i64>)>, thread_id: i64) -> bool {
    exists|on: i64| #[trigger]
        on_cycle(graph, on) && (on == thread_id || reaches(graph, thread_id, on))
}

/// An edge is a walk.
proof fn lemma_edge_reaches(graph: Seq<(i64, Seq<i64>)>, from: i64, to: i64)
    requires
        has_edge(graph, from, to),
    ensures
        reaches(graph, from, to),
{
    let walk = seq![from, to];
    assert(is_walk(graph, walk));
}

/// A walk and a walk from where it ends make a walk.
proof fn lemma_reaches_on(graph: Seq<(i64, Seq<i64>)>, from: i64, over: i64, to: i64)
    requires
        reaches(graph, from, over),
        reaches(graph, over, to),
    ensures
        reaches(graph, from, to),
{
    let first = choose|walk: Seq<i64>| #[trigger]
        is_walk(graph, walk) && walk[0] == from && walk[walk.len() - 1] == over;
    let second = choose|walk: Seq<i64>| #[trigger]
        is_walk(graph, walk) && walk[0] == over && walk[walk.len() - 1] == to;
    let walk = first + second.drop_first();
    assert forall|i: int| 0 <= i < walk.len() - 1 implies has_edge(
        graph,
        #[trigger] walk[i],
        walk[i + 1],
    ) by {
        if i < first.len() - 1 {
            assert(has_edge(graph, first[i], first[i + 1]));
        } else {
            let j = i - first.len() + 1;
            assert(has_edge(graph, second[j], second[j + 1]));
        }
    }
    assert(is_walk(graph, walk));
}

/// A thread with an edge to a thread that leads to a cycle leads to that cycle.
proof fn lemma_leads_back(graph: Seq<(i64, Seq<i64>)>, from: i64, to: i64)
    requires
        has_edge(graph, from, to),
        leads_to_cycle(graph, to),
    ensures
        leads_to_cycle(graph, from),
{
    let on = choose|on: i64| #[trigger]
        on_cycle(graph, on) && (on == to || reaches(graph, to, on));
    lemma_edge_reaches(graph, from, to);
    if on != to {
        lemma_reaches_on(graph, from, to, on);
    }
    assert(on_cycle(graph, on) && (on == from || reaches(graph, from, on)));
}

/// Every thread of a trail but the last reaches the last.
proof fn lemma_trail_reaches(graph: Seq<(i64, Seq<i64>)>, trail: Seq<i64>, at: int)
    requires
        is_trail(graph, trail),
        0 <= at < trail.len() - 1,
    ensures
        reaches(graph, trail[at], trail[trail.len() - 1]),
{
    let walk = trail.subrange(at, trail.len() as int);
    assert forall|i: int| 0 <= i < walk.len() - 1 implies has_edge(
        graph,
        #[trigger] walk[i],
        walk[i + 1],
    ) by {
        assert(has_edge(graph, trail[at + i], trail[at + i + 1]));
    }
    assert(is_walk(graph, walk));
}

/// Every thread of a trail whose last thread leads to a cycle leads to that cycle.
proof fn lemma_trail_leads(graph: Seq<(i64, Seq<i64>)>, trail: Seq<i64>, at: int)
    requires
        is_trail(graph, trail),
        0 <= at < trail.len(),
        leads_to_cycle(graph, trail[trail.len() - 1]),
    ensures
        leads_to_cycle(graph, trail[at]),
{
    if at < trail.len() - 1 {
        let last = trail[trail.len() - 1];
        let on = choose|on: i64| #[trigger]
            on_cycle(graph, on) && (on == last || reaches(graph, last, on));
        lemma_trail_reaches(graph, trail, at);
        if on != last {
            lemma_reaches_on(graph, trail[at], last, on);
        }
        assert(on_cycle(graph, on) && (on == trail[at] || reaches(graph, trail[at], on)));
    }
}

/// Whether every thread on the stack either leads to a cycle or is on the
/// trail along which the search has come.
pub open spec fn stack_explained(
    graph: Seq<(i64, Seq<i64>)>,
    search: Search,
    trail: Seq<i64>,
) -> bool {
    forall|thread_id: i64| #[trigger]
        search.on_stack.contains(thread_id) ==> leads_to_cycle(graph, thread_id)
            || trail.contains(thread_id)
}

/// Whether every thread that is on the stack of `after` was on the stack of
/// `before` or leads to a cycle.
pub open spec fn stack_grew_by_cycles(
    graph: Seq<(i64, Seq<i64>)>,
    before: Search,
    after: Search,
) -> bool {
    forall|thread_id: i64| #[trigger]
        after.on_stack.contains(thread_id) ==> before.on_stack.contains(thread_id)
            || leads_to_cycle(graph, thread_id)
}

/// A search from a thread that the trail has an edge to finds something
/// only if that thread leads to a cycle, and leaves on the stack, besides
/// what was there, only threads that lead to a cycle.
pub proof fn lemma_explore_sound(
    graph: Seq<(i64, Seq<i64>)>,
    thread_id: i64,
    search: Search,
    trail: Seq<i64>,
)
    requires
        stack_explained(graph, search, trail),
        is_trail(graph, trail.push(thread_id)),
    ensures
        explore(graph, thread_id, search).0 ==> leads_to_cycle(graph, thread_id),
        stack_grew_by_cycles(graph, search, explore(graph, thread_id, search).1),
    decreases unvisited(graph, search.visited.insert(thread_id)), 1nat, 0nat,
{
    let entered = Search {
        visited: search.visited.insert(thread_id),
        on_stack: search.on_stack.insert(thread_id),
    };
    let longer = trail.push(thread_id);
    assert forall|other: i64| #[trigger] entered.on_stack.contains(other) implies leads_to_cycle(
        graph,
        other,
    ) || longer.contains(other) by {
        if other == thread_id {
            assert(longer[longer.len() - 1] == other);
        } else if trail.contains(other) {
            let i = choose|i: int| 0 <= i < trail.len() && trail[i] == other;
            assert(longer[i] == other);
        }
    }
    lemma_explore_children_sound(graph, thread_id, 0, entered, longer);
}

/// The search through the children of the last thread of the trail finds
/// something only if that thread leads to a cycle, and leaves on the stack,
/// besides what was there, only threads that lead to a cycle.
pub proof fn lemma_explore_children_sound(
    graph: Seq<(i64, Seq<i64>)>,
    thread_id: i64,
    at: nat,
    search: Search,
    trail: Seq<i64>,
)
    requires
        stack_explained(graph, search, trail),
        is_trail(graph, trail),
        trail.len() > 0,
        trail[trail.len() - 1] == thread_id,
    ensures
        explore_children(graph, thread_id, at, search).0 ==> leads_to_cycle(graph, thread_id),
        stack_grew_by_cycles(graph, search, explore_children(graph, thread_id, at, search).1),
    decreases unvisited(graph, search.visited), 0nat, children_of(graph, thread_id).len() - at,
{
    let children = children_of(graph, thread_id);
    if at < children.len() {
        let child = children[at as int];
        assert(has_edge(graph, thread_id, child));
        if !search.visited.contains(child) {
            lemma_place(graph, thread_id, 0);
            lemma_child_is_thread(graph, graph.len(), place(graph, thread_id), at as int);
            lemma_visit_counts(graph, search.visited, child);
            assert forall|i: int| 0 <= i < trail.push(child).len() - 1 implies has_edge(
                graph,
                #[trigger] trail.push(child)[i],
                trail.push(child)[i + 1],
            ) by {
                if i < trail.len() - 1 {
                    assert(has_edge(graph, trail[i], trail[i + 1]));
                }
            }
            lemma_explore_sound(graph, child, search, trail);
            let (found, after) = explore(graph, child, search);
            if found {
                lemma_leads_back(graph, thread_id, child);
            } else {
                let known = Search {
                    visited: search.visited.union(after.visited),
                    on_stack: after.on_stack,
                };
                lemma_visited_more(graph, search.visited, known.visited);
                lemma_explore_children_sound(graph, thread_id, at + 1, known, trail);
            }
        } else if search.on_stack.contains(child) {
            if !leads_to_cycle(graph, child) {
                let i = choose|i: int| 0 <= i < trail.len() && trail[i] == child;
                if i < trail.len() - 1 {
                    lemma_trail_reaches(graph, trail, i);
                    lemma_edge_reaches(graph, thread_id, child);
                    lemma_reaches_on(graph, child, thread_id, child);
                } else {
                    lemma_edge_reaches(graph, thread_id, child);
                }
                assert(on_cycle(graph, child) && (child == child || reaches(graph, child, child)));
            }
            lemma_leads_back(graph, thread_id, child);
        } else {
            lemma_explore_children_sound(graph, thread_id, at + 1, search, trail);
        }
    }
}

/// A search from a thread takes that thread off the stack and leaves the
/// stack as it was otherwise, and forgets no visit.
pub proof fn lemma_explore_restores_stack(
    graph: Seq<(i64, Seq<i64>)>,
    thread_id: i64,
    search: Search,
)
    requires
        search.on_stack.subset_of(search.visited),
    ensures
        explore(graph, thread_id, search).1.on_stack == search.on_stack.remove(thread_id),
        search.visited.insert(thread_id).subset_of(explore(graph, thread_id, search).1.visited),
    decreases unvisited(graph, search.visited.insert(thread_id)), 1nat, 0nat,
{
    let entered = Search {
        visited: search.visited.insert(thread_id),
        on_stack: search.on_stack.insert(thread_id),
    };
    lemma_explore_children_restores_stack(graph, thread_id, 0, entered);
    assert(explore(graph, thread_id, search).1.on_stack =~= search.on_stack.remove(thread_id));
}

/// The search through the children of a thread leaves the stack as it was,
/// and forgets no visit.
pub proof fn lemma_explore_children_restores_stack(
    graph: Seq<(i64, Seq<i64>)>,
    thread_id: i64,
    at: nat,
    search: Search,
)
    requires
        search.on_stack.subset_of(search.visited),
    ensures
        explore_children(graph, thread_id, at, search).1.on_stack == search.on_stack,
        search.visited.subset_of(explore_children(graph, thread_id, at, search).1.visited),
    decreases unvisited(graph, search.visited), 0nat, children_of(graph, thread_id).len() - at,
{
    let children = children_of(graph, thread_id);
    if at < children.len() {
        let child = children[at as int];
        if !search.visited.contains(child) {
            lemma_place(graph, thread_id, 0);
            lemma_child_is_thread(graph, graph.len(), place(graph, thread_id), at as int);
            lemma_visit_counts(graph, search.visited, child);
            lemma_explore_restores_stack(graph, child, search);
            let (found, after) = explore(graph, child, search);
            assert(after.on_stack =~= search.on_stack);
            if !found {
                let known = Search {
                    visited: search.visited.union(after.visited),
                    on_stack: after.on_stack,
                };
                lemma_visited_more(graph, search.visited, known.visited);
                lemma_explore_children_restores_stack(graph, thread_id, at + 1, known);
            }
        } else if !search.on_stack.contains(child) {
            lemma_explore_children_restores_stack(graph, thread_id, at + 1, search);
        }
    }
}

/// Between two searches the stack is empty, and a search has reported a
/// deadlock only if the graph has a cycle.
pub proof fn lemma_survey_sound(graph: Seq<(i64, Seq<i64>)>, count: nat)
    requires
        count <= graph.len(),
    ensures
        survey(graph, count).1.on_stack == Set::<i64>::empty(),
        survey(graph, count).0 > 0 ==> cyclic(graph),
    decreases count,
{
    if count > 0 {
        lemma_survey_sound(graph, (count - 1) as nat);
        let (found, search) = survey(graph, (count - 1) as nat);
        let thread_id = graph[count - 1].0;
        if !search.visited.contains(thread_id) {
            let trail = Seq::<i64>::empty();
            assert(trail.push(thread_id).len() == 1);
            lemma_explore_sound(graph, thread_id, search, trail);
            lemma_explore_restores_stack(graph, thread_id, search);
            assert(search.on_stack.remove(thread_id) =~= Set::<i64>::empty());
            if explore(graph, thread_id, search).0 {
                let on = choose|on: i64| #[trigger]
                    on_cycle(graph, on) && (on == thread_id || reaches(graph, thread_id, on));
                assert(on_cycle(graph, on));
            }
        }
    }
}

/// How many of the first `count` nodes stand for a thread that lies on a
/// cycle or from which edges lead to one.
pub open spec fn leading_nodes(graph: Seq<(i64, Seq<i64>)>, count: nat) -> nat
    decreases count,
{
    if count == 0 {
        0
    } else if leads_to_cycle(graph, graph[count - 1].0) {
        leading_nodes(graph, (count - 1) as nat) + 1
    } else {
        leading_nodes(graph, (count - 1) as nat)
    }
}

/// Every search that reports a deadlock starts at a node of its own from
/// which edges lead to a cycle: there are no more deadlocks than such nodes.
pub proof fn lemma_deadlocks_start_before_cycles(graph: Seq<(i64, Seq<i64>)>, count: nat)
    requires
        count <= graph.len(),
    ensures
        survey(graph, count).0 <= leading_nodes(graph, count) <= count,
    decreases count,
{
    if count > 0 {
        lemma_deadlocks_start_before_cycles(graph, (count - 1) as nat);
        lemma_survey_sound(graph, (count - 1) as nat);
        let (found, search) = survey(graph, (count - 1) as nat);
        let thread_id = graph[count - 1].0;
        if !search.visited.contains(thread_id) {
            let trail = Seq::<i64>::empty();
            assert(trail.push(thread_id).len() == 1);
            lemma_explore_sound(graph, thread_id, search, trail);
        }
    }
}

/// The threads that the search has gone through to the end: visited, and off the stack.
pub open spec fn finished(search: Search) -> Set<i64> {
    search.visited.difference(search.on_stack)
}

/// Whether no edge of the graph leads out of the set.
pub open spec fn closed(graph: Seq<(i64, Seq<i64>)>, threads: Set<i64>) -> bool {
    forall|from: i64, to: i64|
        threads.contains(from) && #[trigger] has_edge(graph, from, to) ==> threads.contains(to)
}

/// Whether the search is in order: what is on the stack is visited, no edge
/// leads from a thread that it has gone through to one that it has not, and
/// none of those threads lies on a cycle.
pub open spec fn settled(graph: Seq<(i64, Seq<i64>)>, search: Search) -> bool {
    &&& search.on_stack.subset_of(search.visited)
    &&& closed(graph, finished(search))
    &&& forall|thread_id: i64| #[trigger]
        finished(search).contains(thread_id) ==> !on_cycle(graph, thread_id)
}

/// A trail that starts in a set that no edge leads out of stays in it.
proof fn lemma_closed_keeps_trails(
    graph: Seq<(i64, Seq<i64>)>,
    threads: Set<i64>,
    trail: Seq<i64>,
    at: int,
)
    requires
        closed(graph, threads),
        is_trail(graph, trail),
        0 <= at < trail.len(),
        threads.contains(trail[0]),
    ensures
        threads.contains(trail[at]),
    decreases at,
{
    if at > 0 {
        lemma_closed_keeps_trails(graph, threads, trail, at - 1);
        assert(has_edge(graph, trail[at - 1], trail[at - 1 + 1]));
    }
}

/// A thread all of whose children are in a set that no edge leads out of,
/// and which is not in that set itself, lies on no cycle.
proof fn lemma_no_way_back(graph: Seq<(i64, Seq<i64>)>, threads: Set<i64>, thread_id: i64)
    requires
        closed(graph, threads),
        !threads.contains(thread_id),
        forall|to: i64| #[trigger] has_edge(graph, thread_id, to) ==> threads.contains(to),
    ensures
        !on_cycle(graph, thread_id),
{
    if on_cycle(graph, thread_id) {
        let walk = choose|walk: Seq<i64>| #[trigger]
            is_walk(graph, walk) && walk[0] == thread_id && walk[walk.len() - 1] == thread_id;
        assert(has_edge(graph, walk[0int], walk[0int + 1]));
        let rest = walk.drop_first();
        assert forall|i: int| 0 <= i < rest.len() - 1 implies has_edge(
            graph,
            #[trigger] rest[i],
            rest[i + 1],
        ) by {
            assert(has_edge(graph, walk[i + 1], walk[i + 1 + 1]));
        }
        lemma_closed_keeps_trails(graph, threads, rest, rest.len() - 1);
    }
}

/// A search from an unvisited thread that finds nothing leaves the search
/// in order, and has gone through that thread to the end.
pub proof fn lemma_explore_settles(graph: Seq<(i64, Seq<i64>)>, thread_id: i64, search: Search)
    requires
        settled(graph, search),
        !search.visited.contains(thread_id),
    ensures
        ({
            let (found, after) = explore(graph, thread_id, search);
            &&& after.on_stack == search.on_stack
            &&& search.visited.subset_of(after.visited)
            &&& !found ==> settled(graph, after) && finished(search).subset_of(finished(after))
                && finished(after).contains(thread_id)
        }),
    decreases unvisited(graph, search.visited.insert(thread_id)), 1nat, 0nat,
{
    let entered = Search {
        visited: search.visited.insert(thread_id),
        on_stack: search.on_stack.insert(thread_id),
    };
    assert(finished(entered) =~= finished(search));
    lemma_explore_restores_stack(graph, thread_id, search);
    assert(search.on_stack.remove(thread_id) =~= search.on_stack);
    lemma_explore_children_settles(graph, thread_id, 0, entered);
    let (found, after) = explore_children(graph, thread_id, 0, entered);
    if !found {
        let left = Search { visited: after.visited, on_stack: after.on_stack.remove(thread_id) };
        assert(finished(left) =~= finished(after).insert(thread_id));
        assert forall|to: i64| #[trigger] has_edge(graph, thread_id, to) implies finished(
            after,
        ).contains(to) by {
            let i = choose|i: int|
                0 <= i < children_of(graph, thread_id).len() && children_of(graph, thread_id)[i]
                    == to;
            assert(finished(after).contains(children_of(graph, thread_id)[i]));
        }
        lemma_no_way_back(graph, finished(after), thread_id);
    }
}

/// The search through the children of a thread that is on the stack, if it
/// finds nothing, leaves the search in order and has gone through every
/// one of the children to the end.
pub proof fn lemma_explore_children_settles(
    graph: Seq<(i64, Seq<i64>)>,
    thread_id: i64,
    at: nat,
    search: Search,
)
    requires
        settled(graph, search),
        search.on_stack.contains(thread_id),
        forall|i: int|
            0 <= i < at && i < children_of(graph, thread_id).len() ==> finished(search).contains(
                #[trigger] children_of(graph, thread_id)[i],
            ),
    ensures
        ({
            let (found, after) = explore_children(graph, thread_id, at, search);
            &&& after.on_stack == search.on_stack
            &&& search.visited.subset_of(after.visited)
            &&& !found ==> settled(graph, after) && finished(search).subset_of(finished(after))
                && forall|i: int|
                0 <= i < children_of(graph, thread_id).len() ==> finished(after).contains(
                    #[trigger] children_of(graph, thread_id)[i],
                )
        }),
    decreases unvisited(graph, search.visited), 0nat, children_of(graph, thread_id).len() - at,
{
    let children = children_of(graph, thread_id);
    lemma_explore_children_restores_stack(graph, thread_id, at, search);
    if at < children.len() {
        let child = children[at as int];
        if !search.visited.contains(child) {
            lemma_place(graph, thread_id, 0);
            lemma_child_is_thread(graph, graph.len(), place(graph, thread_id), at as int);
            lemma_visit_counts(graph, search.visited, child);
            lemma_explore_settles(graph, child, search);
            let (found, after) = explore(graph, child, search);
            if !found {
                let known = Search {
                    visited: search.visited.union(after.visited),
                    on_stack: after.on_stack,
                };
                assert(known.visited =~= after.visited);
                assert(known == after);
                lemma_visited_more(graph, search.visited, known.visited);
                lemma_explore_children_settles(graph, thread_id, at + 1, known);
            }
        } else if search.on_stack.contains(child) {
        } else {
            lemma_explore_children_settles(graph, thread_id, at + 1, search);
        }
    }
}

/// A search that starts with an empty stack at an unvisited thread, after
/// searches that have found nothing, finds something exactly if the thread
/// lies on a cycle or edges lead from it to one. If it finds nothing, it
/// has visited every thread that edges lead to from the thread.
pub proof fn lemma_search_finds_cycles(graph: Seq<(i64, Seq<i64>)>, thread_id: i64, search: Search)
    requires
        settled(graph, search),
        search.on_stack == Set::<i64>::empty(),
        !search.visited.contains(thread_id),
    ensures
        explore(graph, thread_id, search).0 <==> leads_to_cycle(graph, thread_id),
        explore(graph, thread_id, search).1.on_stack == Set::<i64>::empty(),
        explore(graph, thread_id, search).1.visited.contains(thread_id),
        !explore(graph, thread_id, search).0 ==> forall|to: i64| #[trigger]
            reaches(graph, thread_id, to) ==> explore(graph, thread_id, search).1.visited.contains(
                to,
            ),
{
    let trail = Seq::<i64>::empty();
    assert(trail.push(thread_id).len() == 1);
    lemma_explore_sound(graph, thread_id, search, trail);
    lemma_explore_settles(graph, thread_id, search);
    lemma_explore_restores_stack(graph, thread_id, search);
    let (found, after) = explore(graph, thread_id, search);
    if !found {
        assert forall|to: i64| #[trigger] reaches(graph, thread_id, to) implies finished(
            after,
        ).contains(to) by {
            let walk = choose|walk: Seq<i64>| #[trigger]
                is_walk(graph, walk) && walk[0] == thread_id && walk[walk.len() - 1] == to;
            lemma_closed_keeps_trails(graph, finished(after), walk, walk.len() - 1);
        }
        if leads_to_cycle(graph, thread_id) {
            let on = choose|on: i64| #[trigger]
                on_cycle(graph, on) && (on == thread_id || reaches(graph, thread_id, on));
            assert(finished(after).contains(on));
        }
    }
}

/// A search that starts with nothing visited and nothing on the stack
/// finds something exactly if the thread lies on a cycle or edges lead from
/// it to one, and leaves nothing on the stack.
pub proof fn lemma_first_search_finds_cycles(graph: Seq<(i64, Seq<i64>)>, thread_id: i64)
    ensures
        ({
            let start = Search { visited: Set::empty(), on_stack: Set::empty() };
            &&& explore(graph, thread_id, start).0 <==> leads_to_cycle(graph, thread_id)
            &&& explore(graph, thread_id, start).1.on_stack == Set::<i64>::empty()
            &&& explore(graph, thread_id, start).1.visited.contains(thread_id)
            &&& !explore(graph, thread_id, start).0 ==> forall|to: i64| #[trigger]
                reaches(graph, thread_id, to) ==> explore(
                    graph,
                    thread_id,
                    start,
                ).1.visited.contains(to)
        }),
{
    let start = Search { visited: Set::<i64>::empty(), on_stack: Set::<i64>::empty() };
    assert(finished(start) =~= Set::<i64>::empty());
    lemma_search_finds_cycles(graph, thread_id, start);
}

/// Two empty tables are those of a search that starts afresh, at any thread.
pub proof fn lemma_empty_tables_are_fresh(graph: Seq<(i64, Seq<i64>)>, node: i64)
    ensures
        fresh_for(graph, Map::<i64, bool>::empty(), Map::<i64, bool>::empty(), node),
{
    let start = search_of(Map::<i64, bool>::empty(), Map::<i64, bool>::empty());
    assert(marked(Map::<i64, bool>::empty()) =~= Set::<i64>::empty());
    assert(finished(start) =~= Set::<i64>::empty());
}

/// As long as no search has reported a deadlock, the search is in order
/// and every node at which a search could have started has been gone
/// through to the end.
pub proof fn lemma_survey_settles(graph: Seq<(i64, Seq<i64>)>, count: nat)
    requires
        count <= graph.len(),
    ensures
        survey(graph, count).0 == 0 ==> settled(graph, survey(graph, count).1),
        survey(graph, count).0 == 0 ==> forall|i: int|
            0 <= i < count ==> finished(survey(graph, count).1).contains((#[trigger] graph[i]).0),
    decreases count,
{
    if count > 0 {
        lemma_survey_settles(graph, (count - 1) as nat);
        let (found, search) = survey(graph, (count - 1) as nat);
        let thread_id = graph[count - 1].0;
        if found == 0 {
            lemma_survey_sound(graph, (count - 1) as nat);
            if !search.visited.contains(thread_id) {
                lemma_explore_settles(graph, thread_id, search);
            } else {
                assert(finished(search).contains(thread_id));
            }
        }
    } else {
        assert(finished(survey(graph, 0).1) =~= Set::<i64>::empty());
    }
}

/// The search reports a deadlock exactly if the graph has a cycle.
pub proof fn lemma_deadlocks_are_cycles(graph: Seq<(i64, Seq<i64>)>)
    ensures
        deadlocks(graph) > 0 <==> cyclic(graph),
{
    lemma_survey_sound(graph, graph.len());
    lemma_survey_settles(graph, graph.len());
    if cyclic(graph) && deadlocks(graph) == 0 {
        let thread_id = choose|thread_id: i64| #[trigger] on_cycle(graph, thread_id);
        let walk = choose|walk: Seq<i64>| #[trigger]
            is_walk(graph, walk) && walk[0] == thread_id && walk[walk.len() - 1] == thread_id;
        assert(has_edge(graph, walk[0int], walk[0int + 1]));
        lemma_place(graph, thread_id, 0);
        assert(place(graph, thread_id) < graph.len());
        assert(graph[place(graph, thread_id)].0 == thread_id);
    }
}

} // verus!
