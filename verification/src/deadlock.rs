//! The thread-level dependency graph and the search for deadlocks in it.
//!
//! Two lock dependencies of different threads conflict when the second was
//! recorded while its thread held the lock that the first acquires, and no
//! lock was held during both. The graph has an edge from the thread of the
//! first to the thread of the second. A depth-first search then counts the
//! nodes from which it finds its way back to a thread on its stack.
//!
//! Nodes and edges are kept in the order in which they were added: the
//! count depends on the order in which the search walks the graph, and this
//! way it is the same for the same trace every time.

use crate::analyzer::{dependencies, disjoint_locks, Dependency, Edge, LockDependency};
use crate::cycles::{
    cyclic, leads_to_cycle, lemma_deadlocks_are_cycles, lemma_search_finds_cycles, reaches,
    settled,
};
use std::collections::HashMap;
use vstd::prelude::*;

verus! {

broadcast use vstd::std_specs::hash::group_hash_axioms;

/// A thread and the threads that its edges lead to, in the order in which they were added.
#[derive(Debug, PartialEq, Eq)]
pub struct Node {
    pub thread_id: i64,
    pub children: Vec<i64>,
}

/// A directed graph of threads: its nodes in the order in which they were added.
#[derive(Debug, PartialEq, Eq)]
pub struct Graph {
    pub nodes: Vec<Node>,
}

impl View for Node {
    type V = (i64, Seq<i64>);

    open spec fn view(&self) -> (i64, Seq<i64>) {
        (self.thread_id, self.children@)
    }
}

impl View for Graph {
    type V = Seq<(i64, Seq<i64>)>;

    open spec fn view(&self) -> Seq<(i64, Seq<i64>)> {
        self.nodes@.map_values(|node: Node| node@)
    }
}

/// The place of the first node from `at` on that stands for `thread_id`, or
/// the number of nodes if there is none.
pub open spec fn place_from(graph: Seq<(i64, Seq<i64>)>, thread_id: i64, at: int) -> int
    decreases graph.len() - at,
{
    if at < 0 || at >= graph.len() {
        graph.len() as int
    } else if graph[at].0 == thread_id {
        at
    } else {
        place_from(graph, thread_id, at + 1)
    }
}

/// The place of the node that stands for `thread_id`, or the number of nodes if there is none.
pub open spec fn place(graph: Seq<(i64, Seq<i64>)>, thread_id: i64) -> int {
    place_from(graph, thread_id, 0)
}

/// The threads that the edges of `thread_id` lead to; none if the thread has no node.
pub open spec fn children_of(graph: Seq<(i64, Seq<i64>)>, thread_id: i64) -> Seq<i64> {
    if place(graph, thread_id) < graph.len() {
        graph[place(graph, thread_id)].1
    } else {
        Seq::empty()
    }
}

/// The graph with an edge from `from` to `to`: unless the edge is there, it
/// comes last among the edges of `from`, whose node, if it is new, comes
/// last among the nodes.
pub open spec fn edge_added(graph: Seq<(i64, Seq<i64>)>, from: i64, to: i64) -> Seq<
    (i64, Seq<i64>),
> {
    let at = place(graph, from);
    if at < graph.len() {
        if graph[at].1.contains(to) {
            graph
        } else {
            graph.update(at, (from, graph[at].1.push(to)))
        }
    } else {
        graph.push((from, seq![to]))
    }
}

/// Whether the graph maps threads to sets of threads: no thread has two
/// nodes, and no node names a child twice.
pub open spec fn is_mapping(graph: Seq<(i64, Seq<i64>)>) -> bool {
    &&& forall|i: int, j: int|
        0 <= i < j < graph.len() ==> (#[trigger] graph[i]).0 != (#[trigger] graph[j]).0
    &&& forall|i: int| 0 <= i < graph.len() ==> (#[trigger] graph[i]).1.no_duplicates()
}

/// The place of a thread's node is within the graph or just behind it, and
/// no node before it stands for the thread.
pub proof fn lemma_place(graph: Seq<(i64, Seq<i64>)>, thread_id: i64, at: int)
    requires
        0 <= at <= graph.len(),
    ensures
        at <= place_from(graph, thread_id, at) <= graph.len(),
        place_from(graph, thread_id, at) < graph.len() ==> graph[place_from(
            graph,
            thread_id,
            at,
        )].0 == thread_id,
        forall|i: int| at <= i < place_from(graph, thread_id, at) ==> (#[trigger] graph[i]).0
            != thread_id,
    decreases graph.len() - at,
{
    if at < graph.len() && graph[at].0 != thread_id {
        lemma_place(graph, thread_id, at + 1);
    }
}

impl Graph {
    /// A graph without nodes.
    pub fn new() -> (graph: Self)
        ensures
            graph@ == Seq::<(i64, Seq<i64>)>::empty(),
    {
        Graph { nodes: Vec::new() }
    }

    /// The place of the node that stands for `thread_id`.
    pub fn find(&self, thread_id: i64) -> (found: Option<usize>)
        ensures
            match found {
                Some(at) => at == place(self@, thread_id) && at < self.nodes.len(),
                None => place(self@, thread_id) == self@.len(),
            },
    {
        let mut at: usize = 0;
        while at < self.nodes.len()
            invariant
                at <= self.nodes.len(),
                place(self@, thread_id) == place_from(self@, thread_id, at as int),
            decreases self.nodes.len() - at,
        {
            if self.nodes[at].thread_id == thread_id {
                return Some(at);
            }
            at += 1;
        }
        None
    }
}

/// A graph that maps threads to sets of threads still does so with one more edge.
pub proof fn lemma_edge_added_keeps_mapping(graph: Seq<(i64, Seq<i64>)>, from: i64, to: i64)
    requires
        is_mapping(graph),
    ensures
        is_mapping(edge_added(graph, from, to)),
{
    lemma_place(graph, from, 0);
    let at = place(graph, from);
    let after = edge_added(graph, from, to);
    if at < graph.len() {
        if !graph[at].1.contains(to) {
            assert forall|i: int| 0 <= i < after.len() implies (#[trigger] after[i]).1.no_duplicates() by {
                if i != at {
                    assert(after[i] == graph[i]);
                }
            }
            assert forall|i: int, j: int| 0 <= i < j < after.len() implies (#[trigger] after[i]).0
                != (#[trigger] after[j]).0 by {
                assert(after[i].0 == graph[i].0 && after[j].0 == graph[j].0);
            }
        }
    } else {
        assert forall|i: int, j: int| 0 <= i < j < after.len() implies (#[trigger] after[i]).0
            != (#[trigger] after[j]).0 by {
            if j < graph.len() {
                assert(after[i] == graph[i] && after[j] == graph[j]);
            } else {
                assert(after[i] == graph[i]);
                assert(graph[i].0 != from);
            }
        }
        assert forall|i: int| 0 <= i < after.len() implies (#[trigger] after[i]).1.no_duplicates() by {
            if i < graph.len() {
                assert(after[i] == graph[i]);
            }
        }
    }
}

/// Adds the edge from `from` to `to` to the graph, unless it is there.
pub fn add_edge(graph: &mut Graph, from: i64, to: i64)
    ensures
        final(graph)@ == edge_added(old(graph)@, from, to),
        is_mapping(old(graph)@) ==> is_mapping(final(graph)@),
{
    proof {
        if is_mapping(graph@) {
            lemma_edge_added_keeps_mapping(graph@, from, to);
        }
    }
    match graph.find(from) {
        Some(at) => {
            let mut i: usize = 0;
            while i < graph.nodes[at].children.len()
                invariant
                    *graph == *old(graph),
                    at < graph.nodes.len(),
                    at == place(graph@, from),
                    i <= graph.nodes[at as int].children.len(),
                    forall|j: int| 0 <= j < i ==> graph.nodes[at as int].children[j] != to,
                decreases graph.nodes[at as int].children.len() - i,
            {
                if graph.nodes[at].children[i] == to {
                    assert(graph@[at as int].1[i as int] == to);
                    return ;
                }
                i += 1;
            }
            graph.nodes[at].children.push(to);
            proof {
                lemma_place(old(graph)@, from, 0);
                assert(graph@ =~= edge_added(old(graph)@, from, to));
            }
        },
        None => {
            let mut children: Vec<i64> = Vec::new();
            children.push(to);
            graph.nodes.push(Node { thread_id: from, children });
            assert(graph@ =~= edge_added(old(graph)@, from, to));
        },
    }
}

/// The threads that the first `count` nodes mention, as nodes or as
/// children, one after the other.
pub open spec fn mentions(graph: Seq<(i64, Seq<i64>)>, count: nat) -> Seq<i64>
    decreases count,
{
    if count == 0 {
        Seq::empty()
    } else {
        mentions(graph, (count - 1) as nat) + seq![graph[count - 1].0] + graph[count - 1].1
    }
}

/// The threads of the graph.
pub open spec fn threads(graph: Seq<(i64, Seq<i64>)>) -> Set<i64> {
    mentions(graph, graph.len()).to_set()
}

/// How many threads of the graph the search has not visited.
pub open spec fn unvisited(graph: Seq<(i64, Seq<i64>)>, visited: Set<i64>) -> nat {
    threads(graph).difference(visited).len()
}

/// What the search knows: the threads it has visited, and those that it
/// takes to be on its way from the thread at which it was started to the
/// thread at which it stands.
#[verifier::ext_equal]
pub struct Search {
    pub visited: Set<i64>,
    pub on_stack: Set<i64>,
}

/// A child of a node is a thread of the graph.
pub proof fn lemma_child_is_thread(graph: Seq<(i64, Seq<i64>)>, count: nat, at: int, child: int)
    requires
        0 <= at < count <= graph.len(),
        0 <= child < graph[at].1.len(),
    ensures
        mentions(graph, count).contains(graph[at].1[child]),
    decreases count,
{
    let before = mentions(graph, (count - 1) as nat) + seq![graph[count - 1].0];
    if at == count - 1 {
        assert(mentions(graph, count)[before.len() + child] == graph[at].1[child]);
    } else {
        lemma_child_is_thread(graph, (count - 1) as nat, at, child);
        let shorter = mentions(graph, (count - 1) as nat);
        let earlier = choose|i: int| 0 <= i < shorter.len() && shorter[i] == graph[at].1[child];
        assert(mentions(graph, count)[earlier] == graph[at].1[child]);
    }
}

/// Visiting one more thread of the graph leaves fewer threads unvisited.
pub proof fn lemma_visit_counts(graph: Seq<(i64, Seq<i64>)>, visited: Set<i64>, thread_id: i64)
    requires
        threads(graph).contains(thread_id),
        !visited.contains(thread_id),
    ensures
        unvisited(graph, visited.insert(thread_id)) < unvisited(graph, visited),
{
    vstd::seq_lib::seq_to_set_is_finite(mentions(graph, graph.len()));
    let left = threads(graph).difference(visited);
    assert(threads(graph).difference(visited.insert(thread_id)) =~= left.remove(thread_id));
    vstd::set_lib::lemma_len_subset(left, threads(graph));
}

/// A search that has visited more leaves no more threads unvisited.
pub proof fn lemma_visited_more(graph: Seq<(i64, Seq<i64>)>, visited: Set<i64>, more: Set<i64>)
    requires
        visited.subset_of(more),
    ensures
        unvisited(graph, more) <= unvisited(graph, visited),
{
    vstd::seq_lib::seq_to_set_is_finite(mentions(graph, graph.len()));
    vstd::set_lib::lemma_len_subset(threads(graph).difference(visited), threads(graph));
    vstd::set_lib::lemma_len_subset(
        threads(graph).difference(more),
        threads(graph).difference(visited),
    );
}

/// The depth-first search from `thread_id`: whether it meets a thread that
/// is on the stack, and what the search knows afterwards.
///
/// The thread is marked as visited and put on the stack, and its children
/// are gone through in their order. A search that meets a thread on the
/// stack ends at once. Whether or not it has met one, the thread comes off
/// the stack again when the search returns from it.
pub open spec fn explore(graph: Seq<(i64, Seq<i64>)>, thread_id: i64, search: Search) -> (
    bool,
    Search,
)
    decreases unvisited(graph, search.visited.insert(thread_id)), 1nat, 0nat,
{
    let entered = Search {
        visited: search.visited.insert(thread_id),
        on_stack: search.on_stack.insert(thread_id),
    };
    let (found, after) = explore_children(graph, thread_id, 0, entered);
    (found, Search { visited: after.visited, on_stack: after.on_stack.remove(thread_id) })
}

/// The search through the children of `thread_id` from the child at `at`
/// on. An unvisited child is searched from; a visited child that is on the
/// stack ends the search.
///
/// The search from a child forgets no visit, so the union with what was
/// visited before adds nothing; it is written down because it shows that
/// the number of unvisited threads, by which the search ends, never grows.
pub open spec fn explore_children(
    graph: Seq<(i64, Seq<i64>)>,
    thread_id: i64,
    at: nat,
    search: Search,
) -> (bool, Search)
    decreases unvisited(graph, search.visited), 0nat, children_of(graph, thread_id).len() - at,
{
    let children = children_of(graph, thread_id);
    if at >= children.len() {
        (false, search)
    } else {
        let child = children[at as int];
        if !search.visited.contains(child) {
            proof {
                lemma_place(graph, thread_id, 0);
                lemma_child_is_thread(graph, graph.len(), place(graph, thread_id), at as int);
                lemma_visit_counts(graph, search.visited, child);
            }
            let (found, after) = explore(graph, child, search);
            if found {
                (true, after)
            } else {
                let known = Search {
                    visited: search.visited.union(after.visited),
                    on_stack: after.on_stack,
                };
                proof {
                    lemma_visited_more(graph, search.visited, known.visited);
                }
                explore_children(graph, thread_id, at + 1, known)
            }
        } else if search.on_stack.contains(child) {
            (true, search)
        } else {
            explore_children(graph, thread_id, at + 1, search)
        }
    }
}

/// The threads whose flag is set.
pub open spec fn marked(flags: Map<i64, bool>) -> Set<i64> {
    Set::new(|thread_id: i64| flags.contains_key(thread_id) && flags[thread_id])
}

/// What a search knows that keeps its marks in two tables: a thread is
/// visited when the first table has an entry for it, and on the stack when
/// its flag in the second table is set.
pub open spec fn search_of(visited: Map<i64, bool>, recursion_stack: Map<i64, bool>) -> Search {
    Search { visited: visited.dom(), on_stack: marked(recursion_stack) }
}

/// Whether the table of visits `after` is the table `before` with the
/// threads that a search from `node` has visited: each of them, `node`
/// among them, has its flag set, and every other entry is as it was.
pub open spec fn visits_marked(before: Map<i64, bool>, after: Map<i64, bool>, node: i64) -> bool {
    forall|thread_id: i64| #[trigger]
        after.contains_key(thread_id) ==> after[thread_id] == (if before.contains_key(thread_id)
            && thread_id != node {
            before[thread_id]
        } else {
            true
        })
}

/// Whether `thread_id` is a thread that a search from `node` has entered:
/// `node` itself, or a thread that is visited now and was not before.
pub open spec fn entered_by(
    visited_before: Map<i64, bool>,
    visited_after: Map<i64, bool>,
    node: i64,
    thread_id: i64,
) -> bool {
    thread_id == node || (visited_after.contains_key(thread_id) && !visited_before.contains_key(
        thread_id,
    ))
}

/// Whether the table of the stack `after` is the table `before` after a
/// search from `node` has returned: every thread that the search has
/// entered has an entry with its flag cleared, and every other entry is as
/// it was.
pub open spec fn stack_cleared(
    before: Map<i64, bool>,
    after: Map<i64, bool>,
    visited_before: Map<i64, bool>,
    visited_after: Map<i64, bool>,
    node: i64,
) -> bool {
    forall|thread_id: i64|
        #![trigger after.contains_key(thread_id)]
        #![trigger after[thread_id]]
        if entered_by(visited_before, visited_after, node, thread_id) {
            after.contains_key(thread_id) && !after[thread_id]
        } else {
            after.contains_key(thread_id) == before.contains_key(thread_id) && (
            after.contains_key(thread_id) ==> after[thread_id] == before[thread_id])
        }
}

/// Whether the two tables are those of a search that may start at `node`
/// and tell of cycles: nothing is on the stack, `node` is not visited, and
/// the visits are those of searches that have found nothing, as they are
/// where nothing is visited at all.
pub open spec fn fresh_for(
    graph: Seq<(i64, Seq<i64>)>,
    visited: Map<i64, bool>,
    recursion_stack: Map<i64, bool>,
    node: i64,
) -> bool {
    &&& marked(recursion_stack) == Set::<i64>::empty()
    &&& !visited.contains_key(node)
    &&& settled(graph, search_of(visited, recursion_stack))
}

/// Searches the graph depth-first from `node` and says whether it met a
/// thread that is on the stack.
///
/// Where the search starts afresh, it finds something exactly if `node`
/// lies on a cycle or edges lead from it to one, and if it finds nothing,
/// it has visited every thread that edges lead to from `node`.
///
/// Every thread that the search enters is marked as visited, with its flag
/// set, and is on the stack while the search is below it; when the search
/// returns from it, with or without a find, its flag on the stack is
/// cleared.
pub fn contains_cycle(
    graph: &Graph,
    node: i64,
    visited: &mut HashMap<i64, bool>,
    recursion_stack: &mut HashMap<i64, bool>,
) -> (found: bool)
    ensures
        found == explore(graph@, node, search_of(old(visited)@, old(recursion_stack)@)).0,
        search_of(final(visited)@, final(recursion_stack)@) == explore(
            graph@,
            node,
            search_of(old(visited)@, old(recursion_stack)@),
        ).1,
        old(visited)@.dom().subset_of(final(visited)@.dom()),
        final(visited)@.contains_key(node),
        visits_marked(old(visited)@, final(visited)@, node),
        stack_cleared(
            old(recursion_stack)@,
            final(recursion_stack)@,
            old(visited)@,
            final(visited)@,
            node,
        ),
        fresh_for(graph@, old(visited)@, old(recursion_stack)@, node) ==> (found
            <==> leads_to_cycle(graph@, node)),
        fresh_for(graph@, old(visited)@, old(recursion_stack)@, node) && !found ==> forall|
            to: i64,
        | #[trigger]
            reaches(graph@, node, to) ==> final(visited)@.contains_key(to),
    decreases unvisited(graph@, old(visited)@.dom().insert(node)),
{
    proof {
        if fresh_for(graph@, old(visited)@, old(recursion_stack)@, node) {
            lemma_search_finds_cycles(
                graph@,
                node,
                search_of(old(visited)@, old(recursion_stack)@),
            );
        }
    }
    visited.insert(node, true);
    recursion_stack.insert(node, true);
    let ghost entered = search_of(visited@, recursion_stack@);
    assert(entered =~= Search {
        visited: old(visited)@.dom().insert(node),
        on_stack: marked(old(recursion_stack)@).insert(node),
    });
    let mut found = false;

    if let Some(at) = graph.find(node) {
        let children = &graph.nodes[at].children;
        let mut i: usize = 0;
        while !found && i < children.len()
            invariant
                i <= children.len(),
                at < graph@.len(),
                at == place(graph@, node),
                children@ == graph@[at as int].1,
                children@ == children_of(graph@, node),
                entered.visited.subset_of(visited@.dom()),
                entered.visited == old(visited)@.dom().insert(node),
                entered.on_stack == marked(old(recursion_stack)@).insert(node),
                visits_marked(old(visited)@, visited@, node),
                forall|thread_id: i64|
                    #![trigger recursion_stack@.contains_key(thread_id)]
                    #![trigger recursion_stack@[thread_id]]
                    if thread_id == node {
                        recursion_stack@.contains_key(thread_id) && recursion_stack@[thread_id]
                    } else if entered_by(old(visited)@, visited@, node, thread_id) {
                        recursion_stack@.contains_key(thread_id) && !recursion_stack@[thread_id]
                    } else {
                        recursion_stack@.contains_key(thread_id) == old(
                            recursion_stack,
                        )@.contains_key(thread_id) && (recursion_stack@.contains_key(thread_id)
                            ==> recursion_stack@[thread_id] == old(recursion_stack)@[thread_id])
                    },
                explore_children(graph@, node, 0, entered) == if found {
                    (true, search_of(visited@, recursion_stack@))
                } else {
                    explore_children(
                        graph@,
                        node,
                        i as nat,
                        search_of(visited@, recursion_stack@),
                    )
                },
            decreases children.len() - i + if found { 0int } else { 1int },
        {
            let child = children[i];
            let ghost before = search_of(visited@, recursion_stack@);
            if visited.get(&child).is_none() {
                proof {
                    lemma_place(graph@, node, 0);
                    lemma_child_is_thread(graph@, graph@.len(), at as int, i as int);
                    lemma_visit_counts(graph@, visited@.dom(), child);
                    lemma_visited_more(graph@, entered.visited, visited@.dom());
                }
                if contains_cycle(graph, child, visited, recursion_stack) {
                    found = true;
                } else {
                    assert(search_of(visited@, recursion_stack@) =~= Search {
                        visited: before.visited.union(explore(graph@, child, before).1.visited),
                        on_stack: explore(graph@, child, before).1.on_stack,
                    });
                    i += 1;
                }
            } else {
                let on_stack = match recursion_stack.get(&child) {
                    Some(flag) => *flag,
                    None => false,
                };
                if on_stack {
                    found = true;
                } else {
                    i += 1;
                }
            }
        }
    }
    recursion_stack.insert(node, false);
    assert(search_of(visited@, recursion_stack@) =~= explore(
        graph@,
        node,
        search_of(old(visited)@, old(recursion_stack)@),
    ).1);

    found
}

/// The search over the first `count` nodes of the graph: a depth-first
/// search is started at each of them that is not visited when its turn
/// comes. The result is the number of those searches that met a thread on
/// the stack, and what the search knows at the end.
pub open spec fn survey(graph: Seq<(i64, Seq<i64>)>, count: nat) -> (nat, Search)
    decreases count,
{
    if count == 0 {
        (0, Search { visited: Set::empty(), on_stack: Set::empty() })
    } else {
        let (found, search) = survey(graph, (count - 1) as nat);
        let thread_id = graph[count - 1].0;
        if search.visited.contains(thread_id) {
            (found, search)
        } else {
            let (cycle, after) = explore(graph, thread_id, search);
            (
                if cycle {
                    found + 1
                } else {
                    found
                },
                after,
            )
        }
    }
}

/// The number of deadlocks that the search reports for the graph.
pub open spec fn deadlocks(graph: Seq<(i64, Seq<i64>)>) -> nat {
    survey(graph, graph.len()).0
}

/// Investigates a given directed graph if it contains a cycle via depth first search.
///
/// Returns the number of searches, started at the nodes in their order,
/// that met a thread on the stack. The number is above zero exactly if the
/// graph has a cycle.
pub fn validate_dependency_graph(graph: Graph) -> (found_deadlocks: usize)
    ensures
        found_deadlocks == deadlocks(graph@),
        found_deadlocks > 0 <==> cyclic(graph@),
        found_deadlocks <= graph@.len(),
{
    let mut visited = HashMap::<i64, bool>::new();
    let mut recursion_stack = HashMap::<i64, bool>::new();

    let mut found_deadlocks: usize = 0;
    assert(search_of(visited@, recursion_stack@) =~= survey(graph@, 0).1);

    let mut i: usize = 0;
    while i < graph.nodes.len()
        invariant
            i <= graph.nodes.len(),
            found_deadlocks <= i,
            found_deadlocks == survey(graph@, i as nat).0,
            search_of(visited@, recursion_stack@) == survey(graph@, i as nat).1,
        decreases graph.nodes.len() - i,
    {
        let node = graph.nodes[i].thread_id;
        if visited.get(&node).is_none() && contains_cycle(
            &graph,
            node,
            &mut visited,
            &mut recursion_stack,
        ) {
            found_deadlocks += 1;
        }
        i += 1;
    }
    proof {
        lemma_deadlocks_are_cycles(graph@);
    }

    found_deadlocks
}

/// Whether the acquire that `other` records may deadlock with the one that
/// `entry` records: the two are of different threads, `other` was made
/// while holding the lock that `entry` acquires, and no lock was held
/// during both.
pub open spec fn conflicts(entry: Dependency, other: Dependency) -> bool {
    other.thread_id != entry.thread_id && other.acquired_locks.disjoint(entry.acquired_locks)
        && other.acquired_locks.contains(entry.lock_id)
}

/// The threads of those among the first `count` records that conflict with
/// `entry`, each thread once, in the order in which the records come.
pub open spec fn children_among(list: Seq<Dependency>, entry: Dependency, count: nat) -> Seq<i64>
    decreases count,
{
    if count == 0 {
        Seq::empty()
    } else {
        let before = children_among(list, entry, (count - 1) as nat);
        let other = list[count - 1];
        if conflicts(entry, other) && !before.contains(other.thread_id) {
            before.push(other.thread_id)
        } else {
            before
        }
    }
}

/// The edges from `from` to each of `children`.
pub open spec fn fan(from: i64, children: Seq<i64>) -> Seq<Edge> {
    children.map_values(|to: i64| Edge { from, to })
}

/// The edges that the first `count` records give: for each record in turn,
/// an edge from its thread to each thread that has a conflicting record.
pub open spec fn thread_edges_among(list: Seq<Dependency>, count: nat) -> Seq<Edge>
    decreases count,
{
    if count == 0 {
        Seq::empty()
    } else {
        thread_edges_among(list, (count - 1) as nat) + fan(
            list[count - 1].thread_id,
            children_among(list, list[count - 1], list.len()),
        )
    }
}

/// The edges of the thread-level dependency graph, in the order in which they are found.
pub open spec fn thread_edges(list: Seq<Dependency>) -> Seq<Edge> {
    thread_edges_among(list, list.len())
}

/// The graph that holds the first `count` of the edges, added one after the other.
pub open spec fn graph_of(edges: Seq<Edge>, count: nat) -> Seq<(i64, Seq<i64>)>
    decreases count,
{
    if count == 0 {
        Seq::empty()
    } else {
        edge_added(graph_of(edges, (count - 1) as nat), edges[count - 1].from, edges[count - 1].to)
    }
}

/// A graph that is built from edges maps threads to sets of threads.
pub proof fn lemma_graph_of_is_mapping(edges: Seq<Edge>, count: nat)
    ensures
        is_mapping(graph_of(edges, count)),
    decreases count,
{
    if count > 0 {
        lemma_graph_of_is_mapping(edges, (count - 1) as nat);
        lemma_edge_added_keeps_mapping(
            graph_of(edges, (count - 1) as nat),
            edges[count - 1].from,
            edges[count - 1].to,
        );
    }
}

/// Whether `thread_id` is among `threads`.
fn has_thread(threads: &Vec<i64>, thread_id: i64) -> (found: bool)
    ensures
        found == threads@.contains(thread_id),
{
    let mut i: usize = 0;
    while i < threads.len()
        invariant
            i <= threads.len(),
            forall|j: int| 0 <= j < i ==> threads[j] != thread_id,
        decreases threads.len() - i,
    {
        if threads[i] == thread_id {
            return true;
        }
        i += 1;
    }
    false
}

/// Finds the edges of the thread-level dependency graph: for each lock
/// dependency in turn, an edge from its thread to each thread that has a
/// conflicting lock dependency.
pub fn thread_dependency_edges(lock_dependencies: &Vec<LockDependency>) -> (edges: Vec<Edge>)
    ensures
        edges@ == thread_edges(dependencies(lock_dependencies@)),
{
    let ghost list = dependencies(lock_dependencies@);
    let mut edges: Vec<Edge> = Vec::new();
    let mut i: usize = 0;
    while i < lock_dependencies.len()
        invariant
            i <= lock_dependencies.len(),
            list == dependencies(lock_dependencies@),
            edges@ == thread_edges_among(list, i as nat),
        decreases lock_dependencies.len() - i,
    {
        let entry = &lock_dependencies[i];
        let mut children: Vec<i64> = Vec::new();
        let mut j: usize = 0;
        while j < lock_dependencies.len()
            invariant
                j <= lock_dependencies.len(),
                i < lock_dependencies.len(),
                list == dependencies(lock_dependencies@),
                *entry == lock_dependencies[i as int],
                children@ == children_among(list, list[i as int], j as nat),
            decreases lock_dependencies.len() - j,
        {
            let other = &lock_dependencies[j];
            if other.thread_id != entry.thread_id && other.acquired_locks.contains(&entry.lock_id)
                && disjoint_locks(&other.acquired_locks, &entry.acquired_locks) && !has_thread(
                &children,
                other.thread_id,
            ) {
                children.push(other.thread_id);
            }
            j += 1;
        }
        let ghost before = edges@;
        let mut k: usize = 0;
        while k < children.len()
            invariant
                k <= children.len(),
                i < lock_dependencies.len(),
                *entry == lock_dependencies[i as int],
                edges@ == before + fan(entry.thread_id, children@.subrange(0, k as int)),
            decreases children.len() - k,
        {
            edges.push(Edge { from: entry.thread_id, to: children[k] });
            assert(edges@ =~= before + fan(entry.thread_id, children@.subrange(0, k as int + 1)));
            k += 1;
        }
        assert(children@.subrange(0, children@.len() as int) =~= children@);
        i += 1;
    }
    edges
}

/// Builds the thread-level dependency graph from its edges.
pub fn thread_dependency_graph(edges: &Vec<Edge>) -> (graph: Graph)
    ensures
        graph@ == graph_of(edges@, edges@.len()),
        is_mapping(graph@),
{
    proof {
        lemma_graph_of_is_mapping(edges@, edges@.len());
    }
    let mut graph = Graph::new();
    let mut i: usize = 0;
    while i < edges.len()
        invariant
            i <= edges.len(),
            graph@ == graph_of(edges@, i as nat),
        decreases edges.len() - i,
    {
        add_edge(&mut graph, edges[i].from, edges[i].to);
        i += 1;
    }
    graph
}

} // verus!
