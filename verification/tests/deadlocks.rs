use std::collections::{HashMap, HashSet};
use trace_analyzer::analyzer::{disjoint_locks, validate_dependency_graph, Edge, LockDependency};
use trace_analyzer::arguments::Arguments;
use trace_analyzer::deadlock::{
    add_edge, contains_cycle, thread_dependency_edges, thread_dependency_graph, Graph, Node,
};
use trace_analyzer::graphviz::{edge_listing, lock_graph_listing, thread_graph_listing};
use trace_analyzer::trace::report;

fn set(locks: &[i64]) -> HashSet<i64> {
    locks.iter().copied().collect()
}

fn dependency(thread_id: i64, lock_id: i64, held: &[i64]) -> LockDependency {
    LockDependency { thread_id, lock_id, acquired_locks: set(held), line: 0 }
}

fn graph(edges: &[(i64, i64)]) -> Graph {
    let mut graph = Graph::new();
    for (from, to) in edges {
        add_edge(&mut graph, *from, *to);
    }
    graph
}

fn edge(from: i64, to: i64) -> Edge {
    Edge { from, to }
}

#[test]
fn edges_and_nodes_are_kept_in_the_order_in_which_they_come() {
    let graph = graph(&[(3, 1), (1, 2), (3, 2), (3, 1), (1, 2), (2, 2)]);
    assert_eq!(
        graph,
        Graph {
            nodes: vec![
                Node { thread_id: 3, children: vec![1, 2] },
                Node { thread_id: 1, children: vec![2] },
                Node { thread_id: 2, children: vec![2] },
            ]
        }
    );
    assert_eq!(graph.find(1), Some(1));
    assert_eq!(graph.find(3), Some(0));
    assert_eq!(graph.find(4), None);
    assert_eq!(Graph::new(), Graph { nodes: vec![] });
}

#[test]
fn a_graph_from_its_edges() {
    assert_eq!(
        thread_dependency_graph(&vec![edge(1, 2), edge(2, 1), edge(1, 2), edge(1, 3)]),
        graph(&[(1, 2), (2, 1), (1, 3)])
    );
    assert_eq!(thread_dependency_graph(&vec![]), Graph::new());
}

#[test]
fn sets_of_locks_without_a_common_lock() {
    assert!(disjoint_locks(&set(&[]), &set(&[])));
    assert!(disjoint_locks(&set(&[1, 2]), &set(&[])));
    assert!(disjoint_locks(&set(&[]), &set(&[1, 2])));
    assert!(disjoint_locks(&set(&[1, 2]), &set(&[3, 4])));
    assert!(!disjoint_locks(&set(&[1, 2]), &set(&[2, 3])));
    assert!(!disjoint_locks(&set(&[5]), &set(&[5])));
}

#[test]
fn two_threads_that_take_two_locks_in_opposite_order() {
    let dependencies = vec![
        dependency(1, 1, &[]),
        dependency(1, 2, &[1]),
        dependency(2, 2, &[]),
        dependency(2, 1, &[2]),
    ];
    let edges = thread_dependency_edges(&dependencies);
    assert_eq!(edges, vec![edge(1, 2), edge(2, 1)]);
    assert_eq!(validate_dependency_graph(thread_dependency_graph(&edges)), 1);
}

#[test]
fn a_lock_held_by_both_guards_against_the_deadlock() {
    let dependencies = vec![dependency(1, 2, &[0, 1]), dependency(2, 1, &[0, 2])];
    assert_eq!(thread_dependency_edges(&dependencies), vec![]);
}

#[test]
fn records_of_one_thread_give_no_edge() {
    let dependencies = vec![dependency(1, 2, &[1]), dependency(1, 1, &[2])];
    assert_eq!(thread_dependency_edges(&dependencies), vec![]);
}

#[test]
fn the_other_thread_must_have_held_the_acquired_lock() {
    // thread 2 held lock 3, not lock 2, and nobody held lock 4
    let dependencies = vec![dependency(1, 2, &[1]), dependency(2, 4, &[3])];
    assert_eq!(thread_dependency_edges(&dependencies), vec![]);
    // thread 1 held lock 1 when thread 2 took it: an edge from 2 to 1
    let dependencies = vec![dependency(1, 2, &[1]), dependency(2, 1, &[3])];
    assert_eq!(thread_dependency_edges(&dependencies), vec![edge(2, 1)]);
    // thread 2 held lock 2 when it took lock 4: that is enough for an edge from 1 to 2
    let dependencies = vec![dependency(1, 2, &[1]), dependency(2, 4, &[2])];
    assert_eq!(thread_dependency_edges(&dependencies), vec![edge(1, 2)]);
}

#[test]
fn each_record_names_each_child_once() {
    let dependencies = vec![
        dependency(1, 5, &[]),
        dependency(2, 6, &[5]),
        dependency(3, 7, &[5]),
        dependency(2, 8, &[5, 6]),
        dependency(1, 5, &[9]),
    ];
    assert_eq!(
        thread_dependency_edges(&dependencies),
        // the first record, then the last; the edges of a thread come once for each of its records
        vec![edge(1, 2), edge(1, 3), edge(1, 2), edge(1, 3)]
    );
    assert_eq!(
        thread_dependency_graph(&thread_dependency_edges(&dependencies)),
        graph(&[(1, 2), (1, 3)])
    );
}

#[test]
fn a_graph_without_a_cycle_has_no_deadlock() {
    assert_eq!(validate_dependency_graph(Graph::new()), 0);
    assert_eq!(validate_dependency_graph(graph(&[(1, 2)])), 0);
    assert_eq!(validate_dependency_graph(graph(&[(1, 2), (2, 3), (1, 3)])), 0);
    assert_eq!(validate_dependency_graph(graph(&[(1, 2), (1, 3), (2, 4), (3, 4)])), 0);
    assert_eq!(validate_dependency_graph(graph(&[(2, 3), (1, 2)])), 0);
}

#[test]
fn a_cycle_is_counted_by_the_search_that_finds_it() {
    assert_eq!(validate_dependency_graph(graph(&[(1, 1)])), 1);
    assert_eq!(validate_dependency_graph(graph(&[(1, 2), (2, 1)])), 1);
    assert_eq!(validate_dependency_graph(graph(&[(1, 2), (2, 3), (3, 1)])), 1);
    // two cycles apart from each other
    assert_eq!(validate_dependency_graph(graph(&[(1, 2), (2, 1), (3, 4), (4, 3)])), 2);
}

#[test]
fn a_thread_comes_off_the_stack_when_the_search_returns_from_it() {
    // 2 lies on a cycle and 1 has an edge to it: once the search from 2 has
    // returned, 2 is on no stack, and the search from 1 meets nothing
    assert_eq!(validate_dependency_graph(graph(&[(2, 2), (1, 2)])), 1);
    // the search from 1 goes on into 2 and meets it there
    assert_eq!(validate_dependency_graph(graph(&[(1, 2), (2, 2)])), 1);
    assert_eq!(validate_dependency_graph(graph(&[(1, 2), (2, 1), (3, 1)])), 1);
    assert_eq!(validate_dependency_graph(graph(&[(3, 1), (1, 2), (2, 1)])), 1);
}

#[test]
fn the_count_depends_on_the_order_of_the_nodes() {
    // the search from 1 finds the cycle of 1 and 2, the search from 3 its own
    assert_eq!(validate_dependency_graph(graph(&[(1, 2), (2, 1), (3, 1), (3, 3)])), 2);
    // the search from 3 finds the cycle of 1 and 2 and ends before it comes to its own
    assert_eq!(validate_dependency_graph(graph(&[(3, 1), (3, 3), (1, 2), (2, 1)])), 1);
}

#[test]
fn a_search_that_finds_nothing_leaves_the_stack_empty() {
    let diamond = graph(&[(1, 2), (1, 3), (2, 4), (3, 4)]);
    let mut visited = HashMap::new();
    let mut stack = HashMap::new();
    assert!(!contains_cycle(&diamond, 1, &mut visited, &mut stack));
    let seen: HashSet<i64> = visited.keys().copied().collect();
    assert_eq!(seen, set(&[1, 2, 3, 4]));
    assert!(visited.values().all(|flag| *flag));
    assert!(stack.values().all(|flag| !*flag));
    assert_eq!(stack.len(), 4);
}

#[test]
fn a_search_that_finds_a_cycle_ends_at_once_and_clears_the_stack() {
    let cycle = graph(&[(1, 2), (2, 1), (2, 3), (1, 4)]);
    let mut visited = HashMap::new();
    let mut stack = HashMap::new();
    assert!(contains_cycle(&cycle, 1, &mut visited, &mut stack));
    // 3 and 4 come behind the edge that closes the cycle
    let seen: HashSet<i64> = visited.keys().copied().collect();
    assert_eq!(seen, set(&[1, 2]));
    assert_eq!(visited[&1], true);
    assert_eq!(visited[&2], true);
    assert_eq!(stack.len(), 2);
    assert_eq!(stack[&1], false);
    assert_eq!(stack[&2], false);
}

#[test]
fn a_search_leaves_the_marks_of_others_as_they_are() {
    let chain = graph(&[(1, 2), (2, 3), (3, 4)]);
    let mut visited = HashMap::new();
    let mut stack = HashMap::new();
    visited.insert(3, false);
    visited.insert(9, true);
    stack.insert(9, true);
    stack.insert(8, false);
    stack.insert(3, false);
    // 3 counts as visited and is not on the stack: the search goes no further
    assert!(!contains_cycle(&chain, 1, &mut visited, &mut stack));
    assert_eq!(visited.len(), 4);
    assert_eq!(visited[&1], true);
    assert_eq!(visited[&2], true);
    assert_eq!(visited[&3], false);
    assert_eq!(visited[&9], true);
    assert_eq!(stack.len(), 5);
    assert_eq!(stack[&1], false);
    assert_eq!(stack[&2], false);
    assert_eq!(stack[&3], false);
    assert_eq!(stack[&8], false);
    assert_eq!(stack[&9], true);
    // a thread on the stack of another search is met
    let mut visited = HashMap::new();
    let mut stack = HashMap::new();
    visited.insert(3, true);
    stack.insert(3, true);
    assert!(contains_cycle(&chain, 1, &mut visited, &mut stack));
    assert_eq!(stack[&1], false);
    assert_eq!(stack[&2], false);
    assert_eq!(stack[&3], true);
}

#[test]
fn a_search_from_a_thread_without_a_node_visits_that_thread_only() {
    let mut visited = HashMap::new();
    let mut stack = HashMap::new();
    assert!(!contains_cycle(&graph(&[(1, 2)]), 7, &mut visited, &mut stack));
    assert_eq!(visited.len(), 1);
    assert_eq!(visited[&7], true);
    assert_eq!(stack[&7], false);
}

#[test]
fn a_listing_has_one_line_for_each_edge() {
    assert_eq!(lock_graph_listing(&vec![]), "digraph G {\n}\n");
    assert_eq!(
        lock_graph_listing(&vec![edge(1, 2), edge(2, 30), edge(0, 9223372036854775807)]),
        "digraph G {\n    L1 -> L2;\n    L2 -> L30;\n    L0 -> L9223372036854775807;\n}\n"
    );
    assert_eq!(
        thread_graph_listing(&vec![edge(6, 7), edge(7, 6)]),
        "digraph G {\n    T6 -> T7;\n    T7 -> T6;\n}\n"
    );
    assert_eq!(
        edge_listing("N", &vec![edge(-1, i64::MIN)]),
        "digraph G {\n    N-1 -> N-9223372036854775808;\n}\n"
    );
}

#[test]
fn the_report_counts_the_deadlocks() {
    let arguments = Arguments::new("trace.std", false, false, true, false);
    let dependencies = vec![
        dependency(1, 1, &[]),
        dependency(1, 2, &[1]),
        dependency(2, 2, &[]),
        dependency(2, 1, &[2]),
    ];
    let closed = report(&arguments, vec![], &vec![edge(1, 2)], &dependencies);
    assert_eq!(closed.outcome, Ok(()));
    assert_eq!(closed.lock_graph, None);
    assert_eq!(
        closed.thread_graph,
        Some("digraph G {\n    T1 -> T2;\n    T2 -> T1;\n}\n".to_string())
    );
    assert_eq!(closed.deadlocks, Some(1));

    let closed = report(&arguments, vec![], &vec![], &vec![dependency(1, 1, &[])]);
    assert_eq!(closed.thread_graph, Some("digraph G {\n}\n".to_string()));
    assert_eq!(closed.deadlocks, Some(0));
}
