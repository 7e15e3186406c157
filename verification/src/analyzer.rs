//! The streaming check of the lock discipline, with the lock graph and the
//! lock dependencies that it collects on the way.

use crate::arguments::Arguments;
pub use crate::deadlock::validate_dependency_graph;
use crate::error::AnalyzerError;
use crate::parser::{Event, Operation};
use std::collections::HashMap;
use std::collections::HashSet;
use vstd::prelude::*;
use vstd::std_specs::iter::IteratorSpec;

verus! {

broadcast use vstd::std_specs::hash::group_hash_axioms;

/// What is known of one lock: who holds it, and the row at which that last changed.
#[derive(Clone, Copy, Debug, PartialEq, Eq, Structural)]
pub struct Lock {
    pub owner: Option<i64>,
    pub locked: bool,
    pub row: usize,
}

impl Lock {
    /// A lock is locked exactly when it has an owner.
    pub open spec fn consistent(self) -> bool {
        self.locked == self.owner.is_some()
    }

    /// Whether `thread_id` holds the lock.
    pub open spec fn held_by(self, thread_id: i64) -> bool {
        self.locked && self.owner == Some(thread_id)
    }

    /// Whether a thread other than `thread_id` holds the lock.
    pub open spec fn held_by_other(self, thread_id: i64) -> bool {
        self.locked && self.owner.is_some() && self.owner != Some(thread_id)
    }
}

/// An edge of the lock graph: `to` was acquired by a thread that held `from`.
#[derive(Clone, Copy, Debug, PartialEq, Eq, Hash, Structural)]
pub struct Edge {
    pub from: i64,
    pub to: i64,
}

/// A thread acquired `lock_id` at row `line` while it held `acquired_locks`.
#[derive(Debug, PartialEq, Eq)]
pub struct LockDependency {
    pub thread_id: i64,
    pub lock_id: i64,
    pub acquired_locks: HashSet<i64>,
    pub line: usize,
}

/// The mathematical content of a [`LockDependency`].
#[verifier::ext_equal]
pub struct Dependency {
    pub thread_id: i64,
    pub lock_id: i64,
    pub acquired_locks: Set<i64>,
    pub line: usize,
}

impl View for LockDependency {
    type V = Dependency;

    open spec fn view(&self) -> Dependency {
        Dependency {
            thread_id: self.thread_id,
            lock_id: self.lock_id,
            acquired_locks: self.acquired_locks@,
            line: self.line,
        }
    }
}

impl Dependency {
    /// The record after its thread has let go of `lock_id`.
    pub open spec fn without(self, lock_id: i64) -> Dependency {
        Dependency { acquired_locks: self.acquired_locks.remove(lock_id), ..self }
    }

    /// Whether the record says that `thread_id` acquired `lock_id` while holding exactly `held`.
    pub open spec fn records(self, thread_id: i64, lock_id: i64, held: Set<i64>) -> bool {
        self.thread_id == thread_id && self.lock_id == lock_id && self.acquired_locks == held
    }
}

impl LockDependency {
    /// Takes `lock_id` out of the locks that the record's thread held.
    pub fn remove_lock(&mut self, lock_id: i64)
        ensures
            final(self)@ == old(self)@.without(lock_id),
    {
        self.acquired_locks.remove(&lock_id);
    }
}

/// The dependency list as a sequence of mathematical records.
pub open spec fn dependencies(list: Seq<LockDependency>) -> Seq<Dependency> {
    list.map_values(|dependency: LockDependency| dependency@)
}

/// The edges of a lock graph as a set of pairs `(from, to)`.
pub open spec fn edge_set(edges: Seq<Edge>) -> Set<(i64, i64)> {
    Set::new(|pair: (i64, i64)| edges.contains(Edge { from: pair.0, to: pair.1 }))
}

/// Whether every lock that is known is locked exactly when it has an owner.
pub open spec fn locks_consistent(locks: Map<i64, Lock>) -> bool {
    forall|lock_id: i64| #[trigger] locks.contains_key(lock_id) ==> locks[lock_id].consistent()
}

/// The locks that `thread_id` holds.
pub open spec fn held_locks(locks: Map<i64, Lock>, thread_id: i64) -> Set<i64> {
    Set::new(|lock_id: i64| locks.contains_key(lock_id) && locks[lock_id].held_by(thread_id))
}

impl Event {
    /// An acquire or a release says which lock it means.
    pub open spec fn names_its_lock(self) -> bool {
        (self.operation is Acquire || self.operation is Release) ==> self.operand.spec_id() is Some
    }

    /// The number in the operand: for an acquire or a release, the lock.
    pub open spec fn lock(self) -> i64 {
        self.operand.spec_id().unwrap()
    }
}

/// What the check says of `event`, met at row `line` with the locks in state `locks`.
pub open spec fn verdict(locks: Map<i64, Lock>, event: Event, line: usize) -> Result<
    (),
    AnalyzerError,
> {
    let thread_id = event.thread_identifier;
    let lock_id = event.lock();
    match event.operation {
        Operation::Acquire => {
            if locks.contains_key(lock_id) && locks[lock_id].held_by_other(thread_id) {
                Err(
                    AnalyzerError::RepeatedAcquisition {
                        lock_id,
                        thread_id,
                        owner_id: locks[lock_id].owner.unwrap(),
                        row: line,
                    },
                )
            } else {
                Ok(())
            }
        },
        Operation::Release => {
            if !locks.contains_key(lock_id) {
                Err(AnalyzerError::ReleasedNonAcquiredLock { row: line, lock_id, thread_id })
            } else if !locks[lock_id].locked {
                Err(
                    AnalyzerError::RepeatedRelease {
                        attempted: line,
                        previous: locks[lock_id].row,
                        lock_id,
                        thread_id,
                    },
                )
            } else if locks[lock_id].held_by_other(thread_id) {
                Err(
                    AnalyzerError::ReleasedNonOwningLock {
                        row: line,
                        lock_id,
                        thread_id,
                        owner: locks[lock_id].owner.unwrap(),
                    },
                )
            } else {
                Ok(())
            }
        },
        _ => Ok(()),
    }
}

/// The state of the locks after `event` at row `line`.
///
/// An acquire always hands the lock to the acquiring thread, also where it is
/// reported. A release frees the lock only where it is not reported.
pub open spec fn locks_after(locks: Map<i64, Lock>, event: Event, line: usize) -> Map<i64, Lock> {
    match event.operation {
        Operation::Acquire => locks.insert(
            event.lock(),
            Lock { owner: Some(event.thread_identifier), locked: true, row: line },
        ),
        Operation::Release => if verdict(locks, event, line) is Ok {
            locks.insert(event.lock(), Lock { owner: None, locked: false, row: line })
        } else {
            locks
        },
        _ => locks,
    }
}

/// Whether some record of `list` says that `thread_id` acquired `lock_id` while holding exactly `held`.
pub open spec fn recorded(list: Seq<Dependency>, thread_id: i64, lock_id: i64, held: Set<i64>) -> bool {
    exists|i: int| 0 <= i < list.len() && (#[trigger] list[i]).records(thread_id, lock_id, held)
}

/// The list after `thread_id` has let go of `lock_id`: the lock leaves every record of that thread.
pub open spec fn released(list: Seq<Dependency>, thread_id: i64, lock_id: i64) -> Seq<Dependency> {
    list.map_values(
        |dependency: Dependency|
            if dependency.thread_id == thread_id {
                dependency.without(lock_id)
            } else {
                dependency
            },
    )
}

/// The dependency list after `event` at row `line`, met with the locks in state `locks`.
///
/// An acquire adds a record unless one with the same thread, lock and held
/// locks is there. A release takes the lock out of every record of the
/// releasing thread, whether or not the release is reported.
pub open spec fn dependencies_after(
    list: Seq<Dependency>,
    locks: Map<i64, Lock>,
    event: Event,
    line: usize,
) -> Seq<Dependency> {
    let thread_id = event.thread_identifier;
    let lock_id = event.lock();
    match event.operation {
        Operation::Acquire => {
            let held = held_locks(locks, thread_id);
            if recorded(list, thread_id, lock_id, held) {
                list
            } else {
                list.push(Dependency { thread_id, lock_id, acquired_locks: held, line })
            }
        },
        Operation::Release => released(list, thread_id, lock_id),
        _ => list,
    }
}

/// The lock graph after `event`, met with the locks in state `locks`: an
/// acquire adds an edge from every lock that the thread holds to the
/// acquired one.
pub open spec fn lock_graph_after(graph: Set<(i64, i64)>, locks: Map<i64, Lock>, event: Event) -> Set<
    (i64, i64),
> {
    match event.operation {
        Operation::Acquire => Set::new(
            |pair: (i64, i64)|
                graph.contains(pair) || (held_locks(locks, event.thread_identifier).contains(
                    pair.0,
                ) && pair.1 == event.lock()),
        ),
        _ => graph,
    }
}

/// Returns all owned locks of a given thread.
pub fn locks_of_thread(thread_id: i64, locks: &HashMap<i64, Lock>) -> (held: HashSet<i64>)
    ensures
        held@ == held_locks(locks@, thread_id),
{
    let mut held: HashSet<i64> = HashSet::new();
    for entry in it: locks.iter()
        invariant
            forall|lock_id: i64|
                held@.contains(lock_id) <==> (exists|i: int|
                    0 <= i < it.index() && *it.seq()[i].0 == lock_id && it.seq()[i].1.held_by(
                        thread_id,
                    )),
    {
        let (lock_id, lock) = entry;
        if lock.locked {
            match lock.owner {
                Some(owner) => {
                    if owner == thread_id {
                        held.insert(*lock_id);
                    }
                },
                None => {},
            }
        }
    }
    assert(held@ =~= held_locks(locks@, thread_id));
    held
}

/// A set of locks that the program holds is finite.
proof fn lemma_lock_set_finite(locks: &HashSet<i64>)
    ensures
        locks@.finite(),
{
    vstd::seq_lib::seq_to_set_is_finite(
        vstd::std_specs::hash::spec_hash_keys_iter(locks).remaining().unref(),
    );
}

/// A walk through a set of locks meets the locks of the set, all of them.
proof fn lemma_walk_covers(locks: &HashSet<i64>, order: Seq<&i64>)
    requires
        order == vstd::std_specs::hash::spec_hash_keys_iter(locks).remaining(),
    ensures
        forall|i: int| 0 <= i < order.len() ==> locks@.contains(*#[trigger] order[i]),
        forall|lock_id: i64|
            locks@.contains(lock_id) ==> exists|i: int|
                0 <= i < order.len() && *#[trigger] order[i] == lock_id,
{
    assert forall|i: int| 0 <= i < order.len() implies locks@.contains(*#[trigger] order[i]) by {
        assert(order.unref()[i] == *order[i]);
        assert(order.unref().contains(*order[i]));
    }
    assert forall|lock_id: i64| locks@.contains(lock_id) implies exists|i: int|
        0 <= i < order.len() && *#[trigger] order[i] == lock_id by {
        assert(order.unref().contains(lock_id));
        let i = choose|i: int| 0 <= i < order.unref().len() && order.unref()[i] == lock_id;
        assert(*order[i] == lock_id);
    }
}

/// Whether two sets of locks hold the same locks.
pub fn same_locks(left: &HashSet<i64>, right: &HashSet<i64>) -> (same: bool)
    ensures
        same == (left@ == right@),
{
    if left.len() != right.len() {
        return false;
    }
    for lock_id in it: left.iter()
        invariant
            forall|l: i64|
                (exists|i: int| 0 <= i < it.index() && *it.seq()[i] == l) ==> right@.contains(l),
    {
        if !right.contains(lock_id) {
            return false;
        }
    }
    proof {
        assert(left@.subset_of(right@));
        lemma_lock_set_finite(left);
        lemma_lock_set_finite(right);
        vstd::set_lib::lemma_subset_equality(left@, right@);
    }
    true
}

/// Whether two sets of locks have no lock in common.
pub fn disjoint_locks(left: &HashSet<i64>, right: &HashSet<i64>) -> (disjoint: bool)
    ensures
        disjoint == left@.disjoint(right@),
{
    for lock_id in it: left.iter()
        invariant
            forall|i: int| 0 <= i < it.index() ==> !right@.contains(*#[trigger] it.seq()[i]),
            it.seq() == vstd::std_specs::hash::spec_hash_keys_iter(left).remaining(),
    {
        if right.contains(lock_id) {
            proof {
                lemma_walk_covers(
                    left,
                    vstd::std_specs::hash::spec_hash_keys_iter(left).remaining(),
                );
            }
            return false;
        }
    }
    proof {
        lemma_walk_covers(left, vstd::std_specs::hash::spec_hash_keys_iter(left).remaining());
    }
    true
}

/// Puts `edge` into the lock graph unless it is there.
pub fn insert_edge(graph: &mut Vec<Edge>, edge: Edge)
    ensures
        final(graph)@ == if old(graph)@.contains(edge) {
            old(graph)@
        } else {
            old(graph)@.push(edge)
        },
{
    let mut i: usize = 0;
    while i < graph.len()
        invariant
            i <= graph.len(),
            *graph == *old(graph),
            forall|j: int| 0 <= j < i ==> graph@[j] != edge,
        decreases graph.len() - i,
    {
        if graph[i].from == edge.from && graph[i].to == edge.to {
            return ;
        }
        i += 1;
    }
    graph.push(edge);
}

/// Returns the first lock dependency of a given thread id.
pub fn lock_dependency_of_thread(thread_id: i64, lock_dependencies: &Vec<LockDependency>) -> (found:
    Option<&LockDependency>)
    ensures
        found is Some <==> exists|i: int|
            0 <= i < lock_dependencies.len() && (#[trigger] lock_dependencies[i]).thread_id
                == thread_id,
        found matches Some(dependency) ==> exists|i: int|
            0 <= i < lock_dependencies.len() && *dependency == #[trigger] lock_dependencies[i]
                && dependency.thread_id == thread_id && forall|j: int|
                0 <= j < i ==> (#[trigger] lock_dependencies[j]).thread_id != thread_id,
{
    let mut i: usize = 0;
    while i < lock_dependencies.len()
        invariant
            i <= lock_dependencies.len(),
            forall|j: int| 0 <= j < i ==> (#[trigger] lock_dependencies[j]).thread_id != thread_id,
        decreases lock_dependencies.len() - i,
    {
        if lock_dependencies[i].thread_id == thread_id {
            return Some(&lock_dependencies[i]);
        }
        i += 1;
    }
    None
}

/// Records that `thread_id` acquired `lock_id` at row `line` while holding
/// `held`, unless a record with the same thread, lock and held locks is there.
pub fn record_dependency(
    lock_dependencies: &mut Vec<LockDependency>,
    thread_id: i64,
    lock_id: i64,
    held: HashSet<i64>,
    line: usize,
)
    ensures
        final(lock_dependencies)@ == if recorded(
            dependencies(old(lock_dependencies)@),
            thread_id,
            lock_id,
            held@,
        ) {
            old(lock_dependencies)@
        } else {
            old(lock_dependencies)@.push(
                LockDependency { thread_id, lock_id, acquired_locks: held, line },
            )
        },
{
    let mut i: usize = 0;
    while i < lock_dependencies.len()
        invariant
            i <= lock_dependencies.len(),
            *lock_dependencies == *old(lock_dependencies),
            forall|j: int|
                0 <= j < i ==> !(#[trigger] dependencies(lock_dependencies@)[j]).records(
                    thread_id,
                    lock_id,
                    held@,
                ),
        decreases lock_dependencies.len() - i,
    {
        let dependency = &lock_dependencies[i];
        if dependency.thread_id == thread_id && dependency.lock_id == lock_id && same_locks(
            &dependency.acquired_locks,
            &held,
        ) {
            assert(dependencies(lock_dependencies@)[i as int].records(thread_id, lock_id, held@));
            return ;
        }
        i += 1;
    }
    lock_dependencies.push(LockDependency { thread_id, lock_id, acquired_locks: held, line });
}

/// Takes `lock_id` out of every record of `thread_id`.
pub fn release_from_dependencies(
    lock_dependencies: &mut Vec<LockDependency>,
    thread_id: i64,
    lock_id: i64,
)
    ensures
        dependencies(final(lock_dependencies)@) == released(
            dependencies(old(lock_dependencies)@),
            thread_id,
            lock_id,
        ),
{
    if lock_dependency_of_thread(thread_id, lock_dependencies).is_none() {
        assert(dependencies(lock_dependencies@) =~~= released(
            dependencies(lock_dependencies@),
            thread_id,
            lock_id,
        ));
        return ;
    }
    let mut i: usize = 0;
    while i < lock_dependencies.len()
        invariant
            i <= lock_dependencies.len(),
            lock_dependencies.len() == old(lock_dependencies).len(),
            forall|j: int|
                0 <= j < i ==> (#[trigger] lock_dependencies[j])@ == released(
                    dependencies(old(lock_dependencies)@),
                    thread_id,
                    lock_id,
                )[j],
            forall|j: int|
                i <= j < lock_dependencies.len() ==> #[trigger] lock_dependencies[j] == old(
                    lock_dependencies,
                )[j],
        decreases lock_dependencies.len() - i,
    {
        if lock_dependencies[i].thread_id == thread_id {
            lock_dependencies[i].remove_lock(lock_id);
        }
        i += 1;
    }
    assert(dependencies(lock_dependencies@) =~= released(
        dependencies(old(lock_dependencies)@),
        thread_id,
        lock_id,
    ));
}

/// Whether `longer` begins with `shorter`.
pub open spec fn extends(longer: Seq<Edge>, shorter: Seq<Edge>) -> bool {
    shorter.len() <= longer.len() && forall|i: int|
        0 <= i < shorter.len() ==> longer[i] == shorter[i]
}

/// Adds to the lock graph an edge from every lock in `held` to `lock_id`.
pub fn add_lock_edges(graph: &mut Vec<Edge>, held: &HashSet<i64>, lock_id: i64)
    ensures
        edge_set(final(graph)@) == Set::new(
            |pair: (i64, i64)|
                edge_set(old(graph)@).contains(pair) || (held@.contains(pair.0) && pair.1
                    == lock_id),
        ),
        extends(final(graph)@, old(graph)@),
        old(graph)@.no_duplicates() ==> final(graph)@.no_duplicates(),
{
    for from in it: held.iter()
        invariant
            forall|pair: (i64, i64)|
                edge_set(graph@).contains(pair) <==> edge_set(old(graph)@).contains(pair) || (
                pair.1 == lock_id && exists|i: int|
                    0 <= i < it.index() && *it.seq()[i] == pair.0),
            extends(graph@, old(graph)@),
            old(graph)@.no_duplicates() ==> graph@.no_duplicates(),
            it.seq() == vstd::std_specs::hash::spec_hash_keys_iter(held).remaining(),
    {
        let ghost before = graph@;
        let edge = Edge { from: *from, to: lock_id };
        insert_edge(graph, edge);
        proof {
            assert forall|pair: (i64, i64)|
                edge_set(graph@).contains(pair) <==> edge_set(before).contains(pair) || pair == (
                    *from,
                    lock_id,
                ) by {
                let e = Edge { from: pair.0, to: pair.1 };
                if before.contains(edge) {
                } else {
                    if before.push(edge).contains(e) {
                        let j = choose|j: int| 0 <= j < before.push(edge).len() && before.push(edge)[j] == e;
                        if j < before.len() {
                            assert(before[j] == e);
                        }
                    }
                    if before.contains(e) {
                        let j = choose|j: int| 0 <= j < before.len() && before[j] == e;
                        assert(before.push(edge)[j] == e);
                    }
                    if pair == (*from, lock_id) {
                        assert(before.push(edge)[before.len() as int] == e);
                    }
                }
            }
        }
    }
    proof {
        lemma_walk_covers(held, vstd::std_specs::hash::spec_hash_keys_iter(held).remaining());
    }
    assert(edge_set(graph@) =~= Set::new(
        |pair: (i64, i64)|
            edge_set(old(graph)@).contains(pair) || (held@.contains(pair.0) && pair.1 == lock_id),
    ));
}

/// Analyzes a single event of a trace.
///
/// Checks the event against the state of the locks, brings that state up to
/// date, and returns the violation if the event is one. Where `arguments`
/// asks for them, the lock graph and the lock dependencies are brought up to
/// date as well; they depend on the locks as they were before the event.
pub fn analyze_event(
    arguments: &Arguments,
    event: Event,
    locks: &mut HashMap<i64, Lock>,
    line: usize,
    graphviz: &mut Vec<Edge>,
    lock_dependencies: &mut Vec<LockDependency>,
) -> (outcome: Result<(), AnalyzerError>)
    requires
        event.names_its_lock(),
    ensures
        outcome == verdict(old(locks)@, event, line),
        final(locks)@ == locks_after(old(locks)@, event, line),
        locks_consistent(old(locks)@) ==> locks_consistent(final(locks)@),
        arguments.lock_dependencies ==> dependencies(final(lock_dependencies)@)
            == dependencies_after(dependencies(old(lock_dependencies)@), old(locks)@, event, line),
        !arguments.lock_dependencies ==> final(lock_dependencies)@ == old(lock_dependencies)@,
        arguments.graph ==> edge_set(final(graphviz)@) == lock_graph_after(
            edge_set(old(graphviz)@),
            old(locks)@,
            event,
        ),
        !arguments.graph ==> final(graphviz)@ == old(graphviz)@,
        extends(final(graphviz)@, old(graphviz)@),
        old(graphviz)@.no_duplicates() ==> final(graphviz)@.no_duplicates(),
{
    match event.operation {
        Operation::Acquire => {
            let lock_id = event.operand.id().unwrap();
            let thread_owned_locks = locks_of_thread(event.thread_identifier, locks);

            if arguments.graph {
                add_lock_edges(graphviz, &thread_owned_locks, lock_id);
            }
            if arguments.lock_dependencies {
                record_dependency(
                    lock_dependencies,
                    event.thread_identifier,
                    lock_id,
                    thread_owned_locks,
                    line,
                );
                assert(dependencies(lock_dependencies@) =~~= dependencies_after(
                    dependencies(old(lock_dependencies)@),
                    old(locks)@,
                    event,
                    line,
                ));
            }
            let mut outcome: Result<(), AnalyzerError> = Ok(());
            if let Some(lock) = locks.get(&lock_id) {
                if lock.locked {
                    if let Some(owner_id) = lock.owner {
                        if owner_id != event.thread_identifier {
                            outcome = Err(
                                AnalyzerError::RepeatedAcquisition {
                                    lock_id,
                                    thread_id: event.thread_identifier,
                                    owner_id,
                                    row: line,
                                },
                            );
                        }
                    }
                }
            }
            locks.insert(
                lock_id,
                Lock { owner: Some(event.thread_identifier), locked: true, row: line },
            );
            outcome
        },
        Operation::Release => {
            let lock_id = event.operand.id().unwrap();

            if arguments.lock_dependencies {
                release_from_dependencies(lock_dependencies, event.thread_identifier, lock_id);
            }
            match locks.get(&lock_id) {
                None => {
                    return Err(
                        AnalyzerError::ReleasedNonAcquiredLock {
                            row: line,
                            lock_id,
                            thread_id: event.thread_identifier,
                        },
                    );
                },
                Some(lock) => {
                    if !lock.locked {
                        return Err(
                            AnalyzerError::RepeatedRelease {
                                attempted: line,
                                previous: lock.row,
                                lock_id,
                                thread_id: event.thread_identifier,
                            },
                        );
                    }
                    if let Some(owner) = lock.owner {
                        if owner != event.thread_identifier {
                            return Err(
                                AnalyzerError::ReleasedNonOwningLock {
                                    row: line,
                                    lock_id,
                                    thread_id: event.thread_identifier,
                                    owner,
                                },
                            );
                        }
                    }
                },
            }
            locks.insert(lock_id, Lock { owner: None, locked: false, row: line });
            Ok(())
        },
        // other operations are not needed to check well-formedness
        _ => Ok(()),
    }
}

} // verus!
