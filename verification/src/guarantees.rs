//! What holds of every run of the analyzer, whatever the trace.
//!
//! The statements speak of a run that starts with no lock known and goes
//! through the rows 1, 2, 3 and so on of a trace. A row holds an event, or
//! nothing where a binary trace holds a record that writes no event; the
//! rows of a textual trace are its lines up to the first that cannot be
//! decoded.

use crate::analyzer::{held_locks, locks_consistent, verdict, Dependency};
use crate::binary::{canonical, decoded, encoded, fits_record, lemma_decoded_encoded};
use crate::error::AnalyzerError;
use crate::parser::Event;
use crate::trace::{
    after_lines, after_records, lemma_lines_are_rows, line_event, line_rows, record, records_in,
    Analysis, Collecting,
};
use vstd::prelude::*;

verus! {

/// The run over the first `count` rows of a trace.
pub open spec fn run(collecting: Collecting, rows: Seq<Option<Event>>, count: nat) -> Analysis {
    Analysis::start().after_rows(collecting, rows, 1, count)
}

/// Whether the row holds an acquire of the lock `lock_id`.
pub open spec fn acquires(entry: Option<Event>, lock_id: i64) -> bool {
    entry matches Some(event) && event.operation is Acquire && event.lock() == lock_id
}

/// Whether the row holds a release of the lock `lock_id`.
pub open spec fn releases(entry: Option<Event>, lock_id: i64) -> bool {
    entry matches Some(event) && event.operation is Release && event.lock() == lock_id
}

/// The row at which a violation was reported.
pub open spec fn row_of(error: AnalyzerError) -> usize {
    match error {
        AnalyzerError::RepeatedAcquisition { row, .. } => row,
        AnalyzerError::RepeatedRelease { attempted, .. } => attempted,
        AnalyzerError::ReleasedNonOwningLock { row, .. } => row,
        AnalyzerError::ReleasedNonAcquiredLock { row, .. } => row,
        _ => 0,
    }
}

/// An event leaves the locks consistent.
pub proof fn lemma_event_keeps_locks_consistent(
    analysis: Analysis,
    collecting: Collecting,
    event: Event,
    row: usize,
)
    requires
        locks_consistent(analysis.locks),
    ensures
        locks_consistent(analysis.after_event(collecting, event, row).locks),
{
}

/// After any number of rows of any trace, every lock that is known is
/// locked exactly when it has an owner.
pub proof fn lemma_locks_consistent(collecting: Collecting, rows: Seq<Option<Event>>, count: nat)
    ensures
        locks_consistent(run(collecting, rows, count).locks),
    decreases count,
{
    if count > 0 {
        lemma_locks_consistent(collecting, rows, (count - 1) as nat);
        if rows[count - 1] is Some {
            lemma_event_keeps_locks_consistent(
                run(collecting, rows, (count - 1) as nat),
                collecting,
                rows[count - 1]->Some_0,
                count as usize,
            );
        }
    }
}

/// Every report of a run is a violation, carries the row of the event that
/// caused it, and is what the check said of that event in the state that
/// the rows before it had left.
pub proof fn lemma_reports_are_verdicts(
    collecting: Collecting,
    rows: Seq<Option<Event>>,
    count: nat,
    index: int,
)
    requires
        count <= rows.len() <= usize::MAX,
        0 <= index < run(collecting, rows, count).errors.len(),
    ensures
        ({
            let error = run(collecting, rows, count).errors[index];
            let row = row_of(error);
            &&& error.is_violation()
            &&& 1 <= row <= count
            &&& rows[row - 1] is Some
            &&& verdict(
                run(collecting, rows, (row - 1) as nat).locks,
                rows[row - 1]->Some_0,
                row,
            ) == Err::<(), AnalyzerError>(error)
        }),
    decreases count,
{
    if count > 0 {
        let before = run(collecting, rows, (count - 1) as nat);
        if index < before.errors.len() {
            lemma_reports_are_verdicts(collecting, rows, (count - 1) as nat, index);
        }
    }
}

/// Where a run reports that thread `thread_id` acquired lock `lock_id` at
/// row `row` although `owner_id` held it, the event at that row is that
/// acquire, and after the row before it the lock was held by `owner_id`,
/// which is another thread.
pub proof fn lemma_repeated_acquisition(
    collecting: Collecting,
    rows: Seq<Option<Event>>,
    count: nat,
    index: int,
)
    requires
        count <= rows.len() <= usize::MAX,
        0 <= index < run(collecting, rows, count).errors.len(),
        run(collecting, rows, count).errors[index] is RepeatedAcquisition,
    ensures
        ({
            let error = run(collecting, rows, count).errors[index];
            let row = error->RepeatedAcquisition_row;
            let lock_id = error->RepeatedAcquisition_lock_id;
            let thread_id = error->RepeatedAcquisition_thread_id;
            let owner_id = error->owner_id;
            let before = run(collecting, rows, (row - 1) as nat);
            &&& 1 <= row <= count
            &&& acquires(rows[row - 1], lock_id)
            &&& rows[row - 1]->Some_0.thread_identifier == thread_id
            &&& before.locks.contains_key(lock_id)
            &&& before.locks[lock_id].held_by(owner_id)
            &&& owner_id != thread_id
        }),
{
    lemma_reports_are_verdicts(collecting, rows, count, index);
}

/// Where a run reports that thread `thread_id` released lock `lock_id` at
/// row `row` although `owner` held it, the event at that row is that
/// release, and after the row before it the lock was held by `owner`,
/// which is another thread.
pub proof fn lemma_released_non_owning_lock(
    collecting: Collecting,
    rows: Seq<Option<Event>>,
    count: nat,
    index: int,
)
    requires
        count <= rows.len() <= usize::MAX,
        0 <= index < run(collecting, rows, count).errors.len(),
        run(collecting, rows, count).errors[index] is ReleasedNonOwningLock,
    ensures
        ({
            let error = run(collecting, rows, count).errors[index];
            let row = error->ReleasedNonOwningLock_row;
            let lock_id = error->ReleasedNonOwningLock_lock_id;
            let thread_id = error->ReleasedNonOwningLock_thread_id;
            let owner = error->owner;
            let before = run(collecting, rows, (row - 1) as nat);
            &&& 1 <= row <= count
            &&& releases(rows[row - 1], lock_id)
            &&& rows[row - 1]->Some_0.thread_identifier == thread_id
            &&& before.locks.contains_key(lock_id)
            &&& before.locks[lock_id].held_by(owner)
            &&& owner != thread_id
        }),
{
    lemma_reports_are_verdicts(collecting, rows, count, index);
}

/// Where a run reports that a free lock was released at row `attempted`,
/// the event at that row is that release, the lock was free after the row
/// before it, and `previous` is the row at which its state had changed
/// last.
pub proof fn lemma_repeated_release(
    collecting: Collecting,
    rows: Seq<Option<Event>>,
    count: nat,
    index: int,
)
    requires
        count <= rows.len() <= usize::MAX,
        0 <= index < run(collecting, rows, count).errors.len(),
        run(collecting, rows, count).errors[index] is RepeatedRelease,
    ensures
        ({
            let error = run(collecting, rows, count).errors[index];
            let row = error->attempted;
            let lock_id = error->RepeatedRelease_lock_id;
            let before = run(collecting, rows, (row - 1) as nat);
            &&& 1 <= row <= count
            &&& releases(rows[row - 1], lock_id)
            &&& rows[row - 1]->Some_0.thread_identifier == error->RepeatedRelease_thread_id
            &&& before.locks.contains_key(lock_id)
            &&& !before.locks[lock_id].locked
            &&& before.locks[lock_id].row == error->previous
        }),
{
    lemma_reports_are_verdicts(collecting, rows, count, index);
}

/// A lock is known to a run exactly if one of the rows so far acquires it.
pub proof fn lemma_known_locks_were_acquired(
    collecting: Collecting,
    rows: Seq<Option<Event>>,
    count: nat,
    lock_id: i64,
)
    requires
        count <= rows.len(),
    ensures
        run(collecting, rows, count).locks.contains_key(lock_id) <==> exists|i: int|
            0 <= i < count && acquires(#[trigger] rows[i], lock_id),
    decreases count,
{
    if count > 0 {
        lemma_known_locks_were_acquired(collecting, rows, (count - 1) as nat, lock_id);
        if !acquires(rows[count - 1], lock_id) {
            if exists|i: int| 0 <= i < count && acquires(#[trigger] rows[i], lock_id) {
                let i = choose|i: int| 0 <= i < count && acquires(#[trigger] rows[i], lock_id);
                assert(i < count - 1);
            }
        }
    }
}

/// Where a run reports that a lock was released at row `row` which nobody
/// had acquired, the event at that row is that release, and no row before
/// it acquires the lock.
pub proof fn lemma_released_non_acquired_lock(
    collecting: Collecting,
    rows: Seq<Option<Event>>,
    count: nat,
    index: int,
)
    requires
        count <= rows.len() <= usize::MAX,
        0 <= index < run(collecting, rows, count).errors.len(),
        run(collecting, rows, count).errors[index] is ReleasedNonAcquiredLock,
    ensures
        ({
            let error = run(collecting, rows, count).errors[index];
            let row = error->ReleasedNonAcquiredLock_row;
            let lock_id = error->ReleasedNonAcquiredLock_lock_id;
            &&& 1 <= row <= count
            &&& releases(rows[row - 1], lock_id)
            &&& rows[row - 1]->Some_0.thread_identifier
                == error->ReleasedNonAcquiredLock_thread_id
            &&& forall|i: int| 0 <= i < row - 1 ==> !acquires(#[trigger] rows[i], lock_id)
        }),
{
    lemma_reports_are_verdicts(collecting, rows, count, index);
    let error = run(collecting, rows, count).errors[index];
    let row = error->ReleasedNonAcquiredLock_row;
    lemma_known_locks_were_acquired(
        collecting,
        rows,
        (row - 1) as nat,
        error->ReleasedNonAcquiredLock_lock_id,
    );
}

/// What a run has reported stays reported, in its place.
pub proof fn lemma_reports_stay(
    collecting: Collecting,
    rows: Seq<Option<Event>>,
    earlier: nat,
    count: nat,
    index: int,
)
    requires
        earlier <= count,
        0 <= index < run(collecting, rows, earlier).errors.len(),
    ensures
        index < run(collecting, rows, count).errors.len(),
        run(collecting, rows, count).errors[index] == run(collecting, rows, earlier).errors[index],
    decreases count,
{
    if earlier < count {
        lemma_reports_stay(collecting, rows, earlier, (count - 1) as nat, index);
    }
}

/// A release of a lock that no row before it acquires is reported as the
/// release of a lock that nobody has acquired.
pub proof fn lemma_unseen_release_is_reported(
    collecting: Collecting,
    rows: Seq<Option<Event>>,
    count: nat,
    row: int,
)
    requires
        1 <= row <= count <= rows.len() <= usize::MAX,
        rows[row - 1] is Some,
        rows[row - 1]->Some_0.operation is Release,
        forall|i: int|
            0 <= i < row - 1 ==> !acquires(#[trigger] rows[i], rows[row - 1]->Some_0.lock()),
    ensures
        run(collecting, rows, count).errors.contains(
            AnalyzerError::ReleasedNonAcquiredLock {
                row: row as usize,
                lock_id: rows[row - 1]->Some_0.lock(),
                thread_id: rows[row - 1]->Some_0.thread_identifier,
            },
        ),
{
    let event = rows[row - 1]->Some_0;
    lemma_known_locks_were_acquired(collecting, rows, (row - 1) as nat, event.lock());
    let before = run(collecting, rows, (row - 1) as nat);
    let after = run(collecting, rows, row as nat);
    let index = before.errors.len() as int;
    assert(after.errors[index] == AnalyzerError::ReleasedNonAcquiredLock {
        row: row as usize,
        lock_id: event.lock(),
        thread_id: event.thread_identifier,
    });
    lemma_reports_stay(collecting, rows, row as nat, count, index);
}

/// A run reports that thread `thread_id` released at row `row` the lock
/// `lock_id`, which nobody had acquired, exactly if that row holds that
/// release and no row before it acquires the lock.
pub proof fn lemma_unseen_releases(
    collecting: Collecting,
    rows: Seq<Option<Event>>,
    count: nat,
    row: usize,
    lock_id: i64,
    thread_id: i64,
)
    requires
        count <= rows.len() <= usize::MAX,
    ensures
        run(collecting, rows, count).errors.contains(
            AnalyzerError::ReleasedNonAcquiredLock { row, lock_id, thread_id },
        ) <==> 1 <= row <= count && releases(rows[row - 1], lock_id)
            && rows[row - 1]->Some_0.thread_identifier == thread_id && forall|i: int|
            0 <= i < row - 1 ==> !acquires(#[trigger] rows[i], lock_id),
{
    let report = AnalyzerError::ReleasedNonAcquiredLock { row, lock_id, thread_id };
    let errors = run(collecting, rows, count).errors;
    if errors.contains(report) {
        let index = choose|index: int| 0 <= index < errors.len() && errors[index] == report;
        lemma_released_non_acquired_lock(collecting, rows, count, index);
    }
    if 1 <= row <= count && releases(rows[row - 1], lock_id) && rows[row
        - 1]->Some_0.thread_identifier == thread_id && forall|i: int|
        0 <= i < row - 1 ==> !acquires(#[trigger] rows[i], lock_id) {
        lemma_unseen_release_is_reported(collecting, rows, count, row as int);
    }
}

/// The run over a textual trace all of whose lines can be decoded, from
/// nothing and with its first line as row 1, reports that thread
/// `thread_id` released at row `row` the lock `lock_id`, which nobody had
/// acquired, exactly if the line of that row writes that release and no
/// line before it writes an acquire of the lock.
pub proof fn lemma_std_trace_unseen_releases(
    collecting: Collecting,
    normalize: bool,
    lines: Seq<Seq<char>>,
    row: usize,
    lock_id: i64,
    thread_id: i64,
)
    requires
        lines.len() <= usize::MAX,
        forall|i: int| 0 <= i < lines.len() ==> line_event(#[trigger] lines[i], normalize) is Ok,
    ensures
        after_lines(
            Analysis::start(),
            collecting,
            normalize,
            lines,
            1,
            lines.len(),
        ).0.errors.contains(AnalyzerError::ReleasedNonAcquiredLock { row, lock_id, thread_id })
            <==> 1 <= row <= lines.len() && releases(
            Some(line_event(lines[row - 1], normalize)->Ok_0),
            lock_id,
        ) && line_event(lines[row - 1], normalize)->Ok_0.thread_identifier == thread_id
            && forall|i: int|
            0 <= i < row - 1 ==> !acquires(
                Some(line_event(#[trigger] lines[i], normalize)->Ok_0),
                lock_id,
            ),
{
    let rows = line_rows(lines, normalize);
    lemma_lines_are_rows(Analysis::start(), collecting, normalize, lines, 1, lines.len());
    lemma_unseen_releases(collecting, rows, lines.len(), row, lock_id, thread_id);
    assert forall|i: int| 0 <= i < lines.len() implies #[trigger] rows[i] == Some(
        line_event(lines[i], normalize)->Ok_0,
    ) by {
        assert(line_event(lines[i], normalize) is Ok);
    }
    if 1 <= row <= lines.len() {
        assert(rows[row - 1] == Some(line_event(lines[row - 1], normalize)->Ok_0));
        if forall|i: int| 0 <= i < row - 1 ==> !acquires(#[trigger] rows[i], lock_id) {
            assert forall|i: int| 0 <= i < row - 1 implies !acquires(
                Some(line_event(#[trigger] lines[i], normalize)->Ok_0),
                lock_id,
            ) by {
                assert(!acquires(rows[i], lock_id));
            }
        }
        if forall|i: int|
            0 <= i < row - 1 ==> !acquires(
                Some(line_event(#[trigger] lines[i], normalize)->Ok_0),
                lock_id,
            ) {
            assert forall|i: int| 0 <= i < row - 1 implies !acquires(
                #[trigger] rows[i],
                lock_id,
            ) by {
                assert(line_event(lines[i], normalize) is Ok);
            }
        }
    }
}

/// Whether the row `row` of the trace gives the lock graph the edge from
/// `from` to `to`: it holds an acquire of `to` by a thread that held `from`
/// after the row before it.
pub open spec fn gives_edge(
    collecting: Collecting,
    rows: Seq<Option<Event>>,
    row: int,
    from: i64,
    to: i64,
) -> bool {
    acquires(rows[row - 1], to) && held_locks(
        run(collecting, rows, (row - 1) as nat).locks,
        rows[row - 1]->Some_0.thread_identifier,
    ).contains(from)
}

/// Every edge of the lock graph of a run comes from a row: at some row a
/// thread acquired the lock that the edge leads to while, after the row
/// before it, it held the lock that the edge comes from.
pub proof fn lemma_edges_come_from_acquires(
    collecting: Collecting,
    rows: Seq<Option<Event>>,
    count: nat,
    from: i64,
    to: i64,
)
    requires
        count <= rows.len(),
        run(collecting, rows, count).lock_graph.contains((from, to)),
    ensures
        exists|row: int| 1 <= row <= count && #[trigger] gives_edge(collecting, rows, row, from, to),
    decreases count,
{
    if count > 0 {
        let before = run(collecting, rows, (count - 1) as nat);
        if before.lock_graph.contains((from, to)) {
            lemma_edges_come_from_acquires(collecting, rows, (count - 1) as nat, from, to);
            let row = choose|row: int|
                1 <= row <= count - 1 && #[trigger] gives_edge(collecting, rows, row, from, to);
            assert(1 <= row <= count && gives_edge(collecting, rows, row, from, to));
        } else {
            assert(gives_edge(collecting, rows, count as int, from, to));
        }
    }
}

/// Whether no two records of the list agree in thread, lock and held locks.
pub open spec fn distinct(list: Seq<Dependency>) -> bool {
    forall|i: int, j: int|
        0 <= i < j < list.len() ==> !(#[trigger] list[i]).records(
            (#[trigger] list[j]).thread_id,
            list[j].lock_id,
            list[j].acquired_locks,
        )
}

/// Whether letting go of the lock of `event`, a release, makes two records
/// of the list alike: two records of the releasing thread for the same
/// lock, whose held locks differ in nothing but the released lock.
pub open spec fn merges(list: Seq<Dependency>, event: Event) -> bool {
    event.operation is Release && exists|i: int, j: int|
        0 <= i < j < list.len() && (#[trigger] list[i]).thread_id == event.thread_identifier
            && (#[trigger] list[j]).thread_id == event.thread_identifier && list[i].lock_id
            == list[j].lock_id && list[i].acquired_locks.remove(event.lock())
            == list[j].acquired_locks.remove(event.lock())
}

/// An event leaves the records of the dependency list distinct, unless it
/// is a release that makes two of them alike.
pub proof fn lemma_event_keeps_dependencies_distinct(
    analysis: Analysis,
    collecting: Collecting,
    event: Event,
    row: usize,
)
    requires
        distinct(analysis.dependencies),
        !merges(analysis.dependencies, event),
    ensures
        distinct(analysis.after_event(collecting, event, row).dependencies),
{
    let list = analysis.dependencies;
    let after = analysis.after_event(collecting, event, row).dependencies;
    if collecting.lock_dependencies && event.operation is Release {
        assert forall|i: int, j: int| 0 <= i < j < after.len() implies !(#[trigger] after[i]).records(
            (#[trigger] after[j]).thread_id,
            after[j].lock_id,
            after[j].acquired_locks,
        ) by {
            if after[i].records(after[j].thread_id, after[j].lock_id, after[j].acquired_locks) {
                if list[i].thread_id == event.thread_identifier {
                    assert(list[i].acquired_locks.remove(event.lock())
                        == list[j].acquired_locks.remove(event.lock()));
                    assert(merges(list, event));
                } else {
                    assert(list[i].records(
                        list[j].thread_id,
                        list[j].lock_id,
                        list[j].acquired_locks,
                    ));
                }
            }
        }
    }
}

/// Whether the row with the index `index` holds a release that makes two
/// records of the dependency list alike.
pub open spec fn merges_at(collecting: Collecting, rows: Seq<Option<Event>>, index: int) -> bool {
    rows[index] matches Some(event) && merges(
        run(collecting, rows, index as nat).dependencies,
        event,
    )
}

/// No two records of the dependency list of a run agree in thread, lock and
/// held locks, as long as no release has made two records alike.
pub proof fn lemma_dependencies_distinct(
    collecting: Collecting,
    rows: Seq<Option<Event>>,
    count: nat,
)
    requires
        count <= rows.len(),
        forall|i: int| 0 <= i < count ==> !#[trigger] merges_at(collecting, rows, i),
    ensures
        distinct(run(collecting, rows, count).dependencies),
    decreases count,
{
    if count > 0 {
        lemma_dependencies_distinct(collecting, rows, (count - 1) as nat);
        assert(!merges_at(collecting, rows, count - 1));
        if rows[count - 1] is Some {
            lemma_event_keeps_dependencies_distinct(
                run(collecting, rows, (count - 1) as nat),
                collecting,
                rows[count - 1]->Some_0,
                count as usize,
            );
        }
    }
}

/// The event of a line that can be decoded has an operand.
pub proof fn lemma_line_event_has_operand(line: Seq<char>, normalize: bool)
    requires
        line_event(line, normalize) is Ok,
    ensures
        line_event(line, normalize)->Ok_0.operand.spec_id() is Some,
        line_event(line, normalize)->Ok_0.names_its_lock(),
{
}

/// The analyzer does not look at the kind of an operand: an event with an
/// operand counts like the same event with the operand of the kind that its
/// operation works on.
pub proof fn lemma_kind_of_operand_is_not_looked_at(
    analysis: Analysis,
    collecting: Collecting,
    event: Event,
    row: usize,
)
    requires
        event.operand.spec_id() is Some,
    ensures
        analysis.after_event(collecting, canonical(event), row) == analysis.after_event(
            collecting,
            event,
            row,
        ),
{
    if event.operation is Acquire || event.operation is Release {
        assert(canonical(event).lock() == event.lock());
    }
    assert(analysis.after_event(collecting, canonical(event), row) =~~= analysis.after_event(
        collecting,
        event,
        row,
    ));
}

/// A textual trace, all lines of which can be decoded and hold numbers
/// that fit the fields of the binary format, and the binary trace that
/// writes the same events give the same run: the same violations in the
/// same order, the same state of the locks, the same lock graph and the
/// same lock dependencies.
pub proof fn lemma_reencoded_trace_runs_alike(
    analysis: Analysis,
    collecting: Collecting,
    normalize: bool,
    lines: Seq<Seq<char>>,
    trace: Seq<u8>,
    row: usize,
    count: nat,
)
    requires
        count <= lines.len(),
        forall|i: int|
            0 <= i < lines.len() ==> line_event(#[trigger] lines[i], normalize) is Ok
                && fits_record(line_event(lines[i], normalize)->Ok_0),
        forall|i: int|
            0 <= i < lines.len() ==> #[trigger] record(trace, i) == encoded(
                line_event(lines[i], normalize)->Ok_0,
            ),
    ensures
        after_lines(analysis, collecting, normalize, lines, row, count) == (
            after_records(analysis, collecting, trace, row, count),
            false,
        ),
    decreases count,
{
    if count > 0 {
        lemma_reencoded_trace_runs_alike(
            analysis,
            collecting,
            normalize,
            lines,
            trace,
            row,
            (count - 1) as nat,
        );
        let before = after_records(analysis, collecting, trace, row, (count - 1) as nat);
        let event = line_event(lines[count - 1], normalize)->Ok_0;
        assert(record(trace, count - 1) == encoded(event));
        lemma_decoded_encoded(event);
        lemma_line_event_has_operand(lines[count - 1], normalize);
        lemma_kind_of_operand_is_not_looked_at(
            before,
            collecting,
            event,
            (row + count - 1) as usize,
        );
    }
}

/// The violations that a textual trace gives are those that it gives when
/// it is written in the binary format, under the conditions of
/// [`lemma_reencoded_trace_runs_alike`].
pub proof fn lemma_reencoded_trace_reports_alike(
    collecting: Collecting,
    normalize: bool,
    lines: Seq<Seq<char>>,
    trace: Seq<u8>,
)
    requires
        records_in(trace) == lines.len(),
        forall|i: int|
            0 <= i < lines.len() ==> line_event(#[trigger] lines[i], normalize) is Ok
                && fits_record(line_event(lines[i], normalize)->Ok_0),
        forall|i: int|
            0 <= i < lines.len() ==> #[trigger] record(trace, i) == encoded(
                line_event(lines[i], normalize)->Ok_0,
            ),
    ensures
        after_records(Analysis::start(), collecting, trace, 1, records_in(trace)).errors
            == after_lines(
            Analysis::start(),
            collecting,
            normalize,
            lines,
            1,
            lines.len(),
        ).0.errors,
{
    lemma_reencoded_trace_runs_alike(
        Analysis::start(),
        collecting,
        normalize,
        lines,
        trace,
        1,
        lines.len(),
    );
}

} // verus!
