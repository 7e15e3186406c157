//! The run over a whole trace: events are decoded one after the other and
//! handed to the analyzer; what it reports is collected. A line of a
//! textual trace that cannot be decoded is reported too, and ends the run.

use crate::analyzer::{
    analyze_event, dependencies, dependencies_after, edge_set, extends, lock_graph_after,
    locks_after, verdict, Dependency, Edge, Lock, LockDependency,
};
use crate::arguments::Arguments;
use crate::binary::{decoded, try_parse_event, EVENT_BYTES, HEADER_BYTES};
use crate::deadlock::{
    deadlocks, graph_of, thread_dependency_edges, thread_dependency_graph, thread_edges,
    validate_dependency_graph,
};
use crate::error::{AnalyzerError, LexerError};
use crate::graphviz::{listing, lock_graph_listing, thread_graph_listing};
use crate::lexer::{lexed, tokenize_source};
use crate::normalizer::normalized;
use crate::parser::{parse_event, parsed, Event};
use std::collections::HashMap;
use vstd::prelude::*;
use vstd::string::*;

verus! {

/// What a run has gathered: the state of the locks, the lock graph, the
/// lock dependencies, and what was reported.
#[verifier::ext_equal]
pub struct Analysis {
    pub locks: Map<i64, Lock>,
    pub lock_graph: Set<(i64, i64)>,
    pub dependencies: Seq<Dependency>,
    pub errors: Seq<AnalyzerError>,
}

/// What a run gathers besides the violations.
pub struct Collecting {
    /// Whether the lock graph is built.
    pub graph: bool,
    /// Whether the lock dependencies are recorded.
    pub lock_dependencies: bool,
}

impl Arguments {
    /// What a run with these settings gathers.
    pub open spec fn collecting(self) -> Collecting {
        Collecting { graph: self.graph, lock_dependencies: self.lock_dependencies }
    }
}

impl Analysis {
    /// A run before its first event.
    pub open spec fn start() -> Analysis {
        Analysis {
            locks: Map::empty(),
            lock_graph: Set::empty(),
            dependencies: Seq::empty(),
            errors: Seq::empty(),
        }
    }

    /// The run after `event`, met at row `row`.
    pub open spec fn after_event(self, collecting: Collecting, event: Event, row: usize) -> Analysis {
        Analysis {
            locks: locks_after(self.locks, event, row),
            lock_graph: if collecting.graph {
                lock_graph_after(self.lock_graph, self.locks, event)
            } else {
                self.lock_graph
            },
            dependencies: if collecting.lock_dependencies {
                dependencies_after(self.dependencies, self.locks, event, row)
            } else {
                self.dependencies
            },
            errors: match verdict(self.locks, event, row) {
                Ok(_) => self.errors,
                Err(violation) => self.errors.push(violation),
            },
        }
    }

    /// The run after row `row`, which holds `entry`: an event, or nothing
    /// where the trace holds a record at that row that writes no event.
    pub open spec fn after_row(
        self,
        collecting: Collecting,
        entry: Option<Event>,
        row: usize,
    ) -> Analysis {
        match entry {
            Some(event) => self.after_event(collecting, event, row),
            None => self,
        }
    }

    /// The run after the first `count` of `rows`, the first of which is row `row`.
    pub open spec fn after_rows(
        self,
        collecting: Collecting,
        rows: Seq<Option<Event>>,
        row: usize,
        count: nat,
    ) -> Analysis
        decreases count,
    {
        if count == 0 {
            self
        } else {
            self.after_rows(collecting, rows, row, (count - 1) as nat).after_row(
                collecting,
                rows[count - 1],
                (row + count - 1) as usize,
            )
        }
    }

    /// The run after a report that is no violation.
    pub open spec fn after_failure(self, error: AnalyzerError) -> Analysis {
        Analysis { errors: self.errors.push(error), ..self }
    }
}

/// The state of a run that is held in the four places `locks`, `graph`,
/// `lock_dependencies` and `errors`.
pub open spec fn analysis_of(
    locks: Map<i64, Lock>,
    graph: Seq<Edge>,
    lock_dependencies: Seq<LockDependency>,
    errors: Seq<AnalyzerError>,
) -> Analysis {
    Analysis {
        locks,
        lock_graph: edge_set(graph),
        dependencies: dependencies(lock_dependencies),
        errors,
    }
}

/// A run that holds nothing in its four places is a run before its first event.
pub proof fn lemma_nothing_held_is_the_start()
    ensures
        analysis_of(Map::empty(), Seq::empty(), Seq::empty(), Seq::empty()) == Analysis::start(),
{
    assert(analysis_of(Map::empty(), Seq::empty(), Seq::empty(), Seq::empty())
        =~~= Analysis::start());
}

/// The event that a line of a textual trace writes, or why it writes none.
pub open spec fn line_event(line: Seq<char>, normalize: bool) -> Result<Event, AnalyzerError> {
    match lexed(line) {
        Some(tokens) => match parsed(
            if normalize {
                normalized(tokens)
            } else {
                tokens
            },
        ) {
            Ok(event) => Ok(event),
            Err(error) => Err(AnalyzerError::ParserError(error)),
        },
        None => Err(AnalyzerError::LexerError(LexerError::NonAsciiCharacter)),
    }
}

/// Decodes one line of a textual trace.
pub fn read_event(line: String, normalize: bool) -> (event: Result<Event, AnalyzerError>)
    ensures
        event == line_event(line@, normalize),
        event matches Ok(e) ==> e.operand.spec_id() is Some,
{
    match tokenize_source(line, normalize) {
        Ok(tokens) => parse_event(tokens),
        Err(error) => Err(error),
    }
}

/// The run after the first `count` of `lines`, the first of which is row
/// `row`, and whether it has ended on a line that could not be decoded.
pub open spec fn after_lines(
    analysis: Analysis,
    collecting: Collecting,
    normalize: bool,
    lines: Seq<Seq<char>>,
    row: usize,
    count: nat,
) -> (Analysis, bool)
    decreases count,
{
    if count == 0 {
        (analysis, false)
    } else {
        let (before, ended) = after_lines(
            analysis,
            collecting,
            normalize,
            lines,
            row,
            (count - 1) as nat,
        );
        if ended {
            (before, true)
        } else {
            match line_event(lines[count - 1], normalize) {
                Ok(event) => (
                    before.after_event(collecting, event, (row + count - 1) as usize),
                    false,
                ),
                Err(error) => (before.after_failure(error), true),
            }
        }
    }
}

/// How many of the first `count` lines stand before the first line that
/// cannot be decoded: `count` if all of them can.
pub open spec fn decodable(lines: Seq<Seq<char>>, normalize: bool, count: nat) -> nat
    decreases count,
{
    if count == 0 {
        0
    } else {
        let before = decodable(lines, normalize, (count - 1) as nat);
        if before == count - 1 && line_event(lines[count - 1], normalize) is Ok {
            count
        } else {
            before
        }
    }
}

/// What the lines hold, row by row: the event of each line that can be decoded.
pub open spec fn line_rows(lines: Seq<Seq<char>>, normalize: bool) -> Seq<Option<Event>> {
    Seq::new(
        lines.len(),
        |i: int|
            match line_event(lines[i], normalize) {
                Ok(event) => Some(event),
                Err(_) => None,
            },
    )
}

/// A run over lines is the run over the events of the lines that stand
/// before the first line that cannot be decoded, and then, if there is such
/// a line, the report of why it cannot.
pub proof fn lemma_lines_are_rows(
    analysis: Analysis,
    collecting: Collecting,
    normalize: bool,
    lines: Seq<Seq<char>>,
    row: usize,
    count: nat,
)
    requires
        count <= lines.len(),
    ensures
        ({
            let good = decodable(lines, normalize, count);
            let run = analysis.after_rows(collecting, line_rows(lines, normalize), row, good);
            &&& good <= count
            &&& forall|i: int| 0 <= i < good ==> line_event(#[trigger] lines[i], normalize) is Ok
            &&& good < count ==> line_event(lines[good as int], normalize) is Err
            &&& after_lines(analysis, collecting, normalize, lines, row, count) == if good
                == count {
                (run, false)
            } else {
                (run.after_failure(line_event(lines[good as int], normalize)->Err_0), true)
            }
        }),
    decreases count,
{
    if count > 0 {
        lemma_lines_are_rows(analysis, collecting, normalize, lines, row, (count - 1) as nat);
    }
}

/// The texts of the lines.
pub open spec fn texts(lines: Seq<String>) -> Seq<Seq<char>> {
    lines.map_values(|line: String| line@)
}

/// The number of whole events behind the header of a binary trace.
pub open spec fn records_in(trace: Seq<u8>) -> nat {
    if trace.len() < HEADER_BYTES {
        0
    } else {
        ((trace.len() - HEADER_BYTES) / EVENT_BYTES as int) as nat
    }
}

/// The bytes of the event with the index `index` of a binary trace.
pub open spec fn record(trace: Seq<u8>, index: int) -> Seq<u8> {
    trace.subrange(HEADER_BYTES + EVENT_BYTES * index, HEADER_BYTES + EVENT_BYTES * (index + 1))
}

/// The run after the first `count` events of a binary trace, the first of
/// which is row `row`. An event whose operation field holds no operation is
/// passed over, and counts as a row.
pub open spec fn after_records(
    analysis: Analysis,
    collecting: Collecting,
    trace: Seq<u8>,
    row: usize,
    count: nat,
) -> Analysis
    decreases count,
{
    if count == 0 {
        analysis
    } else {
        let before = after_records(analysis, collecting, trace, row, (count - 1) as nat);
        match decoded(record(trace, count - 1)) {
            Some(event) => before.after_event(collecting, event, (row + count - 1) as usize),
            None => before,
        }
    }
}

/// What a binary trace holds, row by row: the event of each record that writes one.
pub open spec fn record_rows(trace: Seq<u8>) -> Seq<Option<Event>> {
    Seq::new(records_in(trace), |i: int| decoded(record(trace, i)))
}

/// A run over the records of a binary trace is the run over what they hold.
pub proof fn lemma_records_are_rows(
    analysis: Analysis,
    collecting: Collecting,
    trace: Seq<u8>,
    row: usize,
    count: nat,
)
    requires
        count <= records_in(trace),
    ensures
        after_records(analysis, collecting, trace, row, count) == analysis.after_rows(
            collecting,
            record_rows(trace),
            row,
            count,
        ),
    decreases count,
{
    if count > 0 {
        lemma_records_are_rows(analysis, collecting, trace, row, (count - 1) as nat);
    }
}

/// Analyzes one decoded event at row `row` and collects the violation, if it is one.
pub fn analyze_decoded(
    arguments: &Arguments,
    event: Event,
    errors: &mut Vec<AnalyzerError>,
    locks: &mut HashMap<i64, Lock>,
    row: usize,
    graphviz: &mut Vec<Edge>,
    lock_dependencies: &mut Vec<LockDependency>,
)
    requires
        event.names_its_lock(),
    ensures
        analysis_of(
            final(locks)@,
            final(graphviz)@,
            final(lock_dependencies)@,
            final(errors)@,
        ) == analysis_of(
            old(locks)@,
            old(graphviz)@,
            old(lock_dependencies)@,
            old(errors)@,
        ).after_event(arguments.collecting(), event, row),
        extends(final(graphviz)@, old(graphviz)@),
        old(graphviz)@.no_duplicates() ==> final(graphviz)@.no_duplicates(),
{
    match analyze_event(arguments, event, locks, row, graphviz, lock_dependencies) {
        Ok(_) => {},
        Err(error) => {
            errors.push(error);
        },
    }
    assert(analysis_of(locks@, graphviz@, lock_dependencies@, errors@) =~= analysis_of(
        old(locks)@,
        old(graphviz)@,
        old(lock_dependencies)@,
        old(errors)@,
    ).after_event(arguments.collecting(), event, row));
}

/// Decodes one line of a textual trace, which is row `row`, and analyzes
/// its event. A line that cannot be decoded is reported in `errors`.
/// Returns whether the run goes on: `false` after such a line.
pub fn analyze_std_line(
    arguments: &Arguments,
    line: String,
    errors: &mut Vec<AnalyzerError>,
    locks: &mut HashMap<i64, Lock>,
    row: usize,
    graphviz: &mut Vec<Edge>,
    lock_dependencies: &mut Vec<LockDependency>,
) -> (goes_on: bool)
    ensures
        goes_on == line_event(line@, arguments.normalize) is Ok,
        analysis_of(
            final(locks)@,
            final(graphviz)@,
            final(lock_dependencies)@,
            final(errors)@,
        ) == (match line_event(line@, arguments.normalize) {
            Ok(event) => analysis_of(
                old(locks)@,
                old(graphviz)@,
                old(lock_dependencies)@,
                old(errors)@,
            ).after_event(arguments.collecting(), event, row),
            Err(error) => analysis_of(
                old(locks)@,
                old(graphviz)@,
                old(lock_dependencies)@,
                old(errors)@,
            ).after_failure(error),
        }),
        extends(final(graphviz)@, old(graphviz)@),
        old(graphviz)@.no_duplicates() ==> final(graphviz)@.no_duplicates(),
{
    match read_event(line, arguments.normalize) {
        Ok(event) => {
            analyze_decoded(arguments, event, errors, locks, row, graphviz, lock_dependencies);
            true
        },
        Err(error) => {
            errors.push(error);
            assert(analysis_of(locks@, graphviz@, lock_dependencies@, errors@) =~= analysis_of(
                old(locks)@,
                old(graphviz)@,
                old(lock_dependencies)@,
                old(errors)@,
            ).after_failure(error));
            false
        },
    }
}

/// Analyzes a trace written in the textual format, given as its lines, the
/// first of which is row `row`.
///
/// The run ends with the first line that cannot be decoded; the lines
/// behind it are not looked at.
pub fn analyze_std_trace(
    arguments: &Arguments,
    lines: &Vec<String>,
    errors: &mut Vec<AnalyzerError>,
    locks: &mut HashMap<i64, Lock>,
    row: usize,
    graphviz: &mut Vec<Edge>,
    lock_dependencies: &mut Vec<LockDependency>,
)
    requires
        row + lines.len() <= usize::MAX,
    ensures
        analysis_of(
            final(locks)@,
            final(graphviz)@,
            final(lock_dependencies)@,
            final(errors)@,
        ) == after_lines(
            analysis_of(old(locks)@, old(graphviz)@, old(lock_dependencies)@, old(errors)@),
            arguments.collecting(),
            arguments.normalize,
            texts(lines@),
            row,
            lines.len() as nat,
        ).0,
        extends(final(graphviz)@, old(graphviz)@),
        old(graphviz)@.no_duplicates() ==> final(graphviz)@.no_duplicates(),
{
    let ghost start = analysis_of(locks@, graphviz@, lock_dependencies@, errors@);
    let mut ended = false;
    let mut i: usize = 0;
    while i < lines.len()
        invariant
            i <= lines.len(),
            row + lines.len() <= usize::MAX,
            (analysis_of(locks@, graphviz@, lock_dependencies@, errors@), ended) == after_lines(
                start,
                arguments.collecting(),
                arguments.normalize,
                texts(lines@),
                row,
                i as nat,
            ),
            extends(graphviz@, old(graphviz)@),
            old(graphviz)@.no_duplicates() ==> graphviz@.no_duplicates(),
        decreases lines.len() - i,
    {
        if !ended {
            let line = lines[i].clone();
            assert(line@ == texts(lines@)[i as int]);
            ended = !analyze_std_line(
                arguments,
                line,
                errors,
                locks,
                row + i,
                graphviz,
                lock_dependencies,
            );
        }
        i += 1;
    }
}

/// Decodes one event of a binary trace, which is row `row`, and analyzes
/// it. A record whose operation field holds no operation changes nothing.
pub fn analyze_rapid_record(
    arguments: &Arguments,
    event_buffer: [u8; 8],
    errors: &mut Vec<AnalyzerError>,
    locks: &mut HashMap<i64, Lock>,
    row: usize,
    graphviz: &mut Vec<Edge>,
    lock_dependencies: &mut Vec<LockDependency>,
)
    ensures
        analysis_of(
            final(locks)@,
            final(graphviz)@,
            final(lock_dependencies)@,
            final(errors)@,
        ) == (match decoded(event_buffer@) {
            Some(event) => analysis_of(
                old(locks)@,
                old(graphviz)@,
                old(lock_dependencies)@,
                old(errors)@,
            ).after_event(arguments.collecting(), event, row),
            None => analysis_of(
                old(locks)@,
                old(graphviz)@,
                old(lock_dependencies)@,
                old(errors)@,
            ),
        }),
        extends(final(graphviz)@, old(graphviz)@),
        old(graphviz)@.no_duplicates() ==> final(graphviz)@.no_duplicates(),
{
    match try_parse_event(event_buffer) {
        None => {},
        Some(event) => {
            analyze_decoded(arguments, event, errors, locks, row, graphviz, lock_dependencies);
        },
    }
}

/// Analyzes a trace written in the binary format, the first event of which
/// is row `row`.
///
/// The header is passed over. Bytes behind the last whole event are not
/// looked at, and a trace that ends within its header holds no event.
pub fn analyze_rapid_trace(
    arguments: &Arguments,
    trace: &[u8],
    errors: &mut Vec<AnalyzerError>,
    locks: &mut HashMap<i64, Lock>,
    row: usize,
    graphviz: &mut Vec<Edge>,
    lock_dependencies: &mut Vec<LockDependency>,
)
    requires
        row + records_in(trace@) <= usize::MAX,
    ensures
        analysis_of(
            final(locks)@,
            final(graphviz)@,
            final(lock_dependencies)@,
            final(errors)@,
        ) == after_records(
            analysis_of(old(locks)@, old(graphviz)@, old(lock_dependencies)@, old(errors)@),
            arguments.collecting(),
            trace@,
            row,
            records_in(trace@),
        ),
        extends(final(graphviz)@, old(graphviz)@),
        old(graphviz)@.no_duplicates() ==> final(graphviz)@.no_duplicates(),
{
    if trace.len() < HEADER_BYTES {
        return ;
    }
    let ghost start = analysis_of(locks@, graphviz@, lock_dependencies@, errors@);
    let records = (trace.len() - HEADER_BYTES) / EVENT_BYTES;
    let mut i: usize = 0;
    while i < records
        invariant
            i <= records,
            records == records_in(trace@),
            HEADER_BYTES + EVENT_BYTES * records <= trace.len(),
            row + records <= usize::MAX,
            analysis_of(locks@, graphviz@, lock_dependencies@, errors@) == after_records(
                start,
                arguments.collecting(),
                trace@,
                row,
                i as nat,
            ),
            extends(graphviz@, old(graphviz)@),
            old(graphviz)@.no_duplicates() ==> graphviz@.no_duplicates(),
        decreases records - i,
    {
        let at = HEADER_BYTES + EVENT_BYTES * i;
        let event_buffer: [u8; 8] = [
            trace[at],
            trace[at + 1],
            trace[at + 2],
            trace[at + 3],
            trace[at + 4],
            trace[at + 5],
            trace[at + 6],
            trace[at + 7],
        ];
        assert(event_buffer@ =~= record(trace@, i as int));
        analyze_rapid_record(
            arguments,
            event_buffer,
            errors,
            locks,
            row + i,
            graphviz,
            lock_dependencies,
        );
        i += 1;
    }
}

/// The two forms in which a trace is written.
#[derive(Clone, Copy, Debug, PartialEq, Eq, Structural)]
pub enum TraceFormat {
    /// The textual format, one event per line.
    Std,
    /// The packed binary format.
    RapidBin,
}

/// The format that the extension of a trace file's name stands for.
pub open spec fn format_of(extension: Option<Seq<char>>) -> Result<TraceFormat, AnalyzerError> {
    match extension {
        Some(name) => if name == "std"@ {
            Ok(TraceFormat::Std)
        } else if name == "data"@ {
            Ok(TraceFormat::RapidBin)
        } else {
            Err(AnalyzerError::UnsupportedFileExtension)
        },
        None => Err(AnalyzerError::UnsupportedFileExtension),
    }
}

/// Tells from the extension of a trace file's name how the trace is
/// written: `std` is the textual format, `data` the binary one. Any other
/// extension, and a name without one, is an error.
pub fn trace_format(extension: Option<&str>) -> (format: Result<TraceFormat, AnalyzerError>)
    ensures
        format == format_of(
            match extension {
                Some(name) => Some(name@),
                None => None,
            },
        ),
{
    match extension {
        Some(name) => {
            let name = String::from_str(name);
            if name == String::from_str("std") {
                Ok(TraceFormat::Std)
            } else if name == String::from_str("data") {
                Ok(TraceFormat::RapidBin)
            } else {
                Err(AnalyzerError::UnsupportedFileExtension)
            }
        },
        None => Err(AnalyzerError::UnsupportedFileExtension),
    }
}

/// The result of a run: success if nothing was reported, else the reports.
pub fn conclude(errors: Vec<AnalyzerError>) -> (outcome: Result<(), Vec<AnalyzerError>>)
    ensures
        outcome == if errors@.len() == 0 {
            Ok(())
        } else {
            Err(errors)
        },
{
    if errors.len() == 0 {
        return Ok(());
    }
    Err(errors)
}

/// What a run hands over when the trace has ended.
#[derive(Debug, PartialEq, Eq)]
pub struct Report {
    /// Success if nothing was reported, else the reports in the order in which they came.
    pub outcome: Result<(), Vec<AnalyzerError>>,
    /// The listing of the lock graph, where the run was to build it.
    pub lock_graph: Option<String>,
    /// The listing of the thread-level dependency graph, where the run was
    /// to record the lock dependencies.
    pub thread_graph: Option<String>,
    /// The number of deadlocks found, where the run was to record the lock dependencies.
    pub deadlocks: Option<usize>,
}

/// Closes a run: lists the lock graph if the run was to build it, and, if
/// it was to record the lock dependencies, lists the thread-level
/// dependency graph and counts the deadlocks. The run succeeds if nothing
/// was reported.
pub fn report(
    arguments: &Arguments,
    errors: Vec<AnalyzerError>,
    graphviz: &Vec<Edge>,
    lock_dependencies: &Vec<LockDependency>,
) -> (report: Report)
    ensures
        report.outcome == if errors@.len() == 0 {
            Ok(())
        } else {
            Err(errors)
        },
        match report.lock_graph {
            Some(text) => arguments.graph && text@ == listing("L"@, graphviz@),
            None => !arguments.graph,
        },
        match report.thread_graph {
            Some(text) => arguments.lock_dependencies && text@ == listing(
                "T"@,
                thread_edges(dependencies(lock_dependencies@)),
            ),
            None => !arguments.lock_dependencies,
        },
        match report.deadlocks {
            Some(found) => arguments.lock_dependencies && found == deadlocks(
                graph_of(
                    thread_edges(dependencies(lock_dependencies@)),
                    thread_edges(dependencies(lock_dependencies@)).len(),
                ),
            ),
            None => !arguments.lock_dependencies,
        },
{
    let lock_graph = if arguments.graph {
        Some(lock_graph_listing(graphviz))
    } else {
        None
    };
    let (thread_graph, deadlocks) = if arguments.lock_dependencies {
        let edges = thread_dependency_edges(lock_dependencies);
        let text = thread_graph_listing(&edges);
        let found = validate_dependency_graph(thread_dependency_graph(&edges));
        (Some(text), Some(found))
    } else {
        (None, None)
    };
    Report { outcome: conclude(errors), lock_graph, thread_graph, deadlocks }
}

} // verus!
