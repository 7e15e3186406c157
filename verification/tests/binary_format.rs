use std::collections::HashMap;
use trace_analyzer::analyzer::{Edge, Lock, LockDependency};
use trace_analyzer::arguments::Arguments;
use trace_analyzer::binary::{parse_trace_header, try_parse_event, TraceHeader};
use trace_analyzer::error::AnalyzerError;
use trace_analyzer::parser::{Event, Operand, Operation};
use trace_analyzer::trace::{analyze_rapid_record, analyze_rapid_trace, analyze_std_trace};

const ACQUIRE: u64 = 0;
const RELEASE: u64 = 1;

fn record(thread: u64, operation: u64, operand: u64, loc: u64) -> [u8; 8] {
    (thread | operation << 10 | operand << 14 | loc << 48).to_be_bytes()
}

fn header(threads: i16, locks: i32, variables: i32, events: i64) -> Vec<u8> {
    let mut bytes = Vec::new();
    bytes.extend_from_slice(&threads.to_be_bytes());
    bytes.extend_from_slice(&locks.to_be_bytes());
    bytes.extend_from_slice(&variables.to_be_bytes());
    bytes.extend_from_slice(&events.to_be_bytes());
    bytes
}

fn trace(records: &[[u8; 8]]) -> Vec<u8> {
    let mut bytes = header(2, 1, 0, records.len() as i64);
    for record in records {
        bytes.extend_from_slice(record);
    }
    bytes
}

struct Run {
    errors: Vec<AnalyzerError>,
    locks: HashMap<i64, Lock>,
    graph: Vec<Edge>,
    dependencies: Vec<LockDependency>,
}

fn run_bytes(arguments: &Arguments, bytes: &[u8]) -> Run {
    let mut run = Run {
        errors: Vec::new(),
        locks: HashMap::new(),
        graph: Vec::new(),
        dependencies: Vec::new(),
    };
    analyze_rapid_trace(
        arguments,
        bytes,
        &mut run.errors,
        &mut run.locks,
        1,
        &mut run.graph,
        &mut run.dependencies,
    );
    run
}

fn run_lines(arguments: &Arguments, lines: &[&str]) -> Run {
    let lines: Vec<String> = lines.iter().map(|line| line.to_string()).collect();
    let mut run = Run {
        errors: Vec::new(),
        locks: HashMap::new(),
        graph: Vec::new(),
        dependencies: Vec::new(),
    };
    analyze_std_trace(
        arguments,
        &lines,
        &mut run.errors,
        &mut run.locks,
        1,
        &mut run.graph,
        &mut run.dependencies,
    );
    run
}

#[test]
fn the_fields_of_a_record() {
    // thread 5, operation 3 (write), operand 4294967298, location 59
    let word: u64 = 5 | 3 << 10 | 4294967298 << 14 | 59 << 48;
    assert_eq!(word, 0x003b_4000_0000_8c05);
    assert_eq!(
        try_parse_event([0x00, 0x3b, 0x40, 0x00, 0x00, 0x00, 0x8c, 0x05]),
        Some(Event {
            thread_identifier: 5,
            operation: Operation::Write,
            operand: Operand::MemoryLocation(4294967298),
            loc: 59
        })
    );
}

#[test]
fn each_field_takes_all_its_bits_and_no_more() {
    let all = [0xff; 8];
    // operation 15 is none
    assert_eq!(try_parse_event(all), None);
    // the largest value of each field, the operation being 9 (branch)
    let word: u64 = u64::MAX & !(0xf << 10) | 9 << 10;
    assert_eq!(
        try_parse_event(word.to_be_bytes()),
        Some(Event {
            thread_identifier: 1023,
            operation: Operation::Branch,
            operand: Operand::Absent,
            loc: 32767
        })
    );
    let word: u64 = u64::MAX & !(0xf << 10);
    assert_eq!(
        try_parse_event(word.to_be_bytes()),
        Some(Event {
            thread_identifier: 1023,
            operation: Operation::Acquire,
            operand: Operand::LockIdentifier(17179869183),
            loc: 32767
        })
    );
    // the highest bit is not used
    assert_eq!(
        try_parse_event((1u64 << 63).to_be_bytes()),
        Some(Event {
            thread_identifier: 0,
            operation: Operation::Acquire,
            operand: Operand::LockIdentifier(0),
            loc: 0
        })
    );
    // one bit of each field
    assert_eq!(try_parse_event(record(1 << 9, 0, 0, 0)).unwrap().thread_identifier, 512);
    assert_eq!(
        try_parse_event(record(0, 0, 1 << 33, 0)).unwrap().operand,
        Operand::LockIdentifier(8589934592)
    );
    assert_eq!(try_parse_event(record(0, 0, 0, 1 << 14)).unwrap().loc, 16384);
    assert_eq!(try_parse_event(record(0, 8, 0, 0)).unwrap().operation, Operation::Request);
}

#[test]
fn the_operation_gives_the_operand_its_kind() {
    let cases = [
        (0, Operation::Acquire, Operand::LockIdentifier(7)),
        (1, Operation::Release, Operand::LockIdentifier(7)),
        (2, Operation::Read, Operand::MemoryLocation(7)),
        (3, Operation::Write, Operand::MemoryLocation(7)),
        (4, Operation::Fork, Operand::ThreadIdentifier(7)),
        (5, Operation::Join, Operand::ThreadIdentifier(7)),
        (6, Operation::Begin, Operand::Absent),
        (7, Operation::End, Operand::Absent),
        (8, Operation::Request, Operand::LockIdentifier(7)),
        (9, Operation::Branch, Operand::Absent),
    ];
    for (id, operation, operand) in cases {
        assert_eq!(
            try_parse_event(record(3, id, 7, 11)),
            Some(Event { thread_identifier: 3, operation, operand, loc: 11 })
        );
    }
    for id in 10..16 {
        assert_eq!(try_parse_event(record(3, id, 7, 11)), None);
    }
}

#[test]
fn the_header_counts() {
    assert_eq!(
        parse_trace_header(&header(3, 17, 250, 100000)),
        Some(TraceHeader { threads: 3, locks: 17, variables: 250, events: 100000 })
    );
    // only the lowest bits count: 10, 31, 31 and 63 of them
    assert_eq!(
        parse_trace_header(&header(-1, -1, -1, -1)),
        Some(TraceHeader {
            threads: 1023,
            locks: i32::MAX,
            variables: i32::MAX,
            events: i64::MAX
        })
    );
    assert_eq!(
        parse_trace_header(&header(0x0400, i32::MIN, i32::MIN, i64::MIN)),
        Some(TraceHeader { threads: 0, locks: 0, variables: 0, events: 0 })
    );
    assert_eq!(
        parse_trace_header(&[
            0x01, 0x02, 0x00, 0x00, 0x01, 0x02, 0x00, 0x03, 0x00, 0x04, 0x00, 0x00, 0x00, 0x00,
            0x00, 0x00, 0x05, 0x06
        ]),
        Some(TraceHeader { threads: 258, locks: 258, variables: 196612, events: 1286 })
    );
    // bytes behind the header are not looked at
    let mut long = header(3, 17, 250, 100000);
    long.extend_from_slice(&[0xff; 5]);
    assert_eq!(
        parse_trace_header(&long),
        Some(TraceHeader { threads: 3, locks: 17, variables: 250, events: 100000 })
    );
}

#[test]
fn a_short_header_is_none() {
    assert_eq!(parse_trace_header(&[]), None);
    assert_eq!(parse_trace_header(&header(1, 1, 1, 1)[..17]), None);
}

#[test]
fn a_binary_trace_is_analyzed_record_by_record() {
    let arguments = Arguments::new("trace.data", false, true, true, false);
    let run = run_bytes(
        &arguments,
        &trace(&[
            record(6, ACQUIRE, 9, 1),
            record(7, ACQUIRE, 9, 2),
            record(7, ACQUIRE, 3, 3),
            record(6, RELEASE, 3, 4),
        ]),
    );
    assert_eq!(
        run.errors,
        vec![
            AnalyzerError::RepeatedAcquisition { lock_id: 9, thread_id: 7, owner_id: 6, row: 2 },
            AnalyzerError::ReleasedNonOwningLock { row: 4, lock_id: 3, thread_id: 6, owner: 7 },
        ]
    );
    assert_eq!(run.graph, vec![Edge { from: 9, to: 3 }]);
    assert_eq!(run.dependencies.len(), 3);
}

#[test]
fn the_header_does_not_bind_the_trace() {
    let arguments = Arguments::new("trace.data", false, false, false, false);
    let mut bytes = header(0, 0, 0, 0);
    bytes.extend_from_slice(&record(1, RELEASE, 1, 1));
    assert_eq!(
        run_bytes(&arguments, &bytes).errors,
        vec![AnalyzerError::ReleasedNonAcquiredLock { row: 1, lock_id: 1, thread_id: 1 }]
    );
}

#[test]
fn a_record_with_an_unknown_operation_is_passed_over_and_counts_as_a_row() {
    let arguments = Arguments::new("trace.data", false, false, false, false);
    let run = run_bytes(
        &arguments,
        &trace(&[
            record(1, 12, 5, 1),
            record(1, ACQUIRE, 5, 2),
            record(1, 15, 5, 3),
            record(2, ACQUIRE, 5, 4),
        ]),
    );
    assert_eq!(
        run.errors,
        vec![AnalyzerError::RepeatedAcquisition { lock_id: 5, thread_id: 2, owner_id: 1, row: 4 }]
    );
    assert_eq!(run.locks[&5], Lock { owner: Some(2), locked: true, row: 4 });
}

#[test]
fn bytes_behind_the_last_whole_record_are_not_looked_at() {
    let arguments = Arguments::new("trace.data", false, false, false, false);
    let mut bytes = trace(&[record(1, RELEASE, 5, 1)]);
    bytes.extend_from_slice(&record(1, RELEASE, 6, 2)[..7]);
    assert_eq!(
        run_bytes(&arguments, &bytes).errors,
        vec![AnalyzerError::ReleasedNonAcquiredLock { row: 1, lock_id: 5, thread_id: 1 }]
    );
}

#[test]
fn a_trace_that_ends_within_its_header_holds_no_event() {
    let arguments = Arguments::new("trace.data", false, true, true, false);
    for length in [0, 1, 17, 18, 25] {
        let run = run_bytes(&arguments, &vec![0u8; length]);
        assert!(run.errors.is_empty());
        assert!(run.locks.is_empty());
    }
    // 18 bytes of header and one record of zeros: thread 0 acquires lock 0
    let run = run_bytes(&arguments, &vec![0u8; 26]);
    assert_eq!(run.locks[&0], Lock { owner: Some(0), locked: true, row: 1 });
}

#[test]
fn one_record_at_a_time() {
    let arguments = Arguments::new("trace.data", false, false, false, false);
    let mut errors = Vec::new();
    let mut locks = HashMap::new();
    let mut graph = Vec::new();
    let mut dependencies = Vec::new();
    let records = [record(1, 11, 5, 1), record(1, RELEASE, 5, 2), record(3, ACQUIRE, 5, 3)];
    for (index, record) in records.iter().enumerate() {
        analyze_rapid_record(
            &arguments,
            *record,
            &mut errors,
            &mut locks,
            index + 1,
            &mut graph,
            &mut dependencies,
        );
    }
    assert_eq!(
        errors,
        vec![AnalyzerError::ReleasedNonAcquiredLock { row: 2, lock_id: 5, thread_id: 1 }]
    );
    assert_eq!(locks[&5], Lock { owner: Some(3), locked: true, row: 3 });
    let whole = run_bytes(&arguments, &trace(&records));
    assert_eq!(whole.errors, errors);
    assert_eq!(whole.locks, locks);
}

#[test]
fn a_textual_trace_written_in_binary_gives_the_same_run() {
    let arguments = Arguments::new("trace", false, true, true, false);
    let lines = [
        "T1|acq(L1)|1",
        "T1|acq(L2)|2",
        "T2|acq(L2)|3",
        "T2|rel(L1)|4",
        "T1|w(V4294967298)|5",
        "T3|rel(L7)|6",
        "T1|rel(L2)|7",
        "T1|rel(L2)|8",
        "T1|fork(T4)|9",
        "T4|req(L1)|10",
        "T4|acq(V1)|11",
        "T1|join(T4)|12",
        "T1023|r(V17179869183)|32767",
    ];
    let records = [
        record(1, 0, 1, 1),
        record(1, 0, 2, 2),
        record(2, 0, 2, 3),
        record(2, 1, 1, 4),
        record(1, 3, 4294967298, 5),
        record(3, 1, 7, 6),
        record(1, 1, 2, 7),
        record(1, 1, 2, 8),
        record(1, 4, 4, 9),
        record(4, 8, 1, 10),
        record(4, 0, 1, 11),
        record(1, 5, 4, 12),
        record(1023, 2, 17179869183, 32767),
    ];
    let textual = run_lines(&arguments, &lines);
    let binary = run_bytes(&arguments, &trace(&records));
    assert_eq!(
        textual.errors,
        vec![
            AnalyzerError::RepeatedAcquisition { lock_id: 2, thread_id: 2, owner_id: 1, row: 3 },
            AnalyzerError::ReleasedNonOwningLock { row: 4, lock_id: 1, thread_id: 2, owner: 1 },
            AnalyzerError::ReleasedNonAcquiredLock { row: 6, lock_id: 7, thread_id: 3 },
            AnalyzerError::ReleasedNonOwningLock { row: 7, lock_id: 2, thread_id: 1, owner: 2 },
            AnalyzerError::ReleasedNonOwningLock { row: 8, lock_id: 2, thread_id: 1, owner: 2 },
            AnalyzerError::RepeatedAcquisition { lock_id: 1, thread_id: 4, owner_id: 1, row: 11 },
        ]
    );
    assert_eq!(binary.errors, textual.errors);
    assert_eq!(binary.locks, textual.locks);
    assert_eq!(binary.dependencies, textual.dependencies);
    let mut left = binary.graph.clone();
    let mut right = textual.graph.clone();
    left.sort_by_key(|edge| (edge.from, edge.to));
    right.sort_by_key(|edge| (edge.from, edge.to));
    assert_eq!(left, right);
}

#[test]
fn a_thread_that_does_not_fit_ten_bits_is_lost_in_binary() {
    // thread 1024 has no binary form: its lowest ten bits are those of thread 0
    assert_eq!(
        try_parse_event((1024u64 | 5 << 14).to_be_bytes()),
        Some(Event {
            thread_identifier: 0,
            operation: Operation::Release,
            operand: Operand::LockIdentifier(5),
            loc: 0
        })
    );
}
