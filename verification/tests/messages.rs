use trace_analyzer::error::{AnalyzerError, Expected, LexerError, ParseError};
use trace_analyzer::parser::{Event, Operand, Operation};
use trace_analyzer::text::{append_decimal, append_signed};

#[test]
fn a_violation_in_words() {
    assert_eq!(
        AnalyzerError::RepeatedAcquisition { lock_id: 9, thread_id: 7, owner_id: 6, row: 7 }
            .to_string(),
        "Thread 'T7' tried to acquire the already acquired lock 'L9' in row 7. Current owner is 6"
    );
    assert_eq!(
        AnalyzerError::RepeatedRelease { attempted: 8, previous: 7, lock_id: 9, thread_id: 6 }
            .to_string(),
        "Thread 'T6' tried to release the already released lock 'L9' in row 8. Last release occurred in row 7"
    );
    assert_eq!(
        AnalyzerError::ReleasedNonOwningLock { row: 7, lock_id: 9, thread_id: 7, owner: 6 }
            .to_string(),
        "Thread 'T7' tried to release the non-owning lock 'L9' in row 7. Current owner is thread '6'"
    );
    assert_eq!(
        AnalyzerError::ReleasedNonAcquiredLock { row: 6, lock_id: 9, thread_id: 7 }.to_string(),
        "Thread 'T7' tried to release the non-acquired lock 'L9' in row 6"
    );
    assert_eq!(
        AnalyzerError::RepeatedAcquisition {
            lock_id: 17179869183,
            thread_id: 1023,
            owner_id: 0,
            row: 1000000
        }
        .to_string(),
        "Thread 'T1023' tried to acquire the already acquired lock 'L17179869183' in row 1000000. Current owner is 0"
    );
}

#[test]
fn a_decode_error_in_words() {
    assert_eq!(
        AnalyzerError::UnsupportedFileExtension.to_string(),
        "Provided file extension is not supported"
    );
    assert_eq!(
        AnalyzerError::IOError("No such file or directory (os error 2)".to_string()).to_string(),
        "Analyzer encountered an error while performing I/O: No such file or directory (os error 2)"
    );
    assert_eq!(
        AnalyzerError::LexerError(LexerError::NonAsciiCharacter).to_string(),
        "Lexer encountered an error: Logos encountered an non-ascii character"
    );
    assert_eq!(
        AnalyzerError::ParserError(ParseError {
            location: 3,
            expected: Expected::LeftParenthesis
        })
        .to_string(),
        "Parser encountered an error at index 3: Expected [LeftParenthesis]"
    );
    assert_eq!(
        AnalyzerError::ParserError(ParseError { location: 4, expected: Expected::Operand })
            .to_string(),
        "Parser encountered an error at index 4: Expected one of [LockIdentifier(lock_identifier)], [MemoryLocation(memory_location)], [ThreadIdentifier(thread_identifier)]"
    );
}

#[test]
fn what_was_expected_in_words() {
    assert_eq!(Expected::Pipe.to_string(), "[Pipe]");
    assert_eq!(Expected::RightParenthesis.to_string(), "[RightParenthesis]");
    assert_eq!(Expected::EndOfInput.to_string(), "EOF");
    assert_eq!(Expected::Pipe.tokens(), vec!["[Pipe]"]);
    assert_eq!(Expected::EndOfInput.tokens(), vec!["EOF"]);
    assert_eq!(
        Expected::Operation.to_string(),
        "one of [Acquire], [Fork], [Join], [Read], [Release], [Request], [Write]"
    );
}

#[test]
fn errors_wrap_into_the_analyzers_error() {
    assert_eq!(
        AnalyzerError::from(LexerError::NonAsciiCharacter),
        AnalyzerError::LexerError(LexerError::NonAsciiCharacter)
    );
    let error = ParseError { location: 1, expected: Expected::Pipe };
    assert_eq!(AnalyzerError::from(error), AnalyzerError::ParserError(error));
    assert_eq!(LexerError::default(), LexerError::NonAsciiCharacter);
}

#[test]
fn an_event_in_words() {
    assert_eq!(
        Event {
            thread_identifier: 6,
            operation: Operation::Write,
            operand: Operand::MemoryLocation(4294967298),
            loc: 59
        }
        .to_string(),
        "Event[Thread=T6 Operation=Write Operand=V4294967298 LoC=59]"
    );
    assert_eq!(
        Event {
            thread_identifier: 0,
            operation: Operation::Begin,
            operand: Operand::Absent,
            loc: 0
        }
        .to_string(),
        "Event[Thread=T0 Operation=Begin Operand=None LoC=0]"
    );
}

#[test]
fn operations_and_operands_in_words() {
    let names = [
        (Operation::Read, "Read"),
        (Operation::Write, "Write"),
        (Operation::Acquire, "Acquire"),
        (Operation::Request, "Request"),
        (Operation::Release, "Release"),
        (Operation::Fork, "Fork"),
        (Operation::Join, "Join"),
        (Operation::Begin, "Begin"),
        (Operation::End, "End"),
        (Operation::Branch, "Branch"),
    ];
    for (operation, name) in names {
        assert_eq!(operation.to_string(), name);
    }
    assert_eq!(Operand::MemoryLocation(12).to_string(), "V12");
    assert_eq!(Operand::LockIdentifier(3).to_string(), "L3");
    assert_eq!(Operand::ThreadIdentifier(45).to_string(), "T45");
    assert_eq!(Operand::Absent.to_string(), "None");
}

#[test]
fn numbers_are_written_in_decimal() {
    let decimal = |value: u64| {
        let mut text = String::from("#");
        append_decimal(&mut text, value);
        text
    };
    let signed = |value: i64| {
        let mut text = String::from("#");
        append_signed(&mut text, value);
        text
    };
    assert_eq!(decimal(0), "#0");
    assert_eq!(decimal(9), "#9");
    assert_eq!(decimal(10), "#10");
    assert_eq!(decimal(1234567890), "#1234567890");
    assert_eq!(decimal(u64::MAX), "#18446744073709551615");
    assert_eq!(signed(0), "#0");
    assert_eq!(signed(-1), "#-1");
    assert_eq!(signed(105), "#105");
    assert_eq!(signed(i64::MAX), "#9223372036854775807");
    assert_eq!(signed(i64::MIN), "#-9223372036854775808");
    for value in [0u64, 7, 10, 99, 100, 101, 4294967298, 999999999999] {
        assert_eq!(decimal(value), format!("#{}", value));
    }
}
