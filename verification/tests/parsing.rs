use trace_analyzer::error::{AnalyzerError, Expected, ParseError};
use trace_analyzer::lexer::tokenize_source;
use trace_analyzer::parser::{parse_event, Event, Operand, Operation};
use trace_analyzer::token::Token::{
    Acquire, LeftParenthesis, LineNumber, LockIdentifier, MemoryLocation, Pipe, RightParenthesis,
    ThreadIdentifier, Write,
};

fn parse_failure(error: AnalyzerError) -> ParseError {
    match error {
        AnalyzerError::ParserError(inner) => inner,
        other => panic!("not a parser error: {:?}", other),
    }
}

#[test]
fn when_valid_tokens_expect_parsing_succeeds() {
    let input = vec![
        ThreadIdentifier(12),
        Pipe,
        Write,
        LeftParenthesis,
        MemoryLocation(6),
        RightParenthesis,
        Pipe,
        LineNumber(42),
    ];

    let expected_event = Event {
        thread_identifier: 12,
        operation: Operation::Write,
        operand: Operand::MemoryLocation(6),
        loc: 42,
    };

    let result = parse_event(input);
    assert!(result.is_ok());

    let events = vec![result.unwrap()];
    assert_eq!(events.len(), 1);
    assert_eq!(events[0], expected_event);
}

#[test]
fn when_invalid_tokens_expect_parsing_fails() {
    let input = vec![
        ThreadIdentifier(12),
        Pipe,
        Write,
        Write, // repeated 'Write' token is invalid
        LeftParenthesis,
        MemoryLocation(6),
        LeftParenthesis,
        Write,
        LineNumber(42),
    ];

    let result = parse_event(input);
    assert!(result.is_err());

    let error = parse_failure(result.unwrap_err());
    assert_eq!(error.to_string(), "error at 3: expected [LeftParenthesis]");
}

#[test]
fn succeed_when_parsing_valid_tokens() {
    // arrange
    let input = "T6|w(4294967298)|59\n".to_string();
    let tokens = tokenize_source(input, true).unwrap();

    // act
    let actual_event = parse_event(tokens).unwrap();
    let expected_event = Event {
        thread_identifier: 6,
        operation: Operation::Write,
        operand: Operand::MemoryLocation(4294967298),
        loc: 59,
    };

    // assert
    assert_eq!(actual_event, expected_event);
}

#[test]
fn fail_when_parsing_invalid_tokens() {
    // arrange
    let input = "T6|w w(V4294967298)|59\n".to_string();
    let tokens = tokenize_source(input, false).unwrap();

    // act
    let error = parse_event(tokens).unwrap_err();

    // assert
    assert!(match error {
        AnalyzerError::ParserError(inner) => {
            assert_eq!(inner.location, 3);
            assert_eq!(inner.expected.tokens(), vec!["[LeftParenthesis]"]);

            true
        }
        _ => false,
    });
}

#[test]
fn the_first_token_that_does_not_fit_is_reported() {
    let line = vec![
        ThreadIdentifier(1),
        Pipe,
        Acquire,
        LeftParenthesis,
        LockIdentifier(2),
        RightParenthesis,
        Pipe,
        LineNumber(3),
    ];
    let wanted = [
        Expected::ThreadIdentifier,
        Expected::Pipe,
        Expected::Operation,
        Expected::LeftParenthesis,
        Expected::Operand,
        Expected::RightParenthesis,
        Expected::Pipe,
        Expected::LineNumber,
    ];
    for location in 0..8 {
        // a token that fits nowhere
        let mut spoiled = line.clone();
        spoiled[location] = trace_analyzer::token::Token::LeftSquareBracket;
        assert_eq!(
            parse_event(spoiled),
            Err(AnalyzerError::ParserError(ParseError { location, expected: wanted[location] }))
        );
        // a line that ends early
        let mut short = line.clone();
        short.truncate(location);
        assert_eq!(
            parse_event(short),
            Err(AnalyzerError::ParserError(ParseError { location, expected: wanted[location] }))
        );
    }
}

#[test]
fn tokens_behind_an_event_are_reported() {
    let mut line = vec![
        ThreadIdentifier(1),
        Pipe,
        Acquire,
        LeftParenthesis,
        LockIdentifier(2),
        RightParenthesis,
        Pipe,
        LineNumber(3),
    ];
    line.push(Pipe);
    let error = parse_failure(parse_event(line).unwrap_err());
    assert_eq!(error, ParseError { location: 8, expected: Expected::EndOfInput });
    assert_eq!(error.to_string(), "error at 8: expected EOF");
}

#[test]
fn the_grammar_does_not_hold_the_operand_to_the_operation() {
    let line = vec![
        ThreadIdentifier(1),
        Pipe,
        Acquire,
        LeftParenthesis,
        MemoryLocation(2),
        RightParenthesis,
        Pipe,
        LineNumber(3),
    ];
    assert_eq!(
        parse_event(line),
        Ok(Event {
            thread_identifier: 1,
            operation: Operation::Acquire,
            operand: Operand::MemoryLocation(2),
            loc: 3
        })
    );
}

#[test]
fn a_memory_location_with_field_and_index_is_an_operand() {
    let tokens = tokenize_source("T1|w(V12.3[4])|5".to_string(), false).unwrap();
    assert_eq!(tokens.len(), 8);
    assert_eq!(
        parse_event(tokens),
        Ok(Event {
            thread_identifier: 1,
            operation: Operation::Write,
            operand: Operand::MemoryLocation(12),
            loc: 5
        })
    );
}

#[test]
fn every_operation_keyword_is_read() {
    let cases = [
        ("T1|r(V2)|3", Operation::Read, Operand::MemoryLocation(2)),
        ("T1|w(V2)|3", Operation::Write, Operand::MemoryLocation(2)),
        ("T1|acq(L2)|3", Operation::Acquire, Operand::LockIdentifier(2)),
        ("T1|req(L2)|3", Operation::Request, Operand::LockIdentifier(2)),
        ("T1|rel(L2)|3", Operation::Release, Operand::LockIdentifier(2)),
        ("T1|fork(T2)|3", Operation::Fork, Operand::ThreadIdentifier(2)),
        ("T1|join(T2)|3", Operation::Join, Operand::ThreadIdentifier(2)),
    ];
    for (source, operation, operand) in cases {
        let tokens = tokenize_source(source.to_string(), false).unwrap();
        assert_eq!(
            parse_event(tokens),
            Ok(Event { thread_identifier: 1, operation, operand, loc: 3 })
        );
    }
}

#[test]
fn what_was_expected_is_named_in_alphabetical_order() {
    assert_eq!(
        Expected::Operation.tokens(),
        vec!["[Acquire]", "[Fork]", "[Join]", "[Read]", "[Release]", "[Request]", "[Write]"]
    );
    assert_eq!(
        Expected::Operand.tokens(),
        vec![
            "[LockIdentifier(lock_identifier)]",
            "[MemoryLocation(memory_location)]",
            "[ThreadIdentifier(thread_identifier)]"
        ]
    );
    let operation = ParseError { location: 2, expected: Expected::Operation };
    assert_eq!(
        operation.to_string(),
        "error at 2: expected one of [Acquire], [Fork], [Join], [Read], [Release], [Request], [Write]"
    );
    let operand = ParseError { location: 4, expected: Expected::Operand };
    assert_eq!(
        operand.to_string(),
        "error at 4: expected one of [LockIdentifier(lock_identifier)], [MemoryLocation(memory_location)], [ThreadIdentifier(thread_identifier)]"
    );
    assert_eq!(
        ParseError { location: 0, expected: Expected::ThreadIdentifier }.to_string(),
        "error at 0: expected [ThreadIdentifier(thread_identifier)]"
    );
    assert_eq!(
        ParseError { location: 7, expected: Expected::LineNumber }.to_string(),
        "error at 7: expected [LineNumber(loc)]"
    );
}

#[test]
fn operation_ids_of_the_binary_format() {
    let operations = [
        Operation::Acquire,
        Operation::Release,
        Operation::Read,
        Operation::Write,
        Operation::Fork,
        Operation::Join,
        Operation::Begin,
        Operation::End,
        Operation::Request,
        Operation::Branch,
    ];
    for (id, operation) in operations.iter().enumerate() {
        assert_eq!(Operation::new(id as i64), Some(*operation));
    }
    assert_eq!(Operation::new(10), None);
    assert_eq!(Operation::new(15), None);
    assert_eq!(Operation::new(-1), None);
}

#[test]
fn an_operand_takes_its_kind_from_the_operation() {
    assert_eq!(Operand::new(&Operation::Acquire, 7), Operand::LockIdentifier(7));
    assert_eq!(Operand::new(&Operation::Release, 7), Operand::LockIdentifier(7));
    assert_eq!(Operand::new(&Operation::Request, 7), Operand::LockIdentifier(7));
    assert_eq!(Operand::new(&Operation::Read, 7), Operand::MemoryLocation(7));
    assert_eq!(Operand::new(&Operation::Write, 7), Operand::MemoryLocation(7));
    assert_eq!(Operand::new(&Operation::Fork, 7), Operand::ThreadIdentifier(7));
    assert_eq!(Operand::new(&Operation::Join, 7), Operand::ThreadIdentifier(7));
    assert_eq!(Operand::new(&Operation::Begin, 7), Operand::Absent);
    assert_eq!(Operand::new(&Operation::End, 7), Operand::Absent);
    assert_eq!(Operand::new(&Operation::Branch, 7), Operand::Absent);
}

#[test]
fn the_number_in_an_operand() {
    assert_eq!(Operand::MemoryLocation(3).id(), Some(3));
    assert_eq!(Operand::LockIdentifier(4).id(), Some(4));
    assert_eq!(Operand::ThreadIdentifier(5).id(), Some(5));
    assert_eq!(Operand::Absent.id(), None);
}
