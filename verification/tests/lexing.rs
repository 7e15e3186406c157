use trace_analyzer::error::{AnalyzerError, LexerError};
use trace_analyzer::lexer;
use trace_analyzer::normalizer::normalize_tokens;
use trace_analyzer::token::{tokenize_source, Token};

#[test]
fn when_valid_characters_expect_lexing_succeeds() {
    let input = "T6|w(4294967298)|59";

    let result = tokenize_source(input.to_string());
    assert!(result.is_ok());

    let tokens = result.unwrap();
    assert_eq!(tokens.len(), 8);
}

#[test]
fn when_invalid_characters_expect_lexing_fails() {
    let input = "T6|w(4294967298)*|59"; // '*' is an invalid character

    let result = tokenize_source(input.to_string());
    assert!(result.is_err());

    let error = result.unwrap_err();
    assert_eq!(
        error.to_string(),
        "Logos encountered an non-ascii character"
    );
}

#[test]
fn token_when_valid_characters_expect_lexing_succeeds() {
    let input = "T6|w(4294967298)|59";

    let result = lexer::tokenize_source(input.to_string(), false);
    assert!(result.is_ok());

    let tokens = result.unwrap();
    assert_eq!(tokens.len(), 8);
}

#[test]
fn token_when_invalid_characters_expect_lexing_fails() {
    let input = "T6|w(4294967298)*|59"; // '*' is an invalid character

    let result = lexer::tokenize_source(input.to_string(), false);
    assert!(result.is_err());

    let error = result.unwrap_err();
    assert_eq!(
        error.to_string(),
        "Lexer encountered an error: Logos encountered an non-ascii character"
    );
}

#[test]
fn succeed_when_lexing_valid_chars() {
    // arrange
    let input = "T6|w(4294967298)|59\n".to_string();

    // act
    let tokens = lexer::tokenize_source(input, false).unwrap();

    // assert
    assert_eq!(tokens.len(), 8); // THREAD_IDENTIFIER PIPE WRITE LEFT_PAREN NUMBER RIGHT_PAREN PIPE NUMBER
}

#[test]
fn fail_when_lexing_invalid_chars() {
    // arrange
    let input = "T6|w(4294967298)|5\u{00e9}9\n".to_string();

    // act
    let error = lexer::tokenize_source(input, false).unwrap_err();

    // assert
    assert!(match error {
        AnalyzerError::LexerError(LexerError::NonAsciiCharacter) => true,
        _ => false,
    });
}

#[test]
fn every_kind_of_token_is_read() {
    let tokens = tokenize_source("| ( ) [ ] w r T12 L34 V56 fork req acq rel join 789".to_string());
    assert_eq!(
        tokens,
        Ok(vec![
            Token::Pipe,
            Token::LeftParenthesis,
            Token::RightParenthesis,
            Token::LeftSquareBracket,
            Token::RightSquareBracket,
            Token::Write,
            Token::Read,
            Token::ThreadIdentifier(12),
            Token::LockIdentifier(34),
            Token::MemoryLocation(56),
            Token::Fork,
            Token::Request,
            Token::Acquire,
            Token::Release,
            Token::Join,
            Token::LineNumber(789),
        ])
    );
}

#[test]
fn blanks_separate_tokens_and_are_dropped() {
    let tokens = tokenize_source(" \tT1\r\n|\x0cw ".to_string());
    assert_eq!(
        tokens,
        Ok(vec![Token::ThreadIdentifier(1), Token::Pipe, Token::Write])
    );
    assert_eq!(tokenize_source(String::new()), Ok(vec![]));
    assert_eq!(tokenize_source("  \n".to_string()), Ok(vec![]));
}

#[test]
fn the_longest_token_wins() {
    assert_eq!(
        tokenize_source("rrelreqr".to_string()),
        Ok(vec![Token::Read, Token::Release, Token::Request, Token::Read])
    );
    assert_eq!(
        tokenize_source("T12L3".to_string()),
        Ok(vec![Token::ThreadIdentifier(12), Token::LockIdentifier(3)])
    );
    assert_eq!(
        tokenize_source("007".to_string()),
        Ok(vec![Token::LineNumber(7)])
    );
}

#[test]
fn an_unfinished_keyword_fails() {
    for source in ["re", "rex", "fo", "for", "joi", "ac", "a", "f", "j", "T", "L", "V", "Tx"] {
        assert_eq!(
            tokenize_source(source.to_string()),
            Err(LexerError::NonAsciiCharacter),
            "{}",
            source
        );
    }
}

#[test]
fn a_number_must_fit_a_signed_64_bit_integer() {
    assert_eq!(
        tokenize_source("9223372036854775807".to_string()),
        Ok(vec![Token::LineNumber(i64::MAX)])
    );
    assert_eq!(
        tokenize_source("9223372036854775808".to_string()),
        Err(LexerError::NonAsciiCharacter)
    );
    assert_eq!(
        tokenize_source("T99999999999999999999".to_string()),
        Err(LexerError::NonAsciiCharacter)
    );
    assert_eq!(
        tokenize_source("L000000000000000000000000000009".to_string()),
        Ok(vec![Token::LockIdentifier(9)])
    );
}

#[test]
fn a_memory_location_with_field_and_index_is_one_token() {
    assert_eq!(
        tokenize_source("V1.2[3]".to_string()),
        Ok(vec![Token::MemoryLocation(1)])
    );
    assert_eq!(
        tokenize_source("T1|w(V12.3[4])|5".to_string()),
        Ok(vec![
            Token::ThreadIdentifier(1),
            Token::Pipe,
            Token::Write,
            Token::LeftParenthesis,
            Token::MemoryLocation(12),
            Token::RightParenthesis,
            Token::Pipe,
            Token::LineNumber(5),
        ])
    );
    // the field and the index may be longer than any number that is carried
    assert_eq!(
        tokenize_source("V7.99999999999999999999[00000000000000000000001]V8".to_string()),
        Ok(vec![Token::MemoryLocation(7), Token::MemoryLocation(8)])
    );
    // the number behind the letter must fit all the same
    assert_eq!(
        tokenize_source("V99999999999999999999.1[2]".to_string()),
        Err(LexerError::NonAsciiCharacter)
    );
}

#[test]
fn a_memory_location_without_a_whole_field_and_index_ends_behind_its_number() {
    assert_eq!(
        tokenize_source("V1[3]".to_string()),
        Ok(vec![
            Token::MemoryLocation(1),
            Token::LeftSquareBracket,
            Token::LineNumber(3),
            Token::RightSquareBracket
        ])
    );
    // a dot starts no token
    for source in ["V1.", "V1.2", "V1.2[", "V1.2[3", "V1.[3]", "V1.2[]", "V1.2 [3]", "V1 .2[3]"] {
        assert_eq!(
            tokenize_source(source.to_string()),
            Err(LexerError::NonAsciiCharacter),
            "{}",
            source
        );
    }
    // the other identifiers have no longer form
    assert_eq!(
        tokenize_source("T1.2[3]".to_string()),
        Err(LexerError::NonAsciiCharacter)
    );
    assert_eq!(
        tokenize_source("L1.2[3]".to_string()),
        Err(LexerError::NonAsciiCharacter)
    );
}

#[test]
fn a_byte_outside_ascii_fails_wherever_it_stands() {
    for source in ["\u{00e9}T1", "T1\u{00e9}", "T1 \u{4e2d} |", "T\u{0661}"] {
        assert_eq!(
            tokenize_source(source.to_string()),
            Err(LexerError::NonAsciiCharacter)
        );
    }
}

#[test]
fn normalization_retags_the_number_behind_an_operation() {
    let typed = |operation: Token, operand: Token| {
        vec![
            Token::ThreadIdentifier(1),
            Token::Pipe,
            operation,
            Token::LeftParenthesis,
            operand,
            Token::RightParenthesis,
            Token::Pipe,
            Token::LineNumber(2),
        ]
    };
    let cases = [
        ("T1|w(5)|2", Token::Write, Token::MemoryLocation(5)),
        ("T1|r(5)|2", Token::Read, Token::MemoryLocation(5)),
        ("T1|fork(5)|2", Token::Fork, Token::ThreadIdentifier(5)),
        ("T1|join(5)|2", Token::Join, Token::ThreadIdentifier(5)),
        ("T1|req(5)|2", Token::Request, Token::LockIdentifier(5)),
        ("T1|acq(5)|2", Token::Acquire, Token::LockIdentifier(5)),
        ("T1|rel(5)|2", Token::Release, Token::LockIdentifier(5)),
    ];
    for (source, operation, operand) in cases {
        assert_eq!(
            lexer::tokenize_source(source.to_string(), true),
            Ok(typed(operation, operand))
        );
    }
}

#[test]
fn normalization_drops_what_is_no_bare_number() {
    // the operand is typed already: it is taken out, and nothing comes in its place
    assert_eq!(
        normalize_tokens(vec![
            Token::Write,
            Token::LeftParenthesis,
            Token::MemoryLocation(5),
            Token::RightParenthesis
        ]),
        vec![Token::Write, Token::LeftParenthesis, Token::RightParenthesis]
    );
    // whatever follows the operation is taken for the parenthesis
    assert_eq!(
        normalize_tokens(vec![Token::Read, Token::Pipe, Token::LineNumber(7)]),
        vec![Token::Read, Token::LeftParenthesis, Token::MemoryLocation(7)]
    );
}

#[test]
fn normalization_of_a_line_that_ends_early() {
    assert_eq!(
        normalize_tokens(vec![Token::Acquire]),
        vec![Token::Acquire, Token::LeftParenthesis]
    );
    assert_eq!(
        normalize_tokens(vec![Token::Acquire, Token::LeftParenthesis]),
        vec![Token::Acquire, Token::LeftParenthesis]
    );
    assert_eq!(normalize_tokens(vec![]), vec![]);
}

#[test]
fn without_normalization_the_tokens_stay() {
    assert_eq!(
        lexer::tokenize_source("T1|acq(5)|2".to_string(), false),
        Ok(vec![
            Token::ThreadIdentifier(1),
            Token::Pipe,
            Token::Acquire,
            Token::LeftParenthesis,
            Token::LineNumber(5),
            Token::RightParenthesis,
            Token::Pipe,
            Token::LineNumber(2),
        ])
    );
}
