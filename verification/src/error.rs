//! What can go wrong: decode errors, which end a run, and violations of the
//! lock discipline, which are collected while the run goes on.

use crate::text::{append_decimal, append_signed, decimal, signed_decimal};
use vstd::prelude::*;
use vstd::string::*;

verus! {

/// Why a line of a textual trace could not be split into tokens.
#[derive(Clone, Copy, Debug, PartialEq, Eq, Structural)]
pub enum LexerError {
    /// The line holds a byte that starts no token, such as any byte outside ASCII.
    NonAsciiCharacter,
}

impl Default for LexerError {
    fn default() -> (error: Self)
        ensures
            error == LexerError::NonAsciiCharacter,
    {
        LexerError::NonAsciiCharacter
    }
}

/// What the event grammar wanted to see at the place where parsing stopped.
#[derive(Clone, Copy, Debug, PartialEq, Eq, Structural)]
pub enum Expected {
    /// The identifier of the acting thread.
    ThreadIdentifier,
    /// A `|` separator.
    Pipe,
    /// One of the seven operation keywords.
    Operation,
    /// `(`
    LeftParenthesis,
    /// A typed identifier: a memory location, a lock or a thread.
    Operand,
    /// `)`
    RightParenthesis,
    /// The bare number that closes a line.
    LineNumber,
    /// Nothing more: the line goes on after a complete event.
    EndOfInput,
}

/// Why a token sequence is not one event.
#[derive(Clone, Copy, Debug, PartialEq, Eq, Structural)]
pub struct ParseError {
    /// Index of the first token that does not fit, or the number of tokens
    /// when the line ends too early.
    pub location: usize,
    /// What would have fitted there.
    pub expected: Expected,
}

/// Everything the analyzer reports.
#[derive(Clone, Debug, PartialEq, Eq)]
pub enum AnalyzerError {
    /// A thread acquired a lock that another thread holds.
    RepeatedAcquisition { lock_id: i64, thread_id: i64, owner_id: i64, row: usize },
    /// A thread released a lock that is free; `previous` is the row at which the lock last changed.
    RepeatedRelease { attempted: usize, previous: usize, lock_id: i64, thread_id: i64 },
    /// A thread released a lock that another thread holds.
    ReleasedNonOwningLock { row: usize, lock_id: i64, thread_id: i64, owner: i64 },
    /// A thread released a lock that nobody has acquired so far.
    ReleasedNonAcquiredLock { row: usize, lock_id: i64, thread_id: i64 },
    /// The trace file's extension names neither of the two trace formats.
    UnsupportedFileExtension,
    /// Reading the trace failed; the payload is the cause in words.
    IOError(String),
    /// A line could not be split into tokens.
    LexerError(LexerError),
    /// A line's tokens are not one event.
    ParserError(ParseError),
}

impl AnalyzerError {
    /// Whether the error is a violation of the lock discipline, after which
    /// the analysis goes on, and not a decode error, which ends it.
    pub open spec fn is_violation(self) -> bool {
        self is RepeatedAcquisition || self is RepeatedRelease || self is ReleasedNonOwningLock
            || self is ReleasedNonAcquiredLock
    }
}

impl From<LexerError> for AnalyzerError {
    fn from(error: LexerError) -> (wrapped: Self) {
        AnalyzerError::LexerError(error)
    }
}

impl vstd::std_specs::convert::FromSpecImpl<LexerError> for AnalyzerError {
    open spec fn obeys_from_spec() -> bool {
        true
    }

    open spec fn from_spec(error: LexerError) -> Self {
        AnalyzerError::LexerError(error)
    }
}

impl From<ParseError> for AnalyzerError {
    fn from(error: ParseError) -> (wrapped: Self) {
        AnalyzerError::ParserError(error)
    }
}

impl vstd::std_specs::convert::FromSpecImpl<ParseError> for AnalyzerError {
    open spec fn obeys_from_spec() -> bool {
        true
    }

    open spec fn from_spec(error: ParseError) -> Self {
        AnalyzerError::ParserError(error)
    }
}

impl LexerError {
    /// The error in words.
    pub open spec fn text(self) -> Seq<char> {
        "Logos encountered an non-ascii character"@
    }

    /// The error in words.
    pub fn to_string(&self) -> (text: String)
        ensures
            text@ == self.text(),
    {
        String::from_str("Logos encountered an non-ascii character")
    }
}

impl Expected {
    /// The names of the tokens that would have fitted, in alphabetical order.
    pub open spec fn names(self) -> Seq<Seq<char>> {
        match self {
            Expected::ThreadIdentifier => seq!["[ThreadIdentifier(thread_identifier)]"@],
            Expected::Pipe => seq!["[Pipe]"@],
            Expected::Operation => seq![
                "[Acquire]"@,
                "[Fork]"@,
                "[Join]"@,
                "[Read]"@,
                "[Release]"@,
                "[Request]"@,
                "[Write]"@,
            ],
            Expected::LeftParenthesis => seq!["[LeftParenthesis]"@],
            Expected::Operand => seq![
                "[LockIdentifier(lock_identifier)]"@,
                "[MemoryLocation(memory_location)]"@,
                "[ThreadIdentifier(thread_identifier)]"@,
            ],
            Expected::RightParenthesis => seq!["[RightParenthesis]"@],
            Expected::LineNumber => seq!["[LineNumber(loc)]"@],
            Expected::EndOfInput => seq!["EOF"@],
        }
    }

    /// The names, `count` of them, each but the first with a comma before it.
    pub open spec fn listed(names: Seq<Seq<char>>, count: nat) -> Seq<char>
        decreases count,
    {
        if count == 0 {
            Seq::empty()
        } else if count == 1 {
            names[0]
        } else {
            Self::listed(names, (count - 1) as nat) + ", "@ + names[count - 1]
        }
    }

    /// What was expected, in words: the one name, or `one of` and the names.
    pub open spec fn text(self) -> Seq<char> {
        if self.names().len() == 1 {
            self.names()[0]
        } else {
            "one of "@ + Self::listed(self.names(), self.names().len())
        }
    }

    /// The names of the tokens that would have fitted, in alphabetical order.
    pub fn tokens(&self) -> (names: Vec<&'static str>)
        ensures
            names@.len() == self.names().len(),
            forall|i: int| 0 <= i < names@.len() ==> (#[trigger] names@[i])@ == self.names()[i],
    {
        let mut names: Vec<&'static str> = Vec::new();
        match self {
            Expected::ThreadIdentifier => {
                names.push("[ThreadIdentifier(thread_identifier)]");
            },
            Expected::Pipe => {
                names.push("[Pipe]");
            },
            Expected::Operation => {
                names.push("[Acquire]");
                names.push("[Fork]");
                names.push("[Join]");
                names.push("[Read]");
                names.push("[Release]");
                names.push("[Request]");
                names.push("[Write]");
            },
            Expected::LeftParenthesis => {
                names.push("[LeftParenthesis]");
            },
            Expected::Operand => {
                names.push("[LockIdentifier(lock_identifier)]");
                names.push("[MemoryLocation(memory_location)]");
                names.push("[ThreadIdentifier(thread_identifier)]");
            },
            Expected::RightParenthesis => {
                names.push("[RightParenthesis]");
            },
            Expected::LineNumber => {
                names.push("[LineNumber(loc)]");
            },
            Expected::EndOfInput => {
                names.push("EOF");
            },
        }
        names
    }

    /// What was expected, in words.
    pub fn to_string(&self) -> (text: String)
        ensures
            text@ == self.text(),
    {
        let names = self.tokens();
        if names.len() == 1 {
            return String::from_str(names[0]);
        }
        let mut text = String::from_str("one of ");
        let mut i: usize = 0;
        while i < names.len()
            invariant
                i <= names.len(),
                names@.len() == self.names().len(),
                forall|j: int| 0 <= j < names@.len() ==> (#[trigger] names@[j])@ == self.names()[j],
                text@ == "one of "@ + Self::listed(self.names(), i as nat),
            decreases names.len() - i,
        {
            if i > 0 {
                text.append(", ");
            }
            text.append(names[i]);
            assert(text@ =~= "one of "@ + Self::listed(self.names(), (i + 1) as nat));
            i += 1;
        }
        text
    }
}

impl ParseError {
    /// The error in words.
    pub open spec fn text(self) -> Seq<char> {
        "error at "@ + decimal(self.location as nat) + ": expected "@ + self.expected.text()
    }

    /// The error in words.
    pub fn to_string(&self) -> (text: String)
        ensures
            text@ == self.text(),
    {
        let mut text = String::from_str("error at ");
        append_decimal(&mut text, self.location as u64);
        text.append(": expected ");
        text.append(self.expected.to_string().as_str());
        text
    }
}

impl AnalyzerError {
    /// The error in words.
    pub open spec fn text(self) -> Seq<char> {
        match self {
            AnalyzerError::RepeatedAcquisition { lock_id, thread_id, owner_id, row } => {
                "Thread 'T"@ + signed_decimal(thread_id as int)
                    + "' tried to acquire the already acquired lock 'L"@ + signed_decimal(
                    lock_id as int,
                ) + "' in row "@ + decimal(row as nat) + ". Current owner is "@ + signed_decimal(
                    owner_id as int,
                )
            },
            AnalyzerError::RepeatedRelease { attempted, previous, lock_id, thread_id } => {
                "Thread 'T"@ + signed_decimal(thread_id as int)
                    + "' tried to release the already released lock 'L"@ + signed_decimal(
                    lock_id as int,
                ) + "' in row "@ + decimal(attempted as nat) + ". Last release occurred in row "@
                    + decimal(previous as nat)
            },
            AnalyzerError::ReleasedNonOwningLock { row, lock_id, thread_id, owner } => {
                "Thread 'T"@ + signed_decimal(thread_id as int)
                    + "' tried to release the non-owning lock 'L"@ + signed_decimal(lock_id as int)
                    + "' in row "@ + decimal(row as nat) + ". Current owner is thread '"@
                    + signed_decimal(owner as int) + "'"@
            },
            AnalyzerError::ReleasedNonAcquiredLock { row, lock_id, thread_id } => {
                "Thread 'T"@ + signed_decimal(thread_id as int)
                    + "' tried to release the non-acquired lock 'L"@ + signed_decimal(
                    lock_id as int,
                ) + "' in row "@ + decimal(row as nat)
            },
            AnalyzerError::UnsupportedFileExtension => "Provided file extension is not supported"@,
            AnalyzerError::IOError(cause) => {
                "Analyzer encountered an error while performing I/O: "@ + cause@
            },
            AnalyzerError::LexerError(error) => "Lexer encountered an error: "@ + error.text(),
            AnalyzerError::ParserError(error) => {
                "Parser encountered an error at index "@ + decimal(error.location as nat)
                    + ": Expected "@ + error.expected.text()
            },
        }
    }

    /// The error in words: thread, lock and row, and the owner or the
    /// earlier row where there is one.
    pub fn to_string(&self) -> (text: String)
        ensures
            text@ == self.text(),
    {
        match self {
            AnalyzerError::RepeatedAcquisition { lock_id, thread_id, owner_id, row } => {
                let mut text = String::from_str("Thread 'T");
                append_signed(&mut text, *thread_id);
                text.append("' tried to acquire the already acquired lock 'L");
                append_signed(&mut text, *lock_id);
                text.append("' in row ");
                append_decimal(&mut text, *row as u64);
                text.append(". Current owner is ");
                append_signed(&mut text, *owner_id);
                text
            },
            AnalyzerError::RepeatedRelease { attempted, previous, lock_id, thread_id } => {
                let mut text = String::from_str("Thread 'T");
                append_signed(&mut text, *thread_id);
                text.append("' tried to release the already released lock 'L");
                append_signed(&mut text, *lock_id);
                text.append("' in row ");
                append_decimal(&mut text, *attempted as u64);
                text.append(". Last release occurred in row ");
                append_decimal(&mut text, *previous as u64);
                text
            },
            AnalyzerError::ReleasedNonOwningLock { row, lock_id, thread_id, owner } => {
                let mut text = String::from_str("Thread 'T");
                append_signed(&mut text, *thread_id);
                text.append("' tried to release the non-owning lock 'L");
                append_signed(&mut text, *lock_id);
                text.append("' in row ");
                append_decimal(&mut text, *row as u64);
                text.append(". Current owner is thread '");
                append_signed(&mut text, *owner);
                text.append("'");
                text
            },
            AnalyzerError::ReleasedNonAcquiredLock { row, lock_id, thread_id } => {
                let mut text = String::from_str("Thread 'T");
                append_signed(&mut text, *thread_id);
                text.append("' tried to release the non-acquired lock 'L");
                append_signed(&mut text, *lock_id);
                text.append("' in row ");
                append_decimal(&mut text, *row as u64);
                text
            },
            AnalyzerError::UnsupportedFileExtension => String::from_str(
                "Provided file extension is not supported",
            ),
            AnalyzerError::IOError(cause) => {
                let mut text = String::from_str(
                    "Analyzer encountered an error while performing I/O: ",
                );
                text.append(cause.as_str());
                text
            },
            AnalyzerError::LexerError(error) => {
                let mut text = String::from_str("Lexer encountered an error: ");
                text.append(error.to_string().as_str());
                text
            },
            AnalyzerError::ParserError(error) => {
                let mut text = String::from_str("Parser encountered an error at index ");
                append_decimal(&mut text, error.location as u64);
                text.append(": Expected ");
                text.append(error.expected.to_string().as_str());
                text
            },
        }
    }
}

} // verus!
