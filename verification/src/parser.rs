//! The event model, one record of a trace, and the grammar that reads an
//! event from the tokens of a line:
//!
//! `ThreadIdentifier Pipe Operation LeftParenthesis Operand RightParenthesis Pipe LineNumber`
//!
//! where `Operation` is one of the seven operation keywords and `Operand` is
//! a memory location, a lock or a thread. The grammar does not ask that the
//! operand be of the kind that the operation works on.

use crate::error::{AnalyzerError, Expected, ParseError};
use crate::text::{append_signed, signed_decimal};
use crate::token::Token;
use vstd::prelude::*;
use vstd::string::*;

verus! {

/// What a thread does in one event.
#[derive(Clone, Copy, Debug, PartialEq, Eq, Structural)]
pub enum Operation {
    Read,
    Write,
    Acquire,
    Request,
    Release,
    Fork,
    Join,
    Begin,
    End,
    Branch,
}

impl Operation {
    /// The operation that a numeric operation id of the binary format stands for.
    pub open spec fn from_id(value: int) -> Option<Operation> {
        if value == 0 {
            Some(Operation::Acquire)
        } else if value == 1 {
            Some(Operation::Release)
        } else if value == 2 {
            Some(Operation::Read)
        } else if value == 3 {
            Some(Operation::Write)
        } else if value == 4 {
            Some(Operation::Fork)
        } else if value == 5 {
            Some(Operation::Join)
        } else if value == 6 {
            Some(Operation::Begin)
        } else if value == 7 {
            Some(Operation::End)
        } else if value == 8 {
            Some(Operation::Request)
        } else if value == 9 {
            Some(Operation::Branch)
        } else {
            None
        }
    }

    /// The numeric id under which the binary format stores an operation.
    pub open spec fn id(self) -> int {
        match self {
            Operation::Acquire => 0,
            Operation::Release => 1,
            Operation::Read => 2,
            Operation::Write => 3,
            Operation::Fork => 4,
            Operation::Join => 5,
            Operation::Begin => 6,
            Operation::End => 7,
            Operation::Request => 8,
            Operation::Branch => 9,
        }
    }

    /// Whether the operation works on a lock.
    pub open spec fn on_lock(self) -> bool {
        self is Acquire || self is Release || self is Request
    }

    /// Whether the operation works on a memory location.
    pub open spec fn on_memory(self) -> bool {
        self is Read || self is Write
    }

    /// Whether the operation works on another thread.
    pub open spec fn on_thread(self) -> bool {
        self is Fork || self is Join
    }

    /// The name of the operation.
    pub open spec fn text(self) -> Seq<char> {
        match self {
            Operation::Read => "Read"@,
            Operation::Write => "Write"@,
            Operation::Acquire => "Acquire"@,
            Operation::Request => "Request"@,
            Operation::Release => "Release"@,
            Operation::Fork => "Fork"@,
            Operation::Join => "Join"@,
            Operation::Begin => "Begin"@,
            Operation::End => "End"@,
            Operation::Branch => "Branch"@,
        }
    }

    /// The name of the operation.
    pub fn to_string(&self) -> (text: String)
        ensures
            text@ == self.text(),
    {
        match self {
            Operation::Read => String::from_str("Read"),
            Operation::Write => String::from_str("Write"),
            Operation::Acquire => String::from_str("Acquire"),
            Operation::Request => String::from_str("Request"),
            Operation::Release => String::from_str("Release"),
            Operation::Fork => String::from_str("Fork"),
            Operation::Join => String::from_str("Join"),
            Operation::Begin => String::from_str("Begin"),
            Operation::End => String::from_str("End"),
            Operation::Branch => String::from_str("Branch"),
        }
    }

    /// Decodes a numeric operation id; ids outside `0..=9` stand for no operation.
    pub fn new(value: i64) -> (operation: Option<Self>)
        ensures
            operation == Self::from_id(value as int),
    {
        match value {
            0 => Some(Operation::Acquire),
            1 => Some(Operation::Release),
            2 => Some(Operation::Read),
            3 => Some(Operation::Write),
            4 => Some(Operation::Fork),
            5 => Some(Operation::Join),
            6 => Some(Operation::Begin),
            7 => Some(Operation::End),
            8 => Some(Operation::Request),
            9 => Some(Operation::Branch),
            _ => None,
        }
    }
}

/// What an operation works on.
#[derive(Clone, Copy, Debug, PartialEq, Eq, Structural)]
pub enum Operand {
    MemoryLocation(i64),
    LockIdentifier(i64),
    ThreadIdentifier(i64),
    /// No operand: the operation works on nothing.
    Absent,
}

impl Operand {
    /// The operand that `operation` carries when its raw numeric operand is `operand_id`.
    pub open spec fn for_operation(operation: Operation, operand_id: i64) -> Operand {
        if operation.on_memory() {
            Operand::MemoryLocation(operand_id)
        } else if operation.on_lock() {
            Operand::LockIdentifier(operand_id)
        } else if operation.on_thread() {
            Operand::ThreadIdentifier(operand_id)
        } else {
            Operand::Absent
        }
    }

    /// The integer inside the operand, if it has one.
    pub open spec fn spec_id(self) -> Option<i64> {
        match self {
            Operand::MemoryLocation(id) => Some(id),
            Operand::LockIdentifier(id) => Some(id),
            Operand::ThreadIdentifier(id) => Some(id),
            Operand::Absent => None,
        }
    }

    /// Whether the operand's kind is the one that `operation` works on.
    pub open spec fn fits(self, operation: Operation) -> bool {
        match self {
            Operand::MemoryLocation(_) => operation.on_memory(),
            Operand::LockIdentifier(_) => operation.on_lock(),
            Operand::ThreadIdentifier(_) => operation.on_thread(),
            Operand::Absent => !operation.on_memory() && !operation.on_lock()
                && !operation.on_thread(),
        }
    }

    /// The operand as a trace writes it: `V`, `L` or `T` and the number, or `None`.
    pub open spec fn text(self) -> Seq<char> {
        match self {
            Operand::MemoryLocation(memory_location) => "V"@ + signed_decimal(
                memory_location as int,
            ),
            Operand::LockIdentifier(lock_identifier) => "L"@ + signed_decimal(
                lock_identifier as int,
            ),
            Operand::ThreadIdentifier(thread_identifier) => "T"@ + signed_decimal(
                thread_identifier as int,
            ),
            Operand::Absent => "None"@,
        }
    }

    /// The operand as a trace writes it.
    pub fn to_string(&self) -> (text: String)
        ensures
            text@ == self.text(),
    {
        match self {
            Operand::MemoryLocation(memory_location) => {
                let mut text = String::from_str("V");
                append_signed(&mut text, *memory_location);
                text
            },
            Operand::LockIdentifier(lock_identifier) => {
                let mut text = String::from_str("L");
                append_signed(&mut text, *lock_identifier);
                text
            },
            Operand::ThreadIdentifier(thread_identifier) => {
                let mut text = String::from_str("T");
                append_signed(&mut text, *thread_identifier);
                text
            },
            Operand::Absent => String::from_str("None"),
        }
    }

    /// Tags a raw numeric operand with the kind that `operation` works on.
    pub fn new(operation: &Operation, operand_id: i64) -> (operand: Self)
        ensures
            operand == Self::for_operation(*operation, operand_id),
            operand.fits(*operation),
    {
        match operation {
            Operation::Read => Operand::MemoryLocation(operand_id),
            Operation::Write => Operand::MemoryLocation(operand_id),
            Operation::Acquire => Operand::LockIdentifier(operand_id),
            Operation::Request => Operand::LockIdentifier(operand_id),
            Operation::Release => Operand::LockIdentifier(operand_id),
            Operation::Fork => Operand::ThreadIdentifier(operand_id),
            Operation::Join => Operand::ThreadIdentifier(operand_id),
            _ => Operand::Absent,
        }
    }

    /// The integer inside the operand; `None` for the absent operand.
    pub fn id(&self) -> (id: Option<i64>)
        ensures
            id == self.spec_id(),
    {
        match self {
            Operand::MemoryLocation(memory_id) => Some(*memory_id),
            Operand::LockIdentifier(lock_id) => Some(*lock_id),
            Operand::ThreadIdentifier(thread_id) => Some(*thread_id),
            Operand::Absent => None,
        }
    }
}

/// One record of a trace.
#[derive(Clone, Copy, Debug, PartialEq, Eq, Structural)]
pub struct Event {
    /// The thread that acts.
    pub thread_identifier: i64,
    /// What it does.
    pub operation: Operation,
    /// What it does it to.
    pub operand: Operand,
    /// The source-code location the event was recorded at.
    pub loc: i64,
}

impl Event {
    /// Whether the operand's kind is the one that the operation works on.
    pub open spec fn consistent(self) -> bool {
        self.operand.fits(self.operation)
    }

    /// The event in words.
    pub open spec fn text(self) -> Seq<char> {
        "Event[Thread=T"@ + signed_decimal(self.thread_identifier as int) + " Operation="@
            + self.operation.text() + " Operand="@ + self.operand.text() + " LoC="@
            + signed_decimal(self.loc as int) + "]"@
    }

    /// The event in words.
    pub fn to_string(&self) -> (text: String)
        ensures
            text@ == self.text(),
    {
        let mut text = String::from_str("Event[Thread=T");
        append_signed(&mut text, self.thread_identifier);
        text.append(" Operation=");
        text.append(self.operation.to_string().as_str());
        text.append(" Operand=");
        text.append(self.operand.to_string().as_str());
        text.append(" LoC=");
        append_signed(&mut text, self.loc);
        text.append("]");
        text
    }
}

/// The number of tokens that make an event.
pub const EVENT_TOKENS: usize = 8;

/// The operation that an operation keyword stands for.
pub open spec fn operation_of(token: Token) -> Option<Operation> {
    match token {
        Token::Read => Some(Operation::Read),
        Token::Write => Some(Operation::Write),
        Token::Acquire => Some(Operation::Acquire),
        Token::Request => Some(Operation::Request),
        Token::Release => Some(Operation::Release),
        Token::Fork => Some(Operation::Fork),
        Token::Join => Some(Operation::Join),
        _ => None,
    }
}

/// The operand that a typed identifier stands for.
pub open spec fn operand_of(token: Token) -> Option<Operand> {
    match token {
        Token::MemoryLocation(id) => Some(Operand::MemoryLocation(id)),
        Token::LockIdentifier(id) => Some(Operand::LockIdentifier(id)),
        Token::ThreadIdentifier(id) => Some(Operand::ThreadIdentifier(id)),
        _ => None,
    }
}

/// What the grammar wants at the place `location` of a line.
pub open spec fn expected_at(location: int) -> Expected {
    if location == 0 {
        Expected::ThreadIdentifier
    } else if location == 1 || location == 6 {
        Expected::Pipe
    } else if location == 2 {
        Expected::Operation
    } else if location == 3 {
        Expected::LeftParenthesis
    } else if location == 4 {
        Expected::Operand
    } else if location == 5 {
        Expected::RightParenthesis
    } else if location == 7 {
        Expected::LineNumber
    } else {
        Expected::EndOfInput
    }
}

/// Whether `token` is what the grammar wants to see.
pub open spec fn meets(token: Token, expected: Expected) -> bool {
    match expected {
        Expected::ThreadIdentifier => token is ThreadIdentifier,
        Expected::Pipe => token is Pipe,
        Expected::Operation => operation_of(token) is Some,
        Expected::LeftParenthesis => token is LeftParenthesis,
        Expected::Operand => operand_of(token) is Some,
        Expected::RightParenthesis => token is RightParenthesis,
        Expected::LineNumber => token is LineNumber,
        Expected::EndOfInput => false,
    }
}

/// Whether the line has a token at `location` and it is the one that the grammar wants there.
pub open spec fn fits(tokens: Seq<Token>, location: int) -> bool {
    0 <= location < tokens.len() && meets(tokens[location], expected_at(location))
}

/// The first place at which the line departs from the grammar: the index of
/// the first token that does not fit, the number of tokens where the line
/// ends too early, 8 where tokens follow a complete event. `None` where the
/// line is one event.
pub open spec fn departure(tokens: Seq<Token>) -> Option<int> {
    if !fits(tokens, 0) {
        Some(0)
    } else if !fits(tokens, 1) {
        Some(1)
    } else if !fits(tokens, 2) {
        Some(2)
    } else if !fits(tokens, 3) {
        Some(3)
    } else if !fits(tokens, 4) {
        Some(4)
    } else if !fits(tokens, 5) {
        Some(5)
    } else if !fits(tokens, 6) {
        Some(6)
    } else if !fits(tokens, 7) {
        Some(7)
    } else if tokens.len() > 8 {
        Some(8)
    } else {
        None
    }
}

/// The event that the tokens of a line write, or where and why they write none.
pub open spec fn parsed(tokens: Seq<Token>) -> Result<Event, ParseError> {
    match departure(tokens) {
        Some(location) => Err(
            ParseError { location: location as usize, expected: expected_at(location) },
        ),
        None => Ok(
            Event {
                thread_identifier: tokens[0]->ThreadIdentifier_0,
                operation: operation_of(tokens[2]).unwrap(),
                operand: operand_of(tokens[4]).unwrap(),
                loc: tokens[7]->LineNumber_0,
            },
        ),
    }
}

/// Reads the operation keyword at `location`.
fn parse_operation(tokens: &Vec<Token>, location: usize) -> (operation: Option<Operation>)
    ensures
        operation == if location < tokens.len() {
            operation_of(tokens[location as int])
        } else {
            None
        },
{
    if location >= tokens.len() {
        return None;
    }
    match tokens[location] {
        Token::Read => Some(Operation::Read),
        Token::Write => Some(Operation::Write),
        Token::Acquire => Some(Operation::Acquire),
        Token::Request => Some(Operation::Request),
        Token::Release => Some(Operation::Release),
        Token::Fork => Some(Operation::Fork),
        Token::Join => Some(Operation::Join),
        _ => None,
    }
}

/// Reads the typed identifier at `location`.
fn parse_operand(tokens: &Vec<Token>, location: usize) -> (operand: Option<Operand>)
    ensures
        operand == if location < tokens.len() {
            operand_of(tokens[location as int])
        } else {
            None
        },
{
    if location >= tokens.len() {
        return None;
    }
    match tokens[location] {
        Token::MemoryLocation(memory_location) => Some(Operand::MemoryLocation(memory_location)),
        Token::LockIdentifier(lock_identifier) => Some(Operand::LockIdentifier(lock_identifier)),
        Token::ThreadIdentifier(thread_identifier) => Some(
            Operand::ThreadIdentifier(thread_identifier),
        ),
        _ => None,
    }
}

/// Whether the token at `location` is the plain token `wanted`.
fn at_is(tokens: &Vec<Token>, location: usize, wanted: Token) -> (found: bool)
    ensures
        found == (location < tokens.len() && tokens[location as int] == wanted),
{
    location < tokens.len() && tokens[location] == wanted
}

/// The error for a line that departs from the grammar at `location`.
fn departs(location: usize, expected: Expected) -> (outcome: Result<Event, AnalyzerError>)
    ensures
        outcome == Err::<Event, AnalyzerError>(
            AnalyzerError::ParserError(ParseError { location, expected }),
        ),
{
    Err(AnalyzerError::ParserError(ParseError { location, expected }))
}

/// Reads the one event that the tokens of a line write.
///
/// Fails with the first place at which the tokens depart from the grammar
/// and with what the grammar wants there.
pub fn parse_event(tokens: Vec<Token>) -> (outcome: Result<Event, AnalyzerError>)
    ensures
        outcome == match parsed(tokens@) {
            Ok(event) => Ok(event),
            Err(error) => Err(AnalyzerError::ParserError(error)),
        },
        outcome matches Ok(event) ==> event.operand.spec_id() is Some,
{
    let thread_identifier = if tokens.len() > 0 {
        match tokens[0] {
            Token::ThreadIdentifier(thread_identifier) => thread_identifier,
            _ => { return departs(0, Expected::ThreadIdentifier); },
        }
    } else {
        return departs(0, Expected::ThreadIdentifier);
    };
    if !at_is(&tokens, 1, Token::Pipe) {
        return departs(1, Expected::Pipe);
    }
    let operation = match parse_operation(&tokens, 2) {
        Some(operation) => operation,
        None => { return departs(2, Expected::Operation); },
    };
    if !at_is(&tokens, 3, Token::LeftParenthesis) {
        return departs(3, Expected::LeftParenthesis);
    }
    let operand = match parse_operand(&tokens, 4) {
        Some(operand) => operand,
        None => { return departs(4, Expected::Operand); },
    };
    if !at_is(&tokens, 5, Token::RightParenthesis) {
        return departs(5, Expected::RightParenthesis);
    }
    if !at_is(&tokens, 6, Token::Pipe) {
        return departs(6, Expected::Pipe);
    }
    let loc = if tokens.len() > 7 {
        match tokens[7] {
            Token::LineNumber(loc) => loc,
            _ => { return departs(7, Expected::LineNumber); },
        }
    } else {
        return departs(7, Expected::LineNumber);
    };
    if tokens.len() > EVENT_TOKENS {
        return departs(EVENT_TOKENS, Expected::EndOfInput);
    }
    Ok(Event { thread_identifier, operation, operand, loc })
}

} // verus!
