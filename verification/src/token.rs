//! The tokens of the textual trace format.

use crate::error::LexerError;
use crate::lexer::{lex, lexed};
use vstd::prelude::*;
use vstd::string::*;

verus! {

/// One token of a line of a textual trace.
#[derive(Clone, Copy, Debug, PartialEq, Eq, Structural)]
pub enum Token {
    // single char tokens
    /// `|`
    Pipe,
    /// `(`
    LeftParenthesis,
    /// `)`
    RightParenthesis,
    /// `[`
    LeftSquareBracket,
    /// `]`
    RightSquareBracket,
    /// `w`
    Write,
    /// `r`
    Read,
    // multi char tokens
    /// `T` and a number
    ThreadIdentifier(i64),
    /// `L` and a number
    LockIdentifier(i64),
    /// `V` and a number, with or without a field and an index behind it, as in `V1.2[3]`
    MemoryLocation(i64),
    /// `fork`
    Fork,
    /// `req`
    Request,
    /// `acq`
    Acquire,
    /// `rel`
    Release,
    /// `join`
    Join,
    /// A bare number
    LineNumber(i64),
}

/// Splits a line of a textual trace into its tokens, as they stand.
pub fn tokenize_source(source: String) -> (tokens: Result<Vec<Token>, LexerError>)
    ensures
        match lexed(source@) {
            Some(expected) => tokens matches Ok(found) && found@ == expected,
            None => tokens == Err::<Vec<Token>, LexerError>(LexerError::NonAsciiCharacter),
        },
{
    lex(source.as_str().as_bytes())
}

} // verus!
