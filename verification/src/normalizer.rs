//! Normalization of a token sequence: traces that write every operand as a
//! bare number are brought into the form that the event grammar reads.

use crate::token::Token;
use vstd::prelude::*;

verus! {

/// Whether the token is one of the seven operation keywords.
pub open spec fn is_operation(token: Token) -> bool {
    token is Write || token is Read || token is Fork || token is Join || token is Request
        || token is Acquire || token is Release
}

/// The number `value` as the kind of operand that `operation` works on: a
/// memory location for a read or a write, a thread for a fork or a join, a
/// lock for a request, an acquire or a release.
pub open spec fn retagged(operation: Token, value: i64) -> Token {
    match operation {
        Token::Write | Token::Read => Token::MemoryLocation(value),
        Token::Fork | Token::Join => Token::ThreadIdentifier(value),
        _ => Token::LockIdentifier(value),
    }
}

/// What normalization makes of the tokens from `at` on.
///
/// An operation stands for three tokens: itself and the two that follow it.
/// In their place come the operation, an opening parenthesis and, where the
/// second of the two is a bare number, that number with the operation's
/// kind; where it is anything else, or the tokens end before it, nothing
/// more. Every other token stays.
pub open spec fn normalized_from(tokens: Seq<Token>, at: int) -> Seq<Token>
    decreases tokens.len() - at,
{
    if at < 0 || at >= tokens.len() {
        Seq::empty()
    } else if is_operation(tokens[at]) {
        let operand = if at + 2 < tokens.len() && tokens[at + 2] is LineNumber {
            seq![retagged(tokens[at], tokens[at + 2]->LineNumber_0)]
        } else {
            Seq::empty()
        };
        let rest = if at + 3 <= tokens.len() {
            normalized_from(tokens, at + 3)
        } else {
            Seq::empty()
        };
        seq![tokens[at], Token::LeftParenthesis] + operand + rest
    } else {
        seq![tokens[at]] + normalized_from(tokens, at + 1)
    }
}

/// What normalization makes of a token sequence.
pub open spec fn normalized(tokens: Seq<Token>) -> Seq<Token> {
    normalized_from(tokens, 0)
}

/// Gives the bare number behind each operation the kind of operand that the
/// operation works on.
pub fn normalize_tokens(tokens: Vec<Token>) -> (normalized_tokens: Vec<Token>)
    ensures
        normalized_tokens@ == normalized(tokens@),
{
    let mut normalized_tokens: Vec<Token> = Vec::new();
    let mut at: usize = 0;
    while at < tokens.len()
        invariant
            normalized(tokens@) == normalized_tokens@ + normalized_from(tokens@, at as int),
        decreases tokens.len() - at,
    {
        let ghost before = normalized_tokens@;
        let current_token = tokens[at];
        let operation = match current_token {
            Token::Write | Token::Read | Token::Fork | Token::Join | Token::Request
            | Token::Acquire | Token::Release => true,
            _ => false,
        };
        if operation {
            normalized_tokens.push(current_token);
            normalized_tokens.push(Token::LeftParenthesis);
            // the parenthesis and the number behind the operation
            if tokens.len() - at > 2 {
                if let Token::LineNumber(value) = tokens[at + 2] {
                    let operand = match current_token {
                        Token::Write | Token::Read => Token::MemoryLocation(value),
                        Token::Fork | Token::Join => Token::ThreadIdentifier(value),
                        _ => Token::LockIdentifier(value),
                    };
                    normalized_tokens.push(operand);
                }
            }
            let next = if tokens.len() - at > 2 {
                at + 3
            } else {
                tokens.len()
            };
            assert(normalized_tokens@ + normalized_from(tokens@, next as int) =~= before
                + normalized_from(tokens@, at as int));
            at = next;
        } else {
            normalized_tokens.push(current_token);
            assert(normalized_tokens@ + normalized_from(tokens@, at as int + 1) =~= before
                + normalized_from(tokens@, at as int));
            at += 1;
        }
    }
    assert(normalized_tokens@ + normalized_from(tokens@, at as int) =~= normalized_tokens@);
    normalized_tokens
}

} // verus!
